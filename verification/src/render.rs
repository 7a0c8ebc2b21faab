//! Serialization of the two output records as single-line JSON texts.
//! The exact character sequence of every line is specified, including the
//! rule that empty or absent optional fields are omitted outright.

use vstd::prelude::*;
use vstd::string::*;

verus! {

/// Hexadecimal digit characters, lower case.
pub open spec fn hex_digit(v: int) -> char {
    if v == 0 {
        '0'
    } else if v == 1 {
        '1'
    } else if v == 2 {
        '2'
    } else if v == 3 {
        '3'
    } else if v == 4 {
        '4'
    } else if v == 5 {
        '5'
    } else if v == 6 {
        '6'
    } else if v == 7 {
        '7'
    } else if v == 8 {
        '8'
    } else if v == 9 {
        '9'
    } else if v == 10 {
        'a'
    } else if v == 11 {
        'b'
    } else if v == 12 {
        'c'
    } else if v == 13 {
        'd'
    } else if v == 14 {
        'e'
    } else {
        'f'
    }
}

/// How one character appears inside a JSON string: quote and backslash are
/// escaped, control characters take their short escapes or `\u00..`.
pub open spec fn json_escaped_char(c: char) -> Seq<char> {
    if c == '"' {
        seq!['\\', '"']
    } else if c == '\\' {
        seq!['\\', '\\']
    } else if c == '\u{8}' {
        seq!['\\', 'b']
    } else if c == '\t' {
        seq!['\\', 't']
    } else if c == '\n' {
        seq!['\\', 'n']
    } else if c == '\u{c}' {
        seq!['\\', 'f']
    } else if c == '\r' {
        seq!['\\', 'r']
    } else if (c as int) < 32 {
        seq!['\\', 'u', '0', '0', hex_digit(c as int / 16), hex_digit(c as int % 16)]
    } else {
        seq![c]
    }
}

/// A whole character sequence escaped for JSON.
pub open spec fn json_escaped(s: Seq<char>) -> Seq<char>
    decreases s.len(),
{
    if s.len() == 0 {
        Seq::<char>::empty()
    } else {
        json_escaped_char(s[0]) + json_escaped(s.skip(1))
    }
}

/// A quoted, escaped JSON string text.
pub open spec fn json_string(s: Seq<char>) -> Seq<char> {
    seq!['"'] + json_escaped(s) + seq!['"']
}

/// Comma-separated JSON string texts, without brackets.
pub open spec fn json_string_list(items: Seq<Seq<char>>) -> Seq<char>
    decreases items.len(),
{
    if items.len() == 0 {
        Seq::<char>::empty()
    } else if items.len() == 1 {
        json_string(items[0])
    } else {
        json_string(items[0]) + seq![','] + json_string_list(items.skip(1))
    }
}

/// The decimal digits of a number, most significant first.
pub open spec fn dec_str(n: nat) -> Seq<char>
    decreases n,
{
    if n < 10 {
        seq![hex_digit(n as int)]
    } else {
        dec_str(n / 10) + seq![hex_digit((n % 10) as int)]
    }
}

pub proof fn lemma_json_escaped_snoc(t: Seq<char>, c: char)
    ensures
        json_escaped(t.push(c)) == json_escaped(t) + json_escaped_char(c),
    decreases t.len(),
{
    if t.len() == 0 {
        assert(t.push(c).len() == 1);
        assert(t.push(c)[0] == c);
        assert(t.push(c).skip(1) =~= Seq::<char>::empty());
        assert(json_escaped(t.push(c)) == json_escaped_char(c) + json_escaped(
            Seq::<char>::empty(),
        ));
        assert(json_escaped(t.push(c)) =~= json_escaped(t) + json_escaped_char(c));
    } else {
        assert(t.push(c).skip(1) =~= t.skip(1).push(c));
        lemma_json_escaped_snoc(t.skip(1), c);
        assert(json_escaped(t.push(c)) =~= json_escaped(t) + json_escaped_char(c));
    }
}

pub proof fn lemma_json_string_list_snoc(items: Seq<Seq<char>>, x: Seq<char>)
    requires
        items.len() >= 1,
    ensures
        json_string_list(items.push(x)) == json_string_list(items) + seq![','] + json_string(x),
    decreases items.len(),
{
    if items.len() == 1 {
        assert(items.push(x).skip(1) =~= seq![x]);
        assert(json_string_list(seq![x]) == json_string(x));
        assert(json_string_list(items.push(x)) =~= json_string_list(items) + seq![',']
            + json_string(x));
    } else {
        assert(items.push(x).skip(1) =~= items.skip(1).push(x));
        lemma_json_string_list_snoc(items.skip(1), x);
        assert(json_string_list(items.push(x)) =~= json_string_list(items) + seq![',']
            + json_string(x));
    }
}

/// Relies on std's `String::push`: appends exactly one character.
#[verifier::external_body]
pub(crate) fn push_char(s: &mut String, c: char)
    ensures
        final(s)@ == old(s)@.push(c),
{
    s.push(c);
}

/// The character of one hexadecimal digit value.
pub fn hex_digit_char(v: u8) -> (c: char)
    requires
        v < 16,
    ensures
        c == hex_digit(v as int),
{
    if v == 0 {
        '0'
    } else if v == 1 {
        '1'
    } else if v == 2 {
        '2'
    } else if v == 3 {
        '3'
    } else if v == 4 {
        '4'
    } else if v == 5 {
        '5'
    } else if v == 6 {
        '6'
    } else if v == 7 {
        '7'
    } else if v == 8 {
        '8'
    } else if v == 9 {
        '9'
    } else if v == 10 {
        'a'
    } else if v == 11 {
        'b'
    } else if v == 12 {
        'c'
    } else if v == 13 {
        'd'
    } else if v == 14 {
        'e'
    } else {
        'f'
    }
}

/// Renders a number in decimal.
pub fn render_u64(n: u64) -> (r: String)
    ensures
        r@ == dec_str(n as nat),
    decreases n,
{
    if n < 10 {
        let mut s = String::new();
        push_char(&mut s, hex_digit_char(n as u8));
        proof {
            assert(s@ =~= dec_str(n as nat));
        }
        s
    } else {
        let mut s = render_u64(n / 10);
        push_char(&mut s, hex_digit_char((n % 10) as u8));
        proof {
            assert((n / 10) as nat == (n as nat) / 10);
            assert((n % 10) as nat == (n as nat) % 10);
            assert(s@ =~= dec_str(n as nat));
        }
        s
    }
}

/// Appends the JSON escape of `s` to `out`.
pub fn escape_append(out: &mut String, s: &str)
    ensures
        final(out)@ == old(out)@ + json_escaped(s@),
{
    let len: usize = s.unicode_len();
    let mut i: usize = 0;
    proof {
        assert(s@.take(0) =~= Seq::<char>::empty());
        assert(out@ =~= old(out)@ + json_escaped(s@.take(0)));
    }
    while i < len
        invariant
            len == s@.len(),
            i <= len,
            out@ == old(out)@ + json_escaped(s@.take(i as int)),
        decreases len - i,
    {
        let c = s.get_char(i);
        proof {
            lemma_json_escaped_snoc(s@.take(i as int), c);
            assert(s@.take(i as int).push(c) =~= s@.take(i as int + 1));
        }
        if c == '"' {
            out.append("\\\"");
            proof {
                reveal_strlit("\\\"");
                assert("\\\""@ =~= json_escaped_char(c));
            }
        } else if c == '\\' {
            out.append("\\\\");
            proof {
                reveal_strlit("\\\\");
                assert("\\\\"@ =~= json_escaped_char(c));
            }
        } else if c == '\u{8}' {
            out.append("\\b");
            proof {
                reveal_strlit("\\b");
                assert("\\b"@ =~= json_escaped_char(c));
            }
        } else if c == '\t' {
            out.append("\\t");
            proof {
                reveal_strlit("\\t");
                assert("\\t"@ =~= json_escaped_char(c));
            }
        } else if c == '\n' {
            out.append("\\n");
            proof {
                reveal_strlit("\\n");
                assert("\\n"@ =~= json_escaped_char(c));
            }
        } else if c == '\u{c}' {
            out.append("\\f");
            proof {
                reveal_strlit("\\f");
                assert("\\f"@ =~= json_escaped_char(c));
            }
        } else if c == '\r' {
            out.append("\\r");
            proof {
                reveal_strlit("\\r");
                assert("\\r"@ =~= json_escaped_char(c));
            }
        } else if (c as u32) < 32 {
            out.append("\\u00");
            push_char(out, hex_digit_char(((c as u32) / 16) as u8));
            push_char(out, hex_digit_char(((c as u32) % 16) as u8));
            proof {
                reveal_strlit("\\u00");
            }
        } else {
            push_char(out, c);
        }
        proof {
            assert(out@ =~= old(out)@ + json_escaped(s@.take(i as int + 1)));
        }
        i += 1;
    }
    proof {
        assert(s@.take(len as int) =~= s@);
    }
}

/// Appends the quoted JSON string text of `s` to `out`.
pub fn append_json_string(out: &mut String, s: &str)
    ensures
        final(out)@ == old(out)@ + json_string(s@),
{
    out.append("\"");
    escape_append(out, s);
    out.append("\"");
    proof {
        reveal_strlit("\"");
        assert(out@ =~= old(out)@ + json_string(s@));
    }
}

/// Appends the comma-separated JSON string texts of `items` to `out`.
pub fn append_string_list(out: &mut String, items: &Vec<String>)
    ensures
        final(out)@ == old(out)@ + json_string_list(items.deep_view()),
{
    let ghost dv = items.deep_view();
    let mut i: usize = 0;
    while i < items.len()
        invariant
            dv == items.deep_view(),
            dv.len() == items@.len(),
            i <= items@.len(),
            i == 0 ==> out@ == old(out)@,
            i > 0 ==> out@ == old(out)@ + json_string_list(dv.take(i as int)),
        decreases items@.len() - i,
    {
        if i > 0 {
            out.append(",");
            proof {
                reveal_strlit(",");
            }
        }
        let ghost before = out@;
        append_json_string(out, items[i].as_str());
        proof {
            assert(dv[i as int] == items@[i as int]@);
            if i == 0 {
                assert(dv.take(1) =~= seq![dv[0]]);
                assert(out@ =~= old(out)@ + json_string_list(dv.take(1)));
            } else {
                lemma_json_string_list_snoc(dv.take(i as int), dv[i as int]);
                assert(dv.take(i as int).push(dv[i as int]) =~= dv.take(i as int + 1));
                assert(out@ =~= old(out)@ + json_string_list(dv.take(i as int + 1)));
            }
        }
        i += 1;
    }
    proof {
        if dv.len() == 0 {
            assert(out@ =~= old(out)@ + json_string_list(dv));
        } else {
            assert(dv.take(dv.len() as int) =~= dv);
        }
    }
}

/// A normalized book edition, ready for output.
pub struct BookRecord {
    pub id: String,
    pub name: String,
    pub authors: Vec<String>,
    pub publish_year: Option<u32>,
    pub number_of_pages: Option<u64>,
    pub subjects: Vec<String>,
    pub goodreads: Vec<String>,
}

/// The mathematical content of a book record.
#[verifier::ext_equal]
pub ghost struct BookView {
    pub id: Seq<char>,
    pub name: Seq<char>,
    pub authors: Seq<Seq<char>>,
    pub publish_year: Option<u32>,
    pub number_of_pages: Option<u64>,
    pub subjects: Seq<Seq<char>>,
    pub goodreads: Seq<Seq<char>>,
}

impl View for BookRecord {
    type V = BookView;

    open spec fn view(&self) -> BookView {
        BookView {
            id: self.id@,
            name: self.name@,
            authors: self.authors.deep_view(),
            publish_year: self.publish_year,
            number_of_pages: self.number_of_pages,
            subjects: self.subjects.deep_view(),
            goodreads: self.goodreads.deep_view(),
        }
    }
}

/// The one-line JSON text of a book record. Optional parts that are empty
/// or absent contribute nothing: their keys do not appear.
pub open spec fn book_json(b: BookView) -> Seq<char> {
    "{\"type\":\"book\",\"id\":"@ + json_string(b.id) + ",\"name\":"@ + json_string(b.name) + (
    if b.authors.len() > 0 {
        ",\"authors\":["@ + json_string_list(b.authors) + "]"@
    } else {
        Seq::<char>::empty()
    }) + (match b.publish_year {
        Some(y) => ",\"publish_year\":"@ + dec_str(y as nat),
        None => Seq::<char>::empty(),
    }) + (match b.number_of_pages {
        Some(p) => ",\"number_of_pages\":"@ + dec_str(p as nat),
        None => Seq::<char>::empty(),
    }) + (if b.subjects.len() > 0 {
        ",\"subjects\":["@ + json_string_list(b.subjects) + "]"@
    } else {
        Seq::<char>::empty()
    }) + (if b.goodreads.len() > 0 {
        ",\"goodreads\":["@ + json_string_list(b.goodreads) + "]"@
    } else {
        Seq::<char>::empty()
    }) + "}"@
}

/// The one-line JSON text of an author record.
pub open spec fn author_json(id: Seq<char>, name: Seq<char>) -> Seq<char> {
    "{\"type\":\"author\",\"id\":"@ + json_string(id) + ",\"name\":"@ + json_string(name) + "}"@
}

/// Renders a book record as its one-line JSON text.
#[verifier::rlimit(60)]
pub fn render_book(b: &BookRecord) -> (r: String)
    ensures
        r@ == book_json(b@),
{
    let mut out = String::new();
    out.append("{\"type\":\"book\",\"id\":");
    append_json_string(&mut out, b.id.as_str());
    out.append(",\"name\":");
    append_json_string(&mut out, b.name.as_str());
    let ghost g1 = "{\"type\":\"book\",\"id\":"@ + json_string(b@.id) + ",\"name\":"@
        + json_string(b@.name);
    proof {
        assert(out@ =~= g1);
    }
    let ghost g2 = g1 + (if b@.authors.len() > 0 {
        ",\"authors\":["@ + json_string_list(b@.authors) + "]"@
    } else {
        Seq::<char>::empty()
    });
    if b.authors.len() > 0 {
        out.append(",\"authors\":[");
        append_string_list(&mut out, &b.authors);
        out.append("]");
        proof {
            assert(out@ =~= g2);
        }
    } else {
        proof {
            assert(out@ =~= g2);
        }
    }
    let ghost g3 = g2 + (match b@.publish_year {
        Some(y) => ",\"publish_year\":"@ + dec_str(y as nat),
        None => Seq::<char>::empty(),
    });
    if let Some(y) = b.publish_year {
        out.append(",\"publish_year\":");
        let ys = render_u64(y as u64);
        out.append(ys.as_str());
        proof {
            assert((y as u64) as nat == y as nat);
            assert(out@ =~= g3);
        }
    } else {
        proof {
            assert(out@ =~= g3);
        }
    }
    let ghost g4 = g3 + (match b@.number_of_pages {
        Some(p) => ",\"number_of_pages\":"@ + dec_str(p as nat),
        None => Seq::<char>::empty(),
    });
    if let Some(p) = b.number_of_pages {
        out.append(",\"number_of_pages\":");
        let ps = render_u64(p);
        out.append(ps.as_str());
        proof {
            assert(out@ =~= g4);
        }
    } else {
        proof {
            assert(out@ =~= g4);
        }
    }
    let ghost g5 = g4 + (if b@.subjects.len() > 0 {
        ",\"subjects\":["@ + json_string_list(b@.subjects) + "]"@
    } else {
        Seq::<char>::empty()
    });
    if b.subjects.len() > 0 {
        out.append(",\"subjects\":[");
        append_string_list(&mut out, &b.subjects);
        out.append("]");
        proof {
            assert(out@ =~= g5);
        }
    } else {
        proof {
            assert(out@ =~= g5);
        }
    }
    let ghost g6 = g5 + (if b@.goodreads.len() > 0 {
        ",\"goodreads\":["@ + json_string_list(b@.goodreads) + "]"@
    } else {
        Seq::<char>::empty()
    });
    if b.goodreads.len() > 0 {
        out.append(",\"goodreads\":[");
        append_string_list(&mut out, &b.goodreads);
        out.append("]");
        proof {
            assert(out@ =~= g6);
        }
    } else {
        proof {
            assert(out@ =~= g6);
        }
    }
    out.append("}");
    proof {
        assert(out@ == g6 + "}"@);
        assert(book_json(b@) == g6 + "}"@);
    }
    out
}

/// Renders an author record as its one-line JSON text.
pub fn render_author(id: &str, name: &str) -> (r: String)
    ensures
        r@ == author_json(id@, name@),
{
    let mut out = String::new();
    out.append("{\"type\":\"author\",\"id\":");
    append_json_string(&mut out, id);
    out.append(",\"name\":");
    append_json_string(&mut out, name);
    out.append("}");
    proof {
        assert(out@ =~= author_json(id@, name@));
    }
    out
}

} // verus!
