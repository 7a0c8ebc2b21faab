//! The two-pass pipeline over dump rows. A row is an ordered sequence of
//! fields: field 0 the record type, field 1 the record's identifier path,
//! field 4 a JSON payload. Pass one collects authors into the index; pass two
//! turns edition rows into book lines against the committed index; finally
//! the index itself is drained, in key order, as the author lines.

use vstd::prelude::*;
use vstd::string::*;
use crate::index::{AuthorIndex, map_of_entries, sorted_upsert};
use crate::payload::{
    author_name_of, book_title_of, book_pages_of, book_date_of, book_author_keys_of,
    book_goodreads_of, book_subjects_of, parse_author_name, parse_book_title, parse_book_pages,
    parse_book_date, parse_book_author_keys, parse_book_goodreads, parse_book_subjects,
};
use crate::render::{
    BookRecord, BookView, book_json, author_json, render_book, render_author,
};
use crate::text::{strip_prefix_spec, strip_prefix_str, str_eq};

verus! {

/// A row qualifies for the index when its identifier path carries the author
/// prefix and its payload yields a name; this is what it contributes.
pub open spec fn author_upsert_of(row: Seq<Seq<char>>) -> Option<(Seq<char>, Seq<char>)> {
    if row.len() >= 5 {
        match strip_prefix_spec(row[1], "/authors/"@) {
            Some(id) => match author_name_of(row[4]) {
                Some(name) => Some((id, name)),
                None => None,
            },
            None => None,
        }
    } else {
        None
    }
}

/// One first-pass step, on the index map.
pub open spec fn pass1_update(m: Map<Seq<char>, Seq<char>>, row: Seq<Seq<char>>) -> Map<
    Seq<char>,
    Seq<char>,
> {
    match author_upsert_of(row) {
        Some(kv) => m.insert(kv.0, kv.1),
        None => m,
    }
}

/// One first-pass step, on the sorted entry sequence.
pub open spec fn pass1_entries_update(
    s: Seq<(Seq<char>, Seq<char>)>,
    row: Seq<Seq<char>>,
) -> Seq<(Seq<char>, Seq<char>)> {
    match author_upsert_of(row) {
        Some(kv) => sorted_upsert(s, kv.0, kv.1),
        None => s,
    }
}

/// The sorted index entries after a full first pass, in file order.
pub open spec fn index_entries_after(rows: Seq<Seq<Seq<char>>>) -> Seq<(Seq<char>, Seq<char>)>
    decreases rows.len(),
{
    if rows.len() == 0 {
        Seq::<(Seq<char>, Seq<char>)>::empty()
    } else {
        pass1_entries_update(index_entries_after(rows.drop_last()), rows.last())
    }
}

/// The index map after a full first pass, in file order.
pub open spec fn index_map_after(rows: Seq<Seq<Seq<char>>>) -> Map<Seq<char>, Seq<char>>
    decreases rows.len(),
{
    if rows.len() == 0 {
        Map::<Seq<char>, Seq<char>>::empty()
    } else {
        pass1_update(index_map_after(rows.drop_last()), rows.last())
    }
}

/// A decimal digit.
pub open spec fn is_digit(c: char) -> bool {
    48 <= c as int <= 57
}

/// The value of a decimal digit character.
pub open spec fn digit_val(c: char) -> int {
    c as int - 48
}

/// The year read from a free-text date: its trailing four characters, when
/// they are all digits; anything else yields no year.
pub open spec fn publish_year_of(d: Seq<char>) -> Option<u32> {
    if d.len() >= 4 && is_digit(d[d.len() as int - 4]) && is_digit(d[d.len() as int - 3])
        && is_digit(d[d.len() as int - 2]) && is_digit(d[d.len() as int - 1]) {
        Some(
            (1000 * digit_val(d[d.len() as int - 4]) + 100 * digit_val(d[d.len() as int - 3]) + 10
                * digit_val(d[d.len() as int - 2]) + digit_val(d[d.len() as int - 1])) as u32,
        )
    } else {
        None
    }
}

/// The year of an optional date.
pub open spec fn year_of_date_opt(d: Option<Seq<char>>) -> Option<u32> {
    match d {
        Some(t) => publish_year_of(t),
        None => None,
    }
}

/// The display names of the listed author references that carry the author
/// prefix and are committed in the index, in listing order; the rest are
/// dropped.
pub open spec fn resolve_authors(keys: Seq<Seq<char>>, m: Map<Seq<char>, Seq<char>>) -> Seq<
    Seq<char>,
>
    decreases keys.len(),
{
    if keys.len() == 0 {
        Seq::<Seq<char>>::empty()
    } else {
        let rest = resolve_authors(keys.skip(1), m);
        match strip_prefix_spec(keys[0], "/authors/"@) {
            Some(k) => if m.contains_key(k) {
                seq![m[k]] + rest
            } else {
                rest
            },
            None => rest,
        }
    }
}

/// The output line an edition row produces against the committed index map:
/// a row typed as an edition, with a book identifier path and a titled
/// payload, becomes the JSON text of its normalized book record.
pub open spec fn edition_line_of(m: Map<Seq<char>, Seq<char>>, row: Seq<Seq<char>>) -> Option<
    Seq<char>,
> {
    if row.len() >= 5 && row[0] == "/type/edition"@ {
        match strip_prefix_spec(row[1], "/books/"@) {
            Some(book_id) => match book_title_of(row[4]) {
                Some(title) => Some(
                    book_json(
                        BookView {
                            id: book_id,
                            name: title,
                            authors: resolve_authors(book_author_keys_of(row[4]), m),
                            publish_year: year_of_date_opt(book_date_of(row[4])),
                            number_of_pages: book_pages_of(row[4]),
                            subjects: book_subjects_of(row[4]),
                            goodreads: book_goodreads_of(row[4]),
                        },
                    ),
                ),
                None => None,
            },
            None => None,
        }
    } else {
        None
    }
}

/// The book lines of a full second pass, in file order.
pub open spec fn edition_lines_of(m: Map<Seq<char>, Seq<char>>, rows: Seq<Seq<Seq<char>>>) -> Seq<
    Seq<char>,
>
    decreases rows.len(),
{
    if rows.len() == 0 {
        Seq::<Seq<char>>::empty()
    } else {
        edition_lines_of(m, rows.drop_last()) + (match edition_line_of(m, rows.last()) {
            Some(l) => seq![l],
            None => Seq::<Seq<char>>::empty(),
        })
    }
}

/// The author lines of an entry sequence, in storage order.
pub open spec fn author_lines_of(s: Seq<(Seq<char>, Seq<char>)>) -> Seq<Seq<char>> {
    Seq::new(s.len(), |i: int| author_json(s[i].0, s[i].1))
}

/// Every row carries at least the five leading fields.
pub open spec fn rows_well_formed(rows: Seq<Seq<Seq<char>>>) -> bool {
    forall|i: int| 0 <= i < rows.len() ==> (#[trigger] rows[i]).len() >= 5
}

/// Every output line of a run over the given rows: the book lines in file
/// order, then the author lines in key order.
pub open spec fn export_lines(rows: Seq<Seq<Seq<char>>>) -> Seq<Seq<char>> {
    edition_lines_of(map_of_entries(index_entries_after(rows)), rows) + author_lines_of(
        index_entries_after(rows),
    )
}

/// What aborts a run. A row without the five leading fields fails the whole
/// pass; malformed payloads never do.
#[derive(Debug, PartialEq, Eq)]
pub enum ExportError {
    RowTooShort,
}

/// The path names a gzip-compressed file: it ends in a `.gz` extension that
/// follows some other character of its last component.
pub open spec fn gzip_path(p: Seq<char>) -> bool {
    p.len() >= 4 && p[p.len() as int - 3] == '.' && p[p.len() as int - 2] == 'g' && p[p.len()
        as int - 1] == 'z' && p[p.len() as int - 4] != '/'
}

/// Decides whether a dump path calls for transparent gzip decompression.
pub fn is_gzip_path(path: &str) -> (r: bool)
    ensures
        r == gzip_path(path@),
{
    let n: usize = path.unicode_len();
    if n < 4 {
        return false;
    }
    path.get_char(n - 3) == '.' && path.get_char(n - 2) == 'g' && path.get_char(n - 1) == 'z'
        && path.get_char(n - 4) != '/'
}

/// Reads the trailing-four-digit year out of a free-text date.
pub fn publish_year_from_date(d: &str) -> (r: Option<u32>)
    ensures
        r == publish_year_of(d@),
{
    let n: usize = d.unicode_len();
    if n < 4 {
        return None;
    }
    let c0 = d.get_char(n - 4);
    let c1 = d.get_char(n - 3);
    let c2 = d.get_char(n - 2);
    let c3 = d.get_char(n - 1);
    if (c0 as u32) >= 48 && (c0 as u32) <= 57 && (c1 as u32) >= 48 && (c1 as u32) <= 57 && (
    c2 as u32) >= 48 && (c2 as u32) <= 57 && (c3 as u32) >= 48 && (c3 as u32) <= 57 {
        let y: u32 = 1000 * ((c0 as u32) - 48) + 100 * ((c1 as u32) - 48) + 10 * ((c2 as u32) - 48)
            + ((c3 as u32) - 48);
        Some(y)
    } else {
        None
    }
}

/// First pass, one row: upsert a qualifying author row into the index,
/// leave everything else untouched.
pub fn pass1_step(index: &mut AuthorIndex, row: &Vec<String>)
    requires
        old(index).wf(),
        row@.len() >= 5,
    ensures
        final(index).wf(),
        final(index).entry_seq() == pass1_entries_update(
            old(index).entry_seq(),
            row.deep_view(),
        ),
        final(index).as_map() == pass1_update(old(index).as_map(), row.deep_view()),
{
    proof {
        assert(row.deep_view()[1] == row@[1]@);
        assert(row.deep_view()[4] == row@[4]@);
    }
    if let Some(id) = strip_prefix_str(row[1].as_str(), "/authors/") {
        if let Some(name) = parse_author_name(row[4].as_str()) {
            index.insert(id, name);
        }
    }
}

/// Resolves the listed author references against the committed index.
pub fn resolve_author_names(index: &AuthorIndex, keys: &Vec<String>) -> (r: Vec<String>)
    requires
        index.wf(),
    ensures
        r.deep_view() == resolve_authors(keys.deep_view(), index.as_map()),
{
    let ghost kv = keys.deep_view();
    let ghost m = index.as_map();
    let mut out: Vec<String> = Vec::new();
    let mut i: usize = 0;
    proof {
        assert(kv.skip(0) =~= kv);
        assert(out.deep_view() + resolve_authors(kv, m) =~= resolve_authors(kv, m));
    }
    while i < keys.len()
        invariant
            index.wf(),
            m == index.as_map(),
            kv == keys.deep_view(),
            kv.len() == keys@.len(),
            i <= keys@.len(),
            resolve_authors(kv, m) == out.deep_view() + resolve_authors(kv.skip(i as int), m),
        decreases keys@.len() - i,
    {
        proof {
            assert(kv.skip(i as int)[0] == kv[i as int]);
            assert(kv[i as int] == keys@[i as int]@);
            assert(kv.skip(i as int).skip(1) =~= kv.skip(i as int + 1));
        }
        let ghost out0 = out.deep_view();
        if let Some(stripped) = strip_prefix_str(keys[i].as_str(), "/authors/") {
            if let Some(name) = index.get(stripped.as_str()) {
                out.push(name);
                proof {
                    assert(out.deep_view() =~= out0.push(name@));
                    assert(out0.push(name@) + resolve_authors(kv.skip(i as int + 1), m) =~= out0
                        + (seq![name@] + resolve_authors(kv.skip(i as int + 1), m)));
                }
            }
        }
        i += 1;
    }
    proof {
        assert(kv.skip(kv.len() as int) =~= Seq::<Seq<char>>::empty());
        assert(out.deep_view() + Seq::<Seq<char>>::empty() =~= out.deep_view());
    }
    out
}

/// Second pass, one row: the book line of a qualifying edition row, nothing
/// for any other row.
pub fn edition_line(index: &AuthorIndex, row: &Vec<String>) -> (r: Option<String>)
    requires
        index.wf(),
        row@.len() >= 5,
    ensures
        match r {
            Some(line) => edition_line_of(index.as_map(), row.deep_view()) == Some(line@),
            None => edition_line_of(index.as_map(), row.deep_view()) is None,
        },
{
    proof {
        assert(row.deep_view()[0] == row@[0]@);
        assert(row.deep_view()[1] == row@[1]@);
        assert(row.deep_view()[4] == row@[4]@);
    }
    if !str_eq(row[0].as_str(), "/type/edition") {
        return None;
    }
    let book_id = match strip_prefix_str(row[1].as_str(), "/books/") {
        Some(b) => b,
        None => {
            return None;
        },
    };
    let title = match parse_book_title(row[4].as_str()) {
        Some(t) => t,
        None => {
            return None;
        },
    };
    let keys = parse_book_author_keys(row[4].as_str());
    let authors = resolve_author_names(index, &keys);
    let date = parse_book_date(row[4].as_str());
    let publish_year = match date {
        Some(d) => publish_year_from_date(d.as_str()),
        None => None,
    };
    let number_of_pages = parse_book_pages(row[4].as_str());
    let subjects = parse_book_subjects(row[4].as_str());
    let goodreads = parse_book_goodreads(row[4].as_str());
    let record = BookRecord { id: book_id, name: title, authors, publish_year, number_of_pages, subjects, goodreads };
    let line = render_book(&record);
    proof {
        let row_v = row.deep_view();
        let bv = BookView {
            id: strip_prefix_spec(row_v[1], "/books/"@).unwrap(),
            name: book_title_of(row_v[4]).unwrap(),
            authors: resolve_authors(book_author_keys_of(row_v[4]), index.as_map()),
            publish_year: year_of_date_opt(book_date_of(row_v[4])),
            number_of_pages: book_pages_of(row_v[4]),
            subjects: book_subjects_of(row_v[4]),
            goodreads: book_goodreads_of(row_v[4]),
        };
        assert(record@ =~~= bv);
        assert(edition_line_of(index.as_map(), row_v) == Some(line@));
    }
    Some(line)
}

/// Third pass: one author line per committed entry, in key order.
pub fn author_lines(index: &AuthorIndex) -> (r: Vec<String>)
    requires
        index.wf(),
    ensures
        r.deep_view() == author_lines_of(index.entry_seq()),
{
    let mut out: Vec<String> = Vec::new();
    let mut i: usize = 0;
    while i < index.entries.len()
        invariant
            i <= index.entries@.len(),
            out@.len() == i,
            forall|j: int| 0 <= j < i ==> #[trigger] out.deep_view()[j] == author_lines_of(
                index.entry_seq(),
            )[j],
        decreases index.entries@.len() - i,
    {
        let ghost before = out.deep_view();
        let line = render_author(index.entries[i].id.as_str(), index.entries[i].name.as_str());
        out.push(line);
        proof {
            assert(index.entry_seq()[i as int].0 == index.entries@[i as int].id@);
            assert(index.entry_seq()[i as int].1 == index.entries@[i as int].name@);
            assert(out.deep_view() =~= before.push(line@));
            assert(out.deep_view()[i as int] == author_lines_of(index.entry_seq())[i as int]);
        }
        i += 1;
    }
    proof {
        assert(out.deep_view() =~= author_lines_of(index.entry_seq()));
    }
    out
}

/// A whole run over the rows of a dump: build and commit the author index,
/// stream the book lines, then drain the index as author lines. A row
/// without its five leading fields aborts the run.
pub fn export_dump(rows: &Vec<Vec<String>>) -> (r: Result<Vec<String>, ExportError>)
    ensures
        match r {
            Ok(lines) => rows_well_formed(rows.deep_view()) && lines.deep_view() == export_lines(
                rows.deep_view(),
            ),
            Err(e) => !rows_well_formed(rows.deep_view()) && e == ExportError::RowTooShort,
        },
{
    let ghost rv = rows.deep_view();
    let mut index = AuthorIndex::new();
    let mut i: usize = 0;
    proof {
        assert(rv.take(0) =~= Seq::<Seq<Seq<char>>>::empty());
    }
    while i < rows.len()
        invariant
            rv == rows.deep_view(),
            rv.len() == rows@.len(),
            i <= rows@.len(),
            index.wf(),
            forall|j: int| 0 <= j < i ==> (#[trigger] rv[j]).len() >= 5,
            index.entry_seq() == index_entries_after(rv.take(i as int)),
        decreases rows@.len() - i,
    {
        proof {
            assert(rv[i as int] == rows@[i as int].deep_view());
        }
        if rows[i].len() < 5 {
            proof {
                assert(rv[i as int].len() < 5);
            }
            return Err(ExportError::RowTooShort);
        }
        pass1_step(&mut index, &rows[i]);
        proof {
            assert(rv.take(i as int + 1).drop_last() =~= rv.take(i as int));
            assert(rv.take(i as int + 1).last() == rv[i as int]);
        }
        i += 1;
    }
    proof {
        assert(rv.take(rv.len() as int) =~= rv);
    }
    let ghost committed = index_entries_after(rv);
    let ghost m = map_of_entries(committed);
    let mut lines: Vec<String> = Vec::new();
    let mut k: usize = 0;
    proof {
        assert(rv.take(0) =~= Seq::<Seq<Seq<char>>>::empty());
        assert(lines.deep_view() =~= edition_lines_of(m, rv.take(0)));
    }
    while k < rows.len()
        invariant
            rv == rows.deep_view(),
            rv.len() == rows@.len(),
            k <= rows@.len(),
            rows_well_formed(rv),
            index.wf(),
            index.entry_seq() == committed,
            m == index.as_map(),
            lines.deep_view() == edition_lines_of(m, rv.take(k as int)),
        decreases rows@.len() - k,
    {
        proof {
            assert(rv[k as int] == rows@[k as int].deep_view());
            assert(rv.take(k as int + 1).drop_last() =~= rv.take(k as int));
            assert(rv.take(k as int + 1).last() == rv[k as int]);
        }
        let ghost before = lines.deep_view();
        let line_opt = edition_line(&index, &rows[k]);
        if let Some(line) = line_opt {
            lines.push(line);
            proof {
                assert(lines.deep_view() =~= before.push(line@));
                assert(before.push(line@) =~= before + seq![line@]);
            }
        } else {
            proof {
                assert(before + Seq::<Seq<char>>::empty() =~= before);
            }
        }
        k += 1;
    }
    proof {
        assert(rv.take(rv.len() as int) =~= rv);
    }
    let ghost editions = lines.deep_view();
    let alines = author_lines(&index);
    let mut a: usize = 0;
    while a < alines.len()
        invariant
            alines.deep_view() == author_lines_of(committed),
            alines.deep_view().len() == alines@.len(),
            a <= alines@.len(),
            lines.deep_view() == editions + alines.deep_view().take(a as int),
        decreases alines@.len() - a,
    {
        let ghost before = lines.deep_view();
        let next = alines[a].clone();
        proof {
            assert(alines.deep_view()[a as int] == alines@[a as int]@);
        }
        lines.push(next);
        proof {
            assert(lines.deep_view() =~= before.push(alines.deep_view()[a as int]));
            assert(editions + alines.deep_view().take(a as int + 1) =~= before.push(
                alines.deep_view()[a as int],
            ));
        }
        a += 1;
    }
    proof {
        assert(alines.deep_view().take(alines.deep_view().len() as int) =~= alines.deep_view());
        assert(lines.deep_view() =~= export_lines(rv));
    }
    Ok(lines)
}

} // verus!
