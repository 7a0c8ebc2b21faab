//! The laws of the pipeline, proved over the specification functions that
//! the executable functions are verified against.

use vstd::prelude::*;
use crate::index::{
    entries_sorted, distinct_keys, map_of_entries, sorted_upsert, lemma_sorted_implies_distinct,
    lemma_map_of_entries_at, lemma_splice_map,
};
use crate::pipeline::{
    author_upsert_of, pass1_update, pass1_entries_update, index_entries_after, index_map_after,
    resolve_authors, edition_line_of, publish_year_of, is_digit, digit_val,
};
use crate::render::{BookView, book_json, json_string};
use crate::text::{
    strip_prefix_spec, str_lt, lemma_str_lt_irrefl, lemma_str_lt_total, lemma_str_lt_trans,
};

verus! {

/// An upsert into a sorted entry sequence keeps it sorted, changes the map
/// at the given key alone, and introduces no key but the given one.
pub proof fn lemma_sorted_upsert_props(s: Seq<(Seq<char>, Seq<char>)>, k: Seq<char>, v: Seq<char>)
    requires
        entries_sorted(s),
    ensures
        entries_sorted(sorted_upsert(s, k, v)),
        map_of_entries(sorted_upsert(s, k, v)) == map_of_entries(s).insert(k, v),
        forall|i: int|
            0 <= i < sorted_upsert(s, k, v).len() ==> ((#[trigger] sorted_upsert(s, k, v)[i]).0
                == k || exists|j: int| 0 <= j < s.len() && (#[trigger] s[j]).0 == sorted_upsert(
                s,
                k,
                v,
            )[i].0),
    decreases s.len(),
{
    let u = sorted_upsert(s, k, v);
    lemma_sorted_implies_distinct(s);
    if s.len() == 0 {
        assert(u =~= s.take(0) + seq![(k, v)] + s.skip(0));
        lemma_splice_map(s, 0, k, v);
        assert(u[0].0 == k);
    } else if str_lt(s[0].0, k) {
        let t = s.skip(1);
        assert forall|i: int, j: int| 0 <= i < j < t.len() implies str_lt(
            (#[trigger] t[i]).0,
            (#[trigger] t[j]).0,
        ) by {
            assert(t[i] == s[i + 1]);
            assert(t[j] == s[j + 1]);
        }
        lemma_sorted_upsert_props(t, k, v);
        let ut = sorted_upsert(t, k, v);
        assert(u == seq![s[0]] + ut);
        lemma_sorted_implies_distinct(ut);
        // s[0]'s key is neither k nor any key of t, so it is fresh for ut.
        assert forall|i: int| 0 <= i < ut.len() implies (#[trigger] ut[i]).0 != s[0].0 by {
            if ut[i].0 == k {
                lemma_str_lt_irrefl(k);
            } else {
                let j = choose|j: int| 0 <= j < t.len() && (#[trigger] t[j]).0 == ut[i].0;
                assert(t[j] == s[j + 1]);
                lemma_str_lt_irrefl(s[0].0);
            }
        }
        assert forall|i: int, j: int| 0 <= i < j < u.len() implies str_lt(
            (#[trigger] u[i]).0,
            (#[trigger] u[j]).0,
        ) by {
            if i == 0 {
                assert(u[j] == ut[j - 1]);
                if ut[j - 1].0 == k {
                } else {
                    let j2 = choose|j2: int|
                        0 <= j2 < t.len() && (#[trigger] t[j2]).0 == ut[j - 1].0;
                    assert(t[j2] == s[j2 + 1]);
                    assert(str_lt(s[0].0, s[j2 + 1].0));
                }
            } else {
                assert(u[i] == ut[i - 1]);
                assert(u[j] == ut[j - 1]);
            }
        }
        assert(seq![s[0]] + ut =~= ut.take(0) + seq![(s[0].0, s[0].1)] + ut.skip(0));
        lemma_splice_map(ut, 0, s[0].0, s[0].1);
        assert(seq![s[0]] + t =~= t.take(0) + seq![(s[0].0, s[0].1)] + t.skip(0));
        assert forall|i: int| 0 <= i < t.len() implies (#[trigger] t[i]).0 != s[0].0 by {
            assert(t[i] == s[i + 1]);
            lemma_str_lt_irrefl(s[0].0);
        }
        lemma_splice_map(t, 0, s[0].0, s[0].1);
        assert(s =~= seq![s[0]] + t);
        assert(map_of_entries(u) == map_of_entries(t).insert(k, v).insert(s[0].0, s[0].1));
        assert(map_of_entries(s).insert(k, v) == map_of_entries(t).insert(s[0].0, s[0].1).insert(
            k,
            v,
        ));
        lemma_str_lt_irrefl(k);
        assert(map_of_entries(t).insert(k, v).insert(s[0].0, s[0].1) =~= map_of_entries(t).insert(
            s[0].0,
            s[0].1,
        ).insert(k, v));
        assert forall|i: int| 0 <= i < u.len() implies ((#[trigger] u[i]).0 == k || exists|j: int|
            0 <= j < s.len() && (#[trigger] s[j]).0 == u[i].0) by {
            if i == 0 {
                assert(s[0].0 == u[0].0);
            } else {
                if ut[i - 1].0 != k {
                    let j = choose|j: int|
                        0 <= j < t.len() && (#[trigger] t[j]).0 == ut[i - 1].0;
                    assert(s[j + 1].0 == u[i].0);
                }
            }
        }
    } else if s[0].0 == k {
        let t = s.skip(1);
        assert(u == seq![(k, v)] + t);
        assert forall|i: int, j: int| 0 <= i < j < u.len() implies str_lt(
            (#[trigger] u[i]).0,
            (#[trigger] u[j]).0,
        ) by {
            if i == 0 {
                assert(u[j] == s[j]);
                assert(str_lt(s[0].0, s[j].0));
            } else {
                assert(u[i] == s[i]);
                assert(u[j] == s[j]);
            }
        }
        assert forall|i: int| 0 <= i < t.len() implies (#[trigger] t[i]).0 != k by {
            assert(t[i] == s[i + 1]);
        }
        assert(seq![(k, v)] + t =~= t.take(0) + seq![(k, v)] + t.skip(0));
        lemma_splice_map(t, 0, k, v);
        assert(seq![(s[0].0, s[0].1)] + t =~= t.take(0) + seq![(s[0].0, s[0].1)] + t.skip(0));
        lemma_splice_map(t, 0, s[0].0, s[0].1);
        assert(s =~= seq![(s[0].0, s[0].1)] + t);
        assert(map_of_entries(u) == map_of_entries(t).insert(k, v));
        assert(map_of_entries(s).insert(k, v) == map_of_entries(t).insert(k, s[0].1).insert(k, v));
        assert(map_of_entries(t).insert(k, s[0].1).insert(k, v) =~= map_of_entries(t).insert(
            k,
            v,
        ));
        assert forall|i: int| 0 <= i < u.len() implies ((#[trigger] u[i]).0 == k || exists|j: int|
            0 <= j < s.len() && (#[trigger] s[j]).0 == u[i].0) by {
            if i > 0 {
                assert(s[i].0 == u[i].0);
            }
        }
    } else {
        lemma_str_lt_total(s[0].0, k);
        assert(str_lt(k, s[0].0));
        assert(u == seq![(k, v)] + s);
        assert forall|i: int, j: int| 0 <= i < j < u.len() implies str_lt(
            (#[trigger] u[i]).0,
            (#[trigger] u[j]).0,
        ) by {
            if i == 0 {
                assert(u[j] == s[j - 1]);
                if j > 1 {
                    assert(str_lt(s[0].0, s[j - 1].0));
                    lemma_str_lt_trans(k, s[0].0, s[j - 1].0);
                }
            } else {
                assert(u[i] == s[i - 1]);
                assert(u[j] == s[j - 1]);
            }
        }
        assert forall|i: int| 0 <= i < s.len() implies (#[trigger] s[i]).0 != k by {
            if i > 0 && s[i].0 == k {
                assert(str_lt(s[0].0, s[i].0));
            }
        }
        assert(seq![(k, v)] + s =~= s.take(0) + seq![(k, v)] + s.skip(0));
        lemma_splice_map(s, 0, k, v);
        assert forall|i: int| 0 <= i < u.len() implies ((#[trigger] u[i]).0 == k || exists|j: int|
            0 <= j < s.len() && (#[trigger] s[j]).0 == u[i].0) by {
            if i > 0 {
                assert(s[i - 1].0 == u[i].0);
            }
        }
    }
}

/// After any first pass the entry sequence is sorted, and it stands for the
/// map that folding the row upserts produces.
pub proof fn lemma_index_after_props(rows: Seq<Seq<Seq<char>>>)
    ensures
        entries_sorted(index_entries_after(rows)),
        map_of_entries(index_entries_after(rows)) == index_map_after(rows),
    decreases rows.len(),
{
    if rows.len() == 0 {
        assert(map_of_entries(index_entries_after(rows)) =~= index_map_after(rows));
    } else {
        lemma_index_after_props(rows.drop_last());
        match author_upsert_of(rows.last()) {
            Some(kv) => {
                lemma_sorted_upsert_props(index_entries_after(rows.drop_last()), kv.0, kv.1);
            },
            None => {},
        }
    }
}

/// Last write wins: a qualifying author row whose identifier no later
/// qualifying row repeats decides that identifier's committed name.
pub proof fn lemma_index_last_write_wins(rows: Seq<Seq<Seq<char>>>, i: int)
    requires
        0 <= i < rows.len(),
        author_upsert_of(rows[i]) is Some,
        forall|j: int|
            i < j < rows.len() ==> (match author_upsert_of(#[trigger] rows[j]) {
                Some(kv) => kv.0 != author_upsert_of(rows[i]).unwrap().0,
                None => true,
            }),
    ensures
        index_map_after(rows).contains_key(author_upsert_of(rows[i]).unwrap().0),
        index_map_after(rows)[author_upsert_of(rows[i]).unwrap().0] == author_upsert_of(
            rows[i],
        ).unwrap().1,
    decreases rows.len(),
{
    let kv = author_upsert_of(rows[i]).unwrap();
    if i == rows.len() - 1 {
        assert(rows.last() == rows[i]);
    } else {
        let prev = rows.drop_last();
        assert(prev[i] == rows[i]);
        assert forall|j: int|
            i < j < prev.len() implies (match author_upsert_of(#[trigger] prev[j]) {
            Some(kv2) => kv2.0 != author_upsert_of(prev[i]).unwrap().0,
            None => true,
        }) by {
            assert(prev[j] == rows[j]);
        }
        lemma_index_last_write_wins(prev, i);
        assert(author_upsert_of(rows[rows.len() - 1]) matches Some(kv2) ==> kv2.0 != kv.0);
    }
}

/// A row whose payload yields no author name leaves the index untouched,
/// and the pass goes on: no error arises from it.
pub proof fn lemma_malformed_author_row_inert(
    m: Map<Seq<char>, Seq<char>>,
    s: Seq<(Seq<char>, Seq<char>)>,
    row: Seq<Seq<char>>,
)
    requires
        crate::payload::author_name_of(row[4]) is None,
    ensures
        pass1_update(m, row) == m,
        pass1_entries_update(s, row) == s,
{
}

/// A row that is neither author-prefixed nor edition-typed contributes
/// nothing: the index is unchanged and no output line arises.
pub proof fn lemma_other_rows_inert(
    m: Map<Seq<char>, Seq<char>>,
    s: Seq<(Seq<char>, Seq<char>)>,
    row: Seq<Seq<char>>,
)
    requires
        row.len() >= 5,
        strip_prefix_spec(row[1], "/authors/"@) is None,
        row[0] != "/type/edition"@,
    ensures
        pass1_update(m, row) == m,
        pass1_entries_update(s, row) == s,
        edition_line_of(m, row) is None,
{
}

/// `x` is the committed name of some listed, author-prefixed reference.
pub open spec fn resolved_from(keys: Seq<Seq<char>>, m: Map<Seq<char>, Seq<char>>, x: Seq<char>) -> bool {
    exists|j: int|
        0 <= j < keys.len() && (match strip_prefix_spec(#[trigger] keys[j], "/authors/"@) {
            Some(kk) => m.contains_key(kk) && m[kk] == x,
            None => false,
        })
}

/// Resolution drops what it cannot resolve: never more names than listed
/// references, and every name comes from a listed, prefixed, committed key.
pub proof fn lemma_resolve_authors_bounds(keys: Seq<Seq<char>>, m: Map<Seq<char>, Seq<char>>)
    ensures
        resolve_authors(keys, m).len() <= keys.len(),
        forall|idx: int|
            0 <= idx < resolve_authors(keys, m).len() ==> resolved_from(
                keys,
                m,
                #[trigger] resolve_authors(keys, m)[idx],
            ),
    decreases keys.len(),
{
    if keys.len() == 0 {
    } else {
        lemma_resolve_authors_bounds(keys.skip(1), m);
        let rest = resolve_authors(keys.skip(1), m);
        let r = resolve_authors(keys, m);
        assert(keys.skip(1).len() == keys.len() - 1);
        assert forall|idx: int| 0 <= idx < r.len() implies resolved_from(keys, m, r[idx]) by {
            let in_head = match strip_prefix_spec(keys[0], "/authors/"@) {
                Some(kk) => m.contains_key(kk),
                None => false,
            };
            let shift: int = if in_head {
                1
            } else {
                0
            };
            if in_head && idx == 0 {
                assert(0 <= 0 < keys.len() && (match strip_prefix_spec(keys[0], "/authors/"@) {
                    Some(kk) => m.contains_key(kk) && m[kk] == r[0],
                    None => false,
                }));
            } else {
                assert(r[idx] == rest[idx - shift]);
                assert(resolved_from(keys.skip(1), m, rest[idx - shift]));
                let j0 = choose|j0: int|
                    0 <= j0 < keys.skip(1).len() && (match strip_prefix_spec(
                        #[trigger] keys.skip(1)[j0],
                        "/authors/"@,
                    ) {
                        Some(kk) => m.contains_key(kk) && m[kk] == rest[idx - shift],
                        None => false,
                    });
                assert(keys.skip(1)[j0] == keys[j0 + 1]);
                assert(0 <= j0 + 1 < keys.len() && (match strip_prefix_spec(
                    #[trigger] keys[j0 + 1],
                    "/authors/"@,
                ) {
                    Some(kk) => m.contains_key(kk) && m[kk] == r[idx],
                    None => false,
                }));
            }
        }
    }
}

/// The year heuristic: trailing four digits decide the year; a date shorter
/// than four characters yields none.
pub proof fn lemma_publish_year_cases(d: Seq<char>)
    ensures
        d.len() < 4 ==> publish_year_of(d) is None,
        (d.len() >= 4 && is_digit(d[d.len() as int - 4]) && is_digit(d[d.len() as int - 3])
            && is_digit(d[d.len() as int - 2]) && is_digit(d[d.len() as int - 1]))
            ==> publish_year_of(d) == Some(
            (1000 * digit_val(d[d.len() as int - 4]) + 100 * digit_val(d[d.len() as int - 3]) + 10
                * digit_val(d[d.len() as int - 2]) + digit_val(d[d.len() as int - 1])) as u32,
        ),
        (d.len() >= 4 && !(is_digit(d[d.len() as int - 4]) && is_digit(d[d.len() as int - 3])
            && is_digit(d[d.len() as int - 2]) && is_digit(d[d.len() as int - 1])))
            ==> publish_year_of(d) is None,
{
}

/// The omission law: a book with no resolved authors, no year, no page
/// count, no subjects and no external identifiers renders with none of
/// those keys — its line holds the type tag, the id and the name alone.
pub proof fn lemma_book_json_omission(b: BookView)
    requires
        b.authors.len() == 0,
        b.publish_year is None,
        b.number_of_pages is None,
        b.subjects.len() == 0,
        b.goodreads.len() == 0,
    ensures
        book_json(b) == "{\"type\":\"book\",\"id\":"@ + json_string(b.id) + ",\"name\":"@
            + json_string(b.name) + "}"@,
{
    assert(book_json(b) =~= "{\"type\":\"book\",\"id\":"@ + json_string(b.id) + ",\"name\":"@
        + json_string(b.name) + "}"@);
}

/// The set of identifiers of the qualifying author rows of a dump.
pub open spec fn author_ids_of(rows: Seq<Seq<Seq<char>>>) -> Set<Seq<char>>
    decreases rows.len(),
{
    if rows.len() == 0 {
        Set::<Seq<char>>::empty()
    } else {
        match author_upsert_of(rows.last()) {
            Some(kv) => author_ids_of(rows.drop_last()).insert(kv.0),
            None => author_ids_of(rows.drop_last()),
        }
    }
}

/// The author output stands one line for one identifier, in strictly
/// increasing key order, for exactly the identifiers of the qualifying
/// author rows, deduplicated.
pub proof fn lemma_author_lines_bijection(rows: Seq<Seq<Seq<char>>>)
    ensures
        entries_sorted(index_entries_after(rows)),
        distinct_keys(index_entries_after(rows)),
        map_of_entries(index_entries_after(rows)).dom() == author_ids_of(rows),
        forall|i: int|
            0 <= i < index_entries_after(rows).len() ==> author_ids_of(rows).contains(
                (#[trigger] index_entries_after(rows)[i]).0,
            ),
    decreases rows.len(),
{
    lemma_index_after_props(rows);
    lemma_sorted_implies_distinct(index_entries_after(rows));
    lemma_map_dom_is_author_ids(rows);
    let e = index_entries_after(rows);
    assert forall|i: int| 0 <= i < e.len() implies author_ids_of(rows).contains(
        (#[trigger] e[i]).0,
    ) by {
        lemma_map_of_entries_at(e, i);
    }
}

/// The committed keys are exactly the qualifying author identifiers.
pub proof fn lemma_map_dom_is_author_ids(rows: Seq<Seq<Seq<char>>>)
    ensures
        index_map_after(rows).dom() == author_ids_of(rows),
    decreases rows.len(),
{
    if rows.len() == 0 {
        assert(index_map_after(rows).dom() =~= author_ids_of(rows));
    } else {
        lemma_map_dom_is_author_ids(rows.drop_last());
        assert(index_map_after(rows).dom() =~= author_ids_of(rows));
    }
}

} // verus!
