//! Trusted boundary to the JSON decoder. Each record's fifth field is a JSON
//! payload; what a given payload text holds is a fixed function of the text,
//! so each projection below is given a name, and the wrapper that computes it
//! is believed to return exactly that named value.

use vstd::prelude::*;

verus! {

/// The `name` string of a JSON author payload, when the payload parses and
/// carries one.
pub uninterp spec fn author_name_of(payload: Seq<char>) -> Option<Seq<char>>;

/// The `title` string of a JSON edition payload; a payload without a readable
/// title yields nothing and the record is skipped.
pub uninterp spec fn book_title_of(payload: Seq<char>) -> Option<Seq<char>>;

/// The `number_of_pages` count of a JSON edition payload, when present.
pub uninterp spec fn book_pages_of(payload: Seq<char>) -> Option<u64>;

/// The free-text `publish_date` of a JSON edition payload, when present.
pub uninterp spec fn book_date_of(payload: Seq<char>) -> Option<Seq<char>>;

/// The `key` strings under `authors` of a JSON edition payload, in listing
/// order; empty when the list is absent.
pub uninterp spec fn book_author_keys_of(payload: Seq<char>) -> Seq<Seq<char>>;

/// The `goodreads` strings under `identifiers` of a JSON edition payload;
/// empty when absent.
pub uninterp spec fn book_goodreads_of(payload: Seq<char>) -> Seq<Seq<char>>;

/// The `subjects` strings of a JSON edition payload; empty when absent.
pub uninterp spec fn book_subjects_of(payload: Seq<char>) -> Seq<Seq<char>>;

/// Relies on serde_json (`from_str`, `Value::get`, `Value::as_str`): the
/// `name` string at the top of the payload, a function of the text alone.
#[verifier::external_body]
pub(crate) fn parse_author_name(payload: &str) -> (r: Option<String>)
    ensures
        match r {
            Some(n) => author_name_of(payload@) == Some(n@),
            None => author_name_of(payload@) is None,
        },
{
    let v: serde_json::Value = match serde_json::from_str(payload) {
        Ok(v) => v,
        Err(_) => return None,
    };
    v.get("name").and_then(|n| n.as_str()).map(|n| n.to_string())
}

/// Relies on serde_json (`from_str`, `Value::get`, `Value::as_str`): the
/// `title` string at the top of the payload, a function of the text alone.
#[verifier::external_body]
pub(crate) fn parse_book_title(payload: &str) -> (r: Option<String>)
    ensures
        match r {
            Some(t) => book_title_of(payload@) == Some(t@),
            None => book_title_of(payload@) is None,
        },
{
    let v: serde_json::Value = match serde_json::from_str(payload) {
        Ok(v) => v,
        Err(_) => return None,
    };
    v.get("title").and_then(|t| t.as_str()).map(|t| t.to_string())
}

/// Relies on serde_json (`from_str`, `Value::get`, `Value::as_u64`): the
/// `number_of_pages` count, a function of the text alone.
#[verifier::external_body]
pub(crate) fn parse_book_pages(payload: &str) -> (r: Option<u64>)
    ensures
        r == book_pages_of(payload@),
{
    let v: serde_json::Value = match serde_json::from_str(payload) {
        Ok(v) => v,
        Err(_) => return None,
    };
    v.get("number_of_pages").and_then(|p| p.as_u64())
}

/// Relies on serde_json (`from_str`, `Value::get`, `Value::as_str`): the
/// `publish_date` string, a function of the text alone.
#[verifier::external_body]
pub(crate) fn parse_book_date(payload: &str) -> (r: Option<String>)
    ensures
        match r {
            Some(d) => book_date_of(payload@) == Some(d@),
            None => book_date_of(payload@) is None,
        },
{
    let v: serde_json::Value = match serde_json::from_str(payload) {
        Ok(v) => v,
        Err(_) => return None,
    };
    v.get("publish_date").and_then(|d| d.as_str()).map(|d| d.to_string())
}

/// Relies on serde_json (`from_str`, `Value::get`, `Value::as_array`,
/// `Value::as_str`): the author reference keys, in listing order, a function
/// of the text alone.
#[verifier::external_body]
pub(crate) fn parse_book_author_keys(payload: &str) -> (r: Vec<String>)
    ensures
        r.deep_view() == book_author_keys_of(payload@),
{
    let v: serde_json::Value = match serde_json::from_str(payload) {
        Ok(v) => v,
        Err(_) => return Vec::new(),
    };
    match v.get("authors").and_then(|a| a.as_array()) {
        Some(arr) => arr.iter().filter_map(
            |e| e.get("key").and_then(|k| k.as_str()).map(|k| k.to_string()),
        ).collect(),
        None => Vec::new(),
    }
}

/// Relies on serde_json (`from_str`, `Value::get`, `Value::as_array`,
/// `Value::as_str`): the `goodreads` identifiers, a function of the text alone.
#[verifier::external_body]
pub(crate) fn parse_book_goodreads(payload: &str) -> (r: Vec<String>)
    ensures
        r.deep_view() == book_goodreads_of(payload@),
{
    let v: serde_json::Value = match serde_json::from_str(payload) {
        Ok(v) => v,
        Err(_) => return Vec::new(),
    };
    match v.get("identifiers").and_then(|i| i.get("goodreads")).and_then(|g| g.as_array()) {
        Some(arr) => arr.iter().filter_map(|g| g.as_str().map(|g| g.to_string())).collect(),
        None => Vec::new(),
    }
}

/// Relies on serde_json (`from_str`, `Value::get`, `Value::as_array`,
/// `Value::as_str`): the `subjects` strings, a function of the text alone.
#[verifier::external_body]
pub(crate) fn parse_book_subjects(payload: &str) -> (r: Vec<String>)
    ensures
        r.deep_view() == book_subjects_of(payload@),
{
    let v: serde_json::Value = match serde_json::from_str(payload) {
        Ok(v) => v,
        Err(_) => return Vec::new(),
    };
    match v.get("subjects").and_then(|x| x.as_array()) {
        Some(arr) => arr.iter().filter_map(|x| x.as_str().map(|x| x.to_string())).collect(),
        None => Vec::new(),
    }
}

} // verus!
