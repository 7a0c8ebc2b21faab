use bibexport::index::AuthorIndex;
use bibexport::pipeline::{author_lines, is_gzip_path, publish_year_from_date};
use bibexport::render::{render_author, render_u64, BookRecord, render_book};
use bibexport::text::{str_eq, str_lt_exec, strip_prefix_str};

#[test]
fn publish_year_trailing_digits() {
    assert_eq!(publish_year_from_date("1987"), Some(1987));
    assert_eq!(publish_year_from_date("March 1987"), Some(1987));
    assert_eq!(publish_year_from_date("0000"), Some(0));
    assert_eq!(publish_year_from_date("87"), None);
    assert_eq!(publish_year_from_date(""), None);
    assert_eq!(publish_year_from_date("198x"), None);
    assert_eq!(publish_year_from_date("Mar-87"), None);
}

#[test]
fn gzip_suffix_detection() {
    assert!(is_gzip_path("dump.txt.gz"));
    assert!(is_gzip_path("a.gz"));
    assert!(!is_gzip_path("dump.txt"));
    assert!(!is_gzip_path(".gz"));
    assert!(!is_gzip_path("dir/.gz"));
    assert!(!is_gzip_path("gz"));
}

#[test]
fn prefix_stripping() {
    assert_eq!(
        strip_prefix_str("/authors/OL1A", "/authors/"),
        Some("OL1A".to_string())
    );
    assert_eq!(strip_prefix_str("/books/OL1M", "/authors/"), None);
    assert_eq!(strip_prefix_str("/auth", "/authors/"), None);
    assert_eq!(strip_prefix_str("/authors/", "/authors/"), Some("".to_string()));
}

#[test]
fn string_order_and_equality() {
    assert!(str_lt_exec("OL1A", "OL2A"));
    assert!(!str_lt_exec("OL2A", "OL1A"));
    assert!(str_lt_exec("OL1", "OL1A"));
    assert!(!str_lt_exec("OL1A", "OL1A"));
    assert!(str_eq("same", "same"));
    assert!(!str_eq("same", "other"));
}

#[test]
fn index_upsert_and_lookup() {
    let mut index = AuthorIndex::new();
    index.insert("OL2A".to_string(), "B".to_string());
    index.insert("OL1A".to_string(), "A".to_string());
    index.insert("OL2A".to_string(), "B2".to_string());
    assert_eq!(index.get("OL1A"), Some("A".to_string()));
    assert_eq!(index.get("OL2A"), Some("B2".to_string()));
    assert_eq!(index.get("OL3A"), None);
    assert_eq!(index.len(), 2);
}

#[test]
fn author_lines_follow_key_order() {
    let mut index = AuthorIndex::new();
    index.insert("b".to_string(), "B".to_string());
    index.insert("a".to_string(), "A".to_string());
    index.insert("c".to_string(), "C".to_string());
    let lines = author_lines(&index);
    assert_eq!(lines[0], "{\"type\":\"author\",\"id\":\"a\",\"name\":\"A\"}");
    assert_eq!(lines[1], "{\"type\":\"author\",\"id\":\"b\",\"name\":\"B\"}");
    assert_eq!(lines[2], "{\"type\":\"author\",\"id\":\"c\",\"name\":\"C\"}");
}

#[test]
fn decimal_rendering() {
    assert_eq!(render_u64(0), "0");
    assert_eq!(render_u64(7), "7");
    assert_eq!(render_u64(1999), "1999");
    assert_eq!(render_u64(18446744073709551615), "18446744073709551615");
}

#[test]
fn author_rendering_escapes() {
    assert_eq!(
        render_author("OL1A", "Jane \"JD\" Doe"),
        "{\"type\":\"author\",\"id\":\"OL1A\",\"name\":\"Jane \\\"JD\\\" Doe\"}"
    );
    assert_eq!(
        render_author("a\\b", "tab\there"),
        "{\"type\":\"author\",\"id\":\"a\\\\b\",\"name\":\"tab\\there\"}"
    );
}

#[test]
fn book_rendering_control_characters() {
    let b = BookRecord {
        id: "X".to_string(),
        name: "a\u{1}b".to_string(),
        authors: vec![],
        publish_year: None,
        number_of_pages: None,
        subjects: vec![],
        goodreads: vec![],
    };
    assert_eq!(
        render_book(&b),
        "{\"type\":\"book\",\"id\":\"X\",\"name\":\"a\\u0001b\"}"
    );
}
