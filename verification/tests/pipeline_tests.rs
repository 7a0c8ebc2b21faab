use bibexport::pipeline::{export_dump, ExportError};

fn row(t: &str, id: &str, payload: &str) -> Vec<String> {
    vec![
        t.to_string(),
        id.to_string(),
        "x".to_string(),
        "2020-01-01".to_string(),
        payload.to_string(),
    ]
}

#[test]
fn end_to_end_one_author_one_edition() {
    let rows = vec![
        row("/type/author", "/authors/OL1A", "{\"name\":\"Jane Doe\"}"),
        row(
            "/type/edition",
            "/books/OL1M",
            "{\"title\":\"Book\",\"authors\":[{\"key\":\"/authors/OL1A\"}],\"publish_date\":\"1999\"}",
        ),
    ];
    let lines = export_dump(&rows).unwrap();
    assert_eq!(lines.len(), 2);
    assert_eq!(
        lines[0],
        "{\"type\":\"book\",\"id\":\"OL1M\",\"name\":\"Book\",\"authors\":[\"Jane Doe\"],\"publish_year\":1999}"
    );
    assert_eq!(lines[1], "{\"type\":\"author\",\"id\":\"OL1A\",\"name\":\"Jane Doe\"}");
}

#[test]
fn last_author_record_wins() {
    let rows = vec![
        row("/type/author", "/authors/OL1A", "{\"name\":\"First\"}"),
        row("/type/author", "/authors/OL1A", "{\"name\":\"Second\"}"),
    ];
    let lines = export_dump(&rows).unwrap();
    assert_eq!(lines, vec!["{\"type\":\"author\",\"id\":\"OL1A\",\"name\":\"Second\"}".to_string()]);
}

#[test]
fn malformed_author_payload_is_skipped_silently() {
    let rows = vec![
        row("/type/author", "/authors/OL1A", "not json at all"),
        row("/type/author", "/authors/OL2A", "{\"no_name\":true}"),
    ];
    let lines = export_dump(&rows).unwrap();
    assert_eq!(lines.len(), 0);
}

#[test]
fn unresolved_author_references_are_dropped() {
    let rows = vec![
        row("/type/author", "/authors/OL2A", "{\"name\":\"Known\"}"),
        row(
            "/type/edition",
            "/books/OL9M",
            "{\"title\":\"T\",\"authors\":[{\"key\":\"/authors/OLmissing\"},{\"key\":\"bad\"},{\"key\":\"/authors/OL2A\"}]}",
        ),
    ];
    let lines = export_dump(&rows).unwrap();
    assert_eq!(
        lines[0],
        "{\"type\":\"book\",\"id\":\"OL9M\",\"name\":\"T\",\"authors\":[\"Known\"]}"
    );
}

#[test]
fn all_unresolved_references_omit_the_authors_key() {
    let rows = vec![
        row(
            "/type/edition",
            "/books/OL9M",
            "{\"title\":\"T\",\"authors\":[{\"key\":\"/authors/OLmissing\"}]}",
        ),
    ];
    let lines = export_dump(&rows).unwrap();
    assert_eq!(lines[0], "{\"type\":\"book\",\"id\":\"OL9M\",\"name\":\"T\"}");
    assert!(!lines[0].contains("authors"));
}

#[test]
fn every_optional_field_rendered() {
    let rows = vec![
        row("/type/author", "/authors/OL2A", "{\"name\":\"A B\"}"),
        row(
            "/type/edition",
            "/books/OL9M",
            "{\"title\":\"T\",\"number_of_pages\":320,\"publish_date\":\"March 1987\",\"authors\":[{\"key\":\"/authors/OL2A\"}],\"identifiers\":{\"goodreads\":[\"123\",\"456\"]},\"subjects\":[\"Fantasy\",\"Maps\"]}",
        ),
    ];
    let lines = export_dump(&rows).unwrap();
    assert_eq!(
        lines[0],
        "{\"type\":\"book\",\"id\":\"OL9M\",\"name\":\"T\",\"authors\":[\"A B\"],\"publish_year\":1987,\"number_of_pages\":320,\"subjects\":[\"Fantasy\",\"Maps\"],\"goodreads\":[\"123\",\"456\"]}"
    );
}

#[test]
fn empty_optional_fields_omit_their_keys() {
    let rows = vec![
        row("/type/edition", "/books/OL3M", "{\"title\":\"Bare\",\"subjects\":[]}"),
    ];
    let lines = export_dump(&rows).unwrap();
    assert_eq!(lines[0], "{\"type\":\"book\",\"id\":\"OL3M\",\"name\":\"Bare\"}");
    assert!(!lines[0].contains("subjects"));
    assert!(!lines[0].contains("goodreads"));
    assert!(!lines[0].contains("publish_year"));
    assert!(!lines[0].contains("number_of_pages"));
}

#[test]
fn edition_without_title_is_skipped() {
    let rows = vec![
        row("/type/edition", "/books/OL3M", "{\"publish_date\":\"1999\"}"),
        row("/type/edition", "/books/OL4M", "not json"),
    ];
    let lines = export_dump(&rows).unwrap();
    assert_eq!(lines.len(), 0);
}

#[test]
fn other_row_types_are_inert() {
    let rows = vec![
        row("/type/work", "/works/OL1W", "{\"title\":\"W\"}"),
        row("/type/edition", "/authors/OL1A", "{\"title\":\"W\"}"),
        row("/type/redirect", "/books/OL1M", "{\"title\":\"W\"}"),
    ];
    let lines = export_dump(&rows).unwrap();
    assert_eq!(lines.len(), 0);
}

#[test]
fn short_row_aborts_the_run() {
    let rows = vec![
        vec!["/type/author".to_string(), "/authors/OL1A".to_string()],
    ];
    let r = export_dump(&rows);
    assert_eq!(r.unwrap_err(), ExportError::RowTooShort);
}

#[test]
fn authors_emitted_in_key_order_and_deduplicated() {
    let rows = vec![
        row("/type/author", "/authors/OL20A", "{\"name\":\"C\"}"),
        row("/type/author", "/authors/OL10A", "{\"name\":\"A\"}"),
        row("/type/author", "/authors/OL30A", "{\"name\":\"B\"}"),
        row("/type/author", "/authors/OL10A", "{\"name\":\"A2\"}"),
    ];
    let lines = export_dump(&rows).unwrap();
    assert_eq!(lines.len(), 3);
    assert_eq!(lines[0], "{\"type\":\"author\",\"id\":\"OL10A\",\"name\":\"A2\"}");
    assert_eq!(lines[1], "{\"type\":\"author\",\"id\":\"OL20A\",\"name\":\"C\"}");
    assert_eq!(lines[2], "{\"type\":\"author\",\"id\":\"OL30A\",\"name\":\"B\"}");
}

#[test]
fn edition_author_order_is_listing_order() {
    let rows = vec![
        row("/type/author", "/authors/OL1A", "{\"name\":\"Zed\"}"),
        row("/type/author", "/authors/OL2A", "{\"name\":\"Ann\"}"),
        row(
            "/type/edition",
            "/books/OL1M",
            "{\"title\":\"B\",\"authors\":[{\"key\":\"/authors/OL1A\"},{\"key\":\"/authors/OL2A\"}]}",
        ),
    ];
    let lines = export_dump(&rows).unwrap();
    assert_eq!(
        lines[0],
        "{\"type\":\"book\",\"id\":\"OL1M\",\"name\":\"B\",\"authors\":[\"Zed\",\"Ann\"]}"
    );
}

#[test]
fn string_content_is_escaped_as_json() {
    let rows = vec![
        row(
            "/type/edition",
            "/books/OL7M",
            "{\"title\":\"He said \\\"hi\\\"\\nback\\\\\"}",
        ),
    ];
    let lines = export_dump(&rows).unwrap();
    assert_eq!(
        lines[0],
        "{\"type\":\"book\",\"id\":\"OL7M\",\"name\":\"He said \\\"hi\\\"\\nback\\\\\"}"
    );
}
