use blog::header::parse_header;
use blog::header::HeaderError;

#[test]
fn roundtrip_parses_fields_and_body() {
    let text = "---\ntitle: T\nauthor: A\n---\n\nBODY";
    let (title, author, body_start) = parse_header(text).unwrap();
    assert_eq!(title, "T");
    assert_eq!(author, "A");
    assert_eq!(&text[body_start..], "BODY");
}

#[test]
fn fields_may_come_in_either_order() {
    let text = "---\nauthor: A\ntitle: T\n---\n\nB";
    let (title, author, _) = parse_header(text).unwrap();
    assert_eq!(title, "T");
    assert_eq!(author, "A");
}

#[test]
fn value_keeps_colons_and_dashes() {
    let text = "---\ntitle: a-b: c\nauthor: A\n---\n\nB";
    let (title, _, _) = parse_header(text).unwrap();
    assert_eq!(title, "a-b: c");
}

#[test]
fn third_field_is_refused() {
    let text = "---\ntitle: T\nauthor: A\nextra: X\n---\n\nB";
    match parse_header(text) {
        Err(HeaderError::UnknownField(k)) => assert_eq!(k, "extra"),
        other => panic!("expected an unknown-field error, got {:?}", other),
    }
}

#[test]
fn missing_author_is_refused() {
    let text = "---\ntitle: T\n---\n\nB";
    match parse_header(text) {
        Err(HeaderError::MissingField(k)) => assert_eq!(k, "author"),
        other => panic!("expected a missing-field error, got {:?}", other),
    }
}

#[test]
fn missing_title_is_refused() {
    let text = "---\nauthor: A\n---\n\nB";
    match parse_header(text) {
        Err(HeaderError::MissingField(k)) => assert_eq!(k, "title"),
        other => panic!("expected a missing-field error, got {:?}", other),
    }
}

#[test]
fn duplicate_field_is_refused() {
    let text = "---\ntitle: T\ntitle: U\nauthor: A\n---\n\nB";
    match parse_header(text) {
        Err(HeaderError::DuplicateField(k)) => assert_eq!(k, "title"),
        other => panic!("expected a duplicate-field error, got {:?}", other),
    }
}

#[test]
fn line_without_separator_is_refused() {
    let text = "---\ntitle T\nauthor: A\n---\n\nB";
    match parse_header(text) {
        Err(HeaderError::MalformedLine(l)) => assert_eq!(l, "title T"),
        other => panic!("expected a malformed-line error, got {:?}", other),
    }
}

#[test]
fn missing_open_marker_is_refused() {
    assert_eq!(parse_header("title: T\nauthor: A\n---\n\nB"), Err(HeaderError::OpenMarkerMissing));
    assert_eq!(parse_header(""), Err(HeaderError::OpenMarkerMissing));
}

#[test]
fn missing_close_marker_is_refused() {
    assert_eq!(parse_header("---\ntitle: T\nauthor: A\n"), Err(HeaderError::CloseMarkerMissing));
}

#[test]
fn close_marker_search_skips_the_opening() {
    // The first three dashes after the opening belong to an empty block, so
    // the complaint is about the missing fields, not about markers.
    let text = "---\n---\n\nB";
    match parse_header(text) {
        Err(HeaderError::MissingField(k)) => assert_eq!(k, "title"),
        other => panic!("expected a missing-field error, got {:?}", other),
    }
}

#[test]
fn extra_blank_lines_before_body_are_skipped() {
    let text = "---\ntitle: T\nauthor: A\n---\n\n\n\nBODY";
    let (_, _, body_start) = parse_header(text).unwrap();
    assert_eq!(&text[body_start..], "BODY");
}
