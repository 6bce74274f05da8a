use blog::filename::decode_filename;
use blog::filename::strip_ext;
use blog::filename::FilenameError;

#[test]
fn decode_returns_parts_verbatim() {
    let (year, month, day, rest) = decode_filename("2021-05-01-first.md").unwrap();
    assert_eq!(year, "2021");
    assert_eq!(month, "05");
    assert_eq!(day, "01");
    assert_eq!(rest, "first.md");
}

#[test]
fn decode_keeps_leading_zeros() {
    let (year, month, day, rest) = decode_filename("0099-01-02-x").unwrap();
    assert_eq!(year, "0099");
    assert_eq!(month, "01");
    assert_eq!(day, "02");
    assert_eq!(rest, "x");
}

#[test]
fn decode_does_not_split_the_remainder() {
    let (year, month, day, rest) = decode_filename("2014-12-14-a-dash-y-title.md").unwrap();
    assert_eq!(year, "2014");
    assert_eq!(month, "12");
    assert_eq!(day, "14");
    assert_eq!(rest, "a-dash-y-title.md");
}

#[test]
fn decode_fails_without_delimiters() {
    assert_eq!(decode_filename("abc"), Err(FilenameError::TooFewSegments));
}

#[test]
fn decode_fails_on_three_fields() {
    assert_eq!(decode_filename("2020-01-02"), Err(FilenameError::TooFewSegments));
    assert_eq!(decode_filename("2020-01-title"), Err(FilenameError::TooFewSegments));
}

#[test]
fn decode_allows_empty_remainder() {
    let (_, _, _, rest) = decode_filename("2020-01-02-").unwrap();
    assert_eq!(rest, "");
}

#[test]
fn strip_ext_cuts_last_extension() {
    assert_eq!(strip_ext("first.md"), "first");
    assert_eq!(strip_ext("archive.tar.gz"), "archive.tar");
}

#[test]
fn strip_ext_keeps_names_without_one() {
    assert_eq!(strip_ext("first"), "first");
    assert_eq!(strip_ext(".md"), ".md");
}
