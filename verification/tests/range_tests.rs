use movie_nexus::byte_range::{parse_range, ByteRange};

#[test]
fn parses_from_to_including() {
    let r = parse_range(b"bytes=0-0").unwrap();
    assert_eq!(r, vec![ByteRange::FromToIncluding(0, 0)]);
}

#[test]
fn parses_starting_at() {
    let r = parse_range(b"bytes=42-").unwrap();
    assert_eq!(r, vec![ByteRange::StartingAt(42)]);
}

#[test]
fn parses_suffix_form() {
    let r = parse_range(b"bytes=-5").unwrap();
    assert_eq!(r, vec![ByteRange::Last(5)]);
}

#[test]
fn rejects_malformed_header() {
    assert!(parse_range(b"bytes=abc").is_none());
}

#[test]
fn rejects_missing_prefix() {
    assert!(parse_range(b"0-5").is_none());
    assert!(parse_range(b"byte=0-5").is_none());
    assert!(parse_range(b"").is_none());
}

#[test]
fn rejects_lone_dash() {
    assert!(parse_range(b"bytes=-").is_none());
}

#[test]
fn parses_two_specs() {
    let r = parse_range(b"bytes=0-0,5-5").unwrap();
    assert_eq!(
        r,
        vec![
            ByteRange::FromToIncluding(0, 0),
            ByteRange::FromToIncluding(5, 5)
        ]
    );
}

#[test]
fn parses_specs_with_spaces_around_commas() {
    let r = parse_range(b"bytes=0-1 ,\t2-3, -4").unwrap();
    assert_eq!(
        r,
        vec![
            ByteRange::FromToIncluding(0, 1),
            ByteRange::FromToIncluding(2, 3),
            ByteRange::Last(4)
        ]
    );
}

#[test]
fn parses_leading_commas() {
    let r = parse_range(b"bytes=,, 7-").unwrap();
    assert_eq!(r, vec![ByteRange::StartingAt(7)]);
}

#[test]
fn rejects_overflowing_start() {
    // one more than the largest unsigned 64-bit value
    assert!(parse_range(b"bytes=18446744073709551616-").is_none());
}

#[test]
fn accepts_largest_value() {
    let r = parse_range(b"bytes=18446744073709551615-").unwrap();
    assert_eq!(r, vec![ByteRange::StartingAt(u64::MAX)]);
}

#[test]
fn rejects_overflowing_end() {
    // a numeric field that does not fit fails the whole header
    assert!(parse_range(b"bytes=1-18446744073709551616").is_none());
}

#[test]
fn rejects_trailing_input() {
    // the whole value must match the grammar
    assert!(parse_range(b"bytes=0-5xyz").is_none());
    assert!(parse_range(b"bytes=1-2;x").is_none());
}

#[test]
fn rejects_unreadable_continuation() {
    assert!(parse_range(b"bytes=0-5,abc").is_none());
}

#[test]
fn rejects_trailing_separators() {
    assert!(parse_range(b"bytes=0-5,").is_none());
    assert!(parse_range(b"bytes=0-5 ").is_none());
}
