use movie_nexus::byte_range::ByteRange;
use movie_nexus::scanner::RelativizedPath;
use movie_nexus::serving::{
    common_cors_headers, serve_file, serve_file_range, RouteDecision, ServePlan,
};

fn segs(parts: &[&str]) -> Vec<String> {
    parts.iter().map(|p| p.to_string()).collect()
}

fn name(n: &str) -> String {
    n.to_string()
}

#[test]
fn from_to_including_window() {
    // bytes s-e with s <= e < length: 206, the exact window
    let p = serve_file_range(&name("v.mp4"), 10, &Some(ByteRange::FromToIncluding(2, 4)));
    assert_eq!(p.status, 206);
    assert_eq!(p.content_range.as_deref(), Some(b"bytes 2-4/10".as_slice()));
    assert_eq!(p.start, 2);
    assert_eq!(p.length, 3);
}

#[test]
fn single_byte_window() {
    let p = serve_file_range(&name("v.mp4"), 10, &Some(ByteRange::FromToIncluding(0, 0)));
    assert_eq!(p.status, 206);
    assert_eq!(p.content_range.as_deref(), Some(b"bytes 0-0/10".as_slice()));
    assert_eq!(p.length, 1);
}

#[test]
fn starting_at_serves_to_end() {
    let p = serve_file_range(&name("v.mp4"), 10, &Some(ByteRange::StartingAt(3)));
    assert_eq!(p.status, 206);
    assert_eq!(p.content_range.as_deref(), Some(b"bytes 3-9/10".as_slice()));
    assert_eq!(p.start, 3);
    assert_eq!(p.length, 7);
}

#[test]
fn suffix_serves_last_bytes() {
    // bytes=-5 on a file of length 10: window 5-9
    let p = serve_file_range(&name("v.mp4"), 10, &Some(ByteRange::Last(5)));
    assert_eq!(p.status, 206);
    assert_eq!(p.content_range.as_deref(), Some(b"bytes 5-9/10".as_slice()));
    assert_eq!(p.start, 5);
    assert_eq!(p.length, 5);
}

#[test]
fn suffix_equals_starting_at() {
    let a = serve_file_range(&name("v.mp4"), 10, &Some(ByteRange::Last(4)));
    let b = serve_file_range(&name("v.mp4"), 10, &Some(ByteRange::StartingAt(6)));
    assert_eq!(a.status, b.status);
    assert_eq!(a.content_range, b.content_range);
    assert_eq!(a.start, b.start);
    assert_eq!(a.length, b.length);
}

#[test]
fn out_of_bounds_start_is_unsatisfiable() {
    let p = serve_file_range(&name("v.mp4"), 10, &Some(ByteRange::StartingAt(10)));
    assert_eq!(p.status, 416);
    assert_eq!(p.content_range.as_deref(), Some(b"bytes */10".as_slice()));
    assert_eq!(p.length, 0);
    assert!(p.content_type.is_none());
}

#[test]
fn out_of_bounds_end_is_unsatisfiable() {
    let p = serve_file_range(&name("v.mp4"), 10, &Some(ByteRange::FromToIncluding(5, 10)));
    assert_eq!(p.status, 416);
    assert_eq!(p.content_range.as_deref(), Some(b"bytes */10".as_slice()));
}

#[test]
fn reversed_window_is_unsatisfiable() {
    let p = serve_file_range(&name("v.mp4"), 10, &Some(ByteRange::FromToIncluding(7, 3)));
    assert_eq!(p.status, 416);
}

#[test]
fn oversized_suffix_is_unsatisfiable() {
    let p = serve_file_range(&name("v.mp4"), 10, &Some(ByteRange::Last(11)));
    assert_eq!(p.status, 416);
    assert_eq!(p.content_range.as_deref(), Some(b"bytes */10".as_slice()));
}

#[test]
fn no_range_serves_whole_file() {
    let p = serve_file_range(&name("v.mp4"), 10, &None);
    assert_eq!(p.status, 200);
    assert!(p.content_range.is_none());
    assert_eq!(p.start, 0);
    assert_eq!(p.length, 10);
}

#[test]
fn content_type_guessed_from_extension() {
    let p = serve_file_range(&name("v.mp4"), 10, &None);
    assert_eq!(p.content_type.as_deref(), Some("video/mp4"));
    let q = serve_file_range(&name("s.vtt"), 10, &None);
    assert_eq!(q.content_type.as_deref(), Some("text/vtt"));
    let r = serve_file_range(&name("noext"), 10, &None);
    assert!(r.content_type.is_none());
}

#[test]
fn repeated_request_gets_identical_response() {
    let run = || -> ServePlan { serve_file_range(&name("v.mp4"), 10, &Some(ByteRange::Last(5))) };
    let a = run();
    let b = run();
    assert_eq!(a.status, b.status);
    assert_eq!(a.content_range, b.content_range);
    assert_eq!(a.content_type, b.content_type);
    assert_eq!(a.start, b.start);
    assert_eq!(a.length, b.length);
    assert_eq!(a.status, 206);
    assert_eq!(a.content_range.as_deref(), Some(b"bytes 5-9/10".as_slice()));
}

fn sample_served() -> Vec<RelativizedPath> {
    vec![
        RelativizedPath::new(&segs(&["root"]), &segs(&["root", "a dir", "v.mp4"])),
        RelativizedPath::new(&segs(&["root"]), &segs(&["root", "plain.mp4"])),
    ]
}

#[test]
fn routes_percent_encoded_path_to_entry() {
    let served = sample_served();
    let d = serve_file(&served, &name("a%20dir/v.mp4"), &None);
    match d {
        RouteDecision::Serve { path, range } => {
            assert_eq!(path, segs(&["root", "a dir", "v.mp4"]));
            assert!(range.is_none());
        }
        _ => panic!("expected a serve decision"),
    }
}

#[test]
fn unknown_path_is_not_found() {
    // not in the served-set: 404, whatever exists on disk
    let served = sample_served();
    let d = serve_file(&served, &name("else.mp4"), &None);
    assert!(matches!(d, RouteDecision::NotFound));
}

#[test]
fn undecodable_path_is_rejected() {
    // %FF is not valid UTF-8 once decoded
    let served = sample_served();
    let d = serve_file(&served, &name("%FF"), &None);
    assert!(matches!(d, RouteDecision::InvalidPath));
}

#[test]
fn unreadable_range_header_is_rejected() {
    let served = sample_served();
    let d = serve_file(&served, &name("plain.mp4"), &Some(None));
    assert!(matches!(d, RouteDecision::InvalidRangeHeader));
}

#[test]
fn malformed_range_header_is_rejected() {
    let served = sample_served();
    let d = serve_file(
        &served,
        &name("plain.mp4"),
        &Some(Some(b"bytes=abc".to_vec())),
    );
    assert!(matches!(d, RouteDecision::BadRange));
}

#[test]
fn single_range_is_kept() {
    let served = sample_served();
    let d = serve_file(
        &served,
        &name("plain.mp4"),
        &Some(Some(b"bytes=0-0".to_vec())),
    );
    match d {
        RouteDecision::Serve { range, .. } => {
            assert_eq!(range, Some(ByteRange::FromToIncluding(0, 0)));
        }
        _ => panic!("expected a serve decision"),
    }
}

#[test]
fn two_ranges_are_served_as_no_range() {
    let served = sample_served();
    let d = serve_file(
        &served,
        &name("plain.mp4"),
        &Some(Some(b"bytes=0-0,5-5".to_vec())),
    );
    match d {
        RouteDecision::Serve { path, range } => {
            assert_eq!(path, segs(&["root", "plain.mp4"]));
            assert!(range.is_none());
        }
        _ => panic!("expected a serve decision"),
    }
}

#[test]
fn range_parsing_happens_after_lookup() {
    // an unknown path is 404 even under a malformed Range header
    let served = sample_served();
    let d = serve_file(&served, &name("else.mp4"), &Some(Some(b"bytes=abc".to_vec())));
    assert!(matches!(d, RouteDecision::NotFound));
}

#[test]
fn cors_headers_are_fixed() {
    let h = common_cors_headers();
    assert_eq!(h.len(), 3);
    assert_eq!(h[0].0, "Access-Control-Allow-Origin");
    assert_eq!(h[0].1, "*");
    assert_eq!(h[1].0, "Access-Control-Expose-Headers");
    assert_eq!(h[1].1, "Content-Type, Accept-Encoding, Range");
    assert_eq!(h[2].0, "Access-Control-Max-Age");
    assert_eq!(h[2].1, (48u32 * 60 * 60).to_string());
}

#[test]
fn zero_suffix_of_nonempty_file_is_an_empty_window() {
    let p = serve_file_range(&name("v.mp4"), 10, &Some(ByteRange::Last(0)));
    assert_eq!(p.status, 206);
    assert_eq!(p.content_range.as_deref(), Some(b"bytes 10-9/10".as_slice()));
    assert_eq!(p.length, 0);
}
