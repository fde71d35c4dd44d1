//! The range-aware file-serving engine: given a file's length and an optional
//! parsed byte range, it computes the status code, the `Content-Range`
//! header, the content type, and the byte window to stream. No I/O happens
//! here; the caller stats, opens and streams the file.
use vstd::prelude::*;

use crate::byte_range::ByteRange;
use crate::byte_range::parse_range;
use crate::byte_range::spec_parse_range;
use crate::scanner::RelativizedPath;
use crate::scanner::find_served;
use crate::text::dec_bytes;
use crate::text::join_segments;
use crate::text::u64_dec;

verus! {

/// Whether a range can be satisfied by a file of `len` bytes.
pub open spec fn range_valid(r: ByteRange, len: u64) -> bool {
    match r {
        ByteRange::StartingAt(s) => s < len,
        ByteRange::Last(n) => n <= len,
        ByteRange::FromToIncluding(s, e) => s < len && e < len && s <= e,
    }
}

/// First byte offset served for a valid range.
pub open spec fn range_start(r: ByteRange, len: u64) -> int {
    match r {
        ByteRange::StartingAt(s) => s as int,
        ByteRange::Last(n) => len - n,
        ByteRange::FromToIncluding(s, e) => s as int,
    }
}

/// Last byte offset served (inclusive) for a valid range.
pub open spec fn range_end(r: ByteRange, len: u64) -> int {
    match r {
        ByteRange::StartingAt(s) => len - 1,
        ByteRange::Last(n) => len - 1,
        ByteRange::FromToIncluding(s, e) => e as int,
    }
}

/// The bytes of `bytes ` (with the trailing space).
pub open spec fn content_range_prefix() -> Seq<u8> {
    seq![98u8, 121u8, 116u8, 101u8, 115u8, 32u8]
}

/// The value of a `Content-Range` header `bytes {start}-{end}/{len}`.
pub open spec fn content_range_bytes(start: int, end: int, len: int) -> Seq<u8> {
    content_range_prefix() + dec_bytes(start as nat) + seq![45u8] + dec_bytes(end as nat)
        + seq![47u8] + dec_bytes(len as nat)
}

/// The value of a `Content-Range` header `bytes */{len}`, sent with a
/// 416 response.
pub open spec fn unsatisfied_content_range_bytes(len: u64) -> Seq<u8> {
    content_range_prefix() + seq![42u8, 47u8] + dec_bytes(len as nat)
}

/// Builds `bytes {start}-{end}/{len}`.
pub fn content_range_header(start: u64, end: u64, len: u64) -> (r: Vec<u8>)
    ensures
        r@ == content_range_bytes(start as int, end as int, len as int),
{
    let mut v: Vec<u8> = vec![98u8, 121u8, 116u8, 101u8, 115u8, 32u8];
    let mut part = u64_dec(start);
    v.append(&mut part);
    v.push(45);
    let mut part = u64_dec(end);
    v.append(&mut part);
    v.push(47);
    let mut part = u64_dec(len);
    v.append(&mut part);
    proof {
        assert(v@ =~= content_range_bytes(start as int, end as int, len as int));
    }
    v
}

/// Builds `bytes */{len}`.
pub fn unsatisfied_content_range_header(len: u64) -> (r: Vec<u8>)
    ensures
        r@ == unsatisfied_content_range_bytes(len),
{
    let mut v: Vec<u8> = vec![98u8, 121u8, 116u8, 101u8, 115u8, 32u8, 42u8, 47u8];
    let mut part = u64_dec(len);
    v.append(&mut part);
    proof {
        assert(v@ =~= unsatisfied_content_range_bytes(len));
    }
    v
}

pub uninterp spec fn mime_of(name: Seq<char>) -> Option<Seq<char>>;

/// Relies on mime_guess::from_path: the MIME type guessed from the file
/// name's extension, when one can be determined. The result depends on the
/// name alone.
#[verifier::external_body]
fn guess_mime(file_name: &str) -> (r: Option<String>)
    ensures
        match (r, mime_of(file_name@)) {
            (Some(a), Some(b)) => a@ == b,
            (None, None) => true,
            _ => false,
        },
{
    mime_guess::from_path(file_name).first().map(|m| m.to_string())
}

pub uninterp spec fn percent_decoded(s: Seq<char>) -> Option<Seq<char>>;

/// Relies on percent_encoding::percent_decode_str: replaces each `%xx`
/// escape by its byte and returns the result when it is valid UTF-8. The
/// result depends on the input alone.
#[verifier::external_body]
fn percent_decode_path(s: &str) -> (r: Option<String>)
    ensures
        match (r, percent_decoded(s@)) {
            (Some(a), Some(b)) => a@ == b,
            (None, None) => true,
            _ => false,
        },
{
    match percent_encoding::percent_decode_str(s).decode_utf8() {
        Ok(c) => Some(c.into_owned()),
        Err(_) => None,
    }
}

/// Everything a caller needs to emit the response for one file request:
/// the status code, the `Content-Range` header value when one is owed, the
/// content type when one could be guessed, and the byte window to stream
/// (`start` offset, `length` bytes).
pub struct ServePlan {
    pub status: u16,
    pub content_range: Option<Vec<u8>>,
    pub content_type: Option<String>,
    pub start: u64,
    pub length: u64,
}

/// Whether `ct` is the guessed content type for `name`.
pub open spec fn content_type_matches(ct: Option<String>, name: Seq<char>) -> bool {
    match (ct, mime_of(name)) {
        (Some(a), Some(b)) => a@ == b,
        (None, None) => true,
        _ => false,
    }
}

/// The full statement of what the response plan for a file of `len` bytes
/// named `name` under optional range `range` holds:
/// - no range: 200, the whole file, no `Content-Range` header;
/// - a satisfiable range: 206, the resolved inclusive window, header
///   `bytes {start}-{end}/{len}`;
/// - an unsatisfiable range: 416, header `bytes */{len}`, nothing streamed,
///   no content type.
pub open spec fn plan_matches(p: ServePlan, name: Seq<char>, len: u64, range: Option<ByteRange>) -> bool {
    match range {
        None => {
            &&& p.status == 200
            &&& p.content_range is None
            &&& p.start == 0
            &&& p.length == len
            &&& content_type_matches(p.content_type, name)
        },
        Some(r) => {
            if range_valid(r, len) {
                &&& p.status == 206
                &&& p.start == range_start(r, len)
                &&& p.length == range_end(r, len) - range_start(r, len) + 1
                &&& (p.content_range matches Some(h)
                    && h@ == content_range_bytes(range_start(r, len), range_end(r, len), len as int))
                &&& content_type_matches(p.content_type, name)
            } else {
                &&& p.status == 416
                &&& (p.content_range matches Some(h) && h@ == unsatisfied_content_range_bytes(len))
                &&& p.start == 0
                &&& p.length == 0
                &&& p.content_type is None
            }
        },
    }
}

/// Computes the response plan for a file of `file_len` bytes under an
/// optional byte range, per RFC 7233: 200 with the whole file when no range
/// was asked, 206 with the resolved window and its `Content-Range` header
/// when the range is satisfiable, 416 with `bytes */{len}` when it is not.
pub fn serve_file_range(file_name: &String, file_len: u64, range: &Option<ByteRange>) -> (p: ServePlan)
    requires
        match *range {
            Some(ByteRange::Last(n)) => !(file_len == 0 && n == 0),
            _ => true,
        },
    ensures
        plan_matches(p, file_name@, file_len, *range),
{
    match range {
        None => {
            let content_type = guess_mime(file_name.as_str());
            ServePlan {
                status: 200,
                content_range: None,
                content_type,
                start: 0,
                length: file_len,
            }
        },
        Some(r) => {
            let valid = match *r {
                ByteRange::StartingAt(s) => s < file_len,
                ByteRange::Last(n) => n <= file_len,
                ByteRange::FromToIncluding(s, e) => s < file_len && e < file_len && s <= e,
            };
            if valid {
                let (start, end) = match *r {
                    ByteRange::StartingAt(s) => (s, file_len - 1),
                    ByteRange::Last(n) => (file_len - n, file_len - 1),
                    ByteRange::FromToIncluding(s, e) => (s, e),
                };
                let header = content_range_header(start, end, file_len);
                let content_type = guess_mime(file_name.as_str());
                ServePlan {
                    status: 206,
                    content_range: Some(header),
                    content_type,
                    start,
                    length: end + 1 - start,
                }
            } else {
                ServePlan {
                    status: 416,
                    content_range: Some(unsatisfied_content_range_header(file_len)),
                    content_type: None,
                    start: 0,
                    length: 0,
                }
            }
        },
    }
}

/// A suffix range `Last(n)` asks for the same window as `StartingAt(len - n)`
/// when `1 <= n <= len`: any response plan fits one exactly when it fits the
/// other. (With `n == 0` the two differ: `Last(0)` is satisfiable and yields
/// an empty window, while `StartingAt(len)` is unsatisfiable.)
pub proof fn lemma_last_equivalent_to_starting_at(p: ServePlan, name: Seq<char>, len: u64, n: u64)
    requires
        1 <= n <= len,
    ensures
        plan_matches(p, name, len, Some(ByteRange::Last(n)))
            == plan_matches(p, name, len, Some(ByteRange::StartingAt((len - n) as u64))),
{
}

/// The headers every `/file/...` response carries, whatever the outcome:
/// the CORS allowance and the cache age of 48 hours, in seconds.
pub fn common_cors_headers() -> (r: Vec<(String, String)>)
    ensures
        r@.len() == 3,
        r@[0].0@ == "Access-Control-Allow-Origin"@ && r@[0].1@ == "*"@,
        r@[1].0@ == "Access-Control-Expose-Headers"@ && r@[1].1@
            == "Content-Type, Accept-Encoding, Range"@,
        r@[2].0@ == "Access-Control-Max-Age"@ && r@[2].1@ == "172800"@,
{
    let mut r: Vec<(String, String)> = Vec::new();
    r.push(("Access-Control-Allow-Origin".to_owned(), "*".to_owned()));
    r.push(
        (
            "Access-Control-Expose-Headers".to_owned(),
            "Content-Type, Accept-Encoding, Range".to_owned(),
        ),
    );
    r.push(("Access-Control-Max-Age".to_owned(), "172800".to_owned()));
    r
}

/// What the router decides for one `GET /file/<path>` request, before any
/// file I/O happens: reject it, report it unknown, or serve a physical path
/// under an optional single byte range.
pub enum RouteDecision {
    /// The `Range` header is present but not readable text: 400.
    InvalidRangeHeader,
    /// The percent-encoded path does not decode: 400.
    InvalidPath,
    /// The decoded path names no served-set entry: 404, whatever is on disk.
    NotFound,
    /// The `Range` header is text but breaks the grammar: 400.
    BadRange,
    /// Stream this physical file; a header naming exactly one range keeps
    /// it, one naming several is treated as if no range were present.
    Serve { path: Vec<String>, range: Option<ByteRange> },
}

/// Whether some served-set entry's client-visible identifier is `url`.
pub open spec fn served_contains(served: Seq<RelativizedPath>, url: Seq<char>) -> bool {
    exists|i: int| 0 <= i < served.len() && join_segments(#[trigger] served[i].deep_view().1) == url
}

/// Whether `path` is the physical path of the first served-set entry whose
/// client-visible identifier is `url`.
pub open spec fn serve_path_matches(
    path: Seq<Seq<char>>,
    served: Seq<RelativizedPath>,
    url: Seq<char>,
) -> bool {
    exists|i: int|
        {
            &&& 0 <= i < served.len()
            &&& join_segments(#[trigger] served[i].deep_view().1) == url
            &&& path == served[i].deep_view().0
            &&& forall|j: int|
                0 <= j < i ==> join_segments(#[trigger] served[j].deep_view().1) != url
        }
}

/// The full statement of the routing rules for a file request, in the order
/// they apply: an unreadable `Range` header is a client error; then the path
/// must percent-decode; then it must name a served-set entry (else 404,
/// whatever exists on disk); then a `Range` header must parse (else a client
/// error); a parsed header naming exactly one range keeps it, and one naming
/// several is served as if no range were present.
pub open spec fn route_matches(
    d: RouteDecision,
    served: Seq<RelativizedPath>,
    raw: Seq<char>,
    header: Option<Option<Seq<u8>>>,
) -> bool {
    if header matches Some(h) && h is None {
        d is InvalidRangeHeader
    } else {
        match percent_decoded(raw) {
            None => d is InvalidPath,
            Some(url) => {
                if !served_contains(served, url) {
                    d is NotFound
                } else {
                    match header {
                        None => {
                            &&& d matches RouteDecision::Serve { path, range }
                            &&& serve_path_matches(path.deep_view(), served, url)
                            &&& range is None
                        },
                        Some(bytes) => {
                            match spec_parse_range(bytes->Some_0) {
                                None => d is BadRange,
                                Some(rs) => {
                                    &&& d matches RouteDecision::Serve { path, range }
                                    &&& serve_path_matches(path.deep_view(), served, url)
                                    &&& (if rs.len() == 1 {
                                        range == Some(rs[0])
                                    } else {
                                        range is None
                                    })
                                },
                            }
                        },
                    }
                }
            },
        }
    }
}

/// Routes one file request: checks the `Range` header is readable text,
/// percent-decodes the requested path, looks it up in the served-set, and
/// parses the range. The header is handed over as it came off the wire:
/// `None` when absent, `Some(None)` when present but not readable text,
/// `Some(Some(bytes))` otherwise.
pub fn serve_file(
    served: &Vec<RelativizedPath>,
    raw_path: &String,
    range_header: &Option<Option<Vec<u8>>>,
) -> (d: RouteDecision)
    ensures
        route_matches(d, served@, raw_path@, range_header.deep_view()),
{
    let header_bytes: Option<&Vec<u8>> = match range_header {
        None => None,
        Some(None) => {
            return RouteDecision::InvalidRangeHeader;
        },
        Some(Some(b)) => Some(b),
    };
    let decoded = match percent_decode_path(raw_path.as_str()) {
        None => {
            return RouteDecision::InvalidPath;
        },
        Some(u) => u,
    };
    let entry = match find_served(served, &decoded) {
        None => {
            return RouteDecision::NotFound;
        },
        Some(e) => e,
    };
    proof {
        match header_bytes {
            Some(b) => {
                assert(b.deep_view() =~= b@);
                assert(range_header.deep_view() == Some(Some(b@)));
            },
            None => {},
        }
    }
    let range = match header_bytes {
        None => None,
        Some(bytes) => {
            match parse_range(bytes.as_slice()) {
                None => {
                    return RouteDecision::BadRange;
                },
                Some(rs) => {
                    if rs.len() == 1 {
                        Some(rs[0])
                    } else {
                        None
                    }
                },
            }
        },
    };
    let path = entry.duplicate().path;
    proof {
        let i = choose|i: int|
            {
                &&& 0 <= i < served@.len()
                &&& served@[i] == *entry
                &&& join_segments(served@[i].deep_view().1) == decoded@
                &&& forall|j: int|
                    0 <= j < i ==> join_segments(#[trigger] served@[j].deep_view().1) != decoded@
            };
        assert(0 <= i < served@.len() && join_segments(served@[i].deep_view().1) == decoded@
            && path.deep_view() == served@[i].deep_view().0);
        assert(serve_path_matches(path.deep_view(), served@, decoded@));
    }
    RouteDecision::Serve { path, range }
}

/// Serving is stateless: two response plans computed for the same file name,
/// length and range agree on every observable field, so repeating a request
/// yields an identical response.
pub proof fn lemma_serving_deterministic(
    p1: ServePlan,
    p2: ServePlan,
    name: Seq<char>,
    len: u64,
    range: Option<ByteRange>,
)
    requires
        plan_matches(p1, name, len, range),
        plan_matches(p2, name, len, range),
    ensures
        p1.status == p2.status,
        p1.start == p2.start,
        p1.length == p2.length,
        match (p1.content_range, p2.content_range) {
            (Some(a), Some(b)) => a@ == b@,
            (None, None) => true,
            _ => false,
        },
        match (p1.content_type, p2.content_type) {
            (Some(a), Some(b)) => a@ == b@,
            (None, None) => true,
            _ => false,
        },
{
}

} // verus!
