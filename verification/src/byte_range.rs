//! The HTTP `Range` header grammar (RFC 7233 `byte-ranges-specifier`).
//!
//! A header value is the literal prefix `bytes=`, optional leading commas
//! (each followed by optional spaces or tabs), then a comma-separated list
//! (spaces and tabs allowed around the commas) of one or more range-specs,
//! reaching to the end of the value. A range-spec is `<digits>-<digits>`,
//! `<digits>-` or `-<digits>`; numeric fields are unsigned 64-bit. Anything
//! else — input left over after the last range-spec, or a numeric field that
//! does not fit — is a syntax error for the whole header, never a partial
//! result.
use vstd::prelude::*;

verus! {

/// One clause of a `Range` header: a byte window of a file.
#[derive(Clone, Copy, Debug, PartialEq, Eq, Structural)]
pub enum ByteRange {
    /// Serve from this offset to the end of the file.
    StartingAt(u64),
    /// Serve the final `n` bytes of the file.
    Last(u64),
    /// Serve the inclusive window `[start, end]`.
    FromToIncluding(u64, u64),
}

pub open spec fn is_digit(b: u8) -> bool {
    48 <= b && b <= 57
}

pub open spec fn is_space(b: u8) -> bool {
    b == 32 || b == 9
}

/// Index of the first byte at or after `i` that is not a space or tab.
pub open spec fn skip_spaces(s: Seq<u8>, i: int) -> int
    decreases s.len() - i when 0 <= i <= s.len()
{
    if i < s.len() && is_space(s[i]) {
        skip_spaces(s, i + 1)
    } else {
        i
    }
}

/// Index just past the run of digits that starts at `i`.
pub open spec fn digits_end(s: Seq<u8>, i: int) -> int
    decreases s.len() - i when 0 <= i <= s.len()
{
    if i < s.len() && is_digit(s[i]) {
        digits_end(s, i + 1)
    } else {
        i
    }
}

/// Numeric value of the decimal digits `s[i..j)`.
pub open spec fn digits_value(s: Seq<u8>, i: int, j: int) -> nat
    decreases j - i when i <= j
{
    if j <= i {
        0
    } else {
        digits_value(s, i, j - 1) * 10 + (s[j - 1] - 48) as nat
    }
}

pub proof fn lemma_skip_spaces_bounds(s: Seq<u8>, i: int)
    requires
        0 <= i <= s.len(),
    ensures
        i <= skip_spaces(s, i) <= s.len(),
    decreases s.len() - i,
{
    if i < s.len() && is_space(s[i]) {
        lemma_skip_spaces_bounds(s, i + 1);
    }
}

pub proof fn lemma_digits_end_bounds(s: Seq<u8>, i: int)
    requires
        0 <= i <= s.len(),
    ensures
        i <= digits_end(s, i) <= s.len(),
        forall|k: int| i <= k < digits_end(s, i) ==> is_digit(s[k]),
    decreases s.len() - i,
{
    if i < s.len() && is_digit(s[i]) {
        lemma_digits_end_bounds(s, i + 1);
    }
}

/// A longer digit run never has a smaller value.
pub proof fn lemma_digits_value_monotonic(s: Seq<u8>, i: int, j: int, k: int)
    requires
        i <= j <= k,
    ensures
        digits_value(s, i, j) <= digits_value(s, i, k),
    decreases k - j,
{
    if j < k {
        lemma_digits_value_monotonic(s, i, j, k - 1);
        assert(digits_value(s, i, k) == digits_value(s, i, k - 1) * 10 + (s[k - 1] - 48) as nat);
        assert(digits_value(s, i, k - 1) <= digits_value(s, i, k - 1) * 10);
    }
}

/// What reading one range-spec at position `i` yields: the position just
/// past it and the range, or nothing if no spec can be read there. A numeric
/// field whose value does not fit in an unsigned 64-bit integer fails the
/// spec.
pub open spec fn spec_range_spec_at(s: Seq<u8>, i: int) -> Option<(int, ByteRange)> {
    let d1 = digits_end(s, i);
    if d1 > i {
        if digits_value(s, i, d1) > u64::MAX {
            None
        } else if d1 < s.len() && s[d1] == 45 {
            let v1 = digits_value(s, i, d1) as u64;
            let d2 = digits_end(s, d1 + 1);
            if d2 == d1 + 1 {
                Some((d1 + 1, ByteRange::StartingAt(v1)))
            } else if digits_value(s, d1 + 1, d2) <= u64::MAX {
                Some((d2, ByteRange::FromToIncluding(v1, digits_value(s, d1 + 1, d2) as u64)))
            } else {
                None
            }
        } else {
            None
        }
    } else if i < s.len() && s[i] == 45 {
        let d = digits_end(s, i + 1);
        if d > i + 1 && digits_value(s, i + 1, d) <= u64::MAX {
            Some((d, ByteRange::Last(digits_value(s, i + 1, d) as u64)))
        } else {
            None
        }
    } else {
        None
    }
}

/// Reading a range-spec consumes at least one byte and stays in bounds.
pub proof fn lemma_range_spec_at_advances(s: Seq<u8>, i: int)
    requires
        0 <= i <= s.len(),
        spec_range_spec_at(s, i) is Some,
    ensures
        i < spec_range_spec_at(s, i)->Some_0.0 <= s.len(),
{
    lemma_digits_end_bounds(s, i);
    if digits_end(s, i) > i {
        let d1 = digits_end(s, i);
        lemma_digits_end_bounds(s, d1 + 1);
    } else {
        lemma_digits_end_bounds(s, i + 1);
    }
}

/// The ranges that follow an already-read range-spec ending at `i`. What
/// remains must be empty, or a comma (with optional surrounding spaces)
/// followed by a further range-spec and again such a rest: anything else is
/// a syntax error for the whole header, never a partial result.
pub open spec fn spec_range_list_rest(s: Seq<u8>, i: int, acc: Seq<ByteRange>) -> Option<
    Seq<ByteRange>,
>
    decreases s.len() - i when 0 <= i <= s.len() via spec_range_list_rest_decreases
{
    if i == s.len() {
        Some(acc)
    } else {
        let j = skip_spaces(s, i);
        if j < s.len() && s[j] == 44 {
            let k = skip_spaces(s, j + 1);
            match spec_range_spec_at(s, k) {
                Some((next, r)) => spec_range_list_rest(s, next, acc.push(r)),
                None => None,
            }
        } else {
            None
        }
    }
}

#[via_fn]
proof fn spec_range_list_rest_decreases(s: Seq<u8>, i: int, acc: Seq<ByteRange>) {
    lemma_skip_spaces_bounds(s, i);
    let j = skip_spaces(s, i);
    if i < s.len() && j < s.len() && s[j] == 44 {
        lemma_skip_spaces_bounds(s, j + 1);
        let k = skip_spaces(s, j + 1);
        if spec_range_spec_at(s, k) is Some {
            lemma_range_spec_at_advances(s, k);
        }
    }
}

proof fn lemma_range_list_rest_len(s: Seq<u8>, i: int, acc: Seq<ByteRange>)
    requires
        0 <= i <= s.len(),
        spec_range_list_rest(s, i, acc) is Some,
    ensures
        spec_range_list_rest(s, i, acc)->Some_0.len() >= acc.len(),
    decreases s.len() - i,
{
    lemma_skip_spaces_bounds(s, i);
    let j = skip_spaces(s, i);
    if i < s.len() && j < s.len() && s[j] == 44 {
        lemma_skip_spaces_bounds(s, j + 1);
        let k = skip_spaces(s, j + 1);
        match spec_range_spec_at(s, k) {
            Some((next, r)) => {
                lemma_range_spec_at_advances(s, k);
                lemma_range_list_rest_len(s, next, acc.push(r));
            },
            None => {},
        }
    }
}

/// A header that parses never yields an empty list: it holds at least one
/// range-spec.
pub proof fn lemma_parse_range_nonempty(s: Seq<u8>)
    requires
        spec_parse_range(s) is Some,
    ensures
        spec_parse_range(s)->Some_0.len() >= 1,
{
    lemma_skip_leading_commas_bounds(s, 6);
    let i = skip_leading_commas(s, 6);
    match spec_range_spec_at(s, i) {
        Some((next, r)) => {
            lemma_range_spec_at_advances(s, i);
            lemma_range_list_rest_len(s, next, seq![r]);
        },
        None => {},
    }
}

/// Index just past the leading commas (each followed by optional spaces)
/// that may stand between the `bytes=` prefix and the first range-spec.
pub open spec fn skip_leading_commas(s: Seq<u8>, i: int) -> int
    decreases s.len() - i when 0 <= i <= s.len() via skip_leading_commas_decreases
{
    if i < s.len() && s[i] == 44 {
        skip_leading_commas(s, skip_spaces(s, i + 1))
    } else {
        i
    }
}

#[via_fn]
proof fn skip_leading_commas_decreases(s: Seq<u8>, i: int) {
    if i < s.len() && s[i] == 44 {
        lemma_skip_spaces_bounds(s, i + 1);
    }
}

pub proof fn lemma_skip_leading_commas_bounds(s: Seq<u8>, i: int)
    requires
        0 <= i <= s.len(),
    ensures
        i <= skip_leading_commas(s, i) <= s.len(),
    decreases s.len() - i,
{
    if i < s.len() && s[i] == 44 {
        lemma_skip_spaces_bounds(s, i + 1);
        lemma_skip_leading_commas_bounds(s, skip_spaces(s, i + 1));
    }
}

/// The bytes of the literal prefix `bytes=`.
pub open spec fn spec_prefix_ok(s: Seq<u8>) -> bool {
    &&& s.len() >= 6
    &&& s[0] == 98
    &&& s[1] == 121
    &&& s[2] == 116
    &&& s[3] == 101
    &&& s[4] == 115
    &&& s[5] == 61
}

/// What parsing a whole `Range` header value yields: the non-empty sequence
/// of ranges when the whole value matches the grammar, `None` on any syntax
/// error (bad prefix, no first range-spec, a numeric field that does not
/// fit, or input left over after the last range-spec).
pub open spec fn spec_parse_range(s: Seq<u8>) -> Option<Seq<ByteRange>> {
    if !spec_prefix_ok(s) {
        None
    } else {
        let i = skip_leading_commas(s, 6);
        match spec_range_spec_at(s, i) {
            None => None,
            Some((next, r)) => spec_range_list_rest(s, next, seq![r]),
        }
    }
}

fn skip_spaces_exec(s: &[u8], i: usize) -> (r: usize)
    requires
        i <= s.len(),
    ensures
        r == skip_spaces(s@, i as int),
        i <= r <= s.len(),
{
    let mut j = i;
    while j < s.len() && (s[j] == 32 || s[j] == 9)
        invariant
            i <= j <= s.len(),
            skip_spaces(s@, i as int) == skip_spaces(s@, j as int),
        decreases s.len() - j,
    {
        j = j + 1;
    }
    j
}

fn digits_end_exec(s: &[u8], i: usize) -> (r: usize)
    requires
        i <= s.len(),
    ensures
        r == digits_end(s@, i as int),
        i <= r <= s.len(),
{
    let mut j = i;
    while j < s.len() && 48 <= s[j] && s[j] <= 57
        invariant
            i <= j <= s.len(),
            digits_end(s@, i as int) == digits_end(s@, j as int),
        decreases s.len() - j,
    {
        j = j + 1;
    }
    j
}

/// The value of the decimal digits `s[start..end)`, or `None` if it does not
/// fit in an unsigned 64-bit integer.
fn parse_u64_digits(s: &[u8], start: usize, end: usize) -> (r: Option<u64>)
    requires
        start <= end <= s.len(),
        forall|k: int| start <= k < end ==> is_digit(s@[k]),
    ensures
        match r {
            Some(v) => v as nat == digits_value(s@, start as int, end as int),
            None => digits_value(s@, start as int, end as int) > u64::MAX,
        },
{
    let mut acc: u64 = 0;
    let mut k = start;
    while k < end
        invariant
            start <= k <= end <= s.len(),
            forall|t: int| start <= t < end ==> is_digit(s@[t]),
            acc as nat == digits_value(s@, start as int, k as int),
        decreases end - k,
    {
        let d = s[k] - 48;
        let next = match acc.checked_mul(10) {
            Some(x) => x.checked_add(d as u64),
            None => None,
        };
        match next {
            Some(x) => {
                acc = x;
            }
            None => {
                proof {
                    assert(digits_value(s@, start as int, k + 1) > u64::MAX);
                    lemma_digits_value_monotonic(s@, start as int, k + 1, end as int);
                }
                return None;
            }
        }
        k = k + 1;
    }
    Some(acc)
}

/// Reads one range-spec at position `i`, returning the position just past it
/// and the range.
fn range_spec_at(s: &[u8], i: usize) -> (r: Option<(usize, ByteRange)>)
    requires
        i <= s.len(),
    ensures
        r is Some <==> spec_range_spec_at(s@, i as int) is Some,
        r matches Some((n, br)) ==> spec_range_spec_at(s@, i as int) == Some((n as int, br)),
{
    proof {
        lemma_digits_end_bounds(s@, i as int);
    }
    let d1 = digits_end_exec(s, i);
    if d1 > i {
        match parse_u64_digits(s, i, d1) {
            None => None,
            Some(v1) => {
                if d1 < s.len() && s[d1] == 45 {
                    proof {
                        lemma_digits_end_bounds(s@, d1 + 1);
                    }
                    let d2 = digits_end_exec(s, d1 + 1);
                    if d2 > d1 + 1 {
                        match parse_u64_digits(s, d1 + 1, d2) {
                            Some(v2) => Some((d2, ByteRange::FromToIncluding(v1, v2))),
                            None => None,
                        }
                    } else {
                        Some((d1 + 1, ByteRange::StartingAt(v1)))
                    }
                } else {
                    None
                }
            }
        }
    } else if i < s.len() && s[i] == 45 {
        proof {
            lemma_digits_end_bounds(s@, i + 1);
        }
        let d = digits_end_exec(s, i + 1);
        if d > i + 1 {
            match parse_u64_digits(s, i + 1, d) {
                Some(v) => Some((d, ByteRange::Last(v))),
                None => None,
            }
        } else {
            None
        }
    } else {
        None
    }
}

/// Parses a whole `Range` header value: the non-empty list of ranges it
/// names, in order, when the whole value matches the grammar; `None` on any
/// syntax error, with input left over after the last range-spec and numeric
/// fields that do not fit both syntax errors — never a partial result.
pub fn parse_range(input: &[u8]) -> (r: Option<Vec<ByteRange>>)
    ensures
        r is Some <==> spec_parse_range(input@) is Some,
        r matches Some(v) ==> spec_parse_range(input@) == Some(v@),
{
    if input.len() < 6 || input[0] != 98 || input[1] != 121 || input[2] != 116 || input[3] != 101
        || input[4] != 115 || input[5] != 61 {
        return None;
    }
    let mut i: usize = 6;
    while i < input.len() && input[i] == 44
        invariant
            6 <= i <= input.len(),
            skip_leading_commas(input@, 6) == skip_leading_commas(input@, i as int),
        decreases input.len() - i,
    {
        i = skip_spaces_exec(input, i + 1);
    }
    let (first_next, first_range) = match range_spec_at(input, i) {
        None => {
            return None;
        }
        Some(x) => x,
    };
    proof {
        lemma_range_spec_at_advances(input@, i as int);
    }
    let mut acc: Vec<ByteRange> = Vec::new();
    acc.push(first_range);
    let mut pos = first_next;
    while pos < input.len()
        invariant
            pos <= input.len(),
            spec_parse_range(input@) == spec_range_list_rest(input@, pos as int, acc@),
        decreases input.len() - pos,
    {
        let j = skip_spaces_exec(input, pos);
        if j < input.len() && input[j] == 44 {
            let k = skip_spaces_exec(input, j + 1);
            match range_spec_at(input, k) {
                Some((next, r)) => {
                    proof {
                        lemma_range_spec_at_advances(input@, k as int);
                    }
                    acc.push(r);
                    pos = next;
                }
                None => {
                    return None;
                }
            }
        } else {
            return None;
        }
    }
    Some(acc)
}

} // verus!
