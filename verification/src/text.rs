//! Plain text helpers: decimal rendering of integers and slash-joining of
//! path segments.
use vstd::prelude::*;

verus! {

/// The decimal digits of `n` as ASCII bytes, most significant first.
pub open spec fn dec_bytes(n: nat) -> Seq<u8>
    decreases n,
{
    if n < 10 {
        seq![(n + 48) as u8]
    } else {
        dec_bytes(n / 10).push((n % 10 + 48) as u8)
    }
}

fn u64_dec_into(n: u64, out: &mut Vec<u8>)
    ensures
        final(out)@ == old(out)@ + dec_bytes(n as nat),
    decreases n,
{
    if n < 10 {
        out.push((n as u8) + 48);
        proof {
            assert(out@ =~= old(out)@ + dec_bytes(n as nat));
        }
    } else {
        u64_dec_into(n / 10, out);
        out.push(((n % 10) as u8) + 48);
        proof {
            assert(out@ =~= old(out)@ + dec_bytes(n as nat));
        }
    }
}

/// The decimal digits of `n` as ASCII bytes.
pub fn u64_dec(n: u64) -> (r: Vec<u8>)
    ensures
        r@ == dec_bytes(n as nat),
{
    let mut out: Vec<u8> = Vec::new();
    u64_dec_into(n, &mut out);
    proof {
        assert(out@ =~= dec_bytes(n as nat));
    }
    out
}

/// The segments joined by `/`, with no leading or trailing separator.
pub open spec fn join_segments(segs: Seq<Seq<char>>) -> Seq<char>
    decreases segs.len(),
{
    if segs.len() == 0 {
        Seq::empty()
    } else if segs.len() == 1 {
        segs[0]
    } else {
        join_segments(segs.drop_last()) + seq!['/'] + segs.last()
    }
}

/// Joins path segments with `/`.
pub fn join_path_segments(segs: &Vec<String>) -> (r: String)
    ensures
        r@ == join_segments(segs.deep_view()),
{
    let ghost gsegs = segs.deep_view();
    let mut out = String::new();
    let mut i: usize = 0;
    proof {
        assert(out@ =~= join_segments(gsegs.take(0)));
    }
    while i < segs.len()
        invariant
            i <= segs.len(),
            gsegs == segs.deep_view(),
            gsegs.len() == segs@.len(),
            forall|k: int| 0 <= k < segs@.len() ==> gsegs[k] == segs@[k]@,
            out@ == join_segments(gsegs.take(i as int)),
        decreases segs.len() - i,
    {
        if i > 0 {
            out.append("/");
            proof {
                reveal_strlit("/");
                assert("/"@ =~= seq!['/']);
            }
        }
        out.append(segs[i].as_str());
        proof {
            assert(gsegs.take(i + 1).drop_last() =~= gsegs.take(i as int));
            assert(gsegs.take(i + 1).last() == gsegs[i as int]);
            if i == 0 {
                assert(out@ =~= join_segments(gsegs.take(i + 1)));
            } else {
                assert(out@ =~= join_segments(gsegs.take(i + 1)));
            }
        }
        i = i + 1;
    }
    proof {
        assert(gsegs.take(segs@.len() as int) =~= gsegs);
    }
    out
}

} // verus!
