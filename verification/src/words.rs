//! Byte-level views of the tracer's 8-byte transfer unit: covering
//! counts, little-endian decomposition, and NUL-terminated prefixes.
use vstd::prelude::*;

verus! {

/// Whole 8-byte words needed to cover `n` bytes.
pub open spec fn spec_words_covering(n: u64) -> int {
    (n + 7) / 8
}

/// Computes the number of whole words covering `n` bytes.
pub fn words_covering(n: u64) -> (r: u64)
    ensures
        r as int == spec_words_covering(n),
        8 * r as int >= n,
{
    if n % 8 == 0 {
        n / 8
    } else {
        n / 8 + 1
    }
}

/// The eight bytes of a word, least-significant first.
pub open spec fn spec_le_bytes(w: u64) -> Seq<u8> {
    seq![
        (w & 0xFF) as u8,
        ((w >> 8) & 0xFF) as u8,
        ((w >> 16) & 0xFF) as u8,
        ((w >> 24) & 0xFF) as u8,
        ((w >> 32) & 0xFF) as u8,
        ((w >> 40) & 0xFF) as u8,
        ((w >> 48) & 0xFF) as u8,
        ((w >> 56) & 0xFF) as u8,
    ]
}

/// Appends the eight bytes of `w` to `buf`, least-significant first.
pub fn push_le_bytes(buf: &mut Vec<u8>, w: u64)
    ensures
        final(buf)@ == old(buf)@ + spec_le_bytes(w),
{
    proof {
        assert(w & 0xFF < 256) by (bit_vector);
        assert((w >> 8) & 0xFF < 256) by (bit_vector);
        assert((w >> 16) & 0xFF < 256) by (bit_vector);
        assert((w >> 24) & 0xFF < 256) by (bit_vector);
        assert((w >> 32) & 0xFF < 256) by (bit_vector);
        assert((w >> 40) & 0xFF < 256) by (bit_vector);
        assert((w >> 48) & 0xFF < 256) by (bit_vector);
        assert((w >> 56) & 0xFF < 256) by (bit_vector);
    }
    buf.push((w & 0xFF) as u8);
    buf.push(((w >> 8) & 0xFF) as u8);
    buf.push(((w >> 16) & 0xFF) as u8);
    buf.push(((w >> 24) & 0xFF) as u8);
    buf.push(((w >> 32) & 0xFF) as u8);
    buf.push(((w >> 40) & 0xFF) as u8);
    buf.push(((w >> 48) & 0xFF) as u8);
    buf.push(((w >> 56) & 0xFF) as u8);
    proof {
        assert(buf@ =~= old(buf)@ + spec_le_bytes(w));
    }
}

/// First index at or after `i` holding a zero byte, or the end.
pub open spec fn spec_first_nul(bs: Seq<u8>, i: int) -> int
    decreases bs.len() - i,
{
    if i >= bs.len() || bs[i] == 0 {
        i
    } else {
        spec_first_nul(bs, i + 1)
    }
}

/// Whether the bytes of `bs` before its first zero byte equal `marker`.
pub fn nul_terminated_prefix_matches(bs: &[u8], marker: &[u8]) -> (r: bool)
    ensures
        r == (bs@.subrange(0, spec_first_nul(bs@, 0)) == marker@),
{
    let n: usize = bs.len();
    let mlen: usize = marker.len();
    let mut k: usize = 0;
    while k < n && bs[k] != 0
        invariant
            k <= n,
            n == bs@.len(),
            spec_first_nul(bs@, 0) == spec_first_nul(bs@, k as int),
        decreases n - k,
    {
        k = k + 1;
    }
    proof {
        assert(spec_first_nul(bs@, k as int) == k);
    }
    if k != mlen {
        proof {
            assert(bs@.subrange(0, k as int).len() == k);
        }
        return false;
    }
    let mut i: usize = 0;
    loop
        invariant
            i <= k,
            k <= n,
            k == mlen,
            n == bs@.len(),
            mlen == marker@.len(),
            spec_first_nul(bs@, 0) == k as int,
            forall|j: int| 0 <= j < i ==> bs@[j] == marker@[j],
        decreases k - i,
    {
        if i == k {
            proof {
                assert(bs@.subrange(0, k as int) =~= marker@);
            }
            return true;
        }
        if bs[i] != marker[i] {
            proof {
                assert(bs@.subrange(0, k as int)[i as int] == bs@[i as int]);
            }
            return false;
        }
        i = i + 1;
    }
}

} // verus!
