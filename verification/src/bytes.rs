//! Little-endian byte serialization helpers shared by the descriptor and
//! container builders: spec-level views of 16/32/64-bit words as byte
//! sequences, and verified routines that append such words to a buffer.
use vstd::prelude::*;

verus! {

/// The four bytes of a 32-bit word, least significant first.
pub open spec fn u32le(w: u32) -> Seq<u8> {
    seq![w as u8, (w / 0x100) as u8, (w / 0x10000) as u8, (w / 0x1000000) as u8]
}

/// The eight bytes of a 64-bit word, least significant first.
pub open spec fn u64le(w: u64) -> Seq<u8> {
    seq![
        w as u8,
        (w / 0x100) as u8,
        (w / 0x10000) as u8,
        (w / 0x1000000) as u8,
        (w / 0x100000000) as u8,
        (w / 0x10000000000) as u8,
        (w / 0x1000000000000) as u8,
        (w / 0x100000000000000) as u8,
    ]
}

/// The 16-bit word stored little-endian at element index `i` of a byte
/// sequence, that is in bytes `2*i` and `2*i + 1`.
pub open spec fn le16(s: Seq<u8>, i: int) -> u16 {
    (s[2 * i] + s[2 * i + 1] * 0x100) as u16
}

/// A word sequence laid out as bytes, each word little-endian.
pub open spec fn words_bytes(ws: Seq<u32>) -> Seq<u8>
    decreases ws.len(),
{
    if ws.len() == 0 {
        Seq::empty()
    } else {
        words_bytes(ws.drop_last()) + u32le(ws.last())
    }
}

/// Appends one 32-bit word to `out`, least significant byte first.
pub fn push_u32(out: &mut Vec<u8>, w: u32)
    ensures
        final(out)@ == old(out)@ + u32le(w),
{
    out.push(w as u8);
    out.push((w >> 8) as u8);
    out.push((w >> 16) as u8);
    out.push((w >> 24) as u8);
    proof {
        assert((w >> 8) as u8 == (w / 0x100) as u8 && (w >> 16) as u8 == (w / 0x10000) as u8
            && (w >> 24) as u8 == (w / 0x1000000) as u8) by (bit_vector);
        assert(out@ =~= old(out)@ + u32le(w));
    }
}

/// Appends one 64-bit word to `out`, least significant byte first.
pub fn push_u64(out: &mut Vec<u8>, w: u64)
    ensures
        final(out)@ == old(out)@ + u64le(w),
{
    out.push(w as u8);
    out.push((w >> 8) as u8);
    out.push((w >> 16) as u8);
    out.push((w >> 24) as u8);
    out.push((w >> 32) as u8);
    out.push((w >> 40) as u8);
    out.push((w >> 48) as u8);
    out.push((w >> 56) as u8);
    proof {
        assert((w >> 8) as u8 == (w / 0x100) as u8 && (w >> 16) as u8 == (w / 0x10000) as u8
            && (w >> 24) as u8 == (w / 0x1000000) as u8 && (w >> 32) as u8 == (w
            / 0x100000000) as u8 && (w >> 40) as u8 == (w / 0x10000000000) as u8 && (w >> 48) as u8
            == (w / 0x1000000000000) as u8 && (w >> 56) as u8 == (w
            / 0x100000000000000) as u8) by (bit_vector);
        assert(out@ =~= old(out)@ + u64le(w));
    }
}

/// Appends a whole byte slice to `out`.
pub fn extend_bytes(out: &mut Vec<u8>, src: &[u8])
    ensures
        final(out)@ == old(out)@ + src@,
{
    let n = src.len();
    let mut i: usize = 0;
    while i < n
        invariant
            i <= n,
            n == src@.len(),
            out@ == old(out)@ + src@.take(i as int),
        decreases n - i,
    {
        out.push(src[i]);
        i = i + 1;
        proof {
            assert(out@ =~= old(out)@ + src@.take(i as int));
        }
    }
    proof {
        assert(src@.take(n as int) =~= src@);
    }
}

} // verus!
