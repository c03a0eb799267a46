//! The source cubemap model and the region arithmetic over its single
//! contiguous texel buffer.
//!
//! The buffer layout is face-major, mip-minor: face 0's complete mip chain
//! (each level halving both dimensions, floor division) precedes face 1's
//! complete chain, and so on for all 6 faces.  A region is addressed purely
//! by (base width, base height, bytes per texel, mip count, mip level, face).
use vstd::prelude::*;
use vstd::arithmetic::mul::{lemma_mul_inequality, lemma_mul_upper_bound};

verus! {

use crate::Ktx2Error;

/// Dimension of mip level `level`, starting from `base` and halving
/// (floor) once per level.
pub open spec fn mip_dim(base: nat, level: nat) -> nat
    decreases level,
{
    if level == 0 {
        base
    } else {
        mip_dim(base, (level - 1) as nat) / 2
    }
}

/// Byte size of one face's region at mip level `level`.
pub open spec fn mip_level_bytes(w: nat, h: nat, bpt: nat, level: nat) -> nat {
    mip_dim(w, level) * mip_dim(h, level) * bpt
}

/// Byte size of one face's full mip chain cut off after `levels` levels.
pub open spec fn chain_bytes(w: nat, h: nat, bpt: nat, levels: nat) -> nat
    decreases levels,
{
    if levels == 0 {
        0
    } else {
        chain_bytes(w, h, bpt, (levels - 1) as nat) + mip_level_bytes(w, h, bpt, (levels - 1) as nat)
    }
}

/// Byte offset of the (mip level, face) region in the face-major,
/// mip-minor buffer.
pub open spec fn region_offset(
    w: nat,
    h: nat,
    bpt: nat,
    mip_count: nat,
    mip_level: nat,
    face: nat,
) -> nat {
    face * chain_bytes(w, h, bpt, mip_count) + chain_bytes(w, h, bpt, mip_level)
}

pub proof fn lemma_mip_dim_le_base(base: nat, level: nat)
    ensures
        mip_dim(base, level) <= base,
    decreases level,
{
    if level > 0 {
        lemma_mip_dim_le_base(base, (level - 1) as nat);
    }
}

pub proof fn lemma_chain_bytes_mono(w: nat, h: nat, bpt: nat, m1: nat, m2: nat)
    requires
        m1 <= m2,
    ensures
        chain_bytes(w, h, bpt, m1) <= chain_bytes(w, h, bpt, m2),
    decreases m2,
{
    if m1 < m2 {
        lemma_chain_bytes_mono(w, h, bpt, m1, (m2 - 1) as nat);
    }
}

/// One level's region size never exceeds the base level's.
pub proof fn lemma_mip_level_bytes_le(w: nat, h: nat, bpt: nat, level: nat)
    ensures
        mip_level_bytes(w, h, bpt, level) <= w * h * bpt,
{
    lemma_mip_dim_le_base(w, level);
    lemma_mip_dim_le_base(h, level);
    lemma_mul_upper_bound(mip_dim(w, level) as int, w as int, mip_dim(h, level) as int, h as int);
    lemma_mul_inequality((mip_dim(w, level) * mip_dim(h, level)) as int, (w * h) as int, bpt as int);
}

/// A chain of `m` levels is at most `m` copies of the base level's size.
pub proof fn lemma_chain_bytes_le(w: nat, h: nat, bpt: nat, m: nat)
    ensures
        chain_bytes(w, h, bpt, m) <= m * (w * h * bpt),
    decreases m,
{
    if m > 0 {
        lemma_chain_bytes_le(w, h, bpt, (m - 1) as nat);
        lemma_mip_level_bytes_le(w, h, bpt, (m - 1) as nat);
        let whb = (w * h * bpt) as int;
        assert((m - 1) * whb + whb == m as int * whb) by (nonlinear_arith);
    }
}

/// A requested region lies inside the 6-face buffer.
pub proof fn lemma_region_in_buffer(w: nat, h: nat, bpt: nat, mip_count: nat, m: nat, f: nat)
    requires
        m < mip_count,
        f < 6,
    ensures
        region_offset(w, h, bpt, mip_count, m, f) + mip_level_bytes(w, h, bpt, m) <= 6
            * chain_bytes(w, h, bpt, mip_count),
{
    let chain = chain_bytes(w, h, bpt, mip_count);
    lemma_chain_bytes_mono(w, h, bpt, m + 1, mip_count);
    assert(chain_bytes(w, h, bpt, m) + mip_level_bytes(w, h, bpt, m) == chain_bytes(
        w,
        h,
        bpt,
        m + 1,
    ));
    lemma_mul_inequality(f as int, 5, chain as int);
}

/// An uncompressed source cubemap: base dimensions, mip level count, and a
/// single contiguous buffer of 16-bit-float RGBA texels (8 bytes per texel)
/// in face-major, mip-minor order.
pub struct SourceImage {
    pub width: u32,
    pub height: u32,
    pub mip_level_count: u32,
    pub compressed: bool,
    pub data: Vec<u8>,
}

impl SourceImage {
    /// Layout invariant: an uncompressed image's buffer holds exactly the
    /// 6 face-major mip chains of 8-byte texels.
    pub open spec fn wf(self) -> bool {
        !self.compressed ==> self.data@.len() == 6 * chain_bytes(
            self.width as nat,
            self.height as nat,
            8,
            self.mip_level_count as nat,
        )
    }

    /// Whether the image reports a (block-)compressed texel format, which
    /// the encoder rejects.
    pub fn is_compressed(&self) -> (c: bool)
        ensures
            c == self.compressed,
    {
        self.compressed
    }
}

/// Dimensions of mip level `level`.
pub fn mip_extent(width: u32, height: u32, level: u32) -> (r: (u32, u32))
    ensures
        r.0 as nat == mip_dim(width as nat, level as nat),
        r.1 as nat == mip_dim(height as nat, level as nat),
{
    let mut w = width;
    let mut h = height;
    let mut l: u32 = 0;
    while l < level
        invariant
            l <= level,
            w as nat == mip_dim(width as nat, l as nat),
            h as nat == mip_dim(height as nat, l as nat),
        decreases level - l,
    {
        w = w / 2;
        h = h / 2;
        l = l + 1;
    }
    (w, h)
}

/// Byte length of one face's mip chain cut off after `levels` levels.
fn chain_len(width: u32, height: u32, bytes_per_texel: usize, levels: u32) -> (n: usize)
    requires
        bytes_per_texel >= 1,
        chain_bytes(width as nat, height as nat, bytes_per_texel as nat, levels as nat)
            <= usize::MAX,
    ensures
        n == chain_bytes(width as nat, height as nat, bytes_per_texel as nat, levels as nat),
{
    let ghost wn = width as nat;
    let ghost hn = height as nat;
    let ghost bpt = bytes_per_texel as nat;
    let mut acc: usize = 0;
    let mut w = width as usize;
    let mut h = height as usize;
    let mut l: u32 = 0;
    while l < levels
        invariant
            l <= levels,
            wn == width as nat,
            hn == height as nat,
            bpt == bytes_per_texel as nat,
            bytes_per_texel >= 1,
            chain_bytes(wn, hn, bpt, levels as nat) <= usize::MAX,
            w as nat == mip_dim(wn, l as nat),
            h as nat == mip_dim(hn, l as nat),
            acc == chain_bytes(wn, hn, bpt, l as nat),
        decreases levels - l,
    {
        proof {
            lemma_chain_bytes_mono(wn, hn, bpt, (l + 1) as nat, levels as nat);
            assert(chain_bytes(wn, hn, bpt, (l + 1) as nat) == acc + mip_level_bytes(
                wn,
                hn,
                bpt,
                l as nat,
            ));
            let wh = (w as nat * h as nat) as int;
            assert(wh * 1 <= wh * bpt) by (nonlinear_arith)
                requires
                    bpt >= 1,
                    wh >= 0,
            ;
        }
        let sz = w * h * bytes_per_texel;
        acc = acc + sz;
        w = w / 2;
        h = h / 2;
        l = l + 1;
    }
    acc
}

/// Byte offset and length of the (mip level, face) region inside the
/// face-major, mip-minor buffer.  Fails, without touching any buffer, when
/// the mip level is out of range.
pub fn mip_region(
    width: u32,
    height: u32,
    bytes_per_texel: usize,
    mip_count: u32,
    mip_level: u32,
    face: u32,
) -> (r: Result<(usize, usize), Ktx2Error>)
    requires
        face < 6,
        bytes_per_texel >= 1,
        6 * chain_bytes(width as nat, height as nat, bytes_per_texel as nat, mip_count as nat)
            <= usize::MAX,
    ensures
        mip_level < mip_count <==> r is Ok,
        r matches Err(e) ==> e == Ktx2Error::MipLevelOutOfRange,
        r matches Ok(ol) ==> ({
            let wn = width as nat;
            let hn = height as nat;
            let bpt = bytes_per_texel as nat;
            &&& ol.0 == region_offset(wn, hn, bpt, mip_count as nat, mip_level as nat, face as nat)
            &&& ol.1 == mip_level_bytes(wn, hn, bpt, mip_level as nat)
            &&& ol.0 + ol.1 <= 6 * chain_bytes(wn, hn, bpt, mip_count as nat)
        }),
{
    let ghost wn = width as nat;
    let ghost hn = height as nat;
    let ghost bpt = bytes_per_texel as nat;
    if mip_level >= mip_count {
        return Err(Ktx2Error::MipLevelOutOfRange);
    }
    proof {
        lemma_region_in_buffer(wn, hn, bpt, mip_count as nat, mip_level as nat, face as nat);
        lemma_mul_inequality(face as int, 5, chain_bytes(wn, hn, bpt, mip_count as nat) as int);
        lemma_chain_bytes_mono(wn, hn, bpt, mip_level as nat, mip_count as nat);
    }
    let chain = chain_len(width, height, bytes_per_texel, mip_count);
    let base = (face as usize) * chain;
    let partial = chain_len(width, height, bytes_per_texel, mip_level);
    let off = base + partial;
    let (wm, hm) = mip_extent(width, height, mip_level);
    proof {
        lemma_mip_level_bytes_le(wn, hn, bpt, mip_level as nat);
        let wh = (wm as nat * hm as nat) as int;
        assert(wh * 1 <= wh * bpt) by (nonlinear_arith)
            requires
                bpt >= 1,
                wh >= 0,
        ;
    }
    let len = (wm as usize) * (hm as usize) * bytes_per_texel;
    Ok((off, len))
}

/// Checks the layout invariant of a source image: exact arithmetic over
/// 128-bit integers, no overflow for any dimensions.
pub fn check_source_layout(image: &SourceImage) -> (ok: bool)
    ensures
        ok == image.wf(),
{
    if image.is_compressed() {
        return true;
    }
    let ghost wn = image.width as nat;
    let ghost hn = image.height as nat;
    let count = image.mip_level_count;
    let mut acc: u128 = 0;
    let mut w = image.width as u128;
    let mut h = image.height as u128;
    let mut l: u32 = 0;
    while l < count
        invariant
            l <= count,
            wn == image.width as nat,
            hn == image.height as nat,
            count == image.mip_level_count,
            w as nat == mip_dim(wn, l as nat),
            h as nat == mip_dim(hn, l as nat),
            w <= 0xffffffff,
            h <= 0xffffffff,
            acc == chain_bytes(wn, hn, 8, l as nat),
            acc <= 0x100000000 * 0x80000000000000000,
        decreases count - l,
    {
        proof {
            lemma_chain_bytes_le(wn, hn, 8, (l + 1) as nat);
            lemma_mip_level_bytes_le(wn, hn, 8, l as nat);
            lemma_mul_upper_bound(wn as int, 0xffffffff, hn as int, 0xffffffff);
            lemma_mul_inequality((wn * hn) as int, 0xfffffffe00000001, 8);
            lemma_mul_upper_bound(
                (l + 1) as int,
                0x100000000,
                (wn * hn * 8) as int,
                0x80000000000000000,
            );
            lemma_mul_upper_bound(w as int, 0xffffffff, h as int, 0xffffffff);
        }
        let sz = w * h * 8;
        acc = acc + sz;
        w = w / 2;
        h = h / 2;
        l = l + 1;
    }
    let total = 6 * acc;
    total == image.data.len() as u128
}

} // verus!
