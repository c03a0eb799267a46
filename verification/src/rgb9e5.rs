//! Packing of half-precision float triples into the 32-bit shared-exponent
//! RGB9E5 format: one 5-bit exponent shared by three 9-bit mantissas.
//!
//! The model works in exact integer arithmetic.  Every finite half-precision
//! value is an integer multiple of 2^-24, so a channel is represented by that
//! integer (its value scaled by 2^24), clamped to the largest RGB9E5 value
//! `511 * 2^31` (that is 65408 * 2^24).  A packed word with mantissa `m` and
//! biased exponent `e` decodes, in the same scale, to `m * 2^e`.
use vstd::prelude::*;
use vstd::arithmetic::power2::{
    pow2, lemma_pow2_adds, lemma_pow2_strictly_increases, lemma_pow2_pos, lemma2_to64,
    lemma2_to64_rest,
};
use vstd::arithmetic::div_mod::{
    lemma_fundamental_div_mod, lemma_div_is_ordered, lemma_mod_bound,
};
use vstd::arithmetic::mul::{lemma_mul_inequality, lemma_mul_is_commutative, lemma_mul_upper_bound};
use vstd::bits::{lemma_u64_shl_is_mul, lemma_u64_shr_is_div};

verus! {

/// Largest value an RGB9E5 word can decode to, in units of 2^-24:
/// mantissa 511 at biased exponent 31.
pub open spec fn rgb9e5_max_n() -> nat {
    511 * pow2(31)
}

/// Magnitude of the half-precision value with the given bit pattern, in
/// units of 2^-24, clamped to the encodable range: negative values (sign
/// bit set) and NaN clamp to 0, positive infinity and finite values above
/// the RGB9E5 maximum clamp to `rgb9e5_max_n()`.
pub open spec fn half_clamped_n(bits: u16) -> nat {
    let e = ((bits >> 10) & 0x1f) as nat;
    let man = (bits & 0x3ff) as nat;
    if bits >= 0x8000 {
        0
    } else if e == 31 {
        if man == 0 {
            rgb9e5_max_n()
        } else {
            0
        }
    } else if e == 0 {
        man
    } else if (0x400 + man) * pow2((e - 1) as nat) > rgb9e5_max_n() {
        rgb9e5_max_n()
    } else {
        (0x400 + man) * pow2((e - 1) as nat)
    }
}

/// Rounding to the nearest multiple of 2^e, halves away from zero,
/// expressed on the scaled integers: round(n / 2^e + 1/2).
pub open spec fn round_near(n: nat, e: nat) -> nat {
    if e == 0 {
        n
    } else {
        (n + pow2((e - 1) as nat)) / pow2(e)
    }
}

/// Largest `k` with `2^k <= n`, for `n >= 1`.
pub open spec fn floor_log2(n: nat) -> nat
    decreases n,
{
    if n <= 1 {
        0
    } else {
        1 + floor_log2(n / 2)
    }
}

/// First candidate for the shared biased exponent: the one that puts the
/// largest channel's mantissa in `[256, 512)` (or 0 for inputs below the
/// smallest normalized step).
pub open spec fn shared_exp0(maxn: nat) -> nat {
    if maxn < 0x200 {
        0
    } else {
        (floor_log2(maxn) - 8) as nat
    }
}

/// The shared biased exponent: the first candidate, bumped by one when
/// rounding overflows the largest channel's mantissa out of the 9-bit range.
pub open spec fn rgb9e5_shared_exp(maxn: nat) -> nat {
    let e0 = shared_exp0(maxn);
    if round_near(maxn, e0) == 0x200 {
        e0 + 1
    } else {
        e0
    }
}

pub open spec fn max3(a: nat, b: nat, c: nat) -> nat {
    if a >= b && a >= c {
        a
    } else if b >= c {
        b
    } else {
        c
    }
}

/// The packed RGB9E5 word for three half-precision bit patterns: mantissas
/// in ascending 9-bit fields, the shared exponent in the top 5 bits.
pub open spec fn rgb9e5_pack_spec(r: u16, g: u16, b: u16) -> u32 {
    let nr = half_clamped_n(r);
    let ng = half_clamped_n(g);
    let nb = half_clamped_n(b);
    let e = rgb9e5_shared_exp(max3(nr, ng, nb));
    let rm = round_near(nr, e);
    let gm = round_near(ng, e);
    let bm = round_near(nb, e);
    (rm + gm * 0x200 + bm * 0x40000 + e * 0x8000000) as u32
}

/// Biased shared exponent stored in a packed word.
pub open spec fn rgb9e5_exp(w: u32) -> nat {
    (w >> 27) as nat
}

/// Red mantissa of a packed word.
pub open spec fn rgb9e5_mant_r(w: u32) -> nat {
    (w & 0x1ff) as nat
}

/// Green mantissa of a packed word.
pub open spec fn rgb9e5_mant_g(w: u32) -> nat {
    ((w >> 9) & 0x1ff) as nat
}

/// Blue mantissa of a packed word.
pub open spec fn rgb9e5_mant_b(w: u32) -> nat {
    ((w >> 18) & 0x1ff) as nat
}

pub open spec fn abs_diff(a: nat, b: nat) -> nat {
    if a >= b {
        (a - b) as nat
    } else {
        (b - a) as nat
    }
}

/// The clamped channel magnitude never exceeds the encodable maximum.
proof fn lemma_half_clamped_le_max(bits: u16)
    ensures
        half_clamped_n(bits) <= rgb9e5_max_n(),
{
    assert((bits & 0x3ff) < 0x400) by (bit_vector);
    lemma2_to64();
}

/// Division keeps order: a bound on the dividend bounds the quotient.
proof fn lemma_div_bound(a: int, q: int, p: int)
    requires
        p > 0,
        0 <= a < q * p,
    ensures
        a / p < q,
{
    lemma_fundamental_div_mod(a, p);
    lemma_mod_bound(a, p);
    lemma_mul_is_commutative(p, a / p);
    assert((a / p) * p <= a);
    if a / p >= q {
        lemma_mul_inequality(q, a / p, p);
    }
}

proof fn lemma_round_near_le(n1: nat, n2: nat, e: nat)
    requires
        n1 <= n2,
    ensures
        round_near(n1, e) <= round_near(n2, e),
{
    if e > 0 {
        lemma_pow2_pos(e);
        lemma_div_is_ordered(
            n1 as int + pow2((e - 1) as nat),
            n2 as int + pow2((e - 1) as nat),
            pow2(e) as int,
        );
    }
}

/// Rounding error bound: the rounded multiple of 2^e is within half of 2^e
/// of the original value.
proof fn lemma_round_near_err(n: nat, e: nat)
    ensures
        2 * abs_diff(round_near(n, e) * pow2(e), n) <= pow2(e),
{
    if e == 0 {
        lemma2_to64();
        assert(round_near(n, 0) * pow2(0) == n);
    } else {
        let h = pow2((e - 1) as nat) as int;
        let p = pow2(e) as int;
        lemma_pow2_pos((e - 1) as nat);
        lemma_pow2_adds(1, (e - 1) as nat);
        lemma2_to64();
        assert(p == 2 * h);
        let a = n as int + h;
        lemma_fundamental_div_mod(a, p);
        lemma_mod_bound(a, p);
        let q = a / p;
        let r = a % p;
        assert(q * p - n == h - r);
    }
}

/// `floor_log2` brackets its argument between consecutive powers of two.
proof fn lemma_floor_log2(n: nat)
    requires
        n >= 1,
    ensures
        pow2(floor_log2(n)) <= n,
        n < pow2(floor_log2(n) + 1),
    decreases n,
{
    lemma2_to64();
    if n <= 1 {
        assert(pow2(0) == 1 && pow2(1) == 2);
    } else {
        lemma_floor_log2(n / 2);
        let f = floor_log2(n / 2);
        lemma_pow2_adds(f, 1);
        lemma_pow2_adds(f + 1, 1);
        assert(pow2(f + 1) == pow2(f) * 2);
        assert(pow2(f + 2) == pow2(f + 1) * 2);
        assert(n >= 2 * (n / 2));
        assert(n <= 2 * (n / 2) + 1);
    }
}

/// Validity of the chosen shared exponent: it stays in the 5-bit range and
/// brings the largest channel's rounded mantissa into the 9-bit range.
proof fn lemma_shared_exp(maxn: nat)
    requires
        maxn <= rgb9e5_max_n(),
    ensures
        shared_exp0(maxn) <= 31,
        rgb9e5_shared_exp(maxn) <= 31,
        round_near(maxn, rgb9e5_shared_exp(maxn)) <= 511,
{
    lemma2_to64();
    lemma2_to64_rest();
    let e0 = shared_exp0(maxn);
    if maxn < 0x200 {
        assert(round_near(maxn, 0) == maxn);
    } else {
        let f = floor_log2(maxn);
        lemma_floor_log2(maxn);
        // 512 = 2^9 <= maxn forces f >= 9.
        if f + 1 <= 9 {
            lemma_pow2_strictly_increases(f + 1, 10);
            assert(false);
        }
        // maxn <= 511 * 2^31 < 2^40 forces f <= 39, so e0 <= 31.
        if f >= 40 {
            if f > 40 {
                lemma_pow2_strictly_increases(40, f);
            }
            assert(pow2(40) <= pow2(f));
            assert(pow2(f) <= maxn);
            assert(false);
        }
        assert(e0 == (f - 8) as nat);
        let h = pow2((e0 - 1) as nat) as int;
        let p = pow2(e0) as int;
        lemma_pow2_pos((e0 - 1) as nat);
        lemma_pow2_adds(1, (e0 - 1) as nat);
        assert(p == 2 * h);
        // maxn < 2^(f + 1) = 2^(e0 + 9) = 512 * 2^e0, so maxn + h < 513 * 2^e0
        // and the first rounding gives at most 512.
        lemma_pow2_adds(e0, 9);
        assert(maxn < 512 * p) by {
            assert(pow2(e0 + 9) == pow2(e0) * pow2(9));
            lemma_mul_is_commutative(pow2(e0) as int, 512);
        }
        let m0 = round_near(maxn, e0);
        assert(maxn as int + h < 512 * p + h);
        assert(maxn as int + h < 513 * p);
        lemma_div_bound(maxn as int + h, 513, p);
        assert(m0 <= 512);
        if m0 == 0x200 {
            // The bump case: e0 = 31 cannot bump, since
            // maxn + 2^30 <= 511 * 2^31 + 2^30 < 512 * 2^31.
            if e0 == 31 {
                assert(maxn as int + h < 512 * p);
                lemma_div_bound(maxn as int + h, 512, p);
                assert(false);
            }
            // After the bump the mantissa is at most 257.
            let p1 = pow2((e0 + 1) as nat) as int;
            lemma_pow2_adds(1, e0);
            assert(p1 == 2 * p);
            assert(maxn < 512 * p);
            assert(maxn as int + p < 512 * p + p);
            assert(512 * p + p <= 257 * p1);
            lemma_div_bound(maxn as int + p, 257, p1);
            assert(round_near(maxn, e0 + 1) <= 256);
        }
    }
}

/// Extracting the fields of a packed sum of bounded mantissas and exponent.
proof fn lemma_pack_fields(rm: u32, gm: u32, bm: u32, ev: u32, w: u32)
    requires
        rm < 0x200,
        gm < 0x200,
        bm < 0x200,
        ev < 0x20,
        w == rm + gm * 0x200 + bm * 0x40000 + ev * 0x8000000,
    ensures
        rgb9e5_mant_r(w) == rm,
        rgb9e5_mant_g(w) == gm,
        rgb9e5_mant_b(w) == bm,
        rgb9e5_exp(w) == ev,
{
    assert((w & 0x1ff) == rm && ((w >> 9) & 0x1ff) == gm && ((w >> 18) & 0x1ff) == bm && (w >> 27)
        == ev) by (bit_vector)
        requires
            rm < 0x200,
            gm < 0x200,
            bm < 0x200,
            ev < 0x20,
            w == rm + gm * 0x200 + bm * 0x40000 + ev * 0x8000000,
    ;
}

/// The mantissas and exponent of any packed word are in range, and the
/// packed word is the arithmetic sum of its fields.
pub proof fn lemma_pack_spec_fields(r: u16, g: u16, b: u16)
    ensures
        ({
            let w = rgb9e5_pack_spec(r, g, b);
            let e = rgb9e5_shared_exp(max3(half_clamped_n(r), half_clamped_n(g), half_clamped_n(b)));
            &&& rgb9e5_exp(w) == e
            &&& rgb9e5_mant_r(w) == round_near(half_clamped_n(r), e)
            &&& rgb9e5_mant_g(w) == round_near(half_clamped_n(g), e)
            &&& rgb9e5_mant_b(w) == round_near(half_clamped_n(b), e)
            &&& rgb9e5_exp(w) <= 31
            &&& rgb9e5_mant_r(w) <= 511
            &&& rgb9e5_mant_g(w) <= 511
            &&& rgb9e5_mant_b(w) <= 511
        }),
{
    let nr = half_clamped_n(r);
    let ng = half_clamped_n(g);
    let nb = half_clamped_n(b);
    let maxn = max3(nr, ng, nb);
    lemma_half_clamped_le_max(r);
    lemma_half_clamped_le_max(g);
    lemma_half_clamped_le_max(b);
    lemma_shared_exp(maxn);
    let e = rgb9e5_shared_exp(maxn);
    let rm = round_near(nr, e);
    let gm = round_near(ng, e);
    let bm = round_near(nb, e);
    lemma_round_near_le(nr, maxn, e);
    lemma_round_near_le(ng, maxn, e);
    lemma_round_near_le(nb, maxn, e);
    let sum = rm + gm * 0x200 + bm * 0x40000 + e * 0x8000000;
    assert(sum <= 511 + 511 * 0x200 + 511 * 0x40000 + 31 * 0x8000000);
    let w = rgb9e5_pack_spec(r, g, b);
    assert(w == sum as u32);
    lemma_pack_fields(rm as u32, gm as u32, bm as u32, e as u32, w);
}

/// Round-trip law: decoding each channel of the packed word (mantissa times
/// 2^exponent, in units of 2^-24) reproduces the clamped input channel to
/// within half of the shared-exponent step `2^e`, the quantization error of
/// a 9-bit mantissa at the chosen shared exponent.  For finite, non-negative
/// inputs inside the encodable range, the clamped channel is the input value
/// itself scaled by 2^24.
pub proof fn lemma_rgb9e5_round_trip(r: u16, g: u16, b: u16)
    ensures
        ({
            let w = rgb9e5_pack_spec(r, g, b);
            let e = rgb9e5_exp(w);
            &&& 2 * abs_diff(rgb9e5_mant_r(w) * pow2(e), half_clamped_n(r)) <= pow2(e)
            &&& 2 * abs_diff(rgb9e5_mant_g(w) * pow2(e), half_clamped_n(g)) <= pow2(e)
            &&& 2 * abs_diff(rgb9e5_mant_b(w) * pow2(e), half_clamped_n(b)) <= pow2(e)
        }),
{
    lemma_pack_spec_fields(r, g, b);
    let e = rgb9e5_shared_exp(max3(half_clamped_n(r), half_clamped_n(g), half_clamped_n(b)));
    lemma_round_near_err(half_clamped_n(r), e);
    lemma_round_near_err(half_clamped_n(g), e);
    lemma_round_near_err(half_clamped_n(b), e);
}

/// Clamped scaled magnitude of a half-precision bit pattern, executable
/// form of `half_clamped_n`.
fn half_to_n(bits: u16) -> (n: u64)
    ensures
        n as nat == half_clamped_n(bits),
        n <= 0xff80000000,
{
    proof {
        lemma2_to64();
        assert(((bits >> 10) & 0x1f) <= 31 && (bits & 0x3ff) < 0x400) by (bit_vector);
    }
    if bits >= 0x8000 {
        return 0;
    }
    let e = (bits >> 10) & 0x1f;
    let man = (bits & 0x3ff) as u64;
    if e == 31 {
        if man == 0 {
            0xff80000000
        } else {
            0
        }
    } else if e == 0 {
        man
    } else {
        let shift = (e - 1) as u64;
        proof {
            assert(pow2(shift as nat) <= 0x20000000) by {
                if shift < 29 {
                    lemma_pow2_strictly_increases(shift as nat, 29);
                }
            }
            lemma_mul_upper_bound((0x400 + man) as int, 0x7ff, pow2(shift as nat) as int, 0x20000000);
            lemma_u64_shl_is_mul((0x400 + man) as u64, shift);
        }
        let n = (0x400 + man) << shift;
        if n > 0xff80000000 {
            0xff80000000
        } else {
            n
        }
    }
}

/// Executable form of `floor_log2`.
fn floor_log2_u64(n: u64) -> (k: u32)
    requires
        n >= 1,
    ensures
        k as nat == floor_log2(n as nat),
        k <= 63,
{
    let mut m = n;
    let mut k: u32 = 0;
    proof {
        lemma2_to64();
        lemma2_to64_rest();
    }
    while m >= 2
        invariant
            m >= 1,
            k <= 63,
            floor_log2(n as nat) == k as nat + floor_log2(m as nat),
            m as nat * pow2(k as nat) <= n as nat,
        decreases m,
    {
        proof {
            lemma_pow2_adds(k as nat, 1);
            lemma2_to64();
            let pk = pow2(k as nat) as int;
            let m2 = (m / 2) as int;
            assert(pow2((k + 1) as nat) == pk * 2);
            assert(m2 * (pk * 2) <= m as int * pk) by (nonlinear_arith)
                requires
                    2 * m2 <= m as int,
                    pk >= 0,
            ;
            if k >= 63 {
                lemma2_to64_rest();
                assert(pow2(64) as int <= m2 * (pk * 2)) by (nonlinear_arith)
                    requires
                        m2 >= 1,
                        pk * 2 == pow2(64) as int,
                        pow2(64) as int >= 0,
                ;
                assert(false);
            }
        }
        m = m / 2;
        k = k + 1;
    }
    k
}

/// Executable form of `round_near`, for scaled channel values in range.
fn round_near_u64(n: u64, e: u32) -> (r: u64)
    requires
        n <= 0xff80000000,
        e <= 31,
    ensures
        r as nat == round_near(n as nat, e as nat),
{
    if e == 0 {
        n
    } else {
        proof {
            lemma2_to64();
            assert(pow2((e - 1) as nat) <= 0x40000000) by {
                if e - 1 < 30 {
                    lemma_pow2_strictly_increases((e - 1) as nat, 30);
                }
                lemma2_to64();
            }
            lemma_u64_shl_is_mul(1u64, (e - 1) as u64);
        }
        let half = 1u64 << (e - 1);
        let sum = n + half;
        proof {
            lemma_u64_shr_is_div(sum, e as u64);
        }
        sum >> e
    }
}

/// Packs three half-precision floats, given as raw bit patterns, into one
/// RGB9E5 word: a shared exponent in the top 5 bits and three 9-bit
/// mantissas in ascending fields.  Negative and NaN channels clamp to zero,
/// values above the largest encodable value clamp to it; zero encodes as
/// mantissa 0 with the minimum exponent.
pub fn float3_to_rgb9e5(r: u16, g: u16, b: u16) -> (w: u32)
    ensures
        w == rgb9e5_pack_spec(r, g, b),
{
    let nr = half_to_n(r);
    let ng = half_to_n(g);
    let nb = half_to_n(b);
    let maxn = if nr >= ng && nr >= nb {
        nr
    } else if ng >= nb {
        ng
    } else {
        nb
    };
    proof {
        lemma_half_clamped_le_max(r);
        lemma_half_clamped_le_max(g);
        lemma_half_clamped_le_max(b);
        lemma_shared_exp(maxn as nat);
        lemma2_to64();
    }
    let e0: u32 = if maxn < 0x200 {
        0
    } else {
        let f = floor_log2_u64(maxn);
        proof {
            lemma_floor_log2(maxn as nat);
            if f + 1 <= 9 {
                lemma_pow2_strictly_increases((f + 1) as nat, 10);
                assert(false);
            }
        }
        f - 8
    };
    let m0 = round_near_u64(maxn, e0);
    let e: u32 = if m0 == 0x200 {
        e0 + 1
    } else {
        e0
    };
    let rm = round_near_u64(nr, e);
    let gm = round_near_u64(ng, e);
    let bm = round_near_u64(nb, e);
    proof {
        lemma_round_near_le(nr as nat, maxn as nat, e as nat);
        lemma_round_near_le(ng as nat, maxn as nat, e as nat);
        lemma_round_near_le(nb as nat, maxn as nat, e as nat);
    }
    let w = (rm as u32) | ((gm as u32) << 9u32) | ((bm as u32) << 18u32) | (e << 27u32);
    proof {
        let rmv = rm as u32;
        let gmv = gm as u32;
        let bmv = bm as u32;
        assert(rmv | (gmv << 9u32) | (bmv << 18u32) | (e << 27u32) == rmv + gmv * 0x200 + bmv
            * 0x40000 + e * 0x8000000) by (bit_vector)
            requires
                rmv < 0x200,
                gmv < 0x200,
                bmv < 0x200,
                e < 0x20,
        ;
    }
    w
}

} // verus!
