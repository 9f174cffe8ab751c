//! Integers as IEEE 754 binary32 bit patterns.
//!
//! The device reads every coordinate as a 32-bit floating-point number. This
//! module computes, in integer arithmetic alone, the bit pattern of the
//! binary32 number nearest to a given integer, ties going to the even
//! significand, and proves how close that number is.

use vstd::arithmetic::power2::{
    lemma2_to64, lemma_pow2_adds, lemma_pow2_pos, lemma_pow2_strictly_increases, lemma_pow2_unfold,
    pow2,
};
use vstd::prelude::*;

verus! {

/// Index of the highest set bit of `m`: the `k` with `2^k <= m < 2^(k+1)`,
/// and 0 for `m == 0`.
pub open spec fn top_bit(m: nat) -> nat
    decreases m,
{
    if m < 2 {
        0
    } else {
        1 + top_bit(m / 2)
    }
}

/// Distance between neighbouring binary32 numbers at magnitude `m`, as far as
/// integers are concerned: 1 below `2^24`, where every integer has a pattern
/// of its own, and `2^(k-23)` from `2^k` on.
pub open spec fn spacing(m: nat) -> nat {
    if top_bit(m) <= 23 {
        1
    } else {
        pow2((top_bit(m) - 23) as nat)
    }
}

/// The multiple of `spacing(m)` nearest to `m`; of two equally near, the
/// even multiple.
pub open spec fn nearest(m: nat) -> nat {
    let u = spacing(m);
    let q = m / u;
    let r = m % u;
    if 2 * r < u || (2 * r == u && q % 2 == 0) {
        q * u
    } else {
        (q + 1) * u
    }
}

/// The binary32 pattern whose value is `n`, negated where `negative`, for an
/// `n` that binary32 represents: sign bit, then the exponent `top_bit(n)`
/// biased by 127, then the 23 bits of `n` below its highest one.
pub open spec fn pattern(negative: bool, n: nat) -> nat {
    if n == 0 {
        0
    } else {
        let k = top_bit(n);
        let sign: nat = if negative {
            0x8000_0000
        } else {
            0
        };
        let significand: nat = n * 0x80_0000 / pow2(k);
        (sign + (127 + k) * 0x80_0000 + significand - 0x80_0000) as nat
    }
}

/// The binary32 pattern of the number nearest to the integer `value`.
pub open spec fn binary32(value: int) -> nat {
    if value < 0 {
        pattern(true, nearest((-value) as nat))
    } else {
        pattern(false, nearest(value as nat))
    }
}

/// `top_bit` is the `k` that brackets `m` between two powers of two.
pub proof fn lemma_top_bit(m: nat, k: nat)
    requires
        pow2(k) <= m < 2 * pow2(k),
    ensures
        top_bit(m) == k,
    decreases k,
{
    if k == 0 {
        lemma2_to64();
    } else {
        lemma_pow2_unfold(k);
        lemma_top_bit(m / 2, (k - 1) as nat);
    }
}

/// Every positive `m` lies between `2^top_bit(m)` and the next power of two.
pub proof fn lemma_top_bit_brackets(m: nat)
    requires
        m > 0,
    ensures
        pow2(top_bit(m)) <= m < 2 * pow2(top_bit(m)),
    decreases m,
{
    if m < 2 {
        lemma2_to64();
    } else {
        lemma_top_bit_brackets(m / 2);
        lemma_pow2_unfold(top_bit(m));
    }
}

/// What rounding does to a magnitude at or above `2^24`: with `u` the spacing
/// there and `q` the rounded quotient, the pattern's exponent and fraction.
proof fn lemma_pattern_of_multiple(k: nat, u: nat, q: nat)
    requires
        k >= 23,
        u == pow2((k - 23) as nat),
        0x80_0000 <= q <= 0x100_0000,
    ensures
        q < 0x100_0000 ==> top_bit(q * u) == k && (q * u) * 0x80_0000 / pow2(k) == q,
        q == 0x100_0000 ==> top_bit(q * u) == k + 1 && (q * u) * 0x80_0000 / pow2(k + 1)
            == 0x80_0000,
{
    lemma2_to64();
    lemma_pow2_adds((k - 23) as nat, 23);
    lemma_pow2_unfold(k + 1);
    lemma_pow2_pos(k);
    let p = pow2(k);
    assert(p == u * 0x80_0000);
    if q < 0x100_0000 {
        assert(p <= q * u < 2 * p) by (nonlinear_arith)
            requires
                p == u * 0x80_0000,
                0x80_0000 <= q < 0x100_0000,
                u > 0,
        ;
        lemma_top_bit(q * u, k);
        assert((q * u) * 0x80_0000 == q * p) by (nonlinear_arith)
            requires
                p == u * 0x80_0000,
        ;
        assert(q * p / p == q) by (nonlinear_arith)
            requires
                p > 0,
        ;
    } else {
        assert(q * u == 2 * p) by (nonlinear_arith)
            requires
                p == u * 0x80_0000,
                q == 0x100_0000,
        ;
        lemma_top_bit(q * u, k + 1);
        assert((2 * p) * 0x80_0000 / (2 * p) == 0x80_0000) by (nonlinear_arith)
            requires
                p > 0,
        ;
    }
}

/// The pattern of a magnitude below `2^24`, which needs no rounding.
proof fn lemma_pattern_of_small(k: nat, scale: nat, m: nat)
    requires
        k <= 23,
        scale * pow2(k) == 0x80_0000,
        pow2(k) <= m < 2 * pow2(k),
    ensures
        m * 0x80_0000 / pow2(k) == m * scale,
        0x80_0000 <= m * scale < 0x100_0000,
{
    let p = pow2(k);
    lemma_pow2_pos(k);
    assert(m * 0x80_0000 == (m * scale) * p) by (nonlinear_arith)
        requires
            scale * p == 0x80_0000,
    ;
    assert((m * scale) * p / p == m * scale) by (nonlinear_arith)
        requires
            p > 0,
    ;
    assert(0x80_0000 <= m * scale < 0x100_0000) by (nonlinear_arith)
        requires
            scale * p == 0x80_0000,
            p <= m < 2 * p,
            p > 0,
    ;
}

/// The bit pattern of the binary32 number nearest to the integer of the
/// given sign and magnitude, ties to even. Zero is positive zero, whatever
/// `negative` says.
pub fn binary32_bits(negative: bool, magnitude: u64) -> (bits: u32)
    ensures
        bits == pattern(negative, nearest(magnitude as nat)),
{
    if magnitude == 0 {
        assert(nearest(0) == 0) by {
            assert(top_bit(0) == 0);
        }
        return 0;
    }
    let mut k: u32 = 0;
    let mut p: u64 = 1;
    proof {
        lemma2_to64();
    }
    while magnitude / 2 >= p
        invariant
            p == pow2(k as nat),
            1 <= p <= magnitude,
            k <= 63,
        decreases magnitude - p,
    {
        proof {
            lemma_pow2_unfold((k + 1) as nat);
            if k == 63 {
                lemma2_to64();
                assert(pow2(64) == 0x1_0000_0000_0000_0000);
            }
        }
        p = p * 2;
        k = k + 1;
    }
    proof {
        lemma_top_bit(magnitude as nat, k as nat);
    }
    let sign: u32 = if negative {
        0x8000_0000
    } else {
        0
    };
    if k <= 23 {
        let scale: u64 = 0x80_0000 / p;
        proof {
            lemma2_to64();
            lemma_pow2_adds(k as nat, (23 - k) as nat);
            lemma_pow2_pos((23 - k) as nat);
            let rest = pow2((23 - k) as nat);
            assert(0x80_0000int / (p as int) == rest) by (nonlinear_arith)
                requires
                    0x80_0000 == p * rest,
                    p > 0,
            ;
            assert(scale * p == 0x80_0000) by (nonlinear_arith)
                requires
                    0x80_0000 == p * rest,
                    scale == rest,
            ;
            lemma_pattern_of_small(k as nat, scale as nat, magnitude as nat);
            assert(nearest(magnitude as nat) == magnitude);
        }
        let significand: u64 = magnitude * scale;
        sign + (127 + k) * 0x80_0000 + (significand - 0x80_0000) as u32
    } else {
        let u: u64 = p / 0x80_0000;
        proof {
            lemma2_to64();
            lemma_pow2_adds((k - 23) as nat, 23);
            assert(spacing(magnitude as nat) == u);
            assert(u >= 2 && u % 2 == 0) by {
                lemma_pow2_unfold((k - 23) as nat);
                lemma_pow2_pos((k - 24) as nat);
            }
        }
        let q: u64 = magnitude / u;
        let r: u64 = magnitude % u;
        let half: u64 = u / 2;
        let up: bool = r > half || (r == half && q % 2 == 1);
        assert(0x80_0000 <= q < 0x100_0000) by (nonlinear_arith)
            requires
                p == u * 0x80_0000,
                p <= magnitude,
                magnitude / 2 < p,
                q == magnitude / u,
                u > 0,
        ;
        let rounded: u64 = if up {
            q + 1
        } else {
            q
        };
        proof {
            assert(nearest(magnitude as nat) == rounded * u);
            lemma_pattern_of_multiple(k as nat, u as nat, rounded as nat);
        }
        if rounded == 0x100_0000 {
            sign + (128 + k) * 0x80_0000
        } else {
            sign + (127 + k) * 0x80_0000 + (rounded - 0x80_0000) as u32
        }
    }
}

/// The bit pattern of the binary32 number nearest to `a - b`, the
/// difference taken exactly, whatever the two operands are.
pub fn binary32_of_difference(a: i64, b: i64) -> (bits: u32)
    ensures
        bits == binary32(a - b),
{
    let d: i128 = a as i128 - b as i128;
    if d < 0 {
        binary32_bits(true, (-d) as u64)
    } else {
        binary32_bits(false, d as u64)
    }
}

/// Below `2^24` nothing is lost: every integer is its own nearest binary32
/// number.
pub proof fn lemma_nearest_exact(m: nat)
    requires
        m < 0x100_0000,
    ensures
        nearest(m) == m,
{
    if m > 0 {
        lemma_top_bit_brackets(m);
        if top_bit(m) > 23 {
            lemma2_to64();
            lemma_pow2_adds(24, (top_bit(m) - 24) as nat);
            lemma_pow2_pos((top_bit(m) - 24) as nat);
            assert(pow2(top_bit(m)) >= 0x100_0000) by (nonlinear_arith)
                requires
                    pow2(top_bit(m)) == 0x100_0000 * pow2((top_bit(m) - 24) as nat),
                    pow2((top_bit(m) - 24) as nat) > 0,
            ;
        }
    }
    lemma_top_bit_small(m);
}

/// Rounding moves a magnitude by at most half the spacing of binary32
/// numbers around it, and lands on a multiple of that spacing.
pub proof fn lemma_nearest_close(m: nat)
    ensures
        2 * (nearest(m) - m) <= spacing(m),
        2 * (m - nearest(m)) <= spacing(m),
        nearest(m) % spacing(m) == 0,
{
    let u = spacing(m);
    if top_bit(m) > 23 {
        lemma_pow2_pos((top_bit(m) - 23) as nat);
    }
    let q = m / u;
    let r = m % u;
    assert(m == q * u + r && 0 <= r < u) by (nonlinear_arith)
        requires
            q == m / u,
            r == m % u,
            u > 0,
    ;
    assert((q + 1) * u == q * u + u) by (nonlinear_arith);
    assert((q * u) % u == 0 && ((q + 1) * u) % u == 0) by (nonlinear_arith)
        requires
            u > 0,
    ;
}

/// A larger magnitude has its highest bit at least as high.
pub proof fn lemma_top_bit_monotone(a: nat, b: nat)
    requires
        a <= b,
    ensures
        top_bit(a) <= top_bit(b),
    decreases b,
{
    if a >= 2 {
        lemma_top_bit_monotone(a / 2, b / 2);
    }
}

/// Rounding lands between the two powers of two that bracket a magnitude.
pub proof fn lemma_nearest_brackets(m: nat)
    requires
        m > 0,
    ensures
        pow2(top_bit(m)) <= nearest(m) <= 2 * pow2(top_bit(m)),
{
    let k = top_bit(m);
    lemma_top_bit_brackets(m);
    if k <= 23 {
        lemma_top_bit_small(m);
    } else {
        let u = spacing(m);
        let p = pow2(k);
        lemma2_to64();
        lemma_pow2_adds((k - 23) as nat, 23);
        lemma_pow2_pos((k - 23) as nat);
        assert(p == u * 0x80_0000);
        let q = m / u;
        assert(0x80_0000 <= q < 0x100_0000) by (nonlinear_arith)
            requires
                p == u * 0x80_0000,
                p <= m < 2 * p,
                q == m / u,
                u > 0,
        ;
        assert(p <= q * u && (q + 1) * u <= 2 * p) by (nonlinear_arith)
            requires
                p == u * 0x80_0000,
                0x80_0000 <= q < 0x100_0000,
                u > 0,
        ;
        assert(q * u <= (q + 1) * u) by (nonlinear_arith)
            requires
                u > 0,
        ;
    }
}

/// A magnitude whose highest bit is no higher than bit 23 is its own
/// nearest binary32 number.
proof fn lemma_top_bit_small(m: nat)
    requires
        top_bit(m) <= 23,
    ensures
        nearest(m) == m,
{
    let q = m / 1;
    assert(q * 1 == m) by (nonlinear_arith)
        requires
            q == m,
    ;
}

/// Rounding keeps the order of magnitudes: of two events, the later one is
/// never drawn before the earlier.
pub proof fn lemma_nearest_monotone(a: nat, b: nat)
    requires
        a <= b,
    ensures
        nearest(a) <= nearest(b),
{
    lemma_top_bit_monotone(a, b);
    let ka = top_bit(a);
    let kb = top_bit(b);
    if a == 0 {
        lemma_top_bit_small(0);
    } else if ka < kb {
        lemma_nearest_brackets(a);
        lemma_nearest_brackets(b);
        lemma_pow2_strictly_increases(ka, kb);
        lemma_pow2_unfold(ka + 1);
        if ka + 1 < kb {
            lemma_pow2_strictly_increases(ka + 1, kb);
        }
    } else if ka <= 23 {
        lemma_top_bit_small(a);
        lemma_top_bit_small(b);
    } else {
        let u = spacing(a);
        lemma_pow2_pos((ka - 23) as nat);
        let qa = a / u;
        let qb = b / u;
        let ra = a % u;
        let rb = b % u;
        assert(a == qa * u + ra && b == qb * u + rb && ra < u && rb < u && qa <= qb
            && (qa == qb ==> ra <= rb)) by (nonlinear_arith)
            requires
                a <= b,
                u > 0,
                qa == a / u,
                qb == b / u,
                ra == a % u,
                rb == b % u,
        ;
        if qa < qb {
            assert((qa + 1) * u <= qb * u && qa * u <= (qa + 1) * u && qb * u <= (qb + 1) * u)
                by (nonlinear_arith)
                requires
                    qa < qb,
                    u > 0,
            ;
        } else {
            assert(qa * u <= (qa + 1) * u) by (nonlinear_arith)
                requires
                    u > 0,
            ;
        }
    }
}

/// What a pattern denotes. For a magnitude `m > 0`, the pattern of
/// `nearest(m)` fits 32 bits and has the sign asked for in its highest bit;
/// with `e` the eight bits below, less the bias 127, and `s` the 23 lowest
/// bits under a leading one, the number `s / 2^23 * 2^e` that binary32 reads
/// from it is `nearest(m)`.
pub proof fn lemma_pattern_denotes(negative: bool, m: nat)
    requires
        0 < m < 0x1_0000_0000_0000_0000,
    ensures
        ({
            let bits = pattern(negative, nearest(m));
            let low = bits % 0x8000_0000;
            let e = low / 0x80_0000 - 127;
            let s = low % 0x80_0000 + 0x80_0000;
            &&& bits < 0x1_0000_0000
            &&& bits >= 0x8000_0000 <==> negative
            &&& 0 <= e <= 64
            &&& s * pow2(e as nat) == nearest(m) * 0x80_0000
        }),
{
    let k = top_bit(m);
    let n = nearest(m);
    lemma_top_bit_brackets(m);
    lemma_nearest_brackets(m);
    lemma2_to64();
    if k > 64 {
        lemma_pow2_strictly_increases(64, k);
    }
    assert(k <= 63);
    if k <= 23 {
        lemma_top_bit_small(m);
        lemma_pow2_adds(k, (23 - k) as nat);
        lemma_pow2_pos((23 - k) as nat);
        let scale = pow2((23 - k) as nat);
        assert(scale * pow2(k) == 0x80_0000) by (nonlinear_arith)
            requires
                0x80_0000 == pow2(k) * scale,
        ;
        lemma_pattern_of_small(k, scale, m);
        let s = m * scale;
        assert(s * pow2(k) == m * 0x80_0000) by (nonlinear_arith)
            requires
                s == m * scale,
                scale * pow2(k) == 0x80_0000,
        ;
        lemma_fields(negative, k, s);
    } else {
        let u = spacing(m);
        lemma_pow2_adds((k - 23) as nat, 23);
        lemma_pow2_pos((k - 23) as nat);
        let p = pow2(k);
        assert(p == u * 0x80_0000);
        let q = m / u;
        assert(0x80_0000 <= q < 0x100_0000) by (nonlinear_arith)
            requires
                p == u * 0x80_0000,
                p <= m < 2 * p,
                q == m / u,
                u > 0,
        ;
        let rounded: nat = if n == q * u {
            q
        } else {
            q + 1
        };
        assert(n == rounded * u);
        lemma_pattern_of_multiple(k, u, rounded);
        if rounded < 0x100_0000 {
            assert(rounded * p == n * 0x80_0000) by (nonlinear_arith)
                requires
                    n == rounded * u,
                    p == u * 0x80_0000,
            ;
            lemma_fields(negative, k, rounded);
        } else {
            lemma_pow2_unfold(k + 1);
            assert(0x80_0000 * pow2(k + 1) == n * 0x80_0000) by (nonlinear_arith)
                requires
                    n == 0x100_0000 * u,
                    pow2(k + 1) == 2 * p,
                    p == u * 0x80_0000,
            ;
            lemma_fields(negative, k + 1, 0x80_0000);
        }
    }
}

/// The fields of a pattern put together from sign, exponent `k` and
/// significand `s` are read back as what went in.
proof fn lemma_fields(negative: bool, k: nat, s: nat)
    requires
        k <= 64,
        0x80_0000 <= s < 0x100_0000,
    ensures
        ({
            let sign: nat = if negative {
                0x8000_0000
            } else {
                0
            };
            let bits = (sign + (127 + k) * 0x80_0000 + s - 0x80_0000) as nat;
            let low = bits % 0x8000_0000;
            &&& bits < 0x1_0000_0000
            &&& bits >= 0x8000_0000 <==> negative
            &&& low / 0x80_0000 - 127 == k
            &&& low % 0x80_0000 + 0x80_0000 == s
        }),
{
}

} // verus!
