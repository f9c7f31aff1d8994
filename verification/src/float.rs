//! Doubles, carried as IEEE-754 bit patterns.
//!
//! What a pattern stands for is given by [`flt_scaled`]: the value in units of
//! 2^-1074, the smallest positive double, so that every double is a
//! mathematical integer.

use vstd::prelude::*;
use vstd::arithmetic::power2::pow2;
use vstd::arithmetic::power2::lemma_pow2_adds;
use vstd::arithmetic::power2::lemma_pow2_pos;
use vstd::arithmetic::power2::lemma_pow2_strictly_increases;
use vstd::arithmetic::power2::lemma2_to64;
use vstd::arithmetic::power2::lemma2_to64_rest;
use vstd::arithmetic::div_mod::lemma_fundamental_div_mod;
use vstd::arithmetic::div_mod::lemma_fundamental_div_mod_converse;

verus! {

/// 2^52, the weight of a double's implicit leading bit.
pub const FLT_ONE: u64 = 0x0010_0000_0000_0000;

/// 2^63, the sign bit.
pub const FLT_SIGN: u64 = 0x8000_0000_0000_0000;

/// The magnitude bits of an infinity.
pub const FLT_INF: u64 = 0x7ff0_0000_0000_0000;

/// The pattern without its sign bit.
pub open spec fn flt_mag(b: u64) -> int {
    b as int % 0x8000_0000_0000_0000
}

/// Whether the sign bit is set.
pub open spec fn flt_neg(b: u64) -> bool {
    b >= FLT_SIGN
}

/// Whether the pattern is a NaN.
pub open spec fn flt_nan(b: u64) -> bool {
    flt_mag(b) > FLT_INF
}

/// The significand of a magnitude, with the implicit leading bit of a normal
/// number.
pub open spec fn mag_sig(mag: int) -> int {
    if mag / 0x0010_0000_0000_0000 == 0 {
        mag
    } else {
        mag % 0x0010_0000_0000_0000 + 0x0010_0000_0000_0000
    }
}

/// The power of two by which the significand of a magnitude is scaled.
pub open spec fn mag_exp(mag: int) -> nat {
    if mag / 0x0010_0000_0000_0000 == 0 {
        0
    } else {
        (mag / 0x0010_0000_0000_0000 - 1) as nat
    }
}

/// A magnitude in units of 2^-1074. An infinity counts as 2^1024, more than any
/// finite double.
pub open spec fn mag_scaled(mag: int) -> int {
    mag_sig(mag) * pow2(mag_exp(mag))
}

/// The value of a double that is no NaN, in units of 2^-1074.
pub open spec fn flt_scaled(b: u64) -> int {
    if flt_neg(b) {
        -mag_scaled(flt_mag(b))
    } else {
        mag_scaled(flt_mag(b))
    }
}

/// One, in units of 2^-1074.
pub open spec fn flt_unit() -> int {
    pow2(1074) as int
}

/// `a < b` on doubles.
pub open spec fn spec_flt_lt(a: u64, b: u64) -> bool {
    !flt_nan(a) && !flt_nan(b) && flt_scaled(a) < flt_scaled(b)
}

/// `a <= b` on doubles.
pub open spec fn spec_flt_le(a: u64, b: u64) -> bool {
    !flt_nan(a) && !flt_nan(b) && flt_scaled(a) <= flt_scaled(b)
}

/// `a == b` on doubles.
pub open spec fn spec_flt_eq(a: u64, b: u64) -> bool {
    !flt_nan(a) && !flt_nan(b) && flt_scaled(a) == flt_scaled(b)
}

/// Larger magnitude bits are larger magnitudes.
pub proof fn lemma_mag_scaled_monotone(m1: int, m2: int)
    requires
        0 <= m1 < m2,
    ensures
        0 <= mag_scaled(m1) < mag_scaled(m2),
{
    let one: int = 0x0010_0000_0000_0000;
    let e1 = mag_exp(m1);
    let e2 = mag_exp(m2);
    let s1 = mag_sig(m1);
    let s2 = mag_sig(m2);
    lemma_pow2_pos(e1);
    lemma_pow2_pos(e2);
    assert(m1 / one <= m2 / one);
    if m1 / one == m2 / one {
        assert(s1 < s2);
        assert(0 <= s1 * pow2(e1) < s2 * pow2(e1)) by (nonlinear_arith)
            requires
                0 <= s1 < s2,
                pow2(e1) > 0,
        ;
    } else if m1 / one == 0 {
        assert(pow2(0) == 1) by { lemma2_to64(); }
        assert(0 <= s1 < one <= s2);
        assert(s1 * 1 == s1);
        assert(s2 * pow2(e2) >= s2) by (nonlinear_arith)
            requires
                s2 >= 0,
                pow2(e2) >= 1,
        ;
    } else {
        assert(e1 + 1 <= e2);
        if e1 + 1 < e2 {
            lemma_pow2_strictly_increases((e1 + 1) as nat, e2);
        }
        lemma_pow2_adds(1, e1);
        assert(pow2(1) == 2) by { lemma2_to64(); }
        assert(pow2(e2) >= 2 * pow2(e1));
        assert(0 <= s1 < 2 * one);
        assert(s2 >= one);
        assert(0 <= s1 * pow2(e1) < (2 * one) * pow2(e1)) by (nonlinear_arith)
            requires
                0 <= s1 < 2 * one,
                pow2(e1) > 0,
        ;
        assert((2 * one) * pow2(e1) == one * (2 * pow2(e1))) by (nonlinear_arith);
        assert(one * (2 * pow2(e1)) <= s2 * pow2(e2)) by (nonlinear_arith)
            requires
                0 <= one <= s2,
                0 <= 2 * pow2(e1) <= pow2(e2),
        ;
    }
}

/// The order of doubles is the order of their sign-and-magnitude keys.
proof fn lemma_key_order(a: u64, b: u64)
    ensures
        flt_scaled(a) < flt_scaled(b) <==> spec_key(a) < spec_key(b),
        flt_scaled(a) == flt_scaled(b) <==> spec_key(a) == spec_key(b),
{
    let ma = flt_mag(a);
    let mb = flt_mag(b);
    assert(mag_scaled(0) == 0) by (nonlinear_arith)
        requires
            mag_scaled(0) == mag_sig(0) * pow2(mag_exp(0)),
            mag_sig(0) == 0,
    ;
    if ma < mb {
        lemma_mag_scaled_monotone(ma, mb);
    }
    if mb < ma {
        lemma_mag_scaled_monotone(mb, ma);
    }
    if 0 < ma {
        lemma_mag_scaled_monotone(0, ma);
    }
    if 0 < mb {
        lemma_mag_scaled_monotone(0, mb);
    }
}

/// The magnitude bits, negated for a negative double.
spec fn spec_key(b: u64) -> int {
    if flt_neg(b) {
        -flt_mag(b)
    } else {
        flt_mag(b)
    }
}

fn flt_key(b: u64) -> (k: i64)
    ensures
        k == spec_key(b),
{
    let mag: u64 = b % 0x8000_0000_0000_0000;
    if b >= FLT_SIGN {
        -(mag as i64)
    } else {
        mag as i64
    }
}

/// Whether a double is a NaN.
pub fn flt_is_nan(b: u64) -> (r: bool)
    ensures
        r == flt_nan(b),
{
    b % 0x8000_0000_0000_0000 > FLT_INF
}

/// `a < b` on doubles; false where either is a NaN.
pub fn flt_lt(a: u64, b: u64) -> (r: bool)
    ensures
        r == spec_flt_lt(a, b),
{
    proof {
        lemma_key_order(a, b);
    }
    !flt_is_nan(a) && !flt_is_nan(b) && flt_key(a) < flt_key(b)
}

/// `a <= b` on doubles; false where either is a NaN.
pub fn flt_le(a: u64, b: u64) -> (r: bool)
    ensures
        r == spec_flt_le(a, b),
{
    proof {
        lemma_key_order(a, b);
    }
    !flt_is_nan(a) && !flt_is_nan(b) && flt_key(a) <= flt_key(b)
}

/// `a == b` on doubles; false where either is a NaN, and the two zeros are
/// equal.
pub fn flt_eq(a: u64, b: u64) -> (r: bool)
    ensures
        r == spec_flt_eq(a, b),
{
    proof {
        lemma_key_order(a, b);
    }
    !flt_is_nan(a) && !flt_is_nan(b) && flt_key(a) == flt_key(b)
}


/// Rounding mode for turning a double into an integer.
#[derive(Debug, Clone, Copy, PartialEq, Eq, Structural)]
pub enum F2Imod {
    /// Accept only integral values.
    Eq,
    /// Round toward negative infinity.
    Floor,
    /// Round toward positive infinity.
    Ceil,
}

/// Whether a mathematical integer fits a Lua integer.
pub open spec fn fits_i64(x: int) -> bool {
    i64::MIN <= x <= i64::MAX
}

/// The integer that a double rounds to, where there is one and it fits.
pub open spec fn spec_flt_to_integer(b: u64, mode: F2Imod) -> Option<i64> {
    if flt_nan(b) {
        None
    } else {
        let s = flt_scaled(b);
        let t = match mode {
            F2Imod::Ceil => -((-s) / flt_unit()),
            _ => s / flt_unit(),
        };
        if mode == F2Imod::Eq && s % flt_unit() != 0 {
            None
        } else if fits_i64(t) {
            Some(t as i64)
        } else {
            None
        }
    }
}

/// 2^e for a small exponent.
fn pow2_u64(e: u32) -> (r: u64)
    requires
        e < 64,
    ensures
        r == pow2(e as nat),
{
    proof {
        vstd::bits::lemma_u64_pow2_no_overflow(e as nat);
        vstd::bits::lemma_u64_shl_is_mul(1u64, e as u64);
    }
    1u64 << (e as u64)
}

/// How a scaled magnitude divides into whole units when its significand is
/// scaled up past one unit.
proof fn lemma_units_up(sig: int, p: nat)
    requires
        p >= 1074,
        sig >= 0,
    ensures
        sig * pow2(p) == (sig * pow2((p - 1074) as nat)) * flt_unit(),
        (sig * pow2(p)) / flt_unit() == sig * pow2((p - 1074) as nat),
        (sig * pow2(p)) % flt_unit() == 0,
        (-(sig * pow2(p))) / flt_unit() == -(sig * pow2((p - 1074) as nat)),
        (-(sig * pow2(p))) % flt_unit() == 0,
{
    let k = (p - 1074) as nat;
    lemma_pow2_adds(k, 1074);
    lemma_pow2_pos(1074);
    let u = flt_unit();
    let q = sig * pow2(k);
    assert(sig * pow2(p) == q * u) by (nonlinear_arith)
        requires
            pow2(p) == pow2(k) * u,
            q == sig * pow2(k),
    ;
    lemma_fundamental_div_mod_converse(q * u, u, q, 0);
    assert((-q) * u == -(q * u)) by (nonlinear_arith);
    lemma_fundamental_div_mod_converse((-q) * u, u, -q, 0);
}

/// How a scaled magnitude divides into whole units when its significand is
/// scaled to less than one unit.
proof fn lemma_units_down(sig: int, p: nat, q: int, r: int)
    requires
        p < 1074,
        sig == q * pow2((1074 - p) as nat) + r,
        0 <= r < pow2((1074 - p) as nat),
    ensures
        (sig * pow2(p)) / flt_unit() == q,
        ((sig * pow2(p)) % flt_unit() == 0) == (r == 0),
        (-(sig * pow2(p))) / flt_unit() == (if r == 0 { -q } else { -q - 1 }),
        ((-(sig * pow2(p))) % flt_unit() == 0) == (r == 0),
{
    let d = (1074 - p) as nat;
    let u = flt_unit();
    let dd = pow2(d) as int;
    let pp = pow2(p) as int;
    lemma_pow2_adds(d, p);
    lemma_pow2_pos(p);
    lemma_pow2_pos(d);
    assert(u == dd * pp);
    let x = sig * pp;
    let rr = r * pp;
    assert(x == q * u + rr) by (nonlinear_arith)
        requires
            x == (q * dd + r) * pp,
            u == dd * pp,
            rr == r * pp,
    ;
    assert(0 <= rr < u) by (nonlinear_arith)
        requires
            0 <= r < dd,
            pp > 0,
            u == dd * pp,
            rr == r * pp,
    ;
    assert((rr == 0) == (r == 0)) by (nonlinear_arith)
        requires
            rr == r * pp,
            pp > 0,
    ;
    lemma_fundamental_div_mod_converse(x, u, q, rr);
    if r == 0 {
        assert(-x == (-q) * u + 0) by (nonlinear_arith)
            requires
                x == q * u,
        ;
        lemma_fundamental_div_mod_converse(-x, u, -q, 0);
    } else {
        assert(-x == (-q - 1) * u + (u - rr)) by (nonlinear_arith)
            requires
                x == q * u + rr,
        ;
        lemma_fundamental_div_mod_converse(-x, u, -q - 1, u - rr);
    }
}

/// The whole part of a double's magnitude and whether anything is left over,
/// or `None` where the whole part needs more than 64 bits.
fn flt_whole(b: u64) -> (r: Option<(u64, bool)>)
    ensures
        r matches Some(p) ==> {
            let s = mag_scaled(flt_mag(b));
            &&& s / flt_unit() == p.0
            &&& p.1 == (s % flt_unit() == 0)
            &&& (-s) / flt_unit() == (if p.1 { -(p.0 as int) } else { -(p.0 as int) - 1 })
            &&& (-s) % flt_unit() == 0 <==> p.1
        },
        r is None ==> mag_scaled(flt_mag(b)) / flt_unit() > u64::MAX && (-mag_scaled(flt_mag(b)))
            / flt_unit() < -u64::MAX,
{
    let mag: u64 = b % 0x8000_0000_0000_0000;
    let field: u64 = mag / 0x0010_0000_0000_0000;
    let sig: u64 = if field == 0 {
        mag
    } else {
        mag % 0x0010_0000_0000_0000 + 0x0010_0000_0000_0000
    };
    let p: u64 = if field == 0 {
        0
    } else {
        field - 1
    };
    assert(sig == mag_sig(mag as int) && p == mag_exp(mag as int));
    assert(sig < 0x0020_0000_0000_0000);
    if p >= 1074 {
        proof {
            lemma_units_up(sig as int, p as nat);
        }
        if p > 1085 {
            proof {
                let k = (p - 1074) as nat;
                if k > 12 {
                    lemma_pow2_strictly_increases(12, k);
                }
                assert(pow2(12) == 4096) by { lemma2_to64(); }
                assert(sig * pow2(k) >= 0x0010_0000_0000_0000 * 4096) by (nonlinear_arith)
                    requires
                        sig >= 0x0010_0000_0000_0000,
                        pow2(k) >= 4096,
                ;
            }
            None
        } else {
            let up: u64 = pow2_u64((p - 1074) as u32);
            proof {
                let k = (p - 1074) as nat;
                if k < 11 {
                    lemma_pow2_strictly_increases(k, 11);
                }
                assert(pow2(11) == 2048) by { lemma2_to64(); }
                lemma_pow2_pos(k);
                assert(sig * up < 0x0020_0000_0000_0000 * 2048) by (nonlinear_arith)
                    requires
                        sig < 0x0020_0000_0000_0000,
                        up <= 2048,
                        up > 0,
                ;
                assert(0 <= sig * up) by (nonlinear_arith);
            }
            Some((sig * up, true))
        }
    } else if 1074 - p >= 64 {
        proof {
            let d = (1074 - p) as nat;
            if d > 64 {
                lemma_pow2_strictly_increases(64, d);
            }
            assert(pow2(64) == 0x1_0000_0000_0000_0000) by { lemma2_to64(); lemma2_to64_rest(); }
            assert(0 * pow2(d) == 0);
            lemma_units_down(sig as int, p as nat, 0, sig as int);
        }
        Some((0, sig == 0))
    } else {
        let down: u64 = pow2_u64((1074 - p) as u32);
        proof {
            lemma_pow2_pos((1074 - p) as nat);
            lemma_fundamental_div_mod(sig as int, down as int);
            assert(down * (sig as int / down as int) == (sig as int / down as int) * down)
                by (nonlinear_arith);
            lemma_units_down(sig as int, p as nat, sig as int / down as int, sig as int % down as int);
        }
        Some((sig / down, sig % down == 0))
    }
}

/// Converts a double to an integer according to `mode`; `None` where the double
/// is a NaN, not integral under [`F2Imod::Eq`], or out of range.
pub fn flt_to_integer(b: u64, mode: F2Imod) -> (r: Option<i64>)
    ensures
        r == spec_flt_to_integer(b, mode),
{
    if flt_is_nan(b) {
        return None;
    }
    match flt_whole(b) {
        None => None,
        Some((q, exact)) => {
            if mode == F2Imod::Eq && !exact {
                return None;
            }
            if b >= FLT_SIGN {
                let away: bool = mode == F2Imod::Floor && !exact;
                if q > 0x8000_0000_0000_0000 || (away && q == 0x8000_0000_0000_0000) {
                    None
                } else {
                    let m: u64 = if away {
                        q + 1
                    } else {
                        q
                    };
                    if m == 0x8000_0000_0000_0000 {
                        Some(i64::MIN)
                    } else {
                        Some(-(m as i64))
                    }
                }
            } else {
                let away: bool = mode == F2Imod::Ceil && !exact;
                if q > 0x7fff_ffff_ffff_ffff || (away && q == 0x7fff_ffff_ffff_ffff) {
                    None
                } else if away {
                    Some((q + 1) as i64)
                } else {
                    Some(q as i64)
                }
            }
        },
    }
}

/// The distance between doubles around a whole number of magnitude `m`: one up
/// to 2^53, and twice as much for each doubling of `m` beyond.
pub open spec fn int_ulp(m: nat) -> nat
    decreases m,
{
    if m < 0x0020_0000_0000_0000 {
        1
    } else {
        2 * int_ulp(m / 2)
    }
}

/// The multiple of `u` nearest to `m`; of two that are equally near, the even
/// one.
pub open spec fn round_half_even(m: nat, u: nat) -> nat {
    let q = m / u;
    let r = m % u;
    if 2 * r < u || (2 * r == u && q % 2 == 0) {
        q * u
    } else {
        (q + 1) * u
    }
}

/// The whole number that a Lua integer becomes as a double.
pub open spec fn int_rounded(i: int) -> int {
    if i < 0 {
        -(round_half_even((-i) as nat, int_ulp((-i) as nat)) as int)
    } else {
        round_half_even(i as nat, int_ulp(i as nat)) as int
    }
}

/// What it is to be the double that a Lua integer converts to.
pub open spec fn is_int_to_float(i: i64, b: u64) -> bool {
    &&& !flt_nan(b)
    &&& flt_neg(b) == (i < 0)
    &&& flt_scaled(b) == int_rounded(i as int) * flt_unit()
}

/// Up to 2^53, an integer converts without rounding.
pub proof fn lemma_small_int_exact(i: int)
    requires
        -0x0020_0000_0000_0000 <= i <= 0x0020_0000_0000_0000,
    ensures
        int_rounded(i) == i,
{
    let m: nat = if i < 0 {
        (-i) as nat
    } else {
        i as nat
    };
    if m == 0x0020_0000_0000_0000 {
        assert(int_ulp(0x0010_0000_0000_0000) == 1);
        assert(int_ulp(m) == 2);
    } else {
        assert(int_ulp(m) == 1);
        assert(m / 1 == m && m % 1 == 0);
    }
}

/// The nearest double to a whole magnitude, ties to even, as a pattern.
fn mag_to_float(m: u64) -> (b: u64)
    requires
        m <= FLT_SIGN,
    ensures
        b < FLT_INF,
        mag_scaled(b as int) == round_half_even(m as nat, int_ulp(m as nat)) * flt_unit(),
{
    if m == 0 {
        proof {
            lemma_small_int_exact(0);
            assert(mag_scaled(0) == 0) by (nonlinear_arith)
                requires
                    mag_scaled(0) == mag_sig(0) * pow2(mag_exp(0)),
                    mag_sig(0) == 0,
            ;
            assert(0 * flt_unit() == 0);
        }
        return 0;
    }
    let mut u: u64 = 1;
    let mut e: u64 = 0;
    let mut q: u64 = m;
    proof {
        lemma2_to64();
        assert(m as int / 1 == m);
        assert(1 * int_ulp(m as nat) == int_ulp(m as nat));
    }
    while q >= 0x0020_0000_0000_0000
        invariant
            0 < m <= FLT_SIGN,
            e <= 10 || (e == 11 && q < 0x0020_0000_0000_0000),
            u == pow2(e as nat),
            1 <= u <= 2048,
            q == m as int / u as int,
            q > 0,
            int_ulp(m as nat) == u * int_ulp(q as nat),
            e > 0 ==> q >= 0x0010_0000_0000_0000,
        decreases q,
    {
        proof {
            vstd::arithmetic::div_mod::lemma_div_denominator(m as int, u as int, 2);
            lemma_pow2_adds(e as nat, 1);
            lemma2_to64();
            assert(u * (2 * int_ulp(q as nat / 2)) == (u * 2) * int_ulp(q as nat / 2))
                by (nonlinear_arith);
            lemma_fundamental_div_mod(m as int, u as int);
            assert(u <= 1024) by (nonlinear_arith)
                requires
                    m <= 0x8000_0000_0000_0000,
                    m == u * q + m % u,
                    m % u >= 0,
                    q >= 0x0020_0000_0000_0000,
                    u >= 1,
            ;
            if e == 10 {
                assert(u == 1024);
            }
        }
        q = q / 2;
        u = u * 2;
        e = e + 1;
        proof {
            if e == 11 {
                assert(u == 2048);
                lemma_fundamental_div_mod(m as int, u as int);
                assert(q < 0x0020_0000_0000_0000) by (nonlinear_arith)
                    requires
                        m <= 0x8000_0000_0000_0000,
                        m == u * q + m % u,
                        m % u >= 0,
                        u == 2048,
                ;
            }
        }
    }
    assert(int_ulp(q as nat) == 1);
    assert(u * 1 == u);
    proof {
        lemma_fundamental_div_mod(m as int, u as int);
        assert(u * q <= m);
    }
    let r: u64 = m % u;
    let up: bool = 2 * r > u || (2 * r == u && q % 2 == 1);
    let w: u64 = if up {
        q + 1
    } else {
        q
    };
    assert(w * u == round_half_even(m as nat, u as nat));
    let mut sig: u64 = w;
    let mut p: u64 = e + 1074;
    let ghost total: int = w * pow2((e + 1074) as nat);
    if sig == 0x0020_0000_0000_0000 {
        proof {
            lemma_pow2_adds(p as nat, 1);
            lemma2_to64();
            assert(total == 0x0010_0000_0000_0000 * pow2((p + 1) as nat)) by (nonlinear_arith)
                requires
                    total == 0x0020_0000_0000_0000 * pow2(p as nat),
                    pow2((p + 1) as nat) == pow2(p as nat) * 2,
            ;
        }
        sig = 0x0010_0000_0000_0000;
        p = p + 1;
    }
    proof {
        if sig < 0x0010_0000_0000_0000 {
            assert(e == 0 && p == 1074);
            assert(pow2(52) == 0x0010_0000_0000_0000) by { lemma2_to64(); lemma2_to64_rest(); }
            assert(sig * pow2(52) >= 0x0010_0000_0000_0000) by (nonlinear_arith)
                requires
                    sig >= 1,
                    pow2(52) == 0x0010_0000_0000_0000,
            ;
        }
    }
    while sig < 0x0010_0000_0000_0000
        invariant
            0 < sig < 0x0020_0000_0000_0000,
            p <= 1086,
            sig < 0x0010_0000_0000_0000 ==> p <= 1074 && sig * pow2((p - 1022) as nat) >= 0x0010_0000_0000_0000 && p >= 1022,
            p >= 1022,
            sig * pow2(p as nat) == total,
        decreases p,
    {
        proof {
            assert(p > 1022) by {
                if p == 1022 {
                    lemma2_to64();
                    assert(sig * pow2(0) == sig) by (nonlinear_arith)
                        requires
                            pow2(0) == 1,
                    ;
                }
            }
            lemma_pow2_adds((p - 1) as nat, 1);
            lemma_pow2_adds((p - 1023) as nat, 1);
            lemma2_to64();
            assert((sig * 2) * pow2((p - 1) as nat) == sig * pow2(p as nat)) by (nonlinear_arith)
                requires
                    pow2(p as nat) == pow2((p - 1) as nat) * 2,
            ;
            assert((sig * 2) * pow2((p - 1023) as nat) == sig * pow2((p - 1022) as nat))
                by (nonlinear_arith)
                requires
                    pow2((p - 1022) as nat) == pow2((p - 1023) as nat) * 2,
            ;
        }
        sig = sig * 2;
        p = p - 1;
    }
    let b: u64 = (p + 1) * 0x0010_0000_0000_0000 + (sig - 0x0010_0000_0000_0000);
    proof {
        assert(mag_sig(b as int) == sig);
        assert(mag_exp(b as int) == p);
        lemma_pow2_adds(e as nat, 1074);
        assert(total == (w * u) * flt_unit()) by (nonlinear_arith)
            requires
                total == w * pow2((e + 1074) as nat),
                pow2((e + 1074) as nat) == u * flt_unit(),
        ;
    }
    b
}

/// The double that a Lua integer converts to.
pub open spec fn float_of_int(i: i64) -> u64 {
    choose|b: u64| is_int_to_float(i, b)
}

/// A Lua integer converts to one double only.
pub proof fn lemma_int_to_float_unique(i: i64, b1: u64, b2: u64)
    requires
        is_int_to_float(i, b1),
        is_int_to_float(i, b2),
    ensures
        b1 == b2,
        b1 == float_of_int(i),
{
    let b3 = float_of_int(i);
    let m1 = flt_mag(b1);
    let m2 = flt_mag(b2);
    let m3 = flt_mag(b3);
    if m1 < m2 {
        lemma_mag_scaled_monotone(m1, m2);
    }
    if m2 < m1 {
        lemma_mag_scaled_monotone(m2, m1);
    }
    if m1 < m3 {
        lemma_mag_scaled_monotone(m1, m3);
    }
    if m3 < m1 {
        lemma_mag_scaled_monotone(m3, m1);
    }
}

/// Converts a Lua integer to the nearest double, ties to even.
pub fn int_to_float(i: i64) -> (b: u64)
    ensures
        is_int_to_float(i, b),
        b == float_of_int(i),
{
    let b: u64 = int_to_float_bits(i);
    proof {
        lemma_int_to_float_unique(i, b, b);
    }
    b
}

fn int_to_float_bits(i: i64) -> (b: u64)
    ensures
        is_int_to_float(i, b),
{
    if i < 0 {
        let m: u64 = if i == i64::MIN {
            0x8000_0000_0000_0000
        } else {
            (-i) as u64
        };
        let b: u64 = mag_to_float(m);
        proof {
            let k = round_half_even(m as nat, int_ulp(m as nat));
            assert((-(k as int)) * flt_unit() == -(k * flt_unit())) by (nonlinear_arith);
        }
        b + FLT_SIGN
    } else {
        mag_to_float(i as u64)
    }
}

/// A double with the opposite sign.
pub open spec fn flt_negated(b: u64) -> u64 {
    if b >= FLT_SIGN {
        (b - FLT_SIGN) as u64
    } else {
        (b + FLT_SIGN) as u64
    }
}

/// Negates a double.
pub fn flt_negate(b: u64) -> (r: u64)
    ensures
        r == flt_negated(b),
{
    if b >= FLT_SIGN {
        b - FLT_SIGN
    } else {
        b + FLT_SIGN
    }
}

/// Negating negates the value, keeps NaN, and twice is not at all.
pub proof fn law_negate(b: u64)
    ensures
        flt_scaled(flt_negated(b)) == -flt_scaled(b),
        flt_nan(flt_negated(b)) == flt_nan(b),
        flt_negated(flt_negated(b)) == b,
{
}

/// The value of a double is made up of its bits: a normal one has 52 bits behind an implicit
/// one, scaled by its exponent, a subnormal one no implicit bit, and the sign bit negates.
pub proof fn law_double_value(e: int, m: int, b: u64)
    requires
        0 <= e < 2047,
        0 <= m < 0x0010_0000_0000_0000,
        b == e * 0x0010_0000_0000_0000 + m,
    ensures
        !flt_nan(b),
        e > 0 ==> flt_scaled(b) == (0x0010_0000_0000_0000 + m) * pow2((e - 1) as nat),
        e == 0 ==> flt_scaled(b) == m * pow2(0),
        flt_scaled((b + 0x8000_0000_0000_0000) as u64) == -flt_scaled(b),
{
    let one = 0x0010_0000_0000_0000int;
    assert(b as int / one == e && b as int % one == m) by (nonlinear_arith)
        requires
            b == e * one + m,
            0 <= m < one,
            one == 0x0010_0000_0000_0000,
    ;
}

/// A double converts to the integer of its value and to no other, or, where it may be rounded,
/// to the nearest one below or above it.
pub proof fn law_to_integer(b: u64, n: i64)
    requires
        !flt_nan(b),
    ensures
        spec_flt_to_integer(b, F2Imod::Eq) == Some(n) <==> flt_scaled(b) == n * flt_unit(),
        spec_flt_to_integer(b, F2Imod::Floor) == Some(n) <==> n * flt_unit() <= flt_scaled(b) < (n + 1) * flt_unit(),
        spec_flt_to_integer(b, F2Imod::Ceil) == Some(n) <==> (n - 1) * flt_unit() < flt_scaled(b) <= n * flt_unit(),
{
    let u = flt_unit();
    let s = flt_scaled(b);
    lemma_pow2_pos(1074);
    lemma_fundamental_div_mod(s, u);
    lemma_fundamental_div_mod(-s, u);
    let q = s / u;
    let c = (-s) / u;
    assert((q == n) == (n * u <= s < (n + 1) * u)) by (nonlinear_arith)
        requires
            u > 0,
            s == u * q + s % u,
            0 <= s % u < u,
    ;
    assert((-c == n) == ((n - 1) * u < s <= n * u)) by (nonlinear_arith)
        requires
            u > 0,
            -s == u * c + (-s) % u,
            0 <= (-s) % u < u,
    ;
    assert((s % u == 0 && q == n) == (s == n * u)) by (nonlinear_arith)
        requires
            u > 0,
            s == u * q + s % u,
            0 <= s % u < u,
    ;
}

} // verus!
