//! Integer arithmetic, number coercions and comparisons.

use vstd::prelude::*;
use vstd::arithmetic::power2::pow2;
use vstd::arithmetic::power2::lemma_pow2_adds;
use vstd::arithmetic::power2::lemma_pow2_pos;
use vstd::arithmetic::power2::lemma_pow2_strictly_increases;
use vstd::arithmetic::power2::lemma2_to64;
use vstd::arithmetic::power2::lemma2_to64_rest;
use vstd::arithmetic::div_mod::lemma_fundamental_div_mod;
use vstd::arithmetic::div_mod::lemma_fundamental_div_mod_converse;
use vstd::string::StringSliceAdditionalSpecFns;
use crate::float::F2Imod;
use crate::float::flt_le;
use crate::float::flt_lt;
use crate::float::flt_nan;
use crate::float::flt_scaled;
use crate::float::flt_to_integer;
use crate::float::flt_unit;
use crate::float::float_of_int;
use crate::float::lemma_small_int_exact;
use crate::float::spec_flt_to_integer;
use crate::float::int_to_float;
use crate::value::LuaError;
use crate::value::LuaValue;
use crate::value::LuaVersion;
use crate::value::runtime_error;

verus! {

/// 2^64.
pub open spec fn two64() -> int {
    0x1_0000_0000_0000_0000
}

/// The number modulo 2^64, between 0 and 2^64.
pub open spec fn unsigned64(x: int) -> int {
    x % two64()
}

/// The number modulo 2^64, as a two's complement integer.
pub open spec fn wrap64(x: int) -> int {
    if unsigned64(x) >= 0x8000_0000_0000_0000 {
        unsigned64(x) - two64()
    } else {
        unsigned64(x)
    }
}

/// Wrapping depends on the number modulo 2^64 alone.
pub proof fn lemma_wrap64(x: int, k: int)
    ensures
        unsigned64(x + k * two64()) == unsigned64(x),
        wrap64(x + k * two64()) == wrap64(x),
        i64::MIN <= wrap64(x) <= i64::MAX,
{
    vstd::arithmetic::div_mod::lemma_mod_multiples_vanish(k, x, two64());
    assert(two64() * k + x == x + k * two64()) by (nonlinear_arith);
}

/// A Lua integer as its bit pattern.
pub fn to_unsigned(x: i64) -> (r: u64)
    ensures
        r == unsigned64(x as int),
{
    if x >= 0 {
        x as u64
    } else {
        u64::MAX - ((-(x + 1)) as u64)
    }
}

/// A bit pattern as a Lua integer.
pub fn to_signed(x: u64) -> (r: i64)
    ensures
        r == wrap64(x as int),
{
    if x >= 0x8000_0000_0000_0000 {
        -((u64::MAX - x) as i64) - 1
    } else {
        x as i64
    }
}

/// Sum modulo 2^64.
pub fn intop_add(a: i64, b: i64) -> (r: i64)
    ensures
        r == wrap64(a + b),
{
    a.wrapping_add(b)
}

/// Difference modulo 2^64.
pub fn intop_sub(a: i64, b: i64) -> (r: i64)
    ensures
        r == wrap64(a - b),
{
    a.wrapping_sub(b)
}

/// Product modulo 2^64.
pub fn intop_mul(a: i64, b: i64) -> (r: i64)
    ensures
        r == wrap64(a * b),
{
    let ua: u64 = to_unsigned(a);
    let ub: u64 = to_unsigned(b);
    proof {
        let ka: int = if a < 0 { 1 } else { 0 };
        let kb: int = if b < 0 { 1 } else { 0 };
        let m = two64();
        assert(ua == a + ka * m);
        assert(ub == b + kb * m);
        let k = a * kb + b * ka + ka * kb * m;
        assert(ua * ub == a * b + k * m) by (nonlinear_arith)
            requires
                ua == a + ka * m,
                ub == b + kb * m,
                k == a * kb + b * ka + ka * kb * m,
        ;
        lemma_wrap64(a * b, k);
        assert(ua as nat * ub as nat == ua * ub);
    }
    to_signed(ua.wrapping_mul(ub))
}

/// 2^n for a shift count.
fn shift_weight(n: u32) -> (r: u64)
    requires
        n < 64,
    ensures
        r == pow2(n as nat),
{
    proof {
        vstd::bits::lemma_u64_pow2_no_overflow(n as nat);
        vstd::bits::lemma_u64_shl_is_mul(1u64, n as u64);
    }
    1u64 << (n as u64)
}

/// Logical shift right: the bit pattern divided by 2^n.
pub fn intop_shr(x: i64, n: u32) -> (r: i64)
    requires
        n < 64,
    ensures
        r == wrap64(unsigned64(x as int) / (pow2(n as nat) as int)),
{
    let w: u64 = shift_weight(n);
    proof {
        lemma_pow2_pos(n as nat);
    }
    to_signed(to_unsigned(x) / w)
}

/// Shift left modulo 2^64, the count taken modulo 64.
pub fn intop_shl(x: i64, n: u32) -> (r: i64)
    ensures
        r == wrap64(x * pow2((n % 64) as nat)),
{
    let w: u64 = shift_weight(n % 64);
    let u: u64 = to_unsigned(x);
    proof {
        let k: int = if x < 0 { 1 } else { 0 };
        assert(u == x + k * two64());
        assert(u * w == x * w + (k * w) * two64()) by (nonlinear_arith)
            requires
                u == x + k * two64(),
        ;
        lemma_wrap64(x * w, k * w);
        assert(u as nat * w as nat == u * w);
    }
    to_signed(u.wrapping_mul(w))
}

/// Bitwise and.
pub fn intop_band(a: i64, b: i64) -> (r: i64)
    ensures
        r == a & b,
{
    a & b
}

/// Bitwise or.
pub fn intop_bor(a: i64, b: i64) -> (r: i64)
    ensures
        r == a | b,
{
    a | b
}

/// Bitwise exclusive or.
pub fn intop_bxor(a: i64, b: i64) -> (r: i64)
    ensures
        r == a ^ b,
{
    a ^ b
}

/// `x` shifted left by `y`, or right by `-y` where `y` is negative.
pub open spec fn spec_shiftl(x: int, y: int) -> int {
    if y >= 0 {
        wrap64(x * pow2(y as nat))
    } else {
        wrap64(unsigned64(x) / (pow2((-y) as nat) as int))
    }
}

/// Shift left; a negative count shifts right, logically.
pub fn shiftl(x: i64, y: i64) -> (r: i64)
    ensures
        r == spec_shiftl(x as int, y as int),
{
    if y < 0 {
        if y <= -64 {
            proof {
                let n = (-y) as nat;
                if n > 64 {
                    lemma_pow2_strictly_increases(64, n);
                }
                assert(pow2(64) == two64()) by { lemma2_to64(); lemma2_to64_rest(); }
                lemma_fundamental_div_mod_converse(unsigned64(x as int), pow2(n) as int, 0, unsigned64(x as int));
            }
            0
        } else {
            intop_shr(x, (-y) as u32)
        }
    } else if y >= 64 {
        proof {
            let n = (y - 64) as nat;
            lemma_pow2_adds(n, 64);
            assert(pow2(64) == two64()) by { lemma2_to64(); lemma2_to64_rest(); }
            assert(x * pow2(y as nat) == 0 + (x * pow2(n)) * two64()) by (nonlinear_arith)
                requires
                    pow2(y as nat) == pow2(n) * two64(),
            ;
            lemma_wrap64(0, x * pow2(n));
        }
        0
    } else {
        intop_shl(x, y as u32)
    }
}

/// The quotient rounded toward negative infinity.
pub open spec fn floor_div(m: int, n: int) -> int {
    if n > 0 {
        m / n
    } else {
        (-m) / (-n)
    }
}

/// What is left of `m` after taking `floor_div` times `n`.
pub open spec fn floor_mod(m: int, n: int) -> int {
    m - n * floor_div(m, n)
}

/// Truncated division of magnitudes against floor division.
proof fn lemma_floor(m: int, n: int, q: int, r: int)
    requires
        n != 0,
        m == n * q + r,
        (n > 0 ==> 0 <= r < n),
        (n < 0 ==> n < r <= 0),
    ensures
        floor_div(m, n) == q,
        floor_mod(m, n) == r,
{
    if n > 0 {
        assert(m == q * n + r) by (nonlinear_arith)
            requires
                m == n * q + r,
        ;
        lemma_fundamental_div_mod_converse(m, n, q, r);
    } else {
        assert(-m == q * (-n) + (-r)) by (nonlinear_arith)
            requires
                m == n * q + r,
        ;
        lemma_fundamental_div_mod_converse(-m, -n, q, -r);
    }
}

/// Truncated quotient and remainder, for a divisor other than 0 and -1.
fn trunc_div(m: i64, n: i64) -> (r: (i64, i64))
    requires
        n != 0,
        n != -1,
    ensures
        m == n * r.0 + r.1,
        m >= 0 ==> 0 <= r.1 && (r.1 < n || r.1 < -n),
        m <= 0 ==> r.1 <= 0 && (-n < r.1 || n < r.1),
        r.0 > i64::MIN || n == 1,
        -0x4000_0000_0000_0000 <= r.0 <= 0x4000_0000_0000_0000 || n == 1,
{
    let um: u64 = if m >= 0 { m as u64 } else { (-(m + 1)) as u64 + 1 };
    let un: u64 = if n >= 0 { n as u64 } else { (-(n + 1)) as u64 + 1 };
    let uq: u64 = um / un;
    let ur: u64 = um % un;
    proof {
        lemma_fundamental_div_mod(um as int, un as int);
        assert(un * uq == um - ur);
        if n != 1 {
            assert(uq <= 0x4000_0000_0000_0000) by (nonlinear_arith)
                requires
                    un >= 2,
                    un * uq <= 0x8000_0000_0000_0000,
            ;
        } else {
            assert(1 * uq == uq) by (nonlinear_arith);
        }
        assert(n * (-(uq as int)) == -(n * uq)) by (nonlinear_arith);
        assert((-(n as int)) * uq == -(n * uq)) by (nonlinear_arith);
    }
    let r: i64 = if m >= 0 { ur as i64 } else { -(ur as i64) };
    if (m >= 0) == (n >= 0) {
        (uq as i64, r)
    } else if uq == 0x8000_0000_0000_0000 {
        (i64::MIN, r)
    } else {
        (-(uq as i64), r)
    }
}

/// Integer division, rounded toward negative infinity and modulo 2^64.
pub fn idiv(m: i64, n: i64) -> (r: Result<i64, LuaError>)
    ensures
        n == 0 ==> (r matches Err(e) && crate::value::is_runtime_msg(e, "attempt to divide by zero".spec_bytes())),
        n != 0 ==> (r matches Ok(q) && q == wrap64(floor_div(m as int, n as int))),
{
    if n == 0 {
        return Err(runtime_error("attempt to divide by zero"));
    }
    if n == -1 {
        proof {
            assert((-m) / 1 == -m);
        }
        return Ok(intop_sub(0, m));
    }
    let (q, r) = trunc_div(m, n);
    if r != 0 && (m < 0) != (n < 0) {
        proof {
            assert(n * (q - 1) == n * q - n) by (nonlinear_arith);
            lemma_floor(m as int, n as int, q - 1, r + n);
        }
        Ok(q - 1)
    } else {
        proof {
            lemma_floor(m as int, n as int, q as int, r as int);
        }
        Ok(q)
    }
}

/// Integer modulus: the remainder of floor division, which has the sign of the
/// divisor.
pub fn imod(m: i64, n: i64) -> (r: Result<i64, LuaError>)
    ensures
        n == 0 ==> (r matches Err(e) && crate::value::is_runtime_msg(e, "attempt to perform 'n%0'".spec_bytes())),
        n != 0 ==> (r matches Ok(q) && q == floor_mod(m as int, n as int)),
{
    if n == 0 {
        return Err(runtime_error("attempt to perform 'n%0'"));
    }
    if n == -1 {
        proof {
            assert((-m) / 1 == -m);
        }
        return Ok(0);
    }
    let (q, r) = trunc_div(m, n);
    if r != 0 && (r < 0) != (n < 0) {
        proof {
            assert(n * (q - 1) == n * q - n) by (nonlinear_arith);
            lemma_floor(m as int, n as int, q - 1, r + n);
        }
        Ok(r + n)
    } else {
        proof {
            lemma_floor(m as int, n as int, q as int, r as int);
        }
        Ok(r)
    }
}

/// Quotient and modulus belong together: `m == n * q + r`, and the modulus
/// lies between zero and the divisor.
pub proof fn law_floor_div_mod(m: int, n: int)
    requires
        n != 0,
    ensures
        m == n * floor_div(m, n) + floor_mod(m, n),
        n > 0 ==> 0 <= floor_mod(m, n) < n,
        n < 0 ==> n < floor_mod(m, n) <= 0,
{
    if n > 0 {
        lemma_fundamental_div_mod(m, n);
    } else {
        lemma_fundamental_div_mod(-m, -n);
        assert((-n) * ((-m) / (-n)) == -(n * ((-m) / (-n)))) by (nonlinear_arith);
    }
}

/// Shifting right by a count is shifting left by its negation, and a count of
/// 64 or more clears the number.
pub proof fn law_shiftl(x: int, y: int)
    ensures
        y <= -64 || y >= 64 ==> spec_shiftl(x, y) == 0,
        i64::MIN <= x <= i64::MAX ==> spec_shiftl(x, 0) == x,
{
    if y >= 64 {
        let n = (y - 64) as nat;
        lemma_pow2_adds(n, 64);
        assert(pow2(64) == two64()) by { lemma2_to64(); lemma2_to64_rest(); }
        assert(x * pow2(y as nat) == 0 + (x * pow2(n)) * two64()) by (nonlinear_arith)
            requires
                pow2(y as nat) == pow2(n) * two64(),
        ;
        lemma_wrap64(0, x * pow2(n));
    }
    if y <= -64 {
        let n = (-y) as nat;
        if n > 64 {
            lemma_pow2_strictly_increases(64, n);
        }
        assert(pow2(64) == two64()) by { lemma2_to64(); lemma2_to64_rest(); }
        lemma_fundamental_div_mod_converse(unsigned64(x), pow2(n) as int, 0, unsigned64(x));
    }
    assert(pow2(0) == 1) by { lemma2_to64(); }
    assert(x * pow2(0) == x) by (nonlinear_arith)
        requires
            pow2(0) == 1,
    ;
}

/// Whether an integer converts to a double without rounding, by its size alone:
/// up to 2^53 either way.
pub fn int_fits_float(i: i64) -> (r: bool)
    ensures
        r == (-0x0020_0000_0000_0000 <= i <= 0x0020_0000_0000_0000),
{
    -0x0020_0000_0000_0000 <= i && i <= 0x0020_0000_0000_0000
}

/// Whether a value is a number other than NaN.
pub open spec fn is_ordered(v: LuaValue) -> bool {
    match v {
        LuaValue::Int(_) => true,
        LuaValue::Float(b) => !flt_nan(b),
        _ => false,
    }
}

/// The exact value of a number, in the units of [`flt_scaled`].
pub open spec fn num_scaled(v: LuaValue) -> int {
    match v {
        LuaValue::Int(i) => i * flt_unit(),
        LuaValue::Float(b) => flt_scaled(b),
        _ => 0,
    }
}

/// `l < r` on numbers, compared exactly.
pub open spec fn spec_num_lt(l: LuaValue, r: LuaValue) -> bool {
    is_ordered(l) && is_ordered(r) && num_scaled(l) < num_scaled(r)
}

/// `l <= r` on numbers, compared exactly.
pub open spec fn spec_num_le(l: LuaValue, r: LuaValue) -> bool {
    is_ordered(l) && is_ordered(r) && num_scaled(l) <= num_scaled(r)
}

/// Comparing a whole number with a floor or a ceiling is comparing it with the
/// value itself.
pub proof fn lemma_floor_ceil(i: int, s: int, u: int)
    requires
        u > 0,
    ensures
        (i <= s / u) == (i * u <= s),
        (s / u < i) == (s < i * u),
        (i < -((-s) / u)) == (i * u < s),
        (-((-s) / u) <= i) == (s <= i * u),
{
    let f = s / u;
    let r = s % u;
    lemma_fundamental_div_mod(s, u);
    assert((i <= f) == (i * u <= s)) by (nonlinear_arith)
        requires
            s == u * f + r,
            0 <= r < u,
            u > 0,
    ;
    let g = (-s) / u;
    let t = (-s) % u;
    lemma_fundamental_div_mod(-s, u);
    assert((i < -g) == (i * u < s)) by (nonlinear_arith)
        requires
            -s == u * g + t,
            0 <= t < u,
            u > 0,
    ;
}

/// The ends of the integer range against an out-of-range double.
pub proof fn lemma_out_of_range(i: i64, s: int, t: int, u: int)
    requires
        u > 0,
        t == s / u || t == -((-s) / u),
        t < i64::MIN || t > i64::MAX,
    ensures
        s > 0 ==> i * u < s,
        s <= 0 ==> s < i * u,
{
    lemma_floor_ceil(i as int, s, u);
    lemma_floor_ceil(0, s, u);
    lemma_floor_ceil(i64::MAX as int, s, u);
    lemma_floor_ceil(i64::MIN as int, s, u);
    lemma_floor_ceil(i64::MAX + 1, s, u);
    lemma_floor_ceil(i64::MIN - 1, s, u);
    assert((i64::MAX + 1) * u > i64::MAX * u) by (nonlinear_arith)
        requires
            u > 0,
    ;
    assert((i64::MIN - 1) * u < i64::MIN * u) by (nonlinear_arith)
        requires
            u > 0,
    ;
    assert(0 * u == 0);
    assert(i64::MAX * u >= i * u) by (nonlinear_arith)
        requires
            i <= i64::MAX,
            u > 0,
    ;
    assert(i64::MIN * u <= i * u) by (nonlinear_arith)
        requires
            i >= i64::MIN,
            u > 0,
    ;
    assert(i64::MIN * u < 0) by (nonlinear_arith)
        requires
            u > 0,
    ;
    assert(i64::MAX * u > 0) by (nonlinear_arith)
        requires
            u > 0,
    ;
}

/// The bits of zero stand for zero, and the unit is positive.
pub proof fn lemma_zero_scaled()
    ensures
        flt_scaled(0) == 0,
        !flt_nan(0),
        flt_unit() > 0,
{
    lemma_pow2_pos(1074);
    lemma_pow2_pos(0);
    assert(0 * pow2(0) == 0);
}

/// `i < f`, exactly.
pub fn lt_int_float(i: i64, f: u64) -> (r: bool)
    ensures
        r == spec_num_lt(LuaValue::Int(i), LuaValue::Float(f)),
{
    proof {
        lemma_zero_scaled();
        lemma_floor_ceil(i as int, flt_scaled(f), flt_unit());
    }
    if int_fits_float(i) {
        proof {
            lemma_small_int_exact(i as int);
        }
        flt_lt(int_to_float(i), f)
    } else {
        match flt_to_integer(f, F2Imod::Ceil) {
            Some(fi) => i < fi,
            None => {
                proof {
                    if !flt_nan(f) {
                        lemma_out_of_range(i, flt_scaled(f), -((-flt_scaled(f)) / flt_unit()), flt_unit());
                    }
                }
                flt_lt(0, f)
            },
        }
    }
}

/// `i <= f`, exactly.
pub fn le_int_float(i: i64, f: u64) -> (r: bool)
    ensures
        r == spec_num_le(LuaValue::Int(i), LuaValue::Float(f)),
{
    proof {
        lemma_zero_scaled();
        lemma_floor_ceil(i as int, flt_scaled(f), flt_unit());
    }
    if int_fits_float(i) {
        proof {
            lemma_small_int_exact(i as int);
        }
        flt_le(int_to_float(i), f)
    } else {
        match flt_to_integer(f, F2Imod::Floor) {
            Some(fi) => i <= fi,
            None => {
                proof {
                    if !flt_nan(f) {
                        lemma_out_of_range(i, flt_scaled(f), flt_scaled(f) / flt_unit(), flt_unit());
                    }
                }
                flt_lt(0, f)
            },
        }
    }
}

/// `f < i`, exactly.
pub fn lt_float_int(f: u64, i: i64) -> (r: bool)
    ensures
        r == spec_num_lt(LuaValue::Float(f), LuaValue::Int(i)),
{
    proof {
        lemma_zero_scaled();
        lemma_floor_ceil(i as int, flt_scaled(f), flt_unit());
    }
    if int_fits_float(i) {
        proof {
            lemma_small_int_exact(i as int);
        }
        flt_lt(f, int_to_float(i))
    } else {
        match flt_to_integer(f, F2Imod::Floor) {
            Some(fi) => fi < i,
            None => {
                proof {
                    if !flt_nan(f) {
                        lemma_out_of_range(i, flt_scaled(f), flt_scaled(f) / flt_unit(), flt_unit());
                        lemma_out_of_range(0, flt_scaled(f), flt_scaled(f) / flt_unit(), flt_unit());
                    }
                }
                flt_lt(f, 0)
            },
        }
    }
}

/// `f <= i`, exactly.
pub fn le_float_int(f: u64, i: i64) -> (r: bool)
    ensures
        r == spec_num_le(LuaValue::Float(f), LuaValue::Int(i)),
{
    proof {
        lemma_zero_scaled();
        lemma_floor_ceil(i as int, flt_scaled(f), flt_unit());
    }
    if int_fits_float(i) {
        proof {
            lemma_small_int_exact(i as int);
        }
        flt_le(f, int_to_float(i))
    } else {
        match flt_to_integer(f, F2Imod::Ceil) {
            Some(fi) => fi <= i,
            None => {
                proof {
                    if !flt_nan(f) {
                        lemma_out_of_range(i, flt_scaled(f), -((-flt_scaled(f)) / flt_unit()), flt_unit());
                        lemma_out_of_range(0, flt_scaled(f), -((-flt_scaled(f)) / flt_unit()), flt_unit());
                    }
                }
                flt_lt(f, 0)
            },
        }
    }
}

/// `l < r` on numbers; false where either is no number.
pub fn lt_num(l: &LuaValue, r: &LuaValue) -> (b: bool)
    ensures
        b == spec_num_lt(*l, *r),
{
    match (*l, *r) {
        (LuaValue::Int(li), LuaValue::Int(ri)) => {
            proof {
                lemma_zero_scaled();
                lemma_scaled_order(li as int, ri as int);
            }
            li < ri
        },
        (LuaValue::Int(li), LuaValue::Float(rf)) => lt_int_float(li, rf),
        (LuaValue::Float(lf), LuaValue::Float(rf)) => flt_lt(lf, rf),
        (LuaValue::Float(lf), LuaValue::Int(ri)) => lt_float_int(lf, ri),
        _ => false,
    }
}

/// `l <= r` on numbers; false where either is no number.
pub fn le_num(l: &LuaValue, r: &LuaValue) -> (b: bool)
    ensures
        b == spec_num_le(*l, *r),
{
    match (*l, *r) {
        (LuaValue::Int(li), LuaValue::Int(ri)) => {
            proof {
                lemma_zero_scaled();
                lemma_scaled_order(li as int, ri as int);
            }
            li <= ri
        },
        (LuaValue::Int(li), LuaValue::Float(rf)) => le_int_float(li, rf),
        (LuaValue::Float(lf), LuaValue::Float(rf)) => flt_le(lf, rf),
        (LuaValue::Float(lf), LuaValue::Int(ri)) => le_float_int(lf, ri),
        _ => false,
    }
}

proof fn lemma_scaled_order(a: int, b: int)
    requires
        flt_unit() > 0,
    ensures
        (a < b) == (a * flt_unit() < b * flt_unit()),
        (a == b) == (a * flt_unit() == b * flt_unit()),
{
    let u = flt_unit();
    assert((a < b) == (a * u < b * u)) by (nonlinear_arith)
        requires
            u > 0,
    ;
    assert((a == b) == (a * u == b * u)) by (nonlinear_arith)
        requires
            u > 0,
    ;
}

/// The exact order of numbers is a strict order: it is irreflexive, transitive,
/// and of two ordered numbers exactly one of less, equal and greater holds.
pub proof fn law_num_order(a: LuaValue, b: LuaValue, c: LuaValue)
    ensures
        !spec_num_lt(a, a),
        spec_num_lt(a, b) && spec_num_lt(b, c) ==> spec_num_lt(a, c),
        spec_num_le(a, b) && spec_num_le(b, c) ==> spec_num_le(a, c),
        is_ordered(a) && is_ordered(b) ==> spec_num_lt(a, b) || spec_num_le(b, a),
        spec_num_lt(a, b) ==> !spec_num_le(b, a) && spec_num_le(a, b),
{
}

/// The integer that a number stands for under a rounding mode.
pub open spec fn spec_to_integer_ns(v: LuaValue, mode: F2Imod) -> Option<i64> {
    match v {
        LuaValue::Int(i) => Some(i),
        LuaValue::Float(b) => spec_flt_to_integer(b, mode),
        _ => None,
    }
}

/// Converts a value to an integer, without coercing strings.
pub fn to_integer_ns(v: &LuaValue, mode: F2Imod) -> (r: Option<i64>)
    ensures
        r == spec_to_integer_ns(*v, mode),
{
    match v {
        LuaValue::Int(i) => Some(*i),
        LuaValue::Float(b) => flt_to_integer(*b, mode),
        _ => None,
    }
}

/// What a value counts as where strings are coerced: a string counts as the
/// numeral it spells, if it spells one.
pub open spec fn coerced(v: LuaValue, numeral: Option<LuaValue>) -> LuaValue {
    if v is Str && numeral is Some {
        numeral->0
    } else {
        v
    }
}

/// The value that `v` counts as where strings are coerced; `numeral` is what the
/// string of `v` spells.
pub fn coerce_numeral(v: &LuaValue, numeral: Option<LuaValue>) -> (r: LuaValue)
    ensures
        r == coerced(*v, numeral),
{
    match (*v, numeral) {
        (LuaValue::Str(_), Some(n)) => n,
        _ => *v,
    }
}

/// Whether a version has no integers apart from doubles: 5.1 and 5.2.
pub open spec fn float_only(version: LuaVersion) -> bool {
    version == LuaVersion::V51 || version == LuaVersion::V52
}

/// What a text that was read as the number `v` counts as in a version: where there are no
/// integers, an integer is the double `as_float`, as which the text is read.
pub fn numeral_for(version: LuaVersion, v: LuaValue, as_float: u64) -> (r: LuaValue)
    ensures
        r == (if v is Int && float_only(version) {
            LuaValue::Float(as_float)
        } else {
            v
        }),
{
    match (v, version) {
        (LuaValue::Int(_), LuaVersion::V51) | (LuaValue::Int(_), LuaVersion::V52) => LuaValue::Float(as_float),
        _ => v,
    }
}

/// Converts a value to an integer, coercing a string that spells `numeral`.
pub fn to_integer(v: &LuaValue, numeral: Option<LuaValue>, mode: F2Imod) -> (r: Option<i64>)
    ensures
        r == spec_to_integer_ns(coerced(*v, numeral), mode),
{
    to_integer_ns(&coerce_numeral(v, numeral), mode)
}

/// The double that a number converts to.
pub open spec fn spec_number_value(v: LuaValue) -> Option<u64> {
    match v {
        LuaValue::Float(b) => Some(b),
        LuaValue::Int(i) => Some(float_of_int(i)),
        _ => None,
    }
}

/// Converts a number to a double.
pub fn number_value(v: &LuaValue) -> (r: Option<u64>)
    ensures
        r == spec_number_value(*v),
{
    match v {
        LuaValue::Float(b) => Some(*b),
        LuaValue::Int(i) => Some(int_to_float(*i)),
        _ => None,
    }
}

/// Converts a value to a double, coercing a string that spells `numeral`.
pub fn tonumber(v: &LuaValue, numeral: Option<LuaValue>) -> (r: Option<u64>)
    ensures
        r == spec_number_value(coerced(*v, numeral)),
{
    number_value(&coerce_numeral(v, numeral))
}

/// Bit patterns and Lua integers stand for each other one to one.
pub proof fn law_bit_patterns(x: i64, y: u64)
    ensures
        wrap64(unsigned64(x as int)) == x,
        unsigned64(wrap64(y as int)) == y,
{
    assert(unsigned64(x as int) == (if x >= 0 {
        x as int
    } else {
        x + two64()
    }));
}

} // verus!
