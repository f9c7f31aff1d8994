//! Equality and order of values, as far as no metamethod is needed.

use vstd::prelude::*;
use vstd::arithmetic::power2::pow2;
use std::cmp::Ordering;
use crate::arith::is_ordered;
use crate::arith::le_num;
use crate::arith::lt_num;
use crate::arith::spec_num_le;
use crate::arith::spec_num_lt;
use crate::arith::spec_to_integer_ns;
use crate::arith::to_integer_ns;
use crate::float::F2Imod;
use crate::float::flt_eq;
use crate::float::flt_mag;
use crate::float::flt_nan;
use crate::float::flt_scaled;
use crate::float::flt_unit;
use crate::float::lemma_mag_scaled_monotone;
use crate::float::mag_exp;
use crate::float::mag_scaled;
use crate::float::mag_sig;
use crate::float::spec_flt_eq;
use crate::heap::Heap;
use crate::string::bytes_eq;
use crate::string::law_string_order;
use crate::string::lex_from;
use crate::string::lex_order;
use crate::string::str_cmp;
use crate::value::LuaValue;
use crate::value::StrId;

verus! {

/// Whether two values are primitively equal: numbers by value across their two
/// kinds, strings by their bytes, objects by identity.
pub open spec fn raw_eq(h: Heap, a: LuaValue, b: LuaValue) -> bool {
    match (a, b) {
        (LuaValue::Float(x), LuaValue::Float(y)) => spec_flt_eq(x, y),
        (LuaValue::Int(x), LuaValue::Float(_)) => spec_to_integer_ns(b, F2Imod::Eq) == Some(x),
        (LuaValue::Float(_), LuaValue::Int(y)) => spec_to_integer_ns(a, F2Imod::Eq) == Some(y),
        (LuaValue::Str(x), LuaValue::Str(y)) => h.bytes(x) == h.bytes(y),
        _ => a == b,
    }
}

/// Whether two values are primitively equal.
pub fn raw_equal(h: &Heap, a: &LuaValue, b: &LuaValue) -> (r: bool)
    requires
        h.ok(*a),
        h.ok(*b),
    ensures
        r == raw_eq(*h, *a, *b),
{
    match (*a, *b) {
        (LuaValue::Float(x), LuaValue::Float(y)) => flt_eq(x, y),
        (LuaValue::Int(x), LuaValue::Float(_)) => match to_integer_ns(b, F2Imod::Eq) {
            Some(i) => i == x,
            None => false,
        },
        (LuaValue::Float(_), LuaValue::Int(y)) => match to_integer_ns(a, F2Imod::Eq) {
            Some(i) => i == y,
            None => false,
        },
        (LuaValue::Str(x), LuaValue::Str(y)) => bytes_eq(
            h.strings.items[x.0].bytes.as_slice(),
            h.strings.items[y.0].bytes.as_slice(),
        ),
        _ => *a == *b,
    }
}

/// `l < r` where it takes no metamethod: on two numbers or two strings.
pub open spec fn raw_lt(h: Heap, l: LuaValue, r: LuaValue) -> Option<bool> {
    if l.spec_is_number() && r.spec_is_number() {
        Some(spec_num_lt(l, r))
    } else {
        match (l, r) {
            (LuaValue::Str(x), LuaValue::Str(y)) => Some(lex_order(h.bytes(x), h.bytes(y)) == Ordering::Less),
            _ => None,
        }
    }
}

/// `l <= r` where it takes no metamethod: on two numbers or two strings.
pub open spec fn raw_le(h: Heap, l: LuaValue, r: LuaValue) -> Option<bool> {
    if l.spec_is_number() && r.spec_is_number() {
        Some(spec_num_le(l, r))
    } else {
        match (l, r) {
            (LuaValue::Str(x), LuaValue::Str(y)) => Some(
                lex_order(h.bytes(x), h.bytes(y)) != Ordering::Greater,
            ),
            _ => None,
        }
    }
}

/// `l < r` where it takes no metamethod.
pub fn less_than_raw(h: &Heap, l: &LuaValue, r: &LuaValue) -> (b: Option<bool>)
    requires
        h.ok(*l),
        h.ok(*r),
    ensures
        b == raw_lt(*h, *l, *r),
{
    if l.is_number() && r.is_number() {
        return Some(lt_num(l, r));
    }
    match (*l, *r) {
        (LuaValue::Str(x), LuaValue::Str(y)) => {
            match str_cmp(h.strings.items[x.0].bytes.as_slice(), h.strings.items[y.0].bytes.as_slice()) {
                Ordering::Less => Some(true),
                _ => Some(false),
            }
        },
        _ => None,
    }
}

/// `l <= r` where it takes no metamethod.
pub fn less_equal_raw(h: &Heap, l: &LuaValue, r: &LuaValue) -> (b: Option<bool>)
    requires
        h.ok(*l),
        h.ok(*r),
    ensures
        b == raw_le(*h, *l, *r),
{
    if l.is_number() && r.is_number() {
        return Some(le_num(l, r));
    }
    match (*l, *r) {
        (LuaValue::Str(x), LuaValue::Str(y)) => {
            match str_cmp(h.strings.items[x.0].bytes.as_slice(), h.strings.items[y.0].bytes.as_slice()) {
                Ordering::Greater => Some(false),
                _ => Some(true),
            }
        },
        _ => None,
    }
}

proof fn lemma_int_float_eq(i: i64, b: u64)
    requires
        !flt_nan(b),
    ensures
        (spec_to_integer_ns(LuaValue::Float(b), F2Imod::Eq) == Some(i)) <==> i * flt_unit() == flt_scaled(b),
{
    let u = flt_unit();
    let s = flt_scaled(b);
    let n = i as int;
    vstd::arithmetic::power2::lemma_pow2_pos(1074);
    if s % u == 0 && s / u == n {
        assert(n * u == s) by (nonlinear_arith)
            requires
                u > 0,
                s % u == 0,
                s / u == n,
        ;
    }
    if n * u == s {
        assert(s % u == 0 && s / u == n) by (nonlinear_arith)
            requires
                u > 0,
                n * u == s,
        ;
    }
}

/// On numbers other than NaN, equality is the equality of the order: two numbers are
/// equal exactly if each is at most the other. A NaN equals nothing.
pub proof fn law_equality_order(h: Heap, a: LuaValue, b: LuaValue)
    requires
        a.spec_is_number(),
        b.spec_is_number(),
    ensures
        is_ordered(a) && is_ordered(b) ==> (raw_eq(h, a, b) <==> spec_num_le(a, b) && spec_num_le(b, a)),
        !is_ordered(a) || !is_ordered(b) ==> !raw_eq(h, a, b),
{
    if is_ordered(a) && is_ordered(b) {
        match (a, b) {
            (LuaValue::Int(i), LuaValue::Float(x)) => {
                lemma_int_float_eq(i, x);
            },
            (LuaValue::Float(x), LuaValue::Int(i)) => {
                lemma_int_float_eq(i, x);
            },
            (LuaValue::Int(i), LuaValue::Int(j)) => {
                let u = flt_unit();
                vstd::arithmetic::power2::lemma_pow2_pos(1074);
                assert((i == j) == (i * u == j * u)) by (nonlinear_arith)
                    requires
                        u > 0,
                ;
            },
            _ => {},
        }
    }
}

/// Primitive equality is symmetric, and holds of every value and itself but for NaN.
pub proof fn law_equality(h: Heap, a: LuaValue, b: LuaValue)
    ensures
        raw_eq(h, a, b) == raw_eq(h, b, a),
        !(a is Float && flt_nan(a->Float_0)) ==> raw_eq(h, a, a),
{
}

/// Strings are ordered totally: of two strings, `<=` is `<` or equality, one is `<=` the other
/// exactly where the other is not `<` the one, and they are equal exactly where their bytes
/// are.
pub proof fn law_string_compare(h: Heap, a: StrId, b: StrId)
    ensures
        ({
            let x = LuaValue::Str(a);
            let y = LuaValue::Str(b);
            &&& raw_lt(h, x, y) is Some && raw_le(h, x, y) is Some
            &&& raw_le(h, x, y) == Some(raw_lt(h, x, y) == Some(true) || raw_eq(h, x, y))
            &&& raw_le(h, x, y) == Some(true) <==> raw_lt(h, y, x) == Some(false)
            &&& raw_eq(h, x, y) <==> h.strings.items@[a.0 as int].bytes@ == h.strings.items@[b.0 as int].bytes@
            &&& !(raw_lt(h, x, y) == Some(true) && raw_lt(h, y, x) == Some(true))
        }),
{
    law_string_order(h.bytes(a), h.bytes(b), h.bytes(a));
    law_string_order(h.bytes(b), h.bytes(a), h.bytes(b));
}

/// Strings are ordered by the first byte in which they differ, and one that the other goes on
/// from comes first.
pub proof fn law_first_difference(h: Heap, a: StrId, b: StrId, i: int)
    requires
        ({
            let x = h.strings.items@[a.0 as int].bytes@;
            let y = h.strings.items@[b.0 as int].bytes@;
            &&& 0 <= i < y.len()
            &&& i <= x.len()
            &&& forall|j: int| 0 <= j < i ==> x[j] == y[j]
            &&& i < x.len() ==> x[i] < y[i]
        }),
    ensures
        raw_lt(h, LuaValue::Str(a), LuaValue::Str(b)) == Some(true),
        raw_le(h, LuaValue::Str(a), LuaValue::Str(b)) == Some(true),
        raw_lt(h, LuaValue::Str(b), LuaValue::Str(a)) == Some(false),
        raw_le(h, LuaValue::Str(b), LuaValue::Str(a)) == Some(false),
        !raw_eq(h, LuaValue::Str(a), LuaValue::Str(b)),
{
    lemma_common_prefix(h.bytes(a), h.bytes(b), 0, i);
    lemma_common_prefix(h.bytes(b), h.bytes(a), 0, i);
}

/// The bytes that two strings share do not order them.
proof fn lemma_common_prefix(x: Seq<u8>, y: Seq<u8>, from: int, i: int)
    requires
        0 <= from <= i <= x.len(),
        i <= y.len(),
        forall|j: int| from <= j < i ==> x[j] == y[j],
    ensures
        lex_from(x, y, from) == lex_from(x, y, i),
    decreases i - from,
{
    if from < i {
        assert(x[from] == y[from]);
        lemma_common_prefix(x, y, from + 1, i);
    }
}

/// Numbers are compared by their values, whatever their kinds: two integers, and an integer
/// and a double that has the value of an integer.
pub proof fn law_number_compare(h: Heap, m: i64, n: i64, d: u64)
    requires
        !flt_nan(d),
        flt_scaled(d) == n * flt_unit(),
    ensures
        raw_lt(h, LuaValue::Int(m), LuaValue::Int(n)) == Some(m < n),
        raw_le(h, LuaValue::Int(m), LuaValue::Int(n)) == Some(m <= n),
        raw_eq(h, LuaValue::Int(m), LuaValue::Int(n)) == (m == n),
        raw_lt(h, LuaValue::Int(m), LuaValue::Float(d)) == Some(m < n),
        raw_le(h, LuaValue::Int(m), LuaValue::Float(d)) == Some(m <= n),
        raw_lt(h, LuaValue::Float(d), LuaValue::Int(m)) == Some(n < m),
        raw_le(h, LuaValue::Float(d), LuaValue::Int(m)) == Some(n <= m),
        raw_eq(h, LuaValue::Int(m), LuaValue::Float(d)) == (m == n),
{
    let u = flt_unit();
    vstd::arithmetic::power2::lemma_pow2_pos(1074);
    assert((m < n) == (m * u < n * u)) by (nonlinear_arith)
        requires
            u > 0,
    ;
    assert((n < m) == (n * u < m * u)) by (nonlinear_arith)
        requires
            u > 0,
    ;
    lemma_int_float_eq(m, d);
}

/// Doubles that are no NaN are ordered by their bits: those without a sign as the bits are,
/// those with one the other way round and below. A NaN is neither less, nor equal, nor more.
pub proof fn law_double_compare(h: Heap, a: u64, b: u64)
    ensures
        a <= 0x7ff0_0000_0000_0000 && b <= 0x7ff0_0000_0000_0000 ==> raw_lt(h, LuaValue::Float(a), LuaValue::Float(b))
            == Some(a < b) && raw_le(h, LuaValue::Float(a), LuaValue::Float(b)) == Some(a <= b) && raw_eq(
            h,
            LuaValue::Float(a),
            LuaValue::Float(b),
        ) == (a == b),
        0x8000_0000_0000_0000 <= a <= 0xfff0_0000_0000_0000 && 0x8000_0000_0000_0000 <= b <= 0xfff0_0000_0000_0000
            ==> raw_lt(h, LuaValue::Float(a), LuaValue::Float(b)) == Some(b < a) && raw_le(
            h,
            LuaValue::Float(a),
            LuaValue::Float(b),
        ) == Some(b <= a),
        0x8000_0000_0000_0000 < a <= 0xfff0_0000_0000_0000 && b <= 0x7ff0_0000_0000_0000 ==> raw_lt(
            h,
            LuaValue::Float(a),
            LuaValue::Float(b),
        ) == Some(true) && raw_lt(h, LuaValue::Float(b), LuaValue::Float(a)) == Some(false),
        0x7ff0_0000_0000_0000 < a < 0x8000_0000_0000_0000 || 0xfff0_0000_0000_0000 < a ==> raw_lt(
            h,
            LuaValue::Float(a),
            LuaValue::Float(b),
        ) == Some(false) && raw_le(h, LuaValue::Float(a), LuaValue::Float(b)) == Some(false) && raw_lt(
            h,
            LuaValue::Float(b),
            LuaValue::Float(a),
        ) == Some(false) && !raw_eq(h, LuaValue::Float(a), LuaValue::Float(b)),
{
    let p = flt_mag(a);
    let q = flt_mag(b);
    if p < q {
        lemma_mag_scaled_monotone(p, q);
    }
    if q < p {
        lemma_mag_scaled_monotone(q, p);
    }
    lemma_mag_positive(p);
    lemma_mag_positive(q);
}

/// A magnitude other than zero is more than nothing.
proof fn lemma_mag_positive(mag: int)
    requires
        0 <= mag <= 0x7fff_ffff_ffff_ffff,
    ensures
        mag_scaled(mag) >= 0,
        mag > 0 ==> mag_scaled(mag) > 0,
        mag == 0 ==> mag_scaled(mag) == 0,
{
    let s = mag_sig(mag);
    let e = pow2(mag_exp(mag)) as int;
    vstd::arithmetic::power2::lemma_pow2_pos(mag_exp(mag));
    assert(s * e >= 0 && (s > 0 ==> s * e > 0) && (s == 0 ==> s * e == 0)) by (nonlinear_arith)
        requires
            s >= 0,
            e > 0,
    ;
}

} // verus!
