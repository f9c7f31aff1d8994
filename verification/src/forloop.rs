//! Numeric `for` loops.

use vstd::prelude::*;
use vstd::arithmetic::div_mod::lemma_fundamental_div_mod;
use vstd::arithmetic::div_mod::lemma_fundamental_div_mod_converse;
use vstd::string::StringSliceAdditionalSpecFns;
use crate::arith::coerce_numeral;
use crate::arith::coerced;
use crate::arith::is_ordered;
use crate::arith::lemma_floor_ceil;
use crate::arith::lemma_out_of_range;
use crate::arith::lemma_zero_scaled;
use crate::arith::number_value;
use crate::arith::spec_num_le;
use crate::arith::spec_number_value;
use crate::arith::spec_to_integer_ns;
use crate::arith::to_integer_ns;
use crate::float::F2Imod;
use crate::float::flt_eq;
use crate::float::flt_le;
use crate::float::flt_lt;
use crate::float::flt_scaled;
use crate::float::flt_unit;
use crate::float::spec_flt_eq;
use crate::float::spec_flt_le;
use crate::float::spec_flt_lt;
use crate::value::ForPart;
use crate::value::LuaError;
use crate::value::LuaValue;
use crate::value::is_runtime_msg;
use crate::value::runtime_error;

verus! {

/// The way an integer loop rounds a limit that is a float: toward the values
/// that the loop passes through.
pub open spec fn for_round(step: i64) -> F2Imod {
    if step < 0 {
        F2Imod::Ceil
    } else {
        F2Imod::Floor
    }
}

/// The last integer that an integer loop may reach, or `None` where the limit
/// lies before every integer. A limit out of range is clipped.
pub open spec fn spec_for_bound(limit: LuaValue, step: i64) -> Option<i64> {
    match spec_to_integer_ns(limit, for_round(step)) {
        Some(p) => Some(p),
        None => if limit is Float && spec_flt_lt(0, limit->Float_0) {
            if step < 0 {
                None
            } else {
                Some(i64::MAX)
            }
        } else if step > 0 {
            None
        } else {
            Some(i64::MIN)
        },
    }
}

/// Whether an integer loop that starts at `init` runs no iteration.
pub open spec fn spec_for_skip(init: i64, limit: LuaValue, step: i64) -> bool {
    match spec_for_bound(limit, step) {
        None => true,
        Some(p) => if step > 0 {
            init > p
        } else {
            init < p
        },
    }
}

/// How many iterations follow the first, for a loop that does not skip.
pub open spec fn spec_for_count(init: int, bound: int, step: int) -> int {
    if step > 0 {
        (bound - init) / step
    } else {
        (init - bound) / (-step)
    }
}

/// Computes the bound of an integer loop: whether to skip it, and the last
/// integer that it may reach. `numeral` is what the limit spells if it is a
/// string.
pub fn forlimit(init: i64, lim: &LuaValue, numeral: Option<LuaValue>, step: i64) -> (r: Result<
    (bool, i64),
    LuaError,
>)
    requires
        step != 0,
    ensures
        coerced(*lim, numeral).spec_is_number() ==> {
            &&& r matches Ok(p)
            &&& p.0 == spec_for_skip(init, coerced(*lim, numeral), step)
            &&& !p.0 ==> Some(p.1) == spec_for_bound(coerced(*lim, numeral), step)
        },
        !coerced(*lim, numeral).spec_is_number() ==> r == Err::<(bool, i64), LuaError>(
            LuaError::ForError { value: *lim, part: ForPart::Limit },
        ),
{
    let v: LuaValue = coerce_numeral(lim, numeral);
    let round: F2Imod = if step < 0 {
        F2Imod::Ceil
    } else {
        F2Imod::Floor
    };
    match to_integer_ns(&v, round) {
        Some(p) => {
            let skip: bool = if step > 0 {
                init > p
            } else {
                init < p
            };
            Ok((skip, p))
        },
        None => match v {
            LuaValue::Float(b) => {
                if flt_lt(0, b) {
                    if step < 0 {
                        Ok((true, 0))
                    } else {
                        Ok((false, i64::MAX))
                    }
                } else if step > 0 {
                    Ok((true, 0))
                } else {
                    Ok((false, i64::MIN))
                }
            },
            _ => Err(LuaError::ForError { value: *lim, part: ForPart::Limit }),
        },
    }
}

/// How a loop starts.
#[allow(inconsistent_fields)]
#[derive(Debug, Clone, Copy, PartialEq, Eq, Structural)]
pub enum ForStart {
    /// The body does not run. `control` is what the control variable is given,
    /// in a loop over integers.
    Skip { control: Option<i64> },
    /// A loop over integers, with the number of iterations after the first.
    Ints { init: i64, count: u64, step: i64 },
    /// A loop over floats.
    Floats { init: u64, limit: u64, step: u64 },
}

/// What the three strings among the operands spell, where they are strings.
#[derive(Debug, Clone, Copy, PartialEq, Eq, Structural)]
pub struct ForNumerals {
    pub init: Option<LuaValue>,
    pub limit: Option<LuaValue>,
    pub step: Option<LuaValue>,
}

/// How a loop over these operands starts.
pub open spec fn spec_for_start(
    init: LuaValue,
    limit: LuaValue,
    step: LuaValue,
    n: ForNumerals,
) -> Option<ForStart> {
    if init is Int && step is Int {
        let lim = coerced(limit, n.limit);
        if step->Int_0 == 0 || !lim.spec_is_number() {
            None
        } else if spec_for_skip(init->Int_0, lim, step->Int_0) {
            Some(ForStart::Skip { control: Some(init->Int_0) })
        } else {
            Some(
                ForStart::Ints {
                    init: init->Int_0,
                    count: spec_for_count(
                        init->Int_0 as int,
                        spec_for_bound(lim, step->Int_0)->0 as int,
                        step->Int_0 as int,
                    ) as u64,
                    step: step->Int_0,
                },
            )
        }
    } else {
        let l = spec_number_value(coerced(limit, n.limit));
        let s = spec_number_value(coerced(step, n.step));
        let i = spec_number_value(coerced(init, n.init));
        if l is None || s is None || i is None || spec_flt_eq(s->0, 0) {
            None
        } else if if spec_flt_lt(0, s->0) {
            spec_flt_lt(l->0, i->0)
        } else {
            spec_flt_lt(i->0, l->0)
        } {
            Some(ForStart::Skip { control: None })
        } else {
            Some(ForStart::Floats { init: i->0, limit: l->0, step: s->0 })
        }
    }
}

/// The error of a loop that cannot start.
pub open spec fn is_for_error(
    e: LuaError,
    init: LuaValue,
    limit: LuaValue,
    step: LuaValue,
    n: ForNumerals,
) -> bool {
    let lim = coerced(limit, n.limit);
    if init is Int && step is Int {
        if step->Int_0 == 0 {
            is_runtime_msg(e, "'for' step is zero".spec_bytes())
        } else {
            e == LuaError::ForError { value: limit, part: ForPart::Limit }
        }
    } else if !lim.spec_is_number() {
        e == LuaError::ForError { value: limit, part: ForPart::Limit }
    } else if !coerced(step, n.step).spec_is_number() {
        e == LuaError::ForError { value: step, part: ForPart::Step }
    } else if !coerced(init, n.init).spec_is_number() {
        e == LuaError::ForError { value: init, part: ForPart::Init }
    } else {
        is_runtime_msg(e, "'for' step is zero".spec_bytes())
    }
}

/// Decides how a numeric `for` starts. A loop is over integers where the initial
/// value and the step are integers, whatever the limit; otherwise all three are
/// converted to floats.
pub fn for_start(init: &LuaValue, limit: &LuaValue, step: &LuaValue, n: ForNumerals) -> (r: Result<
    ForStart,
    LuaError,
>)
    ensures
        match r {
            Ok(s) => spec_for_start(*init, *limit, *step, n) == Some(s),
            Err(e) => spec_for_start(*init, *limit, *step, n) is None && is_for_error(
                e,
                *init,
                *limit,
                *step,
                n,
            ),
        },
{
    if let (LuaValue::Int(i), LuaValue::Int(s)) = (*init, *step) {
        if s == 0 {
            return Err(runtime_error("'for' step is zero"));
        }
        match forlimit(i, limit, n.limit, s) {
            Err(e) => Err(e),
            Ok((skip, bound)) => {
                if skip {
                    return Ok(ForStart::Skip { control: Some(i) });
                }
                let count: u64 = for_count(i, bound, s);
                Ok(ForStart::Ints { init: i, count, step: s })
            },
        }
    } else {
        let l: u64 = match number_value(&coerce_numeral(limit, n.limit)) {
            Some(f) => f,
            None => return Err(LuaError::ForError { value: *limit, part: ForPart::Limit }),
        };
        let s: u64 = match number_value(&coerce_numeral(step, n.step)) {
            Some(f) => f,
            None => return Err(LuaError::ForError { value: *step, part: ForPart::Step }),
        };
        let i: u64 = match number_value(&coerce_numeral(init, n.init)) {
            Some(f) => f,
            None => return Err(LuaError::ForError { value: *init, part: ForPart::Init }),
        };
        if flt_eq(s, 0) {
            return Err(runtime_error("'for' step is zero"));
        }
        let skip: bool = if flt_lt(0, s) {
            flt_lt(l, i)
        } else {
            flt_lt(i, l)
        };
        if skip {
            Ok(ForStart::Skip { control: None })
        } else {
            Ok(ForStart::Floats { init: i, limit: l, step: s })
        }
    }
}

/// The number of iterations after the first.
fn for_count(init: i64, bound: i64, step: i64) -> (r: u64)
    requires
        step != 0,
        step > 0 ==> init <= bound,
        step < 0 ==> init >= bound,
    ensures
        r == spec_for_count(init as int, bound as int, step as int),
{
    if step > 0 {
        let c: u64 = span(init, bound);
        c / (step as u64)
    } else {
        let c: u64 = span(bound, init);
        let s: u64 = (-(step + 1)) as u64 + 1;
        c / s
    }
}

/// The distance between two integers.
fn span(low: i64, high: i64) -> (r: u64)
    requires
        low <= high,
    ensures
        r == high - low,
{
    if low >= 0 {
        (high - low) as u64
    } else if high < 0 {
        (high - low) as u64
    } else {
        high as u64 + ((-(low + 1)) as u64 + 1)
    }
}

/// Whether a loop over floats goes on at `idx`, which is its last index plus the
/// step.
pub fn float_for_continues(idx: u64, limit: u64, step: u64) -> (r: bool)
    ensures
        r == (if spec_flt_lt(0, step) {
            spec_flt_le(idx, limit)
        } else {
            spec_flt_le(limit, idx)
        }),
{
    if flt_lt(0, step) {
        flt_le(idx, limit)
    } else {
        flt_le(limit, idx)
    }
}

/// An integer loop runs exactly over the terms of its progression that the
/// bound admits: term `k` is within the bound if and only if `k` is at most the
/// count, and no term up to the count leaves the integers.
pub proof fn law_for_count(init: i64, bound: i64, step: i64, k: int)
    requires
        step != 0,
        step > 0 ==> init <= bound,
        step < 0 ==> init >= bound,
        k >= 0,
    ensures
        k <= spec_for_count(init as int, bound as int, step as int) <==> (if step > 0 {
            init + k * step <= bound
        } else {
            init + k * step >= bound
        }),
        k <= spec_for_count(init as int, bound as int, step as int) ==> i64::MIN <= init + k * step
            <= i64::MAX,
        0 <= spec_for_count(init as int, bound as int, step as int) <= u64::MAX,
{
    let i = init as int;
    let b = bound as int;
    let s: int = if step > 0 {
        step as int
    } else {
        -(step as int)
    };
    let d: int = if step > 0 {
        b - i
    } else {
        i - b
    };
    let q = d / s;
    lemma_fundamental_div_mod(d, s);
    let r = d % s;
    assert((k <= q) == (k * s <= d)) by (nonlinear_arith)
        requires
            d == s * q + r,
            0 <= r < s,
            s > 0,
    ;
    assert(0 <= q <= d) by (nonlinear_arith)
        requires
            d == s * q + r,
            0 <= r < s,
            s > 0,
            d >= 0,
    ;
    assert(k * s >= 0) by (nonlinear_arith)
        requires
            k >= 0,
            s > 0,
    ;
    if step < 0 {
        assert(k * step == -(k * s)) by (nonlinear_arith)
            requires
                s == -step,
        ;
    }
}

/// The bound of an integer loop stands for its limit: an integer is within the
/// bound if and only if it is within the limit itself, compared exactly.
pub proof fn law_for_bound(x: i64, limit: LuaValue, step: i64)
    requires
        step != 0,
        is_ordered(limit),
    ensures
        step > 0 ==> (spec_num_le(LuaValue::Int(x), limit) <==> (spec_for_bound(limit, step) matches Some(
            p,
        ) && x <= p)),
        step < 0 ==> (spec_num_le(limit, LuaValue::Int(x)) <==> (spec_for_bound(limit, step) matches Some(
            p,
        ) && x >= p)),
{
    lemma_zero_scaled();
    let u = flt_unit();
    match limit {
        LuaValue::Int(p) => {
            assert((x <= p) == (x * u <= p * u)) by (nonlinear_arith)
                requires
                    u > 0,
            ;
            assert((p <= x) == (p * u <= x * u)) by (nonlinear_arith)
                requires
                    u > 0,
            ;
        },
        LuaValue::Float(f) => {
            let s = flt_scaled(f);
            lemma_floor_ceil(x as int, s, u);
            let t = if step < 0 {
                -((-s) / u)
            } else {
                s / u
            };
            if !(i64::MIN <= t <= i64::MAX) {
                lemma_out_of_range(x, s, t, u);
            }
        },
        _ => {},
    }
}

} // verus!
