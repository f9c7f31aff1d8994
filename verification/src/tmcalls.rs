//! Operations that fall back on metamethods: what to call, or which error to raise.

use vstd::prelude::*;
use crate::arith::coerced;
use crate::arith::intop_sub;
use crate::arith::shiftl;
use crate::arith::spec_number_value;
use crate::arith::spec_shiftl;
use crate::arith::spec_to_integer_ns;
use crate::arith::to_integer;
use crate::arith::tonumber;
use crate::arith::wrap64;
use crate::callinfo::CIST_LEQ;
use crate::callinfo::CallInfo;
use crate::float::F2Imod;
use crate::float::float_of_int;
use crate::float::int_to_float;
use crate::global::GlobalState;
use crate::heap::Sizes;
use crate::state::LuaState;
use crate::tagmethods::TagMethod;
use crate::tagmethods::bin_handler;
use crate::tagmethods::comp_handler_51;
use crate::tagmethods::handler;
use crate::value::LuaError;
use crate::value::LuaValue;
use crate::value::LuaVersion;
use crate::value::StackIdx;
use crate::value::TypeOp;

verus! {

/// A handler and the two operands that it is called with.
#[derive(Debug, Clone, Copy, PartialEq, Eq, Structural)]
pub struct TmCall {
    pub f: LuaValue,
    pub p1: LuaValue,
    pub p2: LuaValue,
}

/// A call that the host has to make: the function lies at `func`, its arguments
/// above it up to `top`, and `nresults` results are wanted in its place.
#[derive(Debug, Clone, Copy, PartialEq, Eq, Structural)]
pub struct CallRequest {
    pub func: StackIdx,
    pub nresults: i32,
    pub yieldable: bool,
}

/// What a binary operation on operands of the wrong type comes to.
#[derive(Debug, Clone, Copy, PartialEq, Eq, Structural)]
pub enum BinOutcome {
    /// The handler to call.
    Call(TmCall),
    /// The result itself.
    Value(LuaValue),
}

/// The handler of an order comparison; the truth of its result is negated where it
/// stands in for a missing one.
#[derive(Debug, Clone, Copy, PartialEq, Eq, Structural)]
pub struct OrderCall {
    pub call: TmCall,
    pub negate: bool,
}

/// Whether an event is an arithmetic operation.
pub open spec fn is_arith_event(e: TagMethod) -> bool {
    6 <= e.spec_index() <= 12 || e == TagMethod::Unm
}

/// Whether an event is a bitwise operation.
pub open spec fn is_bitwise_event(e: TagMethod) -> bool {
    13 <= e.spec_index() <= 17 || e == TagMethod::BNot
}

/// Whether a value is a number or a string that spells one.
pub open spec fn numberish(v: LuaValue, numeral: Option<LuaValue>) -> bool {
    spec_number_value(coerced(v, numeral)) is Some
}

/// The result of a bitwise operation.
pub open spec fn bit_result(e: TagMethod, a: i64, b: i64) -> int {
    match e {
        TagMethod::BAnd => (a & b) as int,
        TagMethod::BOr => (a | b) as int,
        TagMethod::BXor => (a ^ b) as int,
        TagMethod::Shl => spec_shiftl(a as int, b as int),
        TagMethod::Shr => spec_shiftl(a as int, wrap64(-b)),
        _ => (!a) as int,
    }
}

/// Whether arithmetic is refused before any handler is looked for: up to 5.3, where
/// a string operand spells no number, or stands beside one that is none, and the
/// other operand has no handler.
pub open spec fn core_refuses(
    g: GlobalState,
    p1: LuaValue,
    n1: Option<LuaValue>,
    p2: LuaValue,
    n2: Option<LuaValue>,
    event: TagMethod,
) -> bool {
    &&& g.lua_version.rank() <= 3
    &&& is_arith_event(event)
    &&& p1 is Str || p2 is Str
    &&& !(numberish(p1, n1) && numberish(p2, n2))
    &&& event == TagMethod::Unm || handler(
        g,
        if p1 is Str {
            p2
        } else {
            p1
        },
        event,
    ) == LuaValue::Nil
}

/// Whether a bitwise operation coerces strings: in 5.3 alone, where both operands
/// are numbers or spell one and one is a string.
pub open spec fn core_coerces(
    g: GlobalState,
    p1: LuaValue,
    n1: Option<LuaValue>,
    p2: LuaValue,
    n2: Option<LuaValue>,
    event: TagMethod,
) -> bool {
    &&& g.lua_version == LuaVersion::V53
    &&& is_bitwise_event(event)
    &&& p1 is Str || p2 is Str
    &&& numberish(p1, n1) && numberish(p2, n2)
}

/// What a binary operation comes to: an error where the core refuses it, else the
/// handler, else in 5.3 the result on coerced strings, else an error that blames the
/// operands or the first of them that is no number.
pub open spec fn bin_decided(
    g: GlobalState,
    p1: LuaValue,
    p1_idx: Option<StackIdx>,
    n1: Option<LuaValue>,
    p2: LuaValue,
    p2_idx: Option<StackIdx>,
    n2: Option<LuaValue>,
    event: TagMethod,
    r: Result<BinOutcome, LuaError>,
) -> bool {
    if core_refuses(g, p1, n1, p2, n2, event) {
        r == Err::<BinOutcome, LuaError>(
            LuaError::ArithError {
                value: if numberish(p1, n1) {
                    p2
                } else {
                    p1
                },
                slot: if numberish(p1, n1) {
                    slot_or_first(p2_idx)
                } else {
                    slot_or_first(p1_idx)
                },
                binary: event != TagMethod::Unm,
            },
        )
    } else if bin_handler(g, p1, p2, event) != LuaValue::Nil {
        r == Ok::<BinOutcome, LuaError>(
            BinOutcome::Call(TmCall { f: bin_handler(g, p1, p2, event), p1: p1, p2: p2 }),
        )
    } else if core_coerces(g, p1, n1, p2, n2, event) {
        match (
            spec_to_integer_ns(coerced(p1, n1), F2Imod::Eq),
            spec_to_integer_ns(coerced(p2, n2), F2Imod::Eq),
        ) {
            (Some(a), Some(b)) => r matches Ok(BinOutcome::Value(LuaValue::Int(v))) && v == bit_result(
                event,
                a,
                b,
            ),
            _ => r == Err::<BinOutcome, LuaError>(
                LuaError::ToIntError {
                    left: p1,
                    left_at: Some(slot_or_first(p1_idx)),
                    right: p2,
                    right_at: Some(slot_or_first(p2_idx)),
                },
            ),
        }
    } else if is_bitwise_event(event) && p1.spec_is_number() && p2.spec_is_number() {
        r == Err::<BinOutcome, LuaError>(
            LuaError::ToIntError { left: p1, left_at: p1_idx, right: p2, right_at: p2_idx },
        )
    } else {
        r == Err::<BinOutcome, LuaError>(
            LuaError::TypeError {
                value: if p1.spec_is_number() {
                    p2
                } else {
                    p1
                },
                at: Some(
                    if p1.spec_is_number() {
                        slot_or_first(p2_idx)
                    } else {
                        slot_or_first(p1_idx)
                    },
                ),
                op: if is_bitwise_event(event) {
                    TypeOp::PerformBitwise
                } else {
                    TypeOp::PerformArithmetic
                },
            },
        )
    }
}

/// A slot, or the first one where it is not known.
pub open spec fn slot_or_first(at: Option<StackIdx>) -> StackIdx {
    match at {
        Some(i) => i,
        None => StackIdx(0),
    }
}

fn or_first(at: Option<StackIdx>) -> (r: StackIdx)
    ensures
        r == slot_or_first(at),
{
    match at {
        Some(i) => i,
        None => StackIdx(0),
    }
}

fn arith_event(e: TagMethod) -> (r: bool)
    ensures
        r == is_arith_event(e),
{
    match e {
        TagMethod::Add | TagMethod::Sub | TagMethod::Mul | TagMethod::Mod => true,
        TagMethod::Pow | TagMethod::Div | TagMethod::IDiv | TagMethod::Unm => true,
        _ => false,
    }
}

fn bitwise_event(e: TagMethod) -> (r: bool)
    ensures
        r == is_bitwise_event(e),
{
    match e {
        TagMethod::BAnd | TagMethod::BOr | TagMethod::BXor => true,
        TagMethod::Shl | TagMethod::Shr | TagMethod::BNot => true,
        _ => false,
    }
}

fn is_string(v: &LuaValue) -> (r: bool)
    ensures
        r == (*v is Str),
{
    match v {
        LuaValue::Str(_) => true,
        _ => false,
    }
}

fn bit_op(e: TagMethod, a: i64, b: i64) -> (r: i64)
    ensures
        r == bit_result(e, a, b),
{
    match e {
        TagMethod::BAnd => a & b,
        TagMethod::BOr => a | b,
        TagMethod::BXor => a ^ b,
        TagMethod::Shl => shiftl(a, b),
        TagMethod::Shr => shiftl(a, intop_sub(0, b)),
        _ => !a,
    }
}

impl GlobalState {
    /// Decides a binary operation whose operands are not numbers, or not integers where
    /// those are needed. `n1` and `n2` are the numerals that string operands spell.
    pub fn try_bin_tm(
        &self,
        p1: LuaValue,
        p1_idx: Option<StackIdx>,
        n1: Option<LuaValue>,
        p2: LuaValue,
        p2_idx: Option<StackIdx>,
        n2: Option<LuaValue>,
        event: TagMethod,
    ) -> (r: Result<BinOutcome, LuaError>)
        requires
            self.can_look(p1),
            self.can_look(p2),
            event != TagMethod::N,
        ensures
            bin_decided(*self, p1, p1_idx, n1, p2, p2_idx, n2, event, r),
            r matches Ok(BinOutcome::Call(c)) ==> self.heap.ok(c.f) && c.f != LuaValue::Nil,
    {
        let has_str: bool = is_string(&p1) || is_string(&p2);
        let legacy: bool = match self.lua_version {
            LuaVersion::V51 | LuaVersion::V52 | LuaVersion::V53 => true,
            _ => false,
        };
        if legacy && arith_event(event) && has_str {
            let num1: bool = tonumber(&p1, n1).is_some();
            let num2: bool = tonumber(&p2, n2).is_some();
            if !(num1 && num2) {
                let unary: bool = event == TagMethod::Unm;
                let other: LuaValue = if is_string(&p1) {
                    p2
                } else {
                    p1
                };
                if unary || self.get_tm_by_obj(&other, event) == LuaValue::Nil {
                    let (bad, at) = if !num1 {
                        (p1, or_first(p1_idx))
                    } else {
                        (p2, or_first(p2_idx))
                    };
                    return Err(LuaError::ArithError { value: bad, slot: at, binary: !unary });
                }
            }
        }
        let f: LuaValue = self.get_bin_tm(&p1, &p2, event);
        if f != LuaValue::Nil {
            return Ok(BinOutcome::Call(TmCall { f: f, p1: p1, p2: p2 }));
        }
        if self.lua_version == LuaVersion::V53 && bitwise_event(event) && has_str {
            if tonumber(&p1, n1).is_some() && tonumber(&p2, n2).is_some() {
                return match (to_integer(&p1, n1, F2Imod::Eq), to_integer(&p2, n2, F2Imod::Eq)) {
                    (Some(a), Some(b)) => Ok(BinOutcome::Value(LuaValue::Int(bit_op(event, a, b)))),
                    _ => Err(
                        LuaError::ToIntError {
                            left: p1,
                            left_at: Some(or_first(p1_idx)),
                            right: p2,
                            right_at: Some(or_first(p2_idx)),
                        },
                    ),
                };
            }
        }
        let bitwise: bool = bitwise_event(event);
        if bitwise && p1.is_number() && p2.is_number() {
            return Err(LuaError::ToIntError { left: p1, left_at: p1_idx, right: p2, right_at: p2_idx });
        }
        let (bad, at) = if p1.is_number() {
            (p2, or_first(p2_idx))
        } else {
            (p1, or_first(p1_idx))
        };
        Err(
            LuaError::TypeError {
                value: bad,
                at: Some(at),
                op: if bitwise {
                    TypeOp::PerformBitwise
                } else {
                    TypeOp::PerformArithmetic
                },
            },
        )
    }

    /// Decides a comparison by order of two values that are neither two numbers nor two
    /// strings. 5.1 wants operands of one type with one handler; up to 5.4 a missing
    /// `__le` is made up for by `__lt` on the exchanged operands.
    pub open spec fn order_plan(self, p1: LuaValue, p2: LuaValue, event: TagMethod) -> Option<OrderCall> {
        if self.lua_version == LuaVersion::V51 {
            if p1.spec_type_tag() != p2.spec_type_tag() {
                None
            } else if comp_handler_51(self, p1, p2, event) != LuaValue::Nil {
                Some(
                    OrderCall {
                        call: TmCall { f: comp_handler_51(self, p1, p2, event), p1: p1, p2: p2 },
                        negate: false,
                    },
                )
            } else if event == TagMethod::Le && comp_handler_51(self, p2, p1, TagMethod::Lt) != LuaValue::Nil {
                Some(
                    OrderCall {
                        call: TmCall {
                            f: comp_handler_51(self, p2, p1, TagMethod::Lt),
                            p1: p2,
                            p2: p1,
                        },
                        negate: true,
                    },
                )
            } else {
                None
            }
        } else if bin_handler(self, p1, p2, event) != LuaValue::Nil {
            Some(
                OrderCall {
                    call: TmCall { f: bin_handler(self, p1, p2, event), p1: p1, p2: p2 },
                    negate: false,
                },
            )
        } else if event == TagMethod::Le && self.lua_version != LuaVersion::V55 && bin_handler(
            self,
            p2,
            p1,
            TagMethod::Lt,
        ) != LuaValue::Nil {
            Some(
                OrderCall {
                    call: TmCall { f: bin_handler(self, p2, p1, TagMethod::Lt), p1: p2, p2: p1 },
                    negate: true,
                },
            )
        } else {
            None
        }
    }
}

impl LuaState {
    /// The thread with the flags of its current frame replaced.
    pub open spec fn status_set(self, status: u16, after: LuaState) -> bool {
        self.frame_set(self.ci, CallInfo { callstatus: status, ..self.cur() }, after)
    }

    /// The thread with its current frame marked where `__lt` stands in for `__le`. Where
    /// there is no `__lt` either, the mark is removed again.
    pub open spec fn order_marked(
        self,
        g: GlobalState,
        event: TagMethod,
        plan: Option<OrderCall>,
        after: LuaState,
    ) -> bool {
        match plan {
            Some(c) => if c.negate {
                self.status_set(self.cur().callstatus | CIST_LEQ, after)
            } else {
                after == self
            },
            None => if event == TagMethod::Le && g.lua_version != LuaVersion::V51 && g.lua_version
                != LuaVersion::V55 {
                self.status_set((self.cur().callstatus | CIST_LEQ) & !CIST_LEQ, after)
            } else {
                after == self
            },
        }
    }

    /// Decides a comparison by order, or raises an order error. The current frame is
    /// marked while `__lt` stands in for `__le`, so that the result can be negated even
    /// if the call yields.
    pub fn call_order_tm(
        &mut self,
        g: &GlobalState,
        p1: LuaValue,
        p2: LuaValue,
        event: TagMethod,
    ) -> (r: Result<OrderCall, LuaError>)
        requires
            g.can_look(p1),
            g.can_look(p2),
            event == TagMethod::Lt || event == TagMethod::Le,
            old(self).ci.0 < old(self).call_info@.len(),
        ensures
            match g.order_plan(p1, p2, event) {
                Some(c) => r == Ok::<OrderCall, LuaError>(c),
                None => r == Err::<OrderCall, LuaError>(LuaError::OrderError { left: p1, right: p2 }),
            },
            old(self).order_marked(*g, event, g.order_plan(p1, p2, event), *final(self)),
            r matches Ok(c) ==> g.heap.ok(c.call.f) && c.call.f != LuaValue::Nil,
            forall|z: Sizes| old(self).wf(z) ==> #[trigger] final(self).wf(z),
    {
        let at: usize = self.ci.0 as usize;
        if g.lua_version == LuaVersion::V51 {
            if p1.base_type() != p2.base_type() {
                return Err(LuaError::OrderError { left: p1, right: p2 });
            }
            let f: LuaValue = g.get_comp_tm_51(&p1, &p2, event);
            if f != LuaValue::Nil {
                return Ok(OrderCall { call: TmCall { f: f, p1: p1, p2: p2 }, negate: false });
            }
            if event == TagMethod::Le {
                let f2: LuaValue = g.get_comp_tm_51(&p2, &p1, TagMethod::Lt);
                if f2 != LuaValue::Nil {
                    self.call_info[at].callstatus = self.call_info[at].callstatus | CIST_LEQ;
                    assert(self.call_info@ =~= old(self).call_info@.update(at as int, self.cur()));
                    return Ok(OrderCall { call: TmCall { f: f2, p1: p2, p2: p1 }, negate: true });
                }
            }
            return Err(LuaError::OrderError { left: p1, right: p2 });
        }
        let f: LuaValue = g.get_bin_tm(&p1, &p2, event);
        if f != LuaValue::Nil {
            return Ok(OrderCall { call: TmCall { f: f, p1: p1, p2: p2 }, negate: false });
        }
        if event == TagMethod::Le && g.lua_version != LuaVersion::V55 {
            self.call_info[at].callstatus = self.call_info[at].callstatus | CIST_LEQ;
            let f2: LuaValue = g.get_bin_tm(&p2, &p1, TagMethod::Lt);
            if f2 != LuaValue::Nil {
                assert(self.call_info@ =~= old(self).call_info@.update(at as int, self.cur()));
                return Ok(OrderCall { call: TmCall { f: f2, p1: p2, p2: p1 }, negate: true });
            }
            self.call_info[at].callstatus = self.call_info[at].callstatus & !CIST_LEQ;
            assert(self.call_info@ =~= old(self).call_info@.update(at as int, self.cur()));
        }
        Err(LuaError::OrderError { left: p1, right: p2 })
    }

    /// Decides a comparison with a number from the instruction: an integer, or a float
    /// where `isfloat` says so, on the left where the operands are exchanged.
    pub fn call_orderi_tm(
        &mut self,
        g: &GlobalState,
        p1: LuaValue,
        v2: i32,
        flip: bool,
        isfloat: bool,
        event: TagMethod,
    ) -> (r: Result<OrderCall, LuaError>)
        requires
            g.can_look(p1),
            event == TagMethod::Lt || event == TagMethod::Le,
            old(self).ci.0 < old(self).call_info@.len(),
        ensures
            ({
                let aux = if isfloat {
                    LuaValue::Float(float_of_int(v2 as i64))
                } else {
                    LuaValue::Int(v2 as i64)
                };
                let (a, b) = if flip {
                    (aux, p1)
                } else {
                    (p1, aux)
                };
                &&& match g.order_plan(a, b, event) {
                    Some(c) => r == Ok::<OrderCall, LuaError>(c),
                    None => r == Err::<OrderCall, LuaError>(LuaError::OrderError { left: a, right: b }),
                }
                &&& old(self).order_marked(*g, event, g.order_plan(a, b, event), *final(self))
            }),
            r matches Ok(c) ==> g.heap.ok(c.call.f) && c.call.f != LuaValue::Nil,
            forall|z: Sizes| old(self).wf(z) ==> #[trigger] final(self).wf(z),
    {
        let aux: LuaValue = if isfloat {
            LuaValue::Float(int_to_float(v2 as i64))
        } else {
            LuaValue::Int(v2 as i64)
        };
        if flip {
            self.call_order_tm(g, aux, p1, event)
        } else {
            self.call_order_tm(g, p1, aux, event)
        }
    }

    /// Takes the result of an order call off the stack and gives the truth of the
    /// comparison. A mark for a stand-in call is removed.
    pub fn finish_order_tm(&mut self, negate: bool) -> (r: bool)
        requires
            old(self).top.0 <= old(self).stack@.len(),
            old(self).top.0 > 0,
            old(self).ci.0 < old(self).call_info@.len(),
        ensures
            ({
                let v = old(self).stack@[old(self).top.0 - 1];
                r == (v.spec_is_falsy() == negate)
            }),
            *final(self) == (LuaState {
                top: StackIdx((old(self).top.0 - 1) as u32),
                call_info: final(self).call_info,
                ..*old(self)
            }),
            final(self).call_info@ == (if negate {
                old(self).call_info@.update(
                    old(self).ci.0 as int,
                    CallInfo { callstatus: old(self).cur().callstatus & !CIST_LEQ, ..old(self).cur() },
                )
            } else {
                old(self).call_info@
            }),
            forall|z: Sizes| old(self).wf(z) ==> #[trigger] final(self).wf(z),
    {
        let v: LuaValue = self.pop();
        if negate {
            let at: usize = self.ci.0 as usize;
            self.call_info[at].callstatus = self.call_info[at].callstatus & !CIST_LEQ;
            assert(self.call_info@ =~= old(self).call_info@.update(at as int, self.cur()));
        }
        v.is_falsy() == negate
    }

    /// The slots from `top` on with some values pushed.
    pub open spec fn pushed(self, vs: Seq<LuaValue>, after: LuaState) -> bool {
        &&& after == (LuaState {
            stack: after.stack,
            top: StackIdx((self.top.0 + vs.len()) as u32),
            ..self
        })
        &&& after.stack@.len() == (if self.top.0 + vs.len() > self.stack@.len() {
            self.top.0 + vs.len()
        } else {
            self.stack@.len() as int
        })
        &&& forall|i: int|
            0 <= i < after.stack@.len() ==> #[trigger] after.stack@[i] == (if self.top.0 <= i < self.top.0
                + vs.len() {
                vs[i - self.top.0]
            } else {
                self.stack@[i]
            })
    }

    /// Sets up the call of a handler with two operands for one result.
    pub fn begin_tm_res(&mut self, c: TmCall) -> (r: CallRequest)
        requires
            old(self).top.0 <= old(self).stack@.len(),
            old(self).top.0 + 3 <= u32::MAX,
            old(self).ci.0 < old(self).call_info@.len(),
        ensures
            old(self).pushed(seq![c.f, c.p1, c.p2], *final(self)),
            r == (CallRequest {
                func: old(self).top,
                nresults: 1,
                yieldable: old(self).cur().spec_is_lua(),
            }),
            forall|z: Sizes|
                old(self).wf(z) && z.ok(c.f) && z.ok(c.p1) && z.ok(c.p2) ==> #[trigger] final(self).wf(z),
    {
        let func: StackIdx = self.top;
        self.push(c.f);
        self.push(c.p1);
        self.push(c.p2);
        let yieldable: bool = self.call_info[self.ci.0 as usize].is_lua_code();
        CallRequest { func: func, nresults: 1, yieldable: yieldable }
    }

    /// Takes the result of a handler off the stack and stores it.
    pub fn finish_tm_res(&mut self, res: StackIdx)
        requires
            0 < old(self).top.0 <= old(self).stack@.len(),
            res.0 < old(self).stack@.len(),
        ensures
            *final(self) == (LuaState {
                stack: final(self).stack,
                top: StackIdx((old(self).top.0 - 1) as u32),
                ..*old(self)
            }),
            final(self).stack@ == old(self).stack@.update(res.0 as int, old(self).stack@[old(self).top.0 - 1]),
            forall|z: Sizes| old(self).wf(z) ==> #[trigger] final(self).wf(z),
    {
        let v: LuaValue = self.pop();
        self.set_at(res, v);
    }

    /// Sets up the call of a handler with three operands for no result.
    pub fn begin_tm(&mut self, f: LuaValue, p1: LuaValue, p2: LuaValue, p3: LuaValue) -> (r: CallRequest)
        requires
            old(self).top.0 <= old(self).stack@.len(),
            old(self).top.0 + 4 <= u32::MAX,
            old(self).ci.0 < old(self).call_info@.len(),
        ensures
            old(self).pushed(seq![f, p1, p2, p3], *final(self)),
            r == (CallRequest {
                func: old(self).top,
                nresults: 0,
                yieldable: old(self).cur().spec_is_lua(),
            }),
            forall|z: Sizes|
                old(self).wf(z) && z.ok(f) && z.ok(p1) && z.ok(p2) && z.ok(p3) ==> #[trigger] final(self).wf(z),
    {
        let func: StackIdx = self.top;
        self.push(f);
        self.push(p1);
        self.push(p2);
        self.push(p3);
        let yieldable: bool = self.call_info[self.ci.0 as usize].is_lua_code();
        CallRequest { func: func, nresults: 0, yieldable: yieldable }
    }

    /// Sets up the call of a handler for the truth of its result, which gets a slot of
    /// its own below the call.
    pub fn begin_tm_bool(&mut self, c: TmCall) -> (r: CallRequest)
        requires
            old(self).top.0 <= old(self).stack@.len(),
            old(self).top.0 + 4 <= u32::MAX,
            old(self).ci.0 < old(self).call_info@.len(),
        ensures
            old(self).pushed(seq![LuaValue::Nil, c.f, c.p1, c.p2], *final(self)),
            r == (CallRequest {
                func: StackIdx((old(self).top.0 + 1) as u32),
                nresults: 1,
                yieldable: old(self).cur().spec_is_lua(),
            }),
            forall|z: Sizes|
                old(self).wf(z) && z.ok(c.f) && z.ok(c.p1) && z.ok(c.p2) ==> #[trigger] final(self).wf(z),
    {
        self.push(LuaValue::Nil);
        let func: StackIdx = self.top;
        self.push(c.f);
        self.push(c.p1);
        self.push(c.p2);
        let yieldable: bool = self.call_info[self.ci.0 as usize].is_lua_code();
        CallRequest { func: func, nresults: 1, yieldable: yieldable }
    }

    /// Takes the result of a handler and its slot off the stack and gives the truth of
    /// the result.
    pub fn finish_tm_bool(&mut self) -> (r: bool)
        requires
            2 <= old(self).top.0 <= old(self).stack@.len(),
        ensures
            r == !old(self).stack@[old(self).top.0 - 1].spec_is_falsy(),
            *final(self) == (LuaState {
                stack: final(self).stack,
                top: StackIdx((old(self).top.0 - 2) as u32),
                ..*old(self)
            }),
            final(self).stack@ == old(self).stack@.update(
                old(self).top.0 - 2,
                old(self).stack@[old(self).top.0 - 1],
            ),
            forall|z: Sizes| old(self).wf(z) ==> #[trigger] final(self).wf(z),
    {
        let v: LuaValue = self.pop();
        let res: StackIdx = StackIdx(self.top.0 - 1);
        self.set_at(res, v);
        let w: LuaValue = self.pop();
        !w.is_falsy()
    }

    /// Decides the concatenation of the two top values where they are not both strings
    /// or numbers: the handler to call, whose result replaces the lower one, or a type
    /// error that blames the first operand that is neither.
    pub fn try_concat_tm(&self, g: &GlobalState) -> (r: Result<TmCall, LuaError>)
        requires
            2 <= self.top.0 <= self.stack@.len(),
            g.can_look(self.stack@[self.top.0 - 2]),
            g.can_look(self.stack@[self.top.0 - 1]),
        ensures
            ({
                let p1 = self.stack@[self.top.0 - 2];
                let p2 = self.stack@[self.top.0 - 1];
                let f = bin_handler(*g, p1, p2, TagMethod::Concat);
                if f != LuaValue::Nil {
                    r == Ok::<TmCall, LuaError>(TmCall { f: f, p1: p1, p2: p2 })
                } else {
                    r == Err::<TmCall, LuaError>(
                        LuaError::TypeError {
                            value: if p1 is Str || p1.spec_is_number() {
                                p2
                            } else {
                                p1
                            },
                            at: Some(
                                StackIdx(
                                    (if p1 is Str || p1.spec_is_number() {
                                        self.top.0 - 1
                                    } else {
                                        self.top.0 - 2
                                    }) as u32,
                                ),
                            ),
                            op: TypeOp::Concatenate,
                        },
                    )
                }
            }),
            r matches Ok(c) ==> g.heap.ok(c.f),
    {
        let top: u32 = self.top.0;
        let p1: LuaValue = self.get_at(StackIdx(top - 2));
        let p2: LuaValue = self.get_at(StackIdx(top - 1));
        let f: LuaValue = g.get_bin_tm(&p1, &p2, TagMethod::Concat);
        if f != LuaValue::Nil {
            return Ok(TmCall { f: f, p1: p1, p2: p2 });
        }
        let (bad, at) = if is_string(&p1) || p1.is_number() {
            (p2, StackIdx(top - 1))
        } else {
            (p1, StackIdx(top - 2))
        };
        Err(LuaError::TypeError { value: bad, at: Some(at), op: TypeOp::Concatenate })
    }
}

impl GlobalState {
    /// As [`GlobalState::try_bin_tm`], with the operands exchanged where `flip` says so.
    pub fn try_bin_assoc_tm(
        &self,
        p1: LuaValue,
        p1_idx: Option<StackIdx>,
        n1: Option<LuaValue>,
        p2: LuaValue,
        p2_idx: Option<StackIdx>,
        n2: Option<LuaValue>,
        flip: bool,
        event: TagMethod,
    ) -> (r: Result<BinOutcome, LuaError>)
        requires
            self.can_look(p1),
            self.can_look(p2),
            event != TagMethod::N,
        ensures
            flip ==> bin_decided(*self, p2, p2_idx, n2, p1, p1_idx, n1, event, r),
            !flip ==> bin_decided(*self, p1, p1_idx, n1, p2, p2_idx, n2, event, r),
            r matches Ok(BinOutcome::Call(c)) ==> self.heap.ok(c.f) && c.f != LuaValue::Nil,
    {
        if flip {
            self.try_bin_tm(p2, p2_idx, n2, p1, p1_idx, n1, event)
        } else {
            self.try_bin_tm(p1, p1_idx, n1, p2, p2_idx, n2, event)
        }
    }

    /// As [`GlobalState::try_bin_assoc_tm`], with an integer from the instruction as the
    /// second operand.
    pub fn try_bini_tm(
        &self,
        p1: LuaValue,
        p1_idx: Option<StackIdx>,
        n1: Option<LuaValue>,
        i2: i64,
        flip: bool,
        event: TagMethod,
    ) -> (r: Result<BinOutcome, LuaError>)
        requires
            self.can_look(p1),
            event != TagMethod::N,
        ensures
            flip ==> bin_decided(*self, LuaValue::Int(i2), None, None, p1, p1_idx, n1, event, r),
            !flip ==> bin_decided(*self, p1, p1_idx, n1, LuaValue::Int(i2), None, None, event, r),
            r matches Ok(BinOutcome::Call(c)) ==> self.heap.ok(c.f) && c.f != LuaValue::Nil,
    {
        self.try_bin_assoc_tm(p1, p1_idx, n1, LuaValue::Int(i2), None, None, flip, event)
    }
}

} // verus!
