//! Jumps, tests and comparisons.

use vstd::prelude::*;
use crate::arith::le_num;
use crate::arith::lt_num;
use crate::arith::spec_num_le;
use crate::arith::spec_num_lt;
use crate::compare::less_equal_raw;
use crate::compare::less_than_raw;
use crate::compare::raw_eq;
use crate::compare::raw_equal;
use crate::compare::raw_le;
use crate::compare::raw_lt;
use crate::exec::After;
use crate::exec::Frame;
use crate::exec::Step;
use crate::exec::at_instr;
use crate::exec::code_at;
use crate::exec::cond_target;
use crate::exec::frame_ok;
use crate::exec::is_cond_jump;
use crate::exec::is_konst;
use crate::exec::is_reg;
use crate::exec::is_target;
use crate::exec::konst;
use crate::exec::protected;
use crate::exec::reg;
use crate::exec::reg_set;
use crate::exec::traps;
use crate::exec_tables::call_above;
use crate::exec_tables::lemma_frame_kept;
use crate::exec_tables::protected_pushed;
use crate::float::float_of_int;
use crate::float::flt_eq;
use crate::float::flt_le;
use crate::float::flt_lt;
use crate::float::int_to_float;
use crate::float::spec_flt_eq;
use crate::float::spec_flt_le;
use crate::float::spec_flt_lt;
use crate::global::GlobalState;
use crate::meta::EqOutcome;
use crate::meta::eq_plan;
use crate::opcode::Instruction;
use crate::opcode::InstructionExt;
use crate::opcode::OpCode;
use crate::opcode::spec_a;
use crate::opcode::spec_b;
use crate::opcode::spec_c;
use crate::opcode::spec_k;
use crate::opcode::spec_op;
use crate::opcode::spec_sj;
use crate::state::LuaState;
use crate::tagmethods::TagMethod;
use crate::tmcalls::CallRequest;
use crate::tmcalls::OrderCall;
use crate::value::LuaError;
use crate::value::LuaValue;
use crate::value::StackIdx;

verus! {

/// The frame after a test: the jump that follows is taken where the outcome is the
/// one that the instruction names, and passed over otherwise. Taking it looks for
/// hooks, and so does anything that may have called.
pub open spec fn branch(s: LuaState, g: GlobalState, f: Frame, i: Instruction, cond: bool, looked: bool) -> Frame {
    let holds = cond == (spec_k(i.word()) != 0);
    Frame {
        pc: cond_target(g, f, holds) as u32,
        trap: if holds || looked {
            traps(s, f.ci)
        } else {
            f.trap
        },
        ..f
    }
}

/// The number in a comparison instruction.
pub open spec fn imm(i: Instruction) -> int {
    spec_b(i.word()) - 0x7f
}

/// The number in a comparison instruction as an operand.
pub open spec fn imm_value(i: Instruction) -> LuaValue {
    if spec_c(i.word()) != 0 {
        LuaValue::Float(float_of_int(imm(i) as i64))
    } else {
        LuaValue::Int(imm(i) as i64)
    }
}

/// Whether an instruction is a test that has no effect but its jump.
pub open spec fn is_test(op: OpCode) -> bool {
    op == OpCode::Eq || is_order(op) || op == OpCode::EqK || op == OpCode::EqI || op == OpCode::Test
}

/// Whether an instruction compares by order.
pub open spec fn is_order(op: OpCode) -> bool {
    op == OpCode::Lt || op == OpCode::Le || is_order_imm(op)
}

/// Whether an instruction compares with a number by order.
pub open spec fn is_order_imm(op: OpCode) -> bool {
    op == OpCode::LtI || op == OpCode::LeI || op == OpCode::GtI || op == OpCode::GeI
}

/// Whether the operands of a test exist.
pub open spec fn test_ok(s: LuaState, g: GlobalState, f: Frame, i: Instruction) -> bool {
    let w = i.word();
    let op = spec_op(w);
    &&& is_reg(s, f, spec_a(w))
    &&& op == OpCode::Eq || op == OpCode::Lt || op == OpCode::Le ==> is_reg(s, f, spec_b(w))
    &&& op == OpCode::EqK ==> is_konst(g, f, spec_b(w))
    &&& is_cond_jump(g, f)
}

/// The outcome of a test that takes no look at handlers: on numbers, with a constant,
/// or of truth.
pub open spec fn quick(s: LuaState, g: GlobalState, f: Frame, i: Instruction) -> Option<bool> {
    let w = i.word();
    let a = reg(s, f, spec_a(w));
    let b = reg(s, f, spec_b(w));
    let n = imm(i) as i64;
    match spec_op(w) {
        OpCode::Test => Some(!a.spec_is_falsy()),
        OpCode::EqK => Some(raw_eq(g.heap, a, konst(g, f, spec_b(w)))),
        OpCode::EqI => Some(
            match a {
                LuaValue::Int(x) => x == n,
                LuaValue::Float(x) => spec_flt_eq(x, float_of_int(n)),
                _ => false,
            },
        ),
        OpCode::Lt => if a.spec_is_number() && b.spec_is_number() {
            Some(spec_num_lt(a, b))
        } else {
            None
        },
        OpCode::Le => if a.spec_is_number() && b.spec_is_number() {
            Some(spec_num_le(a, b))
        } else {
            None
        },
        OpCode::LtI => match a {
            LuaValue::Int(x) => Some(x < n),
            LuaValue::Float(x) => Some(spec_flt_lt(x, float_of_int(n))),
            _ => None,
        },
        OpCode::LeI => match a {
            LuaValue::Int(x) => Some(x <= n),
            LuaValue::Float(x) => Some(spec_flt_le(x, float_of_int(n))),
            _ => None,
        },
        OpCode::GtI => match a {
            LuaValue::Int(x) => Some(x > n),
            LuaValue::Float(x) => Some(spec_flt_lt(float_of_int(n), x)),
            _ => None,
        },
        OpCode::GeI => match a {
            LuaValue::Int(x) => Some(x >= n),
            LuaValue::Float(x) => Some(spec_flt_le(float_of_int(n), x)),
            _ => None,
        },
        _ => None,
    }
}

/// The operands of a comparison by order, left and right.
pub open spec fn order_operands(s: LuaState, f: Frame, i: Instruction) -> (LuaValue, LuaValue) {
    let w = i.word();
    let a = reg(s, f, spec_a(w));
    match spec_op(w) {
        OpCode::Lt | OpCode::Le => (a, reg(s, f, spec_b(w))),
        OpCode::GtI | OpCode::GeI => (imm_value(i), a),
        _ => (a, imm_value(i)),
    }
}

/// The event of a comparison by order.
pub open spec fn order_event(op: OpCode) -> TagMethod {
    if op == OpCode::Lt || op == OpCode::LtI || op == OpCode::GtI {
        TagMethod::Lt
    } else {
        TagMethod::Le
    }
}

/// What a comparison by order comes to without handlers.
pub open spec fn raw_order(g: GlobalState, a: LuaValue, b: LuaValue, event: TagMethod) -> Option<bool> {
    if event == TagMethod::Lt {
        raw_lt(g.heap, a, b)
    } else {
        raw_le(g.heap, a, b)
    }
}

/// Whether a comparison by order that is not of two numbers ended as it should: on
/// strings it is decided, otherwise by a handler, or it is an error.
pub open spec fn order_done(
    s: LuaState,
    g: GlobalState,
    f: Frame,
    i: Instruction,
    s2: LuaState,
    f2: Frame,
    r: Result<Step, LuaError>,
) -> bool {
    let (a, b) = order_operands(s, f, i);
    let event = order_event(spec_op(i.word()));
    let next = Frame { pc: (f.pc + 1) as u32, ..f };
    match raw_order(g, a, b, event) {
        Some(cond) => {
            &&& protected(s, f, f.pc + 1, s2)
            &&& f2 == branch(s, g, f, i, cond, true)
            &&& r == Ok::<Step, LuaError>(Step::Next)
        },
        None => {
            let plan = g.order_plan(a, b, event);
            &&& f2 == next
            &&& exists|p: LuaState, q: LuaState|
                {
                    &&& #[trigger] protected(s, f, f.pc + 1, p)
                    &&& #[trigger] p.order_marked(g, event, plan, q)
                    &&& match plan {
                        Some(c) => {
                            &&& q.pushed(seq![c.call.f, c.call.p1, c.call.p2], s2)
                            &&& r == Ok::<Step, LuaError>(
                                call_above(s, f, 1, After::Order { negate: c.negate }),
                            )
                        },
                        None => q == s2 && r == Err::<Step, LuaError>(LuaError::OrderError { left: a, right: b }),
                    }
                }
        },
    }
}

/// Whether a test ended as it should.
pub open spec fn test_done(
    s: LuaState,
    g: GlobalState,
    f: Frame,
    i: Instruction,
    s2: LuaState,
    f2: Frame,
    r: Result<Step, LuaError>,
) -> bool {
    match quick(s, g, f, i) {
        Some(cond) => {
            &&& s2 == s
            &&& f2 == branch(s, g, f, i, cond, false)
            &&& r == Ok::<Step, LuaError>(Step::Next)
        },
        None => if spec_op(i.word()) == OpCode::Eq {
            let next = Frame { pc: (f.pc + 1) as u32, ..f };
            match eq_plan(g, reg(s, f, spec_a(i.word())), reg(s, f, spec_b(i.word()))) {
                EqOutcome::Known(cond) => {
                    &&& protected(s, f, f.pc + 1, s2)
                    &&& f2 == branch(s, g, f, i, cond, true)
                    &&& r == Ok::<Step, LuaError>(Step::Next)
                },
                EqOutcome::Call(c) => {
                    &&& protected_pushed(s, f, f.pc + 1, seq![LuaValue::Nil, c.f, c.p1, c.p2], s2)
                    &&& f2 == next
                    &&& r == Ok::<Step, LuaError>(
                        Step::Call {
                            request: CallRequest {
                                func: StackIdx((s.frame(f.ci).top.0 + 1) as u32),
                                nresults: 1,
                                yieldable: true,
                            },
                            then: After::Equal,
                        },
                    )
                },
            }
        } else {
            order_done(s, g, f, i, s2, f2, r)
        },
    }
}

/// Whether a jump can run.
pub open spec fn jmp_ok(s: LuaState, g: GlobalState, f: Frame, i: Instruction) -> bool {
    &&& is_target(g, f, f.pc + 1 + spec_sj(i.word()))
}

/// What a jump does.
pub open spec fn jmp_done(
    s: LuaState,
    g: GlobalState,
    f: Frame,
    i: Instruction,
    s2: LuaState,
    f2: Frame,
    r: Step,
) -> bool {
    &&& f2 == (Frame {
        pc: (f.pc + 1 + spec_sj(i.word())) as u32,
        trap: traps(s, f.ci),
        ..f
    })
    &&& r == Step::Next
}

/// Whether the test that copies its operand can run.
pub open spec fn testset_ok(s: LuaState, g: GlobalState, f: Frame, i: Instruction) -> bool {
    &&& spec_op(i.word()) == OpCode::TestSet
    &&& is_reg(s, f, spec_a(i.word()))
    &&& is_reg(s, f, spec_b(i.word()))
    &&& is_cond_jump(g, f)
}

/// What the test that copies its operand does.
pub open spec fn testset_done(
    s: LuaState,
    g: GlobalState,
    f: Frame,
    i: Instruction,
    s2: LuaState,
    f2: Frame,
    r: Step,
) -> bool {
    &&& ({
        let v = reg(s, f, spec_b(i.word()));
        &&& f2 == branch(s, g, f, i, !v.spec_is_falsy(), false)
        &&& if v.spec_is_falsy() == (spec_k(i.word()) != 0) {
            s2 == s
        } else {
            reg_set(s, f, spec_a(i.word()), v, s2)
        }
    })
    &&& r == Step::Next
}

impl LuaState {
    /// Takes or passes over the jump after a test. `f` is at the test.
    fn do_branch(&self, g: &GlobalState, f: &mut Frame, i: Instruction, cond: bool, looked: bool)
        requires
            frame_ok(*self, *g, *old(f)),
            is_cond_jump(*g, *old(f)),
        ensures
            *final(f) == branch(*self, *g, *old(f), i, cond, looked),
            frame_ok(*self, *g, *final(f)),
    {
        let holds: bool = cond == i.test_k();
        if holds || looked {
            f.trap = self.ci_trap(f.ci);
        }
        if holds {
            let next: Instruction = self.proto_code(g, f, f.pc + 1);
            f.pc = (f.pc as i64 + 2 + next.arg_s_j() as i64) as u32;
        } else {
            f.pc = f.pc + 2;
        }
    }

    /// Runs a jump.
    pub fn exec_jmp(&self, g: &GlobalState, f: &mut Frame, i: Instruction) -> (r: Step)
        requires
            at_instr(*self, *g, *old(f), i),
            jmp_ok(*self, *g, *old(f), i),
        ensures
            frame_ok(*self, *g, *final(f)),
            jmp_done(*self, *g, *old(f), i, *self, *final(f), r),
    {
        f.pc = (f.pc as i64 + 1 + i.arg_s_j() as i64) as u32;
        f.trap = self.ci_trap(f.ci);
        Step::Next
    }

    /// The outcome of a test that takes no look at handlers.
    fn quick_test(&self, g: &GlobalState, f: &Frame, i: Instruction) -> (r: Option<bool>)
        requires
            frame_ok(*self, *g, *f),
            is_test(spec_op(i.word())),
            test_ok(*self, *g, *f, i),
        ensures
            r == quick(*self, *g, *f, i),
    {
        let a: LuaValue = self.reg_value(g, f, i.arg_a() as u32);
        let n: i64 = i.arg_s_b() as i64;
        match i.opcode() {
            OpCode::Test => Some(!a.is_falsy()),
            OpCode::EqK => {
                let k: LuaValue = self.proto_const(g, f, i.arg_b() as usize);
                Some(raw_equal(&g.heap, &a, &k))
            },
            OpCode::EqI => Some(
                match a {
                    LuaValue::Int(x) => x == n,
                    LuaValue::Float(x) => flt_eq(x, int_to_float(n)),
                    _ => false,
                },
            ),
            OpCode::Lt => {
                let b: LuaValue = self.reg_value(g, f, i.arg_b() as u32);
                if a.is_number() && b.is_number() {
                    Some(lt_num(&a, &b))
                } else {
                    None
                }
            },
            OpCode::Le => {
                let b: LuaValue = self.reg_value(g, f, i.arg_b() as u32);
                if a.is_number() && b.is_number() {
                    Some(le_num(&a, &b))
                } else {
                    None
                }
            },
            OpCode::LtI => match a {
                LuaValue::Int(x) => Some(x < n),
                LuaValue::Float(x) => Some(flt_lt(x, int_to_float(n))),
                _ => None,
            },
            OpCode::LeI => match a {
                LuaValue::Int(x) => Some(x <= n),
                LuaValue::Float(x) => Some(flt_le(x, int_to_float(n))),
                _ => None,
            },
            OpCode::GtI => match a {
                LuaValue::Int(x) => Some(x > n),
                LuaValue::Float(x) => Some(flt_lt(int_to_float(n), x)),
                _ => None,
            },
            OpCode::GeI => match a {
                LuaValue::Int(x) => Some(x >= n),
                LuaValue::Float(x) => Some(flt_le(int_to_float(n), x)),
                _ => None,
            },
            _ => None,
        }
    }

    /// Finishes a comparison by order that is not of two numbers.
    #[verifier::rlimit(40)]
    fn exec_order(&mut self, g: &GlobalState, f: &mut Frame, i: Instruction) -> (r: Result<Step, LuaError>)
        requires
            at_instr(*old(self), *g, *old(f), i),
            is_order(spec_op(i.word())),
            test_ok(*old(self), *g, *old(f), i),
        ensures
            frame_ok(*final(self), *g, *final(f)),
            order_done(*old(self), *g, *old(f), i, *final(self), *final(f), r),
    {
        let op: OpCode = i.opcode();
        let a: LuaValue = self.reg_value(g, f, i.arg_a() as u32);
        let aux: LuaValue = if i.arg_c() != 0 {
            LuaValue::Float(int_to_float(i.arg_s_b() as i64))
        } else {
            LuaValue::Int(i.arg_s_b() as i64)
        };
        let (left, right) = match op {
            OpCode::Lt | OpCode::Le => (a, self.reg_value(g, f, i.arg_b() as u32)),
            OpCode::GtI | OpCode::GeI => (aux, a),
            _ => (a, aux),
        };
        let lt: bool = op == OpCode::Lt || op == OpCode::LtI || op == OpCode::GtI;
        self.protect(g, f, f.pc + 1);
        let ghost p = *self;
        let known: Option<bool> = if lt {
            less_than_raw(&g.heap, &left, &right)
        } else {
            less_equal_raw(&g.heap, &left, &right)
        };
        if let Some(cond) = known {
            self.do_branch(g, f, i, cond, true);
            return Ok(Step::Next);
        }
        f.pc = f.pc + 1;
        let event: TagMethod = if lt {
            TagMethod::Lt
        } else {
            TagMethod::Le
        };
        let o: Result<OrderCall, LuaError> = self.call_order_tm(g, left, right, event);
        let ghost q = *self;
        proof {
            let plan = g.order_plan(left, right, event);
            assert(p.order_marked(*g, event, plan, q));
            assert(protected(*old(self), *old(f), old(f).pc + 1, p));
            crate::callinfo::law_leq_mark(p.cur().callstatus);
            crate::callinfo::law_leq_mark(p.cur().callstatus | crate::callinfo::CIST_LEQ);
            lemma_frame_kept(p, q, *g, *f);
        }
        match o {
            Ok(c) => {
                let request: CallRequest = self.begin_tm_res(c.call);
                proof {
                    lemma_frame_kept(q, *self, *g, *f);
                }
                Ok(Step::Call { request: request, then: After::Order { negate: c.negate } })
            },
            Err(e) => Err(e),
        }
    }

    /// Runs a test.
    pub fn exec_test(&mut self, g: &GlobalState, f: &mut Frame, i: Instruction) -> (r: Result<Step, LuaError>)
        requires
            at_instr(*old(self), *g, *old(f), i),
            is_test(spec_op(i.word())),
            test_ok(*old(self), *g, *old(f), i),
        ensures
            frame_ok(*final(self), *g, *final(f)),
            test_done(*old(self), *g, *old(f), i, *final(self), *final(f), r),
    {
        if let Some(cond) = self.quick_test(g, f, i) {
            self.do_branch(g, f, i, cond, false);
            return Ok(Step::Next);
        }
        if i.opcode() != OpCode::Eq {
            return self.exec_order(g, f, i);
        }
        let a: LuaValue = self.reg_value(g, f, i.arg_a() as u32);
        let b: LuaValue = self.reg_value(g, f, i.arg_b() as u32);
        self.protect(g, f, f.pc + 1);
        let ghost p = *self;
        match g.equal_obj(a, b) {
            EqOutcome::Known(cond) => {
                self.do_branch(g, f, i, cond, true);
                Ok(Step::Next)
            },
            EqOutcome::Call(c) => {
                f.pc = f.pc + 1;
                let request: CallRequest = self.begin_tm_bool(c);
                proof {
                    lemma_frame_kept(p, *self, *g, *f);
                    assert(protected(*old(self), *old(f), old(f).pc + 1, p));
                }
                Ok(Step::Call { request: request, then: After::Equal })
            },
        }
    }

    /// Runs the test that copies its operand where it jumps.
    pub fn exec_testset(&mut self, g: &GlobalState, f: &mut Frame, i: Instruction) -> (r: Step)
        requires
            at_instr(*old(self), *g, *old(f), i),
            testset_ok(*old(self), *g, *old(f), i),
        ensures
            frame_ok(*final(self), *g, *final(f)),
            testset_done(*old(self), *g, *old(f), i, *final(self), *final(f), r),
    {
        let v: LuaValue = self.reg_value(g, f, i.arg_b() as u32);
        let truth: bool = !v.is_falsy();
        if truth == i.test_k() {
            self.set_reg(g, f, i.arg_a() as u32, v);
        }
        self.do_branch(g, f, i, truth, false);
        Step::Next
    }

    /// Finishes a comparison by order after its call. `f` is past the test.
    pub fn finish_order(&mut self, g: &GlobalState, f: &mut Frame, negate: bool)
        requires
            frame_ok(*old(self), *g, *old(f)),
            0 < old(f).pc,
            is_cond_jump(*g, (Frame { pc: (old(f).pc - 1) as u32, ..*old(f) })),
            0 < old(self).top.0,
        ensures
            frame_ok(*final(self), *g, *final(f)),
            ({
                let at = Frame { pc: (old(f).pc - 1) as u32, ..*old(f) };
                let v = old(self).stack@[old(self).top.0 - 1];
                &&& *final(f) == branch(
                    *old(self),
                    *g,
                    at,
                    code_at(*g, at, at.pc as int),
                    v.spec_is_falsy() == negate,
                    true,
                )
                &&& *final(self) == (LuaState {
                    top: StackIdx((old(self).top.0 - 1) as u32),
                    call_info: final(self).call_info,
                    ..*old(self)
                })
                &&& final(self).call_info@ == (if negate {
                    old(self).call_info@.update(
                        old(self).ci.0 as int,
                        crate::callinfo::CallInfo {
                            callstatus: old(self).cur().callstatus & !crate::callinfo::CIST_LEQ,
                            ..old(self).cur()
                        },
                    )
                } else {
                    old(self).call_info@
                })
            }),
    {
        let cond: bool = self.finish_order_tm(negate);
        proof {
            crate::callinfo::law_leq_mark(old(self).cur().callstatus);
            lemma_frame_kept(*old(self), *self, *g, *f);
        }
        f.pc = f.pc - 1;
        let i: Instruction = self.proto_code(g, f, f.pc);
        self.do_branch(g, f, i, cond, true);
    }

    /// Finishes a comparison for equality after its call. `f` is past the test.
    pub fn finish_equal(&mut self, g: &GlobalState, f: &mut Frame)
        requires
            frame_ok(*old(self), *g, *old(f)),
            0 < old(f).pc,
            is_cond_jump(*g, (Frame { pc: (old(f).pc - 1) as u32, ..*old(f) })),
            2 <= old(self).top.0,
        ensures
            frame_ok(*final(self), *g, *final(f)),
            ({
                let at = Frame { pc: (old(f).pc - 1) as u32, ..*old(f) };
                let v = old(self).stack@[old(self).top.0 - 1];
                &&& *final(f) == branch(
                    *old(self),
                    *g,
                    at,
                    code_at(*g, at, at.pc as int),
                    !v.spec_is_falsy(),
                    true,
                )
                &&& *final(self) == (LuaState {
                    stack: final(self).stack,
                    top: StackIdx((old(self).top.0 - 2) as u32),
                    ..*old(self)
                })
                &&& final(self).stack@ == old(self).stack@.update(old(self).top.0 - 2, v)
            }),
    {
        let cond: bool = self.finish_tm_bool();
        proof {
            lemma_frame_kept(*old(self), *self, *g, *f);
        }
        f.pc = f.pc - 1;
        let i: Instruction = self.proto_code(g, f, f.pc);
        self.do_branch(g, f, i, cond, true);
    }
}

/// What a comparison by order comes to: it is decided, or a handler decides it.
#[derive(Debug, Clone, Copy, PartialEq, Eq, Structural)]
pub enum OrderOutcome {
    Known(bool),
    Call(OrderCall),
}

/// What comparing two values by order does: numbers and strings are compared, and of
/// other values a handler is asked, if there is one.
pub open spec fn compared(
    s: LuaState,
    g: GlobalState,
    a: LuaValue,
    b: LuaValue,
    event: TagMethod,
    t: LuaState,
    r: Result<OrderOutcome, LuaError>,
) -> bool {
    match raw_order(g, a, b, event) {
        Some(x) => t == s && r == Ok::<OrderOutcome, LuaError>(OrderOutcome::Known(x)),
        None => {
            &&& s.order_marked(g, event, g.order_plan(a, b, event), t)
            &&& r == (match g.order_plan(a, b, event) {
                Some(c) => Ok::<OrderOutcome, LuaError>(OrderOutcome::Call(c)),
                None => Err(LuaError::OrderError { left: a, right: b }),
            })
        },
    }
}

impl LuaState {
    /// Compares two values: `l < r`.
    pub fn less_than(&mut self, g: &GlobalState, l: LuaValue, r: LuaValue) -> (o: Result<OrderOutcome, LuaError>)
        requires
            g.can_look(l),
            g.can_look(r),
            old(self).ci.0 < old(self).call_info@.len(),
        ensures
            compared(*old(self), *g, l, r, TagMethod::Lt, *final(self), o),
    {
        match less_than_raw(&g.heap, &l, &r) {
            Some(b) => Ok(OrderOutcome::Known(b)),
            None => match self.call_order_tm(g, l, r, TagMethod::Lt) {
                Ok(c) => Ok(OrderOutcome::Call(c)),
                Err(e) => Err(e),
            },
        }
    }

    /// Compares two values: `l <= r`.
    pub fn less_equal(&mut self, g: &GlobalState, l: LuaValue, r: LuaValue) -> (o: Result<OrderOutcome, LuaError>)
        requires
            g.can_look(l),
            g.can_look(r),
            old(self).ci.0 < old(self).call_info@.len(),
        ensures
            compared(*old(self), *g, l, r, TagMethod::Le, *final(self), o),
    {
        match less_equal_raw(&g.heap, &l, &r) {
            Some(b) => Ok(OrderOutcome::Known(b)),
            None => match self.call_order_tm(g, l, r, TagMethod::Le) {
                Ok(c) => Ok(OrderOutcome::Call(c)),
                Err(e) => Err(e),
            },
        }
    }
}

} // verus!
