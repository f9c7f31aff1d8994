//! Numeric and generic loops.

use vstd::prelude::*;
use crate::arith::intop_add;
use crate::arith::to_signed;
use crate::arith::to_unsigned;
use crate::arith::unsigned64;
use crate::arith::wrap64;
use crate::exec::After;
use crate::exec::Frame;
use crate::exec::Step;
use crate::exec::at_instr;
use crate::exec::code_at;
use crate::exec::frame_ok;
use crate::exec::is_reg;
use crate::exec::is_target;
use crate::exec::proto_of;
use crate::exec::protected;
use crate::exec::reg;
use crate::exec::traps;
use crate::exec_tables::lemma_frame_kept;
use crate::float::spec_flt_le;
use crate::float::spec_flt_lt;
use crate::forloop::ForNumerals;
use crate::forloop::ForStart;
use crate::forloop::float_for_continues;
use crate::forloop::for_start;
use crate::forloop::is_for_error;
use crate::forloop::spec_for_start;
use crate::global::GlobalState;
use crate::opcode::Instruction;
use crate::opcode::InstructionExt;
use crate::opcode::OpCode;
use crate::opcode::spec_a;
use crate::opcode::spec_bx;
use crate::opcode::spec_c;
use crate::opcode::spec_op;
use crate::state::LuaState;
use crate::tmcalls::CallRequest;
use crate::value::LuaError;
use crate::value::LuaValue;
use crate::value::StackIdx;

verus! {

/// Whether a loop's registers exist.
pub open spec fn loop_regs(s: LuaState, f: Frame, a: int) -> bool {
    is_reg(s, f, a) && is_reg(s, f, a + 3)
}

/// The stack with the control variables of a numeric loop set: the index, its copy
/// for the body, and what is left to count.
pub open spec fn loop_stack(s: Seq<LuaValue>, ra: int, index: LuaValue, left: LuaValue) -> Seq<LuaValue> {
    s.update(ra + 1, left).update(ra, index).update(ra + 3, index)
}

/// How often a loop over integers still runs.
pub open spec fn loop_left(v: LuaValue) -> int {
    match v {
        LuaValue::Int(c) => unsigned64(c as int),
        _ => 0,
    }
}

/// An index of a loop over integers.
pub open spec fn loop_index(v: LuaValue) -> int {
    match v {
        LuaValue::Int(x) => x as int,
        _ => 0,
    }
}

/// Where a loop goes back to, from the instruction at its end.
pub open spec fn loop_start(f: Frame, i: Instruction) -> int {
    f.pc + 1 - spec_bx(i.word())
}

/// Whether the end of a numeric loop can run.
pub open spec fn forloop_ok(s: LuaState, g: GlobalState, f: Frame, i: Instruction) -> bool {
    &&& spec_op(i.word()) == OpCode::ForLoop
    &&& loop_regs(s, f, spec_a(i.word()))
    &&& is_target(g, f, loop_start(f, i))
}

/// What the end of a numeric loop does.
pub open spec fn forloop_done(
    s: LuaState,
    g: GlobalState,
    f: Frame,
    i: Instruction,
    s2: LuaState,
    f2: Frame,
    r: Step,
) -> bool {
    &&& ({
        let a = spec_a(i.word());
        let index = reg(s, f, a);
        let left = reg(s, f, a + 1);
        let step = reg(s, f, a + 2);
        let out = Frame { pc: (f.pc + 1) as u32, trap: traps(s, f.ci), ..f };
        if step is Int {
            &&& r == Step::Next
            &&& if loop_left(left) > 0 {
                &&& s2 == (LuaState { stack: s2.stack, ..s })
                &&& s2.stack@ == loop_stack(
                    s.stack@,
                    f.base.0 + a,
                    LuaValue::Int(wrap64(loop_index(index) + step->Int_0) as i64),
                    LuaValue::Int(wrap64(loop_left(left) - 1) as i64),
                )
                &&& f2 == (Frame { pc: loop_start(f, i) as u32, ..out })
            } else {
                s2 == s && f2 == out
            }
        } else {
            &&& s2 == s
            &&& if step is Float && left is Float && index is Float {
                &&& f2 == (Frame { trap: f.trap, ..out })
                &&& r == Step::FloatLoop {
                    x: index->Float_0,
                    y: step->Float_0,
                    ra: StackIdx((f.base.0 + a) as u32),
                }
            } else {
                f2 == out && r == Step::Next
            }
        }
    })
}

/// Whether the start of a numeric loop can run.
pub open spec fn forprep_ok(s: LuaState, g: GlobalState, f: Frame, i: Instruction) -> bool {
    &&& spec_op(i.word()) == OpCode::ForPrep
    &&& loop_regs(s, f, spec_a(i.word()))
    &&& is_target(g, f, f.pc + 2 + spec_bx(i.word()))
}

/// What the start of a numeric loop does.
pub open spec fn forprep_done(
    s: LuaState,
    g: GlobalState,
    f: Frame,
    i: Instruction,
    s2: LuaState,
    f2: Frame,
    r: Step,
) -> bool {
    &&& protected(s, f, f.pc + 1, s2)
    &&& f2 == (Frame { pc: (f.pc + 1) as u32, ..f })
    &&& r == (Step::ForPrep {
        ra: StackIdx((f.base.0 + spec_a(i.word())) as u32),
        jump: (spec_bx(i.word()) + 1) as u32,
    })
}

impl LuaState {
    /// Runs the end of a numeric loop. The index is advanced while the count lasts; of a
    /// loop over floats the next index has to be computed first.
    pub fn exec_forloop(&mut self, g: &GlobalState, f: &mut Frame, i: Instruction) -> (r: Step)
        requires
            at_instr(*old(self), *g, *old(f), i),
            forloop_ok(*old(self), *g, *old(f), i),
        ensures
            frame_ok(*final(self), *g, *final(f)),
            forloop_done(*old(self), *g, *old(f), i, *final(self), *final(f), r),
    {
        let a: u32 = i.arg_a() as u32;
        let index: LuaValue = self.reg_value(g, f, a);
        let left: LuaValue = self.reg_value(g, f, a + 1);
        let step: LuaValue = self.reg_value(g, f, a + 2);
        if let LuaValue::Int(by) = step {
            let count: u64 = match left {
                LuaValue::Int(c) => to_unsigned(c),
                _ => 0,
            };
            f.trap = self.ci_trap(f.ci);
            if count > 0 {
                let at: i64 = match index {
                    LuaValue::Int(x) => x,
                    _ => 0,
                };
                let next: LuaValue = LuaValue::Int(intop_add(at, by));
                self.set_reg(g, f, a + 1, LuaValue::Int(to_signed(count - 1)));
                self.set_reg(g, f, a, next);
                self.set_reg(g, f, a + 3, next);
                f.pc = (f.pc as i64 + 1 - i.arg_bx() as i64) as u32;
            } else {
                f.pc = f.pc + 1;
            }
            return Step::Next;
        }
        f.pc = f.pc + 1;
        if let (LuaValue::Float(x), LuaValue::Float(_), LuaValue::Float(y)) = (index, left, step) {
            return Step::FloatLoop { x: x, y: y, ra: StackIdx(f.base.0 + a) };
        }
        f.trap = self.ci_trap(f.ci);
        Step::Next
    }

    /// Goes on with a loop over floats, given its next index. `f` is past the end of the
    /// loop.
    pub fn finish_float_loop(&mut self, g: &GlobalState, f: &mut Frame, idx: u64)
        requires
            frame_ok(*old(self), *g, *old(f)),
            0 < old(f).pc,
            ({
                let at = Frame { pc: (old(f).pc - 1) as u32, ..*old(f) };
                let i = code_at(*g, at, at.pc as int);
                &&& loop_regs(*old(self), *old(f), spec_a(i.word()))
                &&& is_target(*g, at, loop_start(at, i))
            }),
        ensures
            frame_ok(*final(self), *g, *final(f)),
            ({
                let at = Frame { pc: (old(f).pc - 1) as u32, ..*old(f) };
                let i = code_at(*g, at, at.pc as int);
                let a = spec_a(i.word());
                let limit = reg(*old(self), *old(f), a + 1);
                let step = reg(*old(self), *old(f), a + 2);
                let out = Frame { trap: traps(*old(self), old(f).ci), ..*old(f) };
                if limit is Float && step is Float && (if spec_flt_lt(0, step->Float_0) {
                    spec_flt_le(idx, limit->Float_0)
                } else {
                    spec_flt_le(limit->Float_0, idx)
                }) {
                    &&& *final(self) == (LuaState { stack: final(self).stack, ..*old(self) })
                    &&& final(self).stack@ == loop_stack(
                        old(self).stack@,
                        old(f).base.0 + a,
                        LuaValue::Float(idx),
                        limit,
                    )
                    &&& *final(f) == (Frame { pc: loop_start(at, i) as u32, ..out })
                } else {
                    *final(self) == *old(self) && *final(f) == out
                }
            }),
    {
        let i: Instruction = self.proto_code(g, f, f.pc - 1);
        let a: u32 = i.arg_a() as u32;
        let limit: LuaValue = self.reg_value(g, f, a + 1);
        let step: LuaValue = self.reg_value(g, f, a + 2);
        f.trap = self.ci_trap(f.ci);
        if let (LuaValue::Float(lim), LuaValue::Float(by)) = (limit, step) {
            if float_for_continues(idx, lim, by) {
                self.set_reg(g, f, a, LuaValue::Float(idx));
                self.set_reg(g, f, a + 3, LuaValue::Float(idx));
                f.pc = (f.pc as i64 - i.arg_bx() as i64) as u32;
                proof {
                    let ra = f.base.0 + a;
                    assert(old(self).stack@.update(ra + 1, limit) =~= old(self).stack@);
                }
            }
        }
    }

    /// Runs the start of a numeric loop, up to reading its operands as numerals.
    pub fn exec_forprep(&mut self, g: &GlobalState, f: &mut Frame, i: Instruction) -> (r: Step)
        requires
            at_instr(*old(self), *g, *old(f), i),
            forprep_ok(*old(self), *g, *old(f), i),
        ensures
            frame_ok(*final(self), *g, *final(f)),
            forprep_done(*old(self), *g, *old(f), i, *final(self), *final(f), r),
    {
        self.protect(g, f, f.pc + 1);
        f.pc = f.pc + 1;
        Step::ForPrep { ra: StackIdx(f.base.0 + i.arg_a() as u32), jump: i.arg_bx() as u32 + 1 }
    }

    /// Starts a numeric loop, given what strings among its operands spell, or passes
    /// over it.
    pub fn finish_forprep(&mut self, g: &GlobalState, f: &mut Frame, ra: StackIdx, jump: u32, n: ForNumerals) -> (r:
        Result<Step, LuaError>)
        requires
            frame_ok(*old(self), *g, *old(f)),
            old(f).base.0 <= ra.0,
            loop_regs(*old(self), *old(f), ra.0 - old(f).base.0),
            is_target(*g, *old(f), old(f).pc + jump),
        ensures
            frame_ok(*final(self), *g, *final(f)),
            ({
                let s = old(self).stack@;
                let init = s[ra.0 as int];
                let limit = s[ra.0 + 1];
                let step = s[ra.0 + 2];
                let ints = init is Int && step is Int;
                &&& *final(self) == (LuaState { stack: final(self).stack, ..*old(self) })
                &&& match spec_for_start(init, limit, step, n) {
                    Some(ForStart::Skip { control }) => {
                        &&& final(self).stack@ == (if ints {
                            s.update(ra.0 + 3, init)
                        } else {
                            s
                        })
                        &&& *final(f) == (Frame { pc: (old(f).pc + jump) as u32, ..*old(f) })
                        &&& r == Ok::<Step, LuaError>(Step::Next)
                    },
                    Some(ForStart::Ints { init: start, count, step: by }) => {
                        &&& final(self).stack@ == loop_stack(
                            s,
                            ra.0 as int,
                            init,
                            LuaValue::Int(wrap64(count as int) as i64),
                        )
                        &&& *final(f) == *old(f)
                        &&& r == Ok::<Step, LuaError>(Step::Next)
                    },
                    Some(ForStart::Floats { init: start, limit: end, step: by }) => {
                        &&& final(self).stack@ == loop_stack(
                            s.update(ra.0 + 2, LuaValue::Float(by)),
                            ra.0 as int,
                            LuaValue::Float(start),
                            LuaValue::Float(end),
                        )
                        &&& *final(f) == *old(f)
                        &&& r == Ok::<Step, LuaError>(Step::Next)
                    },
                    None => {
                        &&& final(self).stack@ == (if ints && step->Int_0 != 0 {
                            s.update(ra.0 + 3, init)
                        } else {
                            s
                        })
                        &&& *final(f) == *old(f)
                        &&& r matches Err(e) && is_for_error(e, init, limit, step, n)
                    },
                }
            }),
    {
        let a: u32 = ra.0 - f.base.0;
        let init: LuaValue = self.reg_value(g, f, a);
        let limit: LuaValue = self.reg_value(g, f, a + 1);
        let step: LuaValue = self.reg_value(g, f, a + 2);
        let ints: bool = match (init, step) {
            (LuaValue::Int(_), LuaValue::Int(s)) => s != 0,
            _ => false,
        };
        let ghost s = self.stack@;
        if ints {
            self.set_reg(g, f, a + 3, init);
        }
        match for_start(&init, &limit, &step, n) {
            Ok(ForStart::Skip { .. }) => {
                f.pc = f.pc + jump;
                Ok(Step::Next)
            },
            Ok(ForStart::Ints { init: _, count, step: _ }) => {
                self.set_reg(g, f, a + 1, LuaValue::Int(to_signed(count)));
                proof {
                    assert(self.stack@ =~= loop_stack(
                        s,
                        ra.0 as int,
                        init,
                        LuaValue::Int(wrap64(count as int) as i64),
                    ));
                }
                Ok(Step::Next)
            },
            Ok(ForStart::Floats { init: start, limit: end, step: by }) => {
                self.set_reg(g, f, a + 1, LuaValue::Float(end));
                self.set_reg(g, f, a + 2, LuaValue::Float(by));
                self.set_reg(g, f, a, LuaValue::Float(start));
                self.set_reg(g, f, a + 3, LuaValue::Float(start));
                proof {
                    assert(self.stack@ =~= loop_stack(
                        s.update(ra.0 + 2, LuaValue::Float(by)),
                        ra.0 as int,
                        LuaValue::Float(start),
                        LuaValue::Float(end),
                    ));
                }
                Ok(Step::Next)
            },
            Err(e) => Err(e),
        }
    }
}

/// Whether the end of a generic loop stands at a place and its registers exist.
pub open spec fn iter_end_ok(s: LuaState, g: GlobalState, f: Frame, pc: int) -> bool {
    let w = code_at(g, f, pc).word();
    &&& 0 <= pc < proto_of(g, f).code@.len()
    &&& spec_op(w) == OpCode::TForLoop
    &&& is_reg(s, f, spec_a(w)) && is_reg(s, f, spec_a(w) + 4)
    &&& is_target(g, f, pc + 1 - spec_bx(w))
}

/// Whether the call of an iterator stands at a place, with the end of the loop after
/// it, and its registers exist.
pub open spec fn iter_call_ok(s: LuaState, g: GlobalState, f: Frame, pc: int) -> bool {
    let w = code_at(g, f, pc).word();
    &&& 0 <= pc < proto_of(g, f).code@.len()
    &&& spec_op(w) == OpCode::TForCall
    &&& is_reg(s, f, spec_a(w)) && is_reg(s, f, spec_a(w) + 6)
    &&& iter_end_ok(s, g, f, pc + 1)
}

/// The stack with an iterator, its state and its control variable copied above a
/// generic loop's variables.
pub open spec fn iterator_stack(s: Seq<LuaValue>, ra: int) -> Seq<LuaValue> {
    s.update(ra + 4, s[ra]).update(ra + 5, s[ra + 1]).update(ra + 6, s[ra + 2])
}

/// Whether the start of a generic loop can run.
pub open spec fn tforprep_ok(s: LuaState, g: GlobalState, f: Frame, i: Instruction) -> bool {
    &&& spec_op(i.word()) == OpCode::TForPrep
    &&& is_reg(s, f, spec_a(i.word()) + 3)
    &&& iter_call_ok(s, g, f, f.pc + 1 + spec_bx(i.word()))
}

/// What the start of a generic loop does.
pub open spec fn tforprep_done(
    s: LuaState,
    g: GlobalState,
    f: Frame,
    i: Instruction,
    s2: LuaState,
    f2: Frame,
    r: Step,
) -> bool {
    &&& protected(s, f, f.pc + 1, s2)
    &&& f2 == (Frame { pc: (f.pc + 1) as u32, ..f })
    &&& r == (Step::TForPrep { level: StackIdx((f.base.0 + spec_a(i.word()) + 3) as u32) })
}

/// Whether the call of an iterator can run.
pub open spec fn tforcall_ok(s: LuaState, g: GlobalState, f: Frame, i: Instruction) -> bool {
    &&& spec_op(i.word()) == OpCode::TForCall
    &&& iter_call_ok(s, g, f, f.pc as int)
}

/// Whether the end of a generic loop can run.
pub open spec fn tforloop_ok(s: LuaState, g: GlobalState, f: Frame, i: Instruction) -> bool {
    &&& spec_op(i.word()) == OpCode::TForLoop
    &&& iter_end_ok(s, g, f, f.pc as int)
}

/// What the end of a generic loop does.
pub open spec fn tforloop_done(
    s: LuaState,
    g: GlobalState,
    f: Frame,
    i: Instruction,
    s2: LuaState,
    f2: Frame,
    r: Step,
) -> bool {
    &&& iterated(s, f, i, s2, f2)
    &&& r == Step::Next
}

impl LuaState {
    /// Runs the start of a generic loop: its closing value becomes to-be-closed.
    pub fn exec_tforprep(&mut self, g: &GlobalState, f: &mut Frame, i: Instruction) -> (r: Step)
        requires
            at_instr(*old(self), *g, *old(f), i),
            tforprep_ok(*old(self), *g, *old(f), i),
        ensures
            frame_ok(*final(self), *g, *final(f)),
            tforprep_done(*old(self), *g, *old(f), i, *final(self), *final(f), r),
    {
        self.protect(g, f, f.pc + 1);
        f.pc = f.pc + 1;
        Step::TForPrep { level: StackIdx(f.base.0 + i.arg_a() as u32 + 3) }
    }

    /// Enters a generic loop: goes to the call of its iterator and makes it. `f` is past
    /// the start of the loop.
    pub fn finish_tforprep(&mut self, g: &GlobalState, f: &mut Frame) -> (r: Step)
        requires
            frame_ok(*old(self), *g, *old(f)),
            0 < old(f).pc,
            iter_call_ok(*old(self), *g, *old(f), old(f).pc + spec_bx(code_at(*g, *old(f), old(f).pc - 1).word())),
        ensures
            frame_ok(*final(self), *g, *final(f)),
            ({
                let at = old(f).pc + spec_bx(code_at(*g, *old(f), old(f).pc - 1).word());
                iterator_called(
                    *old(self),
                    (Frame { pc: at as u32, ..*old(f) }),
                    code_at(*g, *old(f), at),
                    *final(self),
                    *final(f),
                    r,
                )
            }),
    {
        let i: Instruction = self.proto_code(g, f, f.pc - 1);
        f.pc = f.pc + i.arg_bx() as u32;
        let c: Instruction = self.proto_code(g, f, f.pc);
        self.call_iterator(g, f, c)
    }

    fn call_iterator(&mut self, g: &GlobalState, f: &mut Frame, i: Instruction) -> (r: Step)
        requires
            at_instr(*old(self), *g, *old(f), i),
            is_reg(*old(self), *old(f), spec_a(i.word())),
            is_reg(*old(self), *old(f), spec_a(i.word()) + 6),
        ensures
            frame_ok(*final(self), *g, *final(f)),
            iterator_called(*old(self), *old(f), i, *final(self), *final(f), r),
    {
        let a: u32 = i.arg_a() as u32;
        let ra: u32 = f.base.0 + a;
        let v0: LuaValue = self.reg_value(g, f, a);
        self.set_reg(g, f, a + 4, v0);
        let v1: LuaValue = self.reg_value(g, f, a + 1);
        self.set_reg(g, f, a + 5, v1);
        let v2: LuaValue = self.reg_value(g, f, a + 2);
        self.set_reg(g, f, a + 6, v2);
        let ghost m = *self;
        self.set_top(StackIdx(ra + 7));
        f.pc = f.pc + 1;
        self.set_ci_savedpc(f.ci, f.pc);
        proof {
            lemma_frame_kept(m, *self, *g, *f);
        }
        Step::Call {
            request: CallRequest { func: StackIdx(ra + 4), nresults: i.arg_c() as i32, yieldable: true },
            then: After::Iterate,
        }
    }

    /// Runs the call of a generic loop's iterator.
    pub fn exec_tforcall(&mut self, g: &GlobalState, f: &mut Frame, i: Instruction) -> (r: Step)
        requires
            at_instr(*old(self), *g, *old(f), i),
            tforcall_ok(*old(self), *g, *old(f), i),
        ensures
            frame_ok(*final(self), *g, *final(f)),
            iterator_called(*old(self), *old(f), i, *final(self), *final(f), r),
    {
        self.call_iterator(g, f, i)
    }

    /// Runs the end of a generic loop: it goes on while the iterator's first result is
    /// not `nil`, which becomes the control variable.
    pub fn exec_tforloop(&mut self, g: &GlobalState, f: &mut Frame, i: Instruction) -> (r: Step)
        requires
            at_instr(*old(self), *g, *old(f), i),
            tforloop_ok(*old(self), *g, *old(f), i),
        ensures
            frame_ok(*final(self), *g, *final(f)),
            tforloop_done(*old(self), *g, *old(f), i, *final(self), *final(f), r),
    {
        let a: u32 = i.arg_a() as u32;
        let v: LuaValue = self.reg_value(g, f, a + 4);
        if v != LuaValue::Nil {
            self.set_reg(g, f, a + 2, v);
            f.pc = (f.pc as i64 + 1 - i.arg_bx() as i64) as u32;
        } else {
            f.pc = f.pc + 1;
        }
        Step::Next
    }

    /// Goes on with a generic loop after the call of its iterator: the end of the loop
    /// follows at once.
    pub fn finish_iterate(&mut self, g: &GlobalState, f: &mut Frame)
        requires
            frame_ok(*old(self), *g, *old(f)),
            iter_end_ok(*old(self), *g, *old(f), old(f).pc as int),
        ensures
            frame_ok(*final(self), *g, *final(f)),
            iterated(
                *old(self),
                (Frame { trap: traps(*old(self), old(f).ci), ..*old(f) }),
                code_at(*g, *old(f), old(f).pc as int),
                *final(self),
                *final(f),
            ),
    {
        f.trap = self.ci_trap(f.ci);
        let i: Instruction = self.proto_code(g, f, f.pc);
        let _ = self.exec_tforloop(g, f, i);
    }
}

/// Whether the call of a generic loop's iterator was set up.
pub open spec fn iterator_called(s: LuaState, f: Frame, i: Instruction, s2: LuaState, f2: Frame, r: Step) -> bool {
    let ra = f.base.0 + spec_a(i.word());
    let c = s.frame(f.ci);
    &&& s2 == (LuaState {
        stack: s2.stack,
        top: StackIdx((ra + 7) as u32),
        call_info: s2.call_info,
        ..s
    })
    &&& s2.stack@ == iterator_stack(s.stack@, ra)
    &&& s2.call_info@ == s.call_info@.update(
        f.ci.0 as int,
        crate::callinfo::CallInfo {
            u: crate::callinfo::CallInfoFrame { savedpc: (f.pc + 1) as u32, ..c.u },
            ..c
        },
    )
    &&& f2 == (Frame { pc: (f.pc + 1) as u32, ..f })
    &&& r == Step::Call {
        request: CallRequest {
            func: StackIdx((ra + 4) as u32),
            nresults: spec_c(i.word()) as i32,
            yieldable: true,
        },
        then: After::Iterate,
    }
}

/// Whether the end of a generic loop did what it should.
pub open spec fn iterated(s: LuaState, f: Frame, i: Instruction, s2: LuaState, f2: Frame) -> bool {
    let a = spec_a(i.word());
    let v = reg(s, f, a + 4);
    if v != LuaValue::Nil {
        &&& crate::exec::reg_set(s, f, a + 2, v, s2)
        &&& f2 == (Frame { pc: loop_start(f, i) as u32, ..f })
    } else {
        s2 == s && f2 == (Frame { pc: (f.pc + 1) as u32, ..f })
    }
}

} // verus!
