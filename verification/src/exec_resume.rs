//! Going on with a frame: after a call that an instruction needed, and after a yield
//! in the middle of one.

use vstd::prelude::*;
use crate::callinfo::CIST_LEQ;
use crate::callinfo::CallInfo;
use crate::callinfo::CallInfoFrame;
use crate::callinfo::has_flag;
use crate::exec::Frame;
use crate::exec::Step;
use crate::exec::code_at;
use crate::exec::frame_ok;
use crate::exec::is_reg;
use crate::exec_calls::join_done;
use crate::exec_calls::replaced;
use crate::exec_laws::lemma_op;
use crate::exec_tables::lemma_frame_kept;
use crate::global::GlobalState;
use crate::heap::heap_extends;
use crate::opcode::Instruction;
use crate::opcode::InstructionExt;
use crate::opcode::OpCode;
use crate::opcode::spec_a;
use crate::opcode::spec_k;
use crate::opcode::spec_op;
use crate::state::LuaState;
use crate::value::LuaError;
use crate::value::LuaValue;
use crate::value::StackIdx;

verus! {

/// Whether an instruction stores the result of its call in register A.
pub open spec fn stores_result(op: OpCode) -> bool {
    match op {
        OpCode::Unm | OpCode::BNot | OpCode::Len | OpCode::GetTabUp | OpCode::GetTable => true,
        OpCode::GetI | OpCode::GetField | OpCode::Self_ => true,
        _ => false,
    }
}

/// Whether an instruction decides a jump by the result of its call.
pub open spec fn decides_jump(op: OpCode) -> bool {
    op == OpCode::Eq || crate::exec_jumps::is_order(op)
}

/// Whether an instruction has nothing left to do after its call.
pub open spec fn needs_nothing(op: OpCode) -> bool {
    match op {
        OpCode::TForCall | OpCode::Call | OpCode::TailCall => true,
        OpCode::SetTabUp | OpCode::SetTable | OpCode::SetI | OpCode::SetField => true,
        _ => false,
    }
}

/// The slot of the register that an interrupted instruction stores its result in:
/// that of the instruction itself, or for a fallback that of the one before.
pub open spec fn result_reg(g: GlobalState, f: Frame) -> int {
    let i = code_at(g, f, f.pc - 1);
    if crate::exec_step::is_mmbin(spec_op(i.word())) {
        spec_a(code_at(g, f, f.pc - 2).word())
    } else {
        spec_a(i.word())
    }
}

/// Whether an interrupted instruction can be finished.
pub open spec fn resume_ok(s: LuaState, g: GlobalState, f: Frame) -> bool {
    let op = spec_op(code_at(g, f, f.pc - 1).word());
    &&& f.pc >= 1
    &&& s.frame(f.ci).u.savedpc == f.pc
    &&& if crate::exec_step::is_mmbin(op) {
        f.pc >= 2 && is_reg(s, f, result_reg(g, f)) && s.top.0 > 0
    } else if stores_result(op) {
        is_reg(s, f, result_reg(g, f)) && s.top.0 > 0
    } else if decides_jump(op) {
        s.top.0 > 0
    } else if op == OpCode::Concat {
        &&& f.base.0 + spec_a(code_at(g, f, f.pc - 1).word()) + 3 <= s.top.0
        &&& s.top.0 + 3 <= u32::MAX
    } else if op == OpCode::Return {
        0 <= f.base.0 + spec_a(code_at(g, f, f.pc - 1).word()) + s.frame(f.ci).u2.value <= 0x7fff_ffff
    } else {
        op == OpCode::Close || needs_nothing(op)
    }
}

/// A thread with the saved instruction counter of a frame changed.
pub open spec fn pc_moved(s: LuaState, f: Frame, by: int, t: LuaState) -> bool {
    let c = s.frame(f.ci);
    s.frame_set(f.ci, CallInfo { u: CallInfoFrame { savedpc: (c.u.savedpc + by) as u32, ..c.u }, ..c }, t)
}

/// Whether an interrupted instruction was finished.
pub open spec fn resumed(
    s: LuaState,
    g: GlobalState,
    f: Frame,
    s2: LuaState,
    g2: GlobalState,
    r: Result<Step, LuaError>,
) -> bool {
    let i = code_at(g, f, f.pc - 1);
    let op = spec_op(i.word());
    let c = s.frame(f.ci);
    let top = s.top.0 - 1;
    let popped = LuaState { top: StackIdx(top as u32), ..s };
    if op == OpCode::Concat {
        &&& exists|m: LuaState|
            {
                &&& #[trigger] replaced(s, m)
                &&& join_done(m, g, top - 1 - (f.base.0 + spec_a(i.word())), s2, g2, r)
            }
    } else {
        &&& g2 == g
        &&& r == Ok::<Step, LuaError>(Step::Next)
        &&& if crate::exec_step::is_mmbin(op) || stores_result(op) {
            &&& s2 == (LuaState { stack: s2.stack, ..popped })
            &&& s2.stack@ == s.stack@.update(f.base.0 + result_reg(g, f), s.stack@[top])
        } else if decides_jump(op) {
            let negate = has_flag(c.callstatus, CIST_LEQ);
            let res = s.stack@[top].spec_is_falsy() == negate;
            &&& s2 == (LuaState { call_info: s2.call_info, ..popped })
            &&& s2.call_info@ == s.call_info@.update(
                f.ci.0 as int,
                CallInfo {
                    callstatus: if negate {
                        c.callstatus & !CIST_LEQ
                    } else {
                        c.callstatus
                    },
                    u: CallInfoFrame {
                        savedpc: if res != (spec_k(i.word()) != 0) {
                            (c.u.savedpc + 1) as u32
                        } else {
                            c.u.savedpc
                        },
                        ..c.u
                    },
                    ..c
                },
            )
        } else if op == OpCode::Close {
            pc_moved(s, f, -1, s2)
        } else if op == OpCode::Return {
            let end = f.base.0 + spec_a(i.word()) + c.u2.value;
            &&& s2 == (LuaState {
                stack: s2.stack,
                top: StackIdx(end as u32),
                call_info: s2.call_info,
                ..s
            })
            &&& s2.call_info@ == s.call_info@.update(
                f.ci.0 as int,
                CallInfo { u: CallInfoFrame { savedpc: (c.u.savedpc - 1) as u32, ..c.u }, ..c },
            )
            &&& end <= s2.stack@.len()
            &&& forall|j: int| #[trigger] s2.at(j) == s.at(j)
        } else {
            s2 == s
        }
    }
}

impl LuaState {
    /// Finishes a comparison that a yield interrupted. A mark for a stand-in call is
    /// removed, and the result counts negated.
    fn finish_op_jump(&mut self, g: &GlobalState, f: &Frame, i: Instruction)
        requires
            frame_ok(*old(self), *g, *f),
            resume_ok(*old(self), *g, *f),
            i == code_at(*g, *f, f.pc - 1),
            decides_jump(spec_op(i.word())),
        ensures
            resumed(*old(self), *g, *f, *final(self), *g, Ok(Step::Next)),
            frame_ok(*final(self), *g, *f),
    {
        let at: usize = f.ci.0 as usize;
        let status: u16 = self.call_info[at].callstatus;
        let negate: bool = status & CIST_LEQ != 0;
        let ghost c = self.frame(f.ci);
        let v: LuaValue = self.pop();
        let res: bool = v.is_falsy() == negate;
        if negate {
            self.call_info[at].callstatus = status & !CIST_LEQ;
            assert(self.call_info@ =~= old(self).call_info@.update(
                at as int,
                CallInfo { callstatus: status & !CIST_LEQ, ..c },
            ));
        }
        proof {
            crate::callinfo::law_leq_mark(status);
        }
        if res != i.test_k() {
            self.set_ci_savedpc(f.ci, f.pc + 1);
        }
        proof {
            lemma_frame_kept(*old(self), *self, *g, *f);
            assert(self.call_info@ =~= old(self).call_info@.update(at as int, self.frame(f.ci)));
        }
    }

    /// Finishes the instruction of the current frame that a yield interrupted. A
    /// concatenation goes on, and may come to something again.
    #[verifier::rlimit(60)]
    #[verifier::spinoff_prover]
    pub fn finish_op(&mut self, g: &mut GlobalState, f: &Frame) -> (r: Result<Step, LuaError>)
        requires
            frame_ok(*old(self), *old(g), *f),
            resume_ok(*old(self), *old(g), *f),
        ensures
            resumed(*old(self), *old(g), *f, *final(self), *final(g), r),
            r is Ok ==> frame_ok(*final(self), *final(g), *f),
            heap_extends(old(g).heap, final(g).heap),
    {
        let i: Instruction = self.proto_code(g, f, f.pc - 1);
        match i.opcode() {
            OpCode::MmBin | OpCode::MmBinI | OpCode::MmBinK => {
                let prev: Instruction = self.proto_code(g, f, f.pc - 2);
                self.finish_tm_res(StackIdx(f.base.0 + prev.arg_a() as u32));
                proof {
                    lemma_frame_kept(*old(self), *self, *g, *f);
                }
                Ok(Step::Next)
            },
            OpCode::Unm | OpCode::BNot | OpCode::Len | OpCode::GetTabUp | OpCode::GetTable | OpCode::GetI
            | OpCode::GetField | OpCode::Self_ => {
                self.finish_tm_res(StackIdx(f.base.0 + i.arg_a() as u32));
                proof {
                    lemma_frame_kept(*old(self), *self, *g, *f);
                }
                Ok(Step::Next)
            },
            OpCode::Lt | OpCode::Le | OpCode::LtI | OpCode::LeI | OpCode::GtI | OpCode::GeI | OpCode::Eq => {
                self.finish_op_jump(g, f, i);
                Ok(Step::Next)
            },
            OpCode::Concat => {
                let left: u32 = self.top.0 - 1 - (f.base.0 + i.arg_a() as u32);
                self.finish_concat(g, f, left)
            },
            OpCode::Close => {
                self.set_ci_savedpc(f.ci, f.pc - 1);
                proof {
                    lemma_frame_kept(*old(self), *self, *g, *f);
                }
                Ok(Step::Next)
            },
            OpCode::Return => {
                let nres: i32 = self.ci_nres(f.ci);
                let end: u32 = (f.base.0 as i64 + i.arg_a() as i64 + nres as i64) as u32;
                self.set_ci_savedpc(f.ci, f.pc - 1);
                let ghost mid = *self;
                self.set_top(StackIdx(end));
                proof {
                    lemma_frame_kept(*old(self), *self, *g, *f);
                    assert forall|j: int| #[trigger] self.at(j) == old(self).at(j) by {
                        assert(mid.at(j) == old(self).at(j));
                    }
                }
                Ok(Step::Next)
            },
            _ => Ok(Step::Next),
        }
    }
}

/// A comparison that a yield interrupts comes out as one that is not interrupted: the
/// frame is marked exactly where the result counts negated.
pub proof fn law_standin_marked(
    p: LuaState,
    g: GlobalState,
    event: crate::tagmethods::TagMethod,
    c: crate::tmcalls::OrderCall,
    q: LuaState,
)
    requires
        p.ci.0 < p.call_info@.len(),
        !has_flag(p.cur().callstatus, CIST_LEQ),
        p.order_marked(g, event, Some(c), q),
    ensures
        has_flag(q.cur().callstatus, CIST_LEQ) == c.negate,
{
    crate::callinfo::law_leq_mark(p.cur().callstatus);
}

/// An operation that was interrupted by a call stores the result of the call in the register
/// that it writes: A, or A of the instruction before where it is a fallback. The result leaves
/// the top of the stack, and no other slot changes.
pub proof fn law_resumed_result(
    s: LuaState,
    g: GlobalState,
    f: Frame,
    s2: LuaState,
    g2: GlobalState,
    r: Result<Step, LuaError>,
    j: int,
)
    requires
        frame_ok(s, g, f),
        resume_ok(s, g, f),
        resumed(s, g, f, s2, g2, r),
        ({
            let op = code_at(g, f, f.pc - 1).0 % 128;
            (11 <= op <= 14 || op == 20 || op == 49 || op == 50 || op == 52) || 46 <= op <= 48
        }),
    ensures
        ({
            let op = code_at(g, f, f.pc - 1).0 % 128;
            let from = if 46 <= op <= 48 {
                code_at(g, f, f.pc - 2)
            } else {
                code_at(g, f, f.pc - 1)
            };
            let to = f.base.0 + (from.0 / 0x80) % 0x100;
            &&& r == Ok::<Step, LuaError>(Step::Next) && g2 == g
            &&& s2.stack@[to] == s.stack@[s.top.0 - 1]
            &&& s2.top.0 == s.top.0 - 1
            &&& 0 <= j < s.stack@.len() && j != to ==> s2.stack@[j] == s.stack@[j]
            &&& s2.stack@.len() == s.stack@.len()
        }),
{
    lemma_numbered(code_at(g, f, f.pc - 1));
}

/// The opcodes that the last law names.
proof fn lemma_numbered(i: Instruction)
    ensures
        i.0 % 128 == 11 ==> spec_op(i.word()) == OpCode::GetTabUp,
        i.0 % 128 == 12 ==> spec_op(i.word()) == OpCode::GetTable,
        i.0 % 128 == 13 ==> spec_op(i.word()) == OpCode::GetI,
        i.0 % 128 == 14 ==> spec_op(i.word()) == OpCode::GetField,
        i.0 % 128 == 20 ==> spec_op(i.word()) == OpCode::Self_,
        i.0 % 128 == 46 ==> spec_op(i.word()) == OpCode::MmBin,
        i.0 % 128 == 47 ==> spec_op(i.word()) == OpCode::MmBinI,
        i.0 % 128 == 48 ==> spec_op(i.word()) == OpCode::MmBinK,
        i.0 % 128 == 49 ==> spec_op(i.word()) == OpCode::Unm,
        i.0 % 128 == 50 ==> spec_op(i.word()) == OpCode::BNot,
        i.0 % 128 == 52 ==> spec_op(i.word()) == OpCode::Len,
        i.0 % 128 == 57 ==> spec_op(i.word()) == OpCode::Eq,
        i.0 % 128 == 58 ==> spec_op(i.word()) == OpCode::Lt,
        i.0 % 128 == 59 ==> spec_op(i.word()) == OpCode::Le,
{
    if i.0 % 128 == 11 {
        lemma_op(i, OpCode::GetTabUp);
    } else if i.0 % 128 == 12 {
        lemma_op(i, OpCode::GetTable);
    } else if i.0 % 128 == 13 {
        lemma_op(i, OpCode::GetI);
    } else if i.0 % 128 == 14 {
        lemma_op(i, OpCode::GetField);
    } else if i.0 % 128 == 20 {
        lemma_op(i, OpCode::Self_);
    } else if i.0 % 128 == 46 {
        lemma_op(i, OpCode::MmBin);
    } else if i.0 % 128 == 47 {
        lemma_op(i, OpCode::MmBinI);
    } else if i.0 % 128 == 48 {
        lemma_op(i, OpCode::MmBinK);
    } else if i.0 % 128 == 49 {
        lemma_op(i, OpCode::Unm);
    } else if i.0 % 128 == 50 {
        lemma_op(i, OpCode::BNot);
    } else if i.0 % 128 == 52 {
        lemma_op(i, OpCode::Len);
    } else if i.0 % 128 == 57 {
        lemma_op(i, OpCode::Eq);
    } else if i.0 % 128 == 58 {
        lemma_op(i, OpCode::Lt);
    } else if i.0 % 128 == 59 {
        lemma_op(i, OpCode::Le);
    }
}

/// A comparison that was interrupted by a call goes on by the truth of the result: to the jump
/// that follows where that is what `k` names, and past it otherwise. Where `<` stood in for
/// `<=` the result counts the other way round, and the mark of that is removed.
pub proof fn law_resumed_test(
    s: LuaState,
    g: GlobalState,
    f: Frame,
    s2: LuaState,
    g2: GlobalState,
    r: Result<Step, LuaError>,
)
    requires
        frame_ok(s, g, f),
        resume_ok(s, g, f),
        resumed(s, g, f, s2, g2, r),
        57 <= code_at(g, f, f.pc - 1).0 % 128 <= 59,
    ensures
        ({
            let v = s.stack@[s.top.0 - 1];
            let marked = has_flag(s.frame(f.ci).callstatus, CIST_LEQ);
            let truth = (v != LuaValue::Nil && v != LuaValue::Bool(false)) != marked;
            let k = (code_at(g, f, f.pc - 1).0 / 0x8000) % 2 == 1;
            &&& s2.frame(f.ci).u.savedpc == (if truth == k {
                f.pc as int
            } else {
                f.pc + 1
            })
            &&& s2.top.0 == s.top.0 - 1
            &&& s2.stack@ == s.stack@
        }),
{
    lemma_numbered(code_at(g, f, f.pc - 1));
}

} // verus!
