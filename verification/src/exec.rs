//! The interpreter: frames, requests to the host, and what they share.

use vstd::prelude::*;
use vstd::string::StringSliceAdditionalSpecFns;
use crate::arith::number_value;
use crate::arith::spec_number_value;
use crate::callinfo::CIST_FRESH;
use crate::callinfo::CIST_TRAP;
use crate::callinfo::CallInfo;
use crate::callinfo::CallInfoFrame;
use crate::callinfo::has_flag;
use crate::global::GlobalState;
use crate::heap::LuaProto;
use crate::opcode::Instruction;
use crate::opcode::InstructionExt;
use crate::opcode::spec_c;
use crate::opcode::spec_k;
use crate::opcode::spec_sj;
use crate::state::LuaState;
use crate::tagmethods::TM_N;
use crate::tagmethods::TagMethod;
use crate::tmcalls::CallRequest;
use crate::upvals::upval_far_ok;
use crate::upvals::upval_near_ok;
use crate::upvals::upval_of;
use crate::value::CallInfoIdx;
use crate::value::LClosureId;
use crate::value::LuaError;
use crate::value::LuaValue;
use crate::value::ProtoId;
use crate::value::StackIdx;
use crate::value::TableId;
use crate::value::is_runtime_msg;
use crate::value::runtime_error;

verus! {

/// What the interpreter keeps of the frame that it runs: the closure, the first
/// register, the next instruction, and whether hooks are due.
#[derive(Debug, Clone, Copy, PartialEq, Eq, Structural)]
pub struct Frame {
    pub ci: CallInfoIdx,
    pub cl: LClosureId,
    pub base: StackIdx,
    pub pc: u32,
    pub trap: bool,
}

/// Arithmetic on doubles, which the host does.
#[derive(Debug, Clone, Copy, PartialEq, Eq, Structural)]
pub enum FloatOp {
    Add,
    Sub,
    Mul,
    Div,
    Pow,
    /// Division rounded down.
    FloorDiv,
    /// The remainder of division rounded down.
    FloorMod,
}

/// How a call that an instruction needs is finished.
#[derive(Debug, Clone, Copy, PartialEq, Eq, Structural)]
pub enum After {
    /// Nothing is left to do.
    Nothing,
    /// The result goes to a slot.
    Store(StackIdx),
    /// The truth of the result decides a jump. It counts negated where `negate` says so.
    Order { negate: bool },
    /// The truth of the result, which has a slot of its own, decides a jump.
    Equal,
    /// The result replaces the two top values, and `left` values are left to be joined.
    Concat { left: u32 },
    /// The results are those of an iterator, and the loop instruction follows.
    Iterate,
}

/// What an instruction comes to.
#[derive(Debug, Clone, Copy, PartialEq, Eq, Structural)]
pub enum Step {
    /// The instruction is done.
    Next,
    /// A double has to be computed and stored in a slot; then the instruction is done.
    Float { op: FloatOp, x: u64, y: u64, ra: StackIdx },
    /// As [`Step::Float`], for the next value of a loop over floats.
    FloatLoop { x: u64, y: u64, ra: StackIdx },
    /// A call has to be made, and then finished.
    Call { request: CallRequest, then: After },
    /// An operation on operands of the wrong type; strings among them have to be read
    /// as numerals first.
    Bin {
        p1: LuaValue,
        p1_idx: Option<StackIdx>,
        p2: LuaValue,
        p2_idx: Option<StackIdx>,
        event: TagMethod,
        res: StackIdx,
    },
    /// The operands of a numeric loop have to be read as numerals; the loop starts at
    /// `ra` and is left over `jump` instructions.
    ForPrep { ra: StackIdx, jump: u32 },
    /// The number in a slot has to be written as text before concatenation goes on.
    Text { at: StackIdx, left: u32 },
    /// The collector may run, with `top` where it is.
    GcCheck,
    /// A table was made: room for this many array and hash entries may be reserved, and
    /// the collector may run.
    NewTable { table: TableId, array: u32, hash: u32 },
    /// Open and to-be-closed variables from a slot on have to be closed.
    Close { level: StackIdx },
    /// A slot has to become to-be-closed.
    Tbc { level: StackIdx },
    /// A slot has to become to-be-closed, and then the generic loop is entered.
    TForPrep { level: StackIdx },
    /// A function has to be called from Lua.
    Precall { func: StackIdx, nresults: i32 },
    /// A function has to be called in the place of this one; open variables are closed
    /// first where `close` says so.
    TailCall { func: StackIdx, narg1: u32, delta: i32, close: bool },
    /// Variables have to be closed before the frame returns `n` values from `ra` on.
    CloseReturn { base: StackIdx, ra: StackIdx, n: u32, nparams1: u32 },
    /// The frame returns the `n` values below `top`. Hooks are due in the caller where
    /// `hooked` says so, or else where the frame traps.
    Poscall { n: u32, hooked: bool },
    /// The frame has returned.
    Returned,
    /// A closure has to be made; variables for the captured slots have to be found.
    Closure { child: ProtoId, ra: StackIdx },
    /// Extra arguments have to be copied to registers.
    VarArg { ra: StackIdx, wanted: i32 },
    /// Room has to be made for a vararg frame, and its extra arguments put below it.
    VarArgPrep { nfixparams: u8 },
}

/// The prototype of a frame's closure.
pub open spec fn proto_of(g: GlobalState, f: Frame) -> LuaProto {
    g.heap.protos.items@[g.heap.lclosures.items@[f.cl.0 as int].proto.0 as int]
}

/// The captured variables of a frame's closure are at hand.
pub open spec fn upvals_near(s: LuaState, g: GlobalState, cl: LClosureId) -> bool {
    forall|n: int|
        #![trigger upval_of(g, cl, n)]
        0 <= n < g.heap.lclosures.items@[cl.0 as int].upvals@.len() ==> upval_near_ok(
            s,
            g.heap.upvals.items@[upval_of(g, cl, n).0 as int],
        ) && upval_far_ok(g, g.heap.upvals.items@[upval_of(g, cl, n).0 as int])
}

/// Whether a frame is the current one of a thread and in order: it runs a Lua
/// closure, its registers are on the stack, and it is at an instruction or at the
/// end.
pub open spec fn frame_ok(s: LuaState, g: GlobalState, f: Frame) -> bool {
    &&& g.wf() && g.tmname@.len() == TM_N
    &&& s.wf(g.heap.sizes())
    &&& s.ci == f.ci
    &&& s.frame(f.ci).spec_is_lua()
    &&& f.cl.0 < g.heap.lclosures.items@.len()
    &&& f.base.0 == s.frame(f.ci).func.0 + 1
    &&& f.base.0 + proto_of(g, f).maxstacksize <= s.stack@.len()
    &&& f.base.0 <= 0x7fff_0000
    &&& s.frame(f.ci).top.0 <= 0x7fff_0000
    &&& f.pc <= proto_of(g, f).code@.len() <= 0x7fff_0000
    &&& upvals_near(s, g, f.cl)
}

/// Whether the next instruction of a frame in order is this one.
pub open spec fn at_instr(s: LuaState, g: GlobalState, f: Frame, i: Instruction) -> bool {
    &&& frame_ok(s, g, f)
    &&& f.pc < proto_of(g, f).code@.len()
    &&& proto_of(g, f).code@[f.pc as int] == i
}

/// Whether a register is on the stack. An operand, or the sum of two, is less than 512.
pub open spec fn is_reg(s: LuaState, f: Frame, x: int) -> bool {
    0 <= x < 512 && f.base.0 + x < s.stack@.len()
}

/// Whether a constant exists.
pub open spec fn is_konst(g: GlobalState, f: Frame, x: int) -> bool {
    0 <= x < proto_of(g, f).k@.len()
}

/// Whether a captured variable exists.
pub open spec fn is_upv(g: GlobalState, f: Frame, x: int) -> bool {
    0 <= x < g.heap.lclosures.items@[f.cl.0 as int].upvals@.len()
}

/// Whether an operand that is a constant or a register exists.
pub open spec fn is_rk(s: LuaState, g: GlobalState, f: Frame, i: Instruction) -> bool {
    if spec_k(i.word()) != 0 {
        is_konst(g, f, spec_c(i.word()))
    } else {
        is_reg(s, f, spec_c(i.word()))
    }
}

/// A register's value.
pub open spec fn reg(s: LuaState, f: Frame, x: int) -> LuaValue {
    s.stack@[f.base.0 + x]
}

/// A constant.
pub open spec fn konst(g: GlobalState, f: Frame, x: int) -> LuaValue {
    proto_of(g, f).k@[x]
}

/// The value of an operand that is a constant or a register.
pub open spec fn rk(s: LuaState, g: GlobalState, f: Frame, i: Instruction) -> LuaValue {
    if spec_k(i.word()) != 0 {
        konst(g, f, spec_c(i.word()))
    } else {
        reg(s, f, spec_c(i.word()))
    }
}

/// Another instruction of the frame's code.
pub open spec fn code_at(g: GlobalState, f: Frame, pc: int) -> Instruction {
    proto_of(g, f).code@[pc]
}

/// Whether a number is the place of an instruction or the end of the code.
pub open spec fn is_target(g: GlobalState, f: Frame, pc: int) -> bool {
    0 <= pc <= proto_of(g, f).code@.len()
}

/// Whether the conditional jump after a test is in order: a jump instruction follows,
/// and it leads into the code.
pub open spec fn is_cond_jump(g: GlobalState, f: Frame) -> bool {
    &&& f.pc + 1 < proto_of(g, f).code@.len()
    &&& is_target(g, f, f.pc + 2 + spec_sj(code_at(g, f, f.pc + 1).word()))
}

/// Whether one register was written and nothing else.
pub open spec fn reg_set(s: LuaState, f: Frame, x: int, v: LuaValue, t: LuaState) -> bool {
    &&& t == (LuaState { stack: t.stack, ..s })
    &&& t.stack@ == s.stack@.update(f.base.0 + x, v)
}

/// A thread before and after what a frame does before it may call: the instruction
/// counter is saved and `top` is raised to the end of the frame.
pub open spec fn protected(s: LuaState, f: Frame, pc: int, t: LuaState) -> bool {
    let c = s.frame(f.ci);
    &&& t == (LuaState { stack: t.stack, top: c.top, call_info: t.call_info, ..s })
    &&& t.call_info@ == s.call_info@.update(
        f.ci.0 as int,
        CallInfo { u: CallInfoFrame { savedpc: pc as u32, ..c.u }, ..c },
    )
    &&& t.stack@.len() == (if c.top.0 > s.stack@.len() {
        c.top.0 as nat
    } else {
        s.stack@.len()
    })
    &&& forall|i: int| #[trigger] t.at(i) == s.at(i)
}

/// Whether a frame traps.
pub open spec fn traps(s: LuaState, ci: CallInfoIdx) -> bool {
    has_flag(s.frame(ci).callstatus, CIST_TRAP)
}

/// Where a test leads: past the jump where it fails, along the jump where it holds.
pub open spec fn cond_target(g: GlobalState, f: Frame, holds: bool) -> int {
    if holds {
        f.pc + 2 + spec_sj(code_at(g, f, f.pc + 1).word())
    } else {
        f.pc + 2
    }
}

impl LuaState {
    /// A constant of the frame's closure.
    pub fn proto_const(&self, g: &GlobalState, f: &Frame, idx: usize) -> (v: LuaValue)
        requires
            frame_ok(*self, *g, *f),
            is_konst(*g, *f, idx as int),
        ensures
            v == konst(*g, *f, idx as int),
            g.heap.ok(v),
    {
        assert(g.heap.sizes().ok_lclosure(g.heap.lclosures.items@[f.cl.0 as int]));
        let p: ProtoId = g.heap.lclosures.items[f.cl.0].proto;
        assert(g.heap.sizes().ok_proto(g.heap.protos.items@[p.0 as int]));
        g.heap.protos.items[p.0].k[idx]
    }

    /// A constant of the frame's closure, if it is an integer.
    pub fn proto_const_int(&self, g: &GlobalState, f: &Frame, idx: usize) -> (r: Option<i64>)
        requires
            frame_ok(*self, *g, *f),
            is_konst(*g, *f, idx as int),
        ensures
            r == (match konst(*g, *f, idx as int) {
                LuaValue::Int(i) => Some(i),
                _ => None,
            }),
    {
        match self.proto_const(g, f, idx) {
            LuaValue::Int(i) => Some(i),
            _ => None,
        }
    }

    /// A constant of the frame's closure as a double, if it is a number.
    pub fn proto_const_num(&self, g: &GlobalState, f: &Frame, idx: usize) -> (r: Option<u64>)
        requires
            frame_ok(*self, *g, *f),
            is_konst(*g, *f, idx as int),
        ensures
            r == spec_number_value(konst(*g, *f, idx as int)),
    {
        number_value(&self.proto_const(g, f, idx))
    }

    /// An instruction of the frame's closure.
    pub fn proto_code(&self, g: &GlobalState, f: &Frame, pc: u32) -> (i: Instruction)
        requires
            frame_ok(*self, *g, *f),
            pc < proto_of(*g, *f).code@.len(),
        ensures
            i == code_at(*g, *f, pc as int),
    {
        assert(g.heap.sizes().ok_lclosure(g.heap.lclosures.items@[f.cl.0 as int]));
        let p: ProtoId = g.heap.lclosures.items[f.cl.0].proto;
        g.heap.protos.items[p.0].code[pc as usize]
    }

    /// The value of an operand that is a constant or a register.
    pub fn rk_value(&self, g: &GlobalState, f: &Frame, i: Instruction) -> (v: LuaValue)
        requires
            frame_ok(*self, *g, *f),
            is_rk(*self, *g, *f, i),
        ensures
            v == rk(*self, *g, *f, i),
            g.heap.ok(v),
    {
        if i.test_k() {
            self.proto_const(g, f, i.arg_c() as usize)
        } else {
            self.reg_value(g, f, i.arg_c() as u32)
        }
    }

    /// A register's value.
    pub fn reg_value(&self, g: &GlobalState, f: &Frame, x: u32) -> (v: LuaValue)
        requires
            frame_ok(*self, *g, *f),
            is_reg(*self, *f, x as int),
        ensures
            v == reg(*self, *f, x as int),
            g.heap.ok(v),
    {
        assert(g.heap.ok(self.stack@[f.base.0 + x]));
        self.stack[(f.base.0 + x) as usize]
    }

    /// Writes a register.
    pub fn set_reg(&mut self, g: &GlobalState, f: &Frame, x: u32, v: LuaValue)
        requires
            frame_ok(*old(self), *g, *f),
            is_reg(*old(self), *f, x as int),
            g.heap.ok(v),
        ensures
            frame_ok(*final(self), *g, *f),
            reg_set(*old(self), *f, x as int, v, *final(self)),
    {
        self.set_at(StackIdx(f.base.0 + x), v);
        proof {
            lemma_near_kept(*old(self), *self, *g, f.cl);
        }
    }

    /// Saves the instruction counter and raises `top` to the end of the frame.
    pub fn protect(&mut self, g: &GlobalState, f: &Frame, pc: u32)
        requires
            frame_ok(*old(self), *g, *f),
        ensures
            frame_ok(*final(self), *g, *f),
            protected(*old(self), *f, pc as int, *final(self)),
            traps(*final(self), f.ci) == traps(*old(self), f.ci),
    {
        self.set_ci_savedpc(f.ci, pc);
        let ghost mid = *self;
        let top: StackIdx = self.ci_top(f.ci);
        self.set_top(top);
        proof {
            lemma_near_kept(*old(self), *self, *g, f.cl);
            assert forall|i: int| #[trigger] self.at(i) == old(self).at(i) by {
                assert(mid.at(i) == old(self).at(i));
            }
        }
    }
}

/// Captured variables stay at hand while the stack does not shrink.
pub proof fn lemma_near_kept(s: LuaState, t: LuaState, g: GlobalState, cl: LClosureId)
    requires
        upvals_near(s, g, cl),
        t.cached_thread_id == s.cached_thread_id,
        t.stack@.len() >= s.stack@.len(),
    ensures
        upvals_near(t, g, cl),
{
}

impl LuaState {
    /// Enters a frame, or comes back to it, where it left off.
    pub fn enter_frame(&self, g: &GlobalState, ci: CallInfoIdx, trap: bool) -> (r: Result<Frame, LuaError>)
        requires
            ci.0 < self.call_info@.len(),
            self.closure_of(ci) is Some ==> self.frame(ci).spec_is_lua() && self.frame(ci).func.0 < u32::MAX,
        ensures
            match self.closure_of(ci) {
                Some(cl) => r == Ok::<Frame, LuaError>(
                    Frame {
                        ci: ci,
                        cl: cl,
                        base: StackIdx((self.frame(ci).func.0 + 1) as u32),
                        pc: self.frame(ci).u.savedpc,
                        trap: trap,
                    },
                ),
                None => r matches Err(e) && is_runtime_msg(
                    e,
                    "internal: execute called on non-Lua frame".spec_bytes(),
                ),
            },
    {
        match self.ci_lua_closure(ci) {
            Some(cl) => {
                let pc: u32 = self.ci_savedpc(ci);
                Ok(Frame { ci: ci, cl: cl, base: self.ci_base(ci), pc: pc, trap: trap })
            },
            None => Err(runtime_error("internal: execute called on non-Lua frame")),
        }
    }

    /// Whether hooks are due when a function starts.
    pub fn start_trap(&self) -> (r: bool)
        ensures
            r == (self.hookmask != 0),
    {
        self.hookmask != 0
    }

    /// The frame to go on with when a frame has returned: its caller, or none where the
    /// frame was entered by a fresh run of the interpreter.
    pub fn return_target(&self, ci: CallInfoIdx) -> (r: Option<CallInfoIdx>)
        requires
            ci.0 < self.call_info@.len(),
        ensures
            r == (if has_flag(self.frame(ci).callstatus, CIST_FRESH) {
                None
            } else {
                self.frame(ci).previous
            }),
    {
        if self.ci_is_fresh(ci) {
            None
        } else {
            self.ci_previous(ci)
        }
    }
}

} // verus!
