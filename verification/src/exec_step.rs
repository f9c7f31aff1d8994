//! One instruction, and runs of instructions.

use vstd::prelude::*;
use crate::exec::Frame;
use crate::exec::Step;
use crate::exec::at_instr;
use crate::exec::code_at;
use crate::exec::frame_ok;
use crate::exec::is_cond_jump;
use crate::exec::is_konst;
use crate::exec::is_reg;
use crate::exec::is_rk;
use crate::exec::is_target;
use crate::exec::is_upv;
use crate::exec::proto_of;
use crate::exec_calls::call_done;
use crate::exec_calls::call_ok;
use crate::exec_calls::concat_done;
use crate::exec_calls::concat_ok;
use crate::exec_calls::host_done;
use crate::exec_calls::host_ok;
use crate::exec_calls::return0_done;
use crate::exec_calls::return0_ok;
use crate::exec_calls::return1_done;
use crate::exec_calls::return1_ok;
use crate::exec_calls::return_done;
use crate::exec_calls::return_ok;
use crate::exec_calls::tailcall_done;
use crate::exec_calls::tailcall_ok;
use crate::exec_calls::varargprep_done;
use crate::exec_jumps::is_test;
use crate::exec_jumps::jmp_done;
use crate::exec_jumps::jmp_ok;
use crate::exec_jumps::test_done;
use crate::exec_jumps::test_ok;
use crate::exec_jumps::testset_done;
use crate::exec_jumps::testset_ok;
use crate::exec_loops::forloop_done;
use crate::exec_loops::forloop_ok;
use crate::exec_loops::forprep_done;
use crate::exec_loops::forprep_ok;
use crate::exec_loops::iter_call_ok;
use crate::exec_loops::iter_end_ok;
use crate::exec_loops::iterator_called;
use crate::exec_loops::tforcall_ok;
use crate::exec_loops::tforloop_done;
use crate::exec_loops::tforloop_ok;
use crate::exec_loops::tforprep_done;
use crate::exec_loops::tforprep_ok;
use crate::exec_regs::arith_done;
use crate::exec_regs::arith_ok;
use crate::exec_regs::is_arith;
use crate::exec_regs::is_load;
use crate::exec_regs::load_done;
use crate::exec_regs::load_ok;
use crate::exec_regs::loadnil_done;
use crate::exec_regs::loadnil_ok;
use crate::exec_regs::mm_ok;
use crate::exec_regs::mmbin_done;
use crate::exec_regs::unary_done;
use crate::exec_regs::unary_ok;
use crate::exec_tables::array_size;
use crate::exec_tables::get_done;
use crate::exec_tables::get_ok;
use crate::exec_tables::is_get;
use crate::exec_tables::is_set;
use crate::exec_tables::len_done;
use crate::exec_tables::len_ok;
use crate::exec_tables::newtable_done;
use crate::exec_tables::newtable_ok;
use crate::exec_tables::set_done;
use crate::exec_tables::set_ok;
use crate::exec_tables::setlist_done;
use crate::exec_tables::setlist_ok;
use crate::exec_tables::setupval_done;
use crate::exec_tables::setupval_ok;
use crate::global::GlobalState;
use crate::opcode::Instruction;
use crate::opcode::InstructionExt;
use crate::opcode::OpCode;
use crate::opcode::spec_k;
use crate::opcode::spec_op;
use crate::state::LuaState;
use crate::value::LuaError;
use crate::value::LuaValue;
use crate::value::ProtoId;

verus! {

/// Whether an instruction is an arithmetic fallback.
pub open spec fn is_mmbin(op: OpCode) -> bool {
    op == OpCode::MmBin || op == OpCode::MmBinI || op == OpCode::MmBinK
}

/// Whether an instruction can run: its operands exist and its jumps lead into the
/// code.
pub open spec fn instr_ok(s: LuaState, g: GlobalState, f: Frame, i: Instruction) -> bool {
    let op = spec_op(i.word());
    if is_load(op) {
        load_ok(s, g, f, i)
    } else if is_arith(op) {
        arith_ok(s, g, f, i)
    } else if is_mmbin(op) {
        mm_ok(s, g, f, i)
    } else if is_get(op) {
        get_ok(s, g, f, i)
    } else if is_set(op) {
        set_ok(s, g, f, i)
    } else if is_test(op) {
        test_ok(s, g, f, i)
    } else {
        match op {
            OpCode::LoadNil => loadnil_ok(s, g, f, i),
            OpCode::Unm | OpCode::BNot => unary_ok(s, g, f, i),
            OpCode::SetUpVal => setupval_ok(s, g, f, i),
            OpCode::NewTable => newtable_ok(s, g, f, i),
            OpCode::SetList => setlist_ok(s, g, f, i),
            OpCode::Len => len_ok(s, g, f, i),
            OpCode::Concat => concat_ok(s, g, f, i),
            OpCode::Jmp => jmp_ok(s, g, f, i),
            OpCode::TestSet => testset_ok(s, g, f, i),
            OpCode::Call => call_ok(s, g, f, i),
            OpCode::TailCall => tailcall_ok(s, g, f, i),
            OpCode::Return => return_ok(s, g, f, i),
            OpCode::Return0 => return0_ok(s, g, f, i),
            OpCode::Return1 => return1_ok(s, g, f, i),
            OpCode::ForLoop => forloop_ok(s, g, f, i),
            OpCode::ForPrep => forprep_ok(s, g, f, i),
            OpCode::TForPrep => tforprep_ok(s, g, f, i),
            OpCode::TForCall => tforcall_ok(s, g, f, i),
            OpCode::TForLoop => tforloop_ok(s, g, f, i),
            OpCode::VarArgPrep | OpCode::ExtraArg => true,
            _ => host_ok(s, g, f, i),
        }
    }
}

/// What an instruction does to its thread, the shared state and its frame, and what
/// it comes to.
pub open spec fn instr_done(
    s: LuaState,
    g: GlobalState,
    f: Frame,
    i: Instruction,
    s2: LuaState,
    g2: GlobalState,
    f2: Frame,
    r: Result<Step, LuaError>,
) -> bool {
    let op = spec_op(i.word());
    if is_set(op) {
        set_done(s, g, f, i, s2, g2, f2, r)
    } else if op == OpCode::Concat {
        concat_done(s, g, f, i, s2, g2, f2, r)
    } else if op == OpCode::SetUpVal {
        r matches Ok(t) && setupval_done(s, g, f, i, s2, g2, f2, t)
    } else if op == OpCode::NewTable {
        r matches Ok(t) && newtable_done(s, g, f, i, s2, g2, f2, t)
    } else if op == OpCode::SetList {
        r matches Ok(t) && setlist_done(s, g, f, i, s2, g2, f2, t)
    } else {
        &&& g2 == g
        &&& if is_arith(op) {
            arith_done(s, g, f, i, s2, f2, r)
        } else if is_get(op) {
            get_done(s, g, f, i, s2, f2, r)
        } else if is_test(op) {
            test_done(s, g, f, i, s2, f2, r)
        } else if op == OpCode::Len {
            len_done(s, g, f, i, s2, f2, r)
        } else {
            r matches Ok(t) && plain_done(s, g, f, i, s2, f2, t)
        }
    }
}

/// What an instruction does that raises no error and leaves the shared state alone.
pub open spec fn plain_done(
    s: LuaState,
    g: GlobalState,
    f: Frame,
    i: Instruction,
    s2: LuaState,
    f2: Frame,
    r: Step,
) -> bool {
    let op = spec_op(i.word());
    if is_load(op) {
        load_done(s, g, f, i, s2, f2) && r == Step::Next
    } else if is_mmbin(op) {
        mmbin_done(s, g, f, i, s2, f2, r)
    } else {
        match op {
            OpCode::LoadNil => loadnil_done(s, g, f, i, s2, f2) && r == Step::Next,
            OpCode::Unm | OpCode::BNot => unary_done(s, g, f, i, s2, f2, r),
            OpCode::Jmp => s2 == s && jmp_done(s, g, f, i, s2, f2, r),
            OpCode::TestSet => testset_done(s, g, f, i, s2, f2, r),
            OpCode::Call => call_done(s, g, f, i, s2, f2, r),
            OpCode::TailCall => tailcall_done(s, g, f, i, s2, f2, r),
            OpCode::Return => return_done(s, g, f, i, s2, f2, r),
            OpCode::Return0 => return0_done(s, g, f, i, s2, f2, r),
            OpCode::Return1 => return1_done(s, g, f, i, s2, f2, r),
            OpCode::ForLoop => forloop_done(s, g, f, i, s2, f2, r),
            OpCode::ForPrep => forprep_done(s, g, f, i, s2, f2, r),
            OpCode::TForPrep => tforprep_done(s, g, f, i, s2, f2, r),
            OpCode::TForCall => iterator_called(s, f, i, s2, f2, r),
            OpCode::TForLoop => tforloop_done(s, g, f, i, s2, f2, r),
            OpCode::VarArgPrep => varargprep_done(s, g, f, i, s2, f2, r),
            OpCode::ExtraArg => s2 == s && f2 == (Frame { pc: (f.pc + 1) as u32, ..f }) && r == Step::Next,
            _ => host_done(s, g, f, i, s2, f2, r),
        }
    }
}

/// Whether a frame goes on after what an instruction came to.
pub open spec fn goes_on(r: Result<Step, LuaError>) -> bool {
    match r {
        Ok(Step::Returned) => false,
        Ok(Step::Poscall { .. }) => false,
        Ok(_) => true,
        Err(_) => false,
    }
}

impl LuaState {
    /// Runs an instruction that raises no error and leaves the shared state alone.
    #[verifier::rlimit(60)]
    #[verifier::spinoff_prover]
    fn step_plain(&mut self, g: &GlobalState, f: &mut Frame, i: Instruction) -> (r: Step)
        requires
            at_instr(*old(self), *g, *old(f), i),
            instr_ok(*old(self), *g, *old(f), i),
            ({
                let op = spec_op(i.word());
                &&& !is_set(op) && !is_arith(op) && !is_get(op) && !is_test(op)
                &&& op != OpCode::Concat && op != OpCode::SetUpVal && op != OpCode::NewTable
                &&& op != OpCode::SetList && op != OpCode::Len
            }),
        ensures
            plain_done(*old(self), *g, *old(f), i, *final(self), *final(f), r),
            goes_on(Ok(r)) ==> frame_ok(*final(self), *g, *final(f)),
            final(self).wf(g.heap.sizes()),
    {
        match i.opcode() {
            OpCode::Move | OpCode::LoadI | OpCode::LoadF | OpCode::LoadK | OpCode::LoadKX => {
                self.exec_load(g, f, i);
                Step::Next
            },
            OpCode::LoadFalse | OpCode::LFalseSkip | OpCode::LoadTrue | OpCode::GetUpVal | OpCode::Not => {
                self.exec_load(g, f, i);
                Step::Next
            },
            OpCode::LoadNil => {
                self.exec_loadnil(g, f, i);
                Step::Next
            },
            OpCode::MmBin | OpCode::MmBinI | OpCode::MmBinK => self.exec_mmbin(g, f, i),
            OpCode::Unm | OpCode::BNot => self.exec_unary(g, f, i),
            OpCode::Jmp => self.exec_jmp(g, f, i),
            OpCode::TestSet => self.exec_testset(g, f, i),
            OpCode::Call => self.exec_call(g, f, i),
            OpCode::TailCall => self.exec_tailcall(g, f, i),
            OpCode::Return => self.exec_return(g, f, i),
            OpCode::Return0 => self.exec_return0(g, f, i),
            OpCode::Return1 => self.exec_return1(g, f, i),
            OpCode::ForLoop => self.exec_forloop(g, f, i),
            OpCode::ForPrep => self.exec_forprep(g, f, i),
            OpCode::TForPrep => self.exec_tforprep(g, f, i),
            OpCode::TForCall => self.exec_tforcall(g, f, i),
            OpCode::TForLoop => self.exec_tforloop(g, f, i),
            OpCode::VarArgPrep => self.exec_varargprep(g, f, i),
            OpCode::ExtraArg => {
                f.pc = f.pc + 1;
                Step::Next
            },
            _ => self.exec_host(g, f, i),
        }
    }

    /// Runs one instruction.
    #[verifier::rlimit(60)]
    #[verifier::spinoff_prover]
    pub fn step(&mut self, g: &mut GlobalState, f: &mut Frame, i: Instruction) -> (r: Result<Step, LuaError>)
        requires
            at_instr(*old(self), *old(g), *old(f), i),
            instr_ok(*old(self), *old(g), *old(f), i),
        ensures
            instr_done(*old(self), *old(g), *old(f), i, *final(self), *final(g), *final(f), r),
            goes_on(r) ==> frame_ok(*final(self), *final(g), *final(f)),
    {
        match i.opcode() {
            OpCode::SetTabUp | OpCode::SetTable | OpCode::SetI | OpCode::SetField => self.exec_set(g, f, i),
            OpCode::Concat => self.exec_concat(g, f, i),
            OpCode::SetUpVal => Ok(self.exec_setupval(g, f, i)),
            OpCode::NewTable => Ok(self.exec_newtable(g, f, i)),
            OpCode::SetList => Ok(self.exec_setlist(g, f, i)),
            OpCode::GetTabUp | OpCode::GetTable | OpCode::GetI | OpCode::GetField | OpCode::Self_ => self.exec_get(
                g,
                f,
                i,
            ),
            OpCode::Eq | OpCode::Lt | OpCode::Le | OpCode::EqK | OpCode::EqI => self.exec_test(g, f, i),
            OpCode::LtI | OpCode::LeI | OpCode::GtI | OpCode::GeI | OpCode::Test => self.exec_test(g, f, i),
            OpCode::Len => self.exec_len(g, f, i),
            OpCode::AddI | OpCode::AddK | OpCode::SubK | OpCode::MulK | OpCode::ModK => self.exec_arith(g, f, i),
            OpCode::PowK | OpCode::DivK | OpCode::IDivK | OpCode::BAndK | OpCode::BOrK => self.exec_arith(g, f, i),
            OpCode::BXOrK | OpCode::ShrI | OpCode::ShlI | OpCode::Add | OpCode::Sub => self.exec_arith(g, f, i),
            OpCode::Mul | OpCode::Mod | OpCode::Pow | OpCode::Div | OpCode::IDiv => self.exec_arith(g, f, i),
            OpCode::BAnd | OpCode::BOr | OpCode::BXOr | OpCode::Shl | OpCode::Shr => self.exec_arith(g, f, i),
            _ => Ok(self.step_plain(g, f, i)),
        }
    }
}

impl LuaState {
    fn has_reg(&self, g: &GlobalState, f: &Frame, x: u32) -> (r: bool)
        requires
            frame_ok(*self, *g, *f),
        ensures
            r == is_reg(*self, *f, x as int),
    {
        if x >= 512 {
            return false;
        }
        let at: usize = (f.base.0 + x) as usize;
        at < self.stack.len()
    }

    fn has_konst(&self, g: &GlobalState, f: &Frame, x: usize) -> (r: bool)
        requires
            frame_ok(*self, *g, *f),
        ensures
            r == is_konst(*g, *f, x as int),
    {
        assert(g.heap.sizes().ok_lclosure(g.heap.lclosures.items@[f.cl.0 as int]));
        let p: ProtoId = g.heap.lclosures.items[f.cl.0].proto;
        x < g.heap.protos.items[p.0].k.len()
    }

    fn has_upv(&self, g: &GlobalState, f: &Frame, x: usize) -> (r: bool)
        requires
            frame_ok(*self, *g, *f),
        ensures
            r == is_upv(*g, *f, x as int),
    {
        x < g.heap.lclosures.items[f.cl.0].upvals.len()
    }

    fn code_len(&self, g: &GlobalState, f: &Frame) -> (r: i64)
        requires
            frame_ok(*self, *g, *f),
        ensures
            r == proto_of(*g, *f).code@.len(),
    {
        assert(g.heap.sizes().ok_lclosure(g.heap.lclosures.items@[f.cl.0 as int]));
        let p: ProtoId = g.heap.lclosures.items[f.cl.0].proto;
        g.heap.protos.items[p.0].code.len() as i64
    }

    fn has_target(&self, g: &GlobalState, f: &Frame, pc: i64) -> (r: bool)
        requires
            frame_ok(*self, *g, *f),
        ensures
            r == is_target(*g, *f, pc as int),
    {
        0 <= pc && pc <= self.code_len(g, f)
    }

    fn has_rk(&self, g: &GlobalState, f: &Frame, i: Instruction) -> (r: bool)
        requires
            frame_ok(*self, *g, *f),
        ensures
            r == is_rk(*self, *g, *f, i),
    {
        if i.test_k() {
            self.has_konst(g, f, i.arg_c() as usize)
        } else {
            self.has_reg(g, f, i.arg_c() as u32)
        }
    }

    fn has_jump(&self, g: &GlobalState, f: &Frame) -> (r: bool)
        requires
            frame_ok(*self, *g, *f),
        ensures
            r == is_cond_jump(*g, *f),
    {
        if f.pc as i64 + 1 >= self.code_len(g, f) {
            return false;
        }
        let next: Instruction = self.proto_code(g, f, f.pc + 1);
        self.has_target(g, f, f.pc as i64 + 2 + next.arg_s_j() as i64)
    }

    fn has_iter_end(&self, g: &GlobalState, f: &Frame, pc: i64) -> (r: bool)
        requires
            frame_ok(*self, *g, *f),
            0 <= pc <= u32::MAX,
        ensures
            r == iter_end_ok(*self, *g, *f, pc as int),
    {
        if pc >= self.code_len(g, f) {
            return false;
        }
        let i: Instruction = self.proto_code(g, f, pc as u32);
        let a: u32 = i.arg_a() as u32;
        i.opcode() == OpCode::TForLoop && self.has_reg(g, f, a) && self.has_reg(g, f, a + 4) && self.has_target(
            g,
            f,
            pc + 1 - i.arg_bx() as i64,
        )
    }

    fn has_iter_call(&self, g: &GlobalState, f: &Frame, pc: i64) -> (r: bool)
        requires
            frame_ok(*self, *g, *f),
            0 <= pc < u32::MAX,
        ensures
            r == iter_call_ok(*self, *g, *f, pc as int),
    {
        if pc >= self.code_len(g, f) {
            return false;
        }
        let i: Instruction = self.proto_code(g, f, pc as u32);
        let a: u32 = i.arg_a() as u32;
        i.opcode() == OpCode::TForCall && self.has_reg(g, f, a) && self.has_reg(g, f, a + 6) && self.has_iter_end(
            g,
            f,
            pc + 1,
        )
    }

    fn load_fits(&self, g: &GlobalState, f: &Frame, i: Instruction) -> (r: bool)
        requires
            at_instr(*self, *g, *f, i),
            is_load(spec_op(i.word())),
        ensures
            r == load_ok(*self, *g, *f, i),
    {
        let b: u32 = i.arg_b() as u32;
        let two: bool = f.pc as i64 + 2 <= self.code_len(g, f);
        self.has_reg(g, f, i.arg_a() as u32) && match i.opcode() {
            OpCode::Move | OpCode::Not => self.has_reg(g, f, b),
            OpCode::LoadK => self.has_konst(g, f, i.arg_bx() as usize),
            OpCode::LoadKX => {
                if two {
                    let extra: Instruction = self.proto_code(g, f, f.pc + 1);
                    self.has_konst(g, f, extra.arg_ax() as usize)
                } else {
                    false
                }
            },
            OpCode::LFalseSkip => two,
            OpCode::GetUpVal => self.has_upv(g, f, b as usize),
            _ => true,
        }
    }

    fn arith_fits(&self, g: &GlobalState, f: &Frame, i: Instruction) -> (r: bool)
        requires
            at_instr(*self, *g, *f, i),
            is_arith(spec_op(i.word())),
        ensures
            r == arith_ok(*self, *g, *f, i),
    {
        let c: u32 = i.arg_c() as u32;
        self.has_reg(g, f, i.arg_a() as u32) && self.has_reg(g, f, i.arg_b() as u32) && f.pc as i64 + 2
            <= self.code_len(g, f) && match i.opcode() {
            OpCode::AddI | OpCode::ShrI | OpCode::ShlI => true,
            OpCode::AddK | OpCode::SubK | OpCode::MulK | OpCode::ModK | OpCode::PowK => self.has_konst(
                g,
                f,
                c as usize,
            ),
            OpCode::DivK | OpCode::IDivK | OpCode::BAndK | OpCode::BOrK | OpCode::BXOrK => self.has_konst(
                g,
                f,
                c as usize,
            ),
            _ => self.has_reg(g, f, c),
        }
    }

    fn field_fits(&self, g: &GlobalState, f: &Frame, i: Instruction) -> (r: bool)
        requires
            at_instr(*self, *g, *f, i),
            is_get(spec_op(i.word())) || is_set(spec_op(i.word())),
        ensures
            is_get(spec_op(i.word())) ==> r == get_ok(*self, *g, *f, i),
            is_set(spec_op(i.word())) ==> r == set_ok(*self, *g, *f, i),
    {
        let a: u32 = i.arg_a() as u32;
        let b: u32 = i.arg_b() as u32;
        let c: u32 = i.arg_c() as u32;
        match i.opcode() {
            OpCode::GetTabUp => self.has_reg(g, f, a) && self.has_upv(g, f, b as usize) && self.has_konst(
                g,
                f,
                c as usize,
            ),
            OpCode::GetTable => self.has_reg(g, f, a) && self.has_reg(g, f, b) && self.has_reg(g, f, c),
            OpCode::GetI => self.has_reg(g, f, a) && self.has_reg(g, f, b),
            OpCode::GetField => self.has_reg(g, f, a) && self.has_reg(g, f, b) && self.has_konst(g, f, c as usize),
            OpCode::Self_ => self.has_reg(g, f, a) && self.has_reg(g, f, b) && self.has_rk(g, f, i)
                && self.has_reg(g, f, a + 1),
            OpCode::SetTabUp => self.has_rk(g, f, i) && self.has_upv(g, f, a as usize) && self.has_konst(
                g,
                f,
                b as usize,
            ),
            OpCode::SetTable => self.has_rk(g, f, i) && self.has_reg(g, f, a) && self.has_reg(g, f, b),
            OpCode::SetI => self.has_rk(g, f, i) && self.has_reg(g, f, a),
            _ => self.has_rk(g, f, i) && self.has_reg(g, f, a) && self.has_konst(g, f, b as usize),
        }
    }

    fn test_fits(&self, g: &GlobalState, f: &Frame, i: Instruction) -> (r: bool)
        requires
            at_instr(*self, *g, *f, i),
            is_test(spec_op(i.word())),
        ensures
            r == test_ok(*self, *g, *f, i),
    {
        let b: u32 = i.arg_b() as u32;
        self.has_reg(g, f, i.arg_a() as u32) && self.has_jump(g, f) && match i.opcode() {
            OpCode::Eq | OpCode::Lt | OpCode::Le => self.has_reg(g, f, b),
            OpCode::EqK => self.has_konst(g, f, b as usize),
            _ => true,
        }
    }

    fn array_size_of(&self, g: &GlobalState, f: &Frame, i: Instruction) -> (r: i64)
        requires
            at_instr(*self, *g, *f, i),
            spec_k(i.word()) != 0 ==> f.pc + 1 < proto_of(*g, *f).code@.len(),
        ensures
            r == array_size(*g, *f, i),
            0 <= r <= 0x3_0000_0000,
    {
        let mut n: i64 = i.arg_c() as i64;
        if i.test_k() {
            let extra: Instruction = self.proto_code(g, f, f.pc + 1);
            n = n + extra.arg_ax() as i64 * 256;
        }
        n
    }

    fn table_fits(&self, g: &GlobalState, f: &Frame, i: Instruction) -> (r: bool)
        requires
            at_instr(*self, *g, *f, i),
            spec_op(i.word()) == OpCode::NewTable || spec_op(i.word()) == OpCode::SetList,
        ensures
            r == instr_ok(*self, *g, *f, i),
    {
        let a: u32 = i.arg_a() as u32;
        let b: u32 = i.arg_b() as u32;
        let more: bool = f.pc as i64 + 1 < self.code_len(g, f);
        if !self.has_reg(g, f, a) {
            return false;
        }
        if i.opcode() == OpCode::NewTable {
            return more && b <= 31 && self.array_size_of(g, f, i) <= i32::MAX as i64;
        }
        let is_table: bool = match self.reg_value(g, f, a) {
            LuaValue::Table(_) => true,
            _ => false,
        };
        let ra: i64 = f.base.0 as i64 + a as i64;
        let n: i64 = if b == 0 {
            self.top.0 as i64 - ra - 1
        } else {
            b as i64
        };
        is_table && 0 <= n && ((ra + n) as u64) < self.stack.len() as u64 && (more || !i.test_k())
            && self.array_size_of(g, f, i) + n <= i32::MAX as i64
    }

    fn return_fits(&self, g: &GlobalState, f: &Frame, i: Instruction) -> (r: bool)
        requires
            at_instr(*self, *g, *f, i),
            spec_op(i.word()) == OpCode::TailCall || spec_op(i.word()) == OpCode::Return,
        ensures
            r == instr_ok(*self, *g, *f, i),
    {
        let a: u32 = i.arg_a() as u32;
        let b: u32 = i.arg_b() as u32;
        let c: i64 = i.arg_c() as i64;
        let ra: i64 = f.base.0 as i64 + a as i64;
        let delta: i64 = if c != 0 {
            self.ci_nextraargs(f.ci) as i64 + c
        } else {
            0
        };
        if !self.has_reg(g, f, a) {
            return false;
        }
        if i.opcode() == OpCode::TailCall {
            return delta <= i32::MAX as i64 && (b != 0 || ra <= self.top.0 as i64);
        }
        let n: i64 = if b == 0 {
            self.top.0 as i64 - ra
        } else {
            b as i64 - 1
        };
        0 <= n && n <= i32::MAX as i64 && delta <= f.base.0 as i64 - 1 && 0 <= delta
    }

    fn plain_fits(&self, g: &GlobalState, f: &Frame, i: Instruction) -> (r: bool)
        requires
            at_instr(*self, *g, *f, i),
            ({
                let op = spec_op(i.word());
                &&& !is_load(op) && !is_arith(op) && !is_get(op) && !is_set(op) && !is_test(op)
                &&& op != OpCode::NewTable && op != OpCode::SetList
                &&& op != OpCode::TailCall && op != OpCode::Return
            }),
        ensures
            r == instr_ok(*self, *g, *f, i),
    {
        let a: u32 = i.arg_a() as u32;
        let b: u32 = i.arg_b() as u32;
        let pc: i64 = f.pc as i64;
        let bx: i64 = i.arg_bx() as i64;
        let back: bool = self.call_info[f.ci.0 as usize].previous.is_some();
        match i.opcode() {
            OpCode::MmBin | OpCode::MmBinI | OpCode::MmBinK => {
                if f.pc == 0 {
                    return false;
                }
                let prev: Instruction = self.proto_code(g, f, f.pc - 1);
                self.has_reg(g, f, a) && self.has_reg(g, f, prev.arg_a() as u32) && match i.opcode() {
                    OpCode::MmBin => self.has_reg(g, f, b),
                    OpCode::MmBinK => self.has_konst(g, f, b as usize),
                    _ => true,
                }
            },
            OpCode::LoadNil => self.has_reg(g, f, a + b),
            OpCode::Unm | OpCode::BNot | OpCode::Len => self.has_reg(g, f, a) && self.has_reg(g, f, b),
            OpCode::SetUpVal => self.has_reg(g, f, a) && self.has_upv(g, f, b as usize),
            OpCode::Concat => self.has_reg(g, f, a) && 1 <= b,
            OpCode::Jmp => self.has_target(g, f, pc + 1 + i.arg_s_j() as i64),
            OpCode::TestSet => self.has_reg(g, f, a) && self.has_reg(g, f, b) && self.has_jump(g, f),
            OpCode::Call => self.has_reg(g, f, a),
            OpCode::Return0 => back,
            OpCode::Return1 => self.has_reg(g, f, a) && back,
            OpCode::ForLoop => self.has_reg(g, f, a) && self.has_reg(g, f, a + 3) && self.has_target(
                g,
                f,
                pc + 1 - bx,
            ),
            OpCode::ForPrep => self.has_reg(g, f, a) && self.has_reg(g, f, a + 3) && self.has_target(
                g,
                f,
                pc + 2 + bx,
            ),
            OpCode::TForPrep => self.has_reg(g, f, a + 3) && self.has_iter_call(g, f, pc + 1 + bx),
            OpCode::TForCall => self.has_iter_call(g, f, pc),
            OpCode::TForLoop => self.has_iter_end(g, f, pc),
            OpCode::VarArgPrep | OpCode::ExtraArg => true,
            OpCode::Close | OpCode::Tbc | OpCode::VarArg => self.has_reg(g, f, a),
            OpCode::Closure => {
                assert(g.heap.sizes().ok_lclosure(g.heap.lclosures.items@[f.cl.0 as int]));
                let p: ProtoId = g.heap.lclosures.items[f.cl.0].proto;
                self.has_reg(g, f, a) && (bx as usize) < g.heap.protos.items[p.0].p.len()
            },
            _ => false,
        }
    }

    /// Whether the instruction at hand can run.
    #[verifier::spinoff_prover]
    pub fn can_run(&self, g: &GlobalState, f: &Frame, i: Instruction) -> (r: bool)
        requires
            at_instr(*self, *g, *f, i),
        ensures
            r == instr_ok(*self, *g, *f, i),
    {
        match i.opcode() {
            OpCode::Move | OpCode::LoadI | OpCode::LoadF | OpCode::LoadK | OpCode::LoadKX => self.load_fits(g, f, i),
            OpCode::LoadFalse | OpCode::LFalseSkip | OpCode::LoadTrue | OpCode::GetUpVal => self.load_fits(g, f, i),
            OpCode::Not => self.load_fits(g, f, i),
            OpCode::AddI | OpCode::AddK | OpCode::SubK | OpCode::MulK | OpCode::ModK => self.arith_fits(g, f, i),
            OpCode::PowK | OpCode::DivK | OpCode::IDivK | OpCode::BAndK | OpCode::BOrK => self.arith_fits(g, f, i),
            OpCode::BXOrK | OpCode::ShrI | OpCode::ShlI | OpCode::Add | OpCode::Sub => self.arith_fits(g, f, i),
            OpCode::Mul | OpCode::Mod | OpCode::Pow | OpCode::Div | OpCode::IDiv => self.arith_fits(g, f, i),
            OpCode::BAnd | OpCode::BOr | OpCode::BXOr | OpCode::Shl | OpCode::Shr => self.arith_fits(g, f, i),
            OpCode::GetTabUp | OpCode::GetTable | OpCode::GetI | OpCode::GetField => self.field_fits(g, f, i),
            OpCode::Self_ | OpCode::SetTabUp | OpCode::SetTable | OpCode::SetI => self.field_fits(g, f, i),
            OpCode::SetField => self.field_fits(g, f, i),
            OpCode::Eq | OpCode::Lt | OpCode::Le | OpCode::EqK | OpCode::EqI => self.test_fits(g, f, i),
            OpCode::LtI | OpCode::LeI | OpCode::GtI | OpCode::GeI | OpCode::Test => self.test_fits(g, f, i),
            OpCode::NewTable | OpCode::SetList => self.table_fits(g, f, i),
            OpCode::TailCall | OpCode::Return => self.return_fits(g, f, i),
            _ => self.plain_fits(g, f, i),
        }
    }
}

/// Why a run of instructions ended.
pub enum RunStop {
    /// Hooks are due before the next instruction.
    Trap,
    /// There is no next instruction, or it cannot run.
    Stuck,
    /// As many instructions ran as were allowed.
    Spent,
    /// An instruction came to something that the host has to do, ended the frame or
    /// raised an error.
    Step(Result<Step, LuaError>),
}

/// A thread, the shared state and the frame that runs.
pub struct Machine {
    pub s: LuaState,
    pub g: GlobalState,
    pub f: Frame,
}

/// The instruction at which a machine stands.
pub open spec fn instr_at(m: Machine) -> Instruction {
    code_at(m.g, m.f, m.f.pc as int)
}

/// Whether a machine runs one instruction to its end and stands at the next one.
pub open spec fn runs_on(m: Machine, n: Machine) -> bool {
    &&& !m.f.trap
    &&& at_instr(m.s, m.g, m.f, instr_at(m))
    &&& instr_ok(m.s, m.g, m.f, instr_at(m))
    &&& instr_done(m.s, m.g, m.f, instr_at(m), n.s, n.g, n.f, Ok(Step::Next))
}

/// Whether machines follow each other by one instruction each.
pub open spec fn is_run(tr: Seq<Machine>) -> bool {
    &&& tr.len() > 0
    &&& forall|k: int| 0 <= k < tr.len() - 1 ==> #[trigger] runs_on(tr[k], tr[k + 1])
}

/// Whether a run from one machine to another ended for a reason. `tr` is the run up to
/// where it ended; one more instruction was run where it came to something.
pub open spec fn run_ended(tr: Seq<Machine>, budget: int, from: Machine, to: Machine, stop: RunStop) -> bool {
    &&& is_run(tr)
    &&& tr[0] == from
    &&& tr.len() <= budget + 1
    &&& match stop {
        RunStop::Trap => to == tr.last() && to.f.trap,
        RunStop::Spent => to == tr.last() && tr.len() == budget + 1,
        RunStop::Stuck => to == tr.last() && !to.f.trap && !(at_instr(to.s, to.g, to.f, instr_at(to)) && instr_ok(
            to.s,
            to.g,
            to.f,
            instr_at(to),
        )),
        RunStop::Step(r) => {
            let m = tr.last();
            &&& !m.f.trap
            &&& at_instr(m.s, m.g, m.f, instr_at(m))
            &&& instr_ok(m.s, m.g, m.f, instr_at(m))
            &&& instr_done(m.s, m.g, m.f, instr_at(m), to.s, to.g, to.f, r)
            &&& r != Ok::<Step, LuaError>(Step::Next)
        },
    }
}

impl LuaState {
    /// Runs instructions of a frame, at most `budget` of them, until one comes to
    /// something that the host has to do.
    #[verifier::rlimit(40)]
    #[verifier::spinoff_prover]
    pub fn execute(&mut self, g: &mut GlobalState, f: &mut Frame, budget: u64) -> (stop: RunStop)
        requires
            frame_ok(*old(self), *old(g), *old(f)),
        ensures
            stop matches RunStop::Step(r) && !goes_on(r) || frame_ok(*final(self), *final(g), *final(f)),
            exists|tr: Seq<Machine>| #[trigger]
                run_ended(
                    tr,
                    budget as int,
                    (Machine { s: *old(self), g: *old(g), f: *old(f) }),
                    (Machine { s: *final(self), g: *final(g), f: *final(f) }),
                    stop,
                ),
    {
        let ghost from = Machine { s: *self, g: *g, f: *f };
        let ghost mut tr = seq![from];
        let mut left: u64 = budget;
        loop
            invariant
                frame_ok(*self, *g, *f),
                is_run(tr),
                tr[0] == from,
                tr.last() == (Machine { s: *self, g: *g, f: *f }),
                tr.len() == budget - left + 1,
                left <= budget,
                from == (Machine { s: *old(self), g: *old(g), f: *old(f) }),
            decreases left,
        {
            let ghost m = Machine { s: *self, g: *g, f: *f };
            if f.trap {
                assert(run_ended(tr, budget as int, from, m, RunStop::Trap));
                return RunStop::Trap;
            }
            if left == 0 {
                assert(run_ended(tr, budget as int, from, m, RunStop::Spent));
                return RunStop::Spent;
            }
            if f.pc as i64 >= self.code_len(g, f) {
                assert(run_ended(tr, budget as int, from, m, RunStop::Stuck));
                return RunStop::Stuck;
            }
            let i: Instruction = self.proto_code(g, f, f.pc);
            if !self.can_run(g, f, i) {
                assert(run_ended(tr, budget as int, from, m, RunStop::Stuck));
                return RunStop::Stuck;
            }
            let r: Result<Step, LuaError> = self.step(g, f, i);
            let ghost n = Machine { s: *self, g: *g, f: *f };
            let next: bool = match &r {
                Ok(Step::Next) => true,
                _ => false,
            };
            if !next {
                assert(run_ended(tr, budget as int, from, n, RunStop::Step(r)));
                return RunStop::Step(r);
            }
            left = left - 1;
            proof {
                assert(runs_on(m, n));
                let longer = tr.push(n);
                assert forall|k: int| 0 <= k < longer.len() - 1 implies #[trigger] runs_on(
                    longer[k],
                    longer[k + 1],
                ) by {
                    if k < tr.len() - 1 {
                        assert(runs_on(tr[k], tr[k + 1]));
                    }
                }
                tr = longer;
            }
        }
    }
}

/// A run that used up its instructions, followed by a run from where it stopped, is one
/// run with the instructions of both: where a run is cut does not show.
pub proof fn law_runs_join(
    first: Seq<Machine>,
    a: int,
    from: Machine,
    mid: Machine,
    second: Seq<Machine>,
    b: int,
    to: Machine,
    stop: RunStop,
)
    requires
        run_ended(first, a, from, mid, RunStop::Spent),
        run_ended(second, b, mid, to, stop),
    ensures
        run_ended(first + second.skip(1), a + b, from, to, stop),
{
    let whole = first + second.skip(1);
    let n = first.len();
    assert(whole[0] == first[0]);
    assert(whole.last() == second.last());
    assert forall|i: int| 0 <= i < whole.len() - 1 implies #[trigger] runs_on(
        whole[i],
        whole[i + 1],
    ) by {
        if i + 1 < n {
            assert(runs_on(first[i], first[i + 1]));
        } else {
            let j = i - n + 1;
            assert(whole[i] == second[j]);
            assert(whole[i + 1] == second[j + 1]);
            assert(runs_on(second[j], second[j + 1]));
        }
    }
}

} // verus!
