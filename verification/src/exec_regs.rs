//! Instructions on registers: loads, arithmetic, and what arithmetic falls back on.

use vstd::prelude::*;
use vstd::string::StringSliceAdditionalSpecFns;
use crate::arith::floor_div;
use crate::arith::floor_mod;
use crate::arith::idiv;
use crate::arith::imod;
use crate::arith::intop_add;
use crate::arith::intop_band;
use crate::arith::intop_bor;
use crate::arith::intop_bxor;
use crate::arith::intop_mul;
use crate::arith::intop_sub;
use crate::arith::number_value;
use crate::arith::shiftl;
use crate::arith::spec_number_value;
use crate::arith::spec_shiftl;
use crate::arith::spec_to_integer_ns;
use crate::arith::to_integer_ns;
use crate::arith::wrap64;
use crate::callinfo::CallInfo;
use crate::callinfo::CallInfoFrame;
use crate::exec::After;
use crate::exec::FloatOp;
use crate::exec::Frame;
use crate::exec::Step;
use crate::exec::at_instr;
use crate::exec::code_at;
use crate::exec::frame_ok;
use crate::exec::is_konst;
use crate::exec::is_reg;
use crate::exec::is_target;
use crate::exec::is_upv;
use crate::exec::konst;
use crate::exec::lemma_near_kept;
use crate::exec::protected;
use crate::exec::reg;
use crate::exec::reg_set;
use crate::exec::traps;
use crate::exec::upvals_near;
use crate::float::F2Imod;
use crate::float::float_of_int;
use crate::float::flt_eq;
use crate::float::flt_negate;
use crate::float::flt_negated;
use crate::float::int_to_float;
use crate::float::spec_flt_eq;
use crate::global::GlobalState;
use crate::opcode::Instruction;
use crate::opcode::InstructionExt;
use crate::opcode::OpCode;
use crate::opcode::spec_a;
use crate::opcode::spec_ax;
use crate::opcode::spec_b;
use crate::opcode::spec_bx;
use crate::opcode::spec_c;
use crate::opcode::spec_k;
use crate::opcode::spec_op;
use crate::state::LuaState;
use crate::tagmethods::TagMethod;
use crate::tagmethods::tagmethod_from_index;
use crate::tmcalls::BinOutcome;
use crate::tmcalls::bin_decided;
use crate::upvals::upval_of;
use crate::upvals::upval_value;
use crate::value::LuaError;
use crate::value::LuaValue;
use crate::value::StackIdx;
use crate::value::is_runtime_msg;

verus! {

/// Whether an instruction loads one register.
pub open spec fn is_load(op: OpCode) -> bool {
    match op {
        OpCode::Move | OpCode::LoadI | OpCode::LoadF | OpCode::LoadK | OpCode::LoadKX => true,
        OpCode::LoadFalse | OpCode::LFalseSkip | OpCode::LoadTrue | OpCode::GetUpVal | OpCode::Not => true,
        _ => false,
    }
}

/// How many instructions a load takes.
pub open spec fn load_len(op: OpCode) -> int {
    match op {
        OpCode::LoadKX | OpCode::LFalseSkip => 2,
        _ => 1,
    }
}

/// Whether the operands of a load exist.
pub open spec fn load_ok(s: LuaState, g: GlobalState, f: Frame, i: Instruction) -> bool {
    let w = i.word();
    &&& is_reg(s, f, spec_a(w))
    &&& is_target(g, f, f.pc + load_len(spec_op(w)))
    &&& match spec_op(w) {
        OpCode::Move | OpCode::Not => is_reg(s, f, spec_b(w)),
        OpCode::LoadK => is_konst(g, f, spec_bx(w)),
        OpCode::LoadKX => is_konst(g, f, spec_ax(code_at(g, f, f.pc + 1).word())),
        OpCode::GetUpVal => is_upv(g, f, spec_b(w)),
        _ => true,
    }
}

/// What a load loads.
pub open spec fn load_value(s: LuaState, g: GlobalState, f: Frame, i: Instruction) -> LuaValue {
    let w = i.word();
    match spec_op(w) {
        OpCode::Move => reg(s, f, spec_b(w)),
        OpCode::LoadI => LuaValue::Int((spec_bx(w) - 0xffff) as i64),
        OpCode::LoadF => LuaValue::Float(float_of_int((spec_bx(w) - 0xffff) as i64)),
        OpCode::LoadK => konst(g, f, spec_bx(w)),
        OpCode::LoadKX => konst(g, f, spec_ax(code_at(g, f, f.pc + 1).word())),
        OpCode::LoadTrue => LuaValue::Bool(true),
        OpCode::GetUpVal => upval_value(s, g, g.heap.upvals.items@[upval_of(g, f.cl, spec_b(w)).0 as int]),
        OpCode::Not => LuaValue::Bool(reg(s, f, spec_b(w)).spec_is_falsy()),
        _ => LuaValue::Bool(false),
    }
}

/// What a load does.
pub open spec fn load_done(
    s: LuaState,
    g: GlobalState,
    f: Frame,
    i: Instruction,
    s2: LuaState,
    f2: Frame,
) -> bool {
    &&& reg_set(
        s,
        f,
        spec_a(i.word()),
        load_value(s, g, f, i),
        s2,
    )
    &&& f2 == (Frame { pc: (f.pc + load_len(spec_op(i.word()))) as u32, ..f })
}

/// Whether the load of `nil` can run.
pub open spec fn loadnil_ok(s: LuaState, g: GlobalState, f: Frame, i: Instruction) -> bool {
    &&& is_reg(s, f, spec_a(i.word()) + spec_b(i.word()))
}

/// What the load of `nil` does.
pub open spec fn loadnil_done(
    s: LuaState,
    g: GlobalState,
    f: Frame,
    i: Instruction,
    s2: LuaState,
    f2: Frame,
) -> bool {
    &&& f2 == (Frame { pc: (f.pc + 1) as u32, ..f })
    &&& s2 == (LuaState { stack: s2.stack, ..s })
    &&& s2.stack@.len() == s.stack@.len()
    &&& forall|j: int|
        0 <= j < s.stack@.len() ==> #[trigger] s2.stack@[j] == (if f.base.0 + spec_a(
            i.word(),
        ) <= j <= f.base.0 + spec_a(i.word()) + spec_b(i.word()) {
            LuaValue::Nil
        } else {
            s.stack@[j]
        })
}

impl LuaState {
    /// Runs an instruction that loads one register.
    pub fn exec_load(&mut self, g: &GlobalState, f: &mut Frame, i: Instruction)
        requires
            at_instr(*old(self), *g, *old(f), i),
            is_load(spec_op(i.word())),
            load_ok(*old(self), *g, *old(f), i),
        ensures
            frame_ok(*final(self), *g, *final(f)),
            load_done(*old(self), *g, *old(f), i, *final(self), *final(f)),
    {
        let a: u32 = i.arg_a() as u32;
        let mut len: u32 = 1;
        let v: LuaValue = match i.opcode() {
            OpCode::Move => self.reg_value(g, f, i.arg_b() as u32),
            OpCode::LoadI => LuaValue::Int(i.arg_s_bx() as i64),
            OpCode::LoadF => LuaValue::Float(int_to_float(i.arg_s_bx() as i64)),
            OpCode::LoadK => self.proto_const(g, f, i.arg_bx() as usize),
            OpCode::LoadKX => {
                len = 2;
                let extra: Instruction = self.proto_code(g, f, f.pc + 1);
                self.proto_const(g, f, extra.arg_ax() as usize)
            },
            OpCode::LFalseSkip => {
                len = 2;
                LuaValue::Bool(false)
            },
            OpCode::LoadTrue => LuaValue::Bool(true),
            OpCode::GetUpVal => {
                let n: usize = i.arg_b() as usize;
                assert(upvals_near(*self, *g, f.cl));
                assert(crate::upvals::upval_near_ok(
                    *self,
                    g.heap.upvals.items@[upval_of(*g, f.cl, n as int).0 as int],
                ));
                self.upvalue_get(g, f.cl, n)
            },
            OpCode::Not => {
                let b: LuaValue = self.reg_value(g, f, i.arg_b() as u32);
                LuaValue::Bool(b.is_falsy())
            },
            _ => LuaValue::Bool(false),
        };
        self.set_reg(g, f, a, v);
        f.pc = f.pc + len;
    }

    /// Runs the instruction that clears registers.
    pub fn exec_loadnil(&mut self, g: &GlobalState, f: &mut Frame, i: Instruction)
        requires
            at_instr(*old(self), *g, *old(f), i),
            loadnil_ok(*old(self), *g, *old(f), i),
        ensures
            frame_ok(*final(self), *g, *final(f)),
            loadnil_done(*old(self), *g, *old(f), i, *final(self), *final(f)),
    {
        let a: u32 = i.arg_a() as u32;
        let b: u32 = i.arg_b() as u32;
        let mut k: u32 = 0;
        while k <= b
            invariant
                k <= b + 1,
                a == spec_a(i.word()),
                b == spec_b(i.word()),
                b < 256,
                *f == *old(f),
                frame_ok(*self, *g, *f),
                is_reg(*self, *f, a + b),
                *self == (LuaState { stack: self.stack, ..*old(self) }),
                self.stack@.len() == old(self).stack@.len(),
                forall|j: int|
                    0 <= j < self.stack@.len() ==> #[trigger] self.stack@[j] == (if f.base.0 + a <= j < f.base.0 + a
                        + k {
                        LuaValue::Nil
                    } else {
                        old(self).stack@[j]
                    }),
            decreases b + 1 - k,
        {
            self.set_reg(g, f, a + k, LuaValue::Nil);
            k = k + 1;
        }
        f.pc = f.pc + 1;
    }
}

/// A binary operation on numbers.
#[derive(Debug, Clone, Copy, PartialEq, Eq, Structural)]
pub enum ArithOp {
    Add,
    Sub,
    Mul,
    Mod,
    Pow,
    Div,
    IDiv,
    BAnd,
    BOr,
    BXor,
    Shl,
    Shr,
}

/// What an operation on two values comes to.
#[derive(Debug, Clone, Copy, PartialEq, Eq, Structural)]
pub enum ArithResult {
    /// An integer.
    Int(i64),
    /// A double, to be computed.
    Float { op: FloatOp, x: u64, y: u64 },
    /// An integer division by zero.
    ZeroDivide,
    /// The operands are not numbers, or not integers where those are needed.
    WrongType,
}

/// The bits of the double 2.
pub const FLT_TWO: u64 = 0x4000_0000_0000_0000;

/// The operation on doubles for an operation; squaring is multiplication.
pub open spec fn float_op(op: ArithOp, x: u64, y: u64) -> ArithResult {
    match op {
        ArithOp::Add => ArithResult::Float { op: FloatOp::Add, x: x, y: y },
        ArithOp::Sub => ArithResult::Float { op: FloatOp::Sub, x: x, y: y },
        ArithOp::Mul => ArithResult::Float { op: FloatOp::Mul, x: x, y: y },
        ArithOp::Mod => ArithResult::Float { op: FloatOp::FloorMod, x: x, y: y },
        ArithOp::IDiv => ArithResult::Float { op: FloatOp::FloorDiv, x: x, y: y },
        ArithOp::Div => ArithResult::Float { op: FloatOp::Div, x: x, y: y },
        _ => if spec_flt_eq(y, FLT_TWO) {
            ArithResult::Float { op: FloatOp::Mul, x: x, y: x }
        } else {
            ArithResult::Float { op: FloatOp::Pow, x: x, y: y }
        },
    }
}

/// The result of an operation on two integers, modulo 2^64.
pub open spec fn int_op(op: ArithOp, a: i64, b: i64) -> int {
    match op {
        ArithOp::Add => wrap64(a + b),
        ArithOp::Sub => wrap64(a - b),
        ArithOp::Mul => wrap64(a * b),
        ArithOp::Mod => floor_mod(a as int, b as int),
        ArithOp::IDiv => wrap64(floor_div(a as int, b as int)),
        ArithOp::BAnd => (a & b) as int,
        ArithOp::BOr => (a | b) as int,
        ArithOp::BXor => (a ^ b) as int,
        ArithOp::Shl => spec_shiftl(a as int, b as int),
        _ => spec_shiftl(a as int, wrap64(-b)),
    }
}

/// Whether an operation works on the bits of integers.
pub open spec fn is_bitop(op: ArithOp) -> bool {
    op is BAnd || op is BOr || op is BXor || op is Shl || op is Shr
}

/// What an operation on two values comes to: bitwise operations take numbers with an
/// integer value, division and power are on doubles, and the others on integers where
/// both are, else on doubles.
pub open spec fn arith_result(op: ArithOp, v1: LuaValue, v2: LuaValue) -> ArithResult {
    if is_bitop(op) {
        match (spec_to_integer_ns(v1, F2Imod::Eq), spec_to_integer_ns(v2, F2Imod::Eq)) {
            (Some(a), Some(b)) => ArithResult::Int(int_op(op, a, b) as i64),
            _ => ArithResult::WrongType,
        }
    } else if v1 is Int && v2 is Int && !(op is Pow) && !(op is Div) {
        if (op is Mod || op is IDiv) && v2->Int_0 == 0 {
            ArithResult::ZeroDivide
        } else {
            ArithResult::Int(int_op(op, v1->Int_0, v2->Int_0) as i64)
        }
    } else {
        match (spec_number_value(v1), spec_number_value(v2)) {
            (Some(x), Some(y)) => float_op(op, x, y),
            _ => ArithResult::WrongType,
        }
    }
}

/// Does an operation on two values, as far as integers go.
pub fn arith_op(op: ArithOp, v1: &LuaValue, v2: &LuaValue) -> (r: ArithResult)
    ensures
        r == arith_result(op, *v1, *v2),
{
    match op {
        ArithOp::BAnd | ArithOp::BOr | ArithOp::BXor | ArithOp::Shl | ArithOp::Shr => {
            match (to_integer_ns(v1, F2Imod::Eq), to_integer_ns(v2, F2Imod::Eq)) {
                (Some(a), Some(b)) => ArithResult::Int(
                    match op {
                        ArithOp::BAnd => intop_band(a, b),
                        ArithOp::BOr => intop_bor(a, b),
                        ArithOp::BXor => intop_bxor(a, b),
                        ArithOp::Shl => shiftl(a, b),
                        _ => shiftl(a, intop_sub(0, b)),
                    },
                ),
                _ => ArithResult::WrongType,
            }
        },
        _ => {
            if let (LuaValue::Int(a), LuaValue::Int(b)) = (*v1, *v2) {
                match op {
                    ArithOp::Add => {
                        return ArithResult::Int(intop_add(a, b));
                    },
                    ArithOp::Sub => {
                        return ArithResult::Int(intop_sub(a, b));
                    },
                    ArithOp::Mul => {
                        return ArithResult::Int(intop_mul(a, b));
                    },
                    ArithOp::Mod => {
                        return match imod(a, b) {
                            Ok(v) => ArithResult::Int(v),
                            Err(_) => ArithResult::ZeroDivide,
                        };
                    },
                    ArithOp::IDiv => {
                        return match idiv(a, b) {
                            Ok(v) => ArithResult::Int(v),
                            Err(_) => ArithResult::ZeroDivide,
                        };
                    },
                    _ => {},
                }
            }
            match (number_value(v1), number_value(v2)) {
                (Some(x), Some(y)) => match op {
                    ArithOp::Add => ArithResult::Float { op: FloatOp::Add, x: x, y: y },
                    ArithOp::Sub => ArithResult::Float { op: FloatOp::Sub, x: x, y: y },
                    ArithOp::Mul => ArithResult::Float { op: FloatOp::Mul, x: x, y: y },
                    ArithOp::Mod => ArithResult::Float { op: FloatOp::FloorMod, x: x, y: y },
                    ArithOp::IDiv => ArithResult::Float { op: FloatOp::FloorDiv, x: x, y: y },
                    ArithOp::Div => ArithResult::Float { op: FloatOp::Div, x: x, y: y },
                    _ => if flt_eq(y, FLT_TWO) {
                        ArithResult::Float { op: FloatOp::Mul, x: x, y: x }
                    } else {
                        ArithResult::Float { op: FloatOp::Pow, x: x, y: y }
                    },
                },
                _ => ArithResult::WrongType,
            }
        },
    }
}

/// Whether an instruction is a binary operation on numbers.
pub open spec fn is_arith(op: OpCode) -> bool {
    arith_kind(op) is Some
}

/// The operation of an instruction.
pub open spec fn arith_kind(op: OpCode) -> Option<ArithOp> {
    match op {
        OpCode::AddI | OpCode::AddK | OpCode::Add => Some(ArithOp::Add),
        OpCode::SubK | OpCode::Sub => Some(ArithOp::Sub),
        OpCode::MulK | OpCode::Mul => Some(ArithOp::Mul),
        OpCode::ModK | OpCode::Mod => Some(ArithOp::Mod),
        OpCode::PowK | OpCode::Pow => Some(ArithOp::Pow),
        OpCode::DivK | OpCode::Div => Some(ArithOp::Div),
        OpCode::IDivK | OpCode::IDiv => Some(ArithOp::IDiv),
        OpCode::BAndK | OpCode::BAnd => Some(ArithOp::BAnd),
        OpCode::BOrK | OpCode::BOr => Some(ArithOp::BOr),
        OpCode::BXOrK | OpCode::BXOr => Some(ArithOp::BXor),
        OpCode::ShlI | OpCode::Shl => Some(ArithOp::Shl),
        OpCode::ShrI | OpCode::Shr => Some(ArithOp::Shr),
        _ => None,
    }
}

/// Whether the second operand of an operation is a constant.
pub open spec fn is_arith_k(op: OpCode) -> bool {
    match op {
        OpCode::AddK | OpCode::SubK | OpCode::MulK | OpCode::ModK | OpCode::PowK | OpCode::DivK => true,
        OpCode::IDivK | OpCode::BAndK | OpCode::BOrK | OpCode::BXOrK => true,
        _ => false,
    }
}

/// Whether an operand of an operation is a number in the instruction.
pub open spec fn is_arith_imm(op: OpCode) -> bool {
    op == OpCode::AddI || op == OpCode::ShlI || op == OpCode::ShrI
}

/// The operands of an operation.
pub open spec fn arith_operands(s: LuaState, g: GlobalState, f: Frame, i: Instruction) -> (LuaValue, LuaValue) {
    let w = i.word();
    let imm = LuaValue::Int((spec_c(w) - 0x7f) as i64);
    match spec_op(w) {
        OpCode::AddI | OpCode::ShrI => (reg(s, f, spec_b(w)), imm),
        OpCode::ShlI => (imm, reg(s, f, spec_b(w))),
        _ => (
            reg(s, f, spec_b(w)),
            if is_arith_k(spec_op(w)) {
                konst(g, f, spec_c(w))
            } else {
                reg(s, f, spec_c(w))
            },
        ),
    }
}

/// Whether the operands of an operation exist. A bitwise operation with a constant
/// has an integer for it.
pub open spec fn arith_ok(s: LuaState, g: GlobalState, f: Frame, i: Instruction) -> bool {
    let w = i.word();
    &&& is_reg(s, f, spec_a(w)) && is_reg(s, f, spec_b(w))
    &&& is_target(g, f, f.pc + 2)
    &&& if is_arith_k(spec_op(w)) {
        is_konst(g, f, spec_c(w))
    } else if is_arith_imm(spec_op(w)) {
        true
    } else {
        is_reg(s, f, spec_c(w))
    }
}

/// Whether an operation may divide by zero, so that the frame is made ready for an
/// error.
pub open spec fn may_divide(op: OpCode) -> bool {
    op == OpCode::Mod || op == OpCode::ModK || op == OpCode::IDiv || op == OpCode::IDivK
}

/// A thread before and after a frame was made ready and a register written.
pub open spec fn protected_set(s: LuaState, f: Frame, pc: int, x: int, v: LuaValue, t: LuaState) -> bool {
    let c = s.frame(f.ci);
    &&& t == (LuaState { stack: t.stack, top: c.top, call_info: t.call_info, ..s })
    &&& t.call_info@ == s.call_info@.update(
        f.ci.0 as int,
        CallInfo { u: CallInfoFrame { savedpc: pc as u32, ..c.u }, ..c },
    )
    &&& t.stack@.len() == (if c.top.0 > s.stack@.len() {
        c.top.0 as nat
    } else {
        s.stack@.len()
    })
    &&& forall|i: int| #[trigger]
        t.at(i) == (if i == f.base.0 + x {
            v
        } else {
            s.at(i)
        })
}

/// What an instruction computes. A bitwise operation with a constant takes integer
/// constants only.
pub open spec fn instr_result(op: OpCode, v1: LuaValue, v2: LuaValue) -> ArithResult {
    let kind = arith_kind(op)->0;
    if is_arith_k(op) && is_bitop(kind) && !(v2 is Int) {
        ArithResult::WrongType
    } else {
        arith_result(kind, v1, v2)
    }
}

/// What an operation does to thread and frame: an integer is stored and the fallback
/// instruction skipped; a double is left to be computed; a wrong type goes on to the
/// fallback.
pub open spec fn arith_done(
    s: LuaState,
    g: GlobalState,
    f: Frame,
    i: Instruction,
    t: LuaState,
    k: Frame,
    r: Result<Step, LuaError>,
) -> bool {
    let w = i.word();
    let op = spec_op(w);
    let (v1, v2) = arith_operands(s, g, f, i);
    let guarded = may_divide(op);
    match instr_result(op, v1, v2) {
        ArithResult::Int(v) => {
            &&& r == Ok::<Step, LuaError>(Step::Next)
            &&& k == (Frame { pc: (f.pc + 2) as u32, ..f })
            &&& if guarded {
                protected_set(s, f, f.pc + 1, spec_a(w), LuaValue::Int(v), t)
            } else {
                reg_set(s, f, spec_a(w), LuaValue::Int(v), t)
            }
        },
        ArithResult::Float { op: fop, x, y } => {
            &&& r == Ok::<Step, LuaError>(
                Step::Float {
                    op: fop,
                    x: x,
                    y: y,
                    ra: StackIdx((f.base.0 + spec_a(w)) as u32),
                },
            )
            &&& k == (Frame { pc: (f.pc + 2) as u32, ..f })
            &&& if guarded {
                protected(s, f, f.pc + 1, t)
            } else {
                t == s
            }
        },
        ArithResult::ZeroDivide => {
            &&& protected(s, f, f.pc + 1, t)
            &&& r matches Err(e) && is_runtime_msg(
                e,
                if op == OpCode::Mod || op == OpCode::ModK {
                    "attempt to perform 'n%0'".spec_bytes()
                } else {
                    "attempt to divide by zero".spec_bytes()
                },
            )
        },
        ArithResult::WrongType => {
            &&& r == Ok::<Step, LuaError>(Step::Next)
            &&& k == (Frame { pc: (f.pc + 1) as u32, ..f })
            &&& if guarded {
                protected(s, f, f.pc + 1, t)
            } else {
                t == s
            }
        },
    }
}

fn arith_of(op: OpCode) -> (r: ArithOp)
    requires
        is_arith(op),
    ensures
        arith_kind(op) == Some(r),
{
    match op {
        OpCode::AddI | OpCode::AddK | OpCode::Add => ArithOp::Add,
        OpCode::SubK | OpCode::Sub => ArithOp::Sub,
        OpCode::MulK | OpCode::Mul => ArithOp::Mul,
        OpCode::ModK | OpCode::Mod => ArithOp::Mod,
        OpCode::PowK | OpCode::Pow => ArithOp::Pow,
        OpCode::DivK | OpCode::Div => ArithOp::Div,
        OpCode::IDivK | OpCode::IDiv => ArithOp::IDiv,
        OpCode::BAndK | OpCode::BAnd => ArithOp::BAnd,
        OpCode::BOrK | OpCode::BOr => ArithOp::BOr,
        OpCode::BXOrK | OpCode::BXOr => ArithOp::BXor,
        OpCode::ShlI | OpCode::Shl => ArithOp::Shl,
        _ => ArithOp::Shr,
    }
}

impl LuaState {
    /// The operands of an operation.
    fn arith_values(&self, g: &GlobalState, f: &Frame, i: Instruction) -> (r: (LuaValue, LuaValue))
        requires
            at_instr(*self, *g, *f, i),
            is_arith(spec_op(i.word())),
            arith_ok(*self, *g, *f, i),
        ensures
            r == arith_operands(*self, *g, *f, i),
    {
        let b: LuaValue = self.reg_value(g, f, i.arg_b() as u32);
        match i.opcode() {
            OpCode::AddI | OpCode::ShrI => (b, LuaValue::Int(i.arg_s_c() as i64)),
            OpCode::ShlI => (LuaValue::Int(i.arg_s_c() as i64), b),
            OpCode::AddK | OpCode::SubK | OpCode::MulK | OpCode::ModK | OpCode::PowK => (
                b,
                self.proto_const(g, f, i.arg_c() as usize),
            ),
            OpCode::DivK | OpCode::IDivK | OpCode::BAndK | OpCode::BOrK | OpCode::BXOrK => (
                b,
                self.proto_const(g, f, i.arg_c() as usize),
            ),
            _ => (b, self.reg_value(g, f, i.arg_c() as u32)),
        }
    }

    /// Runs a binary operation on numbers.
    pub fn exec_arith(&mut self, g: &GlobalState, f: &mut Frame, i: Instruction) -> (r: Result<Step, LuaError>)
        requires
            at_instr(*old(self), *g, *old(f), i),
            is_arith(spec_op(i.word())),
            arith_ok(*old(self), *g, *old(f), i),
        ensures
            frame_ok(*final(self), *g, *final(f)),
            arith_done(*old(self), *g, *old(f), i, *final(self), *final(f), r),
    {
        let op: OpCode = i.opcode();
        let a: u32 = i.arg_a() as u32;
        let (v1, v2) = self.arith_values(g, f, i);
        let guarded: bool = match op {
            OpCode::Mod | OpCode::ModK | OpCode::IDiv | OpCode::IDivK => true,
            _ => false,
        };
        if guarded {
            self.protect(g, f, f.pc + 1);
        }
        let ghost mid = *self;
        let wants_int: bool = match op {
            OpCode::BAndK | OpCode::BOrK | OpCode::BXOrK => true,
            _ => false,
        };
        let is_int: bool = match v2 {
            LuaValue::Int(_) => true,
            _ => false,
        };
        let res: ArithResult = if wants_int && !is_int {
            ArithResult::WrongType
        } else {
            arith_op(arith_of(op), &v1, &v2)
        };
        match res {
            ArithResult::Int(v) => {
                self.set_reg(g, f, a, LuaValue::Int(v));
                f.pc = f.pc + 2;
                proof {
                    assert forall|j: int| #[trigger] self.at(j) == (if j == old(f).base.0 + a {
                        LuaValue::Int(v)
                    } else {
                        old(self).at(j)
                    }) by {
                        assert(mid.at(j) == old(self).at(j));
                    }
                }
                Ok(Step::Next)
            },
            ArithResult::Float { op: fop, x, y } => {
                f.pc = f.pc + 2;
                Ok(Step::Float { op: fop, x: x, y: y, ra: StackIdx(f.base.0 + a) })
            },
            ArithResult::ZeroDivide => match op {
                OpCode::Mod | OpCode::ModK => Err(crate::value::runtime_error("attempt to perform 'n%0'")),
                _ => Err(crate::value::runtime_error("attempt to divide by zero")),
            },
            ArithResult::WrongType => {
                f.pc = f.pc + 1;
                Ok(Step::Next)
            },
        }
    }
}

/// The event that an instruction names.
pub open spec fn event_of(n: int) -> TagMethod {
    choose|e: TagMethod| e.spec_index() == (if n < 25 {
        n
    } else {
        0
    })
}

fn event_named(n: u32) -> (e: TagMethod)
    ensures
        e == event_of(n as int),
        e != TagMethod::N,
{
    let e: TagMethod = tagmethod_from_index(n as usize);
    proof {
        let c = event_of(n as int);
        assert(e.spec_index() == (if n < 25 {
            n as int
        } else {
            0
        }));
        crate::tagmethods::law_event_numbers(e, c);
    }
    e
}

/// The operation on one operand that needs more than arithmetic.
pub open spec fn unary_step(s: LuaState, f: Frame, i: Instruction, event: TagMethod) -> Step {
    let w = i.word();
    let v = reg(s, f, spec_b(w));
    let at = Some(StackIdx((f.base.0 + spec_b(w)) as u32));
    Step::Bin {
        p1: v,
        p1_idx: at,
        p2: v,
        p2_idx: at,
        event: event,
        res: StackIdx((f.base.0 + spec_a(w)) as u32),
    }
}

/// The result of negation or complement where the operand is a number, or an integer
/// for the complement.
pub open spec fn unary_value(op: OpCode, v: LuaValue) -> Option<LuaValue> {
    if op == OpCode::Unm {
        match v {
            LuaValue::Int(n) => Some(LuaValue::Int(wrap64(-n) as i64)),
            LuaValue::Float(b) => Some(LuaValue::Float(flt_negated(b))),
            _ => None,
        }
    } else {
        match spec_to_integer_ns(v, F2Imod::Eq) {
            Some(n) => Some(LuaValue::Int(!n)),
            None => None,
        }
    }
}

/// The operands of the fallback of an arithmetic instruction, with the number or the
/// constant first where they were exchanged.
pub open spec fn mm_step(s: LuaState, g: GlobalState, f: Frame, i: Instruction) -> Step {
    let w = i.word();
    let p1 = reg(s, f, spec_a(w));
    let at1 = Some(StackIdx((f.base.0 + spec_a(w)) as u32));
    let (p2, at2) = match spec_op(w) {
        OpCode::MmBin => (reg(s, f, spec_b(w)), Some(StackIdx((f.base.0 + spec_b(w)) as u32))),
        OpCode::MmBinI => (LuaValue::Int((spec_b(w) - 0x7f) as i64), None),
        _ => (konst(g, f, spec_b(w)), None),
    };
    let res = StackIdx((f.base.0 + spec_a(code_at(g, f, f.pc - 1).word())) as u32);
    let event = event_of(spec_c(w));
    if spec_op(w) != OpCode::MmBin && spec_k(w) != 0 {
        Step::Bin { p1: p2, p1_idx: at2, p2: p1, p2_idx: at1, event: event, res: res }
    } else {
        Step::Bin { p1: p1, p1_idx: at1, p2: p2, p2_idx: at2, event: event, res: res }
    }
}

/// Whether the operands of a fallback exist: it follows the instruction that it is
/// for.
pub open spec fn mm_ok(s: LuaState, g: GlobalState, f: Frame, i: Instruction) -> bool {
    let w = i.word();
    &&& f.pc >= 1
    &&& is_reg(s, f, spec_a(w))
    &&& is_reg(s, f, spec_a(code_at(g, f, f.pc - 1).word()))
    &&& spec_op(w) == OpCode::MmBin ==> is_reg(s, f, spec_b(w))
    &&& spec_op(w) == OpCode::MmBinK ==> is_konst(g, f, spec_b(w))
}

/// Whether negation or complement can run.
pub open spec fn unary_ok(s: LuaState, g: GlobalState, f: Frame, i: Instruction) -> bool {
    &&& spec_op(i.word()) == OpCode::Unm || spec_op(i.word()) == OpCode::BNot
    &&& is_reg(s, f, spec_a(i.word()))
    &&& is_reg(s, f, spec_b(i.word()))
}

/// What negation or complement does.
pub open spec fn unary_done(
    s: LuaState,
    g: GlobalState,
    f: Frame,
    i: Instruction,
    s2: LuaState,
    f2: Frame,
    r: Step,
) -> bool {
    &&& f2 == (Frame { pc: (f.pc + 1) as u32, ..f })
    &&& match unary_value(spec_op(i.word()), reg(s, f, spec_b(i.word()))) {
        Some(v) => r == Step::Next && reg_set(s, f, spec_a(i.word()), v, s2),
        None => {
            &&& protected(s, f, f.pc + 1, s2)
            &&& r == unary_step(
                s,
                f,
                i,
                if spec_op(i.word()) == OpCode::Unm {
                    TagMethod::Unm
                } else {
                    TagMethod::BNot
                },
            )
        },
    }
}

/// What the fallback of an arithmetic instruction does.
pub open spec fn mmbin_done(
    s: LuaState,
    g: GlobalState,
    f: Frame,
    i: Instruction,
    s2: LuaState,
    f2: Frame,
    r: Step,
) -> bool {
    &&& f2 == (Frame { pc: (f.pc + 1) as u32, ..f })
    &&& protected(s, f, f.pc + 1, s2)
    &&& r == mm_step(s, g, f, i)
}

impl LuaState {
    /// Runs negation or complement.
    pub fn exec_unary(&mut self, g: &GlobalState, f: &mut Frame, i: Instruction) -> (r: Step)
        requires
            at_instr(*old(self), *g, *old(f), i),
            unary_ok(*old(self), *g, *old(f), i),
        ensures
            frame_ok(*final(self), *g, *final(f)),
            unary_done(*old(self), *g, *old(f), i, *final(self), *final(f), r),
    {
        let a: u32 = i.arg_a() as u32;
        let b: u32 = i.arg_b() as u32;
        let v: LuaValue = self.reg_value(g, f, b);
        let negate: bool = i.opcode() == OpCode::Unm;
        let res: Option<LuaValue> = if negate {
            match v {
                LuaValue::Int(n) => Some(LuaValue::Int(intop_sub(0, n))),
                LuaValue::Float(x) => Some(LuaValue::Float(flt_negate(x))),
                _ => None,
            }
        } else {
            match to_integer_ns(&v, F2Imod::Eq) {
                Some(n) => Some(LuaValue::Int(!n)),
                None => None,
            }
        };
        match res {
            Some(w) => {
                self.set_reg(g, f, a, w);
                f.pc = f.pc + 1;
                Step::Next
            },
            None => {
                self.protect(g, f, f.pc + 1);
                f.pc = f.pc + 1;
                let at: StackIdx = StackIdx(f.base.0 + b);
                Step::Bin {
                    p1: v,
                    p1_idx: Some(at),
                    p2: v,
                    p2_idx: Some(at),
                    event: if negate {
                        TagMethod::Unm
                    } else {
                        TagMethod::BNot
                    },
                    res: StackIdx(f.base.0 + a),
                }
            },
        }
    }

    /// Runs the fallback of an arithmetic instruction.
    pub fn exec_mmbin(&mut self, g: &GlobalState, f: &mut Frame, i: Instruction) -> (r: Step)
        requires
            at_instr(*old(self), *g, *old(f), i),
            spec_op(i.word()) == OpCode::MmBin || spec_op(i.word()) == OpCode::MmBinI || spec_op(i.word())
                == OpCode::MmBinK,
            mm_ok(*old(self), *g, *old(f), i),
        ensures
            frame_ok(*final(self), *g, *final(f)),
            mmbin_done(*old(self), *g, *old(f), i, *final(self), *final(f), r),
    {
        let a: u32 = i.arg_a() as u32;
        let p1: LuaValue = self.reg_value(g, f, a);
        let at1: Option<StackIdx> = Some(StackIdx(f.base.0 + a));
        let prev: Instruction = self.proto_code(g, f, f.pc - 1);
        let res: StackIdx = StackIdx(f.base.0 + prev.arg_a() as u32);
        let event: TagMethod = event_named(i.arg_c() as u32);
        let mut flip: bool = i.test_k();
        let (p2, at2) = match i.opcode() {
            OpCode::MmBin => {
                flip = false;
                let b: u32 = i.arg_b() as u32;
                (self.reg_value(g, f, b), Some(StackIdx(f.base.0 + b)))
            },
            OpCode::MmBinI => (LuaValue::Int(i.arg_s_b() as i64), None),
            _ => (self.proto_const(g, f, i.arg_b() as usize), None),
        };
        self.protect(g, f, f.pc + 1);
        f.pc = f.pc + 1;
        if flip {
            Step::Bin { p1: p2, p1_idx: at2, p2: p1, p2_idx: at1, event: event, res: res }
        } else {
            Step::Bin { p1: p1, p1_idx: at1, p2: p2, p2_idx: at2, event: event, res: res }
        }
    }

    /// Finishes an operation on operands of the wrong type, given the numerals that
    /// strings among them spell.
    pub fn finish_bin(
        &mut self,
        g: &GlobalState,
        f: &mut Frame,
        p1: LuaValue,
        p1_idx: Option<StackIdx>,
        n1: Option<LuaValue>,
        p2: LuaValue,
        p2_idx: Option<StackIdx>,
        n2: Option<LuaValue>,
        event: TagMethod,
        res: StackIdx,
    ) -> (r: Result<Step, LuaError>)
        requires
            frame_ok(*old(self), *g, *old(f)),
            g.can_look(p1),
            g.can_look(p2),
            event != TagMethod::N,
            res.0 < old(self).stack@.len(),
            old(self).top.0 + 3 <= u32::MAX,
        ensures
            r is Ok ==> frame_ok(*final(self), *g, *final(f)),
            exists|o: Result<BinOutcome, LuaError>|
                {
                    &&& #[trigger] bin_decided(*g, p1, p1_idx, n1, p2, p2_idx, n2, event, o)
                    &&& match o {
                        Ok(BinOutcome::Call(c)) => {
                            &&& old(self).pushed(seq![c.f, c.p1, c.p2], *final(self))
                            &&& *final(f) == *old(f)
                            &&& r == Ok::<Step, LuaError>(
                                Step::Call {
                                    request: crate::tmcalls::CallRequest {
                                        func: old(self).top,
                                        nresults: 1,
                                        yieldable: true,
                                    },
                                    then: After::Store(res),
                                },
                            )
                        },
                        Ok(BinOutcome::Value(v)) => {
                            &&& *final(self) == (LuaState { stack: final(self).stack, ..*old(self) })
                            &&& final(self).stack@ == old(self).stack@.update(res.0 as int, v)
                            &&& *final(f) == (Frame { trap: traps(*old(self), old(f).ci), ..*old(f) })
                            &&& r == Ok::<Step, LuaError>(Step::Next)
                        },
                        Err(e) => {
                            &&& *final(self) == *old(self)
                            &&& *final(f) == *old(f)
                            &&& r == Err::<Step, LuaError>(e)
                        },
                    }
                },
    {
        let o: Result<BinOutcome, LuaError> = g.try_bin_tm(p1, p1_idx, n1, p2, p2_idx, n2, event);
        assert(bin_decided(*g, p1, p1_idx, n1, p2, p2_idx, n2, event, o));
        match o {
            Ok(BinOutcome::Call(c)) => {
                let request = self.begin_tm_res(c);
                proof {
                    lemma_near_kept(*old(self), *self, *g, f.cl);
                }
                Ok(Step::Call { request: request, then: After::Store(res) })
            },
            Ok(BinOutcome::Value(v)) => {
                self.set_at(res, v);
                f.trap = self.ci_trap(f.ci);
                proof {
                    lemma_near_kept(*old(self), *self, *g, f.cl);
                }
                Ok(Step::Next)
            },
            Err(e) => Err(e),
        }
    }
}

} // verus!
