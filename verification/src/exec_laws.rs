//! What the instructions are for, stated over the bits of their words, the slots of the
//! stack and the objects of the store.

use vstd::prelude::*;
use crate::concat::is_textual;
use crate::concat::joined;
use crate::concat::law_joined;
use crate::concat::partly_joined;
use crate::concat::top_values;
use crate::exec::After;
use crate::exec::Frame;
use crate::exec::Step;
use crate::exec::at_instr;
use crate::exec_calls::join_called;
use crate::exec_calls::join_done;
use crate::exec_calls::saved;
use crate::exec_step::Machine;
use crate::exec_step::RunStop;
use crate::exec_step::instr_at;
use crate::exec_step::instr_done;
use crate::exec_step::instr_ok;
use crate::exec_step::run_ended;
use crate::exec_step::runs_on;
use crate::float::float_of_int;
use crate::float::flt_nan;
use crate::float::flt_scaled;
use crate::float::flt_unit;
use crate::float::lemma_int_to_float_unique;
use crate::float::lemma_small_int_exact;
use crate::global::GlobalState;
use crate::heap::UpVal;
use crate::opcode::Instruction;
use crate::opcode::InstructionExt;
use crate::opcode::OpCode;
use crate::opcode::lemma_opcode_index;
use crate::opcode::spec_a;
use crate::opcode::spec_ax;
use crate::opcode::spec_b;
use crate::opcode::spec_bx;
use crate::opcode::spec_c;
use crate::opcode::spec_k;
use crate::opcode::spec_op;
use crate::state::LuaState;
use crate::tagmethods::TagMethod;
use crate::tagmethods::bin_handler;
use crate::value::LuaError;
use crate::value::LuaValue;
use crate::value::StrId;
use crate::varargs::fetched;

verus! {

/// Whether an instruction has this opcode number and these fields.
pub open spec fn word_abc(i: Instruction, op: int, a: int, k: int, b: int, c: int) -> bool {
    &&& 0 <= op < 0x80 && 0 <= a < 0x100 && 0 <= k < 2 && 0 <= b < 0x100 && 0 <= c < 0x100
    &&& i.0 == op + 0x80 * a + 0x8000 * k + 0x1_0000 * b + 0x100_0000 * c
}

/// Whether an instruction has this opcode number, register and long field.
pub open spec fn word_abx(i: Instruction, op: int, a: int, bx: int) -> bool {
    &&& 0 <= op < 0x80 && 0 <= a < 0x100 && 0 <= bx < 0x2_0000
    &&& i.0 == op + 0x80 * a + 0x8000 * bx
}

/// Whether an instruction has this opcode number, and its other bits are this number.
pub open spec fn word_ax(i: Instruction, op: int, ax: int) -> bool {
    &&& 0 <= op < 0x80 && 0 <= ax < 0x200_0000
    &&& i.0 == op + 0x80 * ax
}

/// The opcode of a word is the one with the number in its lowest seven bits.
pub proof fn lemma_op(i: Instruction, op: OpCode)
    requires
        i.0 % 0x80 == op.spec_index(),
    ensures
        spec_op(i.word()) == op,
{
    lemma_opcode_index(op, op);
    assert(op.spec_index() == (if i.word() % 128 < crate::opcode::NUM_OPCODES {
        i.word() % 128
    } else {
        82
    }));
    lemma_opcode_index(spec_op(i.word()), op);
}

/// The fields of a word are found where they were put.
pub proof fn lemma_abc(i: Instruction, op: OpCode, a: int, k: int, b: int, c: int)
    requires
        word_abc(i, op.spec_index(), a, k, b, c),
    ensures
        spec_op(i.word()) == op,
        spec_a(i.word()) == a,
        spec_k(i.word()) == k,
        spec_b(i.word()) == b,
        spec_c(i.word()) == c,
{
    lemma_split(i.0 as int, op.spec_index(), a, k, b, c);
    lemma_op(i, op);
}

/// The parts of a number are found where they were put.
proof fn lemma_split(w: int, op: int, a: int, k: int, b: int, c: int)
    requires
        0 <= op < 0x80 && 0 <= a < 0x100 && 0 <= k < 2 && 0 <= b < 0x100 && 0 <= c < 0x100,
        w == op + 0x80 * a + 0x8000 * k + 0x1_0000 * b + 0x100_0000 * c,
    ensures
        w % 0x80 == op,
        (w / 0x80) % 0x100 == a,
        (w / 0x8000) % 2 == k,
        (w / 0x1_0000) % 0x100 == b,
        (w / 0x100_0000) % 0x100 == c,
{
    let q3 = c;
    let q2 = b + 0x100 * q3;
    let q1 = k + 2 * q2;
    let q0 = a + 0x100 * q1;
    assert(w == op + 0x80 * q0);
    assert(w / 0x80 == q0);
    assert(w / 0x8000 == q1);
    assert(w / 0x1_0000 == q2);
    assert(w / 0x100_0000 == q3);
}

/// So are those of a word with a long field.
pub proof fn lemma_abx(i: Instruction, op: OpCode, a: int, bx: int)
    requires
        word_abx(i, op.spec_index(), a, bx),
    ensures
        spec_op(i.word()) == op,
        spec_a(i.word()) == a,
        spec_bx(i.word()) == bx,
{
    lemma_op(i, op);
}

/// And those of a word with one field.
pub proof fn lemma_ax(i: Instruction, op: OpCode, ax: int)
    requires
        word_ax(i, op.spec_index(), ax),
    ensures
        spec_op(i.word()) == op,
        spec_ax(i.word()) == ax,
{
    lemma_op(i, op);
}

/// An instruction that was run: thread, shared state and frame before and after, and what it
/// came to.
pub struct Ran {
    pub s: LuaState,
    pub g: GlobalState,
    pub f: Frame,
    pub i: Instruction,
    pub t: LuaState,
    pub h: GlobalState,
    pub e: Frame,
    pub res: Result<Step, LuaError>,
}

impl Ran {
    /// Whether it was the next one of a frame in order, and was run.
    pub open spec fn ok(self) -> bool {
        &&& at_instr(self.s, self.g, self.f, self.i)
        &&& instr_ok(self.s, self.g, self.f, self.i)
        &&& instr_done(self.s, self.g, self.f, self.i, self.t, self.h, self.e, self.res)
    }

    /// A register before.
    pub open spec fn r(self, x: int) -> LuaValue {
        self.s.stack@[self.f.base.0 + x]
    }

    /// A constant of the function.
    pub open spec fn k(self, x: int) -> LuaValue {
        self.g.heap.protos.items@[self.g.heap.lclosures.items@[self.f.cl.0 as int].proto.0 as int].k@[x]
    }

    /// An instruction of the function.
    pub open spec fn code(self, pc: int) -> Instruction {
        self.g.heap.protos.items@[self.g.heap.lclosures.items@[self.f.cl.0 as int].proto.0 as int].code@[pc]
    }

    /// Whether the frame goes on at a place, and there is nothing left to do for the
    /// instruction.
    pub open spec fn next(self, pc: int) -> bool {
        self.res == Ok::<Step, LuaError>(Step::Next) && self.at(pc)
    }

    /// Whether the frame stands at a place.
    pub open spec fn at(self, pc: int) -> bool {
        self.e.pc == pc && self.e.ci == self.f.ci && self.e.cl == self.f.cl && self.e.base == self.f.base
    }

    /// Whether one register got a value, and nothing else changed in the thread and the shared
    /// state.
    pub open spec fn sets(self, x: int, v: LuaValue) -> bool {
        &&& self.h == self.g
        &&& self.t == (LuaState { stack: self.t.stack, ..self.s })
        &&& self.t.stack@ == self.s.stack@.update(self.f.base.0 + x, v)
    }

    /// Whether a register got a value, and every other slot that there was is as it was.
    pub open spec fn writes(self, x: int, v: LuaValue) -> bool {
        &&& self.h == self.g
        &&& self.t.stack@.len() >= self.s.stack@.len()
        &&& self.t.stack@[self.f.base.0 + x] == v
        &&& forall|j: int|
            0 <= j < self.s.stack@.len() && j != self.f.base.0 + x ==> #[trigger] self.t.stack@[j] == self.s.stack@[j]
    }

    /// Whether every slot that there was is as it was.
    pub open spec fn keeps_slots(self) -> bool {
        &&& self.t.stack@.len() >= self.s.stack@.len()
        &&& forall|j: int| 0 <= j < self.s.stack@.len() ==> #[trigger] self.t.stack@[j] == self.s.stack@[j]
    }
}

/// The event with a number.
pub open spec fn event_numbered(n: int) -> TagMethod {
    if n == 6 {
        TagMethod::Add
    } else if n == 7 {
        TagMethod::Sub
    } else if n == 8 {
        TagMethod::Mul
    } else if n == 9 {
        TagMethod::Mod
    } else if n == 10 {
        TagMethod::Pow
    } else if n == 11 {
        TagMethod::Div
    } else if n == 12 {
        TagMethod::IDiv
    } else if n == 13 {
        TagMethod::BAnd
    } else if n == 14 {
        TagMethod::BOr
    } else if n == 15 {
        TagMethod::BXor
    } else if n == 16 {
        TagMethod::Shl
    } else if n == 17 {
        TagMethod::Shr
    } else if n == 18 {
        TagMethod::Unm
    } else {
        TagMethod::BNot
    }
}

/// An instruction names an arithmetic event by its number.
proof fn lemma_event(n: int)
    requires
        6 <= n <= 19,
    ensures
        crate::exec_regs::event_of(n) == event_numbered(n),
{
    assert(event_numbered(n).spec_index() == n);
    crate::tagmethods::law_event_numbers(crate::exec_regs::event_of(n), event_numbered(n));
}

/// The fallback of an arithmetic instruction asks for the event that it numbers, on the
/// operands in the order in which the program wrote them. On two registers that is A before B.
/// On a register and a constant or a number in the instruction, the register comes first where
/// `k` is clear, and last where `k` is set. The result goes where that of the instruction
/// before goes. No slot changes.
#[verifier::rlimit(40)]
#[verifier::spinoff_prover]
pub proof fn law_fallback(x: Ran, a: int, k: int, b: int, c: int)
    requires
        x.ok(),
        6 <= c <= 19,
    ensures
        word_abc(x.i, 46, a, k, b, c) ==> asks_for(x, x.r(a), x.r(b), c),
        word_abc(x.i, 47, a, k, b, c) && k == 0 ==> asks_for(x, x.r(a), LuaValue::Int((b - 127) as i64), c),
        word_abc(x.i, 47, a, k, b, c) && k == 1 ==> asks_for(x, LuaValue::Int((b - 127) as i64), x.r(a), c),
        word_abc(x.i, 48, a, k, b, c) && k == 0 ==> asks_for(x, x.r(a), x.k(b), c),
        word_abc(x.i, 48, a, k, b, c) && k == 1 ==> asks_for(x, x.k(b), x.r(a), c),
{
    lemma_event(c);
    if word_abc(x.i, 46, a, k, b, c) {
        lemma_abc(x.i, OpCode::MmBin, a, k, b, c);
        lemma_slots_kept(x.s, x.t);
    } else if word_abc(x.i, 47, a, k, b, c) {
        lemma_abc(x.i, OpCode::MmBinI, a, k, b, c);
        lemma_slots_kept(x.s, x.t);
    } else if word_abc(x.i, 48, a, k, b, c) {
        lemma_abc(x.i, OpCode::MmBinK, a, k, b, c);
        lemma_slots_kept(x.s, x.t);
    }
}

/// Whether an event is asked for on two operands, and no slot changed.
pub open spec fn asks_for(x: Ran, p: LuaValue, q: LuaValue, event: int) -> bool {
    &&& x.res matches Ok(Step::Bin { p1, p2, event: named, res, .. }) && p1 == p && p2 == q && named == event_numbered(
        event,
    ) && res.0 == x.f.base.0 + (x.code(x.f.pc - 1).0 / 0x80) % 0x100
    &&& x.at(x.f.pc + 1)
    &&& x.keeps_slots()
}

/// Slots that are the same wherever they are looked at are the same slots.
pub proof fn lemma_slots_kept(s: LuaState, t: LuaState)
    ensures
        (forall|i: int| #[trigger] t.at(i) == s.at(i)) && t.stack@.len() >= s.stack@.len() ==> forall|j: int|
            0 <= j < s.stack@.len() ==> #[trigger] t.stack@[j] == s.stack@[j],
{
    if (forall|i: int| #[trigger] t.at(i) == s.at(i)) && t.stack@.len() >= s.stack@.len() {
        assert forall|j: int| 0 <= j < s.stack@.len() implies #[trigger] t.stack@[j] == s.stack@[j] by {
            assert(t.at(j) == s.at(j));
        }
    }
}

/// Two fallbacks in the same place whose words differ in `k` alone ask for the same event
/// with the operands exchanged, unless both operands are registers.
pub proof fn law_fallback_exchanged(x: Ran, y: Ran, op: int, a: int, b: int, c: int)
    requires
        x.ok() && y.ok(),
        x.s == y.s && x.g == y.g && x.f == y.f,
        op == 47 || op == 48,
        6 <= c <= 19,
        word_abc(x.i, op, a, 0, b, c),
        word_abc(y.i, op, a, 1, b, c),
    ensures
        x.res matches Ok(Step::Bin { p1, p2, event, res, .. }) && (y.res matches Ok(
            Step::Bin { p1: q1, p2: q2, event: e2, res: r2, .. },
        ) && p1 == q2 && p2 == q1 && event == e2 && res == r2),
{
    law_fallback(x, a, 0, b, c);
    law_fallback(y, a, 1, b, c);
}

/// A return hands over the values from register A on: as many as B says but one, or all up to
/// `top` where B is zero. They lie right below the new `top`, unchanged, unless variables have
/// to be closed first; those are the same values then.
#[verifier::rlimit(40)]
#[verifier::spinoff_prover]
pub proof fn law_return(x: Ran, a: int, k: int, b: int, c: int)
    requires
        x.ok(),
        word_abc(x.i, 70, a, k, b, c),
    ensures
        ({
            let from = x.f.base.0 + a;
            let n = if b == 0 {
                x.s.top.0 - from
            } else {
                b - 1
            };
            &&& k == 0 ==> {
                &&& x.res matches Ok(Step::Poscall { n: m, .. }) && m == n
                &&& x.t.top.0 == from + n
                &&& from + n <= x.t.stack@.len()
                &&& forall|j: int| from <= j < from + n ==> #[trigger] x.t.stack@[j] == x.s.at(j)
            }
            &&& k == 1 ==> {
                &&& x.res matches Ok(Step::CloseReturn { ra, n: m, .. }) && m == n && ra.0 == from
                &&& forall|j: int| #[trigger] x.t.at(j) == x.s.at(j)
            }
        }),
        b == 0 && k == 0 ==> x.t.top == x.s.top && x.t.stack@.subrange(x.f.base.0 + a, x.s.top.0 as int)
            == x.s.stack@.subrange(x.f.base.0 + a, x.s.top.0 as int),
{
    lemma_abc(x.i, OpCode::Return, a, k, b, c);
    let from = x.f.base.0 + a;
    if k == 0 {
        assert forall|j: int| from <= j < x.t.top.0 implies #[trigger] x.t.stack@[j] == x.s.at(j) by {
            assert(x.t.at(j) == x.s.at(j));
        }
        if b == 0 {
            assert forall|j: int| from <= j < x.s.top.0 implies #[trigger] x.t.stack@[j] == x.s.stack@[j] by {
                assert(x.t.at(j) == x.s.at(j));
            }
            assert(x.t.stack@.subrange(from, x.s.top.0 as int) =~= x.s.stack@.subrange(from, x.s.top.0 as int));
        }
    }
}

/// What `return ...` returns is exactly the extra arguments: copied to registers up to `top`,
/// and then returned from the first of those registers on.
pub proof fn law_return_varargs(s: LuaState, vs: Seq<LuaValue>, x: Ran, a: int, c: int)
    requires
        x.ok(),
        word_abc(x.i, 70, a, 0, 0, c),
        fetched(s, x.f.base.0 + a, -1, vs, x.s),
        x.f.base.0 + a + vs.len() <= x.s.stack@.len() <= u32::MAX,
    ensures
        x.res matches Ok(Step::Poscall { n, .. }) && n == vs.len() && x.t.stack@.subrange(
            x.t.top.0 - n,
            x.t.top.0 as int,
        ) == vs,
{
    law_return(x, a, 0, 0, c);
    assert(x.s.top.0 == x.f.base.0 + a + vs.len());
    assert(x.s.stack@.subrange(x.f.base.0 + a, x.s.top.0 as int) =~= vs);
}

/// A call takes the function in register A, with the values above it for its arguments: as
/// many as B says but one, or all up to `top` where B is zero. It wants C minus one results,
/// and all of them where that is minus one. No slot changes.
#[verifier::rlimit(40)]
#[verifier::spinoff_prover]
pub proof fn law_call(x: Ran, a: int, k: int, b: int, c: int)
    requires
        x.ok(),
        word_abc(x.i, 68, a, k, b, c),
    ensures
        x.res matches Ok(Step::Precall { func, nresults }) && func.0 == x.f.base.0 + a && nresults == c - 1,
        b != 0 ==> x.t.top.0 == x.f.base.0 + a + 1 + (b - 1),
        b == 0 ==> x.t.top == x.s.top,
        x.keeps_slots(),
        x.t.frame(x.f.ci).u.savedpc == x.f.pc + 1,
        x.at(x.f.pc + 1),
{
    lemma_abc(x.i, OpCode::Call, a, k, b, c);
    lemma_slots_kept(x.s, x.t);
}

/// A tail call takes the function and the arguments as a call does, and counts both. Variables
/// are closed first where `k` is set. A function with extra arguments goes back over them and
/// its parameters, of which C is one more than there are.
#[verifier::rlimit(40)]
#[verifier::spinoff_prover]
pub proof fn law_tailcall(x: Ran, a: int, k: int, b: int, c: int)
    requires
        x.ok(),
        word_abc(x.i, 69, a, k, b, c),
    ensures
        x.res matches Ok(Step::TailCall { func, narg1, delta, close }) && func.0 == x.f.base.0 + a && (b != 0 ==> narg1
            == b) && (b == 0 ==> func.0 + narg1 == x.s.top.0) && close == (k == 1) && (c == 0 ==> delta == 0) && (c
            != 0 && 0 <= x.s.frame(x.f.ci).u.nextraargs + c ==> delta == x.s.frame(x.f.ci).u.nextraargs + c),
        b != 0 ==> x.t.top.0 == x.f.base.0 + a + b,
        b == 0 ==> x.t.top == x.s.top,
        x.keeps_slots(),
{
    lemma_abc(x.i, OpCode::TailCall, a, k, b, c);
    lemma_slots_kept(x.s, x.t);
}

/// A return of a vararg function goes back to the slot that its function was called in: below
/// its extra arguments and its parameters, of which C is one more than there are.
#[verifier::rlimit(40)]
#[verifier::spinoff_prover]
pub proof fn law_return_frame(x: Ran, a: int, b: int, c: int)
    requires
        x.ok(),
        word_abc(x.i, 70, a, 0, b, c),
    ensures
        c == 0 ==> x.t.frame(x.f.ci).func == x.s.frame(x.f.ci).func,
        c != 0 ==> x.t.frame(x.f.ci).func.0 == x.s.frame(x.f.ci).func.0 - x.s.frame(x.f.ci).u.nextraargs - c,
        x.t.frame(x.f.ci).nresults == x.s.frame(x.f.ci).nresults,
        x.t.ci == x.s.ci,
{
    lemma_abc(x.i, OpCode::Return, a, 0, b, c);
}

/// A return of no value or of one leaves, where no hook is set, for the caller: the results
/// are where the function was, as many as are wanted, with `nil` for those that are missing,
/// and `top` is right above them. A negative number wants what there is.
#[verifier::rlimit(40)]
#[verifier::spinoff_prover]
pub proof fn law_return_short(x: Ran, a: int, k: int, b: int, c: int, n: int, j: int)
    requires
        x.ok(),
        word_abc(x.i, 71, a, k, b, c) && n == 0 || word_abc(x.i, 72, a, k, b, c) && n == 1,
        x.s.hookmask == 0,
        x.s.stack@.len() <= 0x7fff_0000,
        x.f.base.0 - 1 + x.s.frame(x.f.ci).nresults <= 0x7fff_0000,
    ensures
        ({
            let func = x.f.base.0 - 1;
            let wanted = x.s.frame(x.f.ci).nresults as int;
            let given = if wanted < 0 {
                n
            } else {
                wanted
            };
            &&& x.res == Ok::<Step, LuaError>(Step::Returned)
            &&& x.t.ci == x.s.frame(x.f.ci).previous->0
            &&& x.t.top.0 == func + given
            &&& n == 1 && given > 0 ==> x.t.stack@[func] == x.r(a)
            &&& n <= j < given ==> x.t.stack@[func + j] == LuaValue::Nil
            &&& 0 <= j < func ==> x.t.stack@[j] == x.s.stack@[j]
        }),
{
    if n == 0 {
        lemma_abc(x.i, OpCode::Return0, a, k, b, c);
    } else {
        lemma_abc(x.i, OpCode::Return1, a, k, b, c);
    }
}

/// What the host is asked for: to close variables from register A on, to mark register A as
/// to be closed, to make a closure over the prototype that the instruction numbers and put it
/// in register A, to copy C minus one extra arguments to the registers from A on, or all of
/// them where that is minus one, and to put away the arguments beyond the first A.
#[verifier::rlimit(40)]
#[verifier::spinoff_prover]
pub proof fn law_host_requests(x: Ran, a: int, k: int, b: int, c: int, bx: int)
    requires
        x.ok(),
    ensures
        word_abc(x.i, 54, a, k, b, c) ==> (x.res matches Ok(Step::Close { level }) && level.0 == x.f.base.0 + a),
        word_abc(x.i, 55, a, k, b, c) ==> (x.res matches Ok(Step::Tbc { level }) && level.0 == x.f.base.0 + a),
        word_abx(x.i, 79, a, bx) ==> (x.res matches Ok(Step::Closure { child, ra }) && ra.0 == x.f.base.0 + a && child
            == x.g.heap.protos.items@[x.g.heap.lclosures.items@[x.f.cl.0 as int].proto.0 as int].p@[bx]),
        word_abc(x.i, 80, a, k, b, c) ==> (x.res matches Ok(Step::VarArg { ra, wanted }) && ra.0 == x.f.base.0 + a
            && wanted == c - 1),
        word_abc(x.i, 81, a, k, b, c) ==> (x.res matches Ok(Step::VarArgPrep { nfixparams }) && nfixparams == a)
            && x.t.top == x.s.top,
{
    if word_abc(x.i, 54, a, k, b, c) {
        lemma_abc(x.i, OpCode::Close, a, k, b, c);
    } else if word_abc(x.i, 55, a, k, b, c) {
        lemma_abc(x.i, OpCode::Tbc, a, k, b, c);
    } else if word_abc(x.i, 80, a, k, b, c) {
        lemma_abc(x.i, OpCode::VarArg, a, k, b, c);
    } else if word_abc(x.i, 81, a, k, b, c) {
        lemma_abc(x.i, OpCode::VarArgPrep, a, k, b, c);
    }
    if word_abx(x.i, 79, a, bx) {
        lemma_abx(x.i, OpCode::Closure, a, bx);
    }
}

/// The instructions that load a register: a copy of a register, a signed number of the
/// instruction as an integer, a constant, `false`, `true`, and whether a register is `nil` or
/// `false`. Nothing else changes.
#[verifier::rlimit(60)]
#[verifier::spinoff_prover]
pub proof fn law_loads(x: Ran, a: int, k: int, b: int, c: int, bx: int)
    requires
        x.ok(),
    ensures
        word_abc(x.i, 0, a, k, b, c) ==> x.sets(a, x.r(b)) && x.next(x.f.pc + 1),
        word_abx(x.i, 1, a, bx) ==> x.sets(a, LuaValue::Int((bx - 65535) as i64)) && x.next(x.f.pc + 1),
        word_abx(x.i, 3, a, bx) ==> x.sets(a, x.k(bx)) && x.next(x.f.pc + 1),
        word_abx(x.i, 4, a, bx) ==> x.sets(a, x.k(x.code(x.f.pc + 1).0 as int / 0x80)) && x.next(x.f.pc + 2),
        word_abc(x.i, 5, a, k, b, c) ==> x.sets(a, LuaValue::Bool(false)) && x.next(x.f.pc + 1),
        word_abc(x.i, 6, a, k, b, c) ==> x.sets(a, LuaValue::Bool(false)) && x.next(x.f.pc + 2),
        word_abc(x.i, 7, a, k, b, c) ==> x.sets(a, LuaValue::Bool(true)) && x.next(x.f.pc + 1),
        word_abc(x.i, 51, a, k, b, c) ==> x.sets(
            a,
            LuaValue::Bool(x.r(b) == LuaValue::Nil || x.r(b) == LuaValue::Bool(false)),
        ) && x.next(x.f.pc + 1),
{
    if word_abc(x.i, 0, a, k, b, c) {
        lemma_abc(x.i, OpCode::Move, a, k, b, c);
    } else if word_abc(x.i, 5, a, k, b, c) {
        lemma_abc(x.i, OpCode::LoadFalse, a, k, b, c);
    } else if word_abc(x.i, 6, a, k, b, c) {
        lemma_abc(x.i, OpCode::LFalseSkip, a, k, b, c);
    } else if word_abc(x.i, 7, a, k, b, c) {
        lemma_abc(x.i, OpCode::LoadTrue, a, k, b, c);
    } else if word_abc(x.i, 51, a, k, b, c) {
        lemma_abc(x.i, OpCode::Not, a, k, b, c);
    }
    if word_abx(x.i, 1, a, bx) {
        lemma_abx(x.i, OpCode::LoadI, a, bx);
    } else if word_abx(x.i, 3, a, bx) {
        lemma_abx(x.i, OpCode::LoadK, a, bx);
    } else if word_abx(x.i, 4, a, bx) {
        lemma_abx(x.i, OpCode::LoadKX, a, bx);
    }
}

/// A float in the instruction is the double `d` that has exactly its value, and `nil` goes to
/// the registers from A to A and B and to no other.
#[verifier::rlimit(40)]
#[verifier::spinoff_prover]
pub proof fn law_load_float_nil(x: Ran, a: int, k: int, b: int, c: int, bx: int, d: u64, j: int)
    requires
        x.ok(),
    ensures
        word_abx(x.i, 2, a, bx) && has_value(d, bx - 65535) ==> x.sets(a, LuaValue::Float(d)) && x.next(x.f.pc + 1),
        word_abc(x.i, 8, a, k, b, c) && 0 <= j < x.s.stack@.len() ==> x.t.stack@[j] == (if x.f.base.0 + a <= j
            <= x.f.base.0 + a + b {
            LuaValue::Nil
        } else {
            x.s.stack@[j]
        }) && x.next(x.f.pc + 1),
{
    if word_abx(x.i, 2, a, bx) {
        lemma_abx(x.i, OpCode::LoadF, a, bx);
        if has_value(d, bx - 65535) {
            lemma_exact_float((bx - 65535) as i64, d);
        }
    }
    if word_abc(x.i, 8, a, k, b, c) {
        lemma_abc(x.i, OpCode::LoadNil, a, k, b, c);
    }
}

/// Whether a double is this whole number. Zero has no sign.
pub open spec fn has_value(d: u64, n: int) -> bool {
    !flt_nan(d) && (d >= 0x8000_0000_0000_0000) == (n < 0) && flt_scaled(d) == n * flt_unit()
}

/// A small integer converts to the double that has its value.
pub proof fn lemma_exact_float(n: i64, d: u64)
    requires
        -0x0020_0000_0000_0000 < n < 0x0020_0000_0000_0000,
        has_value(d, n as int),
    ensures
        float_of_int(n) == d,
{
    lemma_small_int_exact(n as int);
    lemma_int_to_float_unique(n, d, d);
}

/// Reading a captured variable: register A gets its value, which is its own once it is closed,
/// and that of its slot while it is open on this thread's stack.
#[verifier::rlimit(40)]
#[verifier::spinoff_prover]
pub proof fn law_getupval(x: Ran, a: int, k: int, b: int, c: int)
    requires
        x.ok(),
        word_abc(x.i, 9, a, k, b, c),
    ensures
        ({
            let u = x.g.heap.lclosures.items@[x.f.cl.0 as int].upvals@[b];
            match x.g.heap.upvals.items@[u.0 as int] {
                UpVal::Closed(v) => x.sets(a, v),
                UpVal::Open { thread, idx } => thread == x.s.cached_thread_id ==> x.sets(a, x.s.stack@[idx.0 as int]),
            }
        }),
        x.next(x.f.pc + 1),
{
    lemma_abc(x.i, OpCode::GetUpVal, a, k, b, c);
}

/// Writing a captured variable: it gets the value of register A, in itself once it is closed,
/// and in its slot while it is open on this thread's stack. No other variable and no other
/// slot changes.
#[verifier::rlimit(40)]
#[verifier::spinoff_prover]
pub proof fn law_setupval(x: Ran, a: int, k: int, b: int, c: int, n: int)
    requires
        x.ok(),
        word_abc(x.i, 10, a, k, b, c),
    ensures
        ({
            let u = x.g.heap.lclosures.items@[x.f.cl.0 as int].upvals@[b];
            match x.g.heap.upvals.items@[u.0 as int] {
                UpVal::Closed(_) => {
                    &&& x.t == x.s
                    &&& x.h.heap.upvals.items@[u.0 as int] == UpVal::Closed(x.r(a))
                    &&& 0 <= n < x.g.heap.upvals.items@.len() && n != u.0 ==> x.h.heap.upvals.items@[n]
                        == x.g.heap.upvals.items@[n]
                },
                UpVal::Open { thread, idx } => thread == x.s.cached_thread_id ==> {
                    &&& x.t.stack@ == x.s.stack@.update(idx.0 as int, x.r(a))
                    &&& x.h.heap == x.g.heap
                },
            }
        }),
        x.next(x.f.pc + 1),
{
    lemma_abc(x.i, OpCode::SetUpVal, a, k, b, c);
    let u = x.g.heap.lclosures.items@[x.f.cl.0 as int].upvals@[b];
    assert(x.g.heap.sizes().ok_lclosure(x.g.heap.lclosures.items@[x.f.cl.0 as int]));
}

/// The instruction at which a thread's frame stands, run from one state to another.
pub open spec fn ran(a: Machine, b: Machine, r: Result<Step, LuaError>) -> Ran {
    Ran {
        s: a.s,
        g: a.g,
        f: a.f,
        i: a.g.heap.protos.items@[a.g.heap.lclosures.items@[a.f.cl.0 as int].proto.0 as int].code@[a.f.pc as int],
        t: b.s,
        h: b.g,
        e: b.f,
        res: r,
    }
}

/// A step runs the instruction it is given.
pub proof fn law_step(
    a: &mut LuaState,
    g: &mut GlobalState,
    f: &mut Frame,
    i: Instruction,
    r: Result<Step, LuaError>,
)
    requires
        call_ensures(LuaState::step, (a, g, f, i), r),
        at_instr(*old(a), *old(g), *old(f), i),
        instr_ok(*old(a), *old(g), *old(f), i),
    ensures
        (Ran {
            s: *old(a),
            g: *old(g),
            f: *old(f),
            i: i,
            t: *final(a),
            h: *final(g),
            e: *final(f),
            res: r,
        }).ok(),
{
}

/// Whether the instructions of a frame were run one after the other, each where the one before
/// it left the frame, and no more of them than were allowed, up to the first that came to more
/// than the next one.
pub open spec fn executed(tr: Seq<Machine>, budget: int, from: Machine, to: Machine, stop: RunStop) -> bool {
    &&& 0 < tr.len() <= budget + 1
    &&& tr[0] == from
    &&& forall|n: int|
        0 <= n < tr.len() - 1 ==> !(#[trigger] tr[n]).f.trap && ran(
            tr[n],
            tr[n + 1],
            Ok::<Step, LuaError>(Step::Next),
        ).ok()
    &&& match stop {
        RunStop::Step(r) => r != Ok::<Step, LuaError>(Step::Next) && !tr.last().f.trap && ran(tr.last(), to, r).ok(),
        RunStop::Spent => to == tr.last() && tr.len() == budget + 1,
        RunStop::Trap => to == tr.last() && to.f.trap,
        RunStop::Stuck => to == tr.last() && !to.f.trap,
    }
}

/// The instruction that takes one machine to another was run.
proof fn lemma_ran(m: Machine, n: Machine, r: Result<Step, LuaError>)
    requires
        at_instr(m.s, m.g, m.f, instr_at(m)),
        instr_ok(m.s, m.g, m.f, instr_at(m)),
        instr_done(m.s, m.g, m.f, instr_at(m), n.s, n.g, n.f, r),
    ensures
        ran(m, n, r).ok(),
{
}

/// A run executes the instructions of a frame one after the other, and leaves what the last one
/// left.
#[verifier::rlimit(80)]
#[verifier::spinoff_prover]
pub proof fn law_execute(a: &mut LuaState, g: &mut GlobalState, f: &mut Frame, budget: u64, stop: RunStop)
    requires
        call_ensures(LuaState::execute, (a, g, f, budget), stop),
    ensures
        exists|tr: Seq<Machine>| #[trigger]
            executed(
                tr,
                budget as int,
                (Machine { s: *old(a), g: *old(g), f: *old(f) }),
                (Machine { s: *final(a), g: *final(g), f: *final(f) }),
                stop,
            ),
{
    let from = Machine { s: *old(a), g: *old(g), f: *old(f) };
    let to = Machine { s: *final(a), g: *final(g), f: *final(f) };
    let tr = choose|tr: Seq<Machine>| #[trigger] run_ended(tr, budget as int, from, to, stop);
    assert forall|n: int| 0 <= n < tr.len() - 1 implies !(#[trigger] tr[n]).f.trap && ran(
        tr[n],
        tr[n + 1],
        Ok::<Step, LuaError>(Step::Next),
    ).ok() by {
        assert(runs_on(tr[n], tr[n + 1]));
        lemma_ran(tr[n], tr[n + 1], Ok::<Step, LuaError>(Step::Next));
    }
    if let RunStop::Step(r) = stop {
        lemma_ran(tr.last(), to, r);
    }
    assert(executed(tr, budget as int, from, to, stop));
}

/// Strings in a row of registers are joined in order: the first register gets one string with
/// the bytes of all of them, and it is then the end of the stack.
#[verifier::rlimit(60)]
#[verifier::spinoff_prover]
pub proof fn law_concat(x: Ran, a: int, k: int, n: int, c: int)
    requires
        x.ok(),
        word_abc(x.i, 53, a, k, n, c),
        2 <= n,
        x.f.base.0 + a + n <= x.s.stack@.len(),
        forall|j: int| 0 <= j < n ==> #[trigger] x.r(a + j) is Str,
        joined(x.g.heap, x.s.stack@.subrange(x.f.base.0 + a, x.f.base.0 + a + n)).len() < usize::MAX,
    ensures
        x.res == Ok::<Step, LuaError>(Step::GcCheck),
        x.at(x.f.pc + 1),
        x.t.top.0 == x.f.base.0 + a + 1,
        x.t.stack@[x.f.base.0 + a] is Str,
        ({
            let bytes = x.h.heap.strings.items@[x.t.stack@[x.f.base.0 + a]->Str_0.0 as int].bytes@;
            &&& bytes == joined(x.g.heap, x.s.stack@.subrange(x.f.base.0 + a, x.f.base.0 + a + n))
            &&& n == 2 ==> bytes == x.g.heap.strings.items@[x.r(a)->Str_0.0 as int].bytes@
                + x.g.heap.strings.items@[x.r(a + 1)->Str_0.0 as int].bytes@
        }),
        forall|j: int| 0 <= j < x.f.base.0 + a ==> #[trigger] x.t.stack@[j] == x.s.stack@[j],
{
    lemma_abc(x.i, OpCode::Concat, a, k, n, c);
    let top = x.f.base.0 + a + n;
    let m = choose|m: LuaState| #[trigger] saved(x.s, x.f, x.f.pc + 1, top, m) && join_done(m, x.g, n, x.t, x.h, x.res);
    let vs = x.s.stack@.subrange(x.f.base.0 + a, top);
    assert forall|j: int| 0 <= j < x.s.stack@.len() implies #[trigger] m.stack@[j] == x.s.stack@[j] by {
        assert(m.at(j) == x.s.at(j));
    }
    assert(top_values(m, n) =~= vs);
    assert forall|j: int| 0 <= j < n implies #[trigger] vs[j] is Str by {
        assert(x.r(a + j) is Str);
    }
    assert forall|j: int| 0 <= j < n implies (#[trigger] joined(x.g.heap, vs.subrange(j, n))).len() < usize::MAX by {
        assert(vs =~= vs.subrange(0, j) + vs.subrange(j, n));
        law_joined(x.g.heap, StrId(0), vs.subrange(0, j), vs.subrange(j, n));
    }
    assert forall|left: int| 2 <= left && #[trigger] partly_joined(m, x.g, n, left, x.t, x.h) implies is_textual(
        x.t.stack@[x.t.top.0 - 2],
    ) && is_textual(x.t.stack@[x.t.top.0 - 1]) && (forall|j: int|
        x.t.top.0 - left <= j < x.t.top.0 ==> #[trigger] x.t.stack@[j] is Str) by {
        assert forall|j: int| x.t.top.0 - left <= j < x.t.top.0 implies #[trigger] x.t.stack@[j] is Str by {
            assert(m.stack@[j] == vs[j - (top - n)]);
        }
    }
    match x.res {
        Ok(Step::Text { at, left }) => {
            assert(x.t.stack@[at.0 as int] is Str);
        },
        Ok(Step::Call { request, then: After::Concat { left } }) => {
            let q = choose|q: LuaState| #[trigger] join_called(m, x.g, n, left as int, q, x.t, x.h, request);
            assert forall|j: int| q.top.0 - left <= j < q.top.0 implies #[trigger] q.stack@[j] is Str by {
                assert(m.stack@[j] == vs[j - (top - n)]);
            }
        },
        _ => {},
    }
    assert(vs.subrange(0, n) =~= vs);
    if n == 2 {
        assert(vs =~= seq![vs[0]] + seq![vs[1]]);
        law_joined(x.g.heap, vs[0]->Str_0, seq![vs[0]], seq![vs[1]]);
        law_joined(x.g.heap, vs[1]->Str_0, seq![vs[0]], seq![vs[1]]);
        assert(vs[0] == x.r(a) && vs[1] == x.r(a + 1));
    }
}

/// Joining two values that are not both strings or numbers asks the handler for `__concat` of
/// one of them about both in order; without one, it is the operand that has no text that is at
/// fault.
#[verifier::rlimit(60)]
#[verifier::spinoff_prover]
pub proof fn law_concat_handler(x: Ran, a: int, k: int, c: int)
    requires
        x.ok(),
        word_abc(x.i, 53, a, k, 2, c),
        x.f.base.0 + a + 2 <= x.s.stack@.len(),
        !(x.r(a) is Str || x.r(a) is Int || x.r(a) is Float) || !(x.r(a + 1) is Str || x.r(a + 1) is Int || x.r(a + 1) is Float),
    ensures
        match x.res {
            Ok(Step::Call { request, then: After::Concat { left } }) => {
                let h = x.t.stack@[x.f.base.0 + a + 2];
                &&& h != LuaValue::Nil
                &&& h == bin_handler(x.h, x.r(a), x.r(a + 1), TagMethod::Concat)
                &&& x.t.stack@[x.f.base.0 + a + 3] == x.r(a)
                &&& x.t.stack@[x.f.base.0 + a + 4] == x.r(a + 1)
                &&& request.func.0 == x.f.base.0 + a + 2 && request.nresults == 1
                &&& left == 2
            },
            Err(LuaError::TypeError { value, at, .. }) => {
                &&& bin_handler(x.h, x.r(a), x.r(a + 1), TagMethod::Concat) == LuaValue::Nil
                &&& x.r(a) is Str || x.r(a) is Int || x.r(a) is Float ==> value == x.r(a + 1) && (at matches Some(s) && s.0
                    == x.f.base.0 + a + 1)
                &&& !(x.r(a) is Str || x.r(a) is Int || x.r(a) is Float) ==> value == x.r(a) && (at matches Some(s) && s.0
                    == x.f.base.0 + a)
            },
            Err(LuaError::RuntimeMsg(_)) => true,
            _ => false,
        },
{
    lemma_abc(x.i, OpCode::Concat, a, k, 2, c);
    let top = x.f.base.0 + a + 2;
    let m = choose|m: LuaState| #[trigger] saved(x.s, x.f, x.f.pc + 1, top, m) && join_done(m, x.g, 2, x.t, x.h, x.res);
    assert forall|j: int| 0 <= j < x.s.stack@.len() implies #[trigger] m.stack@[j] == x.s.stack@[j] by {
        assert(m.at(j) == x.s.at(j));
    }
    let vs = top_values(m, 2);
    assert(vs[0] == x.r(a) && vs[1] == x.r(a + 1));
    match x.res {
        Ok(Step::Call { request, then: After::Concat { left } }) => {
            let q = choose|q: LuaState| #[trigger] join_called(m, x.g, 2, left as int, q, x.t, x.h, request);
            assert(left == 2);
            assert(q.top.0 == top);
            assert(m.stack@[top - 2] == x.r(a) && m.stack@[top - 1] == x.r(a + 1));
            assert(q.stack@[top - 2] == x.r(a) && q.stack@[top - 1] == x.r(a + 1));
            let h = bin_handler(x.h, x.r(a), x.r(a + 1), TagMethod::Concat);
            let ps = seq![h, x.r(a), x.r(a + 1)];
            assert(ps[0] == h && ps[1] == x.r(a) && ps[2] == x.r(a + 1));
            assert(q.pushed(ps, x.t));
            assert(ps.len() == 3);
        },
        _ => {},
    }
}

/// An instruction that leaves work to the host notes that its frame goes on after it, and leaves
/// the frame there: closing, tail calls, returns, generic loops, closures and extra arguments.
#[verifier::rlimit(60)]
#[verifier::spinoff_prover]
pub proof fn law_place_noted(x: Ran, op: int, a: int, k: int, b: int, c: int, bx: int)
    requires
        x.ok(),
        word_abc(x.i, op, a, k, b, c) && (op == 54 || op == 55 || op == 69 || op == 70 || op == 80 || op == 81)
            || word_abx(x.i, op, a, bx) && (op == 75 || op == 79),
    ensures
        x.t.call_info@[x.f.ci.0 as int].u.savedpc == x.f.pc + 1,
        x.e.pc == x.f.pc + 1,
        x.h == x.g,
{
    if op == 54 {
        lemma_abc(x.i, OpCode::Close, a, k, b, c);
    } else if op == 55 {
        lemma_abc(x.i, OpCode::Tbc, a, k, b, c);
    } else if op == 69 {
        lemma_abc(x.i, OpCode::TailCall, a, k, b, c);
    } else if op == 70 {
        lemma_abc(x.i, OpCode::Return, a, k, b, c);
    } else if op == 80 {
        lemma_abc(x.i, OpCode::VarArg, a, k, b, c);
    } else if op == 81 {
        lemma_abc(x.i, OpCode::VarArgPrep, a, k, b, c);
    } else if op == 75 {
        lemma_abx(x.i, OpCode::TForPrep, a, bx);
    } else {
        lemma_abx(x.i, OpCode::Closure, a, bx);
    }
}

} // verus!
