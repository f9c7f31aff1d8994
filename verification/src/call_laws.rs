//! How calls of the library's functions relate: what one call sets up another finds, and what
//! one call does another undoes. Each law speaks of calls that were made, one on what the one
//! before it left.

use vstd::prelude::*;
use vstd::string::StringSliceAdditionalSpecFns;
use vstd::utf8::encode_utf8;
use crate::concat::joined;
use crate::concat::top_values;
use crate::exec::After;
use crate::exec::Frame;
use crate::exec::Step;
use crate::exec::code_at;
use crate::exec_calls::join_done;
use crate::exec_calls::replaced;
use crate::exec_laws::lemma_abc;
use crate::exec_laws::lemma_abx;
use crate::exec_laws::word_abc;
use crate::exec_laws::word_abx;
use crate::float::flt_le;
use crate::float::flt_lt;
use crate::forloop::ForNumerals;
use crate::forloop::ForStart;
use crate::forloop::spec_for_start;
use crate::global::GlobalState;
use crate::heap::UpVal;
use crate::meta_laws::law_binary_handler;
use crate::opcode::Instruction;
use crate::opcode::OpCode;
use crate::state::LuaState;
use crate::table_laws::law_for_start;
use crate::table_laws::law_for_zero_step;
use crate::tagmethods::TagMethod;
use crate::tagmethods::handler;
use crate::tmcalls::BinOutcome;
use crate::tmcalls::CallRequest;
use crate::tmcalls::TmCall;
use crate::tmcalls::bin_decided;
use crate::value::CallInfoIdx;
use crate::value::LClosureId;
use crate::value::LuaClosure;
use crate::value::LuaError;
use crate::value::LuaStatus;
use crate::value::LuaValue;
use crate::value::LuaVersion;
use crate::value::ProtoId;
use crate::value::StackIdx;
use crate::value::StrId;
use crate::value::TableId;
use crate::value::UpValId;
use crate::varargs::extra_args;
use crate::varargs::law_fetched;
use crate::varargs::law_parameters;
use crate::varargs::slot_above;
use crate::varargs::spec_arg_reg;

verus! {

/// A value that was pushed comes back when it is popped, and the stack is as it was below.
pub proof fn law_push_pop(a: &mut LuaState, b: &mut LuaState, v: LuaValue, r: LuaValue, i: int)
    requires
        call_ensures(LuaState::push, (a, v), ()),
        *old(b) == *final(a),
        call_ensures(LuaState::pop, (b,), r),
        old(a).top.0 <= old(a).stack@.len(),
        old(a).top.0 < u32::MAX,
        0 <= i < old(a).top.0,
    ensures
        r == v,
        final(b).top == old(a).top,
        final(b).stack@[i] == old(a).stack@[i],
        final(b).call_info@ == old(a).call_info@,
{
}

/// A slot that was written reads as what was written, and no other slot changes.
pub proof fn law_slot_written(a: &mut LuaState, at: StackIdx, v: LuaValue, r: LuaValue, other: StackIdx, q: LuaValue)
    requires
        call_ensures(LuaState::set_at, (a, at, v), ()),
        call_ensures(LuaState::get_at, (final(a), at), r),
        call_ensures(LuaState::get_at, (final(a), other), q),
        at.0 < old(a).stack@.len(),
        other != at,
    ensures
        r == v,
        q == (if other.0 < old(a).stack@.len() {
            old(a).stack@[other.0 as int]
        } else {
            LuaValue::Nil
        }),
        final(a).top == old(a).top,
{
}

/// The values of a range of slots are gone once it was cleared, and only those.
pub proof fn law_range_cleared(a: &mut LuaState, start: StackIdx, end: StackIdx, at: StackIdx, r: LuaValue)
    requires
        call_ensures(LuaState::clear_stack_range, (a, start, end), ()),
        call_ensures(LuaState::get_at, (final(a), at), r),
    ensures
        start.0 <= at.0 < end.0 ==> r == LuaValue::Nil,
        at.0 < old(a).stack@.len() && !(start.0 <= at.0 < end.0) ==> r == old(a).stack@[at.0 as int],
{
}

/// A handler called for a result finds itself, its two operands in order and nothing above
/// them. Once its result stands in its own slot and is fetched, the stack ends where it ended
/// before, and the result is in its place.
pub proof fn law_handler_called(a: &mut LuaState, c: TmCall, q: CallRequest, b: &mut LuaState, res: StackIdx, i: int)
    requires
        call_ensures(LuaState::begin_tm_res, (a, c), q),
        old(a).top.0 <= old(a).stack@.len(),
        old(a).top.0 + 3 <= u32::MAX,
        call_ensures(LuaState::finish_tm_res, (b, res), ()),
        old(b).top.0 == q.func.0 + 1,
        old(b).top.0 <= old(b).stack@.len(),
        res.0 < old(b).stack@.len(),
        res.0 < q.func.0,
        0 <= i < old(a).top.0,
    ensures
        final(a).stack@[q.func.0 as int] == c.f,
        final(a).stack@[q.func.0 + 1] == c.p1,
        final(a).stack@[q.func.0 + 2] == c.p2,
        final(a).top.0 == q.func.0 + 3,
        final(a).stack@[i] == old(a).stack@[i],
        q.nresults == 1,
        final(b).top == old(a).top,
        final(b).stack@[res.0 as int] == old(b).stack@[q.func.0 as int],
        i != res.0 && i < old(b).stack@.len() ==> final(b).stack@[i] == old(b).stack@[i],
{
    let vs = seq![c.f, c.p1, c.p2];
    assert(vs[0] == c.f && vs[1] == c.p1 && vs[2] == c.p2);
}

/// A handler called for its effect finds itself and its three operands in order, and owes no
/// result.
pub proof fn law_handler_for_effect(
    a: &mut LuaState,
    f: LuaValue,
    p1: LuaValue,
    p2: LuaValue,
    p3: LuaValue,
    q: CallRequest,
    i: int,
)
    requires
        call_ensures(LuaState::begin_tm, (a, f, p1, p2, p3), q),
        old(a).top.0 <= old(a).stack@.len(),
        old(a).top.0 + 4 <= u32::MAX,
        0 <= i < old(a).top.0,
    ensures
        q.func == old(a).top,
        q.nresults == 0,
        final(a).stack@[q.func.0 as int] == f,
        final(a).stack@[q.func.0 + 1] == p1,
        final(a).stack@[q.func.0 + 2] == p2,
        final(a).stack@[q.func.0 + 3] == p3,
        final(a).top.0 == q.func.0 + 4,
        final(a).stack@[i] == old(a).stack@[i],
{
    let vs = seq![f, p1, p2, p3];
    assert(vs[0] == f && vs[1] == p1 && vs[2] == p2 && vs[3] == p3);
}

/// A handler asked for a truth answers `true` but for `nil` and `false`, and nothing is left of
/// the question.
pub proof fn law_handler_truth(a: &mut LuaState, c: TmCall, q: CallRequest, b: &mut LuaState, r: bool, i: int)
    requires
        call_ensures(LuaState::begin_tm_bool, (a, c), q),
        old(a).top.0 <= old(a).stack@.len(),
        old(a).top.0 + 4 <= u32::MAX,
        call_ensures(LuaState::finish_tm_bool, (b,), r),
        old(b).top.0 == q.func.0 + 1,
        old(b).top.0 <= old(b).stack@.len(),
        0 <= i < old(a).top.0,
    ensures
        final(a).stack@[q.func.0 as int] == c.f,
        final(a).stack@[q.func.0 + 1] == c.p1,
        final(a).stack@[q.func.0 + 2] == c.p2,
        final(a).top.0 == q.func.0 + 3,
        final(a).stack@[i] == old(a).stack@[i],
        q.nresults == 1,
        r == !(old(b).stack@[q.func.0 as int] is Nil || old(b).stack@[q.func.0 as int] == LuaValue::Bool(false)),
        final(b).top == old(a).top,
        final(b).stack@[i] == old(b).stack@[i],
{
    let vs = seq![LuaValue::Nil, c.f, c.p1, c.p2];
    assert(vs[1] == c.f && vs[2] == c.p1 && vs[3] == c.p2);
}

/// So does one asked for an order, and the answer is turned round where the question was.
pub proof fn law_order_answer(a: &mut LuaState, negate: bool, r: bool)
    requires
        call_ensures(LuaState::finish_order_tm, (a, negate), r),
        0 < old(a).top.0 <= old(a).stack@.len(),
    ensures
        ({
            let v = old(a).stack@[old(a).top.0 - 1];
            v is Nil || v == LuaValue::Bool(false) <==> r == negate
        }),
        final(a).top.0 == old(a).top.0 - 1,
        final(a).stack@ == old(a).stack@,
{
}

/// A frame that was entered leads back to the one that was current, which in turn leads to it,
/// and counts no tail call.
pub proof fn law_frame_entered(a: &mut LuaState, ci: CallInfoIdx, b: &mut LuaState)
    requires
        call_ensures(LuaState::next_ci, (a,), ci),
        old(a).ci.0 < old(a).call_info@.len(),
        forall|i: int|
            0 < i < old(a).call_info@.len() ==> (#[trigger] old(a).call_info@[i]).previous == Some(
                CallInfoIdx((i - 1) as u32),
            ),
        *old(b) == (LuaState { ci: ci, ..*final(a) }),
        call_ensures(LuaState::set_ci_previous, (b, ci), ()),
    ensures
        final(b).ci == old(a).ci,
        final(a).call_info@[old(a).ci.0 as int].next == Some(ci),
        final(a).call_info@[ci.0 as int].tailcalls == 0,
        final(a).call_info@[old(a).ci.0 as int].func == old(a).call_info@[old(a).ci.0 as int].func,
        final(b).stack@ == old(a).stack@,
        final(b).top == old(a).top,
{
    let at = old(a).ci.0 as int;
    if at + 1 < old(a).call_info@.len() {
        assert(old(a).call_info@[at + 1].previous == Some(CallInfoIdx(at as u32)));
    }
}

/// Frames beyond the current one can be dropped: those up to it stay, and it has none after it.
pub proof fn law_spare_frames(a: &mut LuaState, i: int)
    requires
        call_ensures(LuaState::free_ci, (a,), ()),
        0 <= i < old(a).ci.0,
    ensures
        final(a).call_info@.len() == old(a).ci.0 + 1,
        final(a).call_info@[i] == old(a).call_info@[i],
        final(a).call_info@[old(a).ci.0 as int].next is None,
        final(a).call_info@[old(a).ci.0 as int].func == old(a).call_info@[old(a).ci.0 as int].func,
        final(a).ci == old(a).ci,
        final(a).stack@ == old(a).stack@,
{
}

/// Calls that may not yield are counted apart from native calls: one keeps the thread from
/// yielding until it is over, and changes no nesting.
pub proof fn law_no_yield(a: &mut LuaState, no: bool, b: &mut LuaState, n: u32, m: u32)
    requires
        call_ensures(LuaState::inc_nny, (a,), ()),
        old(a).n_ccalls <= u32::MAX - 0x10000,
        call_ensures(LuaState::is_yieldable, (final(a),), no),
        call_ensures(LuaState::c_calls, (old(a),), n),
        call_ensures(LuaState::c_calls, (final(a),), m),
        *old(b) == *final(a),
        call_ensures(LuaState::dec_nny, (b,), ()),
    ensures
        !no,
        m == n,
        *final(b) == *old(a),
{
}

/// Native calls nest up to two hundred: the one that reaches it is refused with a message, and
/// one a tenth beyond it as an error in error handling. Every other one is let in.
pub proof fn law_native_nesting(a: &mut LuaState, r: Result<(), LuaError>, n: u32, m: u32)
    requires
        call_ensures(LuaState::c_calls, (old(a),), n),
        call_ensures(LuaState::inc_c_stack, (a,), r),
        call_ensures(LuaState::c_calls, (final(a),), m),
        old(a).n_ccalls < u32::MAX,
        n < 0xffff,
    ensures
        m == n + 1,
        final(a).n_ccalls / 0x10000 == old(a).n_ccalls / 0x10000,
        n < 199 || 200 <= n < 219 ==> r is Ok,
        n == 199 ==> (r matches Err(LuaError::RuntimeMsg(t)) && t@ == "C stack overflow".spec_bytes()),
        n >= 219 ==> r == Err::<(), LuaError>(LuaError::WithStatus(LuaStatus::ErrErr)),
{
}

/// A call that keeps all its results leaves the frame room for them; one that wants a number
/// of them changes nothing.
pub proof fn law_results_fit(a: &mut LuaState, n: i32)
    requires
        call_ensures(LuaState::adjust_results, (a, n), ()),
        old(a).ci.0 < old(a).call_info@.len(),
    ensures
        n >= 0 ==> *final(a) == *old(a),
        n < 0 ==> final(a).top.0 <= final(a).call_info@[old(a).ci.0 as int].top.0,
        n < 0 && old(a).top.0 <= old(a).call_info@[old(a).ci.0 as int].top.0 ==> *final(a) == *old(a),
        final(a).top == old(a).top,
        final(a).stack@ == old(a).stack@,
        final(a).call_info@[old(a).ci.0 as int].func == old(a).call_info@[old(a).ci.0 as int].func,
{
}

/// A frame goes on where it was left: at the instruction that was saved, with its registers
/// right above its function.
pub proof fn law_frame_resumed(
    a: &mut LuaState,
    g: &GlobalState,
    ci: CallInfoIdx,
    pc: u32,
    trap: bool,
    r: Result<Frame, LuaError>,
    cl: LClosureId,
)
    requires
        call_ensures(LuaState::set_ci_savedpc, (a, ci, pc), ()),
        call_ensures(LuaState::enter_frame, (final(a), g, ci, trap), r),
        ci.0 < old(a).call_info@.len(),
        old(a).call_info@[ci.0 as int].func.0 < old(a).stack@.len() <= u32::MAX,
        old(a).stack@[old(a).call_info@[ci.0 as int].func.0 as int] == LuaValue::Function(LuaClosure::Lua(cl)),
    ensures
        r matches Ok(f) && f.pc == pc && f.ci == ci && f.cl == cl && f.trap == trap && f.base.0 == old(a).call_info@[ci.0 as int].func.0
            + 1,
        final(a).stack@ == old(a).stack@,
{
}

/// An instruction that is skipped is found again by a step back.
pub proof fn law_skip_back(a: &mut LuaState, b: &mut LuaState, ci: CallInfoIdx, p: u32, q: u32, r: u32)
    requires
        call_ensures(LuaState::ci_savedpc, (old(a), ci), p),
        call_ensures(LuaState::ci_skip_next_instruction, (a, ci), ()),
        call_ensures(LuaState::ci_savedpc, (final(a), ci), q),
        *old(b) == *final(a),
        call_ensures(LuaState::ci_step_pc_back, (b, ci), ()),
        call_ensures(LuaState::get_ci_pcrel, (final(a), ci), r),
        ci.0 < old(a).call_info@.len(),
        p < u32::MAX,
    ensures
        q == p + 1,
        r == p,
        final(b).call_info@ == old(a).call_info@,
{
    assert(final(b).call_info@ =~= old(a).call_info@);
}

/// What a frame keeps of its results reads as it was kept, and no other frame changes.
pub proof fn law_results_noted(a: &mut LuaState, ci: CallInfoIdx, n: i32, r: i32, other: CallInfoIdx)
    requires
        call_ensures(LuaState::ci_nres_set, (a, ci, n), ()),
        call_ensures(LuaState::ci_nres, (final(a), ci), r),
        ci.0 < old(a).call_info@.len(),
        other.0 < old(a).call_info@.len(),
        other != ci,
    ensures
        r == n,
        final(a).call_info@[other.0 as int] == old(a).call_info@[other.0 as int],
{
}

/// A return gives the host the frame it came with: one that kept arguments below it gets back
/// the function slot it had before they were put there, and its results are the last values
/// on the stack.
pub proof fn law_return_finished(a: &mut LuaState, f: &Frame, ra: StackIdx, n: u32, nparams1: u32, r: Step, i: int)
    requires
        call_ensures(LuaState::finish_return, (a, f, ra, n, nparams1), r),
        f.ci.0 < old(a).call_info@.len(),
        ra.0 + n <= u32::MAX,
        nparams1 != 0 ==> 0 <= old(a).call_info@[f.ci.0 as int].u.nextraargs + nparams1 <= old(a).call_info@[f.ci.0 as int].func.0,
        0 <= i < old(a).stack@.len(),
    ensures
        r == (Step::Poscall { n: n, hooked: false }),
        final(a).top.0 == ra.0 + n,
        i < final(a).stack@.len() ==> final(a).stack@[i] == old(a).stack@[i],
        nparams1 == 0 ==> final(a).call_info@[f.ci.0 as int].func == old(a).call_info@[f.ci.0 as int].func,
        nparams1 != 0 ==> final(a).call_info@[f.ci.0 as int].func.0 + old(a).call_info@[f.ci.0 as int].u.nextraargs + nparams1
            == old(a).call_info@[f.ci.0 as int].func.0,
{
    assert(final(a).at(i) == old(a).at(i));
}

/// A vararg function finds its fixed parameters in its first registers as they were passed, and
/// `...` gives the arguments beyond them, in order: as many as are wanted, `nil` where there
/// are fewer, and all of them where no number is given.
pub proof fn law_dots(
    a: &mut LuaState,
    g: &mut GlobalState,
    nfix: u8,
    ci: CallInfoIdx,
    p: ProtoId,
    b: &mut LuaState,
    nextra: u32,
    at: StackIdx,
    wanted: i32,
    i: int,
)
    requires
        call_ensures(LuaState::adjust_varargs, (a, g, nfix, ci, p), ()),
        ci.0 < old(a).call_info@.len(),
        old(a).call_info@[ci.0 as int].func.0 + 1 + nfix <= old(a).top.0,
        old(a).top.0 + 1 + nfix < old(a).stack@.len(),
        old(a).top.0 + 300 <= i32::MAX,
        *old(b) == *final(a),
        call_ensures(LuaState::get_varargs, (b, &*final(g), ci, None::<TableId>, nextra, at, wanted), ()),
        nextra == old(a).top.0 - (old(a).call_info@[ci.0 as int].func.0 + 1 + nfix),
        old(a).top.0 < at.0,
        at.0 + nextra <= old(a).stack@.len() <= u32::MAX,
        at.0 + wanted <= old(a).stack@.len(),
        0 <= i,
    ensures
        i < nfix ==> final(a).stack@[final(a).call_info@[ci.0 as int].func.0 + 1 + i]
            == old(a).stack@[old(a).call_info@[ci.0 as int].func.0 + 1 + i],
        final(a).call_info@[ci.0 as int].u.nextraargs == nextra,
        i < nextra && (wanted < 0 || i < wanted) ==> final(b).stack@[at.0 + i]
            == old(a).stack@[old(a).call_info@[ci.0 as int].func.0 + 1 + nfix + i],
        nextra <= i < wanted ==> final(b).stack@[at.0 + i] == LuaValue::Nil,
        wanted < 0 ==> final(b).top.0 == at.0 + nextra,
        wanted >= 0 ==> final(b).top == final(a).top,
{
    let reg = spec_arg_reg(old(g).heap.protos.items@[p.0 as int].code@);
    let t = TableId(old(g).heap.tables.items@.len() as usize);
    let above = slot_above(old(g).lua_version, old(a).top.0 as int, nfix as int, reg, t);
    let made = old(g).lua_version == LuaVersion::V51 && reg is Some;
    law_parameters(*old(a), ci, nfix as int, above, made, *final(a), i);
    law_fetched(*old(b), at.0 as int, wanted as int, extra_args(*final(a), ci), *final(b), i);
}

/// A vararg function returns in the slot that it was called in: what moving its arguments did
/// to its frame, its return undoes.
pub proof fn law_vararg_return(
    a: &mut LuaState,
    g: &mut GlobalState,
    nfix: u8,
    ci: CallInfoIdx,
    p: ProtoId,
    b: &mut LuaState,
    f: &Frame,
    ra: StackIdx,
    n: u32,
    nparams1: u32,
    r: Step,
)
    requires
        call_ensures(LuaState::adjust_varargs, (a, g, nfix, ci, p), ()),
        ci.0 < old(a).call_info@.len(),
        old(a).call_info@[ci.0 as int].func.0 + 1 + nfix <= old(a).top.0,
        old(a).top.0 + 1 + nfix < old(a).stack@.len(),
        old(a).top.0 + 300 <= i32::MAX,
        f.ci == ci,
        *old(b) == *final(a),
        nparams1 == nfix + 1,
        ra.0 + n <= u32::MAX,
        call_ensures(LuaState::finish_return, (b, f, ra, n, nparams1), r),
    ensures
        final(b).call_info@[ci.0 as int].func == old(a).call_info@[ci.0 as int].func,
{
}

/// An instruction of the function that a frame runs.
pub open spec fn instr(g: GlobalState, f: Frame, pc: int) -> int {
    g.heap.protos.items@[g.heap.lclosures.items@[f.cl.0 as int].proto.0 as int].code@[pc].0 as int
}

/// Where the jump that follows a test leads.
pub open spec fn jumped(g: GlobalState, f: Frame, test: int) -> int {
    test + 2 + instr(g, f, test + 1) / 0x80 - 0xff_ffff
}

/// An order that a handler decided: the test takes its jump where the answer is the one that
/// the bit `k` of its word names, and goes past it otherwise.
pub proof fn law_order_decided(a: &mut LuaState, g: &GlobalState, f: &mut Frame, negate: bool)
    requires
        call_ensures(LuaState::finish_order, (a, g, f, negate), ()),
        0 < old(f).pc,
        0 < old(a).top.0,
        0 <= jumped(*g, *old(f), old(f).pc - 1) <= u32::MAX,
        old(f).pc < u32::MAX,
    ensures
        ({
            let v = old(a).stack@[old(a).top.0 - 1];
            let yes = !(v is Nil || v == LuaValue::Bool(false)) != negate;
            let k = (instr(*g, *old(f), old(f).pc - 1) / 0x8000) % 2 == 1;
            final(f).pc == (if yes == k {
                jumped(*g, *old(f), old(f).pc - 1)
            } else {
                old(f).pc + 1
            })
        }),
        final(f).cl == old(f).cl && final(f).base == old(f).base && final(f).ci == old(f).ci,
        final(a).top.0 == old(a).top.0 - 1,
        final(a).stack@ == old(a).stack@,
{
}

/// An equality that a handler decided does the same, and the answer is taken off the stack.
pub proof fn law_equality_decided(a: &mut LuaState, g: &GlobalState, f: &mut Frame, i: int)
    requires
        call_ensures(LuaState::finish_equal, (a, g, f), ()),
        0 < old(f).pc,
        2 <= old(a).top.0 <= old(a).stack@.len(),
        0 <= jumped(*g, *old(f), old(f).pc - 1) <= u32::MAX,
        old(f).pc < u32::MAX,
        0 <= i < old(a).top.0 - 2,
    ensures
        ({
            let v = old(a).stack@[old(a).top.0 - 1];
            let yes = !(v is Nil || v == LuaValue::Bool(false));
            let k = (instr(*g, *old(f), old(f).pc - 1) / 0x8000) % 2 == 1;
            final(f).pc == (if yes == k {
                jumped(*g, *old(f), old(f).pc - 1)
            } else {
                old(f).pc + 1
            })
        }),
        final(f).cl == old(f).cl && final(f).base == old(f).base && final(f).ci == old(f).ci,
        final(a).top.0 == old(a).top.0 - 2,
        final(a).stack@[i] == old(a).stack@[i],
{
}

/// A loop over floats goes on while its next index has not passed its limit, upwards with a
/// step above zero and downwards otherwise: the index is then in its two registers and the body
/// runs again. Else the loop is over, and nothing changes.
pub proof fn law_float_loop(
    a: &mut LuaState,
    g: &GlobalState,
    f: &mut Frame,
    idx: u64,
    w: Instruction,
    r: int,
    bx: int,
    limit: u64,
    step: u64,
    up: bool,
    below: bool,
    above: bool,
    i: int,
)
    requires
        call_ensures(LuaState::finish_float_loop, (a, g, f, idx), ()),
        0 < old(f).pc,
        w.0 == instr(*g, *old(f), old(f).pc - 1),
        word_abx(w, 73, r, bx),
        bx <= old(f).pc,
        old(f).base.0 + r + 3 < old(a).stack@.len(),
        old(a).stack@[old(f).base.0 + r + 1] == LuaValue::Float(limit),
        old(a).stack@[old(f).base.0 + r + 2] == LuaValue::Float(step),
        call_ensures(flt_lt, (0, step), up),
        call_ensures(flt_le, (idx, limit), below),
        call_ensures(flt_le, (limit, idx), above),
        0 <= i < old(a).stack@.len(),
    ensures
        ({
            let ra = old(f).base.0 + r;
            let goes_on = if up {
                below
            } else {
                above
            };
            &&& goes_on ==> final(f).pc == old(f).pc - bx && final(a).stack@[ra] == LuaValue::Float(idx)
                && final(a).stack@[ra + 3] == LuaValue::Float(idx)
            &&& !goes_on ==> final(f).pc == old(f).pc && *final(a) == *old(a)
            &&& i != ra && i != ra + 3 ==> final(a).stack@[i] == old(a).stack@[i]
        }),
        final(a).top == old(a).top,
        final(f).cl == old(f).cl && final(f).base == old(f).base && final(f).ci == old(f).ci,
{
    assert(code_at(*g, *old(f), old(f).pc - 1) == w);
    lemma_abx(w, OpCode::ForLoop, r, bx);
    assert(old(a).stack@.update(old(f).base.0 + r + 1, LuaValue::Float(limit)) =~= old(a).stack@);
}

/// A loop over integers is entered where its first index has not passed its limit: the index
/// is then in its two registers, and what is counted down is how often the body runs again.
/// Else the whole loop is jumped over.
pub proof fn law_loop_entered(
    a: &mut LuaState,
    g: &GlobalState,
    f: &mut Frame,
    ra: StackIdx,
    jump: u32,
    n: ForNumerals,
    r: Result<Step, LuaError>,
    init: i64,
    limit: i64,
    step: i64,
    i: int,
)
    requires
        call_ensures(LuaState::finish_forprep, (a, g, f, ra, jump, n), r),
        ra.0 + 3 < old(a).stack@.len(),
        old(f).pc + jump <= u32::MAX,
        old(a).stack@[ra.0 as int] == LuaValue::Int(init),
        old(a).stack@[ra.0 + 1] == LuaValue::Int(limit),
        old(a).stack@[ra.0 + 2] == LuaValue::Int(step),
        step != 0,
        0 <= i < old(a).stack@.len(),
        !(ra.0 <= i <= ra.0 + 3),
    ensures
        r == Ok::<Step, LuaError>(Step::Next),
        final(a).stack@[ra.0 + 3] == LuaValue::Int(init),
        final(a).stack@[ra.0 as int] == LuaValue::Int(init),
        final(a).stack@[ra.0 + 2] == LuaValue::Int(step),
        final(a).stack@[i] == old(a).stack@[i],
        ({
            let past = if step > 0 {
                init > limit
            } else {
                init < limit
            };
            &&& past ==> final(f).pc == old(f).pc + jump
            &&& !past ==> {
                &&& final(f).pc == old(f).pc
                &&& final(a).stack@[ra.0 + 1] is Int
                &&& ({
                    let c = final(a).stack@[ra.0 + 1]->Int_0;
                    let left = if c < 0 {
                        c + 0x1_0000_0000_0000_0000
                    } else {
                        c as int
                    };
                    &&& step > 0 ==> init + left * step <= limit < init + (left + 1) * step
                    &&& step < 0 ==> init + left * step >= limit > init + (left + 1) * step
                })
            }
        }),
{
    law_for_start(init, limit, step, n);
    let start = spec_for_start(LuaValue::Int(init), LuaValue::Int(limit), LuaValue::Int(step), n);
    if let Some(ForStart::Ints { init: from, count, step: by }) = start {
        assert(count as int % 0x1_0000_0000_0000_0000 == count);
    }
}

/// A loop whose step is zero is refused, and nothing of it is entered.
pub proof fn law_loop_refused(
    a: &mut LuaState,
    g: &GlobalState,
    f: &mut Frame,
    ra: StackIdx,
    jump: u32,
    n: ForNumerals,
    r: Result<Step, LuaError>,
    init: i64,
)
    requires
        call_ensures(LuaState::finish_forprep, (a, g, f, ra, jump, n), r),
        ra.0 + 3 < old(a).stack@.len(),
        old(a).stack@[ra.0 as int] == LuaValue::Int(init),
        old(a).stack@[ra.0 + 2] == LuaValue::Int(0),
    ensures
        r is Err,
        *final(f) == *old(f),
        final(a).stack@ == old(a).stack@,
{
    law_for_zero_step(init, old(a).stack@[ra.0 + 1], n);
}

/// A generic loop starts with the call at its end: the iterator is called with the state and the
/// control value, for as many results as the call's word says.
pub proof fn law_generic_loop_entered(
    a: &mut LuaState,
    g: &GlobalState,
    f: &mut Frame,
    r: Step,
    start: Instruction,
    r0: int,
    bx: int,
    call: Instruction,
    ra: int,
    k: int,
    b: int,
    c: int,
)
    requires
        call_ensures(LuaState::finish_tforprep, (a, g, f), r),
        0 < old(f).pc,
        old(f).pc + bx < u32::MAX,
        start.0 == instr(*g, *old(f), old(f).pc - 1),
        word_abx(start, 75, r0, bx),
        call.0 == instr(*g, *old(f), old(f).pc + bx),
        word_abc(call, 76, ra, k, b, c),
        old(f).base.0 + ra + 7 <= old(a).stack@.len() <= u32::MAX,
    ensures
        final(f).pc == old(f).pc + bx + 1,
        final(a).stack@[old(f).base.0 + ra + 4] == old(a).stack@[old(f).base.0 + ra],
        final(a).stack@[old(f).base.0 + ra + 5] == old(a).stack@[old(f).base.0 + ra + 1],
        final(a).stack@[old(f).base.0 + ra + 6] == old(a).stack@[old(f).base.0 + ra + 2],
        final(a).top.0 == old(f).base.0 + ra + 7,
        r matches Step::Call { request, then: After::Iterate } && request.func.0 == old(f).base.0 + ra + 4
            && request.nresults == c,
{
    assert(code_at(*g, *old(f), old(f).pc - 1) == start);
    lemma_abx(start, OpCode::TForPrep, r0, bx);
    assert(code_at(*g, *old(f), old(f).pc + bx) == call);
    lemma_abc(call, OpCode::TForCall, ra, k, b, c);
}

/// After the call, the first result that is not `nil` becomes the control value and the body
/// runs again; at `nil` the loop is over.
pub proof fn law_generic_loop_goes_on(a: &mut LuaState, g: &GlobalState, f: &mut Frame, w: Instruction, ra: int, bx: int, i: int)
    requires
        call_ensures(LuaState::finish_iterate, (a, g, f), ()),
        old(f).pc < u32::MAX,
        w.0 == instr(*g, *old(f), old(f).pc as int),
        word_abx(w, 77, ra, bx),
        bx <= old(f).pc + 1,
        old(f).base.0 + ra + 4 < old(a).stack@.len(),
        0 <= i < old(a).stack@.len(),
    ensures
        ({
            let v = old(a).stack@[old(f).base.0 + ra + 4];
            &&& v != LuaValue::Nil ==> final(f).pc == old(f).pc + 1 - bx && final(a).stack@[old(f).base.0 + ra + 2] == v
            &&& v == LuaValue::Nil ==> final(f).pc == old(f).pc + 1 && *final(a) == *old(a)
        }),
        i != old(f).base.0 + ra + 2 ==> final(a).stack@[i] == old(a).stack@[i],
        final(a).top == old(a).top,
{
    assert(code_at(*g, *old(f), old(f).pc as int) == w);
    lemma_abx(w, OpCode::TForLoop, ra, bx);
}

/// A tail call of a native function returns what it left, from the slot the frame was called in.
pub proof fn law_tailcall_finished(a: &mut LuaState, f: &Frame, delta: i32, n: u32, r: Step)
    requires
        call_ensures(LuaState::finish_tailcall, (a, f, delta, n), r),
        f.ci.0 < old(a).call_info@.len(),
        0 <= old(a).call_info@[f.ci.0 as int].func.0 - delta <= i32::MAX,
    ensures
        final(a).call_info@[f.ci.0 as int].func.0 + delta == old(a).call_info@[f.ci.0 as int].func.0,
        r == (Step::Poscall { n: n, hooked: false }),
        final(a).top == old(a).top,
        final(a).stack@ == old(a).stack@,
{
}

/// Once its arguments are below it, a vararg function runs on the registers above its new
/// function slot.
pub proof fn law_vararg_registers(a: &LuaState, f: &mut Frame, r: bool, c: &mut LuaState, h: &mut Frame)
    requires
        call_ensures(LuaState::finish_varargprep, (a, f), r),
        call_ensures(LuaState::finish_vararg_hook, (c, h), ()),
        a.call_info@[old(f).ci.0 as int].func.0 < u32::MAX,
        old(c).call_info@[old(h).ci.0 as int].func.0 < u32::MAX,
    ensures
        final(f).base.0 == a.call_info@[old(f).ci.0 as int].func.0 + 1,
        final(f).pc == old(f).pc && final(f).cl == old(f).cl && final(f).ci == old(f).ci,
        final(h).base.0 == old(c).call_info@[old(h).ci.0 as int].func.0 + 1,
        final(h).pc == old(h).pc,
        final(c).oldpc == 1,
        final(c).stack@ == old(c).stack@ && final(c).top == old(c).top,
{
}

/// The handler of a binary operation is called with its operands in order, and its result goes
/// to the register of the operation.
pub proof fn law_operation_handed_over(
    a: &mut LuaState,
    g: &GlobalState,
    f: &mut Frame,
    p1: LuaValue,
    i1: Option<StackIdx>,
    n1: Option<LuaValue>,
    p2: LuaValue,
    i2: Option<StackIdx>,
    n2: Option<LuaValue>,
    event: TagMethod,
    res: StackIdx,
    r: Result<Step, LuaError>,
)
    requires
        call_ensures(LuaState::finish_bin, (a, g, f, p1, i1, n1, p2, i2, n2, event, res), r),
        !(p1 is Str) && !(p2 is Str),
        old(a).top.0 <= old(a).stack@.len(),
        old(a).top.0 + 3 <= u32::MAX,
    ensures
        ({
            let first = handler(*g, p1, event);
            let second = handler(*g, p2, event);
            let h = if first != LuaValue::Nil {
                first
            } else {
                second
            };
            &&& h == LuaValue::Nil ==> r is Err && *final(a) == *old(a)
            &&& h != LuaValue::Nil ==> {
                &&& r matches Ok(Step::Call { request, then: After::Store(to) }) && to == res && request.func
                    == old(a).top && request.nresults == 1
                &&& final(a).stack@[old(a).top.0 as int] == h
                &&& final(a).stack@[old(a).top.0 + 1] == p1
                &&& final(a).stack@[old(a).top.0 + 2] == p2
                &&& final(a).top.0 == old(a).top.0 + 3
            }
        }),
{
    let o = choose|o: Result<BinOutcome, LuaError>|
        {
            &&& #[trigger] bin_decided(*g, p1, i1, n1, p2, i2, n2, event, o)
            &&& match o {
                Ok(BinOutcome::Call(c)) => old(a).pushed(seq![c.f, c.p1, c.p2], *final(a)) && r == Ok::<Step, LuaError>(
                    Step::Call {
                        request: CallRequest { func: old(a).top, nresults: 1, yieldable: true },
                        then: After::Store(res),
                    },
                ),
                Ok(BinOutcome::Value(v)) => r == Ok::<Step, LuaError>(Step::Next),
                Err(e) => *final(a) == *old(a) && r == Err::<Step, LuaError>(e),
            }
        };
    law_binary_handler(*g, p1, i1, n1, p2, i2, n2, event, o);
    if let Ok(BinOutcome::Call(c)) = o {
        let vs = seq![c.f, c.p1, c.p2];
        assert(vs[0] == c.f && vs[1] == c.p1 && vs[2] == c.p2);
    }
}

/// A closure shares the variables of the function around it. The registers that it captures
/// are looked up, and where they are found open in the slots that were asked for, reading the
/// variable gives the register that the prototype names; any other variable reads as the one
/// of the function around it that the prototype names.
pub proof fn law_closure_shares(
    s: &LuaState,
    g0: &GlobalState,
    child: ProtoId,
    base: StackIdx,
    slots: Vec<StackIdx>,
    a: &mut LuaState,
    g: &mut GlobalState,
    parent: LClosureId,
    found: &Vec<UpValId>,
    ra: StackIdx,
    c: LClosureId,
    n: usize,
    v: LuaValue,
    m: usize,
    q: LuaValue,
)
    requires
        call_ensures(LuaState::captured_slots, (s, g0, child, base), slots),
        *g0 == *old(g),
        found@.len() == slots@.len(),
        forall|j: int|
            0 <= j < found@.len() ==> old(g).heap.upvals.items@[(#[trigger] found@[j]).0 as int] == (UpVal::Open {
                thread: old(a).cached_thread_id,
                idx: slots@[j],
            }),
        call_ensures(LuaState::push_closure, (a, g, parent, child, found, ra), ()),
        parent.0 < old(g).heap.lclosures.items@.len(),
        final(a).stack@[ra.0 as int] == LuaValue::Function(LuaClosure::Lua(c)),
        n < old(g).heap.protos.items@[child.0 as int].upvalues@.len(),
        call_ensures(LuaState::upvalue_get, (final(a), final(g), c, n), v),
        m == old(g).heap.protos.items@[child.0 as int].upvalues@[n as int].idx,
        call_ensures(LuaState::upvalue_get, (final(a), final(g), parent, m), q),
    ensures
        old(g).heap.protos.items@[child.0 as int].upvalues@[n as int].instack ==> v == final(a).stack@[base.0 + m],
        !old(g).heap.protos.items@[child.0 as int].upvalues@[n as int].instack ==> v == q,
{
    let ds = old(g).heap.protos.items@[child.0 as int].upvalues@;
    assert(ds[n as int].idx == m);
}

/// What a handler for `..` gave takes the place of its two operands; where they were the last
/// ones, the joining is done.
pub proof fn law_concat_resumed(a: &mut LuaState, g: &mut GlobalState, f: &Frame, r: Result<Step, LuaError>, i: int)
    requires
        call_ensures(LuaState::finish_concat, (a, g, f, 2u32), r),
        3 <= old(a).top.0 <= old(a).stack@.len(),
        !(old(a).stack@[old(a).top.0 - 1] is Str),
        0 <= i < old(a).top.0 - 3,
    ensures
        r == Ok::<Step, LuaError>(Step::GcCheck),
        final(a).top.0 == old(a).top.0 - 2,
        final(a).stack@[old(a).top.0 - 3] == old(a).stack@[old(a).top.0 - 1],
        final(a).stack@[i] == old(a).stack@[i],
{
    let m = choose|m: LuaState| #[trigger]
        replaced(*old(a), m) && join_done(m, *old(g), 1, *final(a), *final(g), r);
    let v = old(a).stack@[old(a).top.0 - 1];
    let vs = top_values(m, 1);
    assert(vs =~= seq![v]);
    assert(vs.subrange(0, 1) =~= vs);
    assert(vs.drop_last() =~= Seq::<LuaValue>::empty());
    assert(joined(old(g).heap, vs.drop_last()).len() == 0);
    assert(joined(old(g).heap, vs).len() == 0);
    assert forall|j: int| 0 <= j < 1 implies (#[trigger] joined(old(g).heap, vs.subrange(j, 1))).len() < usize::MAX by {
        assert(j == 0);
    }
}

/// The text of a number that is put in its slot is a string with those bytes, and only that slot
/// changes.
pub proof fn law_text_put(a: &mut LuaState, g: &mut GlobalState, at: StackIdx, bytes: &[u8], i: int)
    requires
        call_ensures(LuaState::set_text, (a, g, at, bytes), ()),
        at.0 < old(a).stack@.len(),
        0 <= i < old(a).stack@.len(),
        i != at.0,
    ensures
        final(a).stack@[at.0 as int] matches LuaValue::Str(s) && final(g).heap.strings.items@[s.0 as int].bytes@ == bytes@,
        final(a).stack@[i] == old(a).stack@[i],
        final(a).top == old(a).top,
{
}

/// The types have these names, and a host's plain pointers one of their own. From 5.3 on, a
/// table or userdata whose metatable has a string under `__name` has that one instead.
pub proof fn law_type_names(g: &GlobalState, v: LuaValue, r: Vec<u8>)
    requires
        call_ensures(GlobalState::obj_type_name, (g, &v), r),
    ensures
        v is Nil ==> r@ == encode_utf8("nil"@),
        v is Bool ==> r@ == encode_utf8("boolean"@),
        v is Int || v is Float ==> r@ == encode_utf8("number"@),
        v is Str ==> r@ == encode_utf8("string"@),
        v is Function ==> r@ == encode_utf8("function"@),
        v is Thread ==> r@ == encode_utf8("thread"@),
        v is LightUserData ==> r@ == "light userdata".spec_bytes(),
        v matches LuaValue::Table(t) ==> (g.heap.tables.items@[t.0 as int].metatable is None || g.lua_version == LuaVersion::V51
            || g.lua_version == LuaVersion::V52 ==> r@ == encode_utf8("table"@)),
        v matches LuaValue::UserData(u) ==> (g.heap.userdata.items@[u.0 as int].metatable is None || g.lua_version
            == LuaVersion::V51 || g.lua_version == LuaVersion::V52 ==> r@ == encode_utf8("userdata"@)),
{
}

/// The name that a metatable gives is found by its bytes.
pub proof fn law_type_renamed(g: &GlobalState, t: TableId, mt: TableId, name: LuaValue, s: StrId, r: Vec<u8>)
    requires
        g.lua_version == LuaVersion::V54 || g.lua_version == LuaVersion::V53 || g.lua_version == LuaVersion::V55,
        g.heap.tables.items@[t.0 as int].metatable == Some(mt),
        call_ensures(GlobalState::obj_type_name, (g, &LuaValue::Table(t)), r),
        name == LuaValue::Str(s),
        crate::tagmethods::value_at_bytes(*g, mt, "__name".spec_bytes()) == name,
    ensures
        r@ == g.heap.strings.items@[s.0 as int].bytes@,
{
}

/// Before a collection, the slots that a thread does not use are emptied, and those in use are
/// left.
pub proof fn law_unused_slots_emptied(a: &mut LuaState, g: &mut GlobalState, i: int)
    requires
        call_ensures(LuaState::gc_clear_dead_stack_tails, (a, g), ()),
        0 <= i < old(a).stack@.len(),
    ensures
        i < old(a).top.0 ==> final(a).stack@[i] == old(a).stack@[i],
        i >= old(a).top.0 ==> final(a).stack@[i] == LuaValue::Nil,
        final(a).top == old(a).top,
        final(g).heap == old(g).heap,
{
}

} // verus!
