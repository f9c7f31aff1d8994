//! How calls on the library's objects relate: tables, captured variables, values held for a
//! host, coroutines, limits and warnings. Each law speaks of calls that were made, one on what
//! the one before it left.

use vstd::prelude::*;
use vstd::string::StringSliceAdditionalSpecFns;
use crate::access::Stringed;
use crate::boot::new_state_seeded;
use crate::callinfo::CallInfo;
use crate::close::Closing;
use crate::float::flt_eq;
use crate::float::flt_lt;
use crate::forloop::ForNumerals;
use crate::forloop::ForStart;
use crate::forloop::for_start;
use crate::gc_barrier::Barrier;
use crate::gc_barrier::Party;
use crate::gc_pace::GenPlan;
use crate::gc_pace::ModeChange;
use crate::global::GcKind;
use crate::global::GlobalState;
use crate::global::LuaCallable;
use crate::global::TestWarnMode;
use crate::heap::GcRef;
use crate::heap::Heap;
use crate::heap::value_ref;
use crate::host::Embedding;
use crate::host::ImportedFileHandle;
use crate::host::LastError;
use crate::host::LuaByteHasher;
use crate::meta::GetOutcome;
use crate::meta::SetOutcome;
use crate::meta::law_plain_table;
use crate::meta::law_write_read;
use crate::meta_laws::law_binary_handler;
use crate::objects::find_bare;
use crate::opcode::Instruction;
use crate::opcode::OpCode;
use crate::opcode::op_mode_byte;
use crate::roots::ExternalRootKey;
use crate::roots::law_stale_key;
use crate::sandbox::SandboxLimits;
use crate::state::LuaState;
use crate::string::hash_bytes;
use crate::string::hash_down;
use crate::string::is_blank;
use crate::string::trim_whitespace;
use crate::tagmethods::TagMethod;
use crate::tagmethods::handler;
use crate::tmcalls::BinOutcome;
use crate::undump::undump;
use crate::upvals::law_upvalue_write_read;
use crate::upvals::upval_far_ok;
use crate::upvals::upval_near_ok;
use crate::upvals::upval_of;
use crate::value::CallInfoIdx;
use crate::value::LClosureId;
use crate::value::LuaClosure;
use crate::value::LuaError;
use crate::value::LuaStatus;
use crate::value::LuaValue;
use crate::value::LuaVersion;
use crate::value::StackIdx;
use crate::value::StrId;
use crate::value::TableId;
use crate::value::ThreadRef;
use crate::value::UserDataId;
use crate::varargs::dots;
use crate::varargs::law_fetched;
use crate::warn::Warning;
use crate::zio::ChunkReader;
use crate::zio::LexBuffer;
use crate::zio::ZIO;

verus! {

/// A value that a host holds is found under its key, and no other key sees a change.
pub proof fn law_root_held(
    s: &LuaState,
    g: &mut GlobalState,
    v: LuaValue,
    key: ExternalRootKey,
    r: Option<LuaValue>,
    other: ExternalRootKey,
    before: Option<LuaValue>,
    after: Option<LuaValue>,
)
    requires
        call_ensures(LuaState::external_root_value, (s, g, v), key),
        call_ensures(LuaState::external_rooted_value, (s, final(g), key), r),
        other != key,
        call_ensures(LuaState::external_rooted_value, (s, old(g), other), before),
        call_ensures(LuaState::external_rooted_value, (s, final(g), other), after),
    ensures
        r == Some(v),
        after == before,
        final(g).heap == old(g).heap,
{
}

/// Replacing what a key holds gives back what it held. A key that holds nothing is left so.
pub proof fn law_root_replaced(
    s: &LuaState,
    g: &mut GlobalState,
    key: ExternalRootKey,
    v: LuaValue,
    before: Option<LuaValue>,
    r: Option<LuaValue>,
    after: Option<LuaValue>,
)
    requires
        call_ensures(LuaState::external_rooted_value, (s, old(g), key), before),
        call_ensures(LuaState::external_replace_root, (s, g, key, v), r),
        call_ensures(LuaState::external_rooted_value, (s, final(g), key), after),
    ensures
        r == before,
        before is Some ==> after == Some(v),
        before is None ==> after is None,
{
}

/// A key that was given up holds nothing, whatever is held later.
pub proof fn law_root_released(
    s: &LuaState,
    g: &mut GlobalState,
    key: ExternalRootKey,
    before: Option<LuaValue>,
    r: Option<LuaValue>,
    h: &mut GlobalState,
    v: LuaValue,
    newer: ExternalRootKey,
    after: Option<LuaValue>,
)
    requires
        call_ensures(LuaState::external_rooted_value, (s, old(g), key), before),
        before is Some,
        call_ensures(LuaState::external_unroot_value, (s, g, key), r),
        *old(h) == *final(g),
        call_ensures(LuaState::external_root_value, (s, h, v), newer),
        call_ensures(LuaState::external_rooted_value, (s, final(h), key), after),
    ensures
        r == before,
        newer != key,
        after is None,
{
    law_stale_key(
        old(g).external_roots,
        final(g).external_roots,
        final(h).external_roots,
        key,
        newer,
        v,
    );
}

/// What was stored in a table under an integer is read back from it, and every other integer
/// reads as before, in this table and in any other.
pub proof fn law_element_stored(
    g: &mut GlobalState,
    t: TableId,
    at: usize,
    v: LuaValue,
    r: Result<(), LuaError>,
    q: Option<LuaValue>,
    u: TableId,
    n: i64,
    before: Option<LuaValue>,
    after: Option<LuaValue>,
)
    requires
        call_ensures(GlobalState::table_array_set, (g, &LuaValue::Table(t), at, v), r),
        at < i64::MAX,
        u.0 < old(g).heap.tables.items@.len(),
        t.0 < old(g).heap.tables.items@.len(),
        call_ensures(GlobalState::fast_get_int, (final(g), &LuaValue::Table(t), (at + 1) as i64), q),
        call_ensures(GlobalState::fast_get_int, (old(g), &LuaValue::Table(u), n), before),
        call_ensures(GlobalState::fast_get_int, (final(g), &LuaValue::Table(u), n), after),
        u != t || n != at + 1,
    ensures
        r is Ok,
        v != LuaValue::Nil ==> q == Some(v),
        v == LuaValue::Nil ==> q is None,
        after == before,
{
    let k = LuaValue::Int((at + 1) as i64);
    law_write_read(old(g).heap, t, k, v, final(g).heap, u, LuaValue::Int(n));
    law_write_read(old(g).heap, t, k, v, final(g).heap, t, k);
}

/// A table without a metatable gives back under a key what was assigned to it.
pub proof fn law_field_assigned(
    g: &mut GlobalState,
    t: TableId,
    k: LuaValue,
    v: LuaValue,
    r: Result<SetOutcome, LuaError>,
    q: Result<GetOutcome, LuaError>,
)
    requires
        old(g).wf(),
        t.0 < old(g).heap.tables.items@.len(),
        old(g).heap.tables.items@[t.0 as int].metatable is None,
        k is Int || k is Str || k is Bool || k is Table,
        call_ensures(
            GlobalState::table_set_with_tm,
            (g, LuaValue::Table(t), k, v, None::<StackIdx>, None::<usize>),
            r,
        ),
        call_ensures(GlobalState::table_get_with_tm, (final(g), LuaValue::Table(t), k, None::<StackIdx>), q),
    ensures
        r == Ok::<SetOutcome, LuaError>(SetOutcome::Done),
        q == Ok::<GetOutcome, LuaError>(GetOutcome::Value(v)),
{
    law_plain_table(*old(g), *final(g), t, k, v, old(g).plain_write(LuaValue::Table(t), k));
}

/// The length of a table ends a row: every integer from one up to it has a value, and the next
/// one has none.
pub proof fn law_length_ends(
    g: &GlobalState,
    t: TableId,
    r: Result<i64, LuaError>,
    i: i64,
    q: Option<LuaValue>,
)
    requires
        call_ensures(GlobalState::table_length, (g, &LuaValue::Table(t)), r),
        call_ensures(GlobalState::fast_get_int, (g, &LuaValue::Table(t), i), q),
    ensures
        r matches Ok(n) && n >= 0 && (1 <= i <= n ==> q is Some) && (i == n + 1 ==> q is None),
{
}

/// A captured variable reads as what was assigned to it, through every closure that shares it.
pub proof fn law_variable_assigned(
    s: &mut LuaState,
    g: &mut GlobalState,
    cl: LClosureId,
    n: usize,
    v: LuaValue,
    dl: LClosureId,
    m: usize,
    q: LuaValue,
)
    requires
        old(g).wf(),
        old(s).wf(old(g).heap.sizes()),
        cl.0 < old(g).heap.lclosures.items@.len(),
        n < old(g).heap.lclosures.items@[cl.0 as int].upvals@.len(),
        old(g).heap.lclosures.items@[dl.0 as int].upvals@[m as int] == old(g).heap.lclosures.items@[cl.0 as int].upvals@[n as int],
        upval_near_ok(*old(s), old(g).heap.upvals.items@[upval_of(*old(g), cl, n as int).0 as int]),
        upval_far_ok(*old(g), old(g).heap.upvals.items@[upval_of(*old(g), cl, n as int).0 as int]),
        call_ensures(LuaState::upvalue_set, (s, g, cl, n, v), ()),
        call_ensures(LuaState::upvalue_get, (final(s), final(g), dl, m), q),
    ensures
        q == v,
{
    let uv = upval_of(*old(g), cl, n as int);
    assert(old(g).heap.sizes().upvals == old(g).heap.upvals.items@.len());
    law_upvalue_write_read(*old(s), *old(g), uv, v, *final(s), *final(g));
}

/// Short strings are interned: the same bytes give the same string again. Long ones are not.
pub proof fn law_string_again(
    s: &mut LuaState,
    g: &mut GlobalState,
    x: &[u8],
    a: StrId,
    t: &mut LuaState,
    h: &mut GlobalState,
    y: &[u8],
    b: StrId,
)
    requires
        old(g).wf(),
        call_ensures(LuaState::intern_str, (s, g, x), a),
        *old(h) == *final(g),
        call_ensures(LuaState::intern_str, (t, h, y), b),
    ensures
        a == b <==> x@ == y@ && x@.len() <= 40,
{
    crate::global::law_intern_identity(*old(g), x@, *final(g), a, y@, *final(h), b);
}

/// Trimming leaves nothing to trim, and takes nothing but blanks off.
pub proof fn law_trimmed(s: &[u8], r: Vec<u8>, a: &[u8], b: Vec<u8>)
    requires
        call_ensures(trim_whitespace, (s,), r),
        a@ == r@,
        call_ensures(trim_whitespace, (a,), b),
    ensures
        b@ == r@,
        r@.len() > 0 ==> !blank(r@[0]) && !blank(r@.last()),
        s@.len() > 0 && !blank(s@[0]) && !blank(s@.last()) ==> r@ == s@,
        r@.len() <= s@.len(),
{
    let (i, j) = choose|i: int, j: int|
        #![trigger s@.subrange(i, j)]
        0 <= i <= j <= s@.len() && r@ == s@.subrange(i, j) && (forall|k: int|
            0 <= k < i || j <= k < s@.len() ==> is_blank(#[trigger] s@[k])) && (i < j ==> !is_blank(s@[i]) && !is_blank(
            s@[j - 1],
        ));
    let (m, n) = choose|m: int, n: int|
        #![trigger a@.subrange(m, n)]
        0 <= m <= n <= a@.len() && b@ == a@.subrange(m, n) && (forall|k: int|
            0 <= k < m || n <= k < a@.len() ==> is_blank(#[trigger] a@[k])) && (m < n ==> !is_blank(a@[m]) && !is_blank(
            a@[n - 1],
        ));
    if i < j {
        assert(a@[0] == s@[i] && a@[j - i - 1] == s@[j - 1]);
    }
    assert(b@ =~= r@);
}

/// The bytes that count as blank: space, tab, line feed, form feed and carriage return.
pub open spec fn blank(b: u8) -> bool {
    b == 32 || b == 9 || b == 10 || b == 12 || b == 13
}

/// A new coroutine is found under its number, by the handle that its creator was given. It
/// starts with its body alone on its stack and is not running, and no other number changes its
/// meaning.
pub proof fn law_coroutine_made(
    s: &mut LuaState,
    g: &mut GlobalState,
    body: LuaValue,
    id: u64,
    r: Option<ThreadRef>,
    i: int,
)
    requires
        old(g).wf(),
        old(g).next_thread_id < u64::MAX,
        old(g).main_thread_id != old(g).next_thread_id,
        call_ensures(LuaState::new_thread, (s, g, Some(body)), id),
        call_ensures(GlobalState::thread_value_for, (final(g), id), r),
        0 <= i < old(s).top.0,
    ensures
        r matches Some(v) && final(s).stack@[old(s).top.0 as int] == LuaValue::Thread(v),
        final(s).top.0 == old(s).top.0 + 1,
        final(s).stack@[i] == old(s).stack@[i],
        final(g).threads@.last().state matches Some(n) && n.stack@[1] == body && n.top.0 == 2 && n.status == 0
            && n.cached_thread_id == id,
        final(g).threads@.len() == old(g).threads@.len() + 1,
        final(g).next_thread_id > id,
{
    let n = old(g).threads@.len() as int;
    assert(final(g).threads@[n].id == id);
    assert(crate::global::threads_ok(final(g).heap.sizes(), final(g).threads@));
    let j = final(g).thread_at(id)->0;
    assert(final(g).threads@[j].id == id);
    if j < n {
        assert(final(g).threads@[j].id != final(g).threads@[n].id);
    }
}

/// A budget of instructions that was installed is what is left at first. A charge takes from
/// it what it costs; one that takes all of it or more stops the program, until the limits are
/// reset, which gives the whole budget back.
pub proof fn law_budget_installed(
    s: &mut LuaState,
    w: &mut SandboxLimits,
    interval: i32,
    limit: u64,
    t: &LuaState,
    g: &mut GlobalState,
    amount: u64,
    before: u64,
    e: Option<LuaError>,
    after: u64,
    h: &mut GlobalState,
    again: u64,
)
    requires
        call_ensures(LuaState::install_sandbox_limits, (s, w, interval, Some(limit), None::<usize>), ()),
        old(g).sandbox == *final(w),
        call_ensures(LuaState::sandbox_instr_remaining, (t, old(g)), before),
        call_ensures(LuaState::sandbox_charge, (t, g, amount), e),
        call_ensures(LuaState::sandbox_instr_remaining, (t, final(g)), after),
        *old(h) == *final(g),
        call_ensures(LuaState::sandbox_reset, (t, h), ()),
        call_ensures(LuaState::sandbox_instr_remaining, (t, final(h)), again),
    ensures
        before == limit,
        amount >= limit ==> e is Some && after == 0 && final(g).sandbox.aborting,
        amount < limit ==> e is None && after == limit - amount && final(g).sandbox.aborting == old(w).aborting,
        again == limit,
        !final(h).sandbox.aborting,
        final(s).hookcount == final(s).basehookcount && final(s).hookcount >= 1,
        interval >= 1 ==> final(s).hookcount == interval,
        final(g).heap == old(g).heap,
{
    crate::sandbox::law_budget(old(g).sandbox, amount, old(g).spec_total_bytes(), e, final(g).sandbox);
}

/// Memory that would go past an installed limit is refused and stops the program; what fits is
/// granted and changes nothing.
pub proof fn law_memory_installed(
    s: &mut LuaState,
    w: &mut SandboxLimits,
    interval: i32,
    limit: usize,
    t: &LuaState,
    g: &mut GlobalState,
    more: usize,
    e: Option<LuaError>,
    used: usize,
)
    requires
        call_ensures(LuaState::install_sandbox_limits, (s, w, interval, None::<u64>, Some(limit)), ()),
        old(g).sandbox == *final(w),
        limit < usize::MAX,
        call_ensures(GlobalState::total_bytes, (old(g),), used),
        call_ensures(LuaState::sandbox_reserve, (t, g, more), e),
    ensures
        used + more > limit ==> e is Some && final(g).sandbox.aborting,
        used + more <= limit ==> e is None && *final(g) == *old(g),
{
    assert(old(g).sandbox.interval >= 1);
}

/// The marks of a frame are kept apart: each reads as it was set, and setting one leaves the
/// others.
pub proof fn law_frame_marks(
    a: &mut CallInfo,
    on: bool,
    trap: bool,
    lua: bool,
    lua2: bool,
    b: &mut CallInfo,
    allow: bool,
    oah: bool,
    c: &mut CallInfo,
    code: i32,
    status: i32,
    trap2: bool,
)
    requires
        call_ensures(CallInfo::set_trap, (a, on), ()),
        call_ensures(CallInfo::trap, (final(a),), trap),
        call_ensures(CallInfo::is_lua, (old(a),), lua),
        call_ensures(CallInfo::is_lua, (final(a),), lua2),
        call_ensures(CallInfo::set_oah, (b, allow), ()),
        call_ensures(CallInfo::get_oah, (final(b),), oah),
        *old(c) == *final(a),
        0 <= code < 8,
        call_ensures(CallInfo::set_recover_status, (c, code), ()),
        call_ensures(CallInfo::recover_status, (final(c),), status),
        call_ensures(CallInfo::trap, (final(c),), trap2),
    ensures
        trap == on,
        lua2 == lua,
        oah == allow,
        status == code,
        trap2 == on,
        final(a).func == old(a).func && final(a).top == old(a).top && final(a).nresults == old(a).nresults,
{
    crate::callinfo::law_status_parts(old(a).callstatus, 0);
    crate::callinfo::law_status_parts(old(b).callstatus, 0);
    crate::callinfo::law_status_parts(old(c).callstatus, code as u16);
    let w = code as u16;
    assert(w & 7 == w) by (bit_vector)
        requires
            w < 8,
    ;
    let s = old(b).callstatus;
    assert((s & !crate::callinfo::CIST_OAH) | 0 == s & !crate::callinfo::CIST_OAH) by (bit_vector);
}

/// What a native frame keeps for its continuation reads as it was kept.
pub proof fn law_continuation_kept(
    a: &mut CallInfo,
    k: Option<usize>,
    b: &mut CallInfo,
    ctx: isize,
    c: &mut CallInfo,
    e: isize,
    d: &mut CallInfo,
    idx: i32,
    rk: Option<usize>,
    rc: isize,
    re: isize,
)
    requires
        call_ensures(CallInfo::set_u_c_k, (a, k), ()),
        *old(b) == *final(a),
        call_ensures(CallInfo::set_u_c_ctx, (b, ctx), ()),
        *old(c) == *final(b),
        call_ensures(CallInfo::set_u_c_old_errfunc, (c, e), ()),
        *old(d) == *final(c),
        call_ensures(CallInfo::set_u2_funcidx, (d, idx), ()),
        call_ensures(CallInfo::u_c_k, (final(d),), rk),
        call_ensures(CallInfo::u_c_ctx, (final(d),), rc),
        call_ensures(CallInfo::u_c_old_errfunc, (final(d),), re),
    ensures
        rk == k,
        rc == ctx,
        re == e,
        final(d).u2.value == idx,
        final(d).callstatus == old(a).callstatus && final(d).func == old(a).func,
{
}

/// The mark of a tail call is out of sight while the hook for a call runs, in 5.1, and is as it
/// was after it.
pub proof fn law_hook_round(a: &mut LuaState, v: LuaVersion, ci: CallInfoIdx, mark: u16, b: &mut LuaState)
    requires
        call_ensures(LuaState::hook_call, (a, v, ci), mark),
        ci.0 < old(a).call_info@.len(),
        *old(b) == *final(a),
        call_ensures(LuaState::hook_call_done, (b, ci, mark), ()),
    ensures
        final(b).call_info@[ci.0 as int].callstatus == old(a).call_info@[ci.0 as int].callstatus,
        v != LuaVersion::V51 ==> *final(a) == *old(a),
        final(b).stack@ == old(a).stack@,
{
    crate::access::law_hook_mark_restored(old(a).call_info@[ci.0 as int].callstatus);
    let s = old(a).call_info@[ci.0 as int].callstatus;
    assert(s | 0 == s) by (bit_vector);
}

/// The settings of hooks read as they were made.
pub proof fn law_hook_settings(
    a: &mut LuaState,
    n: i32,
    b: &mut LuaState,
    m: u8,
    c: &mut LuaState,
    base: i32,
    d: &mut LuaState,
    pc: u32,
    rn: i32,
    rm: u8,
    rb: i32,
    rp: u32,
)
    requires
        call_ensures(LuaState::set_hook_count, (a, n), ()),
        *old(b) == *final(a),
        call_ensures(LuaState::set_hook_mask, (b, m), ()),
        *old(c) == *final(b),
        call_ensures(LuaState::set_base_hook_count, (c, base), ()),
        *old(d) == *final(c),
        call_ensures(LuaState::set_old_pc, (d, pc), ()),
        call_ensures(LuaState::hook_count, (final(d),), rn),
        call_ensures(LuaState::hook_mask, (final(d),), rm),
        call_ensures(LuaState::base_hook_count, (final(d),), rb),
        call_ensures(LuaState::old_pc, (final(d),), rp),
    ensures
        rn == n && rm == m && rb == base && rp == pc,
        final(d).stack@ == old(a).stack@ && final(d).top == old(a).top && final(d).call_info@ == old(a).call_info@,
{
}

/// A protected call that failed leaves the stack where the function stood, and the error is the
/// value that stands there; one that succeeded changes nothing.
pub proof fn law_protected(a: &mut LuaState, func: StackIdx, status: LuaStatus, r: Result<(), LuaError>)
    requires
        call_ensures(LuaState::protected_call_raw, (a, func, status), r),
        func.0 < old(a).stack@.len(),
    ensures
        status == LuaStatus::Okay <==> r is Ok,
        r is Ok ==> *final(a) == *old(a),
        r is Err ==> final(a).top == func,
        status == LuaStatus::ErrRun ==> r == Err::<(), LuaError>(LuaError::Runtime(old(a).stack@[func.0 as int])),
        status == LuaStatus::ErrSyntax ==> r == Err::<(), LuaError>(LuaError::Syntax(old(a).stack@[func.0 as int])),
        final(a).call_info@ == old(a).call_info@,
{
}

/// A number in a slot reads as itself through every way to ask for it, and as nothing where
/// another kind is asked for.
pub proof fn law_numbers_read(
    a: &mut LuaState,
    at: StackIdx,
    v: LuaValue,
    i: Option<i64>,
    f: Option<u64>,
    n: Option<u64>,
)
    requires
        call_ensures(LuaState::set_at, (a, at, v), ()),
        at.0 < old(a).stack@.len(),
        call_ensures(LuaState::get_int_at, (final(a), at), i),
        call_ensures(LuaState::get_float_at, (final(a), at), f),
        call_ensures(LuaState::get_num_at, (final(a), at), n),
    ensures
        v matches LuaValue::Int(x) ==> i == Some(x) && f is None && n is Some,
        v matches LuaValue::Float(x) ==> f == Some(x) && i is None && n == Some(x),
        !(v is Int || v is Float) ==> i is None && f is None && n is None,
{
}

/// Values taken off the stack one at a time or together leave it at the same place.
pub proof fn law_taken_off(a: &mut LuaState, b: &mut LuaState, c: &mut LuaState)
    requires
        call_ensures(LuaState::dec_top, (a,), ()),
        *old(b) == *final(a),
        call_ensures(LuaState::dec_top, (b,), ()),
        *old(c) == *old(a),
        call_ensures(LuaState::pop_n, (c, 2usize), ()),
    ensures
        final(b).top == final(c).top,
        old(a).top.0 >= 2 ==> final(c).top.0 + 2 == old(a).top.0,
        final(c).stack@ == old(a).stack@,
{
}

/// A stack with room for `n` values more need not grow for them.
pub proof fn law_room(a: &LuaState, n: i32, grow: bool, room: usize)
    requires
        call_ensures(LuaState::needs_growth, (a, n), grow),
        call_ensures(LuaState::stack_available, (a,), room),
        0 <= n,
    ensures
        !grow <==> room > n,
{
}

/// A message that a host recorded is what it reads, where there is room for it, and is gone once
/// cleared.
pub proof fn law_message_recorded(
    a: &mut Embedding,
    m: Vec<u8>,
    n: usize,
    r: LastError,
    room: usize,
    b: &mut Embedding,
    gone: LastError,
)
    requires
        call_ensures(Embedding::set_last_error, (a, m), ()),
        call_ensures(Embedding::last_error_len, (final(a),), n),
        call_ensures(Embedding::last_error_read, (final(a), Some(room)), r),
        *old(b) == *final(a),
        call_ensures(Embedding::clear_last_error, (b,), ()),
        call_ensures(Embedding::last_error_read, (final(b), Some(room)), gone),
    ensures
        n == m@.len(),
        0 < n <= room && n <= i32::MAX ==> (r matches LastError::Text(t) && t@ == m@),
        room < n ==> r == LastError::NoRoom,
        n == 0 ==> r == LastError::Absent,
        gone == LastError::Absent,
        final(b).version == old(a).version,
{
}

/// A version is told by the code it was chosen by. A code of no version changes none.
pub proof fn law_version_chosen(a: &mut Embedding, code: u32, ok: bool, before: u32, after: u32)
    requires
        call_ensures(Embedding::version_code, (old(a),), before),
        call_ensures(Embedding::set_version, (a, code), ok),
        call_ensures(Embedding::version_code, (final(a),), after),
    ensures
        ok <==> 0x51 <= code <= 0x55,
        ok ==> after == code,
        !ok ==> after == before,
{
}

/// A byte that was put back is the next one read, and only once. A file's error stays until it
/// is cleared.
pub proof fn law_byte_put_back(
    a: &mut ImportedFileHandle,
    byte: i32,
    b: &mut ImportedFileHandle,
    r: Option<i32>,
    c: &mut ImportedFileHandle,
    q: Option<i32>,
    d: &mut ImportedFileHandle,
    answer: i32,
    got: i32,
    bad: bool,
    e: &mut ImportedFileHandle,
    clear: bool,
)
    requires
        0 <= byte <= 255,
        call_ensures(ImportedFileHandle::unread_byte, (a, byte), ()),
        *old(b) == *final(a),
        call_ensures(ImportedFileHandle::read_byte, (b,), r),
        *old(c) == *final(b),
        call_ensures(ImportedFileHandle::read_byte, (c,), q),
        *old(d) == *final(c),
        call_ensures(ImportedFileHandle::byte_read, (d, answer), got),
        call_ensures(ImportedFileHandle::has_error, (final(d),), bad),
        *old(e) == *final(d),
        call_ensures(ImportedFileHandle::clear_error, (e,), ()),
        call_ensures(ImportedFileHandle::has_error, (final(e),), clear),
    ensures
        r == Some(byte),
        q is None,
        answer >= -1 ==> got == answer,
        answer < -1 ==> got == -1 && bad,
        old(a).errored ==> bad,
        !old(a).errored && answer >= -1 ==> !bad,
        !clear,
        final(e).id == old(a).id,
{
}

/// Writes, flushes and seeks of a file succeed with what the host answered, and a negative
/// answer or a status marks the file.
pub proof fn law_file_answers(
    a: &mut ImportedFileHandle,
    n: i32,
    w: Option<usize>,
    b: &mut ImportedFileHandle,
    st: i32,
    f: bool,
    c: &mut ImportedFileHandle,
    pos: i64,
    p: Option<u64>,
)
    requires
        call_ensures(ImportedFileHandle::write_bytes, (a, n), w),
        call_ensures(ImportedFileHandle::flush, (b, st), f),
        call_ensures(ImportedFileHandle::seek, (c, pos), p),
    ensures
        n >= 0 ==> (w matches Some(k) && k == n && *final(a) == *old(a)),
        n < 0 ==> w is None && final(a).errored,
        f <==> st == 0,
        st == 0 ==> *final(b) == *old(b),
        st != 0 ==> final(b).errored,
        pos >= 0 ==> (p matches Some(k) && k == pos && *final(c) == *old(c)),
        pos < 0 ==> p is None && final(c).errored,
{
}

/// Hashing bytes in two parts is hashing them at once, and a single byte is a part.
pub proof fn law_hash_in_parts(
    a: &mut LuaByteHasher,
    x: &[u8],
    b: &mut LuaByteHasher,
    y: &[u8],
    c: &mut LuaByteHasher,
    z: &[u8],
    p: u64,
    q: u64,
    d: &mut LuaByteHasher,
    i: u8,
    e: &mut LuaByteHasher,
    one: &[u8],
)
    requires
        call_ensures(LuaByteHasher::write, (a, x), ()),
        *old(b) == *final(a),
        call_ensures(LuaByteHasher::write, (b, y), ()),
        call_ensures(LuaByteHasher::finish, (final(b),), p),
        *old(c) == *old(a),
        z@ == x@ + y@,
        call_ensures(LuaByteHasher::write, (c, z), ()),
        call_ensures(LuaByteHasher::finish, (final(c),), q),
        call_ensures(LuaByteHasher::write_u8, (d, i), ()),
        *old(e) == *old(d),
        one@ == seq![i],
        call_ensures(LuaByteHasher::write, (e, one), ()),
    ensures
        p == q,
        final(d).hash == final(e).hash,
{
    crate::host::law_hash_parts(old(a).hash, x@, y@);
}

/// A stop of the collector that the library makes for itself is undone by giving back the flags
/// that it returned.
pub proof fn law_stop_undone(
    a: &mut GlobalState,
    was: u8,
    stopped: bool,
    running: bool,
    b: &mut GlobalState,
    c: &mut GlobalState,
    runs: bool,
)
    requires
        call_ensures(GlobalState::stop_gc_internal, (a,), was),
        call_ensures(GlobalState::is_gc_stopped_internally, (final(a),), stopped),
        call_ensures(GlobalState::gc_running, (final(a),), running),
        *old(b) == *final(a),
        call_ensures(GlobalState::set_gc_stop_flags, (b, was), ()),
        *old(c) == *final(a),
        call_ensures(GlobalState::clear_gc_stop, (c,), ()),
        call_ensures(GlobalState::gc_running, (final(c),), runs),
    ensures
        stopped,
        !running,
        *final(b) == *old(a),
        runs,
{
    let f = old(a).gcstp;
    assert((f | crate::global::GCSTPGC) & crate::global::GCSTPGC != 0) by (bit_vector);
    assert((f | crate::global::GCSTPGC) != 0) by (bit_vector);
}

/// The parameters of the collector are kept in steps of four: one from zero up to what a byte of
/// them holds reads as the last such step.
pub proof fn law_parameters_kept(
    a: &mut GlobalState,
    p: i32,
    r: i32,
    b: &mut GlobalState,
    s: i32,
    c: &mut GlobalState,
    m: i32,
    d: &mut GlobalState,
    debt: isize,
    owed: isize,
)
    requires
        0 <= p < 1024,
        call_ensures(GlobalState::set_gc_pause_param, (a, p), ()),
        call_ensures(GlobalState::gc_pause_param, (final(a),), r),
        call_ensures(GlobalState::set_gc_stepmul_param, (b, p), ()),
        call_ensures(GlobalState::gc_stepmul_param, (final(b),), s),
        call_ensures(GlobalState::set_gc_genmajormul, (c, p), ()),
        call_ensures(GlobalState::gc_genmajormul_param, (final(c),), m),
        call_ensures(GlobalState::set_gc_debt, (d, debt), ()),
        call_ensures(GlobalState::gc_debt, (final(d),), owed),
    ensures
        r <= p < r + 4 && r % 4 == 0,
        s == r,
        m == r,
        owed == debt,
        final(a).gcstepmul == old(a).gcstepmul && final(b).gcpause == old(b).gcpause,
{
    assert((p as int / 4) % 256 == p as int / 4);
}

/// A named parameter is told before it is changed, and a negative value only asks.
pub proof fn law_parameter_asked(a: &mut GlobalState, i: usize, v: i64, r: i64, b: &mut GlobalState, q: i64, j: usize)
    requires
        i < old(a).gc55_params@.len(),
        j < old(a).gc55_params@.len(),
        call_ensures(GlobalState::gc55_param, (a, i, v), r),
        *old(b) == *final(a),
        call_ensures(GlobalState::gc55_param, (b, j, -1i64), q),
    ensures
        j == i && v >= 0 ==> q == v,
        j == i && v < 0 ==> q == r,
        j != i ==> q == old(a).gc55_params@[j as int],
        final(b).gc55_params@ == final(a).gc55_params@,
{
}

/// What the collector is still to be told is handed over once, in order.
pub proof fn law_told_once(
    a: &mut GlobalState,
    x: Barrier,
    b: &mut GlobalState,
    r: Vec<Barrier>,
    c: &mut GlobalState,
    q: Vec<Barrier>,
)
    requires
        call_ensures(GlobalState::tell, (a, Some(x)), ()),
        *old(b) == *final(a),
        call_ensures(GlobalState::take_barriers, (b,), r),
        *old(c) == *final(b),
        call_ensures(GlobalState::take_barriers, (c,), q),
    ensures
        r@ == old(a).barriers@.push(x),
        q@.len() == 0,
        final(b).heap == old(a).heap,
{
}

/// Switching the collector's mode to the one it is in changes no object and no pace; leaving
/// generational mode is done at once, and entering it is left to be done.
pub proof fn law_mode_changed(a: &mut GlobalState, mode: GcKind, r: ModeChange)
    requires
        call_ensures(GlobalState::change_mode, (a, mode), r),
    ensures
        r == ModeChange::ToGenerational <==> mode == GcKind::Generational && old(a).gckind != mode,
        r == ModeChange::Done ==> final(a).gckind == mode && final(a).lastatomic == 0,
        r == ModeChange::ToGenerational ==> *final(a) == *old(a),
        final(a).heap == old(a).heap && final(a).gc_debt == old(a).gc_debt,
{
}

/// A thread that was closed has no error and no call left, and reports the error it died with;
/// one that only yielded reports none.
pub proof fn law_thread_closed(a: &mut LuaState, from: Option<&LuaState>, r: i32)
    requires
        call_ensures(LuaState::close_thread, (a, from), r),
        old(a).call_info@.len() > 0,
        old(a).stack@.len() > 0,
    ensures
        old(a).status == 1 ==> r == 0,
        old(a).status != 1 ==> r == old(a).status,
        final(a).status == 0,
        final(a).ci.0 == 0,
        final(a).call_info@[0].func.0 == 0,
        final(a).stack@[0] == LuaValue::Nil,
        from is None ==> final(a).n_ccalls == 0,
        from matches Some(f) ==> final(a).n_ccalls == f.n_ccalls % 0x10000,
        forall|i: int| 0 < i < old(a).stack@.len() ==> #[trigger] final(a).stack@[i] == old(a).stack@[i],
{
}

/// After its variables were closed, a reset thread keeps its error alone, or nothing, and has
/// room for a call.
pub proof fn law_thread_reset(a: &mut LuaState, status: i32, r: i32, i: int)
    requires
        call_ensures(LuaState::reset_thread_end, (a, status), r),
        old(a).call_info@.len() > 0,
        old(a).stack@.len() > 0,
        old(a).top.0 <= u32::MAX - 25,
        0 <= i < final(a).top.0,
        i < old(a).stack@.len(),
    ensures
        r == status,
        status == 0 ==> final(a).top.0 == 1,
        status != 0 ==> final(a).top == old(a).top,
        final(a).stack@[i] == old(a).stack@[i],
        final(a).stack_last.0 == final(a).top.0 + 20,
        final(a).call_info@[0].top.0 == final(a).top.0 + 20,
        final(a).stack@.len() >= final(a).stack_last.0,
{
}

/// A state that is whole runs its finalizers before it goes, from its first frame; one that is
/// not is freed as it is.
pub proof fn law_closing(a: &mut LuaState, g: &GlobalState, whole: bool, r: Closing)
    requires
        call_ensures(GlobalState::is_complete, (g,), whole),
        call_ensures(LuaState::close_state, (a, g), r),
    ensures
        whole ==> r == Closing::RunFinalizers && final(a).ci.0 == 0,
        !whole ==> r == Closing::Free && *final(a) == *old(a),
        final(a).stack@ == old(a).stack@,
{
}

/// New userdata has as many zero bytes and values without content as were asked for, and no
/// metatable.
pub proof fn law_userdata_made(
    s: &mut LuaState,
    g: &mut GlobalState,
    size: usize,
    n: usize,
    u: UserDataId,
    i: int,
    j: int,
)
    requires
        call_ensures(LuaState::new_userdata, (s, g, size, n), u),
        0 <= i < size,
        0 <= j < n,
    ensures
        ({
            let d = final(g).heap.userdata.items@[u.0 as int];
            &&& d.data@.len() == size && d.data@[i] == 0
            &&& d.uv@.len() == n && d.uv@[j] == LuaValue::Nil
            &&& d.metatable is None
        }),
        u.0 == old(g).heap.userdata.items@.len(),
        final(g).heap.tables == old(g).heap.tables,
        final(s).stack@ == old(s).stack@,
{
}

/// A native function with values of its own gets as many as were asked for, each without
/// content, up to the most there can be.
pub proof fn law_native_made(
    s: &mut LuaState,
    g: &mut GlobalState,
    f: usize,
    n: i32,
    r: Result<LuaClosure, LuaError>,
    i: int,
)
    requires
        call_ensures(LuaState::new_c_closure, (s, g, f, n), r),
        0 <= i < n,
    ensures
        n > 255 ==> r is Err && *final(g) == *old(g),
        n <= 255 ==> (r matches Ok(LuaClosure::C(c)) && ({
            let d = final(g).heap.cclosures.items@[c.0 as int];
            &&& d.upvalues@.len() == n && d.upvalues@[i] == LuaValue::Nil
            &&& final(g).c_functions@[d.func as int] == LuaCallable::Bare(f)
        })),
{
}

/// The place where a function is found holds it.
proof fn lemma_found_bare(s: Seq<LuaCallable>, f: usize, i: int)
    requires
        0 <= i,
        find_bare(s, f, i) < s.len(),
    ensures
        i <= find_bare(s, f, i),
        s[find_bare(s, f, i)] == LuaCallable::Bare(f),
    decreases s.len() - i,
{
    if i < s.len() && s[i] != LuaCallable::Bare(f) {
        lemma_found_bare(s, f, i + 1);
    }
}

/// A light native function names what it was made of.
pub proof fn law_light_native(s: &mut LuaState, g: &mut GlobalState, f: usize, n: i32, r: Result<LuaClosure, LuaError>)
    requires
        call_ensures(LuaState::new_c_closure, (s, g, f, n), r),
        n == 0,
    ensures
        r matches Ok(LuaClosure::LightC(i)) && final(g).c_functions@[i as int] == LuaCallable::Bare(f),
        final(g).heap == old(g).heap,
{
    if find_bare(old(g).c_functions@, f, 0) < old(g).c_functions@.len() {
        lemma_found_bare(old(g).c_functions@, f, 0);
    }
}

/// The frames kept for later calls are halved, or left where there is one at most; every frame
/// in use stays.
pub proof fn law_frames_halved(a: &mut LuaState, i: int)
    requires
        call_ensures(LuaState::shrink_ci, (a,), ()),
        old(a).ci.0 < old(a).call_info@.len(),
        0 <= i <= old(a).ci.0,
    ensures
        ({
            let spare = old(a).call_info@.len() - old(a).ci.0 - 1;
            let left = final(a).call_info@.len() - old(a).ci.0 - 1;
            &&& spare <= 1 ==> left == spare
            &&& spare > 1 ==> 2 * left <= spare <= 2 * left + 1
        }),
        final(a).call_info@[i].func == old(a).call_info@[i].func,
        final(a).call_info@[i].previous == old(a).call_info@[i].previous,
        final(a).ci == old(a).ci && final(a).stack@ == old(a).stack@,
{
}

/// Only 5.1 counts the tail calls of a frame.
pub proof fn law_tail_calls_counted(a: &mut LuaState, v: LuaVersion, ci: CallInfoIdx)
    requires
        call_ensures(LuaState::note_lua_tailcall, (a, v, ci), ()),
        ci.0 < old(a).call_info@.len(),
        old(a).call_info@[ci.0 as int].tailcalls < u16::MAX,
    ensures
        v == LuaVersion::V51 ==> final(a).call_info@[ci.0 as int].tailcalls == old(a).call_info@[ci.0 as int].tailcalls + 1,
        v != LuaVersion::V51 ==> *final(a) == *old(a),
        final(a).stack@ == old(a).stack@,
{
}

/// A buffer that was cut keeps its first bytes, and one that was cleared keeps none.
pub proof fn law_buffer_cut(a: &mut LexBuffer, n: usize, len: usize, cut: usize, i: int, b: &mut LexBuffer, none: usize)
    requires
        call_ensures(LexBuffer::len, (old(a),), len),
        call_ensures(LexBuffer::truncate_by, (a, n), ()),
        call_ensures(LexBuffer::len, (final(a),), cut),
        0 <= i < cut,
        *old(b) == *final(a),
        call_ensures(LexBuffer::clear, (b,), ()),
        call_ensures(LexBuffer::len, (final(b),), none),
    ensures
        n <= len ==> cut + n == len,
        n > len ==> cut == 0,
        final(a)@[i] == old(a)@[i],
        none == 0,
{
}

/// The test handler for warnings: in its normal mode it shows those that start with `#` while it
/// is on, where it allows all of them it shows every one while it is on, and where it stores
/// them it hands every one to the program. A message in parts counts as one.
pub proof fn law_test_warnings(
    s: &mut LuaState,
    g: &mut GlobalState,
    handled: bool,
    first: &[u8],
    w: Warning,
    t: &mut LuaState,
    h: &mut GlobalState,
    second: &[u8],
    v: Warning,
)
    requires
        old(g).test_warn_enabled,
        !old(g).test_warn_last_to_cont,
        old(g).test_warn_buffer@.len() == 0,
        call_ensures(LuaState::emit_warning, (s, g, handled, first, true), w),
        *old(h) == *final(g),
        call_ensures(LuaState::emit_warning, (t, h, handled, second, false), v),
        first@.len() > 0,
    ensures
        w == Warning::Silent,
        ({
            let msg = first@ + second@;
            let line = "Lua warning: ".spec_bytes() + msg + seq![0x0au8];
            let on = old(g).test_warn_on;
            match old(g).test_warn_mode {
                TestWarnMode::Normal => if on && first@[0] == 0x23 {
                    v matches Warning::Write(b) && b@ == line
                } else {
                    v == Warning::Silent
                },
                TestWarnMode::Allow => if on {
                    v matches Warning::Write(b) && b@ == line
                } else {
                    v == Warning::Silent
                },
                TestWarnMode::Store => v matches Warning::Store(b) && b@ == msg,
            }
        }),
        final(h).test_warn_buffer@.len() == 0,
        final(h).test_warn_mode == old(g).test_warn_mode && final(h).test_warn_on == old(g).test_warn_on,
{
    assert(old(g).test_warn_buffer@ + first@ =~= first@);
}

/// Without the test handler, a warning goes to the host's handler where there is one.
pub proof fn law_host_warnings(s: &mut LuaState, g: &mut GlobalState, msg: &[u8], more: bool, w: Warning)
    requires
        !old(g).test_warn_enabled,
        call_ensures(LuaState::emit_warning, (s, g, true, msg, more), w),
    ensures
        w == Warning::Handler,
        *final(g) == *old(g),
        *final(s) == *old(s),
{
}

/// Installing the test handler turns it off at first, in its normal mode.
pub proof fn law_test_handler_installed(
    s: &mut LuaState,
    g: &mut GlobalState,
    t: &mut LuaState,
    h: &mut GlobalState,
    handled: bool,
    msg: &[u8],
    w: Warning,
)
    requires
        call_ensures(LuaState::enable_test_warning_handler, (s, g), ()),
        *old(h) == *final(g),
        call_ensures(LuaState::emit_warning, (t, h, handled, msg, false), w),
        msg@.len() == 0 || msg@[0] != 0x40,
    ensures
        w == Warning::Silent,
{
    assert(Seq::<u8>::empty() + msg@ =~= msg@);
}

/// A limit of zero is no limit, but where the host is closed off: there the standard ones hold.
pub proof fn law_limits_chosen(a: &mut Embedding, instructions: u64, memory: u64, strict: i32)
    requires
        call_ensures(Embedding::set_limits, (a, instructions, memory, strict), ()),
    ensures
        final(a).limits is Some,
        final(a).limits->0.strict == (strict != 0),
        instructions != 0 ==> final(a).limits->0.instruction_limit == Some(instructions),
        memory != 0 ==> final(a).limits->0.memory_limit_bytes == Some(memory as usize),
        instructions == 0 && strict == 0 ==> final(a).limits->0.instruction_limit is None,
        memory == 0 && strict == 0 ==> final(a).limits->0.memory_limit_bytes is None,
        instructions == 0 && strict != 0 ==> final(a).limits->0.instruction_limit == Some(10_000_000u64),
        memory == 0 && strict != 0 ==> final(a).limits->0.memory_limit_bytes == Some(67_108_864usize),
        final(a).version == old(a).version,
{
}

/// An error that carries a string is told by its bytes, one with a message by the message, and
/// a success leaves none.
pub proof fn law_error_told(
    a: &mut Embedding,
    h: &Heap,
    e: LuaError,
    text: Vec<u8>,
    code: i32,
    n: usize,
    b: &mut Embedding,
    good: i32,
    m: usize,
)
    requires
        call_ensures(Embedding::finish, (a, h, &Err::<(), LuaError>(e), text), code),
        call_ensures(Embedding::last_error_len, (final(a),), n),
        call_ensures(Embedding::finish, (b, h, &Ok::<(), LuaError>(()), text), good),
        call_ensures(Embedding::last_error_len, (final(b),), m),
    ensures
        code == 0 && good == 1,
        m == 0,
        e matches LuaError::RuntimeMsg(t) ==> n == t@.len() && final(a).last_error@ == t@,
        e matches LuaError::Runtime(LuaValue::Str(s)) ==> final(a).last_error@ == h.strings.items@[s.0 as int].bytes@,
        e matches LuaError::Syntax(LuaValue::Str(s)) ==> final(a).last_error@ == h.strings.items@[s.0 as int].bytes@,
        e matches LuaError::Runtime(LuaValue::Table(_)) ==> final(a).last_error@ == text@,
{
}

/// A loop over floats is entered where its first index has not passed its limit, and its three
/// numbers are the ones that were given.
pub proof fn law_float_start(
    init: u64,
    limit: u64,
    step: u64,
    n: ForNumerals,
    r: Result<ForStart, LuaError>,
    zero: bool,
    up: bool,
    over: bool,
    under: bool,
)
    requires
        call_ensures(for_start, (&LuaValue::Float(init), &LuaValue::Float(limit), &LuaValue::Float(step), n), r),
        call_ensures(flt_eq, (step, 0u64), zero),
        call_ensures(flt_lt, (0u64, step), up),
        call_ensures(flt_lt, (limit, init), over),
        call_ensures(flt_lt, (init, limit), under),
    ensures
        zero ==> r is Err,
        !zero && (if up {
            over
        } else {
            under
        }) ==> (r matches Ok(ForStart::Skip { control: None })),
        !zero && !(if up {
            over
        } else {
            under
        }) ==> r == Ok::<ForStart, LuaError>(ForStart::Floats { init: init, limit: limit, step: step }),
{
}

/// Extra arguments kept in a table are its elements from one on.
pub proof fn law_dots_in_table(
    a: &mut LuaState,
    g: &GlobalState,
    ci: CallInfoIdx,
    t: TableId,
    n: u32,
    at: StackIdx,
    wanted: i32,
    i: u32,
    q: Option<LuaValue>,
)
    requires
        call_ensures(LuaState::get_varargs, (a, g, ci, Some(t), n, at, wanted), ()),
        call_ensures(GlobalState::fast_get_int, (g, &LuaValue::Table(t), (i + 1) as i64), q),
        i < n,
        wanted < 0 || i < wanted,
        at.0 + n <= old(a).stack@.len() <= u32::MAX,
        at.0 + wanted <= old(a).stack@.len(),
    ensures
        final(a).stack@[at.0 + i] == (match q {
            Some(v) => v,
            None => LuaValue::Nil,
        }),
        wanted < 0 ==> final(a).top.0 == at.0 + n,
{
    law_fetched(*old(a), at.0 as int, wanted as int, dots(*old(a), *g, ci, Some(t), n as int), *final(a), i as int);
}

/// A hash takes the bytes from the last to the first: one byte more in front is one more
/// mixed in, once the length that the hash starts from is made up for.
pub proof fn law_hash_step(s: &[u8], seed: u32, h: u32, t: &[u8], other: u32, k: u32)
    requires
        call_ensures(hash_bytes, (s, seed), h),
        t@.len() == s@.len() + 1,
        forall|i: int| 0 <= i < s@.len() ==> t@[i + 1] == #[trigger] s@[i],
        other ^ (t@.len() as u32) == seed ^ (s@.len() as u32),
        call_ensures(hash_bytes, (t, other), k),
    ensures
        k == h ^ (h << 5u32).wrapping_add(h >> 2u32).wrapping_add(t@[0] as u32),
        s@.len() == 0 ==> h == seed,
{
    lemma_hash_shifted(s@, t@, 0, seed ^ (s@.len() as u32));
    assert(seed ^ 0u32 == seed) by (bit_vector);
}

/// A hash of a string is that of the same bytes one place further on.
proof fn lemma_hash_shifted(s: Seq<u8>, t: Seq<u8>, i: int, h: u32)
    requires
        0 <= i <= s.len(),
        t.len() == s.len() + 1,
        forall|j: int| 0 <= j < s.len() ==> t[j + 1] == #[trigger] s[j],
    ensures
        hash_down(t, i + 1, h) == hash_down(s, i, h),
    decreases s.len() - i,
{
    if i < s.len() {
        lemma_hash_shifted(s, t, i + 1, h);
        assert(t[i + 1] == s[i]);
    }
}

/// What the byte of an opcode says of it, by its number: the tests are those before a jump, the
/// fallbacks of operators call handlers, and the formats are those of the fields that the
/// instructions are read by.
pub proof fn law_opcode_byte(op: OpCode, r: u8)
    requires
        call_ensures(op_mode_byte, (op,), r),
    ensures
        ({
            let n = op.spec_index();
            &&& r / 128 == 1 <==> 46 <= n <= 48
            &&& (r / 16) % 2 == 1 <==> 57 <= n <= 67
            &&& r % 8 == 4 <==> n == 56
            &&& r % 8 == 2 <==> 1 <= n <= 2
            &&& r % 8 == 1 <==> 3 <= n <= 4 || 73 <= n <= 75 || n == 77 || n == 79
            &&& r % 8 == 3 <==> n == 82
            &&& (r / 32) % 2 == 1 <==> n == 68 || n == 69 || n == 70 || n == 78 || n == 81
            &&& (r / 64) % 2 == 1 <==> n == 68 || n == 69 || n == 80
        }),
{
}

/// After a full collection in generational mode following a bad one: if it left less than an
/// eighth more than the last one it is good, and minor collections start again; else the count
/// is kept for the next one, and the mode stays.
pub proof fn law_after_bad(a: &mut GlobalState, last: usize, n: usize, good: bool)
    requires
        call_ensures(GlobalState::stepgenfull_done, (a, last, n), good),
        1 <= n,
        last + last / 8 <= usize::MAX,
    ensures
        good <==> n < last + last / 8,
        good ==> final(a).gckind == GcKind::Generational && final(a).lastatomic == 0,
        !good ==> final(a).gckind == GcKind::Incremental && final(a).lastatomic == n,
        final(a).heap == old(a).heap,
{
}

/// After a step in generational mode: a minor collection keeps the base that growth is measured
/// by, and a major one that brought memory back under half of the growth counts as good.
pub proof fn law_generational_step(a: &mut GlobalState, n: usize, base: usize, inc: usize, b: &mut GlobalState, used: usize)
    requires
        call_ensures(GlobalState::generational_step_done, (a, (GenPlan::Minor { base: base }), n), ()),
        call_ensures(GlobalState::generational_step_done, (b, (GenPlan::Major { base: base, inc: inc }), n), ()),
        call_ensures(GlobalState::total_bytes, (old(b),), used),
        base + inc / 2 <= usize::MAX,
        1 <= n,
    ensures
        final(a).gc_estimate == base,
        final(a).gckind == old(a).gckind,
        final(b).gckind == GcKind::Generational,
        used < base + inc / 2 ==> final(b).lastatomic == 0,
        used >= base + inc / 2 ==> final(b).lastatomic == n,
        final(b).gc_estimate == used,
{
}

/// A stack keeps its values when it gets another size, as far as they fit.
pub proof fn law_stack_resized(a: &mut LuaState, size: usize, n: usize, i: int)
    requires
        call_ensures(LuaState::realloc_stack, (a, size), ()),
        call_ensures(LuaState::stack_size, (final(a),), n),
        size + 5 <= u32::MAX,
        0 <= i < size + 5,
    ensures
        n == size,
        final(a).stack@.len() == size + 5,
        i < old(a).stack@.len() ==> final(a).stack@[i] == old(a).stack@[i],
        i >= old(a).stack@.len() ==> final(a).stack@[i] == LuaValue::Nil,
        final(a).top == old(a).top,
{
}

/// A new state is whole, collects in steps with the standard pace, has no limits and no
/// metatables, and finds its main thread and its globals in the registry.
pub proof fn law_fresh_state(
    seed: u32,
    r: (LuaState, GlobalState),
    whole: bool,
    runs: bool,
    pause: i32,
    mul: i32,
    major: i32,
    limited: bool,
    main: bool,
    one: LuaValue,
    two: LuaValue,
    three: LuaValue,
)
    requires
        call_ensures(new_state_seeded, (seed,), r),
        call_ensures(GlobalState::is_complete, (&r.1,), whole),
        call_ensures(GlobalState::gc_running, (&r.1,), runs),
        call_ensures(GlobalState::gc_pause_param, (&r.1,), pause),
        call_ensures(GlobalState::gc_stepmul_param, (&r.1,), mul),
        call_ensures(GlobalState::gc_genmajormul_param, (&r.1,), major),
        call_ensures(GlobalState::sandbox_active, (&r.1,), limited),
        call_ensures(LuaState::is_main_thread, (&r.0, &r.1), main),
        call_ensures(LuaState::registry_get, (&r.0, &r.1, 1usize), one),
        call_ensures(LuaState::registry_get, (&r.0, &r.1, 2usize), two),
        call_ensures(LuaState::registry_get, (&r.0, &r.1, 3usize), three),
    ensures
        whole && runs && main && !limited,
        pause == 200 && mul == 100 && major == 100,
        r.1.lua_version == LuaVersion::V54,
        one == LuaValue::Thread(r.1.main_thread_value),
        two == r.1.globals && two is Table,
        three == LuaValue::Nil,
        r.0.top.0 == 1 && r.0.ci.0 == 0 && r.0.status == 0,
        r.1.threads@.len() == 0,
        forall|i: int| 0 <= i < 9 ==> (#[trigger] r.1.mt@[i]) is None,
        r.1.seed == seed,
{
    assert(crate::table::norm_key(LuaValue::Int(1)) == LuaValue::Int(1));
    assert(crate::table::norm_key(LuaValue::Int(2)) == LuaValue::Int(2));
    assert(crate::table::norm_key(LuaValue::Int(3)) == LuaValue::Int(3));
}

/// The instruction that a frame is at is the one before the place that was noted, and the one
/// before it precedes it.
pub proof fn law_current_instruction(
    a: &mut LuaState,
    g: &GlobalState,
    ci: CallInfoIdx,
    pc: u32,
    cl: LClosureId,
    p: Instruction,
    q: Instruction,
    r: Instruction,
)
    requires
        ci.0 < old(a).call_info@.len(),
        old(a).call_info@[ci.0 as int].func.0 < old(a).stack@.len(),
        old(a).stack@[old(a).call_info@[ci.0 as int].func.0 as int] == LuaValue::Function(LuaClosure::Lua(cl)),
        2 <= pc,
        call_ensures(LuaState::set_ci_savedpc, (a, ci, pc), ()),
        call_ensures(LuaState::ci_prev_instruction, (final(a), g, ci), p),
        call_ensures(LuaState::ci_prev2_instruction, (final(a), g, ci), q),
        call_ensures(LuaState::get_proto_instr, (final(a), g, ci, pc), r),
    ensures
        ({
            let code = g.heap.protos.items@[g.heap.lclosures.items@[cl.0 as int].proto.0 as int].code@;
            p == code[pc - 1] && q == code[pc - 2] && r == code[pc as int]
        }),
{
}

/// A value of the running function or from the top of the stack is read as a string where it is
/// one, as a number to be written where it is one, and refused otherwise.
pub proof fn law_read_as_string(a: &LuaState, i: i32, r: Result<Stringed, LuaError>, j: i32, q: Result<Stringed, LuaError>)
    requires
        i > 0,
        j < 0,
        a.top.0 + j >= 0,
        a.call_info@[a.ci.0 as int].func.0 + i < a.stack@.len() <= u32::MAX,
        a.top.0 <= a.stack@.len(),
        call_ensures(LuaState::obj_to_string, (a, i), r),
        call_ensures(LuaState::obj_to_string, (a, j), q),
    ensures
        ({
            let at = a.call_info@[a.ci.0 as int].func.0 + i;
            let v = a.stack@[at];
            &&& v matches LuaValue::Str(s) ==> r == Ok::<Stringed, LuaError>(Stringed::Str(s))
            &&& v is Int || v is Float ==> (r matches Ok(Stringed::Number { slot, value }) && slot.0 == at && value == v)
            &&& !(v is Str || v is Int || v is Float) ==> (r matches Err(LuaError::TypeError { value, .. }) && value == v)
        }),
        ({
            let at = a.top.0 + j;
            let v = a.stack@[at];
            &&& v matches LuaValue::Str(s) ==> q == Ok::<Stringed, LuaError>(Stringed::Str(s))
            &&& v is Int || v is Float ==> (q matches Ok(Stringed::Number { slot, value }) && slot.0 == at && value == v)
            &&& !(v is Str || v is Int || v is Float) ==> q is Err
        }),
{
}

/// An operand in the instruction is asked about as the same integer in a register would be, on
/// the side that it stands on.
pub proof fn law_immediate_operand(
    g: &GlobalState,
    p: LuaValue,
    at: Option<StackIdx>,
    num: Option<LuaValue>,
    i: i64,
    event: TagMethod,
    r: Result<BinOutcome, LuaError>,
    q: Result<BinOutcome, LuaError>,
)
    requires
        !(p is Str),
        call_ensures(GlobalState::try_bini_tm, (g, p, at, num, i, false, event), r),
        call_ensures(GlobalState::try_bini_tm, (g, p, at, num, i, true, event), q),
        handler(*g, p, event) != LuaValue::Nil,
    ensures
        r matches Ok(BinOutcome::Call(c)) && c.f == handler(*g, p, event) && c.p1 == p && c.p2 == LuaValue::Int(i),
        handler(*g, LuaValue::Int(i), event) == LuaValue::Nil ==> (q matches Ok(BinOutcome::Call(c)) && c.f == handler(*g, p, event)
            && c.p1 == LuaValue::Int(i) && c.p2 == p),
{
    law_binary_handler(*g, p, at, num, LuaValue::Int(i), None, None, event, r);
    law_binary_handler(*g, LuaValue::Int(i), None, None, p, at, num, event, q);
}

/// A frame that was entered afresh returns to no frame; any other to the one before it.
pub proof fn law_returns_to(a: &LuaState, ci: CallInfoIdx, r: Option<CallInfoIdx>, fresh: bool, p: Option<CallInfoIdx>)
    requires
        call_ensures(LuaState::return_target, (a, ci), r),
        call_ensures(LuaState::ci_is_fresh, (a, ci), fresh),
        call_ensures(LuaState::ci_previous, (a, ci), p),
    ensures
        fresh ==> r is None,
        !fresh ==> r == p,
        p == a.call_info@[ci.0 as int].previous,
{
}

/// The collector is looked at again where one is due, or a finalizer is.
pub proof fn law_look_again(a: &mut LuaState, g: &GlobalState)
    requires
        call_ensures(LuaState::gc_check_step_done, (a, g), ()),
    ensures
        final(a).gc_check_needed <==> g.collect_due || g.finalizers.to_be_finalized@.len() > 0,
        final(a).stack@ == old(a).stack@ && final(a).top == old(a).top,
{
}

/// A chunk that loads leaves its main function on the stack, and one that is at fault leaves no
/// function there.
pub proof fn law_loaded(
    s: &mut LuaState,
    g: &mut GlobalState,
    bytes: Vec<u8>,
    big: bool,
    r: Result<LClosureId, LuaError>,
    i: int,
)
    requires
        old(s).wf(old(g).heap.sizes()),
        old(s).top.0 < u32::MAX,
        call_ensures(undump, (s, g, bytes, big), r),
        0 <= i < old(s).top.0,
    ensures
        r matches Ok(c) ==> final(s).top.0 == old(s).top.0 + 1 && final(s).stack@[old(s).top.0 as int]
            == LuaValue::Function(LuaClosure::Lua(c)) && c.0 < final(g).heap.lclosures.items@.len(),
        r is Err ==> final(s).top.0 <= old(s).top.0 + 1 && (final(s).top.0 == old(s).top.0 + 1
            ==> final(s).stack@[old(s).top.0 as int] == LuaValue::Nil),
        final(s).stack@[i] == old(s).stack@[i],
{
}

/// Bytes that were put back are read again in order, one at a time, without asking for more.
pub proof fn law_bytes_put_back<R: ChunkReader>(
    a: &mut ZIO<R>,
    bytes: Vec<u8>,
    pos: usize,
    b: &mut ZIO<R>,
    x: i32,
    c: &mut ZIO<R>,
    y: i32,
    d: &mut ZIO<R>,
    buf: &mut Vec<u8>,
)
    requires
        pos + 2 <= bytes@.len(),
        call_ensures(ZIO::<R>::put_back, (a, bytes, pos), ()),
        *old(b) == *final(a),
        call_ensures(ZIO::<R>::getc, (b,), x),
        *old(c) == *final(b),
        call_ensures(ZIO::<R>::getc, (c,), y),
        *old(d) == *final(c),
        call_ensures(ZIO::<R>::drain_into, (d, buf), ()),
    ensures
        x == bytes@[pos as int],
        y == bytes@[pos + 1],
        final(buf)@ == old(buf)@ + bytes@.skip(pos + 2),
        final(d).reader == old(a).reader,
{
    assert(bytes@.skip(pos as int).skip(1).skip(1) =~= bytes@.skip(pos + 2));
}

/// Every kind of value has a tag of its own, with the type below and the variant above: the
/// types are numbered from nil to threads, and a tag says which one it is.
pub proof fn law_value_tags(h: &Heap, v: LuaValue, r: u8)
    requires
        call_ensures(LuaValue::full_type_tag, (&v, h), r),
    ensures
        r % 16 == (match v {
            LuaValue::Nil => 0int,
            LuaValue::Bool(_) => 1,
            LuaValue::LightUserData(_) => 2,
            LuaValue::Int(_) | LuaValue::Float(_) => 3,
            LuaValue::Str(_) => 4,
            LuaValue::Table(_) => 5,
            LuaValue::Function(_) => 6,
            LuaValue::UserData(_) => 7,
            LuaValue::Thread(_) => 8,
        }),
        v is Float || v == LuaValue::Bool(true) ==> r / 16 == 1,
        v is Int || v == LuaValue::Bool(false) || v is Table ==> r / 16 == 0,
        v matches LuaValue::Str(s) ==> (r / 16 == 0 <==> h.strings.items@[s.0 as int].bytes@.len() <= 40),
{
}

/// A new reference between objects is told with its two ends, and one to a value that is no
/// object is not told.
pub proof fn law_reference_told(
    g: &GlobalState,
    p: GcRef,
    v: LuaValue,
    forward: Option<Barrier>,
    back: Option<Barrier>,
)
    requires
        call_ensures(GlobalState::obj_barrier, (g, &Party::Object(p), &Party::Value(v)), forward),
        call_ensures(GlobalState::obj_barrier_back, (g, &Party::Object(p), &Party::Value(v)), back),
    ensures
        value_ref(v) is None ==> forward is None && back is None,
        value_ref(v) matches Some(c) ==> (g.gckind == GcKind::Incremental && g.lastatomic == 0 ==> forward == Some(
            Barrier::Forward { parent: p, child: c },
        ) && back == Some(Barrier::Backward { parent: p, child: c, touch: false })),
        value_ref(v) matches Some(c) ==> (g.gckind == GcKind::Generational ==> forward == Some(
            Barrier::ForwardOld { parent: p, child: c },
        ) && back == Some(Barrier::Backward { parent: p, child: c, touch: true })),
{
}

} // verus!
