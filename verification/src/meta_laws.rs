//! What metamethods are for, stated over the entries of metatables and the order of operands.

use vstd::prelude::*;
use vstd::string::StringSliceAdditionalSpecFns;
use crate::exec::After;
use crate::exec::Step;
use crate::exec_laws::Ran;
use crate::exec_laws::lemma_abc;
use crate::exec_laws::word_abc;
use crate::global::GlobalState;
use crate::heap::Heap;
use crate::meta::EqOutcome;
use crate::meta::GetOutcome;
use crate::meta::IndexChain;
use crate::meta::NewIndexChain;
use crate::meta::eq_plan;
use crate::meta::get_decided;
use crate::meta::index_chain;
use crate::meta::newindex_chain;
use crate::opcode::OpCode;
use crate::table::find_from;
use crate::table::lemma_find_from;
use crate::table::lemma_not_found;
use crate::table::norm_key;
use crate::tagmethods::TagMethod;
use crate::tagmethods::bin_handler;
use crate::tagmethods::event_name_bytes;
use crate::tagmethods::handler;
use crate::tagmethods::metatable_of;
use crate::tmcalls::BinOutcome;
use crate::tmcalls::TmCall;
use crate::tmcalls::bin_decided;
use crate::value::LuaError;
use crate::value::LuaValue;
use crate::value::LuaVersion;
use crate::value::StackIdx;
use crate::value::StrId;
use crate::value::TableId;

verus! {

/// The name of an event.
pub open spec fn event_text(e: TagMethod) -> Seq<u8> {
    match e {
        TagMethod::Index => "__index".spec_bytes(),
        TagMethod::NewIndex => "__newindex".spec_bytes(),
        TagMethod::Gc => "__gc".spec_bytes(),
        TagMethod::Mode => "__mode".spec_bytes(),
        TagMethod::Len => "__len".spec_bytes(),
        TagMethod::Eq => "__eq".spec_bytes(),
        TagMethod::Add => "__add".spec_bytes(),
        TagMethod::Sub => "__sub".spec_bytes(),
        TagMethod::Mul => "__mul".spec_bytes(),
        TagMethod::Mod => "__mod".spec_bytes(),
        TagMethod::Pow => "__pow".spec_bytes(),
        TagMethod::Div => "__div".spec_bytes(),
        TagMethod::IDiv => "__idiv".spec_bytes(),
        TagMethod::BAnd => "__band".spec_bytes(),
        TagMethod::BOr => "__bor".spec_bytes(),
        TagMethod::BXor => "__bxor".spec_bytes(),
        TagMethod::Shl => "__shl".spec_bytes(),
        TagMethod::Shr => "__shr".spec_bytes(),
        TagMethod::Unm => "__unm".spec_bytes(),
        TagMethod::BNot => "__bnot".spec_bytes(),
        TagMethod::Lt => "__lt".spec_bytes(),
        TagMethod::Le => "__le".spec_bytes(),
        TagMethod::Concat => "__concat".spec_bytes(),
        TagMethod::Call => "__call".spec_bytes(),
        _ => "__close".spec_bytes(),
    }
}

/// Every event is looked up under its own name.
pub proof fn law_event_names(e: TagMethod)
    requires
        e != TagMethod::N,
    ensures
        event_name_bytes(e.spec_index()) == event_text(e),
{
}

/// A table in order gives under the key of each of its entries the value of that entry, and
/// under a key that no entry has `nil`. String keys are by their bytes.
pub proof fn law_entries_read(h: Heap, t: TableId, i: int, q: LuaValue)
    requires
        h.wf(),
        t.0 < h.tables.items@.len(),
    ensures
        ({
            let es = h.tables.items@[t.0 as int].entries@;
            &&& 0 <= i < es.len() ==> h.tget(t, es[i].key) == es[i].value
            &&& 0 <= i < es.len() && es[i].key is Str && q is Str && h.strings.items@[es[i].key->Str_0.0 as int].bytes@
                == h.strings.items@[q->Str_0.0 as int].bytes@ ==> h.tget(t, q) == es[i].value
            &&& !(q is Float) && (forall|j: int|
                0 <= j < es.len() ==> (#[trigger] es[j]).key != q && !(q is Str && es[j].key is Str
                    && h.strings.items@[es[j].key->Str_0.0 as int].bytes@ == h.strings.items@[q->Str_0.0 as int].bytes@))
                ==> h.tget(t, q) == LuaValue::Nil
        }),
{
    let tab = h.tables.items@[t.0 as int];
    let es = tab.entries@;
    let strs = h.strs();
    assert(tab.wf(strs));
    if 0 <= i < es.len() {
        lemma_entry_found(h, t, i, es[i].key);
        if q is Str && es[i].key is Str && strs[es[i].key->Str_0.0 as int]@ == strs[q->Str_0.0 as int]@ {
            lemma_entry_found(h, t, i, q);
        }
    }
    if !(q is Float) && (forall|j: int|
        0 <= j < es.len() ==> (#[trigger] es[j]).key != q && !(q is Str && es[j].key is Str
            && strs[es[j].key->Str_0.0 as int]@ == strs[q->Str_0.0 as int]@)) {
        assert forall|j: int| 0 <= j < es.len() implies !crate::table::same_key(strs, #[trigger] es[j].key, q) by {
            assert(es[j].key != q);
        }
        lemma_not_found(strs, es, q, 0);
    }
}

/// An entry whose key is the same is found.
proof fn lemma_entry_found(h: Heap, t: TableId, i: int, q: LuaValue)
    requires
        h.wf(),
        t.0 < h.tables.items@.len(),
        0 <= i < h.tables.items@[t.0 as int].entries@.len(),
        crate::table::same_key(h.strs(), h.tables.items@[t.0 as int].entries@[i].key, q),
        norm_key(q) == q,
    ensures
        h.tget(t, q) == h.tables.items@[t.0 as int].entries@[i].value,
{
    let tab = h.tables.items@[t.0 as int];
    let es = tab.entries@;
    let strs = h.strs();
    assert(tab.wf(strs));
    lemma_find_from(strs, es, q, 0);
    let at = find_from(strs, es, q, 0);
    if at != i {
        if at < i {
            assert(crate::table::same_key(strs, es[at].key, es[i].key));
        } else {
            assert(!crate::table::same_key(strs, es[i].key, q));
        }
    }
}

/// A number is one key, whether it is an integer or a double of the same value.
pub proof fn law_number_keys(h: Heap, t: TableId, n: i64, d: u64)
    requires
        !crate::float::flt_nan(d),
        crate::float::flt_scaled(d) == n * crate::float::flt_unit(),
    ensures
        h.tget(t, LuaValue::Float(d)) == h.tget(t, LuaValue::Int(n)),
{
    let u = crate::float::flt_unit();
    vstd::arithmetic::power2::lemma_pow2_pos(1074);
    let s = crate::float::flt_scaled(d);
    assert(s % u == 0 && s / u == n) by (nonlinear_arith)
        requires
            u > 0,
            n * u == s,
    ;
}

/// The handler of an event for a table or a userdata is what its metatable has under the
/// event's name, and there is none without a metatable.
pub proof fn law_handler(g: GlobalState, v: LuaValue, event: TagMethod, m: Option<TableId>, i: int)
    requires
        g.wf() && g.tm_ready(),
        event != TagMethod::N,
        match v {
            LuaValue::Table(t) => m == g.heap.tables.items@[t.0 as int].metatable,
            LuaValue::UserData(u) => m == g.heap.userdata.items@[u.0 as int].metatable,
            LuaValue::Nil => m == g.mt@[0],
            LuaValue::Bool(_) => m == g.mt@[1],
            LuaValue::LightUserData(_) => m == g.mt@[2],
            LuaValue::Int(_) => m == g.mt@[3],
            LuaValue::Float(_) => m == g.mt@[3],
            LuaValue::Str(_) => m == g.mt@[4],
            LuaValue::Function(_) => m == g.mt@[6],
            LuaValue::Thread(_) => m == g.mt@[8],
        },
    ensures
        m is None ==> handler(g, v, event) == LuaValue::Nil,
        m matches Some(mt) ==> mt.0 < g.heap.tables.items@.len() ==> {
            let es = g.heap.tables.items@[mt.0 as int].entries@;
            &&& 0 <= i < es.len() && es[i].key is Str && g.heap.strings.items@[es[i].key->Str_0.0 as int].bytes@
                == event_text(event) ==> handler(g, v, event) == es[i].value
            &&& (forall|j: int|
                0 <= j < es.len() ==> !((#[trigger] es[j]).key is Str
                    && g.heap.strings.items@[es[j].key->Str_0.0 as int].bytes@ == event_text(event))) ==> handler(
                g,
                v,
                event,
            ) == LuaValue::Nil
        },
{
    law_event_names(event);
    let name = g.tmname@[event.spec_index()];
    crate::tagmethods::law_event_numbers(event, TagMethod::N);
    assert(g.heap.bytes(name) == event_text(event));
    assert(metatable_of(g, v) == m);
    if let Some(mt) = m {
        if mt.0 < g.heap.tables.items@.len() {
            let es = g.heap.tables.items@[mt.0 as int].entries@;
            law_entries_read(g.heap, mt, i, LuaValue::Str(name));
            if forall|j: int|
                0 <= j < es.len() ==> !((#[trigger] es[j]).key is Str
                    && g.heap.strings.items@[es[j].key->Str_0.0 as int].bytes@ == event_text(event)) {
                assert forall|j: int| 0 <= j < es.len() implies (#[trigger] es[j]).key != LuaValue::Str(name) && !(
                es[j].key is Str && g.heap.strings.items@[es[j].key->Str_0.0 as int].bytes@ == g.heap.bytes(name)) by {}
            }
        }
    }
}

/// The handler of a binary operation is that of its first operand, or else that of its second,
/// and is called with both in their order. Without either the operation is an error that
/// blames the first operand that is no number. Operands that are strings are another matter.
pub proof fn law_binary_handler(
    g: GlobalState,
    p1: LuaValue,
    i1: Option<StackIdx>,
    n1: Option<LuaValue>,
    p2: LuaValue,
    i2: Option<StackIdx>,
    n2: Option<LuaValue>,
    event: TagMethod,
    res: Result<BinOutcome, LuaError>,
)
    requires
        bin_decided(g, p1, i1, n1, p2, i2, n2, event, res),
        !(p1 is Str) && !(p2 is Str),
    ensures
        handler(g, p1, event) != LuaValue::Nil ==> (res matches Ok(BinOutcome::Call(c)) && c.f == handler(g, p1, event)
            && c.p1 == p1 && c.p2 == p2),
        handler(g, p1, event) == LuaValue::Nil && handler(g, p2, event) != LuaValue::Nil ==> (res matches Ok(
            BinOutcome::Call(c),
        ) && c.f == handler(g, p2, event) && c.p1 == p1 && c.p2 == p2),
        handler(g, p1, event) == LuaValue::Nil && handler(g, p2, event) == LuaValue::Nil ==> res is Err,
        handler(g, p1, event) == LuaValue::Nil && handler(g, p2, event) == LuaValue::Nil && !(p1 is Int || p1 is Float)
            ==> (res matches Err(LuaError::TypeError { value, .. }) && value == p1),
        handler(g, p1, event) == LuaValue::Nil && handler(g, p2, event) == LuaValue::Nil && (p1 is Int || p1 is Float)
            && !(p2 is Int || p2 is Float) ==> (res matches Err(LuaError::TypeError { value, .. }) && value == p2),
{
}

/// A comparison that a handler decides, from 5.2 on: `<` asks the handler for `__lt` of one of
/// its operands about both in their order, `<=` the one for `__le`. Up to 5.4, `a <= b`
/// without it is the negation of what the handler for `__lt` says of `b < a`.
pub proof fn law_order_handler(g: GlobalState, a: LuaValue, b: LuaValue)
    requires
        g.lua_version != LuaVersion::V51,
    ensures
        ({
            let lt = if handler(g, a, TagMethod::Lt) != LuaValue::Nil {
                handler(g, a, TagMethod::Lt)
            } else {
                handler(g, b, TagMethod::Lt)
            };
            let tl = if handler(g, b, TagMethod::Lt) != LuaValue::Nil {
                handler(g, b, TagMethod::Lt)
            } else {
                handler(g, a, TagMethod::Lt)
            };
            let le = if handler(g, a, TagMethod::Le) != LuaValue::Nil {
                handler(g, a, TagMethod::Le)
            } else {
                handler(g, b, TagMethod::Le)
            };
            &&& lt != LuaValue::Nil ==> (g.order_plan(a, b, TagMethod::Lt) matches Some(c) && c.call.f == lt && c.call.p1
                == a && c.call.p2 == b && !c.negate)
            &&& lt == LuaValue::Nil ==> g.order_plan(a, b, TagMethod::Lt) is None
            &&& le != LuaValue::Nil ==> (g.order_plan(a, b, TagMethod::Le) matches Some(c) && c.call.f == le && c.call.p1
                == a && c.call.p2 == b && !c.negate)
            &&& le == LuaValue::Nil && tl != LuaValue::Nil && g.lua_version != LuaVersion::V55 ==> (g.order_plan(
                a,
                b,
                TagMethod::Le,
            ) matches Some(c) && c.call.f == tl && c.call.p1 == b && c.call.p2 == a && c.negate)
            &&& le == LuaValue::Nil && (tl == LuaValue::Nil || g.lua_version == LuaVersion::V55) ==> g.order_plan(
                a,
                b,
                TagMethod::Le,
            ) is None
        }),
{
}

/// Equality asks a handler only about two tables or two userdata that are not the same, from
/// 5.2 on that of the first or else of the second; otherwise it is primitive. A value equals
/// itself, unless it is NaN.
pub proof fn law_equality_handler(g: GlobalState, a: LuaValue, b: LuaValue)
    requires
        g.lua_version != LuaVersion::V51,
    ensures
        ({
            let both = a is Table && b is Table || a is UserData && b is UserData;
            let eq = if handler(g, a, TagMethod::Eq) != LuaValue::Nil {
                handler(g, a, TagMethod::Eq)
            } else {
                handler(g, b, TagMethod::Eq)
            };
            &&& both && a != b && eq != LuaValue::Nil ==> (eq_plan(g, a, b) matches EqOutcome::Call(c) && c.f == eq
                && c.p1 == a && c.p2 == b)
            &&& both && a != b && eq == LuaValue::Nil ==> eq_plan(g, a, b) == EqOutcome::Known(false)
            &&& both && a == b ==> eq_plan(g, a, b) == EqOutcome::Known(true)
            &&& a is Bool && b is Bool || a is Nil && b is Nil || a is Int && b is Int ==> eq_plan(g, a, b)
                == EqOutcome::Known(a == b)
            &&& a is Nil && !(b is Nil) || a is Table && !(b is Table) || a is Str && !(b is Str) ==> eq_plan(g, a, b)
                == EqOutcome::Known(false)
        }),
{
}

/// Reading a field that a table lacks, or a field of something else: a function under
/// `__index` is called with the value and the key; a table is read in its place; without a
/// handler the field of a table is `nil`, and of anything else an error.
pub proof fn law_index(g: GlobalState, t: LuaValue, key: LuaValue, first: bool, n: nat)
    ensures
        ({
            let h = handler(g, t, TagMethod::Index);
            let c = index_chain(g, t, key, first, (n + 1) as nat);
            &&& h is Function ==> c == (IndexChain::Call { f: h, t: t })
            &&& h == LuaValue::Nil && t is Table ==> c == IndexChain::Value(LuaValue::Nil)
            &&& h == LuaValue::Nil && !(t is Table) ==> c == (IndexChain::Stuck { t: t, first: first })
            &&& h matches LuaValue::Table(u) ==> (g.heap.tget(u, key) != LuaValue::Nil ==> c == IndexChain::Value(
                g.heap.tget(u, key),
            ))
            &&& h matches LuaValue::Table(u) ==> (g.heap.tget(u, key) == LuaValue::Nil ==> c == index_chain(
                g,
                h,
                key,
                false,
                n,
            ))
        }),
{
}

/// Writing a field that a table lacks, or a field of something else: a function under
/// `__newindex` is called with the value and the key; a table that has the field is written to
/// in its place; without a handler a table is written to itself, and anything else is an
/// error.
pub proof fn law_newindex(g: GlobalState, t: LuaValue, key: LuaValue, first: bool, n: nat)
    ensures
        ({
            let h = handler(g, t, TagMethod::NewIndex);
            let c = newindex_chain(g, t, key, first, (n + 1) as nat);
            &&& h is Function ==> c == (NewIndexChain::Call { f: h, t: t })
            &&& h == LuaValue::Nil ==> (t matches LuaValue::Table(u) ==> c == NewIndexChain::Store(u))
            &&& h == LuaValue::Nil && !(t is Table) ==> c == (NewIndexChain::Stuck { t: t, first: first })
            &&& h matches LuaValue::Table(u) ==> (g.heap.tget(u, key) != LuaValue::Nil ==> c == NewIndexChain::Store(u))
            &&& h matches LuaValue::Table(u) ==> (g.heap.tget(u, key) == LuaValue::Nil ==> c == newindex_chain(
                g,
                h,
                key,
                false,
                n,
            ))
        }),
{
}

/// What a handler for `__index` is called with is the value that was indexed and the key, in
/// this order.
pub proof fn law_index_call(
    f: LuaValue,
    t: LuaValue,
    key: LuaValue,
    at: Option<StackIdx>,
    res: Result<GetOutcome, LuaError>,
)
    requires
        get_decided(IndexChain::Call { f: f, t: t }, key, at, res),
    ensures
        res matches Ok(GetOutcome::Call(c)) && c.f == f && c.p1 == t && c.p2 == key,
{
}

/// Two strings are compared by a comparison instruction without any handler: `<` by the order
/// of strings, `<=` by its reverse's negation.
#[verifier::rlimit(60)]
#[verifier::spinoff_prover]
pub proof fn law_compare_strings(x: Ran, a: int, k: int, b: int, c: int, p: StrId, q: StrId)
    requires
        x.ok(),
        word_abc(x.i, 58, a, k, b, c) || word_abc(x.i, 59, a, k, b, c),
        x.r(a) == LuaValue::Str(p),
        x.r(b) == LuaValue::Str(q),
    ensures
        ({
            let less = crate::compare::raw_lt(x.g.heap, x.r(a), x.r(b)) == Some(true);
            let more = crate::compare::raw_lt(x.g.heap, x.r(b), x.r(a)) == Some(true);
            &&& word_abc(x.i, 58, a, k, b, c) ==> crate::arith_laws::branches(x, less, k)
            &&& word_abc(x.i, 59, a, k, b, c) ==> crate::arith_laws::branches(x, !more, k)
        }),
{
    crate::compare::law_string_compare(x.g.heap, p, q);
    crate::exec_laws::lemma_slots_kept(x.s, x.t);
    if word_abc(x.i, 58, a, k, b, c) {
        lemma_abc(x.i, OpCode::Lt, a, k, b, c);
    } else {
        lemma_abc(x.i, OpCode::Le, a, k, b, c);
    }
}

/// A comparison that a handler decides puts the handler and its operands above the frame, in
/// the order in which they were written, and calls it for one result. The number of the
/// instruction is the left operand of `>` and `>=`, which are `<` and `<=` the other way round.
#[verifier::rlimit(80)]
#[verifier::spinoff_prover]
pub proof fn law_compare_call(x: Ran, op: int, a: int, k: int, b: int, c: int, p: LuaValue, q: LuaValue)
    requires
        x.ok(),
        word_abc(x.i, op, a, k, b, c),
        x.g.lua_version == LuaVersion::V55 || x.g.lua_version == LuaVersion::V54,
        58 <= op <= 59 && p == x.r(a) && q == x.r(b) || (op == 62 || op == 63) && c == 0 && p == x.r(a) && q
            == LuaValue::Int((b - 127) as i64) || (op == 64 || op == 65) && c == 0 && p == LuaValue::Int((b - 127) as i64)
            && q == x.r(a),
        x.r(a) is Table,
        bin_handler(
            x.g,
            p,
            q,
            if op == 58 || op == 62 || op == 64 {
                TagMethod::Lt
            } else {
                TagMethod::Le
            },
        ) != LuaValue::Nil,
        x.s.frame(x.f.ci).top.0 + 3 <= 0x7fff_ffff,
    ensures
        ({
            let top = x.s.frame(x.f.ci).top.0 as int;
            &&& x.res matches Ok(Step::Call { request, then: After::Order { negate } }) && request.func.0 == top
                && request.nresults == 1 && !negate
            &&& x.t.top.0 == top + 3
            &&& x.t.stack@[top] == bin_handler(
                x.g,
                p,
                q,
                if op == 58 || op == 62 || op == 64 {
                    TagMethod::Lt
                } else {
                    TagMethod::Le
                },
            )
            &&& x.t.stack@[top + 1] == p
            &&& x.t.stack@[top + 2] == q
        }),
{
    lemma_abc(x.i, crate::arith_laws::test_opcode(op), a, k, b, c);
}

/// In 5.3 the bitwise operations take strings for the numbers that they spell, where no
/// handler is found: the result is that of the integers.
pub proof fn law_bitwise_strings(
    g: GlobalState,
    p1: LuaValue,
    i1: Option<StackIdx>,
    p2: LuaValue,
    i2: Option<StackIdx>,
    a: i64,
    b: i64,
    event: TagMethod,
    res: Result<BinOutcome, LuaError>,
)
    requires
        bin_decided(g, p1, i1, Some(LuaValue::Int(a)), p2, i2, Some(LuaValue::Int(b)), event, res),
        p1 is Str && p2 is Str,
        g.lua_version == LuaVersion::V53,
        handler(g, p1, event) == LuaValue::Nil && handler(g, p2, event) == LuaValue::Nil,
    ensures
        event == TagMethod::BAnd ==> res == Ok::<BinOutcome, LuaError>(BinOutcome::Value(LuaValue::Int(a & b))),
        event == TagMethod::BOr ==> res == Ok::<BinOutcome, LuaError>(BinOutcome::Value(LuaValue::Int(a | b))),
        event == TagMethod::BXor ==> res == Ok::<BinOutcome, LuaError>(BinOutcome::Value(LuaValue::Int(a ^ b))),
        event == TagMethod::BNot ==> res == Ok::<BinOutcome, LuaError>(BinOutcome::Value(LuaValue::Int(!a))),
        event == TagMethod::Shl && b == 0 || event == TagMethod::Shr && b == 0 ==> res == Ok::<BinOutcome, LuaError>(
            BinOutcome::Value(LuaValue::Int(a)),
        ),
{
    crate::arith::law_shiftl(a as int, 0);
}

/// From 5.4 on no operation on a string is refused before its handler is looked for; up to 5.3
/// arithmetic on a string that spells no number is an error, unless the other operand has a
/// handler.
pub proof fn law_string_arith(
    g: GlobalState,
    p1: LuaValue,
    i1: Option<StackIdx>,
    p2: LuaValue,
    i2: Option<StackIdx>,
    n2: Option<LuaValue>,
    res: Result<BinOutcome, LuaError>,
)
    requires
        bin_decided(g, p1, i1, None, p2, i2, n2, TagMethod::Add, res),
        p1 is Str && !(p2 is Str),
    ensures
        g.lua_version == LuaVersion::V54 || g.lua_version == LuaVersion::V55 ==> (handler(g, p1, TagMethod::Add)
            != LuaValue::Nil ==> (res matches Ok(BinOutcome::Call(c)) && c.f == handler(g, p1, TagMethod::Add) && c.p1
            == p1 && c.p2 == p2)),
        g.lua_version == LuaVersion::V51 || g.lua_version == LuaVersion::V52 || g.lua_version == LuaVersion::V53 ==> (
        handler(g, p2, TagMethod::Add) == LuaValue::Nil ==> (res matches Err(LuaError::ArithError { value, .. }) && value
            == p1)),
{
}

/// Nothing is stored under `nil` or NaN, and every other key takes a value.
pub proof fn law_keys_refused(k: LuaValue)
    ensures
        crate::meta::key_refused(k) is None <==> k != LuaValue::Nil && !(k matches LuaValue::Float(d)
            && 0x7ff0_0000_0000_0000 < d % 0x8000_0000_0000_0000),
        k == LuaValue::Nil ==> crate::meta::key_refused(k) == Some(LuaError::NilKey),
{
}

/// Equality of two tables or two userdata that a handler decides: it is called above the frame
/// about both in order, under a free slot, and the test goes on with its answer.
#[verifier::rlimit(60)]
#[verifier::spinoff_prover]
pub proof fn law_equality_handed_over(x: Ran, a: int, k: int, b: int, c: int, h: TmCall)
    requires
        x.ok(),
        word_abc(x.i, 57, a, k, b, c),
        x.r(a) is Table || x.r(a) is UserData,
        x.r(a) != x.r(b),
        eq_plan(x.g, x.r(a), x.r(b)) == EqOutcome::Call(h),
        x.s.call_info@[x.f.ci.0 as int].top.0 + 4 <= 0x7fff_ffff,
    ensures
        ({
            let top = x.s.call_info@[x.f.ci.0 as int].top.0 as int;
            &&& x.res matches Ok(Step::Call { request, then: After::Equal }) && request.func.0 == top + 1
                && request.nresults == 1
            &&& x.t.stack@[top + 1] == h.f
            &&& x.t.stack@[top + 2] == x.r(a)
            &&& x.t.stack@[top + 3] == x.r(b)
            &&& x.t.top.0 == top + 4
        }),
        x.t.call_info@[x.f.ci.0 as int].u.savedpc == x.f.pc + 1,
        x.at(x.f.pc + 1),
{
    lemma_abc(x.i, OpCode::Eq, a, k, b, c);
    let vs = seq![LuaValue::Nil, h.f, h.p1, h.p2];
    assert(vs[1] == h.f && vs[2] == h.p1 && vs[3] == h.p2);
}

/// Negation of what is no number, and complement of what has no integer value, are left to the
/// handler of the operand, which stands for both operands.
#[verifier::rlimit(60)]
#[verifier::spinoff_prover]
pub proof fn law_unary_fallback(x: Ran, op: int, a: int, k: int, b: int, c: int)
    requires
        x.ok(),
        op == 49 || op == 50,
        word_abc(x.i, op, a, k, b, c),
        !(x.r(b) is Int || x.r(b) is Float),
    ensures
        x.res matches Ok(Step::Bin { p1, p2, event, res, p1_idx, p2_idx }) && p1 == x.r(b) && p2 == x.r(b) && res.0
            == x.f.base.0 + a && event == (if op == 49 {
            TagMethod::Unm
        } else {
            TagMethod::BNot
        }) && (p1_idx matches Some(s) && s.0 == x.f.base.0 + b),
        x.t.call_info@[x.f.ci.0 as int].u.savedpc == x.f.pc + 1,
        x.keeps_slots(),
{
    lemma_abc(
        x.i,
        if op == 49 {
            OpCode::Unm
        } else {
            OpCode::BNot
        },
        a,
        k,
        b,
        c,
    );
    crate::exec_laws::lemma_slots_kept(x.s, x.t);
}

/// In 5.1 a comparison asks a handler only where both operands are of one type and agree on it:
/// two values with one metatable do, and two whose handlers are different tables or functions do
/// not. `a <= b` without a handler for `__le` is the negation of what the one for `__lt` says of
/// `b < a`.
pub proof fn law_order_handler_51(g: GlobalState, a: LuaValue, b: LuaValue, t: TableId)
    requires
        g.lua_version == LuaVersion::V51,
        a is Table && b is Table,
    ensures
        ({
            let lt = handler(g, a, TagMethod::Lt);
            let le = handler(g, a, TagMethod::Le);
            let one = metatable_of(g, a) == Some(t) && metatable_of(g, b) == Some(t);
            &&& one && lt != LuaValue::Nil ==> (g.order_plan(a, b, TagMethod::Lt) matches Some(c) && c.call.f == lt
                && c.call.p1 == a && c.call.p2 == b && !c.negate)
            &&& one && le != LuaValue::Nil ==> (g.order_plan(a, b, TagMethod::Le) matches Some(c) && c.call.f == le
                && c.call.p1 == a && c.call.p2 == b && !c.negate)
            &&& one && le == LuaValue::Nil && lt != LuaValue::Nil ==> (g.order_plan(a, b, TagMethod::Le) matches Some(c)
                && c.call.f == lt && c.call.p1 == b && c.call.p2 == a && c.negate)
            &&& lt == LuaValue::Nil || handler(g, b, TagMethod::Lt) == LuaValue::Nil ==> metatable_of(g, a)
                != metatable_of(g, b) ==> g.order_plan(a, b, TagMethod::Lt) is None
            &&& lt is Table && handler(g, b, TagMethod::Lt) is Table && lt != handler(g, b, TagMethod::Lt)
                && metatable_of(g, a) != metatable_of(g, b) ==> g.order_plan(a, b, TagMethod::Lt) is None
        }),
{
}

/// Values of different types are in no order in 5.1.
pub proof fn law_no_order_51(g: GlobalState, a: LuaValue, b: LuaValue)
    requires
        g.lua_version == LuaVersion::V51,
        a is Table && !(b is Table) || a is Nil && !(b is Nil) || a is Bool && !(b is Bool) || a is UserData && !(b is UserData),
    ensures
        g.order_plan(a, b, TagMethod::Lt) is None,
        g.order_plan(a, b, TagMethod::Le) is None,
        eq_plan(g, a, b) == EqOutcome::Known(false),
{
}

/// Equality in 5.1 asks a handler on the same terms.
pub proof fn law_equality_handler_51(g: GlobalState, a: LuaValue, b: LuaValue, t: TableId)
    requires
        g.lua_version == LuaVersion::V51,
        a is Table && b is Table,
        metatable_of(g, a) == Some(t) && metatable_of(g, b) == Some(t),
    ensures
        a == b ==> eq_plan(g, a, b) == EqOutcome::Known(true),
        a != b && handler(g, a, TagMethod::Eq) == LuaValue::Nil ==> eq_plan(g, a, b) == EqOutcome::Known(false),
        a != b && handler(g, a, TagMethod::Eq) != LuaValue::Nil ==> (eq_plan(g, a, b) matches EqOutcome::Call(c) && c.f
            == handler(g, a, TagMethod::Eq) && c.p1 == a && c.p2 == b),
{
}

} // verus!
