//! What collection is for, stated over the slots of stacks, the fields of objects and the
//! marks of the store.

use vstd::prelude::*;
use crate::gc::Course;
use crate::gc::HeapCollectMode;
use crate::gc::Young;
use crate::gc::collected;
use crate::gc::is_live;
use crate::gc::lemma_live_kept;
use crate::gc::lemma_stages_grow;
use crate::gc_books::all_looked_at;
use crate::gc_books::kept_from;
use crate::gc_books::lemma_kept_from;
use crate::gc_books::thread_alive;
use crate::gc_books::threads_keep;
use crate::gc_collect::roots;
use crate::gc_collect::with_heap;
use crate::gc_marks::edge;
use crate::gc_marks::entry_holds;
use crate::gc_marks::in_values;
use crate::gc_marks::table_edge;
use crate::gc_pace::incremental;
use crate::gc_reach::followed;
use crate::gc_reach::holds;
use crate::gc_reach::is_entry;
use crate::gc_roots::slot_in_frame;
use crate::gc_roots::thread_holds;
use crate::global::FinalizerObject;
use crate::global::GcKind;
use crate::global::GlobalState;
use crate::heap::GcRef;
use crate::heap::Heap;
use crate::heap::UpVal;
use crate::heap::value_ref;
use crate::state::LuaState;
use crate::state::chain;
use crate::table::LuaTable;
use crate::table::TableEntry;
use crate::value::CClosureId;
use crate::value::LClosureId;
use crate::value::LuaClosure;
use crate::value::LuaValue;
use crate::value::ProtoId;
use crate::value::StrId;
use crate::value::TableId;
use crate::value::UpValId;
use crate::value::UserDataId;

verus! {

/// A collection that was made: the shared state and the running thread before, what it started
/// from, the course that it took, and the shared state after.
pub struct Cycle {
    pub g: GlobalState,
    pub running: LuaState,
    pub start: Set<GcRef>,
    pub touched: Seq<GcRef>,
    pub fins: Seq<FinalizerObject>,
    pub k: Course,
    pub g2: GlobalState,
}

impl Cycle {
    /// Whether it was made, in a state in order.
    pub open spec fn ok(self) -> bool {
        &&& self.g.wf()
        &&& self.running.wf(self.g.heap.sizes())
        &&& collected(self.g, self.running, self.start, self.touched, self.fins, self.k, self.g2)
    }

    /// Whether a value that named a live object names one still.
    pub open spec fn keeps(self, v: LuaValue) -> bool {
        lives(self.g.heap, v) ==> lives(self.g2.heap, v)
    }
}

/// Whether the object that a value names, if it names one, is live.
pub open spec fn lives(h: Heap, v: LuaValue) -> bool {
    match v {
        LuaValue::Str(i) => h.strings.live@[i.0 as int],
        LuaValue::Table(i) => h.tables.live@[i.0 as int],
        LuaValue::UserData(i) => h.userdata.live@[i.0 as int],
        LuaValue::Thread(i) => h.threads.live@[i.0 as int],
        LuaValue::Function(LuaClosure::Lua(i)) => h.lclosures.live@[i.0 as int],
        LuaValue::Function(LuaClosure::C(i)) => h.cclosures.live@[i.0 as int],
        _ => true,
    }
}

/// What is found alive is kept.
proof fn lemma_alive_kept(x: Cycle, r: GcRef)
    requires
        x.ok(),
        x.k.c.alive.contains(r),
        x.g.heap.sizes().has(r),
    ensures
        is_live(x.g.heap, r) ==> is_live(x.g2.heap, r),
{
    lemma_live_kept(x.g, x.running, x.start, x.touched, x.fins, x.k, r);
}

/// So is what a value names.
proof fn lemma_value_kept(x: Cycle, v: LuaValue)
    requires
        x.ok(),
        x.g.heap.ok(v),
        value_ref(v) matches Some(r) ==> x.k.c.alive.contains(r),
    ensures
        x.keeps(v),
{
    if let Some(r) = value_ref(v) {
        lemma_alive_kept(x, r);
    }
}

/// What a collection starts from is found alive.
proof fn lemma_root_alive(x: Cycle, r: GcRef)
    requires
        x.ok(),
        roots(x.g, x.running, x.touched).contains(r),
    ensures
        x.k.c.alive.contains(r),
{
    lemma_stages_grow(x.g, x.running, x.start, x.touched, x.fins, x.k.c, x.k.h1, x.k.h2, x.k.h3);
}

/// Every slot in use belongs to a frame: to the last one that starts at or below it.
proof fn lemma_slot_owned(s: LuaState, h: Heap, cur: u64, j: int, from: int) -> (owner: int)
    requires
        chain(s.call_info@),
        0 <= from <= s.ci.0 < s.call_info@.len(),
        s.call_info@[from].func.0 <= j < s.top.0,
    ensures
        from <= owner <= s.ci.0,
        slot_in_frame(s, h, cur, owner, j),
    decreases s.ci.0 - from,
{
    if from == s.ci.0 {
        from
    } else {
        assert(s.call_info@[from].next == Some(crate::value::CallInfoIdx((from + 1) as u32)));
        if j < s.call_info@[from + 1].func.0 {
            from
        } else {
            lemma_slot_owned(s, h, cur, j, from + 1)
        }
    }
}

/// Every slot of the running thread that is in use, from the function of its first frame up to
/// `top`, holds nothing that a collection frees, whichever frame it belongs to.
pub proof fn law_stack_kept(x: Cycle, j: int)
    requires
        x.ok(),
        x.running.call_info@[0].func.0 <= j < x.running.top.0,
    ensures
        x.keeps(x.running.stack@[j]),
{
    let s = x.running;
    let v = s.stack@[j];
    assert(x.g.heap.sizes().ok(v));
    let k = lemma_slot_owned(s, x.g.heap, x.g.current_thread_id, j, 0);
    if let Some(r) = value_ref(v) {
        assert(thread_holds(s, x.g.heap, x.g.current_thread_id, r));
        lemma_root_alive(x, r);
    }
    lemma_value_kept(x, v);
}

/// A coroutine that stays registered is found alive, by its handle.
proof fn lemma_registered_alive(x: Cycle, i: int, n: int)
    requires
        x.ok(),
        0 <= i < x.g.threads@.len(),
        0 <= n < x.g2.threads@.len(),
        x.g2.threads@[n].id == x.g.threads@[i].id,
    ensures
        thread_alive(with_heap(x.g, x.k.h3), x.k.c.alive, i),
{
    let g3 = with_heap(x.g, x.k.h3);
    let keep = threads_keep(g3, x.k.c.alive);
    let ts = all_looked_at(x.g.threads@, x.k.hits);
    assert(x.g2.threads@ == crate::gc_books::kept_by(ts, keep));
    lemma_kept_from(ts, keep, n);
    let m = kept_from(keep, ts.len() as int, n);
    assert(ts[m].id == x.g.threads@[m].id);
    assert(crate::global::threads_ok(x.g.heap.sizes(), x.g.threads@));
    if m < i {
        assert(x.g.threads@[m].id != x.g.threads@[i].id);
    } else if i < m {
        assert(x.g.threads@[i].id != x.g.threads@[m].id);
    }
}

/// Every slot of a suspended coroutine that is in use holds nothing that a collection frees,
/// as long as the coroutine stays registered: those of the frame that yielded, and those of
/// the frames that called it. Nor are its open variables freed.
pub proof fn law_coroutine_kept(x: Cycle, i: int, n: int, j: int, m: int)
    requires
        x.ok(),
        0 <= i < x.g.threads@.len(),
        0 <= n < x.g2.threads@.len(),
        x.g2.threads@[n].id == x.g.threads@[i].id,
        x.g.threads@[i].state is Some,
    ensures
        ({
            let s = x.g.threads@[i].state->0;
            &&& s.call_info@[0].func.0 <= j < s.top.0 ==> x.keeps(s.stack@[j])
            &&& 0 <= m < s.openupval@.len() && x.g.heap.upvals.live@[s.openupval@[m].0 as int]
                ==> x.g2.heap.upvals.live@[s.openupval@[m].0 as int]
        }),
{
    lemma_registered_alive(x, i, n);
    let g3 = with_heap(x.g, x.k.h3);
    let t = x.g.threads@[i].value;
    let s = x.g.threads@[i].state->0;
    assert(crate::global::threads_ok(x.g.heap.sizes(), x.g.threads@));
    assert(s.wf(x.g.heap.sizes()));
    assert(is_entry(g3, i, t));
    if s.call_info@[0].func.0 <= j < s.top.0 {
        let v = s.stack@[j];
        assert(x.g.heap.sizes().ok(v));
        let k = lemma_slot_owned(s, x.k.h3, x.g.current_thread_id, j, 0);
        if let Some(r) = value_ref(v) {
            assert(thread_holds(s, x.k.h3, x.g.current_thread_id, r));
            assert(holds(g3, GcRef::Thread(t), r));
        }
        lemma_value_kept(x, v);
    }
    if 0 <= m < s.openupval@.len() {
        let r = GcRef::UpVal(s.openupval@[m]);
        assert(thread_holds(s, x.k.h3, x.g.current_thread_id, r));
        assert(holds(g3, GcRef::Thread(t), r));
        lemma_alive_kept(x, r);
    }
}

/// What the shared state refers to by itself is kept: the registry, the globals, the loaded
/// modules, the metatables of types, the names of events, the values that are held from
/// outside, those of variables of other threads, the globals of threads, the environments of
/// closures and the stacks of suspended parents.
pub proof fn law_roots_kept(x: Cycle, n: int, m: int)
    requires
        x.ok(),
    ensures
        x.keeps(x.g.l_registry) && x.keeps(x.g.globals) && x.keeps(x.g.loaded),
        x.keeps(LuaValue::Str(x.g.memerrmsg)) && x.keeps(LuaValue::Thread(x.g.main_thread_value)),
        0 <= n < x.g.mt@.len() && x.g.mt@[n] is Some ==> x.keeps(LuaValue::Table(x.g.mt@[n]->0)),
        0 <= n < x.g.tmname@.len() ==> x.keeps(LuaValue::Str(x.g.tmname@[n])),
        0 <= n < x.g.external_roots.slots@.len() && x.g.external_roots.slots@[n].value is Some ==> x.keeps(
            x.g.external_roots.slots@[n].value->0,
        ),
        0 <= n < x.g.cross_thread_upvals@.len() ==> x.keeps(x.g.cross_thread_upvals@[n].1),
        0 <= n < x.g.thread_globals@.len() ==> x.keeps(x.g.thread_globals@[n].1),
        0 <= n < x.g.closure_envs@.len() ==> x.keeps(x.g.closure_envs@[n].1),
        0 <= n < x.g.suspended_parent_stacks@.len() && 0 <= m < x.g.suspended_parent_stacks@[n]@.len() ==> x.keeps(
            x.g.suspended_parent_stacks@[n]@[m],
        ),
{
    let g = x.g;
    assert(g.refs_ok(g.heap.sizes()));
    lemma_root_value(x, g.l_registry);
    lemma_root_value(x, g.globals);
    lemma_root_value(x, g.loaded);
    lemma_root_value(x, LuaValue::Str(g.memerrmsg));
    lemma_root_value(x, LuaValue::Thread(g.main_thread_value));
    if 0 <= n < g.mt@.len() && g.mt@[n] is Some {
        lemma_root_value(x, LuaValue::Table(g.mt@[n]->0));
    }
    if 0 <= n < g.tmname@.len() {
        lemma_root_value(x, LuaValue::Str(g.tmname@[n]));
    }
    if 0 <= n < g.external_roots.slots@.len() && g.external_roots.slots@[n].value is Some {
        lemma_root_value(x, g.external_roots.slots@[n].value->0);
    }
    if 0 <= n < g.cross_thread_upvals@.len() {
        lemma_root_value(x, g.cross_thread_upvals@[n].1);
    }
    if 0 <= n < g.thread_globals@.len() {
        lemma_root_value(x, g.thread_globals@[n].1);
    }
    if 0 <= n < g.closure_envs@.len() {
        lemma_root_value(x, g.closure_envs@[n].1);
    }
    if 0 <= n < g.suspended_parent_stacks@.len() && 0 <= m < g.suspended_parent_stacks@[n]@.len() {
        assert(g.heap.sizes().ok_all(g.suspended_parent_stacks@[n]@));
        let v = g.suspended_parent_stacks@[n]@[m];
        if let Some(r) = value_ref(v) {
            assert(in_values(g.suspended_parent_stacks@[n]@, r));
        }
        lemma_root_value(x, v);
    }
}

/// A value that a collection starts from is kept.
proof fn lemma_root_value(x: Cycle, v: LuaValue)
    requires
        x.ok(),
        x.g.heap.ok(v),
        value_ref(v) matches Some(r) ==> roots(x.g, x.running, x.touched).contains(r),
    ensures
        x.keeps(v),
{
    if let Some(r) = value_ref(v) {
        lemma_root_alive(x, r);
    }
    lemma_value_kept(x, v);
}

/// Objects whose finalizer is to be run are kept until it has run.
pub proof fn law_finalizable_kept(x: Cycle, n: int)
    requires
        x.ok(),
        0 <= n < x.g.finalizers.to_be_finalized@.len(),
    ensures
        match x.g.finalizers.to_be_finalized@[n] {
            FinalizerObject::Table(t) => x.keeps(LuaValue::Table(t)),
            FinalizerObject::UserData(u) => x.keeps(LuaValue::UserData(u)),
        },
{
    let g = x.g;
    assert(g.refs_ok(g.heap.sizes()));
    lemma_root_value(x, g.finalizers.to_be_finalized@[n].spec_value());
}

/// What survives a full collection without being exempt was found alive, and what it refers to
/// then is kept.
proof fn lemma_referred_kept(x: Cycle, r: GcRef, c: GcRef)
    requires
        x.ok(),
        x.start == Set::<GcRef>::empty(),
        x.g.heap.sizes().has(r),
        is_live(x.g2.heap, r),
        !crate::gc::is_fixed(x.g2.heap, r),
        edge(x.g2.heap, r, c),
        x.g.heap.sizes().has(c),
        !(r is Thread),
    ensures
        is_live(x.g.heap, c) ==> is_live(x.g2.heap, c),
{
    let g3 = with_heap(x.g, x.k.h3);
    lemma_live_kept(x.g, x.running, x.start, x.touched, x.fins, x.k, r);
    assert(x.k.b.heap == x.k.h3);
    assert(x.k.c.alive.contains(r));
    assert(edge(x.k.h3, r, c));
    assert(followed(x.start, r));
    assert(holds(g3, r, c));
    lemma_alive_kept(x, c);
}

/// The same for the object of a value.
proof fn lemma_referred_value(x: Cycle, r: GcRef, v: LuaValue)
    requires
        x.ok(),
        x.start == Set::<GcRef>::empty(),
        x.g.heap.sizes().has(r),
        is_live(x.g2.heap, r),
        !crate::gc::is_fixed(x.g2.heap, r),
        value_ref(v) matches Some(c) ==> edge(x.g2.heap, r, c),
        x.g.heap.ok(v),
        !(r is Thread),
    ensures
        x.keeps(v),
{
    if let Some(c) = value_ref(v) {
        lemma_referred_kept(x, r, c);
    }
}

/// A table that survives a full collection, and is not exempt, keeps its metatable, its keys
/// unless they are weak, and its values unless it is weak in anything.
pub proof fn law_table_refs_kept(x: Cycle, t: TableId, e: TableEntry)
    requires
        x.ok(),
        x.start == Set::<GcRef>::empty(),
        t.0 < x.g.heap.tables.items@.len(),
        x.g2.heap.tables.live@[t.0 as int] && !x.g2.heap.tables.fixed@[t.0 as int],
        x.g2.heap.tables.items@[t.0 as int].entries@.contains(e),
        x.g.heap.ok(e.key) && x.g.heap.ok(e.value),
    ensures
        ({
            let w = x.g2.heap.tables.items@[t.0 as int];
            &&& w.metatable is Some && x.g.heap.ok(LuaValue::Table(w.metatable->0)) ==> x.keeps(
                LuaValue::Table(w.metatable->0),
            )
            &&& w.weak_mode % 2 == 0 ==> x.keeps(e.key)
            &&& w.weak_mode == 0 ==> x.keeps(e.value)
        }),
{
    let w = x.g2.heap.tables.items@[t.0 as int];
    let r = GcRef::Table(t);
    if w.metatable is Some && x.g.heap.ok(LuaValue::Table(w.metatable->0)) {
        lemma_referred_value(x, r, LuaValue::Table(w.metatable->0));
    }
    let i = choose|i: int| 0 <= i < w.entries@.len() && w.entries@[i] == e;
    if w.weak_mode % 2 == 0 {
        if let Some(c) = value_ref(e.key) {
            assert(entry_holds(w, w.entries@[i], c));
        }
        lemma_referred_value(x, r, e.key);
    }
    if w.weak_mode == 0 {
        if let Some(c) = value_ref(e.value) {
            assert(entry_holds(w, w.entries@[i], c));
        }
        lemma_referred_value(x, r, e.value);
    }
}

/// A closure that survives a full collection, and is not exempt, keeps its prototype and the
/// variables that it captures, and a native one its values.
pub proof fn law_closure_refs_kept(x: Cycle, l: LClosureId, c: CClosureId, i: int)
    requires
        x.ok(),
        x.start == Set::<GcRef>::empty(),
    ensures
        l.0 < x.g.heap.lclosures.items@.len() && x.g2.heap.lclosures.live@[l.0 as int]
            && !x.g2.heap.lclosures.fixed@[l.0 as int] ==> {
            let f = x.g.heap.lclosures.items@[l.0 as int];
            &&& x.g.heap.protos.live@[f.proto.0 as int] ==> x.g2.heap.protos.live@[f.proto.0 as int]
            &&& 0 <= i < f.upvals@.len() && x.g.heap.upvals.live@[f.upvals@[i].0 as int]
                ==> x.g2.heap.upvals.live@[f.upvals@[i].0 as int]
        },
        c.0 < x.g.heap.cclosures.items@.len() && x.g2.heap.cclosures.live@[c.0 as int]
            && !x.g2.heap.cclosures.fixed@[c.0 as int] && 0 <= i
            < x.g.heap.cclosures.items@[c.0 as int].upvalues@.len() ==> x.keeps(
            x.g.heap.cclosures.items@[c.0 as int].upvalues@[i],
        ),
{
    let h = x.g.heap;
    if l.0 < h.lclosures.items@.len() && x.g2.heap.lclosures.live@[l.0 as int] && !x.g2.heap.lclosures.fixed@[l.0 as int] {
        let f = h.lclosures.items@[l.0 as int];
        let r = GcRef::LClosure(l);
        assert(h.sizes().ok_lclosure(f));
        assert(x.g2.heap.lclosures.items@[l.0 as int] == f);
        lemma_referred_kept(x, r, GcRef::Proto(f.proto));
        if 0 <= i < f.upvals@.len() {
            lemma_referred_kept(x, r, GcRef::UpVal(f.upvals@[i]));
        }
    }
    if c.0 < h.cclosures.items@.len() && x.g2.heap.cclosures.live@[c.0 as int] && !x.g2.heap.cclosures.fixed@[c.0 as int]
        && 0 <= i < h.cclosures.items@[c.0 as int].upvalues@.len() {
        let vs = h.cclosures.items@[c.0 as int].upvalues@;
        assert(h.sizes().ok_all(vs));
        assert(x.g2.heap.cclosures.items@[c.0 as int].upvalues@ == vs);
        if let Some(o) = value_ref(vs[i]) {
            assert(in_values(vs, o));
        }
        lemma_referred_value(x, GcRef::CClosure(c), vs[i]);
    }
}

/// A userdata that survives a full collection, and is not exempt, keeps its metatable and its
/// values, and a closed variable the value that it has then.
pub proof fn law_userdata_refs_kept(x: Cycle, u: UserDataId, v: UpValId, i: int)
    requires
        x.ok(),
        x.start == Set::<GcRef>::empty(),
    ensures
        u.0 < x.g.heap.userdata.items@.len() && x.g2.heap.userdata.live@[u.0 as int]
            && !x.g2.heap.userdata.fixed@[u.0 as int] ==> {
            let d = x.g.heap.userdata.items@[u.0 as int];
            &&& d.metatable is Some ==> x.keeps(LuaValue::Table(d.metatable->0))
            &&& 0 <= i < d.uv@.len() ==> x.keeps(d.uv@[i])
        },
        v.0 < x.g.heap.upvals.items@.len() && x.g2.heap.upvals.live@[v.0 as int] && !x.g2.heap.upvals.fixed@[v.0 as int]
            ==> (x.g2.heap.upvals.items@[v.0 as int] matches UpVal::Closed(y) ==> (x.g.heap.ok(y) ==> x.keeps(
            y,
        ))),
{
    let h = x.g.heap;
    if u.0 < h.userdata.items@.len() && x.g2.heap.userdata.live@[u.0 as int] && !x.g2.heap.userdata.fixed@[u.0 as int] {
        let d = h.userdata.items@[u.0 as int];
        let r = GcRef::UserData(u);
        assert(h.sizes().ok_userdata(d));
        assert(x.g2.heap.userdata.items@[u.0 as int] == d);
        if d.metatable is Some {
            lemma_referred_value(x, r, LuaValue::Table(d.metatable->0));
        }
        if 0 <= i < d.uv@.len() {
            if let Some(o) = value_ref(d.uv@[i]) {
                assert(in_values(d.uv@, o));
            }
            lemma_referred_value(x, r, d.uv@[i]);
        }
    }
    if v.0 < h.upvals.items@.len() && x.g2.heap.upvals.live@[v.0 as int] && !x.g2.heap.upvals.fixed@[v.0 as int] {
        if let UpVal::Closed(y) = x.g2.heap.upvals.items@[v.0 as int] {
            if x.g.heap.ok(y) {
                lemma_referred_value(x, GcRef::UpVal(v), y);
            }
        }
    }
}

/// A prototype that survives a full collection, and is not exempt, keeps its constants, its
/// nested prototypes and its source.
pub proof fn law_proto_refs_kept(x: Cycle, p: ProtoId, i: int)
    requires
        x.ok(),
        x.start == Set::<GcRef>::empty(),
        p.0 < x.g.heap.protos.items@.len(),
        x.g2.heap.protos.live@[p.0 as int] && !x.g2.heap.protos.fixed@[p.0 as int],
    ensures
        ({
            let f = x.g.heap.protos.items@[p.0 as int];
            &&& 0 <= i < f.k@.len() ==> x.keeps(f.k@[i])
            &&& 0 <= i < f.p@.len() && x.g.heap.protos.live@[f.p@[i].0 as int] ==> x.g2.heap.protos.live@[f.p@[i].0 as int]
            &&& f.source is Some ==> x.keeps(LuaValue::Str(f.source->0))
        }),
{
    let h = x.g.heap;
    let f = h.protos.items@[p.0 as int];
    let r = GcRef::Proto(p);
    assert(h.sizes().ok_proto(f));
    assert(x.g2.heap.protos.items@[p.0 as int] == f);
    if 0 <= i < f.k@.len() {
        if let Some(o) = value_ref(f.k@[i]) {
            assert(in_values(f.k@, o));
        }
        lemma_referred_value(x, r, f.k@[i]);
    }
    if 0 <= i < f.p@.len() {
        lemma_referred_kept(x, r, GcRef::Proto(f.p@[i]));
    }
    if f.source is Some {
        lemma_referred_value(x, r, LuaValue::Str(f.source->0));
    }
}

/// Whether a value names no object, or a string. Such a value never leaves a weak table.
pub open spec fn plain(v: LuaValue) -> bool {
    match v {
        LuaValue::Table(_) => false,
        LuaValue::UserData(_) => false,
        LuaValue::Thread(_) => false,
        LuaValue::Function(LuaClosure::Lua(_)) => false,
        LuaValue::Function(LuaClosure::C(_)) => false,
        _ => true,
    }
}

/// After a collection the entries of a table that is known to be weak are some of those that
/// it had. None of a table with weak values has a value that was freed, and none of a table
/// with weak keys that survives, and is not exempt, has a key that was freed.
pub proof fn law_weak_entries(x: Cycle, n: int, e: TableEntry)
    requires
        x.ok(),
        0 <= n < x.g.weak_tables_registry@.len(),
        x.g2.heap.tables.items@[x.g.weak_tables_registry@[n].table.0 as int].entries@.contains(e),
        x.g.weak_tables_registry@[n].table.0 < x.g.heap.tables.items@.len(),
        x.g.heap.ok(e.key) && x.g.heap.ok(e.value),
    ensures
        ({
            let w = x.g.weak_tables_registry@[n];
            let t = w.table.0 as int;
            &&& x.g.heap.tables.items@[t].entries@.contains(e)
            &&& (w.kind is WeakValues || w.kind is AllWeak) && !plain(e.value) ==> x.keeps(e.value)
            &&& (w.kind is Ephemeron || w.kind is AllWeak) && x.g2.heap.tables.live@[t] && !x.g2.heap.tables.fixed@[t]
                && x.k.c.resettled.contains(GcRef::Table(w.table)) && !plain(e.key) ==> x.keeps(e.key)
        }),
{
    let w = x.g.weak_tables_registry@[n];
    let t = w.table.0 as int;
    crate::gc::law_weak_clean(x.g, x.running, x.start, x.touched, x.fins, x.k, x.g2, n, e);
    let x1 = x.k.h1.tables.items@[t].entries@;
    let x2 = x.k.h2.tables.items@[t].entries@;
    assert(x.k.b.heap == x.k.h3);
    crate::gc_weak::law_kept(x2, x.k.c.resettled, crate::gc_weak::Prune::Keys, e);
    crate::gc_weak::law_kept(x1, x.k.c.settled, crate::gc_weak::Prune::Values, e);
    if !plain(e.value) && (w.kind is WeakValues || w.kind is AllWeak) {
        lemma_value_kept(x, e.value);
    }
    if !plain(e.key) && (w.kind is Ephemeron || w.kind is AllWeak) && x.k.c.resettled.contains(GcRef::Table(w.table)) {
        lemma_value_kept(x, e.key);
    }
}

/// An entry whose key and value name no objects but strings stays in its table, weak or not.
pub proof fn law_plain_entries_stay(x: Cycle, t: TableId, e: TableEntry)
    requires
        x.ok(),
        t.0 < x.g.heap.tables.items@.len(),
        x.g.heap.tables.items@[t.0 as int].entries@.contains(e),
        plain(e.key) && plain(e.value),
    ensures
        x.g2.heap.tables.items@[t.0 as int].entries@.contains(e),
{
    let x0 = x.g.heap.tables.items@[t.0 as int].entries@;
    let x2 = x.k.h2.tables.items@[t.0 as int].entries@;
    crate::gc_weak::law_kept(x0, x.k.c.settled, crate::gc_weak::Prune::Values, e);
    assert(x.k.h1.tables == x.g.heap.tables);
    assert(x2.contains(e));
    crate::gc_weak::law_kept(x2, x.k.c.resettled, crate::gc_weak::Prune::Keys, e);
    assert(x.k.b.heap == x.k.h3);
}

/// The entries of a table that is not known to be weak stay as they are.
pub proof fn law_strong_entries_stay(x: Cycle, t: TableId)
    requires
        x.ok(),
        t.0 < x.g.heap.tables.items@.len(),
        forall|n: int| 0 <= n < x.g.weak_tables_registry@.len() ==> (#[trigger] x.g.weak_tables_registry@[n]).table != t,
    ensures
        x.g2.heap.tables.items@[t.0 as int].entries@ == x.g.heap.tables.items@[t.0 as int].entries@,
        x.g2.heap.tables.items@[t.0 as int].metatable == x.g.heap.tables.items@[t.0 as int].metatable,
{
    assert(x.k.h1.tables == x.g.heap.tables);
    assert(x.k.b.heap == x.k.h3);
    assert(x.k.h2.tables.items@[t.0 as int].entries@ == x.g.heap.tables.items@[t.0 as int].entries@);
    assert(x.k.h3.tables.items@[t.0 as int].entries@ == x.k.h2.tables.items@[t.0 as int].entries@);
}

/// A table with weak keys that a slot of the running thread holds keeps the value of an entry
/// whose key such a slot holds too.
pub proof fn law_ephemeron_value_kept(x: Cycle, n: int, i: int, a: int, b: int)
    requires
        x.ok(),
        0 <= n < x.g.weak_tables_registry@.len(),
        x.g.weak_tables_registry@[n].kind is Ephemeron,
        x.running.call_info@[0].func.0 <= a < x.running.top.0,
        x.running.call_info@[0].func.0 <= b < x.running.top.0,
        x.running.stack@[a] == LuaValue::Table(x.g.weak_tables_registry@[n].table),
        0 <= i < x.g.heap.tables.items@[x.g.weak_tables_registry@[n].table.0 as int].entries@.len(),
        x.g.heap.tables.items@[x.g.weak_tables_registry@[n].table.0 as int].entries@[i].key == x.running.stack@[b],
    ensures
        x.keeps(x.g.heap.tables.items@[x.g.weak_tables_registry@[n].table.0 as int].entries@[i].value),
{
    let s = x.running;
    let h = x.g.heap;
    let t = x.g.weak_tables_registry@[n].table;
    let e = h.tables.items@[t.0 as int].entries@[i];
    lemma_stages_grow(x.g, x.running, x.start, x.touched, x.fins, x.k.c, x.k.h1, x.k.h2, x.k.h3);
    assert(h.sizes().ok(s.stack@[a]));
    assert(h.sizes().ok_tab(h.tables.items@[t.0 as int]));
    let ka = lemma_slot_owned(s, h, x.g.current_thread_id, a, 0);
    let kb = lemma_slot_owned(s, h, x.g.current_thread_id, b, 0);
    assert(thread_holds(s, h, x.g.current_thread_id, GcRef::Table(t)));
    if let Some(r) = value_ref(e.key) {
        assert(thread_holds(s, h, x.g.current_thread_id, r));
        assert(roots(x.g, s, x.touched).contains(r));
    }
    assert(roots(x.g, s, x.touched).contains(GcRef::Table(t)));
    let g1 = with_heap(x.g, x.k.h1);
    let all = x.g.lua_version == crate::value::LuaVersion::V51;
    assert(x.k.h1.tables == h.tables);
    if let Some(c) = value_ref(e.value) {
        assert(crate::gc_weak::weak_holds_at(g1, all, x.k.c.settled, n, i, c));
        assert(crate::gc_weak::weak_holds(g1, all, x.k.c.settled, c));
    }
    lemma_value_kept(x, e.value);
}

/// Nothing survives but for a reason: an object outside a set that has everything a full
/// collection starts from, and everything that objects in the set refer to, is freed, unless
/// it is exempt, where there are no coroutines, weak tables or finalizers.
#[verifier::rlimit(60)]
#[verifier::spinoff_prover]
pub proof fn law_garbage_freed(x: Cycle, t: Set<GcRef>, r: GcRef)
    requires
        x.ok(),
        x.start == Set::<GcRef>::empty(),
        x.fins.len() == 0,
        x.g.threads@.len() == 0,
        x.g.weak_tables_registry@.len() == 0,
        forall|a: GcRef| #[trigger] t.contains(a) ==> x.g.heap.sizes().has(a),
        roots(x.g, x.running, x.touched).subset_of(t),
        forall|a: GcRef, b: GcRef| t.contains(a) && #[trigger] holds(x.g, a, b) ==> t.contains(b),
        x.g.heap.sizes().has(r),
        !t.contains(r),
        !crate::gc::is_fixed(x.g.heap, r),
    ensures
        !is_live(x.g2.heap, r),
{
    let c = x.k.c;
    let g1 = with_heap(x.g, x.k.h1);
    let g2 = with_heap(x.g, x.k.h2);
    let g3 = with_heap(x.g, x.k.h3);
    let all = x.g.lua_version == crate::value::LuaVersion::V51;
    lemma_same_refs(x);
    assert(crate::gc_reach::closed(x.g, x.start, t));
    assert(crate::gc_reach::closed(g1, x.start, t));
    assert(crate::gc_reach::closed(g2, x.start, t));
    assert(crate::gc_reach::closed(g3, x.start, t));
    assert(x.start.subset_of(t));
    assert(c.reached.subset_of(t));
    assert(c.remarked.subset_of(t));
    assert(c.remarked.union(crate::gc_threads::closed_values(x.g, c.remarked)).subset_of(t));
    assert(c.closed.subset_of(t));
    assert(crate::gc_weak::closed_weak(g1, all, t));
    assert(c.settled.subset_of(t));
    assert(c.settled.union(crate::gc_weak::staying_strings(g1, c.settled, crate::gc_weak::Prune::Values)).subset_of(t));
    assert(c.valued.subset_of(t));
    assert(crate::gc_collect::due(x.fins, c.valued, 0).len() == 0);
    assert(c.valued.union(
        crate::gc_collect::fin_refs(crate::gc_collect::due(x.fins, c.valued, x.fins.len() as int)),
    ).subset_of(t));
    assert(c.revived.subset_of(t));
    assert(crate::gc_weak::closed_weak(g2, all, t));
    assert(c.resettled.subset_of(t));
    assert(c.resettled.union(crate::gc_weak::staying_strings(g2, c.resettled, crate::gc_weak::Prune::Keys)).subset_of(t));
    assert(c.alive.subset_of(t));
    lemma_live_kept(x.g, x.running, x.start, x.touched, x.fins, x.k, r);
    assert(x.k.b.heap == x.k.h3);
}

/// Where there are no coroutines and no weak tables, a collection changes no references before
/// it frees.
#[verifier::rlimit(40)]
proof fn lemma_same_refs(x: Cycle)
    requires
        x.ok(),
        x.g.threads@.len() == 0,
        x.g.weak_tables_registry@.len() == 0,
    ensures
        forall|a: GcRef, b: GcRef|
            x.g.heap.sizes().has(a) && #[trigger] holds(with_heap(x.g, x.k.h1), a, b) ==> holds(x.g, a, b),
        forall|a: GcRef, b: GcRef|
            x.g.heap.sizes().has(a) && #[trigger] holds(with_heap(x.g, x.k.h2), a, b) ==> holds(x.g, a, b),
        forall|a: GcRef, b: GcRef|
            x.g.heap.sizes().has(a) && #[trigger] holds(with_heap(x.g, x.k.h3), a, b) ==> holds(x.g, a, b),
{
    assert(x.k.h1.upvals.items@ =~= x.g.heap.upvals.items@);
    assert forall|a: GcRef, b: GcRef|
        x.g.heap.sizes().has(a) && #[trigger] holds(with_heap(x.g, x.k.h2), a, b) implies holds(x.g, a, b) by {
        if let GcRef::Table(t) = a {
            lemma_same_table(x.k.h2.tables.items@[t.0 as int], x.g.heap.tables.items@[t.0 as int], b);
        }
    }
    assert forall|a: GcRef, b: GcRef|
        x.g.heap.sizes().has(a) && #[trigger] holds(with_heap(x.g, x.k.h3), a, b) implies holds(x.g, a, b) by {
        if let GcRef::Table(t) = a {
            assert(x.k.h2.tables.items@[t.0 as int].entries@ == x.g.heap.tables.items@[t.0 as int].entries@);
            lemma_same_table(x.k.h3.tables.items@[t.0 as int], x.g.heap.tables.items@[t.0 as int], b);
        }
    }
}

/// Tables with the same entries refer to the same objects.
proof fn lemma_same_table(a: LuaTable, b: LuaTable, c: GcRef)
    requires
        a.entries@ == b.entries@,
        a.metatable == b.metatable,
        a.weak_mode == b.weak_mode,
        table_edge(a, c),
    ensures
        table_edge(b, c),
{
    if exists|i: int| 0 <= i < a.entries@.len() && entry_holds(a, #[trigger] a.entries@[i], c) {
        let i = choose|i: int| 0 <= i < a.entries@.len() && entry_holds(a, #[trigger] a.entries@[i], c);
        assert(entry_holds(b, b.entries@[i], c));
    }
}

/// A variable that is still open on the stack of a coroutine that is not reached, while the
/// variable is, is closed over the value of its slot, so that it outlives the coroutine.
pub proof fn law_lost_variable_closed(x: Cycle, i: int, j: int)
    requires
        x.ok(),
        0 <= i < x.g.threads@.len(),
        x.g.threads@[i].state is Some,
        x.g.heap.threads.items@[x.g.threads@[i].value.0 as int].id == x.g.threads@[i].id,
        0 <= j < x.g.threads@[i].state->0.openupval@.len(),
        !x.k.c.remarked.contains(GcRef::Thread(x.g.threads@[i].value)),
        x.k.c.remarked.contains(GcRef::UpVal(x.g.threads@[i].state->0.openupval@[j])),
    ensures
        ({
            let s = x.g.threads@[i].state->0;
            let u = s.openupval@[j].0 as int;
            x.g.heap.upvals.items@[u] matches UpVal::Open { thread, idx } ==> (thread == x.g.threads@[i].id && idx.0
                < s.stack@.len() ==> x.g2.heap.upvals.items@[u] == UpVal::Closed(s.stack@[idx.0 as int]))
        }),
{
    let s = x.g.threads@[i].state->0;
    let u = s.openupval@[j].0 as int;
    if let UpVal::Open { thread, idx } = x.g.heap.upvals.items@[u] {
        if thread == x.g.threads@[i].id && idx.0 < s.stack@.len() {
            assert(is_entry(x.g, i, x.g.threads@[i].value));
            assert(crate::gc_threads::closes_at(x.g, x.k.c.remarked, i, j));
            assert(x.k.h1.upvals.items@[u] == UpVal::Closed(s.stack@[idx.0 as int]));
            assert(x.k.b.heap == x.k.h3);
        }
    }
}

/// A coroutine whose handle is not found alive leaves the registry, and with it its globals,
/// and one whose handle is alive stays.
pub proof fn law_dead_coroutine_leaves(x: Cycle, i: int, n: int)
    requires
        x.ok(),
        0 <= i < x.g.threads@.len(),
        0 <= n < x.g2.threads@.len(),
        !x.k.c.alive.contains(GcRef::Thread(x.g.threads@[i].value)),
    ensures
        x.g2.threads@[n].id != x.g.threads@[i].id,
{
    if x.g2.threads@[n].id == x.g.threads@[i].id {
        lemma_registered_alive(x, i, n);
    }
}

/// An object with a finalizer that is not reached comes to its finalizer in this collection:
/// it is kept for it, and does not wait any more. One that is reached waits on.
pub proof fn law_finalizer_due(x: Cycle, n: int)
    requires
        x.ok(),
        x.fins == x.g.finalizers.pending@,
        0 <= n < x.fins.len(),
    ensures
        ({
            let f = x.fins[n];
            let r = match f {
                FinalizerObject::Table(t) => GcRef::Table(t),
                FinalizerObject::UserData(u) => GcRef::UserData(u),
            };
            &&& !x.k.c.valued.contains(r) ==> x.g2.finalizers.to_be_finalized@.contains(f)
                && !x.g2.finalizers.pending@.contains(f) && x.k.c.alive.contains(r)
            &&& x.k.c.valued.contains(r) ==> x.g2.finalizers.pending@.contains(f)
        }),
{
    let f = x.fins[n];
    let r = crate::gc_collect::fin_ref(f);
    let ds = crate::gc_collect::due(x.fins, x.k.c.valued, x.fins.len() as int);
    assert(x.g.finalizers.pending@.contains(f)) by {
        assert(x.g.finalizers.pending@[n] == f);
    }
    assert(x.fins.take(x.fins.len() as int) =~= x.fins);
    crate::gc_collect::law_due(x.fins, x.k.c.valued, x.fins.len() as int, f);
    crate::gc::law_finalized_once(x.g, x.running, x.start, x.touched, x.fins, x.k, x.g2, f);
    lemma_stages_grow(x.g, x.running, x.start, x.touched, x.fins, x.k.c, x.k.h1, x.k.h2, x.k.h3);
    if ds.contains(f) {
        let i = choose|i: int| 0 <= i < ds.len() && ds[i] == f;
        assert(crate::gc_collect::fin_refs(ds).contains(crate::gc_collect::fin_ref(ds[i])));
    }
}

/// What every full collection owes: the slots in use of the running thread keep what they
/// hold, no object with a finalizer is forgotten, and what a set closed under references from
/// the roots leaves out is freed, where nothing is weak and no coroutine or finalizer is there.
pub open spec fn collected_well(g: GlobalState, running: LuaState, g2: GlobalState, j: int, f: FinalizerObject) -> bool {
    &&& running.call_info@[0].func.0 <= j < running.top.0 && lives(g.heap, running.stack@[j]) ==> lives(
        g2.heap,
        running.stack@[j],
    )
    &&& g.finalizers.pending@.contains(f) ==> g2.finalizers.pending@.contains(f)
        || g2.finalizers.to_be_finalized@.contains(f)
}

/// Whether nothing but references decides what stays.
pub open spec fn only_references(g: GlobalState) -> bool {
    &&& g.finalizers.pending@.len() == 0
    &&& g.threads@.len() == 0
    &&& g.weak_tables_registry@.len() == 0
}

/// Whether a set of objects holds all that the roots name and all that its members refer to.
pub open spec fn closed_over(g: GlobalState, running: LuaState, t: Set<GcRef>) -> bool {
    &&& forall|a: GcRef| #[trigger] t.contains(a) ==> g.heap.sizes().has(a)
    &&& roots(g, running, Seq::empty()).subset_of(t)
    &&& forall|a: GcRef, b: GcRef| t.contains(a) && #[trigger] holds(g, a, b) ==> t.contains(b)
}

/// A full collection with a known course owes what every one does.
proof fn lemma_collected_well(x: Cycle, j: int, f: FinalizerObject, t: Set<GcRef>, r: GcRef)
    requires
        x.ok(),
        x.start == Set::<GcRef>::empty(),
        x.touched == Seq::<GcRef>::empty(),
        x.fins == x.g.finalizers.pending@,
    ensures
        collected_well(x.g, x.running, x.g2, j, f),
        only_references(x.g) && closed_over(x.g, x.running, t) && x.g.heap.sizes().has(r) && !t.contains(r)
            && !crate::gc::is_fixed(x.g.heap, r) ==> !is_live(x.g2.heap, r),
{
    if x.running.call_info@[0].func.0 <= j < x.running.top.0 {
        law_stack_kept(x, j);
    }
    if x.g.finalizers.pending@.contains(f) {
        let n = choose|n: int| 0 <= n < x.g.finalizers.pending@.len() && x.g.finalizers.pending@[n] == f;
        law_finalizer_due(x, n);
    }
    if only_references(x.g) && closed_over(x.g, x.running, t) && x.g.heap.sizes().has(r) && !t.contains(r)
        && !crate::gc::is_fixed(x.g.heap, r) {
        law_garbage_freed(x, t, r);
    }
}

/// A collection that is forced is made, and one that is not is made where one is due: it keeps
/// what is in use and frees what is not. One that is not made changes nothing.
pub proof fn law_full_collection(
    g: &mut GlobalState,
    running: &LuaState,
    force: bool,
    ran: bool,
    j: int,
    f: FinalizerObject,
    t: Set<GcRef>,
    r: GcRef,
)
    requires
        call_ensures(GlobalState::collect_via_heap, (g, running, force), ran),
        old(g).wf(),
        running.wf(old(g).heap.sizes()),
    ensures
        force || old(g).collect_due <==> ran,
        !ran ==> *final(g) == *old(g),
        ran ==> collected_well(*old(g), *running, *final(g), j, f),
        ran && only_references(*old(g)) && closed_over(*old(g), *running, t) && old(g).heap.sizes().has(r) && !t.contains(r)
            && !crate::gc::is_fixed(old(g).heap, r) ==> !is_live(final(g).heap, r),
{
    let a = *old(g);
    let k = choose|k: Course| #[trigger]
        collected(a, *running, Set::empty(), Seq::empty(), a.finalizers.pending@, k, *final(g));
    let x = Cycle {
        g: a,
        running: *running,
        start: Set::empty(),
        touched: Seq::empty(),
        fins: a.finalizers.pending@,
        k: k,
        g2: *final(g),
    };
    if ran {
        lemma_collected_well(x, j, f, t, r);
    }
}

/// So are collections asked for by their kind, but for those of young objects only.
pub proof fn law_mode_collection(
    g: &mut GlobalState,
    running: &LuaState,
    mode: HeapCollectMode,
    young: &Young,
    ran: bool,
    j: int,
    f: FinalizerObject,
    t: Set<GcRef>,
    r: GcRef,
)
    requires
        call_ensures(GlobalState::collect_via_heap_mode, (g, running, mode, young), ran),
        old(g).wf(),
        running.wf(old(g).heap.sizes()),
        mode != HeapCollectMode::Minor,
    ensures
        mode == HeapCollectMode::Full ==> ran,
        !ran ==> *final(g) == *old(g),
        ran ==> collected_well(*old(g), *running, *final(g), j, f),
        ran && only_references(*old(g)) && closed_over(*old(g), *running, t) && old(g).heap.sizes().has(r) && !t.contains(r)
            && !crate::gc::is_fixed(old(g).heap, r) ==> !is_live(final(g).heap, r),
{
    let a = *old(g);
    let k = choose|k: Course| #[trigger]
        collected(a, *running, Set::empty(), Seq::empty(), a.finalizers.pending@, k, *final(g));
    let x = Cycle {
        g: a,
        running: *running,
        start: Set::empty(),
        touched: Seq::empty(),
        fins: a.finalizers.pending@,
        k: k,
        g2: *final(g),
    };
    if ran {
        lemma_collected_well(x, j, f, t, r);
    }
}

/// Leaving generational mode changes no reference.
proof fn lemma_mode_aside(g: GlobalState, running: LuaState, t: Set<GcRef>)
    requires
        closed_over(g, running, t),
    ensures
        closed_over(incremental(g), running, t),
{
    let h = incremental(g);
    assert(roots(h, running, Seq::empty()) =~= roots(g, running, Seq::empty()));
    assert forall|a: GcRef, b: GcRef| t.contains(a) && #[trigger] holds(h, a, b) implies t.contains(b) by {
        if let GcRef::Thread(u) = a {
            let i = choose|i: int| #[trigger]
                is_entry(h, i, u) && thread_holds(h.threads@[i].state->0, h.heap, h.current_thread_id, b);
            assert(is_entry(g, i, u));
        }
        assert(holds(g, a, b));
    }
}

/// So is the collection that a host asks for, in either mode.
pub proof fn law_host_collection(
    g: &mut GlobalState,
    running: &LuaState,
    n: Option<usize>,
    j: int,
    f: FinalizerObject,
    t: Set<GcRef>,
    r: GcRef,
)
    requires
        call_ensures(GlobalState::full_collect, (g, running), n),
        old(g).wf(),
        running.wf(old(g).heap.sizes()),
    ensures
        collected_well(*old(g), *running, *final(g), j, f),
        only_references(*old(g)) && closed_over(*old(g), *running, t) && old(g).heap.sizes().has(r) && !t.contains(r)
            && !crate::gc::is_fixed(old(g).heap, r) ==> !is_live(final(g).heap, r),
{
    let a = if old(g).spec_is_gen_mode() {
        incremental(*old(g))
    } else {
        *old(g)
    };
    let k = choose|k: Course| #[trigger]
        collected(a, *running, Set::empty(), Seq::empty(), a.finalizers.pending@, k, *final(g));
    let x = Cycle {
        g: a,
        running: *running,
        start: Set::empty(),
        touched: Seq::empty(),
        fins: a.finalizers.pending@,
        k: k,
        g2: *final(g),
    };
    if closed_over(*old(g), *running, t) {
        lemma_mode_aside(*old(g), *running, t);
    }
    lemma_collected_well(x, j, f, t, r);
}

/// So is a full collection in generational mode.
pub proof fn law_generational_full(
    g: &mut GlobalState,
    running: &LuaState,
    n: usize,
    j: int,
    f: FinalizerObject,
    t: Set<GcRef>,
    r: GcRef,
)
    requires
        call_ensures(GlobalState::fullgen, (g, running), n),
        old(g).wf(),
        running.wf(old(g).heap.sizes()),
    ensures
        collected_well(*old(g), *running, *final(g), j, f),
        only_references(*old(g)) && closed_over(*old(g), *running, t) && old(g).heap.sizes().has(r) && !t.contains(r)
            && !crate::gc::is_fixed(old(g).heap, r) ==> !is_live(final(g).heap, r),
{
    let a = incremental(*old(g));
    let k = choose|k: Course| #[trigger]
        collected(a, *running, Set::empty(), Seq::empty(), a.finalizers.pending@, k, *final(g));
    let x = Cycle {
        g: a,
        running: *running,
        start: Set::empty(),
        touched: Seq::empty(),
        fins: a.finalizers.pending@,
        k: k,
        g2: *final(g),
    };
    if closed_over(*old(g), *running, t) {
        lemma_mode_aside(*old(g), *running, t);
    }
    lemma_collected_well(x, j, f, t, r);
}

/// So is a major collection.
pub proof fn law_major_collection(
    g: &mut GlobalState,
    running: &LuaState,
    n: usize,
    j: int,
    f: FinalizerObject,
    t: Set<GcRef>,
    r: GcRef,
)
    requires
        call_ensures(GlobalState::stepgenfull, (g, running), n),
        old(g).wf(),
        running.wf(old(g).heap.sizes()),
    ensures
        collected_well(*old(g), *running, *final(g), j, f),
        only_references(*old(g)) && closed_over(*old(g), *running, t) && old(g).heap.sizes().has(r) && !t.contains(r)
            && !crate::gc::is_fixed(old(g).heap, r) ==> !is_live(final(g).heap, r),
{
    let a = if old(g).gckind == GcKind::Generational {
        incremental(*old(g))
    } else {
        *old(g)
    };
    let k = choose|k: Course| #[trigger]
        collected(a, *running, Set::empty(), Seq::empty(), a.finalizers.pending@, k, *final(g));
    let x = Cycle {
        g: a,
        running: *running,
        start: Set::empty(),
        touched: Seq::empty(),
        fins: a.finalizers.pending@,
        k: k,
        g2: *final(g),
    };
    if closed_over(*old(g), *running, t) {
        lemma_mode_aside(*old(g), *running, t);
    }
    lemma_collected_well(x, j, f, t, r);
}

/// A collection of young objects keeps the slots in use of the running thread too.
pub proof fn law_minor_collection(
    g: &mut GlobalState,
    running: &LuaState,
    young: &Young,
    ran: bool,
    j: int,
)
    requires
        call_ensures(GlobalState::collect_via_heap_mode, (g, running, HeapCollectMode::Minor, young), ran),
        old(g).wf(),
        running.wf(old(g).heap.sizes()),
        running.call_info@[0].func.0 <= j < running.top.0,
    ensures
        ran,
        lives(old(g).heap, running.stack@[j]) ==> lives(final(g).heap, running.stack@[j]),
{
    let k = choose|k: Course| #[trigger]
        collected(*old(g), *running, young.old@, young.touched@, young.fins@, k, *final(g));
    let x = Cycle {
        g: *old(g),
        running: *running,
        start: young.old@,
        touched: young.touched@,
        fins: young.fins@,
        k: k,
        g2: *final(g),
    };
    law_stack_kept(x, j);
}

/// What a slot in use of the running thread holds is found alive.
proof fn lemma_slot_alive(x: Cycle, j: int, r: GcRef)
    requires
        x.ok(),
        x.running.call_info@[0].func.0 <= j < x.running.top.0,
        value_ref(x.running.stack@[j]) == Some(r),
    ensures
        x.k.c.alive.contains(r),
{
    let s = x.running;
    let k = lemma_slot_owned(s, x.g.heap, x.g.current_thread_id, j, 0);
    assert(thread_holds(s, x.g.heap, x.g.current_thread_id, r));
    lemma_root_alive(x, r);
}

/// A short string in use stays the one that its bytes are found by: it is not dropped from the
/// table of strings. A string that the table still has was there before, and is not freed.
pub proof fn law_interned_stay(x: Cycle, j: int, s: StrId, t: StrId)
    requires
        x.ok(),
        x.running.call_info@[0].func.0 <= j < x.running.top.0,
        x.running.stack@[j] == LuaValue::Str(s),
    ensures
        x.g.interned_lt.has(s) ==> x.g2.interned_lt.has(s),
        x.g2.interned_lt.has(t) ==> x.g.interned_lt.has(t),
        x.g2.interned_lt.has(t) && t.0 < x.g.heap.strings.items@.len() && x.g.heap.strings.live@[t.0 as int]
            ==> x.g2.heap.strings.live@[t.0 as int],
{
    lemma_slot_alive(x, j, GcRef::Str(s));
    if x.g2.interned_lt.has(t) && t.0 < x.g.heap.strings.items@.len() {
        lemma_value_kept(x, LuaValue::Str(t));
        assert(x.keeps(LuaValue::Str(t)));
    }
}

/// A coroutine whose handle is in use stays registered, under its number.
pub proof fn law_coroutine_stays(x: Cycle, j: int, i: int) -> (n: int)
    requires
        x.ok(),
        x.running.call_info@[0].func.0 <= j < x.running.top.0,
        0 <= i < x.g.threads@.len(),
        x.running.stack@[j] == LuaValue::Thread(x.g.threads@[i].value),
        x.g.heap.threads.items@[x.g.threads@[i].value.0 as int].id == x.g.threads@[i].id,
    ensures
        0 <= n < x.g2.threads@.len(),
        x.g2.threads@[n].id == x.g.threads@[i].id,
        x.g2.threads@[n].value == x.g.threads@[i].value,
{
    lemma_slot_alive(x, j, GcRef::Thread(x.g.threads@[i].value));
    let g3 = with_heap(x.g, x.k.h3);
    let keep = threads_keep(g3, x.k.c.alive);
    let ts = all_looked_at(x.g.threads@, x.k.hits);
    assert(x.g2.threads@ == crate::gc_books::kept_by(ts, keep));
    assert(thread_alive(g3, x.k.c.alive, i));
    assert(keep[i]);
    crate::gc_books::lemma_kept_has(ts, keep, i);
    let n = choose|n: int| 0 <= n < x.g2.threads@.len() && x.g2.threads@[n] == ts[i];
    n
}

/// What is kept beside an object stays as long as it is in use: the environment of a closure,
/// the globals of a coroutine and the values kept for its variables, and the mark of a weak
/// table. What is kept for the main thread's variables stays always.
pub proof fn law_kept_beside(x: Cycle, j: int, i: int)
    requires
        x.ok(),
        x.running.call_info@[0].func.0 <= j < x.running.top.0,
        0 <= i,
    ensures
        i < x.g.closure_envs@.len() && x.running.stack@[j] == LuaValue::Function(
            LuaClosure::Lua(LClosureId(x.g.closure_envs@[i].0)),
        ) ==> x.g2.closure_envs@.contains(x.g.closure_envs@[i]),
        i < x.g.cross_thread_upvals@.len() && x.g.cross_thread_upvals@[i].0.0 == x.g.main_thread_id
            ==> x.g2.cross_thread_upvals@.contains(x.g.cross_thread_upvals@[i]),
        i < x.g.weak_tables_registry@.len() && x.running.stack@[j] == LuaValue::Table(x.g.weak_tables_registry@[i].table)
            ==> x.g2.weak_tables_registry@.contains(x.g.weak_tables_registry@[i]),
{
    let g3 = with_heap(x.g, x.k.h3);
    let alive = x.k.c.alive;
    if i < x.g.closure_envs@.len() && x.running.stack@[j] == LuaValue::Function(
        LuaClosure::Lua(LClosureId(x.g.closure_envs@[i].0)),
    ) {
        lemma_slot_alive(x, j, GcRef::LClosure(LClosureId(x.g.closure_envs@[i].0)));
        crate::gc_books::lemma_kept_has(x.g.closure_envs@, crate::gc_books::envs_keep(g3, alive), i);
    }
    if i < x.g.cross_thread_upvals@.len() && x.g.cross_thread_upvals@[i].0.0 == x.g.main_thread_id {
        crate::gc_books::lemma_kept_has(x.g.cross_thread_upvals@, crate::gc_books::cross_keep(g3, alive), i);
    }
    if i < x.g.weak_tables_registry@.len() && x.running.stack@[j] == LuaValue::Table(
        x.g.weak_tables_registry@[i].table,
    ) {
        lemma_slot_alive(x, j, GcRef::Table(x.g.weak_tables_registry@[i].table));
        crate::gc_books::lemma_kept_has(x.g.weak_tables_registry@, crate::gc_books::weak_keep(g3, alive), i);
    }
}

/// So do the globals of a coroutine whose handle is in use, and the values kept for its
/// variables.
pub proof fn law_kept_for_coroutine(x: Cycle, j: int, n: int, i: int)
    requires
        x.ok(),
        x.running.call_info@[0].func.0 <= j < x.running.top.0,
        0 <= n < x.g.threads@.len(),
        x.running.stack@[j] == LuaValue::Thread(x.g.threads@[n].value),
        x.g.heap.threads.items@[x.g.threads@[n].value.0 as int].id == x.g.threads@[n].id,
        0 <= i,
    ensures
        i < x.g.thread_globals@.len() && x.g.thread_globals@[i].0 == x.g.threads@[n].id
            ==> x.g2.thread_globals@.contains(x.g.thread_globals@[i]),
        i < x.g.cross_thread_upvals@.len() && x.g.cross_thread_upvals@[i].0.0 == x.g.threads@[n].id
            ==> x.g2.cross_thread_upvals@.contains(x.g.cross_thread_upvals@[i]),
{
    lemma_slot_alive(x, j, GcRef::Thread(x.g.threads@[n].value));
    let g3 = with_heap(x.g, x.k.h3);
    let alive = x.k.c.alive;
    assert(thread_alive(g3, alive, n));
    assert(crate::gc_books::id_alive(g3, alive, x.g.threads@[n].id));
    if i < x.g.thread_globals@.len() && x.g.thread_globals@[i].0 == x.g.threads@[n].id {
        crate::gc_books::lemma_kept_has(x.g.thread_globals@, crate::gc_books::globals_keep(g3, alive), i);
    }
    if i < x.g.cross_thread_upvals@.len() && x.g.cross_thread_upvals@[i].0.0 == x.g.threads@[n].id {
        crate::gc_books::lemma_kept_has(x.g.cross_thread_upvals@, crate::gc_books::cross_keep(g3, alive), i);
    }
}

/// What is kept beside a closure goes with it: an environment that is left belongs to a closure
/// that was not freed.
pub proof fn law_left_beside(x: Cycle, i: int)
    requires
        x.ok(),
        0 <= i < x.g2.closure_envs@.len(),
        x.g2.closure_envs@[i].0 < x.g.heap.lclosures.items@.len(),
        x.g.heap.lclosures.live@[x.g2.closure_envs@[i].0 as int],
    ensures
        x.g2.heap.lclosures.live@[x.g2.closure_envs@[i].0 as int],
        x.g.closure_envs@.contains(x.g2.closure_envs@[i]),
{
    let g3 = with_heap(x.g, x.k.h3);
    let keep = crate::gc_books::envs_keep(g3, x.k.c.alive);
    lemma_kept_from(x.g.closure_envs@, keep, i);
    let m = kept_from(keep, x.g.closure_envs@.len() as int, i);
    assert(x.g.closure_envs@[m] == x.g2.closure_envs@[i]);
    let v = LuaValue::Function(LuaClosure::Lua(LClosureId(x.g2.closure_envs@[i].0)));
    lemma_value_kept(x, v);
    assert(x.keeps(v));
}

} // verus!
