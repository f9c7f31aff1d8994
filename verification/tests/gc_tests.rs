use lua_vm::boot::new_state;
use lua_vm::gc_barrier::{Barrier, Party};
use lua_vm::gc_pace::{CheckStep, GcStep};
use lua_vm::global::{FinalizerObject, GcKind, GlobalState, WeakTableEntry};
use lua_vm::heap::GcRef;
use lua_vm::state::LuaState;
use lua_vm::value::{LuaClosure, LuaValue, TableId};

fn fresh() -> (LuaState, GlobalState) {
    new_state(1_700_000_000).expect("state should initialize")
}

fn set(g: &mut GlobalState, t: TableId, k: LuaValue, v: LuaValue) {
    g.heap.set(t, k, v).expect("a proper key");
}

fn collect(s: &LuaState, g: &mut GlobalState) {
    assert!(g.collect_via_heap(s, true));
}

fn weak(s: &mut LuaState, g: &mut GlobalState, mode: u8) -> TableId {
    let t = s.new_table(g);
    g.heap.tables.items[t.0].weak_mode = mode;
    g.weak_tables_registry.push(WeakTableEntry::new(t, mode));
    s.push(LuaValue::Table(t));
    t
}

#[test]
fn what_the_stack_reaches_survives() {
    let (mut s, mut g) = fresh();
    let (kept, inner, lost) = (s.new_table(&mut g), s.new_table(&mut g), s.new_table(&mut g));
    let name = s.intern_str(&mut g, b"inner");
    set(&mut g, kept, LuaValue::Str(name), LuaValue::Table(inner));
    s.push(LuaValue::Table(kept));
    collect(&s, &mut g);
    assert!(g.heap.tables.live[kept.0]);
    assert!(g.heap.tables.live[inner.0]);
    assert!(g.heap.strings.live[name.0]);
    assert!(!g.heap.tables.live[lost.0]);
    s.pop();
    s.clear_stack_range(s.top, lua_vm::value::StackIdx(s.stack.len() as u32));
    collect(&s, &mut g);
    assert!(!g.heap.tables.live[kept.0]);
    assert!(!g.heap.tables.live[inner.0]);
    assert!(!g.heap.strings.live[name.0]);
}

#[test]
fn a_cycle_of_garbage_is_freed() {
    let (mut s, mut g) = fresh();
    let (a, b) = (s.new_table(&mut g), s.new_table(&mut g));
    set(&mut g, a, LuaValue::Int(1), LuaValue::Table(b));
    set(&mut g, b, LuaValue::Int(1), LuaValue::Table(a));
    collect(&s, &mut g);
    assert!(!g.heap.tables.live[a.0] && !g.heap.tables.live[b.0]);
}

#[test]
fn closures_keep_their_prototypes_and_variables() {
    let (mut s, mut g) = fresh();
    let p = s.new_proto(&mut g);
    let c = s.new_lclosure(&mut g, p, 0);
    let t = s.new_table(&mut g);
    let u = s.new_upval_closed(&mut g, LuaValue::Table(t));
    g.heap.lclosures.items[c.0].upvals.push(u);
    s.push(LuaValue::Function(LuaClosure::Lua(c)));
    collect(&s, &mut g);
    assert!(g.heap.lclosures.live[c.0] && g.heap.protos.live[p.0]);
    assert!(g.heap.upvals.live[u.0] && g.heap.tables.live[t.0]);
}

#[test]
fn weak_values_are_cleared() {
    let (mut s, mut g) = fresh();
    let w = weak(&mut s, &mut g, 2);
    let (kept, lost) = (s.new_table(&mut g), s.new_table(&mut g));
    s.push(LuaValue::Table(kept));
    set(&mut g, w, LuaValue::Int(1), LuaValue::Table(kept));
    set(&mut g, w, LuaValue::Int(2), LuaValue::Table(lost));
    set(&mut g, w, LuaValue::Int(3), LuaValue::Int(30));
    collect(&s, &mut g);
    assert_eq!(g.heap.get(w, &LuaValue::Int(1)), LuaValue::Table(kept));
    assert_eq!(g.heap.get(w, &LuaValue::Int(2)), LuaValue::Nil);
    assert_eq!(g.heap.get(w, &LuaValue::Int(3)), LuaValue::Int(30));
    assert!(!g.heap.tables.live[lost.0]);
}

#[test]
fn strings_are_values_and_stay_in_weak_tables() {
    let (mut s, mut g) = fresh();
    let w = weak(&mut s, &mut g, 2);
    let text = s.intern_str(&mut g, b"a string is a value");
    set(&mut g, w, LuaValue::Int(1), LuaValue::Str(text));
    collect(&s, &mut g);
    assert_eq!(g.heap.get(w, &LuaValue::Int(1)), LuaValue::Str(text));
    assert!(g.heap.strings.live[text.0]);
}

#[test]
fn a_value_that_only_its_own_key_holds_goes_with_it() {
    let (mut s, mut g) = fresh();
    let w = weak(&mut s, &mut g, 1);
    let (kept, lost) = (s.new_table(&mut g), s.new_table(&mut g));
    let (of_kept, of_lost) = (s.new_table(&mut g), s.new_table(&mut g));
    s.push(LuaValue::Table(kept));
    set(&mut g, of_lost, LuaValue::Int(1), LuaValue::Table(lost));
    set(&mut g, w, LuaValue::Table(kept), LuaValue::Table(of_kept));
    set(&mut g, w, LuaValue::Table(lost), LuaValue::Table(of_lost));
    collect(&s, &mut g);
    assert_eq!(g.heap.get(w, &LuaValue::Table(kept)), LuaValue::Table(of_kept));
    assert!(g.heap.tables.live[of_kept.0]);
    assert!(!g.heap.tables.live[lost.0] && !g.heap.tables.live[of_lost.0]);
    assert_eq!(g.heap.tables.items[w.0].entries.len(), 1);
}

#[test]
fn a_chain_of_weak_keys_is_followed_to_its_end() {
    let (mut s, mut g) = fresh();
    let w = weak(&mut s, &mut g, 1);
    let (a, b, c) = (s.new_table(&mut g), s.new_table(&mut g), s.new_table(&mut g));
    s.push(LuaValue::Table(a));
    set(&mut g, w, LuaValue::Table(b), LuaValue::Table(c));
    set(&mut g, w, LuaValue::Table(a), LuaValue::Table(b));
    collect(&s, &mut g);
    assert!(g.heap.tables.live[b.0] && g.heap.tables.live[c.0]);
    assert_eq!(g.heap.get(w, &LuaValue::Table(b)), LuaValue::Table(c));
}

#[test]
fn an_object_with_a_finalizer_is_kept_for_it_once() {
    let (mut s, mut g) = fresh();
    let t = s.new_table(&mut g);
    let inner = s.new_table(&mut g);
    set(&mut g, t, LuaValue::Int(1), LuaValue::Table(inner));
    g.finalizers.pending.push(FinalizerObject::Table(t));
    collect(&s, &mut g);
    assert!(g.heap.tables.live[t.0] && g.heap.tables.live[inner.0]);
    assert_eq!(g.finalizers.to_be_finalized, vec![FinalizerObject::Table(t)]);
    assert!(g.finalizers.pending.is_empty());
    assert!(g.has_to_be_finalized());
    g.finalizers.to_be_finalized.clear();
    collect(&s, &mut g);
    assert!(!g.heap.tables.live[t.0] && !g.heap.tables.live[inner.0]);
    assert!(!g.has_to_be_finalized());
}

#[test]
fn a_reachable_object_keeps_its_finalizer_pending() {
    let (mut s, mut g) = fresh();
    let t = s.new_table(&mut g);
    s.push(LuaValue::Table(t));
    g.finalizers.pending.push(FinalizerObject::Table(t));
    collect(&s, &mut g);
    assert_eq!(g.finalizers.pending, vec![FinalizerObject::Table(t)]);
    assert!(!g.has_to_be_finalized());
}

#[test]
fn a_weak_value_goes_before_its_finalizer_and_a_weak_key_after() {
    let (mut s, mut g) = fresh();
    let values = weak(&mut s, &mut g, 2);
    let keys = weak(&mut s, &mut g, 1);
    let t = s.new_table(&mut g);
    set(&mut g, values, LuaValue::Int(1), LuaValue::Table(t));
    set(&mut g, keys, LuaValue::Table(t), LuaValue::Int(1));
    g.finalizers.pending.push(FinalizerObject::Table(t));
    collect(&s, &mut g);
    assert_eq!(g.heap.get(values, &LuaValue::Int(1)), LuaValue::Nil);
    assert_eq!(g.heap.get(keys, &LuaValue::Table(t)), LuaValue::Int(1));
}

#[test]
fn a_thread_keeps_its_stack() {
    let (mut s, mut g) = fresh();
    let id = s.new_thread(&mut g, None);
    let handle = g.thread_value_for(id).expect("a handle");
    let t = s.new_table(&mut g);
    let at = g.find_thread(id).expect("an entry");
    match &mut g.threads[at].state {
        Some(other) => other.push(LuaValue::Table(t)),
        None => panic!("the thread has a stack"),
    }
    assert_eq!(s.peek_top(), LuaValue::Thread(handle));
    collect(&s, &mut g);
    assert!(g.heap.tables.live[t.0]);
    assert!(g.find_thread(id).is_some());
    s.pop();
    s.clear_stack_range(s.top, lua_vm::value::StackIdx(s.stack.len() as u32));
    collect(&s, &mut g);
    assert!(!g.heap.tables.live[t.0]);
    assert!(g.find_thread(id).is_none());
}

#[test]
fn environments_of_threads_and_closures_are_roots() {
    let (mut s, mut g) = fresh();
    let (a, b) = (s.new_table(&mut g), s.new_table(&mut g));
    g.thread_globals.push((0, LuaValue::Table(a)));
    let p = s.new_proto(&mut g);
    let c = s.new_lclosure(&mut g, p, 0);
    s.push(LuaValue::Function(LuaClosure::Lua(c)));
    g.closure_envs.push((c.0, LuaValue::Table(b)));
    collect(&s, &mut g);
    assert!(g.heap.tables.live[a.0] && g.heap.tables.live[b.0]);
}

#[test]
fn interned_strings_are_forgotten_with_their_objects() {
    let (mut s, mut g) = fresh();
    let kept = s.intern_str(&mut g, b"kept");
    s.push(LuaValue::Str(kept));
    s.intern_str(&mut g, b"lost");
    let n = g.interned_lt.len();
    collect(&s, &mut g);
    assert_eq!(g.interned_lt.len(), n - 1);
    assert!(g.interned_lt.contains_key(&g.heap.strings.items, b"kept"));
    assert!(!g.interned_lt.contains_key(&g.heap.strings.items, b"lost"));
    assert_eq!(s.intern_str(&mut g, b"kept"), kept);
}

#[test]
fn steps_wait_for_debt_in_generational_mode() {
    let (_s, mut g) = fresh();
    assert_eq!(g.check_step(), CheckStep::Collect);
    g.gckind = GcKind::Generational;
    g.gc_debt = 0;
    g.collect_due = false;
    assert_eq!(g.check_step(), CheckStep::Nothing);
    g.gc_debt = 1;
    assert_eq!(g.check_step(), CheckStep::Generational);
    g.set_gc_stop_user();
    assert_eq!(g.check_step(), CheckStep::Nothing);
    g.clear_gc_stop();
    assert_eq!(g.check_step(), CheckStep::Generational);
}

#[test]
fn a_stopped_collector_takes_no_step() {
    let (mut s, mut g) = fresh();
    g.set_gc_stop_user();
    assert!(matches!(s.gc_check_step(&mut g), GcStep::Nothing));
}

#[test]
fn debt_stays_within_the_largest_number() {
    let (_s, mut g) = fresh();
    g.bytes_used = 1000;
    g.set_debt(-500);
    assert_eq!(g.gc_debt(), -500);
    g.set_debt(isize::MIN + 1);
    assert_eq!(g.gc_debt(), g.total_bytes() as isize - isize::MAX);
}

#[test]
fn parameters_are_kept_in_fours() {
    let (_s, mut g) = fresh();
    g.set_gc_pause_param(203);
    assert_eq!(g.gc_pause_param(), 200);
    g.set_gc_stepmul_param(1020);
    assert_eq!(g.gc_stepmul_param(), 1020);
    let old = g.gc55_param(0, 77);
    assert_eq!(g.gc55_param(0, -1), 77);
    assert_eq!(g.gc55_param(0, old), 77);
}

#[test]
fn barriers_are_for_objects_only() {
    let (mut s, mut g) = fresh();
    let (p, c) = (s.new_table(&mut g), s.new_table(&mut g));
    let (parent, child) = (GcRef::Table(p), GcRef::Table(c));
    let (from, to) = (Party::Object(parent), LuaValue::Table(c));
    assert_eq!(g.barrier(&from, &LuaValue::Int(1)), None);
    assert_eq!(g.barrier(&Party::Value(LuaValue::Nil), &to), None);
    assert_eq!(g.barrier(&from, &to), Some(Barrier::Forward { parent, child }));
    assert_eq!(g.barrier_back(&from, &LuaValue::Nil), None);
    assert_eq!(g.table_barrier_back(p, &to), Some(Barrier::Backward { parent, child, touch: false }));
    g.gckind = GcKind::Generational;
    assert_eq!(g.barrier(&from, &to), Some(Barrier::ForwardOld { parent, child }));
    assert_eq!(g.barrier_back(&from, &to), Some(Barrier::Backward { parent, child, touch: true }));
    assert_eq!(
        g.gc_value_barrier_back(&LuaValue::Table(p), &to),
        Some(Barrier::Backward { parent, child, touch: true }),
    );
    assert_eq!(
        g.obj_barrier_back(&from, &Party::Object(child)),
        Some(Barrier::Backward { parent, child, touch: false }),
    );
    assert_eq!(g.obj_barrier(&from, &Party::Object(child)), Some(Barrier::ForwardOld { parent, child }));
    let u = s.new_upval_closed(&mut g, LuaValue::Nil);
    assert_eq!(
        g.gc_barrier_upval(u, &to),
        Some(Barrier::ForwardOld { parent: GcRef::UpVal(u), child }),
    );
}

#[test]
fn teardown_frees_everything() {
    let (mut s, mut g) = fresh();
    let t = s.new_table(&mut g);
    s.push(LuaValue::Table(t));
    g.free_all_objects();
    assert_eq!(g.heap.allgc_count(), 0);
    assert!(!g.heap.tables.live[t.0]);
    assert!(g.heap.strings.live.iter().all(|live| !*live));
}
