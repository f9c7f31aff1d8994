use lua_vm::arith::numeral_for;
use lua_vm::boot::{make_bare_seed, make_seed, new_state, new_state_seeded};
use lua_vm::gc::HeapCollectMode;
use lua_vm::gc_incr::StepReport;
use lua_vm::gc_barrier::{Barrier, Party};
use lua_vm::gc_pace::{CheckStep, GenPlan, ModeChange};
use lua_vm::global::{GcKind, GcPhase, GlobalState, LUA_RIDX_GLOBALS};
use lua_vm::heap::GcRef;
use lua_vm::roots::ExternalRootSet;
use lua_vm::state::{LuaState, EXTRA_STACK, LUA_MINSTACK};
use lua_vm::intern::InternedStringMap;
use lua_vm::string::{hash_bytes, LuaString, MAX_SHORT_LEN};
use lua_vm::value::{LuaClosure, LuaStatus, LuaValue, LuaVersion, StackIdx, StrId, TableId};

const NOOP: usize = 0x4000;

fn fresh() -> (LuaState, GlobalState) {
    new_state(1_700_000_000).expect("state should initialize")
}

fn get_int(g: &GlobalState, t: TableId, k: i64) -> LuaValue {
    g.heap.tables.items[t.0].get_int(&g.heap.strings.items, k)
}

fn none_young(g: &GlobalState) -> lua_vm::gc::Young {
    lua_vm::gc::Young {
        old: lua_vm::gc_marks::Marks::none(&g.heap),
        touched: Vec::new(),
        fins: Vec::new(),
    }
}

#[test]
fn new_userdata_builds_untyped_full_userdata() {
    let (mut state, mut g) = fresh();
    let ud = state.new_userdata(&mut g, 16, 2);
    let ud = &g.heap.userdata.items[ud.0];
    assert_eq!(ud.data.len(), 16);
    assert_eq!(ud.uv.len(), 2);
    assert!(ud.uv.iter().all(|v| matches!(v, LuaValue::Nil)));
    assert!(ud.metatable.is_none());
}

#[test]
fn new_c_closure_builds_light_and_full_closures() {
    let (mut state, mut g) = fresh();
    let light = state.new_c_closure(&mut g, NOOP, 0).expect("light closure should build");
    assert!(matches!(light, LuaClosure::LightC(_)), "n==0 must yield a light C function");

    let full = state.new_c_closure(&mut g, NOOP, 3).expect("full closure should build");
    match full {
        LuaClosure::C(ccl) => {
            let ups = &g.heap.cclosures.items[ccl.0].upvalues;
            assert_eq!(ups.len(), 3);
            assert!(ups.iter().all(|v| matches!(v, LuaValue::Nil)));
        }
        _ => panic!("n>0 must yield a full C closure"),
    }
}

#[test]
fn register_c_function_dedups_only_when_requested() {
    let (_state, mut g) = fresh();
    let a = g.register_c_function(NOOP, true);
    let b = g.register_c_function(NOOP, true);
    assert_eq!(a, b, "dedup=true should reuse the identical fn's slot");
    let c = g.register_c_function(NOOP, false);
    assert_ne!(a, c, "dedup=false must always allocate a fresh slot");
}

#[test]
fn raw_constructors_flag_gc_check_needed() {
    let (mut state, mut g) = fresh();
    state.gc_check_needed = false;
    let _ = state.new_userdata(&mut g, 32, 1);
    assert!(state.gc_check_needed, "new_userdata must flag a GC check");

    state.gc_check_needed = false;
    let _ = state.new_c_closure(&mut g, NOOP, 2).expect("new_c_closure n>0");
    assert!(state.gc_check_needed, "new_c_closure(n>0) must flag a GC check");
}

#[test]
fn new_c_closure_rejects_out_of_range_upvalue_count() {
    let (mut state, mut g) = fresh();
    let before = g.c_functions.len();
    assert!(state.new_c_closure(&mut g, NOOP, 256).is_err(), "n>255 must error");
    assert!(state.new_c_closure(&mut g, NOOP, -1).is_err(), "negative n must error");
    assert_eq!(
        before,
        g.c_functions.len(),
        "an invalid upvalue count must not pollute c_functions"
    );
    assert!(
        state.new_c_closure(&mut g, NOOP, 255).is_ok(),
        "n==255 (MAX_UPVAL) must succeed"
    );
}

#[test]
fn registry_versioned_slots_match_version() {
    let (_state, mut g) = fresh();
    let registry = match g.l_registry {
        LuaValue::Table(t) => t,
        other => panic!("l_registry should be a table, got {other:?}"),
    };
    let main_thread = LuaValue::Thread(g.main_thread_value);
    let globals = g.globals;
    assert!(matches!(globals, LuaValue::Table(_)), "globals should be a table");

    assert_eq!(get_int(&g, registry, 1), main_thread);
    assert_eq!(get_int(&g, registry, LUA_RIDX_GLOBALS), globals);
    assert_eq!(get_int(&g, registry, 3), LuaValue::Nil);

    g.lua_version = LuaVersion::V51;
    assert!(g.set_versioned_registry_slots().is_ok());
    assert_eq!(get_int(&g, registry, 1), LuaValue::Nil);
    assert_eq!(get_int(&g, registry, LUA_RIDX_GLOBALS), LuaValue::Nil);
    assert_eq!(get_int(&g, registry, 3), LuaValue::Nil);

    g.lua_version = LuaVersion::V55;
    assert!(g.set_versioned_registry_slots().is_ok());
    assert_eq!(get_int(&g, registry, 1), LuaValue::Bool(false));
    assert_eq!(get_int(&g, registry, LUA_RIDX_GLOBALS), globals);
    assert_eq!(get_int(&g, registry, 3), main_thread);

    g.lua_version = LuaVersion::V52;
    assert!(g.set_versioned_registry_slots().is_ok());
    assert_eq!(get_int(&g, registry, 1), main_thread);
    assert_eq!(get_int(&g, registry, LUA_RIDX_GLOBALS), globals);
    assert_eq!(get_int(&g, registry, 3), LuaValue::Nil);
}

#[test]
fn versioned_registry_slots_preserve_foreign_entries_on_rerun() {
    let (_state, mut g) = fresh();
    let registry = match g.l_registry {
        LuaValue::Table(t) => t,
        other => panic!("l_registry should be a table, got {other:?}"),
    };
    let main_thread = LuaValue::Thread(g.main_thread_value);
    let globals = g.globals;

    g.heap
        .set(registry, LuaValue::Int(3), LuaValue::Int(99))
        .expect("seeding a foreign registry entry should succeed");
    assert!(g.set_versioned_registry_slots().is_ok());

    assert_eq!(get_int(&g, registry, 3), LuaValue::Int(99));
    assert_eq!(get_int(&g, registry, 1), main_thread);
    assert_eq!(get_int(&g, registry, LUA_RIDX_GLOBALS), globals);
}

#[test]
fn reset_thread_shrinks_stack_and_updates_stack_last() {
    let (mut state, _g) = fresh();
    let grown_size = state.stack_size() + 500;
    state.realloc_stack(grown_size);
    assert_eq!(state.stack_size(), grown_size);
    assert_eq!(state.stack.len(), grown_size + EXTRA_STACK);
    let grown_capacity = state.stack.capacity();

    let status = state.reset_thread_begin(LuaStatus::Okay.raw());
    assert_eq!(status, LuaStatus::Okay.raw());
    assert_eq!(state.reset_thread_end(status), LuaStatus::Okay.raw());

    let expected_size = (state.top.0 + LUA_MINSTACK as u32) as usize;
    assert_eq!(state.stack_size(), expected_size);
    assert_eq!(state.stack.len(), expected_size + EXTRA_STACK);
    assert!(
        state.stack.capacity() < grown_capacity,
        "reset_thread should reclaim the backing capacity (was {}, now {})",
        grown_capacity,
        state.stack.capacity()
    );
}

#[test]
fn memerrmsg_is_the_same_object_a_matching_intern_str_call_returns() {
    let (mut state, mut g) = fresh();
    let memerrmsg = g.memerrmsg;
    let interned = state.intern_str(&mut g, MAX_SHORT_LEN.to_string().as_bytes());
    assert_ne!(memerrmsg, interned);

    let bytes = g.heap.strings.items[memerrmsg.0].bytes.clone();
    let same_bytes = state.intern_str(&mut g, &bytes);
    assert_eq!(memerrmsg, same_bytes);
}

#[test]
fn external_root_keys_reject_stale_slot_after_reuse() {
    let mut roots = ExternalRootSet::default();

    let first = roots.insert(LuaValue::Int(1));
    assert_eq!(roots.len(), 1);
    assert_eq!(roots.get(first), Some(LuaValue::Int(1)));

    assert_eq!(roots.remove(first), Some(LuaValue::Int(1)));
    assert!(roots.get(first).is_none());
    assert!(roots.remove(first).is_none());
    assert_eq!(roots.len(), 0);
    assert_eq!(roots.vacant_len(), 1);
    assert!(roots.replace(first, LuaValue::Int(9)).is_none());
    assert!(roots.is_empty());

    let second = roots.insert(LuaValue::Int(2));
    assert_eq!(first.index, second.index);
    assert_ne!(first, second);
    assert!(roots.get(first).is_none());
    assert_eq!(roots.get(second), Some(LuaValue::Int(2)));
    assert!(roots.replace(first, LuaValue::Int(3)).is_none());
}

#[test]
fn external_roots_keep_heap_value_alive_until_unrooted() {
    let (mut state, mut g) = fresh();
    let table = state.new_table(&mut g);
    assert_eq!(g.heap.allgc_count(), 1);

    let key = state.external_root_value(&mut g, LuaValue::Table(table));
    g.full_collect(&state);
    assert_eq!(g.heap.allgc_count(), 1);
    assert_eq!(g.external_roots.len(), 1);

    assert!(state.external_unroot_value(&mut g, key).is_some());
    g.full_collect(&state);
    assert_eq!(g.heap.allgc_count(), 0);
    assert!(g.external_roots.is_empty());
}

#[test]
fn free_all_objects_kills_weak_handle_while_guard_and_heap_alive() {
    let (mut state, mut g) = fresh();
    let table = state.new_table(&mut g);
    assert!(g.heap.tables.live[table.0], "weak handle upgrades while the table is live");

    g.free_all_objects();

    assert!(!g.heap.tables.live[table.0]);
    assert!(g.heap.closed);
}

#[test]
fn close_with_live_coroutine_lets_heap_drop() {
    let (mut state, mut g) = fresh();
    state.new_thread(&mut g, None);
    assert_eq!(g.threads.len(), 1);

    state.close_state(&g);
    state.close_state_done(&mut g);
    assert!(g.threads.is_empty());
    assert!(g.heap.threads.live.iter().all(|l| !*l));
}

#[test]
fn interned_string_table_grows_then_shrinks_on_collection() {
    let (mut state, mut g) = fresh();
    let initial_buckets = g.interned_lt.bucket_count();
    assert_eq!(initial_buckets, 64);
    let baseline_live = g.interned_lt.len();

    for i in 0..2000usize {
        let key = format!("intern-shrink-probe-{i:08}");
        state.intern_str(&mut g, key.as_bytes());
    }

    let grown_buckets = g.interned_lt.bucket_count();
    assert_eq!(g.interned_lt.len(), baseline_live + 2000);
    assert!(grown_buckets >= 2048);

    g.full_collect(&state);

    let shrunk_buckets = g.interned_lt.bucket_count();
    let surviving_live = g.interned_lt.len();
    assert!(surviving_live <= baseline_live);
    assert!(surviving_live < 2000);
    assert_eq!(shrunk_buckets, 64);
    assert!(shrunk_buckets < grown_buckets, "shrink must strictly reduce the bucket array");
}

fn interned(g: &GlobalState, bytes: &[u8]) -> bool {
    g.interned_lt.iter().iter().any(|s| g.heap.strings.items[s.0].bytes == bytes)
}

#[test]
fn interned_short_string_cache_does_not_root_unreferenced_string() {
    let (mut state, mut g) = fresh();
    let payload = b"weak-cache-probe-a";
    let string = state.intern_str(&mut g, payload);
    assert!(interned(&g, payload));
    assert!(g.heap.strings.live[string.0]);

    g.full_collect(&state);
    assert!(!interned(&g, payload));
    assert!(!g.heap.strings.live[string.0]);
}

#[test]
fn interned_short_string_cache_keeps_reachable_string_until_unrooted() {
    let (mut state, mut g) = fresh();
    let payload = b"weak-cache-probe-b";
    let string = state.intern_str(&mut g, payload);
    let key = state.external_root_value(&mut g, LuaValue::Str(string));

    g.full_collect(&state);
    assert!(interned(&g, payload));
    assert!(g.heap.strings.live[string.0]);

    assert!(state.external_unroot_value(&mut g, key).is_some());
    g.full_collect(&state);
    assert!(!interned(&g, payload));
    assert!(!g.heap.strings.live[string.0]);
}

#[test]
fn gc_phase_predicates_follow_heap_state() {
    let (mut state, mut g) = fresh();
    g.gckind = GcKind::Incremental;
    g.lastatomic = 0;
    assert!(!g.is_gen_mode());
    g.lastatomic = 1;
    assert!(g.is_gen_mode());
    g.lastatomic = 0;

    let mut roots = Vec::new();
    for _ in 0..16 {
        let table = state.new_table(&mut g);
        roots.push(state.external_root_value(&mut g, LuaValue::Table(table)));
    }

    let phases = [
        (GcPhase::Propagate, true, false),
        (GcPhase::EnterAtomic, true, false),
        (GcPhase::Atomic, true, false),
        (GcPhase::SweepAllGc, false, true),
        (GcPhase::SweepFinObj, false, true),
        (GcPhase::SweepToBeFnz, false, true),
        (GcPhase::SweepEnd, false, true),
        (GcPhase::CallFin, false, false),
        (GcPhase::Pause, false, false),
    ];
    let mut saw_keep = false;
    let mut saw_sweep = false;
    for (phase, invariant, sweep) in phases {
        let report = StepReport { atomic: None, phase, paused: phase == GcPhase::Pause };
        g.incremental_step_to_state(&state, Some(phase), report);
        assert_eq!(g.gc_phase, phase);
        assert_eq!(g.keep_invariant(), invariant);
        assert_eq!(g.is_sweep_phase(), sweep);
        saw_keep |= g.keep_invariant();
        saw_sweep |= g.is_sweep_phase();
    }
    assert!(saw_keep, "incremental cycle should expose an invariant phase");
    assert!(saw_sweep, "incremental cycle should expose a sweep phase");

    for key in roots {
        assert!(state.external_unroot_value(&mut g, key).is_some());
    }
    g.full_collect(&state);
    assert_eq!(g.heap.allgc_count(), 0);
}

#[test]
fn gc_barrier_keeps_new_child_stored_in_black_parent() {
    let (mut state, mut g) = fresh();
    let parent = state.new_table(&mut g);
    let parent_key = state.external_root_value(&mut g, LuaValue::Table(parent));
    let report = StepReport { atomic: None, phase: GcPhase::Propagate, paused: false };
    g.incremental_step_to_state(&state, None, report);
    assert!(
        g.keep_invariant(),
        "test setup should leave the parent marked during an active cycle"
    );

    let child = state.new_table(&mut g);
    let child_value = LuaValue::Table(child);
    g.raw_set_int(parent, 1, child_value);
    assert!(g.barriers.is_empty());
    assert_eq!(
        g.barrier_back(&Party::Object(GcRef::Table(parent)), &child_value),
        Some(Barrier::Backward {
            parent: GcRef::Table(parent),
            child: GcRef::Table(child),
            touch: false
        })
    );

    let report = StepReport {
        atomic: Some(vec![GcRef::Table(parent)]),
        phase: GcPhase::CallFin,
        paused: false,
    };
    let (alive, paused) = g.incremental_step_to_state(&state, None, report);
    assert!(paused);
    g.heap.sweep(&alive.expect("the step went through the atomic phase"));

    assert_eq!(g.heap.allgc_count(), 2);
    assert_eq!(get_int(&g, parent, 1), LuaValue::Table(child));

    assert!(state.external_unroot_value(&mut g, parent_key).is_some());
    g.full_collect(&state);
    assert_eq!(g.heap.allgc_count(), 0);
}

#[test]
fn cross_thread_upvalue_mirror_traces_values_as_roots() {
    let (mut state, mut g) = fresh();
    let mirrored = state.new_table(&mut g);
    g.cross_thread_upvals.push(((999, StackIdx(0)), LuaValue::Table(mirrored)));

    g.full_collect(&state);
    assert_eq!(g.heap.allgc_count(), 1);

    g.cross_thread_upvals.clear();
    g.full_collect(&state);
    assert_eq!(g.heap.allgc_count(), 0);
}

#[test]
fn gc_packed_params_return_user_visible_values() {
    let (_state, mut g) = fresh();
    assert_eq!(g.gc_pause_param(), 200);
    g.set_gc_pause_param(200);
    assert_eq!(g.gc_pause_param(), 200);
    assert_eq!(g.gc_stepmul_param(), 100);
    g.set_gc_stepmul_param(200);
    assert_eq!(g.gc_stepmul_param(), 200);
    g.set_gc_genmajormul(200);
    assert_eq!(g.gc_genmajormul_param(), 200);
}

fn enter_generational(state: &LuaState, g: &mut GlobalState, bytes: usize) {
    assert_eq!(g.change_mode(GcKind::Generational), ModeChange::ToGenerational);
    g.enter_generational_mode(state);
    g.bytes_used = bytes;
    g.generational_entered();
}

fn grown_tree(state: &mut LuaState, g: &mut GlobalState) -> lua_vm::roots::ExternalRootKey {
    let root = state.new_table(g);
    let root_key = state.external_root_value(g, LuaValue::Table(root));
    enter_generational(state, g, 100);
    for i in 1..=64 {
        let child = state.new_table(g);
        let child_value = LuaValue::Table(child);
        g.heap
            .set(root, LuaValue::Int(i), child_value)
            .expect("table store should succeed");
        assert_eq!(
            g.barrier_back(&Party::Object(GcRef::Table(root)), &child_value),
            Some(Barrier::Backward {
                parent: GcRef::Table(root),
                child: GcRef::Table(child),
                touch: true
            })
        );
    }
    g.bytes_used = 6500;
    root_key
}

#[test]
fn generational_step_runs_bad_major_when_growth_exceeds_genmajormul() {
    let (mut state, mut g) = fresh();
    let root_key = grown_tree(&mut state, &mut g);
    g.gc_estimate = 1;
    g.set_debt(1);

    let young = none_young(&g);
    let (plan, numobjs) = g.generational_step_with_major(&state, &young, true);
    assert!(matches!(plan, GenPlan::Major { .. }));
    assert_eq!(numobjs, 65);
    g.generational_step_done(plan, numobjs);
    assert!(g.is_gen_mode());
    assert!(g.lastatomic > 0, "bad major collection should arm stepgenfull");
    assert!(g.gc_estimate > 1);
    assert!(g.gc_debt() <= 0);

    assert!(state.external_unroot_value(&mut g, root_key).is_some());
    g.full_collect(&state);
}

#[test]
fn generational_implicit_step_runs_major_when_heap_threshold_exceeded() {
    let (mut state, mut g) = fresh();
    let root_key = grown_tree(&mut state, &mut g);
    g.gc_estimate = 1;
    g.set_debt(-1);
    g.heap_threshold = 1;
    g.collect_due = true;

    let young = none_young(&g);
    let (plan, numobjs) = g.generational_step_with_major(&state, &young, true);
    g.generational_step_done(plan, numobjs);
    assert!(g.is_gen_mode());
    assert!(
        g.lastatomic > 0,
        "implicit threshold-triggered growth should arm a bad major"
    );
    assert!(g.gc_debt() <= 0);

    assert!(state.external_unroot_value(&mut g, root_key).is_some());
    g.full_collect(&state);
}

#[test]
fn generational_stepgenfull_returns_to_gen_after_good_collection() {
    let (mut state, mut g) = fresh();
    let root = state.new_table(&mut g);
    let root_key = state.external_root_value(&mut g, LuaValue::Table(root));
    enter_generational(&state, &mut g, 100);
    g.lastatomic = 1024;

    let young = none_young(&g);
    let (plan, numobjs) = g.generational_step_with_major(&state, &young, true);
    assert_eq!(plan, GenPlan::AfterBad { lastatomic: 1024 });
    g.generational_step_done(plan, numobjs);
    assert_eq!(g.gckind, GcKind::Generational);
    assert_eq!(g.lastatomic, 0);
    assert!(g.gc_debt() <= 0);
    assert!(g.heap.tables.live[root.0]);

    assert!(state.external_unroot_value(&mut g, root_key).is_some());
    g.full_collect(&state);
}

#[test]
fn the_table_of_strings_goes_by_hash_and_bytes() {
    let strs = vec![LuaString::from_slice(b"one"), LuaString::from_slice(b"two")];
    let hash = |b: &[u8]| hash_bytes(b, 0);
    let mut m = InternedStringMap::default();
    m.insert(&strs, StrId(0));
    assert_eq!(m.find(&strs, b"one", hash(b"one")), Some(StrId(0)));
    assert_eq!(m.find(&strs, b"one", hash(b"one") ^ 1), None);
    assert_eq!(m.find(&strs, b"two", hash(b"one")), None);
    assert_eq!(m.find(&strs, b"two", hash(b"two")), None);
    m.insert(&strs, StrId(1));
    assert_eq!(m.len(), 2);
    assert_eq!(m.iter().len(), 2);
}

#[test]
fn the_table_of_strings_may_hold_one_twice() {
    let strs = vec![LuaString::from_slice(b"one")];
    let hash = hash_bytes(b"one", 0);
    let mut m = InternedStringMap::default();
    m.insert(&strs, StrId(0));
    m.insert(&strs, StrId(0));
    assert_eq!(m.len(), 2);
    assert_eq!(m.iter(), vec![StrId(0), StrId(0)]);
    m.remove(&strs, hash ^ 1, StrId(0));
    assert_eq!(m.len(), 2);
    m.remove(&strs, hash, StrId(0));
    assert_eq!(m.len(), 1);
    assert_eq!(m.find(&strs, b"one", hash), Some(StrId(0)));
    m.remove(&strs, hash, StrId(0));
    assert!(m.is_empty());
    m.remove(&strs, hash, StrId(0));
    assert!(m.is_empty());
}

#[test]
fn short_strings_are_one_object_and_long_ones_are_not() {
    let (mut s, mut g) = fresh();
    let short = vec![b'a'; MAX_SHORT_LEN];
    let long = vec![b'a'; MAX_SHORT_LEN + 1];
    let a = s.intern_str(&mut g, &short);
    assert_eq!(s.intern_str(&mut g, &short), a);
    assert_ne!(s.intern_str(&mut g, b"b"), a);
    let before = g.interned_lt.len();
    let b = s.intern_str(&mut g, &long);
    assert_ne!(s.intern_str(&mut g, &long), b);
    assert_eq!(g.interned_lt.len(), before);
}

#[test]
fn joined_texts_are_interned_where_they_are_short() {
    let (mut s, mut g) = fresh();
    let x = s.intern_str(&mut g, b"left-");
    let y = s.intern_str(&mut g, b"right");
    s.push(LuaValue::Str(x));
    s.push(LuaValue::Str(y));
    assert!(s.concat(&mut g, 2).is_ok());
    let joined = s.get_at(StackIdx(s.top.0 - 1));
    assert_eq!(joined, LuaValue::Str(s.intern_str(&mut g, b"left-right")));
    assert_eq!(s.intern_str(&mut g, b"left-"), x);
    s.set_text(&mut g, StackIdx(s.top.0 - 1), b"12");
    assert_eq!(s.get_at(StackIdx(s.top.0 - 1)), LuaValue::Str(s.intern_str(&mut g, b"12")));
}

#[test]
fn without_integers_a_text_spells_a_double() {
    let ten = 10.0f64.to_bits();
    for v in [LuaVersion::V51, LuaVersion::V52] {
        assert_eq!(numeral_for(v, LuaValue::Int(10), ten), LuaValue::Float(ten));
    }
    for v in [LuaVersion::V53, LuaVersion::V54, LuaVersion::V55] {
        assert_eq!(numeral_for(v, LuaValue::Int(10), ten), LuaValue::Int(10));
    }
    let half = 0.5f64.to_bits();
    assert_eq!(numeral_for(LuaVersion::V51, LuaValue::Float(half), half), LuaValue::Float(half));
}

#[test]
fn seeds_come_from_the_clock_or_are_fixed() {
    assert_eq!(make_bare_seed(), 0x27a5_2b9d);
    let (_, g) = new_state_seeded(make_bare_seed());
    assert_eq!(g.seed, 0x27a5_2b9d);
    let (_, g) = fresh();
    assert_eq!(g.seed, make_seed(1_700_000_000));
}

#[test]
fn a_new_runtime_has_nothing_to_collect() {
    let (s, mut g) = fresh();
    assert!(s.gc_check_needed && !g.collect_due);
    assert_eq!((g.bytes_used, g.heap_threshold, g.sandbox.tripped), (0, 0, 0));
    assert_eq!((s.hookcount, s.basehookcount, s.oldpc), (0, 0, 0));
    assert_eq!(g.heap.allgc_count(), 0);
    g.full_collect(&s);
    assert!(g.heap.strings.live.iter().all(|l| *l));
    assert!(g.heap.tables.live.iter().all(|l| *l));
    assert_eq!(g.heap.allgc_count(), 0);
}

#[test]
fn a_coroutine_is_made_after_a_look_at_the_collector() {
    let (mut s, mut g) = fresh();
    assert_eq!(s.direct_check_step(&mut g), CheckStep::Collect);
    g.gcstp = 1;
    assert_eq!(s.direct_check_step(&mut g), CheckStep::Nothing);
    g.gcstp = 0;
    g.gckind = GcKind::Generational;
    assert_eq!(s.direct_check_step(&mut g), CheckStep::Nothing);
    g.collect_due = true;
    let dead = s.stack.len() - 1;
    s.stack[dead] = LuaValue::Int(1);
    assert_eq!(s.direct_check_step(&mut g), CheckStep::Generational);
    assert_eq!(s.stack[dead], LuaValue::Nil);
    let id = s.new_thread(&mut g, None);
    assert_eq!(id, 1);
    let t = g.threads[0].state.as_ref().expect("a state");
    assert!(t.gc_check_needed);
    assert_eq!(t.marked, 0);
}

#[test]
fn generational_upvalue_write_barrier_marks_young_child_old0() {
    let (mut state, mut g) = fresh();
    let proto = state.new_proto(&mut g);
    let closure = state.new_lclosure(&mut g, proto, 1);
    let closure_key =
        state.external_root_value(&mut g, LuaValue::Function(LuaClosure::Lua(closure)));
    enter_generational(&state, &mut g, 100);
    let uv = g.heap.lclosures.items[closure.0].upvals[0];

    let child = state.new_table(&mut g);
    state.upvalue_set(&mut g, closure, 0, LuaValue::Table(child));
    assert_eq!(
        g.take_barriers(),
        vec![Barrier::ForwardOld { parent: GcRef::UpVal(uv), child: GcRef::Table(child) }]
    );
    assert!(g.barriers.is_empty());
    state.upvalue_set(&mut g, closure, 0, LuaValue::Int(1));
    assert!(g.barriers.is_empty());

    assert!(state.external_unroot_value(&mut g, closure_key).is_some());
    g.full_collect(&state);
}

#[test]
fn generational_mode_promotes_and_barriers_age_objects() {
    let (mut state, mut g) = fresh();
    let parent = state.new_table(&mut g);
    let parent_key = state.external_root_value(&mut g, LuaValue::Table(parent));

    enter_generational(&state, &mut g, 100);
    let majorbase = g.gc_estimate;
    assert!(majorbase > 0);
    assert!(g.gc_debt() <= 0);

    let child = state.new_table(&mut g);
    let child_value = LuaValue::Table(child);
    assert!(g.store(parent, LuaValue::Int(1), child_value).is_ok());
    assert_eq!(
        g.take_barriers(),
        vec![Barrier::Backward {
            parent: GcRef::Table(parent),
            child: GcRef::Table(child),
            touch: true
        }]
    );

    let metatable = state.new_table(&mut g);
    g.heap.tables.items[parent.0].metatable = Some(metatable);
    assert_eq!(
        g.obj_barrier(
            &Party::Object(GcRef::Table(parent)),
            &Party::Object(GcRef::Table(metatable))
        ),
        Some(Barrier::ForwardOld { parent: GcRef::Table(parent), child: GcRef::Table(metatable) })
    );

    let mut young = none_young(&g);
    young.touched.push(GcRef::Table(parent));
    let (plan, numobjs) = g.generational_step_with_major(&state, &young, false);
    assert!(matches!(plan, GenPlan::Minor { .. }));
    assert_eq!(numobjs, 3);
    g.generational_step_done(plan, numobjs);
    assert_eq!(g.gc_estimate, majorbase);
    assert!(g.gc_debt() <= 0);

    assert_eq!(g.change_mode(GcKind::Incremental), ModeChange::Done);
    assert!(!g.is_gen_mode());

    assert!(state.external_unroot_value(&mut g, parent_key).is_some());
    g.full_collect(&state);
    assert_eq!(g.heap.allgc_count(), 0);
}

#[test]
fn new_keys_are_told_and_known_ones_are_not() {
    let (mut state, mut g) = fresh();
    enter_generational(&state, &mut g, 100);
    let t = state.new_table(&mut g);
    let back = |child| Barrier::Backward { parent: GcRef::Table(t), child, touch: true };
    let short = state.intern_str(&mut g, b"key");
    let long = state.intern_str(&mut g, &[b'k'; MAX_SHORT_LEN + 1]);
    for expected in [vec![back(GcRef::Str(short))], vec![]] {
        assert!(g.raw_set(t, LuaValue::Str(short), LuaValue::Int(1)).is_ok());
        assert_eq!(g.take_barriers(), expected);
    }
    for _ in 0..2 {
        assert!(g.raw_set(t, LuaValue::Str(long), LuaValue::Int(1)).is_ok());
        assert_eq!(g.take_barriers(), vec![back(GcRef::Str(long))]);
    }
    assert!(g.raw_set(t, LuaValue::Nil, LuaValue::Str(short)).is_err());
    assert!(g.raw_set(t, LuaValue::Bool(true), LuaValue::Str(short)).is_ok());
    assert!(g.barriers.is_empty());
}

#[test]
fn a_write_tells_of_its_key_and_its_value() {
    let (mut state, mut g) = fresh();
    let t = state.new_table(&mut g);
    let u = state.new_table(&mut g);
    let v = state.new_table(&mut g);
    let back = |child| Barrier::Backward {
        parent: GcRef::Table(t),
        child: GcRef::Table(child),
        touch: false,
    };
    let (tv, key, value) = (LuaValue::Table(t), LuaValue::Table(u), LuaValue::Table(v));
    assert!(g.store(t, key, value).is_ok());
    assert_eq!(g.take_barriers(), vec![back(u), back(v)]);
    assert!(g.table_set_with_tm(tv, key, value, None, None).is_ok());
    assert_eq!(g.take_barriers(), vec![back(v), back(u)]);
    assert!(g.finish_set(tv, LuaValue::Int(1), value, None, None).is_ok());
    assert_eq!(g.take_barriers(), vec![back(v)]);
    assert!(g.table_set_with_tm(tv, LuaValue::Nil, value, None, None).is_err());
    assert_eq!(g.take_barriers(), vec![back(v)]);
    assert!(g.store(t, LuaValue::Nil, value).is_err());
    assert!(g.table_raw_set(&tv, LuaValue::Int(2), value).is_ok());
    assert!(g.table_array_set(&tv, 2, value).is_ok());
    assert!(g.barriers.is_empty());
}

#[test]
fn a_look_at_weak_tables_is_noted_by_the_coroutines() {
    for (version, touched) in [(LuaVersion::V53, false), (LuaVersion::V54, true)] {
        let (mut state, mut g) = fresh();
        g.lua_version = version;
        let id = state.new_thread(&mut g, Some(LuaValue::Int(1)));
        state.pop();
        let mut t = g.threads[0].state.take().expect("a state");
        let uv = t.new_upval_open(&mut g, id, StackIdx(1));
        t.openupval.push(uv);
        g.threads[0].state = Some(t);
        g.prune_weak_tables_mark_only(&state);
        let t = g.threads[0].state.as_ref().expect("a state");
        assert_eq!(t.legacy_open_upval_touched, touched);
    }
}

#[test]
fn replacing_a_root_leaves_other_slots_alone() {
    let mut roots = ExternalRootSet::default();
    let a = roots.insert(LuaValue::Int(1));
    let b = roots.insert(LuaValue::Int(2));
    roots.remove(a);
    assert_eq!(roots.replace(b, LuaValue::Int(3)), Some(LuaValue::Int(2)));
    let c = roots.insert(LuaValue::Int(4));
    assert_eq!(roots.get(a), None);
    assert_eq!((roots.get(b), roots.get(c)), (Some(LuaValue::Int(3)), Some(LuaValue::Int(4))));
}

#[test]
fn a_touched_object_is_followed_and_an_old_one_is_not() {
    for touched in [false, true] {
        let (mut state, mut g) = fresh();
        let parent = state.new_table(&mut g);
        state.external_root_value(&mut g, LuaValue::Table(parent));
        enter_generational(&state, &mut g, 100);
        let child = state.new_table(&mut g);
        assert!(g.store(parent, LuaValue::Int(1), LuaValue::Table(child)).is_ok());

        let mut young = none_young(&g);
        match (touched, g.take_barriers().as_slice()) {
            (true, [Barrier::Backward { parent: p, touch: true, .. }]) => young.touched.push(*p),
            _ => young.old.put(GcRef::Table(parent)),
        }
        assert!(g.collect_via_heap_mode(&state, HeapCollectMode::Minor, &young));
        assert!(g.heap.tables.live[parent.0]);
        assert_eq!(g.heap.tables.live[child.0], touched);
    }
}
