//! Setting up a runtime and its threads.

use vstd::prelude::*;
use vstd::string::StringSliceAdditionalSpecFns;
use crate::frames::base_frame;
use crate::gc_pace::object_count;
use crate::global::FinalizerRegistry;
use crate::global::GCSTPGC;
use crate::global::GcKind;
use crate::global::GcPhase;
use crate::global::GlobalState;
use crate::global::LUA_NUMTYPES;
use crate::global::LUA_RIDX_GLOBALS;
use crate::global::LUA_RIDX_MAINTHREAD;
use crate::global::TestWarnMode;
use crate::global::ThreadRegistryEntry;
use crate::global::WarnMode;
use crate::global::intern_grown;
use crate::global::keys_once;
use crate::global::lemma_global_grow;
use crate::global::lemma_refs_grow;
use crate::global::lemma_state_grow;
use crate::global::map_get;
use crate::global::pairs_ok;
use crate::global::strs_ok;
use crate::global::threads_ok;
use crate::heap::Arena;
use crate::heap::Heap;
use crate::heap::LuaThread;
use crate::heap::Sizes;
use crate::heap::heap_extends;
use crate::heap::lemma_heap_extends;
use crate::heap::lemma_marks_trans;
use crate::heap::marks_grown;
use crate::intern::InternedStringMap;
use crate::roots::ExternalRootSet;
use crate::sandbox::SANDBOX_TRIP_NONE;
use crate::sandbox::SandboxLimits;
use crate::state::LuaState;
use crate::string::LuaString;
use crate::string::hash_bytes;
use crate::string::spec_hash;
use crate::table::TableEntry;
use crate::table::entries_wf;
use crate::table::find_from;
use crate::table::lemma_find_from;
use crate::table::lookup;
use crate::table::norm_key;
use crate::table::same_key;
use crate::upvals::lemma_map_get;
use crate::value::LuaError;
use crate::value::LuaValue;
use crate::value::LuaVersion;
use crate::value::StrId;
use crate::value::TableId;
use crate::value::ThreadRef;

verus! {

/// The bytes of a word, lowest first.
pub open spec fn le_bytes(t: u32) -> Seq<u8> {
    seq![
        (t % 256) as u8,
        (t / 256 % 256) as u8,
        (t / 65536 % 256) as u8,
        (t / 16777216) as u8,
    ]
}

/// A seed for hashes from the time in seconds.
pub fn make_seed(secs: u32) -> (r: u32)
    ensures
        r == spec_hash(le_bytes(secs), secs),
{
    let mut b: Vec<u8> = Vec::new();
    b.push((secs % 256) as u8);
    b.push((secs / 256 % 256) as u8);
    b.push((secs / 65536 % 256) as u8);
    b.push((secs / 16777216) as u8);
    assert(b@ =~= le_bytes(secs));
    hash_bytes(b.as_slice(), secs)
}

/// The seed for hashes where there is no clock.
pub fn make_bare_seed() -> (r: u32)
    ensures
        r == spec_hash("lua-rs-wasm-seed".spec_bytes(), 0x9e37_79b9),
{
    let text: &str = "lua-rs-wasm-seed";
    hash_bytes(text.as_bytes(), 0x9e37_79b9)
}

/// What a registry slot holds after the slots were set for a version: what the slot
/// held, without an earlier main thread or table of globals, unless the version puts
/// something there.
pub open spec fn slot_for(v: LuaVersion, i: int, cur: LuaValue, main: LuaValue, globals: LuaValue) -> LuaValue {
    let rest = if cur == main || cur == globals {
        LuaValue::Nil
    } else {
        cur
    };
    match v {
        LuaVersion::V51 => rest,
        LuaVersion::V55 => if i == 1 {
            LuaValue::Bool(false)
        } else if i == 2 {
            globals
        } else {
            main
        },
        _ => if i == 1 {
            main
        } else if i == 2 {
            globals
        } else {
            rest
        },
    }
}

/// Whether the three slots of the registry were set for the version and nothing else
/// changed.
pub open spec fn slots_set(a: GlobalState, b: GlobalState) -> bool {
    match a.l_registry {
        LuaValue::Table(t) => {
            let main = LuaValue::Thread(a.main_thread_value);
            &&& b == (GlobalState { heap: b.heap, ..a })
            &&& b.heap == (Heap { tables: b.heap.tables, ..a.heap })
            &&& b.heap.tables == (Arena { items: b.heap.tables.items, ..a.heap.tables })
            &&& b.heap.tables.items@.len() == a.heap.tables.items@.len()
            &&& forall|i: int|
                0 <= i < a.heap.tables.items@.len() && i != t.0 ==> #[trigger] b.heap.tables.items@[i]
                    == a.heap.tables.items@[i]
            &&& b.heap.tmeta(t) == a.heap.tmeta(t)
            &&& forall|q: LuaValue| #[trigger]
                b.heap.tget(t, q) == (match norm_key(q) {
                    LuaValue::Int(i) => if 1 <= i <= 3 {
                        slot_for(a.lua_version, i as int, a.heap.tget(t, q), main, a.globals)
                    } else {
                        a.heap.tget(t, q)
                    },
                    _ => a.heap.tget(t, q),
                })
        },
        _ => b == a,
    }
}

impl GlobalState {
    /// Sets the registry slots of the main thread and the globals as the version has
    /// them: none in 5.1, the first two from 5.2 to 5.4, and from 5.5 on the globals
    /// second and the main thread third.
    pub fn set_versioned_registry_slots(&mut self) -> (r: Result<(), LuaError>)
        requires
            old(self).wf(),
        ensures
            r is Ok,
            final(self).wf(),
            final(self).heap.sizes() == old(self).heap.sizes(),
            slots_set(*old(self), *final(self)),
            marks_grown(old(self).heap.tables, final(self).heap.tables, old(self).heap.bootstrap),
    {
        let t: TableId = match self.l_registry {
            LuaValue::Table(t) => t,
            _ => {
                return Ok(());
            },
        };
        let main: LuaValue = LuaValue::Thread(self.main_thread_value);
        let globals: LuaValue = self.globals;
        let mut i: i64 = 1;
        while i <= 3
            invariant
                1 <= i <= 4,
                old(self).wf(),
                self.wf(),
                self.heap.sizes() == old(self).heap.sizes(),
                t.0 < self.heap.tables.items@.len(),
                self.l_registry == LuaValue::Table(t),
                main == LuaValue::Thread(old(self).main_thread_value),
                globals == old(self).globals,
                *self == (GlobalState { heap: self.heap, ..*old(self) }),
                self.heap == (Heap { tables: self.heap.tables, ..old(self).heap }),
                self.heap.tables == (Arena { items: self.heap.tables.items, ..old(self).heap.tables }),
                forall|j: int|
                    0 <= j < old(self).heap.tables.items@.len() && j != t.0 ==> #[trigger] self.heap.tables.items@[j]
                        == old(self).heap.tables.items@[j],
                self.heap.tmeta(t) == old(self).heap.tmeta(t),
                forall|q: LuaValue| #[trigger]
                    self.heap.tget(t, q) == (match norm_key(q) {
                        LuaValue::Int(j) => if 1 <= j < i && (old(self).heap.tget(t, q) == main || old(
                            self,
                        ).heap.tget(t, q) == globals) {
                            LuaValue::Nil
                        } else {
                            old(self).heap.tget(t, q)
                        },
                        _ => old(self).heap.tget(t, q),
                    }),
            decreases 4 - i,
        {
            let cur: LuaValue = self.heap.get(t, &LuaValue::Int(i));
            let ghost before = *self;
            if cur == main || cur == globals {
                self.raw_set_int(t, i, LuaValue::Nil);
            }
            proof {
                assert forall|q: LuaValue| norm_key(q) == LuaValue::Int(i) implies #[trigger] old(self).heap.tget(
                    t,
                    q,
                ) == old(self).heap.tget(t, LuaValue::Int(i)) by {}
            }
            i = i + 1;
        }
        match self.lua_version {
            LuaVersion::V51 => {},
            LuaVersion::V55 => {
                self.raw_set_int(t, 1, LuaValue::Bool(false));
                self.raw_set_int(t, LUA_RIDX_GLOBALS, globals);
                self.raw_set_int(t, 3, main);
            },
            _ => {
                self.raw_set_int(t, LUA_RIDX_MAINTHREAD, main);
                self.raw_set_int(t, LUA_RIDX_GLOBALS, globals);
            },
        }
        Ok(())
    }
}

/// Setting the slots again changes nothing, and what others keep in the registry
/// stays.
pub proof fn law_registry_slots(a: GlobalState, b: GlobalState, c: GlobalState, t: TableId, q: LuaValue)
    requires
        a.l_registry == LuaValue::Table(t),
        slots_set(a, b),
        slots_set(b, c),
    ensures
        c.heap.tget(t, q) == b.heap.tget(t, q),
        !(norm_key(q) is Int && 1 <= norm_key(q)->Int_0 <= 3) ==> b.heap.tget(t, q) == a.heap.tget(t, q),
{
}

/// Sets one entry of a map of thread globals.
fn put_pair(m: &mut Vec<(u64, LuaValue)>, k: u64, v: LuaValue)
    requires
        keys_once(old(m)@),
    ensures
        keys_once(final(m)@),
        map_get(final(m)@, k) == Some(v),
        forall|q: u64| q != k ==> #[trigger] map_get(final(m)@, q) == map_get(old(m)@, q),
        forall|z: Sizes| pairs_ok(z, old(m)@) && z.ok(v) ==> #[trigger] pairs_ok(z, final(m)@),
{
    let mut i: usize = 0;
    while i < m.len()
        invariant
            i <= m@.len(),
            *m == *old(m),
            keys_once(m@),
            forall|j: int| 0 <= j < i ==> (#[trigger] m@[j]).0 != k,
        decreases m@.len() - i,
    {
        if m[i].0 == k {
            m.set(i, (k, v));
            proof {
                assert(old(m)@[i as int].0 == k);
                crate::upvals::lemma_map_put(old(m)@, m@, k, v);
                assert forall|z: Sizes| pairs_ok(z, old(m)@) && z.ok(v) implies #[trigger] pairs_ok(z, m@) by {
                    assert forall|j: int| 0 <= j < m@.len() implies z.ok((#[trigger] m@[j]).1) by {
                        assert(z.ok(old(m)@[j].1));
                    }
                }
            }
            return;
        }
        i = i + 1;
    }
    m.push((k, v));
    proof {
        crate::upvals::lemma_map_put(old(m)@, m@, k, v);
        assert forall|z: Sizes| pairs_ok(z, old(m)@) && z.ok(v) implies #[trigger] pairs_ok(z, m@) by {
            assert forall|j: int| 0 <= j < m@.len() implies z.ok((#[trigger] m@[j]).1) by {
                if j < old(m)@.len() {
                    assert(z.ok(old(m)@[j].1));
                }
            }
        }
    }
}

impl GlobalState {
    /// The table of globals of a thread in 5.1: the shared one for the main thread, its
    /// own for a coroutine.
    pub open spec fn lgt(self, id: u64) -> Option<LuaValue> {
        if id == self.main_thread_id {
            Some(self.globals)
        } else {
            map_get(self.thread_globals@, id)
        }
    }

    /// The table of globals of a thread in 5.1.
    pub fn v51_thread_lgt(&self, id: u64) -> (r: LuaValue)
        requires
            self.wf(),
            self.lgt(id) is Some,
        ensures
            self.lgt(id) == Some(r),
            self.heap.ok(r),
    {
        if id == self.main_thread_id {
            return self.globals;
        }
        let mut i: usize = 0;
        while i < self.thread_globals.len()
            invariant
                i <= self.thread_globals@.len(),
                self.wf(),
                id != self.main_thread_id,
                forall|j: int| 0 <= j < i ==> (#[trigger] self.thread_globals@[j]).0 != id,
            decreases self.thread_globals@.len() - i,
        {
            if self.thread_globals[i].0 == id {
                proof {
                    lemma_map_get(self.thread_globals@, i as int);
                    assert(self.heap.ok(self.thread_globals@[i as int].1));
                }
                return self.thread_globals[i].1;
            }
            i = i + 1;
        }
        LuaValue::Nil
    }

    /// Sets the table of globals of a thread in 5.1.
    pub fn v51_set_thread_lgt(&mut self, id: u64, t: LuaValue)
        requires
            old(self).wf(),
            old(self).heap.ok(t),
        ensures
            final(self).wf(),
            *final(self) == (GlobalState {
                globals: final(self).globals,
                thread_globals: final(self).thread_globals,
                ..*old(self)
            }),
            final(self).lgt(id) == Some(t),
            forall|o: u64| o != id ==> #[trigger] final(self).lgt(o) == old(self).lgt(o),
    {
        if id == self.main_thread_id {
            self.globals = t;
        } else {
            put_pair(&mut self.thread_globals, id, t);
        }
    }

    /// Registers a coroutine whose state is made, and returns its handle.
    fn add_thread(&mut self, id: u64, state: LuaState) -> (v: ThreadRef)
        requires
            old(self).wf(),
            state.wf(old(self).heap.sizes()),
            id < old(self).next_thread_id,
            forall|i: int| 0 <= i < old(self).threads@.len() ==> (#[trigger] old(self).threads@[i]).id != id,
        ensures
            final(self).wf(),
            *final(self) == (GlobalState {
                heap: final(self).heap,
                threads: final(self).threads,
                ..*old(self)
            }),
            heap_extends(old(self).heap, final(self).heap),
            final(self).heap.tables == old(self).heap.tables,
            v.0 == old(self).heap.threads.items@.len(),
            v.0 < final(self).heap.threads.items@.len(),
            final(self).heap.threads.items@[v.0 as int].id == id,
            final(self).threads@ == old(self).threads@.push(
                ThreadRegistryEntry { id: id, state: Some(state), value: v },
            ),
    {
        let v: ThreadRef = self.heap.new_thread(LuaThread { id: id });
        proof {
            lemma_global_grow(*old(self), *self);
            lemma_state_grow(state, old(self).heap.sizes(), self.heap.sizes());
        }
        let ghost mid = *self;
        self.threads.push(ThreadRegistryEntry { id: id, state: Some(state), value: v });
        proof {
            let z = self.heap.sizes();
            let ts = self.threads@;
            assert(threads_ok(z, ts)) by {
                assert forall|i: int| 0 <= i < ts.len() implies (#[trigger] ts[i]).value.0 < z.threads && (
                ts[i].state matches Some(x) ==> x.wf(z)) by {
                    if i < mid.threads@.len() {
                        assert(ts[i] == mid.threads@[i]);
                    }
                }
                assert forall|a: int, b: int| 0 <= a < b < ts.len() implies (#[trigger] ts[a]).id != (
                #[trigger] ts[b]).id by {
                    assert(ts[a] == mid.threads@[a]);
                    if b < mid.threads@.len() {
                        assert(mid.threads@[a].id != mid.threads@[b].id);
                    }
                }
            }
            assert forall|i: int| 0 <= i < ts.len() implies (#[trigger] ts[i]).id < self.next_thread_id by {
                if i < mid.threads@.len() {
                    assert(ts[i] == mid.threads@[i]);
                }
            }
        }
        v
    }
}

/// The state of a new coroutine: a fresh stack with the body on it, the creator's
/// hook mask and counters, and the given identifier.
pub open spec fn is_new_thread(s: LuaState, creator: LuaState, id: u64, body: Option<LuaValue>) -> bool {
    &&& s.cached_thread_id == id
    &&& s.status == 0 && s.allowhook && s.nci == 0 && s.n_ccalls == 0 && s.errfunc == 0 && s.oldpc == 0
    &&& s.gc_check_needed && s.marked == 0
    &&& !s.hooked && s.hookmask == creator.hookmask && s.basehookcount == creator.basehookcount
    &&& s.hookcount == creator.basehookcount
    &&& s.openupval@.len() == 0 && s.tbclist@.len() == 0 && !s.legacy_open_upval_touched
    &&& s.ci.0 == 0 && s.call_info@ == seq![base_frame()] && s.stack_last.0 == 40
    &&& s.stack@ == (match body {
        Some(b) => Seq::new(45, |i: int| LuaValue::Nil).update(1, b),
        None => Seq::new(45, |i: int| LuaValue::Nil),
    })
    &&& s.top.0 == (if body is Some {
        2int
    } else {
        1int
    })
}

impl LuaState {
    /// Makes a coroutine and pushes its handle. In 5.1 it inherits the globals of the
    /// running thread.
    pub fn new_thread(&mut self, g: &mut GlobalState, initial_body: Option<LuaValue>) -> (id: u64)
        requires
            old(g).wf(),
            old(self).wf(old(g).heap.sizes()),
            old(self).top.0 < u32::MAX,
            old(g).next_thread_id < u64::MAX,
            initial_body matches Some(b) ==> old(g).heap.ok(b),
            old(g).lua_version == LuaVersion::V51 ==> old(g).lgt(old(g).current_thread_id) is Some,
            old(g).lua_version == LuaVersion::V51 ==> old(g).main_thread_id < old(g).next_thread_id,
        ensures
            final(g).wf(),
            final(self).wf(final(g).heap.sizes()),
            id == old(g).next_thread_id,
            *final(g) == (GlobalState {
                heap: final(g).heap,
                threads: final(g).threads,
                thread_globals: final(g).thread_globals,
                next_thread_id: (id + 1) as u64,
                ..*old(g)
            }),
            heap_extends(old(g).heap, final(g).heap),
            final(g).threads@.len() == old(g).threads@.len() + 1,
            final(g).threads@.take(old(g).threads@.len() as int) == old(g).threads@,
            ({
                let e = final(g).threads@.last();
                let v = ThreadRef(old(g).heap.threads.items@.len() as usize);
                &&& e.id == id && e.value == v
                &&& e.state matches Some(s) && is_new_thread(s, *old(self), id, initial_body)
                &&& final(self).top.0 == old(self).top.0 + 1
                &&& final(self).stack@[old(self).top.0 as int] == LuaValue::Thread(v)
                &&& final(g).heap.threads.items@[v.0 as int].id == id
            }),
            *final(self) == (LuaState { stack: final(self).stack, top: final(self).top, ..*old(self) }),
            forall|i: int| 0 <= i < old(self).top.0 ==> #[trigger] final(self).stack@[i] == old(self).stack@[i],
            old(g).lua_version == LuaVersion::V51 ==> final(g).lgt(id) == old(g).lgt(old(g).current_thread_id),
            old(g).lua_version != LuaVersion::V51 ==> final(g).thread_globals == old(g).thread_globals,
    {
        let id: u64 = g.next_thread_id;
        g.next_thread_id = id + 1;
        if g.lua_version == LuaVersion::V51 {
            let creator: LuaValue = g.v51_thread_lgt(g.current_thread_id);
            let ghost before = *g;
            g.v51_set_thread_lgt(id, creator);
            assert(g.lgt(g.main_thread_id) == before.lgt(before.main_thread_id));
        }
        let ghost mid = *g;
        let mut t: LuaState = LuaState::blank(id);
        t.preinit_thread(&g.sandbox);
        t.hookmask = self.hookmask;
        t.basehookcount = self.basehookcount;
        t.reset_hook_count();
        t.stack_init();
        let ghost z = g.heap.sizes();
        assert(t.wf(z));
        if let Some(b) = initial_body {
            t.push(b);
        }
        proof {
            assert forall|i: int| 0 <= i < g.threads@.len() implies (#[trigger] g.threads@[i]).id != id by {
                assert(old(g).threads@[i].id < old(g).next_thread_id);
            }
        }
        let v: ThreadRef = g.add_thread(id, t);
        proof {
            lemma_heap_extends(mid.heap, g.heap);
            lemma_state_grow(*self, mid.heap.sizes(), g.heap.sizes());
            assert(g.threads@.take(old(g).threads@.len() as int) =~= old(g).threads@);
        }
        self.push(LuaValue::Thread(v));
        id
    }
}

/// The message of the error that memory is exhausted.
pub open spec fn memory_message() -> Seq<u8> {
    "not enough memory".spec_bytes()
}

/// The number of entries in the string cache.
pub const STRCACHE_SIZE: usize = 106;

/// Whether a runtime is as it is first set up: 5.4, its collector running in
/// incremental mode at the default pace, no sandbox, no coroutine, warnings off, the
/// names of the events known, and the registry with its two slots. What it is set up with is
/// exempt from collection.
pub open spec fn is_new_state(s: LuaState, g: GlobalState, seed: u32) -> bool {
    &&& g.wf() && s.wf(g.heap.sizes()) && g.tm_ready()
    &&& g.lua_version == LuaVersion::V54 && g.nilvalue == LuaValue::Nil
    &&& g.seed == seed
    &&& g.sandbox == (SandboxLimits {
        interval: 0,
        instr_limited: false,
        instr_remaining: 0,
        instr_limit: 0,
        mem_limit: None,
        tripped: SANDBOX_TRIP_NONE,
        aborting: false,
    })
    &&& g.bytes_used == 0 && g.heap_threshold == 0 && !g.collect_due && g.barriers@.len() == 0
    &&& g.gc_debt == 0 && g.gc_estimate == 0 && g.lastatomic == 0 && g.currentwhite == 1
    &&& g.gckind == GcKind::Incremental && g.gcstp == 0 && g.gc_phase == GcPhase::Pause
    &&& g.genminormul == 20 && g.genmajormul == 25 && g.gcpause == 50 && g.gcstepmul == 25 && g.gcstepsize == 13
    &&& g.gc55_params@ == seq![20i64, 50, 68, 250, 200, 9600]
    &&& g.external_roots.live == 0 && g.weak_tables_registry@.len() == 0
    &&& g.finalizers.pending@.len() == 0 && g.finalizers.to_be_finalized@.len() == 0
    &&& g.gc_finalizer_error is None
    &&& g.threads@.len() == 0 && g.main_thread_id == 0 && g.current_thread_id == 0 && g.next_thread_id == 1
    &&& g.closing_thread_id is None && g.thread_globals@.len() == 0 && g.closure_envs@.len() == 0
    &&& g.cross_thread_upvals@.len() == 0 && g.c_functions@.len() == 0
    &&& g.suspended_parent_stacks@.len() == 0 && g.suspended_parent_open_upvals@.len() == 0
    &&& g.warn_mode == WarnMode::Off && !g.test_warn_enabled && !g.test_warn_on
    &&& g.test_warn_mode == TestWarnMode::Normal && !g.test_warn_last_to_cont && g.test_warn_buffer@.len() == 0
    &&& forall|i: int| 0 <= i < 9 ==> (#[trigger] g.mt@[i]) is None
    &&& g.heap.bytes(g.memerrmsg) == memory_message()
    &&& g.strcache@ == Seq::new(106, |i: int| g.memerrmsg)
    &&& !g.heap.bootstrap && !g.heap.closed && g.heap.all_exempt()
    &&& g.interned_lt.buckets@.len() == 64
    &&& g.heap.threads.items@[g.main_thread_value.0 as int].id == 0
    &&& g.l_registry matches LuaValue::Table(r) && g.globals matches LuaValue::Table(gt) && g.loaded
        matches LuaValue::Table(lt) && {
        &&& r != gt && r != lt && gt != lt
        &&& g.heap.tmeta(r) is None && g.heap.tmeta(gt) is None && g.heap.tmeta(lt) is None
        &&& forall|q: LuaValue| #[trigger]
            g.heap.tget(r, q) == (match norm_key(q) {
                LuaValue::Int(i) => if i == 1 {
                    LuaValue::Thread(g.main_thread_value)
                } else if i == 2 {
                    g.globals
                } else {
                    LuaValue::Nil
                },
                _ => LuaValue::Nil,
            })
        &&& forall|q: LuaValue| #[trigger] g.heap.tget(gt, q) == LuaValue::Nil
        &&& forall|q: LuaValue| #[trigger] g.heap.tget(lt, q) == LuaValue::Nil
    }
    &&& s.cached_thread_id == 0 && s.status == 0 && s.allowhook && s.nci == 0 && s.n_ccalls == 0x10000
    &&& s.top.0 == 1 && s.stack_last.0 == 40 && s.stack@ == Seq::new(45, |i: int| LuaValue::Nil)
    &&& s.ci.0 == 0 && s.call_info@ == seq![base_frame()]
    &&& !s.hooked && s.hookmask == 0 && s.basehookcount == 0 && s.hookcount == 0 && s.oldpc == 0
    &&& s.marked == 1 && s.errfunc == 0 && s.gc_check_needed && !s.legacy_open_upval_touched
    &&& s.openupval@.len() == 0 && s.tbclist@.len() == 0
}

/// A shared state before anything is in it but the placeholder string and the handle
/// of the main thread.
fn empty_global(seed: u32) -> (g: GlobalState)
    ensures
        g.wf(),
        g.lua_version == LuaVersion::V54,
        g.nilvalue == LuaValue::Int(0),
        g.seed == seed,
        g.sandbox == (SandboxLimits {
            interval: 0,
            instr_limited: false,
            instr_remaining: 0,
            instr_limit: 0,
            mem_limit: None,
            tripped: SANDBOX_TRIP_NONE,
            aborting: false,
        }),
        g.bytes_used == 0 && g.heap_threshold == 0 && !g.collect_due && g.barriers@.len() == 0,
        g.gc_debt == 0 && g.gc_estimate == 0 && g.lastatomic == 0 && g.currentwhite == 1,
        g.gckind == GcKind::Incremental && g.gcstp == GCSTPGC && g.gc_phase == GcPhase::Pause,
        g.genminormul == 20 && g.genmajormul == 25 && g.gcpause == 50 && g.gcstepmul == 25 && g.gcstepsize == 13,
        g.gc55_params@ == seq![20i64, 50, 68, 250, 200, 9600],
        g.external_roots.live == 0 && g.weak_tables_registry@.len() == 0,
        g.finalizers.pending@.len() == 0 && g.finalizers.to_be_finalized@.len() == 0,
        g.gc_finalizer_error is None,
        g.threads@.len() == 0 && g.main_thread_id == 0 && g.current_thread_id == 0 && g.next_thread_id == 1,
        g.closing_thread_id is None && g.thread_globals@.len() == 0 && g.closure_envs@.len() == 0,
        g.cross_thread_upvals@.len() == 0 && g.c_functions@.len() == 0,
        g.suspended_parent_stacks@.len() == 0 && g.suspended_parent_open_upvals@.len() == 0,
        g.warn_mode == WarnMode::Off && !g.test_warn_enabled && !g.test_warn_on,
        g.test_warn_mode == TestWarnMode::Normal && !g.test_warn_last_to_cont && g.test_warn_buffer@.len() == 0,
        forall|i: int| 0 <= i < 9 ==> (#[trigger] g.mt@[i]) is None,
        g.heap.bootstrap && !g.heap.closed && g.heap.all_exempt(),
        g.interned_lt.buckets@.len() == 64 && g.interned_lt.count == 0,
        g.heap.threads.items@[g.main_thread_value.0 as int].id == 0,
{
    let mut heap: Heap = Heap::new();
    heap.bootstrap = true;
    let none: Vec<u8> = Vec::new();
    let placeholder: StrId = heap.new_string(LuaString::from_slice(none.as_slice()));
    let main: ThreadRef = heap.new_thread(LuaThread { id: 0 });
    let mut mt: Vec<Option<TableId>> = Vec::new();
    let mut i: usize = 0;
    while i < LUA_NUMTYPES
        invariant
            i <= LUA_NUMTYPES,
            mt@.len() == i,
            forall|j: int| 0 <= j < i ==> (#[trigger] mt@[j]) is None,
        decreases LUA_NUMTYPES - i,
    {
        mt.push(None);
        i = i + 1;
    }
    let mut params: Vec<i64> = Vec::new();
    params.push(20);
    params.push(50);
    params.push(68);
    params.push(250);
    params.push(200);
    params.push(9600);
    assert(params@ =~= seq![20i64, 50, 68, 250, 200, 9600]);
    let interned: InternedStringMap = InternedStringMap::default();
    let g: GlobalState = GlobalState {
        lua_version: LuaVersion::default(),
        sandbox: SandboxLimits::default(),
        gc_debt: 0,
        gc_estimate: 0,
        lastatomic: 0,
        l_registry: LuaValue::Nil,
        external_roots: ExternalRootSet::default(),
        globals: LuaValue::Nil,
        loaded: LuaValue::Nil,
        nilvalue: LuaValue::Int(0),
        seed: seed,
        currentwhite: 1,
        gckind: GcKind::Incremental,
        genminormul: 20,
        genmajormul: 25,
        gcstp: GCSTPGC,
        gcpause: 50,
        gcstepmul: 25,
        gcstepsize: 13,
        gc55_params: params,
        weak_tables_registry: Vec::new(),
        finalizers: FinalizerRegistry { pending: Vec::new(), to_be_finalized: Vec::new() },
        gc_finalizer_error: None,
        threads: Vec::new(),
        main_thread_value: main,
        current_thread_id: 0,
        closing_thread_id: None,
        main_thread_id: 0,
        next_thread_id: 1,
        thread_globals: Vec::new(),
        closure_envs: Vec::new(),
        memerrmsg: placeholder,
        tmname: Vec::new(),
        mt: mt,
        strcache: Vec::new(),
        interned_lt: interned,
        warn_mode: WarnMode::Off,
        test_warn_enabled: false,
        test_warn_on: false,
        test_warn_mode: TestWarnMode::Normal,
        test_warn_last_to_cont: false,
        test_warn_buffer: Vec::new(),
        c_functions: Vec::new(),
        heap: heap,
        bytes_used: 0,
        heap_threshold: 0,
        collect_due: false,
        barriers: Vec::new(),
        gc_phase: GcPhase::Pause,
        cross_thread_upvals: Vec::new(),
        suspended_parent_stacks: Vec::new(),
        suspended_parent_open_upvals: Vec::new(),
    };
    g
}

/// A string cache with one string everywhere.
fn filled_cache(s: StrId) -> (cache: Vec<StrId>)
    ensures
        cache@ == Seq::new(106, |i: int| s),
{
    let mut cache: Vec<StrId> = Vec::new();
    let mut i: usize = 0;
    while i < STRCACHE_SIZE
        invariant
            i <= STRCACHE_SIZE,
            cache@ == Seq::new(i as nat, |j: int| s),
        decreases STRCACHE_SIZE - i,
    {
        cache.push(s);
        i = i + 1;
        assert(cache@ =~= Seq::new(i as nat, |j: int| s));
    }
    cache
}

impl LuaState {
    /// Makes the registry, the globals and the table of loaded modules.
    fn init_registry(&mut self, g: &mut GlobalState)
        requires
            old(g).wf(),
            old(self).wf(old(g).heap.sizes()),
        ensures
            final(g).wf(),
            final(self).wf(final(g).heap.sizes()),
            *final(self) == (LuaState { gc_check_needed: true, ..*old(self) }),
            *final(g) == (GlobalState {
                heap: final(g).heap,
                l_registry: final(g).l_registry,
                globals: final(g).globals,
                loaded: final(g).loaded,
                ..*old(g)
            }),
            final(g).heap == (Heap { tables: final(g).heap.tables, ..old(g).heap }),
            marks_grown(old(g).heap.tables, final(g).heap.tables, old(g).heap.bootstrap),
            ({
                let n = old(g).heap.tables.items@.len();
                let r = TableId(n as usize);
                let gt = TableId((n + 1) as usize);
                let lt = TableId((n + 2) as usize);
                &&& n + 2 <= usize::MAX
                &&& final(g).heap.tables.items@.len() == n + 3
                &&& final(g).l_registry == LuaValue::Table(r)
                &&& final(g).globals == LuaValue::Table(gt)
                &&& final(g).loaded == LuaValue::Table(lt)
                &&& final(g).heap.tmeta(r) is None && final(g).heap.tmeta(gt) is None && final(g).heap.tmeta(lt) is None
                &&& forall|q: LuaValue| #[trigger] final(g).heap.tget(gt, q) == LuaValue::Nil
                &&& forall|q: LuaValue| #[trigger] final(g).heap.tget(lt, q) == LuaValue::Nil
                &&& forall|q: LuaValue| #[trigger]
                    final(g).heap.tget(r, q) == (match norm_key(q) {
                        LuaValue::Int(i) => if 1 <= i <= 3 {
                            slot_for(
                                old(g).lua_version,
                                i as int,
                                LuaValue::Nil,
                                LuaValue::Thread(old(g).main_thread_value),
                                LuaValue::Table(gt),
                            )
                        } else {
                            LuaValue::Nil
                        },
                        _ => LuaValue::Nil,
                    })
            }),
    {
        let r: TableId = self.new_table(g);
        g.l_registry = LuaValue::Table(r);
        assert(g.wf());
        let ghost g1 = *g;
        let gt: TableId = self.new_table(g);
        g.globals = LuaValue::Table(gt);
        assert(g.wf());
        let ghost g2 = *g;
        let lt: TableId = self.new_table(g);
        g.loaded = LuaValue::Table(lt);
        assert(g.wf());
        let ghost g3 = *g;
        proof {
            assert(g3.heap.tables.items@[r.0 as int] == g1.heap.tables.items@[r.0 as int]);
            assert(g3.heap.tables.items@[gt.0 as int] == g2.heap.tables.items@[gt.0 as int]);
            assert forall|q: LuaValue| #[trigger] g3.heap.tget(r, q) == LuaValue::Nil by {
                assert(g1.heap.tget(r, q) == LuaValue::Nil);
            }
            assert forall|q: LuaValue| #[trigger] g3.heap.tget(gt, q) == LuaValue::Nil by {
                assert(g2.heap.tget(gt, q) == LuaValue::Nil);
            }
        }
        let _ = g.set_versioned_registry_slots();
        proof {
            let h0 = old(g).heap;
            lemma_marks_trans(h0.tables, g1.heap.tables, g2.heap.tables, h0.bootstrap);
            lemma_marks_trans(h0.tables, g2.heap.tables, g3.heap.tables, h0.bootstrap);
            lemma_marks_trans(h0.tables, g3.heap.tables, g.heap.tables, h0.bootstrap);
            assert(g.heap.tables.items@[gt.0 as int] == g3.heap.tables.items@[gt.0 as int]);
            assert(g.heap.tables.items@[lt.0 as int] == g3.heap.tables.items@[lt.0 as int]);
            assert forall|q: LuaValue| #[trigger] g.heap.tget(gt, q) == LuaValue::Nil by {
                assert(g3.heap.tget(gt, q) == LuaValue::Nil);
            }
            assert forall|q: LuaValue| #[trigger] g.heap.tget(lt, q) == LuaValue::Nil by {
                assert(g3.heap.tget(lt, q) == LuaValue::Nil);
            }
        }
    }

    /// Makes the message of the memory error and fills the string cache with it.
    #[verifier::rlimit(80)]
    #[verifier::spinoff_prover]
    fn init_memerrmsg(&mut self, g: &mut GlobalState)
        requires
            old(g).wf(),
            old(self).wf(old(g).heap.sizes()),
        ensures
            final(g).wf(),
            final(self).wf(final(g).heap.sizes()),
            *final(self) == (LuaState { gc_check_needed: final(self).gc_check_needed, ..*old(self) }),
            *final(g) == (GlobalState {
                heap: final(g).heap,
                interned_lt: final(g).interned_lt,
                memerrmsg: final(g).memerrmsg,
                strcache: final(g).strcache,
                ..*old(g)
            }),
            heap_extends(old(g).heap, final(g).heap),
            final(g).heap == (Heap { strings: final(g).heap.strings, ..old(g).heap }),
            marks_grown(old(g).heap.strings, final(g).heap.strings, old(g).heap.bootstrap),
            intern_grown(*old(g), *final(g)),
            old(g).interned_lt.count == 0 ==> {
                &&& final(g).interned_lt.buckets@.len() == old(g).interned_lt.buckets@.len()
                &&& final(g).interned_lt.count <= 1
            },
            old(self).gc_check_needed ==> final(self).gc_check_needed,
            final(g).heap.bytes(final(g).memerrmsg) == memory_message(),
            final(g).strcache@ == Seq::new(106, |i: int| final(g).memerrmsg),
    {
        let msg: &str = "not enough memory";
        let (s, made) = g.intern_str(msg.as_bytes());
        if made {
            self.gc_check_needed = true;
        }
        proof {
            lemma_heap_extends(old(g).heap, g.heap);
            lemma_state_grow(*self, old(g).heap.sizes(), g.heap.sizes());
        }
        g.memerrmsg = s;
        g.strcache = filled_cache(s);
        assert(strs_ok(g.heap.sizes(), g.strcache@));
    }
}

/// Makes a runtime and its main thread. Hashes are seeded with `seed`.
pub fn new_state_seeded(seed: u32) -> (r: (LuaState, GlobalState))
    ensures
        is_new_state(r.0, r.1, seed),
{
    let mut g: GlobalState = empty_global(seed);
    let mut s: LuaState = LuaState::blank(0);
    s.marked = 1;
    s.preinit_thread(&g.sandbox);
    s.inc_nny();
    s.stack_init();
    assert(s.wf(g.heap.sizes()));
    let ghost g0 = g;
    s.init_registry(&mut g);
    let ghost g1 = g;
    s.init_memerrmsg(&mut g);
    let ghost g2 = g;
    crate::tagmethods::init(&mut g);
    proof {
        lemma_heap_extends(g1.heap, g2.heap);
        lemma_heap_extends(g2.heap, g.heap);
        lemma_state_grow(s, g2.heap.sizes(), g.heap.sizes());
    }
    let ghost g3 = g;
    g.gcstp = 0;
    g.nilvalue = LuaValue::Nil;
    g.heap.bootstrap = false;
    proof {
        lemma_refs_grow(g3, g3.heap.sizes(), g.heap.sizes());
        let n = g0.heap.tables.items@.len();
        lemma_plain_kept(g1, g, TableId(n as usize));
        lemma_plain_kept(g1, g, TableId((n + 1) as usize));
        lemma_plain_kept(g1, g, TableId((n + 2) as usize));
    }
    (s, g)
}

/// Makes a runtime and its main thread. `secs` is the time, from which hashes are
/// seeded.
pub fn new_state(secs: u32) -> (r: Option<(LuaState, GlobalState)>)
    ensures
        r matches Some(p) && is_new_state(p.0, p.1, spec_hash(le_bytes(secs), secs)),
{
    Some(new_state_seeded(make_seed(secs)))
}

/// No object of a store is counted where all are exempt from collection.
proof fn lemma_none_counted<T>(a: Arena<T>, n: int)
    requires
        a.all_exempt(),
        n <= a.items@.len(),
    ensures
        a.spec_count(n) == 0,
    decreases n,
{
    if n > 0 {
        lemma_none_counted(a, n - 1);
        assert(a.live@[n - 1] && a.fixed@[n - 1]);
    }
}

/// A new runtime has no object that can be collected: what it is set up with is exempt.
pub proof fn law_new_state_exempt(s: LuaState, g: GlobalState, seed: u32)
    requires
        is_new_state(s, g, seed),
    ensures
        object_count(g.heap) == 0,
{
    let h = g.heap;
    lemma_none_counted(h.strings, h.strings.items@.len() as int);
    lemma_none_counted(h.tables, h.tables.items@.len() as int);
    lemma_none_counted(h.userdata, h.userdata.items@.len() as int);
    lemma_none_counted(h.lclosures, h.lclosures.items@.len() as int);
    lemma_none_counted(h.cclosures, h.cclosures.items@.len() as int);
    lemma_none_counted(h.protos, h.protos.items@.len() as int);
    lemma_none_counted(h.upvals, h.upvals.items@.len() as int);
    lemma_none_counted(h.threads, h.threads.items@.len() as int);
}

/// A table without string keys reads the same whatever the strings are.
pub proof fn lemma_no_string_keys(a: Seq<LuaString>, b: Seq<LuaString>, es: Seq<TableEntry>)
    requires
        entries_wf(a, es),
        forall|s: StrId| lookup(a, es, LuaValue::Str(s)) == LuaValue::Nil,
    ensures
        forall|q: LuaValue| #[trigger] lookup(b, es, q) == lookup(a, es, q),
{
    assert forall|i: int| 0 <= i < es.len() implies !((#[trigger] es[i]).key is Str) by {
        if es[i].key is Str {
            let k = es[i].key;
            lemma_find_from(a, es, k, 0);
            let j = find_from(a, es, k, 0);
            if j >= es.len() {
                assert(same_key(a, es[i].key, k));
            }
            assert(lookup(a, es, LuaValue::Str(k->Str_0)) == es[j].value);
        }
    }
    assert forall|q: LuaValue| #[trigger] lookup(b, es, q) == lookup(a, es, q) by {
        lemma_find_plain(a, b, es, norm_key(q), 0);
    }
}

proof fn lemma_find_plain(a: Seq<LuaString>, b: Seq<LuaString>, es: Seq<TableEntry>, k: LuaValue, i: int)
    requires
        0 <= i,
        forall|j: int| 0 <= j < es.len() ==> !((#[trigger] es[j]).key is Str),
    ensures
        find_from(a, es, k, i) == find_from(b, es, k, i),
    decreases es.len() - i,
{
    if i < es.len() {
        lemma_find_plain(a, b, es, k, i + 1);
    }
}

/// A table without string keys is not changed by new strings.
proof fn lemma_plain_kept(a: GlobalState, b: GlobalState, t: TableId)
    requires
        a.wf(),
        b.heap.tables == a.heap.tables,
        t.0 < a.heap.tables.items@.len(),
        forall|s: StrId| #[trigger] a.heap.tget(t, LuaValue::Str(s)) == LuaValue::Nil,
    ensures
        forall|q: LuaValue| #[trigger] b.heap.tget(t, q) == a.heap.tget(t, q),
        b.heap.tmeta(t) == a.heap.tmeta(t),
{
    let es = a.heap.tables.items@[t.0 as int].entries@;
    assert(a.heap.tables.items@[t.0 as int].wf(a.heap.strs()));
    assert forall|s: StrId| lookup(a.heap.strs(), es, LuaValue::Str(s)) == LuaValue::Nil by {
        assert(a.heap.tget(t, LuaValue::Str(s)) == LuaValue::Nil);
    }
    lemma_no_string_keys(a.heap.strs(), b.heap.strs(), es);
    assert forall|q: LuaValue| #[trigger] b.heap.tget(t, q) == a.heap.tget(t, q) by {
        assert(lookup(b.heap.strs(), es, q) == lookup(a.heap.strs(), es, q));
    }
}

} // verus!
