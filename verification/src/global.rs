//! The state that all threads of a runtime share.

use vstd::prelude::*;
use crate::gc_barrier::Barrier;
use crate::heap::Heap;
use crate::heap::Sizes;
use crate::heap::heap_extends;
use crate::heap::lemma_heap_extends;
use crate::heap::marks_grown;
use crate::intern::InternedStringMap;
use crate::intern::lemma_has_bound;
use crate::intern::lemma_intern_grow;
use crate::intern::lemma_once_insert;
use crate::intern::lemma_room;
use crate::roots::ExternalRootSet;
use crate::sandbox::SandboxLimits;
use crate::state::LuaState;
use crate::string::LuaString;
use crate::string::MAX_SHORT_LEN;
use crate::string::hash_bytes;
use crate::value::LuaValue;
use crate::value::LuaVersion;
use crate::value::StackIdx;
use crate::value::StrId;
use crate::value::TableId;
use crate::value::ThreadRef;
use crate::value::UpValId;
use crate::value::UserDataId;

verus! {

/// The number of types with a metatable of their own.
pub const LUA_NUMTYPES: usize = 9;

/// The collector is stopped by the program.
pub const GCSTPUSR: u8 = 1;

/// The collector is stopped by itself.
pub const GCSTPGC: u8 = 2;

/// The registry slot of the main thread.
pub const LUA_RIDX_MAINTHREAD: i64 = 1;

/// The registry slot of the globals.
pub const LUA_RIDX_GLOBALS: i64 = 2;

/// How the collector works.
#[derive(Debug, Clone, Copy, PartialEq, Eq, Structural)]
pub enum GcKind {
    Incremental,
    Generational,
}

/// The state of the default warning handler: disabled, ready for a message, or in
/// the middle of one.
#[derive(Debug, Clone, Copy, PartialEq, Eq, Structural)]
pub enum WarnMode {
    Off,
    On,
    Cont,
}

/// Where the test warning handler sends its messages.
#[derive(Debug, Clone, Copy, PartialEq, Eq, Structural)]
pub enum TestWarnMode {
    Normal,
    Allow,
    Store,
}

/// The phase that the collector is in.
#[derive(Debug, Clone, Copy, PartialEq, Eq, Structural)]
pub enum GcPhase {
    Propagate,
    EnterAtomic,
    Atomic,
    SweepAllGc,
    SweepFinObj,
    SweepToBeFnz,
    SweepEnd,
    CallFin,
    Pause,
}

/// A native function, by the address or handle that the host knows it by.
#[derive(Debug, Clone, Copy, PartialEq, Eq, Structural)]
pub enum LuaCallable {
    Bare(usize),
    Rust(usize),
}

impl LuaCallable {
    /// A plain function.
    pub fn bare(f: usize) -> (r: Self)
        ensures
            r == LuaCallable::Bare(f),
    {
        LuaCallable::Bare(f)
    }

    /// A function with state of its own.
    pub fn rust(f: usize) -> (r: Self)
        ensures
            r == LuaCallable::Rust(f),
    {
        LuaCallable::Rust(f)
    }

    /// The plain function, if it is one.
    pub fn as_bare(&self) -> (r: Option<usize>)
        ensures
            r == (match *self {
                LuaCallable::Bare(f) => Some(f),
                LuaCallable::Rust(_) => None,
            }),
    {
        match self {
            LuaCallable::Bare(f) => Some(*f),
            LuaCallable::Rust(_) => None,
        }
    }
}

/// An object with a finalizer.
#[derive(Debug, Clone, Copy, PartialEq, Eq, Structural)]
pub enum FinalizerObject {
    Table(TableId),
    UserData(UserDataId),
}

impl FinalizerObject {
    /// The object as a value.
    pub open spec fn spec_value(self) -> LuaValue {
        match self {
            FinalizerObject::Table(t) => LuaValue::Table(t),
            FinalizerObject::UserData(u) => LuaValue::UserData(u),
        }
    }

    /// The object as a value.
    pub fn as_lua_value(&self) -> (r: LuaValue)
        ensures
            r == self.spec_value(),
    {
        match self {
            FinalizerObject::Table(t) => LuaValue::Table(*t),
            FinalizerObject::UserData(u) => LuaValue::UserData(*u),
        }
    }

    /// The metatable of the object.
    pub fn metatable(&self, h: &Heap) -> (r: Option<TableId>)
        requires
            h.ok(self.spec_value()),
        ensures
            r == (match *self {
                FinalizerObject::Table(t) => h.tables.items@[t.0 as int].metatable,
                FinalizerObject::UserData(u) => h.userdata.items@[u.0 as int].metatable,
            }),
    {
        match self {
            FinalizerObject::Table(t) => h.tables.items[t.0].metatable,
            FinalizerObject::UserData(u) => h.userdata.items[u.0].metatable,
        }
    }
}

/// The objects with finalizers that are in use, and those whose finalizer is due.
pub struct FinalizerRegistry {
    pub pending: Vec<FinalizerObject>,
    pub to_be_finalized: Vec<FinalizerObject>,
}

/// Which references of a weak table are weak.
#[derive(Debug, Clone, Copy, PartialEq, Eq, Structural)]
pub enum WeakListKind {
    WeakValues,
    Ephemeron,
    AllWeak,
}

/// A weak table that the collector knows of.
#[derive(Debug, Clone, Copy, PartialEq, Eq, Structural)]
pub struct WeakTableEntry {
    pub table: TableId,
    pub kind: WeakListKind,
}

impl WeakTableEntry {
    /// The entry of a table with this weak mode: bit 0 for weak keys, bit 1 for weak
    /// values.
    pub fn new(table: TableId, weak_mode: u8) -> (r: Self)
        ensures
            r.table == table,
            r.kind == (if weak_mode % 2 == 1 {
                if (weak_mode / 2) % 2 == 1 {
                    WeakListKind::AllWeak
                } else {
                    WeakListKind::Ephemeron
                }
            } else {
                WeakListKind::WeakValues
            }),
    {
        let weak_keys: bool = weak_mode % 2 == 1;
        let weak_values: bool = (weak_mode / 2) % 2 == 1;
        let kind: WeakListKind = match (weak_keys, weak_values) {
            (true, true) => WeakListKind::AllWeak,
            (true, false) => WeakListKind::Ephemeron,
            (false, _) => WeakListKind::WeakValues,
        };
        WeakTableEntry { table: table, kind: kind }
    }
}

/// A coroutine. Its state is away while the coroutine runs or waits for one that it
/// resumed.
pub struct ThreadRegistryEntry {
    pub id: u64,
    pub state: Option<LuaState>,
    pub value: ThreadRef,
}

/// The shared state. `bytes_used`, `collect_due` and `gc_phase` are what the
/// collector last reported, `heap_threshold` is where it is to start next.
pub struct GlobalState {
    pub lua_version: LuaVersion,
    pub sandbox: SandboxLimits,
    pub gc_debt: isize,
    pub gc_estimate: usize,
    pub lastatomic: usize,
    pub l_registry: LuaValue,
    pub external_roots: ExternalRootSet,
    pub globals: LuaValue,
    pub loaded: LuaValue,
    pub nilvalue: LuaValue,
    pub seed: u32,
    pub currentwhite: u8,
    pub gckind: GcKind,
    pub genminormul: u8,
    pub genmajormul: u8,
    pub gcstp: u8,
    pub gcpause: u8,
    pub gcstepmul: u8,
    pub gcstepsize: u8,
    pub gc55_params: Vec<i64>,
    pub weak_tables_registry: Vec<WeakTableEntry>,
    pub finalizers: FinalizerRegistry,
    pub gc_finalizer_error: Option<LuaValue>,
    pub threads: Vec<ThreadRegistryEntry>,
    pub main_thread_value: ThreadRef,
    pub current_thread_id: u64,
    pub closing_thread_id: Option<u64>,
    pub main_thread_id: u64,
    pub next_thread_id: u64,
    pub thread_globals: Vec<(u64, LuaValue)>,
    pub closure_envs: Vec<(usize, LuaValue)>,
    pub memerrmsg: StrId,
    pub tmname: Vec<StrId>,
    pub mt: Vec<Option<TableId>>,
    pub strcache: Vec<StrId>,
    pub interned_lt: InternedStringMap,
    pub warn_mode: WarnMode,
    pub test_warn_enabled: bool,
    pub test_warn_on: bool,
    pub test_warn_mode: TestWarnMode,
    pub test_warn_last_to_cont: bool,
    pub test_warn_buffer: Vec<u8>,
    pub c_functions: Vec<LuaCallable>,
    pub heap: Heap,
    pub bytes_used: usize,
    pub heap_threshold: usize,
    pub collect_due: bool,
    /// What the collector is still to be told of writes, in order.
    pub barriers: Vec<Barrier>,
    pub gc_phase: GcPhase,
    pub cross_thread_upvals: Vec<((u64, StackIdx), LuaValue)>,
    pub suspended_parent_stacks: Vec<Vec<LuaValue>>,
    pub suspended_parent_open_upvals: Vec<Vec<UpValId>>,
}

/// Whether all these strings exist.
pub open spec fn strs_ok(z: Sizes, s: Seq<StrId>) -> bool {
    forall|i: int| 0 <= i < s.len() ==> (#[trigger] s[i]).0 < z.strings
}

/// Whether all these captured variables exist.
pub open spec fn upvals_ok(z: Sizes, s: Seq<UpValId>) -> bool {
    forall|i: int| 0 <= i < s.len() ==> (#[trigger] s[i]).0 < z.upvals
}

/// Whether the values of a map exist.
pub open spec fn pairs_ok<K>(z: Sizes, s: Seq<(K, LuaValue)>) -> bool {
    forall|i: int| 0 <= i < s.len() ==> z.ok((#[trigger] s[i]).1)
}

/// Whether no key of a map occurs twice.
pub open spec fn keys_once<K, V>(s: Seq<(K, V)>) -> bool {
    forall|i: int, j: int| 0 <= i < j < s.len() ==> (#[trigger] s[i]).0 != (#[trigger] s[j]).0
}

/// What a map holds under a key.
pub open spec fn map_get<K, V>(s: Seq<(K, V)>, k: K) -> Option<V> {
    if exists|i: int| 0 <= i < s.len() && (#[trigger] s[i]).0 == k {
        Some(s[choose|i: int| 0 <= i < s.len() && (#[trigger] s[i]).0 == k].1)
    } else {
        None
    }
}

/// Whether the coroutines are in order: each has a handle, a state in order unless
/// it is away, and an identifier of its own.
pub open spec fn threads_ok(z: Sizes, ts: Seq<ThreadRegistryEntry>) -> bool {
    &&& forall|i: int|
        #![trigger ts[i]]
        0 <= i < ts.len() ==> ts[i].value.0 < z.threads && (ts[i].state matches Some(s) ==> s.wf(z))
    &&& forall|i: int, j: int| 0 <= i < j < ts.len() ==> (#[trigger] ts[i]).id != (#[trigger] ts[j]).id
}

/// Whether all these objects exist.
pub open spec fn fins_ok(z: Sizes, s: Seq<FinalizerObject>) -> bool {
    forall|i: int| 0 <= i < s.len() ==> z.ok((#[trigger] s[i]).spec_value())
}

impl GlobalState {
    /// Whether everything that the shared state refers to exists.
    pub open spec fn refs_ok(self, z: Sizes) -> bool {
        &&& z.ok(self.l_registry) && z.ok(self.globals) && z.ok(self.loaded)
        &&& forall|i: int|
            #![trigger self.external_roots.slots@[i]]
            0 <= i < self.external_roots.slots@.len() ==> (self.external_roots.slots@[i].value matches Some(v)
                ==> z.ok(v))
        &&& fins_ok(z, self.finalizers.pending@) && fins_ok(z, self.finalizers.to_be_finalized@)
        &&& forall|i: int|
            0 <= i < self.weak_tables_registry@.len() ==> (#[trigger] self.weak_tables_registry@[i]).table.0
                < z.tables
        &&& threads_ok(z, self.threads@)
        &&& self.main_thread_value.0 < z.threads
        &&& pairs_ok(z, self.thread_globals@) && pairs_ok(z, self.closure_envs@)
        &&& pairs_ok(z, self.cross_thread_upvals@)
        &&& self.memerrmsg.0 < z.strings && strs_ok(z, self.tmname@) && strs_ok(z, self.strcache@)
        &&& forall|i: int| 0 <= i < self.mt@.len() ==> z.ok_table(#[trigger] self.mt@[i])
        &&& forall|i: int|
            0 <= i < self.suspended_parent_stacks@.len() ==> z.ok_all(
                (#[trigger] self.suspended_parent_stacks@[i])@,
            )
        &&& forall|i: int|
            0 <= i < self.suspended_parent_open_upvals@.len() ==> upvals_ok(
                z,
                (#[trigger] self.suspended_parent_open_upvals@[i])@,
            )
    }

    /// The shared state is in order.
    pub open spec fn wf(self) -> bool {
        &&& self.heap.wf()
        &&& self.interned_lt.wf(self.heap.strs()) && self.interned_lt.once(self.heap.strs())
        &&& self.external_roots.wf()
        &&& self.mt@.len() == LUA_NUMTYPES
        &&& self.gc55_params@.len() == 6
        &&& keys_once(self.thread_globals@) && keys_once(self.closure_envs@)
        &&& keys_once(self.cross_thread_upvals@)
        &&& forall|i: int| 0 <= i < self.threads@.len() ==> (#[trigger] self.threads@[i]).id < self.next_thread_id
        &&& self.refs_ok(self.heap.sizes())
    }

    /// Where a coroutine stands in the registry.
    pub open spec fn thread_at(self, id: u64) -> Option<int> {
        if exists|i: int| 0 <= i < self.threads@.len() && (#[trigger] self.threads@[i]).id == id {
            Some(choose|i: int| 0 <= i < self.threads@.len() && (#[trigger] self.threads@[i]).id == id)
        } else {
            None
        }
    }
}

/// A thread in order stays so when the store grows.
pub proof fn lemma_state_grow(s: LuaState, z: Sizes, w: Sizes)
    requires
        s.wf(z),
        z.le(w),
    ensures
        s.wf(w),
{
    assert forall|i: int| 0 <= i < s.stack@.len() implies w.ok(#[trigger] s.stack@[i]) by {
        assert(z.ok(s.stack@[i]));
    }
}

/// What the shared state refers to goes on existing when the store grows.
pub proof fn lemma_refs_grow(g: GlobalState, z: Sizes, w: Sizes)
    requires
        g.refs_ok(z),
        z.le(w),
    ensures
        g.refs_ok(w),
{
    assert forall|i: int| 0 <= i < g.threads@.len() implies (#[trigger] g.threads@[i]).value.0 < w.threads && (
    g.threads@[i].state matches Some(s) ==> s.wf(w)) by {
        if let Some(s) = g.threads@[i].state {
            lemma_state_grow(s, z, w);
        }
    }
    assert forall|i: int| 0 <= i < g.suspended_parent_stacks@.len() implies w.ok_all(
        (#[trigger] g.suspended_parent_stacks@[i])@,
    ) by {
        assert(z.ok_all(g.suspended_parent_stacks@[i]@));
        assert forall|j: int| 0 <= j < g.suspended_parent_stacks@[i]@.len() implies w.ok(
            #[trigger] g.suspended_parent_stacks@[i]@[j],
        ) by {
            assert(z.ok(g.suspended_parent_stacks@[i]@[j]));
        }
    }
    assert forall|i: int| 0 <= i < g.suspended_parent_open_upvals@.len() implies upvals_ok(
        w,
        (#[trigger] g.suspended_parent_open_upvals@[i])@,
    ) by {
        assert(upvals_ok(z, g.suspended_parent_open_upvals@[i]@));
    }
    assert forall|i: int| 0 <= i < g.thread_globals@.len() implies w.ok((#[trigger] g.thread_globals@[i]).1) by {
        assert(z.ok(g.thread_globals@[i].1));
    }
    assert forall|i: int| 0 <= i < g.closure_envs@.len() implies w.ok((#[trigger] g.closure_envs@[i]).1) by {
        assert(z.ok(g.closure_envs@[i].1));
    }
    assert forall|i: int| 0 <= i < g.cross_thread_upvals@.len() implies w.ok(
        (#[trigger] g.cross_thread_upvals@[i]).1,
    ) by {
        assert(z.ok(g.cross_thread_upvals@[i].1));
    }
}

/// Whether one shared state comes from another by new objects alone.
pub open spec fn grown(a: GlobalState, b: GlobalState) -> bool {
    &&& b == (GlobalState { heap: b.heap, ..a })
    &&& heap_extends(a.heap, b.heap)
    &&& b.heap.bootstrap == a.heap.bootstrap
    &&& b.heap.closed == a.heap.closed
}

/// New objects leave the shared state in order.
pub proof fn lemma_global_grow(a: GlobalState, b: GlobalState)
    requires
        a.wf(),
        grown(a, b),
        b.heap.wf(),
    ensures
        b.wf(),
        a.heap.sizes().le(b.heap.sizes()),
{
    lemma_heap_extends(a.heap, b.heap);
    lemma_refs_grow(a, a.heap.sizes(), b.heap.sizes());
    lemma_intern_grow(a.interned_lt, a.heap.strs(), b.heap.strs());
}

impl GlobalState {
    /// Whether a sandbox is active.
    pub fn sandbox_active(&self) -> (r: bool)
        ensures
            r == self.sandbox.spec_active(),
    {
        self.sandbox.is_active()
    }

    /// The bytes in use, at least one.
    pub open spec fn spec_total_bytes(self) -> usize {
        if self.bytes_used > 1 {
            self.bytes_used
        } else {
            1
        }
    }

    /// The bytes in use, at least one.
    pub fn total_bytes(&self) -> (r: usize)
        ensures
            r == self.spec_total_bytes(),
    {
        if self.bytes_used > 1 {
            self.bytes_used
        } else {
            1
        }
    }

    /// Where a coroutine stands in the registry.
    pub fn find_thread(&self, id: u64) -> (r: Option<usize>)
        requires
            self.wf(),
        ensures
            r matches Some(i) ==> i < self.threads@.len() && self.threads@[i as int].id == id && self.thread_at(id)
                == Some(i as int),
            r is None ==> self.thread_at(id) is None,
    {
        let mut i: usize = 0;
        while i < self.threads.len()
            invariant
                i <= self.threads@.len(),
                forall|j: int| 0 <= j < i ==> (#[trigger] self.threads@[j]).id != id,
                self.wf(),
            decreases self.threads@.len() - i,
        {
            if self.threads[i].id == id {
                assert(self.threads@[i as int].id == id);
                assert(self.thread_at(id) == Some(i as int)) by {
                    let c = choose|c: int| 0 <= c < self.threads@.len() && (#[trigger] self.threads@[c]).id == id;
                    if c != i {
                        assert(threads_ok(self.heap.sizes(), self.threads@));
                        if c < i {
                            assert(self.threads@[c].id != self.threads@[i as int].id);
                        } else {
                            assert(self.threads@[i as int].id != self.threads@[c].id);
                        }
                    }
                }
                return Some(i);
            }
            i = i + 1;
        }
        None
    }

    /// The coroutine with an identifier. The main thread is none.
    pub fn get_thread(&self, id: u64) -> (r: Option<&ThreadRegistryEntry>)
        requires
            self.wf(),
        ensures
            r == (match self.thread_at(id) {
                Some(i) => Some(&self.threads@[i]),
                None => None,
            }),
    {
        match self.find_thread(id) {
            Some(i) => Some(&self.threads[i]),
            None => None,
        }
    }

    /// The handle of a thread.
    pub fn thread_value_for(&self, id: u64) -> (r: Option<ThreadRef>)
        requires
            self.wf(),
        ensures
            r == (if id == self.main_thread_id {
                Some(self.main_thread_value)
            } else {
                match self.thread_at(id) {
                    Some(i) => Some(self.threads@[i].value),
                    None => None,
                }
            }),
    {
        if id == self.main_thread_id {
            Some(self.main_thread_value)
        } else {
            match self.find_thread(id) {
                Some(i) => Some(self.threads[i].value),
                None => None,
            }
        }
    }

    /// Whether the runtime is fully set up.
    pub fn is_complete(&self) -> (r: bool)
        ensures
            r == (self.nilvalue == LuaValue::Nil),
    {
        self.nilvalue == LuaValue::Nil
    }

    /// The current white.
    pub fn current_white(&self) -> (r: u8)
        ensures
            r == self.currentwhite,
    {
        self.currentwhite
    }

    /// The other white.
    pub fn other_white(&self) -> (r: u8)
        ensures
            r == self.currentwhite ^ 3,
    {
        self.currentwhite ^ 3
    }

    /// Whether the collector is in generational mode, or about to return to it.
    pub open spec fn spec_is_gen_mode(self) -> bool {
        self.gckind == GcKind::Generational || self.lastatomic != 0
    }

    /// Whether the collector is in generational mode, or about to return to it.
    pub fn is_gen_mode(&self) -> (r: bool)
        ensures
            r == self.spec_is_gen_mode(),
    {
        self.gckind == GcKind::Generational || self.lastatomic != 0
    }

    /// Whether the collector may run.
    pub fn gc_running(&self) -> (r: bool)
        ensures
            r == (self.gcstp == 0),
    {
        self.gcstp == 0
    }

    /// Whether the collector may run.
    pub fn is_gc_running(&self) -> (r: bool)
        ensures
            r == (self.gcstp == 0),
    {
        self.gcstp == 0
    }

    /// Whether no black object may point to a white one: while marking.
    pub fn keep_invariant(&self) -> (r: bool)
        ensures
            r == (self.gc_phase is Propagate || self.gc_phase is EnterAtomic || self.gc_phase is Atomic),
    {
        match self.gc_phase {
            GcPhase::Propagate => true,
            GcPhase::EnterAtomic => true,
            GcPhase::Atomic => true,
            _ => false,
        }
    }

    /// Whether the collector is sweeping.
    pub fn is_sweep_phase(&self) -> (r: bool)
        ensures
            r == (self.gc_phase is SweepAllGc || self.gc_phase is SweepFinObj || self.gc_phase is SweepToBeFnz
                || self.gc_phase is SweepEnd),
    {
        match self.gc_phase {
            GcPhase::SweepAllGc => true,
            GcPhase::SweepFinObj => true,
            GcPhase::SweepToBeFnz => true,
            GcPhase::SweepEnd => true,
            _ => false,
        }
    }

    /// Whether the collector is between cycles.
    pub fn gc_at_pause(&self) -> (r: bool)
        ensures
            r == (self.gc_phase is Pause),
    {
        match self.gc_phase {
            GcPhase::Pause => true,
            _ => false,
        }
    }

    /// The debt.
    pub fn gc_debt(&self) -> (r: isize)
        ensures
            r == self.gc_debt,
    {
        self.gc_debt
    }

    /// Sets the debt.
    pub fn set_gc_debt(&mut self, d: isize)
        ensures
            *final(self) == (GlobalState { gc_debt: d, ..*old(self) }),
    {
        self.gc_debt = d;
    }

    /// A parameter as it is packed: a fourth of it, in eight bits.
    pub open spec fn packed(p: int) -> u8 {
        ((if p >= 0 {
            p / 4
        } else {
            -((-p) / 4)
        }) % 256) as u8
    }

    /// A parameter as it is packed.
    fn pack(p: i32) -> (r: u8)
        ensures
            r == Self::packed(p as int),
    {
        let q: i32 = if p >= 0 {
            p / 4
        } else if p > i32::MIN {
            -((-p) / 4)
        } else {
            -0x2000_0000
        };
        let m: i32 = if q >= 0 {
            q % 256
        } else {
            let n: i32 = (-q) % 256;
            if n == 0 {
                0
            } else {
                256 - n
            }
        };
        m as u8
    }

    /// The pause.
    pub fn gc_pause_param(&self) -> (r: i32)
        ensures
            r == self.gcpause * 4,
    {
        self.gcpause as i32 * 4
    }

    /// Sets the pause.
    pub fn set_gc_pause_param(&mut self, p: i32)
        ensures
            *final(self) == (GlobalState { gcpause: Self::packed(p as int), ..*old(self) }),
    {
        self.gcpause = Self::pack(p);
    }

    /// The step multiplier.
    pub fn gc_stepmul_param(&self) -> (r: i32)
        ensures
            r == self.gcstepmul * 4,
    {
        self.gcstepmul as i32 * 4
    }

    /// Sets the step multiplier.
    pub fn set_gc_stepmul_param(&mut self, p: i32)
        ensures
            *final(self) == (GlobalState { gcstepmul: Self::packed(p as int), ..*old(self) }),
    {
        self.gcstepmul = Self::pack(p);
    }

    /// The multiplier for major collections.
    pub fn gc_genmajormul_param(&self) -> (r: i32)
        ensures
            r == self.genmajormul * 4,
    {
        self.genmajormul as i32 * 4
    }

    /// Sets the multiplier for major collections.
    pub fn set_gc_genmajormul(&mut self, p: i32)
        ensures
            *final(self) == (GlobalState { genmajormul: Self::packed(p as int), ..*old(self) }),
    {
        self.genmajormul = Self::pack(p);
    }

    /// Sets one of the 5.5 parameters, unless the new value is negative, and returns
    /// the old one.
    pub fn gc55_param(&mut self, idx: usize, value: i64) -> (r: i64)
        requires
            idx < old(self).gc55_params@.len(),
        ensures
            r == old(self).gc55_params@[idx as int],
            *final(self) == (GlobalState { gc55_params: final(self).gc55_params, ..*old(self) }),
            final(self).gc55_params@ == (if value >= 0 {
                old(self).gc55_params@.update(idx as int, value)
            } else {
                old(self).gc55_params@
            }),
    {
        let before: i64 = self.gc55_params[idx];
        if value >= 0 {
            self.gc55_params.set(idx, value);
        }
        before
    }

    /// Why the collector is stopped.
    pub fn gc_stop_flags(&self) -> (r: u8)
        ensures
            r == self.gcstp,
    {
        self.gcstp
    }

    /// Sets why the collector is stopped.
    pub fn set_gc_stop_flags(&mut self, f: u8)
        ensures
            *final(self) == (GlobalState { gcstp: f, ..*old(self) }),
    {
        self.gcstp = f;
    }

    /// Stops the collector from the inside and returns the flags before.
    pub fn stop_gc_internal(&mut self) -> (r: u8)
        ensures
            r == old(self).gcstp,
            *final(self) == (GlobalState { gcstp: old(self).gcstp | GCSTPGC, ..*old(self) }),
    {
        let before: u8 = self.gcstp;
        self.gcstp = self.gcstp | GCSTPGC;
        before
    }

    /// Stops the collector for the program.
    pub fn set_gc_stop_user(&mut self)
        ensures
            *final(self) == (GlobalState { gcstp: GCSTPUSR, ..*old(self) }),
    {
        self.gcstp = GCSTPUSR;
    }

    /// Lets the collector run.
    pub fn clear_gc_stop(&mut self)
        ensures
            *final(self) == (GlobalState { gcstp: 0, ..*old(self) }),
    {
        self.gcstp = 0;
    }

    /// Whether the collector is stopped from the inside.
    pub fn is_gc_stopped_internally(&self) -> (r: bool)
        ensures
            r == (self.gcstp & GCSTPGC != 0),
    {
        (self.gcstp & GCSTPGC) != 0
    }

    /// Whether a string with these bytes is interned.
    pub open spec fn interned(self, bytes: Seq<u8>) -> bool {
        exists|s: StrId| #[trigger] self.interned_lt.has(s) && self.heap.bytes(s) == bytes
    }

    /// A string object with these bytes. Short strings are interned: the same bytes
    /// give the same object. A long string is a new object every time. The result
    /// tells whether an object was made.
    pub fn intern_str(&mut self, bytes: &[u8]) -> (r: (StrId, bool))
        requires
            old(self).wf(),
        ensures
            final(self).wf(),
            *final(self) == (GlobalState {
                heap: final(self).heap,
                interned_lt: final(self).interned_lt,
                ..*old(self)
            }),
            heap_extends(old(self).heap, final(self).heap),
            final(self).heap == (Heap { strings: final(self).heap.strings, ..old(self).heap }),
            marks_grown(old(self).heap.strings, final(self).heap.strings, old(self).heap.bootstrap),
            r.0.0 < final(self).heap.strs().len(),
            final(self).heap.bytes(r.0) == bytes@,
            r.1 == !(bytes@.len() <= MAX_SHORT_LEN && old(self).interned(bytes@)),
            !r.1 ==> *final(self) == *old(self) && old(self).interned_lt.has(r.0),
            r.1 ==> r.0.0 == old(self).heap.strs().len() && final(self).heap.strs().len()
                == old(self).heap.strs().len() + 1,
            bytes@.len() <= MAX_SHORT_LEN ==> final(self).interned_lt.has(r.0),
            bytes@.len() > MAX_SHORT_LEN ==> final(self).interned_lt == old(self).interned_lt,
            forall|s: StrId| #[trigger]
                final(self).interned_lt.has(s) <==> old(self).interned_lt.has(s) || (bytes@.len()
                    <= MAX_SHORT_LEN && s == r.0),
            intern_grown(*old(self), *final(self)),
            string_counted(*old(self), bytes@, *final(self)),
    {
        if bytes.len() <= MAX_SHORT_LEN {
            let hash: u32 = hash_bytes(bytes, 0);
            match self.interned_lt.find(&self.heap.strings.items, bytes, hash) {
                Some(s) => {
                    return (s, false);
                },
                None => {},
            }
            let item: LuaString = LuaString::from_slice(bytes);
            let s: StrId = self.heap.new_string(item);
            let ghost mid = *self;
            proof {
                lemma_intern_grow(old(self).interned_lt, old(self).heap.strs(), self.heap.strs());
                assert forall|x: StrId| #[trigger] old(self).interned_lt.has(x) implies self.heap.strs()[x.0 as int]@
                    != self.heap.strs()[s.0 as int]@ by {
                    assert(old(self).heap.strs()[x.0 as int].wf());
                }
                assert(!old(self).interned_lt.has(s));
                assert(self.heap.strings.items.len() == self.heap.strs().len());
                lemma_room(mid.interned_lt, mid.heap.strs(), s);
            }
            self.interned_lt.insert(&self.heap.strings.items, s);
            proof {
                lemma_once_insert(mid.interned_lt, self.interned_lt, self.heap.strs(), s);
                lemma_heap_extends(old(self).heap, self.heap);
                lemma_refs_grow(*old(self), old(self).heap.sizes(), self.heap.sizes());
                assert(!old(self).interned(bytes@)) by {
                    if old(self).interned(bytes@) {
                        let x = choose|x: StrId| #[trigger]
                            old(self).interned_lt.has(x) && old(self).heap.bytes(x) == bytes@;
                        assert(old(self).heap.strs()[x.0 as int].wf());
                    }
                }
            }
            (s, true)
        } else {
            let item: LuaString = LuaString::from_slice(bytes);
            let s: StrId = self.heap.new_string(item);
            proof {
                lemma_global_grow(*old(self), *self);
                assert forall|x: StrId| x.0 >= old(self).heap.strs().len() implies !(#[trigger]
                old(self).interned_lt.has(x)) by {
                    if old(self).interned_lt.has(x) {
                        lemma_has_bound(old(self).interned_lt, old(self).heap.strs(), x);
                    }
                }
            }
            (s, true)
        }
    }
}

/// How many entries and buckets the table of short strings has after a string was made: a new
/// short one is one entry more, for which a full table doubles its buckets as long as their
/// number is representable.
pub open spec fn string_counted(a: GlobalState, bytes: Seq<u8>, b: GlobalState) -> bool {
    let m = a.interned_lt;
    let n = b.interned_lt;
    if bytes.len() <= MAX_SHORT_LEN && !a.interned(bytes) {
        &&& n.count == m.count + 1
        &&& n.buckets@.len() == (if m.count >= m.buckets@.len() && m.buckets@.len() <= usize::MAX / 2 {
            2 * m.buckets@.len() as int
        } else {
            m.buckets@.len() as int
        })
    } else {
        n == m
    }
}

/// The table of short strings after strings were made: what was there before is kept as it
/// was, and of the strings made since exactly the short ones are in the table.
pub open spec fn intern_grown(a: GlobalState, b: GlobalState) -> bool {
    &&& forall|x: StrId| a.interned_lt.has(x) ==> #[trigger] b.interned_lt.has(x)
    &&& forall|x: StrId| x.0 < a.heap.strs().len() ==> (#[trigger] b.interned_lt.has(x) <==> a.interned_lt.has(x))
    &&& forall|x: StrId|
        a.heap.strs().len() <= x.0 < b.heap.strs().len() ==> (#[trigger] b.interned_lt.has(x) <==> b.heap.bytes(
            x,
        ).len() <= MAX_SHORT_LEN)
}

/// Making strings twice is making strings.
pub proof fn lemma_intern_grown_trans(a: GlobalState, b: GlobalState, c: GlobalState)
    requires
        heap_extends(a.heap, b.heap),
        heap_extends(b.heap, c.heap),
        intern_grown(a, b),
        intern_grown(b, c),
    ensures
        intern_grown(a, c),
{
    assert forall|x: StrId| x.0 < a.heap.strs().len() implies (#[trigger] c.interned_lt.has(x) <==> a.interned_lt.has(
        x,
    )) by {
        assert(b.interned_lt.has(x) <==> a.interned_lt.has(x));
    }
    assert forall|x: StrId| a.heap.strs().len() <= x.0 < c.heap.strs().len() implies (#[trigger] c.interned_lt.has(x)
        <==> c.heap.bytes(x).len() <= MAX_SHORT_LEN) by {
        if x.0 < b.heap.strs().len() {
            assert(b.interned_lt.has(x) <==> b.heap.bytes(x).len() <= MAX_SHORT_LEN);
        }
    }
}

/// Interning is canonical: two short strings that are interned at the same time are
/// the same object exactly if their bytes are the same.
pub proof fn law_interned_once(g: GlobalState, a: StrId, b: StrId)
    requires
        g.wf(),
        g.interned_lt.has(a),
        g.interned_lt.has(b),
    ensures
        a == b <==> g.heap.bytes(a) == g.heap.bytes(b),
{
}

/// What making a string, or finding it where it is interned, gives.
pub open spec fn string_made(a: GlobalState, bytes: Seq<u8>, b: GlobalState, s: StrId) -> bool {
    &&& b.wf()
    &&& heap_extends(a.heap, b.heap)
    &&& intern_grown(a, b)
    &&& s.0 < b.heap.strs().len()
    &&& b.heap.bytes(s) == bytes
    &&& bytes.len() <= MAX_SHORT_LEN ==> b.interned_lt.has(s)
    &&& bytes.len() > MAX_SHORT_LEN ==> s.0 == a.heap.strs().len()
}

/// Of two strings made one after the other, both are one object exactly if they are short
/// and have the same bytes.
pub proof fn law_intern_identity(
    a: GlobalState,
    x: Seq<u8>,
    b: GlobalState,
    s: StrId,
    y: Seq<u8>,
    c: GlobalState,
    t: StrId,
)
    requires
        string_made(a, x, b, s),
        string_made(b, y, c, t),
    ensures
        s == t <==> x == y && x.len() <= MAX_SHORT_LEN,
{
    assert(c.heap.strs()[s.0 as int] == b.heap.strs()[s.0 as int]);
    if x == y && x.len() <= MAX_SHORT_LEN {
        assert(c.interned_lt.has(s));
        law_interned_once(c, s, t);
    }
}

/// Packing keeps the multiples of four up to 1020.
pub proof fn law_packed(p: int)
    requires
        0 <= p <= 1023,
    ensures
        GlobalState::packed(p) * 4 == p - p % 4,
{
}

} // verus!
