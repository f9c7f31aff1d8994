//! The end of a state or of a thread.

use vstd::prelude::*;
use crate::callinfo::CIST_C;
use crate::callinfo::CallInfo;
use crate::gc::is_live;
use crate::gc::lemma_same_items_wf;
use crate::global::FinalizerRegistry;
use crate::global::GlobalState;
use crate::heap::Arena;
use crate::heap::GcRef;
use crate::heap::Heap;
use crate::heap::Sizes;
use crate::roots::ExternalRootSet;
use crate::state::LuaState;
use crate::state::chain;
use crate::value::CallInfoIdx;
use crate::value::LuaStatus;
use crate::value::LuaValue;
use crate::value::StackIdx;

verus! {

impl<T> Arena<T> {
    /// Frees every object, also those exempt from collection.
    pub fn free_all(&mut self)
        requires
            old(self).wf(),
        ensures
            final(self).wf(),
            final(self).items == old(self).items && final(self).fixed == old(self).fixed,
            forall|i: int| 0 <= i < final(self).live@.len() ==> !#[trigger] final(self).live@[i],
    {
        let mut i: usize = 0;
        while i < self.live.len()
            invariant
                i <= self.live@.len(),
                self.wf(),
                self.items == old(self).items,
                self.fixed == old(self).fixed,
                forall|k: int| 0 <= k < i ==> !#[trigger] self.live@[k],
            decreases self.live@.len() - i,
        {
            self.live.set(i, false);
            i = i + 1;
        }
    }
}

/// Whether every object is freed and the store takes no more.
pub open spec fn all_freed(a: Heap, b: Heap) -> bool {
    &&& b.closed && b.bootstrap == a.bootstrap
    &&& b.strings.items == a.strings.items && b.tables.items == a.tables.items
    &&& b.userdata.items == a.userdata.items && b.lclosures.items == a.lclosures.items
    &&& b.cclosures.items == a.cclosures.items && b.protos.items == a.protos.items
    &&& b.upvals.items == a.upvals.items && b.threads.items == a.threads.items
    &&& forall|r: GcRef| b.sizes().has(r) ==> !#[trigger] is_live(b, r)
}

/// Whether nothing is registered with the collector any more.
pub open spec fn torn_down(a: GlobalState, b: GlobalState) -> bool {
    &&& b == (GlobalState {
        heap: b.heap,
        weak_tables_registry: b.weak_tables_registry,
        finalizers: b.finalizers,
        external_roots: b.external_roots,
        threads: b.threads,
        thread_globals: b.thread_globals,
        cross_thread_upvals: b.cross_thread_upvals,
        suspended_parent_stacks: b.suspended_parent_stacks,
        suspended_parent_open_upvals: b.suspended_parent_open_upvals,
        ..a
    })
    &&& all_freed(a.heap, b.heap)
    &&& b.weak_tables_registry@.len() == 0
    &&& b.finalizers.pending@.len() == 0 && b.finalizers.to_be_finalized@.len() == 0
    &&& b.external_roots.slots@.len() == 0 && b.external_roots.free@.len() == 0 && b.external_roots.live == 0
    &&& b.threads@.len() == 0 && b.thread_globals@.len() == 0
    &&& b.cross_thread_upvals@.len() == 0 && b.suspended_parent_stacks@.len() == 0
    &&& b.suspended_parent_open_upvals@.len() == 0
}

impl Heap {
    /// Frees every object and closes the store.
    pub fn drop_all(&mut self)
        requires
            old(self).wf(),
        ensures
            final(self).wf(),
            final(self).sizes() == old(self).sizes(),
            all_freed(*old(self), *final(self)),
    {
        self.strings.free_all();
        self.tables.free_all();
        self.userdata.free_all();
        self.lclosures.free_all();
        self.cclosures.free_all();
        self.protos.free_all();
        self.upvals.free_all();
        self.threads.free_all();
        self.closed = true;
        proof {
            lemma_same_items_wf(*old(self), *self);
        }
    }
}

impl GlobalState {
    /// Frees every object, and forgets all that names one in the books of the collector.
    pub fn free_all_objects(&mut self)
        requires
            old(self).wf(),
        ensures
            final(self).wf(),
            final(self).heap.sizes() == old(self).heap.sizes(),
            torn_down(*old(self), *final(self)),
    {
        self.heap.drop_all();
        self.weak_tables_registry = Vec::new();
        self.finalizers = FinalizerRegistry { pending: Vec::new(), to_be_finalized: Vec::new() };
        self.external_roots = ExternalRootSet { slots: Vec::new(), free: Vec::new(), live: 0 };
        self.threads = Vec::new();
        self.thread_globals = Vec::new();
        self.cross_thread_upvals = Vec::new();
        self.suspended_parent_stacks = Vec::new();
        self.suspended_parent_open_upvals = Vec::new();
    }
}

/// What closing a state asks for next.
#[derive(Debug, Clone, Copy, PartialEq, Eq, Structural)]
pub enum Closing {
    /// The finalizers that are left are run, and then the state is freed.
    RunFinalizers,
    /// The state is freed.
    Free,
}

impl LuaState {
    /// Begins to close a state. One that is complete runs its finalizers, in its first
    /// frame; one that is not has none.
    pub fn close_state(&mut self, g: &GlobalState) -> (r: Closing)
        ensures
            if g.nilvalue == LuaValue::Nil {
                r == Closing::RunFinalizers && *final(self) == (LuaState {
                    ci: CallInfoIdx(0),
                    ..*old(self)
                })
            } else {
                r == Closing::Free && *final(self) == *old(self)
            },
    {
        if g.is_complete() {
            self.ci = CallInfoIdx(0);
            Closing::RunFinalizers
        } else {
            Closing::Free
        }
    }

    /// Ends closing a state: everything is freed, and the stack with it.
    pub fn close_state_done(&mut self, g: &mut GlobalState)
        requires
            old(g).wf(),
            chain(old(self).call_info@),
            old(self).nci == old(self).call_info@.len() - 1,
        ensures
            final(g).wf(),
            torn_down(*old(g), *final(g)),
            final(self).stack@.len() == 0,
            old(self).stack@.len() > 0 ==> final(self).nci == 0 && final(self).call_info@.len() == 1,
            *final(self) == (LuaState {
                stack: final(self).stack,
                call_info: final(self).call_info,
                nci: final(self).nci,
                ci: final(self).ci,
                ..*old(self)
            }),
    {
        g.free_all_objects();
        self.free_stack();
    }

    /// Begins to close a thread on behalf of another one, whose depth of native calls it
    /// takes over. Returns the status to close pending variables with.
    pub fn close_thread(&mut self, from: Option<&LuaState>) -> (r: i32)
        requires
            old(self).call_info@.len() > 0,
        ensures
            r == (if old(self).status == LuaStatus::Yield.spec_raw() {
                0
            } else {
                old(self).status as int
            }),
            final(self).n_ccalls == (match from {
                Some(f) => f.spec_c_calls(),
                None => 0,
            }),
            final(self).status == 0 && final(self).ci.0 == 0,
            *final(self) == (LuaState {
                n_ccalls: final(self).n_ccalls,
                ci: final(self).ci,
                status: final(self).status,
                stack: final(self).stack,
                call_info: final(self).call_info,
                ..*old(self)
            }),
            final(self).stack@ == (if old(self).stack@.len() > 0 {
                old(self).stack@.update(0, LuaValue::Nil)
            } else {
                old(self).stack@
            }),
            final(self).call_info@ == old(self).call_info@.update(
                0,
                CallInfo {
                    func: StackIdx(0),
                    call_metamethods: 0,
                    callstatus: CIST_C,
                    ..old(self).call_info@[0]
                },
            ),
            forall|z: Sizes| old(self).wf(z) ==> #[trigger] final(self).wf(z),
    {
        self.n_ccalls = match from {
            Some(f) => f.c_calls(),
            None => 0,
        };
        let status: i32 = self.status as i32;
        self.reset_thread_begin(status)
    }
}

/// After teardown nothing is live, and nothing is registered.
pub proof fn law_teardown_complete(a: GlobalState, b: GlobalState, r: GcRef)
    requires
        torn_down(a, b),
        b.heap.sizes().has(r),
    ensures
        !is_live(b.heap, r),
        b.heap.closed,
        b.external_roots.slots@.len() == 0 && b.threads@.len() == 0,
{
}

} // verus!
