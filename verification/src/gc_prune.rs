//! A look at weak tables without a sweep.

use vstd::prelude::*;
use crate::gc_books::all_looked_at;
use crate::gc_collect::lemma_after_prune;
use crate::gc_collect::lemma_to_set;
use crate::gc_collect::roots;
use crate::gc_collect::with_heap;
use crate::gc_marks::Marks;
use crate::gc_reach::Marker;
use crate::gc_reach::is_reach;
use crate::gc_threads::remark_hit;
use crate::gc_threads::remarked;
use crate::gc_weak::Prune;
use crate::gc_weak::is_settled;
use crate::gc_weak::staying_strings;
use crate::gc_weak::weak_pruned;
use crate::global::GlobalState;
use crate::intern::shrunk;
use crate::heap::GcRef;
use crate::heap::Heap;
use crate::state::LuaState;
use crate::value::StrId;

verus! {

/// The sets of objects and the stores that such a look goes through.
pub struct Look {
    /// What is reached from the roots.
    pub reached: Set<GcRef>,
    /// With what open variables of coroutines that are not reached hold.
    pub remarked: Set<GcRef>,
    /// With what tables with weak keys hold.
    pub settled: Set<GcRef>,
    /// With the strings that stay in weak tables.
    pub alive: Set<GcRef>,
    /// The store without entries with dead values.
    pub valued: Heap,
    /// The store without entries with dead keys either.
    pub keyed: Heap,
    /// Which coroutines had another look.
    pub hits: Seq<bool>,
}

/// Whether a look at the weak tables of `a` left `b`: of the tables that are reached,
/// those with weak values lost the entries with dead values and those with weak keys the
/// entries with dead keys; what stays keeps its strings alive, and the other strings are
/// not interned any more. A coroutine that had another look counts as not having set any
/// open variable.
pub open spec fn looked(a: GlobalState, running: LuaState, k: Look, b: GlobalState) -> bool {
    let none = Set::<GcRef>::empty();
    let g1 = with_heap(a, k.valued);
    let g2 = with_heap(a, k.keyed);
    &&& is_reach(a, none, roots(a, running, Seq::empty()), k.reached)
    &&& is_reach(a, none, remarked(a, k.reached, 0), k.remarked)
    &&& is_settled(a, false, none, k.remarked, k.settled)
    &&& weak_pruned(a, k.settled, Prune::ReachedValues, k.valued)
    &&& weak_pruned(g1, k.settled, Prune::Keys, k.keyed)
    &&& weak_pruned(g2, k.settled, Prune::ReachedValues, b.heap)
    &&& is_reach(
        with_heap(a, b.heap),
        none,
        k.settled.union(staying_strings(g1, k.settled, Prune::Keys)).union(
            staying_strings(g2, k.settled, Prune::ReachedValues),
        ),
        k.alive,
    )
    &&& b == (GlobalState { heap: b.heap, interned_lt: b.interned_lt, threads: b.threads, ..a })
    &&& k.hits.len() == a.threads@.len()
    &&& forall|i: int| 0 <= i < k.hits.len() ==> #[trigger] k.hits[i] == remark_hit(a, k.reached, 0, i)
    &&& b.threads@ == all_looked_at(a.threads@, k.hits)
    &&& forall|x: StrId| #[trigger]
        b.interned_lt.has(x) <==> a.interned_lt.has(x) && k.alive.contains(GcRef::Str(x))
    &&& shrunk(a.interned_lt, b.interned_lt)
}

impl GlobalState {
    /// Drops the dead entries of weak tables and the dead interned strings, and frees
    /// nothing.
    #[verifier::rlimit(60)]
    #[verifier::spinoff_prover]
    pub fn prune_weak_tables_mark_only(&mut self, running: &LuaState)
        requires
            old(self).wf(),
            running.wf(old(self).heap.sizes()),
        ensures
            final(self).wf(),
            final(self).heap.sizes() == old(self).heap.sizes(),
            exists|k: Look| #[trigger] looked(*old(self), *running, k, *final(self)),
    {
        let ghost g = *self;
        let start: Marks = Marks::none(&self.heap);
        let touched: Vec<GcRef> = Vec::new();
        assert(touched@ =~= Seq::<GcRef>::empty());
        assert(start@ =~= Set::<GcRef>::empty());
        let mut m: Marker = Marker::begin(self, &start);
        m.mark_roots(self, &start, running, &touched);
        let ghost reached = m.marks@;
        let hits: Vec<bool> = m.remark_legacy_open_upvalues(self, &start);
        m.drain(self, &start);
        let ghost marked2 = m.marks@;
        m.settle(self, false, &start);
        let ghost settled = m.marks@;
        let _ = self.prune_weak(&m.marks, Prune::ReachedValues);
        let ghost g1 = *self;
        proof {
            lemma_after_prune(m, g, settled, Prune::ReachedValues, g1, start@);
            assert(m.wf(g1, start@));
        }
        let mut strs: Vec<GcRef> = self.prune_weak(&m.marks, Prune::Keys);
        let ghost g2 = *self;
        proof {
            lemma_after_prune(m, g1, settled, Prune::Keys, g2, start@);
            assert(m.wf(g2, start@));
        }
        let mut more: Vec<GcRef> = self.prune_weak(&m.marks, Prune::ReachedValues);
        let ghost g3 = *self;
        proof {
            lemma_after_prune(m, g2, settled, Prune::ReachedValues, g3, start@);
            lemma_to_set(strs@, staying_strings(g1, settled, Prune::Keys));
            lemma_to_set(more@, staying_strings(g2, settled, Prune::ReachedValues));
        }
        let ghost first = strs@;
        let ghost second = more@;
        strs.append(&mut more);
        proof {
            let both = settled.union(first.to_set()).union(second.to_set());
            assert forall|c: GcRef| strs@.contains(c) <==> first.contains(c) || second.contains(c) by {
                if first.contains(c) {
                    let i = choose|i: int| 0 <= i < first.len() && first[i] == c;
                    assert(strs@[i] == c);
                }
                if second.contains(c) {
                    let i = choose|i: int| 0 <= i < second.len() && second[i] == c;
                    assert(strs@[first.len() + i] == c);
                }
            }
            assert forall|c: GcRef| settled.union(strs@.to_set()).contains(c) <==> both.contains(c) by {
                assert(strs@.to_set().contains(c) <==> strs@.contains(c));
                assert(first.to_set().contains(c) <==> first.contains(c));
                assert(second.to_set().contains(c) <==> second.contains(c));
            }
            assert(settled.union(strs@.to_set()) =~= both);
        }
        m.go_on(self, &start, &strs);
        let ghost alive = m.marks@;
        self.remove_dead_interned_strings(&m.marks);
        assert(self.wf());
        self.look_at_threads(&hits);
        proof {
            let k = Look {
                reached: reached,
                remarked: marked2,
                settled: settled,
                alive: alive,
                valued: g1.heap,
                keyed: g2.heap,
                hits: hits@,
            };
            assert(with_heap(g, g1.heap) == g1 && with_heap(g, g2.heap) == g2 && with_heap(g, g3.heap) == g3);
            assert(looked(g, *running, k, *self));
        }
    }
}

} // verus!
