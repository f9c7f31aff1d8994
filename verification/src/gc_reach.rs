//! Marking what is reachable.

use vstd::prelude::*;
use crate::gc_marks::Marks;
use crate::gc_marks::edge;
use crate::gc_marks::lemma_edge_ok;
use crate::gc_marks::list_children;
use crate::gc_roots::lemma_thread_holds_ok;
use crate::gc_roots::list_thread;
use crate::gc_roots::thread_holds;
use crate::global::GlobalState;
use crate::heap::GcRef;
use crate::value::ThreadRef;

verus! {

/// Whether a registered coroutine has this handle, and its state is at hand.
pub open spec fn is_entry(g: GlobalState, i: int, t: ThreadRef) -> bool {
    &&& 0 <= i < g.threads@.len()
    &&& g.threads@[i].value == t
    &&& g.heap.threads.items@[t.0 as int].id == g.threads@[i].id
    &&& g.threads@[i].state is Some
}

/// Whether a thread handle stands for a coroutine that holds an object.
pub open spec fn handle_holds(g: GlobalState, t: ThreadRef, c: GcRef) -> bool {
    exists|i: int| #[trigger]
        is_entry(g, i, t) && thread_holds(g.threads@[i].state->0, g.heap, g.current_thread_id, c)
}

/// Whether an object refers to another, a thread handle through its coroutine.
pub open spec fn holds(g: GlobalState, r: GcRef, c: GcRef) -> bool {
    match r {
        GcRef::Thread(t) => handle_holds(g, t, c),
        _ => edge(g.heap, r, c),
    }
}

/// What an object refers to exists.
pub proof fn lemma_holds_ok(g: GlobalState, r: GcRef, c: GcRef)
    requires
        g.wf(),
        g.heap.sizes().has(r),
        holds(g, r, c),
    ensures
        g.heap.sizes().has(c),
{
    match r {
        GcRef::Thread(t) => {
            let i = choose|i: int| #[trigger]
                is_entry(g, i, t) && thread_holds(g.threads@[i].state->0, g.heap, g.current_thread_id, c);
            assert(crate::global::threads_ok(g.heap.sizes(), g.threads@));
            assert(g.threads@[i].state->0.wf(g.heap.sizes()));
            lemma_thread_holds_ok(g.threads@[i].state->0, g.heap, g.current_thread_id, c);
        },
        _ => {
            lemma_edge_ok(g.heap, r, c);
        },
    }
}

/// Whether the references of an object are followed: of every object that was not
/// alive from the start, and of every thread.
pub open spec fn followed(start: Set<GcRef>, r: GcRef) -> bool {
    !start.contains(r) || r is Thread
}

/// Whether a set of objects has everything that its objects refer to.
pub open spec fn closed(g: GlobalState, start: Set<GcRef>, s: Set<GcRef>) -> bool {
    forall|r: GcRef, c: GcRef|
        s.contains(r) && followed(start, r) && #[trigger] holds(g, r, c) ==> s.contains(c)
}

/// Whether a set of objects is what can be reached: what is alive from the start, the
/// base, all that these refer to, and no more.
pub open spec fn is_reach(g: GlobalState, start: Set<GcRef>, base: Set<GcRef>, s: Set<GcRef>) -> bool {
    &&& start.subset_of(s)
    &&& base.subset_of(s)
    &&& closed(g, start, s)
    &&& forall|t: Set<GcRef>| start.subset_of(t) && base.subset_of(t) && #[trigger] closed(g, start, t) ==> s.subset_of(t)
}

/// What is reached is determined.
pub proof fn law_reach_unique(g: GlobalState, start: Set<GcRef>, base: Set<GcRef>, s: Set<GcRef>, t: Set<GcRef>)
    requires
        is_reach(g, start, base, s),
        is_reach(g, start, base, t),
    ensures
        s == t,
{
    assert(s =~= t);
}

/// Whether an object on a path refers to the next one and is followed.
pub open spec fn path_step(g: GlobalState, start: Set<GcRef>, path: Seq<GcRef>, i: int) -> bool {
    followed(start, path[i]) && holds(g, path[i], path[i + 1])
}

/// Everything along a path from what is reached is reached.
pub proof fn law_path_reached(g: GlobalState, start: Set<GcRef>, base: Set<GcRef>, s: Set<GcRef>, path: Seq<GcRef>, n: int)
    requires
        is_reach(g, start, base, s),
        0 <= n < path.len(),
        s.contains(path[0]),
        forall|i: int| 0 <= i < path.len() - 1 ==> #[trigger] path_step(g, start, path, i),
    ensures
        s.contains(path[n]),
    decreases n,
{
    if n > 0 {
        law_path_reached(g, start, base, s, path, n - 1);
        assert(path_step(g, start, path, n - 1));
    }
}

/// The marks, and the marked objects whose references are still to be followed.
pub struct Marker {
    pub marks: Marks,
    pub gray: Vec<GcRef>,
}

impl Marker {
    /// Whether what is waiting is marked and is to be followed.
    pub open spec fn basic(self, g: GlobalState, start: Set<GcRef>) -> bool {
        &&& self.marks.fits(g.heap.sizes())
        &&& start.subset_of(self.marks@)
        &&& forall|i: int|
            #![trigger self.gray@[i]]
            0 <= i < self.gray@.len() ==> self.marks@.contains(self.gray@[i]) && followed(start, self.gray@[i])
                && g.heap.sizes().has(self.gray@[i])
    }

    /// Whether everything that is marked has been followed, but for what is waiting and
    /// some exceptions.
    pub open spec fn black(self, g: GlobalState, start: Set<GcRef>, but: Set<GcRef>) -> bool {
        forall|r: GcRef, c: GcRef|
            self.marks@.contains(r) && followed(start, r) && !self.gray@.contains(r) && !but.contains(r)
                && #[trigger] holds(g, r, c) ==> self.marks@.contains(c)
    }

    /// Whether marking is under way in order.
    pub open spec fn wf(self, g: GlobalState, start: Set<GcRef>) -> bool {
        self.basic(g, start) && self.black(g, start, Set::empty())
    }

    /// Twice the missing marks, and what is waiting.
    pub open spec fn work(self) -> nat {
        self.marks.left() * 2 + self.gray@.len()
    }

    /// Marks an object.
    pub fn mark(&mut self, g: &GlobalState, start: &Marks, r: GcRef)
        requires
            old(self).basic(*g, start@),
            g.heap.sizes().has(r),
        ensures
            final(self).basic(*g, start@),
            forall|but: Set<GcRef>|
                old(self).black(*g, start@, but) ==> #[trigger] final(self).black(*g, start@, but),
            final(self).marks@ == old(self).marks@.insert(r),
            final(self).work() <= old(self).work(),
            final(self).marks.left() <= old(self).marks.left(),
            !old(self).marks@.contains(r) ==> final(self).marks.left() < old(self).marks.left(),
    {
        if self.marks.is_marked(r) {
            assert(self.marks@ =~= old(self).marks@.insert(r));
            return;
        }
        self.marks.put(r);
        self.gray.push(r);
        proof {
            assert forall|but: Set<GcRef>| old(self).black(*g, start@, but) implies #[trigger] self.black(
                *g,
                start@,
                but,
            ) by {
                assert forall|q: GcRef, c: GcRef|
                    self.marks@.contains(q) && followed(start@, q) && !self.gray@.contains(q) && !but.contains(q)
                        && #[trigger] holds(*g, q, c) implies self.marks@.contains(c) by {
                    assert(self.gray@[self.gray@.len() - 1] == r);
                    if old(self).gray@.contains(q) {
                        let i = choose|i: int| 0 <= i < old(self).gray@.len() && old(self).gray@[i] == q;
                        assert(self.gray@[i] == q);
                    }
                }
            }
        }
    }

    /// Marks all objects of a list.
    pub fn mark_all(&mut self, g: &GlobalState, start: &Marks, list: &Vec<GcRef>)
        requires
            old(self).basic(*g, start@),
            forall|i: int| 0 <= i < list@.len() ==> g.heap.sizes().has(#[trigger] list@[i]),
        ensures
            final(self).basic(*g, start@),
            forall|but: Set<GcRef>|
                old(self).black(*g, start@, but) ==> #[trigger] final(self).black(*g, start@, but),
            final(self).marks@ == old(self).marks@.union(list@.to_set()),
            final(self).work() <= old(self).work(),
            final(self).marks.left() <= old(self).marks.left(),
            !list@.to_set().subset_of(old(self).marks@) ==> final(self).marks.left() < old(self).marks.left(),
    {
        let mut i: usize = 0;
        assert(self.marks@ =~= old(self).marks@.union(list@.subrange(0, 0).to_set()));
        while i < list.len()
            invariant
                i <= list@.len(),
                self.basic(*g, start@),
                forall|but: Set<GcRef>|
                    old(self).black(*g, start@, but) ==> #[trigger] self.black(*g, start@, but),
                forall|j: int| 0 <= j < list@.len() ==> g.heap.sizes().has(#[trigger] list@[j]),
                self.marks@ == old(self).marks@.union(list@.subrange(0, i as int).to_set()),
                self.work() <= old(self).work(),
                self.marks.left() <= old(self).marks.left(),
                !list@.subrange(0, i as int).to_set().subset_of(old(self).marks@) ==> self.marks.left() < old(
                    self
                ).marks.left(),
            decreases list@.len() - i,
        {
            let ghost before = self.marks@;
            self.mark(g, start, list[i]);
            proof {
                let a = list@.subrange(0, i as int);
                let b = list@.subrange(0, i + 1);
                assert(b =~= a.push(list@[i as int]));
                assert forall|c: GcRef| b.to_set().contains(c) <==> a.to_set().contains(c) || c == list@[i as int] by {
                    if a.contains(c) {
                        let k = choose|k: int| 0 <= k < a.len() && a[k] == c;
                        assert(b[k] == c);
                    }
                    assert(b[b.len() - 1] == list@[i as int]);
                }
                assert(self.marks@ =~= old(self).marks@.union(b.to_set()));
                if !b.to_set().subset_of(old(self).marks@) && a.to_set().subset_of(old(self).marks@) {
                    assert(!old(self).marks@.contains(list@[i as int]));
                    assert(!before.contains(list@[i as int]));
                }
            }
            i = i + 1;
        }
        assert(list@.subrange(0, list@.len() as int) =~= list@);
    }
}

impl GlobalState {
    /// Lists what an object refers to, a thread handle through its coroutine.
    pub fn list_held(&self, r: GcRef) -> (out: Vec<GcRef>)
        requires
            self.wf(),
            self.heap.sizes().has(r),
        ensures
            forall|c: GcRef| #[trigger] out@.contains(c) <==> holds(*self, r, c),
    {
        let mut out: Vec<GcRef> = Vec::new();
        match r {
            GcRef::Thread(t) => {
                let mut i: usize = 0;
                while i < self.threads.len()
                    invariant
                        i <= self.threads@.len(),
                        self.wf(),
                        t.0 < self.heap.threads.items@.len(),
                        forall|c: GcRef| #[trigger]
                            out@.contains(c) <==> exists|j: int|
                                j < i && #[trigger] is_entry(*self, j, t) && thread_holds(
                                    self.threads@[j].state->0,
                                    self.heap,
                                    self.current_thread_id,
                                    c,
                                ),
                    decreases self.threads@.len() - i,
                {
                    let ghost before = out@;
                    assert(crate::global::threads_ok(self.heap.sizes(), self.threads@));
                    assert(self.threads@[i as int].value.0 < self.heap.sizes().threads);
                    if self.threads[i].value == t && self.heap.threads.items[t.0].id == self.threads[i].id {
                        if let Some(s) = &self.threads[i].state {
                            assert(self.threads@[i as int].state->0.wf(self.heap.sizes()));
                            list_thread(&mut out, s, &self.heap, self.current_thread_id);
                        }
                    }
                    proof {
                        assert forall|c: GcRef| #[trigger] out@.contains(c) <==> exists|j: int|
                            j < i + 1 && #[trigger] is_entry(*self, j, t) && thread_holds(
                                self.threads@[j].state->0,
                                self.heap,
                                self.current_thread_id,
                                c,
                            ) by {
                            let hit = is_entry(*self, i as int, t) && thread_holds(
                                self.threads@[i as int].state->0,
                                self.heap,
                                self.current_thread_id,
                                c,
                            );
                            assert(out@.contains(c) <==> before.contains(c) || hit);
                        }
                    }
                    i = i + 1;
                }
            },
            _ => {
                list_children(&mut out, &self.heap, r);
            },
        }
        out
    }
}

impl Marker {
    /// Follows references until everything that can be reached is marked.
    #[verifier::rlimit(40)]
    #[verifier::spinoff_prover]
    pub fn drain(&mut self, g: &GlobalState, start: &Marks)
        requires
            g.wf(),
            old(self).wf(*g, start@),
        ensures
            final(self).wf(*g, start@),
            final(self).gray@.len() == 0,
            is_reach(*g, start@, old(self).marks@, final(self).marks@),
            final(self).marks.left() <= old(self).marks.left(),
    {
        let ghost base = self.marks@;
        while self.gray.len() > 0
            invariant
                g.wf(),
                self.wf(*g, start@),
                self.marks.left() <= old(self).marks.left(),
                base.subset_of(self.marks@),
                forall|t: Set<GcRef>|
                    start@.subset_of(t) && base.subset_of(t) && #[trigger] closed(*g, start@, t)
                        ==> self.marks@.subset_of(t),
            decreases self.work(),
        {
            self.follow_one(g, start, Ghost(base));
        }
        proof {
            assert forall|r: GcRef, c: GcRef|
                self.marks@.contains(r) && followed(start@, r) && #[trigger] holds(*g, r, c) implies self.marks@.contains(
                c,
            ) by {
                assert(!self.gray@.contains(r));
            }
        }
    }

    /// Follows the references of one waiting object.
    fn follow_one(&mut self, g: &GlobalState, start: &Marks, base: Ghost<Set<GcRef>>)
        requires
            g.wf(),
            old(self).wf(*g, start@),
            old(self).gray@.len() > 0,
            base@.subset_of(old(self).marks@),
            forall|t: Set<GcRef>|
                start@.subset_of(t) && base@.subset_of(t) && #[trigger] closed(*g, start@, t)
                    ==> old(self).marks@.subset_of(t),
        ensures
            final(self).wf(*g, start@),
            base@.subset_of(final(self).marks@),
            forall|t: Set<GcRef>|
                start@.subset_of(t) && base@.subset_of(t) && #[trigger] closed(*g, start@, t)
                    ==> final(self).marks@.subset_of(t),
            final(self).work() < old(self).work(),
            final(self).marks.left() <= old(self).marks.left(),
    {
        let ghost all = self.gray@;
        let top: Option<GcRef> = self.gray.pop();
        let r: GcRef = match top {
            Some(r) => r,
            None => {
                return;
            },
        };
        let ghost only = Set::<GcRef>::empty().insert(r);
        let ghost before = self.marks@;
        proof {
            assert(all[all.len() - 1] == r);
            assert(self.gray@ == all.drop_last());
            assert forall|q: GcRef, c: GcRef|
                self.marks@.contains(q) && followed(start@, q) && !self.gray@.contains(q) && !only.contains(q)
                    && #[trigger] holds(*g, q, c) implies self.marks@.contains(c) by {
                if all.contains(q) {
                    let i = choose|i: int| 0 <= i < all.len() && all[i] == q;
                    assert(self.gray@[i] == q);
                }
            }
            assert(self.black(*g, start@, only));
            assert(self.basic(*g, start@)) by {
                assert forall|i: int|
                    #![trigger self.gray@[i]]
                    0 <= i < self.gray@.len() implies self.marks@.contains(self.gray@[i]) && followed(
                    start@,
                    self.gray@[i],
                ) && g.heap.sizes().has(self.gray@[i]) by {
                    assert(self.gray@[i] == all[i]);
                }
            }
        }
        let kids: Vec<GcRef> = g.list_held(r);
        proof {
            assert forall|i: int| 0 <= i < kids@.len() implies g.heap.sizes().has(#[trigger] kids@[i]) by {
                assert(kids@.contains(kids@[i]));
                lemma_holds_ok(*g, r, kids@[i]);
            }
        }
        self.mark_all(g, start, &kids);
        proof {
            assert(self.black(*g, start@, only));
            assert forall|q: GcRef, c: GcRef|
                self.marks@.contains(q) && followed(start@, q) && !self.gray@.contains(q) && #[trigger] holds(*g, q, c)
                implies self.marks@.contains(c) by {
                if q == r {
                    assert(kids@.contains(c));
                    assert(kids@.to_set().contains(c));
                }
            }
        }
        proof {
            assert forall|t: Set<GcRef>|
                start@.subset_of(t) && base@.subset_of(t) && #[trigger] closed(*g, start@, t) implies self.marks@.subset_of(
                t,
            ) by {
                assert(before.subset_of(t));
                assert forall|c: GcRef| self.marks@.contains(c) implies t.contains(c) by {
                    if kids@.contains(c) {
                        assert(holds(*g, r, c));
                        assert(t.contains(r));
                    }
                }
            }
        }
    }
}

} // verus!
