//! The collector.

use vstd::prelude::*;
use crate::gc_barrier::Barrier;
use crate::gc_barrier::key_barrier;
use crate::gc_barrier::upval_barrier;
use crate::gc_barrier::value_barrier;
use crate::gc_books::pending_keep;
use crate::gc_books::lemma_kept_has;
use crate::gc_books::lemma_kept_from;
use crate::gc_books::kept_from;
use crate::gc_books::kept_by;
use crate::gc_books::books_settled;
use crate::gc_collect::Found;
use crate::gc_collect::Stages;
use crate::gc_collect::collection;
use crate::gc_collect::due;
use crate::gc_collect::fin_refs;
use crate::gc_collect::roots;
use crate::gc_collect::with_heap;
use crate::gc_marks::Marks;
use crate::gc_marks::entry_holds;
use crate::gc_marks::strong_keys;
use crate::gc_reach::closed;
use crate::gc_reach::followed;
use crate::gc_reach::holds;
use crate::gc_threads::closed_values;
use crate::gc_threads::lemma_holds_closed;
use crate::gc_threads::remark_hit;
use crate::gc_threads::remarked;
use crate::gc_weak::Prune;
use crate::gc_weak::entry_stays;
use crate::gc_weak::is_pruned;
use crate::gc_weak::is_pruned_at;
use crate::gc_weak::law_kept;
use crate::gc_weak::lemma_holds_pruned;
use crate::gc_weak::stays;
use crate::global::FinalizerObject;
use crate::global::GlobalState;
use crate::global::WeakListKind;
use crate::global::fins_ok;
use crate::heap::GcRef;
use crate::heap::Heap;
use crate::heap::Sizes;
use crate::heap::value_ref;
use crate::meta::stored;
use crate::meta::write_told;
use crate::state::LuaState;
use crate::table::TableEntry;
use crate::table::entries_from;
use crate::upvals::upval_written;
use crate::value::LuaValue;
use crate::value::TableId;
use crate::value::UpValId;

verus! {

/// Whether an object has not been freed.
pub open spec fn is_live(h: Heap, r: GcRef) -> bool {
    match r {
        GcRef::Str(i) => h.strings.live@[i.0 as int],
        GcRef::Table(i) => h.tables.live@[i.0 as int],
        GcRef::UserData(i) => h.userdata.live@[i.0 as int],
        GcRef::LClosure(i) => h.lclosures.live@[i.0 as int],
        GcRef::CClosure(i) => h.cclosures.live@[i.0 as int],
        GcRef::Proto(i) => h.protos.live@[i.0 as int],
        GcRef::UpVal(i) => h.upvals.live@[i.0 as int],
        GcRef::Thread(i) => h.threads.live@[i.0 as int],
    }
}

/// Whether an object is exempt from collection.
pub open spec fn is_fixed(h: Heap, r: GcRef) -> bool {
    match r {
        GcRef::Str(i) => h.strings.fixed@[i.0 as int],
        GcRef::Table(i) => h.tables.fixed@[i.0 as int],
        GcRef::UserData(i) => h.userdata.fixed@[i.0 as int],
        GcRef::LClosure(i) => h.lclosures.fixed@[i.0 as int],
        GcRef::CClosure(i) => h.cclosures.fixed@[i.0 as int],
        GcRef::Proto(i) => h.protos.fixed@[i.0 as int],
        GcRef::UpVal(i) => h.upvals.fixed@[i.0 as int],
        GcRef::Thread(i) => h.threads.fixed@[i.0 as int],
    }
}

/// Whether everything that is neither alive nor exempt was freed, and nothing else
/// changed.
pub open spec fn swept(a: Heap, alive: Set<GcRef>, b: Heap) -> bool {
    &&& b.bootstrap == a.bootstrap && b.closed == a.closed
    &&& b.strings.items@ == a.strings.items@ && b.tables.items@ == a.tables.items@
    &&& b.userdata.items@ == a.userdata.items@ && b.lclosures.items@ == a.lclosures.items@
    &&& b.cclosures.items@ == a.cclosures.items@ && b.protos.items@ == a.protos.items@
    &&& b.upvals.items@ == a.upvals.items@ && b.threads.items@ == a.threads.items@
    &&& forall|r: GcRef| a.sizes().has(r) ==> #[trigger] is_fixed(b, r) == is_fixed(a, r)
    &&& forall|r: GcRef|
        a.sizes().has(r) ==> #[trigger] is_live(b, r) == (is_live(a, r) && (is_fixed(a, r) || alive.contains(r)))
}

/// The course of a collection: the sets of objects and stores that it went through,
/// which coroutines had another look, and the shared state before anything was freed.
pub struct Course {
    pub c: Stages,
    pub h1: Heap,
    pub h2: Heap,
    pub h3: Heap,
    pub hits: Seq<bool>,
    pub b: GlobalState,
}

/// Whether a collection took this course before anything was freed.
pub open spec fn settled(
    g: GlobalState,
    running: LuaState,
    start: Set<GcRef>,
    touched: Seq<GcRef>,
    fins: Seq<FinalizerObject>,
    k: Course,
) -> bool {
    &&& collection(g, running, start, touched, fins, k.c, k.h1, k.h2, k.h3)
    &&& k.hits.len() == g.threads@.len()
    &&& forall|i: int| 0 <= i < k.hits.len() ==> #[trigger] k.hits[i] == remark_hit(g, k.c.reached, 0, i)
    &&& books_settled(
        with_heap(g, k.h3),
        k.c.alive,
        due(fins, k.c.valued, fins.len() as int),
        k.hits,
        k.b,
    )
}

/// Whether a collection took this course.
pub open spec fn collected(
    g: GlobalState,
    running: LuaState,
    start: Set<GcRef>,
    touched: Seq<GcRef>,
    fins: Seq<FinalizerObject>,
    k: Course,
    g2: GlobalState,
) -> bool {
    &&& settled(g, running, start, touched, fins, k)
    &&& g2 == with_heap(k.b, g2.heap)
    &&& swept(k.b.heap, k.c.alive, g2.heap)
}

impl Heap {
    /// Frees every object that is neither alive nor exempt.
    pub fn sweep(&mut self, marks: &Marks)
        requires
            old(self).wf(),
            marks.fits(old(self).sizes()),
        ensures
            final(self).wf(),
            final(self).sizes() == old(self).sizes(),
            swept(*old(self), marks@, *final(self)),
    {
        self.strings.sweep(&marks.strings);
        self.tables.sweep(&marks.tables);
        self.userdata.sweep(&marks.userdata);
        self.lclosures.sweep(&marks.lclosures);
        self.cclosures.sweep(&marks.cclosures);
        self.protos.sweep(&marks.protos);
        self.upvals.sweep(&marks.upvals);
        self.threads.sweep(&marks.threads);
        proof {
            lemma_same_items_wf(*old(self), *self);
        }
    }
}

/// A store with the same objects is as good.
pub proof fn lemma_same_items_wf(a: Heap, b: Heap)
    requires
        a.wf(),
        b.strings.wf() && b.tables.wf() && b.userdata.wf() && b.lclosures.wf(),
        b.cclosures.wf() && b.protos.wf() && b.upvals.wf() && b.threads.wf(),
        b.strings.items@ == a.strings.items@ && b.tables.items@ == a.tables.items@,
        b.userdata.items@ == a.userdata.items@ && b.lclosures.items@ == a.lclosures.items@,
        b.cclosures.items@ == a.cclosures.items@ && b.protos.items@ == a.protos.items@,
        b.upvals.items@ == a.upvals.items@ && b.threads.items@ == a.threads.items@,
    ensures
        b.wf(),
        b.sizes() == a.sizes(),
{
    let z = a.sizes();
    assert(b.sizes() == z);
    assert(b.strs() == a.strs());
    assert forall|i: int| 0 <= i < b.strs().len() implies (#[trigger] b.strs()[i]).wf() by {
        assert(a.strs()[i].wf());
    }
    assert forall|i: int| #![trigger b.tables.items@[i]] 0 <= i < z.tables implies b.tables.items@[i].wf(b.strs())
        && z.ok_tab(b.tables.items@[i]) by {
        assert(a.tables.items@[i].wf(a.strs()) && z.ok_tab(a.tables.items@[i]));
    }
    assert forall|i: int| 0 <= i < z.userdata implies z.ok_userdata(#[trigger] b.userdata.items@[i]) by {
        assert(z.ok_userdata(a.userdata.items@[i]));
    }
    assert forall|i: int| 0 <= i < z.lclosures implies z.ok_lclosure(#[trigger] b.lclosures.items@[i]) by {
        assert(z.ok_lclosure(a.lclosures.items@[i]));
    }
    assert forall|i: int| 0 <= i < z.cclosures implies z.ok_all((#[trigger] b.cclosures.items@[i]).upvalues@) by {
        assert(z.ok_all(a.cclosures.items@[i].upvalues@));
    }
    assert forall|i: int| 0 <= i < z.protos implies z.ok_proto(#[trigger] b.protos.items@[i]) by {
        assert(z.ok_proto(a.protos.items@[i]));
    }
    assert forall|i: int| 0 <= i < z.upvals implies z.ok_upval(#[trigger] b.upvals.items@[i]) by {
        assert(z.ok_upval(a.upvals.items@[i]));
    }
}

/// A store in which objects were freed is as good as before.
pub proof fn lemma_swept_wf(a: GlobalState, b: GlobalState, alive: Set<GcRef>)
    requires
        a.wf(),
        b == with_heap(a, b.heap),
        b.heap.wf(),
        b.heap.sizes() == a.heap.sizes(),
        swept(a.heap, alive, b.heap),
    ensures
        b.wf(),
{
    crate::global::lemma_refs_grow(a, a.heap.sizes(), b.heap.sizes());
}

/// Which collection is wanted.
#[derive(Debug, Clone, Copy, PartialEq, Eq, Structural)]
pub enum HeapCollectMode {
    /// A full one.
    Full,
    /// A full one, if it is due.
    Step,
    /// One of young objects.
    Minor,
}

/// What a collection of young objects starts from: the objects that are old, those that
/// hold something new, and the young objects with finalizers. What an old object refers to is
/// not followed, so one that was touched is left out of `old` and listed in `touched` alone.
pub struct Young {
    pub old: Marks,
    pub touched: Vec<GcRef>,
    pub fins: Vec<FinalizerObject>,
}

impl Young {
    /// Whether all these objects exist.
    pub open spec fn wf(self, z: Sizes) -> bool {
        &&& self.old.fits(z)
        &&& forall|i: int| 0 <= i < self.touched@.len() ==> z.has(#[trigger] self.touched@[i])
        &&& fins_ok(z, self.fins@)
    }
}

/// Copies a list.
pub fn copy_fins(v: &Vec<FinalizerObject>) -> (w: Vec<FinalizerObject>)
    ensures
        w@ == v@,
{
    let mut w: Vec<FinalizerObject> = Vec::new();
    while w.len() < v.len()
        invariant
            w@.len() <= v@.len(),
            w@ == v@.subrange(0, w@.len() as int),
        decreases v@.len() - w@.len(),
    {
        w.push(v[w.len()]);
        assert(w@ =~= v@.subrange(0, w@.len() as int));
    }
    assert(w@ =~= v@);
    w
}

proof fn lemma_due_ok(fs: Seq<FinalizerObject>, s: Set<GcRef>, n: int, z: Sizes)
    requires
        fins_ok(z, fs),
        0 <= n <= fs.len(),
    ensures
        fins_ok(z, due(fs, s, n)),
    decreases n,
{
    if n > 0 {
        lemma_due_ok(fs, s, n - 1, z);
        assert(z.ok(fs[n - 1].spec_value()));
    }
}

impl GlobalState {
    /// Finds out what is alive and settles the books, and frees nothing yet. `start` is
    /// alive from the start. Returns what is alive.
    #[verifier::rlimit(40)]
    #[verifier::spinoff_prover]
    pub fn settle_all(
        &mut self,
        running: &LuaState,
        start: &Marks,
        touched: &Vec<GcRef>,
        fins: &Vec<FinalizerObject>,
    ) -> (marks: Marks)
        requires
            old(self).wf(),
            running.wf(old(self).heap.sizes()),
            start.fits(old(self).heap.sizes()),
            forall|i: int| 0 <= i < touched@.len() ==> old(self).heap.sizes().has(#[trigger] touched@[i]),
            fins_ok(old(self).heap.sizes(), fins@),
        ensures
            final(self).wf(),
            final(self).heap.sizes() == old(self).heap.sizes(),
            marks.fits(final(self).heap.sizes()),
            exists|k: Course| #[trigger]
                settled(*old(self), *running, start@, touched@, fins@, k) && k.b == *final(self) && k.c.alive == marks@,
    {
        let ghost g = *self;
        let f: Found = self.find_alive(running, start, touched, fins);
        let ghost h3 = self.heap;
        let ghost w = choose|w: (Stages, Heap, Heap)|
            {
                &&& #[trigger] collection(g, *running, start@, touched@, fins@, w.0, w.1, w.2, h3)
                &&& f.marks@ == w.0.alive
                &&& f.due@ == due(fins@, w.0.valued, fins@.len() as int)
                &&& f.hits@.len() == g.threads@.len()
                &&& forall|i: int|
                    0 <= i < f.hits@.len() ==> #[trigger] f.hits@[i] == remark_hit(g, w.0.reached, 0, i)
            };
        proof {
            let (c, h1, h2) = choose|c: Stages, h1: Heap, h2: Heap|
                {
                    &&& #[trigger] collection(g, *running, start@, touched@, fins@, c, h1, h2, h3)
                    &&& f.marks@ == c.alive
                    &&& f.due@ == due(fins@, c.valued, fins@.len() as int)
                    &&& f.hits@.len() == g.threads@.len()
                    &&& forall|i: int|
                        0 <= i < f.hits@.len() ==> #[trigger] f.hits@[i] == remark_hit(g, c.reached, 0, i)
                };
            let t = (c, h1, h2);
            assert(collection(g, *running, start@, touched@, fins@, t.0, t.1, t.2, h3));
            lemma_due_ok(fins@, w.0.valued, fins@.len() as int, g.heap.sizes());
        }
        let ghost g3 = *self;
        self.settle_books(&f);
        proof {
            let k = Course { c: w.0, h1: w.1, h2: w.2, h3: h3, hits: f.hits@, b: *self };
            assert(with_heap(g, h3) == g3);
            assert(settled(g, *running, start@, touched@, fins@, k));
        }
        f.marks
    }

    /// Collects: finds out what is alive, settles the books and frees the rest. `start`
    /// is alive from the start.
    pub fn collect(&mut self, running: &LuaState, start: &Marks, touched: &Vec<GcRef>, fins: &Vec<FinalizerObject>)
        requires
            old(self).wf(),
            running.wf(old(self).heap.sizes()),
            start.fits(old(self).heap.sizes()),
            forall|i: int| 0 <= i < touched@.len() ==> old(self).heap.sizes().has(#[trigger] touched@[i]),
            fins_ok(old(self).heap.sizes(), fins@),
        ensures
            final(self).wf(),
            final(self).heap.sizes() == old(self).heap.sizes(),
            exists|k: Course| #[trigger] collected(*old(self), *running, start@, touched@, fins@, k, *final(self)),
    {
        let ghost g = *self;
        let marks: Marks = self.settle_all(running, start, touched, fins);
        let ghost b = *self;
        self.heap.sweep(&marks);
        proof {
            lemma_swept_wf(b, *self, marks@);
            let k = choose|k: Course| #[trigger]
                settled(g, *running, start@, touched@, fins@, k) && k.b == b && k.c.alive == marks@;
            assert(collected(g, *running, start@, touched@, fins@, k, *self));
        }
    }

    /// Collects as wanted. Returns whether a collection took place.
    pub fn collect_via_heap_mode(&mut self, running: &LuaState, mode: HeapCollectMode, young: &Young) -> (ran: bool)
        requires
            old(self).wf(),
            running.wf(old(self).heap.sizes()),
            young.wf(old(self).heap.sizes()),
        ensures
            final(self).wf(),
            final(self).heap.sizes() == old(self).heap.sizes(),
            ran == (mode != HeapCollectMode::Step || old(self).collect_due),
            !ran ==> *final(self) == *old(self),
            ran && mode == HeapCollectMode::Minor ==> exists|k: Course| #[trigger]
                collected(*old(self), *running, young.old@, young.touched@, young.fins@, k, *final(self)),
            ran && mode != HeapCollectMode::Minor ==> exists|k: Course| #[trigger]
                collected(
                    *old(self),
                    *running,
                    Set::empty(),
                    Seq::empty(),
                    old(self).finalizers.pending@,
                    k,
                    *final(self),
                ),
    {
        if mode == HeapCollectMode::Step && !self.collect_due {
            return false;
        }
        if mode == HeapCollectMode::Minor {
            self.collect(running, &young.old, &young.touched, &young.fins);
            return true;
        }
        let start: Marks = Marks::none(&self.heap);
        let touched: Vec<GcRef> = Vec::new();
        let fins: Vec<FinalizerObject> = copy_fins(&self.finalizers.pending);
        assert(touched@ =~= Seq::<GcRef>::empty());
        self.collect(running, &start, &touched, &fins);
        true
    }
}

/// Everything that can be reached from the roots survives, and so does everything whose
/// finalizer is due.
pub proof fn law_reachable_survives(
    g: GlobalState,
    running: LuaState,
    start: Set<GcRef>,
    touched: Seq<GcRef>,
    fins: Seq<FinalizerObject>,
    k: Course,
    g2: GlobalState,
    r: GcRef,
)
    requires
        collected(g, running, start, touched, fins, k, g2),
        g.heap.sizes().has(r),
        is_live(g.heap, r),
        roots(g, running, touched).contains(r) || k.c.reached.contains(r) || fin_refs(
            due(fins, k.c.valued, fins.len() as int),
        ).contains(r),
    ensures
        k.c.alive.contains(r),
        is_live(g2.heap, r),
{
    lemma_stages_grow(g, running, start, touched, fins, k.c, k.h1, k.h2, k.h3);
    lemma_live_kept(g, running, start, touched, fins, k, r);
}

/// Each set of objects that a collection goes through has the ones before.
pub proof fn lemma_stages_grow(
    g: GlobalState,
    running: LuaState,
    start: Set<GcRef>,
    touched: Seq<GcRef>,
    fins: Seq<FinalizerObject>,
    c: Stages,
    h1: Heap,
    h2: Heap,
    h3: Heap,
)
    requires
        collection(g, running, start, touched, fins, c, h1, h2, h3),
    ensures
        start.subset_of(c.alive),
        roots(g, running, touched).subset_of(c.reached),
        c.reached.subset_of(c.remarked),
        c.remarked.subset_of(c.closed),
        c.closed.subset_of(c.settled),
        c.settled.subset_of(c.valued),
        c.valued.subset_of(c.revived),
        fin_refs(due(fins, c.valued, fins.len() as int)).subset_of(c.revived),
        c.revived.subset_of(c.resettled),
        c.resettled.subset_of(c.alive),
{
    lemma_remarked_grows(g, c.reached, 0);
    assert(c.remarked.subset_of(c.remarked.union(crate::gc_threads::closed_values(g, c.remarked))));
    let d = fin_refs(due(fins, c.valued, fins.len() as int));
    assert(c.valued.subset_of(c.valued.union(d)) && d.subset_of(c.valued.union(d)));
}

proof fn lemma_remarked_grows(g: GlobalState, s: Set<GcRef>, i: int)
    ensures
        s.subset_of(remarked(g, s, i)),
    decreases g.threads@.len() - i,
{
    if 0 <= i < g.threads@.len() {
        let t = s.union(crate::gc_threads::open_slots(g.heap, g.threads@[i].state->0));
        lemma_remarked_grows(g, t, i + 1);
        lemma_remarked_grows(g, s, i + 1);
    }
}

/// What is alive at the end and was not freed before is not freed.
pub proof fn lemma_live_kept(
    g: GlobalState,
    running: LuaState,
    start: Set<GcRef>,
    touched: Seq<GcRef>,
    fins: Seq<FinalizerObject>,
    k: Course,
    r: GcRef,
)
    requires
        collection(g, running, start, touched, fins, k.c, k.h1, k.h2, k.h3),
        g.heap.sizes().has(r),
    ensures
        is_live(k.h3, r) == is_live(g.heap, r),
        k.h3.sizes() == g.heap.sizes(),
{
}

/// After a full collection, what survives by being alive refers only to what survives.
pub proof fn law_no_dangling(
    g: GlobalState,
    running: LuaState,
    touched: Seq<GcRef>,
    fins: Seq<FinalizerObject>,
    k: Course,
    g2: GlobalState,
    r: GcRef,
    c: GcRef,
)
    requires
        g.wf(),
        collected(g, running, Set::empty(), touched, fins, k, g2),
        k.c.alive.contains(r),
        holds(with_heap(g, k.h3), r, c),
    ensures
        k.c.alive.contains(c),
        g.heap.sizes().has(c) && is_live(g.heap, c) ==> is_live(g2.heap, c),
{
    assert(followed(Set::<GcRef>::empty(), r));
    if g.heap.sizes().has(c) {
        lemma_live_kept(g, running, Set::empty(), touched, fins, k, c);
    }
}

/// After a collection of young objects, what survives by being alive refers only to what
/// survives, if what is old then refers only to what is old or touched.
pub proof fn law_minor_no_dangling(
    g: GlobalState,
    running: LuaState,
    start: Set<GcRef>,
    touched: Seq<GcRef>,
    fins: Seq<FinalizerObject>,
    k: Course,
    g2: GlobalState,
    r: GcRef,
    c: GcRef,
)
    requires
        g.wf(),
        collected(g, running, start, touched, fins, k, g2),
        forall|x: GcRef, y: GcRef|
            start.contains(x) && !(x is Thread) && #[trigger] holds(with_heap(g, k.h3), x, y) ==> start.contains(y)
                || touched.contains(y),
        k.c.alive.contains(r),
        holds(with_heap(g, k.h3), r, c),
    ensures
        k.c.alive.contains(c),
        g.heap.sizes().has(c) && is_live(g.heap, c) ==> is_live(g2.heap, c),
{
    lemma_stages_grow(g, running, start, touched, fins, k.c, k.h1, k.h2, k.h3);
    if g.heap.sizes().has(c) {
        lemma_live_kept(g, running, start, touched, fins, k, c);
    }
}

/// Whether what old objects refer to is old or touched. Threads are left out: they are always
/// followed.
pub open spec fn covered(g: GlobalState, old: Set<GcRef>, touched: Seq<GcRef>) -> bool {
    forall|x: GcRef, y: GcRef|
        old.contains(x) && !(x is Thread) && #[trigger] holds(g, x, y) ==> old.contains(y) || touched.contains(y)
}

/// A collection of young objects frees nothing that the program can still get at: where what
/// old objects refer to was old or touched, what survives by being alive refers only to what
/// survives.
pub proof fn law_minor_safe(
    g: GlobalState,
    running: LuaState,
    start: Set<GcRef>,
    touched: Seq<GcRef>,
    fins: Seq<FinalizerObject>,
    k: Course,
    g2: GlobalState,
    r: GcRef,
    c: GcRef,
)
    requires
        g.wf(),
        forall|x: GcRef| #[trigger] start.contains(x) ==> g.heap.sizes().has(x),
        collected(g, running, start, touched, fins, k, g2),
        covered(g, start, touched),
        k.c.alive.contains(r),
        holds(with_heap(g, k.h3), r, c),
    ensures
        k.c.alive.contains(c),
        g.heap.sizes().has(c) && is_live(g.heap, c) ==> is_live(g2.heap, c),
{
    lemma_stages_grow(g, running, start, touched, fins, k.c, k.h1, k.h2, k.h3);
    if !followed(start, r) {
        let a1 = with_heap(g, k.h1);
        let a2 = with_heap(g, k.h2);
        let a3 = with_heap(g, k.h3);
        lemma_holds_pruned(a2, k.c.resettled, Prune::Keys, a3, r, c);
        lemma_holds_pruned(a1, k.c.settled, Prune::Values, a2, r, c);
        lemma_holds_closed(g, k.c.remarked, a1, r, c);
        if closed_values(g, k.c.remarked).contains(c) {
            assert(k.c.remarked.union(closed_values(g, k.c.remarked)).contains(c));
        } else if !start.contains(c) {
            assert(roots(g, running, touched).contains(c));
        }
    }
    if g.heap.sizes().has(c) {
        lemma_live_kept(g, running, start, touched, fins, k, c);
    }
}

/// A write to a table lets no reference from old objects to young ones arise behind the
/// collector's back: where what old objects refer to was old or touched, each reference that
/// is to something else now is the table's, and among the barriers is one that names both
/// ends.
pub proof fn law_table_write_told(
    a: GlobalState,
    t: TableId,
    k: LuaValue,
    v: LuaValue,
    early: bool,
    b: GlobalState,
    old: Set<GcRef>,
    touched: Seq<GcRef>,
    x: GcRef,
    y: GcRef,
)
    requires
        stored(a.heap, t, k, v, b.heap),
        b == (GlobalState { heap: b.heap, barriers: b.barriers, ..a }),
        b.barriers@ == write_told(a, t, k, v, early),
        a.heap.sizes().has(x),
        covered(a, old, touched),
        old.contains(x) && !(x is Thread) && holds(b, x, y) && !old.contains(y) && !touched.contains(y),
    ensures
        x == GcRef::Table(t),
        b.barriers@.contains(
            Barrier::Backward { parent: x, child: y, touch: a.spec_is_gen_mode() },
        ),
{
    if x != GcRef::Table(t) {
        if let GcRef::Table(u) = x {
            assert(b.heap.tables.items@[u.0 as int] == a.heap.tables.items@[u.0 as int]);
        }
        assert(holds(a, x, y));
    } else {
        let s = a.heap.tables.items@[t.0 as int];
        let w = b.heap.tables.items@[t.0 as int];
        let told_of = Barrier::Backward { parent: x, child: y, touch: a.spec_is_gen_mode() };
        if w.metatable is Some && y == GcRef::Table(w.metatable->0) {
            assert(holds(a, x, y));
        }
        let i = choose|i: int| 0 <= i < w.entries@.len() && entry_holds(w, #[trigger] w.entries@[i], y);
        reveal(entries_from);
        let e = w.entries@[i];
        if strong_keys(w) && value_ref(e.key) == Some(y) {
            if exists|j: int| 0 <= j < s.entries@.len() && #[trigger] s.entries@[j].key == e.key {
                let j = choose|j: int| 0 <= j < s.entries@.len() && #[trigger] s.entries@[j].key == e.key;
                assert(entry_holds(s, s.entries@[j], y));
                assert(holds(a, x, y));
            }
            assert(value_ref(k) == Some(y));
            assert(key_barrier(a, t, k) == Some(told_of));
        } else {
            if exists|j: int| 0 <= j < s.entries@.len() && #[trigger] s.entries@[j].value == e.value {
                let j = choose|j: int| 0 <= j < s.entries@.len() && #[trigger] s.entries@[j].value == e.value;
                assert(entry_holds(s, s.entries@[j], y));
                assert(holds(a, x, y));
            }
            assert(value_barrier(a, t, v) == Some(told_of));
        }
        lemma_told_has(a, t, k, v, early, told_of);
    }
}

proof fn lemma_told_has(a: GlobalState, t: TableId, k: LuaValue, v: LuaValue, early: bool, b: Barrier)
    requires
        key_barrier(a, t, k) == Some(b) || value_barrier(a, t, v) == Some(b),
    ensures
        write_told(a, t, k, v, early).contains(b),
{
    let bs = write_told(a, t, k, v, early);
    let n = bs.len() as int;
    if key_barrier(a, t, k) is Some && value_barrier(a, t, v) is Some {
        assert(bs[n - 1] == b || bs[n - 2] == b);
    } else {
        assert(bs[n - 1] == b);
    }
}

/// The same for a write to a captured variable.
pub proof fn law_upvalue_write_told(
    s: LuaState,
    a: GlobalState,
    uv: UpValId,
    v: LuaValue,
    s2: LuaState,
    b: GlobalState,
    old: Set<GcRef>,
    touched: Seq<GcRef>,
    x: GcRef,
    y: GcRef,
)
    requires
        uv.0 < a.heap.upvals.items@.len(),
        upval_written(s, a, uv, v, s2, b),
        a.heap.sizes().has(x),
        covered(a, old, touched),
        old.contains(x) && !(x is Thread) && holds(b, x, y) && !old.contains(y) && !touched.contains(y),
    ensures
        x == GcRef::UpVal(uv),
        b.barriers@.contains(
            if a.spec_is_gen_mode() {
                Barrier::ForwardOld { parent: x, child: y }
            } else {
                Barrier::Forward { parent: x, child: y }
            },
        ),
{
    if x != GcRef::UpVal(uv) {
        assert(holds(a, x, y));
    } else {
        if a.heap.upvals.items@[uv.0 as int] is Open {
            assert(holds(a, x, y));
        }
        let n = b.barriers@.len() as int;
        assert(upval_barrier(a, uv, v) is Some);
        assert(b.barriers@[n - 1] == upval_barrier(a, uv, v)->0);
    }
}

/// After a write to a table, what old objects refer to is old or touched again once the table
/// that the barriers name counts as touched and no more as old.
pub proof fn law_table_write_covered(
    a: GlobalState,
    t: TableId,
    k: LuaValue,
    v: LuaValue,
    early: bool,
    b: GlobalState,
    old: Set<GcRef>,
    touched: Seq<GcRef>,
)
    requires
        stored(a.heap, t, k, v, b.heap),
        b == (GlobalState { heap: b.heap, barriers: b.barriers, ..a }),
        b.barriers@ == write_told(a, t, k, v, early),
        forall|x: GcRef| #[trigger] old.contains(x) ==> a.heap.sizes().has(x),
        covered(a, old, touched),
    ensures
        covered(b, old.remove(GcRef::Table(t)), touched.push(GcRef::Table(t))),
{
    let rest = old.remove(GcRef::Table(t));
    let more = touched.push(GcRef::Table(t));
    assert(more[touched.len() as int] == GcRef::Table(t));
    assert forall|x: GcRef, y: GcRef| rest.contains(x) && !(x is Thread) && #[trigger] holds(b, x, y) implies rest.contains(y)
        || more.contains(y) by {
        if !old.contains(y) {
            if !touched.contains(y) {
                law_table_write_told(a, t, k, v, early, b, old, touched, x, y);
            } else {
                let i = choose|i: int| 0 <= i < touched.len() && touched[i] == y;
                assert(more[i] == y);
            }
        }
    }
}

/// After a write to a captured variable it is so once the object that the barrier names counts
/// as touched.
pub proof fn law_upvalue_write_covered(
    s: LuaState,
    a: GlobalState,
    uv: UpValId,
    v: LuaValue,
    s2: LuaState,
    b: GlobalState,
    old: Set<GcRef>,
    touched: Seq<GcRef>,
    c: GcRef,
)
    requires
        uv.0 < a.heap.upvals.items@.len(),
        upval_written(s, a, uv, v, s2, b),
        forall|x: GcRef| #[trigger] old.contains(x) ==> a.heap.sizes().has(x),
        covered(a, old, touched),
        value_ref(v) == Some(c),
    ensures
        covered(b, old, touched.push(c)),
{
    let more = touched.push(c);
    assert(more[touched.len() as int] == c);
    assert forall|x: GcRef, y: GcRef| old.contains(x) && !(x is Thread) && #[trigger] holds(b, x, y) implies old.contains(y)
        || more.contains(y) by {
        if !old.contains(y) {
            if !touched.contains(y) {
                law_upvalue_write_told(s, a, uv, v, s2, b, old, touched, x, y);
                assert(y == c);
            } else {
                let i = choose|i: int| 0 <= i < touched.len() && touched[i] == y;
                assert(more[i] == y);
            }
        }
    }
}

/// What is not alive and not exempt is freed.
pub proof fn law_dead_freed(
    g: GlobalState,
    running: LuaState,
    start: Set<GcRef>,
    touched: Seq<GcRef>,
    fins: Seq<FinalizerObject>,
    k: Course,
    g2: GlobalState,
    r: GcRef,
)
    requires
        collected(g, running, start, touched, fins, k, g2),
        g.heap.sizes().has(r),
        !k.c.alive.contains(r),
        !is_fixed(k.b.heap, r),
    ensures
        !is_live(g2.heap, r),
{
    lemma_live_kept(g, running, start, touched, fins, k, r);
}

/// After a collection no entry of a table with weak values has a dead value, and no
/// entry of a reached table with weak keys has a dead key.
pub proof fn law_weak_clean(
    g: GlobalState,
    running: LuaState,
    start: Set<GcRef>,
    touched: Seq<GcRef>,
    fins: Seq<FinalizerObject>,
    k: Course,
    g2: GlobalState,
    n: int,
    e: TableEntry,
)
    requires
        collected(g, running, start, touched, fins, k, g2),
        0 <= n < g.weak_tables_registry@.len(),
        g.weak_tables_registry@[n].table.0 < g.heap.tables.items@.len(),
        g2.heap.tables.items@[g.weak_tables_registry@[n].table.0 as int].entries@.contains(e),
    ensures
        g.weak_tables_registry@[n].kind != WeakListKind::Ephemeron ==> stays(k.c.alive, e.value),
        g.weak_tables_registry@[n].kind != WeakListKind::WeakValues && k.c.resettled.contains(
            GcRef::Table(g.weak_tables_registry@[n].table),
        ) ==> stays(k.c.alive, e.key),
{
    lemma_stages_grow(g, running, start, touched, fins, k.c, k.h1, k.h2, k.h3);
    let w = g.weak_tables_registry@[n];
    let t = w.table.0 as int;
    let g1 = with_heap(g, k.h1);
    let g2b = with_heap(g, k.h2);
    let x1 = k.h1.tables.items@[t].entries@;
    let x2 = k.h2.tables.items@[t].entries@;
    let x3 = k.h3.tables.items@[t].entries@;
    assert(k.b.heap == k.h3);
    assert(x3.contains(e));
    law_kept(x2, k.c.resettled, Prune::Keys, e);
    assert(x2.contains(e));
    law_kept(x1, k.c.settled, Prune::Values, e);
    if w.kind != WeakListKind::Ephemeron {
        assert(is_pruned_at(g1, k.c.settled, Prune::Values, n, t));
        assert(is_pruned(g1, k.c.settled, Prune::Values, g.weak_tables_registry@.len() as int, t));
        assert(entry_stays(k.c.settled, Prune::Values, e));
    }
    if w.kind != WeakListKind::WeakValues && k.c.resettled.contains(GcRef::Table(w.table)) {
        assert(is_pruned_at(g2b, k.c.resettled, Prune::Keys, n, t));
        assert(is_pruned(g2b, k.c.resettled, Prune::Keys, g.weak_tables_registry@.len() as int, t));
        assert(entry_stays(k.c.resettled, Prune::Keys, e));
    }
}

/// A finalizer that is due is no longer waited for, so that it runs once; every other
/// object that waits for its finalizer goes on waiting.
pub proof fn law_finalized_once(
    g: GlobalState,
    running: LuaState,
    start: Set<GcRef>,
    touched: Seq<GcRef>,
    fins: Seq<FinalizerObject>,
    k: Course,
    g2: GlobalState,
    f: FinalizerObject,
)
    requires
        collected(g, running, start, touched, fins, k, g2),
    ensures
        ({
            let ds = due(fins, k.c.valued, fins.len() as int);
            &&& g2.finalizers.pending@.contains(f) <==> g.finalizers.pending@.contains(f) && !ds.contains(f)
            &&& ds.contains(f) ==> g2.finalizers.to_be_finalized@.contains(f)
        }),
{
    let ds = due(fins, k.c.valued, fins.len() as int);
    let s = g.finalizers.pending@;
    let g1 = with_heap(g, k.h3);
    let keep = pending_keep(g1, ds);
    let r = kept_by(s, keep);
    assert(g2.finalizers.pending@ == r);
    if r.contains(f) {
        let i = choose|i: int| 0 <= i < r.len() && r[i] == f;
        lemma_kept_from(s, keep, i);
        let j = kept_from(keep, s.len() as int, i);
        assert(keep[j] && s[j] == f);
    }
    if s.contains(f) && !ds.contains(f) {
        let j = choose|j: int| 0 <= j < s.len() && s[j] == f;
        assert(keep[j]);
        lemma_kept_has(s, keep, j);
    }
    if ds.contains(f) {
        let i = choose|i: int| 0 <= i < ds.len() && ds[i] == f;
        assert(g2.finalizers.to_be_finalized@[g.finalizers.to_be_finalized@.len() + i] == f);
    }
}

} // verus!
