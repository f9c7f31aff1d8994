//! A collection: what is reached from the roots, what weak tables lose, whose
//! finalizer is due, and what is freed.

use vstd::prelude::*;
use crate::gc_marks::Marks;
use crate::gc_reach::Marker;
use crate::gc_reach::closed;
use crate::gc_reach::followed;
use crate::gc_reach::holds;
use crate::gc_reach::is_reach;
use crate::gc_roots::global_holds;
use crate::gc_roots::lemma_global_holds_ok;
use crate::gc_roots::lemma_thread_holds_ok;
use crate::gc_roots::list_thread;
use crate::gc_roots::thread_holds;
use crate::gc_threads::closed_values;
use crate::gc_threads::lemma_holds_closed;
use crate::gc_threads::remark_hit;
use crate::gc_threads::remarked;
use crate::gc_threads::vars_closed;
use crate::gc_weak::Prune;
use crate::gc_weak::is_settled;
use crate::gc_weak::lemma_holds_pruned;
use crate::gc_weak::staying_strings;
use crate::gc_weak::weak_pruned;
use crate::global::FinalizerObject;
use crate::global::GlobalState;
use crate::heap::GcRef;
use crate::heap::Heap;
use crate::heap::Sizes;
use crate::state::LuaState;
use crate::value::LuaVersion;
use crate::value::ThreadRef;

verus! {

fn copy_bits(v: &Vec<bool>) -> (w: Vec<bool>)
    ensures
        w@ == v@,
{
    let mut w: Vec<bool> = Vec::new();
    while w.len() < v.len()
        invariant
            w@.len() <= v@.len(),
            w@ == v@.subrange(0, w@.len() as int),
        decreases v@.len() - w@.len(),
    {
        w.push(v[w.len()]);
        assert(w@ =~= v@.subrange(0, w@.len() as int));
    }
    assert(w@ =~= v@);
    w
}

fn copy_marks(m: &Marks) -> (n: Marks)
    ensures
        n@ == m@,
        forall|z: Sizes| m.fits(z) ==> #[trigger] n.fits(z),
{
    let n: Marks = Marks {
        strings: copy_bits(&m.strings),
        tables: copy_bits(&m.tables),
        userdata: copy_bits(&m.userdata),
        lclosures: copy_bits(&m.lclosures),
        cclosures: copy_bits(&m.cclosures),
        protos: copy_bits(&m.protos),
        upvals: copy_bits(&m.upvals),
        threads: copy_bits(&m.threads),
    };
    assert(n@ =~= m@);
    n
}

/// Where a collection starts: what the shared state and the running thread hold, and
/// further objects that hold something new.
pub open spec fn roots(g: GlobalState, running: LuaState, touched: Seq<GcRef>) -> Set<GcRef> {
    Set::new(
        |c: GcRef|
            global_holds(g, c) || thread_holds(running, g.heap, g.current_thread_id, c) || touched.contains(c),
    )
}

/// Marking from a larger base that is itself reached changes nothing.
proof fn lemma_base(g: GlobalState, start: Set<GcRef>, a: Set<GcRef>, b: Set<GcRef>, s: Set<GcRef>)
    requires
        is_reach(g, start, a, s),
        start.union(b) == a,
    ensures
        is_reach(g, start, b, s),
{
    assert forall|t: Set<GcRef>| start.subset_of(t) && b.subset_of(t) && #[trigger] closed(g, start, t) implies s.subset_of(
        t,
    ) by {
        assert(a.subset_of(t));
    }
}

impl Marker {
    /// Begins marking with what is alive from the start. Threads among it are followed.
    pub fn begin(g: &GlobalState, start: &Marks) -> (m: Marker)
        requires
            g.wf(),
            start.fits(g.heap.sizes()),
        ensures
            m.wf(*g, start@),
            m.marks@ == start@,
    {
        let marks: Marks = copy_marks(start);
        let mut gray: Vec<GcRef> = Vec::new();
        let mut i: usize = 0;
        while i < start.threads.len()
            invariant
                i <= start.threads@.len(),
                start.fits(g.heap.sizes()),
                forall|k: int|
                    #![trigger gray@[k]]
                    0 <= k < gray@.len() ==> start@.contains(gray@[k]) && gray@[k] is Thread && g.heap.sizes().has(
                        gray@[k],
                    ),
                forall|t: ThreadRef|
                    t.0 < i && start@.contains(GcRef::Thread(t)) ==> #[trigger] gray@.contains(GcRef::Thread(t)),
            decreases start.threads@.len() - i,
        {
            let ghost before = gray@;
            if start.threads[i] {
                gray.push(GcRef::Thread(ThreadRef(i)));
            }
            proof {
                assert forall|t: ThreadRef| t.0 < i + 1 && start@.contains(GcRef::Thread(t)) implies #[trigger] gray@.contains(
                    GcRef::Thread(t),
                ) by {
                    if t.0 < i {
                        assert(before.contains(GcRef::Thread(t)));
                        let k = choose|k: int| 0 <= k < before.len() && before[k] == GcRef::Thread(t);
                        assert(gray@[k] == GcRef::Thread(t));
                    } else {
                        assert(t == ThreadRef(i));
                        assert(gray@[gray@.len() - 1] == GcRef::Thread(t));
                    }
                }
            }
            i = i + 1;
        }
        let m: Marker = Marker { marks: marks, gray: gray };
        proof {
            assert forall|r: GcRef, c: GcRef|
                m.marks@.contains(r) && followed(start@, r) && !m.gray@.contains(r) && !Set::<GcRef>::empty().contains(
                    r,
                ) && #[trigger] holds(*g, r, c) implies m.marks@.contains(c) by {
                if let GcRef::Thread(t) = r {
                    assert(t.0 < start.threads@.len());
                    assert(m.gray@.contains(GcRef::Thread(t)));
                }
            }
        }
        m
    }

    /// Marks what is reached from the roots.
    pub fn mark_roots(&mut self, g: &GlobalState, start: &Marks, running: &LuaState, touched: &Vec<GcRef>)
        requires
            g.wf(),
            running.wf(g.heap.sizes()),
            old(self).wf(*g, start@),
            old(self).marks@ == start@,
            forall|i: int| 0 <= i < touched@.len() ==> g.heap.sizes().has(#[trigger] touched@[i]),
        ensures
            final(self).wf(*g, start@),
            final(self).gray@.len() == 0,
            is_reach(*g, start@, roots(*g, *running, touched@), final(self).marks@),
    {
        let mut list: Vec<GcRef> = Vec::new();
        g.list_roots(&mut list);
        let ghost a = list@;
        list_thread(&mut list, running, &g.heap, g.current_thread_id);
        let ghost b = list@;
        proof {
            assert forall|c: GcRef| #[trigger] a.contains(c) <==> global_holds(*g, c) by {}
            assert forall|c: GcRef| #[trigger] b.contains(c) <==> a.contains(c) || thread_holds(
                *running,
                g.heap,
                g.current_thread_id,
                c,
            ) by {}
            assert forall|i: int| 0 <= i < list@.len() implies g.heap.sizes().has(#[trigger] list@[i]) by {
                assert(b.contains(list@[i]));
                if a.contains(list@[i]) {
                    lemma_global_holds_ok(*g, list@[i]);
                } else {
                    lemma_thread_holds_ok(*running, g.heap, g.current_thread_id, list@[i]);
                }
            }
        }
        self.mark_all(g, start, &list);
        self.mark_all(g, start, touched);
        let ghost base = self.marks@;
        self.drain(g, start);
        proof {
            let rs = roots(*g, *running, touched@);
            assert forall|c: GcRef| base.contains(c) <==> start@.union(rs).contains(c) by {
                assert(list@.to_set().contains(c) <==> list@.contains(c));
                assert(touched@.to_set().contains(c) <==> touched@.contains(c));
                assert(b.contains(c) <==> a.contains(c) || thread_holds(*running, g.heap, g.current_thread_id, c));
                assert(a.contains(c) <==> global_holds(*g, c));
            }
            assert(start@.union(rs) =~= base);
            lemma_base(*g, start@, base, rs, self.marks@);
        }
    }
}

/// The object with a finalizer, as an object.
pub open spec fn fin_ref(f: FinalizerObject) -> GcRef {
    match f {
        FinalizerObject::Table(t) => GcRef::Table(t),
        FinalizerObject::UserData(u) => GcRef::UserData(u),
    }
}

/// Those of the first `n` objects with finalizers that are not reached, each once, in
/// order: their finalizers are due.
pub open spec fn due(fs: Seq<FinalizerObject>, s: Set<GcRef>, n: int) -> Seq<FinalizerObject>
    decreases n,
{
    if n <= 0 {
        Seq::empty()
    } else {
        let ds = due(fs, s, n - 1);
        let f = fs[n - 1];
        if s.contains(fin_ref(f)) || ds.contains(f) {
            ds
        } else {
            ds.push(f)
        }
    }
}

/// An object's finalizer is due exactly where the object has one and is not reached.
pub proof fn law_due(fs: Seq<FinalizerObject>, s: Set<GcRef>, n: int, f: FinalizerObject)
    requires
        0 <= n <= fs.len(),
    ensures
        due(fs, s, n).contains(f) <==> fs.subrange(0, n).contains(f) && !s.contains(fin_ref(f)),
    decreases n,
{
    if n > 0 {
        law_due(fs, s, n - 1, f);
        let ds = due(fs, s, n - 1);
        let g = fs[n - 1];
        let a = fs.subrange(0, n - 1);
        let b = fs.subrange(0, n);
        assert(b =~= a.push(g));
        assert(b.contains(f) <==> a.contains(f) || f == g) by {
            if a.contains(f) {
                let i = choose|i: int| 0 <= i < a.len() && a[i] == f;
                assert(b[i] == f);
            }
            assert(b[n - 1] == g);
        }
        let es = ds.push(g);
        assert(es.contains(f) <==> ds.contains(f) || f == g) by {
            if ds.contains(f) {
                let i = choose|i: int| 0 <= i < ds.len() && ds[i] == f;
                assert(es[i] == f);
            }
            assert(es[es.len() - 1] == g);
        }
        if s.contains(fin_ref(g)) {
        } else if ds.contains(g) {
        } else {
            assert(due(fs, s, n) == es);
        }
    } else {
        assert(fs.subrange(0, n) =~= Seq::<FinalizerObject>::empty());
    }
}

/// The objects among those with finalizers.
pub open spec fn fin_refs(fs: Seq<FinalizerObject>) -> Set<GcRef> {
    Set::new(|c: GcRef| exists|i: int| 0 <= i < fs.len() && c == fin_ref(#[trigger] fs[i]))
}

fn ref_of_fin(f: FinalizerObject) -> (r: GcRef)
    ensures
        r == fin_ref(f),
{
    match f {
        FinalizerObject::Table(t) => GcRef::Table(t),
        FinalizerObject::UserData(u) => GcRef::UserData(u),
    }
}

impl Marker {
    /// Marks the objects that are not reached and have finalizers, and all that they refer
    /// to. Returns those objects.
    pub fn revive(&mut self, g: &GlobalState, start: &Marks, fs: &Vec<FinalizerObject>) -> (ds: Vec<FinalizerObject>)
        requires
            g.wf(),
            old(self).wf(*g, start@),
            old(self).gray@.len() == 0,
            crate::global::fins_ok(g.heap.sizes(), fs@),
        ensures
            final(self).wf(*g, start@),
            final(self).gray@.len() == 0,
            ds@ == due(fs@, old(self).marks@, fs@.len() as int),
            is_reach(*g, start@, old(self).marks@.union(fin_refs(ds@)), final(self).marks@),
    {
        let ghost s = self.marks@;
        let mut ds: Vec<FinalizerObject> = Vec::new();
        let mut i: usize = 0;
        assert(self.marks@ =~= s.union(fin_refs(ds@)));
        while i < fs.len()
            invariant
                i <= fs@.len(),
                g.wf(),
                self.wf(*g, start@),
                crate::global::fins_ok(g.heap.sizes(), fs@),
                ds@ == due(fs@, s, i as int),
                self.marks@ == s.union(fin_refs(ds@)),
            decreases fs@.len() - i,
        {
            let f: FinalizerObject = fs[i];
            let r: GcRef = ref_of_fin(f);
            assert(g.heap.sizes().ok(fs@[i as int].spec_value()));
            let ghost before = ds@;
            proof {
                assert(fin_refs(before).contains(r) == before.contains(f)) by {
                    if fin_refs(before).contains(r) {
                        let k = choose|k: int| 0 <= k < before.len() && r == fin_ref(#[trigger] before[k]);
                        assert(before[k] == f);
                    }
                    if before.contains(f) {
                        let k = choose|k: int| 0 <= k < before.len() && before[k] == f;
                        assert(fin_ref(before[k]) == r);
                    }
                }
                assert(self.marks@.contains(r) == self.marks.has(r));
                assert(self.marks.has(r) == (s.contains(r) || before.contains(f)));
            }
            if !self.marks.is_marked(r) {
                self.mark(g, start, r);
                ds.push(f);
                proof {
                    assert forall|c: GcRef| fin_refs(ds@).contains(c) <==> fin_refs(before).contains(c) || c == r by {
                        if fin_refs(before).contains(c) {
                            let k = choose|k: int| 0 <= k < before.len() && c == fin_ref(#[trigger] before[k]);
                            assert(ds@[k] == before[k]);
                        }
                        assert(ds@[ds@.len() - 1] == f);
                        if fin_refs(ds@).contains(c) {
                            let k = choose|k: int| 0 <= k < ds@.len() && c == fin_ref(#[trigger] ds@[k]);
                            if k < before.len() {
                                assert(before[k] == ds@[k]);
                            }
                        }
                    }
                    assert(self.marks@ =~= s.union(fin_refs(ds@)));
                }
            }
            proof {
                assert(fs@[i + 1 - 1] == f);
                assert(due(fs@, s, i + 1) == (if s.contains(r) || before.contains(f) {
                    before
                } else {
                    before.push(f)
                }));
            }
            i = i + 1;
        }
        self.drain(g, start);
        ds
    }
}

/// The sets of objects that a collection goes through.
pub struct Stages {
    /// What is reached from the roots.
    pub reached: Set<GcRef>,
    /// With what open variables of coroutines that are not reached hold.
    pub remarked: Set<GcRef>,
    /// With what variables were closed over.
    pub closed: Set<GcRef>,
    /// With what tables with weak keys hold.
    pub settled: Set<GcRef>,
    /// With the strings that stay in weak tables.
    pub valued: Set<GcRef>,
    /// With the objects whose finalizers are due.
    pub revived: Set<GcRef>,
    /// With what tables with weak keys hold now.
    pub resettled: Set<GcRef>,
    /// With the strings that stay in weak tables now: all that is alive.
    pub alive: Set<GcRef>,
}

/// The shared state with another store.
pub open spec fn with_heap(g: GlobalState, h: Heap) -> GlobalState {
    GlobalState { heap: h, ..g }
}

/// Whether a collection went through these sets of objects and stores. Open variables
/// are closed first, dead values leave weak tables before finalizers revive anything,
/// and dead keys leave after. Tables with weak keys hold all their values in 5.1.
pub open spec fn collection(
    g: GlobalState,
    running: LuaState,
    start: Set<GcRef>,
    touched: Seq<GcRef>,
    fins: Seq<FinalizerObject>,
    c: Stages,
    h1: Heap,
    h2: Heap,
    h3: Heap,
) -> bool {
    let g1 = with_heap(g, h1);
    let g2 = with_heap(g, h2);
    let g3 = with_heap(g, h3);
    &&& is_reach(g, start, roots(g, running, touched), c.reached)
    &&& is_reach(g, start, remarked(g, c.reached, 0), c.remarked)
    &&& vars_closed(g, c.remarked, h1)
    &&& is_reach(g1, start, c.remarked.union(closed_values(g, c.remarked)), c.closed)
    &&& is_settled(g1, g.lua_version == LuaVersion::V51, start, c.closed, c.settled)
    &&& weak_pruned(g1, c.settled, Prune::Values, h2)
    &&& is_reach(g2, start, c.settled.union(staying_strings(g1, c.settled, Prune::Values)), c.valued)
    &&& is_reach(g2, start, c.valued.union(fin_refs(due(fins, c.valued, fins.len() as int))), c.revived)
    &&& is_settled(g2, g.lua_version == LuaVersion::V51, start, c.revived, c.resettled)
    &&& weak_pruned(g2, c.resettled, Prune::Keys, h3)
    &&& is_reach(g3, start, c.resettled.union(staying_strings(g2, c.resettled, Prune::Keys)), c.alive)
}

/// What a collection found out.
pub struct Found {
    /// What is alive.
    pub marks: Marks,
    /// The coroutines whose open variables had another look.
    pub hits: Vec<bool>,
    /// The objects whose finalizers are due.
    pub due: Vec<FinalizerObject>,
}

impl GlobalState {
    /// Finds out what is alive, and does to weak tables and open variables what follows
    /// from that.
    #[verifier::rlimit(80)]
    #[verifier::spinoff_prover]
    pub fn find_alive(
        &mut self,
        running: &LuaState,
        start: &Marks,
        touched: &Vec<GcRef>,
        fins: &Vec<FinalizerObject>,
    ) -> (f: Found)
        requires
            old(self).wf(),
            running.wf(old(self).heap.sizes()),
            start.fits(old(self).heap.sizes()),
            forall|i: int| 0 <= i < touched@.len() ==> old(self).heap.sizes().has(#[trigger] touched@[i]),
            crate::global::fins_ok(old(self).heap.sizes(), fins@),
        ensures
            final(self).wf(),
            *final(self) == (GlobalState { heap: final(self).heap, ..*old(self) }),
            final(self).heap.sizes() == old(self).heap.sizes(),
            f.marks.fits(final(self).heap.sizes()),
            exists|c: Stages, h1: Heap, h2: Heap|
                {
                    &&& #[trigger] collection(
                        *old(self),
                        *running,
                        start@,
                        touched@,
                        fins@,
                        c,
                        h1,
                        h2,
                        final(self).heap,
                    )
                    &&& f.marks@ == c.alive
                    &&& f.due@ == due(fins@, c.valued, fins@.len() as int)
                    &&& f.hits@.len() == old(self).threads@.len()
                    &&& forall|i: int|
                        0 <= i < f.hits@.len() ==> #[trigger] f.hits@[i] == remark_hit(*old(self), c.reached, 0, i)
                },
    {
        let ghost g = *self;
        let legacy: bool = self.lua_version == LuaVersion::V51;
        let mut m: Marker = Marker::begin(self, start);
        m.mark_roots(self, start, running, touched);
        let ghost reached = m.marks@;
        let hits: Vec<bool> = m.remark_legacy_open_upvalues(self, start);
        m.drain(self, start);
        let ghost marked2 = m.marks@;
        let vals: Vec<GcRef> = self.close_lost_upvalues(&m.marks);
        let ghost g1 = *self;
        proof {
            assert forall|r: GcRef, c: GcRef|
                marked2.contains(r) && followed(start@, r) && #[trigger] holds(g1, r, c) implies marked2.contains(c)
                || vals@.contains(c) by {
                lemma_marked_ok(m, g, r);
                lemma_holds_closed(g, marked2, g1, r, c);
                assert(!m.gray@.contains(r));
                if closed_values(g, marked2).contains(c) {
                    assert(vals@.contains(c));
                }
            }
            lemma_to_set(vals@, closed_values(g, marked2));
        }
        m.go_on(self, start, &vals);
        let ghost closed3 = m.marks@;
        m.settle(self, legacy, start);
        let ghost settled = m.marks@;
        let strs: Vec<GcRef> = self.prune_weak(&m.marks, Prune::Values);
        let ghost g2 = *self;
        proof {
            lemma_after_prune(m, g1, settled, Prune::Values, g2, start@);
            lemma_to_set(strs@, staying_strings(g1, settled, Prune::Values));
        }
        m.go_on(self, start, &strs);
        let ghost valued = m.marks@;
        let ds: Vec<FinalizerObject> = m.revive(self, start, fins);
        let ghost revived = m.marks@;
        m.settle(self, legacy, start);
        let ghost resettled = m.marks@;
        let strs2: Vec<GcRef> = self.prune_weak(&m.marks, Prune::Keys);
        let ghost g3 = *self;
        proof {
            lemma_after_prune(m, g2, resettled, Prune::Keys, g3, start@);
            lemma_to_set(strs2@, staying_strings(g2, resettled, Prune::Keys));
        }
        m.go_on(self, start, &strs2);
        proof {
            let c = Stages {
                reached: reached,
                remarked: marked2,
                closed: closed3,
                settled: settled,
                valued: valued,
                revived: revived,
                resettled: resettled,
                alive: m.marks@,
            };
            assert(with_heap(g, g1.heap) == g1 && with_heap(g, g2.heap) == g2 && with_heap(g, g3.heap) == g3);
            assert(collection(g, *running, start@, touched@, fins@, c, g1.heap, g2.heap, g3.heap));
        }
        Found { marks: m.marks, hits: hits, due: ds }
    }
}

/// What is marked exists.
proof fn lemma_marked_ok(m: Marker, g: GlobalState, r: GcRef)
    requires
        m.marks.fits(g.heap.sizes()),
        m.marks@.contains(r),
    ensures
        g.heap.sizes().has(r),
{
}

/// A list with the elements of a set is that set.
pub proof fn lemma_to_set(xs: Seq<GcRef>, s: Set<GcRef>)
    requires
        forall|c: GcRef| #[trigger] xs.contains(c) <==> s.contains(c),
    ensures
        xs.to_set() == s,
{
    assert forall|c: GcRef| xs.to_set().contains(c) <==> s.contains(c) by {
        assert(xs.to_set().contains(c) <==> xs.contains(c));
    }
    assert(xs.to_set() =~= s);
}

/// Marks stay in order when entries leave tables.
pub proof fn lemma_after_prune(m: Marker, g: GlobalState, s: Set<GcRef>, how: Prune, b: GlobalState, start: Set<GcRef>)
    requires
        m.wf(g, start),
        m.gray@.len() == 0,
        b == (GlobalState { heap: b.heap, ..g }),
        b.heap.sizes() == g.heap.sizes(),
        weak_pruned(g, s, how, b.heap),
    ensures
        m.basic(b, start),
        forall|r: GcRef, c: GcRef|
            m.marks@.contains(r) && followed(start, r) && #[trigger] holds(b, r, c) ==> m.marks@.contains(c),
{
    assert forall|r: GcRef, c: GcRef| m.marks@.contains(r) && followed(start, r) && #[trigger] holds(b, r, c) implies
        m.marks@.contains(c) by {
        lemma_marked_ok(m, g, r);
        lemma_holds_pruned(g, s, how, b, r, c);
        assert(!m.gray@.contains(r));
    }
}

} // verus!
