//! What a collection does about coroutines that are not reached: their open variables.

use vstd::prelude::*;
use crate::gc_marks::Marks;
use crate::gc_marks::list_value;
use crate::gc_reach::Marker;
use crate::gc_reach::followed;
use crate::gc_reach::holds;
use crate::gc_reach::is_entry;
use crate::gc_reach::is_reach;
use crate::gc_roots::thread_holds;
use crate::global::GlobalState;
use crate::global::lemma_refs_grow;
use crate::heap::GcRef;
use crate::heap::Heap;
use crate::heap::UpVal;
use crate::heap::value_ref;
use crate::state::LuaState;
use crate::value::LuaValue;
use crate::value::LuaVersion;
use crate::value::ThreadRef;
use crate::value::UpValId;

verus! {

/// Whether a registered coroutine is not reached, and its state is at hand.
pub open spec fn is_lost(g: GlobalState, s: Set<GcRef>, i: int) -> bool {
    &&& is_entry(g, i, g.threads@[i].value)
    &&& !s.contains(GcRef::Thread(g.threads@[i].value))
}

/// Whether the open variables of a coroutine get another look: up to 5.3, where the
/// coroutine is not reached and one of its open variables was set since the last
/// collection.
pub open spec fn is_remarked(g: GlobalState, s: Set<GcRef>, i: int) -> bool {
    &&& g.lua_version == LuaVersion::V51 || g.lua_version == LuaVersion::V52 || g.lua_version == LuaVersion::V53
    &&& is_lost(g, s, i)
    &&& g.threads@[i].state->0.openupval@.len() > 0
    &&& g.threads@[i].state->0.legacy_open_upval_touched
}

/// Whether an open variable of a thread stands in a slot that holds an object.
pub open spec fn open_slot_holds(h: Heap, s: LuaState, j: int, c: GcRef) -> bool {
    &&& 0 <= j < s.openupval@.len()
    &&& h.upvals.items@[s.openupval@[j].0 as int] matches UpVal::Open { thread, idx } && idx.0 < s.stack@.len()
        && value_ref(s.stack@[idx.0 as int]) == Some(c)
}

/// The objects in the slots of a thread's open variables.
pub open spec fn open_slots(h: Heap, s: LuaState) -> Set<GcRef> {
    Set::new(|c: GcRef| exists|j: int| #[trigger] open_slot_holds(h, s, j, c))
}

/// What is marked when coroutines from the `i`-th on have had another look, one after
/// the other.
pub open spec fn remarked(g: GlobalState, s: Set<GcRef>, i: int) -> Set<GcRef>
    decreases g.threads@.len() - i,
{
    if i < 0 || i >= g.threads@.len() {
        s
    } else if is_remarked(g, s, i) {
        remarked(g, s.union(open_slots(g.heap, g.threads@[i].state->0)), i + 1)
    } else {
        remarked(g, s, i + 1)
    }
}

/// Whether the `k`-th coroutine has another look, in a pass that is at the `i`-th.
pub open spec fn remark_hit(g: GlobalState, s: Set<GcRef>, i: int, k: int) -> bool
    decreases g.threads@.len() - i,
{
    if i < 0 || i >= g.threads@.len() {
        false
    } else if k == i {
        is_remarked(g, s, i)
    } else if is_remarked(g, s, i) {
        remark_hit(g, s.union(open_slots(g.heap, g.threads@[i].state->0)), i + 1, k)
    } else {
        remark_hit(g, s, i + 1, k)
    }
}

impl GlobalState {
    /// Whether a registered coroutine is not reached, and its state is at hand.
    fn lost(&self, marks: &Marks, i: usize) -> (r: bool)
        requires
            self.wf(),
            i < self.threads@.len(),
        ensures
            r == is_lost(*self, marks@, i as int),
    {
        assert(crate::global::threads_ok(self.heap.sizes(), self.threads@));
        let t: ThreadRef = self.threads[i].value;
        assert(self.threads@[i as int].value.0 < self.heap.sizes().threads);
        self.threads[i].state.is_some() && self.heap.threads.items[t.0].id == self.threads[i].id
            && !marks.is_marked(GcRef::Thread(t))
    }

    fn list_open_slots(&self, s: &LuaState) -> (out: Vec<GcRef>)
        requires
            self.wf(),
            s.wf(self.heap.sizes()),
        ensures
            forall|c: GcRef| #[trigger] out@.contains(c) <==> open_slots(self.heap, *s).contains(c),
            forall|k: int| 0 <= k < out@.len() ==> self.heap.sizes().has(#[trigger] out@[k]),
    {
        let mut out: Vec<GcRef> = Vec::new();
        let mut j: usize = 0;
        while j < s.openupval.len()
            invariant
                j <= s.openupval@.len(),
                self.wf(),
                s.wf(self.heap.sizes()),
                forall|c: GcRef| #[trigger]
                    out@.contains(c) <==> exists|k: int| k < j && #[trigger] open_slot_holds(self.heap, *s, k, c),
            decreases s.openupval@.len() - j,
        {
            let ghost before = out@;
            let u: UpValId = s.openupval[j];
            assert(s.openupval@[j as int].0 < self.heap.sizes().upvals);
            if let UpVal::Open { thread: _, idx } = self.heap.upvals.items[u.0] {
                if (idx.0 as usize) < s.stack.len() {
                    list_value(&mut out, &s.stack[idx.0 as usize]);
                }
            }
            proof {
                assert forall|c: GcRef| #[trigger] out@.contains(c) <==> exists|k: int|
                    k < j + 1 && #[trigger] open_slot_holds(self.heap, *s, k, c) by {
                    assert(out@.contains(c) <==> before.contains(c) || open_slot_holds(self.heap, *s, j as int, c));
                }
            }
            j = j + 1;
        }
        proof {
            assert forall|c: GcRef| #[trigger] out@.contains(c) <==> open_slots(self.heap, *s).contains(c) by {
                if open_slots(self.heap, *s).contains(c) {
                    let k = choose|k: int| #[trigger] open_slot_holds(self.heap, *s, k, c);
                    assert(k < s.openupval@.len());
                }
            }
            assert forall|k: int| 0 <= k < out@.len() implies self.heap.sizes().has(#[trigger] out@[k]) by {
                let c = out@[k];
                assert(out@.contains(c));
                let j = choose|j: int| #[trigger] open_slot_holds(self.heap, *s, j, c);
                if let UpVal::Open { thread, idx } = self.heap.upvals.items@[s.openupval@[j].0 as int] {
                    assert(self.heap.sizes().ok(s.stack@[idx.0 as int]));
                }
            }
        }
        out
    }
}

impl Marker {
    /// Gives the open variables of coroutines that are not reached another look, up to
    /// 5.3. Returns which coroutines had one.
    #[verifier::rlimit(40)]
    pub fn remark_legacy_open_upvalues(&mut self, g: &GlobalState, start: &Marks) -> (hits: Vec<bool>)
        requires
            g.wf(),
            old(self).wf(*g, start@),
        ensures
            final(self).wf(*g, start@),
            final(self).marks@ == remarked(*g, old(self).marks@, 0),
            hits@.len() == g.threads@.len(),
            forall|i: int|
                0 <= i < hits@.len() ==> #[trigger] hits@[i] == remark_hit(*g, old(self).marks@, 0, i),
    {
        let legacy: bool = match g.lua_version {
            LuaVersion::V51 | LuaVersion::V52 | LuaVersion::V53 => true,
            _ => false,
        };
        let ghost s0 = self.marks@;
        let mut hits: Vec<bool> = Vec::new();
        let mut i: usize = 0;
        while i < g.threads.len()
            invariant
                i <= g.threads@.len(),
                g.wf(),
                self.wf(*g, start@),
                legacy == (g.lua_version == LuaVersion::V51 || g.lua_version == LuaVersion::V52 || g.lua_version
                    == LuaVersion::V53),
                remarked(*g, s0, 0) == remarked(*g, self.marks@, i as int),
                hits@.len() == i,
                forall|k: int|
                    k >= i ==> #[trigger] remark_hit(*g, s0, 0, k) == remark_hit(*g, self.marks@, i as int, k),
                forall|k: int| 0 <= k < i ==> #[trigger] hits@[k] == remark_hit(*g, s0, 0, k),
            decreases g.threads@.len() - i,
        {
            let ghost s1 = self.marks@;
            let mut hit: bool = false;
            if legacy && g.lost(&self.marks, i) {
                if let Some(s) = &g.threads[i].state {
                    if s.openupval.len() > 0 && s.legacy_open_upval_touched {
                        hit = true;
                        assert(crate::global::threads_ok(g.heap.sizes(), g.threads@));
                        assert(g.threads@[i as int].state->0.wf(g.heap.sizes()));
                        let list: Vec<GcRef> = g.list_open_slots(s);
                        self.mark_all(g, start, &list);
                        proof {
                            assert(list@.to_set() =~= open_slots(g.heap, *s)) by {
                                assert forall|c: GcRef| list@.to_set().contains(c) <==> open_slots(
                                    g.heap,
                                    *s,
                                ).contains(c) by {
                                    assert(list@.to_set().contains(c) <==> list@.contains(c));
                                }
                            }
                        }
                    }
                }
            }
            hits.push(hit);
            proof {
                assert(hit == is_remarked(*g, s1, i as int));
                assert(remark_hit(*g, s0, 0, i as int) == remark_hit(*g, s1, i as int, i as int));
            }
            i = i + 1;
        }
        hits
    }
}

/// Whether the `j`-th open variable of the `i`-th coroutine is to be closed: the
/// coroutine is not reached, but the variable is, and it is the coroutine's own.
pub open spec fn closes_at(g: GlobalState, s: Set<GcRef>, i: int, j: int) -> bool {
    &&& is_lost(g, s, i)
    &&& 0 <= j < g.threads@[i].state->0.openupval@.len()
    &&& s.contains(GcRef::UpVal(g.threads@[i].state->0.openupval@[j]))
    &&& g.heap.upvals.items@[g.threads@[i].state->0.openupval@[j].0 as int] matches UpVal::Open { thread, idx }
        && thread == g.threads@[i].id
}

/// An open variable of a coroutine.
pub open spec fn open_var(g: GlobalState, i: int, j: int) -> UpValId {
    g.threads@[i].state->0.openupval@[j]
}

/// What an open variable of a coroutine holds.
pub open spec fn open_value(g: GlobalState, i: int, j: int) -> LuaValue {
    match g.heap.upvals.items@[open_var(g, i, j).0 as int] {
        UpVal::Open { thread, idx } => g.threads@[i].state->0.at(idx.0 as int),
        UpVal::Closed(v) => v,
    }
}

/// Whether a place is before another.
pub open spec fn before(i: int, j: int, ni: int, nj: int) -> bool {
    i < ni || i == ni && j < nj
}

/// Whether the variables up to a place that are to be closed are closed over their
/// values, and no others changed.
pub open spec fn closed_up_to(g: GlobalState, s: Set<GcRef>, ni: int, nj: int, h: Heap) -> bool {
    &&& h == (Heap { upvals: h.upvals, ..g.heap })
    &&& h.upvals == (crate::heap::Arena { items: h.upvals.items, ..g.heap.upvals })
    &&& h.upvals.items@.len() == g.heap.upvals.items@.len()
    &&& forall|i: int, j: int| #[trigger]
        closes_at(g, s, i, j) && before(i, j, ni, nj) ==> h.upvals.items@[open_var(g, i, j).0 as int]
            == UpVal::Closed(open_value(g, i, j))
    &&& forall|u: int|
        #![trigger h.upvals.items@[u]]
        0 <= u < h.upvals.items@.len() ==> h.upvals.items@[u] == g.heap.upvals.items@[u] || exists|i: int, j: int|
            before(i, j, ni, nj) && #[trigger] closes_at(g, s, i, j) && open_var(g, i, j).0 == u
}

/// Whether exactly the variables that are to be closed are closed over their values.
pub open spec fn vars_closed(g: GlobalState, s: Set<GcRef>, h: Heap) -> bool {
    closed_up_to(g, s, g.threads@.len() as int, 0, h)
}

/// The objects that variables were closed over.
pub open spec fn closed_values(g: GlobalState, s: Set<GcRef>) -> Set<GcRef> {
    Set::new(
        |c: GcRef| exists|i: int, j: int| #[trigger] closes_at(g, s, i, j) && value_ref(open_value(g, i, j)) == Some(c),
    )
}

/// Two coroutines that own the same variable are one.
proof fn lemma_owner(g: GlobalState, s: Set<GcRef>, i: int, j: int, k: int, l: int)
    requires
        g.wf(),
        closes_at(g, s, i, j),
        closes_at(g, s, k, l),
        open_var(g, i, j) == open_var(g, k, l),
    ensures
        i == k,
        open_value(g, i, j) == open_value(g, k, l),
{
    assert(crate::global::threads_ok(g.heap.sizes(), g.threads@));
    if i < k {
        assert(g.threads@[i].id != g.threads@[k].id);
    } else if k < i {
        assert(g.threads@[k].id != g.threads@[i].id);
    }
}

/// Closing variables keeps the shared state in order.
proof fn lemma_closed_wf(a: GlobalState, b: GlobalState)
    requires
        a.wf(),
        b == (GlobalState { heap: b.heap, ..a }),
        b.heap == (Heap { upvals: b.heap.upvals, ..a.heap }),
        b.heap.upvals == (crate::heap::Arena { items: b.heap.upvals.items, ..a.heap.upvals }),
        b.heap.upvals.items@.len() == a.heap.upvals.items@.len(),
        forall|u: int|
            0 <= u < b.heap.upvals.items@.len() ==> a.heap.sizes().ok_upval(#[trigger] b.heap.upvals.items@[u]),
    ensures
        b.wf(),
        b.heap.sizes() == a.heap.sizes(),
{
    assert(b.heap.sizes() == a.heap.sizes());
    assert(b.heap.wf());
    lemma_refs_grow(a, a.heap.sizes(), b.heap.sizes());
}

impl GlobalState {
    /// Closes the variables of coroutines that are not reached over their values, where
    /// the variables are reached. Lists the values.
    #[verifier::rlimit(60)]
    #[verifier::spinoff_prover]
    pub fn close_lost_upvalues(&mut self, marks: &Marks) -> (out: Vec<GcRef>)
        requires
            old(self).wf(),
        ensures
            final(self).wf(),
            *final(self) == (GlobalState { heap: final(self).heap, ..*old(self) }),
            final(self).heap.sizes() == old(self).heap.sizes(),
            vars_closed(*old(self), marks@, final(self).heap),
            forall|c: GcRef| #[trigger] out@.contains(c) <==> closed_values(*old(self), marks@).contains(c),
            forall|k: int| 0 <= k < out@.len() ==> final(self).heap.sizes().has(#[trigger] out@[k]),
    {
        let ghost g0 = *self;
        let ghost s = marks@;
        let mut out: Vec<GcRef> = Vec::new();
        let mut i: usize = 0;
        while i < self.threads.len()
            invariant
                i <= self.threads@.len(),
                g0 == *old(self),
                g0.wf(),
                s == marks@,
                self.wf(),
                *self == (GlobalState { heap: self.heap, ..g0 }),
                closed_up_to(g0, s, i as int, 0, self.heap),
                forall|c: GcRef| #[trigger]
                    out@.contains(c) <==> exists|k: int, l: int|
                        before(k, l, i as int, 0) && #[trigger] closes_at(g0, s, k, l) && value_ref(open_value(g0, k, l))
                            == Some(c),
            decreases self.threads@.len() - i,
        {
            if self.lost(marks, i) {
                assert(is_lost(g0, s, i as int));
                self.close_lost_of(marks, i, &mut out, Ghost(g0));
            } else {
                assert(!is_lost(g0, s, i as int));
            }
            proof {
                let n = g0.threads@[i as int].state->0.openupval@.len() as int;
                assert forall|k: int, l: int| #[trigger] closes_at(g0, s, k, l) implies before(k, l, i + 1, 0) == (
                before(k, l, i as int, 0) || k == i) by {}
                assert forall|k: int, l: int| #[trigger] closes_at(g0, s, k, l) && k == i implies before(
                    k,
                    l,
                    i as int,
                    n,
                ) by {}
                assert(closed_up_to(g0, s, i + 1, 0, self.heap));
            }
            i = i + 1;
        }
        proof {
            let n = g0.threads@.len() as int;
            assert forall|c: GcRef| #[trigger] out@.contains(c) <==> closed_values(g0, s).contains(c) by {
                if closed_values(g0, s).contains(c) {
                    let (k, l) = choose|k: int, l: int| #[trigger]
                        closes_at(g0, s, k, l) && value_ref(open_value(g0, k, l)) == Some(c);
                    assert(before(k, l, n, 0));
                }
            }
            assert forall|k: int| 0 <= k < out@.len() implies self.heap.sizes().has(#[trigger] out@[k]) by {
                let c = out@[k];
                assert(out@.contains(c));
                let (a, b) = choose|a: int, b: int| #[trigger]
                    closes_at(g0, s, a, b) && value_ref(open_value(g0, a, b)) == Some(c);
                assert(crate::global::threads_ok(g0.heap.sizes(), g0.threads@));
                let st = g0.threads@[a].state->0;
                assert(st.wf(g0.heap.sizes()));
                if let UpVal::Open { thread, idx } = g0.heap.upvals.items@[open_var(g0, a, b).0 as int] {
                    if idx.0 < st.stack@.len() {
                        assert(g0.heap.sizes().ok(st.stack@[idx.0 as int]));
                    }
                }
            }
        }
        out
    }

    #[verifier::rlimit(80)]
    #[verifier::spinoff_prover]
    fn close_lost_of(&mut self, marks: &Marks, i: usize, out: &mut Vec<GcRef>, Ghost(g0): Ghost<GlobalState>)
        requires
            g0.wf(),
            old(self).wf(),
            *old(self) == (GlobalState { heap: old(self).heap, ..g0 }),
            i < g0.threads@.len(),
            is_lost(g0, marks@, i as int),
            closed_up_to(g0, marks@, i as int, 0, old(self).heap),
            forall|c: GcRef| #[trigger]
                old(out)@.contains(c) <==> exists|k: int, l: int|
                    before(k, l, i as int, 0) && #[trigger] closes_at(g0, marks@, k, l) && value_ref(
                        open_value(g0, k, l),
                    ) == Some(c),
        ensures
            final(self).wf(),
            *final(self) == (GlobalState { heap: final(self).heap, ..g0 }),
            closed_up_to(
                g0,
                marks@,
                i as int,
                g0.threads@[i as int].state->0.openupval@.len() as int,
                final(self).heap,
            ),
            forall|c: GcRef| #[trigger]
                final(out)@.contains(c) <==> exists|k: int, l: int|
                    before(k, l, i as int, g0.threads@[i as int].state->0.openupval@.len() as int) && #[trigger] closes_at(
                        g0,
                        marks@,
                        k,
                        l,
                    ) && value_ref(open_value(g0, k, l)) == Some(c),
    {
        let ghost s = marks@;
        let ghost st = g0.threads@[i as int].state->0;
        let n: usize = match &self.threads[i].state {
            Some(t) => t.openupval.len(),
            None => 0,
        };
        let id: u64 = self.threads[i].id;
        assert(crate::global::threads_ok(g0.heap.sizes(), g0.threads@));
        assert(st.wf(g0.heap.sizes()));
        let mut j: usize = 0;
        while j < n
            invariant
                j <= n,
                n == st.openupval@.len(),
                i < g0.threads@.len(),
                id == g0.threads@[i as int].id,
                st == g0.threads@[i as int].state->0,
                st.wf(g0.heap.sizes()),
                s == marks@,
                g0.wf(),
                self.wf(),
                *self == (GlobalState { heap: self.heap, ..g0 }),
                is_lost(g0, s, i as int),
                closed_up_to(g0, s, i as int, j as int, self.heap),
                forall|c: GcRef| #[trigger]
                    out@.contains(c) <==> exists|k: int, l: int|
                        before(k, l, i as int, j as int) && #[trigger] closes_at(g0, s, k, l) && value_ref(
                            open_value(g0, k, l),
                        ) == Some(c),
            decreases n - j,
        {
            let ghost h1 = self.heap;
            let ghost out1 = out@;
            let ghost g1 = *self;
            if let Some(t) = &self.threads[i].state {
                let u: UpValId = t.openupval[j];
                assert(st.openupval@[j as int].0 < g0.heap.sizes().upvals);
                if marks.is_marked(GcRef::UpVal(u)) {
                    if let UpVal::Open { thread, idx } = self.heap.upvals.items[u.0] {
                        assert(g0.heap.upvals.items@[u.0 as int] == h1.upvals.items@[u.0 as int]);
                        if thread == id {
                            let v: LuaValue = t.get_at(idx);
                            assert(closes_at(g0, s, i as int, j as int));
                            assert(v == open_value(g0, i as int, j as int));
                            assert(g0.heap.sizes().ok(v));
                            list_value(out, &v);
                            self.heap.upvals.items.set(u.0, UpVal::Closed(v));
                            proof {
                                assert forall|w: int| 0 <= w < self.heap.upvals.items@.len() implies g1.heap.sizes().ok_upval(
                                    #[trigger] self.heap.upvals.items@[w],
                                ) by {
                                    if w != u.0 {
                                        assert(g1.heap.sizes().ok_upval(g1.heap.upvals.items@[w]));
                                    }
                                }
                                lemma_closed_wf(g1, *self);
                            }
                        }
                    }
                }
            }
            proof {
                lemma_close_step(g0, s, i as int, j as int, h1, self.heap);
                lemma_list_step(g0, s, i as int, j as int, h1, out1, out@);
            }
            j = j + 1;
        }
    }
}

/// The next variable is closed where it is to be.
proof fn lemma_close_step(g: GlobalState, s: Set<GcRef>, i: int, j: int, a: Heap, b: Heap)
    requires
        g.wf(),
        is_lost(g, s, i),
        0 <= j < g.threads@[i].state->0.openupval@.len(),
        closed_up_to(g, s, i, j, a),
        b == (Heap { upvals: b.upvals, ..a }),
        b.upvals == (crate::heap::Arena { items: b.upvals.items, ..a.upvals }),
        open_var(g, i, j).0 < g.heap.upvals.items@.len(),
        ({
            let u = open_var(g, i, j).0 as int;
            b.upvals.items@ == (if closes_at(g, s, i, j) && a.upvals.items@[u] is Open {
                a.upvals.items@.update(u, UpVal::Closed(open_value(g, i, j)))
            } else {
                a.upvals.items@
            })
        }),
    ensures
        closed_up_to(g, s, i, j + 1, b),
{
    let u = open_var(g, i, j).0 as int;
    assert forall|k: int, l: int| #[trigger] closes_at(g, s, k, l) && before(k, l, i, j + 1) implies b.upvals.items@[open_var(
        g,
        k,
        l,
    ).0 as int] == UpVal::Closed(open_value(g, k, l)) by {
        if before(k, l, i, j) {
            if open_var(g, k, l).0 == u && closes_at(g, s, i, j) {
                lemma_owner(g, s, k, l, i, j);
            }
        } else {
            assert(k == i && l == j);
            if !(a.upvals.items@[u] is Open) {
                assert(a.upvals.items@[u] != g.heap.upvals.items@[u]);
                let (p, q) = choose|p: int, q: int|
                    before(p, q, i, j) && #[trigger] closes_at(g, s, p, q) && open_var(g, p, q).0 == u;
                lemma_owner(g, s, p, q, i, j);
            }
        }
    }
    assert forall|w: int|
        #![trigger b.upvals.items@[w]]
        0 <= w < b.upvals.items@.len() implies b.upvals.items@[w] == g.heap.upvals.items@[w] || exists|k: int, l: int|
        before(k, l, i, j + 1) && #[trigger] closes_at(g, s, k, l) && open_var(g, k, l).0 == w by {
        if b.upvals.items@[w] != g.heap.upvals.items@[w] {
            if b.upvals.items@[w] == a.upvals.items@[w] {
                let (p, q) = choose|p: int, q: int|
                    before(p, q, i, j) && #[trigger] closes_at(g, s, p, q) && open_var(g, p, q).0 == w;
                assert(before(p, q, i, j + 1));
            } else {
                assert(closes_at(g, s, i, j));
                assert(before(i, j, i, j + 1));
            }
        }
    }
}

/// The value of the next variable is listed where the variable is closed.
proof fn lemma_list_step(g: GlobalState, s: Set<GcRef>, i: int, j: int, a: Heap, xs: Seq<GcRef>, ys: Seq<GcRef>)
    requires
        g.wf(),
        is_lost(g, s, i),
        0 <= j < g.threads@[i].state->0.openupval@.len(),
        closed_up_to(g, s, i, j, a),
        open_var(g, i, j).0 < g.heap.upvals.items@.len(),
        forall|c: GcRef| #[trigger]
            xs.contains(c) <==> exists|k: int, l: int|
                before(k, l, i, j) && #[trigger] closes_at(g, s, k, l) && value_ref(open_value(g, k, l)) == Some(c),
        forall|c: GcRef| #[trigger]
            ys.contains(c) <==> xs.contains(c) || closes_at(g, s, i, j) && a.upvals.items@[open_var(g, i, j).0 as int] is Open
                && value_ref(open_value(g, i, j)) == Some(c),
    ensures
        forall|c: GcRef| #[trigger]
            ys.contains(c) <==> exists|k: int, l: int|
                before(k, l, i, j + 1) && #[trigger] closes_at(g, s, k, l) && value_ref(open_value(g, k, l)) == Some(c),
{
    let u = open_var(g, i, j).0 as int;
    assert forall|c: GcRef| #[trigger] ys.contains(c) <==> exists|k: int, l: int|
        before(k, l, i, j + 1) && #[trigger] closes_at(g, s, k, l) && value_ref(open_value(g, k, l)) == Some(c) by {
        if ys.contains(c) {
            if xs.contains(c) {
                let (k, l) = choose|k: int, l: int|
                    before(k, l, i, j) && #[trigger] closes_at(g, s, k, l) && value_ref(open_value(g, k, l)) == Some(c);
                assert(before(k, l, i, j + 1));
            } else {
                assert(before(i, j, i, j + 1));
            }
        }
        if exists|k: int, l: int|
            before(k, l, i, j + 1) && #[trigger] closes_at(g, s, k, l) && value_ref(open_value(g, k, l)) == Some(c) {
            let (k, l) = choose|k: int, l: int|
                before(k, l, i, j + 1) && #[trigger] closes_at(g, s, k, l) && value_ref(open_value(g, k, l)) == Some(
                    c,
                );
            if before(k, l, i, j) {
                assert(xs.contains(c));
            } else {
                assert(k == i && l == j);
                if !(a.upvals.items@[u] is Open) {
                    assert(a.upvals.items@[u] != g.heap.upvals.items@[u]);
                    let (p, q) = choose|p: int, q: int|
                        before(p, q, i, j) && #[trigger] closes_at(g, s, p, q) && open_var(g, p, q).0 == u;
                    lemma_owner(g, s, p, q, i, j);
                    assert(xs.contains(c));
                }
            }
        }
    }
}

/// Closing variables adds references to what they are closed over, and no others.
pub proof fn lemma_holds_closed(g: GlobalState, s: Set<GcRef>, b: GlobalState, r: GcRef, c: GcRef)
    requires
        g.wf(),
        b == (GlobalState { heap: b.heap, ..g }),
        vars_closed(g, s, b.heap),
        g.heap.sizes().has(r),
        holds(b, r, c),
    ensures
        holds(g, r, c) || closed_values(g, s).contains(c),
{
    match r {
        GcRef::UpVal(u) => {
            let k = u.0 as int;
            if b.heap.upvals.items@[k] != g.heap.upvals.items@[k] {
                let (i, j) = choose|i: int, j: int|
                    before(i, j, g.threads@.len() as int, 0) && #[trigger] closes_at(g, s, i, j) && open_var(g, i, j).0
                        == k;
                assert(b.heap.upvals.items@[k] == UpVal::Closed(open_value(g, i, j)));
            }
        },
        GcRef::Thread(t) => {
            let i = choose|i: int| #[trigger]
                is_entry(b, i, t) && thread_holds(b.threads@[i].state->0, b.heap, b.current_thread_id, c);
            assert(is_entry(g, i, t));
            let st = g.threads@[i].state->0;
            lemma_thread_same(st, g.heap, b.heap, g.current_thread_id, c);
        },
        _ => {},
    }
}

/// What a thread holds depends on its own state and on functions alone.
pub proof fn lemma_thread_same(s: LuaState, a: Heap, b: Heap, cur: u64, c: GcRef)
    requires
        a.protos == b.protos,
        a.lclosures == b.lclosures,
    ensures
        thread_holds(s, a, cur, c) == thread_holds(s, b, cur, c),
{
    assert forall|k: int, j: int| crate::gc_roots::slot_in_frame(s, a, cur, k, j) == #[trigger] crate::gc_roots::slot_in_frame(
        s,
        b,
        cur,
        k,
        j,
    ) by {
        assert(crate::gc_roots::frame_locals(s, a, k) == crate::gc_roots::frame_locals(s, b, k));
    }
    if thread_holds(s, a, cur, c) && !thread_holds(s, b, cur, c) {
        let (k, j) = choose|k: int, j: int|
            #![trigger crate::gc_roots::slot_in_frame(s, a, cur, k, j)]
            0 <= k <= s.ci.0 && 0 <= j < s.stack@.len() && crate::gc_roots::slot_in_frame(s, a, cur, k, j)
                && value_ref(s.stack@[j]) == Some(c);
        assert(crate::gc_roots::slot_in_frame(s, b, cur, k, j));
    }
}

impl Marker {
    /// Goes on after the store has changed, with what may be referred to anew.
    pub fn go_on(&mut self, g: &GlobalState, start: &Marks, list: &Vec<GcRef>)
        requires
            g.wf(),
            old(self).basic(*g, start@),
            old(self).gray@.len() == 0,
            forall|r: GcRef, c: GcRef|
                old(self).marks@.contains(r) && followed(start@, r) && #[trigger] holds(*g, r, c)
                    ==> old(self).marks@.contains(c) || list@.contains(c),
            forall|k: int| 0 <= k < list@.len() ==> g.heap.sizes().has(#[trigger] list@[k]),
        ensures
            final(self).wf(*g, start@),
            final(self).gray@.len() == 0,
            is_reach(*g, start@, old(self).marks@.union(list@.to_set()), final(self).marks@),
    {
        let ghost but = self.marks@;
        self.mark_all(g, start, list);
        proof {
            assert(self.black(*g, start@, but));
            assert forall|r: GcRef, c: GcRef|
                self.marks@.contains(r) && followed(start@, r) && !self.gray@.contains(r) && !Set::<GcRef>::empty().contains(
                    r,
                ) && #[trigger] holds(*g, r, c) implies self.marks@.contains(c) by {
                if but.contains(r) {
                    if list@.contains(c) {
                        assert(list@.to_set().contains(c));
                    }
                }
            }
        }
        self.drain(g, start);
    }
}

} // verus!
