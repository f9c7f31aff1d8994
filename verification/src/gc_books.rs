//! After a collection: the books are settled, and what is dead is freed.

use vstd::prelude::*;
use crate::gc_collect::Found;
use crate::gc_marks::Marks;
use crate::global::FinalizerObject;
use crate::global::GlobalState;
use crate::global::ThreadRegistryEntry;
use crate::global::fins_ok;
use crate::global::keys_once;
use crate::global::pairs_ok;
use crate::global::threads_ok;
use crate::intern::shrunk;
use crate::heap::GcRef;
use crate::heap::Sizes;
use crate::state::LuaState;
use crate::value::LClosureId;
use crate::value::LuaValue;
use crate::value::StrId;
use crate::value::ThreadRef;

verus! {

/// The elements that flags keep, in order.
pub open spec fn kept_by<T>(s: Seq<T>, keep: Seq<bool>) -> Seq<T>
    decreases s.len(),
{
    if s.len() == 0 {
        s
    } else {
        let r = kept_by(s.drop_last(), keep);
        if keep[s.len() - 1] {
            r.push(s.last())
        } else {
            r
        }
    }
}

/// Where the `i`-th element that flags keep came from, among the first `n`.
pub open spec fn kept_from(keep: Seq<bool>, n: int, i: int) -> int
    decreases n,
{
    if n <= 0 {
        -1
    } else if keep[n - 1] && kept_count(keep, n - 1) == i {
        n - 1
    } else {
        kept_from(keep, n - 1, i)
    }
}

/// How many of the first `n` elements flags keep.
pub open spec fn kept_count(keep: Seq<bool>, n: int) -> int
    decreases n,
{
    if n <= 0 {
        0
    } else {
        kept_count(keep, n - 1) + (if keep[n - 1] {
            1int
        } else {
            0int
        })
    }
}

/// Elements that are kept come from places that flags keep, in order.
pub proof fn lemma_kept_from<T>(s: Seq<T>, keep: Seq<bool>, i: int)
    requires
        s.len() <= keep.len(),
        0 <= i < kept_by(s, keep).len(),
    ensures
        kept_by(s, keep).len() == kept_count(keep, s.len() as int),
        0 <= kept_from(keep, s.len() as int, i) < s.len(),
        keep[kept_from(keep, s.len() as int, i)],
        kept_by(s, keep)[i] == s[kept_from(keep, s.len() as int, i)],
        kept_count(keep, kept_from(keep, s.len() as int, i)) == i,
    decreases s.len(),
{
    lemma_kept_len(s, keep);
    let n = s.len() as int;
    if n > 0 {
        let t = s.drop_last();
        lemma_kept_len(t, keep);
        if i < kept_by(t, keep).len() {
            lemma_kept_from(t, keep, i);
            assert(kept_from(keep, n, i) == kept_from(keep, n - 1, i));
        } else {
            assert(keep[n - 1]);
        }
    }
}

proof fn lemma_kept_len<T>(s: Seq<T>, keep: Seq<bool>)
    ensures
        kept_by(s, keep).len() == kept_count(keep, s.len() as int),
    decreases s.len(),
{
    if s.len() > 0 {
        lemma_kept_len(s.drop_last(), keep);
    }
}

/// The number of elements that are kept grows with the place.
proof fn lemma_kept_count(keep: Seq<bool>, a: int, b: int)
    requires
        0 <= a <= b,
    ensures
        0 <= kept_count(keep, a) <= kept_count(keep, b),
    decreases b,
{
    if a < b {
        lemma_kept_count(keep, a, b - 1);
    } else if a > 0 {
        lemma_kept_count(keep, a - 1, b - 1);
    }
}

/// Of two elements that are kept, the earlier comes from an earlier place.
pub proof fn lemma_kept_order<T>(s: Seq<T>, keep: Seq<bool>, i: int, j: int)
    requires
        s.len() <= keep.len(),
        0 <= i < j < kept_by(s, keep).len(),
    ensures
        kept_from(keep, s.len() as int, i) < kept_from(keep, s.len() as int, j),
{
    lemma_kept_from(s, keep, i);
    lemma_kept_from(s, keep, j);
    let a = kept_from(keep, s.len() as int, i);
    let b = kept_from(keep, s.len() as int, j);
    if b <= a {
        lemma_kept_count(keep, b, a);
    }
}

/// Every element at a place that flags keep is kept.
pub proof fn lemma_kept_has<T>(s: Seq<T>, keep: Seq<bool>, k: int)
    requires
        0 <= k < s.len() <= keep.len(),
        keep[k],
    ensures
        kept_by(s, keep).contains(s[k]),
    decreases s.len(),
{
    let n = s.len() - 1;
    let r = kept_by(s.drop_last(), keep);
    let all = kept_by(s, keep);
    if k < n {
        lemma_kept_has(s.drop_last(), keep, k);
        let i = choose|i: int| 0 <= i < r.len() && r[i] == s.drop_last()[k];
        assert(all[i] == s[k]);
    } else {
        assert(all[all.len() - 1] == s[k]);
    }
}

/// Drops the elements that flags do not keep.
fn retain<T>(v: &mut Vec<T>, keep: &Vec<bool>)
    requires
        keep@.len() == old(v)@.len(),
    ensures
        final(v)@ == kept_by(old(v)@, keep@),
{
    let n: usize = v.len();
    let mut i: usize = 0;
    let mut k: usize = 0;
    let ghost s = v@;
    assert(s.subrange(0, 0) =~= Seq::<T>::empty());
    assert(s.subrange(0, n as int) =~= s);
    while i < n
        invariant
            i <= n,
            k <= i,
            n == s.len(),
            s == old(v)@,
            keep@.len() == n,
            v@ == kept_by(s.subrange(0, i as int), keep@) + s.subrange(i as int, n as int),
            kept_by(s.subrange(0, i as int), keep@).len() == k,
        decreases n - i,
    {
        let ghost a = kept_by(s.subrange(0, i as int), keep@);
        let ghost rest = s.subrange(i as int, n as int);
        let ghost next = s.subrange(0, i + 1);
        proof {
            assert(next.drop_last() =~= s.subrange(0, i as int));
            assert(next.last() == s[i as int]);
            assert(rest[0] == s[i as int]);
            assert(v@[k as int] == s[i as int]);
        }
        if keep[i] {
            k = k + 1;
            assert(v@ =~= a.push(s[i as int]) + s.subrange(i + 1, n as int));
        } else {
            v.remove(k);
            assert(v@ =~= a + s.subrange(i + 1, n as int));
        }
        i = i + 1;
    }
    assert(s.subrange(0, n as int) =~= s);
    assert(v@ =~= kept_by(s, keep@));
}

/// Whether a thread handle is alive and stands for the coroutine that it is
/// registered with.
pub open spec fn thread_alive(g: GlobalState, alive: Set<GcRef>, i: int) -> bool {
    &&& alive.contains(GcRef::Thread(g.threads@[i].value))
    &&& g.heap.threads.items@[g.threads@[i].value.0 as int].id == g.threads@[i].id
}

/// Whether a coroutine with this identifier is alive.
pub open spec fn id_alive(g: GlobalState, alive: Set<GcRef>, id: u64) -> bool {
    exists|i: int| 0 <= i < g.threads@.len() && #[trigger] thread_alive(g, alive, i) && g.threads@[i].id == id
}

/// Which coroutines stay.
pub open spec fn threads_keep(g: GlobalState, alive: Set<GcRef>) -> Seq<bool> {
    Seq::new(g.threads@.len(), |i: int| thread_alive(g, alive, i))
}

/// Which weak tables stay known.
pub open spec fn weak_keep(g: GlobalState, alive: Set<GcRef>) -> Seq<bool> {
    Seq::new(g.weak_tables_registry@.len(), |i: int| alive.contains(GcRef::Table(g.weak_tables_registry@[i].table)))
}

/// Which values of variables of other threads stay: those of the main thread and of
/// coroutines that are alive.
pub open spec fn cross_keep(g: GlobalState, alive: Set<GcRef>) -> Seq<bool> {
    Seq::new(
        g.cross_thread_upvals@.len(),
        |i: int|
            g.cross_thread_upvals@[i].0.0 == g.main_thread_id || id_alive(g, alive, g.cross_thread_upvals@[i].0.0),
    )
}

/// Which threads keep globals of their own.
pub open spec fn globals_keep(g: GlobalState, alive: Set<GcRef>) -> Seq<bool> {
    Seq::new(g.thread_globals@.len(), |i: int| id_alive(g, alive, g.thread_globals@[i].0))
}

/// Which closures keep environments of their own.
pub open spec fn envs_keep(g: GlobalState, alive: Set<GcRef>) -> Seq<bool> {
    Seq::new(
        g.closure_envs@.len(),
        |i: int| alive.contains(GcRef::LClosure(LClosureId(g.closure_envs@[i].0))),
    )
}

/// Which objects with finalizers are not due.
pub open spec fn pending_keep(g: GlobalState, ds: Seq<FinalizerObject>) -> Seq<bool> {
    Seq::new(g.finalizers.pending@.len(), |i: int| !ds.contains(g.finalizers.pending@[i]))
}

impl GlobalState {
    fn alive_threads(&self, marks: &Marks) -> (r: Vec<bool>)
        requires
            self.wf(),
        ensures
            r@ == threads_keep(*self, marks@),
    {
        let mut r: Vec<bool> = Vec::new();
        let mut i: usize = 0;
        while i < self.threads.len()
            invariant
                i <= self.threads@.len(),
                self.wf(),
                r@.len() == i,
                forall|k: int| 0 <= k < i ==> #[trigger] r@[k] == thread_alive(*self, marks@, k),
            decreases self.threads@.len() - i,
        {
            assert(threads_ok(self.heap.sizes(), self.threads@));
            let t: ThreadRef = self.threads[i].value;
            assert(self.threads@[i as int].value.0 < self.heap.sizes().threads);
            r.push(marks.is_marked(GcRef::Thread(t)) && self.heap.threads.items[t.0].id == self.threads[i].id);
            i = i + 1;
        }
        assert(r@ =~= threads_keep(*self, marks@));
        r
    }

    fn has_alive_id(&self, keep: &Vec<bool>, id: u64, marks: &Marks) -> (r: bool)
        requires
            keep@ == threads_keep(*self, marks@),
        ensures
            r == id_alive(*self, marks@, id),
    {
        let mut i: usize = 0;
        while i < self.threads.len()
            invariant
                i <= self.threads@.len(),
                keep@ == threads_keep(*self, marks@),
                forall|k: int|
                    0 <= k < i ==> !(#[trigger] thread_alive(*self, marks@, k) && self.threads@[k].id == id),
            decreases self.threads@.len() - i,
        {
            assert(keep@[i as int] == thread_alive(*self, marks@, i as int));
            if keep[i] && self.threads[i].id == id {
                return true;
            }
            i = i + 1;
        }
        false
    }

    fn keep_weak(&self, marks: &Marks) -> (r: Vec<bool>)
        ensures
            r@ == weak_keep(*self, marks@),
    {
        let mut r: Vec<bool> = Vec::new();
        let mut i: usize = 0;
        while i < self.weak_tables_registry.len()
            invariant
                i <= self.weak_tables_registry@.len(),
                r@.len() == i,
                forall|k: int|
                    0 <= k < i ==> #[trigger] r@[k] == marks@.contains(
                        GcRef::Table(self.weak_tables_registry@[k].table),
                    ),
            decreases self.weak_tables_registry@.len() - i,
        {
            r.push(marks.is_marked(GcRef::Table(self.weak_tables_registry[i].table)));
            i = i + 1;
        }
        assert(r@ =~= weak_keep(*self, marks@));
        r
    }

    fn keep_cross(&self, keep: &Vec<bool>, marks: &Marks) -> (r: Vec<bool>)
        requires
            keep@ == threads_keep(*self, marks@),
        ensures
            r@ == cross_keep(*self, marks@),
    {
        let mut r: Vec<bool> = Vec::new();
        let mut i: usize = 0;
        while i < self.cross_thread_upvals.len()
            invariant
                i <= self.cross_thread_upvals@.len(),
                keep@ == threads_keep(*self, marks@),
                r@.len() == i,
                forall|k: int| 0 <= k < i ==> #[trigger] r@[k] == cross_keep(*self, marks@)[k],
            decreases self.cross_thread_upvals@.len() - i,
        {
            let id: u64 = self.cross_thread_upvals[i].0.0;
            r.push(id == self.main_thread_id || self.has_alive_id(keep, id, marks));
            i = i + 1;
        }
        assert(r@ =~= cross_keep(*self, marks@));
        r
    }

    fn keep_globals(&self, keep: &Vec<bool>, marks: &Marks) -> (r: Vec<bool>)
        requires
            keep@ == threads_keep(*self, marks@),
        ensures
            r@ == globals_keep(*self, marks@),
    {
        let mut r: Vec<bool> = Vec::new();
        let mut i: usize = 0;
        while i < self.thread_globals.len()
            invariant
                i <= self.thread_globals@.len(),
                keep@ == threads_keep(*self, marks@),
                r@.len() == i,
                forall|k: int| 0 <= k < i ==> #[trigger] r@[k] == globals_keep(*self, marks@)[k],
            decreases self.thread_globals@.len() - i,
        {
            let id: u64 = self.thread_globals[i].0;
            r.push(self.has_alive_id(keep, id, marks));
            i = i + 1;
        }
        assert(r@ =~= globals_keep(*self, marks@));
        r
    }

    fn keep_envs(&self, marks: &Marks) -> (r: Vec<bool>)
        ensures
            r@ == envs_keep(*self, marks@),
    {
        let mut r: Vec<bool> = Vec::new();
        let mut i: usize = 0;
        while i < self.closure_envs.len()
            invariant
                i <= self.closure_envs@.len(),
                r@.len() == i,
                forall|k: int| 0 <= k < i ==> #[trigger] r@[k] == envs_keep(*self, marks@)[k],
            decreases self.closure_envs@.len() - i,
        {
            r.push(marks.is_marked(GcRef::LClosure(LClosureId(self.closure_envs[i].0))));
            i = i + 1;
        }
        assert(r@ =~= envs_keep(*self, marks@));
        r
    }

    fn keep_pending(&self, ds: &Vec<FinalizerObject>) -> (r: Vec<bool>)
        ensures
            r@ == pending_keep(*self, ds@),
    {
        let mut r: Vec<bool> = Vec::new();
        let mut i: usize = 0;
        while i < self.finalizers.pending.len()
            invariant
                i <= self.finalizers.pending@.len(),
                r@.len() == i,
                forall|k: int| 0 <= k < i ==> #[trigger] r@[k] == pending_keep(*self, ds@)[k],
            decreases self.finalizers.pending@.len() - i,
        {
            r.push(!lists_fin(ds, self.finalizers.pending[i]));
            i = i + 1;
        }
        assert(r@ =~= pending_keep(*self, ds@));
        r
    }
}

fn lists_fin(ds: &Vec<FinalizerObject>, f: FinalizerObject) -> (r: bool)
    ensures
        r == ds@.contains(f),
{
    let mut i: usize = 0;
    while i < ds.len()
        invariant
            i <= ds@.len(),
            forall|k: int| 0 <= k < i ==> #[trigger] ds@[k] != f,
        decreases ds@.len() - i,
    {
        if ds[i] == f {
            assert(ds@[i as int] == f);
            return true;
        }
        i = i + 1;
    }
    false
}

/// A coroutine whose open variables had another look counts as not having set any.
pub open spec fn looked_at(e: ThreadRegistryEntry, hit: bool) -> ThreadRegistryEntry {
    match e.state {
        Some(s) => if hit {
            ThreadRegistryEntry { state: Some(LuaState { legacy_open_upval_touched: false, ..s }), ..e }
        } else {
            e
        },
        None => e,
    }
}

/// The coroutines after some had another look.
pub open spec fn all_looked_at(ts: Seq<ThreadRegistryEntry>, hits: Seq<bool>) -> Seq<ThreadRegistryEntry> {
    Seq::new(ts.len(), |i: int| looked_at(ts[i], hits[i]))
}

/// What the shared state is after a collection that found this alive and these
/// finalizers due, but for what is freed.
pub open spec fn books_settled(g: GlobalState, alive: Set<GcRef>, ds: Seq<FinalizerObject>, hits: Seq<bool>, b: GlobalState) -> bool {
    &&& b == (GlobalState {
        interned_lt: b.interned_lt,
        weak_tables_registry: b.weak_tables_registry,
        threads: b.threads,
        cross_thread_upvals: b.cross_thread_upvals,
        thread_globals: b.thread_globals,
        closure_envs: b.closure_envs,
        finalizers: b.finalizers,
        ..g
    })
    &&& forall|x: StrId| #[trigger] b.interned_lt.has(x) <==> g.interned_lt.has(x) && alive.contains(GcRef::Str(x))
    &&& shrunk(g.interned_lt, b.interned_lt)
    &&& b.weak_tables_registry@ == kept_by(g.weak_tables_registry@, weak_keep(g, alive))
    &&& b.threads@ == kept_by(all_looked_at(g.threads@, hits), threads_keep(g, alive))
    &&& b.cross_thread_upvals@ == kept_by(g.cross_thread_upvals@, cross_keep(g, alive))
    &&& b.thread_globals@ == kept_by(g.thread_globals@, globals_keep(g, alive))
    &&& b.closure_envs@ == kept_by(g.closure_envs@, envs_keep(g, alive))
    &&& b.finalizers.pending@ == kept_by(g.finalizers.pending@, pending_keep(g, ds))
    &&& b.finalizers.to_be_finalized@ == g.finalizers.to_be_finalized@ + ds
}

impl GlobalState {
    /// Removes dead strings from the table of interned strings, which then shrinks if it
    /// is sparse.
    pub fn remove_dead_interned_strings(&mut self, marks: &Marks)
        requires
            old(self).wf(),
        ensures
            *final(self) == (GlobalState { interned_lt: final(self).interned_lt, ..*old(self) }),
            final(self).interned_lt.wf(final(self).heap.strs()),
            final(self).interned_lt.once(final(self).heap.strs()),
            forall|x: StrId| #[trigger]
                final(self).interned_lt.has(x) <==> old(self).interned_lt.has(x) && marks@.contains(GcRef::Str(x)),
            shrunk(old(self).interned_lt, final(self).interned_lt),
    {
        let list: Vec<StrId> = self.interned_lt.iter();
        let mut i: usize = 0;
        while i < list.len()
            invariant
                i <= list@.len(),
                *self == (GlobalState { interned_lt: self.interned_lt, ..*old(self) }),
                self.interned_lt.wf(self.heap.strs()),
                self.interned_lt.once(self.heap.strs()),
                old(self).interned_lt.wf(old(self).heap.strs()),
                self.interned_lt.buckets@.len() == old(self).interned_lt.buckets@.len(),
                forall|x: StrId| #[trigger] list@.contains(x) <==> old(self).interned_lt.has(x),
                forall|x: StrId| #[trigger]
                    self.interned_lt.has(x) <==> old(self).interned_lt.has(x) && (marks@.contains(GcRef::Str(x)) || !(
                    exists|k: int| 0 <= k < i && #[trigger] list@[k] == x)),
            decreases list@.len() - i,
        {
            let s: StrId = list[i];
            let ghost before = self.interned_lt;
            if !marks.is_marked(GcRef::Str(s)) {
                assert(list@.contains(s));
                proof {
                    crate::intern::lemma_has_bound(old(self).interned_lt, old(self).heap.strs(), s);
                }
                let hash: u32 = self.heap.strings.items[s.0].hash;
                self.interned_lt.remove(&self.heap.strings.items, hash, s);
                proof {
                    if before.has(s) {
                        crate::intern::lemma_has_bound(before, self.heap.strs(), s);
                        crate::intern::lemma_once_remove(before, self.interned_lt, self.heap.strs(), s);
                    }
                }
            }
            proof {
                assert forall|x: StrId| #[trigger] self.interned_lt.has(x) <==> old(self).interned_lt.has(x) && (
                marks@.contains(GcRef::Str(x)) || !(exists|k: int| 0 <= k < i + 1 && #[trigger] list@[k] == x)) by {
                    assert(before.has(x) <==> old(self).interned_lt.has(x) && (marks@.contains(GcRef::Str(x)) || !(
                    exists|k: int| 0 <= k < i && #[trigger] list@[k] == x)));
                    assert(marks@.contains(GcRef::Str(s)) == marks.has(GcRef::Str(s)));
                    assert(list@[i as int] == s);
                    if exists|k: int| 0 <= k < i + 1 && #[trigger] list@[k] == x {
                        let k = choose|k: int| 0 <= k < i + 1 && #[trigger] list@[k] == x;
                        if k < i {
                            assert(exists|q: int| 0 <= q < i && #[trigger] list@[q] == x);
                        }
                    }
                }
            }
            i = i + 1;
        }
        let ghost mid = self.interned_lt;
        self.interned_lt.shrink_if_sparse(&self.heap.strings.items);
        proof {
            assert forall|x: StrId| #[trigger] self.interned_lt.has(x) <==> old(self).interned_lt.has(x)
                && marks@.contains(GcRef::Str(x)) by {
                assert(self.interned_lt.has(x) <==> mid.has(x));
                if old(self).interned_lt.has(x) {
                    assert(list@.contains(x));
                    let k = choose|k: int| 0 <= k < list@.len() && list@[k] == x;
                    assert(list@[k] == x);
                }
            }
        }
    }

    /// Notes which coroutines had another look.
    pub fn look_at_threads(&mut self, hits: &Vec<bool>)
        requires
            hits@.len() == old(self).threads@.len(),
        ensures
            old(self).wf() ==> final(self).wf(),
            *final(self) == (GlobalState { threads: final(self).threads, ..*old(self) }),
            final(self).threads@ == all_looked_at(old(self).threads@, hits@),
    {
        let mut i: usize = 0;
        let ghost ts = self.threads@;
        while i < self.threads.len()
            invariant
                i <= self.threads@.len(),
                ts == old(self).threads@,
                self.threads@.len() == ts.len(),
                hits@.len() == ts.len(),
                *self == (GlobalState { threads: self.threads, ..*old(self) }),
                forall|k: int| 0 <= k < i ==> #[trigger] self.threads@[k] == looked_at(ts[k], hits@[k]),
                forall|k: int| i <= k < ts.len() ==> #[trigger] self.threads@[k] == ts[k],
            decreases self.threads@.len() - i,
        {
            if hits[i] {
                let mut st: Option<LuaState> = None;
                std::mem::swap(&mut st, &mut self.threads[i].state);
                if let Some(mut s) = st {
                    s.legacy_open_upval_touched = false;
                    self.threads[i].state = Some(s);
                }
            }
            i = i + 1;
        }
        assert(self.threads@ =~= all_looked_at(ts, hits@));
        proof {
            if old(self).wf() {
                let z = self.heap.sizes();
                let us = self.threads@;
                assert(threads_ok(z, ts));
                assert forall|j: int| 0 <= j < us.len() implies (#[trigger] us[j]).value.0 < z.threads && (
                us[j].state matches Some(x) ==> x.wf(z)) by {
                    assert(us[j] == looked_at(ts[j], hits@[j]));
                    assert(ts[j].state matches Some(x) ==> x.wf(z));
                }
                assert forall|a: int, b: int| 0 <= a < b < us.len() implies (#[trigger] us[a]).id != (
                #[trigger] us[b]).id by {
                    assert(ts[a].id != ts[b].id);
                }
                assert forall|j: int| 0 <= j < us.len() implies (#[trigger] us[j]).id < self.next_thread_id by {
                    assert(ts[j].id < old(self).next_thread_id);
                }
            }
        }
    }

    /// Settles the books after a collection: what is dead is forgotten, and the objects
    /// whose finalizers are due change lists.
    #[verifier::rlimit(60)]
    #[verifier::spinoff_prover]
    pub fn settle_books(&mut self, f: &Found)
        requires
            old(self).wf(),
            f.marks.fits(old(self).heap.sizes()),
            f.hits@.len() == old(self).threads@.len(),
            fins_ok(old(self).heap.sizes(), f.due@),
        ensures
            final(self).wf(),
            final(self).heap == old(self).heap,
            books_settled(*old(self), f.marks@, f.due@, f.hits@, *final(self)),
    {
        let ghost g = *self;
        let threads: Vec<bool> = self.alive_threads(&f.marks);
        let weak: Vec<bool> = self.keep_weak(&f.marks);
        let cross: Vec<bool> = self.keep_cross(&threads, &f.marks);
        let globals: Vec<bool> = self.keep_globals(&threads, &f.marks);
        let envs: Vec<bool> = self.keep_envs(&f.marks);
        let pending: Vec<bool> = self.keep_pending(&f.due);
        self.remove_dead_interned_strings(&f.marks);
        retain(&mut self.weak_tables_registry, &weak);
        self.look_at_threads(&f.hits);
        retain(&mut self.threads, &threads);
        retain(&mut self.cross_thread_upvals, &cross);
        retain(&mut self.thread_globals, &globals);
        retain(&mut self.closure_envs, &envs);
        retain(&mut self.finalizers.pending, &pending);
        let ghost before = self.finalizers.to_be_finalized@;
        self.promote_due(&f.due);
        proof {
            lemma_settled_wf(g, f.marks@, f.due@, f.hits@, *self);
        }
    }

    fn promote_due(&mut self, ds: &Vec<FinalizerObject>)
        ensures
            *final(self) == (GlobalState { finalizers: final(self).finalizers, ..*old(self) }),
            final(self).finalizers.pending == old(self).finalizers.pending,
            final(self).finalizers.to_be_finalized@ == old(self).finalizers.to_be_finalized@ + ds@,
    {
        let mut i: usize = 0;
        while i < ds.len()
            invariant
                i <= ds@.len(),
                *self == (GlobalState { finalizers: self.finalizers, ..*old(self) }),
                self.finalizers.pending == old(self).finalizers.pending,
                self.finalizers.to_be_finalized@ == old(self).finalizers.to_be_finalized@ + ds@.subrange(0, i as int),
            decreases ds@.len() - i,
        {
            self.finalizers.to_be_finalized.push(ds[i]);
            assert(ds@.subrange(0, i + 1) =~= ds@.subrange(0, i as int).push(ds@[i as int]));
            assert(self.finalizers.to_be_finalized@ =~= old(self).finalizers.to_be_finalized@ + ds@.subrange(
                0,
                i + 1,
            ));
            i = i + 1;
        }
        assert(ds@.subrange(0, ds@.len() as int) =~= ds@);
    }
}

proof fn lemma_pairs_kept<K>(s: Seq<(K, LuaValue)>, keep: Seq<bool>, z: Sizes)
    requires
        s.len() <= keep.len(),
        pairs_ok(z, s),
        keys_once(s),
    ensures
        pairs_ok(z, kept_by(s, keep)),
        keys_once(kept_by(s, keep)),
{
    let r = kept_by(s, keep);
    assert forall|i: int| 0 <= i < r.len() implies z.ok((#[trigger] r[i]).1) by {
        lemma_kept_from(s, keep, i);
    }
    assert forall|i: int, j: int| 0 <= i < j < r.len() implies (#[trigger] r[i]).0 != (#[trigger] r[j]).0 by {
        lemma_kept_from(s, keep, i);
        lemma_kept_from(s, keep, j);
        lemma_kept_order(s, keep, i, j);
    }
}

proof fn lemma_threads_kept(ts: Seq<ThreadRegistryEntry>, hits: Seq<bool>, keep: Seq<bool>, z: Sizes, next: u64)
    requires
        ts.len() <= keep.len(),
        threads_ok(z, ts),
        forall|i: int| 0 <= i < ts.len() ==> (#[trigger] ts[i]).id < next,
    ensures
        threads_ok(z, kept_by(all_looked_at(ts, hits), keep)),
        forall|i: int| 0 <= i < kept_by(all_looked_at(ts, hits), keep).len() ==> (#[trigger] kept_by(
            all_looked_at(ts, hits),
            keep,
        )[i]).id < next,
{
    let us = all_looked_at(ts, hits);
    let r = kept_by(us, keep);
    assert forall|i: int|
        #![trigger r[i]]
        0 <= i < r.len() implies r[i].value.0 < z.threads && r[i].id < next && (r[i].state matches Some(s) ==> s.wf(z)) by {
        lemma_kept_from(us, keep, i);
        let k = kept_from(keep, us.len() as int, i);
        assert(us[k] == looked_at(ts[k], hits[k]));
        assert(ts[k].value.0 < z.threads);
    }
    assert forall|i: int, j: int| 0 <= i < j < r.len() implies (#[trigger] r[i]).id != (#[trigger] r[j]).id by {
        lemma_kept_from(us, keep, i);
        lemma_kept_from(us, keep, j);
        lemma_kept_order(us, keep, i, j);
        let a = kept_from(keep, us.len() as int, i);
        let b = kept_from(keep, us.len() as int, j);
        assert(us[a] == looked_at(ts[a], hits[a]) && us[b] == looked_at(ts[b], hits[b]));
        assert(ts[a].id != ts[b].id);
    }
}

/// The shared state is in order after the books are settled.
proof fn lemma_settled_wf(g: GlobalState, alive: Set<GcRef>, ds: Seq<FinalizerObject>, hits: Seq<bool>, b: GlobalState)
    requires
        g.wf(),
        fins_ok(g.heap.sizes(), ds),
        b.interned_lt.wf(b.heap.strs()) && b.interned_lt.once(b.heap.strs()),
        books_settled(g, alive, ds, hits, b),
    ensures
        b.wf(),
{
    let z = g.heap.sizes();
    lemma_pairs_kept(g.cross_thread_upvals@, cross_keep(g, alive), z);
    lemma_pairs_kept(g.thread_globals@, globals_keep(g, alive), z);
    lemma_pairs_kept(g.closure_envs@, envs_keep(g, alive), z);
    lemma_threads_kept(g.threads@, hits, threads_keep(g, alive), z, g.next_thread_id);
    let ws = b.weak_tables_registry@;
    assert forall|i: int| 0 <= i < ws.len() implies (#[trigger] ws[i]).table.0 < z.tables by {
        lemma_kept_from(g.weak_tables_registry@, weak_keep(g, alive), i);
    }
    let ps = b.finalizers.pending@;
    assert forall|i: int| 0 <= i < ps.len() implies z.ok((#[trigger] ps[i]).spec_value()) by {
        lemma_kept_from(g.finalizers.pending@, pending_keep(g, ds), i);
    }
    let fs = b.finalizers.to_be_finalized@;
    assert forall|i: int| 0 <= i < fs.len() implies z.ok((#[trigger] fs[i]).spec_value()) by {
        if i < g.finalizers.to_be_finalized@.len() {
            assert(z.ok(g.finalizers.to_be_finalized@[i].spec_value()));
        } else {
            assert(fs[i] == ds[i - g.finalizers.to_be_finalized@.len()]);
        }
    }
    assert(b.refs_ok(z));
}

} // verus!
