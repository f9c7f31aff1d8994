//! Captured variables and closures.

use vstd::prelude::*;
use crate::gc_barrier::Barrier;
use crate::gc_barrier::told;
use crate::gc_barrier::upval_barrier;
use crate::global::GlobalState;
use crate::global::keys_once;
use crate::global::lemma_refs_grow;
use crate::global::map_get;
use crate::global::threads_ok;
use crate::heap::Heap;
use crate::heap::UpVal;
use crate::state::LuaState;
use crate::value::LClosureId;
use crate::value::LuaValue;
use crate::value::StackIdx;
use crate::value::UpValId;

verus! {

/// The captured variable behind a number of a closure.
pub open spec fn upval_of(g: GlobalState, cl: LClosureId, n: int) -> UpValId {
    g.heap.lclosures.items@[cl.0 as int].upvals@[n]
}

/// The value of an open variable of another thread: in that thread's stack if its
/// state is at hand, else in the mirror.
pub open spec fn far_value(g: GlobalState, tid: u64, idx: StackIdx) -> LuaValue {
    match g.thread_at(tid) {
        Some(i) if g.threads@[i].state is Some => g.threads@[i].state->0.at(idx.0 as int),
        _ => match map_get(g.cross_thread_upvals@, (tid, idx)) {
            Some(v) => v,
            None => LuaValue::Nil,
        },
    }
}

/// The value of a captured variable, seen from a thread.
pub open spec fn upval_value(s: LuaState, g: GlobalState, u: UpVal) -> LuaValue {
    match u {
        UpVal::Closed(v) => v,
        UpVal::Open { thread, idx } => if thread == s.cached_thread_id {
            s.stack@[idx.0 as int]
        } else {
            far_value(g, thread, idx)
        },
    }
}

/// Whether a captured variable that a thread holds itself is on its stack.
pub open spec fn upval_near_ok(s: LuaState, u: UpVal) -> bool {
    u matches UpVal::Open { thread, idx } ==> thread == s.cached_thread_id ==> idx.0 < s.stack@.len()
}

/// Whether one may write to a captured variable of another thread: where that
/// thread's state is at hand, the slot is on its stack.
pub open spec fn upval_far_ok(g: GlobalState, u: UpVal) -> bool {
    u matches UpVal::Open { thread, idx } ==> match g.thread_at(thread) {
        Some(i) if g.threads@[i].state is Some => idx.0 < g.threads@[i].state->0.stack@.len(),
        _ => true,
    }
}

/// Finds a slot of the mirror.
fn find_slot(m: &Vec<((u64, StackIdx), LuaValue)>, tid: u64, idx: StackIdx) -> (r: Option<usize>)
    requires
        keys_once(m@),
    ensures
        r matches Some(i) ==> i < m@.len() && m@[i as int].0 == (tid, idx) && map_get(m@, (tid, idx)) == Some(
            m@[i as int].1,
        ),
        r is None ==> map_get(m@, (tid, idx)) is None && forall|j: int|
            0 <= j < m@.len() ==> (#[trigger] m@[j]).0 != (tid, idx),
{
    let mut i: usize = 0;
    while i < m.len()
        invariant
            i <= m@.len(),
            keys_once(m@),
            forall|j: int| 0 <= j < i ==> (#[trigger] m@[j]).0 != (tid, idx),
        decreases m@.len() - i,
    {
        if m[i].0.0 == tid && m[i].0.1 == idx {
            proof {
                lemma_map_get(m@, i as int);
            }
            return Some(i);
        }
        assert(m@[i as int].0 != (tid, idx));
        i = i + 1;
    }
    None
}

/// What a map holds under the key of one of its entries is that entry's value.
pub proof fn lemma_map_get<K, V>(s: Seq<(K, V)>, i: int)
    requires
        keys_once(s),
        0 <= i < s.len(),
    ensures
        map_get(s, s[i].0) == Some(s[i].1),
{
    let k = s[i].0;
    assert(exists|j: int| 0 <= j < s.len() && (#[trigger] s[j]).0 == k);
    let j = choose|j: int| 0 <= j < s.len() && (#[trigger] s[j]).0 == k;
    if j < i {
        assert(s[j].0 != s[i].0);
    } else if i < j {
        assert(s[i].0 != s[j].0);
    }
}

impl LuaState {
    /// Reads a captured variable of a closure.
    pub fn upvalue_get(&self, g: &GlobalState, cl: LClosureId, n: usize) -> (v: LuaValue)
        requires
            g.wf(),
            self.wf(g.heap.sizes()),
            cl.0 < g.heap.lclosures.items@.len(),
            n < g.heap.lclosures.items@[cl.0 as int].upvals@.len(),
            upval_near_ok(*self, g.heap.upvals.items@[upval_of(*g, cl, n as int).0 as int]),
        ensures
            v == upval_value(*self, *g, g.heap.upvals.items@[upval_of(*g, cl, n as int).0 as int]),
            g.heap.ok(v),
    {
        assert(g.heap.sizes().ok_lclosure(g.heap.lclosures.items@[cl.0 as int]));
        let uv: UpValId = g.heap.lclosures.items[cl.0].upvals[n];
        assert(g.heap.sizes().ok_upval(g.heap.upvals.items@[uv.0 as int]));
        match g.heap.upvals.items[uv.0] {
            UpVal::Closed(v) => v,
            UpVal::Open { thread, idx } => {
                if thread == self.cached_thread_id {
                    assert(g.heap.ok(self.stack@[idx.0 as int]));
                    return self.stack[idx.0 as usize];
                }
                self.upvalue_get_cross_thread(g, thread, idx)
            },
        }
    }

    /// Reads an open variable of another thread.
    pub fn upvalue_get_cross_thread(&self, g: &GlobalState, tid: u64, idx: StackIdx) -> (v: LuaValue)
        requires
            g.wf(),
        ensures
            v == far_value(*g, tid, idx),
            g.heap.ok(v),
    {
        if let Some(i) = g.find_thread(tid) {
            assert(threads_ok(g.heap.sizes(), g.threads@));
            if let Some(s) = &g.threads[i].state {
                assert(g.threads@[i as int].state->0.wf(g.heap.sizes()));
                return s.get_at(idx);
            }
        }
        match find_slot(&g.cross_thread_upvals, tid, idx) {
            Some(i) => {
                assert(g.heap.ok(g.cross_thread_upvals@[i as int].1));
                g.cross_thread_upvals[i].1
            },
            None => LuaValue::Nil,
        }
    }

    /// Writes a captured variable of a closure.
    pub fn upvalue_set(&mut self, g: &mut GlobalState, cl: LClosureId, n: usize, val: LuaValue)
        requires
            old(g).wf(),
            old(self).wf(old(g).heap.sizes()),
            cl.0 < old(g).heap.lclosures.items@.len(),
            n < old(g).heap.lclosures.items@[cl.0 as int].upvals@.len(),
            old(g).heap.ok(val),
            upval_near_ok(*old(self), old(g).heap.upvals.items@[upval_of(*old(g), cl, n as int).0 as int]),
            upval_far_ok(*old(g), old(g).heap.upvals.items@[upval_of(*old(g), cl, n as int).0 as int]),
        ensures
            final(g).wf(),
            final(self).wf(final(g).heap.sizes()),
            final(g).heap.sizes() == old(g).heap.sizes(),
            upval_written(*old(self), *old(g), upval_of(*old(g), cl, n as int), val, *final(self), *final(g)),
    {
        assert(g.heap.sizes().ok_lclosure(g.heap.lclosures.items@[cl.0 as int]));
        let uv: UpValId = g.heap.lclosures.items[cl.0].upvals[n];
        self.write_upval(g, uv, val);
        let ghost mid = *g;
        let b: Option<Barrier> = g.gc_barrier_upval(uv, &val);
        g.tell(b);
        assert(mid == (GlobalState { barriers: old(g).barriers, ..*g }));
    }

    /// Writes a captured variable, without a barrier.
    fn write_upval(&mut self, g: &mut GlobalState, uv: UpValId, val: LuaValue)
        requires
            old(g).wf(),
            old(self).wf(old(g).heap.sizes()),
            uv.0 < old(g).heap.upvals.items@.len(),
            old(g).heap.ok(val),
            upval_near_ok(*old(self), old(g).heap.upvals.items@[uv.0 as int]),
            upval_far_ok(*old(g), old(g).heap.upvals.items@[uv.0 as int]),
        ensures
            final(g).wf(),
            final(self).wf(final(g).heap.sizes()),
            final(g).heap.sizes() == old(g).heap.sizes(),
            final(g).barriers == old(g).barriers,
            final(g).gckind == old(g).gckind,
            final(g).lastatomic == old(g).lastatomic,
            upval_set(*old(self), *old(g), uv, val, *final(self), *final(g)),
    {
        match g.heap.upvals.items[uv.0] {
            UpVal::Closed(_) => {
                g.heap.upvals.items.set(uv.0, UpVal::Closed(val));
                proof {
                    lemma_upval_set(*old(g), *g, uv);
                }
            },
            UpVal::Open { thread, idx } => {
                if thread == self.cached_thread_id {
                    self.set_at(idx, val);
                } else {
                    g.upvalue_set_cross_thread(thread, idx, val);
                }
            },
        }
    }
}

/// Whether a write to a captured variable did that and nothing else. The collector is to be
/// told of it.
pub open spec fn upval_written(s: LuaState, g: GlobalState, uv: UpValId, val: LuaValue, t: LuaState, h: GlobalState) -> bool {
    &&& upval_set(s, g, uv, val, t, (GlobalState { barriers: g.barriers, ..h }))
    &&& h.barriers@ == told(g.barriers@, upval_barrier(g, uv, val))
}

/// Whether a captured variable was written and nothing else was done.
pub open spec fn upval_set(s: LuaState, g: GlobalState, uv: UpValId, val: LuaValue, t: LuaState, h: GlobalState) -> bool {
    match g.heap.upvals.items@[uv.0 as int] {
        UpVal::Closed(_) => {
            &&& t == s
            &&& h == (GlobalState { heap: h.heap, ..g })
            &&& h.heap == (Heap { upvals: h.heap.upvals, ..g.heap })
            &&& h.heap.upvals == (crate::heap::Arena { items: h.heap.upvals.items, ..g.heap.upvals })
            &&& h.heap.upvals.items@ == g.heap.upvals.items@.update(uv.0 as int, UpVal::Closed(val))
        },
        UpVal::Open { thread, idx } => if thread == s.cached_thread_id {
            &&& h == g
            &&& t == (LuaState { stack: t.stack, ..s })
            &&& t.stack@ == s.stack@.update(idx.0 as int, val)
        } else {
            t == s && far_written(g, thread, idx, val, h)
        },
    }
}

/// Whether a write to an open variable of another thread did that and nothing else.
pub open spec fn far_written(g: GlobalState, tid: u64, idx: StackIdx, val: LuaValue, h: GlobalState) -> bool {
    match g.thread_at(tid) {
        Some(i) if g.threads@[i].state is Some => {
            let s = g.threads@[i].state->0;
            &&& h == (GlobalState { threads: h.threads, ..g })
            &&& h.threads@.len() == g.threads@.len()
            &&& forall|j: int| 0 <= j < g.threads@.len() && j != i ==> #[trigger] h.threads@[j] == g.threads@[j]
            &&& h.threads@[i].id == tid && h.threads@[i].value == g.threads@[i].value
            &&& h.threads@[i].state matches Some(t)
            &&& t == (LuaState { stack: t.stack, ..s })
            &&& t.stack@ == s.stack@.update(idx.0 as int, val)
        },
        _ => {
            &&& h == (GlobalState { cross_thread_upvals: h.cross_thread_upvals, ..g })
            &&& map_get(h.cross_thread_upvals@, (tid, idx)) == Some(val)
            &&& forall|k: (u64, StackIdx)|
                k != (tid, idx) ==> #[trigger] map_get(h.cross_thread_upvals@, k) == map_get(
                    g.cross_thread_upvals@,
                    k,
                )
        },
    }
}

proof fn lemma_upval_set(g: GlobalState, h: GlobalState, uv: UpValId)
    requires
        g.wf(),
        h == (GlobalState { heap: h.heap, ..g }),
        h.heap == (Heap { upvals: h.heap.upvals, ..g.heap }),
        h.heap.upvals.wf(),
        uv.0 < g.heap.upvals.items@.len(),
        h.heap.upvals.items@ == g.heap.upvals.items@.update(uv.0 as int, h.heap.upvals.items@[uv.0 as int]),
        g.heap.sizes().ok_upval(h.heap.upvals.items@[uv.0 as int]),
    ensures
        h.wf(),
        h.heap.sizes() == g.heap.sizes(),
{
    assert(h.heap.sizes() == g.heap.sizes());
    assert forall|i: int| 0 <= i < h.heap.upvals.items@.len() implies h.heap.sizes().ok_upval(
        #[trigger] h.heap.upvals.items@[i],
    ) by {
        if i != uv.0 {
            assert(h.heap.upvals.items@[i] == g.heap.upvals.items@[i]);
        }
    }
    assert(h.heap.wf());
    lemma_refs_grow(g, g.heap.sizes(), h.heap.sizes());
}

/// Setting an entry of a map: the key holds the value, every other what it held.
pub proof fn lemma_map_put<K, V>(a: Seq<(K, V)>, b: Seq<(K, V)>, k: K, v: V)
    requires
        keys_once(a),
        (exists|i: int| 0 <= i < a.len() && (#[trigger] a[i]).0 == k && b == a.update(i, (k, v))) || (b == a.push(
            (k, v),
        ) && forall|i: int| 0 <= i < a.len() ==> (#[trigger] a[i]).0 != k),
    ensures
        keys_once(b),
        map_get(b, k) == Some(v),
        forall|q: K| q != k ==> #[trigger] map_get(b, q) == map_get(a, q),
{
    let at = if b.len() == a.len() {
        choose|i: int| 0 <= i < a.len() && (#[trigger] a[i]).0 == k && b == a.update(i, (k, v))
    } else {
        a.len() as int
    };
    assert(b[at] == (k, v));
    assert forall|i: int| 0 <= i < a.len() && i != at implies #[trigger] b[i] == a[i] by {}
    assert forall|i: int, j: int| 0 <= i < j < b.len() implies (#[trigger] b[i]).0 != (#[trigger] b[j]).0 by {
        if i != at && j != at {
            assert(a[i].0 != a[j].0);
        } else if i == at {
            if b.len() == a.len() {
                assert(a[i].0 != a[j].0);
            }
        } else {
            if b.len() == a.len() {
                assert(a[i].0 != a[j].0);
            } else {
                assert(a[i].0 != k);
            }
        }
    }
    lemma_map_get(b, at);
    assert forall|q: K| q != k implies #[trigger] map_get(b, q) == map_get(a, q) by {
        if exists|i: int| 0 <= i < a.len() && (#[trigger] a[i]).0 == q {
            let i = choose|i: int| 0 <= i < a.len() && (#[trigger] a[i]).0 == q;
            assert(i != at);
            assert(b[i] == a[i]);
            lemma_map_get(a, i);
            lemma_map_get(b, i);
        } else {
            if exists|i: int| 0 <= i < b.len() && (#[trigger] b[i]).0 == q {
                let i = choose|i: int| 0 <= i < b.len() && (#[trigger] b[i]).0 == q;
                assert(i != at);
                assert(a[i].0 == q);
            }
        }
    }
}

impl GlobalState {
    /// Writes an open variable of another thread.
    pub fn upvalue_set_cross_thread(&mut self, tid: u64, idx: StackIdx, val: LuaValue)
        requires
            old(self).wf(),
            old(self).heap.ok(val),
            upval_far_ok(*old(self), UpVal::Open { thread: tid, idx: idx }),
        ensures
            final(self).wf(),
            final(self).heap == old(self).heap,
            far_written(*old(self), tid, idx, val, *final(self)),
    {
        if let Some(i) = self.find_thread(tid) {
            if self.threads[i].state.is_some() {
                self.set_in_thread(i, idx, val);
                return;
            }
        }
        self.set_in_mirror(tid, idx, val);
    }

    /// Writes a slot of a coroutine whose state is at hand.
    fn set_in_thread(&mut self, i: usize, idx: StackIdx, val: LuaValue)
        requires
            old(self).wf(),
            old(self).heap.ok(val),
            i < old(self).threads@.len(),
            old(self).threads@[i as int].state matches Some(s) && idx.0 < s.stack@.len(),
        ensures
            final(self).wf(),
            *final(self) == (GlobalState { threads: final(self).threads, ..*old(self) }),
            final(self).threads@.len() == old(self).threads@.len(),
            forall|j: int|
                0 <= j < old(self).threads@.len() && j != i ==> #[trigger] final(self).threads@[j]
                    == old(self).threads@[j],
            final(self).threads@[i as int].id == old(self).threads@[i as int].id,
            final(self).threads@[i as int].value == old(self).threads@[i as int].value,
            ({
                let s = old(self).threads@[i as int].state->0;
                &&& final(self).threads@[i as int].state matches Some(t)
                &&& t == (LuaState { stack: t.stack, ..s })
                &&& t.stack@ == s.stack@.update(idx.0 as int, val)
            }),
    {
        let ghost z = self.heap.sizes();
        assert(threads_ok(z, self.threads@));
        let mut st: Option<LuaState> = None;
        std::mem::swap(&mut st, &mut self.threads[i].state);
        if let Some(mut s) = st {
            s.set_at(idx, val);
            self.threads[i].state = Some(s);
        }
        proof {
            let ts = self.threads@;
            let us = old(self).threads@;
            assert(ts[i as int].state->0.wf(z));
            assert(threads_ok(z, ts)) by {
                assert forall|j: int| 0 <= j < ts.len() implies (#[trigger] ts[j]).value.0 < z.threads && (
                ts[j].state matches Some(x) ==> x.wf(z)) by {
                    assert(us[j].value.0 < z.threads);
                }
                assert forall|a: int, b: int| 0 <= a < b < ts.len() implies (#[trigger] ts[a]).id != (
                #[trigger] ts[b]).id by {
                    assert(us[a].id != us[b].id);
                }
            }
            assert forall|j: int| 0 <= j < ts.len() implies (#[trigger] ts[j]).id < self.next_thread_id by {
                assert(us[j].id < old(self).next_thread_id);
            }
            lemma_refs_but_threads(*old(self), *self);
        }
    }

    /// Writes a slot of the mirror.
    fn set_in_mirror(&mut self, tid: u64, idx: StackIdx, val: LuaValue)
        requires
            old(self).wf(),
            old(self).heap.ok(val),
        ensures
            final(self).wf(),
            *final(self) == (GlobalState { cross_thread_upvals: final(self).cross_thread_upvals, ..*old(self) }),
            map_get(final(self).cross_thread_upvals@, (tid, idx)) == Some(val),
            forall|k: (u64, StackIdx)|
                k != (tid, idx) ==> #[trigger] map_get(final(self).cross_thread_upvals@, k) == map_get(
                    old(self).cross_thread_upvals@,
                    k,
                ),
    {
        match find_slot(&self.cross_thread_upvals, tid, idx) {
            Some(i) => {
                self.cross_thread_upvals.set(i, ((tid, idx), val));
                assert(old(self).cross_thread_upvals@[i as int].0 == (tid, idx));
            },
            None => {
                self.cross_thread_upvals.push(((tid, idx), val));
            },
        }
        proof {
            lemma_map_put(old(self).cross_thread_upvals@, self.cross_thread_upvals@, (tid, idx), val);
            assert forall|j: int| 0 <= j < self.cross_thread_upvals@.len() implies self.heap.ok(
                (#[trigger] self.cross_thread_upvals@[j]).1,
            ) by {
                if j < old(self).cross_thread_upvals@.len() {
                    assert(self.heap.ok(old(self).cross_thread_upvals@[j].1));
                }
            }
        }
    }
}

/// Replacing the coroutines by others in order keeps the rest in order.
proof fn lemma_refs_but_threads(a: GlobalState, b: GlobalState)
    requires
        a.wf(),
        b == (GlobalState { threads: b.threads, ..a }),
        threads_ok(a.heap.sizes(), b.threads@),
        forall|i: int| 0 <= i < b.threads@.len() ==> (#[trigger] b.threads@[i]).id < b.next_thread_id,
    ensures
        b.wf(),
{
}

/// Reading a captured variable gives back what was written to it.
pub proof fn law_upvalue_write_read(
    s: LuaState,
    g: GlobalState,
    uv: UpValId,
    val: LuaValue,
    t: LuaState,
    h: GlobalState,
)
    requires
        g.wf(),
        uv.0 < g.heap.upvals.items@.len(),
        upval_near_ok(s, g.heap.upvals.items@[uv.0 as int]),
        upval_far_ok(g, g.heap.upvals.items@[uv.0 as int]),
        upval_written(s, g, uv, val, t, h),
    ensures
        upval_value(t, h, h.heap.upvals.items@[uv.0 as int]) == val,
{
    if let UpVal::Open { thread, idx } = g.heap.upvals.items@[uv.0 as int] {
        if thread != s.cached_thread_id {
            if g.thread_at(thread) is Some {
                let i = g.thread_at(thread)->0;
                assert(g.threads@[i].id == thread);
                assert(h.threads@[i].id == thread);
                let j = h.thread_at(thread)->0;
                assert(h.threads@[j].id == thread);
                assert(g.threads@[j].id == thread);
                assert(threads_ok(g.heap.sizes(), g.threads@));
                if i < j {
                    assert(g.threads@[i].id != g.threads@[j].id);
                } else if j < i {
                    assert(g.threads@[j].id != g.threads@[i].id);
                }
            } else if h.thread_at(thread) is Some {
                let j = h.thread_at(thread)->0;
                assert(h.threads@[j].id == thread);
                assert(g.threads@[j].id == thread);
            }
        }
    }
}

/// An open variable of another thread reads as the slot of that thread's stack where the
/// thread is registered and its state is at hand.
pub proof fn law_far_read(s: LuaState, g: GlobalState, i: int, idx: StackIdx)
    requires
        g.wf(),
        0 <= i < g.threads@.len(),
        g.threads@[i].state is Some,
        idx.0 < g.threads@[i].state->0.stack@.len(),
        g.threads@[i].id != s.cached_thread_id,
    ensures
        upval_value(s, g, UpVal::Open { thread: g.threads@[i].id, idx: idx }) == g.threads@[i].state->0.stack@[idx.0 as int],
{
    let id = g.threads@[i].id;
    let j = g.thread_at(id)->0;
    assert(g.threads@[j].id == id);
    assert(threads_ok(g.heap.sizes(), g.threads@));
    if j < i {
        assert(g.threads@[j].id != g.threads@[i].id);
    } else if i < j {
        assert(g.threads@[i].id != g.threads@[j].id);
    }
}

} // verus!
