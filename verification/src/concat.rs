//! Concatenation of the values on top of a stack.

use vstd::prelude::*;
use vstd::string::StringSliceAdditionalSpecFns;
use crate::global::GlobalState;
use crate::global::intern_grown;
use crate::global::lemma_intern_grown_trans;
use crate::global::lemma_state_grow;
use crate::heap::Heap;
use crate::heap::heap_extends;
use crate::heap::lemma_extends_trans;
use crate::heap::lemma_heap_extends;
use crate::state::LuaState;
use crate::string::MAX_SHORT_LEN;
use crate::value::LuaError;
use crate::value::LuaValue;
use crate::value::StackIdx;
use crate::value::StrId;
use crate::value::is_runtime_msg;
use crate::value::runtime_error;

verus! {

/// The bytes of a string value.
pub open spec fn text(h: Heap, v: LuaValue) -> Seq<u8> {
    match v {
        LuaValue::Str(s) => h.bytes(s),
        _ => Seq::empty(),
    }
}

/// The bytes of some string values, one after the other.
pub open spec fn joined(h: Heap, vs: Seq<LuaValue>) -> Seq<u8>
    decreases vs.len(),
{
    if vs.len() == 0 {
        Seq::empty()
    } else {
        joined(h, vs.drop_last()) + text(h, vs.last())
    }
}

/// Joining two runs is joining them one after the other.
proof fn lemma_joined_split(h: Heap, a: Seq<LuaValue>, b: Seq<LuaValue>)
    ensures
        joined(h, a + b) == joined(h, a) + joined(h, b),
    decreases b.len(),
{
    if b.len() == 0 {
        assert(a + b =~= a);
        assert(joined(h, b) =~= Seq::<u8>::empty());
        assert(joined(h, a) + joined(h, b) =~= joined(h, a));
    } else {
        assert((a + b).drop_last() =~= a + b.drop_last());
        assert((a + b).last() == b.last());
        lemma_joined_split(h, a, b.drop_last());
        assert(joined(h, a) + (joined(h, b.drop_last()) + text(h, b.last())) =~= (joined(h, a) + joined(
            h,
            b.drop_last(),
        )) + text(h, b.last()));
    }
}

proof fn lemma_joined_one(h: Heap, v: LuaValue)
    ensures
        joined(h, seq![v]) == text(h, v),
{
    assert(seq![v].drop_last() =~= Seq::<LuaValue>::empty());
    assert(joined(h, Seq::<LuaValue>::empty()) =~= Seq::<u8>::empty());
    assert(joined(h, seq![v]) =~= text(h, v));
}

/// New objects change no text.
proof fn lemma_joined_grow(a: Heap, b: Heap, vs: Seq<LuaValue>)
    requires
        a.wf(),
        heap_extends(a, b),
        a.sizes().ok_all(vs),
    ensures
        joined(a, vs) == joined(b, vs),
    decreases vs.len(),
{
    if vs.len() > 0 {
        assert(a.ok(vs.last()));
        assert forall|i: int| 0 <= i < vs.drop_last().len() implies a.ok(#[trigger] vs.drop_last()[i]) by {
            assert(vs.drop_last()[i] == vs[i]);
        }
        lemma_joined_grow(a, b, vs.drop_last());
        lemma_heap_extends(a, b);
    }
}

/// Whether a value is a string or a number, which concatenation takes as it is.
pub open spec fn is_textual(v: LuaValue) -> bool {
    v is Str || v.spec_is_number()
}

fn textual(v: &LuaValue) -> (r: bool)
    ensures
        r == is_textual(*v),
{
    match v {
        LuaValue::Str(_) => true,
        _ => v.is_number(),
    }
}

/// How far a concatenation has come, with `left` values still to be joined.
#[derive(Debug, Clone, Copy, PartialEq, Eq, Structural)]
pub enum ConcatOutcome {
    /// All is one value.
    Done,
    /// The number in this slot has to become a string first.
    NeedText { at: StackIdx, left: u32 },
    /// The two top values are for a metamethod, whose result replaces both.
    NeedTm { left: u32 },
}

impl ConcatOutcome {
    /// How many values are still to be joined.
    pub open spec fn left(self) -> int {
        match self {
            ConcatOutcome::Done => 1,
            ConcatOutcome::NeedText { at, left } => left as int,
            ConcatOutcome::NeedTm { left } => left as int,
        }
    }
}

/// The top `total` values of a thread.
pub open spec fn top_values(s: LuaState, total: int) -> Seq<LuaValue> {
    s.stack@.subrange(s.top.0 - total, s.top.0 as int)
}

/// Whether `left` of the top `total` values are left to be joined: the strings above
/// have become one string with all their bytes, and nothing below has changed. Where a string
/// was made the collector is worth a look.
pub open spec fn partly_joined(s: LuaState, g: GlobalState, total: int, left: int, t: LuaState, h: GlobalState) -> bool {
    let vs = top_values(s, total);
    &&& 1 <= left <= total
    &&& t == (LuaState {
        stack: t.stack,
        top: StackIdx((s.top.0 - (total - left)) as u32),
        gc_check_needed: s.gc_check_needed || h.heap.strs().len() > g.heap.strs().len(),
        ..s
    })
    &&& t.stack@.len() == s.stack@.len()
    &&& forall|i: int| 0 <= i < t.top.0 - 1 ==> #[trigger] t.stack@[i] == s.stack@[i]
    &&& left == total ==> t.stack@[t.top.0 - 1] == s.stack@[t.top.0 - 1]
    &&& left < total ==> {
        &&& forall|i: int| left - 1 <= i < total ==> #[trigger] vs[i] is Str
        &&& t.stack@[t.top.0 - 1] is Str
        &&& text(h.heap, t.stack@[t.top.0 - 1]) == joined(g.heap, vs.subrange(left - 1, total))
    }
}

impl LuaState {
    /// The bytes of the top `n` values, which are strings.
    fn copy_to_buf(&self, g: &GlobalState, n: u32) -> (buf: Vec<u8>)
        requires
            g.wf(),
            self.wf(g.heap.sizes()),
            n <= self.top.0,
        ensures
            buf@ == joined(g.heap, top_values(*self, n as int)),
    {
        let mut buf: Vec<u8> = Vec::new();
        let mut left: u32 = n;
        let ghost vs = top_values(*self, n as int);
        assert(vs.subrange(0, 0) =~= Seq::<LuaValue>::empty());
        assert(joined(g.heap, vs.subrange(0, 0)) =~= Seq::<u8>::empty());
        while left > 0
            invariant
                left <= n <= self.top.0,
                self.wf(g.heap.sizes()),
                g.wf(),
                vs == top_values(*self, n as int),
                buf@ == joined(g.heap, vs.subrange(0, n - left)),
            decreases left,
        {
            let i: usize = (self.top.0 - left) as usize;
            let v: LuaValue = self.stack[i];
            proof {
                let k = n - left;
                assert(vs[k] == v);
                assert(vs.subrange(0, k + 1).drop_last() =~= vs.subrange(0, k));
                assert(vs.subrange(0, k + 1).last() == v);
                assert(g.heap.ok(self.stack@[i as int]));
                assert(buf@ + Seq::<u8>::empty() =~= buf@);
            }
            if let LuaValue::Str(s) = v {
                buf.extend_from_slice(g.heap.strings.items[s.0].bytes.as_slice());
            }
            left = left - 1;
        }
        assert(vs.subrange(0, n as int) =~= vs);
        buf
    }

    /// Writes the text of the number in a slot over it.
    pub fn set_text(&mut self, g: &mut GlobalState, at: StackIdx, bytes: &[u8])
        requires
            old(g).wf(),
            old(self).wf(old(g).heap.sizes()),
            at.0 < old(self).stack@.len(),
        ensures
            final(g).wf(),
            final(self).wf(final(g).heap.sizes()),
            heap_extends(old(g).heap, final(g).heap),
            *final(g) == (GlobalState {
                heap: final(g).heap,
                interned_lt: final(g).interned_lt,
                ..*old(g)
            }),
            intern_grown(*old(g), *final(g)),
            *final(self) == (LuaState {
                stack: final(self).stack,
                gc_check_needed: old(self).gc_check_needed || !(bytes@.len() <= MAX_SHORT_LEN && old(g).interned(
                    bytes@,
                )),
                ..*old(self)
            }),
            final(self).stack@ == old(self).stack@.update(at.0 as int, final(self).stack@[at.0 as int]),
            final(self).stack@[at.0 as int] is Str,
            text(final(g).heap, final(self).stack@[at.0 as int]) == bytes@,
    {
        let (s, made) = g.intern_str(bytes);
        if made {
            self.gc_check_needed = true;
        }
        proof {
            lemma_heap_extends(old(g).heap, g.heap);
            lemma_state_grow(*self, old(g).heap.sizes(), g.heap.sizes());
        }
        self.set_at(at, LuaValue::Str(s));
    }

    /// Joins the top `total` values into one, as far as it goes without a number's text
    /// or a metamethod. A text that is missing is asked for, highest slot first.
    pub fn concat(&mut self, g: &mut GlobalState, total: u32) -> (r: Result<ConcatOutcome, LuaError>)
        requires
            old(g).wf(),
            old(self).wf(old(g).heap.sizes()),
            1 <= total <= old(self).top.0,
        ensures
            final(g).wf(),
            final(self).wf(final(g).heap.sizes()),
            heap_extends(old(g).heap, final(g).heap),
            *final(g) == (GlobalState {
                heap: final(g).heap,
                interned_lt: final(g).interned_lt,
                ..*old(g)
            }),
            intern_grown(*old(g), *final(g)),
            r matches Ok(o) ==> {
                &&& partly_joined(*old(self), *old(g), total as int, o.left(), *final(self), *final(g))
                &&& match o {
                    ConcatOutcome::Done => true,
                    ConcatOutcome::NeedText { at, left } => {
                        &&& left >= 2
                        &&& final(self).top.0 - left <= at.0 < final(self).top.0
                        &&& final(self).stack@[at.0 as int].spec_is_number()
                        &&& forall|i: int| at.0 < i < final(self).top.0 ==> #[trigger] final(self).stack@[i] is Str
                        &&& is_textual(final(self).stack@[final(self).top.0 - 2])
                        &&& is_textual(final(self).stack@[final(self).top.0 - 1])
                    },
                    ConcatOutcome::NeedTm { left } => {
                        &&& left >= 2
                        &&& !(is_textual(final(self).stack@[final(self).top.0 - 2]) && is_textual(
                            final(self).stack@[final(self).top.0 - 1],
                        ))
                    },
                }
            },
            r matches Err(e) ==> {
                &&& is_runtime_msg(e, "string length overflow".spec_bytes())
                &&& exists|j: int|
                    0 <= j < total && (#[trigger] joined(
                        old(g).heap,
                        top_values(*old(self), total as int).subrange(j, total as int),
                    )).len() >= usize::MAX
                &&& *final(self) == (LuaState {
                    stack: final(self).stack,
                    top: StackIdx((old(self).top.0 - total) as u32),
                    gc_check_needed: old(self).gc_check_needed || final(g).heap.strs().len()
                        > old(g).heap.strs().len(),
                    ..*old(self)
                })
            },
    {
        let mut left: u32 = total;
        while left > 1
            invariant
                1 <= left <= total <= old(self).top.0,
                g.wf(),
                self.wf(g.heap.sizes()),
                old(g).wf(),
                old(self).wf(old(g).heap.sizes()),
                heap_extends(old(g).heap, g.heap),
                *g == (GlobalState { heap: g.heap, interned_lt: g.interned_lt, ..*old(g) }),
                intern_grown(*old(g), *g),
                partly_joined(*old(self), *old(g), total as int, left as int, *self, *g),
            decreases left,
        {
            let top: u32 = self.top.0;
            let v1: LuaValue = self.stack[(top - 1) as usize];
            let v2: LuaValue = self.stack[(top - 2) as usize];
            let s1: StrId;
            let s2: StrId;
            if !textual(&v1) || !textual(&v2) {
                return Ok(ConcatOutcome::NeedTm { left: left });
            }
            match v1 {
                LuaValue::Str(s) => {
                    s1 = s;
                },
                _ => {
                    return Ok(ConcatOutcome::NeedText { at: StackIdx(top - 1), left: left });
                },
            }
            match v2 {
                LuaValue::Str(s) => {
                    s2 = s;
                },
                _ => {
                    return Ok(ConcatOutcome::NeedText { at: StackIdx(top - 2), left: left });
                },
            }
            let ghost now = *self;
            let ghost gnow = *g;
            assert(g.heap.ok(self.stack@[top - 1]) && g.heap.ok(self.stack@[top - 2]));
            if g.heap.strings.items[s1.0].bytes.len() == 0 {
                proof {
                    lemma_joined_two(g.heap, *self);
                    assert(text(g.heap, v2) + text(g.heap, v1) =~= text(g.heap, v2));
                }
                self.set_top(StackIdx(top - 1));
                proof {
                    lemma_join_step(*old(self), *old(g), total as int, left as int, now, gnow, *self, *g, 2);
                }
                left = left - 1;
            } else if g.heap.strings.items[s2.0].bytes.len() == 0 {
                proof {
                    lemma_joined_two(g.heap, *self);
                    assert(text(g.heap, v2) + text(g.heap, v1) =~= text(g.heap, v1));
                }
                self.set_at(StackIdx(top - 2), v1);
                self.set_top(StackIdx(top - 1));
                proof {
                    lemma_join_step(*old(self), *old(g), total as int, left as int, now, gnow, *self, *g, 2);
                }
                left = left - 1;
            } else {
                match self.scan_run(g, left) {
                    RunScan::Number(at) => {
                        return Ok(ConcatOutcome::NeedText { at: at, left: left });
                    },
                    RunScan::TooLong(n) => {
                        proof {
                            lemma_top_run(*old(self), *old(g), total as int, left as int, *self, *g, n as int);
                            let vs = top_values(*old(self), total as int);
                            assert(joined(old(g).heap, vs.subrange(left - n, total as int)).len() >= usize::MAX);
                        }
                        self.set_top(StackIdx(top - left));
                        return Err(runtime_error("string length overflow"));
                    },
                    RunScan::Run(n) => {
                        self.join_top(g, n);
                        proof {
                            lemma_extends_trans(old(g).heap, gnow.heap, g.heap);
                            lemma_intern_grown_trans(*old(g), gnow, *g);
                            lemma_join_step(
                                *old(self),
                                *old(g),
                                total as int,
                                left as int,
                                now,
                                gnow,
                                *self,
                                *g,
                                n as int,
                            );
                        }
                        left = left - (n - 1);
                    },
                }
            }
        }
        Ok(ConcatOutcome::Done)
    }

    /// Finds the run of strings on top, among the top `left` values.
    fn scan_run(&self, g: &GlobalState, left: u32) -> (r: RunScan)
        requires
            g.wf(),
            self.wf(g.heap.sizes()),
            2 <= left <= self.top.0,
            self.stack@[self.top.0 - 1] is Str,
            self.stack@[self.top.0 - 2] is Str,
        ensures
            match r {
                RunScan::Run(n) => 2 <= n <= left && forall|i: int|
                    self.top.0 - n <= i < self.top.0 ==> #[trigger] self.stack@[i] is Str,
                RunScan::Number(at) => self.top.0 - left <= at.0 < self.top.0 - 2
                    && self.stack@[at.0 as int].spec_is_number() && forall|i: int|
                    at.0 < i < self.top.0 ==> #[trigger] self.stack@[i] is Str,
                RunScan::TooLong(n) => 2 <= n <= left && joined(g.heap, top_values(*self, n as int)).len()
                    >= usize::MAX,
            },
    {
        let top: u32 = self.top.0;
        let mut count: u32 = 0;
        let mut total_len: usize = 0;
        assert(top_values(*self, 0) =~= Seq::<LuaValue>::empty());
        assert(joined(g.heap, top_values(*self, 0)) =~= Seq::<u8>::empty());
        while count < left
            invariant
                count <= left <= top,
                left >= 2,
                top == self.top.0,
                g.wf(),
                self.wf(g.heap.sizes()),
                self.stack@[top - 1] is Str,
                self.stack@[top - 2] is Str,
                forall|i: int| top - count <= i < top ==> #[trigger] self.stack@[i] is Str,
                total_len == joined(g.heap, top_values(*self, count as int)).len(),
            ensures
                2 <= count <= left,
                forall|i: int| top - count <= i < top ==> #[trigger] self.stack@[i] is Str,
            decreases left - count,
        {
            let at: u32 = top - (count + 1);
            let v: LuaValue = self.stack[at as usize];
            match v {
                LuaValue::Str(s) => {
                    assert(g.heap.ok(self.stack@[at as int]));
                    let l: usize = g.heap.strings.items[s.0].bytes.len();
                    proof {
                        let a = seq![v];
                        let b = top_values(*self, count as int);
                        assert(top_values(*self, count + 1) =~= a + b);
                        lemma_joined_split(g.heap, a, b);
                        lemma_joined_one(g.heap, v);
                    }
                    if count > 0 && l >= usize::MAX - total_len {
                        return RunScan::TooLong(count + 1);
                    }
                    total_len = total_len + l;
                    count = count + 1;
                },
                _ => {
                    if v.is_number() {
                        return RunScan::Number(StackIdx(at));
                    }
                    break;
                },
            }
        }
        RunScan::Run(count)
    }

    /// Puts one string in the place of the top `n` values.
    fn join_top(&mut self, g: &mut GlobalState, n: u32)
        requires
            old(g).wf(),
            old(self).wf(old(g).heap.sizes()),
            2 <= n <= old(self).top.0,
        ensures
            final(g).wf(),
            final(self).wf(final(g).heap.sizes()),
            heap_extends(old(g).heap, final(g).heap),
            *final(g) == (GlobalState {
                heap: final(g).heap,
                interned_lt: final(g).interned_lt,
                ..*old(g)
            }),
            intern_grown(*old(g), *final(g)),
            *final(self) == (LuaState {
                stack: final(self).stack,
                top: StackIdx((old(self).top.0 - n + 1) as u32),
                gc_check_needed: old(self).gc_check_needed || final(g).heap.strs().len() > old(g).heap.strs().len(),
                ..*old(self)
            }),
            final(self).stack@.len() == old(self).stack@.len(),
            forall|i: int|
                0 <= i < old(self).top.0 - n ==> #[trigger] final(self).stack@[i] == old(self).stack@[i],
            final(self).stack@[old(self).top.0 - n] is Str,
            text(final(g).heap, final(self).stack@[old(self).top.0 - n]) == joined(
                old(g).heap,
                top_values(*old(self), n as int),
            ),
    {
        let top: u32 = self.top.0;
        let buf: Vec<u8> = self.copy_to_buf(g, n);
        let (s, made) = g.intern_str(buf.as_slice());
        if made {
            self.gc_check_needed = true;
        }
        proof {
            lemma_heap_extends(old(g).heap, g.heap);
            lemma_state_grow(*self, old(g).heap.sizes(), g.heap.sizes());
        }
        self.set_at(StackIdx(top - n), LuaValue::Str(s));
        self.set_top(StackIdx(top - n + 1));
    }
}

/// What lies on top of a stack whose two top values are strings.
enum RunScan {
    /// This many strings.
    Run(u32),
    /// Strings down to a number in this slot.
    Number(StackIdx),
    /// This many strings, with more bytes than a length can hold.
    TooLong(u32),
}

proof fn lemma_joined_two(h: Heap, s: LuaState)
    requires
        2 <= s.top.0 <= s.stack@.len(),
    ensures
        joined(h, top_values(s, 2)) == text(h, s.stack@[s.top.0 - 2]) + text(h, s.stack@[s.top.0 - 1]),
{
    let a = seq![s.stack@[s.top.0 - 2]];
    let b = seq![s.stack@[s.top.0 - 1]];
    assert(top_values(s, 2) =~= a + b);
    lemma_joined_split(h, a, b);
    lemma_joined_one(h, a[0]);
    lemma_joined_one(h, b[0]);
}

/// Joining the top `n` strings of a partly joined run goes on with it.
proof fn lemma_join_step(
    s: LuaState,
    g: GlobalState,
    total: int,
    left: int,
    t: LuaState,
    h: GlobalState,
    t2: LuaState,
    h2: GlobalState,
    n: int,
)
    requires
        g.wf(),
        h.wf(),
        s.wf(g.heap.sizes()),
        t.wf(h.heap.sizes()),
        1 <= total <= s.top.0,
        heap_extends(g.heap, h.heap),
        partly_joined(s, g, total, left, t, h),
        2 <= n <= left,
        forall|i: int| t.top.0 - n <= i < t.top.0 ==> #[trigger] t.stack@[i] is Str,
        t2 == (LuaState {
            stack: t2.stack,
            top: StackIdx((t.top.0 - n + 1) as u32),
            gc_check_needed: t.gc_check_needed || h2.heap.strs().len() > h.heap.strs().len(),
            ..t
        }),
        h.heap.strs().len() <= h2.heap.strs().len(),
        t2.stack@.len() == t.stack@.len(),
        forall|i: int| 0 <= i < t.top.0 - n ==> #[trigger] t2.stack@[i] == t.stack@[i],
        t2.stack@[t.top.0 - n] is Str,
        text(h2.heap, t2.stack@[t.top.0 - n]) == joined(h.heap, top_values(t, n)),
    ensures
        partly_joined(s, g, total, left - n + 1, t2, h2),
{
    let vs = top_values(s, total);
    lemma_top_run(s, g, total, left, t, h, n);
    let rest = left - n + 1;
    assert forall|i: int| rest - 1 <= i < total implies #[trigger] vs[i] is Str by {
        let base = s.top.0 - total;
        if i < left {
            assert(t.stack@[base + i] is Str);
            if i < left - 1 || left == total {
                assert(t.stack@[base + i] == s.stack@[base + i]);
            }
        }
    }
}

proof fn lemma_text_grow(a: Heap, b: Heap, v: LuaValue)
    requires
        a.wf(),
        heap_extends(a, b),
        a.ok(v),
    ensures
        text(a, v) == text(b, v),
{
    lemma_heap_extends(a, b);
}

/// The text on top is that of the strings it stands for.
proof fn lemma_top_text(s: LuaState, g: GlobalState, total: int, left: int, t: LuaState, h: GlobalState)
    requires
        g.wf(),
        s.wf(g.heap.sizes()),
        1 <= total <= s.top.0,
        heap_extends(g.heap, h.heap),
        partly_joined(s, g, total, left, t, h),
    ensures
        text(h.heap, t.stack@[t.top.0 - 1]) == joined(
            g.heap,
            top_values(s, total).subrange(left - 1, total),
        ),
        left == total ==> t.stack@[t.top.0 - 1] == top_values(s, total)[left - 1],
{
    let vs = top_values(s, total);
    if left == total {
        assert(vs.subrange(left - 1, total) =~= seq![vs[left - 1]]);
        lemma_joined_one(g.heap, vs[left - 1]);
        assert(g.heap.ok(s.stack@[s.top.0 - 1]));
        lemma_text_grow(g.heap, h.heap, vs[left - 1]);
    }
}

/// The run of strings on top is the run it stands for.
proof fn lemma_top_run(s: LuaState, g: GlobalState, total: int, left: int, t: LuaState, h: GlobalState, n: int)
    requires
        g.wf(),
        h.wf(),
        s.wf(g.heap.sizes()),
        t.wf(h.heap.sizes()),
        1 <= total <= s.top.0,
        heap_extends(g.heap, h.heap),
        partly_joined(s, g, total, left, t, h),
        1 <= n <= left,
    ensures
        joined(h.heap, top_values(t, n)) == joined(
            g.heap,
            top_values(s, total).subrange(left - n, total),
        ),
{
    let vs = top_values(s, total);
    let a = vs.subrange(left - n, left - 1);
    let b = vs.subrange(left - 1, total);
    let w = top_values(t, n);
    let last = t.stack@[t.top.0 - 1];
    assert(vs.subrange(left - n, total) =~= a + b);
    assert(w =~= a + seq![last]);
    lemma_joined_split(g.heap, a, b);
    lemma_joined_split(h.heap, a, seq![last]);
    lemma_joined_one(h.heap, last);
    lemma_top_text(s, g, total, left, t, h);
    assert forall|i: int| 0 <= i < a.len() implies g.heap.ok(#[trigger] a[i]) by {
        assert(a[i] == s.stack@[s.top.0 - total + left - n + i]);
    }
    lemma_joined_grow(g.heap, h.heap, a);
}

/// Joining strings gives the string of all their bytes: a concatenation of strings
/// that is done has put one string in the place of all, and it reads as they do one
/// after the other.
pub proof fn law_concat_strings(s: LuaState, g: GlobalState, total: int, t: LuaState, h: GlobalState)
    requires
        2 <= total <= s.top.0,
        s.top.0 <= s.stack@.len(),
        partly_joined(s, g, total, 1, t, h),
    ensures
        t.top.0 == s.top.0 - total + 1,
        text(h.heap, t.stack@[t.top.0 - 1]) == joined(g.heap, top_values(s, total)),
{
    assert(top_values(s, total).subrange(0, total) =~= top_values(s, total));
}

/// Joined bytes are those of the one string where there is one, and of two runs of strings
/// those of the first before those of the second.
pub proof fn law_joined(h: Heap, s: StrId, a: Seq<LuaValue>, b: Seq<LuaValue>)
    ensures
        joined(h, seq![LuaValue::Str(s)]) == h.strings.items@[s.0 as int].bytes@,
        joined(h, a + b) == joined(h, a) + joined(h, b),
        joined(h, Seq::<LuaValue>::empty()) == Seq::<u8>::empty(),
{
    lemma_joined_one(h, LuaValue::Str(s));
    lemma_joined_split(h, a, b);
}

} // verus!
