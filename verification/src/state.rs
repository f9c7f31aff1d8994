//! Threads: the value stack and the chain of call frames.

use vstd::prelude::*;
use crate::callinfo::CallInfo;
use crate::heap::Sizes;
use crate::value::CallInfoIdx;
use crate::value::LuaValue;
use crate::value::StackIdx;
use crate::value::StrId;
use crate::value::UpValId;

verus! {

/// Slots that every stack keeps beyond its last usable one.
pub const EXTRA_STACK: usize = 5;

/// Slots that a native function is given.
pub const LUA_MINSTACK: usize = 20;

/// The size of a new stack.
pub const BASIC_STACK_SIZE: usize = 40;

/// The deepest nesting of native calls.
pub const LUAI_MAXCCALLS: u32 = 200;

/// A thread. `hookmask` and the two counters drive hooks, the low half of
/// `n_ccalls` counts nested native calls and its high half those that may not
/// yield.
pub struct LuaState {
    pub status: u8,
    pub allowhook: bool,
    pub nci: u32,
    pub top: StackIdx,
    pub stack_last: StackIdx,
    pub stack: Vec<LuaValue>,
    pub ci: CallInfoIdx,
    pub call_info: Vec<CallInfo>,
    pub openupval: Vec<UpValId>,
    pub legacy_open_upval_touched: bool,
    pub tbclist: Vec<StackIdx>,
    pub hooked: bool,
    pub hookmask: u8,
    pub basehookcount: i32,
    pub hookcount: i32,
    pub errfunc: isize,
    pub n_ccalls: u32,
    pub oldpc: u32,
    pub marked: u8,
    pub cached_thread_id: u64,
    pub gc_check_needed: bool,
}

/// Whether frames form a chain in the order in which they lie.
pub open spec fn chain(cis: Seq<CallInfo>) -> bool {
    &&& 0 < cis.len() <= u32::MAX
    &&& forall|i: int|
        #![trigger cis[i]]
        0 <= i < cis.len() ==> cis[i].previous == (if i == 0 {
            None
        } else {
            Some(CallInfoIdx((i - 1) as u32))
        }) && cis[i].next == (if i + 1 < cis.len() {
            Some(CallInfoIdx((i + 1) as u32))
        } else {
            None
        })
}

impl LuaState {
    /// Whether the thread is in order, given how many objects there are: its `top` is
    /// on the stack, its values exist, and its frames form a chain that `nci` counts.
    pub open spec fn wf(self, z: Sizes) -> bool {
        &&& self.top.0 <= self.stack@.len()
        &&& z.ok_all(self.stack@)
        &&& chain(self.call_info@)
        &&& self.ci.0 < self.call_info@.len()
        &&& self.nci == self.call_info@.len() - 1
        &&& forall|i: int| 0 <= i < self.openupval@.len() ==> (#[trigger] self.openupval@[i]).0 < z.upvals
    }

    /// The value of a slot, `nil` where the stack does not reach.
    pub open spec fn at(self, i: int) -> LuaValue {
        if 0 <= i < self.stack@.len() {
            self.stack@[i]
        } else {
            LuaValue::Nil
        }
    }

    /// The current frame.
    pub open spec fn cur(self) -> CallInfo {
        self.call_info@[self.ci.0 as int]
    }

    /// A frame.
    pub open spec fn frame(self, ci: CallInfoIdx) -> CallInfo {
        self.call_info@[ci.0 as int]
    }

    /// The thread with another frame in the place of one.
    pub open spec fn frame_set(self, ci: CallInfoIdx, c: CallInfo, after: LuaState) -> bool {
        &&& after == (LuaState { call_info: after.call_info, ..self })
        &&& after.call_info@ == self.call_info@.update(ci.0 as int, c)
    }

    /// A thread before its stack is made.
    pub fn blank(id: u64) -> (r: LuaState)
        ensures
            r.stack@.len() == 0,
            r.call_info@.len() == 0,
            r.openupval@.len() == 0,
            r.tbclist@.len() == 0,
            r == (LuaState {
                status: 0,
                allowhook: true,
                nci: 0,
                top: StackIdx(0),
                stack_last: StackIdx(0),
                stack: r.stack,
                ci: CallInfoIdx(0),
                call_info: r.call_info,
                openupval: r.openupval,
                legacy_open_upval_touched: false,
                tbclist: r.tbclist,
                hooked: false,
                hookmask: 0,
                basehookcount: 0,
                hookcount: 0,
                errfunc: 0,
                n_ccalls: 0,
                oldpc: 0,
                marked: 0,
                cached_thread_id: id,
                gc_check_needed: false,
            }),
    {
        LuaState {
            status: 0,
            allowhook: true,
            nci: 0,
            top: StackIdx(0),
            stack_last: StackIdx(0),
            stack: Vec::new(),
            ci: CallInfoIdx(0),
            call_info: Vec::new(),
            openupval: Vec::new(),
            legacy_open_upval_touched: false,
            tbclist: Vec::new(),
            hooked: false,
            hookmask: 0,
            basehookcount: 0,
            hookcount: 0,
            errfunc: 0,
            n_ccalls: 0,
            oldpc: 0,
            marked: 0,
            cached_thread_id: id,
            gc_check_needed: false,
        }
    }

    /// Pushes a value, growing the stack where it is full.
    pub fn push(&mut self, val: LuaValue)
        requires
            old(self).top.0 <= old(self).stack@.len(),
            old(self).top.0 < u32::MAX,
        ensures
            *final(self) == (LuaState {
                stack: final(self).stack,
                top: StackIdx((old(self).top.0 + 1) as u32),
                ..*old(self)
            }),
            final(self).stack@ == (if old(self).top.0 < old(self).stack@.len() {
                old(self).stack@.update(old(self).top.0 as int, val)
            } else {
                old(self).stack@.push(val)
            }),
            forall|z: Sizes| old(self).wf(z) && z.ok(val) ==> #[trigger] final(self).wf(z),
    {
        let top: usize = self.top.0 as usize;
        if top < self.stack.len() {
            self.stack.set(top, val);
        } else {
            self.stack.push(val);
        }
        self.top = StackIdx(self.top.0 + 1);
    }

    /// Pops the top value; `nil` from an empty stack.
    pub fn pop(&mut self) -> (v: LuaValue)
        requires
            old(self).top.0 <= old(self).stack@.len(),
        ensures
            old(self).top.0 == 0 ==> v == LuaValue::Nil && *final(self) == *old(self),
            old(self).top.0 > 0 ==> v == old(self).stack@[old(self).top.0 - 1] && *final(self) == (LuaState {
                top: StackIdx((old(self).top.0 - 1) as u32),
                ..*old(self)
            }),
            forall|z: Sizes| old(self).wf(z) ==> #[trigger] final(self).wf(z) && z.ok(v),
    {
        if self.top.0 == 0 {
            return LuaValue::Nil;
        }
        self.top = StackIdx(self.top.0 - 1);
        self.stack[self.top.0 as usize]
    }

    /// The value of a slot, `nil` where the stack does not reach.
    pub fn get_at(&self, idx: StackIdx) -> (v: LuaValue)
        ensures
            v == self.at(idx.0 as int),
            forall|z: Sizes| z.ok_all(self.stack@) ==> #[trigger] z.ok(v),
    {
        if (idx.0 as usize) < self.stack.len() {
            self.stack[idx.0 as usize]
        } else {
            LuaValue::Nil
        }
    }

    /// Writes a slot.
    pub fn set_at(&mut self, idx: StackIdx, v: LuaValue)
        requires
            idx.0 < old(self).stack@.len(),
        ensures
            *final(self) == (LuaState { stack: final(self).stack, ..*old(self) }),
            final(self).stack@ == old(self).stack@.update(idx.0 as int, v),
            forall|z: Sizes| old(self).wf(z) && z.ok(v) ==> #[trigger] final(self).wf(z),
    {
        self.stack.set(idx.0 as usize, v);
    }

    /// Lengthens the stack with `nil` to a number of slots.
    fn reach(&mut self, n: usize)
        ensures
            *final(self) == (LuaState { stack: final(self).stack, ..*old(self) }),
            final(self).stack@.len() == (if n > old(self).stack@.len() {
                n as nat
            } else {
                old(self).stack@.len()
            }),
            forall|i: int| 0 <= i < old(self).stack@.len() ==> #[trigger] final(self).stack@[i] == old(self).stack@[i],
            forall|i: int|
                old(self).stack@.len() <= i < final(self).stack@.len() ==> #[trigger] final(self).stack@[i]
                    == LuaValue::Nil,
            n <= old(self).stack@.len() ==> final(self).stack@ == old(self).stack@,
    {
        while self.stack.len() < n
            invariant
                *self == (LuaState { stack: self.stack, ..*old(self) }),
                self.stack@.len() >= old(self).stack@.len(),
                self.stack@.len() == old(self).stack@.len() || self.stack@.len() <= n,
                forall|i: int| 0 <= i < old(self).stack@.len() ==> #[trigger] self.stack@[i] == old(self).stack@[i],
                forall|i: int|
                    old(self).stack@.len() <= i < self.stack@.len() ==> #[trigger] self.stack@[i] == LuaValue::Nil,
            decreases n - self.stack@.len(),
        {
            self.stack.push(LuaValue::Nil);
        }
        assert(n <= old(self).stack@.len() ==> self.stack@ =~= old(self).stack@);
    }

    /// Sets `top`, growing the stack with `nil` where it does not reach. No slot that
    /// exists is changed.
    pub fn set_top(&mut self, idx: StackIdx)
        ensures
            *final(self) == (LuaState { stack: final(self).stack, top: idx, ..*old(self) }),
            idx.0 <= final(self).stack@.len(),
            final(self).stack@.len() == (if idx.0 > old(self).stack@.len() {
                idx.0 as nat
            } else {
                old(self).stack@.len()
            }),
            forall|i: int| #[trigger] final(self).at(i) == old(self).at(i),
            idx.0 <= old(self).stack@.len() ==> final(self).stack@ == old(self).stack@,
            forall|z: Sizes| old(self).wf(z) ==> #[trigger] final(self).wf(z),
    {
        self.reach(idx.0 as usize);
        self.top = idx;
        proof {
            assert forall|z: Sizes| old(self).wf(z) implies #[trigger] self.wf(z) by {
                assert forall|i: int| 0 <= i < self.stack@.len() implies z.ok(#[trigger] self.stack@[i]) by {
                    if i < old(self).stack@.len() {
                        assert(z.ok(old(self).stack@[i]));
                    }
                }
            }
        }
    }

    /// Sets `top` to a slot that the stack reaches.
    pub fn set_top_idx(&mut self, idx: StackIdx)
        requires
            idx.0 <= old(self).stack@.len(),
        ensures
            *final(self) == (LuaState { top: idx, ..*old(self) }),
            forall|z: Sizes| old(self).wf(z) ==> #[trigger] final(self).wf(z),
    {
        self.top = idx;
    }

    /// Lowers `top` by one, not below zero.
    pub fn dec_top(&mut self)
        ensures
            *final(self) == (LuaState {
                top: StackIdx(if old(self).top.0 > 0 {
                    (old(self).top.0 - 1) as u32
                } else {
                    0
                }),
                ..*old(self)
            }),
            forall|z: Sizes| old(self).wf(z) ==> #[trigger] final(self).wf(z),
    {
        if self.top.0 > 0 {
            self.top = StackIdx(self.top.0 - 1);
        }
    }

    /// Lowers `top` by some slots, not below zero.
    pub fn pop_n(&mut self, n: usize)
        ensures
            *final(self) == (LuaState {
                top: StackIdx(if old(self).top.0 > n {
                    (old(self).top.0 - n) as u32
                } else {
                    0
                }),
                ..*old(self)
            }),
            forall|z: Sizes| old(self).wf(z) ==> #[trigger] final(self).wf(z),
    {
        if self.top.0 as usize > n {
            self.top = StackIdx(self.top.0 - n as u32);
        } else {
            self.top = StackIdx(0);
        }
    }

    /// The top value without removing it; `nil` on an empty stack.
    pub fn peek_top(&self) -> (v: LuaValue)
        requires
            self.top.0 <= self.stack@.len(),
        ensures
            v == self.at(self.top.0 - 1),
    {
        if self.top.0 == 0 {
            return LuaValue::Nil;
        }
        self.stack[(self.top.0 - 1) as usize]
    }

    /// The string on top of the stack.
    pub fn peek_string_at_top(&self) -> (s: StrId)
        requires
            self.top.0 <= self.stack@.len(),
            self.at(self.top.0 - 1) is Str,
        ensures
            self.at(self.top.0 - 1) == LuaValue::Str(s),
    {
        match self.peek_top() {
            LuaValue::Str(s) => s,
            _ => StrId(0),
        }
    }

    /// Writes `nil` to a slot, where the stack reaches it.
    pub fn stack_set_nil(&mut self, idx: StackIdx)
        ensures
            *final(self) == (LuaState { stack: final(self).stack, ..*old(self) }),
            final(self).stack@ == (if idx.0 < old(self).stack@.len() {
                old(self).stack@.update(idx.0 as int, LuaValue::Nil)
            } else {
                old(self).stack@
            }),
    {
        let slot: usize = idx.0 as usize;
        if slot < self.stack.len() {
            self.stack.set(slot, LuaValue::Nil);
        }
    }

    /// Writes `nil` to the slots of a range, growing the stack to its end, and leaves
    /// `top`.
    pub fn clear_stack_range(&mut self, start: StackIdx, end: StackIdx)
        ensures
            *final(self) == (LuaState { stack: final(self).stack, ..*old(self) }),
            final(self).stack@.len() == (if start.0 < end.0 && end.0 > old(self).stack@.len() {
                end.0 as nat
            } else {
                old(self).stack@.len()
            }),
            forall|i: int| #[trigger]
                final(self).at(i) == (if start.0 <= i < end.0 {
                    LuaValue::Nil
                } else {
                    old(self).at(i)
                }),
    {
        if end.0 <= start.0 {
            return;
        }
        self.reach(end.0 as usize);
        let ghost grown = *self;
        let mut i: u32 = start.0;
        while i < end.0
            invariant
                start.0 <= i <= end.0 <= self.stack@.len(),
                *self == (LuaState { stack: self.stack, ..*old(self) }),
                self.stack@.len() == grown.stack@.len(),
                forall|j: int|
                    0 <= j < self.stack@.len() ==> #[trigger] self.stack@[j] == (if start.0 <= j < i {
                        LuaValue::Nil
                    } else {
                        grown.stack@[j]
                    }),
            decreases end.0 - i,
        {
            self.stack.set(i as usize, LuaValue::Nil);
            i = i + 1;
        }
    }

    /// The integer in a slot.
    pub fn get_int_at(&self, idx: StackIdx) -> (r: Option<i64>)
        ensures
            r == (match self.at(idx.0 as int) {
                LuaValue::Int(v) => Some(v),
                _ => None,
            }),
    {
        match self.get_at(idx) {
            LuaValue::Int(v) => Some(v),
            _ => None,
        }
    }

    /// The integers in two slots, where both hold one.
    pub fn get_int_pair_at(&self, rb: StackIdx, rc: StackIdx) -> (r: Option<(i64, i64)>)
        ensures
            r == (match (self.at(rb.0 as int), self.at(rc.0 as int)) {
                (LuaValue::Int(a), LuaValue::Int(b)) => Some((a, b)),
                _ => None,
            }),
    {
        match (self.get_at(rb), self.get_at(rc)) {
            (LuaValue::Int(a), LuaValue::Int(b)) => Some((a, b)),
            _ => None,
        }
    }

    /// The number in a slot, as a float.
    pub fn get_num_at(&self, idx: StackIdx) -> (r: Option<u64>)
        ensures
            r == crate::arith::spec_number_value(self.at(idx.0 as int)),
    {
        crate::arith::number_value(&self.get_at(idx))
    }

    /// The float in a slot. An integer does not count.
    pub fn get_float_at(&self, idx: StackIdx) -> (r: Option<u64>)
        ensures
            r == (match self.at(idx.0 as int) {
                LuaValue::Float(b) => Some(b),
                _ => None,
            }),
    {
        match self.get_at(idx) {
            LuaValue::Float(b) => Some(b),
            _ => None,
        }
    }

    /// The numbers in two slots as floats, where both hold one.
    pub fn get_num_pair_at(&self, rb: StackIdx, rc: StackIdx) -> (r: Option<(u64, u64)>)
        ensures
            r == (match (
                crate::arith::spec_number_value(self.at(rb.0 as int)),
                crate::arith::spec_number_value(self.at(rc.0 as int)),
            ) {
                (Some(a), Some(b)) => Some((a, b)),
                _ => None,
            }),
    {
        match (self.get_num_at(rb), self.get_num_at(rc)) {
            (Some(a), Some(b)) => Some((a, b)),
            _ => None,
        }
    }

    /// Gives the stack a number of slots, cutting it or lengthening it with `nil`.
    pub fn stack_resize(&mut self, size: usize)
        ensures
            *final(self) == (LuaState { stack: final(self).stack, ..*old(self) }),
            final(self).stack@.len() == size,
            forall|i: int| 0 <= i < size ==> #[trigger] final(self).stack@[i] == old(self).at(i),
    {
        if size < self.stack.len() {
            self.stack.truncate(size);
        }
        self.reach(size);
    }

    /// Gives the stack a number of usable slots, cutting it or lengthening it with `nil`.
    pub fn realloc_stack(&mut self, size: usize)
        requires
            size + EXTRA_STACK <= u32::MAX,
        ensures
            *final(self) == (LuaState {
                stack: final(self).stack,
                stack_last: StackIdx(size as u32),
                ..*old(self)
            }),
            final(self).stack@.len() == size + EXTRA_STACK,
            forall|i: int| 0 <= i < size + EXTRA_STACK ==> #[trigger] final(self).stack@[i] == old(self).at(i),
            forall|z: Sizes|
                old(self).wf(z) && old(self).top.0 <= size + EXTRA_STACK ==> #[trigger] final(self).wf(z),
    {
        self.stack_resize(size + EXTRA_STACK);
        self.stack_last = StackIdx(size as u32);
    }

    /// The number of slots between `top` and the last usable one.
    pub fn stack_available(&self) -> (r: usize)
        ensures
            r == (if self.stack_last.0 > self.top.0 {
                self.stack_last.0 - self.top.0
            } else {
                0
            }),
    {
        if self.stack_last.0 > self.top.0 {
            (self.stack_last.0 - self.top.0) as usize
        } else {
            0
        }
    }

    /// Whether the stack has to grow before `n` more values are pushed.
    pub fn needs_growth(&self, n: i32) -> (r: bool)
        requires
            self.stack_last.0 <= i32::MAX,
            self.top.0 <= i32::MAX,
        ensures
            r == (self.stack_last.0 - self.top.0 <= n),
    {
        self.stack_last.0 as i32 - self.top.0 as i32 <= n
    }

    /// The number of usable slots.
    pub fn stack_size(&self) -> (r: usize)
        ensures
            r == self.stack_last.0,
    {
        self.stack_last.0 as usize
    }

    /// How many slots the collector has to treat as live: those below `top`.
    pub fn gc_trace_bound(&self) -> (r: usize)
        ensures
            r == (if self.top.0 <= self.stack@.len() {
                self.top.0 as nat
            } else {
                self.stack@.len()
            }),
    {
        if self.top.0 as usize <= self.stack.len() {
            self.top.0 as usize
        } else {
            self.stack.len()
        }
    }

    /// Writes `nil` to every slot above `top`.
    pub fn clear_dead_stack_tail(&mut self)
        ensures
            *final(self) == (LuaState { stack: final(self).stack, ..*old(self) }),
            final(self).stack@.len() == old(self).stack@.len(),
            forall|i: int|
                0 <= i < old(self).stack@.len() ==> #[trigger] final(self).stack@[i] == (if i < old(self).top.0 {
                    old(self).stack@[i]
                } else {
                    LuaValue::Nil
                }),
            forall|z: Sizes| old(self).wf(z) ==> #[trigger] final(self).wf(z),
    {
        let mut i: usize = self.gc_trace_bound();
        let ghost bound = i;
        while i < self.stack.len()
            invariant
                bound <= i <= self.stack@.len(),
                bound == old(self).top.0 || (bound == old(self).stack@.len() && bound < old(self).top.0),
                *self == (LuaState { stack: self.stack, ..*old(self) }),
                self.stack@.len() == old(self).stack@.len(),
                forall|j: int|
                    0 <= j < self.stack@.len() ==> #[trigger] self.stack@[j] == (if bound <= j < i {
                        LuaValue::Nil
                    } else {
                        old(self).stack@[j]
                    }),
            decreases self.stack@.len() - i,
        {
            self.stack.set(i, LuaValue::Nil);
            i = i + 1;
        }
        proof {
            assert forall|z: Sizes| old(self).wf(z) implies #[trigger] self.wf(z) by {
                assert forall|j: int| 0 <= j < self.stack@.len() implies z.ok(#[trigger] self.stack@[j]) by {
                    assert(z.ok(old(self).stack@[j]));
                }
            }
        }
    }
}

/// A stack with a value stored at a place in it or right behind it.
pub open spec fn stored_at(s: Seq<LuaValue>, at: int, v: LuaValue) -> Seq<LuaValue> {
    if at < s.len() {
        s.update(at, v)
    } else {
        s.push(v)
    }
}

} // verus!
