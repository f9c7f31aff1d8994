//! Values held alive from outside the runtime.

use vstd::prelude::*;
use crate::value::LuaValue;

verus! {

/// The key of a held value. A key whose slot has been reused is told from the
/// new one by its generation.
#[derive(Debug, Clone, Copy, PartialEq, Eq, Hash, Structural)]
pub struct ExternalRootKey {
    pub index: usize,
    pub generation: u64,
}

/// A slot for a held value, with the generation of its last key.
#[derive(Debug, Clone, Copy, PartialEq, Eq, Structural)]
pub struct ExternalRootSlot {
    pub value: Option<LuaValue>,
    pub generation: u64,
}

/// The held values. Slots that have become vacant are listed in `free` and used
/// again.
pub struct ExternalRootSet {
    pub slots: Vec<ExternalRootSlot>,
    pub free: Vec<usize>,
    pub live: usize,
}

impl ExternalRootSet {
    /// The vacant slots are exactly those listed, each once, and `live` counts the
    /// others.
    pub open spec fn wf(self) -> bool {
        &&& forall|i: int|
            #![trigger self.free@[i]]
            0 <= i < self.free@.len() ==> self.free@[i] < self.slots@.len()
                && self.slots@[self.free@[i] as int].value is None
        &&& forall|i: int, j: int|
            #![trigger self.free@[i], self.free@[j]]
            0 <= i < j < self.free@.len() ==> self.free@[i] != self.free@[j]
        &&& forall|s: int|
            #![trigger self.slots@[s]]
            0 <= s < self.slots@.len() && self.slots@[s].value is None ==> self.free@.contains(s as usize)
        &&& self.live + self.free@.len() == self.slots@.len()
    }

    /// The value that a key holds.
    pub open spec fn held(self, key: ExternalRootKey) -> Option<LuaValue> {
        if key.index < self.slots@.len() && self.slots@[key.index as int].generation == key.generation {
            self.slots@[key.index as int].value
        } else {
            None
        }
    }

    /// The generation after another.
    pub open spec fn next_generation(g: u64) -> u64 {
        if g == u64::MAX {
            1
        } else {
            (g + 1) as u64
        }
    }

    /// What inserting a value does: a vacant slot, the last one listed, is used again
    /// under a new generation, else a slot is added; no other key sees a change.
    pub open spec fn inserted(
        a: ExternalRootSet,
        b: ExternalRootSet,
        key: ExternalRootKey,
        value: LuaValue,
    ) -> bool {
        &&& b.held(key) == Some(value)
        &&& a.held(key) is None
        &&& forall|k: ExternalRootKey| k != key ==> #[trigger] b.held(k) == a.held(k)
        &&& b.live == a.live + 1
        &&& a.free@.len() > 0 ==> {
            &&& key.index == a.free@.last()
            &&& key.generation == ExternalRootSet::next_generation(a.slots@[key.index as int].generation)
            &&& b.free@ == a.free@.drop_last()
            &&& b.slots@ == a.slots@.update(
                key.index as int,
                ExternalRootSlot { value: Some(value), generation: key.generation },
            )
        }
        &&& a.free@.len() == 0 ==> {
            &&& key.index == a.slots@.len()
            &&& key.generation == 1
            &&& b.free@.len() == 0
            &&& b.slots@ == a.slots@.push(ExternalRootSlot { value: Some(value), generation: 1 })
        }
    }

    /// What removing a held value does: its slot becomes vacant and keeps its
    /// generation; no other key sees a change.
    pub open spec fn removed(a: ExternalRootSet, b: ExternalRootSet, key: ExternalRootKey) -> bool {
        &&& b.held(key) is None
        &&& forall|k: ExternalRootKey| k != key ==> #[trigger] b.held(k) == a.held(k)
        &&& b.live == a.live - 1
        &&& b.free@ == a.free@.push(key.index)
        &&& b.slots@ == a.slots@.update(
            key.index as int,
            ExternalRootSlot { value: None, generation: key.generation },
        )
    }

    /// Holds a value and returns its key. A vacant slot is used again under a new
    /// generation; no other key sees any change.
    pub fn insert(&mut self, value: LuaValue) -> (key: ExternalRootKey)
        requires
            old(self).wf(),
        ensures
            final(self).wf(),
            ExternalRootSet::inserted(*old(self), *final(self), key, value),
    {
        let ghost before = *self;
        let total: usize = self.slots.len();
        assert(self.live + self.free@.len() == total);
        match self.free.pop() {
            Some(index) => {
                let g: u64 = self.slots[index].generation;
                let generation: u64 = if g == u64::MAX {
                    1
                } else {
                    g + 1
                };
                self.slots.set(index, ExternalRootSlot { value: Some(value), generation });
                self.live = self.live + 1;
                proof {
                    let n = before.free@.len() - 1;
                    assert(before.free@[n] == index);
                    assert forall|i: int| 0 <= i < self.free@.len() implies #[trigger] self.free@[i]
                        == before.free@[i] && self.free@[i] != index by {
                        assert(before.free@[i] != before.free@[n]);
                    }
                    assert forall|s: int|
                        0 <= s < self.slots@.len() && (#[trigger] self.slots@[s]).value is None implies self.free@.contains(
                        s as usize,
                    ) by {
                        assert(s != index);
                        assert(before.slots@[s] == self.slots@[s]);
                        let i = choose|i: int| 0 <= i < before.free@.len() && before.free@[i] == s as usize;
                        assert(self.free@[i] == s as usize);
                    }
                }
                ExternalRootKey { index, generation }
            },
            None => {
                let index: usize = self.slots.len();
                self.slots.push(ExternalRootSlot { value: Some(value), generation: 1 });
                let grown: usize = self.slots.len();
                assert(grown == total + 1);
                self.live = self.live + 1;
                proof {
                    assert forall|s: int|
                        0 <= s < self.slots@.len() && (#[trigger] self.slots@[s]).value is None implies self.free@.contains(
                        s as usize,
                    ) by {
                        assert(before.slots@[s] == self.slots@[s]);
                    }
                }
                ExternalRootKey { index, generation: 1 }
            },
        }
    }

    /// The value that a key holds; `None` for a key that was removed.
    pub fn get(&self, key: ExternalRootKey) -> (r: Option<LuaValue>)
        ensures
            r == self.held(key),
    {
        if key.index < self.slots.len() && self.slots[key.index].generation == key.generation {
            self.slots[key.index].value
        } else {
            None
        }
    }

    /// Replaces the value that a key holds and returns the old one; does nothing for
    /// a key that was removed.
    pub fn replace(&mut self, key: ExternalRootKey, value: LuaValue) -> (r: Option<LuaValue>)
        requires
            old(self).wf(),
        ensures
            final(self).wf(),
            r == old(self).held(key),
            r is None ==> *final(self) == *old(self),
            r is Some ==> final(self).held(key) == Some(value),
            forall|k: ExternalRootKey| k != key ==> #[trigger] final(self).held(k) == old(self).held(k),
            final(self).live == old(self).live,
            final(self).free@ == old(self).free@,
            r is Some ==> final(self).slots@ == old(self).slots@.update(
                key.index as int,
                ExternalRootSlot { value: Some(value), generation: key.generation },
            ),
    {
        if key.index >= self.slots.len() {
            return None;
        }
        let slot: ExternalRootSlot = self.slots[key.index];
        if slot.generation != key.generation || slot.value.is_none() {
            return None;
        }
        let ghost before = *self;
        self.slots.set(key.index, ExternalRootSlot { value: Some(value), generation: slot.generation });
        proof {
            assert forall|s: int|
                0 <= s < self.slots@.len() && (#[trigger] self.slots@[s]).value is None implies self.free@.contains(
                s as usize,
            ) by {
                assert(before.slots@[s] == self.slots@[s]);
            }
        }
        slot.value
    }

    /// Lets go of the value that a key holds and returns it; does nothing for a key
    /// that was removed.
    pub fn remove(&mut self, key: ExternalRootKey) -> (r: Option<LuaValue>)
        requires
            old(self).wf(),
        ensures
            final(self).wf(),
            r == old(self).held(key),
            r is None ==> *final(self) == *old(self),
            r is Some ==> ExternalRootSet::removed(*old(self), *final(self), key),
    {
        if key.index >= self.slots.len() {
            return None;
        }
        let slot: ExternalRootSlot = self.slots[key.index];
        if slot.generation != key.generation || slot.value.is_none() {
            return None;
        }
        let ghost before = *self;
        let total: usize = self.slots.len();
        proof {
            assert(self.slots@.len() == total);
            if self.live == 0 {
                lemma_no_vacancy(*self, key.index as int);
            }
        }
        self.slots.set(key.index, ExternalRootSlot { value: None, generation: slot.generation });
        self.free.push(key.index);
        self.live = self.live - 1;
        proof {
            let n = before.free@.len() as int;
            assert(self.free@[n] == key.index);
            assert forall|i: int| 0 <= i < n implies #[trigger] self.free@[i] == before.free@[i]
                && before.free@[i] != key.index by {
                assert(before.slots@[before.free@[i] as int].value is None);
            }
            assert forall|s: int|
                0 <= s < self.slots@.len() && (#[trigger] self.slots@[s]).value is None implies self.free@.contains(
                s as usize,
            ) by {
                if s != key.index {
                    assert(before.slots@[s] == self.slots@[s]);
                    let i = choose|i: int| 0 <= i < before.free@.len() && before.free@[i] == s as usize;
                    assert(self.free@[i] == s as usize);
                }
            }
        }
        slot.value
    }

    /// The held values, in the order of their slots.
    pub fn iter_values(&self) -> (r: Vec<LuaValue>)
        ensures
            r@ == values_of(self.slots@, self.slots@.len() as int),
    {
        let mut out: Vec<LuaValue> = Vec::new();
        let mut i: usize = 0;
        while i < self.slots.len()
            invariant
                i <= self.slots@.len(),
                out@ == values_of(self.slots@, i as int),
            decreases self.slots@.len() - i,
        {
            if let Some(v) = self.slots[i].value {
                out.push(v);
            }
            i = i + 1;
        }
        out
    }

    /// The number of held values.
    pub fn len(&self) -> (n: usize)
        ensures
            n == self.live,
    {
        self.live
    }

    /// Whether nothing is held.
    pub fn is_empty(&self) -> (r: bool)
        ensures
            r == (self.live == 0),
    {
        self.live == 0
    }

    /// The number of vacant slots.
    pub fn vacant_len(&self) -> (n: usize)
        ensures
            n == self.free@.len(),
    {
        self.free.len()
    }
}

impl Default for ExternalRootSet {
    /// Nothing held.
    fn default() -> (r: Self)
        ensures
            r.wf(),
            r.live == 0,
            r.slots@.len() == 0,
            r.free@.len() == 0,
    {
        ExternalRootSet { slots: Vec::new(), free: Vec::new(), live: 0 }
    }
}

/// The values of the first `n` slots.
pub open spec fn values_of(slots: Seq<ExternalRootSlot>, n: int) -> Seq<LuaValue>
    decreases n,
{
    if n <= 0 {
        Seq::empty()
    } else {
        match slots[n - 1].value {
            Some(v) => values_of(slots, n - 1).push(v),
            None => values_of(slots, n - 1),
        }
    }
}

/// A set whose slots are all listed as vacant has no value in any of them.
proof fn lemma_no_vacancy(r: ExternalRootSet, at: int)
    requires
        r.wf(),
        r.live == 0,
        0 <= at < r.slots@.len() <= usize::MAX,
    ensures
        r.slots@[at].value is None,
{
    let n = r.slots@.len() as int;
    let f = r.free@;
    assert(f.no_duplicates());
    f.unique_seq_to_set();
    let all = Set::new(|i: usize| i < n);
    lemma_usize_range(n as nat);
    assert(f.to_set().subset_of(all)) by {
        assert forall|x: usize| f.to_set().contains(x) implies all.contains(x) by {
            let i = choose|i: int| 0 <= i < f.len() && f[i] == x;
            assert(f[i] < n);
        }
    }
    vstd::set_lib::lemma_subset_equality(f.to_set(), all);
    assert(f.to_set().contains(at as usize));
    let i = choose|i: int| 0 <= i < f.len() && f[i] == at as usize;
    assert(r.slots@[f[i] as int].value is None);
}

/// There are `n` indices below `n`.
proof fn lemma_usize_range(n: nat)
    requires
        n <= usize::MAX,
    ensures
        Set::new(|i: usize| i < n).finite(),
        Set::new(|i: usize| i < n).len() == n,
    decreases n,
{
    let s = Set::new(|i: usize| i < n);
    if n == 0 {
        assert(s =~= Set::empty());
    } else {
        let m = (n - 1) as nat;
        lemma_usize_range(m);
        let t = Set::new(|i: usize| i < m);
        assert(s =~= t.insert(m as usize));
    }
}

/// A key that was let go of stays dead whatever is inserted next, though its slot
/// is the one used again, and the new key differs from it.
pub proof fn law_stale_key(
    a: ExternalRootSet,
    b: ExternalRootSet,
    c: ExternalRootSet,
    old_key: ExternalRootKey,
    new_key: ExternalRootKey,
    value: LuaValue,
)
    requires
        a.held(old_key) is Some,
        ExternalRootSet::removed(a, b, old_key),
        ExternalRootSet::inserted(b, c, new_key, value),
    ensures
        new_key.index == old_key.index,
        new_key != old_key,
        c.held(old_key) is None,
        c.held(new_key) == Some(value),
        c.live == a.live,
{
    assert(b.free@.last() == old_key.index);
}

} // verus!
