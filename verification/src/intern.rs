//! The table of interned strings.

use vstd::multiset::Multiset;
use vstd::prelude::*;
use crate::string::LuaString;
use crate::string::bytes_eq;
use crate::string::hash_bytes;
use crate::value::StrId;

verus! {

broadcast use {vstd::multiset::group_multiset_axioms, vstd::seq_lib::group_to_multiset_ensures};

/// The fewest buckets that the table has.
pub const MIN_BUCKETS: usize = 64;

/// Whether a number is a power of two.
pub open spec fn is_power(n: int) -> bool
    decreases n,
{
    n == 1 || (n > 1 && n % 2 == 0 && is_power(n / 2))
}

/// A hash table of strings, with a power of two of buckets. A string lies in the
/// bucket of its hash.
pub struct InternedStringMap {
    pub buckets: Vec<Vec<StrId>>,
    pub count: usize,
}

/// The entries of the first `n` buckets, as often as they occur.
pub open spec fn bag_of(bs: Seq<Vec<StrId>>, n: int) -> Multiset<StrId>
    decreases n,
{
    if n <= 0 {
        Multiset::empty()
    } else {
        bag_of(bs, n - 1).add(bs[n - 1]@.to_multiset())
    }
}

/// Whether every string carries its hash.
pub open spec fn strs_wf(strs: Seq<LuaString>) -> bool {
    forall|i: int| 0 <= i < strs.len() ==> (#[trigger] strs[i]).wf()
}

/// Whether the buckets are in order: every entry is a string in the bucket of its
/// hash.
pub open spec fn buckets_wf(bs: Seq<Vec<StrId>>, strs: Seq<LuaString>) -> bool {
    &&& bs.len() > 0
    &&& forall|b: int, j: int|
        #![trigger bs[b]@[j]]
        0 <= b < bs.len() && 0 <= j < bs[b]@.len() ==> bs[b]@[j].0 < strs.len()
            && strs[bs[b]@[j].0 as int].hash as int % bs.len() as int == b
}

proof fn lemma_bag_same(a: Seq<Vec<StrId>>, b: Seq<Vec<StrId>>, n: int)
    requires
        forall|i: int| 0 <= i < n ==> (#[trigger] a[i])@ == b[i]@,
    ensures
        bag_of(a, n) == bag_of(b, n),
    decreases n,
{
    if n > 0 {
        lemma_bag_same(a, b, n - 1);
    }
}

/// One more entry in one bucket is one more entry.
proof fn lemma_bag_insert(a: Seq<Vec<StrId>>, b: Seq<Vec<StrId>>, at: int, s: StrId, n: int)
    requires
        0 <= at < n,
        forall|i: int| 0 <= i < n && i != at ==> (#[trigger] a[i])@ == b[i]@,
        b[at]@.to_multiset() == a[at]@.to_multiset().insert(s),
    ensures
        bag_of(b, n) == bag_of(a, n).insert(s),
    decreases n,
{
    if n - 1 == at {
        lemma_bag_same(a, b, n - 1);
    } else {
        lemma_bag_insert(a, b, at, s, n - 1);
    }
    assert(bag_of(b, n) =~= bag_of(a, n).insert(s));
}

/// What occurs in the entries lies in some bucket.
proof fn lemma_bag_has(bs: Seq<Vec<StrId>>, n: int, s: StrId)
    requires
        0 <= n <= bs.len(),
    ensures
        bag_of(bs, n).count(s) > 0 <==> exists|b: int, j: int|
            #![trigger bs[b]@[j]]
            0 <= b < n && 0 <= j < bs[b]@.len() && bs[b]@[j] == s,
    decreases n,
{
    if n > 0 {
        lemma_bag_has(bs, n - 1, s);
        let row = bs[n - 1]@;
        if row.to_multiset().count(s) > 0 {
            assert(row.contains(s));
            let j = choose|j: int| 0 <= j < row.len() && row[j] == s;
            assert(bs[n - 1]@[j] == s);
        }
        if exists|b: int, j: int|
            #![trigger bs[b]@[j]]
            0 <= b < n && 0 <= j < bs[b]@.len() && bs[b]@[j] == s {
            let (b, j) = choose|b: int, j: int|
                #![trigger bs[b]@[j]]
                0 <= b < n && 0 <= j < bs[b]@.len() && bs[b]@[j] == s;
            if b == n - 1 {
                assert(row.contains(s));
            } else {
                assert(bs[b]@[j] == s);
            }
        }
    }
}

/// Entries that occur once each and are among the first `k` strings are at most `k`.
proof fn lemma_bag_bound(m: Multiset<StrId>, k: nat)
    requires
        k <= usize::MAX,
        forall|x: StrId| #[trigger] m.count(x) <= 1,
        forall|x: StrId| #[trigger] m.count(x) > 0 ==> x.0 < k,
    ensures
        m.len() <= k,
    decreases k,
{
    if k == 0 {
        assert(m =~= Multiset::empty());
    } else {
        let last = StrId((k - 1) as usize);
        let r = m.remove(last);
        assert forall|x: StrId| #[trigger] r.count(x) > 0 implies x.0 < k - 1 by {
            if x == last {
                assert(m.count(last) <= 1);
            }
        }
        lemma_bag_bound(r, (k - 1) as nat);
        if m.count(last) == 0 {
            assert(r =~= m);
        }
    }
}

/// Fresh, empty buckets.
fn empty_buckets(n: usize) -> (bs: Vec<Vec<StrId>>)
    requires
        n > 0,
    ensures
        bs@.len() == n,
        forall|i: int| 0 <= i < n ==> (#[trigger] bs@[i])@.len() == 0,
        bag_of(bs@, n as int) == Multiset::<StrId>::empty(),
        forall|strs: Seq<LuaString>| #[trigger] buckets_wf(bs@, strs),
{
    let mut bs: Vec<Vec<StrId>> = Vec::new();
    let mut i: usize = 0;
    while i < n
        invariant
            i <= n,
            bs@.len() == i,
            forall|j: int| 0 <= j < i ==> (#[trigger] bs@[j])@.len() == 0,
            bag_of(bs@, i as int) == Multiset::<StrId>::empty(),
        decreases n - i,
    {
        let ghost before = bs@;
        bs.push(Vec::new());
        proof {
            lemma_bag_same(before, bs@, i as int);
            assert(bs@[i as int]@.to_multiset() =~= Multiset::<StrId>::empty());
            assert(bag_of(bs@, i + 1) =~= Multiset::<StrId>::empty());
        }
        i = i + 1;
    }
    bs
}

/// Puts a string into the bucket of its hash.
fn place(bs: &mut Vec<Vec<StrId>>, strs: &Vec<LuaString>, s: StrId)
    requires
        buckets_wf(old(bs)@, strs@),
        s.0 < strs@.len(),
    ensures
        buckets_wf(final(bs)@, strs@),
        final(bs)@.len() == old(bs)@.len(),
        bag_of(final(bs)@, final(bs)@.len() as int) == bag_of(old(bs)@, old(bs)@.len() as int).insert(s),
{
    let ghost before = bs@;
    let n: usize = bs.len();
    let b: usize = (strs[s.0].hash as usize) % n;
    bs[b].push(s);
    proof {
        let m = before[b as int]@.len() as int;
        assert(bs@[b as int]@ == before[b as int]@.push(s));
        assert forall|i: int| 0 <= i < bs@.len() && i != b implies #[trigger] before[i] == bs@[i] by {}
        lemma_bag_insert(before, bs@, b as int, s, bs@.len() as int);
        assert forall|c: int, j: int|
            #![trigger bs@[c]@[j]]
            0 <= c < bs@.len() && 0 <= j < bs@[c]@.len() implies bs@[c]@[j].0 < strs@.len()
            && strs@[bs@[c]@[j].0 as int].hash as int % bs@.len() as int == c by {
            if c != b || j < m {
                assert(bs@[c]@[j] == before[c]@[j]);
            }
        }
    }
}

/// New strings leave the table in order.
pub proof fn lemma_intern_grow(m: InternedStringMap, a: Seq<LuaString>, b: Seq<LuaString>)
    requires
        m.wf(a),
        a.len() <= b.len(),
        forall|i: int| 0 <= i < a.len() ==> #[trigger] b[i] == a[i],
        strs_wf(b),
    ensures
        m.wf(b),
        m.once(a) ==> m.once(b),
        forall|s: StrId| #[trigger] m.has(s) ==> s.0 < a.len(),
{
    assert forall|s: StrId| #[trigger] m.has(s) implies s.0 < a.len() by {
        lemma_has_bound(m, a, s);
    }
}

/// Every entry is one of the strings, and lies in the bucket of its hash.
pub proof fn lemma_has_bound(m: InternedStringMap, strs: Seq<LuaString>, s: StrId)
    requires
        m.wf(strs),
        m.has(s),
    ensures
        s.0 < strs.len(),
        m.buckets@[strs[s.0 as int].hash as int % m.buckets@.len() as int]@.contains(s),
{
    lemma_bag_has(m.buckets@, m.buckets@.len() as int, s);
    let bs = m.buckets@;
    let (b, j) = choose|b: int, j: int|
        #![trigger bs[b]@[j]]
        0 <= b < bs.len() && 0 <= j < bs[b]@.len() && bs[b]@[j] == s;
    assert(bs[b]@[j].0 < strs.len());
}

/// There are fewer entries than strings where no entry is there twice and some string is
/// no entry.
pub proof fn lemma_room(m: InternedStringMap, strs: Seq<LuaString>, s: StrId)
    requires
        m.wf(strs),
        m.once(strs),
        s.0 < strs.len() <= usize::MAX,
        !m.has(s),
    ensures
        m.count < strs.len(),
{
    let c = m.bag().insert(s);
    assert forall|x: StrId| #[trigger] c.count(x) <= 1 by {
        assert(m.bag().count(x) <= 1);
    }
    assert forall|x: StrId| #[trigger] c.count(x) > 0 implies x.0 < strs.len() by {
        if x != s {
            assert(m.has(x));
            lemma_has_bound(m, strs, x);
        }
    }
    lemma_bag_bound(c, strs.len());
}

/// Adding a string whose bytes are not there keeps every entry single.
pub proof fn lemma_once_insert(a: InternedStringMap, b: InternedStringMap, strs: Seq<LuaString>, s: StrId)
    requires
        a.once(strs),
        forall|x: StrId| #[trigger] a.has(x) ==> strs[x.0 as int]@ != strs[s.0 as int]@,
        b.bag() == a.bag().insert(s),
    ensures
        b.once(strs),
        forall|x: StrId| #[trigger] b.has(x) <==> (a.has(x) || x == s),
{
    assert(!a.has(s));
    assert forall|x: StrId| #[trigger] b.has(x) <==> (a.has(x) || x == s) by {}
    assert forall|x: StrId| #[trigger] b.bag().count(x) <= 1 by {
        assert(a.bag().count(x) <= 1);
    }
}

/// Taking an entry out keeps every other entry single.
pub proof fn lemma_once_remove(a: InternedStringMap, b: InternedStringMap, strs: Seq<LuaString>, s: StrId)
    requires
        a.once(strs),
        b.bag() == a.bag().remove(s),
    ensures
        b.once(strs),
        forall|x: StrId| #[trigger] b.has(x) <==> (a.has(x) && x != s),
{
    assert(a.bag().count(s) <= 1);
    assert forall|x: StrId| #[trigger] b.has(x) <==> (a.has(x) && x != s) by {}
    assert forall|x: StrId| #[trigger] b.bag().count(x) <= 1 by {
        assert(a.bag().count(x) <= 1);
    }
}

impl InternedStringMap {
    /// The entries, as often as they occur.
    pub open spec fn bag(self) -> Multiset<StrId> {
        bag_of(self.buckets@, self.buckets@.len() as int)
    }

    /// Whether a string is an entry.
    pub open spec fn has(self, s: StrId) -> bool {
        self.bag().count(s) > 0
    }

    /// The table is in order, and `count` counts its entries.
    pub open spec fn wf(self, strs: Seq<LuaString>) -> bool {
        &&& strs_wf(strs)
        &&& buckets_wf(self.buckets@, strs)
        &&& self.buckets@.len() >= MIN_BUCKETS
        &&& is_power(self.buckets@.len() as int)
        &&& self.count == self.bag().len()
    }

    /// Whether no bytes are there twice.
    pub open spec fn once(self, strs: Seq<LuaString>) -> bool {
        &&& forall|x: StrId| #[trigger] self.bag().count(x) <= 1
        &&& forall|x: StrId, y: StrId|
            #![trigger self.has(x), self.has(y)]
            self.has(x) && self.has(y) && x != y ==> strs[x.0 as int]@ != strs[y.0 as int]@
    }

    /// Whether the bucket of a hash has a string.
    pub open spec fn has_under(self, hash: u32, s: StrId) -> bool {
        self.buckets@[hash as int % self.buckets@.len() as int]@.contains(s)
    }

    /// The number of entries.
    pub fn len(&self) -> (n: usize)
        ensures
            n == self.count,
    {
        self.count
    }

    /// Whether there are no entries.
    pub fn is_empty(&self) -> (r: bool)
        ensures
            r == (self.count == 0),
    {
        self.count == 0
    }

    /// The number of buckets.
    pub fn bucket_count(&self) -> (n: usize)
        ensures
            n == self.buckets@.len(),
    {
        self.buckets.len()
    }

    /// An entry with this hash and these bytes.
    pub fn find(&self, strs: &Vec<LuaString>, bytes: &[u8], hash: u32) -> (r: Option<StrId>)
        requires
            self.wf(strs@),
        ensures
            r matches Some(s) ==> self.has(s) && s.0 < strs@.len() && strs@[s.0 as int].hash == hash
                && strs@[s.0 as int]@ == bytes@,
            r is None ==> forall|s: StrId| #[trigger]
                self.has(s) ==> !(strs@[s.0 as int].hash == hash && strs@[s.0 as int]@ == bytes@),
    {
        let b: usize = (hash as usize) % self.buckets.len();
        let mut j: usize = 0;
        while j < self.buckets[b].len()
            invariant
                self.wf(strs@),
                b < self.buckets@.len(),
                b == hash as int % self.buckets@.len() as int,
                j <= self.buckets@[b as int]@.len(),
                forall|i: int|
                    0 <= i < j ==> !(strs@[(#[trigger] self.buckets@[b as int]@[i]).0 as int].hash == hash
                        && strs@[self.buckets@[b as int]@[i].0 as int]@ == bytes@),
            decreases self.buckets@[b as int]@.len() - j,
        {
            let s: StrId = self.buckets[b][j];
            assert(self.buckets@[b as int]@[j as int] == s);
            if strs[s.0].hash == hash && bytes_eq(strs[s.0].bytes.as_slice(), bytes) {
                proof {
                    lemma_bag_has(self.buckets@, self.buckets@.len() as int, s);
                }
                return Some(s);
            }
            j = j + 1;
        }
        proof {
            assert forall|s: StrId| #[trigger] self.has(s) implies !(strs@[s.0 as int].hash == hash
                && strs@[s.0 as int]@ == bytes@) by {
                lemma_has_bound(*self, strs@, s);
                if strs@[s.0 as int].hash == hash {
                    let row = self.buckets@[b as int]@;
                    let i = choose|i: int| 0 <= i < row.len() && row[i] == s;
                    assert(self.buckets@[b as int]@[i] == s);
                }
            }
        }
        None
    }

    /// Adds a string. A full table first doubles its buckets, as long as their number is
    /// representable.
    pub fn insert(&mut self, strs: &Vec<LuaString>, s: StrId)
        requires
            old(self).wf(strs@),
            s.0 < strs@.len(),
            old(self).count < usize::MAX,
        ensures
            final(self).wf(strs@),
            final(self).bag() == old(self).bag().insert(s),
            final(self).count == old(self).count + 1,
            final(self).has(s),
            final(self).buckets@.len() == (if old(self).count >= old(self).buckets@.len()
                && old(self).buckets@.len() <= usize::MAX / 2 {
                2 * old(self).buckets@.len() as int
            } else {
                old(self).buckets@.len() as int
            }),
    {
        if self.count >= self.buckets.len() && self.buckets.len() <= usize::MAX / 2 {
            let n: usize = self.buckets.len() * 2;
            proof {
                assert(is_power(n as int));
            }
            self.resize(strs, n);
        }
        place(&mut self.buckets, strs, s);
        self.count = self.count + 1;
    }

    /// Spreads the entries over another number of buckets.
    fn resize(&mut self, strs: &Vec<LuaString>, new_len: usize)
        requires
            old(self).wf(strs@),
            new_len >= MIN_BUCKETS,
            is_power(new_len as int),
        ensures
            final(self).wf(strs@),
            final(self).count == old(self).count,
            final(self).buckets@.len() == new_len,
            final(self).bag() == old(self).bag(),
    {
        let ghost src = self.buckets@;
        let mut fresh: Vec<Vec<StrId>> = empty_buckets(new_len);
        let mut b: usize = 0;
        while b < self.buckets.len()
            invariant
                self.wf(strs@),
                self.buckets@ == src,
                b <= src.len(),
                fresh@.len() == new_len,
                buckets_wf(fresh@, strs@),
                bag_of(fresh@, new_len as int) == bag_of(src, b as int),
            decreases src.len() - b,
        {
            let mut j: usize = 0;
            let ghost row = src[b as int]@;
            proof {
                assert(row.take(0).to_multiset() =~= Multiset::<StrId>::empty());
                assert(bag_of(src, b as int).add(row.take(0).to_multiset()) =~= bag_of(src, b as int));
            }
            while j < self.buckets[b].len()
                invariant
                    self.wf(strs@),
                    self.buckets@ == src,
                    b < src.len(),
                    row == src[b as int]@,
                    j <= row.len(),
                    fresh@.len() == new_len,
                    buckets_wf(fresh@, strs@),
                    bag_of(fresh@, new_len as int) == bag_of(src, b as int).add(row.take(j as int).to_multiset()),
                decreases row.len() - j,
            {
                let s: StrId = self.buckets[b][j];
                assert(src[b as int]@[j as int] == s);
                place(&mut fresh, strs, s);
                j = j + 1;
                proof {
                    assert(row.take(j as int) =~= row.take(j - 1).push(s));
                    assert(bag_of(fresh@, new_len as int) =~= bag_of(src, b as int).add(
                        row.take(j as int).to_multiset(),
                    ));
                }
            }
            assert(row.take(j as int) =~= row);
            b = b + 1;
        }
        self.buckets = fresh;
    }

    /// Gives back buckets where less than a quarter of them is needed: the new
    /// number is the smallest power of two that is at least the number of entries
    /// and at least the minimum.
    #[verifier::rlimit(80)]
    #[verifier::spinoff_prover]
    pub fn shrink_if_sparse(&mut self, strs: &Vec<LuaString>)
        requires
            old(self).wf(strs@),
        ensures
            final(self).wf(strs@),
            final(self).count == old(self).count,
            final(self).bag() == old(self).bag(),
            old(self).count * 4 >= old(self).buckets@.len() ==> final(self).buckets@ == old(self).buckets@,
            old(self).count * 4 < old(self).buckets@.len() ==> is_tight(
                final(self).buckets@.len() as int,
                old(self).count as int,
            ),
    {
        proof {
            reveal_with_fuel(is_power, 7);
        }
        if self.count >= self.buckets.len() / 4 {
            return;
        }
        let mut target: usize = MIN_BUCKETS;
        while target < self.count
            invariant
                MIN_BUCKETS <= target,
                is_power(target as int),
                target == MIN_BUCKETS || target / 2 < self.count,
                self.count * 4 < self.buckets@.len(),
                self.buckets@.len() <= usize::MAX,
            decreases usize::MAX - target,
        {
            target = target * 2;
        }
        if target < self.buckets.len() {
            self.resize(strs, target);
        } else {
            proof {
                lemma_tight_floor(self.buckets@.len() as int, target as int, self.count as int);
            }
        }
    }

    /// Removes an entry from the bucket of a hash; does nothing where it is not there.
    pub fn remove(&mut self, strs: &Vec<LuaString>, hash: u32, s: StrId)
        requires
            old(self).wf(strs@),
        ensures
            final(self).wf(strs@),
            final(self).buckets@.len() == old(self).buckets@.len(),
            old(self).has_under(hash, s) == (old(self).has(s) && strs@[s.0 as int].hash as int
                % old(self).buckets@.len() as int == hash as int % old(self).buckets@.len() as int),
            old(self).has_under(hash, s) ==> final(self).bag() == old(self).bag().remove(s) && final(self).count
                == old(self).count - 1,
            !old(self).has_under(hash, s) ==> *final(self) == *old(self),
    {
        let b: usize = (hash as usize) % self.buckets.len();
        let ghost before = self.buckets@;
        let ghost row = before[b as int]@;
        proof {
            lemma_bag_has(before, before.len() as int, s);
            if row.contains(s) {
                let i = choose|i: int| 0 <= i < row.len() && row[i] == s;
                assert(before[b as int]@[i] == s);
            }
            if self.has(s) {
                lemma_has_bound(*self, strs@, s);
            }
        }
        let mut j: usize = 0;
        while j < self.buckets[b].len()
            invariant
                *self == *old(self),
                self.wf(strs@),
                before == self.buckets@,
                b < before.len(),
                b == hash as int % before.len() as int,
                row == before[b as int]@,
                j <= row.len(),
                forall|i: int| 0 <= i < j ==> #[trigger] row[i] != s,
                old(self).has_under(hash, s) == (old(self).has(s) && strs@[s.0 as int].hash as int
                    % old(self).buckets@.len() as int == hash as int % old(self).buckets@.len() as int),
            decreases row.len() - j,
        {
            if self.buckets[b][j] == s {
                assert(row[j as int] == s);
                assert(row.contains(s));
                self.buckets[b].swap_remove(j);
                proof {
                    let now = self.buckets@;
                    let last = row.len() - 1;
                    assert(now[b as int]@ == row.update(j as int, row.last()).drop_last());
                    assert forall|i: int| 0 <= i < now.len() && i != b implies #[trigger] now[i] == before[i] by {}
                    lemma_swap_removed(row, j as int);
                    lemma_bag_insert(now, before, b as int, s, now.len() as int);
                    assert(self.bag() =~= old(self).bag().remove(s));
                    assert forall|i: int| 0 <= i < now[b as int]@.len() implies #[trigger] now[b as int]@[i]
                        == row[if i == j { last } else { i }] by {}
                    assert forall|c: int, i: int|
                        #![trigger now[c]@[i]]
                        0 <= c < now.len() && 0 <= i < now[c]@.len() implies now[c]@[i].0 < strs@.len()
                        && strs@[now[c]@[i].0 as int].hash as int % now.len() as int == c by {
                        if c == b {
                            assert(now[c]@[i] == before[c]@[if i == j { last } else { i }]);
                        } else {
                            assert(now[c]@[i] == before[c]@[i]);
                        }
                    }
                    assert(old(self).bag().count(s) > 0);
                    assert(old(self).bag() =~= self.bag().insert(s));
                }
                self.count = self.count - 1;
                return;
            }
            j = j + 1;
        }
    }

    /// The entries, bucket by bucket.
    pub fn iter(&self) -> (r: Vec<StrId>)
        ensures
            r@.to_multiset() == self.bag(),
            r@.len() == self.bag().len(),
            forall|x: StrId| #[trigger] r@.contains(x) <==> self.has(x),
            (forall|x: StrId| #[trigger] self.bag().count(x) <= 1) ==> r@.no_duplicates(),
    {
        let mut out: Vec<StrId> = Vec::new();
        let ghost src = self.buckets@;
        let mut b: usize = 0;
        proof {
            assert(out@.to_multiset() =~= Multiset::<StrId>::empty());
        }
        while b < self.buckets.len()
            invariant
                self.buckets@ == src,
                b <= src.len(),
                out@.to_multiset() == bag_of(src, b as int),
            decreases src.len() - b,
        {
            let mut j: usize = 0;
            let ghost row = src[b as int]@;
            proof {
                assert(row.take(0).to_multiset() =~= Multiset::<StrId>::empty());
                assert(bag_of(src, b as int).add(row.take(0).to_multiset()) =~= bag_of(src, b as int));
            }
            while j < self.buckets[b].len()
                invariant
                    self.buckets@ == src,
                    b < src.len(),
                    row == src[b as int]@,
                    j <= row.len(),
                    out@.to_multiset() == bag_of(src, b as int).add(row.take(j as int).to_multiset()),
                decreases row.len() - j,
            {
                let s: StrId = self.buckets[b][j];
                out.push(s);
                j = j + 1;
                proof {
                    assert(row.take(j as int) =~= row.take(j - 1).push(s));
                    assert(out@.to_multiset() =~= bag_of(src, b as int).add(row.take(j as int).to_multiset()));
                }
            }
            assert(row.take(j as int) =~= row);
            b = b + 1;
        }
        proof {
            if forall|x: StrId| #[trigger] self.bag().count(x) <= 1 {
                assert forall|x: StrId| out@.to_multiset().contains(x) implies out@.to_multiset().count(x) == 1 by {
                    assert(self.bag().count(x) <= 1);
                }
                out@.lemma_multiset_has_no_duplicates_conv();
            }
        }
        out
    }

    /// Whether some entry has these bytes.
    pub fn contains_key(&self, strs: &Vec<LuaString>, bytes: &[u8]) -> (r: bool)
        requires
            self.wf(strs@),
        ensures
            r == exists|s: StrId| #[trigger] self.has(s) && strs@[s.0 as int]@ == bytes@,
    {
        let r: Option<StrId> = self.find(strs, bytes, hash_bytes(bytes, 0));
        proof {
            assert forall|s: StrId| #[trigger] self.has(s) && strs@[s.0 as int]@ == bytes@ implies r is Some by {
                lemma_has_bound(*self, strs@, s);
                assert(strs@[s.0 as int].wf());
            }
        }
        r.is_some()
    }
}

/// Taking an element out by putting the last one in its place takes out just that one.
proof fn lemma_swap_removed(row: Seq<StrId>, j: int)
    requires
        0 <= j < row.len(),
    ensures
        row.to_multiset() == row.update(j, row.last()).drop_last().to_multiset().insert(row[j]),
{
    let n = row.len() - 1;
    let front = row.drop_last();
    assert(row =~= front.push(row[n]));
    let now = row.update(j, row.last()).drop_last();
    if j == n {
        assert(now =~= front);
    } else {
        assert(now =~= front.update(j, row[n]));
        front.to_multiset_ensures();
        vstd::seq_lib::to_multiset_update(front, j, row[n]);
    }
    assert(row.to_multiset() =~= now.to_multiset().insert(row[j]));
}

impl Default for InternedStringMap {
    /// An empty table, with the fewest buckets.
    fn default() -> (m: Self)
        ensures
            m.count == 0,
            m.buckets@.len() == MIN_BUCKETS,
            m.bag() == Multiset::<StrId>::empty(),
            forall|strs: Seq<LuaString>| strs_wf(strs) ==> #[trigger] m.wf(strs),
            forall|strs: Seq<LuaString>| #[trigger] m.once(strs),
            forall|s: StrId| !m.has(s),
    {
        proof {
            reveal_with_fuel(is_power, 7);
        }
        InternedStringMap { buckets: empty_buckets(MIN_BUCKETS), count: 0 }
    }
}

/// Whether `n` is the smallest power of two that is at least the minimum and at
/// least `count`.
pub open spec fn is_tight(n: int, count: int) -> bool {
    &&& is_power(n)
    &&& n >= MIN_BUCKETS
    &&& n >= count
    &&& n == MIN_BUCKETS || n / 2 < count
}

/// How the buckets of a table are left once entries were removed: too few entries for them
/// bring their number down to the smallest that will do.
pub open spec fn shrunk(a: InternedStringMap, b: InternedStringMap) -> bool {
    if b.count * 4 >= a.buckets@.len() {
        b.buckets@.len() == a.buckets@.len()
    } else {
        is_tight(b.buckets@.len() as int, b.count as int)
    }
}

/// A table that is left with less than half as many entries as the smallest number of buckets
/// has that number.
pub proof fn law_back_to_minimum(strs: Seq<LuaString>, a: InternedStringMap, b: InternedStringMap)
    requires
        a.wf(strs),
        shrunk(a, b),
        b.count * 2 < MIN_BUCKETS,
    ensures
        b.buckets@.len() == MIN_BUCKETS,
{
    reveal_with_fuel(is_power, 8);
    if a.buckets@.len() > MIN_BUCKETS {
        lemma_next_power(a.buckets@.len() as int);
    }
}

/// A power of two that is more than the minimum is at least twice as much.
proof fn lemma_next_power(n: int)
    requires
        is_power(n),
        n > MIN_BUCKETS,
    ensures
        n >= 2 * MIN_BUCKETS,
{
    reveal_with_fuel(is_power, 8);
}

/// A table that is too sparse for the minimum is at the minimum.
proof fn lemma_tight_floor(n: int, target: int, count: int)
    requires
        is_power(n),
        n >= MIN_BUCKETS,
        n <= target,
        is_power(target),
        target == MIN_BUCKETS || target / 2 < count,
        target >= count,
        count * 4 < n,
    ensures
        is_tight(n, count),
{
    if target > MIN_BUCKETS {
        assert(target < 2 * count + 2);
    }
}

} // verus!
