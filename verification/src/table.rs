//! Tables.

use vstd::prelude::*;
use crate::float::F2Imod;
use crate::float::flt_is_nan;
use crate::float::flt_nan;
use crate::float::flt_to_integer;
use crate::float::spec_flt_to_integer;
use crate::string::LuaString;
use crate::string::bytes_eq;
use crate::value::LuaValue;
use crate::value::StrId;
use crate::value::TableId;

verus! {

/// A key and its value.
#[derive(Debug, Clone, Copy, PartialEq, Eq, Structural)]
pub struct TableEntry {
    pub key: LuaValue,
    pub value: LuaValue,
}

/// A table object. `weak_mode` has bit 0 set where the keys are weak and bit 1
/// where the values are.
pub struct LuaTable {
    pub entries: Vec<TableEntry>,
    pub metatable: Option<TableId>,
    pub weak_mode: u8,
}

/// Why a key was refused.
#[derive(Debug, Clone, Copy, PartialEq, Eq, Structural)]
pub enum KeyError {
    Nil,
    Nan,
}

/// The key under which a value is stored: a float that is an integer is that
/// integer.
pub open spec fn norm_key(k: LuaValue) -> LuaValue {
    match k {
        LuaValue::Float(b) => match spec_flt_to_integer(b, F2Imod::Eq) {
            Some(i) => LuaValue::Int(i),
            None => k,
        },
        _ => k,
    }
}

/// Whether two normalised keys are the same key. Strings are the same by their
/// bytes.
pub open spec fn same_key(strs: Seq<LuaString>, a: LuaValue, b: LuaValue) -> bool {
    a == b || (a is Str && b is Str && strs[a->Str_0.0 as int]@ == strs[b->Str_0.0 as int]@)
}

/// Whether a value, if it is a string, names one of these strings.
pub open spec fn names_str(strs: Seq<LuaString>, k: LuaValue) -> bool {
    k is Str ==> k->Str_0.0 < strs.len()
}

/// The first entry at or after `i` with this key, or the number of entries.
pub open spec fn find_from(strs: Seq<LuaString>, es: Seq<TableEntry>, k: LuaValue, i: int) -> int
    decreases es.len() - i,
{
    if i >= es.len() {
        es.len() as int
    } else if same_key(strs, es[i].key, k) {
        i
    } else {
        find_from(strs, es, k, i + 1)
    }
}

/// The value under a key.
pub open spec fn lookup(strs: Seq<LuaString>, es: Seq<TableEntry>, k: LuaValue) -> LuaValue {
    let i = find_from(strs, es, norm_key(k), 0);
    if i < es.len() {
        es[i].value
    } else {
        LuaValue::Nil
    }
}

/// What [`find_from`] finds.
pub proof fn lemma_find_from(strs: Seq<LuaString>, es: Seq<TableEntry>, k: LuaValue, i: int)
    requires
        0 <= i <= es.len(),
    ensures
        i <= find_from(strs, es, k, i) <= es.len(),
        find_from(strs, es, k, i) < es.len() ==> same_key(strs, es[find_from(strs, es, k, i)].key, k),
        forall|j: int| i <= j < find_from(strs, es, k, i) ==> !same_key(strs, #[trigger] es[j].key, k),
    decreases es.len() - i,
{
    if i < es.len() && !same_key(strs, es[i].key, k) {
        lemma_find_from(strs, es, k, i + 1);
    }
}

/// A key that occurs is found where it occurs first.
pub proof fn lemma_found(strs: Seq<LuaString>, es: Seq<TableEntry>, k: LuaValue, i: int, at: int)
    requires
        0 <= i <= at < es.len(),
        same_key(strs, es[at].key, k),
        forall|j: int| i <= j < at ==> !same_key(strs, #[trigger] es[j].key, k),
    ensures
        find_from(strs, es, k, i) == at,
    decreases es.len() - i,
{
    if i < at {
        assert(!same_key(strs, es[i].key, k));
        lemma_found(strs, es, k, i + 1, at);
    }
}

/// A key that does not occur is not found.
pub proof fn lemma_not_found(strs: Seq<LuaString>, es: Seq<TableEntry>, k: LuaValue, i: int)
    requires
        0 <= i <= es.len(),
        forall|j: int| i <= j < es.len() ==> !same_key(strs, #[trigger] es[j].key, k),
    ensures
        find_from(strs, es, k, i) == es.len(),
    decreases es.len() - i,
{
    if i < es.len() {
        assert(!same_key(strs, es[i].key, k));
        lemma_not_found(strs, es, k, i + 1);
    }
}

/// Whether the entries of a table are in order: no `nil`, no NaN, every key
/// normalised and no key twice.
pub open spec fn entries_wf(strs: Seq<LuaString>, es: Seq<TableEntry>) -> bool {
    &&& forall|i: int|
        #![trigger es[i]]
        0 <= i < es.len() ==> {
            &&& es[i].key != LuaValue::Nil
            &&& es[i].value != LuaValue::Nil
            &&& norm_key(es[i].key) == es[i].key
            &&& (es[i].key is Float ==> !flt_nan(es[i].key->Float_0))
            &&& names_str(strs, es[i].key)
        }
    &&& forall|i: int, j: int|
        #![trigger es[i], es[j]]
        0 <= i < j < es.len() ==> !same_key(strs, es[i].key, es[j].key)
}

/// Whether the keys and values of `fs` are those of `es`, but for the value `v` and, where
/// it is `fresh`, the key `k`.
#[verifier::opaque]
pub open spec fn entries_from(
    fs: Seq<TableEntry>,
    es: Seq<TableEntry>,
    k: LuaValue,
    fresh: bool,
    v: LuaValue,
) -> bool {
    forall|i: int|
        #![trigger fs[i]]
        0 <= i < fs.len() ==> {
            &&& fresh && fs[i].key == k || exists|j: int| 0 <= j < es.len() && #[trigger] es[j].key == fs[i].key
            &&& fs[i].value == v || exists|j: int|
                0 <= j < es.len() && #[trigger] es[j].value == fs[i].value
        }
}

/// Normalising twice is normalising once.
pub proof fn lemma_norm_key(k: LuaValue)
    ensures
        norm_key(norm_key(k)) == norm_key(k),
{
}

/// Normalises a key.
pub fn normalize(k: &LuaValue) -> (r: LuaValue)
    ensures
        r == norm_key(*k),
{
    match k {
        LuaValue::Float(b) => match flt_to_integer(*b, F2Imod::Eq) {
            Some(i) => LuaValue::Int(i),
            None => *k,
        },
        _ => *k,
    }
}

/// Whether two normalised keys are the same key.
pub fn keys_match(strs: &Vec<LuaString>, a: &LuaValue, b: &LuaValue) -> (r: bool)
    requires
        names_str(strs@, *a),
        names_str(strs@, *b),
    ensures
        r == same_key(strs@, *a, *b),
{
    match (*a, *b) {
        (LuaValue::Str(x), LuaValue::Str(y)) => {
            x == y || bytes_eq(strs[x.0].bytes.as_slice(), strs[y.0].bytes.as_slice())
        },
        _ => *a == *b,
    }
}

impl LuaTable {
    /// Whether the table is well formed.
    pub open spec fn wf(self, strs: Seq<LuaString>) -> bool {
        entries_wf(strs, self.entries@)
    }

    /// The value under a key.
    pub open spec fn value_at(self, strs: Seq<LuaString>, k: LuaValue) -> LuaValue {
        lookup(strs, self.entries@, k)
    }

    /// An empty table.
    pub fn new() -> (t: LuaTable)
        ensures
            t.entries@.len() == 0,
            t.metatable == None::<TableId>,
            t.weak_mode == 0,
            forall|strs: Seq<LuaString>| #[trigger] t.wf(strs),
            forall|strs: Seq<LuaString>, k: LuaValue| #[trigger] t.value_at(strs, k) == LuaValue::Nil,
    {
        LuaTable { entries: Vec::new(), metatable: None, weak_mode: 0 }
    }

    /// The position of a normalised key.
    fn position(&self, strs: &Vec<LuaString>, k: &LuaValue) -> (r: usize)
        requires
            self.wf(strs@),
            names_str(strs@, *k),
        ensures
            r == find_from(strs@, self.entries@, *k, 0),
            r <= self.entries@.len(),
    {
        let mut i: usize = 0;
        while i < self.entries.len()
            invariant
                i <= self.entries@.len(),
                self.wf(strs@),
                names_str(strs@, *k),
                find_from(strs@, self.entries@, *k, 0) == find_from(strs@, self.entries@, *k, i as int),
            decreases self.entries@.len() - i,
        {
            let e: TableEntry = self.entries[i];
            if keys_match(strs, &e.key, k) {
                return i;
            }
            i = i + 1;
        }
        i
    }

    /// The value under a key; `nil` where there is none.
    pub fn get(&self, strs: &Vec<LuaString>, k: &LuaValue) -> (v: LuaValue)
        requires
            self.wf(strs@),
            names_str(strs@, *k),
        ensures
            v == self.value_at(strs@, *k),
    {
        let i: usize = self.position(strs, &normalize(k));
        if i < self.entries.len() {
            self.entries[i].value
        } else {
            LuaValue::Nil
        }
    }

    /// The value under an integer key.
    pub fn get_int(&self, strs: &Vec<LuaString>, k: i64) -> (v: LuaValue)
        requires
            self.wf(strs@),
        ensures
            v == self.value_at(strs@, LuaValue::Int(k)),
    {
        self.get(strs, &LuaValue::Int(k))
    }

    /// The value under a string key.
    pub fn get_short_str(&self, strs: &Vec<LuaString>, k: StrId) -> (v: LuaValue)
        requires
            self.wf(strs@),
            k.0 < strs@.len(),
        ensures
            v == self.value_at(strs@, LuaValue::Str(k)),
    {
        self.get(strs, &LuaValue::Str(k))
    }

    /// Whether a key may be stored under.
    pub open spec fn key_error(k: LuaValue) -> Option<KeyError> {
        match k {
            LuaValue::Nil => Some(KeyError::Nil),
            LuaValue::Float(b) => if flt_nan(b) {
                Some(KeyError::Nan)
            } else {
                None
            },
            _ => None,
        }
    }

    /// Stores a value under a key, without metamethods; storing `nil` removes
    /// the key. Refuses `nil` and NaN as keys and then changes nothing.
    pub fn try_raw_set(&mut self, strs: &Vec<LuaString>, k: LuaValue, v: LuaValue) -> (r: Result<
        (),
        KeyError,
    >)
        requires
            old(self).wf(strs@),
            names_str(strs@, k),
        ensures
            final(self).wf(strs@),
            final(self).metatable == old(self).metatable,
            final(self).weak_mode == old(self).weak_mode,
            match LuaTable::key_error(k) {
                Some(e) => r == Err::<(), KeyError>(e) && final(self).entries@ == old(self).entries@,
                None => r is Ok,
            },
            r is Ok ==> forall|q: LuaValue| #[trigger]
                final(self).value_at(strs@, q) == (if same_key(strs@, norm_key(k), norm_key(q)) {
                    v
                } else {
                    old(self).value_at(strs@, q)
                }),
            entries_from(
                final(self).entries@,
                old(self).entries@,
                norm_key(k),
                old(self).value_at(strs@, k) == LuaValue::Nil,
                v,
            ),
    {
        reveal(entries_from);
        match k {
            LuaValue::Nil => {
                return Err(KeyError::Nil);
            },
            LuaValue::Float(b) => {
                if flt_is_nan(b) {
                    return Err(KeyError::Nan);
                }
            },
            _ => {},
        }
        let nk: LuaValue = normalize(&k);
        proof {
            lemma_norm_key(k);
            lemma_find_from(strs@, self.entries@, nk, 0);
        }
        let i: usize = self.position(strs, &nk);
        let ghost es = self.entries@;
        if i < self.entries.len() {
            if v == LuaValue::Nil {
                self.entries.remove(i);
                proof {
                    let fs = self.entries@;
                    assert forall|a: int, b: int| 0 <= a < b < fs.len() implies !same_key(
                        strs@,
                        #[trigger] fs[a].key,
                        #[trigger] fs[b].key,
                    ) by {
                        let a0 = if a < i { a } else { a + 1 };
                        let b0 = if b < i { b } else { b + 1 };
                        assert(fs[a] == es[a0] && fs[b] == es[b0]);
                    }
                    assert forall|a: int| 0 <= a < fs.len() implies #[trigger] fs[a] == es[if a < i {
                        a
                    } else {
                        a + 1
                    }] by {}
                    assert forall|q: LuaValue| #[trigger]
                        self.value_at(strs@, q) == (if same_key(strs@, nk, norm_key(q)) {
                            v
                        } else {
                            lookup(strs@, es, q)
                        }) by {
                        lemma_remove_lookup(strs@, es, i as int, norm_key(q));
                    }
                }
            } else {
                let old_key: LuaValue = self.entries[i].key;
                self.entries.set(i, TableEntry { key: old_key, value: v });
                proof {
                    let fs = self.entries@;
                    assert forall|a: int| 0 <= a < fs.len() implies #[trigger] fs[a].key == es[a].key && (
                    a != i ==> fs[a] == es[a]) by {}
                    assert forall|q: LuaValue| #[trigger]
                        self.value_at(strs@, q) == (if same_key(strs@, nk, norm_key(q)) {
                            v
                        } else {
                            lookup(strs@, es, q)
                        }) by {
                        lemma_update_lookup(strs@, es, i as int, v, norm_key(q));
                        lemma_find_from(strs@, es, norm_key(q), 0);
                        assert(fs =~= es.update(i as int, TableEntry { key: es[i as int].key, value: v }));
                        assert(same_key(strs@, es[i as int].key, norm_key(q)) == same_key(
                            strs@,
                            nk,
                            norm_key(q),
                        ));
                    }
                }
            }
        } else if v != LuaValue::Nil {
            self.entries.push(TableEntry { key: nk, value: v });
            proof {
                let fs = self.entries@;
                assert forall|a: int| 0 <= a < es.len() implies #[trigger] fs[a] == es[a] by {}
                assert forall|q: LuaValue| #[trigger]
                    self.value_at(strs@, q) == (if same_key(strs@, nk, norm_key(q)) {
                        v
                    } else {
                        lookup(strs@, es, q)
                    }) by {
                    lemma_push_lookup(strs@, es, TableEntry { key: nk, value: v }, norm_key(q));
                    lemma_find_from(strs@, es, norm_key(q), 0);
                    assert(fs =~= es.push(TableEntry { key: nk, value: v }));
                }
            }
        } else {
            proof {
                assert forall|q: LuaValue| same_key(strs@, nk, norm_key(q)) implies #[trigger] lookup(
                    strs@,
                    es,
                    q,
                ) == LuaValue::Nil by {
                    lemma_find_from(strs@, es, norm_key(q), 0);
                }
            }
        }
        Ok(())
    }

    /// The number of leading integer keys: the first `n` such that keys 1 to `n`
    /// have values and key `n + 1` has none.
    pub fn getn(&self, strs: &Vec<LuaString>) -> (n: i64)
        requires
            self.wf(strs@),
        ensures
            n >= 0,
            forall|i: i64| 1 <= i <= n ==> #[trigger] self.value_at(strs@, LuaValue::Int(i)) != LuaValue::Nil,
            n < i64::MAX ==> self.value_at(strs@, LuaValue::Int((n + 1) as i64)) == LuaValue::Nil,
    {
        let mut n: i64 = 0;
        while n < i64::MAX
            invariant
                0 <= n,
                self.wf(strs@),
                forall|j: i64|
                    1 <= j <= n ==> #[trigger] self.value_at(strs@, LuaValue::Int(j)) != LuaValue::Nil,
            decreases i64::MAX - n,
        {
            let v: LuaValue = self.get_int(strs, n + 1);
            if v == LuaValue::Nil {
                return n;
            }
            n = n + 1;
        }
        n
    }
}

proof fn lemma_push_lookup(strs: Seq<LuaString>, es: Seq<TableEntry>, e: TableEntry, k: LuaValue)
    requires
        find_from(strs, es, e.key, 0) == es.len(),
    ensures
        find_from(strs, es.push(e), k, 0) == (if same_key(strs, e.key, k) {
            es.len() as int
        } else if find_from(strs, es, k, 0) < es.len() {
            find_from(strs, es, k, 0)
        } else {
            (es.len() + 1) as int
        }),
{
    let fs = es.push(e);
    lemma_find_from(strs, es, k, 0);
    lemma_find_from(strs, es, e.key, 0);
    assert forall|j: int| 0 <= j < es.len() implies #[trigger] fs[j] == es[j] by {}
    let at = find_from(strs, es, k, 0);
    if same_key(strs, e.key, k) {
        assert(fs[es.len() as int] == e);
        assert forall|j: int| 0 <= j < es.len() implies !same_key(strs, #[trigger] fs[j].key, k) by {
            assert(!same_key(strs, es[j].key, e.key));
        }
        lemma_found(strs, fs, k, 0, es.len() as int);
    } else if at < es.len() {
        lemma_found(strs, fs, k, 0, at);
    } else {
        lemma_not_found(strs, fs, k, 0);
    }
}

proof fn lemma_update_lookup(strs: Seq<LuaString>, es: Seq<TableEntry>, i: int, v: LuaValue, k: LuaValue)
    requires
        0 <= i < es.len(),
        entries_wf(strs, es),
    ensures
        find_from(strs, es.update(i, TableEntry { key: es[i].key, value: v }), k, 0) == find_from(
            strs,
            es,
            k,
            0,
        ),
        same_key(strs, es[i].key, k) <==> find_from(strs, es, k, 0) == i,
{
    let fs = es.update(i, TableEntry { key: es[i].key, value: v });
    lemma_find_from(strs, es, k, 0);
    assert forall|j: int| 0 <= j < es.len() implies #[trigger] fs[j].key == es[j].key by {}
    let at = find_from(strs, es, k, 0);
    if at < es.len() {
        lemma_found(strs, fs, k, 0, at);
    } else {
        lemma_not_found(strs, fs, k, 0);
    }
    if same_key(strs, es[i].key, k) && at != i {
        assert(at < i);
        assert(same_key(strs, es[at].key, es[i].key));
    }
}

proof fn lemma_remove_lookup(strs: Seq<LuaString>, es: Seq<TableEntry>, i: int, k: LuaValue)
    requires
        0 <= i < es.len(),
        entries_wf(strs, es),
    ensures
        ({
            let fs = es.remove(i);
            let at = find_from(strs, es, k, 0);
            let af = find_from(strs, fs, k, 0);
            if same_key(strs, es[i].key, k) {
                af == fs.len()
            } else if at < es.len() {
                af < fs.len() && fs[af].value == es[at].value
            } else {
                af == fs.len()
            }
        }),
{
    let fs = es.remove(i);
    lemma_find_from(strs, es, k, 0);
    let at = find_from(strs, es, k, 0);
    assert forall|j: int| 0 <= j < fs.len() implies #[trigger] fs[j] == es[if j < i { j } else { j + 1 }] by {}
    if same_key(strs, es[i].key, k) {
        assert forall|j: int| 0 <= j < fs.len() implies !same_key(strs, #[trigger] fs[j].key, k) by {
            let j0 = if j < i { j } else { j + 1 };
            assert(fs[j] == es[j0]);
            if j0 < i {
                assert(!same_key(strs, es[j0].key, es[i].key));
            } else {
                assert(!same_key(strs, es[i].key, es[j0].key));
            }
        }
        lemma_not_found(strs, fs, k, 0);
    } else if at < es.len() {
        let af = if at < i { at } else { at - 1 };
        assert(fs[af] == es[at]);
        assert forall|j: int| 0 <= j < af implies !same_key(strs, #[trigger] fs[j].key, k) by {
            let j0 = if j < i { j } else { j + 1 };
            assert(fs[j] == es[j0]);
        }
        lemma_found(strs, fs, k, 0, af);
    } else {
        assert forall|j: int| 0 <= j < fs.len() implies !same_key(strs, #[trigger] fs[j].key, k) by {
            let j0 = if j < i { j } else { j + 1 };
            assert(fs[j] == es[j0]);
            assert(!same_key(strs, es[j0].key, k));
        }
        lemma_not_found(strs, fs, k, 0);
    }
}

/// A key under which a table has something is neither `nil` nor NaN.
pub proof fn lemma_key_stored(strs: Seq<LuaString>, t: LuaTable, k: LuaValue)
    requires
        t.wf(strs),
        t.value_at(strs, k) != LuaValue::Nil,
    ensures
        LuaTable::key_error(k) is None,
{
    let i = find_from(strs, t.entries@, norm_key(k), 0);
    lemma_find_from(strs, t.entries@, norm_key(k), 0);
    assert(same_key(strs, t.entries@[i].key, norm_key(k)));
}

} // verus!
