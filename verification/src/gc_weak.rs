//! Weak tables in a collection.

use vstd::prelude::*;
use crate::gc_marks::Marks;
use crate::gc_marks::entry_holds;
use crate::gc_marks::list_value;
use crate::gc_marks::listed;
use crate::gc_reach::Marker;
use crate::gc_reach::closed;
use crate::gc_reach::followed;
use crate::gc_reach::holds;
use crate::gc_reach::is_entry;
use crate::gc_roots::thread_holds;
use crate::gc_threads::lemma_thread_same;
use crate::global::GlobalState;
use crate::global::WeakListKind;
use crate::global::WeakTableEntry;
use crate::global::lemma_refs_grow;
use crate::heap::GcRef;
use crate::heap::Heap;
use crate::heap::ref_of;
use crate::heap::value_ref;
use crate::string::LuaString;
use crate::table::LuaTable;
use crate::table::TableEntry;
use crate::table::entries_wf;
use crate::table::same_key;
use crate::value::LuaValue;
use crate::value::TableId;

verus! {

/// Whether a value stays in a weak table: it is no object, a string, or reached.
pub open spec fn stays(s: Set<GcRef>, v: LuaValue) -> bool {
    match value_ref(v) {
        None => true,
        Some(GcRef::Str(_)) => true,
        Some(r) => s.contains(r),
    }
}

/// Whether the value of an entry of a table with weak keys is held: where its key
/// stays, or anyway where all values are held.
pub open spec fn value_held(all: bool, s: Set<GcRef>, e: TableEntry) -> bool {
    all || stays(s, e.key)
}

/// Whether the `k`-th weak table is a table with weak keys, reached, and its `i`-th
/// entry holds an object.
pub open spec fn weak_holds_at(g: GlobalState, all: bool, s: Set<GcRef>, k: int, i: int, c: GcRef) -> bool {
    let w = g.weak_tables_registry@[k];
    let t = g.heap.tables.items@[w.table.0 as int];
    &&& 0 <= k < g.weak_tables_registry@.len()
    &&& w.kind == WeakListKind::Ephemeron
    &&& s.contains(GcRef::Table(w.table))
    &&& 0 <= i < t.entries@.len()
    &&& value_held(all, s, t.entries@[i])
    &&& value_ref(t.entries@[i].value) == Some(c)
}

/// Whether a reached table with weak keys holds an object.
pub open spec fn weak_holds(g: GlobalState, all: bool, s: Set<GcRef>, c: GcRef) -> bool {
    exists|k: int, i: int| #[trigger] weak_holds_at(g, all, s, k, i, c)
}

/// Whether a set of objects has everything that its tables with weak keys hold.
pub open spec fn closed_weak(g: GlobalState, all: bool, s: Set<GcRef>) -> bool {
    forall|c: GcRef| #[trigger] weak_holds(g, all, s, c) ==> s.contains(c)
}

/// Whether a set of objects is what can be reached from a base, through tables with
/// weak keys too, and no more.
pub open spec fn is_settled(g: GlobalState, all: bool, start: Set<GcRef>, base: Set<GcRef>, s: Set<GcRef>) -> bool {
    &&& start.subset_of(s)
    &&& base.subset_of(s)
    &&& closed(g, start, s)
    &&& closed_weak(g, all, s)
    &&& forall|t: Set<GcRef>|
        start.subset_of(t) && base.subset_of(t) && #[trigger] closed(g, start, t) && closed_weak(g, all, t) ==> s.subset_of(t)
}

/// What is settled on is determined.
pub proof fn law_settled_unique(g: GlobalState, all: bool, start: Set<GcRef>, base: Set<GcRef>, s: Set<GcRef>, t: Set<GcRef>)
    requires
        is_settled(g, all, start, base, s),
        is_settled(g, all, start, base, t),
    ensures
        s == t,
{
    assert(s =~= t);
}

/// What tables with weak keys hold only grows with what is reached.
proof fn lemma_weak_monotone(g: GlobalState, all: bool, s: Set<GcRef>, t: Set<GcRef>, c: GcRef)
    requires
        s.subset_of(t),
        weak_holds(g, all, s, c),
    ensures
        weak_holds(g, all, t, c),
{
    let (k, i) = choose|k: int, i: int| #[trigger] weak_holds_at(g, all, s, k, i, c);
    assert(weak_holds_at(g, all, t, k, i, c));
}

/// Whether a value stays in a weak table.
pub fn value_stays(marks: &Marks, v: &LuaValue) -> (r: bool)
    ensures
        r == stays(marks@, *v),
{
    match ref_of(v) {
        None => true,
        Some(GcRef::Str(_)) => true,
        Some(r) => marks.is_marked(r),
    }
}

impl GlobalState {
    /// Lists what the reached tables with weak keys hold.
    #[verifier::rlimit(40)]
    fn list_weak_held(&self, all: bool, marks: &Marks) -> (out: Vec<GcRef>)
        requires
            self.wf(),
        ensures
            forall|c: GcRef| #[trigger] out@.contains(c) <==> weak_holds(*self, all, marks@, c),
            forall|k: int| 0 <= k < out@.len() ==> self.heap.sizes().has(#[trigger] out@[k]),
    {
        let ghost s = marks@;
        let mut out: Vec<GcRef> = Vec::new();
        let mut k: usize = 0;
        while k < self.weak_tables_registry.len()
            invariant
                k <= self.weak_tables_registry@.len(),
                self.wf(),
                s == marks@,
                forall|c: GcRef| #[trigger]
                    out@.contains(c) <==> exists|a: int, i: int| a < k && #[trigger] weak_holds_at(*self, all, s, a, i, c),
            decreases self.weak_tables_registry@.len() - k,
        {
            let ghost before = out@;
            let w: WeakTableEntry = self.weak_tables_registry[k];
            assert(self.weak_tables_registry@[k as int].table.0 < self.heap.sizes().tables);
            if w.kind == WeakListKind::Ephemeron && marks.is_marked(GcRef::Table(w.table)) {
                self.list_held_values(all, &mut out, marks, w.table);
            }
            proof {
                let t = self.heap.tables.items@[w.table.0 as int];
                assert forall|c: GcRef| #[trigger] out@.contains(c) <==> exists|a: int, i: int|
                    a < k + 1 && #[trigger] weak_holds_at(*self, all, s, a, i, c) by {
                    let here = w.kind == WeakListKind::Ephemeron && s.contains(GcRef::Table(w.table))
                        && held_value(all, s, t, c);
                    assert(out@.contains(c) <==> before.contains(c) || here);
                    if here {
                        let i = choose|i: int|
                            #![trigger t.entries@[i]]
                            0 <= i < t.entries@.len() && value_held(all, s, t.entries@[i]) && value_ref(
                                t.entries@[i].value,
                            ) == Some(c);
                        assert(weak_holds_at(*self, all, s, k as int, i, c));
                    }
                    if exists|a: int, i: int| a < k + 1 && #[trigger] weak_holds_at(*self, all, s, a, i, c) {
                        let (a, i) = choose|a: int, i: int| a < k + 1 && #[trigger] weak_holds_at(*self, all, s, a, i, c);
                        if a == k {
                            assert(value_ref(t.entries@[i].value) == Some(c));
                            assert(here);
                        } else {
                            assert(before.contains(c));
                        }
                    }
                }
            }
            k = k + 1;
        }
        proof {
            assert forall|c: GcRef| #[trigger] out@.contains(c) <==> weak_holds(*self, all, s, c) by {
                if weak_holds(*self, all, s, c) {
                    let (a, i) = choose|a: int, i: int| #[trigger] weak_holds_at(*self, all, s, a, i, c);
                    assert(a < self.weak_tables_registry@.len());
                }
            }
            assert forall|j: int| 0 <= j < out@.len() implies self.heap.sizes().has(#[trigger] out@[j]) by {
                let c = out@[j];
                assert(out@.contains(c));
                let (a, i) = choose|a: int, i: int| #[trigger] weak_holds_at(*self, all, s, a, i, c);
                let t = self.heap.tables.items@[self.weak_tables_registry@[a].table.0 as int];
                assert(self.weak_tables_registry@[a].table.0 < self.heap.sizes().tables);
                assert(self.heap.sizes().ok_tab(t));
                assert(self.heap.sizes().ok(t.entries@[i].value));
            }
        }
        out
    }

    fn list_held_values(&self, all: bool, out: &mut Vec<GcRef>, marks: &Marks, t: TableId)
        requires
            t.0 < self.heap.tables.items@.len(),
        ensures
            listed(
                old(out)@,
                final(out)@,
                |c: GcRef| held_value(all, marks@, self.heap.tables.items@[t.0 as int], c),
            ),
    {
        let ghost tab = self.heap.tables.items@[t.0 as int];
        let mut i: usize = 0;
        while i < self.heap.tables.items[t.0].entries.len()
            invariant
                t.0 < self.heap.tables.items@.len(),
                tab == self.heap.tables.items@[t.0 as int],
                i <= tab.entries@.len(),
                listed(
                    old(out)@,
                    out@,
                    |c: GcRef|
                        exists|j: int|
                            #![trigger tab.entries@[j]]
                            0 <= j < i && value_held(all, marks@, tab.entries@[j]) && value_ref(
                                tab.entries@[j].value,
                            ) == Some(c),
                ),
            decreases tab.entries@.len() - i,
        {
            let ghost before = out@;
            let e: TableEntry = self.heap.tables.items[t.0].entries[i];
            if all || value_stays(marks, &e.key) {
                list_value(out, &e.value);
            }
            proof {
                assert forall|c: GcRef| #[trigger] out@.contains(c) <==> old(out)@.contains(c) || exists|j: int|
                    #![trigger tab.entries@[j]]
                    0 <= j < i + 1 && value_held(all, marks@, tab.entries@[j]) && value_ref(tab.entries@[j].value)
                        == Some(c) by {
                    assert(tab.entries@[i as int] == e);
                    assert(out@.contains(c) <==> before.contains(c) || value_held(all, marks@, e) && value_ref(
                        e.value,
                    ) == Some(c));
                }
            }
            i = i + 1;
        }
    }
}

/// Whether an entry of a table with weak keys holds an object.
pub open spec fn held_value(all: bool, s: Set<GcRef>, t: LuaTable, c: GcRef) -> bool {
    exists|i: int|
        #![trigger t.entries@[i]]
        0 <= i < t.entries@.len() && value_held(all, s, t.entries@[i]) && value_ref(t.entries@[i].value) == Some(c)
}

fn all_marked(marks: &Marks, list: &Vec<GcRef>) -> (r: bool)
    ensures
        r == forall|i: int| 0 <= i < list@.len() ==> marks.has(#[trigger] list@[i]),
{
    let mut i: usize = 0;
    while i < list.len()
        invariant
            i <= list@.len(),
            forall|j: int| 0 <= j < i ==> marks.has(#[trigger] list@[j]),
        decreases list@.len() - i,
    {
        if !marks.is_marked(list[i]) {
            return false;
        }
        i = i + 1;
    }
    true
}

impl Marker {
    /// Marks what tables with weak keys hold, over and over until nothing new comes up.
    /// They hold the values whose keys stay, or all values where `all` says so.
    #[verifier::rlimit(60)]
    #[verifier::spinoff_prover]
    pub fn settle(&mut self, g: &GlobalState, all: bool, start: &Marks)
        requires
            g.wf(),
            old(self).wf(*g, start@),
            old(self).gray@.len() == 0,
        ensures
            final(self).wf(*g, start@),
            final(self).gray@.len() == 0,
            is_settled(*g, all, start@, old(self).marks@, final(self).marks@),
    {
        let ghost base = self.marks@;
        loop
            invariant
                g.wf(),
                self.wf(*g, start@),
                self.gray@.len() == 0,
                base == old(self).marks@,
                base.subset_of(self.marks@),
                forall|t: Set<GcRef>|
                    start@.subset_of(t) && base.subset_of(t) && #[trigger] closed(*g, start@, t) && closed_weak(*g, all, t)
                        ==> self.marks@.subset_of(t),
            decreases self.marks.left(),
        {
            let ghost s = self.marks@;
            let list: Vec<GcRef> = g.list_weak_held(all, &self.marks);
            if all_marked(&self.marks, &list) {
                proof {
                    assert forall|c: GcRef| #[trigger] weak_holds(*g, all, s, c) implies s.contains(c) by {
                        assert(list@.contains(c));
                        let i = choose|i: int| 0 <= i < list@.len() && list@[i] == c;
                        assert(self.marks.has(list@[i]));
                    }
                    assert(closed(*g, start@, s)) by {
                        assert forall|r: GcRef, c: GcRef|
                            s.contains(r) && followed(start@, r) && #[trigger] holds(*g, r, c) implies s.contains(c) by {
                            assert(!self.gray@.contains(r));
                        }
                    }
                }
                return;
            }
            self.mark_all(g, start, &list);
            let ghost mid = self.marks@;
            proof {
                let i = choose|i: int| 0 <= i < list@.len() && !s.contains(#[trigger] list@[i]);
                assert(list@.contains(list@[i]));
                assert(list@.to_set().contains(list@[i]));
            }
            self.drain(g, start);
            proof {
                assert forall|t: Set<GcRef>|
                    start@.subset_of(t) && base.subset_of(t) && #[trigger] closed(*g, start@, t) && closed_weak(*g, all, t)
                    implies self.marks@.subset_of(t) by {
                    assert(s.subset_of(t));
                    assert(mid.subset_of(t)) by {
                        assert forall|c: GcRef| mid.contains(c) implies t.contains(c) by {
                            if list@.contains(c) {
                                lemma_weak_monotone(*g, all, s, t, c);
                            }
                        }
                    }
                }
            }
        }
    }
}

/// How dead entries leave weak tables.
#[derive(Debug, Clone, Copy, PartialEq, Eq, Structural)]
pub enum Prune {
    /// Those with dead values leave every table with weak values.
    Values,
    /// Those with dead values leave the tables with weak values that are reached.
    ReachedValues,
    /// Those with dead keys leave the tables with weak keys that are reached.
    Keys,
}

/// Whether an entry stays in a weak table: its value stays, or its key.
pub open spec fn entry_stays(s: Set<GcRef>, how: Prune, e: TableEntry) -> bool {
    stays(
        s,
        if how != Prune::Keys {
            e.value
        } else {
            e.key
        },
    )
}

/// The entries that stay, in order.
pub open spec fn kept(es: Seq<TableEntry>, s: Set<GcRef>, how: Prune) -> Seq<TableEntry>
    decreases es.len(),
{
    if es.len() == 0 {
        Seq::empty()
    } else if entry_stays(s, how, es.last()) {
        kept(es.drop_last(), s, how).push(es.last())
    } else {
        kept(es.drop_last(), s, how)
    }
}

/// Exactly the entries that stay are kept.
pub proof fn law_kept(es: Seq<TableEntry>, s: Set<GcRef>, how: Prune, e: TableEntry)
    ensures
        kept(es, s, how).contains(e) <==> es.contains(e) && entry_stays(s, how, e),
    decreases es.len(),
{
    if es.len() > 0 {
        let ks = kept(es.drop_last(), s, how);
        law_kept(es.drop_last(), s, how, e);
        if es.drop_last().contains(e) {
            let i = choose|i: int| 0 <= i < es.drop_last().len() && es.drop_last()[i] == e;
            assert(es[i] == e);
        }
        if es.contains(e) && !es.drop_last().contains(e) {
            let i = choose|i: int| 0 <= i < es.len() && es[i] == e;
            if i < es.len() - 1 {
                assert(es.drop_last()[i] == e);
            }
        }
        if entry_stays(s, how, es.last()) {
            let all = ks.push(es.last());
            if ks.contains(e) {
                let i = choose|i: int| 0 <= i < ks.len() && ks[i] == e;
                assert(all[i] == e);
            }
            if e == es.last() {
                assert(all[all.len() - 1] == e);
                assert(es[es.len() - 1] == e);
            }
            if all.contains(e) {
                let i = choose|i: int| 0 <= i < all.len() && all[i] == e;
                if i < ks.len() {
                    assert(ks[i] == e);
                }
            }
        }
    }
}

/// Entries in order stay so when some leave.
proof fn lemma_kept_wf(strs: Seq<LuaString>, es: Seq<TableEntry>, s: Set<GcRef>, how: Prune)
    requires
        entries_wf(strs, es),
    ensures
        entries_wf(strs, kept(es, s, how)),
    decreases es.len(),
{
    if es.len() > 0 {
        let fs = es.drop_last();
        assert(entries_wf(strs, fs)) by {
            assert forall|i: int, j: int|
                #![trigger fs[i], fs[j]]
                0 <= i < j < fs.len() implies !same_key(strs, fs[i].key, fs[j].key) by {
                assert(fs[i] == es[i] && fs[j] == es[j]);
            }
            assert forall|i: int| #![trigger fs[i]] 0 <= i < fs.len() implies fs[i] == es[i] by {}
        }
        lemma_kept_wf(strs, fs, s, how);
        let ks = kept(fs, s, how);
        let all = kept(es, s, how);
        if entry_stays(s, how, es.last()) {
            let n = es.len() - 1;
            assert(es[n] == es.last());
            assert forall|i: int, j: int|
                #![trigger all[i], all[j]]
                0 <= i < j < all.len() implies !same_key(strs, all[i].key, all[j].key) by {
                if j < ks.len() {
                    assert(all[i] == ks[i] && all[j] == ks[j]);
                } else {
                    law_kept(fs, s, how, ks[i]);
                    assert(ks.contains(ks[i]));
                    let k = choose|k: int| 0 <= k < fs.len() && fs[k] == ks[i];
                    assert(es[k] == ks[i]);
                    assert(!same_key(strs, es[k].key, es[n].key));
                }
            }
            assert forall|i: int| #![trigger all[i]] 0 <= i < all.len() implies all[i] == (if i < ks.len() {
                ks[i]
            } else {
                es[n]
            }) by {}
        }
    }
}

/// Where all entries stay, nothing changes.
proof fn lemma_kept_all(es: Seq<TableEntry>, s: Set<GcRef>, how: Prune)
    requires
        forall|i: int| 0 <= i < es.len() ==> entry_stays(s, how, #[trigger] es[i]),
    ensures
        kept(es, s, how) == es,
    decreases es.len(),
{
    if es.len() > 0 {
        let fs = es.drop_last();
        assert forall|i: int| 0 <= i < fs.len() implies entry_stays(s, how, #[trigger] fs[i]) by {
            assert(fs[i] == es[i]);
        }
        lemma_kept_all(fs, s, how);
        assert(es[es.len() - 1] == es.last());
        assert(fs.push(es.last()) =~= es);
    }
}

/// What is kept is kept again.
proof fn lemma_kept_twice(es: Seq<TableEntry>, s: Set<GcRef>, how: Prune)
    ensures
        kept(kept(es, s, how), s, how) == kept(es, s, how),
{
    let ks = kept(es, s, how);
    assert forall|i: int| 0 <= i < ks.len() implies entry_stays(s, how, #[trigger] ks[i]) by {
        law_kept(es, s, how, ks[i]);
        assert(ks.contains(ks[i]));
    }
    lemma_kept_all(ks, s, how);
}

/// Whether the `k`-th weak table is one that dead entries leave.
pub open spec fn is_pruned_at(g: GlobalState, s: Set<GcRef>, how: Prune, k: int, t: int) -> bool {
    let w = g.weak_tables_registry@[k];
    &&& 0 <= k < g.weak_tables_registry@.len()
    &&& w.table.0 == t
    &&& w.kind == WeakListKind::AllWeak || w.kind == (if how == Prune::Keys {
        WeakListKind::Ephemeron
    } else {
        WeakListKind::WeakValues
    })
    &&& how == Prune::Values || s.contains(GcRef::Table(w.table))
}

/// Whether dead entries leave a table, counting the first `n` weak tables.
pub open spec fn is_pruned(g: GlobalState, s: Set<GcRef>, how: Prune, n: int, t: int) -> bool {
    exists|k: int| k < n && #[trigger] is_pruned_at(g, s, how, k, t)
}

/// Whether dead entries left the tables that they leave, counting the first `n` weak
/// tables, and nothing else changed.
pub open spec fn pruned_up_to(g: GlobalState, s: Set<GcRef>, how: Prune, n: int, h: Heap) -> bool {
    &&& h == (Heap { tables: h.tables, ..g.heap })
    &&& h.tables == (crate::heap::Arena { items: h.tables.items, ..g.heap.tables })
    &&& h.tables.items@.len() == g.heap.tables.items@.len()
    &&& forall|t: int|
        #![trigger h.tables.items@[t]]
        0 <= t < h.tables.items@.len() ==> {
            let a = g.heap.tables.items@[t];
            let b = h.tables.items@[t];
            &&& b.metatable == a.metatable && b.weak_mode == a.weak_mode
            &&& b.entries@ == (if is_pruned(g, s, how, n, t) {
                kept(a.entries@, s, how)
            } else {
                a.entries@
            })
        }
}

/// Whether dead entries left the weak tables that they leave, and nothing else
/// changed.
pub open spec fn weak_pruned(g: GlobalState, s: Set<GcRef>, how: Prune, h: Heap) -> bool {
    pruned_up_to(g, s, how, g.weak_tables_registry@.len() as int, h)
}

/// Whether a string stands in an entry.
pub open spec fn entry_string(e: TableEntry, c: GcRef) -> bool {
    c is Str && (value_ref(e.key) == Some(c) || value_ref(e.value) == Some(c))
}

/// Whether a string stands in an entry that stays in the `k`-th weak table, which is
/// reached.
pub open spec fn string_stays_at(g: GlobalState, s: Set<GcRef>, how: Prune, k: int, e: TableEntry, c: GcRef) -> bool {
    let w = g.weak_tables_registry@[k];
    &&& is_pruned_at(g, s, how, k, w.table.0 as int)
    &&& s.contains(GcRef::Table(w.table))
    &&& g.heap.tables.items@[w.table.0 as int].entries@.contains(e)
    &&& entry_stays(s, how, e)
    &&& entry_string(e, c)
}

/// The strings in entries that stay in weak tables that are reached.
pub open spec fn staying_strings(g: GlobalState, s: Set<GcRef>, how: Prune) -> Set<GcRef> {
    Set::new(
        |c: GcRef| exists|k: int, e: TableEntry| #[trigger] string_stays_at(g, s, how, k, e, c),
    )
}

/// A table that some entries left is in order.
proof fn lemma_pruned_ok(g: GlobalState, h: GlobalState, t: int)
    requires
        g.wf(),
        h == (GlobalState { heap: h.heap, ..g }),
        h.heap == (Heap { tables: h.heap.tables, ..g.heap }),
        h.heap.tables == (crate::heap::Arena { items: h.heap.tables.items, ..g.heap.tables }),
        h.heap.tables.items@.len() == g.heap.tables.items@.len(),
        0 <= t < g.heap.tables.items@.len(),
        forall|u: int|
            0 <= u < g.heap.tables.items@.len() && u != t ==> #[trigger] h.heap.tables.items@[u]
                == g.heap.tables.items@[u],
        h.heap.tables.items@[t].metatable == g.heap.tables.items@[t].metatable,
        entries_wf(g.heap.strs(), h.heap.tables.items@[t].entries@),
        forall|e: TableEntry| #[trigger]
            h.heap.tables.items@[t].entries@.contains(e) ==> g.heap.tables.items@[t].entries@.contains(e),
    ensures
        h.wf(),
        h.heap.sizes() == g.heap.sizes(),
{
    let z = g.heap.sizes();
    assert(h.heap.sizes() == z);
    let a = g.heap.tables.items@[t];
    let b = h.heap.tables.items@[t];
    assert(z.ok_tab(a));
    assert(z.ok_tab(b)) by {
        assert forall|i: int| #![trigger b.entries@[i]] 0 <= i < b.entries@.len() implies z.ok(b.entries@[i].key) && z.ok(
            b.entries@[i].value,
        ) by {
            assert(b.entries@.contains(b.entries@[i]));
            let j = choose|j: int| 0 <= j < a.entries@.len() && a.entries@[j] == b.entries@[i];
            assert(z.ok(a.entries@[j].key) && z.ok(a.entries@[j].value));
        }
    }
    assert forall|u: int| #![trigger h.heap.tables.items@[u]] 0 <= u < z.tables implies h.heap.tables.items@[u].wf(
        h.heap.strs(),
    ) && z.ok_tab(h.heap.tables.items@[u]) by {
        if u != t {
            assert(h.heap.tables.items@[u] == g.heap.tables.items@[u]);
        }
    }
    assert(h.heap.wf());
    lemma_refs_grow(g, z, h.heap.sizes());
}

fn prune_entries(es: &Vec<TableEntry>, marks: &Marks, how: Prune, strings: bool, out: &mut Vec<GcRef>) -> (ks: Vec<
    TableEntry,
>)
    ensures
        ks@ == kept(es@, marks@, how),
        listed(
            old(out)@,
            final(out)@,
            |c: GcRef|
                strings && exists|e: TableEntry|
                    es@.contains(e) && entry_stays(marks@, how, e) && #[trigger] entry_string(e, c),
        ),
{
    let mut ks: Vec<TableEntry> = Vec::new();
    let mut i: usize = 0;
    assert(es@.subrange(0, 0) =~= Seq::<TableEntry>::empty());
    while i < es.len()
        invariant
            i <= es@.len(),
            ks@ == kept(es@.subrange(0, i as int), marks@, how),
            listed(
                old(out)@,
                out@,
                |c: GcRef|
                    strings && exists|j: int|
                        #![trigger es@[j]]
                        0 <= j < i && entry_stays(marks@, how, es@[j]) && entry_string(es@[j], c),
            ),
        decreases es@.len() - i,
    {
        let ghost before = out@;
        let e: TableEntry = es[i];
        let stays_here: bool = if how != Prune::Keys {
            value_stays(marks, &e.value)
        } else {
            value_stays(marks, &e.key)
        };
        if stays_here {
            ks.push(e);
            if strings {
                if let LuaValue::Str(_) = e.key {
                    list_value(out, &e.key);
                }
                if let LuaValue::Str(_) = e.value {
                    list_value(out, &e.value);
                }
            }
        }
        proof {
            let a = es@.subrange(0, i as int);
            let b = es@.subrange(0, i + 1);
            assert(b.drop_last() =~= a);
            assert(b.last() == e);
            assert forall|c: GcRef| #[trigger] out@.contains(c) <==> old(out)@.contains(c) || strings && exists|j: int|
                #![trigger es@[j]]
                0 <= j < i + 1 && entry_stays(marks@, how, es@[j]) && entry_string(es@[j], c) by {
                assert(es@[i as int] == e);
                assert(out@.contains(c) <==> before.contains(c) || strings && entry_stays(marks@, how, e)
                    && entry_string(e, c));
            }
        }
        i = i + 1;
    }
    proof {
        assert(es@.subrange(0, es@.len() as int) =~= es@);
        assert forall|c: GcRef| #[trigger] out@.contains(c) <==> old(out)@.contains(c) || strings && exists|e: TableEntry|
            es@.contains(e) && entry_stays(marks@, how, e) && #[trigger] entry_string(e, c) by {
            if strings && exists|e: TableEntry|
                es@.contains(e) && entry_stays(marks@, how, e) && #[trigger] entry_string(e, c) {
                let e = choose|e: TableEntry|
                    es@.contains(e) && entry_stays(marks@, how, e) && #[trigger] entry_string(e, c);
                let j = choose|j: int| 0 <= j < es@.len() && es@[j] == e;
                assert(entry_stays(marks@, how, es@[j]) && entry_string(es@[j], c));
            }
            if out@.contains(c) && !old(out)@.contains(c) {
                let j = choose|j: int|
                    #![trigger es@[j]]
                    0 <= j < es@.len() && entry_stays(marks@, how, es@[j]) && entry_string(es@[j], c);
                assert(es@.contains(es@[j]));
            }
        }
    }
    ks
}

/// Pruning the next weak table, where it is to be pruned.
proof fn lemma_prune_step(g: GlobalState, s: Set<GcRef>, how: Prune, k: int, a: Heap, b: Heap)
    requires
        0 <= k < g.weak_tables_registry@.len(),
        g.weak_tables_registry@[k].table.0 < g.heap.tables.items@.len(),
        pruned_up_to(g, s, how, k, a),
        b == (Heap { tables: b.tables, ..a }),
        b.tables == (crate::heap::Arena { items: b.tables.items, ..a.tables }),
        b.tables.items@.len() == a.tables.items@.len(),
        ({
            let t = g.weak_tables_registry@[k].table.0 as int;
            let hit = is_pruned_at(g, s, how, k, t);
            &&& forall|u: int|
                0 <= u < a.tables.items@.len() && (u != t || !hit) ==> #[trigger] b.tables.items@[u] == a.tables.items@[u]
            &&& hit ==> b.tables.items@[t].metatable == a.tables.items@[t].metatable && b.tables.items@[t].weak_mode
                == a.tables.items@[t].weak_mode && b.tables.items@[t].entries@ == kept(
                a.tables.items@[t].entries@,
                s,
                how,
            )
        }),
    ensures
        pruned_up_to(g, s, how, k + 1, b),
{
    let t = g.weak_tables_registry@[k].table.0 as int;
    assert forall|u: int|
        #![trigger b.tables.items@[u]]
        0 <= u < b.tables.items@.len() implies ({
        let x = g.heap.tables.items@[u];
        let y = b.tables.items@[u];
        &&& y.metatable == x.metatable && y.weak_mode == x.weak_mode
        &&& y.entries@ == (if is_pruned(g, s, how, k + 1, u) {
            kept(x.entries@, s, how)
        } else {
            x.entries@
        })
    }) by {
        let x = g.heap.tables.items@[u];
        let m = a.tables.items@[u];
        assert(m.metatable == x.metatable && m.weak_mode == x.weak_mode);
        lemma_kept_twice(x.entries@, s, how);
        let hit = is_pruned_at(g, s, how, k, u);
        assert(is_pruned(g, s, how, k + 1, u) == (is_pruned(g, s, how, k, u) || hit)) by {
            if is_pruned(g, s, how, k, u) {
                let j = choose|j: int| j < k && #[trigger] is_pruned_at(g, s, how, j, u);
                assert(j < k + 1);
            }
            if is_pruned(g, s, how, k + 1, u) {
                let j = choose|j: int| j < k + 1 && #[trigger] is_pruned_at(g, s, how, j, u);
                if j < k {
                    assert(is_pruned(g, s, how, k, u));
                }
            }
        }
    }
}

impl GlobalState {
    /// Whether dead entries leave a weak table.
    fn prunes(&self, marks: &Marks, how: Prune, k: usize) -> (r: bool)
        requires
            k < self.weak_tables_registry@.len(),
        ensures
            r == is_pruned_at(
                *self,
                marks@,
                how,
                k as int,
                self.weak_tables_registry@[k as int].table.0 as int,
            ),
    {
        let w: WeakTableEntry = self.weak_tables_registry[k];
        let other: WeakListKind = if how == Prune::Keys {
            WeakListKind::Ephemeron
        } else {
            WeakListKind::WeakValues
        };
        (w.kind == WeakListKind::AllWeak || w.kind == other) && (how == Prune::Values || marks.is_marked(
            GcRef::Table(w.table),
        ))
    }

    /// Drops the dead entries of weak tables, by their values or by their keys. Lists the
    /// strings that stay in tables that are reached.
    #[verifier::rlimit(80)]
    #[verifier::spinoff_prover]
    pub fn prune_weak(&mut self, marks: &Marks, how: Prune) -> (out: Vec<GcRef>)
        requires
            old(self).wf(),
        ensures
            final(self).wf(),
            *final(self) == (GlobalState { heap: final(self).heap, ..*old(self) }),
            final(self).heap.sizes() == old(self).heap.sizes(),
            weak_pruned(*old(self), marks@, how, final(self).heap),
            forall|c: GcRef| #[trigger]
                out@.contains(c) <==> staying_strings(*old(self), marks@, how).contains(c),
            forall|k: int| 0 <= k < out@.len() ==> final(self).heap.sizes().has(#[trigger] out@[k]),
    {
        let ghost g0 = *self;
        let ghost s = marks@;
        let mut out: Vec<GcRef> = Vec::new();
        let mut k: usize = 0;
        proof {
            assert forall|t: int| !#[trigger] is_pruned(g0, s, how, 0, t) by {}
        }
        while k < self.weak_tables_registry.len()
            invariant
                k <= self.weak_tables_registry@.len(),
                g0 == *old(self),
                g0.wf(),
                s == marks@,
                self.wf(),
                *self == (GlobalState { heap: self.heap, ..g0 }),
                pruned_up_to(g0, s, how, k as int, self.heap),
                forall|c: GcRef| #[trigger]
                    out@.contains(c) <==> exists|j: int, e: TableEntry|
                        j < k && #[trigger] string_stays_at(g0, s, how, j, e, c),
            decreases self.weak_tables_registry@.len() - k,
        {
            let ghost h1 = self.heap;
            let ghost g1 = *self;
            let ghost before = out@;
            let w: WeakTableEntry = self.weak_tables_registry[k];
            let ghost t = w.table.0 as int;
            assert(g0.weak_tables_registry@[k as int].table.0 < g0.heap.sizes().tables);
            let ghost es = h1.tables.items@[t].entries@;
            let ghost hit = is_pruned_at(g0, s, how, k as int, t);
            if self.prunes(marks, how, k) {
                let strings: bool = marks.is_marked(GcRef::Table(w.table));
                let ks: Vec<TableEntry> = prune_entries(
                    &self.heap.tables.items[w.table.0].entries,
                    marks,
                    how,
                    strings,
                    &mut out,
                );
                self.heap.tables.items[w.table.0].entries = ks;
                proof {
                    assert(g1.heap.tables.items@[t].wf(g1.heap.strs()));
                    lemma_kept_wf(g1.heap.strs(), es, s, how);
                    assert forall|e: TableEntry| #[trigger] self.heap.tables.items@[t].entries@.contains(e) implies es.contains(
                        e,
                    ) by {
                        law_kept(es, s, how, e);
                    }
                    lemma_pruned_ok(g1, *self, t);
                }
            }
            proof {
                lemma_prune_step(g0, s, how, k as int, h1, self.heap);
                let orig = g0.heap.tables.items@[t].entries@;
                assert forall|c: GcRef| #[trigger] out@.contains(c) <==> exists|j: int, e: TableEntry|
                    j < k + 1 && #[trigger] string_stays_at(g0, s, how, j, e, c) by {
                    let here = hit && s.contains(GcRef::Table(w.table)) && exists|e: TableEntry|
                        es.contains(e) && entry_stays(s, how, e) && #[trigger] entry_string(e, c);
                    assert(out@.contains(c) <==> before.contains(c) || here);
                    assert forall|e: TableEntry| entry_stays(s, how, e) implies #[trigger] es.contains(e)
                        == orig.contains(e) by {
                        law_kept(orig, s, how, e);
                    }
                    if here {
                        let e = choose|e: TableEntry|
                            es.contains(e) && entry_stays(s, how, e) && #[trigger] entry_string(e, c);
                        assert(string_stays_at(g0, s, how, k as int, e, c));
                    }
                    if exists|j: int, e: TableEntry|
                        j < k + 1 && #[trigger] string_stays_at(g0, s, how, j, e, c) {
                        let (j, e) = choose|j: int, e: TableEntry|
                            j < k + 1 && #[trigger] string_stays_at(g0, s, how, j, e, c);
                        if j == k {
                            assert(es.contains(e));
                            assert(entry_string(e, c));
                            assert(here);
                        } else {
                            assert(before.contains(c));
                        }
                    }
                }
            }
            k = k + 1;
        }
        proof {
            assert forall|c: GcRef| #[trigger] out@.contains(c) <==> staying_strings(g0, s, how).contains(c) by {
                if staying_strings(g0, s, how).contains(c) {
                    let (j, e) = choose|j: int, e: TableEntry| #[trigger] string_stays_at(g0, s, how, j, e, c);
                    assert(j < g0.weak_tables_registry@.len());
                }
            }
            assert forall|i: int| 0 <= i < out@.len() implies self.heap.sizes().has(#[trigger] out@[i]) by {
                let c = out@[i];
                assert(out@.contains(c));
                let (j, e) = choose|j: int, e: TableEntry| #[trigger] string_stays_at(g0, s, how, j, e, c);
                let tab = g0.heap.tables.items@[g0.weak_tables_registry@[j].table.0 as int];
                assert(g0.weak_tables_registry@[j].table.0 < g0.heap.sizes().tables);
                assert(g0.heap.sizes().ok_tab(tab));
                let n = choose|n: int| 0 <= n < tab.entries@.len() && tab.entries@[n] == e;
                assert(g0.heap.sizes().ok(tab.entries@[n].key) && g0.heap.sizes().ok(tab.entries@[n].value));
            }
        }
        out
    }
}

/// Dropping entries adds no reference.
pub proof fn lemma_holds_pruned(g: GlobalState, s: Set<GcRef>, how: Prune, b: GlobalState, r: GcRef, c: GcRef)
    requires
        b == (GlobalState { heap: b.heap, ..g }),
        weak_pruned(g, s, how, b.heap),
        g.heap.sizes().has(r),
        holds(b, r, c),
    ensures
        holds(g, r, c),
{
    match r {
        GcRef::Table(i) => {
            let x = g.heap.tables.items@[i.0 as int];
            let y = b.heap.tables.items@[i.0 as int];
            assert(y.metatable == x.metatable && y.weak_mode == x.weak_mode);
            if exists|j: int| 0 <= j < y.entries@.len() && entry_holds(y, #[trigger] y.entries@[j], c) {
                let j = choose|j: int| 0 <= j < y.entries@.len() && entry_holds(y, #[trigger] y.entries@[j], c);
                let e = y.entries@[j];
                assert(y.entries@.contains(e));
                law_kept(x.entries@, s, how, e);
                let n = choose|n: int| 0 <= n < x.entries@.len() && x.entries@[n] == e;
                assert(entry_holds(x, x.entries@[n], c));
            }
        },
        GcRef::Thread(t) => {
            let i = choose|i: int| #[trigger]
                is_entry(b, i, t) && thread_holds(b.threads@[i].state->0, b.heap, b.current_thread_id, c);
            assert(is_entry(g, i, t));
            lemma_thread_same(g.threads@[i].state->0, g.heap, b.heap, g.current_thread_id, c);
        },
        _ => {},
    }
}

} // verus!
