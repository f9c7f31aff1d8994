//! Marks on objects, and the references that objects hold.

use vstd::prelude::*;
use crate::heap::GcRef;
use crate::heap::Heap;
use crate::heap::LuaProto;
use crate::heap::Sizes;
use crate::heap::UpVal;
use crate::heap::ref_of;
use crate::heap::value_ref;
use crate::table::LuaTable;
use crate::table::TableEntry;
use crate::value::LuaValue;
use crate::value::ProtoId;
use crate::value::StrId;
use crate::value::UpValId;

verus! {

/// A mark for every object of a store.
pub struct Marks {
    pub strings: Vec<bool>,
    pub tables: Vec<bool>,
    pub userdata: Vec<bool>,
    pub lclosures: Vec<bool>,
    pub cclosures: Vec<bool>,
    pub protos: Vec<bool>,
    pub upvals: Vec<bool>,
    pub threads: Vec<bool>,
}

/// How many of some marks are missing.
pub open spec fn missing(v: Seq<bool>) -> nat
    decreases v.len(),
{
    if v.len() == 0 {
        0
    } else {
        missing(v.drop_last()) + (if v.last() {
            0nat
        } else {
            1nat
        })
    }
}

/// Setting a mark that was missing leaves one fewer missing.
pub proof fn lemma_missing(v: Seq<bool>, i: int)
    requires
        0 <= i < v.len(),
        !v[i],
    ensures
        missing(v.update(i, true)) + 1 == missing(v),
    decreases v.len(),
{
    let w = v.update(i, true);
    if i == v.len() - 1 {
        assert(w.drop_last() =~= v.drop_last());
    } else {
        assert(w.drop_last() =~= v.drop_last().update(i, true));
        lemma_missing(v.drop_last(), i);
    }
}

fn no_marks(n: usize) -> (v: Vec<bool>)
    ensures
        v@.len() == n,
        forall|i: int| 0 <= i < n ==> !(#[trigger] v@[i]),
{
    let mut v: Vec<bool> = Vec::new();
    while v.len() < n
        invariant
            v@.len() <= n,
            forall|i: int| 0 <= i < v@.len() ==> !(#[trigger] v@[i]),
        decreases n - v@.len(),
    {
        v.push(false);
    }
    v
}

impl Marks {
    /// Whether there is a mark for every object.
    pub open spec fn fits(self, z: Sizes) -> bool {
        &&& self.strings@.len() == z.strings && self.tables@.len() == z.tables
        &&& self.userdata@.len() == z.userdata && self.lclosures@.len() == z.lclosures
        &&& self.cclosures@.len() == z.cclosures && self.protos@.len() == z.protos
        &&& self.upvals@.len() == z.upvals && self.threads@.len() == z.threads
    }

    /// Whether there is a mark for an object.
    pub open spec fn covers(self, r: GcRef) -> bool {
        match r {
            GcRef::Str(i) => i.0 < self.strings@.len(),
            GcRef::Table(i) => i.0 < self.tables@.len(),
            GcRef::UserData(i) => i.0 < self.userdata@.len(),
            GcRef::LClosure(i) => i.0 < self.lclosures@.len(),
            GcRef::CClosure(i) => i.0 < self.cclosures@.len(),
            GcRef::Proto(i) => i.0 < self.protos@.len(),
            GcRef::UpVal(i) => i.0 < self.upvals@.len(),
            GcRef::Thread(i) => i.0 < self.threads@.len(),
        }
    }

    /// Whether an object is marked.
    pub open spec fn has(self, r: GcRef) -> bool {
        match r {
            GcRef::Str(i) => i.0 < self.strings@.len() && self.strings@[i.0 as int],
            GcRef::Table(i) => i.0 < self.tables@.len() && self.tables@[i.0 as int],
            GcRef::UserData(i) => i.0 < self.userdata@.len() && self.userdata@[i.0 as int],
            GcRef::LClosure(i) => i.0 < self.lclosures@.len() && self.lclosures@[i.0 as int],
            GcRef::CClosure(i) => i.0 < self.cclosures@.len() && self.cclosures@[i.0 as int],
            GcRef::Proto(i) => i.0 < self.protos@.len() && self.protos@[i.0 as int],
            GcRef::UpVal(i) => i.0 < self.upvals@.len() && self.upvals@[i.0 as int],
            GcRef::Thread(i) => i.0 < self.threads@.len() && self.threads@[i.0 as int],
        }
    }

    /// The marked objects.
    pub open spec fn view(self) -> Set<GcRef> {
        Set::new(|r: GcRef| self.has(r))
    }

    /// How many marks are missing.
    pub open spec fn left(self) -> nat {
        missing(self.strings@) + missing(self.tables@) + missing(self.userdata@) + missing(self.lclosures@)
            + missing(self.cclosures@) + missing(self.protos@) + missing(self.upvals@) + missing(self.threads@)
    }

    /// No marks yet.
    pub fn none(h: &Heap) -> (m: Marks)
        ensures
            m.fits(h.sizes()),
            m@ == Set::<GcRef>::empty(),
    {
        let m: Marks = Marks {
            strings: no_marks(h.strings.items.len()),
            tables: no_marks(h.tables.items.len()),
            userdata: no_marks(h.userdata.items.len()),
            lclosures: no_marks(h.lclosures.items.len()),
            cclosures: no_marks(h.cclosures.items.len()),
            protos: no_marks(h.protos.items.len()),
            upvals: no_marks(h.upvals.items.len()),
            threads: no_marks(h.threads.items.len()),
        };
        assert(m@ =~= Set::<GcRef>::empty());
        m
    }

    /// Whether an object is marked.
    pub fn is_marked(&self, r: GcRef) -> (b: bool)
        ensures
            b == self.has(r),
    {
        match r {
            GcRef::Str(i) => i.0 < self.strings.len() && self.strings[i.0],
            GcRef::Table(i) => i.0 < self.tables.len() && self.tables[i.0],
            GcRef::UserData(i) => i.0 < self.userdata.len() && self.userdata[i.0],
            GcRef::LClosure(i) => i.0 < self.lclosures.len() && self.lclosures[i.0],
            GcRef::CClosure(i) => i.0 < self.cclosures.len() && self.cclosures[i.0],
            GcRef::Proto(i) => i.0 < self.protos.len() && self.protos[i.0],
            GcRef::UpVal(i) => i.0 < self.upvals.len() && self.upvals[i.0],
            GcRef::Thread(i) => i.0 < self.threads.len() && self.threads[i.0],
        }
    }

    /// Marks an object that is not marked yet.
    pub fn put(&mut self, r: GcRef)
        requires
            old(self).covers(r),
            !old(self).has(r),
        ensures
            forall|z: Sizes| old(self).fits(z) ==> #[trigger] final(self).fits(z),
            final(self)@ == old(self)@.insert(r),
            final(self).left() + 1 == old(self).left(),
    {
        match r {
            GcRef::Str(i) => {
                proof {
                    lemma_missing(self.strings@, i.0 as int);
                }
                self.strings.set(i.0, true);
            },
            GcRef::Table(i) => {
                proof {
                    lemma_missing(self.tables@, i.0 as int);
                }
                self.tables.set(i.0, true);
            },
            GcRef::UserData(i) => {
                proof {
                    lemma_missing(self.userdata@, i.0 as int);
                }
                self.userdata.set(i.0, true);
            },
            GcRef::LClosure(i) => {
                proof {
                    lemma_missing(self.lclosures@, i.0 as int);
                }
                self.lclosures.set(i.0, true);
            },
            GcRef::CClosure(i) => {
                proof {
                    lemma_missing(self.cclosures@, i.0 as int);
                }
                self.cclosures.set(i.0, true);
            },
            GcRef::Proto(i) => {
                proof {
                    lemma_missing(self.protos@, i.0 as int);
                }
                self.protos.set(i.0, true);
            },
            GcRef::UpVal(i) => {
                proof {
                    lemma_missing(self.upvals@, i.0 as int);
                }
                self.upvals.set(i.0, true);
            },
            GcRef::Thread(i) => {
                proof {
                    lemma_missing(self.threads@, i.0 as int);
                }
                self.threads.set(i.0, true);
            },
        }
        assert(self@ =~= old(self)@.insert(r));
    }
}

/// Whether one of these values is this object.
pub open spec fn in_values(vs: Seq<LuaValue>, c: GcRef) -> bool {
    exists|i: int| 0 <= i < vs.len() && value_ref(#[trigger] vs[i]) == Some(c)
}

/// Whether a list of objects grew by exactly those with a property.
pub open spec fn listed(a: Seq<GcRef>, b: Seq<GcRef>, p: spec_fn(GcRef) -> bool) -> bool {
    forall|c: GcRef| #[trigger] b.contains(c) <==> a.contains(c) || p(c)
}

/// Lists the object of a value, where it has one.
pub fn list_value(out: &mut Vec<GcRef>, v: &LuaValue)
    ensures
        listed(old(out)@, final(out)@, |c: GcRef| value_ref(*v) == Some(c)),
{
    let ghost a = out@;
    if let Some(r) = ref_of(v) {
        list_ref(out, r);
    }
}

/// Lists an object.
pub fn list_ref(out: &mut Vec<GcRef>, r: GcRef)
    ensures
        listed(old(out)@, final(out)@, |c: GcRef| c == r),
{
    out.push(r);
    proof {
        assert forall|c: GcRef| #[trigger] out@.contains(c) <==> old(out)@.contains(c) || c == r by {
            if old(out)@.contains(c) {
                let i = choose|i: int| 0 <= i < old(out)@.len() && old(out)@[i] == c;
                assert(out@[i] == c);
            }
            if c == r {
                assert(out@[out@.len() - 1] == c);
            }
        }
    }
}

/// Lists the objects of some values.
pub fn list_values(out: &mut Vec<GcRef>, vs: &Vec<LuaValue>)
    ensures
        listed(old(out)@, final(out)@, |c: GcRef| in_values(vs@, c)),
{
    let mut i: usize = 0;
    while i < vs.len()
        invariant
            i <= vs@.len(),
            listed(
                old(out)@,
                out@,
                |c: GcRef| exists|j: int| 0 <= j < i && value_ref(#[trigger] vs@[j]) == Some(c),
            ),
        decreases vs@.len() - i,
    {
        let ghost before = out@;
        list_value(out, &vs[i]);
        proof {
            assert forall|c: GcRef| #[trigger] out@.contains(c) <==> old(out)@.contains(c) || exists|j: int|
                0 <= j < i + 1 && value_ref(#[trigger] vs@[j]) == Some(c) by {
                assert(out@.contains(c) <==> before.contains(c) || value_ref(vs@[i as int]) == Some(c));
            }
        }
        i = i + 1;
    }
}

/// Whether a table holds its keys strongly: it is not weak in its keys.
pub open spec fn strong_keys(t: LuaTable) -> bool {
    t.weak_mode % 2 == 0
}

/// Whether a table holds its values strongly: it is weak in nothing.
pub open spec fn strong_values(t: LuaTable) -> bool {
    t.weak_mode % 2 == 0 && (t.weak_mode / 2) % 2 == 0
}

/// Whether an entry of a table holds an object strongly.
pub open spec fn entry_holds(t: LuaTable, e: TableEntry, c: GcRef) -> bool {
    ||| strong_keys(t) && value_ref(e.key) == Some(c)
    ||| strong_values(t) && value_ref(e.value) == Some(c)
}

/// Whether a table refers to an object.
pub open spec fn table_edge(t: LuaTable, c: GcRef) -> bool {
    ||| t.metatable is Some && c == GcRef::Table(t.metatable->0)
    ||| exists|i: int| 0 <= i < t.entries@.len() && entry_holds(t, #[trigger] t.entries@[i], c)
}

/// Whether an optional string is an object.
pub open spec fn is_name(s: Option<StrId>, c: GcRef) -> bool {
    s is Some && c == GcRef::Str(s->0)
}

/// Whether a prototype refers to an object.
pub open spec fn proto_edge(p: LuaProto, c: GcRef) -> bool {
    ||| is_name(p.source, c)
    ||| p.cache is Some && c == GcRef::LClosure(p.cache->0)
    ||| in_values(p.k@, c)
    ||| exists|i: int| 0 <= i < p.p@.len() && c == GcRef::Proto(#[trigger] p.p@[i])
    ||| exists|i: int| 0 <= i < p.upvalues@.len() && is_name((#[trigger] p.upvalues@[i]).name, c)
    ||| exists|i: int| 0 <= i < p.locvars@.len() && c == GcRef::Str((#[trigger] p.locvars@[i]).varname)
}

/// Whether an object of a store refers to another. A thread handle refers to nothing
/// by itself.
pub open spec fn edge(h: Heap, r: GcRef, c: GcRef) -> bool {
    match r {
        GcRef::Str(_) => false,
        GcRef::Table(i) => table_edge(h.tables.items@[i.0 as int], c),
        GcRef::UserData(i) => {
            let u = h.userdata.items@[i.0 as int];
            ||| u.metatable is Some && c == GcRef::Table(u.metatable->0)
            ||| in_values(u.uv@, c)
        },
        GcRef::LClosure(i) => {
            let f = h.lclosures.items@[i.0 as int];
            ||| c == GcRef::Proto(f.proto)
            ||| exists|j: int| 0 <= j < f.upvals@.len() && c == GcRef::UpVal(#[trigger] f.upvals@[j])
        },
        GcRef::CClosure(i) => in_values(h.cclosures.items@[i.0 as int].upvalues@, c),
        GcRef::Proto(i) => proto_edge(h.protos.items@[i.0 as int], c),
        GcRef::UpVal(i) => match h.upvals.items@[i.0 as int] {
            UpVal::Closed(v) => value_ref(v) == Some(c),
            UpVal::Open { .. } => false,
        },
        GcRef::Thread(_) => false,
    }
}

/// What an object refers to exists.
pub proof fn lemma_edge_ok(h: Heap, r: GcRef, c: GcRef)
    requires
        h.wf(),
        h.sizes().has(r),
        edge(h, r, c),
    ensures
        h.sizes().has(c),
{
    let z = h.sizes();
    match r {
        GcRef::Table(i) => {
            let t = h.tables.items@[i.0 as int];
            assert(z.ok_tab(t));
            if exists|j: int| 0 <= j < t.entries@.len() && entry_holds(t, #[trigger] t.entries@[j], c) {
                let j = choose|j: int| 0 <= j < t.entries@.len() && entry_holds(t, #[trigger] t.entries@[j], c);
                assert(z.ok(t.entries@[j].key) && z.ok(t.entries@[j].value));
            }
        },
        GcRef::UserData(i) => {
            assert(z.ok_userdata(h.userdata.items@[i.0 as int]));
        },
        GcRef::LClosure(i) => {
            assert(z.ok_lclosure(h.lclosures.items@[i.0 as int]));
        },
        GcRef::CClosure(i) => {
            assert(z.ok_all(h.cclosures.items@[i.0 as int].upvalues@));
        },
        GcRef::Proto(i) => {
            assert(z.ok_proto(h.protos.items@[i.0 as int]));
        },
        GcRef::UpVal(i) => {
            assert(z.ok_upval(h.upvals.items@[i.0 as int]));
        },
        _ => {},
    }
}

fn list_table(out: &mut Vec<GcRef>, t: &LuaTable)
    ensures
        listed(old(out)@, final(out)@, |c: GcRef| table_edge(*t, c)),
{
    let keys: bool = t.weak_mode % 2 == 0;
    let values: bool = keys && (t.weak_mode / 2) % 2 == 0;
    if let Some(m) = t.metatable {
        list_ref(out, GcRef::Table(m));
    }
    let mut i: usize = 0;
    while i < t.entries.len()
        invariant
            i <= t.entries@.len(),
            keys == strong_keys(*t),
            values == strong_values(*t),
            listed(
                old(out)@,
                out@,
                |c: GcRef|
                    t.metatable is Some && c == GcRef::Table(t.metatable->0) || exists|j: int|
                        0 <= j < i && entry_holds(*t, #[trigger] t.entries@[j], c),
            ),
        decreases t.entries@.len() - i,
    {
        let ghost before = out@;
        let e: TableEntry = t.entries[i];
        if keys {
            list_value(out, &e.key);
        }
        let ghost mid = out@;
        if values {
            list_value(out, &e.value);
        }
        proof {
            assert forall|c: GcRef| #[trigger] out@.contains(c) <==> old(out)@.contains(c) || (t.metatable is Some
                && c == GcRef::Table(t.metatable->0) || exists|j: int|
                0 <= j < i + 1 && entry_holds(*t, #[trigger] t.entries@[j], c)) by {
                assert(mid.contains(c) <==> before.contains(c) || keys && value_ref(e.key) == Some(c));
                assert(out@.contains(c) <==> mid.contains(c) || values && value_ref(e.value) == Some(c));
                assert(entry_holds(*t, t.entries@[i as int], c) <==> keys && value_ref(e.key) == Some(c) || values
                    && value_ref(e.value) == Some(c));
            }
        }
        i = i + 1;
    }
}

fn list_proto(out: &mut Vec<GcRef>, p: &LuaProto)
    ensures
        listed(old(out)@, final(out)@, |c: GcRef| proto_edge(*p, c)),
{
    if let Some(s) = p.source {
        list_ref(out, GcRef::Str(s));
    }
    if let Some(c) = p.cache {
        list_ref(out, GcRef::LClosure(c));
    }
    list_values(out, &p.k);
    let ghost a = out@;
    list_protos(out, &p.p);
    let ghost b = out@;
    list_upvalue_names(out, p);
    let ghost c2 = out@;
    list_local_names(out, p);
    proof {
        assert forall|c: GcRef| #[trigger] out@.contains(c) <==> old(out)@.contains(c) || proto_edge(*p, c) by {
            assert(c2.contains(c) <==> b.contains(c) || exists|i: int|
                0 <= i < p.upvalues@.len() && is_name((#[trigger] p.upvalues@[i]).name, c));
            assert(b.contains(c) <==> a.contains(c) || exists|i: int|
                0 <= i < p.p@.len() && c == GcRef::Proto(#[trigger] p.p@[i]));
            assert(a.contains(c) <==> old(out)@.contains(c) || is_name(p.source, c) || p.cache is Some && c
                == GcRef::LClosure(p.cache->0) || in_values(p.k@, c));
        }
    }
}

fn list_protos(out: &mut Vec<GcRef>, ps: &Vec<ProtoId>)
    ensures
        listed(
            old(out)@,
            final(out)@,
            |c: GcRef| exists|i: int| 0 <= i < ps@.len() && c == GcRef::Proto(#[trigger] ps@[i]),
        ),
{
    let mut i: usize = 0;
    while i < ps.len()
        invariant
            i <= ps@.len(),
            listed(
                old(out)@,
                out@,
                |c: GcRef| exists|j: int| 0 <= j < i && c == GcRef::Proto(#[trigger] ps@[j]),
            ),
        decreases ps@.len() - i,
    {
        let ghost before = out@;
        list_ref(out, GcRef::Proto(ps[i]));
        proof {
            assert forall|c: GcRef| #[trigger] out@.contains(c) <==> old(out)@.contains(c) || exists|j: int|
                0 <= j < i + 1 && c == GcRef::Proto(#[trigger] ps@[j]) by {
                assert(out@.contains(c) <==> before.contains(c) || c == GcRef::Proto(ps@[i as int]));
            }
        }
        i = i + 1;
    }
}

fn list_upvalue_names(out: &mut Vec<GcRef>, p: &LuaProto)
    ensures
        listed(
            old(out)@,
            final(out)@,
            |c: GcRef| exists|i: int| 0 <= i < p.upvalues@.len() && is_name((#[trigger] p.upvalues@[i]).name, c),
        ),
{
    let mut i: usize = 0;
    while i < p.upvalues.len()
        invariant
            i <= p.upvalues@.len(),
            listed(
                old(out)@,
                out@,
                |c: GcRef| exists|j: int| 0 <= j < i && is_name((#[trigger] p.upvalues@[j]).name, c),
            ),
        decreases p.upvalues@.len() - i,
    {
        let ghost before = out@;
        if let Some(s) = p.upvalues[i].name {
            list_ref(out, GcRef::Str(s));
        }
        proof {
            assert forall|c: GcRef| #[trigger] out@.contains(c) <==> old(out)@.contains(c) || exists|j: int|
                0 <= j < i + 1 && is_name((#[trigger] p.upvalues@[j]).name, c) by {
                assert(out@.contains(c) <==> before.contains(c) || is_name(p.upvalues@[i as int].name, c));
            }
        }
        i = i + 1;
    }
}

fn list_local_names(out: &mut Vec<GcRef>, p: &LuaProto)
    ensures
        listed(
            old(out)@,
            final(out)@,
            |c: GcRef| exists|i: int| 0 <= i < p.locvars@.len() && c == GcRef::Str((#[trigger] p.locvars@[i]).varname),
        ),
{
    let mut i: usize = 0;
    while i < p.locvars.len()
        invariant
            i <= p.locvars@.len(),
            listed(
                old(out)@,
                out@,
                |c: GcRef| exists|j: int| 0 <= j < i && c == GcRef::Str((#[trigger] p.locvars@[j]).varname),
            ),
        decreases p.locvars@.len() - i,
    {
        let ghost before = out@;
        list_ref(out, GcRef::Str(p.locvars[i].varname));
        proof {
            assert forall|c: GcRef| #[trigger] out@.contains(c) <==> old(out)@.contains(c) || exists|j: int|
                0 <= j < i + 1 && c == GcRef::Str((#[trigger] p.locvars@[j]).varname) by {
                assert(out@.contains(c) <==> before.contains(c) || c == GcRef::Str(p.locvars@[i as int].varname));
            }
        }
        i = i + 1;
    }
}

/// Lists captured variables.
pub fn list_upvals(out: &mut Vec<GcRef>, us: &Vec<UpValId>)
    ensures
        listed(
            old(out)@,
            final(out)@,
            |c: GcRef| exists|i: int| 0 <= i < us@.len() && c == GcRef::UpVal(#[trigger] us@[i]),
        ),
{
    let mut i: usize = 0;
    while i < us.len()
        invariant
            i <= us@.len(),
            listed(
                old(out)@,
                out@,
                |c: GcRef| exists|j: int| 0 <= j < i && c == GcRef::UpVal(#[trigger] us@[j]),
            ),
        decreases us@.len() - i,
    {
        let ghost before = out@;
        list_ref(out, GcRef::UpVal(us[i]));
        proof {
            assert forall|c: GcRef| #[trigger] out@.contains(c) <==> old(out)@.contains(c) || exists|j: int|
                0 <= j < i + 1 && c == GcRef::UpVal(#[trigger] us@[j]) by {
                assert(out@.contains(c) <==> before.contains(c) || c == GcRef::UpVal(us@[i as int]));
            }
        }
        i = i + 1;
    }
}

/// Lists what an object refers to.
pub fn list_children(out: &mut Vec<GcRef>, h: &Heap, r: GcRef)
    requires
        h.sizes().has(r),
    ensures
        listed(old(out)@, final(out)@, |c: GcRef| edge(*h, r, c)),
{
    match r {
        GcRef::Table(i) => {
            list_table(out, &h.tables.items[i.0]);
        },
        GcRef::UserData(i) => {
            if let Some(m) = h.userdata.items[i.0].metatable {
                list_ref(out, GcRef::Table(m));
            }
            list_values(out, &h.userdata.items[i.0].uv);
        },
        GcRef::LClosure(i) => {
            list_ref(out, GcRef::Proto(h.lclosures.items[i.0].proto));
            let ghost a = out@;
            list_upvals(out, &h.lclosures.items[i.0].upvals);
            proof {
                let f = h.lclosures.items@[i.0 as int];
                assert forall|c: GcRef| #[trigger] out@.contains(c) <==> old(out)@.contains(c) || edge(*h, r, c) by {
                    assert(out@.contains(c) <==> a.contains(c) || exists|j: int|
                        0 <= j < f.upvals@.len() && c == GcRef::UpVal(#[trigger] f.upvals@[j]));
                    assert(a.contains(c) <==> old(out)@.contains(c) || c == GcRef::Proto(f.proto));
                }
            }
        },
        GcRef::CClosure(i) => {
            list_values(out, &h.cclosures.items[i.0].upvalues);
        },
        GcRef::Proto(i) => {
            list_proto(out, &h.protos.items[i.0]);
        },
        GcRef::UpVal(i) => {
            if let UpVal::Closed(v) = h.upvals.items[i.0] {
                list_value(out, &v);
            }
        },
        _ => {},
    }
}

} // verus!
