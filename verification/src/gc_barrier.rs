//! Write barriers: what the collector is told when one object comes to refer to another.

use vstd::prelude::*;
use crate::global::GlobalState;
use crate::heap::ref_of;
use crate::heap::value_ref;
use crate::heap::GcRef;
use crate::string::MAX_SHORT_LEN;
use crate::value::LuaValue;
use crate::value::TableId;
use crate::value::UpValId;

verus! {

/// Which way a barrier moves the collector.
#[derive(Debug, Clone, Copy, PartialEq, Eq, Structural)]
pub enum BarrierKind {
    Forward,
    Backward,
}

/// One end of a new reference: an object, or a value that may be one.
#[derive(Debug, Clone, Copy, PartialEq, Eq, Structural)]
pub enum Party {
    Value(LuaValue),
    Object(GcRef),
}

/// What a barrier tells the collector of a reference from `parent` to `child`.
#[derive(Debug, Clone, Copy, PartialEq, Eq, Structural)]
pub enum Barrier {
    /// The object referred to may have to be marked.
    Forward { parent: GcRef, child: GcRef },
    /// The same, in generational mode: it may have to become old.
    ForwardOld { parent: GcRef, child: GcRef },
    /// The object that refers may have to be looked at again. It counts as touched first
    /// where `touch` says so.
    Backward { parent: GcRef, child: GcRef, touch: bool },
}

impl Party {
    /// The object, if it is one.
    pub open spec fn spec_object(self) -> Option<GcRef> {
        match self {
            Party::Value(v) => value_ref(v),
            Party::Object(r) => Some(r),
        }
    }

    /// The object, if it is one.
    pub fn object(&self) -> (r: Option<GcRef>)
        ensures
            r == self.spec_object(),
    {
        match self {
            Party::Value(v) => ref_of(v),
            Party::Object(r) => Some(*r),
        }
    }
}

/// What a barrier between two objects tells the collector.
pub open spec fn spec_between(parent: GcRef, child: GcRef, generational: bool, kind: BarrierKind, touch: bool) -> Barrier {
    match kind {
        BarrierKind::Backward => Barrier::Backward { parent: parent, child: child, touch: touch },
        BarrierKind::Forward => if generational {
            Barrier::ForwardOld { parent: parent, child: child }
        } else {
            Barrier::Forward { parent: parent, child: child }
        },
    }
}

/// What a barrier tells the collector: nothing where either end is no object. In
/// generational mode a backward barrier for a value touches the object that refers.
pub open spec fn spec_barrier(parent: Party, child: Party, generational: bool, kind: BarrierKind) -> Option<Barrier> {
    match (parent.spec_object(), child.spec_object()) {
        (Some(p), Some(c)) => Some(spec_between(p, c, generational, kind, generational && child is Value)),
        _ => None,
    }
}

/// The barrier between two objects, which touches nothing.
pub fn barrier_gc_child(parent: GcRef, child: GcRef, generational: bool, kind: BarrierKind) -> (r: Barrier)
    ensures
        r == spec_between(parent, child, generational, kind, false),
{
    if generational && kind == BarrierKind::Forward {
        Barrier::ForwardOld { parent: parent, child: child }
    } else if kind == BarrierKind::Backward {
        Barrier::Backward { parent: parent, child: child, touch: false }
    } else {
        Barrier::Forward { parent: parent, child: child }
    }
}

/// The barrier from an object to a value. A value that is no object needs none.
pub fn barrier_lua_value(parent: GcRef, child: &LuaValue, generational: bool, kind: BarrierKind) -> (r: Option<
    Barrier,
>)
    ensures
        r == spec_barrier(Party::Object(parent), Party::Value(*child), generational, kind),
{
    match ref_of(child) {
        None => None,
        Some(c) => {
            if generational && kind == BarrierKind::Backward {
                Some(Barrier::Backward { parent: parent, child: c, touch: true })
            } else {
                Some(barrier_gc_child(parent, c, generational, kind))
            }
        },
    }
}

/// The barrier from an object.
pub fn barrier_child_any(parent: GcRef, child: &Party, generational: bool, kind: BarrierKind) -> (r: Option<Barrier>)
    ensures
        r == spec_barrier(Party::Object(parent), *child, generational, kind),
{
    match child {
        Party::Value(v) => barrier_lua_value(parent, v, generational, kind),
        Party::Object(c) => Some(barrier_gc_child(parent, *c, generational, kind)),
    }
}

/// The barrier between any two ends.
pub fn barrier_any(parent: &Party, child: &Party, generational: bool, kind: BarrierKind) -> (r: Option<Barrier>)
    ensures
        r == spec_barrier(*parent, *child, generational, kind),
{
    match parent.object() {
        None => None,
        Some(p) => barrier_child_any(p, child, generational, kind),
    }
}

impl GlobalState {
    /// The barrier for a value in an object that is seldom written.
    pub fn barrier(&self, p: &Party, v: &LuaValue) -> (r: Option<Barrier>)
        ensures
            r == spec_barrier(*p, Party::Value(*v), self.spec_is_gen_mode(), BarrierKind::Forward),
    {
        barrier_any(p, &Party::Value(*v), self.is_gen_mode(), BarrierKind::Forward)
    }

    /// The barrier for a value in an object that is often written.
    pub fn barrier_back(&self, p: &Party, v: &LuaValue) -> (r: Option<Barrier>)
        ensures
            r == spec_barrier(*p, Party::Value(*v), self.spec_is_gen_mode(), BarrierKind::Backward),
    {
        barrier_any(p, &Party::Value(*v), self.is_gen_mode(), BarrierKind::Backward)
    }

    /// The barrier for a value in a table.
    pub fn table_barrier_back(&self, p: TableId, v: &LuaValue) -> (r: Option<Barrier>)
        ensures
            r == spec_barrier(
                Party::Object(GcRef::Table(p)),
                Party::Value(*v),
                self.spec_is_gen_mode(),
                BarrierKind::Backward,
            ),
    {
        barrier_lua_value(GcRef::Table(p), v, self.is_gen_mode(), BarrierKind::Backward)
    }

    /// The barrier for an object in one that is seldom written.
    pub fn obj_barrier(&self, p: &Party, o: &Party) -> (r: Option<Barrier>)
        ensures
            r == spec_barrier(*p, *o, self.spec_is_gen_mode(), BarrierKind::Forward),
    {
        barrier_any(p, o, self.is_gen_mode(), BarrierKind::Forward)
    }

    /// The barrier for an object in one that is often written.
    pub fn obj_barrier_back(&self, p: &Party, o: &Party) -> (r: Option<Barrier>)
        ensures
            r == spec_barrier(*p, *o, self.spec_is_gen_mode(), BarrierKind::Backward),
    {
        barrier_any(p, o, self.is_gen_mode(), BarrierKind::Backward)
    }

    /// The barrier for a value stored in another one.
    pub fn gc_value_barrier_back(&self, t: &LuaValue, v: &LuaValue) -> (r: Option<Barrier>)
        ensures
            r == spec_barrier(
                Party::Value(*t),
                Party::Value(*v),
                self.spec_is_gen_mode(),
                BarrierKind::Backward,
            ),
    {
        if !v.is_collectable() {
            return None;
        }
        match t {
            LuaValue::Table(tbl) => self.table_barrier_back(*tbl, v),
            _ => self.barrier_back(&Party::Value(*t), v),
        }
    }

    /// The barrier for a value in a captured variable.
    pub fn gc_barrier_upval(&self, uv: UpValId, v: &LuaValue) -> (r: Option<Barrier>)
        ensures
            r == spec_barrier(
                Party::Object(GcRef::UpVal(uv)),
                Party::Value(*v),
                self.spec_is_gen_mode(),
                BarrierKind::Forward,
            ),
    {
        self.barrier(&Party::Object(GcRef::UpVal(uv)), v)
    }
}

/// A list of barriers with one more, where there is one.
pub open spec fn told(bs: Seq<Barrier>, b: Option<Barrier>) -> Seq<Barrier> {
    match b {
        Some(b) => bs.push(b),
        None => bs,
    }
}

/// The barrier for a value that is written to a table.
pub open spec fn value_barrier(g: GlobalState, t: TableId, v: LuaValue) -> Option<Barrier> {
    spec_barrier(
        Party::Object(GcRef::Table(t)),
        Party::Value(v),
        g.spec_is_gen_mode(),
        BarrierKind::Backward,
    )
}

/// The barrier for a key that a table is written under. A short string under which the table
/// has a value needs none: the table refers to it already.
pub open spec fn key_barrier(g: GlobalState, t: TableId, k: LuaValue) -> Option<Barrier> {
    match k {
        LuaValue::Str(s) => if g.heap.bytes(s).len() <= MAX_SHORT_LEN && g.heap.tget(t, k) != LuaValue::Nil {
            None
        } else {
            value_barrier(g, t, k)
        },
        _ => value_barrier(g, t, k),
    }
}

/// The barrier for a value that is written to a captured variable.
pub open spec fn upval_barrier(g: GlobalState, uv: UpValId, v: LuaValue) -> Option<Barrier> {
    spec_barrier(
        Party::Object(GcRef::UpVal(uv)),
        Party::Value(v),
        g.spec_is_gen_mode(),
        BarrierKind::Forward,
    )
}

impl GlobalState {
    /// Remembers a barrier, where there is one, until the collector is told of it.
    pub fn tell(&mut self, b: Option<Barrier>)
        ensures
            *final(self) == (GlobalState { barriers: final(self).barriers, ..*old(self) }),
            final(self).barriers@ == told(old(self).barriers@, b),
            b is None ==> *final(self) == *old(self),
            old(self).wf() ==> final(self).wf(),
    {
        if let Some(b) = b {
            self.barriers.push(b);
        }
    }

    /// Hands over the barriers that the collector is still to be told of, in order.
    pub fn take_barriers(&mut self) -> (r: Vec<Barrier>)
        ensures
            r@ == old(self).barriers@,
            *final(self) == (GlobalState { barriers: final(self).barriers, ..*old(self) }),
            final(self).barriers@.len() == 0,
            old(self).wf() ==> final(self).wf(),
    {
        let mut r: Vec<Barrier> = Vec::new();
        std::mem::swap(&mut r, &mut self.barriers);
        r
    }
}

/// Every write of an object to a table or a captured variable is told to the collector: the
/// barrier for it names both.
pub proof fn law_writes_are_told(g: GlobalState, t: TableId, uv: UpValId, v: LuaValue, c: GcRef)
    requires
        value_ref(v) == Some(c),
    ensures
        value_barrier(g, t, v) == Some(
            Barrier::Backward { parent: GcRef::Table(t), child: c, touch: g.spec_is_gen_mode() },
        ),
        upval_barrier(g, uv, v) == Some(
            if g.spec_is_gen_mode() {
                Barrier::ForwardOld { parent: GcRef::UpVal(uv), child: c }
            } else {
                Barrier::Forward { parent: GcRef::UpVal(uv), child: c }
            },
        ),
        key_barrier(g, t, v) is None ==> g.heap.tget(t, v) != LuaValue::Nil,
{
}

/// Outside generational mode no barrier speaks of ages, and a backward barrier touches
/// nothing.
pub proof fn law_no_ages(parent: Party, child: Party, kind: BarrierKind)
    ensures
        spec_barrier(parent, child, false, kind) matches Some(b) ==> !(b is ForwardOld) && (b matches Barrier::Backward {
            touch,
            ..
        } ==> !touch),
{
}

} // verus!
