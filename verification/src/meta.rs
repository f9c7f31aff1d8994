//! Reading and writing fields, lengths, equality and concatenation, with
//! metamethods.

use vstd::prelude::*;
use vstd::string::StringSliceAdditionalSpecFns;
use crate::arith::to_signed;
use crate::arith::wrap64;
use crate::compare::raw_eq;
use crate::compare::raw_equal;
use crate::gc_barrier::Barrier;
use crate::gc_barrier::key_barrier;
use crate::gc_barrier::told;
use crate::gc_barrier::value_barrier;
use crate::global::GlobalState;
use crate::global::lemma_refs_grow;
use crate::heap::Heap;
use crate::string::MAX_SHORT_LEN;
use crate::table::KeyError;
use crate::table::LuaTable;
use crate::table::entries_from;
use crate::table::norm_key;
use crate::table::same_key;
use crate::tagmethods::TagMethod;
use crate::tagmethods::bin_handler;
use crate::tagmethods::comp_handler_51;
use crate::tagmethods::handler;
use crate::tmcalls::TmCall;
use crate::value::LuaError;
use crate::value::LuaValue;
use crate::value::LuaVersion;
use crate::value::StackIdx;
use crate::value::StrId;
use crate::value::TableId;
use crate::value::TypeOp;
use crate::value::is_runtime_msg;
use crate::value::runtime_error;

verus! {

/// How many links of an `__index` or `__newindex` chain are followed.
pub const MAX_TAG_LOOP: u32 = 2000;

/// Whether one store comes from another by one write to one table: under the key
/// the value is read back, every other key keeps its value, and the table refers to nothing
/// new but the value and a new key.
pub open spec fn stored(a: Heap, t: TableId, k: LuaValue, v: LuaValue, b: Heap) -> bool {
    &&& b == (Heap { tables: b.tables, ..a })
    &&& b.tables == (crate::heap::Arena { items: b.tables.items, ..a.tables })
    &&& b.tables.items@.len() == a.tables.items@.len()
    &&& forall|i: int|
        0 <= i < a.tables.items@.len() && i != t.0 ==> #[trigger] b.tables.items@[i] == a.tables.items@[i]
    &&& b.tables.items@[t.0 as int].metatable == a.tables.items@[t.0 as int].metatable
    &&& b.tables.items@[t.0 as int].weak_mode == a.tables.items@[t.0 as int].weak_mode
    &&& forall|q: LuaValue| #[trigger]
        b.tget(t, q) == (if same_key(a.strs(), norm_key(k), norm_key(q)) {
            v
        } else {
            a.tget(t, q)
        })
    &&& entries_from(
        b.tables.items@[t.0 as int].entries@,
        a.tables.items@[t.0 as int].entries@,
        norm_key(k),
        a.tget(t, k) == LuaValue::Nil,
        v,
    )
}

/// The error of a key that nothing can be stored under.
pub open spec fn key_refused(k: LuaValue) -> Option<LuaError> {
    match LuaTable::key_error(k) {
        Some(KeyError::Nil) => Some(LuaError::NilKey),
        Some(KeyError::Nan) => Some(LuaError::NanKey),
        None => None,
    }
}

impl Heap {
    /// Writes to a table, without metamethods and without a barrier.
    pub fn set(&mut self, t: TableId, k: LuaValue, v: LuaValue) -> (r: Result<(), LuaError>)
        requires
            old(self).wf(),
            t.0 < old(self).tables.items@.len(),
            old(self).ok(k),
            old(self).ok(v),
        ensures
            final(self).wf(),
            final(self).sizes() == old(self).sizes(),
            match key_refused(k) {
                Some(e) => r == Err::<(), LuaError>(e) && *final(self) == *old(self),
                None => r is Ok && stored(*old(self), t, k, v, *final(self)),
            },
    {
        match k {
            LuaValue::Nil => {
                return Err(LuaError::NilKey);
            },
            LuaValue::Float(b) => {
                if crate::float::flt_is_nan(b) {
                    return Err(LuaError::NanKey);
                }
            },
            _ => {},
        }
        let ghost before = self.tables.items@[t.0 as int];
        let r = self.tables.items[t.0].try_raw_set(&self.strings.items, k, v);
        proof {
            let z = self.sizes();
            let after = self.tables.items@[t.0 as int];
            assert(z == old(self).sizes());
            assert(z.ok_tab(before));
            assert(z.ok_tab(after)) by {
                reveal(entries_from);
                assert forall|i: int| 0 <= i < after.entries@.len() implies z.ok((#[trigger] after.entries@[i]).key)
                    && z.ok(after.entries@[i].value) by {
                    if after.entries@[i].key != norm_key(k) {
                        let j = choose|j: int|
                            0 <= j < before.entries@.len() && #[trigger] before.entries@[j].key
                                == after.entries@[i].key;
                        assert(z.ok(before.entries@[j].key));
                    }
                    if after.entries@[i].value != v {
                        let j = choose|j: int|
                            0 <= j < before.entries@.len() && #[trigger] before.entries@[j].value
                                == after.entries@[i].value;
                        assert(z.ok(before.entries@[j].value));
                    }
                }
            }
            assert forall|i: int| 0 <= i < z.tables implies (#[trigger] self.tables.items@[i]).wf(self.strs())
                && z.ok_tab(self.tables.items@[i]) by {
                if i != t.0 {
                    assert(self.tables.items@[i] == old(self).tables.items@[i]);
                }
            }
        }
        match r {
            Ok(_) => Ok(()),
            Err(KeyError::Nil) => Err(LuaError::NilKey),
            Err(KeyError::Nan) => Err(LuaError::NanKey),
        }
    }
}

/// What following a chain of `__index` handlers comes to.
pub enum IndexChain {
    /// A value was found, or its absence.
    Value(LuaValue),
    /// A function is to be called with the value and the key.
    Call { f: LuaValue, t: LuaValue },
    /// A value that cannot be indexed; `first` tells whether it is the operand itself.
    Stuck { t: LuaValue, first: bool },
    /// The chain is too long.
    TooLong,
}

/// Follows at most `n` links of the chain of `__index` handlers from a value.
pub open spec fn index_chain(g: GlobalState, t: LuaValue, key: LuaValue, first: bool, n: nat) -> IndexChain
    decreases n,
{
    if n == 0 {
        IndexChain::TooLong
    } else {
        let h = handler(g, t, TagMethod::Index);
        if h == LuaValue::Nil {
            if t is Table {
                IndexChain::Value(LuaValue::Nil)
            } else {
                IndexChain::Stuck { t: t, first: first }
            }
        } else if h is Function {
            IndexChain::Call { f: h, t: t }
        } else if h is Table && g.heap.tget(h->Table_0, key) != LuaValue::Nil {
            IndexChain::Value(g.heap.tget(h->Table_0, key))
        } else {
            index_chain(g, h, key, false, (n - 1) as nat)
        }
    }
}

/// What reading a field comes to: its value, or a function to call for it.
#[derive(Debug, Clone, Copy, PartialEq, Eq, Structural)]
pub enum GetOutcome {
    Value(LuaValue),
    Call(TmCall),
}

/// Whether an outcome of reading a field is the one that a chain comes to.
pub open spec fn get_decided(
    c: IndexChain,
    key: LuaValue,
    t_idx: Option<StackIdx>,
    r: Result<GetOutcome, LuaError>,
) -> bool {
    match c {
        IndexChain::Value(v) => r == Ok::<GetOutcome, LuaError>(GetOutcome::Value(v)),
        IndexChain::Call { f, t } => r == Ok::<GetOutcome, LuaError>(
            GetOutcome::Call(TmCall { f: f, p1: t, p2: key }),
        ),
        IndexChain::Stuck { t, first } => r == Err::<GetOutcome, LuaError>(
            LuaError::TypeError {
                value: t,
                at: if first {
                    t_idx
                } else {
                    None
                },
                op: TypeOp::Index,
            },
        ),
        IndexChain::TooLong => r matches Err(e) && is_runtime_msg(
            e,
            "'__index' chain too long; possible loop".spec_bytes(),
        ),
    }
}

/// What following a chain of `__newindex` handlers comes to.
pub enum NewIndexChain {
    /// The value is stored in this table.
    Store(TableId),
    /// A function is to be called with the value, the key and the new value.
    Call { f: LuaValue, t: LuaValue },
    /// A value that cannot be indexed; `first` tells whether it is the operand itself.
    Stuck { t: LuaValue, first: bool },
    /// The chain is too long.
    TooLong,
}

/// Follows at most `n` links of the chain of `__newindex` handlers from a value.
pub open spec fn newindex_chain(
    g: GlobalState,
    t: LuaValue,
    key: LuaValue,
    first: bool,
    n: nat,
) -> NewIndexChain
    decreases n,
{
    if n == 0 {
        NewIndexChain::TooLong
    } else {
        let h = handler(g, t, TagMethod::NewIndex);
        if h == LuaValue::Nil {
            match t {
                LuaValue::Table(id) => NewIndexChain::Store(id),
                _ => NewIndexChain::Stuck { t: t, first: first },
            }
        } else if h is Function {
            NewIndexChain::Call { f: h, t: t }
        } else if h is Table && g.heap.tget(h->Table_0, key) != LuaValue::Nil {
            NewIndexChain::Store(h->Table_0)
        } else {
            newindex_chain(g, h, key, false, (n - 1) as nat)
        }
    }
}

/// What writing a field comes to: it is done, or a function is to be called with
/// the value and the key, and the new value third.
#[derive(Debug, Clone, Copy, PartialEq, Eq, Structural)]
pub enum SetOutcome {
    Done,
    Call(TmCall),
}

/// The barriers after a write to a table: one for the key and one for the value, which comes
/// first where `early` says so.
pub open spec fn write_told(g: GlobalState, t: TableId, k: LuaValue, v: LuaValue, early: bool) -> Seq<Barrier> {
    if early {
        told(told(g.barriers@, value_barrier(g, t, v)), key_barrier(g, t, k))
    } else {
        told(told(g.barriers@, key_barrier(g, t, k)), value_barrier(g, t, v))
    }
}

/// What writing to a table without metamethods does: where the key is not refused the value
/// is written, and the collector is to be told of the key.
pub open spec fn raw_set_done(
    a: GlobalState,
    t: TableId,
    k: LuaValue,
    v: LuaValue,
    r: Result<(), LuaError>,
    b: GlobalState,
) -> bool {
    match key_refused(k) {
        Some(e) => r == Err::<(), LuaError>(e) && b == a,
        None => {
            &&& r is Ok
            &&& b == (GlobalState { heap: b.heap, barriers: b.barriers, ..a })
            &&& stored(a.heap, t, k, v, b.heap)
            &&& b.barriers@ == told(a.barriers@, key_barrier(a, t, k))
        },
    }
}

/// Whether writing a field ended as a chain says. The barrier for the value comes before
/// anything else where `early` says so.
pub open spec fn set_decided(
    c: NewIndexChain,
    a: GlobalState,
    key: LuaValue,
    val: LuaValue,
    t_idx: Option<StackIdx>,
    upvalue: Option<usize>,
    early: bool,
    b: GlobalState,
    r: Result<SetOutcome, LuaError>,
) -> bool {
    match c {
        NewIndexChain::Store(t) => match key_refused(key) {
            Some(e) => {
                &&& r == Err::<SetOutcome, LuaError>(e)
                &&& b == (GlobalState { barriers: b.barriers, ..a })
                &&& if early {
                    b.barriers@ == told(a.barriers@, value_barrier(a, t, val))
                } else {
                    b == a
                }
            },
            None => {
                &&& r == Ok::<SetOutcome, LuaError>(SetOutcome::Done)
                &&& b == (GlobalState { heap: b.heap, barriers: b.barriers, ..a })
                &&& stored(a.heap, t, key, val, b.heap)
                &&& b.barriers@ == write_told(a, t, key, val, early)
            },
        },
        NewIndexChain::Call { f, t } => b == a && r == Ok::<SetOutcome, LuaError>(
            SetOutcome::Call(TmCall { f: f, p1: t, p2: key }),
        ),
        NewIndexChain::Stuck { t, first } => b == a && r == Err::<SetOutcome, LuaError>(
            match (
                if first {
                    t_idx
                } else {
                    None
                },
                upvalue,
            ) {
                (None, Some(n)) => LuaError::UpvalueTypeError { value: t, upvalue: n, op: TypeOp::Index },
                (at, _) => LuaError::TypeError { value: t, at: at, op: TypeOp::Index },
            },
        ),
        NewIndexChain::TooLong => b == a && (r matches Err(e) && is_runtime_msg(
            e,
            "'__newindex' chain too long; possible loop".spec_bytes(),
        )),
    }
}

fn is_function(v: &LuaValue) -> (r: bool)
    ensures
        r == (*v is Function),
{
    match v {
        LuaValue::Function(_) => true,
        _ => false,
    }
}

/// A write to one table keeps the shared state in order.
pub proof fn lemma_stored_wf(a: GlobalState, b: GlobalState)
    requires
        a.wf(),
        b == (GlobalState { heap: b.heap, barriers: b.barriers, ..a }),
        b.heap.wf(),
        b.heap.sizes() == a.heap.sizes(),
        b.heap.strs() == a.heap.strs(),
    ensures
        b.wf(),
{
    lemma_refs_grow(a, a.heap.sizes(), b.heap.sizes());
}

impl GlobalState {
    /// The value under a key of a table, where there is one.
    pub fn fast_get(&self, t: &LuaValue, k: &LuaValue) -> (r: Option<LuaValue>)
        requires
            self.wf(),
            self.heap.ok(*t),
            self.heap.ok(*k),
        ensures
            r == (if *t is Table && self.heap.tget((*t)->Table_0, *k) != LuaValue::Nil {
                Some(self.heap.tget((*t)->Table_0, *k))
            } else {
                None
            }),
            r matches Some(v) ==> self.heap.ok(v),
    {
        match t {
            LuaValue::Table(id) => {
                let v: LuaValue = self.heap.get(*id, k);
                if v != LuaValue::Nil {
                    Some(v)
                } else {
                    None
                }
            },
            _ => None,
        }
    }

    /// Finishes reading a field that the operand itself does not have.
    pub fn finish_get(&self, t_val: LuaValue, key: LuaValue, t_idx: Option<StackIdx>) -> (r: Result<
        GetOutcome,
        LuaError,
    >)
        requires
            self.can_look(t_val),
            self.heap.ok(key),
        ensures
            get_decided(index_chain(*self, t_val, key, true, MAX_TAG_LOOP as nat), key, t_idx, r),
            r matches Ok(GetOutcome::Value(v)) ==> self.heap.ok(v),
            r matches Ok(GetOutcome::Call(c)) ==> self.heap.ok(c.f) && self.heap.ok(c.p1) && c.p2 == key,
    {
        let mut t: LuaValue = t_val;
        let mut first: bool = true;
        let mut left: u32 = MAX_TAG_LOOP;
        while left > 0
            invariant
                self.can_look(t),
                self.heap.ok(key),
                index_chain(*self, t_val, key, true, MAX_TAG_LOOP as nat) == index_chain(
                    *self,
                    t,
                    key,
                    first,
                    left as nat,
                ),
            decreases left,
        {
            let tm: LuaValue = self.get_tm_by_obj(&t, TagMethod::Index);
            if tm == LuaValue::Nil {
                return match t {
                    LuaValue::Table(_) => Ok(GetOutcome::Value(LuaValue::Nil)),
                    _ => Err(
                        LuaError::TypeError {
                            value: t,
                            at: if first {
                                t_idx
                            } else {
                                None
                            },
                            op: TypeOp::Index,
                        },
                    ),
                };
            }
            if is_function(&tm) {
                return Ok(GetOutcome::Call(TmCall { f: tm, p1: t, p2: key }));
            }
            t = tm;
            first = false;
            left = left - 1;
            if let Some(v) = self.fast_get(&t, &key) {
                return Ok(GetOutcome::Value(v));
            }
        }
        Err(runtime_error("'__index' chain too long; possible loop"))
    }

    /// Finishes writing a field that the operand itself does not have. `upvalue` is the
    /// number of the upvalue that the operand was read from, where it was.
    pub fn finish_set(
        &mut self,
        t_val: LuaValue,
        key: LuaValue,
        val: LuaValue,
        t_idx: Option<StackIdx>,
        upvalue: Option<usize>,
    ) -> (r: Result<SetOutcome, LuaError>)
        requires
            old(self).can_look(t_val),
            old(self).heap.ok(key),
            old(self).heap.ok(val),
        ensures
            final(self).wf(),
            final(self).heap.sizes() == old(self).heap.sizes(),
            set_decided(
                newindex_chain(*old(self), t_val, key, true, MAX_TAG_LOOP as nat),
                *old(self),
                key,
                val,
                t_idx,
                upvalue,
                false,
                *final(self),
                r,
            ),
            r matches Ok(SetOutcome::Call(c)) ==> old(self).heap.ok(c.f) && old(self).heap.ok(c.p1) && c.p2 == key,
    {
        let mut t: LuaValue = t_val;
        let mut first: bool = true;
        let mut left: u32 = MAX_TAG_LOOP;
        while left > 0
            invariant
                *self == *old(self),
                self.can_look(t),
                self.heap.ok(key),
                self.heap.ok(val),
                newindex_chain(*self, t_val, key, true, MAX_TAG_LOOP as nat) == newindex_chain(
                    *self,
                    t,
                    key,
                    first,
                    left as nat,
                ),
            decreases left,
        {
            let tm: LuaValue = self.get_tm_by_obj(&t, TagMethod::NewIndex);
            if tm == LuaValue::Nil {
                let at: Option<StackIdx> = if first {
                    t_idx
                } else {
                    None
                };
                return match t {
                    LuaValue::Table(id) => self.store(id, key, val),
                    _ => match (at, upvalue) {
                        (None, Some(n)) => Err(
                            LuaError::UpvalueTypeError { value: t, upvalue: n, op: TypeOp::Index },
                        ),
                        (at, _) => Err(LuaError::TypeError { value: t, at: at, op: TypeOp::Index }),
                    },
                };
            }
            if is_function(&tm) {
                return Ok(SetOutcome::Call(TmCall { f: tm, p1: t, p2: key }));
            }
            t = tm;
            first = false;
            left = left - 1;
            if self.fast_get(&t, &key).is_some() {
                if let LuaValue::Table(id) = t {
                    return self.store(id, key, val);
                }
            }
        }
        Err(runtime_error("'__newindex' chain too long; possible loop"))
    }

    /// Writes to a table under an integer, which needs no barrier.
    pub fn raw_set_int(&mut self, t: TableId, k: i64, v: LuaValue)
        requires
            old(self).wf(),
            t.0 < old(self).heap.tables.items@.len(),
            old(self).heap.ok(v),
        ensures
            final(self).wf(),
            final(self).heap.sizes() == old(self).heap.sizes(),
            *final(self) == (GlobalState { heap: final(self).heap, ..*old(self) }),
            stored(old(self).heap, t, LuaValue::Int(k), v, final(self).heap),
    {
        let r = self.heap.set(t, LuaValue::Int(k), v);
        proof {
            lemma_stored_wf(*old(self), *self);
        }
    }

    /// Writes to a table under a short string. The collector is to be told of a new key.
    pub fn raw_set_short_str(&mut self, t: TableId, k: StrId, v: LuaValue)
        requires
            old(self).wf(),
            t.0 < old(self).heap.tables.items@.len(),
            k.0 < old(self).heap.strs().len(),
            old(self).heap.bytes(k).len() <= MAX_SHORT_LEN,
            old(self).heap.ok(v),
        ensures
            final(self).wf(),
            final(self).heap.sizes() == old(self).heap.sizes(),
            raw_set_done(*old(self), t, LuaValue::Str(k), v, Ok(()), *final(self)),
    {
        let key: LuaValue = LuaValue::Str(k);
        if self.heap.get(t, &key) == LuaValue::Nil {
            let b: Option<Barrier> = self.table_barrier_back(t, &key);
            self.tell(b);
        }
        let r = self.heap.set(t, key, v);
        proof {
            lemma_stored_wf(*old(self), *self);
        }
    }

    /// Writes to a table, without metamethods. The collector is to be told of the key.
    pub fn raw_set(&mut self, t: TableId, k: LuaValue, v: LuaValue) -> (r: Result<(), LuaError>)
        requires
            old(self).wf(),
            t.0 < old(self).heap.tables.items@.len(),
            old(self).heap.ok(k),
            old(self).heap.ok(v),
        ensures
            final(self).wf(),
            final(self).heap.sizes() == old(self).heap.sizes(),
            raw_set_done(*old(self), t, k, v, r, *final(self)),
    {
        match k {
            LuaValue::Int(i) => {
                self.raw_set_int(t, i, v);
                return Ok(());
            },
            LuaValue::Str(s) => {
                if self.heap.strings.items[s.0].bytes.len() <= MAX_SHORT_LEN {
                    self.raw_set_short_str(t, s, v);
                    return Ok(());
                }
            },
            _ => {},
        }
        let b: Option<Barrier> = self.table_barrier_back(t, &k);
        self.tell(b);
        let r: Result<(), LuaError> = self.heap.set(t, k, v);
        proof {
            lemma_stored_wf(*old(self), *self);
        }
        r
    }

    /// Writes to a table, without metamethods. The collector is to be told of the key and
    /// of the value.
    pub fn store(&mut self, t: TableId, key: LuaValue, val: LuaValue) -> (r: Result<SetOutcome, LuaError>)
        requires
            old(self).wf(),
            t.0 < old(self).heap.tables.items@.len(),
            old(self).heap.ok(key),
            old(self).heap.ok(val),
        ensures
            final(self).wf(),
            final(self).heap.sizes() == old(self).heap.sizes(),
            set_decided(NewIndexChain::Store(t), *old(self), key, val, None, None, false, *final(self), r),
    {
        match self.raw_set(t, key, val) {
            Ok(_) => {
                let b: Option<Barrier> = self.table_barrier_back(t, &val);
                self.tell(b);
                Ok(SetOutcome::Done)
            },
            Err(e) => Err(e),
        }
    }

    /// What reading a field comes to: the operand's own field, or else what its handlers
    /// say.
    pub open spec fn get_plan(self, t: LuaValue, k: LuaValue) -> IndexChain {
        if t is Table && self.heap.tget(t->Table_0, k) != LuaValue::Nil {
            IndexChain::Value(self.heap.tget(t->Table_0, k))
        } else {
            index_chain(self, t, k, true, MAX_TAG_LOOP as nat)
        }
    }

    /// Reads a field.
    pub fn table_get_with_tm(&self, t: LuaValue, k: LuaValue, t_idx: Option<StackIdx>) -> (r: Result<
        GetOutcome,
        LuaError,
    >)
        requires
            self.can_look(t),
            self.heap.ok(k),
        ensures
            get_decided(self.get_plan(t, k), k, t_idx, r),
            r matches Ok(GetOutcome::Value(v)) ==> self.heap.ok(v),
            r matches Ok(GetOutcome::Call(c)) ==> self.heap.ok(c.f) && self.heap.ok(c.p1) && c.p2 == k,
    {
        match self.fast_get(&t, &k) {
            Some(v) => Ok(GetOutcome::Value(v)),
            None => self.finish_get(t, k, t_idx),
        }
    }

    /// What writing a field comes to: the operand's own field where it has it, or else
    /// what its handlers say.
    pub open spec fn set_plan(self, t: LuaValue, k: LuaValue) -> NewIndexChain {
        if t is Table && self.heap.tget(t->Table_0, k) != LuaValue::Nil {
            NewIndexChain::Store(t->Table_0)
        } else {
            newindex_chain(self, t, k, true, MAX_TAG_LOOP as nat)
        }
    }

    /// Whether a field is written with no look at the handlers: the operand is a table that has
    /// the field, or no metatable.
    pub open spec fn plain_write(self, t: LuaValue, k: LuaValue) -> bool {
        t is Table && (self.heap.tmeta(t->Table_0) is None || self.heap.tget(t->Table_0, k) != LuaValue::Nil)
    }

    /// Writes a field.
    pub fn table_set_with_tm(
        &mut self,
        t: LuaValue,
        k: LuaValue,
        v: LuaValue,
        t_idx: Option<StackIdx>,
        upvalue: Option<usize>,
    ) -> (r: Result<SetOutcome, LuaError>)
        requires
            old(self).can_look(t),
            old(self).heap.ok(k),
            old(self).heap.ok(v),
        ensures
            final(self).wf(),
            final(self).heap.sizes() == old(self).heap.sizes(),
            set_decided(
                old(self).set_plan(t, k),
                *old(self),
                k,
                v,
                t_idx,
                upvalue,
                old(self).plain_write(t, k),
                *final(self),
                r,
            ),
            r matches Ok(SetOutcome::Call(c)) ==> old(self).heap.ok(c.f) && old(self).heap.ok(c.p1) && c.p2 == k,
    {
        if let LuaValue::Table(id) = t {
            if self.heap.tables.items[id.0].metatable.is_none() || self.fast_get(&t, &k).is_some() {
                proof {
                    reveal_with_fuel(newindex_chain, 1);
                    assert(self.heap.tmeta(id) is None ==> handler(*self, t, TagMethod::NewIndex) == LuaValue::Nil);
                }
                let b: Option<Barrier> = self.table_barrier_back(id, &v);
                self.tell(b);
                return match self.raw_set(id, k, v) {
                    Ok(_) => Ok(SetOutcome::Done),
                    Err(e) => Err(e),
                };
            }
        }
        self.finish_set(t, k, v, t_idx, upvalue)
    }
}

/// What comparing two values for equality comes to.
#[derive(Debug, Clone, Copy, PartialEq, Eq, Structural)]
pub enum EqOutcome {
    Known(bool),
    Call(TmCall),
}

/// The handler that decides the equality of two values: only two different tables or
/// two different userdata have one. 5.1 wants the same handler on both sides.
pub open spec fn eq_handler(g: GlobalState, a: LuaValue, b: LuaValue) -> LuaValue {
    if a != b && ((a is Table && b is Table) || (a is UserData && b is UserData)) {
        if g.lua_version == LuaVersion::V51 {
            comp_handler_51(g, a, b, TagMethod::Eq)
        } else {
            bin_handler(g, a, b, TagMethod::Eq)
        }
    } else {
        LuaValue::Nil
    }
}

/// What comparing two values for equality comes to: the handler, or else primitive
/// equality.
pub open spec fn eq_plan(g: GlobalState, a: LuaValue, b: LuaValue) -> EqOutcome {
    if eq_handler(g, a, b) != LuaValue::Nil {
        EqOutcome::Call(TmCall { f: eq_handler(g, a, b), p1: a, p2: b })
    } else {
        EqOutcome::Known(raw_eq(g.heap, a, b))
    }
}

/// What taking the length of a value comes to.
#[derive(Debug, Clone, Copy, PartialEq, Eq, Structural)]
pub enum LenOutcome {
    Value(i64),
    Call(TmCall),
}

/// Whether a number is a border of a table: every key from 1 up to it has a value,
/// and the next one has none.
pub open spec fn is_border(h: Heap, t: TableId, n: i64) -> bool {
    &&& n >= 0
    &&& forall|i: i64| 1 <= i <= n ==> #[trigger] h.tget(t, LuaValue::Int(i)) != LuaValue::Nil
    &&& n < i64::MAX ==> h.tget(t, LuaValue::Int((n + 1) as i64)) == LuaValue::Nil
}

impl GlobalState {
    /// Compares two values for equality.
    pub fn equal_obj(&self, a: LuaValue, b: LuaValue) -> (r: EqOutcome)
        requires
            self.can_look(a),
            self.can_look(b),
        ensures
            r == eq_plan(*self, a, b),
            r matches EqOutcome::Call(c) ==> self.heap.ok(c.f) && c.f != LuaValue::Nil,
    {
        let both: bool = match (a, b) {
            (LuaValue::Table(x), LuaValue::Table(y)) => x != y,
            (LuaValue::UserData(x), LuaValue::UserData(y)) => x != y,
            _ => false,
        };
        if both {
            let f: LuaValue = if self.lua_version == LuaVersion::V51 {
                self.get_comp_tm_51(&a, &b, TagMethod::Eq)
            } else {
                self.get_bin_tm(&a, &b, TagMethod::Eq)
            };
            if f != LuaValue::Nil {
                return EqOutcome::Call(TmCall { f: f, p1: a, p2: b });
            }
        }
        EqOutcome::Known(raw_equal(&self.heap, &a, &b))
    }

    /// Takes the length of a value: of a string its number of bytes, of a table what its
    /// handler says, or else a border. 5.1 asks no handler of a table.
    pub fn obj_len(&self, v: LuaValue) -> (r: Result<LenOutcome, LuaError>)
        requires
            self.can_look(v),
        ensures
            ({
                let f = handler(*self, v, TagMethod::Len);
                match v {
                    LuaValue::Str(s) => r matches Ok(LenOutcome::Value(n)) && n == wrap64(
                        self.heap.bytes(s).len() as int,
                    ),
                    LuaValue::Table(t) => if self.lua_version == LuaVersion::V51 || f == LuaValue::Nil {
                        r matches Ok(LenOutcome::Value(n)) && is_border(self.heap, t, n)
                    } else {
                        r == Ok::<LenOutcome, LuaError>(LenOutcome::Call(TmCall { f: f, p1: v, p2: v }))
                    },
                    _ => if f == LuaValue::Nil {
                        r == Err::<LenOutcome, LuaError>(
                            LuaError::TypeError { value: v, at: None, op: TypeOp::GetLength },
                        )
                    } else {
                        r == Ok::<LenOutcome, LuaError>(LenOutcome::Call(TmCall { f: f, p1: v, p2: v }))
                    },
                }
            }),
            r matches Ok(LenOutcome::Call(c)) ==> self.heap.ok(c.f) && c.f != LuaValue::Nil,
    {
        match v {
            LuaValue::Str(s) => {
                let n: usize = self.heap.strings.items[s.0].bytes.len();
                Ok(LenOutcome::Value(to_signed(n as u64)))
            },
            LuaValue::Table(t) => {
                if self.lua_version != LuaVersion::V51 {
                    let f: LuaValue = self.get_tm_by_obj(&v, TagMethod::Len);
                    if f != LuaValue::Nil {
                        return Ok(LenOutcome::Call(TmCall { f: f, p1: v, p2: v }));
                    }
                }
                let n: i64 = self.heap.tables.items[t.0].getn(&self.heap.strings.items);
                proof {
                    assert forall|i: i64| 1 <= i <= n implies #[trigger] self.heap.tget(t, LuaValue::Int(i))
                        != LuaValue::Nil by {
                        assert(self.heap.tables.items@[t.0 as int].value_at(self.heap.strs(), LuaValue::Int(i))
                            != LuaValue::Nil);
                    }
                }
                Ok(LenOutcome::Value(n))
            },
            _ => {
                let f: LuaValue = self.get_tm_by_obj(&v, TagMethod::Len);
                if f == LuaValue::Nil {
                    return Err(LuaError::TypeError { value: v, at: None, op: TypeOp::GetLength });
                }
                Ok(LenOutcome::Call(TmCall { f: f, p1: v, p2: v }))
            },
        }
    }
}

/// What was written is read back, and no other field of any table changes: reading
/// is a function of the last write under the key.
pub proof fn law_write_read(a: Heap, t: TableId, k: LuaValue, v: LuaValue, b: Heap, u: TableId, q: LuaValue)
    requires
        stored(a, t, k, v, b),
        u.0 < a.tables.items@.len(),
    ensures
        u == t && same_key(a.strs(), norm_key(k), norm_key(q)) ==> b.tget(u, q) == v,
        u != t || !same_key(a.strs(), norm_key(k), norm_key(q)) ==> b.tget(u, q) == a.tget(u, q),
        b.tget(t, k) == v,
        b.tmeta(u) == a.tmeta(u),
{
    if u != t {
        assert(b.tables.items@[u.0 as int] == a.tables.items@[u.0 as int]);
    }
}

/// Without metatables a write is followed by a read of the same value: the plain
/// table is the store.
pub proof fn law_plain_table(a: GlobalState, b: GlobalState, t: TableId, k: LuaValue, v: LuaValue, early: bool)
    requires
        a.wf(),
        t.0 < a.heap.tables.items@.len(),
        a.heap.tmeta(t) is None,
        key_refused(k) is None,
        set_decided(
            a.set_plan(LuaValue::Table(t), k),
            a,
            k,
            v,
            None,
            None,
            early,
            b,
            Ok::<SetOutcome, LuaError>(SetOutcome::Done),
        ),
    ensures
        b.get_plan(LuaValue::Table(t), k) == IndexChain::Value(v),
{
    reveal_with_fuel(newindex_chain, 1);
    reveal_with_fuel(index_chain, 1);
    assert(stored(a.heap, t, k, v, b.heap));
    law_write_read(a.heap, t, k, v, b.heap, t, k);
    assert(b.heap.tmeta(t) is None);
    assert(handler(b, LuaValue::Table(t), TagMethod::Index) == LuaValue::Nil);
}

} // verus!
