//! Making objects.

use vstd::prelude::*;
use crate::global::GlobalState;
use crate::global::LuaCallable;
use crate::global::grown;
use crate::global::intern_grown;
use crate::global::lemma_global_grow;
use crate::global::lemma_refs_grow;
use crate::global::lemma_state_grow;
use crate::global::string_counted;
use crate::global::string_made;
use crate::heap::Arena;
use crate::heap::Heap;
use crate::heap::LuaCClosure;
use crate::heap::LuaLClosure;
use crate::heap::LuaProto;
use crate::heap::LuaUserData;
use crate::heap::UpVal;
use crate::heap::UpvalDesc;
use crate::heap::heap_extends;
use crate::heap::lemma_extends_trans;
use crate::heap::lemma_heap_extends;
use crate::heap::lemma_marks_trans;
use crate::heap::marks_grown;
use crate::state::LuaState;
use crate::table::LuaTable;
use crate::upvals::upval_value;
use crate::value::LClosureId;
use crate::value::LuaClosure;
use crate::value::LuaError;
use crate::value::LuaValue;
use crate::value::LuaVersion;
use crate::value::ProtoId;
use crate::value::StackIdx;
use crate::value::StrId;
use crate::value::TableId;
use crate::value::UpValId;
use crate::value::UserDataId;

verus! {

/// The most upvalues that a native closure can have.
pub const MAX_UPVAL: i32 = 255;

/// A prototype with nothing in it.
pub open spec fn is_blank_proto(p: LuaProto) -> bool {
    &&& p.code@.len() == 0 && p.k@.len() == 0 && p.p@.len() == 0 && p.upvalues@.len() == 0
    &&& p.lineinfo@.len() == 0 && p.abslineinfo@.len() == 0 && p.locvars@.len() == 0
    &&& p.numparams == 0 && !p.is_vararg && p.maxstacksize == 0
    &&& p.linedefined == 0 && p.lastlinedefined == 0
    &&& p.source is None && p.cache is None && p.vararg_table_reg is None && !p.vararg_table_needed
}

/// A prototype with nothing in it.
pub fn blank_proto() -> (p: LuaProto)
    ensures
        is_blank_proto(p),
{
    LuaProto {
        numparams: 0,
        is_vararg: false,
        maxstacksize: 0,
        linedefined: 0,
        lastlinedefined: 0,
        code: Vec::new(),
        k: Vec::new(),
        p: Vec::new(),
        upvalues: Vec::new(),
        lineinfo: Vec::new(),
        abslineinfo: Vec::new(),
        locvars: Vec::new(),
        source: None,
        cache: None,
        vararg_table_reg: None,
        vararg_table_needed: false,
    }
}

/// Some `nil` values.
fn nils(n: usize) -> (v: Vec<LuaValue>)
    ensures
        v@ == Seq::new(n as nat, |i: int| LuaValue::Nil),
{
    let mut v: Vec<LuaValue> = Vec::new();
    let mut i: usize = 0;
    while i < n
        invariant
            i <= n,
            v@ == Seq::new(i as nat, |j: int| LuaValue::Nil),
        decreases n - i,
    {
        v.push(LuaValue::Nil);
        i = i + 1;
        assert(v@ =~= Seq::new(i as nat, |j: int| LuaValue::Nil));
    }
    v
}

impl LuaState {
    /// Has the collector looked after at the next safe point.
    pub fn mark_gc_check_needed(&mut self)
        ensures
            *final(self) == (LuaState { gc_check_needed: true, ..*old(self) }),
    {
        self.gc_check_needed = true;
    }

    /// Makes an empty table.
    pub fn new_table(&mut self, g: &mut GlobalState) -> (t: TableId)
        requires
            old(g).wf(),
            old(self).wf(old(g).heap.sizes()),
        ensures
            final(g).wf(),
            final(self).wf(final(g).heap.sizes()),
            *final(self) == (LuaState { gc_check_needed: true, ..*old(self) }),
            grown(*old(g), *final(g)),
            t.0 == old(g).heap.tables.items@.len(),
            final(g).heap.tables.items@.len() == old(g).heap.tables.items@.len() + 1,
            final(g).heap == (Heap { tables: final(g).heap.tables, ..old(g).heap }),
            marks_grown(old(g).heap.tables, final(g).heap.tables, old(g).heap.bootstrap),
            final(g).heap.tmeta(t) is None,
            forall|k: LuaValue| #[trigger] final(g).heap.tget(t, k) == LuaValue::Nil,
    {
        self.gc_check_needed = true;
        let t: TableId = g.heap.new_table(LuaTable::new());
        proof {
            lemma_global_grow(*old(g), *g);
            lemma_state_grow(*self, old(g).heap.sizes(), g.heap.sizes());
        }
        t
    }

    /// Makes a string, or finds it where it is interned.
    pub fn intern_str(&mut self, g: &mut GlobalState, bytes: &[u8]) -> (s: StrId)
        requires
            old(g).wf(),
            old(self).wf(old(g).heap.sizes()),
        ensures
            final(g).wf(),
            final(self).wf(final(g).heap.sizes()),
            *final(self) == (LuaState {
                gc_check_needed: old(self).gc_check_needed || !(bytes@.len() <= crate::string::MAX_SHORT_LEN
                    && old(g).interned(bytes@)),
                ..*old(self)
            }),
            *final(g) == (GlobalState {
                heap: final(g).heap,
                interned_lt: final(g).interned_lt,
                ..*old(g)
            }),
            heap_extends(old(g).heap, final(g).heap),
            s.0 < final(g).heap.strs().len(),
            final(g).heap.bytes(s) == bytes@,
            bytes@.len() <= crate::string::MAX_SHORT_LEN ==> final(g).interned_lt.has(s),
            bytes@.len() <= crate::string::MAX_SHORT_LEN && old(g).interned(bytes@) ==> *final(g) == *old(g),
            bytes@.len() > crate::string::MAX_SHORT_LEN ==> s.0 == old(g).heap.strs().len(),
            bytes@.len() > crate::string::MAX_SHORT_LEN ==> final(g).interned_lt == old(g).interned_lt,
            final(g).heap == (Heap { strings: final(g).heap.strings, ..old(g).heap }),
            marks_grown(old(g).heap.strings, final(g).heap.strings, old(g).heap.bootstrap),
            forall|x: StrId| #[trigger]
                final(g).interned_lt.has(x) <==> old(g).interned_lt.has(x) || (bytes@.len()
                    <= crate::string::MAX_SHORT_LEN && x == s),
            intern_grown(*old(g), *final(g)),
            final(g).heap.strs().len() == old(g).heap.strs().len() + (if bytes@.len() <= crate::string::MAX_SHORT_LEN
                && old(g).interned(bytes@) {
                0int
            } else {
                1int
            }),
            string_made(*old(g), bytes@, *final(g), s),
            string_counted(*old(g), bytes@, *final(g)),
    {
        let (s, made) = g.intern_str(bytes);
        if made {
            self.gc_check_needed = true;
        }
        proof {
            lemma_heap_extends(old(g).heap, g.heap);
            lemma_state_grow(*self, old(g).heap.sizes(), g.heap.sizes());
        }
        s
    }

    /// Makes a closed variable.
    pub fn new_upval_closed(&mut self, g: &mut GlobalState, v: LuaValue) -> (u: UpValId)
        requires
            old(g).wf(),
            old(self).wf(old(g).heap.sizes()),
            old(g).heap.ok(v),
        ensures
            final(g).wf(),
            final(self).wf(final(g).heap.sizes()),
            *final(self) == (LuaState { gc_check_needed: true, ..*old(self) }),
            grown(*old(g), *final(g)),
            u.0 == old(g).heap.upvals.items@.len(),
            final(g).heap.upvals.items@ == old(g).heap.upvals.items@.push(UpVal::Closed(v)),
            final(g).heap == (Heap { upvals: final(g).heap.upvals, ..old(g).heap }),
            marks_grown(old(g).heap.upvals, final(g).heap.upvals, old(g).heap.bootstrap),
    {
        self.gc_check_needed = true;
        let u: UpValId = g.heap.new_upval(UpVal::Closed(v));
        proof {
            lemma_global_grow(*old(g), *g);
            lemma_state_grow(*self, old(g).heap.sizes(), g.heap.sizes());
        }
        u
    }

    /// Makes an open variable for a slot of a thread.
    pub fn new_upval_open(&mut self, g: &mut GlobalState, thread: u64, level: StackIdx) -> (u: UpValId)
        requires
            old(g).wf(),
            old(self).wf(old(g).heap.sizes()),
        ensures
            final(g).wf(),
            final(self).wf(final(g).heap.sizes()),
            *final(self) == (LuaState {
                gc_check_needed: true,
                legacy_open_upval_touched: true,
                ..*old(self)
            }),
            grown(*old(g), *final(g)),
            u.0 == old(g).heap.upvals.items@.len(),
            final(g).heap.upvals.items@ == old(g).heap.upvals.items@.push(
                UpVal::Open { thread: thread, idx: level },
            ),
            final(g).heap == (Heap { upvals: final(g).heap.upvals, ..old(g).heap }),
            marks_grown(old(g).heap.upvals, final(g).heap.upvals, old(g).heap.bootstrap),
    {
        self.gc_check_needed = true;
        self.legacy_open_upval_touched = true;
        let u: UpValId = g.heap.new_upval(UpVal::Open { thread: thread, idx: level });
        proof {
            lemma_global_grow(*old(g), *g);
            lemma_state_grow(*self, old(g).heap.sizes(), g.heap.sizes());
        }
        u
    }

    /// Makes an empty prototype.
    pub fn new_proto(&mut self, g: &mut GlobalState) -> (p: ProtoId)
        requires
            old(g).wf(),
            old(self).wf(old(g).heap.sizes()),
        ensures
            final(g).wf(),
            final(self).wf(final(g).heap.sizes()),
            *final(self) == (LuaState { gc_check_needed: true, ..*old(self) }),
            grown(*old(g), *final(g)),
            p.0 == old(g).heap.protos.items@.len(),
            p.0 < final(g).heap.protos.items@.len(),
            is_blank_proto(final(g).heap.protos.items@[p.0 as int]),
            final(g).heap.protos.items@.len() == old(g).heap.protos.items@.len() + 1,
            final(g).heap == (Heap { protos: final(g).heap.protos, ..old(g).heap }),
            marks_grown(old(g).heap.protos, final(g).heap.protos, old(g).heap.bootstrap),
    {
        self.gc_check_needed = true;
        let p: ProtoId = g.heap.new_proto(blank_proto());
        proof {
            lemma_global_grow(*old(g), *g);
            lemma_state_grow(*self, old(g).heap.sizes(), g.heap.sizes());
        }
        p
    }

    /// Makes a closure whose captured variables are new, closed and `nil`.
    pub fn new_lclosure(&mut self, g: &mut GlobalState, proto: ProtoId, nupvals: usize) -> (c: LClosureId)
        requires
            old(g).wf(),
            old(self).wf(old(g).heap.sizes()),
            proto.0 < old(g).heap.protos.items@.len(),
            old(g).heap.upvals.items@.len() + nupvals <= usize::MAX,
        ensures
            final(g).wf(),
            final(self).wf(final(g).heap.sizes()),
            *final(self) == (LuaState { gc_check_needed: true, ..*old(self) }),
            grown(*old(g), *final(g)),
            c.0 == old(g).heap.lclosures.items@.len(),
            c.0 < final(g).heap.lclosures.items@.len(),
            ({
                let cl = final(g).heap.lclosures.items@[c.0 as int];
                &&& cl.proto == proto
                &&& cl.upvals@ == Seq::new(
                    nupvals as nat,
                    |i: int| UpValId((old(g).heap.upvals.items@.len() + i) as usize),
                )
            }),
            final(g).heap.upvals.items@ == old(g).heap.upvals.items@ + Seq::new(
                nupvals as nat,
                |i: int| UpVal::Closed(LuaValue::Nil),
            ),
            final(g).heap.lclosures.items@.len() == old(g).heap.lclosures.items@.len() + 1,
            final(g).heap == (Heap {
                upvals: final(g).heap.upvals,
                lclosures: final(g).heap.lclosures,
                ..old(g).heap
            }),
            marks_grown(old(g).heap.upvals, final(g).heap.upvals, old(g).heap.bootstrap),
            marks_grown(old(g).heap.lclosures, final(g).heap.lclosures, old(g).heap.bootstrap),
    {
        self.gc_check_needed = true;
        let mut upvals: Vec<UpValId> = Vec::new();
        let mut i: usize = 0;
        assert(g.heap.upvals.items@ =~= old(g).heap.upvals.items@ + Seq::new(
            0,
            |i: int| UpVal::Closed(LuaValue::Nil),
        ));
        while i < nupvals
            invariant
                i <= nupvals,
                g.wf(),
                self.wf(g.heap.sizes()),
                *self == (LuaState { gc_check_needed: true, ..*old(self) }),
                grown(*old(g), *g),
                old(g).wf(),
                g.heap == (Heap { upvals: g.heap.upvals, ..old(g).heap }),
                marks_grown(old(g).heap.upvals, g.heap.upvals, old(g).heap.bootstrap),
                proto.0 < g.heap.protos.items@.len(),
                old(g).heap.upvals.items@.len() + nupvals <= usize::MAX,
                g.heap.upvals.items@ == old(g).heap.upvals.items@ + Seq::new(
                    i as nat,
                    |j: int| UpVal::Closed(LuaValue::Nil),
                ),
                upvals@ == Seq::new(i as nat, |j: int| UpValId((old(g).heap.upvals.items@.len() + j) as usize)),
            decreases nupvals - i,
        {
            let ghost before = *g;
            let u: UpValId = self.new_upval_closed(g, LuaValue::Nil);
            proof {
                lemma_extends_trans(old(g).heap, before.heap, g.heap);
                lemma_marks_trans(old(g).heap.upvals, before.heap.upvals, g.heap.upvals, g.heap.bootstrap);
                assert(g.heap.upvals.items@ =~= old(g).heap.upvals.items@ + Seq::new(
                    (i + 1) as nat,
                    |j: int| UpVal::Closed(LuaValue::Nil),
                ));
            }
            upvals.push(u);
            i = i + 1;
            assert(upvals@ =~= Seq::new(
                i as nat,
                |j: int| UpValId((old(g).heap.upvals.items@.len() + j) as usize),
            ));
        }
        let ghost before = *g;
        let c: LClosureId = g.heap.new_lclosure(LuaLClosure { proto: proto, upvals: upvals });
        proof {
            lemma_global_grow(before, *g);
            lemma_state_grow(*self, before.heap.sizes(), g.heap.sizes());
            lemma_extends_trans(old(g).heap, before.heap, g.heap);
        }
        c
    }

    /// Makes a userdata of some zero bytes and some `nil` user values.
    pub fn new_userdata(&mut self, g: &mut GlobalState, size: usize, nuvalue: usize) -> (u: UserDataId)
        requires
            old(g).wf(),
            old(self).wf(old(g).heap.sizes()),
            nuvalue < u16::MAX,
        ensures
            final(g).wf(),
            final(self).wf(final(g).heap.sizes()),
            *final(self) == (LuaState { gc_check_needed: true, ..*old(self) }),
            grown(*old(g), *final(g)),
            u.0 == old(g).heap.userdata.items@.len(),
            u.0 < final(g).heap.userdata.items@.len(),
            ({
                let d = final(g).heap.userdata.items@[u.0 as int];
                &&& d.data@ == Seq::new(size as nat, |i: int| 0u8)
                &&& d.uv@ == Seq::new(nuvalue as nat, |i: int| LuaValue::Nil)
                &&& d.metatable is None
            }),
            final(g).heap.userdata.items@.len() == old(g).heap.userdata.items@.len() + 1,
            final(g).heap == (Heap { userdata: final(g).heap.userdata, ..old(g).heap }),
            marks_grown(old(g).heap.userdata, final(g).heap.userdata, old(g).heap.bootstrap),
    {
        self.gc_check_needed = true;
        let mut data: Vec<u8> = Vec::new();
        let mut i: usize = 0;
        while i < size
            invariant
                i <= size,
                data@ == Seq::new(i as nat, |j: int| 0u8),
            decreases size - i,
        {
            data.push(0);
            i = i + 1;
            assert(data@ =~= Seq::new(i as nat, |j: int| 0u8));
        }
        let uv: Vec<LuaValue> = nils(nuvalue);
        let u: UserDataId = g.heap.new_userdata_obj(LuaUserData { data: data, uv: uv, metatable: None });
        proof {
            lemma_global_grow(*old(g), *g);
            lemma_state_grow(*self, old(g).heap.sizes(), g.heap.sizes());
        }
        u
    }

    /// Makes a native closure over `f` with `n` `nil` upvalues: a light function where
    /// there are none. Refuses a number of upvalues out of range and then registers
    /// nothing.
    pub fn new_c_closure(&mut self, g: &mut GlobalState, f: usize, n: i32) -> (r: Result<LuaClosure, LuaError>)
        requires
            old(g).wf(),
            old(self).wf(old(g).heap.sizes()),
        ensures
            final(g).wf(),
            final(self).wf(final(g).heap.sizes()),
            !(0 <= n <= MAX_UPVAL) ==> (r matches Err(e) && e == LuaError::UpvalueCount(n)) && *final(g) == *old(g)
                && *final(self) == *old(self),
            n == 0 ==> {
                &&& r matches Ok(LuaClosure::LightC(i))
                &&& registered(old(g).c_functions@, f, true, final(g).c_functions@, i as int)
                &&& *final(g) == (GlobalState { c_functions: final(g).c_functions, ..*old(g) })
                &&& *final(self) == *old(self)
            },
            0 < n <= MAX_UPVAL ==> {
                &&& r matches Ok(LuaClosure::C(c))
                &&& c.0 == old(g).heap.cclosures.items@.len()
                &&& c.0 < final(g).heap.cclosures.items@.len()
                &&& final(g).heap.cclosures.items@[c.0 as int].upvalues@ == Seq::new(
                    n as nat,
                    |i: int| LuaValue::Nil,
                )
                &&& registered(
                    old(g).c_functions@,
                    f,
                    false,
                    final(g).c_functions@,
                    final(g).heap.cclosures.items@[c.0 as int].func as int,
                )
                &&& *final(g) == (GlobalState {
                    c_functions: final(g).c_functions,
                    heap: final(g).heap,
                    ..*old(g)
                })
                &&& heap_extends(old(g).heap, final(g).heap)
                &&& final(g).heap.cclosures.items@.len() == old(g).heap.cclosures.items@.len() + 1
                &&& final(g).heap == (Heap { cclosures: final(g).heap.cclosures, ..old(g).heap })
                &&& marks_grown(old(g).heap.cclosures, final(g).heap.cclosures, old(g).heap.bootstrap)
                &&& *final(self) == (LuaState { gc_check_needed: true, ..*old(self) })
            },
    {
        if n < 0 || n > MAX_UPVAL {
            return Err(LuaError::UpvalueCount(n));
        }
        let idx: usize = g.register_c_function(f, n == 0);
        if n == 0 {
            return Ok(LuaClosure::LightC(idx));
        }
        self.gc_check_needed = true;
        let upvalues: Vec<LuaValue> = nils(n as usize);
        let ghost before = *g;
        let c = g.heap.new_cclosure(LuaCClosure { func: idx, upvalues: upvalues });
        proof {
            lemma_global_grow(before, *g);
            lemma_state_grow(*self, before.heap.sizes(), g.heap.sizes());
        }
        Ok(LuaClosure::C(c))
    }
}

/// The first plain function equal to `f` at or after `i`, or the number of entries.
pub open spec fn find_bare(s: Seq<LuaCallable>, f: usize, i: int) -> int
    decreases s.len() - i,
{
    if i >= s.len() {
        s.len() as int
    } else if s[i] == LuaCallable::Bare(f) {
        i
    } else {
        find_bare(s, f, i + 1)
    }
}

/// Whether registering a function gave a slot: an old one of the same function where
/// that may be shared, or else a new one at the end.
pub open spec fn registered(a: Seq<LuaCallable>, f: usize, dedup: bool, b: Seq<LuaCallable>, slot: int) -> bool {
    if dedup && find_bare(a, f, 0) < a.len() {
        b == a && slot == find_bare(a, f, 0)
    } else {
        b == a.push(LuaCallable::Bare(f)) && slot == a.len()
    }
}

impl GlobalState {
    /// Registers a plain native function and returns its slot. Where `dedup` is set, a
    /// function that is registered already keeps its slot.
    pub fn register_c_function(&mut self, f: usize, dedup: bool) -> (slot: usize)
        ensures
            *final(self) == (GlobalState { c_functions: final(self).c_functions, ..*old(self) }),
            registered(old(self).c_functions@, f, dedup, final(self).c_functions@, slot as int),
            slot < final(self).c_functions@.len(),
            final(self).c_functions@[slot as int] == LuaCallable::Bare(f),
    {
        if dedup {
            let mut i: usize = 0;
            while i < self.c_functions.len()
                invariant
                    *self == *old(self),
                    dedup,
                    i <= self.c_functions@.len(),
                    find_bare(self.c_functions@, f, 0) == find_bare(self.c_functions@, f, i as int),
                decreases self.c_functions@.len() - i,
            {
                if let Some(x) = self.c_functions[i].as_bare() {
                    if x == f {
                        assert(self.c_functions@[i as int] == LuaCallable::Bare(f));
                        return i;
                    }
                }
                i = i + 1;
            }
        }
        let i: usize = self.c_functions.len();
        self.c_functions.push(LuaCallable::bare(f));
        i
    }
}

/// Registering the same plain function again gives the same slot.
pub proof fn law_register_again(a: Seq<LuaCallable>, f: usize, b: Seq<LuaCallable>, slot: int)
    requires
        registered(a, f, true, b, slot),
    ensures
        registered(b, f, true, b, slot),
{
    if find_bare(a, f, 0) >= a.len() {
        lemma_find_bare_push(a, f, 0);
    }
}

proof fn lemma_find_bare_push(a: Seq<LuaCallable>, f: usize, i: int)
    requires
        0 <= i <= a.len(),
        find_bare(a, f, i) >= a.len(),
    ensures
        find_bare(a.push(LuaCallable::Bare(f)), f, i) == a.len(),
    decreases a.len() - i,
{
    if i < a.len() {
        lemma_find_bare_push(a, f, i + 1);
    }
}

/// How many of the first `n` descriptions capture a slot of the enclosing function.
pub open spec fn stack_captures(ds: Seq<UpvalDesc>, n: int) -> int
    decreases n,
{
    if n <= 0 {
        0
    } else {
        stack_captures(ds, n - 1) + if ds[n - 1].instack {
            1int
        } else {
            0int
        }
    }
}

/// The variables that a closure captures: one found for each slot of the enclosing
/// function, in order, and the others from that function itself.
pub open spec fn captured(ds: Seq<UpvalDesc>, parent: Seq<UpValId>, found: Seq<UpValId>) -> Seq<UpValId> {
    Seq::new(
        ds.len(),
        |i: int|
            if ds[i].instack {
                found[stack_captures(ds, i)]
            } else {
                parent[ds[i].idx as int]
            },
    )
}

/// Whether closures of one prototype are shared: in 5.2 and 5.3.
pub open spec fn shares_closures(v: LuaVersion) -> bool {
    v == LuaVersion::V52 || v == LuaVersion::V53
}

/// Whether a prototype has a closure with these captured variables at hand.
pub open spec fn cached_closure(g: GlobalState, child: ProtoId, ups: Seq<UpValId>) -> Option<LClosureId> {
    match g.heap.protos.items@[child.0 as int].cache {
        Some(c) if shares_closures(g.lua_version) && g.heap.lclosures.items@[c.0 as int].upvals@ == ups => Some(c),
        _ => None,
    }
}

/// Whether a value is a closure of a prototype that captures these variables.
pub open spec fn closure_over(g: GlobalState, v: LuaValue, child: ProtoId, ups: Seq<UpValId>) -> bool {
    &&& v matches LuaValue::Function(LuaClosure::Lua(c))
    &&& c.0 < g.heap.lclosures.items@.len()
    &&& g.heap.lclosures.items@[c.0 as int].proto == child
    &&& g.heap.lclosures.items@[c.0 as int].upvals@ == ups
}

fn same_upvals(a: &Vec<UpValId>, b: &Vec<UpValId>) -> (r: bool)
    ensures
        r == (a@ == b@),
{
    if a.len() != b.len() {
        return false;
    }
    let mut i: usize = 0;
    while i < a.len()
        invariant
            i <= a@.len(),
            a@.len() == b@.len(),
            forall|j: int| 0 <= j < i ==> #[trigger] a@[j] == b@[j],
        decreases a@.len() - i,
    {
        if a[i] != b[i] {
            return false;
        }
        i = i + 1;
    }
    assert(a@ =~= b@);
    true
}

proof fn lemma_stack_captures(ds: Seq<UpvalDesc>, i: int, n: int)
    requires
        0 <= i <= n,
    ensures
        0 <= stack_captures(ds, i) <= stack_captures(ds, n),
        i < n && ds[i].instack ==> stack_captures(ds, i) < stack_captures(ds, n),
    decreases n,
{
    if i < n {
        lemma_stack_captures(ds, i, n - 1);
    } else if n > 0 {
        lemma_stack_captures(ds, n - 1, n - 1);
    }
}

impl LuaState {
    /// The slots of the enclosing function that the closure over one of its prototypes
    /// captures, in order.
    pub fn captured_slots(&self, g: &GlobalState, child: ProtoId, base: StackIdx) -> (r: Vec<StackIdx>)
        requires
            child.0 < g.heap.protos.items@.len(),
            base.0 + 255 <= u32::MAX,
        ensures
            ({
                let ds = g.heap.protos.items@[child.0 as int].upvalues@;
                &&& r@.len() == stack_captures(ds, ds.len() as int)
                &&& forall|i: int|
                    0 <= i < ds.len() && (#[trigger] ds[i]).instack ==> 0 <= stack_captures(ds, i) < r@.len()
                        && r@[stack_captures(ds, i)].0 == base.0 + ds[i].idx
            }),
    {
        let mut r: Vec<StackIdx> = Vec::new();
        let ghost ds = g.heap.protos.items@[child.0 as int].upvalues@;
        let mut i: usize = 0;
        while i < g.heap.protos.items[child.0].upvalues.len()
            invariant
                child.0 < g.heap.protos.items@.len(),
                ds == g.heap.protos.items@[child.0 as int].upvalues@,
                i <= ds.len(),
                base.0 + 255 <= u32::MAX,
                r@.len() == stack_captures(ds, i as int),
                forall|j: int|
                    0 <= j < i && (#[trigger] ds[j]).instack ==> 0 <= stack_captures(ds, j) < r@.len()
                        && r@[stack_captures(ds, j)].0 == base.0 + ds[j].idx,
            decreases ds.len() - i,
        {
            let d: UpvalDesc = g.heap.protos.items[child.0].upvalues[i];
            if d.instack {
                r.push(StackIdx(base.0 + d.idx as u32));
            }
            i = i + 1;
        }
        r
    }

    /// Makes the closure over a prototype, or takes the one that it has at hand, and
    /// stores it in a register. `found` are the variables for the captured slots, in
    /// order.
    pub fn push_closure(
        &mut self,
        g: &mut GlobalState,
        parent: LClosureId,
        child: ProtoId,
        found: &Vec<UpValId>,
        ra: StackIdx,
    )
        requires
            old(g).wf(),
            old(self).wf(old(g).heap.sizes()),
            parent.0 < old(g).heap.lclosures.items@.len(),
            child.0 < old(g).heap.protos.items@.len(),
            ra.0 < old(self).stack@.len(),
            ({
                let ds = old(g).heap.protos.items@[child.0 as int].upvalues@;
                &&& found@.len() == stack_captures(ds, ds.len() as int)
                &&& forall|i: int|
                    0 <= i < ds.len() && !(#[trigger] ds[i]).instack ==> ds[i].idx
                        < old(g).heap.lclosures.items@[parent.0 as int].upvals@.len()
            }),
            forall|i: int| 0 <= i < found@.len() ==> (#[trigger] found@[i]).0 < old(g).heap.upvals.items@.len(),
        ensures
            final(g).wf(),
            final(self).wf(final(g).heap.sizes()),
            ({
                let ups = captured(
                    old(g).heap.protos.items@[child.0 as int].upvalues@,
                    old(g).heap.lclosures.items@[parent.0 as int].upvals@,
                    found@,
                );
                match cached_closure(*old(g), child, ups) {
                    Some(c) => {
                        &&& *final(g) == *old(g)
                        &&& *final(self) == (LuaState { stack: final(self).stack, ..*old(self) })
                        &&& final(self).stack@ == old(self).stack@.update(
                            ra.0 as int,
                            LuaValue::Function(LuaClosure::Lua(c)),
                        )
                    },
                    None => {
                        let c = LClosureId(old(g).heap.lclosures.items@.len() as usize);
                        &&& *final(self) == (LuaState {
                            stack: final(self).stack,
                            gc_check_needed: true,
                            ..*old(self)
                        })
                        &&& final(self).stack@ == old(self).stack@.update(
                            ra.0 as int,
                            LuaValue::Function(LuaClosure::Lua(c)),
                        )
                        &&& closure_made(*old(g), child, ups, *final(g))
                    },
                }
            }),
            closure_over(
                *final(g),
                final(self).stack@[ra.0 as int],
                child,
                captured(
                    old(g).heap.protos.items@[child.0 as int].upvalues@,
                    old(g).heap.lclosures.items@[parent.0 as int].upvals@,
                    found@,
                ),
            ),
            ({
                let ds = old(g).heap.protos.items@[child.0 as int].upvalues@;
                let v = final(self).stack@[ra.0 as int];
                &&& forall|i: int|
                    0 <= i < ds.len() && !(#[trigger] ds[i]).instack ==> variable(*final(g), v, i) == old(
                        g,
                    ).heap.lclosures.items@[parent.0 as int].upvals@[ds[i].idx as int]
                &&& forall|i: int|
                    0 <= i < ds.len() && (#[trigger] ds[i]).instack ==> variable(*final(g), v, i)
                        == found@[stack_captures(ds, i)]
            }),
    {
        let n: usize = g.heap.protos.items[child.0].upvalues.len();
        let m: usize = found.len();
        let ghost ds = g.heap.protos.items@[child.0 as int].upvalues@;
        let ghost pups = g.heap.lclosures.items@[parent.0 as int].upvals@;
        let ghost ups = captured(ds, pups, found@);
        let mut upvals: Vec<UpValId> = Vec::new();
        let mut i: usize = 0;
        let mut k: usize = 0;
        while i < n
            invariant
                i <= n,
                *g == *old(g),
                *self == *old(self),
                g.wf(),
                n == ds.len(),
                parent.0 < g.heap.lclosures.items@.len(),
                child.0 < g.heap.protos.items@.len(),
                ds == g.heap.protos.items@[child.0 as int].upvalues@,
                pups == g.heap.lclosures.items@[parent.0 as int].upvals@,
                ups == captured(ds, pups, found@),
                k == stack_captures(ds, i as int),
                found@.len() == stack_captures(ds, n as int),
                m == found@.len(),
                forall|j: int| 0 <= j < ds.len() && !(#[trigger] ds[j]).instack ==> ds[j].idx < pups.len(),
                forall|j: int| 0 <= j < found@.len() ==> (#[trigger] found@[j]).0 < g.heap.upvals.items@.len(),
                upvals@.len() == i,
                forall|j: int|
                    0 <= j < i ==> #[trigger] upvals@[j] == ups[j] && upvals@[j].0 < g.heap.upvals.items@.len(),
            decreases n - i,
        {
            let d: UpvalDesc = g.heap.protos.items[child.0].upvalues[i];
            assert(d == ds[i as int]);
            proof {
                lemma_stack_captures(ds, i as int, n as int);
                assert(g.heap.sizes().ok_lclosure(g.heap.lclosures.items@[parent.0 as int]));
            }
            if d.instack {
                upvals.push(found[k]);
                k = k + 1;
            } else {
                upvals.push(g.heap.lclosures.items[parent.0].upvals[d.idx as usize]);
            }
            i = i + 1;
        }
        assert(upvals@ =~= ups);
        let shares: bool = match g.lua_version {
            LuaVersion::V52 | LuaVersion::V53 => true,
            _ => false,
        };
        assert(g.heap.sizes().ok_proto(g.heap.protos.items@[child.0 as int]));
        if shares {
            if let Some(c) = g.heap.protos.items[child.0].cache {
                if same_upvals(&g.heap.lclosures.items[c.0].upvals, &upvals) {
                    self.set_at(ra, LuaValue::Function(LuaClosure::Lua(c)));
                    return;
                }
            }
        }
        self.gc_check_needed = true;
        let c: LClosureId = g.heap.new_lclosure(LuaLClosure { proto: child, upvals: upvals });
        let ghost mid = *g;
        proof {
            lemma_global_grow(*old(g), *g);
            lemma_state_grow(*self, old(g).heap.sizes(), g.heap.sizes());
        }
        if shares {
            g.heap.protos.items[child.0].cache = Some(c);
            proof {
                lemma_cache_set(mid, *g, child);
            }
        }
        self.set_at(ra, LuaValue::Function(LuaClosure::Lua(c)));
    }
}

/// The variable that a Lua closure captures under a number.
pub open spec fn variable(g: GlobalState, v: LuaValue, i: int) -> UpValId {
    g.heap.lclosures.items@[v->Function_0->Lua_0.0 as int].upvals@[i]
}

/// A closure shares the variables of the function around it: reading variable `i` of the inner
/// closure gives what reading the variable that its prototype names gives in the outer one.
pub proof fn law_inner_reads_outer(
    s: LuaState,
    g: GlobalState,
    v: LuaValue,
    child: ProtoId,
    parent: LClosureId,
    found: Seq<UpValId>,
    i: int,
)
    requires
        closure_over(
            g,
            v,
            child,
            captured(
                g.heap.protos.items@[child.0 as int].upvalues@,
                g.heap.lclosures.items@[parent.0 as int].upvals@,
                found,
            ),
        ),
        0 <= i < g.heap.protos.items@[child.0 as int].upvalues@.len(),
        !g.heap.protos.items@[child.0 as int].upvalues@[i].instack,
    ensures
        ({
            let outer = g.heap.lclosures.items@[parent.0 as int].upvals@[g.heap.protos.items@[child.0 as int].upvalues@[i].idx as int];
            &&& v is Function && v->Function_0 is Lua
            &&& variable(g, v, i) == outer
            &&& upval_value(s, g, g.heap.upvals.items@[variable(g, v, i).0 as int]) == upval_value(
                s,
                g,
                g.heap.upvals.items@[outer.0 as int],
            )
        }),
{
}

/// A closure shares the registers of the function around it: where the variables that were
/// found are open in the slots that were asked for, reading variable `i` of the closure gives
/// the register that its prototype names.
pub proof fn law_inner_reads_register(
    s: LuaState,
    g: GlobalState,
    v: LuaValue,
    child: ProtoId,
    parent: Seq<UpValId>,
    slots: Seq<StackIdx>,
    found: Seq<UpValId>,
    base: StackIdx,
    i: int,
)
    requires
        ({
            let ds = g.heap.protos.items@[child.0 as int].upvalues@;
            &&& closure_over(g, v, child, captured(ds, parent, found))
            &&& forall|j: int|
                0 <= j < ds.len() && (#[trigger] ds[j]).instack ==> slots[stack_captures(ds, j)].0 == base.0 + ds[j].idx
            &&& forall|n: int|
                0 <= n < found.len() ==> g.heap.upvals.items@[(#[trigger] found[n]).0 as int] == (UpVal::Open {
                    thread: s.cached_thread_id,
                    idx: slots[n],
                })
            &&& found.len() == stack_captures(ds, ds.len() as int)
            &&& 0 <= i < ds.len() && ds[i].instack
        }),
    ensures
        upval_value(s, g, g.heap.upvals.items@[variable(g, v, i).0 as int]) == s.stack@[base.0
            + g.heap.protos.items@[child.0 as int].upvalues@[i].idx],
{
    let ds = g.heap.protos.items@[child.0 as int].upvalues@;
    lemma_stack_captures(ds, i, ds.len() as int);
}

/// Whether the only change is a new closure, and that its prototype remembers it
/// where closures are shared.
pub open spec fn closure_made(a: GlobalState, child: ProtoId, ups: Seq<UpValId>, b: GlobalState) -> bool {
    let c = LClosureId(a.heap.lclosures.items@.len() as usize);
    &&& b == (GlobalState { heap: b.heap, ..a })
    &&& b.heap == (Heap { lclosures: b.heap.lclosures, protos: b.heap.protos, ..a.heap })
    &&& b.heap.lclosures.items@.len() == a.heap.lclosures.items@.len() + 1
    &&& forall|i: int|
        0 <= i < a.heap.lclosures.items@.len() ==> #[trigger] b.heap.lclosures.items@[i] == a.heap.lclosures.items@[i]
    &&& b.heap.lclosures.items@[c.0 as int].proto == child
    &&& b.heap.lclosures.items@[c.0 as int].upvals@ == ups
    &&& b.heap.protos.items@.len() == a.heap.protos.items@.len()
    &&& forall|i: int|
        0 <= i < a.heap.protos.items@.len() && i != child.0 ==> #[trigger] b.heap.protos.items@[i]
            == a.heap.protos.items@[i]
    &&& b.heap.protos.items@[child.0 as int] == (LuaProto {
        cache: if shares_closures(a.lua_version) {
            Some(c)
        } else {
            a.heap.protos.items@[child.0 as int].cache
        },
        ..a.heap.protos.items@[child.0 as int]
    })
}

proof fn lemma_cache_set(a: GlobalState, b: GlobalState, child: ProtoId)
    requires
        a.wf(),
        b == (GlobalState { heap: b.heap, ..a }),
        b.heap == (Heap { protos: b.heap.protos, ..a.heap }),
        b.heap.protos == (Arena { items: b.heap.protos.items, ..a.heap.protos }),
        child.0 < a.heap.protos.items@.len(),
        b.heap.protos.items@.len() == a.heap.protos.items@.len(),
        forall|i: int|
            0 <= i < a.heap.protos.items@.len() && i != child.0 ==> #[trigger] b.heap.protos.items@[i]
                == a.heap.protos.items@[i],
        a.heap.sizes().ok_proto(b.heap.protos.items@[child.0 as int]),
        b.heap.protos.items@[child.0 as int].cache matches Some(c) && a.heap.lclosures.items@[c.0 as int].proto
            == child,
    ensures
        b.wf(),
        b.heap.sizes() == a.heap.sizes(),
{
    assert(b.heap.sizes() == a.heap.sizes());
    assert forall|i: int| 0 <= i < b.heap.protos.items@.len() implies b.heap.sizes().ok_proto(
        #[trigger] b.heap.protos.items@[i],
    ) by {
        if i != child.0 {
            assert(b.heap.protos.items@[i] == a.heap.protos.items@[i]);
        }
    }
    assert(b.heap.wf());
    lemma_refs_grow(a, a.heap.sizes(), b.heap.sizes());
}

/// What a prototype has at hand is a closure of it, with the variables that were asked for.
pub proof fn law_cached_closure(g: GlobalState, child: ProtoId, ups: Seq<UpValId>)
    requires
        g.wf(),
        child.0 < g.heap.protos.items@.len(),
    ensures
        cached_closure(g, child, ups) matches Some(c) ==> closure_over(
            g,
            LuaValue::Function(LuaClosure::Lua(c)),
            child,
            ups,
        ),
{
    let p = g.heap.protos.items@[child.0 as int];
    assert(g.heap.sizes().ok_proto(p));
}

/// Where closures are shared, making a closure twice over the same prototype and the
/// same variables gives one object.
pub proof fn law_closure_shared(a: GlobalState, child: ProtoId, ups: Seq<UpValId>, b: GlobalState)
    requires
        child.0 < a.heap.protos.items@.len(),
        shares_closures(a.lua_version),
        closure_made(a, child, ups, b),
    ensures
        cached_closure(b, child, ups) == Some(LClosureId(a.heap.lclosures.items@.len() as usize)),
{
}

} // verus!
