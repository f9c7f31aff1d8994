//! The object store: strings, tables, functions and the rest, each kind in an
//! arena of its own.

use vstd::prelude::*;
use crate::opcode::Instruction;
use crate::string::LuaString;
use crate::table::LuaTable;
use crate::table::TableEntry;
use crate::table::entries_wf;
use crate::table::find_from;
use crate::table::lookup;
use crate::table::names_str;
use crate::table::norm_key;
use crate::table::same_key;
use crate::value::CClosureId;
use crate::value::LClosureId;
use crate::value::LuaClosure;
use crate::value::LuaValue;
use crate::value::ProtoId;
use crate::value::StackIdx;
use crate::value::StrId;
use crate::value::TableId;
use crate::value::ThreadRef;
use crate::value::UpValId;
use crate::value::UserDataId;

verus! {

/// Objects of one kind. An object keeps its place for good; `live` tells whether
/// it has been freed, and `fixed` whether it is exempt from collection.
pub struct Arena<T> {
    pub items: Vec<T>,
    pub live: Vec<bool>,
    pub fixed: Vec<bool>,
}

impl<T> Arena<T> {
    /// One mark of each sort per object.
    pub open spec fn wf(self) -> bool {
        self.live@.len() == self.items@.len() && self.fixed@.len() == self.items@.len()
    }

    /// An arena without objects.
    pub fn new() -> (a: Self)
        ensures
            a.wf(),
            a.items@.len() == 0,
    {
        Arena { items: Vec::new(), live: Vec::new(), fixed: Vec::new() }
    }

    /// Stores a new, live object and returns its place.
    pub fn store(&mut self, item: T, fixed: bool) -> (i: usize)
        requires
            old(self).wf(),
        ensures
            final(self).wf(),
            i == old(self).items@.len(),
            final(self).items@ == old(self).items@.push(item),
            final(self).live@ == old(self).live@.push(true),
            final(self).fixed@ == old(self).fixed@.push(fixed),
    {
        let i: usize = self.items.len();
        self.items.push(item);
        self.live.push(true);
        self.fixed.push(fixed);
        i
    }

    /// Every object is live and exempt from collection.
    pub open spec fn all_exempt(self) -> bool {
        forall|i: int| 0 <= i < self.items@.len() ==> #[trigger] self.live@[i] && self.fixed@[i]
    }

    /// How many of the first `n` objects are live and collectable.
    pub open spec fn spec_count(self, n: int) -> int
        decreases n,
    {
        if n <= 0 {
            0
        } else {
            self.spec_count(n - 1) + if self.live@[n - 1] && !self.fixed@[n - 1] {
                1int
            } else {
                0int
            }
        }
    }

    /// The number of live, collectable objects.
    pub fn count(&self) -> (n: usize)
        requires
            self.wf(),
        ensures
            n == self.spec_count(self.items@.len() as int),
            n <= self.items@.len(),
    {
        let mut i: usize = 0;
        let mut n: usize = 0;
        while i < self.items.len()
            invariant
                self.wf(),
                i <= self.items@.len(),
                n <= i,
                n == self.spec_count(i as int),
            decreases self.items@.len() - i,
        {
            if self.live[i] && !self.fixed[i] {
                n = n + 1;
            }
            i = i + 1;
        }
        n
    }

    /// Frees every collectable object that is not among the survivors.
    pub fn sweep(&mut self, survivors: &Vec<bool>)
        requires
            old(self).wf(),
            survivors@.len() == old(self).items@.len(),
        ensures
            final(self).wf(),
            final(self).items@ == old(self).items@,
            final(self).fixed@ == old(self).fixed@,
            forall|i: int|
                0 <= i < old(self).items@.len() ==> #[trigger] final(self).live@[i] == (old(
                    self
                ).live@[i] && (old(self).fixed@[i] || survivors@[i])),
    {
        let mut i: usize = 0;
        while i < self.items.len()
            invariant
                self.wf(),
                i <= self.items@.len(),
                survivors@.len() == self.items@.len(),
                self.items@ == old(self).items@,
                self.fixed@ == old(self).fixed@,
                old(self).wf(),
                forall|j: int|
                    0 <= j < i ==> #[trigger] self.live@[j] == (old(self).live@[j] && (old(
                        self
                    ).fixed@[j] || survivors@[j])),
                forall|j: int| i <= j < self.items@.len() ==> #[trigger] self.live@[j] == old(self).live@[j],
            decreases self.items@.len() - i,
        {
            if !self.fixed[i] && !survivors[i] {
                self.live.set(i, false);
            }
            i = i + 1;
        }
    }
}

/// A full userdata object.
pub struct LuaUserData {
    pub data: Vec<u8>,
    pub uv: Vec<LuaValue>,
    pub metatable: Option<TableId>,
}

/// How a function prototype captures a variable.
#[derive(Debug, Clone, Copy, PartialEq, Eq, Structural)]
pub struct UpvalDesc {
    pub name: Option<StrId>,
    pub instack: bool,
    pub idx: u8,
    pub kind: u8,
}

/// A line number given outright, for an instruction.
#[derive(Debug, Clone, Copy, PartialEq, Eq, Structural)]
pub struct AbsLineInfo {
    pub pc: i32,
    pub line: i32,
}

/// A local variable and the instructions it is active in.
#[derive(Debug, Clone, Copy, PartialEq, Eq, Structural)]
pub struct LocalVar {
    pub varname: StrId,
    pub startpc: i32,
    pub endpc: i32,
}

/// A function prototype.
pub struct LuaProto {
    pub numparams: u8,
    pub is_vararg: bool,
    pub maxstacksize: u8,
    pub linedefined: i32,
    pub lastlinedefined: i32,
    pub code: Vec<Instruction>,
    pub k: Vec<LuaValue>,
    pub p: Vec<ProtoId>,
    pub upvalues: Vec<UpvalDesc>,
    pub lineinfo: Vec<i8>,
    pub abslineinfo: Vec<AbsLineInfo>,
    pub locvars: Vec<LocalVar>,
    pub source: Option<StrId>,
    pub cache: Option<LClosureId>,
    pub vararg_table_reg: Option<u8>,
    pub vararg_table_needed: bool,
}

/// A closure over a prototype.
pub struct LuaLClosure {
    pub proto: ProtoId,
    pub upvals: Vec<UpValId>,
}

/// A native function with upvalues: a slot of the function registry and the
/// values.
pub struct LuaCClosure {
    pub func: usize,
    pub upvalues: Vec<LuaValue>,
}

/// A captured variable: a slot of a thread's stack while it is open, a value of
/// its own once it is closed.
#[derive(Debug, Clone, Copy, PartialEq, Eq, Structural)]
pub enum UpVal {
    Open { thread: u64, idx: StackIdx },
    Closed(LuaValue),
}

/// A thread handle, by which values refer to a thread.
#[derive(Debug, Clone, Copy, PartialEq, Eq, Structural)]
pub struct LuaThread {
    pub id: u64,
}

/// A heap object of any kind.
#[derive(Debug, Clone, Copy, PartialEq, Eq, Structural)]
pub enum GcRef {
    Str(StrId),
    Table(TableId),
    UserData(UserDataId),
    LClosure(LClosureId),
    CClosure(CClosureId),
    Proto(ProtoId),
    UpVal(UpValId),
    Thread(ThreadRef),
}

/// How many objects of each kind there are.
pub struct Sizes {
    pub strings: nat,
    pub tables: nat,
    pub userdata: nat,
    pub lclosures: nat,
    pub cclosures: nat,
    pub protos: nat,
    pub upvals: nat,
    pub threads: nat,
}

impl Sizes {
    /// Whether an object exists.
    pub open spec fn has(self, r: GcRef) -> bool {
        match r {
            GcRef::Str(i) => i.0 < self.strings,
            GcRef::Table(i) => i.0 < self.tables,
            GcRef::UserData(i) => i.0 < self.userdata,
            GcRef::LClosure(i) => i.0 < self.lclosures,
            GcRef::CClosure(i) => i.0 < self.cclosures,
            GcRef::Proto(i) => i.0 < self.protos,
            GcRef::UpVal(i) => i.0 < self.upvals,
            GcRef::Thread(i) => i.0 < self.threads,
        }
    }

    /// Whether the object of a value, if it has one, exists.
    pub open spec fn ok(self, v: LuaValue) -> bool {
        match value_ref(v) {
            Some(r) => self.has(r),
            None => true,
        }
    }

    /// No kind has become smaller.
    pub open spec fn le(self, other: Sizes) -> bool {
        &&& self.strings <= other.strings
        &&& self.tables <= other.tables
        &&& self.userdata <= other.userdata
        &&& self.lclosures <= other.lclosures
        &&& self.cclosures <= other.cclosures
        &&& self.protos <= other.protos
        &&& self.upvals <= other.upvals
        &&& self.threads <= other.threads
    }

    /// Whether an optional table exists.
    pub open spec fn ok_table(self, t: Option<TableId>) -> bool {
        t matches Some(id) ==> id.0 < self.tables
    }

    /// Whether all these values exist.
    pub open spec fn ok_all(self, vs: Seq<LuaValue>) -> bool {
        forall|i: int| 0 <= i < vs.len() ==> self.ok(#[trigger] vs[i])
    }

    /// Whether what a table refers to exists.
    pub open spec fn ok_tab(self, t: LuaTable) -> bool {
        &&& self.ok_table(t.metatable)
        &&& forall|i: int|
            #![trigger t.entries@[i]]
            0 <= i < t.entries@.len() ==> self.ok(t.entries@[i].key) && self.ok(t.entries@[i].value)
    }

    /// Whether what a userdata refers to exists.
    pub open spec fn ok_userdata(self, u: LuaUserData) -> bool {
        self.ok_table(u.metatable) && self.ok_all(u.uv@)
    }

    /// Whether what a prototype refers to exists.
    pub open spec fn ok_proto(self, p: LuaProto) -> bool {
        &&& self.ok_all(p.k@)
        &&& forall|i: int| 0 <= i < p.p@.len() ==> (#[trigger] p.p@[i]).0 < self.protos
        &&& forall|i: int|
            #![trigger p.upvalues@[i]]
            0 <= i < p.upvalues@.len() ==> (p.upvalues@[i].name matches Some(s) ==> s.0 < self.strings)
        &&& forall|i: int| 0 <= i < p.locvars@.len() ==> (#[trigger] p.locvars@[i]).varname.0 < self.strings
        &&& (p.source matches Some(s) ==> s.0 < self.strings)
        &&& (p.cache matches Some(c) ==> c.0 < self.lclosures)
    }

    /// Whether what a Lua closure refers to exists.
    pub open spec fn ok_lclosure(self, c: LuaLClosure) -> bool {
        &&& c.proto.0 < self.protos
        &&& forall|i: int| 0 <= i < c.upvals@.len() ==> (#[trigger] c.upvals@[i]).0 < self.upvals
    }

    /// Whether what a captured variable holds exists.
    pub open spec fn ok_upval(self, u: UpVal) -> bool {
        u matches UpVal::Closed(v) ==> self.ok(v)
    }
}

/// The object of a value.
pub open spec fn value_ref(v: LuaValue) -> Option<GcRef> {
    match v {
        LuaValue::Str(i) => Some(GcRef::Str(i)),
        LuaValue::Table(i) => Some(GcRef::Table(i)),
        LuaValue::UserData(i) => Some(GcRef::UserData(i)),
        LuaValue::Thread(i) => Some(GcRef::Thread(i)),
        LuaValue::Function(LuaClosure::Lua(i)) => Some(GcRef::LClosure(i)),
        LuaValue::Function(LuaClosure::C(i)) => Some(GcRef::CClosure(i)),
        _ => None,
    }
}

/// The object of a value, where it has one.
pub fn ref_of(v: &LuaValue) -> (r: Option<GcRef>)
    ensures
        r == value_ref(*v),
{
    match v {
        LuaValue::Str(i) => Some(GcRef::Str(*i)),
        LuaValue::Table(i) => Some(GcRef::Table(*i)),
        LuaValue::UserData(i) => Some(GcRef::UserData(*i)),
        LuaValue::Thread(i) => Some(GcRef::Thread(*i)),
        LuaValue::Function(c) => match c {
            LuaClosure::Lua(i) => Some(GcRef::LClosure(*i)),
            LuaClosure::C(i) => Some(GcRef::CClosure(*i)),
            LuaClosure::LightC(_) => None,
        },
        _ => None,
    }
}

/// All objects of a runtime. While `bootstrap` is set, new objects are exempt
/// from collection.
pub struct Heap {
    pub strings: Arena<LuaString>,
    pub tables: Arena<LuaTable>,
    pub userdata: Arena<LuaUserData>,
    pub lclosures: Arena<LuaLClosure>,
    pub cclosures: Arena<LuaCClosure>,
    pub protos: Arena<LuaProto>,
    pub upvals: Arena<UpVal>,
    pub threads: Arena<LuaThread>,
    pub bootstrap: bool,
    pub closed: bool,
}

impl Heap {
    /// Every object is live and exempt from collection.
    pub open spec fn all_exempt(self) -> bool {
        &&& self.strings.all_exempt() && self.tables.all_exempt() && self.userdata.all_exempt()
        &&& self.lclosures.all_exempt() && self.cclosures.all_exempt() && self.protos.all_exempt()
        &&& self.upvals.all_exempt() && self.threads.all_exempt()
    }

    /// How many objects of each kind there are.
    pub open spec fn sizes(self) -> Sizes {
        Sizes {
            strings: self.strings.items@.len(),
            tables: self.tables.items@.len(),
            userdata: self.userdata.items@.len(),
            lclosures: self.lclosures.items@.len(),
            cclosures: self.cclosures.items@.len(),
            protos: self.protos.items@.len(),
            upvals: self.upvals.items@.len(),
            threads: self.threads.items@.len(),
        }
    }

    /// The string objects.
    pub open spec fn strs(self) -> Seq<LuaString> {
        self.strings.items@
    }

    /// Whether a value refers to nothing that does not exist.
    pub open spec fn ok(self, v: LuaValue) -> bool {
        self.sizes().ok(v)
    }

    /// Every object is well formed and refers only to objects that exist.
    pub open spec fn wf(self) -> bool {
        let z = self.sizes();
        &&& self.strings.wf() && self.tables.wf() && self.userdata.wf() && self.lclosures.wf()
        &&& self.cclosures.wf() && self.protos.wf() && self.upvals.wf() && self.threads.wf()
        &&& forall|i: int| 0 <= i < self.strs().len() ==> (#[trigger] self.strs()[i]).wf()
        &&& forall|i: int|
            #![trigger self.tables.items@[i]]
            0 <= i < z.tables ==> self.tables.items@[i].wf(self.strs()) && z.ok_tab(self.tables.items@[i])
        &&& forall|i: int| 0 <= i < z.userdata ==> z.ok_userdata(#[trigger] self.userdata.items@[i])
        &&& forall|i: int| 0 <= i < z.lclosures ==> z.ok_lclosure(#[trigger] self.lclosures.items@[i])
        &&& forall|i: int| 0 <= i < z.cclosures ==> z.ok_all((#[trigger] self.cclosures.items@[i]).upvalues@)
        &&& forall|i: int| 0 <= i < z.protos ==> z.ok_proto(#[trigger] self.protos.items@[i])
        &&& forall|i: int| 0 <= i < z.upvals ==> z.ok_upval(#[trigger] self.upvals.items@[i])
        &&& caches_ok(self.protos.items@, self.lclosures.items@)
    }

    /// The value under a key of a table.
    pub open spec fn tget(self, t: TableId, k: LuaValue) -> LuaValue {
        self.tables.items@[t.0 as int].value_at(self.strs(), k)
    }

    /// The metatable of a table.
    pub open spec fn tmeta(self, t: TableId) -> Option<TableId> {
        self.tables.items@[t.0 as int].metatable
    }

    /// The bytes of a string.
    pub open spec fn bytes(self, s: StrId) -> Seq<u8> {
        self.strs()[s.0 as int]@
    }

    /// A store without objects.
    pub fn new() -> (h: Heap)
        ensures
            h.wf(),
            h.sizes() == (Sizes {
                strings: 0,
                tables: 0,
                userdata: 0,
                lclosures: 0,
                cclosures: 0,
                protos: 0,
                upvals: 0,
                threads: 0,
            }),
            !h.bootstrap,
            !h.closed,
    {
        Heap {
            strings: Arena::new(),
            tables: Arena::new(),
            userdata: Arena::new(),
            lclosures: Arena::new(),
            cclosures: Arena::new(),
            protos: Arena::new(),
            upvals: Arena::new(),
            threads: Arena::new(),
            bootstrap: false,
            closed: false,
        }
    }

    /// The value under a key of a table.
    pub fn get(&self, t: TableId, k: &LuaValue) -> (v: LuaValue)
        requires
            self.wf(),
            t.0 < self.tables.items@.len(),
            self.ok(*k),
        ensures
            v == self.tget(t, *k),
            self.ok(v),
    {
        proof {
            lemma_lookup_ok(self.sizes(), self.tables.items@[t.0 as int], self.strs(), *k);
        }
        self.tables.items[t.0].get(&self.strings.items, k)
    }
}

/// What a table gives back exists.
pub proof fn lemma_lookup_ok(z: Sizes, t: LuaTable, strs: Seq<LuaString>, k: LuaValue)
    requires
        z.ok_tab(t),
    ensures
        z.ok(t.value_at(strs, k)),
{
    crate::table::lemma_find_from(strs, t.entries@, norm_key(k), 0);
}

/// Whether the strings of one store go on from those of another.
pub open spec fn extends(a: Seq<LuaString>, b: Seq<LuaString>) -> bool {
    a.len() <= b.len() && forall|i: int| 0 <= i < a.len() ==> #[trigger] a[i] == b[i]
}

/// New strings change no lookup.
pub proof fn lemma_find_grow(a: Seq<LuaString>, b: Seq<LuaString>, es: Seq<TableEntry>, k: LuaValue, i: int)
    requires
        extends(a, b),
        names_str(a, k),
        forall|j: int| 0 <= j < es.len() ==> names_str(a, (#[trigger] es[j]).key),
        0 <= i,
    ensures
        find_from(a, es, k, i) == find_from(b, es, k, i),
    decreases es.len() - i,
{
    if i < es.len() {
        assert(names_str(a, es[i].key));
        assert(same_key(a, es[i].key, k) == same_key(b, es[i].key, k));
        lemma_find_grow(a, b, es, k, i + 1);
    }
}

/// New strings leave tables as they are.
pub proof fn lemma_table_grow(a: Seq<LuaString>, b: Seq<LuaString>, es: Seq<TableEntry>)
    requires
        extends(a, b),
        entries_wf(a, es),
    ensures
        entries_wf(b, es),
        forall|k: LuaValue| names_str(a, k) ==> #[trigger] lookup(a, es, k) == lookup(b, es, k),
{
    assert forall|i: int, j: int| 0 <= i < j < es.len() implies !same_key(
        b,
        (#[trigger] es[i]).key,
        (#[trigger] es[j]).key,
    ) by {
        assert(!same_key(a, es[i].key, es[j].key));
        assert(names_str(a, es[i].key) && names_str(a, es[j].key));
    }
    assert forall|k: LuaValue| names_str(a, k) implies #[trigger] lookup(a, es, k) == lookup(b, es, k) by {
        lemma_find_grow(a, b, es, norm_key(k), 0);
    }
}

/// Whether a sequence goes on from another.
pub open spec fn kept<T>(a: Seq<T>, b: Seq<T>) -> bool {
    a.len() <= b.len() && forall|i: int| 0 <= i < a.len() ==> #[trigger] b[i] == a[i]
}

/// Whether a closure that a prototype remembers is a closure of that prototype.
pub open spec fn caches_ok(ps: Seq<LuaProto>, cs: Seq<LuaLClosure>) -> bool {
    forall|i: int|
        #![trigger ps[i]]
        0 <= i < ps.len() ==> (ps[i].cache matches Some(c) ==> cs[c.0 as int].proto.0 == i)
}

/// How the marks of objects go on when objects are added: old ones stay as they are, and new
/// ones are live and exempt from collection as `fixed` says.
pub open spec fn marks_grown<T>(a: Arena<T>, b: Arena<T>, fixed: bool) -> bool {
    &&& forall|i: int|
        #![trigger b.live@[i]]
        0 <= i < a.items@.len() ==> b.live@[i] == a.live@[i] && b.fixed@[i] == a.fixed@[i]
    &&& forall|i: int|
        #![trigger b.live@[i]]
        a.items@.len() <= i < b.items@.len() ==> b.live@[i] && b.fixed@[i] == fixed
}

/// Adding objects twice is adding objects.
pub proof fn lemma_marks_trans<T>(a: Arena<T>, b: Arena<T>, c: Arena<T>, fixed: bool)
    requires
        marks_grown(a, b, fixed),
        marks_grown(b, c, fixed),
        a.items@.len() <= b.items@.len() <= c.items@.len(),
    ensures
        marks_grown(a, c, fixed),
{
    assert forall|i: int| #![trigger c.live@[i]] 0 <= i < a.items@.len() implies c.live@[i] == a.live@[i]
        && c.fixed@[i] == a.fixed@[i] by {
        assert(b.live@[i] == a.live@[i]);
        assert(c.live@[i] == b.live@[i]);
    }
    assert forall|i: int| #![trigger c.live@[i]] a.items@.len() <= i < c.items@.len() implies c.live@[i]
        && c.fixed@[i] == fixed by {
        if i < b.items@.len() {
            assert(b.live@[i]);
            assert(c.live@[i] == b.live@[i]);
        } else {
            assert(c.live@[i]);
        }
    }
}

/// Whether every object of one store is in another, unchanged.
pub open spec fn heap_extends(a: Heap, b: Heap) -> bool {
    &&& kept(a.strings.items@, b.strings.items@)
    &&& kept(a.tables.items@, b.tables.items@)
    &&& kept(a.userdata.items@, b.userdata.items@)
    &&& kept(a.lclosures.items@, b.lclosures.items@)
    &&& kept(a.cclosures.items@, b.cclosures.items@)
    &&& kept(a.protos.items@, b.protos.items@)
    &&& kept(a.upvals.items@, b.upvals.items@)
    &&& kept(a.threads.items@, b.threads.items@)
}

/// Growing a store twice is growing it.
pub proof fn lemma_extends_trans(a: Heap, b: Heap, c: Heap)
    requires
        heap_extends(a, b),
        heap_extends(b, c),
    ensures
        heap_extends(a, c),
        a.sizes().le(c.sizes()),
{
}

/// What a store holds is held by every store that goes on from it.
pub proof fn lemma_heap_extends(a: Heap, b: Heap)
    requires
        a.wf(),
        heap_extends(a, b),
    ensures
        a.sizes().le(b.sizes()),
        forall|v: LuaValue| a.ok(v) ==> #[trigger] b.ok(v),
        forall|t: TableId, k: LuaValue|
            t.0 < a.tables.items@.len() && a.ok(k) ==> #[trigger] b.tget(t, k) == a.tget(t, k),
        forall|t: TableId| t.0 < a.tables.items@.len() ==> #[trigger] b.tmeta(t) == a.tmeta(t),
        forall|x: StrId| x.0 < a.strs().len() ==> #[trigger] b.bytes(x) == a.bytes(x),
{
    assert forall|t: TableId, k: LuaValue| t.0 < a.tables.items@.len() && a.ok(k) implies #[trigger] b.tget(
        t,
        k,
    ) == a.tget(t, k) by {
        let tab = a.tables.items@[t.0 as int];
        assert(tab.wf(a.strs()));
        assert(b.tables.items@[t.0 as int] == tab);
        lemma_table_grow(a.strs(), b.strs(), tab.entries@);
    }
}

/// What exists goes on existing when the store grows.
proof fn lemma_sizes_grow(z: Sizes, w: Sizes)
    requires
        z.le(w),
    ensures
        forall|v: LuaValue| z.ok(v) ==> #[trigger] w.ok(v),
        forall|t: LuaTable| z.ok_tab(t) ==> #[trigger] w.ok_tab(t),
        forall|u: LuaUserData| z.ok_userdata(u) ==> #[trigger] w.ok_userdata(u),
        forall|p: LuaProto| z.ok_proto(p) ==> #[trigger] w.ok_proto(p),
        forall|c: LuaLClosure| z.ok_lclosure(c) ==> #[trigger] w.ok_lclosure(c),
        forall|u: UpVal| z.ok_upval(u) ==> #[trigger] w.ok_upval(u),
        forall|vs: Seq<LuaValue>| z.ok_all(vs) ==> #[trigger] w.ok_all(vs),
{
    assert forall|t: LuaTable| z.ok_tab(t) implies #[trigger] w.ok_tab(t) by {
        assert forall|i: int| 0 <= i < t.entries@.len() implies w.ok((#[trigger] t.entries@[i]).key) && w.ok(
            t.entries@[i].value,
        ) by {
            assert(z.ok(t.entries@[i].key) && z.ok(t.entries@[i].value));
        }
    }
    assert forall|vs: Seq<LuaValue>| z.ok_all(vs) implies #[trigger] w.ok_all(vs) by {
        assert forall|i: int| 0 <= i < vs.len() implies w.ok(#[trigger] vs[i]) by {
            assert(z.ok(vs[i]));
        }
    }
}

/// A store that goes on from a well-formed one is well formed if its new objects
/// are.
pub proof fn lemma_wf_grow(a: Heap, b: Heap)
    requires
        a.wf(),
        heap_extends(a, b),
        b.strings.wf() && b.tables.wf() && b.userdata.wf() && b.lclosures.wf(),
        b.cclosures.wf() && b.protos.wf() && b.upvals.wf() && b.threads.wf(),
        forall|i: int| a.strs().len() <= i < b.strs().len() ==> (#[trigger] b.strs()[i]).wf(),
        forall|i: int|
            #![trigger b.tables.items@[i]]
            a.tables.items@.len() <= i < b.tables.items@.len() ==> b.tables.items@[i].wf(b.strs())
                && b.sizes().ok_tab(b.tables.items@[i]),
        forall|i: int|
            a.userdata.items@.len() <= i < b.userdata.items@.len() ==> b.sizes().ok_userdata(
                #[trigger] b.userdata.items@[i],
            ),
        forall|i: int|
            a.lclosures.items@.len() <= i < b.lclosures.items@.len() ==> b.sizes().ok_lclosure(
                #[trigger] b.lclosures.items@[i],
            ),
        forall|i: int|
            a.cclosures.items@.len() <= i < b.cclosures.items@.len() ==> b.sizes().ok_all(
                (#[trigger] b.cclosures.items@[i]).upvalues@,
            ),
        forall|i: int|
            a.protos.items@.len() <= i < b.protos.items@.len() ==> b.sizes().ok_proto(
                #[trigger] b.protos.items@[i],
            ) && b.protos.items@[i].cache is None,
        forall|i: int|
            a.upvals.items@.len() <= i < b.upvals.items@.len() ==> b.sizes().ok_upval(
                #[trigger] b.upvals.items@[i],
            ),
    ensures
        b.wf(),
{
    let z = a.sizes();
    let w = b.sizes();
    lemma_sizes_grow(z, w);
    assert(caches_ok(b.protos.items@, b.lclosures.items@)) by {
        assert forall|i: int| #![trigger b.protos.items@[i]] 0 <= i < b.protos.items@.len() implies (
        b.protos.items@[i].cache matches Some(c) ==> b.lclosures.items@[c.0 as int].proto.0 == i) by {
            if i < a.protos.items@.len() {
                assert(b.protos.items@[i] == a.protos.items@[i]);
                assert(z.ok_proto(a.protos.items@[i]));
                if let Some(c) = a.protos.items@[i].cache {
                    assert(b.lclosures.items@[c.0 as int] == a.lclosures.items@[c.0 as int]);
                }
            }
        }
    }
    assert forall|i: int| 0 <= i < b.strs().len() implies (#[trigger] b.strs()[i]).wf() by {
        if i < a.strs().len() {
            assert(a.strs()[i].wf());
        }
    }
    assert forall|i: int| 0 <= i < w.tables implies (#[trigger] b.tables.items@[i]).wf(b.strs()) && w.ok_tab(
        b.tables.items@[i],
    ) by {
        if i < z.tables {
            let t = a.tables.items@[i];
            assert(t.wf(a.strs()) && z.ok_tab(t));
            lemma_table_grow(a.strs(), b.strs(), t.entries@);
        }
    }
    assert forall|i: int| 0 <= i < w.userdata implies w.ok_userdata(#[trigger] b.userdata.items@[i]) by {
        if i < z.userdata {
            assert(z.ok_userdata(a.userdata.items@[i]));
        }
    }
    assert forall|i: int| 0 <= i < w.lclosures implies w.ok_lclosure(#[trigger] b.lclosures.items@[i]) by {
        if i < z.lclosures {
            assert(z.ok_lclosure(a.lclosures.items@[i]));
        }
    }
    assert forall|i: int| 0 <= i < w.cclosures implies w.ok_all(
        (#[trigger] b.cclosures.items@[i]).upvalues@,
    ) by {
        if i < z.cclosures {
            assert(z.ok_all(a.cclosures.items@[i].upvalues@));
        }
    }
    assert forall|i: int| 0 <= i < w.protos implies w.ok_proto(#[trigger] b.protos.items@[i]) by {
        if i < z.protos {
            assert(z.ok_proto(a.protos.items@[i]));
        }
    }
    assert forall|i: int| 0 <= i < w.upvals implies w.ok_upval(#[trigger] b.upvals.items@[i]) by {
        if i < z.upvals {
            assert(z.ok_upval(a.upvals.items@[i]));
        }
    }
}

impl Heap {
    /// Adds a string to the store.
    pub fn new_string(&mut self, item: LuaString) -> (r: StrId)
        requires
            old(self).wf(),
            item.wf(),
        ensures
            final(self).wf(),
            heap_extends(*old(self), *final(self)),
            r.0 == old(self).strings.items@.len(),
            final(self).strings.items@ == old(self).strings.items@.push(item),
            final(self).strings.live@ == old(self).strings.live@.push(true),
            final(self).strings.fixed@ == old(self).strings.fixed@.push(old(self).bootstrap),
            final(self).tables == old(self).tables,
            final(self).userdata == old(self).userdata,
            final(self).lclosures == old(self).lclosures,
            final(self).cclosures == old(self).cclosures,
            final(self).protos == old(self).protos,
            final(self).upvals == old(self).upvals,
            final(self).threads == old(self).threads,
            final(self).bootstrap == old(self).bootstrap,
            final(self).closed == old(self).closed,
    {
        let ghost before = *self;
        let i: usize = self.strings.store(item, self.bootstrap);
        proof {
            lemma_sizes_grow(before.sizes(), self.sizes());
            lemma_wf_grow(before, *self);
        }
        StrId(i)
    }

    /// Adds a table to the store.
    pub fn new_table(&mut self, item: LuaTable) -> (r: TableId)
        requires
            old(self).wf(),
            item.wf(old(self).strs()),
            old(self).sizes().ok_tab(item),
        ensures
            final(self).wf(),
            heap_extends(*old(self), *final(self)),
            r.0 == old(self).tables.items@.len(),
            final(self).tables.items@ == old(self).tables.items@.push(item),
            final(self).tables.live@ == old(self).tables.live@.push(true),
            final(self).tables.fixed@ == old(self).tables.fixed@.push(old(self).bootstrap),
            final(self).strings == old(self).strings,
            final(self).userdata == old(self).userdata,
            final(self).lclosures == old(self).lclosures,
            final(self).cclosures == old(self).cclosures,
            final(self).protos == old(self).protos,
            final(self).upvals == old(self).upvals,
            final(self).threads == old(self).threads,
            final(self).bootstrap == old(self).bootstrap,
            final(self).closed == old(self).closed,
    {
        let ghost before = *self;
        let i: usize = self.tables.store(item, self.bootstrap);
        proof {
            lemma_sizes_grow(before.sizes(), self.sizes());
            lemma_wf_grow(before, *self);
        }
        TableId(i)
    }

    /// Adds a userdata to the store.
    pub fn new_userdata_obj(&mut self, item: LuaUserData) -> (r: UserDataId)
        requires
            old(self).wf(),
            old(self).sizes().ok_userdata(item),
        ensures
            final(self).wf(),
            heap_extends(*old(self), *final(self)),
            r.0 == old(self).userdata.items@.len(),
            final(self).userdata.items@ == old(self).userdata.items@.push(item),
            final(self).userdata.live@ == old(self).userdata.live@.push(true),
            final(self).userdata.fixed@ == old(self).userdata.fixed@.push(old(self).bootstrap),
            final(self).strings == old(self).strings,
            final(self).tables == old(self).tables,
            final(self).lclosures == old(self).lclosures,
            final(self).cclosures == old(self).cclosures,
            final(self).protos == old(self).protos,
            final(self).upvals == old(self).upvals,
            final(self).threads == old(self).threads,
            final(self).bootstrap == old(self).bootstrap,
            final(self).closed == old(self).closed,
    {
        let ghost before = *self;
        let i: usize = self.userdata.store(item, self.bootstrap);
        proof {
            lemma_sizes_grow(before.sizes(), self.sizes());
            lemma_wf_grow(before, *self);
        }
        UserDataId(i)
    }

    /// Adds a Lua closure to the store.
    pub fn new_lclosure(&mut self, item: LuaLClosure) -> (r: LClosureId)
        requires
            old(self).wf(),
            old(self).sizes().ok_lclosure(item),
        ensures
            final(self).wf(),
            heap_extends(*old(self), *final(self)),
            r.0 == old(self).lclosures.items@.len(),
            final(self).lclosures.items@ == old(self).lclosures.items@.push(item),
            final(self).lclosures.live@ == old(self).lclosures.live@.push(true),
            final(self).lclosures.fixed@ == old(self).lclosures.fixed@.push(old(self).bootstrap),
            final(self).strings == old(self).strings,
            final(self).tables == old(self).tables,
            final(self).userdata == old(self).userdata,
            final(self).cclosures == old(self).cclosures,
            final(self).protos == old(self).protos,
            final(self).upvals == old(self).upvals,
            final(self).threads == old(self).threads,
            final(self).bootstrap == old(self).bootstrap,
            final(self).closed == old(self).closed,
    {
        let ghost before = *self;
        let i: usize = self.lclosures.store(item, self.bootstrap);
        proof {
            lemma_sizes_grow(before.sizes(), self.sizes());
            lemma_wf_grow(before, *self);
        }
        LClosureId(i)
    }

    /// Adds a native closure to the store.
    pub fn new_cclosure(&mut self, item: LuaCClosure) -> (r: CClosureId)
        requires
            old(self).wf(),
            old(self).sizes().ok_all(item.upvalues@),
        ensures
            final(self).wf(),
            heap_extends(*old(self), *final(self)),
            r.0 == old(self).cclosures.items@.len(),
            final(self).cclosures.items@ == old(self).cclosures.items@.push(item),
            final(self).cclosures.live@ == old(self).cclosures.live@.push(true),
            final(self).cclosures.fixed@ == old(self).cclosures.fixed@.push(old(self).bootstrap),
            final(self).strings == old(self).strings,
            final(self).tables == old(self).tables,
            final(self).userdata == old(self).userdata,
            final(self).lclosures == old(self).lclosures,
            final(self).protos == old(self).protos,
            final(self).upvals == old(self).upvals,
            final(self).threads == old(self).threads,
            final(self).bootstrap == old(self).bootstrap,
            final(self).closed == old(self).closed,
    {
        let ghost before = *self;
        let i: usize = self.cclosures.store(item, self.bootstrap);
        proof {
            lemma_sizes_grow(before.sizes(), self.sizes());
            lemma_wf_grow(before, *self);
        }
        CClosureId(i)
    }

    /// Adds a prototype to the store.
    pub fn new_proto(&mut self, item: LuaProto) -> (r: ProtoId)
        requires
            old(self).wf(),
            old(self).sizes().ok_proto(item),
            item.cache is None,
        ensures
            final(self).wf(),
            heap_extends(*old(self), *final(self)),
            r.0 == old(self).protos.items@.len(),
            final(self).protos.items@ == old(self).protos.items@.push(item),
            final(self).protos.live@ == old(self).protos.live@.push(true),
            final(self).protos.fixed@ == old(self).protos.fixed@.push(old(self).bootstrap),
            final(self).strings == old(self).strings,
            final(self).tables == old(self).tables,
            final(self).userdata == old(self).userdata,
            final(self).lclosures == old(self).lclosures,
            final(self).cclosures == old(self).cclosures,
            final(self).upvals == old(self).upvals,
            final(self).threads == old(self).threads,
            final(self).bootstrap == old(self).bootstrap,
            final(self).closed == old(self).closed,
    {
        let ghost before = *self;
        let i: usize = self.protos.store(item, self.bootstrap);
        proof {
            lemma_sizes_grow(before.sizes(), self.sizes());
            lemma_wf_grow(before, *self);
        }
        ProtoId(i)
    }

    /// Adds a captured variable to the store.
    pub fn new_upval(&mut self, item: UpVal) -> (r: UpValId)
        requires
            old(self).wf(),
            old(self).sizes().ok_upval(item),
        ensures
            final(self).wf(),
            heap_extends(*old(self), *final(self)),
            r.0 == old(self).upvals.items@.len(),
            final(self).upvals.items@ == old(self).upvals.items@.push(item),
            final(self).upvals.live@ == old(self).upvals.live@.push(true),
            final(self).upvals.fixed@ == old(self).upvals.fixed@.push(old(self).bootstrap),
            final(self).strings == old(self).strings,
            final(self).tables == old(self).tables,
            final(self).userdata == old(self).userdata,
            final(self).lclosures == old(self).lclosures,
            final(self).cclosures == old(self).cclosures,
            final(self).protos == old(self).protos,
            final(self).threads == old(self).threads,
            final(self).bootstrap == old(self).bootstrap,
            final(self).closed == old(self).closed,
    {
        let ghost before = *self;
        let i: usize = self.upvals.store(item, self.bootstrap);
        proof {
            lemma_sizes_grow(before.sizes(), self.sizes());
            lemma_wf_grow(before, *self);
        }
        UpValId(i)
    }

    /// Adds a thread handle to the store.
    pub fn new_thread(&mut self, item: LuaThread) -> (r: ThreadRef)
        requires
            old(self).wf(),
        ensures
            final(self).wf(),
            heap_extends(*old(self), *final(self)),
            r.0 == old(self).threads.items@.len(),
            final(self).threads.items@ == old(self).threads.items@.push(item),
            final(self).threads.live@ == old(self).threads.live@.push(true),
            final(self).threads.fixed@ == old(self).threads.fixed@.push(old(self).bootstrap),
            final(self).strings == old(self).strings,
            final(self).tables == old(self).tables,
            final(self).userdata == old(self).userdata,
            final(self).lclosures == old(self).lclosures,
            final(self).cclosures == old(self).cclosures,
            final(self).protos == old(self).protos,
            final(self).upvals == old(self).upvals,
            final(self).bootstrap == old(self).bootstrap,
            final(self).closed == old(self).closed,
    {
        let ghost before = *self;
        let i: usize = self.threads.store(item, self.bootstrap);
        proof {
            lemma_sizes_grow(before.sizes(), self.sizes());
            lemma_wf_grow(before, *self);
        }
        ThreadRef(i)
    }

}

} // verus!
