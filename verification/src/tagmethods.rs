//! Metamethods: finding them, and deciding what to call.

use vstd::prelude::*;
use vstd::string::StringSliceAdditionalSpecFns;
use crate::compare::raw_eq;
use crate::compare::raw_equal;
use crate::global::GlobalState;
use crate::global::intern_grown;
use crate::global::lemma_intern_grown_trans;
use crate::heap::Heap;
use crate::heap::heap_extends;
use crate::heap::lemma_extends_trans;
use crate::heap::lemma_marks_trans;
use crate::heap::marks_grown;
use crate::string::LuaString;
use crate::string::bytes_eq;
use crate::table::TableEntry;
use crate::value::LuaType;
use crate::value::LuaTypeExt;
use crate::value::LuaValue;
use crate::value::StrId;
use crate::value::TableId;
use crate::value::bytes_of;

verus! {

/// The number of events.
pub const TM_N: usize = 25;

/// An event, in the order of [`GlobalState::tmname`], and one that is none.
#[derive(Debug, Clone, Copy, PartialEq, Eq, Structural)]
pub enum TagMethod {
    Index,
    NewIndex,
    Gc,
    Mode,
    Len,
    Eq,
    Add,
    Sub,
    Mul,
    Mod,
    Pow,
    Div,
    IDiv,
    BAnd,
    BOr,
    BXor,
    Shl,
    Shr,
    Unm,
    BNot,
    Lt,
    Le,
    Concat,
    Call,
    Close,
    N,
}

impl TagMethod {
    /// The number of an event.
    pub open spec fn spec_index(self) -> int {
        match self {
            TagMethod::Index => 0,
            TagMethod::NewIndex => 1,
            TagMethod::Gc => 2,
            TagMethod::Mode => 3,
            TagMethod::Len => 4,
            TagMethod::Eq => 5,
            TagMethod::Add => 6,
            TagMethod::Sub => 7,
            TagMethod::Mul => 8,
            TagMethod::Mod => 9,
            TagMethod::Pow => 10,
            TagMethod::Div => 11,
            TagMethod::IDiv => 12,
            TagMethod::BAnd => 13,
            TagMethod::BOr => 14,
            TagMethod::BXor => 15,
            TagMethod::Shl => 16,
            TagMethod::Shr => 17,
            TagMethod::Unm => 18,
            TagMethod::BNot => 19,
            TagMethod::Lt => 20,
            TagMethod::Le => 21,
            TagMethod::Concat => 22,
            TagMethod::Call => 23,
            TagMethod::Close => 24,
            TagMethod::N => 25,
        }
    }

    /// The event with a number; [`TagMethod::N`] for a number that no event has.
    pub fn from_u8(v: u8) -> (r: TagMethod)
        ensures
            v < 25 ==> r.spec_index() == v,
            v >= 25 ==> r == TagMethod::N,
    {
        match v {
            0 => TagMethod::Index,
            1 => TagMethod::NewIndex,
            2 => TagMethod::Gc,
            3 => TagMethod::Mode,
            4 => TagMethod::Len,
            5 => TagMethod::Eq,
            6 => TagMethod::Add,
            7 => TagMethod::Sub,
            8 => TagMethod::Mul,
            9 => TagMethod::Mod,
            10 => TagMethod::Pow,
            11 => TagMethod::Div,
            12 => TagMethod::IDiv,
            13 => TagMethod::BAnd,
            14 => TagMethod::BOr,
            15 => TagMethod::BXor,
            16 => TagMethod::Shl,
            17 => TagMethod::Shr,
            18 => TagMethod::Unm,
            19 => TagMethod::BNot,
            20 => TagMethod::Lt,
            21 => TagMethod::Le,
            22 => TagMethod::Concat,
            23 => TagMethod::Call,
            24 => TagMethod::Close,
            _ => TagMethod::N,
        }
    }
}

/// The event with a number; [`TagMethod::Index`] for a number that no event has.
pub fn tagmethod_from_index(i: usize) -> (r: TagMethod)
    ensures
        i < 25 ==> r.spec_index() == i,
        i >= 25 ==> r == TagMethod::Index,
{
    if i < 25 {
        TagMethod::from_u8(i as u8)
    } else {
        TagMethod::Index
    }
}

/// What names an event by its number.
pub trait TmIndex: Copy {
    /// The number.
    spec fn spec_tm_index(self) -> int;

    /// The number.
    fn tm_index(self) -> (r: usize)
        ensures
            r == self.spec_tm_index(),
    ;
}

impl TmIndex for TagMethod {
    open spec fn spec_tm_index(self) -> int {
        self.spec_index()
    }

    fn tm_index(self) -> (r: usize) {
        match self {
            TagMethod::Index => 0,
            TagMethod::NewIndex => 1,
            TagMethod::Gc => 2,
            TagMethod::Mode => 3,
            TagMethod::Len => 4,
            TagMethod::Eq => 5,
            TagMethod::Add => 6,
            TagMethod::Sub => 7,
            TagMethod::Mul => 8,
            TagMethod::Mod => 9,
            TagMethod::Pow => 10,
            TagMethod::Div => 11,
            TagMethod::IDiv => 12,
            TagMethod::BAnd => 13,
            TagMethod::BOr => 14,
            TagMethod::BXor => 15,
            TagMethod::Shl => 16,
            TagMethod::Shr => 17,
            TagMethod::Unm => 18,
            TagMethod::BNot => 19,
            TagMethod::Lt => 20,
            TagMethod::Le => 21,
            TagMethod::Concat => 22,
            TagMethod::Call => 23,
            TagMethod::Close => 24,
            TagMethod::N => 25,
        }
    }
}

impl TmIndex for usize {
    open spec fn spec_tm_index(self) -> int {
        self as int
    }

    fn tm_index(self) -> (r: usize) {
        self
    }
}

impl TmIndex for u8 {
    open spec fn spec_tm_index(self) -> int {
        self as int
    }

    fn tm_index(self) -> (r: usize) {
        self as usize
    }
}

/// No two events have the same number, so that a number names its event.
pub proof fn law_event_numbers(a: TagMethod, b: TagMethod)
    ensures
        a.spec_index() == b.spec_index() ==> a == b,
        0 <= a.spec_index() <= 25,
{
}

/// The name of the event with a number.
pub open spec fn event_name_bytes(i: int) -> Seq<u8> {
    if i == 0 {
        "__index".spec_bytes()
    } else if i == 1 {
        "__newindex".spec_bytes()
    } else if i == 2 {
        "__gc".spec_bytes()
    } else if i == 3 {
        "__mode".spec_bytes()
    } else if i == 4 {
        "__len".spec_bytes()
    } else if i == 5 {
        "__eq".spec_bytes()
    } else if i == 6 {
        "__add".spec_bytes()
    } else if i == 7 {
        "__sub".spec_bytes()
    } else if i == 8 {
        "__mul".spec_bytes()
    } else if i == 9 {
        "__mod".spec_bytes()
    } else if i == 10 {
        "__pow".spec_bytes()
    } else if i == 11 {
        "__div".spec_bytes()
    } else if i == 12 {
        "__idiv".spec_bytes()
    } else if i == 13 {
        "__band".spec_bytes()
    } else if i == 14 {
        "__bor".spec_bytes()
    } else if i == 15 {
        "__bxor".spec_bytes()
    } else if i == 16 {
        "__shl".spec_bytes()
    } else if i == 17 {
        "__shr".spec_bytes()
    } else if i == 18 {
        "__unm".spec_bytes()
    } else if i == 19 {
        "__bnot".spec_bytes()
    } else if i == 20 {
        "__lt".spec_bytes()
    } else if i == 21 {
        "__le".spec_bytes()
    } else if i == 22 {
        "__concat".spec_bytes()
    } else if i == 23 {
        "__call".spec_bytes()
    } else {
        "__close".spec_bytes()
    }
}

fn event_name(i: usize) -> (r: &'static str)
    requires
        i < 25,
    ensures
        r.spec_bytes() == event_name_bytes(i as int),
{
    match i {
        0 => "__index",
        1 => "__newindex",
        2 => "__gc",
        3 => "__mode",
        4 => "__len",
        5 => "__eq",
        6 => "__add",
        7 => "__sub",
        8 => "__mul",
        9 => "__mod",
        10 => "__pow",
        11 => "__div",
        12 => "__idiv",
        13 => "__band",
        14 => "__bor",
        15 => "__bxor",
        16 => "__shl",
        17 => "__shr",
        18 => "__unm",
        19 => "__bnot",
        20 => "__lt",
        21 => "__le",
        22 => "__concat",
        23 => "__call",
        _ => "__close",
    }
}

impl GlobalState {
    /// Whether the names of the events are known.
    pub open spec fn tm_ready(self) -> bool {
        &&& self.tmname@.len() == TM_N
        &&& forall|i: int|
            0 <= i < TM_N ==> self.heap.bytes(#[trigger] self.tmname@[i]) == event_name_bytes(i)
    }

    /// The name of an event, where the names are known.
    pub fn tm_name<T: TmIndex>(&self, tm: T) -> (r: Option<StrId>)
        ensures
            r == (if 0 <= tm.spec_tm_index() < self.tmname@.len() {
                Some(self.tmname@[tm.spec_tm_index()])
            } else {
                None
            }),
    {
        let i: usize = tm.tm_index();
        if i < self.tmname.len() {
            Some(self.tmname[i])
        } else {
            None
        }
    }
}

/// Interns the names of the events.
pub fn init(g: &mut GlobalState)
    requires
        old(g).wf(),
    ensures
        final(g).wf(),
        final(g).tm_ready(),
        heap_extends(old(g).heap, final(g).heap),
        final(g).heap == (Heap { strings: final(g).heap.strings, ..old(g).heap }),
        marks_grown(old(g).heap.strings, final(g).heap.strings, old(g).heap.bootstrap),
        intern_grown(*old(g), *final(g)),
        old(g).interned_lt.count + TM_N <= old(g).interned_lt.buckets@.len() ==> {
            &&& final(g).interned_lt.buckets@.len() == old(g).interned_lt.buckets@.len()
            &&& final(g).interned_lt.count <= old(g).interned_lt.count + TM_N
        },
        *final(g) == (GlobalState {
            heap: final(g).heap,
            interned_lt: final(g).interned_lt,
            tmname: final(g).tmname,
            ..*old(g)
        }),
        forall|i: int| 0 <= i < TM_N ==> final(g).interned_lt.has(#[trigger] final(g).tmname@[i]),
        forall|s: StrId| old(g).interned_lt.has(s) ==> #[trigger] final(g).interned_lt.has(s),
{
    let mut names: Vec<StrId> = Vec::new();
    let mut i: usize = 0;
    while i < TM_N
        invariant
            i <= TM_N,
            g.wf(),
            heap_extends(old(g).heap, g.heap),
            g.heap == (Heap { strings: g.heap.strings, ..old(g).heap }),
            marks_grown(old(g).heap.strings, g.heap.strings, old(g).heap.bootstrap),
            intern_grown(*old(g), *g),
            old(g).interned_lt.count + TM_N <= old(g).interned_lt.buckets@.len() ==> {
                &&& g.interned_lt.buckets@.len() == old(g).interned_lt.buckets@.len()
                &&& g.interned_lt.count <= old(g).interned_lt.count + i
            },
            *g == (GlobalState { heap: g.heap, interned_lt: g.interned_lt, ..*old(g) }),
            names@.len() == i,
            forall|j: int|
                0 <= j < i ==> (#[trigger] names@[j]).0 < g.heap.strs().len() && g.heap.bytes(names@[j])
                    == event_name_bytes(j) && g.interned_lt.has(names@[j]),
            forall|s: StrId| old(g).interned_lt.has(s) ==> #[trigger] g.interned_lt.has(s),
        decreases TM_N - i,
    {
        let ghost before = *g;
        let text: &str = event_name(i);
        proof {
            lemma_event_name_short(i as int);
        }
        let (s, _) = g.intern_str(text.as_bytes());
        proof {
            lemma_extends_trans(old(g).heap, before.heap, g.heap);
            lemma_intern_grown_trans(*old(g), before, *g);
            lemma_marks_trans(old(g).heap.strings, before.heap.strings, g.heap.strings, g.heap.bootstrap);
            assert forall|j: int| 0 <= j < i implies (#[trigger] names@[j]).0 < g.heap.strs().len() && g.heap.bytes(
                names@[j],
            ) == event_name_bytes(j) && g.interned_lt.has(names@[j]) by {
                assert(before.heap.bytes(names@[j]) == event_name_bytes(j));
                assert(before.interned_lt.has(names@[j]));
                assert(before.heap.strs()[names@[j].0 as int] == g.heap.strs()[names@[j].0 as int]);
            }
        }
        names.push(s);
        i = i + 1;
    }
    g.tmname = names;
    proof {
        assert(crate::global::strs_ok(g.heap.sizes(), g.tmname@));
    }
}

proof fn lemma_event_name_short(i: int)
    ensures
        event_name_bytes(i).len() <= 40,
{
    reveal_strlit("__index");
    reveal_strlit("__newindex");
    reveal_strlit("__gc");
    reveal_strlit("__mode");
    reveal_strlit("__len");
    reveal_strlit("__eq");
    reveal_strlit("__add");
    reveal_strlit("__sub");
    reveal_strlit("__mul");
    reveal_strlit("__mod");
    reveal_strlit("__pow");
    reveal_strlit("__div");
    reveal_strlit("__idiv");
    reveal_strlit("__band");
    reveal_strlit("__bor");
    reveal_strlit("__bxor");
    reveal_strlit("__shl");
    reveal_strlit("__shr");
    reveal_strlit("__unm");
    reveal_strlit("__bnot");
    reveal_strlit("__lt");
    reveal_strlit("__le");
    reveal_strlit("__concat");
    reveal_strlit("__call");
    reveal_strlit("__close");
    vstd::string::is_ascii_spec_bytes("__index");
    vstd::string::is_ascii_spec_bytes("__newindex");
    vstd::string::is_ascii_spec_bytes("__gc");
    vstd::string::is_ascii_spec_bytes("__mode");
    vstd::string::is_ascii_spec_bytes("__len");
    vstd::string::is_ascii_spec_bytes("__eq");
    vstd::string::is_ascii_spec_bytes("__add");
    vstd::string::is_ascii_spec_bytes("__sub");
    vstd::string::is_ascii_spec_bytes("__mul");
    vstd::string::is_ascii_spec_bytes("__mod");
    vstd::string::is_ascii_spec_bytes("__pow");
    vstd::string::is_ascii_spec_bytes("__div");
    vstd::string::is_ascii_spec_bytes("__idiv");
    vstd::string::is_ascii_spec_bytes("__band");
    vstd::string::is_ascii_spec_bytes("__bor");
    vstd::string::is_ascii_spec_bytes("__bxor");
    vstd::string::is_ascii_spec_bytes("__shl");
    vstd::string::is_ascii_spec_bytes("__shr");
    vstd::string::is_ascii_spec_bytes("__unm");
    vstd::string::is_ascii_spec_bytes("__bnot");
    vstd::string::is_ascii_spec_bytes("__lt");
    vstd::string::is_ascii_spec_bytes("__le");
    vstd::string::is_ascii_spec_bytes("__concat");
    vstd::string::is_ascii_spec_bytes("__call");
    vstd::string::is_ascii_spec_bytes("__close");
}

/// The number of a value's type among those with metatables.
pub open spec fn type_index(v: LuaValue) -> int {
    match v.spec_type_tag() {
        LuaType::Boolean => 1,
        LuaType::LightUserData => 2,
        LuaType::Number => 3,
        LuaType::String => 4,
        LuaType::Table => 5,
        LuaType::Function => 6,
        LuaType::UserData => 7,
        LuaType::Thread => 8,
        _ => 0,
    }
}

/// The metatable of a value: its own for a table or a userdata, else that of its
/// type.
pub open spec fn metatable_of(g: GlobalState, v: LuaValue) -> Option<TableId> {
    match v {
        LuaValue::Table(t) => g.heap.tmeta(t),
        LuaValue::UserData(u) => g.heap.userdata.items@[u.0 as int].metatable,
        _ => g.mt@[type_index(v)],
    }
}

/// The handler of an event for a value, or `nil`.
pub open spec fn handler(g: GlobalState, v: LuaValue, event: TagMethod) -> LuaValue {
    match metatable_of(g, v) {
        Some(mt) => g.heap.tget(mt, LuaValue::Str(g.tmname@[event.spec_index()])),
        None => LuaValue::Nil,
    }
}

/// The handler of a binary event: that of the first operand, or else that of the
/// second.
pub open spec fn bin_handler(g: GlobalState, p1: LuaValue, p2: LuaValue, event: TagMethod) -> LuaValue {
    if handler(g, p1, event) != LuaValue::Nil {
        handler(g, p1, event)
    } else {
        handler(g, p2, event)
    }
}

/// The handler of a comparison in 5.1: both operands must have the same one.
pub open spec fn comp_handler_51(g: GlobalState, p1: LuaValue, p2: LuaValue, event: TagMethod) -> LuaValue {
    let tm1 = handler(g, p1, event);
    if tm1 != LuaValue::Nil && metatable_of(g, p1) is Some && metatable_of(g, p1) == metatable_of(g, p2) {
        tm1
    } else {
        let tm2 = handler(g, p2, event);
        if tm1 != LuaValue::Nil && tm2 != LuaValue::Nil && raw_eq(g.heap, tm1, tm2) {
            tm1
        } else {
            LuaValue::Nil
        }
    }
}

impl GlobalState {
    /// Whether metamethods of a value can be looked up.
    pub open spec fn can_look(self, v: LuaValue) -> bool {
        self.wf() && self.heap.ok(v) && self.tmname@.len() == TM_N
    }

    /// The metatable of a value.
    pub fn operand_metatable(&self, v: &LuaValue) -> (r: Option<TableId>)
        requires
            self.wf(),
            self.heap.ok(*v),
        ensures
            r == metatable_of(*self, *v),
            self.heap.sizes().ok_table(r),
    {
        match v {
            LuaValue::Table(t) => {
                assert(self.heap.sizes().ok_tab(self.heap.tables.items@[t.0 as int]));
                self.heap.tables.items[t.0].metatable
            },
            LuaValue::UserData(u) => {
                assert(self.heap.sizes().ok_userdata(self.heap.userdata.items@[u.0 as int]));
                self.heap.userdata.items[u.0].metatable
            },
            _ => {
                let i: usize = match v.base_type() {
                    LuaType::Boolean => 1,
                    LuaType::LightUserData => 2,
                    LuaType::Number => 3,
                    LuaType::String => 4,
                    LuaType::Table => 5,
                    LuaType::Function => 6,
                    LuaType::UserData => 7,
                    LuaType::Thread => 8,
                    _ => 0,
                };
                self.mt[i]
            },
        }
    }

    /// The handler of an event for a value, or `nil`.
    pub fn get_tm_by_obj(&self, v: &LuaValue, event: TagMethod) -> (r: LuaValue)
        requires
            self.can_look(*v),
            event != TagMethod::N,
        ensures
            r == handler(*self, *v, event),
            self.heap.ok(r),
    {
        match self.operand_metatable(v) {
            Some(mt) => {
                let name: StrId = self.tmname[event.tm_index()];
                self.heap.get(mt, &LuaValue::Str(name))
            },
            None => LuaValue::Nil,
        }
    }

    /// The handler of a binary event, or `nil`.
    pub fn get_bin_tm(&self, p1: &LuaValue, p2: &LuaValue, event: TagMethod) -> (r: LuaValue)
        requires
            self.can_look(*p1),
            self.can_look(*p2),
            event != TagMethod::N,
        ensures
            r == bin_handler(*self, *p1, *p2, event),
            self.heap.ok(r),
    {
        let tm: LuaValue = self.get_tm_by_obj(p1, event);
        if tm != LuaValue::Nil {
            tm
        } else {
            self.get_tm_by_obj(p2, event)
        }
    }

    /// The handler of a comparison in 5.1, or `nil`.
    pub fn get_comp_tm_51(&self, p1: &LuaValue, p2: &LuaValue, event: TagMethod) -> (r: LuaValue)
        requires
            self.can_look(*p1),
            self.can_look(*p2),
            event != TagMethod::N,
        ensures
            r == comp_handler_51(*self, *p1, *p2, event),
            self.heap.ok(r),
    {
        let tm1: LuaValue = self.get_tm_by_obj(p1, event);
        if tm1 == LuaValue::Nil {
            return LuaValue::Nil;
        }
        let mt1: Option<TableId> = self.operand_metatable(p1);
        let mt2: Option<TableId> = self.operand_metatable(p2);
        if mt1.is_some() && mt1 == mt2 {
            return tm1;
        }
        let tm2: LuaValue = self.get_tm_by_obj(p2, event);
        if tm2 == LuaValue::Nil {
            return LuaValue::Nil;
        }
        if raw_equal(&self.heap, &tm1, &tm2) {
            tm1
        } else {
            LuaValue::Nil
        }
    }
}

/// The first entry at or after `i` whose key is the string of these bytes, or the
/// number of entries.
pub open spec fn find_bytes(strs: Seq<LuaString>, es: Seq<TableEntry>, bytes: Seq<u8>, i: int) -> int
    decreases es.len() - i,
{
    if i >= es.len() {
        es.len() as int
    } else if es[i].key is Str && strs[es[i].key->Str_0.0 as int]@ == bytes {
        i
    } else {
        find_bytes(strs, es, bytes, i + 1)
    }
}

/// The value under the string key of these bytes.
pub open spec fn value_at_bytes(g: GlobalState, t: TableId, bytes: Seq<u8>) -> LuaValue {
    let es = g.heap.tables.items@[t.0 as int].entries@;
    let i = find_bytes(g.heap.strs(), es, bytes, 0);
    if i < es.len() {
        es[i].value
    } else {
        LuaValue::Nil
    }
}

/// The name by which messages call the type of a value: what the metafield `__name`
/// says, from 5.3 on and where it is a string, else the type's own name.
pub open spec fn shown_type(g: GlobalState, v: LuaValue) -> Seq<u8> {
    if v is LightUserData {
        "light userdata".spec_bytes()
    } else if (v is Table || v is UserData) && g.lua_version.rank() >= 3 && metatable_of(g, v) is Some
        && value_at_bytes(g, metatable_of(g, v)->0, "__name".spec_bytes()) is Str {
        g.heap.bytes(value_at_bytes(g, metatable_of(g, v)->0, "__name".spec_bytes())->Str_0)
    } else {
        vstd::utf8::encode_utf8(v.spec_type_tag().spec_typename())
    }
}

impl GlobalState {
    /// The value under the string key of these bytes.
    pub fn get_str_bytes(&self, t: TableId, bytes: &[u8]) -> (r: LuaValue)
        requires
            self.wf(),
            t.0 < self.heap.tables.items@.len(),
        ensures
            r == value_at_bytes(*self, t, bytes@),
            self.heap.ok(r),
    {
        let tab = &self.heap.tables.items[t.0];
        let mut i: usize = 0;
        assert(self.heap.sizes().ok_tab(self.heap.tables.items@[t.0 as int]));
        while i < tab.entries.len()
            invariant
                i <= tab.entries@.len(),
                self.wf(),
                *tab == self.heap.tables.items@[t.0 as int],
                self.heap.sizes().ok_tab(*tab),
                find_bytes(self.heap.strs(), tab.entries@, bytes@, 0) == find_bytes(
                    self.heap.strs(),
                    tab.entries@,
                    bytes@,
                    i as int,
                ),
            decreases tab.entries@.len() - i,
        {
            assert(self.heap.ok(tab.entries@[i as int].key) && self.heap.ok(tab.entries@[i as int].value));
            match tab.entries[i].key {
                LuaValue::Str(s) => {
                    if bytes_eq(self.heap.strings.items[s.0].bytes.as_slice(), bytes) {
                        return tab.entries[i].value;
                    }
                },
                _ => {},
            }
            i = i + 1;
        }
        LuaValue::Nil
    }

    /// The name by which messages call the type of a value.
    pub fn obj_type_name(&self, v: &LuaValue) -> (r: Vec<u8>)
        requires
            self.wf(),
            self.heap.ok(*v),
        ensures
            r@ == shown_type(*self, *v),
    {
        match v {
            LuaValue::LightUserData(_) => {
                return bytes_of("light userdata");
            },
            LuaValue::Table(_) | LuaValue::UserData(_) => {
                if self.lua_version.honors_name_metafield() {
                    if let Some(mt) = self.operand_metatable(v) {
                        let field: &str = "__name";
                        if let LuaValue::Str(s) = self.get_str_bytes(mt, field.as_bytes()) {
                            let mut out: Vec<u8> = Vec::new();
                            out.extend_from_slice(self.heap.strings.items[s.0].bytes.as_slice());
                            assert(out@ =~= self.heap.bytes(s));
                            return out;
                        }
                    }
                }
            },
            _ => {},
        }
        bytes_of(v.base_type().typename())
    }
}

} // verus!
