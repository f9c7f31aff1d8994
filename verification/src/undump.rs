//! Loading precompiled chunks.

use vstd::prelude::*;
use crate::chunk::Got;
use crate::chunk::Input;
use crate::chunk::LoadFault;
use crate::chunk::block_at;
use crate::chunk::byte_at;
use crate::chunk::fields_at;
use crate::chunk::header;
use crate::chunk::int_at;
use crate::chunk::is_load_error;
use crate::chunk::le_value;
use crate::chunk::lemma_groups;
use crate::chunk::lemma_string;
use crate::chunk::load_error;
use crate::chunk::pow256;
use crate::chunk::raw_at;
use crate::chunk::signed;
use crate::chunk::string_at;
use crate::global::GlobalState;
use crate::global::intern_grown;
use crate::global::lemma_intern_grown_trans;
use crate::global::lemma_state_grow;
use crate::heap::AbsLineInfo;
use crate::heap::Heap;
use crate::heap::LocalVar;
use crate::heap::LuaProto;
use crate::heap::LuaLClosure;
use crate::heap::UpVal;
use crate::heap::UpvalDesc;
use crate::heap::heap_extends;
use crate::heap::lemma_heap_extends;
use crate::objects::blank_proto;
use crate::opcode::Instruction;
use crate::state::LuaState;
use crate::state::stored_at;
use crate::value::LClosureId;
use crate::value::LuaClosure;
use crate::value::LuaError;
use crate::value::LuaValue;
use crate::value::LuaVersion;
use crate::value::ProtoId;
use crate::value::StrId;
use crate::value::UpValId;

verus! {

/// A constant of a function in a chunk.
pub enum Konst {
    Nil,
    Bool(bool),
    Int(i64),
    Float(u64),
    Str(Seq<u8>),
}

/// A captured variable of a function in a chunk.
pub struct Capture {
    pub instack: bool,
    pub idx: u8,
    pub kind: u8,
}

/// A local variable of a function in a chunk.
pub struct Local {
    pub name: Seq<u8>,
    pub startpc: int,
    pub endpc: int,
}

/// What a function in a chunk starts with.
pub struct Head {
    pub source: Option<Seq<u8>>,
    pub linedefined: int,
    pub lastlinedefined: int,
    pub numparams: u8,
    pub is_vararg: bool,
    pub maxstacksize: u8,
    pub code: Seq<int>,
    pub consts: Seq<Konst>,
    pub captures: Seq<Capture>,
}

/// What a function in a chunk ends with.
pub struct Debugging {
    pub lineinfo: Seq<i8>,
    pub abslines: Seq<(int, int)>,
    pub locals: Seq<Local>,
    /// The names of the captured variables, unless they are stripped.
    pub names: Option<Seq<Option<Seq<u8>>>>,
}

/// A function in a chunk, with the functions in it.
pub struct ChunkFn {
    pub head: Head,
    pub nested: Seq<ChunkFn>,
    pub debugging: Debugging,
}

/// `n` things one behind the other, after those of `acc`.
pub open spec fn many_at<T>(s: Seq<u8>, p: int, n: int, one: spec_fn(Seq<u8>, int) -> Got<T>, acc: Seq<T>) -> Got<
    Seq<T>,
>
    decreases n,
{
    if n <= 0 {
        Got::Val { v: acc, at: p }
    } else {
        match one(s, p) {
            Got::Bad(e) => Got::Bad(e),
            Got::Val { v, at } => many_at(s, at, n - 1, one, acc.push(v)),
        }
    }
}

/// A list with its length before it.
pub open spec fn list_at<T>(s: Seq<u8>, p: int, one: spec_fn(Seq<u8>, int) -> Got<T>) -> Got<Seq<T>> {
    match int_at(s, p) {
        Got::Bad(e) => Got::Bad(e),
        Got::Val { v, at } => many_at(s, at, v, one, Seq::empty()),
    }
}

/// An instruction.
pub open spec fn instr_at(big: bool) -> spec_fn(Seq<u8>, int) -> Got<int> {
    |s: Seq<u8>, p: int| raw_at(s, p, 4, big)
}

/// The signed number of the bits of a byte.
pub open spec fn signed8(b: u8) -> i8 {
    if b < 128 {
        b as i8
    } else {
        (b - 256) as i8
    }
}

/// A constant: a tag, and behind it what the tag calls for. Another tag stands for `nil`.
pub open spec fn const_of(s: Seq<u8>, p: int, big: bool) -> Got<Konst> {
    match byte_at(s, p) {
        Got::Bad(e) => Got::Bad(e),
        Got::Val { v: t, at } => if t == 0x01 {
            Got::Val { v: Konst::Bool(false), at: at }
        } else if t == 0x11 {
            Got::Val { v: Konst::Bool(true), at: at }
        } else if t == 0x13 {
            match raw_at(s, at, 8, big) {
                Got::Bad(e) => Got::Bad(e),
                Got::Val { v, at } => Got::Val { v: Konst::Float(v as u64), at: at },
            }
        } else if t == 0x03 {
            match raw_at(s, at, 8, big) {
                Got::Bad(e) => Got::Bad(e),
                Got::Val { v, at } => Got::Val { v: Konst::Int(signed(v) as i64), at: at },
            }
        } else if t == 0x04 || t == 0x14 {
            match string_at(s, at) {
                Got::Bad(e) => Got::Bad(e),
                Got::Val { v: None, at } => Got::Bad(LoadFault::NoString),
                Got::Val { v: Some(b), at } => Got::Val { v: Konst::Str(b), at: at },
            }
        } else {
            Got::Val { v: Konst::Nil, at: at }
        },
    }
}

/// A constant.
pub open spec fn const_at(big: bool) -> spec_fn(Seq<u8>, int) -> Got<Konst> {
    |s: Seq<u8>, p: int| const_of(s, p, big)
}

/// A captured variable: three bytes.
pub open spec fn capture_at() -> spec_fn(Seq<u8>, int) -> Got<Capture> {
    |s: Seq<u8>, p: int|
        if p + 3 <= s.len() && 0 <= p {
            Got::Val { v: Capture { instack: s[p] != 0, idx: s[p + 1], kind: s[p + 2] }, at: p + 3 }
        } else {
            Got::Bad(LoadFault::Truncated)
        }
}

/// A line difference.
pub open spec fn line_at() -> spec_fn(Seq<u8>, int) -> Got<i8> {
    |s: Seq<u8>, p: int|
        match byte_at(s, p) {
            Got::Bad(e) => Got::Bad(e),
            Got::Val { v, at } => Got::Val { v: signed8(v), at: at },
        }
}

/// Two numbers.
pub open spec fn pair_of(s: Seq<u8>, p: int) -> Got<(int, int)> {
    match int_at(s, p) {
        Got::Bad(e) => Got::Bad(e),
        Got::Val { v: a, at } => match int_at(s, at) {
            Got::Bad(e) => Got::Bad(e),
            Got::Val { v: b, at } => Got::Val { v: (a, b), at: at },
        },
    }
}

/// An instruction and its line.
pub open spec fn absline_at() -> spec_fn(Seq<u8>, int) -> Got<(int, int)> {
    |s: Seq<u8>, p: int| pair_of(s, p)
}

/// A local variable; one without a name has an empty one.
pub open spec fn local_of(s: Seq<u8>, p: int) -> Got<Local> {
    match string_at(s, p) {
        Got::Bad(e) => Got::Bad(e),
        Got::Val { v: name, at } => match pair_of(s, at) {
            Got::Bad(e) => Got::Bad(e),
            Got::Val { v, at } => Got::Val {
                v: Local {
                    name: match name {
                        Some(b) => b,
                        None => Seq::empty(),
                    },
                    startpc: v.0,
                    endpc: v.1,
                },
                at: at,
            },
        },
    }
}

/// A local variable.
pub open spec fn local_at() -> spec_fn(Seq<u8>, int) -> Got<Local> {
    |s: Seq<u8>, p: int| local_of(s, p)
}

/// A name.
pub open spec fn name_at() -> spec_fn(Seq<u8>, int) -> Got<Option<Seq<u8>>> {
    |s: Seq<u8>, p: int| string_at(s, p)
}

/// What a function starts with. One without a source has that of the function around it.
pub open spec fn head_at(s: Seq<u8>, p: int, big: bool, psource: Option<Seq<u8>>) -> Got<Head> {
    match string_at(s, p) {
        Got::Bad(e) => Got::Bad(e),
        Got::Val { v: source, at } => match pair_of(s, at) {
            Got::Bad(e) => Got::Bad(e),
            Got::Val { v: lines, at } => match block_at(s, at, 3) {
                Got::Bad(e) => Got::Bad(e),
                Got::Val { v: b, at } => match list_at(s, at, instr_at(big)) {
                    Got::Bad(e) => Got::Bad(e),
                    Got::Val { v: code, at } => match list_at(s, at, const_at(big)) {
                        Got::Bad(e) => Got::Bad(e),
                        Got::Val { v: consts, at } => match list_at(s, at, capture_at()) {
                            Got::Bad(e) => Got::Bad(e),
                            Got::Val { v: captures, at } => Got::Val {
                                v: Head {
                                    source: if source is Some {
                                        source
                                    } else {
                                        psource
                                    },
                                    linedefined: lines.0,
                                    lastlinedefined: lines.1,
                                    numparams: b[0],
                                    is_vararg: b[1] != 0,
                                    maxstacksize: b[2],
                                    code: code,
                                    consts: consts,
                                    captures: captures,
                                },
                                at: at,
                            },
                        },
                    },
                },
            },
        },
    }
}

/// What a function ends with, given the number of its captured variables.
pub open spec fn debugging_at(s: Seq<u8>, p: int, captures: int) -> Got<Debugging> {
    match list_at(s, p, line_at()) {
        Got::Bad(e) => Got::Bad(e),
        Got::Val { v: lineinfo, at } => match list_at(s, at, absline_at()) {
            Got::Bad(e) => Got::Bad(e),
            Got::Val { v: abslines, at } => match list_at(s, at, local_at()) {
                Got::Bad(e) => Got::Bad(e),
                Got::Val { v: locals, at } => match int_at(s, at) {
                    Got::Bad(e) => Got::Bad(e),
                    Got::Val { v: named, at } => if named == 0 {
                        Got::Val {
                            v: Debugging { lineinfo: lineinfo, abslines: abslines, locals: locals, names: None },
                            at: at,
                        }
                    } else {
                        match many_at(s, at, captures, name_at(), Seq::empty()) {
                            Got::Bad(e) => Got::Bad(e),
                            Got::Val { v: names, at } => Got::Val {
                                v: Debugging {
                                    lineinfo: lineinfo,
                                    abslines: abslines,
                                    locals: locals,
                                    names: Some(names),
                                },
                                at: at,
                            },
                        }
                    },
                },
            },
        },
    }
}

/// Whether something read at a place ends no earlier, and within the bytes.
pub open spec fn ends_behind<T>(s: Seq<u8>, p: int, g: Got<T>) -> bool {
    g matches Got::Val { v, at } ==> p <= at <= s.len()
}

/// Things one behind the other end behind where they start, if each of them does.
pub proof fn lemma_many<T>(s: Seq<u8>, p: int, n: int, one: spec_fn(Seq<u8>, int) -> Got<T>, acc: Seq<T>)
    requires
        forall|q: int| ends_behind(s, q, #[trigger] one(s, q)),
    ensures
        many_at(s, p, n, one, acc) matches Got::Val { v, at } ==> p <= at && (at <= s.len() || at == p) && v.len()
            == acc.len() + (if n > 0 {
            n
        } else {
            0
        }),
    decreases n,
{
    if n > 0 {
        if let Got::Val { v, at } = one(s, p) {
            lemma_many(s, at, n - 1, one, acc.push(v));
        }
    }
}

/// A list ends behind where it starts, if each element does.
pub proof fn lemma_list<T>(s: Seq<u8>, p: int, one: spec_fn(Seq<u8>, int) -> Got<T>)
    requires
        forall|q: int| ends_behind(s, q, #[trigger] one(s, q)),
    ensures
        list_at(s, p, one) matches Got::Val { v, at } ==> p < at <= s.len(),
{
    lemma_groups(s, p, 0, i32::MAX as int / 128);
    if let Got::Val { v, at } = int_at(s, p) {
        lemma_many(s, at, v, one, Seq::empty());
    }
}

/// A function takes some bytes before the functions in it start.
pub proof fn lemma_head(s: Seq<u8>, p: int, big: bool, psource: Option<Seq<u8>>)
    ensures
        head_at(s, p, big, psource) matches Got::Val { v, at } ==> p < at <= s.len(),
{
    lemma_string(s, p);
    if let Got::Val { v, at } = string_at(s, p) {
        lemma_groups(s, at, 0, i32::MAX as int / 128);
        if let Got::Val { v: a, at } = int_at(s, at) {
            lemma_groups(s, at, 0, i32::MAX as int / 128);
        }
        if let Got::Val { v: lines, at } = pair_of(s, at) {
            lemma_list(s, at + 3, instr_at(big));
            if let Got::Val { v: code, at } = list_at(s, at + 3, instr_at(big)) {
                assert forall|q: int| ends_behind(s, q, #[trigger] const_at(big)(s, q)) by {
                    lemma_string(s, q + 1);
                }
                lemma_list(s, at, const_at(big));
                if let Got::Val { v: consts, at } = list_at(s, at, const_at(big)) {
                    lemma_list(s, at, capture_at());
                }
            }
        }
    }
}

/// A function at a place, with the functions in it.
pub open spec fn fn_at(s: Seq<u8>, p: int, big: bool, psource: Option<Seq<u8>>) -> Got<ChunkFn>
    decreases s.len() - p, 0int, 0int,
{
    proof {
        lemma_head(s, p, big, psource);
    }
    match head_at(s, p, big, psource) {
        Got::Bad(e) => Got::Bad(e),
        Got::Val { v: head, at } => match int_at(s, at) {
            Got::Bad(e) => Got::Bad(e),
            Got::Val { v: n, at: from } => {
                proof {
                    lemma_groups(s, at, 0, i32::MAX as int / 128);
                }
                match fns_at(s, from, n, big, head.source, Seq::empty()) {
                    Got::Bad(e) => Got::Bad(e),
                    Got::Val { v: nested, at } => match debugging_at(s, at, head.captures.len() as int) {
                        Got::Bad(e) => Got::Bad(e),
                        Got::Val { v: debugging, at } => Got::Val {
                            v: ChunkFn { head: head, nested: nested, debugging: debugging },
                            at: at,
                        },
                    },
                }
            },
        },
    }
}

/// `n` functions one behind the other, after those of `acc`. Each takes some bytes.
pub open spec fn fns_at(s: Seq<u8>, p: int, n: int, big: bool, psource: Option<Seq<u8>>, acc: Seq<ChunkFn>) -> Got<
    Seq<ChunkFn>,
>
    decreases s.len() - p, 1int, n,
{
    if n <= 0 {
        Got::Val { v: acc, at: p }
    } else {
        match fn_at(s, p, big, psource) {
            Got::Bad(e) => Got::Bad(e),
            Got::Val { v, at } => if p < at <= s.len() {
                fns_at(s, at, n - 1, big, psource, acc.push(v))
            } else {
                Got::Bad(LoadFault::Truncated)
            },
        }
    }
}

/// Whether a string in the store, if there is one, has these bytes.
pub open spec fn str_is(h: Heap, x: Option<StrId>, b: Option<Seq<u8>>) -> bool {
    match x {
        None => b is None,
        Some(i) => i.0 < h.strs().len() && b == Some(h.bytes(i)),
    }
}

/// Whether a value is a constant.
pub open spec fn const_is(h: Heap, v: LuaValue, k: Konst) -> bool {
    match k {
        Konst::Nil => v == LuaValue::Nil,
        Konst::Bool(b) => v == LuaValue::Bool(b),
        Konst::Int(i) => v == LuaValue::Int(i),
        Konst::Float(f) => v == LuaValue::Float(f),
        Konst::Str(b) => v matches LuaValue::Str(i) && i.0 < h.strs().len() && h.bytes(i) == b,
    }
}

/// Whether these instructions have this code.
pub open spec fn code_is(v: Seq<Instruction>, code: Seq<int>) -> bool {
    v.len() == code.len() && forall|i: int| 0 <= i < v.len() ==> (#[trigger] v[i]).0 == code[i]
}

/// Whether these values are these constants.
pub open spec fn consts_are(h: Heap, v: Seq<LuaValue>, ks: Seq<Konst>) -> bool {
    v.len() == ks.len() && forall|i: int| 0 <= i < v.len() ==> const_is(h, #[trigger] v[i], ks[i])
}

/// Whether variables are captured this way.
pub open spec fn captures_are(v: Seq<UpvalDesc>, cs: Seq<Capture>) -> bool {
    &&& v.len() == cs.len()
    &&& forall|i: int|
        #![trigger v[i]]
        0 <= i < v.len() ==> v[i].instack == cs[i].instack && v[i].idx == cs[i].idx && v[i].kind == cs[i].kind
}

/// Whether captured variables have these names.
pub open spec fn names_are(h: Heap, v: Seq<UpvalDesc>, names: Option<Seq<Option<Seq<u8>>>>) -> bool {
    match names {
        None => forall|i: int| 0 <= i < v.len() ==> (#[trigger] v[i]).name is None,
        Some(ns) => ns.len() == v.len() && forall|i: int|
            0 <= i < v.len() ==> str_is(h, (#[trigger] v[i]).name, ns[i]),
    }
}

/// Whether these are the instructions with given lines.
pub open spec fn abslines_are(v: Seq<AbsLineInfo>, ls: Seq<(int, int)>) -> bool {
    v.len() == ls.len() && forall|i: int|
        #![trigger v[i]]
        0 <= i < v.len() ==> v[i].pc == ls[i].0 && v[i].line == ls[i].1
}

/// Whether these are the local variables.
pub open spec fn locals_are(h: Heap, v: Seq<LocalVar>, ls: Seq<Local>) -> bool {
    v.len() == ls.len() && forall|i: int|
        #![trigger v[i]]
        0 <= i < v.len() ==> str_is(h, Some(v[i].varname), Some(ls[i].name)) && v[i].startpc == ls[i].startpc
            && v[i].endpc == ls[i].endpc
}

/// Whether an instruction packs the extra arguments into a table.
pub open spec fn packs(i: Instruction) -> bool {
    i.0 % 128 == 84
}

/// Whether this is the register of the table of extra arguments: that of the first
/// instruction that packs them, which also says whether the table is needed.
pub open spec fn vararg_reg(code: Seq<Instruction>, r: Option<(u8, bool)>) -> bool {
    match r {
        None => forall|i: int| 0 <= i < code.len() ==> !packs(#[trigger] code[i]),
        Some((reg, needed)) => exists|i: int|
            {
                &&& 0 <= i < code.len() && packs(#[trigger] code[i])
                &&& forall|j: int| 0 <= j < i ==> !packs(#[trigger] code[j])
                &&& reg == (code[i].0 / 128 % 256) as u8
                &&& needed == (code[i].0 / 32768 % 2 == 1)
            },
    }
}

/// Whether a function knows the register of the table of its extra arguments.
pub open spec fn vararg_known(f: LuaProto) -> bool {
    match f.vararg_table_reg {
        None => vararg_reg(f.code@, None) && !f.vararg_table_needed,
        Some(reg) => vararg_reg(f.code@, Some((reg, f.vararg_table_needed))),
    }
}

/// Whether a prototype starts like this.
pub open spec fn head_is(h: Heap, f: LuaProto, d: Head) -> bool {
    &&& str_is(h, f.source, d.source)
    &&& f.linedefined == d.linedefined && f.lastlinedefined == d.lastlinedefined
    &&& f.numparams == d.numparams && f.is_vararg == d.is_vararg && f.maxstacksize == d.maxstacksize
    &&& code_is(f.code@, d.code)
    &&& consts_are(h, f.k@, d.consts)
    &&& captures_are(f.upvalues@, d.captures)
}

/// Whether a prototype ends like this.
pub open spec fn debugging_is(h: Heap, f: LuaProto, d: Debugging) -> bool {
    &&& f.lineinfo@ == d.lineinfo
    &&& abslines_are(f.abslineinfo@, d.abslines)
    &&& locals_are(h, f.locvars@, d.locals)
    &&& names_are(h, f.upvalues@, d.names)
}

/// Whether a prototype in the store is a function of a chunk, with the functions in it.
pub open spec fn fn_is(h: Heap, id: ProtoId, t: ChunkFn) -> bool
    decreases t,
{
    let f = h.protos.items@[id.0 as int];
    &&& id.0 < h.protos.items@.len()
    &&& head_is(h, f, t.head)
    &&& debugging_is(h, f, t.debugging)
    &&& vararg_known(f)
    &&& f.cache is None
    &&& f.p@.len() == t.nested.len()
    &&& forall|i: int| 0 <= i < t.nested.len() ==> fn_is(h, #[trigger] f.p@[i], t.nested[i])
}

/// Whether these prototypes are these functions.
pub open spec fn fns_are(h: Heap, v: Seq<ProtoId>, ts: Seq<ChunkFn>) -> bool {
    v.len() == ts.len() && forall|i: int| 0 <= i < v.len() ==> fn_is(h, #[trigger] v[i], ts[i])
}

/// What is loaded stays as it is when the store grows.
pub proof fn lemma_fn_kept(a: Heap, b: Heap, id: ProtoId, t: ChunkFn)
    requires
        a.wf(),
        heap_extends(a, b),
        fn_is(a, id, t),
    ensures
        fn_is(b, id, t),
    decreases t,
{
    lemma_heap_extends(a, b);
    let f = a.protos.items@[id.0 as int];
    assert(b.protos.items@[id.0 as int] == f);
    assert forall|i: int| 0 <= i < f.k@.len() implies const_is(b, #[trigger] f.k@[i], t.head.consts[i]) by {
        assert(const_is(a, f.k@[i], t.head.consts[i]));
    }
    assert forall|i: int| 0 <= i < t.nested.len() implies fn_is(b, #[trigger] f.p@[i], t.nested[i]) by {
        lemma_fn_kept(a, b, f.p@[i], t.nested[i]);
    }
    assert(names_are(b, f.upvalues@, t.debugging.names)) by {
        if let Some(ns) = t.debugging.names {
            assert forall|i: int| 0 <= i < f.upvalues@.len() implies str_is(b, (#[trigger] f.upvalues@[i]).name, ns[i]) by {
                assert(str_is(a, f.upvalues@[i].name, ns[i]));
            }
        }
    }
}

/// Whether strings or captured variables were made.
pub open spec fn counted_more(g: GlobalState, g2: GlobalState) -> bool {
    g2.heap.strs().len() > g.heap.strs().len() || g2.heap.upvals.items@.len() > g.heap.upvals.items@.len()
}

/// What loading leaves alone: it makes strings, prototypes and captured variables, and may
/// make a check for collection due.
pub open spec fn loading(s: LuaState, g: GlobalState, s2: LuaState, g2: GlobalState) -> bool {
    &&& g2.wf() && s2.wf(g2.heap.sizes())
    &&& s2 == (LuaState { gc_check_needed: s.gc_check_needed || counted_more(g, g2), ..s })
    &&& g2 == (GlobalState { heap: g2.heap, interned_lt: g2.interned_lt, ..g })
    &&& heap_extends(g.heap, g2.heap)
    &&& intern_grown(g, g2)
}

/// The input with its place moved on.
pub open spec fn moved(a: Input, b: Input) -> bool {
    b.wf() && b.bytes == a.bytes && b.big_endian == a.big_endian && b.pos >= a.pos
}

/// Reads a string, which may be missing, and interns it.
fn load_string_n(state: &mut LuaState, g: &mut GlobalState, z: &mut Input) -> (r: Result<Option<StrId>, LoadFault>)
    requires
        old(g).wf(),
        old(state).wf(old(g).heap.sizes()),
        old(z).wf(),
    ensures
        loading(*old(state), *old(g), *final(state), *final(g)),
        moved(*old(z), *final(z)),
        match r {
            Ok(x) => string_at(old(z).bytes@, old(z).pos as int) matches Got::Val { v, at } && at == final(z).pos
                && at > old(z).pos && str_is(final(g).heap, x, v),
            Err(e) => string_at(old(z).bytes@, old(z).pos as int) == Got::<Option<Seq<u8>>>::Bad(e),
        },
{
    match z.load_string_n() {
        Err(e) => Err(e),
        Ok(None) => Ok(None),
        Ok(Some(b)) => {
            let s: StrId = state.intern_str(g, b.as_slice());
            Ok(Some(s))
        },
    }
}

/// Reads a string that must be there.
fn load_string(state: &mut LuaState, g: &mut GlobalState, z: &mut Input) -> (r: Result<StrId, LoadFault>)
    requires
        old(g).wf(),
        old(state).wf(old(g).heap.sizes()),
        old(z).wf(),
    ensures
        loading(*old(state), *old(g), *final(state), *final(g)),
        moved(*old(z), *final(z)),
        match r {
            Ok(x) => string_at(old(z).bytes@, old(z).pos as int) matches Got::Val { v: Some(b), at } && at
                == final(z).pos && str_is(final(g).heap, Some(x), Some(b)),
            Err(e) => match string_at(old(z).bytes@, old(z).pos as int) {
                Got::Bad(d) => e == d,
                Got::Val { v, at } => v is None && e == LoadFault::NoString,
            },
        },
{
    match load_string_n(state, g, z) {
        Err(e) => Err(e),
        Ok(None) => Err(LoadFault::NoString),
        Ok(Some(s)) => Ok(s),
    }
}

/// Reads the instructions.
fn load_code(z: &mut Input) -> (r: Result<Vec<Instruction>, LoadFault>)
    requires
        old(z).wf(),
    ensures
        moved(*old(z), *final(z)),
        match r {
            Ok(x) => list_at(old(z).bytes@, old(z).pos as int, instr_at(old(z).big_endian)) matches Got::Val { v, at }
                && at == final(z).pos && code_is(x@, v),
            Err(e) => list_at(old(z).bytes@, old(z).pos as int, instr_at(old(z).big_endian)) == Got::<Seq<int>>::Bad(e),
        },
{
    let ghost s = z.bytes@;
    let ghost f = instr_at(z.big_endian);
    let n: i32 = match z.load_int() {
        Ok(n) => n,
        Err(e) => {
            return Err(e);
        },
    };
    let ghost mut acc: Seq<int> = Seq::empty();
    let mut code: Vec<Instruction> = Vec::new();
    let mut i: i32 = 0;
    while i < n
        invariant
            0 <= i <= n,
            moved(*old(z), *z),
            s == z.bytes@,
            f == instr_at(z.big_endian),
            list_at(s, old(z).pos as int, f) == many_at(s, z.pos as int, n - i, f, acc),
            code_is(code@, acc),
        decreases n - i,
    {
        let w: u64 = match z.load_raw(4) {
            Ok(w) => w,
            Err(e) => {
                return Err(e);
            },
        };
        proof {
            reveal_with_fuel(pow256, 5);
            acc = acc.push(w as int);
        }
        code.push(Instruction(w as u32));
        i = i + 1;
    }
    Ok(code)
}

/// Reads a constant.
fn load_constant(state: &mut LuaState, g: &mut GlobalState, z: &mut Input) -> (r: Result<LuaValue, LoadFault>)
    requires
        old(g).wf(),
        old(state).wf(old(g).heap.sizes()),
        old(z).wf(),
    ensures
        loading(*old(state), *old(g), *final(state), *final(g)),
        moved(*old(z), *final(z)),
        match r {
            Ok(x) => const_of(old(z).bytes@, old(z).pos as int, old(z).big_endian) matches Got::Val { v, at } && at
                == final(z).pos && const_is(final(g).heap, x, v) && final(g).heap.ok(x),
            Err(e) => const_of(old(z).bytes@, old(z).pos as int, old(z).big_endian) == Got::<Konst>::Bad(e),
        },
{
    let t: u8 = match z.load_byte() {
        Ok(t) => t,
        Err(e) => {
            return Err(e);
        },
    };
    proof {
        reveal_with_fuel(pow256, 9);
    }
    if t == 0x01 {
        Ok(LuaValue::Bool(false))
    } else if t == 0x11 {
        Ok(LuaValue::Bool(true))
    } else if t == 0x13 {
        match z.load_raw(8) {
            Ok(w) => Ok(LuaValue::Float(w)),
            Err(e) => Err(e),
        }
    } else if t == 0x03 {
        match z.load_raw(8) {
            Ok(w) => {
                let x: i64 = if w <= i64::MAX as u64 {
                    w as i64
                } else {
                    -((u64::MAX - w) as i64) - 1
                };
                Ok(LuaValue::Int(x))
            },
            Err(e) => Err(e),
        }
    } else if t == 0x04 || t == 0x14 {
        match load_string(state, g, z) {
            Ok(s) => Ok(LuaValue::Str(s)),
            Err(e) => Err(e),
        }
    } else {
        Ok(LuaValue::Nil)
    }
}

/// Reads the constants.
fn load_constants(state: &mut LuaState, g: &mut GlobalState, z: &mut Input) -> (r: Result<Vec<LuaValue>, LoadFault>)
    requires
        old(g).wf(),
        old(state).wf(old(g).heap.sizes()),
        old(z).wf(),
    ensures
        loading(*old(state), *old(g), *final(state), *final(g)),
        moved(*old(z), *final(z)),
        match r {
            Ok(x) => list_at(old(z).bytes@, old(z).pos as int, const_at(old(z).big_endian)) matches Got::Val { v, at }
                && at == final(z).pos && consts_are(final(g).heap, x@, v) && final(g).heap.sizes().ok_all(x@),
            Err(e) => list_at(old(z).bytes@, old(z).pos as int, const_at(old(z).big_endian)) == Got::<Seq<Konst>>::Bad(
                e,
            ),
        },
{
    let ghost s = z.bytes@;
    let ghost f = const_at(z.big_endian);
    let n: i32 = match z.load_int() {
        Ok(n) => n,
        Err(e) => {
            return Err(e);
        },
    };
    let ghost mut acc: Seq<Konst> = Seq::empty();
    let mut k: Vec<LuaValue> = Vec::new();
    let mut i: i32 = 0;
    while i < n
        invariant
            0 <= i <= n,
            moved(*old(z), *z),
            loading(*old(state), *old(g), *state, *g),
            s == z.bytes@,
            f == const_at(z.big_endian),
            list_at(s, old(z).pos as int, f) == many_at(s, z.pos as int, n - i, f, acc),
            consts_are(g.heap, k@, acc),
            g.heap.sizes().ok_all(k@),
        decreases n - i,
    {
        let ghost h = g.heap;
        let ghost want = f(s, z.pos as int);
        let v: LuaValue = match load_constant(state, g, z) {
            Ok(v) => v,
            Err(e) => {
                assert(want == Got::<Konst>::Bad(e));
                return Err(e);
            },
        };
        proof {
            lemma_heap_extends(h, g.heap);
            assert forall|j: int| 0 <= j < k@.len() implies const_is(g.heap, #[trigger] k@[j], acc[j]) && g.heap.sizes().ok(
                k@[j],
            ) by {
                assert(const_is(h, k@[j], acc[j]));
                assert(h.ok(k@[j]));
                assert(g.heap.ok(k@[j]));
            }
            assert(g.heap.ok(v));
            acc = acc.push(want->v);
        }
        k.push(v);
        i = i + 1;
    }
    Ok(k)
}

/// Reads how variables are captured.
fn load_upvalues(z: &mut Input) -> (r: Result<Vec<UpvalDesc>, LoadFault>)
    requires
        old(z).wf(),
    ensures
        moved(*old(z), *final(z)),
        match r {
            Ok(x) => list_at(old(z).bytes@, old(z).pos as int, capture_at()) matches Got::Val { v, at } && at
                == final(z).pos && captures_are(x@, v) && forall|i: int| 0 <= i < x@.len() ==> (#[trigger] x@[i]).name is None,
            Err(e) => list_at(old(z).bytes@, old(z).pos as int, capture_at()) == Got::<Seq<Capture>>::Bad(e),
        },
{
    let ghost s = z.bytes@;
    let ghost f = capture_at();
    let n: i32 = match z.load_int() {
        Ok(n) => n,
        Err(e) => {
            return Err(e);
        },
    };
    let ghost mut acc: Seq<Capture> = Seq::empty();
    let mut out: Vec<UpvalDesc> = Vec::new();
    let mut i: i32 = 0;
    while i < n
        invariant
            0 <= i <= n,
            moved(*old(z), *z),
            s == z.bytes@,
            f == capture_at(),
            list_at(s, old(z).pos as int, f) == many_at(s, z.pos as int, n - i, f, acc),
            captures_are(out@, acc),
            forall|j: int| 0 <= j < out@.len() ==> (#[trigger] out@[j]).name is None,
        decreases n - i,
    {
        let ghost want = f(s, z.pos as int);
        let ghost p = z.pos as int;
        let b: Vec<u8> = match z.load_block(3) {
            Ok(b) => b,
            Err(e) => {
                assert(want == Got::<Capture>::Bad(e));
                return Err(e);
            },
        };
        proof {
            assert(b@ == s.subrange(p, p + 3));
            acc = acc.push(want->v);
        }
        out.push(UpvalDesc { name: None, instack: b[0] != 0, idx: b[1], kind: b[2] });
        i = i + 1;
    }
    Ok(out)
}

/// Reads the line differences.
fn load_lineinfo(z: &mut Input) -> (r: Result<Vec<i8>, LoadFault>)
    requires
        old(z).wf(),
    ensures
        moved(*old(z), *final(z)),
        match r {
            Ok(x) => list_at(old(z).bytes@, old(z).pos as int, line_at()) == (Got::Val {
                v: x@,
                at: final(z).pos as int,
            }),
            Err(e) => list_at(old(z).bytes@, old(z).pos as int, line_at()) == Got::<Seq<i8>>::Bad(e),
        },
{
    let ghost s = z.bytes@;
    let ghost f = line_at();
    let n: i32 = match z.load_int() {
        Ok(n) => n,
        Err(e) => {
            return Err(e);
        },
    };
    let mut out: Vec<i8> = Vec::new();
    assert(out@ =~= Seq::<i8>::empty());
    let mut i: i32 = 0;
    while i < n
        invariant
            0 <= i <= n,
            moved(*old(z), *z),
            s == z.bytes@,
            f == line_at(),
            list_at(s, old(z).pos as int, f) == many_at(s, z.pos as int, n - i, f, out@),
        decreases n - i,
    {
        let ghost want = f(s, z.pos as int);
        let b: u8 = match z.load_byte() {
            Ok(b) => b,
            Err(e) => {
                assert(want == Got::<i8>::Bad(e));
                return Err(e);
            },
        };
        let d: i8 = if b < 128 {
            b as i8
        } else {
            (b as i16 - 256) as i8
        };
        assert(want == (Got::Val { v: d, at: z.pos as int }));
        out.push(d);
        i = i + 1;
    }
    Ok(out)
}

/// Reads two numbers.
fn load_pair(z: &mut Input) -> (r: Result<(i32, i32), LoadFault>)
    requires
        old(z).wf(),
    ensures
        moved(*old(z), *final(z)),
        match r {
            Ok(x) => pair_of(old(z).bytes@, old(z).pos as int) == (Got::Val {
                v: (x.0 as int, x.1 as int),
                at: final(z).pos as int,
            }) && final(z).pos > old(z).pos,
            Err(e) => pair_of(old(z).bytes@, old(z).pos as int) == Got::<(int, int)>::Bad(e),
        },
{
    let a: i32 = match z.load_int() {
        Ok(a) => a,
        Err(e) => {
            return Err(e);
        },
    };
    match z.load_int() {
        Ok(b) => Ok((a, b)),
        Err(e) => Err(e),
    }
}

/// Reads the instructions with given lines.
fn load_abslines(z: &mut Input) -> (r: Result<Vec<AbsLineInfo>, LoadFault>)
    requires
        old(z).wf(),
    ensures
        moved(*old(z), *final(z)),
        match r {
            Ok(x) => list_at(old(z).bytes@, old(z).pos as int, absline_at()) matches Got::Val { v, at } && at
                == final(z).pos && abslines_are(x@, v),
            Err(e) => list_at(old(z).bytes@, old(z).pos as int, absline_at()) == Got::<Seq<(int, int)>>::Bad(e),
        },
{
    let ghost s = z.bytes@;
    let ghost f = absline_at();
    let n: i32 = match z.load_int() {
        Ok(n) => n,
        Err(e) => {
            return Err(e);
        },
    };
    let ghost mut acc: Seq<(int, int)> = Seq::empty();
    let mut out: Vec<AbsLineInfo> = Vec::new();
    let mut i: i32 = 0;
    while i < n
        invariant
            0 <= i <= n,
            moved(*old(z), *z),
            s == z.bytes@,
            f == absline_at(),
            list_at(s, old(z).pos as int, f) == many_at(s, z.pos as int, n - i, f, acc),
            abslines_are(out@, acc),
        decreases n - i,
    {
        let ghost want = f(s, z.pos as int);
        let (pc, line) = match load_pair(z) {
            Ok(x) => x,
            Err(e) => {
                assert(want == Got::<(int, int)>::Bad(e));
                return Err(e);
            },
        };
        proof {
            acc = acc.push(want->v);
        }
        out.push(AbsLineInfo { pc: pc, line: line });
        i = i + 1;
    }
    Ok(out)
}

/// Reads the local variables.
fn load_locvars(state: &mut LuaState, g: &mut GlobalState, z: &mut Input) -> (r: Result<Vec<LocalVar>, LoadFault>)
    requires
        old(g).wf(),
        old(state).wf(old(g).heap.sizes()),
        old(z).wf(),
    ensures
        loading(*old(state), *old(g), *final(state), *final(g)),
        moved(*old(z), *final(z)),
        match r {
            Ok(x) => list_at(old(z).bytes@, old(z).pos as int, local_at()) matches Got::Val { v, at } && at
                == final(z).pos && locals_are(final(g).heap, x@, v),
            Err(e) => list_at(old(z).bytes@, old(z).pos as int, local_at()) == Got::<Seq<Local>>::Bad(e),
        },
{
    let ghost s = z.bytes@;
    let ghost f = local_at();
    let n: i32 = match z.load_int() {
        Ok(n) => n,
        Err(e) => {
            return Err(e);
        },
    };
    let ghost mut acc: Seq<Local> = Seq::empty();
    let mut out: Vec<LocalVar> = Vec::new();
    let mut i: i32 = 0;
    while i < n
        invariant
            0 <= i <= n,
            moved(*old(z), *z),
            loading(*old(state), *old(g), *state, *g),
            s == z.bytes@,
            f == local_at(),
            list_at(s, old(z).pos as int, f) == many_at(s, z.pos as int, n - i, f, acc),
            locals_are(g.heap, out@, acc),
        decreases n - i,
    {
        let ghost h = g.heap;
        let ghost want = f(s, z.pos as int);
        let name: Option<StrId> = match load_string_n(state, g, z) {
            Ok(x) => x,
            Err(e) => {
                assert(want == Got::<Local>::Bad(e));
                return Err(e);
            },
        };
        let (startpc, endpc) = match load_pair(z) {
            Ok(x) => x,
            Err(e) => {
                assert(want == Got::<Local>::Bad(e));
                return Err(e);
            },
        };
        let varname: StrId = match name {
            Some(x) => x,
            None => {
                let empty: Vec<u8> = Vec::new();
                assert(empty@ =~= Seq::<u8>::empty());
                state.intern_str(g, empty.as_slice())
            },
        };
        proof {
            lemma_heap_extends(h, g.heap);
            assert forall|j: int| 0 <= j < out@.len() implies str_is(
                g.heap,
                Some((#[trigger] out@[j]).varname),
                Some(acc[j].name),
            ) by {
                assert(str_is(h, Some(out@[j].varname), Some(acc[j].name)));
            }
            acc = acc.push(want->v);
        }
        out.push(LocalVar { varname: varname, startpc: startpc, endpc: endpc });
        i = i + 1;
    }
    Ok(out)
}

/// Reads the names of captured variables.
fn load_names(state: &mut LuaState, g: &mut GlobalState, z: &mut Input, ups: &mut Vec<UpvalDesc>) -> (r: Result<
    (),
    LoadFault,
>)
    requires
        old(g).wf(),
        old(state).wf(old(g).heap.sizes()),
        old(z).wf(),
    ensures
        loading(*old(state), *old(g), *final(state), *final(g)),
        moved(*old(z), *final(z)),
        final(ups)@.len() == old(ups)@.len(),
        forall|i: int|
            #![trigger final(ups)@[i]]
            0 <= i < old(ups)@.len() ==> final(ups)@[i].instack == old(ups)@[i].instack && final(ups)@[i].idx
                == old(ups)@[i].idx && final(ups)@[i].kind == old(ups)@[i].kind,
        match r {
            Ok(()) => many_at(
                old(z).bytes@,
                old(z).pos as int,
                old(ups)@.len() as int,
                name_at(),
                Seq::empty(),
            ) matches Got::Val { v, at } && at == final(z).pos && names_are(final(g).heap, final(ups)@, Some(v)),
            Err(e) => many_at(old(z).bytes@, old(z).pos as int, old(ups)@.len() as int, name_at(), Seq::empty())
                == Got::<Seq<Option<Seq<u8>>>>::Bad(e),
        },
{
    let ghost s = z.bytes@;
    let ghost f = name_at();
    let n: usize = ups.len();
    let ghost mut acc: Seq<Option<Seq<u8>>> = Seq::empty();
    let mut i: usize = 0;
    while i < n
        invariant
            i <= n == ups@.len() == old(ups)@.len(),
            acc.len() == i,
            moved(*old(z), *z),
            loading(*old(state), *old(g), *state, *g),
            s == z.bytes@,
            f == name_at(),
            many_at(s, old(z).pos as int, n as int, f, Seq::empty()) == many_at(s, z.pos as int, n - i, f, acc),
            forall|j: int|
                #![trigger ups@[j]]
                0 <= j < n ==> ups@[j].instack == old(ups)@[j].instack && ups@[j].idx == old(ups)@[j].idx
                    && ups@[j].kind == old(ups)@[j].kind,
            forall|j: int| 0 <= j < i ==> str_is(g.heap, (#[trigger] ups@[j]).name, acc[j]),
        decreases n - i,
    {
        let ghost h = g.heap;
        let ghost want = f(s, z.pos as int);
        let name: Option<StrId> = match load_string_n(state, g, z) {
            Ok(x) => x,
            Err(e) => {
                assert(want == Got::<Option<Seq<u8>>>::Bad(e));
                return Err(e);
            },
        };
        let u: UpvalDesc = ups[i];
        proof {
            lemma_heap_extends(h, g.heap);
            assert forall|j: int| 0 <= j < i implies str_is(g.heap, (#[trigger] ups@[j]).name, acc[j]) by {
                assert(str_is(h, ups@[j].name, acc[j]));
            }
            acc = acc.push(want->v);
        }
        ups.set(i, UpvalDesc { name: name, ..u });
        i = i + 1;
    }
    Ok(())
}

/// The register of the table of extra arguments, and whether that is needed, by the first
/// instruction that packs them.
fn find_vararg_reg(code: &Vec<Instruction>) -> (r: Option<(u8, bool)>)
    ensures
        vararg_reg(code@, r),
{
    let mut i: usize = 0;
    while i < code.len()
        invariant
            i <= code@.len(),
            forall|j: int| 0 <= j < i ==> !packs(#[trigger] code@[j]),
        decreases code@.len() - i,
    {
        let raw: u32 = code[i].0;
        if raw % 128 == 84 {
            assert(packs(code@[i as int]));
            return Some(((raw / 128 % 256) as u8, raw / 32768 % 2 == 1));
        }
        i = i + 1;
    }
    None
}

/// The bytes of a source, if there is one.
pub open spec fn source_of(h: Heap, x: Option<StrId>) -> Option<Seq<u8>> {
    match x {
        None => None,
        Some(i) => Some(h.bytes(i)),
    }
}

/// Reads what a function starts with.
#[verifier::rlimit(40)]
fn load_head(state: &mut LuaState, g: &mut GlobalState, z: &mut Input, psource: Option<StrId>) -> (r: Result<
    LuaProto,
    LoadFault,
>)
    requires
        old(g).wf(),
        old(state).wf(old(g).heap.sizes()),
        old(z).wf(),
        psource matches Some(s) ==> s.0 < old(g).heap.strs().len(),
    ensures
        loading(*old(state), *old(g), *final(state), *final(g)),
        moved(*old(z), *final(z)),
        match r {
            Ok(f) => {
                &&& head_at(
                    old(z).bytes@,
                    old(z).pos as int,
                    old(z).big_endian,
                    source_of(old(g).heap, psource),
                ) matches Got::Val { v, at } && at == final(z).pos && head_is(final(g).heap, f, v)
                &&& final(g).heap.sizes().ok_proto(f)
                &&& vararg_known(f) && f.cache is None && f.p@.len() == 0 && f.locvars@.len() == 0
                &&& forall|i: int| 0 <= i < f.upvalues@.len() ==> (#[trigger] f.upvalues@[i]).name is None
            },
            Err(e) => head_at(
                old(z).bytes@,
                old(z).pos as int,
                old(z).big_endian,
                source_of(old(g).heap, psource),
            ) == Got::<Head>::Bad(e),
        },
{
    let source: Option<StrId> = match load_string_n(state, g, z) {
        Ok(x) => x,
        Err(e) => {
            return Err(e);
        },
    };
    let ghost h1 = g.heap;
    proof {
        lemma_heap_extends(old(g).heap, h1);
    }
    let (first, last) = match load_pair(z) {
        Ok(x) => x,
        Err(e) => {
            return Err(e);
        },
    };
    let b: Vec<u8> = match z.load_block(3) {
        Ok(x) => x,
        Err(e) => {
            return Err(e);
        },
    };
    let code: Vec<Instruction> = match load_code(z) {
        Ok(x) => x,
        Err(e) => {
            return Err(e);
        },
    };
    let k: Vec<LuaValue> = match load_constants(state, g, z) {
        Ok(x) => x,
        Err(e) => {
            return Err(e);
        },
    };
    proof {
        lemma_heap_extends(h1, g.heap);
    }
    let upvalues: Vec<UpvalDesc> = match load_upvalues(z) {
        Ok(x) => x,
        Err(e) => {
            return Err(e);
        },
    };
    let mut f: LuaProto = blank_proto();
    match find_vararg_reg(&code) {
        None => {},
        Some((reg, needed)) => {
            f.vararg_table_reg = Some(reg);
            f.vararg_table_needed = needed;
        },
    }
    f.source = match source {
        Some(s) => Some(s),
        None => psource,
    };
    f.linedefined = first;
    f.lastlinedefined = last;
    f.numparams = b[0];
    f.is_vararg = b[1] != 0;
    f.maxstacksize = b[2];
    f.code = code;
    f.k = k;
    f.upvalues = upvalues;
    proof {
        lemma_heap_extends(old(g).heap, g.heap);
    }
    Ok(f)
}

/// What a prototype starts with stays as it is when the store grows.
proof fn lemma_head_kept(a: Heap, b: Heap, f: LuaProto, d: Head)
    requires
        a.wf(),
        heap_extends(a, b),
        head_is(a, f, d),
        a.sizes().ok_proto(f),
    ensures
        head_is(b, f, d),
        b.sizes().ok_proto(f),
{
    lemma_heap_extends(a, b);
    assert forall|i: int| 0 <= i < f.k@.len() implies const_is(b, #[trigger] f.k@[i], d.consts[i]) && b.sizes().ok(
        f.k@[i],
    ) by {
        assert(const_is(a, f.k@[i], d.consts[i]));
        assert(a.ok(f.k@[i]));
        assert(b.ok(f.k@[i]));
    }
}

/// What a prototype ends with stays as it is when the store grows.
proof fn lemma_debugging_kept(a: Heap, b: Heap, f: LuaProto, d: Debugging)
    requires
        a.wf(),
        heap_extends(a, b),
        debugging_is(a, f, d),
    ensures
        debugging_is(b, f, d),
{
    lemma_heap_extends(a, b);
    if let Some(ns) = d.names {
        assert forall|i: int| 0 <= i < f.upvalues@.len() implies str_is(b, (#[trigger] f.upvalues@[i]).name, ns[i]) by {
            assert(str_is(a, f.upvalues@[i].name, ns[i]));
        }
    }
}

/// Reads what a function ends with.
#[verifier::rlimit(100)]
#[verifier::spinoff_prover]
fn load_debug(state: &mut LuaState, g: &mut GlobalState, z: &mut Input, f: &mut LuaProto) -> (r: Result<(), LoadFault>)
    requires
        old(g).wf(),
        old(state).wf(old(g).heap.sizes()),
        old(z).wf(),
        old(g).heap.sizes().ok_proto(*old(f)),
        forall|i: int| 0 <= i < old(f).upvalues@.len() ==> (#[trigger] old(f).upvalues@[i]).name is None,
    ensures
        loading(*old(state), *old(g), *final(state), *final(g)),
        moved(*old(z), *final(z)),
        match r {
            Ok(()) => {
                &&& debugging_at(
                    old(z).bytes@,
                    old(z).pos as int,
                    old(f).upvalues@.len() as int,
                ) matches Got::Val { v, at } && at == final(z).pos && debugging_is(final(g).heap, *final(f), v)
                &&& *final(f) == (LuaProto {
                    lineinfo: final(f).lineinfo,
                    abslineinfo: final(f).abslineinfo,
                    locvars: final(f).locvars,
                    upvalues: final(f).upvalues,
                    ..*old(f)
                })
                &&& final(f).upvalues@.len() == old(f).upvalues@.len()
                &&& forall|i: int|
                    #![trigger final(f).upvalues@[i]]
                    0 <= i < old(f).upvalues@.len() ==> final(f).upvalues@[i].instack == old(f).upvalues@[i].instack
                        && final(f).upvalues@[i].idx == old(f).upvalues@[i].idx && final(f).upvalues@[i].kind
                        == old(f).upvalues@[i].kind
                &&& final(g).heap.sizes().ok_proto(*final(f))
            },
            Err(e) => debugging_at(old(z).bytes@, old(z).pos as int, old(f).upvalues@.len() as int)
                == Got::<Debugging>::Bad(e),
        },
{
    let ghost f0 = *f;
    f.lineinfo = match load_lineinfo(z) {
        Ok(x) => x,
        Err(e) => {
            return Err(e);
        },
    };
    f.abslineinfo = match load_abslines(z) {
        Ok(x) => x,
        Err(e) => {
            return Err(e);
        },
    };
    let locvars: Vec<LocalVar> = match load_locvars(state, g, z) {
        Ok(x) => x,
        Err(e) => {
            return Err(e);
        },
    };
    let ghost g1 = *g;
    let ghost h1 = g.heap;
    let ghost ls = locvars@;
    f.locvars = locvars;
    let named: i32 = match z.load_int() {
        Ok(x) => x,
        Err(e) => {
            return Err(e);
        },
    };
    if named != 0 {
        match load_names(state, g, z, &mut f.upvalues) {
            Ok(()) => {},
            Err(e) => {
                return Err(e);
            },
        }
    }
    proof {
        lemma_intern_grown_trans(*old(g), g1, *g);
        lemma_heap_extends(h1, g.heap);
        lemma_heap_extends(old(g).heap, g.heap);
        assert forall|i: int| 0 <= i < f.k@.len() implies g.heap.sizes().ok(#[trigger] f.k@[i]) by {
            assert(old(g).heap.ok(f.k@[i]));
            assert(g.heap.ok(f.k@[i]));
        }
        assert forall|i: int| 0 <= i < ls.len() implies (#[trigger] f.locvars@[i]).varname.0 < g.heap.sizes().strings by {
            assert(ls[i] == f.locvars@[i]);
        }
        assert forall|i: int|
            #![trigger f.upvalues@[i]]
            0 <= i < f.upvalues@.len() implies (f.upvalues@[i].name matches Some(s) ==> s.0
            < g.heap.sizes().strings) by {
            if named == 0 {
                assert(f0.upvalues@[i].name is None);
            }
        }
    }
    Ok(())
}

/// Reads the functions in a function.
fn load_protos(state: &mut LuaState, g: &mut GlobalState, z: &mut Input, psource: Option<StrId>, n: i32) -> (r: Result<
    Vec<ProtoId>,
    LoadFault,
>)
    requires
        old(g).wf(),
        old(state).wf(old(g).heap.sizes()),
        old(z).wf(),
        psource matches Some(s) ==> s.0 < old(g).heap.strs().len(),
    ensures
        loading(*old(state), *old(g), *final(state), *final(g)),
        moved(*old(z), *final(z)),
        match r {
            Ok(x) => fns_at(
                old(z).bytes@,
                old(z).pos as int,
                n as int,
                old(z).big_endian,
                source_of(old(g).heap, psource),
                Seq::empty(),
            ) matches Got::Val { v, at } && at == final(z).pos && final(z).pos >= old(z).pos && fns_are(
                final(g).heap,
                x@,
                v,
            ),
            Err(e) => fns_at(
                old(z).bytes@,
                old(z).pos as int,
                n as int,
                old(z).big_endian,
                source_of(old(g).heap, psource),
                Seq::empty(),
            ) == Got::<Seq<ChunkFn>>::Bad(e),
        },
    decreases old(z).bytes@.len() - old(z).pos, 1int,
{
    let ghost s = z.bytes@;
    let ghost big = z.big_endian;
    let ghost src = source_of(g.heap, psource);
    let ghost mut acc: Seq<ChunkFn> = Seq::empty();
    let mut out: Vec<ProtoId> = Vec::new();
    let mut i: i32 = 0;
    while i < n
        invariant
            0 <= i,
            i <= n || i == 0,
            moved(*old(z), *z),
            z.pos >= old(z).pos,
            loading(*old(state), *old(g), *state, *g),
            s == z.bytes@,
            big == z.big_endian,
            psource matches Some(x) ==> x.0 < g.heap.strs().len(),
            src == source_of(g.heap, psource),
            src == source_of(old(g).heap, psource),
            fns_at(s, old(z).pos as int, n as int, big, src, Seq::empty()) == fns_at(
                s,
                z.pos as int,
                n - i,
                big,
                src,
                acc,
            ),
            fns_are(g.heap, out@, acc),
        decreases n - i,
    {
        let ghost h = g.heap;
        let ghost want = fn_at(s, z.pos as int, big, src);
        let p: ProtoId = match load_function(state, g, z, psource) {
            Ok(p) => p,
            Err(e) => {
                return Err(e);
            },
        };
        proof {
            lemma_heap_extends(h, g.heap);
            assert forall|j: int| 0 <= j < out@.len() implies fn_is(g.heap, #[trigger] out@[j], acc[j]) by {
                lemma_fn_kept(h, g.heap, out@[j], acc[j]);
            }
            acc = acc.push(want->v);
        }
        out.push(p);
        i = i + 1;
    }
    Ok(out)
}

/// Reads a function, with the functions in it.
#[verifier::rlimit(40)]
#[verifier::spinoff_prover]
fn load_function(state: &mut LuaState, g: &mut GlobalState, z: &mut Input, psource: Option<StrId>) -> (r: Result<
    ProtoId,
    LoadFault,
>)
    requires
        old(g).wf(),
        old(state).wf(old(g).heap.sizes()),
        old(z).wf(),
        psource matches Some(s) ==> s.0 < old(g).heap.strs().len(),
    ensures
        loading(*old(state), *old(g), *final(state), *final(g)),
        moved(*old(z), *final(z)),
        match r {
            Ok(p) => fn_at(
                old(z).bytes@,
                old(z).pos as int,
                old(z).big_endian,
                source_of(old(g).heap, psource),
            ) matches Got::Val { v, at } && at == final(z).pos && final(z).pos > old(z).pos && fn_is(
                final(g).heap,
                p,
                v,
            ),
            Err(e) => fn_at(
                old(z).bytes@,
                old(z).pos as int,
                old(z).big_endian,
                source_of(old(g).heap, psource),
            ) == Got::<ChunkFn>::Bad(e),
        },
    decreases old(z).bytes@.len() - old(z).pos, 0int,
{
    let ghost s = z.bytes@;
    let ghost big = z.big_endian;
    let ghost src = source_of(g.heap, psource);
    let ghost p0 = z.pos as int;
    proof {
        lemma_head(s, p0, big, src);
    }
    let ghost head = head_at(s, p0, big, src);
    let mut f: LuaProto = match load_head(state, g, z, psource) {
        Ok(f) => f,
        Err(e) => {
            return Err(e);
        },
    };
    let ghost h1 = g.heap;
    let n: i32 = match z.load_int() {
        Ok(n) => n,
        Err(e) => {
            return Err(e);
        },
    };
    assert(source_of(h1, f.source) == head->v.source);
    let ps: Vec<ProtoId> = match load_protos(state, g, z, f.source, n) {
        Ok(x) => x,
        Err(e) => {
            return Err(e);
        },
    };
    let ghost h2 = g.heap;
    let ghost ids = ps@;
    let ghost ts = fns_at(s, int_at(s, head->at)->at, n as int, big, head->v.source, Seq::empty())->v;
    proof {
        lemma_head_kept(h1, h2, f, head->v);
        assert(fns_are(h2, ids, ts));
        assert forall|i: int| 0 <= i < ids.len() implies (#[trigger] ids[i]).0 < h2.protos.items@.len() by {
            assert(fn_is(h2, ids[i], ts[i]));
        }
    }
    f.p = ps;
    let ghost f2 = f;
    match load_debug(state, g, z, &mut f) {
        Ok(()) => {},
        Err(e) => {
            return Err(e);
        },
    }
    let ghost h3 = g.heap;
    let ghost f3 = f;
    proof {
        lemma_head_kept(h2, h3, f2, head->v);
    }
    let ghost g3 = *g;
    let id: ProtoId = g.heap.new_proto(f);
    proof {
        crate::global::lemma_global_grow(g3, *g);
        lemma_state_grow(*state, h3.sizes(), g.heap.sizes());
        lemma_heap_extends(h3, g.heap);
        crate::heap::lemma_extends_trans(h2, h3, g.heap);
        let t = fn_at(s, p0, big, src)->v;
        assert(g.heap.protos.items@[id.0 as int] == f3);
        assert(head_is(g.heap, f3, t.head)) by {
            assert(head_is(h3, f3, head->v)) by {
                assert(captures_are(f3.upvalues@, head->v.captures)) by {
                    assert forall|i: int|
                        #![trigger f3.upvalues@[i]]
                        0 <= i < f3.upvalues@.len() implies f3.upvalues@[i].instack == head->v.captures[i].instack
                        && f3.upvalues@[i].idx == head->v.captures[i].idx && f3.upvalues@[i].kind
                        == head->v.captures[i].kind by {
                        assert(f2.upvalues@[i].idx == head->v.captures[i].idx);
                    }
                }
            }
            lemma_head_kept(h3, g.heap, f3, head->v);
        }
        assert(debugging_is(g.heap, f3, t.debugging)) by {
            lemma_debugging_kept(h3, g.heap, f3, t.debugging);
        }
        assert forall|i: int| 0 <= i < t.nested.len() implies fn_is(g.heap, #[trigger] f3.p@[i], t.nested[i]) by {
            assert(fn_is(h2, ids[i], ts[i]));
            lemma_fn_kept(h2, g.heap, ids[i], ts[i]);
        }
        assert(fn_is(g.heap, id, t));
    }
    Ok(id)
}

/// The bytes of a chunk behind its first one: the header, the number of variables that the
/// main function captures, and that function.
pub open spec fn chunk_at(s: Seq<u8>, from: int, version: LuaVersion, big: bool) -> Got<(u8, ChunkFn)> {
    match fields_at(s, from, header(version, big), 0) {
        Got::Bad(e) => Got::Bad(e),
        Got::Val { v: _, at } => match byte_at(s, at) {
            Got::Bad(e) => Got::Bad(e),
            Got::Val { v: n, at } => match fn_at(s, at, big, None) {
                Got::Bad(e) => Got::Bad(e),
                Got::Val { v: f, at } => Got::Val { v: (n, f), at: at },
            },
        },
    }
}

/// Whether the main function of a chunk starts at all.
pub open spec fn starts(s: Seq<u8>, from: int, version: LuaVersion, big: bool) -> bool {
    fields_at(s, from, header(version, big), 0) matches Got::Val { v: _, at } && at < s.len()
}

/// Whether a closure is the main function of a chunk: its prototype is that function, and
/// it captures as many closed `nil` variables as the chunk says.
pub open spec fn is_main(h: Heap, c: LClosureId, n: u8, f: ChunkFn) -> bool {
    let cl = h.lclosures.items@[c.0 as int];
    &&& c.0 < h.lclosures.items@.len()
    &&& fn_is(h, cl.proto, f)
    &&& cl.upvals@.len() == n
    &&& nil_vars(h, cl.upvals@)
}

/// Whether these variables are closed and `nil`.
pub open spec fn nil_vars(h: Heap, v: Seq<UpValId>) -> bool {
    forall|i: int|
        0 <= i < v.len() ==> (#[trigger] v[i]).0 < h.upvals.items@.len() && h.upvals.items@[v[i].0 as int]
            == UpVal::Closed(LuaValue::Nil)
}

/// Such variables stay as they are when the store grows.
proof fn lemma_nil_vars(a: Heap, b: Heap, v: Seq<UpValId>)
    requires
        heap_extends(a, b),
        nil_vars(a, v),
    ensures
        nil_vars(b, v),
{
}

/// Makes `n` closed `nil` variables.
fn new_upvals(state: &mut LuaState, g: &mut GlobalState, n: u8) -> (upvals: Vec<UpValId>)
    requires
        old(g).wf(),
        old(state).wf(old(g).heap.sizes()),
    ensures
        loading(*old(state), *old(g), *final(state), *final(g)),
        upvals@.len() == n,
        nil_vars(final(g).heap, upvals@),
{
    let mut upvals: Vec<UpValId> = Vec::new();
    let mut i: u8 = 0;
    while i < n
        invariant
            i <= n,
            loading(*old(state), *old(g), *state, *g),
            upvals@.len() == i,
            nil_vars(g.heap, upvals@),
        decreases n - i,
    {
        let ghost h = g.heap;
        let u: UpValId = state.new_upval_closed(g, LuaValue::Nil);
        proof {
            crate::heap::lemma_extends_trans(old(g).heap, h, g.heap);
            lemma_nil_vars(h, g.heap, upvals@);
        }
        upvals.push(u);
        i = i + 1;
    }
    upvals
}

/// Loads the main function and makes its closure.
#[verifier::rlimit(40)]
#[verifier::spinoff_prover]
fn load_main(state: &mut LuaState, g: &mut GlobalState, z: &mut Input, n: u8) -> (r: Result<LClosureId, LoadFault>)
    requires
        old(g).wf(),
        old(state).wf(old(g).heap.sizes()),
        old(z).wf(),
    ensures
        loading(*old(state), *old(g), *final(state), *final(g)),
        moved(*old(z), *final(z)),
        match r {
            Ok(c) => fn_at(old(z).bytes@, old(z).pos as int, old(z).big_endian, None) matches Got::Val { v, at }
                && at == final(z).pos && is_main(final(g).heap, c, n, v),
            Err(e) => fn_at(old(z).bytes@, old(z).pos as int, old(z).big_endian, None) == Got::<ChunkFn>::Bad(e),
        },
{
    let upvals: Vec<UpValId> = new_upvals(state, g, n);
    let ghost ups = upvals@;
    let ghost h1 = g.heap;
    let proto: ProtoId = match load_function(state, g, z, None) {
        Ok(p) => p,
        Err(e) => {
            proof {
                crate::heap::lemma_extends_trans(old(g).heap, h1, g.heap);
            }
            return Err(e);
        },
    };
    let ghost g2 = *g;
    let ghost f = fn_at(old(z).bytes@, old(z).pos as int, old(z).big_endian, None)->v;
    proof {
        lemma_nil_vars(h1, g2.heap, ups);
        assert(fn_is(g2.heap, proto, f));
    }
    let c: LClosureId = g.heap.new_lclosure(LuaLClosure { proto: proto, upvals: upvals });
    proof {
        crate::global::lemma_global_grow(g2, *g);
        lemma_state_grow(*state, g2.heap.sizes(), g.heap.sizes());
        crate::heap::lemma_extends_trans(old(g).heap, h1, g2.heap);
        crate::heap::lemma_extends_trans(old(g).heap, g2.heap, g.heap);
        lemma_fn_kept(g2.heap, g.heap, proto, f);
        lemma_nil_vars(g2.heap, g.heap, ups);
    }
    Ok(c)
}

/// Loads a chunk from an input that stands behind the first byte of it, and leaves the input
/// behind the last one. The closure of the main function is left on top of the stack, or
/// `nil` where that function is faulty.
#[verifier::rlimit(80)]
#[verifier::spinoff_prover]
pub fn undump_from(state: &mut LuaState, g: &mut GlobalState, z: &mut Input) -> (r: Result<LClosureId, LoadFault>)
    requires
        old(g).wf(),
        old(state).wf(old(g).heap.sizes()),
        old(state).top.0 < u32::MAX,
        old(z).wf(),
    ensures
        final(g).wf(),
        final(state).wf(final(g).heap.sizes()),
        *final(g) == (GlobalState { heap: final(g).heap, interned_lt: final(g).interned_lt, ..*old(g) }),
        heap_extends(old(g).heap, final(g).heap),
        intern_grown(*old(g), *final(g)),
        *final(state) == (LuaState {
            stack: final(state).stack,
            top: final(state).top,
            gc_check_needed: old(state).gc_check_needed || counted_more(*old(g), *final(g)),
            ..*old(state)
        }),
        moved(*old(z), *final(z)),
        match chunk_at(old(z).bytes@, old(z).pos as int, old(g).lua_version, old(z).big_endian) {
            Got::Bad(f) => {
                &&& r == Err::<LClosureId, LoadFault>(f)
                &&& if starts(old(z).bytes@, old(z).pos as int, old(g).lua_version, old(z).big_endian) {
                    &&& final(state).top.0 == old(state).top.0 + 1
                    &&& final(state).stack@ == stored_at(old(state).stack@, old(state).top.0 as int, LuaValue::Nil)
                } else {
                    final(state).top == old(state).top && final(state).stack@ == old(state).stack@
                }
            },
            Got::Val { v, at } => {
                &&& final(z).pos == at
                &&& r matches Ok(c) && is_main(final(g).heap, c, v.0, v.1) && final(state).stack@ == stored_at(
                    old(state).stack@,
                    old(state).top.0 as int,
                    LuaValue::Function(LuaClosure::Lua(c)),
                )
                &&& final(state).top.0 == old(state).top.0 + 1
            },
        },
{
    let ghost top = state.top.0 as int;
    match z.check_header(g.lua_version) {
        Ok(()) => {},
        Err(e) => {
            return Err(e);
        },
    }
    let n: u8 = match z.load_byte() {
        Ok(n) => n,
        Err(e) => {
            return Err(e);
        },
    };
    state.push(LuaValue::Nil);
    let c: LClosureId = match load_main(state, g, z, n) {
        Ok(c) => c,
        Err(e) => {
            return Err(e);
        },
    };
    let ghost s2 = *state;
    let at: usize = (state.top.0 - 1) as usize;
    state.stack.set(at, LuaValue::Function(LuaClosure::Lua(c)));
    proof {
        assert(state.stack@ =~= stored_at(
            old(state).stack@,
            top,
            LuaValue::Function(LuaClosure::Lua(c)),
        ));
        let w = g.heap.sizes();
        assert forall|k: int| 0 <= k < state.stack@.len() implies w.ok(#[trigger] state.stack@[k]) by {
            if k != top {
                assert(w.ok(s2.stack@[k]));
            }
        }
    }
    Ok(c)
}

/// Loads a chunk from its bytes behind the first one, in the byte order of the host. The
/// closure of its main function is left on top of the stack, or `nil` where that function
/// is faulty.
pub fn undump(state: &mut LuaState, g: &mut GlobalState, bytes: Vec<u8>, big_endian: bool) -> (r: Result<
    LClosureId,
    LuaError,
>)
    requires
        old(g).wf(),
        old(state).wf(old(g).heap.sizes()),
        old(state).top.0 < u32::MAX,
    ensures
        final(g).wf(),
        final(state).wf(final(g).heap.sizes()),
        *final(g) == (GlobalState { heap: final(g).heap, interned_lt: final(g).interned_lt, ..*old(g) }),
        heap_extends(old(g).heap, final(g).heap),
        intern_grown(*old(g), *final(g)),
        *final(state) == (LuaState {
            stack: final(state).stack,
            top: final(state).top,
            gc_check_needed: old(state).gc_check_needed || counted_more(*old(g), *final(g)),
            ..*old(state)
        }),
        match chunk_at(bytes@, 0, old(g).lua_version, big_endian) {
            Got::Bad(f) => {
                &&& r matches Err(e) && is_load_error(e, f)
                &&& if starts(bytes@, 0, old(g).lua_version, big_endian) {
                    &&& final(state).top.0 == old(state).top.0 + 1
                    &&& final(state).stack@ == stored_at(old(state).stack@, old(state).top.0 as int, LuaValue::Nil)
                } else {
                    final(state).top == old(state).top && final(state).stack@ == old(state).stack@
                }
            },
            Got::Val { v, at: _ } => {
                &&& r matches Ok(c) && is_main(final(g).heap, c, v.0, v.1) && final(state).stack@ == stored_at(
                    old(state).stack@,
                    old(state).top.0 as int,
                    LuaValue::Function(LuaClosure::Lua(c)),
                )
                &&& final(state).top.0 == old(state).top.0 + 1
            },
        },
{
    let mut z: Input = Input { bytes: bytes, pos: 0, big_endian: big_endian };
    match undump_from(state, g, &mut z) {
        Ok(c) => Ok(c),
        Err(e) => Err(load_error(e)),
    }
}

/// The bytes of a captured variable are, in this order, whether it is a register of the
/// enclosing function, its number, and its kind; those of a constant are a tag and, for a
/// number, eight bytes, the lowest first unless the host has them the other way.
pub proof fn law_small_parts(s: Seq<u8>, p: int, big: bool)
    requires
        0 <= p,
        p + 9 <= s.len(),
    ensures
        capture_at()(s, p) == (Got::Val {
            v: Capture { instack: s[p] != 0, idx: s[p + 1], kind: s[p + 2] },
            at: p + 3,
        }),
        s[p] == 0x00 ==> const_of(s, p, big) == (Got::Val { v: Konst::Nil, at: p + 1 }),
        s[p] == 0x01 ==> const_of(s, p, big) == (Got::Val { v: Konst::Bool(false), at: p + 1 }),
        s[p] == 0x11 ==> const_of(s, p, big) == (Got::Val { v: Konst::Bool(true), at: p + 1 }),
        s[p] == 0x13 ==> (const_of(s, p, big) matches Got::Val { v: Konst::Float(x), at } && at == p + 9 && x
            == eight(s, p + 1, big)),
        s[p] == 0x03 ==> (const_of(s, p, big) matches Got::Val { v: Konst::Int(x), at } && at == p + 9 && (x
            - eight(s, p + 1, big)) % 0x1_0000_0000_0000_0000 == 0),
        instr_at(big)(s, p) == (Got::Val {
            v: if big {
                s[p + 3] + 256 * s[p + 2] + 0x1_0000 * s[p + 1] + 0x100_0000 * s[p]
            } else {
                s[p] + 256 * s[p + 1] + 0x1_0000 * s[p + 2] + 0x100_0000 * s[p + 3]
            },
            at: p + 4,
        }),
{
    let w = s.subrange(p, p + 4);
    let e = s.subrange(p + 1, p + 9);
    lemma_value_four(
        if big {
            w.reverse()
        } else {
            w
        },
    );
    lemma_value_eight(
        if big {
            e.reverse()
        } else {
            e
        },
    );
}

/// The number of eight bytes.
pub open spec fn eight(s: Seq<u8>, p: int, big: bool) -> int {
    if big {
        s[p + 7] + 0x100 * s[p + 6] + 0x1_0000 * s[p + 5] + 0x100_0000 * s[p + 4] + 0x1_0000_0000 * s[p + 3]
            + 0x100_0000_0000 * s[p + 2] + 0x1_0000_0000_0000 * s[p + 1] + 0x100_0000_0000_0000 * s[p]
    } else {
        s[p] + 0x100 * s[p + 1] + 0x1_0000 * s[p + 2] + 0x100_0000 * s[p + 3] + 0x1_0000_0000 * s[p + 4]
            + 0x100_0000_0000 * s[p + 5] + 0x1_0000_0000_0000 * s[p + 6] + 0x100_0000_0000_0000 * s[p + 7]
    }
}

proof fn lemma_value_four(b: Seq<u8>)
    requires
        b.len() == 4,
    ensures
        le_value(b) == b[0] + 256 * b[1] + 0x1_0000 * b[2] + 0x100_0000 * b[3],
{
    reveal_with_fuel(le_value, 5);
    assert(b.skip(1).skip(1) =~= b.skip(2));
    assert(b.skip(2).skip(1) =~= b.skip(3));
    assert(b.skip(3).skip(1) =~= b.skip(4));
    assert(le_value(b.skip(4)) == 0);
    assert(le_value(b.skip(3)) == b[3]);
    assert(le_value(b.skip(2)) == b[2] + 256 * b[3]);
    assert(le_value(b.skip(1)) == b[1] + 256 * (b[2] + 256 * b[3]));
}

proof fn lemma_value_eight(b: Seq<u8>)
    requires
        b.len() == 8,
    ensures
        le_value(b) == b[0] + 0x100 * b[1] + 0x1_0000 * b[2] + 0x100_0000 * b[3] + 0x1_0000_0000 * b[4]
            + 0x100_0000_0000 * b[5] + 0x1_0000_0000_0000 * b[6] + 0x100_0000_0000_0000 * b[7],
{
    let t = b.skip(4);
    lemma_value_four(t);
    assert(b.skip(1).skip(1) =~= b.skip(2));
    assert(b.skip(2).skip(1) =~= b.skip(3));
    assert(b.skip(3).skip(1) =~= t);
    assert(le_value(b.skip(3)) == b[3] + 256 * le_value(t));
    assert(le_value(b.skip(2)) == b[2] + 256 * le_value(b.skip(3)));
    assert(le_value(b.skip(1)) == b[1] + 256 * le_value(b.skip(2)));
    assert(le_value(b) == b[0] + 256 * le_value(b.skip(1)));
}

/// What a function starts with: its source, the lines where it starts and ends, three bytes
/// for the parameters, whether it takes more, and its registers, and then its instructions,
/// its constants and its captured variables. A function without a source has that of the one
/// around it.
pub proof fn law_head_parts(s: Seq<u8>, p: int, big: bool, outer: Option<Seq<u8>>)
    requires
        head_at(s, p, big, outer) is Val,
    ensures
        ({
            let h = head_at(s, p, big, outer)->v;
            let name = string_at(s, p);
            let first = int_at(s, name->at);
            let last = int_at(s, first->at);
            let b = last->at;
            let code = list_at(s, b + 3, instr_at(big));
            let consts = list_at(s, code->at, const_at(big));
            let caps = list_at(s, consts->at, capture_at());
            &&& name is Val && first is Val && last is Val && code is Val && consts is Val && caps is Val
            &&& name->v is Some ==> h.source == name->v
            &&& name->v is None ==> h.source == outer
            &&& h.linedefined == first->v && h.lastlinedefined == last->v
            &&& h.numparams == s[b] && h.is_vararg == (s[b + 1] != 0) && h.maxstacksize == s[b + 2]
            &&& h.code == code->v && h.consts == consts->v && h.captures == caps->v
            &&& head_at(s, p, big, outer)->at == caps->at
        }),
{
}

/// What a function ends with: the line differences, the absolute lines with their instruction
/// before their line, the local variables with their name, start and end, and the names of the
/// captured variables, which may be missing.
pub proof fn law_debug_parts(s: Seq<u8>, p: int, captures: int, q: int)
    requires
        debugging_at(s, p, captures) is Val,
    ensures
        ({
            let d = debugging_at(s, p, captures)->v;
            let lines = list_at(s, p, line_at());
            let abs = list_at(s, lines->at, absline_at());
            let locals = list_at(s, abs->at, local_at());
            let named = int_at(s, locals->at);
            &&& d.lineinfo == lines->v && d.abslines == abs->v && d.locals == locals->v
            &&& named->v == 0 ==> d.names is None
            &&& named->v != 0 ==> d.names is Some
        }),
        absline_at()(s, q) matches Got::Val { v, at } ==> int_at(s, q) is Val && v.0 == int_at(s, q)->v && v.1 == int_at(
            s,
            int_at(s, q)->at,
        )->v,
        local_at()(s, q) matches Got::Val { v, at } ==> string_at(s, q) is Val && (string_at(s, q)->v matches Some(b) ==> v.name
            == b) && v.startpc == int_at(s, string_at(s, q)->at)->v && v.endpc == int_at(
            s,
            int_at(s, string_at(s, q)->at)->at,
        )->v,
        0 <= q < s.len() ==> line_at()(s, q) == (Got::Val {
            v: if s[q] < 128 {
                s[q] as i8
            } else {
                (s[q] - 256) as i8
            },
            at: q + 1,
        }),
{
}

} // verus!
