//! Loading a chunk from input that comes in pieces.

use vstd::prelude::*;
use crate::chunk::Got;
use crate::chunk::Input;
use crate::chunk::LoadFault;
use crate::chunk::block_at;
use crate::chunk::fields_at;
use crate::chunk::groups_at;
use crate::chunk::header;
use crate::chunk::int_at;
use crate::chunk::is_load_error;
use crate::chunk::lemma_groups;
use crate::chunk::lemma_string;
use crate::chunk::load_error;
use crate::chunk::string_at;
use crate::global::GlobalState;
use crate::global::intern_grown;
use crate::global::lemma_intern_grown_trans;
use crate::heap::heap_extends;
use crate::heap::lemma_extends_trans;
use crate::state::LuaState;
use crate::state::stored_at;
use crate::undump::ChunkFn;
use crate::undump::absline_at;
use crate::undump::capture_at;
use crate::undump::chunk_at;
use crate::undump::const_at;
use crate::undump::const_of;
use crate::undump::counted_more;
use crate::undump::debugging_at;
use crate::undump::ends_behind;
use crate::undump::fn_at;
use crate::undump::fns_at;
use crate::undump::head_at;
use crate::undump::instr_at;
use crate::undump::is_main;
use crate::undump::lemma_head;
use crate::undump::lemma_list;
use crate::undump::lemma_many;
use crate::undump::line_at;
use crate::undump::list_at;
use crate::undump::local_at;
use crate::undump::local_of;
use crate::undump::many_at;
use crate::undump::name_at;
use crate::undump::pair_of;
use crate::undump::starts;
use crate::undump::undump_from;
use crate::value::LClosureId;
use crate::value::LuaClosure;
use crate::value::LuaError;
use crate::value::LuaValue;
use crate::value::LuaVersion;
use crate::value::StackIdx;
use crate::zio::ChunkReader;
use crate::zio::EOZ;
use crate::zio::ZIO;
use crate::zio::behind;
use crate::zio::flat;
use crate::zio::foretold;
use crate::zio::is_end;
use crate::zio::lemma_stream_foretold;
use crate::zio::lemma_went_on;
use crate::zio::stream;
use crate::zio::went_on;

verus! {

/// Whether what was read of some bytes is what is read of more: it is, unless bytes were
/// missing.
pub open spec fn settled<T>(short: Got<T>, long: Got<T>) -> bool {
    short == Got::<T>::Bad(LoadFault::Truncated) || long == short
}

/// Bytes that are there stay when more come.
proof fn lemma_block_settled(s: Seq<u8>, t: Seq<u8>, p: int, n: int)
    requires
        0 <= n,
    ensures
        settled(block_at(s, p, n), block_at(s + t, p, n)),
{
    if 0 <= p && p + n <= s.len() {
        assert((s + t).subrange(p, p + n) =~= s.subrange(p, p + n));
    }
}

/// A number that is there stays when more bytes come.
proof fn lemma_groups_settled(s: Seq<u8>, t: Seq<u8>, p: int, x: int, limit: int)
    ensures
        settled(groups_at(s, p, x, limit), groups_at(s + t, p, x, limit)),
    decreases s.len() - p,
{
    if 0 <= p < s.len() && x < limit {
        assert((s + t)[p] == s[p]);
        if s[p] < 128 {
            lemma_groups_settled(s, t, p + 1, x * 128 + s[p] % 128, limit);
        }
    }
}

/// So does an `int`.
proof fn lemma_int_settled(s: Seq<u8>, t: Seq<u8>, p: int)
    ensures
        settled(int_at(s, p), int_at(s + t, p)),
{
    lemma_groups_settled(s, t, p, 0, i32::MAX as int / 128);
}

/// So does a string.
proof fn lemma_string_settled(s: Seq<u8>, t: Seq<u8>, p: int)
    ensures
        settled(string_at(s, p), string_at(s + t, p)),
{
    let limit = usize::MAX as int / 128;
    lemma_groups_settled(s, t, p, 0, limit);
    lemma_groups(s, p, 0, limit);
    if let Got::Val { v, at } = groups_at(s, p, 0, limit) {
        if v > 0 {
            lemma_block_settled(s, t, at, v - 1);
        }
    }
}

/// So does a constant.
proof fn lemma_const_settled(s: Seq<u8>, t: Seq<u8>, p: int, big: bool)
    ensures
        settled(const_of(s, p, big), const_of(s + t, p, big)),
{
    if 0 <= p < s.len() {
        assert((s + t)[p] == s[p]);
        lemma_block_settled(s, t, p + 1, 8);
        lemma_string_settled(s, t, p + 1);
    }
}

/// So do two numbers.
proof fn lemma_pair_settled(s: Seq<u8>, t: Seq<u8>, p: int)
    ensures
        settled(pair_of(s, p), pair_of(s + t, p)),
{
    lemma_int_settled(s, t, p);
    if let Got::Val { v, at } = int_at(s, p) {
        lemma_int_settled(s, t, at);
    }
}

/// So does a local variable.
proof fn lemma_local_settled(s: Seq<u8>, t: Seq<u8>, p: int)
    ensures
        settled(local_of(s, p), local_of(s + t, p)),
{
    lemma_string_settled(s, t, p);
    if let Got::Val { v, at } = string_at(s, p) {
        lemma_pair_settled(s, t, at);
    }
}

/// So do things one behind the other, if each does.
proof fn lemma_many_settled<T>(
    s: Seq<u8>,
    t: Seq<u8>,
    p: int,
    n: int,
    one: spec_fn(Seq<u8>, int) -> Got<T>,
    acc: Seq<T>,
)
    requires
        forall|q: int| settled(#[trigger] one(s, q), one(s + t, q)),
    ensures
        settled(many_at(s, p, n, one, acc), many_at(s + t, p, n, one, acc)),
    decreases n,
{
    if n > 0 {
        if let Got::Val { v, at } = one(s, p) {
            lemma_many_settled(s, t, at, n - 1, one, acc.push(v));
        }
    }
}

/// So does a list, if each element does.
proof fn lemma_list_settled<T>(s: Seq<u8>, t: Seq<u8>, p: int, one: spec_fn(Seq<u8>, int) -> Got<T>)
    requires
        forall|q: int| settled(#[trigger] one(s, q), one(s + t, q)),
    ensures
        settled(list_at(s, p, one), list_at(s + t, p, one)),
{
    lemma_int_settled(s, t, p);
    if let Got::Val { v, at } = int_at(s, p) {
        lemma_many_settled(s, t, at, v, one, Seq::empty());
    }
}

/// So does what a function starts with.
proof fn lemma_head_settled(s: Seq<u8>, t: Seq<u8>, p: int, big: bool, psource: Option<Seq<u8>>)
    ensures
        settled(head_at(s, p, big, psource), head_at(s + t, p, big, psource)),
{
    assert forall|q: int| settled(#[trigger] instr_at(big)(s, q), instr_at(big)(s + t, q)) by {
        lemma_block_settled(s, t, q, 4);
    }
    assert forall|q: int| settled(#[trigger] const_at(big)(s, q), const_at(big)(s + t, q)) by {
        lemma_const_settled(s, t, q, big);
    }
    assert forall|q: int| settled(#[trigger] capture_at()(s, q), capture_at()(s + t, q)) by {}
    lemma_string_settled(s, t, p);
    if let Got::Val { v: source, at } = string_at(s, p) {
        lemma_pair_settled(s, t, at);
        if let Got::Val { v: lines, at } = pair_of(s, at) {
            lemma_block_settled(s, t, at, 3);
            if let Got::Val { v: b, at } = block_at(s, at, 3) {
                lemma_list_settled(s, t, at, instr_at(big));
                if let Got::Val { v: code, at } = list_at(s, at, instr_at(big)) {
                    lemma_list_settled(s, t, at, const_at(big));
                    if let Got::Val { v: consts, at } = list_at(s, at, const_at(big)) {
                        lemma_list_settled(s, t, at, capture_at());
                    }
                }
            }
        }
    }
}

/// So does what a function ends with.
proof fn lemma_debugging_settled(s: Seq<u8>, t: Seq<u8>, p: int, captures: int)
    ensures
        settled(debugging_at(s, p, captures), debugging_at(s + t, p, captures)),
{
    assert forall|q: int| settled(#[trigger] line_at()(s, q), line_at()(s + t, q)) by {}
    assert forall|q: int| settled(#[trigger] absline_at()(s, q), absline_at()(s + t, q)) by {
        lemma_pair_settled(s, t, q);
    }
    assert forall|q: int| settled(#[trigger] local_at()(s, q), local_at()(s + t, q)) by {
        lemma_local_settled(s, t, q);
    }
    assert forall|q: int| settled(#[trigger] name_at()(s, q), name_at()(s + t, q)) by {
        lemma_string_settled(s, t, q);
    }
    lemma_list_settled(s, t, p, line_at());
    if let Got::Val { v: lineinfo, at } = list_at(s, p, line_at()) {
        lemma_list_settled(s, t, at, absline_at());
        if let Got::Val { v: abslines, at } = list_at(s, at, absline_at()) {
            lemma_list_settled(s, t, at, local_at());
            if let Got::Val { v: locals, at } = list_at(s, at, local_at()) {
                lemma_int_settled(s, t, at);
                if let Got::Val { v: named, at } = int_at(s, at) {
                    lemma_many_settled(s, t, at, captures, name_at(), Seq::empty());
                }
            }
        }
    }
}

/// So does a function.
proof fn lemma_fn_settled(s: Seq<u8>, t: Seq<u8>, p: int, big: bool, psource: Option<Seq<u8>>)
    ensures
        settled(fn_at(s, p, big, psource), fn_at(s + t, p, big, psource)),
    decreases s.len() - p, 0int, 0int,
{
    lemma_head(s, p, big, psource);
    lemma_head_settled(s, t, p, big, psource);
    if let Got::Val { v: head, at } = head_at(s, p, big, psource) {
        lemma_groups(s, at, 0, i32::MAX as int / 128);
        lemma_int_settled(s, t, at);
        if let Got::Val { v: n, at: from } = int_at(s, at) {
            lemma_fns_settled(s, t, from, n, big, head.source, Seq::empty());
            if let Got::Val { v: nested, at } = fns_at(s, from, n, big, head.source, Seq::empty()) {
                lemma_debugging_settled(s, t, at, head.captures.len() as int);
            }
        }
    }
}

/// So do functions one behind the other.
proof fn lemma_fns_settled(
    s: Seq<u8>,
    t: Seq<u8>,
    p: int,
    n: int,
    big: bool,
    psource: Option<Seq<u8>>,
    acc: Seq<ChunkFn>,
)
    ensures
        settled(fns_at(s, p, n, big, psource, acc), fns_at(s + t, p, n, big, psource, acc)),
    decreases s.len() - p, 1int, n,
{
    if n > 0 {
        lemma_fn_settled(s, t, p, big, psource);
        if let Got::Val { v, at } = fn_at(s, p, big, psource) {
            if p < at <= s.len() {
                lemma_fns_settled(s, t, at, n - 1, big, psource, acc.push(v));
            }
        }
    }
}

/// So do the parts of a header.
proof fn lemma_fields_settled(s: Seq<u8>, t: Seq<u8>, p: int, fields: Seq<(Seq<u8>, LoadFault)>, i: int)
    ensures
        settled(fields_at(s, p, fields, i), fields_at(s + t, p, fields, i)),
    decreases fields.len() - i,
{
    if 0 <= i < fields.len() {
        let n = fields[i].0.len() as int;
        lemma_block_settled(s, t, p, n);
        if let Got::Val { v, at } = block_at(s, p, n) {
            lemma_fields_settled(s, t, at, fields, i + 1);
        }
    }
}

/// What a function ends with is inside the bytes.
proof fn lemma_debugging_within(s: Seq<u8>, p: int, captures: int)
    ensures
        ends_behind(s, p, debugging_at(s, p, captures)),
{
    let limit = i32::MAX as int / 128;
    assert forall|q: int| ends_behind(s, q, #[trigger] absline_at()(s, q)) by {
        lemma_pair_within(s, q);
    }
    assert forall|q: int| ends_behind(s, q, #[trigger] local_at()(s, q)) by {
        lemma_string(s, q);
        if let Got::Val { v, at } = string_at(s, q) {
            lemma_pair_within(s, at);
        }
    }
    assert forall|q: int| ends_behind(s, q, #[trigger] name_at()(s, q)) by {
        lemma_string(s, q);
    }
    lemma_list(s, p, line_at());
    if let Got::Val { v: lineinfo, at } = list_at(s, p, line_at()) {
        lemma_list(s, at, absline_at());
        if let Got::Val { v: abslines, at } = list_at(s, at, absline_at()) {
            lemma_list(s, at, local_at());
            if let Got::Val { v: locals, at } = list_at(s, at, local_at()) {
                lemma_groups(s, at, 0, limit);
                if let Got::Val { v: named, at } = int_at(s, at) {
                    lemma_many(s, at, captures, name_at(), Seq::empty());
                }
            }
        }
    }
}

/// Two numbers are inside the bytes.
proof fn lemma_pair_within(s: Seq<u8>, p: int)
    ensures
        ends_behind(s, p, pair_of(s, p)),
{
    let limit = i32::MAX as int / 128;
    lemma_groups(s, p, 0, limit);
    if let Got::Val { v, at } = int_at(s, p) {
        lemma_groups(s, at, 0, limit);
    }
}

/// A chunk that is read to its end ends inside the bytes.
proof fn lemma_chunk_within(s: Seq<u8>, from: int, version: LuaVersion, big: bool)
    ensures
        chunk_at(s, from, version, big) matches Got::Val { v, at } ==> 0 <= at <= s.len(),
{
    if let Got::Val { v, at } = fields_at(s, from, header(version, big), 0) {
        if 0 <= at < s.len() {
            lemma_head(s, at + 1, big, None);
            if let Got::Val { v: head, at } = head_at(s, at + 1, big, None) {
                lemma_groups(s, at, 0, i32::MAX as int / 128);
                if let Got::Val { v: n, at: from } = int_at(s, at) {
                    lemma_fns_behind(s, from, n, big, head.source, Seq::empty());
                    if let Got::Val { v: nested, at } = fns_at(s, from, n, big, head.source, Seq::empty()) {
                        lemma_debugging_within(s, at, head.captures.len() as int);
                    }
                }
            }
        }
    }
}

/// Functions one behind the other end no earlier than they start.
proof fn lemma_fns_behind(
    s: Seq<u8>,
    p: int,
    n: int,
    big: bool,
    psource: Option<Seq<u8>>,
    acc: Seq<ChunkFn>,
)
    ensures
        fns_at(s, p, n, big, psource, acc) matches Got::Val { v, at } ==> p <= at,
    decreases n,
{
    if n > 0 {
        if let Got::Val { v, at } = fn_at(s, p, big, psource) {
            if p < at <= s.len() {
                lemma_fns_behind(s, at, n - 1, big, psource, acc.push(v));
            }
        }
    }
}

/// What is read of a chunk is settled by its bytes: unless bytes were missing, bytes that come
/// behind change nothing, be the chunk sound or faulty. Nor does a main function that starts
/// cease to.
pub proof fn law_chunk_settled(s: Seq<u8>, t: Seq<u8>, from: int, version: LuaVersion, big: bool)
    ensures
        settled(chunk_at(s, from, version, big), chunk_at(s + t, from, version, big)),
        starts(s, from, version, big) ==> starts(s + t, from, version, big),
        chunk_at(s, from, version, big) != Got::<(u8, ChunkFn)>::Bad(LoadFault::Truncated) ==> (starts(
            s,
            from,
            version,
            big,
        ) <==> starts(s + t, from, version, big)),
{
    lemma_fields_settled(s, t, from, header(version, big), 0);
    if let Got::Val { v, at } = fields_at(s, from, header(version, big), 0) {
        if 0 <= at < s.len() {
            assert((s + t)[at] == s[at]);
            lemma_fn_settled(s, t, at + 1, big, None);
        }
    }
}

/// Whether a reader was asked for as many chunks as the input behind `a` takes, and no more:
/// each time bytes were missing, and not again after the end, where they are missing still.
pub open spec fn asked_for(
    a: Seq<u8>,
    answers: Seq<Option<Seq<u8>>>,
    version: LuaVersion,
    big: bool,
) -> bool {
    &&& forall|n: int|
        0 <= n < answers.len() ==> lacking(a + flat(#[trigger] answers.take(n)), version, big)
    &&& forall|i: int| 0 <= i < answers.len() - 1 ==> !is_end(#[trigger] answers[i])
    &&& lacking(a + flat(answers), version, big) <==> answers.len() > 0 && is_end(answers.last())
}

/// Whether bytes are missing of a chunk.
pub open spec fn lacking(s: Seq<u8>, version: LuaVersion, big: bool) -> bool {
    chunk_at(s, 0, version, big) == Got::<(u8, ChunkFn)>::Bad(LoadFault::Truncated)
}

/// A chunk that comes in pieces is read as if it came whole: what is read of what was left and
/// the answers is what is read of all that the reader has up to its end, and what is left then
/// is what is behind the chunk.
#[verifier::rlimit(40)]
#[verifier::spinoff_prover]
pub proof fn law_pieces(
    a: Seq<u8>,
    coming: Seq<Option<Seq<u8>>>,
    answers: Seq<Option<Seq<u8>>>,
    version: LuaVersion,
    big: bool,
)
    requires
        asked_for(a, answers, version, big),
        foretold(coming, true, answers),
    ensures
        chunk_at(a + flat(answers), 0, version, big) == chunk_at(a + stream(coming), 0, version, big),
        starts(a + flat(answers), 0, version, big) <==> starts(a + stream(coming), 0, version, big),
        chunk_at(a + flat(answers), 0, version, big) matches Got::Val { v, at } ==> (a + flat(answers)).skip(at)
            + stream(behind(coming, answers.len() as int)) == (a + stream(coming)).skip(at),
{
    lemma_stream_foretold(coming, answers);
    let all = a + flat(answers);
    let rest = if answers.len() > 0 && is_end(answers.last()) {
        Seq::<u8>::empty()
    } else {
        stream(behind(coming, answers.len() as int))
    };
    assert(a + stream(coming) =~= all + rest);
    lemma_whole(all, rest, version, big);
    if let Got::Val { v, at } = chunk_at(all, 0, version, big) {
        assert(rest == stream(behind(coming, answers.len() as int)));
    }
}

/// A chunk that lacks no bytes, or has nothing behind it, is read as with what is behind it.
proof fn lemma_whole(all: Seq<u8>, rest: Seq<u8>, version: LuaVersion, big: bool)
    requires
        lacking(all, version, big) ==> rest.len() == 0,
    ensures
        chunk_at(all + rest, 0, version, big) == chunk_at(all, 0, version, big),
        starts(all + rest, 0, version, big) <==> starts(all, 0, version, big),
        chunk_at(all, 0, version, big) matches Got::Val { v, at } ==> all.skip(at) + rest == (all + rest).skip(at),
{
    law_chunk_settled(all, rest, 0, version, big);
    lemma_chunk_within(all, 0, version, big);
    if rest.len() == 0 {
        assert(all + rest =~= all);
    }
    let got = chunk_at(all, 0, version, big);
    if got is Val {
        assert(all.skip(got->at) + rest =~= (all + rest).skip(got->at));
    }
}

/// What loading leaves alone, but for the stack: it makes strings, prototypes, captured
/// variables and closures, and may make a check for collection due.
pub open spec fn only_loaded(s: LuaState, g: GlobalState, s2: LuaState, g2: GlobalState) -> bool {
    &&& g2.wf() && s2.wf(g2.heap.sizes())
    &&& g2 == (GlobalState { heap: g2.heap, interned_lt: g2.interned_lt, ..g })
    &&& heap_extends(g.heap, g2.heap)
    &&& intern_grown(g, g2)
    &&& s2 == (LuaState {
        stack: s2.stack,
        top: s2.top,
        gc_check_needed: s.gc_check_needed || counted_more(g, g2),
        ..s
    })
}

/// What came of loading a chunk with these bytes, from a state on.
#[verifier::opaque]
spec fn came_of(
    s: LuaState,
    g: GlobalState,
    s2: LuaState,
    g2: GlobalState,
    all: Seq<u8>,
    big: bool,
    r: Result<LClosureId, LoadFault>,
) -> bool {
    &&& only_loaded(s, g, s2, g2)
    &&& match chunk_at(all, 0, g.lua_version, big) {
        Got::Bad(f) => {
            &&& r == Err::<LClosureId, LoadFault>(f)
            &&& if starts(all, 0, g.lua_version, big) {
                s2.top.0 == s.top.0 + 1 && s2.stack@ == stored_at(s.stack@, s.top.0 as int, LuaValue::Nil)
            } else {
                s2.top == s.top && s2.stack@ == s.stack@
            }
        },
        Got::Val { v, at: _ } => {
            &&& r matches Ok(c) && is_main(g2.heap, c, v.0, v.1) && s2.stack@ == stored_at(
                s.stack@,
                s.top.0 as int,
                LuaValue::Function(LuaClosure::Lua(c)),
            )
            &&& s2.top.0 == s.top.0 + 1
        },
    }
}

/// Where a chunk with these bytes may be loaded for a state, though some of them were tried
/// before.
#[verifier::opaque]
spec fn may_load(s: LuaState, g: GlobalState, s1: LuaState, g1: GlobalState, all: Seq<u8>, big: bool) -> bool {
    &&& s.wf(g.heap.sizes())
    &&& s.top.0 < u32::MAX
    &&& only_loaded(s, g, s1, g1)
    &&& s1.top == s.top
    &&& s1.stack@ == s.stack@ || starts(all, 0, g.lua_version, big) && s1.stack@ == stored_at(
        s.stack@,
        s.top.0 as int,
        LuaValue::Nil,
    )
}

/// Loads a chunk where some of its bytes may have been tried before.
#[verifier::rlimit(80)]
#[verifier::spinoff_prover]
fn try_load(
    state: &mut LuaState,
    g: &mut GlobalState,
    z: &mut Input,
    Ghost(s0): Ghost<LuaState>,
    Ghost(g0): Ghost<GlobalState>,
) -> (r: Result<LClosureId, LoadFault>)
    requires
        may_load(s0, g0, *old(state), *old(g), old(z).bytes@, old(z).big_endian),
        old(z).pos == 0,
    ensures
        came_of(s0, g0, *final(state), *final(g), old(z).bytes@, old(z).big_endian, r),
        final(z).bytes == old(z).bytes,
        final(z).big_endian == old(z).big_endian,
        final(z).pos <= final(z).bytes@.len(),
        match r {
            Ok(_) => chunk_at(old(z).bytes@, 0, g0.lua_version, old(z).big_endian) matches Got::Val { v, at } && at
                == final(z).pos,
            Err(f) => chunk_at(old(z).bytes@, 0, g0.lua_version, old(z).big_endian) == Got::<(u8, ChunkFn)>::Bad(f),
        },
{
    proof {
        reveal(may_load);
        reveal(came_of);
        lemma_stored_twice(s0.stack@, s0.top.0 as int);
    }
    let ghost g1 = *g;
    let r: Result<LClosureId, LoadFault> = undump_from(state, g, z);
    proof {
        lemma_intern_grown_trans(g0, g1, *g);
        lemma_extends_trans(g0.heap, g1.heap, g.heap);
    }
    r
}

/// Makes a state ready to load the bytes again, with more of them.
#[verifier::rlimit(40)]
#[verifier::spinoff_prover]
fn ready_again(
    state: &mut LuaState,
    top: StackIdx,
    Ghost(s0): Ghost<LuaState>,
    Ghost(g0): Ghost<GlobalState>,
    Ghost(g): Ghost<GlobalState>,
    Ghost(all): Ghost<Seq<u8>>,
    Ghost(more): Ghost<Seq<u8>>,
    Ghost(big): Ghost<bool>,
)
    requires
        s0.wf(g0.heap.sizes()),
        s0.top.0 < u32::MAX,
        top == s0.top,
        came_of(s0, g0, *old(state), g, all, big, Err(LoadFault::Truncated)),
    ensures
        may_load(s0, g0, *final(state), g, all + more, big),
{
    proof {
        reveal(may_load);
        reveal(came_of);
        law_chunk_settled(all, more, 0, g0.lua_version, big);
    }
    state.set_top_idx(top);
}

/// Asks for the next piece, and hands it over behind the bytes that came. Returns whether
/// there was one.
fn next_piece<R: ChunkReader>(z: &mut ZIO<R>, bytes: &mut Vec<u8>) -> (more: bool)
    requires
        old(z).wf(),
        old(z).unread().len() == 0,
    ensures
        final(z).wf(),
        final(z).unread().len() == 0,
        final(z).log@.len() == old(z).log@.len() + 1,
        final(z).log@.drop_last() == old(z).log@,
        final(z).reader.answered() == old(z).reader.answered().push(final(z).log@.last()),
        went_on(old(z).reader, seq![final(z).log@.last()], final(z).reader),
        more == !is_end(final(z).log@.last()),
        final(bytes)@ == old(bytes)@ + (if more {
            final(z).log@.last()->0
        } else {
            Seq::<u8>::empty()
        }),
{
    let first: i32 = z.fill();
    let ghost piece = z.log@.last();
    if first == EOZ {
        assert(bytes@ =~= bytes@ + Seq::<u8>::empty());
        return false;
    }
    bytes.push(first as u8);
    z.drain_into(bytes);
    assert(bytes@ =~= old(bytes)@ + piece->0);
    true
}

/// Loads a chunk from input, as [`undump_stream`] does, and says what is wrong with it.
#[verifier::rlimit(80)]
#[verifier::spinoff_prover]
fn draw<R: ChunkReader>(state: &mut LuaState, g: &mut GlobalState, z: &mut ZIO<R>, big_endian: bool) -> (r: Result<
    LClosureId,
    LoadFault,
>)
    requires
        old(g).wf(),
        old(state).wf(old(g).heap.sizes()),
        old(state).top.0 < u32::MAX,
        old(z).wf(),
    ensures
        final(z).wf(),
        final(z).log@.len() >= old(z).log@.len(),
        final(z).log@.take(old(z).log@.len() as int) == old(z).log@,
        ({
            let answers = final(z).log@.skip(old(z).log@.len() as int);
            let all = old(z).unread() + flat(answers);
            let version = old(g).lua_version;
            &&& final(z).reader.answered() == old(z).reader.answered() + answers
            &&& went_on(old(z).reader, answers, final(z).reader)
            &&& answers.len() == 0 ==> final(z).reader == old(z).reader
            &&& asked_for(old(z).unread(), answers, version, big_endian)
            &&& came_of(*old(state), *old(g), *final(state), *final(g), all, big_endian, r)
            &&& r == Err::<LClosureId, LoadFault>(LoadFault::Truncated) ==> final(z).unread().len() == 0
            &&& exists|p: int| 0 <= p <= all.len() && final(z).unread() == #[trigger] all.skip(p)
            &&& chunk_at(all, 0, version, big_endian) matches Got::Val { v, at } ==> final(z).unread() == all.skip(at)
        }),
{
    let ghost log0 = z.log@;
    let ghost a = z.unread();
    let ghost version = g.lua_version;
    let ghost mut answers: Seq<Option<Seq<u8>>> = Seq::empty();
    let top: StackIdx = state.top;
    let mut input: Input = Input { bytes: Vec::new(), pos: 0, big_endian: big_endian };
    z.drain_into(&mut input.bytes);
    proof {
        reveal(may_load);
        assert(input.bytes@ =~= a + flat(answers));
        assert(z.log@ =~= log0 + answers);
        assert(z.reader.answered() =~= old(z).reader.answered() + answers);
        assert(behind(z.reader.coming(), 0) =~= z.reader.coming());
    }
    loop
        invariant
            may_load(*old(state), *old(g), *state, *g, input.bytes@, big_endian),
            old(state).wf(old(g).heap.sizes()),
            old(state).top.0 < u32::MAX,
            top == old(state).top,
            version == old(g).lua_version,
            log0 == old(z).log@,
            a == old(z).unread(),
            z.wf(),
            z.unread().len() == 0,
            z.log@ == log0 + answers,
            z.reader.answered() == old(z).reader.answered() + answers,
            went_on(old(z).reader, answers, z.reader),
            answers.len() == 0 ==> z.reader == old(z).reader,
            input.bytes@ == a + flat(answers),
            input.pos == 0,
            input.big_endian == big_endian,
            forall|n: int|
                0 <= n < answers.len() ==> lacking(a + flat(#[trigger] answers.take(n)), version, big_endian),
            forall|i: int| 0 <= i < answers.len() ==> !is_end(#[trigger] answers[i]),
        decreases usize::MAX - input.bytes.len(),
    {
        let ghost all = input.bytes@;
        let got: Result<LClosureId, LoadFault> = try_load(
            state,
            g,
            &mut input,
            Ghost(*old(state)),
            Ghost(*old(g)),
        );
        if !matches!(got, Err(LoadFault::Truncated)) {
            proof {
                assert(z.log@.skip(log0.len() as int) =~= answers);
                assert(z.log@.take(log0.len() as int) =~= log0);
            }
            let pos: usize = input.pos;
            z.put_back(input.bytes, pos);
            return got;
        }
        let ghost before = z.reader;
        let more: bool = next_piece(z, &mut input.bytes);
        let ghost next = z.log@.last();
        let ghost longer = answers.push(next);
        proof {
            assert(longer.drop_last() =~= answers);
            assert(z.log@ =~= z.log@.drop_last().push(next));
            assert(z.log@ =~= log0 + longer);
            assert(z.reader.answered() =~= old(z).reader.answered() + longer);
            lemma_went_on(old(z).reader, answers, before, next, z.reader);
            assert forall|n: int| 0 <= n < longer.len() implies lacking(
                a + flat(#[trigger] longer.take(n)),
                version,
                big_endian,
            ) by {
                if n < answers.len() {
                    assert(longer.take(n) =~= answers.take(n));
                } else {
                    assert(longer.take(n) =~= answers);
                }
            }
            assert forall|i: int| 0 <= i < longer.len() - 1 implies !is_end(#[trigger] longer[i]) by {
                assert(longer[i] == answers[i]);
            }
        }
        if !more {
            proof {
                assert(flat(longer) =~= flat(answers));
                assert(z.log@.skip(log0.len() as int) =~= longer);
                assert(z.log@.take(log0.len() as int) =~= log0);
                assert(z.unread() =~= all.skip(all.len() as int));
            }
            return got;
        }
        ready_again(
            state,
            top,
            Ghost(*old(state)),
            Ghost(*old(g)),
            Ghost(*g),
            Ghost(all),
            Ghost(next->0),
            Ghost(big_endian),
        );
        input.pos = 0;
        proof {
            assert(input.bytes@ =~= a + flat(longer));
            assert forall|i: int| 0 <= i < longer.len() implies !is_end(#[trigger] longer[i]) by {
                if i < answers.len() {
                    assert(longer[i] == answers[i]);
                }
            }
            answers = longer;
        }
    }
}

/// Loads a chunk from input of which the first byte was read already, in the byte order of the
/// host. The reader is asked for as many chunks as the input takes and no more, and what is
/// behind the chunk is left to be read. The closure of the main function is left on top of the
/// stack, or `nil` where that function is faulty. After a fault some of the input is left, and
/// none if bytes were missing.
///
/// The bytes are read anew from the first each time a piece has come, so a chunk in many
/// pieces may leave objects that nothing refers to in the heap.
#[verifier::rlimit(40)]
#[verifier::spinoff_prover]
pub fn undump_stream<R: ChunkReader>(
    state: &mut LuaState,
    g: &mut GlobalState,
    z: &mut ZIO<R>,
    big_endian: bool,
) -> (r: Result<LClosureId, LuaError>)
    requires
        old(g).wf(),
        old(state).wf(old(g).heap.sizes()),
        old(state).top.0 < u32::MAX,
        old(z).wf(),
    ensures
        only_loaded(*old(state), *old(g), *final(state), *final(g)),
        final(z).wf(),
        final(z).log@.len() >= old(z).log@.len(),
        final(z).log@.take(old(z).log@.len() as int) == old(z).log@,
        ({
            let answers = final(z).log@.skip(old(z).log@.len() as int);
            let all = old(z).unread() + flat(answers);
            let version = old(g).lua_version;
            &&& final(z).reader.answered() == old(z).reader.answered() + answers
            &&& went_on(old(z).reader, answers, final(z).reader)
            &&& answers.len() == 0 ==> final(z).reader == old(z).reader
            &&& asked_for(old(z).unread(), answers, version, big_endian)
            &&& match chunk_at(all, 0, version, big_endian) {
                Got::Bad(f) => {
                    &&& r matches Err(e) && is_load_error(e, f)
                    &&& f == LoadFault::Truncated ==> final(z).unread() == Seq::<u8>::empty()
                    &&& exists|p: int| 0 <= p <= all.len() && final(z).unread() == #[trigger] all.skip(p)
                    &&& if starts(all, 0, version, big_endian) {
                        &&& final(state).top.0 == old(state).top.0 + 1
                        &&& final(state).stack@ == stored_at(old(state).stack@, old(state).top.0 as int, LuaValue::Nil)
                    } else {
                        final(state).top == old(state).top && final(state).stack@ == old(state).stack@
                    }
                },
                Got::Val { v, at } => {
                    &&& final(z).unread() == all.skip(at)
                    &&& r matches Ok(c) && is_main(final(g).heap, c, v.0, v.1) && final(state).stack@ == stored_at(
                        old(state).stack@,
                        old(state).top.0 as int,
                        LuaValue::Function(LuaClosure::Lua(c)),
                    )
                    &&& final(state).top.0 == old(state).top.0 + 1
                },
            }
        }),
{
    let got: Result<LClosureId, LoadFault> = draw(state, g, z, big_endian);
    proof {
        reveal(came_of);
    }
    match got {
        Ok(c) => Ok(c),
        Err(f) => Err(load_error(f)),
    }
}

/// To store at a place twice is to store there once.
proof fn lemma_stored_twice(s: Seq<LuaValue>, at: int)
    requires
        0 <= at <= s.len(),
    ensures
        forall|v: LuaValue, w: LuaValue| #[trigger]
            stored_at(stored_at(s, at, v), at, w) == stored_at(s, at, w),
{
    assert forall|v: LuaValue, w: LuaValue| #[trigger]
        stored_at(stored_at(s, at, v), at, w) == stored_at(s, at, w) by {
        assert(stored_at(stored_at(s, at, v), at, w) =~= stored_at(s, at, w));
    }
}

} // verus!
