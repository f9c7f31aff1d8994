//! Extra arguments of vararg functions.

use vstd::prelude::*;
use vstd::string::StringSliceAdditionalSpecFns;
use crate::callinfo::CallInfo;
use crate::callinfo::CallInfoFrame;
use crate::gc_barrier::told;
use crate::gc_barrier::value_barrier;
use crate::global::GlobalState;
use crate::global::intern_grown;
use crate::global::lemma_global_grow;
use crate::global::lemma_state_grow;
use crate::heap::Heap;
use crate::heap::heap_extends;
use crate::heap::lemma_extends_trans;
use crate::heap::lemma_heap_extends;
use crate::opcode::Instruction;
use crate::opcode::InstructionExt;
use crate::opcode::spec_a;
use crate::opcode::spec_k;
use crate::state::LuaState;
use crate::string::MAX_SHORT_LEN;
use crate::table::LuaTable;
use crate::table::norm_key;
use crate::table::same_key;
use crate::value::CallInfoIdx;
use crate::value::LuaError;
use crate::value::LuaValue;
use crate::value::LuaVersion;
use crate::value::ProtoId;
use crate::value::StackIdx;
use crate::value::StrId;
use crate::value::TableId;
use crate::value::is_runtime_msg;
use crate::value::runtime_error;

verus! {

/// The low bits of the instruction that packs extra arguments into a table.
pub const OP_VARARGPACK: u32 = 84;

/// The first instruction at or after `i` that packs extra arguments, or the number
/// of instructions.
pub open spec fn find_pack(code: Seq<Instruction>, i: int) -> int
    decreases code.len() - i,
{
    if i >= code.len() {
        code.len() as int
    } else if code[i].0 as int % 128 == OP_VARARGPACK {
        i
    } else {
        find_pack(code, i + 1)
    }
}

/// The register of 5.1's implicit `arg` table: that of the first packing
/// instruction, if it is marked.
pub open spec fn spec_arg_reg(code: Seq<Instruction>) -> Option<u8> {
    let i = find_pack(code, 0);
    if i < code.len() && spec_k(code[i].0 as int) != 0 {
        Some(spec_a(code[i].0 as int) as u8)
    } else {
        None
    }
}

/// The register of 5.1's implicit `arg` table.
pub fn legacy_arg_table_reg(code: &Vec<Instruction>) -> (r: Option<u8>)
    ensures
        r == spec_arg_reg(code@),
{
    let mut i: usize = 0;
    while i < code.len()
        invariant
            i <= code@.len(),
            find_pack(code@, 0) == find_pack(code@, i as int),
        decreases code@.len() - i,
    {
        if code[i].0 % 128 == OP_VARARGPACK {
            if code[i].test_k() {
                return Some(code[i].arg_a() as u8);
            }
            return None;
        }
        i = i + 1;
    }
    None
}

/// Whether a table holds some values under 1, 2, and so on, their number under `n`,
/// and nothing else.
pub open spec fn is_arg_table(h: Heap, t: TableId, vs: Seq<LuaValue>, n: int) -> bool {
    forall|q: LuaValue|
        h.ok(q) ==> #[trigger] h.tget(t, q) == (match norm_key(q) {
            LuaValue::Int(k) => if 1 <= k <= vs.len() {
                vs[k - 1]
            } else {
                LuaValue::Nil
            },
            LuaValue::Str(s) => if h.bytes(s) == "n".spec_bytes() {
                LuaValue::Int(n as i64)
            } else {
                LuaValue::Nil
            },
            _ => LuaValue::Nil,
        })
}

/// A thread before and after the extra arguments of a frame were put below it: the
/// function and its fixed parameters move above all arguments, and the fixed
/// parameters leave `nil` behind. Above the new top nothing changes but the slot that `above`
/// names, which gets its value. Where a table was made the collector is worth a look.
pub open spec fn adjusted(
    s: LuaState,
    ci: CallInfoIdx,
    nfix: int,
    above: Option<(int, LuaValue)>,
    made: bool,
    t: LuaState,
) -> bool {
    let f = s.frame(ci).func.0 as int;
    let top = s.top.0 as int;
    let actual = top - f - 1;
    &&& t == (LuaState {
        stack: t.stack,
        top: StackIdx((top + 1 + nfix) as u32),
        call_info: t.call_info,
        gc_check_needed: s.gc_check_needed || made,
        ..s
    })
    &&& t.call_info@ == s.call_info@.update(
        ci.0 as int,
        CallInfo {
            func: StackIdx(top as u32),
            top: StackIdx((s.frame(ci).top.0 + actual + 1) as u32),
            u: CallInfoFrame { nextraargs: (actual - nfix) as i32, ..s.frame(ci).u },
            ..s.frame(ci)
        },
    )
    &&& t.stack@.len() == s.stack@.len()
    &&& t.stack@[top] == s.stack@[f]
    &&& forall|i: int| 1 <= i <= nfix ==> #[trigger] t.stack@[top + i] == s.stack@[f + i]
    &&& forall|i: int| f < i <= f + nfix ==> #[trigger] t.stack@[i] == LuaValue::Nil
    &&& forall|i: int| f + nfix < i < top ==> #[trigger] t.stack@[i] == s.stack@[i]
    &&& forall|i: int| 0 <= i <= f ==> #[trigger] t.stack@[i] == s.stack@[i]
    &&& forall|i: int|
        top + nfix < i < s.stack@.len() ==> #[trigger] t.stack@[i] == (match above {
            Some((at, v)) if at == i => v,
            _ => s.stack@[i],
        })
}

/// The slot above a frame that adjusting it writes, and what is written: in 5.5 `nil` right
/// above the frame, in 5.1 the new table `t` in its register.
pub open spec fn slot_above(v: LuaVersion, top: int, nfix: int, reg: Option<u8>, t: TableId) -> Option<(int, LuaValue)> {
    match (v, reg) {
        (LuaVersion::V55, _) => Some((top + 1 + nfix, LuaValue::Nil)),
        (LuaVersion::V51, Some(r)) => Some((top + 1 + r, LuaValue::Table(t))),
        _ => None,
    }
}

/// The number and the values of the extra arguments of a frame.
pub open spec fn extra_args(s: LuaState, ci: CallInfoIdx) -> Seq<LuaValue> {
    let n = s.frame(ci).u.nextraargs as int;
    let f = s.frame(ci).func.0 as int;
    s.stack@.subrange(f - n, f)
}

impl LuaState {
    /// Puts the extra arguments of a frame below it. The stack has room for the frame.
    pub fn adjust_varargs(
        &mut self,
        g: &mut GlobalState,
        nfixparams: u8,
        ci: CallInfoIdx,
        proto: ProtoId,
    )
        requires
            old(g).wf(),
            old(self).wf(old(g).heap.sizes()),
            ci.0 < old(self).call_info@.len(),
            old(self).frame(ci).spec_is_lua(),
            proto.0 < old(g).heap.protos.items@.len(),
            old(self).frame(ci).func.0 + 1 + nfixparams <= old(self).top.0,
            old(self).top.0 + 1 + nfixparams < old(self).stack@.len(),
            old(self).top.0 + 300 <= i32::MAX,
            old(self).frame(ci).top.0 + old(self).top.0 <= u32::MAX,
            match spec_arg_reg(old(g).heap.protos.items@[proto.0 as int].code@) {
                Some(r) => nfixparams <= r && old(self).top.0 + 1 + r < old(self).stack@.len(),
                None => true,
            },
        ensures
            final(g).wf(),
            final(self).wf(final(g).heap.sizes()),
            heap_extends(old(g).heap, final(g).heap),
            *final(g) == (GlobalState {
                heap: final(g).heap,
                interned_lt: final(g).interned_lt,
                barriers: final(g).barriers,
                ..*old(g)
            }),
            intern_grown(*old(g), *final(g)),
            ({
                let reg = spec_arg_reg(old(g).heap.protos.items@[proto.0 as int].code@);
                let t = TableId(old(g).heap.tables.items@.len() as usize);
                adjusted(
                    *old(self),
                    ci,
                    nfixparams as int,
                    slot_above(old(g).lua_version, old(self).top.0 as int, nfixparams as int, reg, t),
                    old(g).lua_version == LuaVersion::V51 && reg is Some,
                    *final(self),
                )
            }),
            old(g).lua_version != LuaVersion::V51 ==> *final(g) == *old(g),
            ({
                let reg = spec_arg_reg(old(g).heap.protos.items@[proto.0 as int].code@);
                &&& old(g).lua_version == LuaVersion::V51 && reg is Some ==> {
                    &&& final(self).stack@[old(self).top.0 + 1 + reg->0] matches LuaValue::Table(t)
                    &&& t.0 == old(g).heap.tables.items@.len()
                    &&& is_arg_table(
                        final(g).heap,
                        t,
                        extra_args(*final(self), ci),
                        final(self).frame(ci).u.nextraargs as int,
                    )
                    &&& exists|s: StrId|
                        s.0 < final(g).heap.strs().len() && #[trigger] final(g).heap.bytes(s) == "n".spec_bytes()
                            && final(g).barriers@ == told(
                            old(g).barriers@,
                            value_barrier(*old(g), t, LuaValue::Str(s)),
                        )
                }
                &&& reg is None ==> *final(g) == *old(g)
            }),
    {
        let at: usize = ci.0 as usize;
        let f: u32 = self.call_info[at].func.0;
        let top: u32 = self.top.0;
        let actual: u32 = top - f - 1;
        let nfix: u32 = nfixparams as u32;
        let nextra: i32 = (actual - nfix) as i32;
        self.call_info[at].set_nextra_args(nextra);
        let fv: LuaValue = self.stack[f as usize];
        let ghost z = old(g).heap.sizes();
        assert(z.ok(self.stack@[f as int]));
        self.push(fv);
        let mut i: u32 = 1;
        let ghost mid = *self;
        while i <= nfix
            invariant
                1 <= i <= nfix + 1,
                nfix <= 255,
                f + nfix < top,
                top + 1 + nfix < self.stack@.len(),
                top + 300 <= i32::MAX,
                self.top.0 == top + i,
                self.wf(z),
                *self == (LuaState { stack: self.stack, top: self.top, ..mid }),
                self.stack@.len() == old(self).stack@.len(),
                self.stack@[top as int] == old(self).stack@[f as int],
                forall|j: int| 1 <= j < i ==> #[trigger] self.stack@[top + j] == old(self).stack@[f + j],
                forall|j: int| f < j < f + i ==> #[trigger] self.stack@[j] == LuaValue::Nil,
                forall|j: int| f + i <= j < top ==> #[trigger] self.stack@[j] == old(self).stack@[j],
                forall|j: int| 0 <= j <= f ==> #[trigger] self.stack@[j] == old(self).stack@[j],
                forall|j: int|
                    top + i <= j < self.stack@.len() ==> #[trigger] self.stack@[j] == old(self).stack@[j],
            decreases nfix + 1 - i,
        {
            let src: usize = (f + i) as usize;
            let v: LuaValue = self.stack[src];
            assert(z.ok(self.stack@[src as int]));
            self.push(v);
            self.set_at(StackIdx(f + i), LuaValue::Nil);
            i = i + 1;
        }
        self.call_info[at].func = StackIdx(top);
        let ft: u32 = self.call_info[at].top.0;
        self.call_info[at].top = StackIdx(ft + actual + 1);
        assert(self.call_info@ =~= old(self).call_info@.update(at as int, self.frame(ci)));
        assert(self.wf(z));
        if g.lua_version == LuaVersion::V55 {
            self.set_at(StackIdx(top + 1 + nfix), LuaValue::Nil);
        }
        if g.lua_version == LuaVersion::V51 {
            if let Some(reg) = legacy_arg_table_reg(&g.heap.protos.items[proto.0].code) {
                let ghost before = *self;
                let t: TableId = self.build_legacy_arg_table(g, ci);
                self.set_at(StackIdx(top + 1 + reg as u32), LuaValue::Table(t));
                proof {
                    assert(extra_args(*self, ci) =~= extra_args(before, ci));
                }
            }
        }
    }

    /// Makes 5.1's implicit `arg` table from the extra arguments of a frame.
    fn build_legacy_arg_table(&mut self, g: &mut GlobalState, ci: CallInfoIdx) -> (t: TableId)
        requires
            old(g).wf(),
            old(self).wf(old(g).heap.sizes()),
            ci.0 < old(self).call_info@.len(),
            old(self).frame(ci).spec_is_lua(),
            0 <= old(self).frame(ci).u.nextraargs <= old(self).frame(ci).func.0,
            old(self).frame(ci).func.0 <= old(self).stack@.len(),
        ensures
            final(g).wf(),
            final(self).wf(final(g).heap.sizes()),
            heap_extends(old(g).heap, final(g).heap),
            *final(g) == (GlobalState {
                heap: final(g).heap,
                interned_lt: final(g).interned_lt,
                barriers: final(g).barriers,
                ..*old(g)
            }),
            intern_grown(*old(g), *final(g)),
            *final(self) == (LuaState { gc_check_needed: true, ..*old(self) }),
            exists|s: StrId|
                s.0 < final(g).heap.strs().len() && #[trigger] final(g).heap.bytes(s) == "n".spec_bytes()
                    && final(g).barriers@ == told(old(g).barriers@, value_barrier(*old(g), t, LuaValue::Str(s))),
            t.0 == old(g).heap.tables.items@.len(),
            t.0 < final(g).heap.tables.items@.len(),
            is_arg_table(
                final(g).heap,
                t,
                extra_args(*old(self), ci),
                old(self).frame(ci).u.nextraargs as int,
            ),
    {
        let n: u32 = self.call_info[ci.0 as usize].nextra_args() as u32;
        let f: u32 = self.call_info[ci.0 as usize].func.0;
        let ghost vs = extra_args(*self, ci);
        self.gc_check_needed = true;
        let t: TableId = g.heap.new_table(LuaTable::new());
        proof {
            lemma_global_grow(*old(g), *g);
            lemma_state_grow(*self, old(g).heap.sizes(), g.heap.sizes());
        }
        let ghost base = *g;
        let mut k: u32 = 0;
        while k < n
            invariant
                k <= n,
                n <= f <= self.stack@.len(),
                n <= i32::MAX,
                vs == self.stack@.subrange(f - n, f as int),
                g.wf(),
                self.wf(g.heap.sizes()),
                g.heap.sizes() == base.heap.sizes(),
                *g == (GlobalState { heap: g.heap, ..base }),
                g.heap == (Heap { tables: g.heap.tables, ..base.heap }),
                t.0 == old(g).heap.tables.items@.len(),
                t.0 < g.heap.tables.items@.len(),
                heap_extends(old(g).heap, g.heap),
                forall|q: LuaValue| #[trigger]
                    g.heap.tget(t, q) == (match norm_key(q) {
                        LuaValue::Int(i) => if 1 <= i <= k {
                            vs[i - 1]
                        } else {
                            LuaValue::Nil
                        },
                        _ => LuaValue::Nil,
                    }),
            decreases n - k,
        {
            let v: LuaValue = self.stack[(f - n + k) as usize];
            assert(g.heap.ok(self.stack@[f - n + k]));
            assert(v == vs[k as int]);
            let ghost before = *g;
            g.raw_set_int(t, k as i64 + 1, v);
            k = k + 1;
        }
        let ghost before = *g;
        let name: &str = "n";
        let (nk, _) = g.intern_str(name.as_bytes());
        proof {
            lemma_extends_trans(old(g).heap, before.heap, g.heap);
            lemma_heap_extends(before.heap, g.heap);
            lemma_state_grow(*self, before.heap.sizes(), g.heap.sizes());
        }
        let ghost named = *g;
        let r = g.raw_set(t, LuaValue::Str(nk), LuaValue::Int(n as i64));
        proof {
            let key = LuaValue::Str(nk);
            let tab = named.heap.tables.items@[t.0 as int];
            assert(before.heap.tables.items@[t.0 as int] == tab);
            assert forall|s: StrId| crate::table::lookup(before.heap.strs(), tab.entries@, LuaValue::Str(s))
                == LuaValue::Nil by {
                assert(before.heap.tget(t, LuaValue::Str(s)) == LuaValue::Nil);
            }
            crate::boot::lemma_no_string_keys(before.heap.strs(), named.heap.strs(), tab.entries@);
            assert(named.heap.tget(t, key) == before.heap.tget(t, key));
            assert(g.heap.bytes(nk) == "n".spec_bytes());
            assert forall|q: LuaValue| g.heap.ok(q) implies #[trigger] g.heap.tget(t, q) == (match norm_key(q) {
                LuaValue::Int(i) => if 1 <= i <= vs.len() {
                    vs[i - 1]
                } else {
                    LuaValue::Nil
                },
                LuaValue::Str(s) => if g.heap.bytes(s) == "n".spec_bytes() {
                    LuaValue::Int(n as i64)
                } else {
                    LuaValue::Nil
                },
                _ => LuaValue::Nil,
            }) by {
                if !same_key(named.heap.strs(), LuaValue::Str(nk), norm_key(q)) {
                    assert(before.heap.ok(q));
                    assert(named.heap.tget(t, q) == before.heap.tget(t, q));
                }
            }
        }
        t
    }
}

/// The extra arguments that `...` gives: those of the frame, or those in the table
/// that the function names them by.
pub open spec fn dots(s: LuaState, g: GlobalState, ci: CallInfoIdx, table: Option<TableId>, n: int) -> Seq<LuaValue> {
    match table {
        Some(t) => Seq::new(n as nat, |i: int| g.heap.tget(t, LuaValue::Int((i + 1) as i64))),
        None => extra_args(s, ci),
    }
}

/// The table that the function of a frame keeps its extra arguments in, where it
/// does.
pub open spec fn dots_table(s: LuaState, g: GlobalState, ci: CallInfoIdx) -> Option<TableId> {
    match s.closure_of(ci) {
        Some(cl) => match g.heap.protos.items@[g.heap.lclosures.items@[cl.0 as int].proto.0 as int].vararg_table_reg {
            Some(reg) => match s.at(s.frame(ci).func.0 + 1 + reg) {
                LuaValue::Table(t) => Some(t),
                _ => None,
            },
            None => None,
        },
        None => None,
    }
}

/// Whether a count found under `n` is proper: an integer from 0 to half of the
/// largest one of 32 bits.
pub open spec fn proper_count(v: LuaValue) -> bool {
    v matches LuaValue::Int(i) && 0 <= i <= 0x3fff_ffff
}

/// A thread before and after extra arguments were copied to its registers: as many
/// as are wanted, with `nil` for those that are missing, or all of them if the number
/// is negative, and then `top` is right above them.
pub open spec fn fetched(s: LuaState, where_idx: int, wanted: int, vs: Seq<LuaValue>, t: LuaState) -> bool {
    let n = if wanted < 0 {
        vs.len() as int
    } else {
        wanted
    };
    &&& t == (LuaState {
        stack: t.stack,
        top: if wanted < 0 {
            StackIdx((where_idx + n) as u32)
        } else {
            s.top
        },
        ..s
    })
    &&& t.stack@.len() == s.stack@.len()
    &&& forall|i: int|
        0 <= i < t.stack@.len() ==> #[trigger] t.stack@[i] == (if where_idx <= i < where_idx + n {
            if i - where_idx < vs.len() {
                vs[i - where_idx]
            } else {
                LuaValue::Nil
            }
        } else {
            s.stack@[i]
        })
}

impl LuaState {
    /// The number of extra arguments that `...` gives in a frame, and the table that
    /// they are in where the function names one. The table must hold a proper count.
    pub fn varargs_count(&mut self, g: &mut GlobalState, ci: CallInfoIdx) -> (r: Result<
        (Option<TableId>, u32),
        LuaError,
    >)
        requires
            old(g).wf(),
            old(self).wf(old(g).heap.sizes()),
            ci.0 < old(self).call_info@.len(),
            old(self).frame(ci).spec_is_lua(),
            old(self).frame(ci).func.0 <= 0x7fff_0000,
            old(self).frame(ci).u.nextraargs >= 0,
        ensures
            final(g).wf(),
            final(self).wf(final(g).heap.sizes()),
            heap_extends(old(g).heap, final(g).heap),
            final(g).heap.tables == old(g).heap.tables,
            final(g).heap.protos == old(g).heap.protos,
            final(g).heap.lclosures == old(g).heap.lclosures,
            *final(g) == (GlobalState {
                heap: final(g).heap,
                interned_lt: final(g).interned_lt,
                ..*old(g)
            }),
            intern_grown(*old(g), *final(g)),
            *final(self) == (LuaState {
                gc_check_needed: old(self).gc_check_needed || (dots_table(*old(self), *old(g), ci) is Some
                    && !("n".spec_bytes().len() <= MAX_SHORT_LEN && old(g).interned("n".spec_bytes()))),
                ..*old(self)
            }),
            match dots_table(*old(self), *old(g), ci) {
                Some(t) => exists|s: StrId|
                    s.0 < final(g).heap.strs().len() && #[trigger] final(g).heap.bytes(s) == "n".spec_bytes() && {
                        let v = final(g).heap.tget(t, LuaValue::Str(s));
                        if proper_count(v) {
                            r == Ok::<(Option<TableId>, u32), LuaError>((Some(t), v->Int_0 as u32))
                        } else {
                            r matches Err(e) && is_runtime_msg(
                                e,
                                "vararg table has no proper 'n'".spec_bytes(),
                            )
                        }
                    },
                None => *final(g) == *old(g) && r == Ok::<(Option<TableId>, u32), LuaError>(
                    (None, old(self).frame(ci).u.nextraargs as u32),
                ),
            },
            r matches Ok(p) ==> (p.0 matches Some(t) ==> t.0 < final(g).heap.tables.items@.len()),
    {
        if let Some(cl) = self.ci_lua_closure(ci) {
            assert(g.heap.ok(self.at(self.frame(ci).func.0 as int)));
            assert(g.heap.sizes().ok_lclosure(g.heap.lclosures.items@[cl.0 as int]));
            let proto: ProtoId = g.heap.lclosures.items[cl.0].proto;
            if let Some(reg) = g.heap.protos.items[proto.0].vararg_table_reg {
                let slot: StackIdx = StackIdx(self.call_info[ci.0 as usize].func.0 + 1 + reg as u32);
                let held: LuaValue = self.get_at(slot);
                if let LuaValue::Table(t) = held {
                    assert(g.heap.ok(self.at(slot.0 as int)));
                    let name: &str = "n";
                    let (s, made) = g.intern_str(name.as_bytes());
                    if made {
                        self.gc_check_needed = true;
                    }
                    proof {
                        lemma_heap_extends(old(g).heap, g.heap);
                        lemma_state_grow(*self, old(g).heap.sizes(), g.heap.sizes());
                    }
                    let v: LuaValue = g.heap.get(t, &LuaValue::Str(s));
                    assert(g.heap.bytes(s) == "n".spec_bytes());
                    if let LuaValue::Int(i) = v {
                        if 0 <= i && i <= 0x3fff_ffff {
                            return Ok((Some(t), i as u32));
                        }
                    }
                    return Err(runtime_error("vararg table has no proper 'n'"));
                }
            }
        }
        Ok((None, self.call_info[ci.0 as usize].nextra_args() as u32))
    }

    /// Copies extra arguments to registers, given where they are and how many. The stack
    /// has room for them.
    pub fn get_varargs(
        &mut self,
        g: &GlobalState,
        ci: CallInfoIdx,
        table: Option<TableId>,
        nextra: u32,
        where_idx: StackIdx,
        wanted: i32,
    )
        requires
            g.wf(),
            old(self).wf(g.heap.sizes()),
            ci.0 < old(self).call_info@.len(),
            table matches Some(t) ==> t.0 < g.heap.tables.items@.len(),
            table is None ==> nextra == old(self).frame(ci).u.nextraargs && nextra <= old(self).frame(ci).func.0
                && old(self).frame(ci).func.0 < where_idx.0,
            where_idx.0 + nextra <= old(self).stack@.len() || wanted >= 0,
            where_idx.0 + nextra <= u32::MAX || wanted >= 0,
            wanted >= 0 ==> where_idx.0 + wanted <= old(self).stack@.len() && where_idx.0 + wanted <= u32::MAX,
        ensures
            final(self).wf(g.heap.sizes()),
            fetched(
                *old(self),
                where_idx.0 as int,
                wanted as int,
                dots(*old(self), *g, ci, table, nextra as int),
                *final(self),
            ),
    {
        let n: u32 = if wanted < 0 {
            nextra
        } else {
            wanted as u32
        };
        if wanted < 0 {
            self.set_top(StackIdx(where_idx.0 + nextra));
        }
        let f: u32 = self.call_info[ci.0 as usize].func.0;
        let ghost vs = dots(*old(self), *g, ci, table, nextra as int);
        let ghost mid = *self;
        let mut i: u32 = 0;
        while i < n
            invariant
                i <= n,
                g.wf(),
                self.wf(g.heap.sizes()),
                where_idx.0 + n <= self.stack@.len(),
                where_idx.0 + n <= u32::MAX,
                ci.0 < old(self).call_info@.len(),
                f == old(self).frame(ci).func.0,
                vs == dots(*old(self), *g, ci, table, nextra as int),
                vs.len() == nextra,
                table matches Some(t) ==> t.0 < g.heap.tables.items@.len(),
                table is None ==> nextra == old(self).frame(ci).u.nextraargs && nextra <= f && f < where_idx.0,
                mid.stack@ == old(self).stack@,
                *self == (LuaState { stack: self.stack, ..mid }),
                self.stack@.len() == mid.stack@.len(),
                forall|j: int|
                    0 <= j < self.stack@.len() ==> #[trigger] self.stack@[j] == (if where_idx.0 <= j < where_idx.0
                        + i {
                        if j - where_idx.0 < vs.len() {
                            vs[j - where_idx.0]
                        } else {
                            LuaValue::Nil
                        }
                    } else {
                        old(self).stack@[j]
                    }),
            decreases n - i,
        {
            let v: LuaValue = if i < nextra {
                match table {
                    Some(t) => g.heap.get(t, &LuaValue::Int(i as i64 + 1)),
                    None => {
                        let v: LuaValue = self.stack[(f - nextra + i) as usize];
                        assert(g.heap.ok(self.stack@[f - nextra + i]));
                        v
                    },
                }
            } else {
                LuaValue::Nil
            };
            self.set_at(StackIdx(where_idx.0 + i), v);
            i = i + 1;
        }
    }
}

/// What `...` gives back is what was passed: after a frame's extra arguments were put
/// below it, asking for all of them gives the arguments after the fixed ones, in
/// their order.
pub proof fn law_varargs(
    s: LuaState,
    ci: CallInfoIdx,
    nfix: int,
    above: Option<(int, LuaValue)>,
    made: bool,
    t: LuaState,
    where_idx: int,
    u: LuaState,
    i: int,
)
    requires
        ci.0 < s.call_info@.len(),
        0 <= nfix,
        s.frame(ci).func.0 + 1 + nfix <= s.top.0,
        s.top.0 + 1 + nfix < s.stack@.len(),
        s.top.0 <= i32::MAX,
        adjusted(s, ci, nfix, above, made, t),
        t.frame(ci).func.0 < where_idx,
        fetched(t, where_idx, -1, extra_args(t, ci), u),
        where_idx + extra_args(t, ci).len() <= t.stack@.len(),
        0 <= i < s.top.0 - s.frame(ci).func.0 - 1 - nfix,
    ensures
        extra_args(t, ci).len() == s.top.0 - s.frame(ci).func.0 - 1 - nfix,
        u.stack@[where_idx + i] == s.stack@[s.frame(ci).func.0 + 1 + nfix + i],
{
    let f = s.frame(ci).func.0 as int;
    let n = s.top.0 - f - 1 - nfix;
    assert(t.frame(ci).func.0 == s.top.0 && t.frame(ci).u.nextraargs == n);
    assert(extra_args(t, ci)[i] == t.stack@[f + 1 + nfix + i]);
}

/// Extra arguments that are copied to registers come in their order from the first register
/// on: all of them where the number wanted is negative, and then `top` is right above, or as
/// many as are wanted, with `nil` for those that are missing. Other slots stay.
pub proof fn law_fetched(s: LuaState, at: int, wanted: int, vs: Seq<LuaValue>, t: LuaState, i: int)
    requires
        fetched(s, at, wanted, vs, t),
        0 <= at,
        at + vs.len() <= t.stack@.len() <= u32::MAX,
        at + wanted <= t.stack@.len(),
    ensures
        0 <= i < vs.len() && (wanted < 0 || i < wanted) ==> t.stack@[at + i] == vs[i],
        vs.len() <= i < wanted ==> t.stack@[at + i] == LuaValue::Nil,
        wanted < 0 ==> t.top.0 == at + vs.len(),
        wanted >= 0 ==> t.top == s.top,
        0 <= i < at ==> t.stack@[i] == s.stack@[i],
        at + vs.len() <= i < t.stack@.len() && wanted < 0 ==> t.stack@[i] == s.stack@[i],
{
}

/// A vararg function finds its fixed parameters in its first registers, right above its
/// function slot, as they were passed, and counts the arguments beyond them.
pub proof fn law_parameters(
    s: LuaState,
    ci: CallInfoIdx,
    nfix: int,
    above: Option<(int, LuaValue)>,
    made: bool,
    t: LuaState,
    i: int,
)
    requires
        ci.0 < s.call_info@.len(),
        0 <= nfix,
        s.frame(ci).func.0 + 1 + nfix <= s.top.0 <= i32::MAX,
        s.top.0 + 1 + nfix < s.stack@.len(),
        adjusted(s, ci, nfix, above, made, t),
    ensures
        t.frame(ci).func.0 == s.top.0,
        t.stack@[t.frame(ci).func.0 as int] == s.stack@[s.frame(ci).func.0 as int],
        0 <= i < nfix ==> t.stack@[t.frame(ci).func.0 + 1 + i] == s.stack@[s.frame(ci).func.0 + 1 + i],
        t.frame(ci).u.nextraargs == s.top.0 - (s.frame(ci).func.0 + 1) - nfix,
        t.top.0 == t.frame(ci).func.0 + 1 + nfix,
        extra_args(t, ci).len() == t.frame(ci).u.nextraargs,
        0 <= i < extra_args(t, ci).len() ==> extra_args(t, ci)[i] == s.stack@[s.frame(ci).func.0 + 1 + nfix + i],
{
    if 0 <= i < nfix {
        assert(t.stack@[s.top.0 + (i + 1)] == s.stack@[s.frame(ci).func.0 + (i + 1)]);
    }
}

} // verus!
