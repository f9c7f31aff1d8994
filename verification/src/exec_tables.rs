//! Instructions on tables: reading and writing fields, making and filling tables,
//! and lengths.

use vstd::prelude::*;
use crate::arith::wrap64;
use crate::exec::After;
use crate::exec::Frame;
use crate::exec::Step;
use crate::exec::at_instr;
use crate::exec::code_at;
use crate::exec::frame_ok;
use crate::exec::is_konst;
use crate::exec::is_reg;
use crate::exec::is_rk;
use crate::exec::is_upv;
use crate::exec::konst;
use crate::exec::lemma_near_kept;
use crate::exec::proto_of;
use crate::exec::protected;
use crate::exec::reg;
use crate::exec::reg_set;
use crate::exec::rk;
use crate::exec::traps;
use crate::exec_regs::protected_set;
use crate::gc_barrier::Barrier;
use crate::gc_barrier::told;
use crate::gc_barrier::value_barrier;
use crate::global::GlobalState;
use crate::global::grown;
use crate::heap::Heap;
use crate::meta::law_write_read;
use crate::meta::GetOutcome;
use crate::meta::IndexChain;
use crate::meta::LenOutcome;
use crate::meta::MAX_TAG_LOOP;
use crate::meta::NewIndexChain;
use crate::meta::SetOutcome;
use crate::meta::get_decided;
use crate::meta::index_chain;
use crate::meta::is_border;
use crate::meta::key_refused;
use crate::meta::newindex_chain;
use crate::meta::set_decided;
use crate::meta::stored;
use crate::meta::write_told;
use crate::opcode::Instruction;
use crate::opcode::InstructionExt;
use crate::opcode::OpCode;
use crate::opcode::spec_a;
use crate::opcode::spec_ax;
use crate::opcode::spec_b;
use crate::opcode::spec_c;
use crate::opcode::spec_k;
use crate::opcode::spec_op;
use crate::state::LuaState;
use crate::table::norm_key;
use crate::tagmethods::TagMethod;
use crate::tagmethods::handler;
use crate::tmcalls::CallRequest;
use crate::upvals::upval_of;
use crate::upvals::upval_value;
use crate::upvals::upval_written;
use crate::value::LuaError;
use crate::value::LuaValue;
use crate::value::LuaVersion;
use crate::value::StackIdx;
use crate::value::TableId;
use crate::value::TypeOp;

verus! {

/// A thread before and after what a frame does before it may call, with the call
/// set up above the frame.
pub open spec fn protected_pushed(s: LuaState, f: Frame, pc: int, vs: Seq<LuaValue>, t: LuaState) -> bool {
    exists|p: LuaState| #[trigger] protected(s, f, pc, p) && p.pushed(vs, t)
}

/// A call that a frame makes for an instruction.
pub open spec fn call_above(s: LuaState, f: Frame, nresults: i32, then: After) -> Step {
    Step::Call {
        request: CallRequest { func: s.frame(f.ci).top, nresults: nresults, yieldable: true },
        then: then,
    }
}

/// Whether a table itself has a field.
pub open spec fn has_field(g: GlobalState, t: LuaValue, k: LuaValue) -> bool {
    t is Table && g.heap.tget(t->Table_0, k) != LuaValue::Nil
}

/// The value of a captured variable of a frame's closure.
pub open spec fn upv(s: LuaState, g: GlobalState, f: Frame, n: int) -> LuaValue {
    upval_value(s, g, g.heap.upvals.items@[upval_of(g, f.cl, n).0 as int])
}

/// Whether reading a field to a register ended as it should. A field that the table
/// has is read and nothing else happens. Otherwise the handlers decide.
pub open spec fn field_read(
    s: LuaState,
    g: GlobalState,
    f: Frame,
    t: LuaValue,
    key: LuaValue,
    at: Option<StackIdx>,
    x: int,
    s2: LuaState,
    f2: Frame,
    r: Result<Step, LuaError>,
) -> bool {
    let next = Frame { pc: (f.pc + 1) as u32, ..f };
    if has_field(g, t, key) {
        &&& reg_set(s, f, x, g.heap.tget(t->Table_0, key), s2)
        &&& f2 == next
        &&& r == Ok::<Step, LuaError>(Step::Next)
    } else {
        let c = index_chain(g, t, key, true, MAX_TAG_LOOP as nat);
        match c {
            IndexChain::Value(v) => {
                &&& protected_set(s, f, f.pc + 1, x, v, s2)
                &&& f2 == (Frame { trap: traps(s, f.ci), ..next })
                &&& r == Ok::<Step, LuaError>(Step::Next)
            },
            IndexChain::Call { f: h, t: u } => {
                &&& protected_pushed(s, f, f.pc + 1, seq![h, u, key], s2)
                &&& f2 == next
                &&& r == Ok::<Step, LuaError>(
                    call_above(s, f, 1, After::Store(StackIdx((f.base.0 + x) as u32))),
                )
            },
            _ => {
                &&& protected(s, f, f.pc + 1, s2)
                &&& f2 == next
                &&& r matches Err(e) && get_decided(c, key, at, Err(e))
            },
        }
    }
}

/// Whether an instruction reads a field.
pub open spec fn is_get(op: OpCode) -> bool {
    op == OpCode::GetTabUp || op == OpCode::GetTable || op == OpCode::GetI || op == OpCode::GetField || op
        == OpCode::Self_
}

/// Whether the operands of a read exist.
pub open spec fn get_ok(s: LuaState, g: GlobalState, f: Frame, i: Instruction) -> bool {
    let w = i.word();
    &&& is_reg(s, f, spec_a(w))
    &&& match spec_op(w) {
        OpCode::GetTabUp => is_upv(g, f, spec_b(w)) && is_konst(g, f, spec_c(w)),
        OpCode::GetTable => is_reg(s, f, spec_b(w)) && is_reg(s, f, spec_c(w)),
        OpCode::GetI => is_reg(s, f, spec_b(w)),
        OpCode::GetField => is_reg(s, f, spec_b(w)) && is_konst(g, f, spec_c(w)),
        _ => is_reg(s, f, spec_b(w)) && is_rk(s, g, f, i) && is_reg(s, f, spec_a(w) + 1),
    }
}

/// What a read indexes.
pub open spec fn get_table(s: LuaState, g: GlobalState, f: Frame, i: Instruction) -> LuaValue {
    let b = spec_b(i.word());
    if spec_op(i.word()) == OpCode::GetTabUp {
        upv(s, g, f, b)
    } else {
        reg(s, f, b)
    }
}

/// The key of a read.
pub open spec fn get_key(s: LuaState, g: GlobalState, f: Frame, i: Instruction) -> LuaValue {
    let c = spec_c(i.word());
    match spec_op(i.word()) {
        OpCode::GetTable => reg(s, f, c),
        OpCode::GetI => LuaValue::Int(c as i64),
        OpCode::Self_ => rk(s, g, f, i),
        _ => konst(g, f, c),
    }
}

/// The slot that an error about what is indexed names.
pub open spec fn get_at(f: Frame, i: Instruction) -> Option<StackIdx> {
    if spec_op(i.word()) == OpCode::GetTabUp {
        None
    } else {
        Some(StackIdx((f.base.0 + spec_b(i.word())) as u32))
    }
}

/// What an instruction that reads a field does.
pub open spec fn get_done(
    s: LuaState,
    g: GlobalState,
    f: Frame,
    i: Instruction,
    s2: LuaState,
    f2: Frame,
    r: Result<Step, LuaError>,
) -> bool {
    &&& ({
        let t = get_table(s, g, f, i);
        let key = get_key(s, g, f, i);
        let at = get_at(f, i);
        let a = spec_a(i.word());
        if spec_op(i.word()) == OpCode::Self_ {
            exists|m: LuaState| #[trigger]
                reg_set(s, f, a + 1, t, m) && field_read(
                    m,
                    g,
                    f,
                    t,
                    key,
                    at,
                    a,
                    s2,
                    f2,
                    r,
                )
        } else {
            field_read(s, g, f, t, key, at, a, s2, f2, r)
        }
    })
}

impl LuaState {
    /// Reads a field to a register.
    fn read_field(
        &mut self,
        g: &GlobalState,
        f: &mut Frame,
        t: LuaValue,
        key: LuaValue,
        at: Option<StackIdx>,
        x: u32,
    ) -> (r: Result<Step, LuaError>)
        requires
            frame_ok(*old(self), *g, *old(f)),
            old(f).pc < proto_of(*g, *old(f)).code@.len(),
            is_reg(*old(self), *old(f), x as int),
            g.heap.ok(t),
            g.heap.ok(key),
        ensures
            frame_ok(*final(self), *g, *final(f)),
            field_read(*old(self), *g, *old(f), t, key, at, x as int, *final(self), *final(f), r),
    {
        if let Some(v) = g.fast_get(&t, &key) {
            self.set_reg(g, f, x, v);
            f.pc = f.pc + 1;
            return Ok(Step::Next);
        }
        let ghost c = index_chain(*g, t, key, true, MAX_TAG_LOOP as nat);
        self.protect(g, f, f.pc + 1);
        let ghost p = *self;
        f.pc = f.pc + 1;
        match g.finish_get(t, key, at) {
            Ok(GetOutcome::Value(v)) => {
                self.set_reg(g, f, x, v);
                f.trap = self.ci_trap(f.ci);
                proof {
                    assert forall|i: int| #[trigger] self.at(i) == (if i == f.base.0 + x {
                        v
                    } else {
                        old(self).at(i)
                    }) by {
                        assert(p.at(i) == old(self).at(i));
                    }
                }
                Ok(Step::Next)
            },
            Ok(GetOutcome::Call(c)) => {
                let request = self.begin_tm_res(c);
                proof {
                    lemma_near_kept(p, *self, *g, f.cl);
                    assert(protected(*old(self), *old(f), old(f).pc + 1, p));
                }
                Ok(Step::Call { request: request, then: After::Store(StackIdx(f.base.0 + x)) })
            },
            Err(e) => Err(e),
        }
    }

    /// Runs an instruction that reads a field. That for a method call first copies what
    /// is indexed to the next register.
    pub fn exec_get(&mut self, g: &GlobalState, f: &mut Frame, i: Instruction) -> (r: Result<Step, LuaError>)
        requires
            at_instr(*old(self), *g, *old(f), i),
            is_get(spec_op(i.word())),
            get_ok(*old(self), *g, *old(f), i),
        ensures
            frame_ok(*final(self), *g, *final(f)),
            get_done(*old(self), *g, *old(f), i, *final(self), *final(f), r),
    {
        let a: u32 = i.arg_a() as u32;
        let b: u32 = i.arg_b() as u32;
        let c: u32 = i.arg_c() as u32;
        let op: OpCode = i.opcode();
        if op == OpCode::GetTabUp {
            let t: LuaValue = self.upvalue_get(g, f.cl, b as usize);
            let key: LuaValue = self.proto_const(g, f, c as usize);
            return self.read_field(g, f, t, key, None, a);
        }
        let t: LuaValue = self.reg_value(g, f, b);
        let at: Option<StackIdx> = Some(StackIdx(f.base.0 + b));
        let key: LuaValue = match op {
            OpCode::GetTable => self.reg_value(g, f, c),
            OpCode::GetI => LuaValue::Int(c as i64),
            OpCode::Self_ => self.rk_value(g, f, i),
            _ => self.proto_const(g, f, c as usize),
        };
        if op == OpCode::Self_ {
            self.set_reg(g, f, a + 1, t);
            assert(reg_set(*old(self), *old(f), a + 1, t, *self));
        }
        self.read_field(g, f, t, key, at, a)
    }
}

/// Whether writing a field ended as it should. A field that the table has is written
/// and nothing else happens. Otherwise the handlers decide.
pub open spec fn field_written(
    s: LuaState,
    g: GlobalState,
    f: Frame,
    t: LuaValue,
    key: LuaValue,
    val: LuaValue,
    at: Option<StackIdx>,
    upvalue: Option<usize>,
    s2: LuaState,
    g2: GlobalState,
    f2: Frame,
    r: Result<Step, LuaError>,
) -> bool {
    let next = Frame { pc: (f.pc + 1) as u32, ..f };
    if has_field(g, t, key) {
        &&& s2 == s
        &&& g2 == (GlobalState { heap: g2.heap, barriers: g2.barriers, ..g })
        &&& stored(g.heap, t->Table_0, key, val, g2.heap)
        &&& g2.barriers@ == write_told(g, t->Table_0, key, val, false)
        &&& f2 == next
        &&& r == Ok::<Step, LuaError>(Step::Next)
    } else {
        let c = newindex_chain(g, t, key, true, MAX_TAG_LOOP as nat);
        match c {
            NewIndexChain::Call { f: h, t: u } => {
                &&& protected_pushed(s, f, f.pc + 1, seq![h, u, key, val], s2)
                &&& g2 == g
                &&& f2 == next
                &&& r == Ok::<Step, LuaError>(call_above(s, f, 0, After::Nothing))
            },
            _ => {
                &&& protected(s, f, f.pc + 1, s2)
                &&& match r {
                    Ok(step) => {
                        &&& step == Step::Next
                        &&& f2 == (Frame { trap: traps(s, f.ci), ..next })
                        &&& set_decided(c, g, key, val, at, upvalue, false, g2, Ok(SetOutcome::Done))
                    },
                    Err(e) => f2 == next && set_decided(c, g, key, val, at, upvalue, false, g2, Err(e)),
                }
            },
        }
    }
}

/// A key under which a table has something can be written.
proof fn lemma_field_key(g: GlobalState, t: LuaValue, k: LuaValue)
    requires
        g.wf(),
        g.heap.ok(t),
        has_field(g, t, k),
    ensures
        key_refused(k) is None,
{
    let tab = g.heap.tables.items@[t->Table_0.0 as int];
    assert(tab.wf(g.heap.strs()));
    crate::table::lemma_key_stored(g.heap.strs(), tab, k);
}

/// A frame stays in order where only tables change.
pub proof fn lemma_tables_changed(s: LuaState, g: GlobalState, h: GlobalState, f: Frame)
    requires
        frame_ok(s, g, f),
        h.wf(),
        h == (GlobalState { heap: h.heap, barriers: h.barriers, ..g }),
        h.heap.sizes() == g.heap.sizes(),
        h.heap == (Heap { tables: h.heap.tables, ..g.heap }),
    ensures
        frame_ok(s, h, f),
{
    assert(proto_of(h, f) == proto_of(g, f));
    assert forall|n: int| #![trigger upval_of(h, f.cl, n)] 0 <= n
        < h.heap.lclosures.items@[f.cl.0 as int].upvals@.len() implies crate::upvals::upval_near_ok(
        s,
        h.heap.upvals.items@[upval_of(h, f.cl, n).0 as int],
    ) && crate::upvals::upval_far_ok(h, h.heap.upvals.items@[upval_of(h, f.cl, n).0 as int]) by {
        assert(upval_of(g, f.cl, n) == upval_of(h, f.cl, n));
    }
}

/// Whether an instruction writes a field.
pub open spec fn is_set(op: OpCode) -> bool {
    op == OpCode::SetTabUp || op == OpCode::SetTable || op == OpCode::SetI || op == OpCode::SetField
}

/// Whether the operands of a write exist.
pub open spec fn set_ok(s: LuaState, g: GlobalState, f: Frame, i: Instruction) -> bool {
    let w = i.word();
    &&& is_rk(s, g, f, i)
    &&& match spec_op(w) {
        OpCode::SetTabUp => is_upv(g, f, spec_a(w)) && is_konst(g, f, spec_b(w)),
        OpCode::SetTable => is_reg(s, f, spec_a(w)) && is_reg(s, f, spec_b(w)),
        OpCode::SetI => is_reg(s, f, spec_a(w)),
        _ => is_reg(s, f, spec_a(w)) && is_konst(g, f, spec_b(w)),
    }
}

/// What a write indexes.
pub open spec fn set_table(s: LuaState, g: GlobalState, f: Frame, i: Instruction) -> LuaValue {
    let a = spec_a(i.word());
    if spec_op(i.word()) == OpCode::SetTabUp {
        upv(s, g, f, a)
    } else {
        reg(s, f, a)
    }
}

/// The key of a write.
pub open spec fn set_key(s: LuaState, g: GlobalState, f: Frame, i: Instruction) -> LuaValue {
    let b = spec_b(i.word());
    match spec_op(i.word()) {
        OpCode::SetTable => reg(s, f, b),
        OpCode::SetI => LuaValue::Int(b as i64),
        _ => konst(g, f, b),
    }
}

/// What an instruction that writes a field does.
pub open spec fn set_done(
    s: LuaState,
    g: GlobalState,
    f: Frame,
    i: Instruction,
    s2: LuaState,
    g2: GlobalState,
    f2: Frame,
    r: Result<Step, LuaError>,
) -> bool {
    &&& field_written(
        s,
        g,
        f,
        set_table(s, g, f, i),
        set_key(s, g, f, i),
        rk(s, g, f, i),
        if spec_op(i.word()) == OpCode::SetTabUp {
            None
        } else {
            Some(StackIdx((f.base.0 + spec_a(i.word())) as u32))
        },
        if spec_op(i.word()) == OpCode::SetTabUp {
            Some(spec_a(i.word()) as usize)
        } else {
            None
        },
        s2,
        g2,
        f2,
        r,
    )
}

/// Whether the instruction that takes a length can run.
pub open spec fn len_ok(s: LuaState, g: GlobalState, f: Frame, i: Instruction) -> bool {
    &&& spec_op(i.word()) == OpCode::Len
    &&& is_reg(s, f, spec_a(i.word()))
    &&& is_reg(s, f, spec_b(i.word()))
}

/// What the instruction that takes a length does.
pub open spec fn len_done(
    s: LuaState,
    g: GlobalState,
    f: Frame,
    i: Instruction,
    s2: LuaState,
    f2: Frame,
    r: Result<Step, LuaError>,
) -> bool {
    &&& ({
        let v = reg(s, f, spec_b(i.word()));
        let h = handler(g, v, TagMethod::Len);
        let a = spec_a(i.word());
        let next = Frame { pc: (f.pc + 1) as u32, ..f };
        if v is Str || v is Table && (g.lua_version == LuaVersion::V51 || h == LuaValue::Nil) {
            exists|n: i64|
                {
                    &&& #[trigger] is_len(g, v, n)
                    &&& protected_set(s, f, f.pc + 1, a, LuaValue::Int(n), s2)
                    &&& f2 == (Frame { trap: traps(s, f.ci), ..next })
                    &&& r == Ok::<Step, LuaError>(Step::Next)
                }
        } else if h != LuaValue::Nil {
            &&& protected_pushed(s, f, f.pc + 1, seq![h, v, v], s2)
            &&& f2 == next
            &&& r == Ok::<Step, LuaError>(
                call_above(s, f, 1, After::Store(StackIdx((f.base.0 + a) as u32))),
            )
        } else {
            &&& protected(s, f, f.pc + 1, s2)
            &&& f2 == next
            &&& r == Err::<Step, LuaError>(
                LuaError::TypeError { value: v, at: None, op: TypeOp::GetLength },
            )
        }
    })
}

impl LuaState {
    /// Writes a field.
    #[verifier::rlimit(40)]
    #[verifier::spinoff_prover]
    fn write_field(
        &mut self,
        g: &mut GlobalState,
        f: &mut Frame,
        t: LuaValue,
        key: LuaValue,
        val: LuaValue,
        at: Option<StackIdx>,
        upvalue: Option<usize>,
    ) -> (r: Result<Step, LuaError>)
        requires
            frame_ok(*old(self), *old(g), *old(f)),
            old(f).pc < proto_of(*old(g), *old(f)).code@.len(),
            old(g).heap.ok(t),
            old(g).heap.ok(key),
            old(g).heap.ok(val),
        ensures
            frame_ok(*final(self), *final(g), *final(f)),
            field_written(
                *old(self),
                *old(g),
                *old(f),
                t,
                key,
                val,
                at,
                upvalue,
                *final(self),
                *final(g),
                *final(f),
                r,
            ),
    {
        if g.fast_get(&t, &key).is_some() {
            if let LuaValue::Table(id) = t {
                proof {
                    lemma_field_key(*g, t, key);
                }
                let r: Result<SetOutcome, LuaError> = g.store(id, key, val);
                f.pc = f.pc + 1;
                proof {
                    lemma_tables_changed(*self, *old(g), *g, *f);
                }
                return match r {
                    Ok(_) => Ok(Step::Next),
                    Err(e) => Err(e),
                };
            }
        }
        self.protect(g, f, f.pc + 1);
        let ghost p = *self;
        f.pc = f.pc + 1;
        let r: Result<SetOutcome, LuaError> = g.finish_set(t, key, val, at, upvalue);
        proof {
            let c = newindex_chain(*old(g), t, key, true, MAX_TAG_LOOP as nat);
            if *g != *old(g) {
                lemma_tables_changed(p, *old(g), *g, *f);
            }
        }
        match r {
            Ok(SetOutcome::Done) => {
                f.trap = self.ci_trap(f.ci);
                Ok(Step::Next)
            },
            Ok(SetOutcome::Call(c)) => {
                let request = self.begin_tm(c.f, c.p1, c.p2, val);
                proof {
                    lemma_near_kept(p, *self, *g, f.cl);
                    assert(protected(*old(self), *old(f), old(f).pc + 1, p));
                }
                Ok(Step::Call { request: request, then: After::Nothing })
            },
            Err(e) => Err(e),
        }
    }

    /// Runs an instruction that writes a field.
    pub fn exec_set(&mut self, g: &mut GlobalState, f: &mut Frame, i: Instruction) -> (r: Result<Step, LuaError>)
        requires
            at_instr(*old(self), *old(g), *old(f), i),
            is_set(spec_op(i.word())),
            set_ok(*old(self), *old(g), *old(f), i),
        ensures
            frame_ok(*final(self), *final(g), *final(f)),
            set_done(*old(self), *old(g), *old(f), i, *final(self), *final(g), *final(f), r),
    {
        let a: u32 = i.arg_a() as u32;
        let b: u32 = i.arg_b() as u32;
        let op: OpCode = i.opcode();
        let val: LuaValue = self.rk_value(g, f, i);
        if op == OpCode::SetTabUp {
            let t: LuaValue = self.upvalue_get(g, f.cl, a as usize);
            let key: LuaValue = self.proto_const(g, f, b as usize);
            return self.write_field(g, f, t, key, val, None, Some(a as usize));
        }
        let t: LuaValue = self.reg_value(g, f, a);
        let key: LuaValue = match op {
            OpCode::SetTable => self.reg_value(g, f, b),
            OpCode::SetI => LuaValue::Int(b as i64),
            _ => self.proto_const(g, f, b as usize),
        };
        self.write_field(g, f, t, key, val, Some(StackIdx(f.base.0 + a)), None)
    }

    /// Runs the instruction that takes a length.
    pub fn exec_len(&mut self, g: &GlobalState, f: &mut Frame, i: Instruction) -> (r: Result<Step, LuaError>)
        requires
            at_instr(*old(self), *g, *old(f), i),
            len_ok(*old(self), *g, *old(f), i),
        ensures
            frame_ok(*final(self), *g, *final(f)),
            len_done(*old(self), *g, *old(f), i, *final(self), *final(f), r),
    {
        let a: u32 = i.arg_a() as u32;
        let v: LuaValue = self.reg_value(g, f, i.arg_b() as u32);
        self.protect(g, f, f.pc + 1);
        let ghost p = *self;
        f.pc = f.pc + 1;
        match g.obj_len(v) {
            Ok(LenOutcome::Value(n)) => {
                assert(is_len(*g, v, n));
                self.set_reg(g, f, a, LuaValue::Int(n));
                f.trap = self.ci_trap(f.ci);
                proof {
                    assert forall|j: int| #[trigger] self.at(j) == (if j == f.base.0 + a {
                        LuaValue::Int(n)
                    } else {
                        old(self).at(j)
                    }) by {
                        assert(p.at(j) == old(self).at(j));
                    }
                }
                Ok(Step::Next)
            },
            Ok(LenOutcome::Call(c)) => {
                let request = self.begin_tm_res(c);
                proof {
                    lemma_near_kept(p, *self, *g, f.cl);
                    assert(protected(*old(self), *old(f), old(f).pc + 1, p));
                }
                Ok(Step::Call { request: request, then: After::Store(StackIdx(f.base.0 + a)) })
            },
            Err(e) => Err(e),
        }
    }
}

/// Whether a number is the length of a string or a table that no handler is asked
/// about.
pub open spec fn is_len(g: GlobalState, v: LuaValue, n: i64) -> bool {
    match v {
        LuaValue::Str(s) => n == wrap64(g.heap.bytes(s).len() as int),
        LuaValue::Table(t) => is_border(g.heap, t, n),
        _ => false,
    }
}

/// A frame stays in order where new objects are made.
pub proof fn lemma_frame_grown(s: LuaState, g: GlobalState, h: GlobalState, f: Frame)
    requires
        frame_ok(s, g, f),
        h.wf(),
        h.threads == g.threads,
        h.tmname == g.tmname,
        crate::heap::heap_extends(g.heap, h.heap),
    ensures
        frame_ok(s, h, f),
        proto_of(h, f) == proto_of(g, f),
{
    crate::heap::lemma_heap_extends(g.heap, h.heap);
    crate::global::lemma_state_grow(s, g.heap.sizes(), h.heap.sizes());
    let c = g.heap.lclosures.items@[f.cl.0 as int];
    assert(g.heap.sizes().ok_lclosure(c));
    assert(h.heap.lclosures.items@[f.cl.0 as int] == c);
    assert(proto_of(h, f) == proto_of(g, f));
    assert forall|n: int| #![trigger upval_of(h, f.cl, n)] 0 <= n < c.upvals@.len() implies
        crate::upvals::upval_near_ok(s, h.heap.upvals.items@[upval_of(h, f.cl, n).0 as int])
        && crate::upvals::upval_far_ok(h, h.heap.upvals.items@[upval_of(h, f.cl, n).0 as int]) by {
        let u = upval_of(g, f.cl, n);
        assert(u == upval_of(h, f.cl, n));
        assert(c.upvals@[n].0 < g.heap.sizes().upvals);
        assert(h.heap.upvals.items@[u.0 as int] == g.heap.upvals.items@[u.0 as int]);
        assert(h.thread_at(0) == g.thread_at(0));
    }
}

/// A frame stays in order where its thread keeps its frames, but for the saved
/// instruction counter, and its stack does not shrink.
pub proof fn lemma_frame_kept(s: LuaState, t: LuaState, g: GlobalState, f: Frame)
    requires
        frame_ok(s, g, f),
        t.wf(g.heap.sizes()),
        t.ci == s.ci,
        t.cached_thread_id == s.cached_thread_id,
        t.stack@.len() >= s.stack@.len(),
        t.frame(f.ci).func == s.frame(f.ci).func,
        t.frame(f.ci).top == s.frame(f.ci).top,
        t.frame(f.ci).spec_is_lua(),
    ensures
        frame_ok(t, g, f),
{
    lemma_near_kept(s, t, g, f.cl);
}

/// How many array entries an instruction asks room for.
pub open spec fn array_size(g: GlobalState, f: Frame, i: Instruction) -> int {
    spec_c(i.word()) + (if spec_k(i.word()) != 0 {
        spec_ax(code_at(g, f, f.pc + 1).word()) * 256
    } else {
        0
    })
}

/// How many hash entries an instruction asks room for: a power of two, or none.
pub open spec fn hash_size(i: Instruction) -> int {
    if spec_b(i.word()) == 0 {
        0
    } else {
        vstd::arithmetic::power2::pow2((spec_b(i.word()) - 1) as nat) as int
    }
}

fn power_of_two(n: u32) -> (r: u32)
    requires
        n <= 30,
    ensures
        r == vstd::arithmetic::power2::pow2(n as nat),
{
    let mut r: u32 = 1;
    let mut i: u32 = 0;
    proof {
        vstd::arithmetic::power2::lemma2_to64();
    }
    while i < n
        invariant
            i <= n <= 30,
            r == vstd::arithmetic::power2::pow2(i as nat),
        decreases n - i,
    {
        proof {
            vstd::arithmetic::power2::lemma_pow2_unfold((i + 1) as nat);
            vstd::arithmetic::power2::lemma_pow2_strictly_increases(i as nat, 31);
            vstd::arithmetic::power2::lemma2_to64();
        }
        r = r * 2;
        i = i + 1;
    }
    r
}

/// Whether the instruction that makes a table can run.
pub open spec fn newtable_ok(s: LuaState, g: GlobalState, f: Frame, i: Instruction) -> bool {
    &&& spec_op(i.word()) == OpCode::NewTable
    &&& is_reg(s, f, spec_a(i.word()))
    &&& f.pc + 1 < proto_of(g, f).code@.len()
    &&& spec_b(i.word()) <= 31
    &&& array_size(g, f, i) <= i32::MAX
}

/// What the instruction that makes a table does.
pub open spec fn newtable_done(
    s: LuaState,
    g: GlobalState,
    f: Frame,
    i: Instruction,
    s2: LuaState,
    g2: GlobalState,
    f2: Frame,
    r: Step,
) -> bool {
    &&& grown(g, g2)
    &&& ({
        let t = TableId(g.heap.tables.items@.len() as usize);
        let ra = f.base.0 + spec_a(i.word());
        let c = s.frame(f.ci);
        &&& t.0 == g.heap.tables.items@.len()
        &&& g2.heap.tables.items@.len() == g.heap.tables.items@.len() + 1
        &&& g2.heap.tmeta(t) is None
        &&& forall|k: LuaValue| #[trigger] g2.heap.tget(t, k) == LuaValue::Nil
        &&& s2 == (LuaState {
            stack: s2.stack,
            top: StackIdx((ra + 1) as u32),
            call_info: s2.call_info,
            gc_check_needed: true,
            ..s
        })
        &&& s2.stack@ == s.stack@.update(ra, LuaValue::Table(t))
        &&& s2.call_info@ == s.call_info@.update(
            f.ci.0 as int,
            crate::callinfo::CallInfo {
                u: crate::callinfo::CallInfoFrame { savedpc: (f.pc + 2) as u32, ..c.u },
                ..c
            },
        )
        &&& f2 == (Frame { pc: (f.pc + 2) as u32, ..f })
        &&& r == Step::NewTable {
            table: t,
            array: array_size(g, f, i) as u32,
            hash: hash_size(i) as u32,
        }
    })
}

/// Whether the instruction that writes a captured variable can run.
pub open spec fn setupval_ok(s: LuaState, g: GlobalState, f: Frame, i: Instruction) -> bool {
    &&& spec_op(i.word()) == OpCode::SetUpVal
    &&& is_reg(s, f, spec_a(i.word()))
    &&& is_upv(g, f, spec_b(i.word()))
}

/// What the instruction that writes a captured variable does.
pub open spec fn setupval_done(
    s: LuaState,
    g: GlobalState,
    f: Frame,
    i: Instruction,
    s2: LuaState,
    g2: GlobalState,
    f2: Frame,
    r: Step,
) -> bool {
    &&& upval_written(
        s,
        g,
        upval_of(g, f.cl, spec_b(i.word())),
        reg(s, f, spec_a(i.word())),
        s2,
        g2,
    )
    &&& f2 == (Frame { pc: (f.pc + 1) as u32, ..f })
    &&& r == Step::Next
}

impl LuaState {
    /// Runs the instruction that makes a table. Its second word gives more of the size.
    pub fn exec_newtable(&mut self, g: &mut GlobalState, f: &mut Frame, i: Instruction) -> (r: Step)
        requires
            at_instr(*old(self), *old(g), *old(f), i),
            newtable_ok(*old(self), *old(g), *old(f), i),
        ensures
            frame_ok(*final(self), *final(g), *final(f)),
            newtable_done(*old(self), *old(g), *old(f), i, *final(self), *final(g), *final(f), r),
    {
        let a: u32 = i.arg_a() as u32;
        let b: u32 = i.arg_b() as u32;
        let hash: u32 = if b > 0 {
            power_of_two(b - 1)
        } else {
            0
        };
        let mut array: u32 = i.arg_c() as u32;
        if i.test_k() {
            let extra: Instruction = self.proto_code(g, f, f.pc + 1);
            array = array + extra.arg_ax() as u32 * 256;
        }
        let ra: StackIdx = StackIdx(f.base.0 + a);
        self.set_top(StackIdx(ra.0 + 1));
        let t: TableId = self.new_table(g);
        proof {
            lemma_frame_grown(*old(self), *old(g), *g, *f);
        }
        self.set_at(ra, LuaValue::Table(t));
        f.pc = f.pc + 2;
        self.set_ci_savedpc(f.ci, f.pc);
        proof {
            lemma_frame_kept(*old(self), *self, *g, *f);
            crate::heap::lemma_heap_extends(old(g).heap, g.heap);
        }
        Step::NewTable { table: t, array: array, hash: hash }
    }

    /// Runs the instruction that writes a captured variable.
    pub fn exec_setupval(&mut self, g: &mut GlobalState, f: &mut Frame, i: Instruction) -> (r: Step)
        requires
            at_instr(*old(self), *old(g), *old(f), i),
            setupval_ok(*old(self), *old(g), *old(f), i),
        ensures
            frame_ok(*final(self), *final(g), *final(f)),
            setupval_done(*old(self), *old(g), *old(f), i, *final(self), *final(g), *final(f), r),
    {
        let v: LuaValue = self.reg_value(g, f, i.arg_a() as u32);
        self.upvalue_set(g, f.cl, i.arg_b() as usize, v);
        f.pc = f.pc + 1;
        proof {
            let uv = upval_of(*old(g), f.cl, spec_b(i.word()));
            assert(old(g).heap.sizes().ok_lclosure(old(g).heap.lclosures.items@[f.cl.0 as int]));
            lemma_upvals_after_write(*old(self), *old(g), uv, v, *self, *g, f.cl);
            assert(proto_of(*g, *f) == proto_of(*old(g), *f));
        }
        Step::Next
    }
}

/// Captured variables stay at hand when one is written.
proof fn lemma_upvals_after_write(
    s: LuaState,
    g: GlobalState,
    uv: crate::value::UpValId,
    val: LuaValue,
    t: LuaState,
    h: GlobalState,
    cl: crate::value::LClosureId,
)
    requires
        crate::exec::upvals_near(s, g, cl),
        upval_written(s, g, uv, val, t, h),
        uv.0 < g.heap.upvals.items@.len(),
        crate::upvals::upval_near_ok(s, g.heap.upvals.items@[uv.0 as int]),
        crate::upvals::upval_far_ok(g, g.heap.upvals.items@[uv.0 as int]),
        g.heap.sizes().ok_lclosure(g.heap.lclosures.items@[cl.0 as int]),
        g.wf(),
        h.wf(),
        h.heap.sizes() == g.heap.sizes(),
    ensures
        crate::exec::upvals_near(t, h, cl),
{
    assert forall|n: int| #![trigger upval_of(h, cl, n)] 0 <= n
        < h.heap.lclosures.items@[cl.0 as int].upvals@.len() implies crate::upvals::upval_near_ok(
        t,
        h.heap.upvals.items@[upval_of(h, cl, n).0 as int],
    ) && crate::upvals::upval_far_ok(h, h.heap.upvals.items@[upval_of(h, cl, n).0 as int]) by {
        let u = upval_of(g, cl, n);
        assert(u == upval_of(h, cl, n));
        assert(u.0 < g.heap.upvals.items@.len());
        let w = g.heap.upvals.items@[u.0 as int];
        assert(crate::upvals::upval_near_ok(s, w) && crate::upvals::upval_far_ok(g, w));
        assert(h.heap.upvals.items@[u.0 as int] == w || h.heap.upvals.items@[u.0 as int] is Closed);
        if let crate::heap::UpVal::Open { thread, idx } = w {
            lemma_thread_kept(s, g, uv, val, t, h, thread);
        }
    }
}

/// A write to a captured variable keeps every thread's place and the size of its
/// stack.
proof fn lemma_thread_kept(
    s: LuaState,
    g: GlobalState,
    uv: crate::value::UpValId,
    val: LuaValue,
    t: LuaState,
    h: GlobalState,
    id: u64,
)
    requires
        upval_written(s, g, uv, val, t, h),
        uv.0 < g.heap.upvals.items@.len(),
        crate::upvals::upval_near_ok(s, g.heap.upvals.items@[uv.0 as int]),
        crate::upvals::upval_far_ok(g, g.heap.upvals.items@[uv.0 as int]),
        g.wf(),
        h.wf(),
    ensures
        h.thread_at(id) == g.thread_at(id),
        g.thread_at(id) matches Some(i) ==> (h.threads@[i].state is Some <==> g.threads@[i].state is Some) && (
        g.threads@[i].state is Some ==> h.threads@[i].state->0.stack@.len()
            == g.threads@[i].state->0.stack@.len()),
{
    assert(crate::global::threads_ok(g.heap.sizes(), g.threads@));
    assert(crate::global::threads_ok(h.heap.sizes(), h.threads@));
    assert(h.threads@.len() == g.threads@.len());
    assert forall|j: int| 0 <= j < g.threads@.len() implies (#[trigger] h.threads@[j]).id == g.threads@[j].id && (
    h.threads@[j].state is Some <==> g.threads@[j].state is Some) && (g.threads@[j].state is Some
        ==> h.threads@[j].state->0.stack@.len() == g.threads@[j].state->0.stack@.len()) by {
        if let crate::heap::UpVal::Open { thread, idx } = g.heap.upvals.items@[uv.0 as int] {
            if thread != s.cached_thread_id {
                if let Some(i) = g.thread_at(thread) {
                    assert(g.threads@[i].id == thread);
                }
            }
        }
    }
    if let Some(j) = g.thread_at(id) {
        assert(g.threads@[j].id == id);
        assert(h.threads@[j].id == id);
        let k = h.thread_at(id)->0;
        assert(h.threads@[k].id == id);
        if j < k {
            assert(h.threads@[j].id != h.threads@[k].id);
        } else if k < j {
            assert(h.threads@[k].id != h.threads@[j].id);
        }
    } else if let Some(k) = h.thread_at(id) {
        assert(h.threads@[k].id == id);
        assert(g.threads@[k].id == id);
    }
}

/// Whether consecutive integer keys of a table, from the one after `first` on, got
/// some values, and nothing else changed.
pub open spec fn list_stored(a: Heap, t: TableId, first: int, vs: Seq<LuaValue>, b: Heap) -> bool {
    &&& b == (Heap { tables: b.tables, ..a })
    &&& b.tables == (crate::heap::Arena { items: b.tables.items, ..a.tables })
    &&& b.tables.items@.len() == a.tables.items@.len()
    &&& forall|i: int|
        0 <= i < a.tables.items@.len() && i != t.0 ==> #[trigger] b.tables.items@[i] == a.tables.items@[i]
    &&& b.tables.items@[t.0 as int].metatable == a.tables.items@[t.0 as int].metatable
    &&& b.tables.items@[t.0 as int].weak_mode == a.tables.items@[t.0 as int].weak_mode
    &&& forall|q: LuaValue| #[trigger]
        b.tget(t, q) == (match norm_key(q) {
            LuaValue::Int(n) if first < n <= first + vs.len() => vs[n - first - 1],
            _ => a.tget(t, q),
        })
}

/// The barriers after values were written to a table from the last one down to the one at
/// `k`.
pub open spec fn list_told(g: GlobalState, t: TableId, vs: Seq<LuaValue>, k: int) -> Seq<Barrier>
    decreases vs.len() - k,
{
    if k >= vs.len() {
        g.barriers@
    } else {
        told(list_told(g, t, vs, k + 1), value_barrier(g, t, vs[k]))
    }
}

/// How many values the instruction that fills a table stores.
pub open spec fn list_count(s: LuaState, f: Frame, i: Instruction) -> int {
    if spec_b(i.word()) == 0 {
        s.top.0 - (f.base.0 + spec_a(i.word())) - 1
    } else {
        spec_b(i.word())
    }
}

/// Whether the instruction that fills a table can run.
pub open spec fn setlist_ok(s: LuaState, g: GlobalState, f: Frame, i: Instruction) -> bool {
    &&& spec_op(i.word()) == OpCode::SetList
    &&& is_reg(s, f, spec_a(i.word()))
    &&& reg(s, f, spec_a(i.word())) is Table
    &&& 0 <= list_count(s, f, i)
    &&& f.base.0 + spec_a(i.word()) + list_count(s, f, i) < s.stack@.len()
    &&& spec_k(i.word()) != 0 ==> f.pc + 1 < proto_of(g, f).code@.len()
    &&& array_size(g, f, i) + list_count(s, f, i) <= i32::MAX
}

/// What the instruction that fills a table does.
pub open spec fn setlist_done(
    s: LuaState,
    g: GlobalState,
    f: Frame,
    i: Instruction,
    s2: LuaState,
    g2: GlobalState,
    f2: Frame,
    r: Step,
) -> bool {
    &&& g2 == (GlobalState { heap: g2.heap, barriers: g2.barriers, ..g })
    &&& ({
        let ra = f.base.0 + spec_a(i.word());
        let n = list_count(s, f, i);
        &&& g2.barriers@ == list_told(g, s.stack@[ra]->Table_0, s.stack@.subrange(ra + 1, ra + 1 + n), 0)
        &&& list_stored(
            g.heap,
            s.stack@[ra]->Table_0,
            array_size(g, f, i),
            s.stack@.subrange(ra + 1, ra + 1 + n),
            g2.heap,
        )
        &&& s2 == (LuaState {
            stack: s2.stack,
            top: if spec_b(i.word()) == 0 {
                s.top
            } else {
                s.frame(f.ci).top
            },
            ..s
        })
        &&& forall|j: int| #[trigger] s2.at(j) == s.at(j)
        &&& f2 == (Frame {
            pc: (f.pc + (if spec_k(i.word()) != 0 {
                2int
            } else {
                1
            })) as u32,
            ..f
        })
    })
    &&& r == Step::Next
}

impl LuaState {
    /// Runs the instruction that fills a table with the values above it.
    #[verifier::rlimit(60)]
    #[verifier::spinoff_prover]
    pub fn exec_setlist(&mut self, g: &mut GlobalState, f: &mut Frame, i: Instruction) -> (r: Step)
        requires
            at_instr(*old(self), *old(g), *old(f), i),
            setlist_ok(*old(self), *old(g), *old(f), i),
        ensures
            frame_ok(*final(self), *final(g), *final(f)),
            setlist_done(*old(self), *old(g), *old(f), i, *final(self), *final(g), *final(f), r),
    {
        let a: u32 = i.arg_a() as u32;
        let b: u32 = i.arg_b() as u32;
        let ra: u32 = f.base.0 + a;
        let ghost vs = self.stack@.subrange(ra + 1, ra + 1 + list_count(*self, *f, i));
        let tv: LuaValue = self.reg_value(g, f, a);
        let n: u32 = if b == 0 {
            self.top.0 - ra - 1
        } else {
            let top: StackIdx = self.ci_top(f.ci);
            self.set_top(top);
            b
        };
        proof {
            lemma_frame_kept(*old(self), *self, *g, *f);
        }
        let mut first: u32 = i.arg_c() as u32;
        let mut pc: u32 = f.pc + 1;
        if i.test_k() {
            let extra: Instruction = self.proto_code(g, f, pc);
            pc = pc + 1;
            first = first + extra.arg_ax() as u32 * 256;
        }
        if let LuaValue::Table(t) = tv {
            self.fill_list(g, f, t, first, ra, n);
            assert(self.stack@.subrange(ra + 1, ra + 1 + n) =~= vs) by {
                assert forall|j: int| 0 <= j < n implies self.stack@[ra + 1 + j] == #[trigger] vs[j] by {
                    assert(self.at(ra + 1 + j) == old(self).at(ra + 1 + j));
                }
            }
        }
        f.pc = pc;
        Step::Next
    }

    /// Stores the values above a slot under consecutive integer keys, the last first.
    fn fill_list(&self, g: &mut GlobalState, f: &Frame, t: TableId, first: u32, ra: u32, n: u32)
        requires
            frame_ok(*self, *old(g), *f),
            t.0 < old(g).heap.tables.items@.len(),
            ra + n < self.stack@.len(),
            ra + n <= u32::MAX,
            first + n <= i32::MAX,
        ensures
            frame_ok(*self, *final(g), *f),
            *final(g) == (GlobalState { heap: final(g).heap, barriers: final(g).barriers, ..*old(g) }),
            final(g).barriers@ == list_told(*old(g), t, self.stack@.subrange(ra + 1, ra + 1 + n), 0),
            proto_of(*final(g), *f) == proto_of(*old(g), *f),
            list_stored(old(g).heap, t, first as int, self.stack@.subrange(ra + 1, ra + 1 + n), final(g).heap),
    {
        let ghost all = self.stack@.subrange(ra + 1, ra + 1 + n);
        let mut k: u32 = n;
        assert(all.subrange(k as int, n as int) =~= Seq::<LuaValue>::empty());
        while k > 0
            invariant
                k <= n,
                frame_ok(*self, *g, *f),
                t.0 < g.heap.tables.items@.len(),
                ra + n < self.stack@.len(),
                ra + n <= u32::MAX,
                first + n <= i32::MAX,
                *g == (GlobalState { heap: g.heap, barriers: g.barriers, ..*old(g) }),
                g.barriers@ == list_told(*old(g), t, all, k as int),
                all == self.stack@.subrange(ra + 1, ra + 1 + n),
                list_stored(old(g).heap, t, (first + k) as int, all.subrange(k as int, n as int), g.heap),
            decreases k,
        {
            let v: LuaValue = self.stack[(ra + k) as usize];
            assert(g.heap.ok(self.stack@[ra + k]));
            let ghost before = *g;
            let key: LuaValue = LuaValue::Int((first + k) as i64);
            let r: Result<SetOutcome, LuaError> = g.store(t, key, v);
            proof {
                lemma_tables_changed(*self, before, *g, *f);
                assert(v == all[k - 1]);
                let vs = all.subrange(k as int, n as int);
                let ws = all.subrange(k - 1, n as int);
                assert forall|q: LuaValue| #[trigger] g.heap.tget(t, q) == (match norm_key(q) {
                    LuaValue::Int(m) if first + k - 1 < m <= first + k - 1 + ws.len() => ws[m - (first + k - 1) - 1],
                    _ => old(g).heap.tget(t, q),
                }) by {
                    assert(before.heap.tget(t, q) == (match norm_key(q) {
                        LuaValue::Int(m) if first + k < m <= first + k + vs.len() => vs[m - (first + k) - 1],
                        _ => old(g).heap.tget(t, q),
                    }));
                    if let LuaValue::Int(m) = norm_key(q) {
                        if first + k < m <= first + k + vs.len() {
                            assert(ws[m - (first + k - 1) - 1] == vs[m - (first + k) - 1]);
                        }
                    }
                }
            }
            k = k - 1;
        }
        assert(all.subrange(0, n as int) =~= all);
    }
}

/// Filling a table tells the collector of every object that is stored.
pub proof fn law_list_told(g: GlobalState, t: TableId, vs: Seq<LuaValue>, k: int, i: int)
    requires
        0 <= k <= i < vs.len(),
    ensures
        value_barrier(g, t, vs[i]) matches Some(b) ==> list_told(g, t, vs, k).contains(b),
    decreases vs.len() - k,
{
    let rest = list_told(g, t, vs, k + 1);
    let all = list_told(g, t, vs, k);
    if let Some(b) = value_barrier(g, t, vs[i]) {
        if k == i {
            assert(all[rest.len() as int] == b);
        } else {
            law_list_told(g, t, vs, k + 1, i);
            let j = choose|j: int| 0 <= j < rest.len() && rest[j] == b;
            assert(all[j] == b);
        }
    }
}

/// A program reads back what it wrote: an instruction that writes a field of a table
/// without metatable, and then one that reads it, bring the value to the register.
pub proof fn law_field_write_read(
    s: LuaState,
    g: GlobalState,
    f: Frame,
    i: Instruction,
    t: TableId,
    s2: LuaState,
    g2: GlobalState,
    f2: Frame,
    j: Instruction,
    s3: LuaState,
    f3: Frame,
    r: Result<Step, LuaError>,
)
    requires
        g.wf(),
        t.0 < g.heap.tables.items@.len(),
        g.heap.tmeta(t) is None,
        set_table(s, g, f, i) == LuaValue::Table(t),
        set_done(s, g, f, i, s2, g2, f2, Ok(Step::Next)),
        spec_op(j.word()) != OpCode::Self_,
        is_reg(s2, f2, spec_a(j.word())),
        frame_ok(s2, g2, f2),
        get_table(s2, g2, f2, j) == LuaValue::Table(t),
        get_key(s2, g2, f2, j) == set_key(s, g, f, i),
        get_done(s2, g2, f2, j, s3, f3, r),
    ensures
        r == Ok::<Step, LuaError>(Step::Next),
        reg(s3, f2, spec_a(j.word())) == rk(s, g, f, i),
{
    reveal_with_fuel(newindex_chain, 1);
    reveal_with_fuel(index_chain, 1);
    let k = set_key(s, g, f, i);
    let v = rk(s, g, f, i);
    assert(handler(g, LuaValue::Table(t), TagMethod::NewIndex) == LuaValue::Nil);
    assert(stored(g.heap, t, k, v, g2.heap));
    law_write_read(g.heap, t, k, v, g2.heap, t, k);
    assert(g2.heap.tmeta(t) is None);
    assert(handler(g2, LuaValue::Table(t), TagMethod::Index) == LuaValue::Nil);
    let a = spec_a(j.word());
    assert(0 <= a && f2.base.0 + a < s2.stack@.len());
    if has_field(g2, LuaValue::Table(t), k) {
        assert(reg_set(s2, f2, a, v, s3));
    } else {
        assert(v == LuaValue::Nil);
        assert(protected_set(s2, f2, f2.pc + 1, a, v, s3));
        assert(s3.at(f2.base.0 + a) == v);
    }
}

} // verus!
