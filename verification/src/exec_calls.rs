//! Calls, returns, closures, extra arguments and concatenation.

use vstd::prelude::*;
use vstd::string::StringSliceAdditionalSpecFns;
use crate::varargs::adjusted;
use crate::callinfo::CallInfo;
use crate::callinfo::CallInfoExtra;
use crate::callinfo::CallInfoFrame;
use crate::concat::ConcatOutcome;
use crate::concat::is_textual;
use crate::concat::joined;
use crate::concat::partly_joined;
use crate::concat::top_values;
use crate::exec::After;
use crate::exec::Frame;
use crate::exec::Step;
use crate::exec::at_instr;
use crate::exec::frame_ok;
use crate::exec::is_reg;
use crate::exec::proto_of;
use crate::exec::protected;
use crate::exec::reg;
use crate::exec::traps;
use crate::exec_tables::lemma_frame_grown;
use crate::exec_tables::lemma_frame_kept;
use crate::global::GlobalState;
use crate::global::intern_grown;
use crate::heap::heap_extends;
use crate::opcode::Instruction;
use crate::opcode::InstructionExt;
use crate::opcode::OpCode;
use crate::opcode::spec_a;
use crate::opcode::spec_b;
use crate::opcode::spec_bx;
use crate::opcode::spec_c;
use crate::opcode::spec_k;
use crate::opcode::spec_op;
use crate::state::LuaState;
use crate::tagmethods::TagMethod;
use crate::tagmethods::bin_handler;
use crate::tmcalls::CallRequest;
use crate::tmcalls::TmCall;
use crate::value::LuaError;
use crate::value::LuaValue;
use crate::value::ProtoId;
use crate::value::StackIdx;
use crate::value::TypeOp;
use crate::value::is_runtime_msg;

verus! {

/// A thread with the instruction counter of a frame saved and `top` set: no slot
/// changes, and slots that the stack does not reach are `nil`.
pub open spec fn saved(s: LuaState, f: Frame, pc: int, top: int, t: LuaState) -> bool {
    let c = s.frame(f.ci);
    &&& t == (LuaState { stack: t.stack, top: StackIdx(top as u32), call_info: t.call_info, ..s })
    &&& t.call_info@ == s.call_info@.update(
        f.ci.0 as int,
        CallInfo { u: CallInfoFrame { savedpc: pc as u32, ..c.u }, ..c },
    )
    &&& t.stack@.len() == (if top > s.stack@.len() {
        top as nat
    } else {
        s.stack@.len()
    })
    &&& forall|i: int| #[trigger] t.at(i) == s.at(i)
}

/// Where the arguments of a call end.
pub open spec fn args_end(s: LuaState, f: Frame, i: Instruction) -> int {
    if spec_b(i.word()) != 0 {
        f.base.0 + spec_a(i.word()) + spec_b(i.word())
    } else {
        s.top.0 as int
    }
}

/// How far the function slot of a vararg frame is above that of its call.
pub open spec fn func_delta(s: LuaState, f: Frame, i: Instruction) -> int {
    if spec_c(i.word()) != 0 {
        s.frame(f.ci).u.nextraargs + spec_c(i.word())
    } else {
        0
    }
}

/// How many values a frame returns.
pub open spec fn return_count(s: LuaState, f: Frame, i: Instruction) -> int {
    if spec_b(i.word()) == 0 {
        s.top.0 - (f.base.0 + spec_a(i.word()))
    } else {
        spec_b(i.word()) - 1
    }
}

/// Whether a call can run.
pub open spec fn call_ok(s: LuaState, g: GlobalState, f: Frame, i: Instruction) -> bool {
    &&& spec_op(i.word()) == OpCode::Call
    &&& is_reg(s, f, spec_a(i.word()))
}

/// What a call does.
pub open spec fn call_done(
    s: LuaState,
    g: GlobalState,
    f: Frame,
    i: Instruction,
    s2: LuaState,
    f2: Frame,
    r: Step,
) -> bool {
    &&& saved(s, f, f.pc + 1, args_end(s, f, i), s2)
    &&& f2 == (Frame { pc: (f.pc + 1) as u32, ..f })
    &&& r == (Step::Precall {
        func: StackIdx((f.base.0 + spec_a(i.word())) as u32),
        nresults: (spec_c(i.word()) - 1) as i32,
    })
}

/// Whether a tail call can run.
pub open spec fn tailcall_ok(s: LuaState, g: GlobalState, f: Frame, i: Instruction) -> bool {
    &&& spec_op(i.word()) == OpCode::TailCall
    &&& is_reg(s, f, spec_a(i.word()))
    &&& func_delta(s, f, i) <= i32::MAX
    &&& spec_b(i.word()) == 0 ==> f.base.0 + spec_a(i.word()) <= s.top.0
}

/// What a tail call does.
pub open spec fn tailcall_done(
    s: LuaState,
    g: GlobalState,
    f: Frame,
    i: Instruction,
    s2: LuaState,
    f2: Frame,
    r: Step,
) -> bool {
    &&& saved(s, f, f.pc + 1, args_end(s, f, i), s2)
    &&& f2 == (Frame { pc: (f.pc + 1) as u32, ..f })
    &&& ({
        let ra = f.base.0 + spec_a(i.word());
        r == (Step::TailCall {
            func: StackIdx(ra as u32),
            narg1: (args_end(s, f, i) - ra) as u32,
            delta: func_delta(s, f, i) as i32,
            close: spec_k(i.word()) != 0,
        })
    })
}

/// Whether a return can run.
pub open spec fn return_ok(s: LuaState, g: GlobalState, f: Frame, i: Instruction) -> bool {
    &&& spec_op(i.word()) == OpCode::Return
    &&& is_reg(s, f, spec_a(i.word()))
    &&& 0 <= return_count(s, f, i) <= i32::MAX
    &&& func_delta(s, f, i) <= f.base.0 - 1
    &&& 0 <= func_delta(s, f, i)
}

/// What a return does.
pub open spec fn return_done(
    s: LuaState,
    g: GlobalState,
    f: Frame,
    i: Instruction,
    s2: LuaState,
    f2: Frame,
    r: Step,
) -> bool {
    &&& ({
        let ra = f.base.0 + spec_a(i.word());
        let n = return_count(s, f, i);
        let c = s.frame(f.ci);
        let keep = CallInfo { u: CallInfoFrame { savedpc: (f.pc + 1) as u32, ..c.u }, ..c };
        &&& f2 == (Frame { pc: (f.pc + 1) as u32, ..f })
        &&& if spec_k(i.word()) != 0 {
            &&& s2.call_info@ == s.call_info@.update(
                f.ci.0 as int,
                CallInfo { u2: CallInfoExtra { value: n as i32, ..keep.u2 }, ..keep },
            )
            &&& s2 == (LuaState {
                stack: s2.stack,
                top: if s.top.0 < c.top.0 {
                    c.top
                } else {
                    s.top
                },
                call_info: s2.call_info,
                ..s
            })
            &&& forall|j: int| #[trigger] s2.at(j) == s.at(j)
            &&& frame_ok(s2, g, f2)
            &&& r == (Step::CloseReturn {
                base: f.base,
                ra: StackIdx(ra as u32),
                n: n as u32,
                nparams1: spec_c(i.word()) as u32,
            })
        } else {
            &&& returning(
                s,
                f,
                CallInfo {
                    func: StackIdx((c.func.0 - func_delta(s, f, i)) as u32),
                    ..keep
                },
                ra + n,
                s2,
            )
            &&& s2.wf(g.heap.sizes())
            &&& r == (Step::Poscall { n: n as u32, hooked: false })
        }
    })
}

impl LuaState {
    /// Saves the instruction counter and sets `top`.
    fn save(&mut self, g: &GlobalState, f: &Frame, pc: u32, top: StackIdx)
        requires
            frame_ok(*old(self), *g, *f),
        ensures
            frame_ok(*final(self), *g, *f),
            saved(*old(self), *f, pc as int, top.0 as int, *final(self)),
    {
        self.set_ci_savedpc(f.ci, pc);
        let ghost mid = *self;
        self.set_top(top);
        proof {
            lemma_frame_kept(*old(self), *self, *g, *f);
            assert forall|i: int| #[trigger] self.at(i) == old(self).at(i) by {
                assert(mid.at(i) == old(self).at(i));
            }
        }
    }

    /// Looks for hooks after something that may have called.
    pub fn resume_trap(&self, f: &mut Frame)
        requires
            old(f).ci.0 < self.call_info@.len(),
        ensures
            *final(f) == (Frame { trap: traps(*self, old(f).ci), ..*old(f) }),
    {
        f.trap = self.ci_trap(f.ci);
    }

    /// Runs a call, up to the call itself.
    pub fn exec_call(&mut self, g: &GlobalState, f: &mut Frame, i: Instruction) -> (r: Step)
        requires
            at_instr(*old(self), *g, *old(f), i),
            call_ok(*old(self), *g, *old(f), i),
        ensures
            frame_ok(*final(self), *g, *final(f)),
            call_done(*old(self), *g, *old(f), i, *final(self), *final(f), r),
    {
        let ra: u32 = f.base.0 + i.arg_a() as u32;
        let b: u32 = i.arg_b() as u32;
        let top: StackIdx = if b != 0 {
            StackIdx(ra + b)
        } else {
            self.top
        };
        self.save(g, f, f.pc + 1, top);
        f.pc = f.pc + 1;
        Step::Precall { func: StackIdx(ra), nresults: i.arg_c() - 1 }
    }

    /// Runs a tail call, up to the call itself.
    pub fn exec_tailcall(&mut self, g: &GlobalState, f: &mut Frame, i: Instruction) -> (r: Step)
        requires
            at_instr(*old(self), *g, *old(f), i),
            tailcall_ok(*old(self), *g, *old(f), i),
        ensures
            frame_ok(*final(self), *g, *final(f)),
            tailcall_done(*old(self), *g, *old(f), i, *final(self), *final(f), r),
    {
        let ra: u32 = f.base.0 + i.arg_a() as u32;
        let b: u32 = i.arg_b() as u32;
        let c: i32 = i.arg_c();
        let delta: i32 = if c != 0 {
            self.ci_nextraargs(f.ci) + c
        } else {
            0
        };
        let top: StackIdx = if b != 0 {
            StackIdx(ra + b)
        } else {
            self.top
        };
        self.save(g, f, f.pc + 1, top);
        f.pc = f.pc + 1;
        Step::TailCall { func: StackIdx(ra), narg1: top.0 - ra, delta: delta, close: i.test_k() }
    }

    /// Finishes a tail call of a function that is not a Lua function and left `n`
    /// results: the frame gets its own function slot back and returns them.
    pub fn finish_tailcall(&mut self, f: &Frame, delta: i32, n: u32) -> (r: Step)
        requires
            f.ci.0 < old(self).call_info@.len(),
            0 <= old(self).frame(f.ci).func.0 - delta <= i32::MAX,
            old(self).frame(f.ci).func.0 <= i32::MAX,
        ensures
            old(self).frame_set(
                f.ci,
                CallInfo {
                    func: StackIdx((old(self).frame(f.ci).func.0 - delta) as u32),
                    ..old(self).frame(f.ci)
                },
                *final(self),
            ),
            forall|z: crate::heap::Sizes| old(self).wf(z) ==> #[trigger] final(self).wf(z),
            r == (Step::Poscall { n: n, hooked: false }),
    {
        self.ci_adjust_func(f.ci, delta);
        Step::Poscall { n: n, hooked: false }
    }

    /// Runs a return. Where variables have to be closed first, the number of results is
    /// kept with the frame.
    pub fn exec_return(&mut self, g: &GlobalState, f: &mut Frame, i: Instruction) -> (r: Step)
        requires
            at_instr(*old(self), *g, *old(f), i),
            return_ok(*old(self), *g, *old(f), i),
        ensures
            return_done(*old(self), *g, *old(f), i, *final(self), *final(f), r),
    {
        let ra: u32 = f.base.0 + i.arg_a() as u32;
        let b: u32 = i.arg_b() as u32;
        let nparams1: u32 = i.arg_c() as u32;
        let n: u32 = if b == 0 {
            self.top.0 - ra
        } else {
            b - 1
        };
        self.set_ci_savedpc(f.ci, f.pc + 1);
        f.pc = f.pc + 1;
        proof {
            lemma_frame_kept(*old(self), *self, *g, *f);
        }
        if i.test_k() {
            self.ci_nres_set(f.ci, n as i32);
            let ghost mid = *self;
            let top: StackIdx = self.ci_top(f.ci);
            if self.top.0 < top.0 {
                self.set_top(top);
            }
            proof {
                lemma_frame_kept(*old(self), *self, *g, *f);
                assert(self.call_info@ =~= old(self).call_info@.update(f.ci.0 as int, self.frame(f.ci)));
                assert forall|j: int| #[trigger] self.at(j) == old(self).at(j) by {
                    assert(mid.at(j) == old(self).at(j));
                }
            }
            return Step::CloseReturn { base: f.base, ra: StackIdx(ra), n: n, nparams1: nparams1 };
        }
        let ghost mid = *self;
        let r: Step = self.finish_return(f, StackIdx(ra), n, nparams1);
        proof {
            assert(self.call_info@ =~= old(self).call_info@.update(f.ci.0 as int, self.frame(f.ci)));
            assert forall|j: int| #[trigger] self.at(j) == old(self).at(j) by {
                assert(self.at(j) == mid.at(j));
                assert(mid.at(j) == old(self).at(j));
            }
        }
        r
    }

    /// Finishes a return: the frame gets its own function slot back, and its results are
    /// those from `ra` on.
    pub fn finish_return(&mut self, f: &Frame, ra: StackIdx, n: u32, nparams1: u32) -> (r: Step)
        requires
            f.ci.0 < old(self).call_info@.len(),
            old(self).frame(f.ci).spec_is_lua(),
            ra.0 + n <= u32::MAX,
            nparams1 <= 255,
            nparams1 != 0 ==> {
                &&& 0 <= old(self).frame(f.ci).u.nextraargs + nparams1 <= old(self).frame(f.ci).func.0
                &&& old(self).frame(f.ci).func.0 <= 0x7fff_0000
            },
        ensures
            ({
                let c = old(self).frame(f.ci);
                returning(
                    *old(self),
                    *f,
                    CallInfo {
                        func: if nparams1 != 0 {
                            StackIdx((c.func.0 - (c.u.nextraargs + nparams1)) as u32)
                        } else {
                            c.func
                        },
                        ..c
                    },
                    ra.0 + n,
                    *final(self),
                )
            }),
            forall|z: crate::heap::Sizes| old(self).wf(z) ==> #[trigger] final(self).wf(z),
            r == (Step::Poscall { n: n, hooked: false }),
    {
        let ghost c = self.frame(f.ci);
        if nparams1 != 0 {
            let delta: i32 = self.ci_nextraargs(f.ci) + nparams1 as i32;
            self.ci_adjust_func(f.ci, delta);
        }
        let ghost mid = *self;
        self.set_top(StackIdx(ra.0 + n));
        proof {
            assert(nparams1 == 0 ==> old(self).call_info@.update(f.ci.0 as int, c) =~= old(self).call_info@);
            assert forall|j: int| #[trigger] self.at(j) == old(self).at(j) by {
                assert(mid.at(j) == old(self).at(j));
            }
        }
        Step::Poscall { n: n, hooked: false }
    }
}

/// A thread about to return the values below `top`, with its frame changed.
pub open spec fn returning(s: LuaState, f: Frame, c: CallInfo, top: int, t: LuaState) -> bool {
    &&& t == (LuaState { stack: t.stack, top: StackIdx(top as u32), call_info: t.call_info, ..s })
    &&& t.call_info@ == s.call_info@.update(f.ci.0 as int, c)
    &&& top <= t.stack@.len()
    &&& forall|j: int| #[trigger] t.at(j) == s.at(j)
}

/// Pushing values one after the other is pushing all of them.
proof fn lemma_pushed_twice(s: LuaState, a: Seq<LuaValue>, m: LuaState, b: Seq<LuaValue>, t: LuaState)
    requires
        s.pushed(a, m),
        m.pushed(b, t),
        s.top.0 <= s.stack@.len(),
        s.top.0 + a.len() + b.len() <= u32::MAX,
    ensures
        s.pushed(a + b, t),
{
    let ab = a + b;
    assert forall|i: int| 0 <= i < t.stack@.len() implies #[trigger] t.stack@[i] == (if s.top.0 <= i < s.top.0
        + ab.len() {
        ab[i - s.top.0]
    } else {
        s.stack@[i]
    }) by {
        if i < m.top.0 || i >= m.top.0 + b.len() {
            assert(t.stack@[i] == m.stack@[i]);
        }
    }
}

/// Some `nil` values.
pub open spec fn nils(n: int) -> Seq<LuaValue> {
    Seq::new(
        if n > 0 {
            n as nat
        } else {
            0
        },
        |i: int| LuaValue::Nil,
    )
}

/// A thread that has left a frame for its caller, with the results where the function
/// was.
pub open spec fn returned(s: LuaState, f: Frame, vs: Seq<LuaValue>, t: LuaState) -> bool {
    (LuaState {
        ci: s.frame(f.ci).previous->0,
        top: StackIdx((f.base.0 - 1) as u32),
        ..s
    }).pushed(vs, t)
}

/// Whether a return of no values can run.
pub open spec fn return0_ok(s: LuaState, g: GlobalState, f: Frame, i: Instruction) -> bool {
    &&& spec_op(i.word()) == OpCode::Return0
    &&& s.frame(f.ci).previous is Some
}

/// What a return of no values does.
pub open spec fn return0_done(
    s: LuaState,
    g: GlobalState,
    f: Frame,
    i: Instruction,
    s2: LuaState,
    f2: Frame,
    r: Step,
) -> bool {
    &&& f2 == (Frame { pc: (f.pc + 1) as u32, ..f })
    &&& if s.hookmask == 0 {
        &&& returned(s, f, nils(s.frame(f.ci).nresults as int), s2)
        &&& r == Step::Returned
    } else {
        &&& saved(
            s,
            f,
            f.pc + 1,
            f.base.0 + spec_a(i.word()),
            s2,
        )
        &&& r == (Step::Poscall { n: 0, hooked: true })
    }
}

/// Whether a return of one value can run.
pub open spec fn return1_ok(s: LuaState, g: GlobalState, f: Frame, i: Instruction) -> bool {
    &&& spec_op(i.word()) == OpCode::Return1
    &&& is_reg(s, f, spec_a(i.word()))
    &&& s.frame(f.ci).previous is Some
}

/// What a return of one value does.
pub open spec fn return1_done(
    s: LuaState,
    g: GlobalState,
    f: Frame,
    i: Instruction,
    s2: LuaState,
    f2: Frame,
    r: Step,
) -> bool {
    &&& f2 == (Frame { pc: (f.pc + 1) as u32, ..f })
    &&& if s.hookmask == 0 {
        let nres = s.frame(f.ci).nresults as int;
        &&& returned(
            s,
            f,
            if nres == 0 {
                Seq::empty()
            } else {
                seq![reg(s, f, spec_a(i.word()))] + nils(nres - 1)
            },
            s2,
        )
        &&& r == Step::Returned
    } else {
        &&& saved(
            s,
            f,
            f.pc + 1,
            f.base.0 + spec_a(i.word()) + 1,
            s2,
        )
        &&& r == (Step::Poscall { n: 1, hooked: true })
    }
}

/// What an instruction that the host has to finish does.
pub open spec fn host_done(
    s: LuaState,
    g: GlobalState,
    f: Frame,
    i: Instruction,
    s2: LuaState,
    f2: Frame,
    r: Step,
) -> bool {
    &&& protected(s, f, f.pc + 1, s2)
    &&& f2 == (Frame { pc: (f.pc + 1) as u32, ..f })
    &&& r == host_step(g, f, i)
}

/// What the start of a vararg function does.
pub open spec fn varargprep_done(
    s: LuaState,
    g: GlobalState,
    f: Frame,
    i: Instruction,
    s2: LuaState,
    f2: Frame,
    r: Step,
) -> bool {
    &&& saved(s, f, f.pc + 1, s.top.0 as int, s2)
    &&& f2 == (Frame { pc: (f.pc + 1) as u32, ..f })
    &&& r == (Step::VarArgPrep { nfixparams: spec_a(i.word()) as u8 })
}

impl LuaState {
    fn push_nils(&mut self, n: u32)
        requires
            old(self).top.0 <= old(self).stack@.len(),
            old(self).top.0 + n <= u32::MAX,
        ensures
            old(self).pushed(nils(n as int), *final(self)),
            forall|z: crate::heap::Sizes| old(self).wf(z) ==> #[trigger] final(self).wf(z),
    {
        let mut i: u32 = 0;
        while i < n
            invariant
                i <= n,
                old(self).top.0 <= old(self).stack@.len(),
                old(self).top.0 + n <= u32::MAX,
                self.top.0 == old(self).top.0 + i,
                self.top.0 <= self.stack@.len(),
                old(self).pushed(nils(i as int), *self),
                forall|z: crate::heap::Sizes| old(self).wf(z) ==> #[trigger] self.wf(z),
            decreases n - i,
        {
            self.push(LuaValue::Nil);
            i = i + 1;
        }
    }

    /// Runs a return of no values. The results that the caller wants are `nil`. Where
    /// hooks are on, the general way is taken.
    pub fn exec_return0(&mut self, g: &GlobalState, f: &mut Frame, i: Instruction) -> (r: Step)
        requires
            at_instr(*old(self), *g, *old(f), i),
            return0_ok(*old(self), *g, *old(f), i),
        ensures
            final(self).wf(g.heap.sizes()),
            return0_done(*old(self), *g, *old(f), i, *final(self), *final(f), r),
    {
        f.pc = f.pc + 1;
        if self.hookmask != 0 {
            self.save(g, f, f.pc, StackIdx(f.base.0 + i.arg_a() as u32));
            return Step::Poscall { n: 0, hooked: true };
        }
        let nres: i16 = self.call_info[f.ci.0 as usize].nresults;
        self.leave(g, f);
        self.push_nils(
            if nres > 0 {
                nres as u32
            } else {
                0
            },
        );
        Step::Returned
    }

    /// Goes back to the caller of a frame, with `top` at the function's slot.
    fn leave(&mut self, g: &GlobalState, f: &Frame)
        requires
            frame_ok(*old(self), *g, *f),
            old(self).frame(f.ci).previous is Some,
        ensures
            *final(self) == (LuaState {
                ci: old(self).frame(f.ci).previous->0,
                top: StackIdx((f.base.0 - 1) as u32),
                ..*old(self)
            }),
            final(self).wf(g.heap.sizes()),
            f.base.0 <= final(self).stack@.len(),
    {
        if let Some(p) = self.call_info[f.ci.0 as usize].previous {
            self.ci = p;
        }
        self.top = StackIdx(f.base.0 - 1);
    }

    /// Runs a return of one value. The further results that the caller wants are `nil`.
    pub fn exec_return1(&mut self, g: &GlobalState, f: &mut Frame, i: Instruction) -> (r: Step)
        requires
            at_instr(*old(self), *g, *old(f), i),
            return1_ok(*old(self), *g, *old(f), i),
        ensures
            final(self).wf(g.heap.sizes()),
            return1_done(*old(self), *g, *old(f), i, *final(self), *final(f), r),
    {
        let a: u32 = i.arg_a() as u32;
        let v: LuaValue = self.reg_value(g, f, a);
        f.pc = f.pc + 1;
        if self.hookmask != 0 {
            self.save(g, f, f.pc, StackIdx(f.base.0 + a + 1));
            return Step::Poscall { n: 1, hooked: true };
        }
        let nres: i16 = self.call_info[f.ci.0 as usize].nresults;
        self.leave(g, f);
        let ghost m = *self;
        if nres == 0 {
            return Step::Returned;
        }
        self.push(v);
        let ghost p = *self;
        assert(m.pushed(seq![v], p));
        self.push_nils(
            if nres > 1 {
                (nres - 1) as u32
            } else {
                0
            },
        );
        proof {
            lemma_pushed_twice(m, seq![v], p, nils(nres - 1), *self);
        }
        Step::Returned
    }

    /// Runs an instruction that the host has to finish, up to what the host does.
    pub fn exec_host(&mut self, g: &GlobalState, f: &mut Frame, i: Instruction) -> (r: Step)
        requires
            at_instr(*old(self), *g, *old(f), i),
            host_ok(*old(self), *g, *old(f), i),
        ensures
            frame_ok(*final(self), *g, *final(f)),
            host_done(*old(self), *g, *old(f), i, *final(self), *final(f), r),
    {
        let ra: StackIdx = StackIdx(f.base.0 + i.arg_a() as u32);
        self.protect(g, f, f.pc + 1);
        f.pc = f.pc + 1;
        match i.opcode() {
            OpCode::Close => Step::Close { level: ra },
            OpCode::Tbc => Step::Tbc { level: ra },
            OpCode::Closure => {
                let p: ProtoId = g.heap.lclosures.items[f.cl.0].proto;
                assert(g.heap.sizes().ok_lclosure(g.heap.lclosures.items@[f.cl.0 as int]));
                Step::Closure { child: g.heap.protos.items[p.0].p[i.arg_bx() as usize], ra: ra }
            },
            _ => Step::VarArg { ra: ra, wanted: i.arg_c() - 1 },
        }
    }

    /// Runs the start of a vararg function, up to making room for its frame.
    pub fn exec_varargprep(&mut self, g: &GlobalState, f: &mut Frame, i: Instruction) -> (r: Step)
        requires
            at_instr(*old(self), *g, *old(f), i),
            spec_op(i.word()) == OpCode::VarArgPrep,
        ensures
            frame_ok(*final(self), *g, *final(f)),
            varargprep_done(*old(self), *g, *old(f), i, *final(self), *final(f), r),
    {
        let top: StackIdx = self.top;
        self.save(g, f, f.pc + 1, top);
        f.pc = f.pc + 1;
        Step::VarArgPrep { nfixparams: i.arg_a() as u8 }
    }

    /// Goes on with a vararg function whose extra arguments were put below it: its
    /// registers are elsewhere now. Returns whether the hook for calls is due.
    pub fn finish_varargprep(&self, f: &mut Frame) -> (r: bool)
        requires
            old(f).ci.0 < self.call_info@.len(),
            self.frame(old(f).ci).func.0 < u32::MAX,
        ensures
            r == traps(*self, old(f).ci),
            *final(f) == (Frame {
                base: StackIdx((self.frame(old(f).ci).func.0 + 1) as u32),
                trap: r,
                ..*old(f)
            }),
    {
        f.trap = self.ci_trap(f.ci);
        f.base = self.ci_base(f.ci);
        f.trap
    }

    /// Goes on with such a function after the hook for calls: the place of the last hook
    /// is its first instruction.
    pub fn finish_vararg_hook(&mut self, f: &mut Frame)
        requires
            old(f).ci.0 < old(self).call_info@.len(),
            old(self).frame(old(f).ci).func.0 < u32::MAX,
        ensures
            *final(self) == (LuaState { oldpc: 1, ..*old(self) }),
            *final(f) == (Frame {
                base: StackIdx((old(self).frame(old(f).ci).func.0 + 1) as u32),
                ..*old(f)
            }),
            forall|z: crate::heap::Sizes| old(self).wf(z) ==> #[trigger] final(self).wf(z),
    {
        self.oldpc = 1;
        f.base = self.ci_base(f.ci);
    }

    /// Prepares for the collector after a value was made in a register: no register
    /// above it is in use.
    pub fn before_gc(&mut self, g: &GlobalState, f: &Frame, ra: StackIdx) -> (r: Step)
        requires
            frame_ok(*old(self), *g, *f),
            ra.0 < u32::MAX,
        ensures
            frame_ok(*final(self), *g, *f),
            saved(*old(self), *f, f.pc as int, ra.0 + 1, *final(self)),
            r == Step::GcCheck,
    {
        self.save(g, f, f.pc, StackIdx(ra.0 + 1));
        Step::GcCheck
    }
}

/// Whether the operands of an instruction that the host has to finish exist.
pub open spec fn host_ok(s: LuaState, g: GlobalState, f: Frame, i: Instruction) -> bool {
    let w = i.word();
    &&& is_reg(s, f, spec_a(w))
    &&& match spec_op(w) {
        OpCode::Close | OpCode::Tbc | OpCode::VarArg => true,
        OpCode::Closure => spec_bx(w) < proto_of(g, f).p@.len(),
        _ => false,
    }
}

/// What the host has to do for an instruction.
pub open spec fn host_step(g: GlobalState, f: Frame, i: Instruction) -> Step {
    let ra = StackIdx((f.base.0 + spec_a(i.word())) as u32);
    match spec_op(i.word()) {
        OpCode::Close => Step::Close { level: ra },
        OpCode::Tbc => Step::Tbc { level: ra },
        OpCode::Closure => Step::Closure { child: proto_of(g, f).p@[spec_bx(i.word())], ra: ra },
        _ => Step::VarArg { ra: ra, wanted: (spec_c(i.word()) - 1) as i32 },
    }
}

/// Whether joining the top `total` values came to the thread `m`, with two values that
/// need a metamethod, and its call was set up.
pub open spec fn join_called(
    s: LuaState,
    g: GlobalState,
    total: int,
    left: int,
    m: LuaState,
    s2: LuaState,
    g2: GlobalState,
    request: CallRequest,
) -> bool {
    let p1 = m.stack@[m.top.0 - 2];
    let p2 = m.stack@[m.top.0 - 1];
    let h = bin_handler(g2, p1, p2, TagMethod::Concat);
    &&& left >= 2
    &&& partly_joined(s, g, total, left, m, g2)
    &&& !(is_textual(p1) && is_textual(p2))
    &&& h != LuaValue::Nil
    &&& m.pushed(seq![h, p1, p2], s2)
    &&& request == (CallRequest { func: m.top, nresults: 1, yieldable: true })
}

/// Whether joining the top `total` values came as far as it goes at once: to the end,
/// to a number whose text is missing, to two values that need a metamethod, or to an
/// error.
pub open spec fn join_done(
    s: LuaState,
    g: GlobalState,
    total: int,
    s2: LuaState,
    g2: GlobalState,
    r: Result<Step, LuaError>,
) -> bool {
    match r {
        Ok(Step::GcCheck) => partly_joined(s, g, total, 1, s2, g2),
        Ok(Step::Text { at, left }) => {
            &&& left >= 2
            &&& partly_joined(s, g, total, left as int, s2, g2)
            &&& s2.top.0 - left <= at.0 < s2.top.0
            &&& s2.stack@[at.0 as int].spec_is_number()
            &&& forall|i: int| at.0 < i < s2.top.0 ==> #[trigger] s2.stack@[i] is Str
            &&& is_textual(s2.stack@[s2.top.0 - 2])
            &&& is_textual(s2.stack@[s2.top.0 - 1])
        },
        Ok(Step::Call { request, then: After::Concat { left } }) => exists|m: LuaState| #[trigger]
            join_called(s, g, total, left as int, m, s2, g2, request),
        Ok(_) => false,
        Err(LuaError::TypeError { value, at, op }) => exists|left: int|
            {
                let p1 = s2.stack@[s2.top.0 - 2];
                let p2 = s2.stack@[s2.top.0 - 1];
                let second = p1 is Str || p1.spec_is_number();
                &&& left >= 2
                &&& #[trigger] partly_joined(s, g, total, left, s2, g2)
                &&& !(is_textual(p1) && is_textual(p2))
                &&& bin_handler(g2, p1, p2, TagMethod::Concat) == LuaValue::Nil
                &&& value == (if second {
                    p2
                } else {
                    p1
                })
                &&& at == Some(
                    StackIdx(
                        (if second {
                            s2.top.0 - 1
                        } else {
                            s2.top.0 - 2
                        }) as u32,
                    ),
                )
                &&& op == TypeOp::Concatenate
            },
        Err(e) => {
            &&& is_runtime_msg(e, "string length overflow".spec_bytes())
            &&& exists|j: int|
                0 <= j < total && (#[trigger] joined(g.heap, top_values(s, total).subrange(j, total))).len()
                    >= usize::MAX
        },
    }
}

/// Whether a concatenation can run.
pub open spec fn concat_ok(s: LuaState, g: GlobalState, f: Frame, i: Instruction) -> bool {
    &&& spec_op(i.word()) == OpCode::Concat
    &&& is_reg(s, f, spec_a(i.word()))
    &&& 1 <= spec_b(i.word())
}

/// What a concatenation does.
pub open spec fn concat_done(
    s: LuaState,
    g: GlobalState,
    f: Frame,
    i: Instruction,
    s2: LuaState,
    g2: GlobalState,
    f2: Frame,
    r: Result<Step, LuaError>,
) -> bool {
    &&& f2 == (Frame { pc: (f.pc + 1) as u32, ..f })
    &&& heap_extends(g.heap, g2.heap)
    &&& g2 == (GlobalState {
        heap: g2.heap,
        interned_lt: g2.interned_lt,
        ..g
    })
    &&& intern_grown(g, g2)
    &&& exists|m: LuaState|
        {
            &&& #[trigger] saved(
                s,
                f,
                f.pc + 1,
                f.base.0 + spec_a(i.word()) + spec_b(i.word()),
                m,
            )
            &&& join_done(m, g, spec_b(i.word()), s2, g2, r)
        }
}

impl LuaState {
    /// Joins the top `total` values as far as it goes. The host goes on with
    /// [`LuaState::set_text`] and this function again where a text is missing.
    pub fn join(&mut self, g: &mut GlobalState, f: &Frame, total: u32) -> (r: Result<Step, LuaError>)
        requires
            frame_ok(*old(self), *old(g), *f),
            1 <= total <= old(self).top.0,
            old(self).top.0 + 3 <= u32::MAX,
        ensures
            r is Ok ==> frame_ok(*final(self), *final(g), *f),
            heap_extends(old(g).heap, final(g).heap),
            *final(g) == (GlobalState {
                heap: final(g).heap,
                interned_lt: final(g).interned_lt,
                ..*old(g)
            }),
            intern_grown(*old(g), *final(g)),
            join_done(*old(self), *old(g), total as int, *final(self), *final(g), r),
    {
        let o: Result<ConcatOutcome, LuaError> = self.concat(g, total);
        let ghost m = *self;
        match o {
            Ok(out) => {
                proof {
                    lemma_frame_grown(*old(self), *old(g), *g, *f);
                    lemma_frame_kept(*old(self), m, *g, *f);
                }
                match out {
                    ConcatOutcome::Done => Ok(Step::GcCheck),
                    ConcatOutcome::NeedText { at, left } => Ok(Step::Text { at: at, left: left }),
                    ConcatOutcome::NeedTm { left } => {
                        assert(partly_joined(*old(self), *old(g), total as int, left as int, m, *g));
                        assert(g.heap.ok(m.stack@[m.top.0 - 2]) && g.heap.ok(m.stack@[m.top.0 - 1]));
                        let c: Result<TmCall, LuaError> = self.try_concat_tm(g);
                        match c {
                            Ok(c) => {
                                let request: CallRequest = self.begin_tm_res(c);
                                proof {
                                    lemma_frame_kept(m, *self, *g, *f);
                                    assert(join_called(
                                        *old(self),
                                        *old(g),
                                        total as int,
                                        left as int,
                                        m,
                                        *self,
                                        *g,
                                        request,
                                    ));
                                    let step = Step::Call { request: request, then: After::Concat { left: left } };
                                    let r = Ok::<Step, LuaError>(step);
                                    assert(r matches Ok(Step::Call { request: q, then: After::Concat { left: n } })
                                        && q == request && n == left);
                                    assert(join_done(*old(self), *old(g), total as int, *self, *g, r));
                                }
                                Ok(Step::Call { request: request, then: After::Concat { left: left } })
                            },
                            Err(e) => Err(e),
                        }
                    },
                }
            },
            Err(e) => Err(e),
        }
    }

    /// Runs a concatenation of consecutive registers.
    pub fn exec_concat(&mut self, g: &mut GlobalState, f: &mut Frame, i: Instruction) -> (r: Result<Step, LuaError>)
        requires
            at_instr(*old(self), *old(g), *old(f), i),
            concat_ok(*old(self), *old(g), *old(f), i),
        ensures
            r is Ok ==> frame_ok(*final(self), *final(g), *final(f)),
            concat_done(*old(self), *old(g), *old(f), i, *final(self), *final(g), *final(f), r),
    {
        let n: u32 = i.arg_b() as u32;
        self.save(g, f, f.pc + 1, StackIdx(f.base.0 + i.arg_a() as u32 + n));
        let ghost m = *self;
        f.pc = f.pc + 1;
        let r: Result<Step, LuaError> = self.join(g, f, n);
        assert(saved(
            *old(self),
            *old(f),
            old(f).pc + 1,
            old(f).base.0 + spec_a(i.word()) + spec_b(i.word()),
            m,
        ));
        r
    }

    /// Goes on with a concatenation after the call of a metamethod: its result replaces
    /// the two values that it was for, and the rest is joined.
    pub fn finish_concat(&mut self, g: &mut GlobalState, f: &Frame, left: u32) -> (r: Result<Step, LuaError>)
        requires
            frame_ok(*old(self), *old(g), *f),
            2 <= left < old(self).top.0,
            old(self).top.0 + 3 <= u32::MAX,
        ensures
            r is Ok ==> frame_ok(*final(self), *final(g), *f),
            heap_extends(old(g).heap, final(g).heap),
            *final(g) == (GlobalState {
                heap: final(g).heap,
                interned_lt: final(g).interned_lt,
                ..*old(g)
            }),
            intern_grown(*old(g), *final(g)),
            exists|m: LuaState|
                {
                    &&& #[trigger] replaced(*old(self), m)
                    &&& join_done(m, *old(g), left - 1, *final(self), *final(g), r)
                },
    {
        let top: u32 = self.top.0 - 1;
        let v: LuaValue = self.stack[top as usize];
        assert(g.heap.ok(self.stack@[top as int]));
        self.set_at(StackIdx(top - 2), v);
        self.set_top_idx(StackIdx(top - 1));
        let ghost m = *self;
        proof {
            lemma_frame_kept(*old(self), m, *g, *f);
            assert(replaced(*old(self), m));
        }
        self.join(g, f, left - 1)
    }
}

/// A thread with the result of a metamethod in the place of the two values below it.
pub open spec fn replaced(s: LuaState, t: LuaState) -> bool {
    &&& t == (LuaState { stack: t.stack, top: StackIdx((s.top.0 - 2) as u32), ..s })
    &&& t.stack@ == s.stack@.update(s.top.0 - 3, s.stack@[s.top.0 - 1])
}

/// A vararg frame returns to where it was called from: the function slot that a return
/// gives it back is the one it had before its extra arguments were put below it.
pub proof fn law_vararg_frame_restored(
    s: LuaState,
    nfix: int,
    above: Option<(int, LuaValue)>,
    made: bool,
    t: LuaState,
    f: Frame,
    i: Instruction,
)
    requires
        f.ci.0 < s.call_info@.len(),
        0 <= nfix,
        s.frame(f.ci).func.0 + 1 + nfix <= s.top.0 <= i32::MAX,
        adjusted(s, f.ci, nfix, above, made, t),
        spec_c(i.word()) == nfix + 1,
    ensures
        t.frame(f.ci).func.0 - func_delta(t, f, i) == s.frame(f.ci).func.0,
{
}

} // verus!
