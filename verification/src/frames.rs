//! The chain of call frames, and the counters of a thread.

use vstd::prelude::*;
use vstd::string::StringSliceAdditionalSpecFns;
use crate::callinfo::CIST_C;
use crate::callinfo::CIST_FRESH;
use crate::callinfo::CIST_TRAP;
use crate::callinfo::CallInfo;
use crate::callinfo::CallInfoExtra;
use crate::callinfo::CallInfoFrame;
use crate::callinfo::blank_callinfo;
use crate::callinfo::has_flag;
use crate::heap::Sizes;
use crate::sandbox::SANDBOX_COUNT_MASK;
use crate::sandbox::SandboxLimits;
use crate::state::BASIC_STACK_SIZE;
use crate::state::EXTRA_STACK;
use crate::state::LUAI_MAXCCALLS;
use crate::state::LUA_MINSTACK;
use crate::state::LuaState;
use crate::state::chain;
use crate::value::CallInfoIdx;
use crate::value::LClosureId;
use crate::value::LuaClosure;
use crate::value::LuaError;
use crate::value::LuaStatus;
use crate::value::LuaValue;
use crate::value::LuaVersion;
use crate::value::StackIdx;
use crate::value::is_runtime_msg;
use crate::value::runtime_error;

verus! {

/// The frame that a new thread starts in.
pub open spec fn base_frame() -> CallInfo {
    CallInfo { top: StackIdx(21), callstatus: CIST_C, ..blank_callinfo() }
}

impl LuaState {
    /// The Lua closure that a frame runs.
    pub open spec fn closure_of(self, ci: CallInfoIdx) -> Option<LClosureId> {
        match self.at(self.frame(ci).func.0 as int) {
            LuaValue::Function(LuaClosure::Lua(cl)) => Some(cl),
            _ => None,
        }
    }

    /// The frame after the current one: the next of the chain, or a new one at its
    /// end.
    pub fn next_ci(&mut self) -> (r: CallInfoIdx)
        requires
            chain(old(self).call_info@),
            old(self).ci.0 < old(self).call_info@.len(),
            old(self).nci == old(self).call_info@.len() - 1,
            old(self).call_info@.len() < u32::MAX,
        ensures
            r.0 == old(self).ci.0 + 1,
            r.0 < final(self).call_info@.len(),
            chain(final(self).call_info@),
            *final(self) == (LuaState {
                call_info: final(self).call_info,
                nci: final(self).nci,
                ..*old(self)
            }),
            final(self).nci == final(self).call_info@.len() - 1,
            final(self).call_info@.len() == (if old(self).ci.0 + 1 < old(self).call_info@.len() {
                old(self).call_info@.len()
            } else {
                old(self).call_info@.len() + 1
            }),
            final(self).frame(r) == (CallInfo {
                tailcalls: 0,
                ..if old(self).ci.0 + 1 < old(self).call_info@.len() {
                    old(self).call_info@[old(self).ci.0 + 1]
                } else {
                    CallInfo { previous: Some(old(self).ci), ..blank_callinfo() }
                }
            }),
            forall|i: int|
                0 <= i < old(self).call_info@.len() && i != r.0 ==> #[trigger] final(self).call_info@[i] == (CallInfo {
                    next: if i == old(self).ci.0 {
                        Some(r)
                    } else {
                        old(self).call_info@[i].next
                    },
                    ..old(self).call_info@[i]
                }),
            forall|z: Sizes| old(self).wf(z) ==> #[trigger] final(self).wf(z),
    {
        let idx: CallInfoIdx = match self.call_info[self.ci.0 as usize].next {
            Some(idx) => idx,
            None => self.extend_ci(),
        };
        assert(idx.0 == old(self).ci.0 + 1);
        self.call_info[idx.0 as usize].tailcalls = 0;
        idx
    }

    /// Appends a blank frame to the chain. The current frame is the last one.
    pub fn extend_ci(&mut self) -> (r: CallInfoIdx)
        requires
            chain(old(self).call_info@),
            old(self).ci.0 == old(self).call_info@.len() - 1,
            old(self).nci == old(self).call_info@.len() - 1,
            old(self).call_info@.len() < u32::MAX,
        ensures
            r.0 == old(self).call_info@.len(),
            chain(final(self).call_info@),
            *final(self) == (LuaState {
                call_info: final(self).call_info,
                nci: (old(self).nci + 1) as u32,
                ..*old(self)
            }),
            final(self).call_info@.len() == old(self).call_info@.len() + 1,
            final(self).frame(r) == (CallInfo { previous: Some(old(self).ci), ..blank_callinfo() }),
            forall|i: int|
                0 <= i < old(self).call_info@.len() ==> #[trigger] final(self).call_info@[i] == (CallInfo {
                    next: if i == old(self).ci.0 {
                        Some(r)
                    } else {
                        old(self).call_info@[i].next
                    },
                    ..old(self).call_info@[i]
                }),
    {
        let current: CallInfoIdx = self.ci;
        let new_idx: CallInfoIdx = CallInfoIdx(self.call_info.len() as u32);
        let mut fresh: CallInfo = CallInfo::default();
        fresh.previous = Some(current);
        fresh.u = CallInfoFrame::lua_default();
        self.call_info.push(fresh);
        self.call_info[current.0 as usize].next = Some(new_idx);
        self.nci = self.nci + 1;
        new_idx
    }

    /// Drops the frames after the current one.
    pub fn free_ci(&mut self)
        requires
            chain(old(self).call_info@),
            old(self).ci.0 < old(self).call_info@.len(),
            old(self).nci == old(self).call_info@.len() - 1,
        ensures
            chain(final(self).call_info@),
            *final(self) == (LuaState {
                call_info: final(self).call_info,
                nci: old(self).ci.0,
                ..*old(self)
            }),
            final(self).call_info@.len() == old(self).ci.0 + 1,
            final(self).cur() == (CallInfo { next: None, ..old(self).cur() }),
            forall|i: int|
                0 <= i < old(self).ci.0 ==> #[trigger] final(self).call_info@[i] == old(self).call_info@[i],
            forall|z: Sizes| old(self).wf(z) ==> #[trigger] final(self).wf(z),
    {
        let at: usize = self.ci.0 as usize;
        self.call_info.truncate(at + 1);
        self.call_info[at].next = None;
        self.nci = self.ci.0;
    }

    /// Drops half of the frames after the current one, where there are two or more.
    pub fn shrink_ci(&mut self)
        requires
            chain(old(self).call_info@),
            old(self).ci.0 < old(self).call_info@.len(),
            old(self).nci == old(self).call_info@.len() - 1,
        ensures
            chain(final(self).call_info@),
            *final(self) == (LuaState {
                call_info: final(self).call_info,
                nci: final(self).nci,
                ..*old(self)
            }),
            final(self).nci == final(self).call_info@.len() - 1,
            ({
                let spare = old(self).call_info@.len() - old(self).ci.0 - 1;
                final(self).call_info@.len() == old(self).ci.0 + 1 + (if spare <= 1 {
                    spare
                } else {
                    spare / 2
                })
            }),
            forall|i: int|
                0 <= i < final(self).call_info@.len() ==> #[trigger] final(self).call_info@[i] == (CallInfo {
                    next: if i + 1 < final(self).call_info@.len() {
                        old(self).call_info@[i].next
                    } else {
                        None
                    },
                    ..old(self).call_info@[i]
                }),
            forall|z: Sizes| old(self).wf(z) ==> #[trigger] final(self).wf(z),
    {
        let at: usize = self.ci.0 as usize;
        let spare: usize = self.call_info.len() - at - 1;
        if spare <= 1 {
            return;
        }
        let keep: usize = spare / 2;
        let new_len: usize = at + 1 + keep;
        self.call_info.truncate(new_len);
        self.nci = (new_len - 1) as u32;
        self.call_info[new_len - 1].next = None;
    }

    /// Makes the stack and the first frame of a thread.
    pub fn stack_init(&mut self)
        requires
            old(self).nci == 0,
        ensures
            *final(self) == (LuaState {
                stack: final(self).stack,
                tbclist: final(self).tbclist,
                top: StackIdx(1),
                stack_last: StackIdx(40),
                call_info: final(self).call_info,
                ci: CallInfoIdx(0),
                ..*old(self)
            }),
            final(self).tbclist@.len() == 0,
            final(self).stack@ == Seq::new(45, |i: int| LuaValue::Nil),
            final(self).call_info@ == seq![base_frame()],
            chain(final(self).call_info@),
            forall|z: Sizes|
                (forall|i: int|
                    0 <= i < old(self).openupval@.len() ==> (#[trigger] old(self).openupval@[i]).0 < z.upvals)
                    ==> #[trigger] final(self).wf(z),
    {
        self.stack = Vec::new();
        self.stack_resize(BASIC_STACK_SIZE + EXTRA_STACK);
        assert(self.stack@ =~= Seq::new(45, |i: int| LuaValue::Nil));
        self.tbclist = Vec::new();
        self.stack_last = StackIdx(BASIC_STACK_SIZE as u32);
        let mut base: CallInfo = CallInfo::default();
        base.top = StackIdx(1 + LUA_MINSTACK as u32);
        base.callstatus = CIST_C;
        let mut frames: Vec<CallInfo> = Vec::new();
        frames.push(base);
        self.call_info = frames;
        assert(self.call_info@ =~= seq![base_frame()]);
        self.top = StackIdx(1);
        self.ci = CallInfoIdx(0);
    }

    /// Drops the stack and all frames but the first.
    pub fn free_stack(&mut self)
        requires
            chain(old(self).call_info@),
            old(self).nci == old(self).call_info@.len() - 1,
        ensures
            old(self).stack@.len() == 0 ==> *final(self) == *old(self),
            old(self).stack@.len() > 0 ==> final(self).stack@.len() == 0 && final(self).nci == 0
                && final(self).call_info@ == seq![CallInfo { next: None, ..old(self).call_info@[0] }] && *final(self)
                == (LuaState {
                stack: final(self).stack,
                call_info: final(self).call_info,
                nci: 0,
                ci: CallInfoIdx(0),
                ..*old(self)
            }),
    {
        if self.stack.len() == 0 {
            return;
        }
        self.ci = CallInfoIdx(0);
        self.free_ci();
        assert(self.call_info@ =~= seq![CallInfo { next: None, ..old(self).call_info@[0] }]);
        self.stack = Vec::new();
    }

    /// Prepares a thread that has no stack yet: no hook, no error handler, and metered
    /// if the runtime is.
    pub fn preinit_thread(&mut self, sandbox: &SandboxLimits)
        ensures
            final(self).stack@.len() == 0,
            final(self).call_info@.len() == 0,
            final(self).openupval@.len() == 0,
            *final(self) == (LuaState {
                stack: final(self).stack,
                call_info: final(self).call_info,
                openupval: final(self).openupval,
                ci: CallInfoIdx(0),
                nci: 0,
                n_ccalls: 0,
                hooked: false,
                hookmask: if sandbox.spec_active() {
                    SANDBOX_COUNT_MASK
                } else {
                    0
                },
                basehookcount: if sandbox.spec_active() {
                    sandbox.interval
                } else {
                    0
                },
                hookcount: if sandbox.spec_active() {
                    sandbox.interval
                } else {
                    0
                },
                allowhook: true,
                status: 0,
                errfunc: 0,
                oldpc: 0,
                gc_check_needed: true,
                ..*old(self)
            }),
    {
        self.stack = Vec::new();
        self.call_info = Vec::new();
        self.openupval = Vec::new();
        self.ci = CallInfoIdx(0);
        self.nci = 0;
        self.n_ccalls = 0;
        self.hooked = false;
        self.hookmask = 0;
        self.basehookcount = 0;
        self.allowhook = true;
        self.hookcount = 0;
        if sandbox.is_active() {
            self.hookmask = SANDBOX_COUNT_MASK;
            self.basehookcount = sandbox.interval;
            self.hookcount = sandbox.interval;
        }
        self.status = 0;
        self.errfunc = 0;
        self.oldpc = 0;
        self.gc_check_needed = true;
    }

    /// Counts a Lua tail call that reused a frame, for 5.1's debug levels.
    pub fn note_lua_tailcall(&mut self, version: LuaVersion, ci: CallInfoIdx)
        requires
            ci.0 < old(self).call_info@.len(),
        ensures
            version != LuaVersion::V51 ==> *final(self) == *old(self),
            version == LuaVersion::V51 ==> old(self).frame_set(
                ci,
                CallInfo {
                    tailcalls: if old(self).frame(ci).tailcalls < u16::MAX {
                        (old(self).frame(ci).tailcalls + 1) as u16
                    } else {
                        u16::MAX
                    },
                    ..old(self).frame(ci)
                },
                *final(self),
            ),
    {
        if version == LuaVersion::V51 {
            let n: u16 = self.call_info[ci.0 as usize].tailcalls;
            if n < u16::MAX {
                self.call_info[ci.0 as usize].tailcalls = n + 1;
            }
            assert(self.call_info@ =~= old(self).call_info@.update(ci.0 as int, self.frame(ci)));
        }
    }

    /// The frame that called another one.
    pub fn ci_previous(&self, ci: CallInfoIdx) -> (r: Option<CallInfoIdx>)
        requires
            ci.0 < self.call_info@.len(),
        ensures
            r == self.frame(ci).previous,
    {
        self.call_info[ci.0 as usize].previous
    }

    /// Makes the caller of a frame the current frame.
    pub fn set_ci_previous(&mut self, ci: CallInfoIdx)
        requires
            ci.0 < old(self).call_info@.len(),
            old(self).frame(ci).previous is Some,
        ensures
            *final(self) == (LuaState { ci: old(self).frame(ci).previous->0, ..*old(self) }),
    {
        match self.call_info[ci.0 as usize].previous {
            Some(p) => {
                self.ci = p;
            },
            None => {},
        }
    }

    /// Whether a frame is the first of its thread.
    pub fn is_base_ci(&self, ci: CallInfoIdx) -> (r: bool)
        ensures
            r == (ci.0 == 0),
    {
        ci.0 == 0
    }

    /// Whether a frame is the current one.
    pub fn is_current_ci(&self, ci: CallInfoIdx) -> (r: bool)
        ensures
            r == (ci == self.ci),
    {
        ci == self.ci
    }

    /// The function slot of the frame after this one.
    pub fn ci_next_func(&self, ci: CallInfoIdx) -> (r: StackIdx)
        requires
            chain(self.call_info@),
            ci.0 + 1 < self.call_info@.len(),
        ensures
            r == self.call_info@[ci.0 + 1].func,
    {
        self.call_info[(ci.0 + 1) as usize].func
    }

    /// The end of the slots that a frame reserves.
    pub fn ci_top(&self, ci: CallInfoIdx) -> (r: StackIdx)
        requires
            ci.0 < self.call_info@.len(),
        ensures
            r == self.frame(ci).top,
    {
        self.call_info[ci.0 as usize].top
    }

    /// Whether a frame traps.
    pub fn ci_trap(&self, ci: CallInfoIdx) -> (r: bool)
        requires
            ci.0 < self.call_info@.len(),
        ensures
            r == has_flag(self.frame(ci).callstatus, CIST_TRAP),
    {
        self.call_info[ci.0 as usize].trap()
    }

    /// The saved instruction counter of a Lua frame.
    pub fn ci_savedpc(&self, ci: CallInfoIdx) -> (r: u32)
        requires
            ci.0 < self.call_info@.len(),
            self.frame(ci).spec_is_lua(),
        ensures
            r == self.frame(ci).u.savedpc,
    {
        self.call_info[ci.0 as usize].saved_pc()
    }

    /// Saves the instruction counter of a Lua frame.
    pub fn set_ci_savedpc(&mut self, ci: CallInfoIdx, pc: u32)
        requires
            ci.0 < old(self).call_info@.len(),
            old(self).frame(ci).spec_is_lua(),
        ensures
            old(self).frame_set(
                ci,
                CallInfo {
                    u: CallInfoFrame { savedpc: pc, ..old(self).frame(ci).u },
                    ..old(self).frame(ci)
                },
                *final(self),
            ),
            forall|z: Sizes| old(self).wf(z) ==> #[trigger] final(self).wf(z),
    {
        self.call_info[ci.0 as usize].set_saved_pc(pc);
    }

    /// Moves the function slot of a frame down.
    pub fn ci_adjust_func(&mut self, ci: CallInfoIdx, delta: i32)
        requires
            ci.0 < old(self).call_info@.len(),
            0 <= old(self).frame(ci).func.0 - delta <= u32::MAX,
            old(self).frame(ci).func.0 <= i32::MAX,
            old(self).frame(ci).func.0 - delta <= i32::MAX,
        ensures
            old(self).frame_set(
                ci,
                CallInfo {
                    func: StackIdx((old(self).frame(ci).func.0 - delta) as u32),
                    ..old(self).frame(ci)
                },
                *final(self),
            ),
            forall|z: Sizes| old(self).wf(z) ==> #[trigger] final(self).wf(z),
    {
        let f: u32 = self.call_info[ci.0 as usize].func.0;
        self.call_info[ci.0 as usize].func = StackIdx((f as i32 - delta) as u32);
    }

    /// The first register of a frame.
    pub fn ci_base(&self, ci: CallInfoIdx) -> (r: StackIdx)
        requires
            ci.0 < self.call_info@.len(),
            self.frame(ci).func.0 < u32::MAX,
        ensures
            r.0 == self.frame(ci).func.0 + 1,
    {
        StackIdx(self.call_info[ci.0 as usize].func.0 + 1)
    }

    /// Whether a frame was entered by a fresh run of the interpreter.
    pub fn ci_is_fresh(&self, ci: CallInfoIdx) -> (r: bool)
        requires
            ci.0 < self.call_info@.len(),
        ensures
            r == has_flag(self.frame(ci).callstatus, CIST_FRESH),
    {
        (self.call_info[ci.0 as usize].callstatus & CIST_FRESH) != 0
    }

    /// The Lua closure that a frame runs.
    pub fn ci_lua_closure(&self, ci: CallInfoIdx) -> (r: Option<LClosureId>)
        requires
            ci.0 < self.call_info@.len(),
        ensures
            r == self.closure_of(ci),
    {
        match self.get_at(self.call_info[ci.0 as usize].func) {
            LuaValue::Function(LuaClosure::Lua(cl)) => Some(cl),
            _ => None,
        }
    }

    /// The number of extra arguments of a Lua frame.
    pub fn ci_nextraargs(&self, ci: CallInfoIdx) -> (r: i32)
        requires
            ci.0 < self.call_info@.len(),
            self.frame(ci).spec_is_lua(),
        ensures
            r == self.frame(ci).u.nextraargs,
    {
        self.call_info[ci.0 as usize].nextra_args()
    }

    /// The number kept with a frame while it returns, yields or recovers.
    pub fn ci_nres(&self, ci: CallInfoIdx) -> (r: i32)
        requires
            ci.0 < self.call_info@.len(),
        ensures
            r == self.frame(ci).u2.value,
    {
        self.call_info[ci.0 as usize].u2.value
    }

    /// Sets the number kept with a frame.
    pub fn ci_nres_set(&mut self, ci: CallInfoIdx, n: i32)
        requires
            ci.0 < old(self).call_info@.len(),
        ensures
            old(self).frame_set(
                ci,
                CallInfo {
                    u2: CallInfoExtra { value: n, ..old(self).frame(ci).u2 },
                    ..old(self).frame(ci)
                },
                *final(self),
            ),
            forall|z: Sizes| old(self).wf(z) ==> #[trigger] final(self).wf(z),
    {
        self.call_info[ci.0 as usize].u2.value = n;
        assert(self.call_info@ =~= old(self).call_info@.update(ci.0 as int, self.frame(ci)));
    }

    /// How many results the caller of a frame wants, or -1 for all.
    pub fn ci_nresults(&self, ci: CallInfoIdx) -> (r: i32)
        requires
            ci.0 < self.call_info@.len(),
        ensures
            r == self.frame(ci).nresults,
    {
        self.call_info[ci.0 as usize].nresults as i32
    }

    /// Advances the saved instruction counter of a Lua frame by one.
    pub fn ci_skip_next_instruction(&mut self, ci: CallInfoIdx)
        requires
            ci.0 < old(self).call_info@.len(),
            old(self).frame(ci).spec_is_lua(),
            old(self).frame(ci).u.savedpc < u32::MAX,
        ensures
            old(self).frame_set(
                ci,
                CallInfo {
                    u: CallInfoFrame {
                        savedpc: (old(self).frame(ci).u.savedpc + 1) as u32,
                        ..old(self).frame(ci).u
                    },
                    ..old(self).frame(ci)
                },
                *final(self),
            ),
            forall|z: Sizes| old(self).wf(z) ==> #[trigger] final(self).wf(z),
    {
        let pc: u32 = self.ci_savedpc(ci);
        self.set_ci_savedpc(ci, pc + 1);
    }

    /// Sets the saved instruction counter of a Lua frame back by one.
    pub fn ci_step_pc_back(&mut self, ci: CallInfoIdx)
        requires
            ci.0 < old(self).call_info@.len(),
            old(self).frame(ci).spec_is_lua(),
            old(self).frame(ci).u.savedpc > 0,
        ensures
            old(self).frame_set(
                ci,
                CallInfo {
                    u: CallInfoFrame {
                        savedpc: (old(self).frame(ci).u.savedpc - 1) as u32,
                        ..old(self).frame(ci).u
                    },
                    ..old(self).frame(ci)
                },
                *final(self),
            ),
            forall|z: Sizes| old(self).wf(z) ==> #[trigger] final(self).wf(z),
    {
        let pc: u32 = self.ci_savedpc(ci);
        self.set_ci_savedpc(ci, pc - 1);
    }

    /// The instruction that a Lua frame is in: the one before its saved counter.
    pub fn get_ci_pcrel(&self, ci: CallInfoIdx) -> (r: u32)
        requires
            ci.0 < self.call_info@.len(),
            self.frame(ci).spec_is_lua(),
        ensures
            r == (if self.frame(ci).u.savedpc > 0 {
                self.frame(ci).u.savedpc - 1
            } else {
                0
            }),
    {
        let pc: u32 = self.ci_savedpc(ci);
        if pc > 0 {
            pc - 1
        } else {
            0
        }
    }

    /// Records what a call or return transfers, for a hook.
    pub fn set_ci_transfer_info(&mut self, ci: CallInfoIdx, ftransfer: u16, ntransfer: u16)
        requires
            ci.0 < old(self).call_info@.len(),
        ensures
            old(self).frame_set(
                ci,
                CallInfo {
                    u2: CallInfoExtra {
                        ftransfer: ftransfer,
                        ntransfer: ntransfer,
                        ..old(self).frame(ci).u2
                    },
                    ..old(self).frame(ci)
                },
                *final(self),
            ),
    {
        self.call_info[ci.0 as usize].u2.ftransfer = ftransfer;
        self.call_info[ci.0 as usize].u2.ntransfer = ntransfer;
        assert(self.call_info@ =~= old(self).call_info@.update(ci.0 as int, self.frame(ci)));
    }

    /// Raises the end of the current frame to `top` after a call that kept all its
    /// results.
    pub fn adjust_results(&mut self, nresults: i32)
        requires
            old(self).ci.0 < old(self).call_info@.len(),
        ensures
            if nresults <= -1 && old(self).cur().top.0 < old(self).top.0 {
                old(self).frame_set(
                    old(self).ci,
                    CallInfo { top: old(self).top, ..old(self).cur() },
                    *final(self),
                )
            } else {
                *final(self) == *old(self)
            },
    {
        if nresults <= -1 {
            let at: usize = self.ci.0 as usize;
            if self.call_info[at].top.0 < self.top.0 {
                self.call_info[at].top = self.top;
                assert(self.call_info@ =~= old(self).call_info@.update(at as int, self.frame(self.ci)));
            }
        }
    }

    /// The number of nested native calls.
    pub open spec fn spec_c_calls(self) -> int {
        self.n_ccalls as int % 0x10000
    }

    /// The number of nested native calls.
    pub fn c_calls(&self) -> (r: u32)
        ensures
            r == self.spec_c_calls(),
    {
        self.n_ccalls % 0x10000
    }

    /// Counts one more call that may not yield.
    pub fn inc_nny(&mut self)
        requires
            old(self).n_ccalls <= u32::MAX - 0x10000,
        ensures
            *final(self) == (LuaState { n_ccalls: (old(self).n_ccalls + 0x10000) as u32, ..*old(self) }),
    {
        self.n_ccalls = self.n_ccalls + 0x10000;
    }

    /// Counts one call that may not yield less.
    pub fn dec_nny(&mut self)
        requires
            old(self).n_ccalls >= 0x10000,
        ensures
            *final(self) == (LuaState { n_ccalls: (old(self).n_ccalls - 0x10000) as u32, ..*old(self) }),
    {
        self.n_ccalls = self.n_ccalls - 0x10000;
    }

    /// Whether the thread may yield: no call that may not is active.
    pub fn is_yieldable(&self) -> (r: bool)
        ensures
            r == (self.n_ccalls < 0x10000),
    {
        self.n_ccalls < 0x10000
    }

    /// The error due at this nesting of native calls, if any: at the limit a
    /// message, and a tenth above it an error in error handling.
    pub fn check_c_stack(&self) -> (r: Result<(), LuaError>)
        ensures
            self.spec_c_calls() == LUAI_MAXCCALLS ==> (r matches Err(e) && is_runtime_msg(
                e,
                "C stack overflow".spec_bytes(),
            )),
            self.spec_c_calls() >= 220 ==> (r matches Err(e) && e == LuaError::WithStatus(LuaStatus::ErrErr)),
            self.spec_c_calls() != LUAI_MAXCCALLS && self.spec_c_calls() < 220 ==> r is Ok,
    {
        let n: u32 = self.c_calls();
        if n == LUAI_MAXCCALLS {
            return Err(runtime_error("C stack overflow"));
        }
        if n >= LUAI_MAXCCALLS / 10 * 11 {
            return Err(LuaError::WithStatus(LuaStatus::ErrErr));
        }
        Ok(())
    }

    /// Counts one more native call and reports the error due.
    pub fn inc_c_stack(&mut self) -> (r: Result<(), LuaError>)
        requires
            old(self).n_ccalls < u32::MAX,
        ensures
            *final(self) == (LuaState { n_ccalls: (old(self).n_ccalls + 1) as u32, ..*old(self) }),
            final(self).spec_c_calls() == LUAI_MAXCCALLS ==> (r matches Err(e) && is_runtime_msg(
                e,
                "C stack overflow".spec_bytes(),
            )),
            final(self).spec_c_calls() >= 220 ==> (r matches Err(e) && e == LuaError::WithStatus(LuaStatus::ErrErr)),
            final(self).spec_c_calls() != LUAI_MAXCCALLS && final(self).spec_c_calls() < 220 ==> r is Ok,
    {
        self.n_ccalls = self.n_ccalls + 1;
        if self.c_calls() >= LUAI_MAXCCALLS {
            return self.check_c_stack();
        }
        Ok(())
    }

    /// Sets the hook countdown to where it starts.
    pub fn reset_hook_count(&mut self)
        ensures
            *final(self) == (LuaState { hookcount: old(self).basehookcount, ..*old(self) }),
    {
        self.hookcount = self.basehookcount;
    }

    /// Meters the thread: sets up the limits of the runtime and arms the count hook.
    pub fn install_sandbox_limits(
        &mut self,
        sandbox: &mut SandboxLimits,
        interval: i32,
        instr_limit: Option<u64>,
        mem_limit: Option<usize>,
    )
        ensures
            ({
                let n: i32 = if interval < 1 {
                    1
                } else {
                    interval
                };
                &&& *final(sandbox) == (SandboxLimits {
                    interval: n,
                    instr_limited: instr_limit is Some,
                    instr_remaining: instr_limit.unwrap_or(0),
                    instr_limit: instr_limit.unwrap_or(0),
                    mem_limit: mem_limit,
                    tripped: 0,
                    aborting: old(sandbox).aborting,
                })
                &&& *final(self) == (LuaState {
                    hookmask: old(self).hookmask | SANDBOX_COUNT_MASK,
                    basehookcount: n,
                    hookcount: n,
                    ..*old(self)
                })
            }),
    {
        sandbox.install(interval, instr_limit, mem_limit);
        self.hookmask = self.hookmask | SANDBOX_COUNT_MASK;
        self.basehookcount = sandbox.interval;
        self.hookcount = sandbox.interval;
    }

    /// The thread after its frames were reset: back in its first frame, which is
    /// native and has no function, with status cleared. Returns the status to close
    /// pending variables with.
    pub fn reset_thread_begin(&mut self, status: i32) -> (r: i32)
        requires
            old(self).call_info@.len() > 0,
        ensures
            r == (if status == LuaStatus::Yield.spec_raw() {
                0
            } else {
                status
            }),
            *final(self) == (LuaState {
                ci: CallInfoIdx(0),
                status: 0,
                stack: final(self).stack,
                call_info: final(self).call_info,
                ..*old(self)
            }),
            final(self).stack@ == (if old(self).stack@.len() > 0 {
                old(self).stack@.update(0, LuaValue::Nil)
            } else {
                old(self).stack@
            }),
            final(self).call_info@ == old(self).call_info@.update(
                0,
                CallInfo {
                    func: StackIdx(0),
                    call_metamethods: 0,
                    callstatus: CIST_C,
                    ..old(self).call_info@[0]
                },
            ),
            forall|z: Sizes| old(self).wf(z) ==> #[trigger] final(self).wf(z),
    {
        self.ci = CallInfoIdx(0);
        if self.stack.len() > 0 {
            self.stack.set(0, LuaValue::Nil);
        }
        self.call_info[0].func = StackIdx(0);
        self.call_info[0].call_metamethods = 0;
        self.call_info[0].callstatus = CIST_C;
        assert(self.call_info@ =~= old(self).call_info@.update(0, self.call_info@[0]));
        self.status = 0;
        if status == LuaStatus::Yield.raw() {
            0
        } else {
            status
        }
    }

    /// Ends a reset, given the status that closing pending variables ended with. On
    /// success the stack is emptied down to its first slot; otherwise it holds the
    /// error object, which the caller has set. The stack is cut to what the first frame needs,
    /// and the room to spare is given back. Returns the status.
    pub fn reset_thread_end(&mut self, status: i32) -> (r: i32)
        requires
            old(self).call_info@.len() > 0,
            old(self).stack@.len() > 0,
            old(self).top.0 <= u32::MAX - 25,
        ensures
            r == status,
            ({
                let top = if status != 0 {
                    old(self).top
                } else {
                    StackIdx(1)
                };
                &&& *final(self) == (LuaState {
                    top: top,
                    stack: final(self).stack,
                    stack_last: StackIdx((top.0 + 20) as u32),
                    call_info: final(self).call_info,
                    ..*old(self)
                })
                &&& final(self).stack@.len() == top.0 + 25
                &&& forall|i: int| 0 <= i < top.0 + 25 ==> #[trigger] final(self).stack@[i] == old(self).at(i)
                &&& final(self).call_info@ == old(self).call_info@.update(
                    0,
                    CallInfo { top: StackIdx((top.0 + 20) as u32), ..old(self).call_info@[0] },
                )
            }),
            forall|z: Sizes| old(self).wf(z) ==> #[trigger] final(self).wf(z),
    {
        if status == 0 {
            self.top = StackIdx(1);
        }
        let new_top: u32 = self.top.0 + LUA_MINSTACK as u32;
        self.call_info[0].top = StackIdx(new_top);
        assert(self.call_info@ =~= old(self).call_info@.update(0, self.call_info@[0]));
        let ghost mid = *self;
        assert(forall|z: Sizes| old(self).wf(z) ==> #[trigger] mid.wf(z));
        self.realloc_stack(new_top as usize);
        let ghost cut = *self;
        vec_shrink(&mut self.stack);
        assert(forall|z: Sizes| cut.wf(z) ==> #[trigger] self.wf(z));
        status
    }
}

/// Gives back the room that a vector has to spare: `Vec::shrink_to_fit` of the standard
/// library, which leaves what the vector holds as it is. How much room stays is the
/// allocator's choice, and nothing is claimed of it.
#[verifier::external_body]
fn vec_shrink(v: &mut Vec<LuaValue>)
    ensures
        final(v)@ == old(v)@,
{
    v.shrink_to_fit()
}

/// The depth that native calls may nest to. The limit is fixed.
pub fn set_c_stack_limit(limit: u32) -> (r: i32)
    ensures
        r == 200,
{
    LUAI_MAXCCALLS as i32
}

/// Every frame of a chain is reached by walking back from a later one: going back
/// `n` frames from frame `i` leads to frame `i - n`.
pub open spec fn back(cis: Seq<CallInfo>, i: int, n: int) -> Option<CallInfoIdx>
    decreases n,
{
    if n <= 0 {
        Some(CallInfoIdx(i as u32))
    } else {
        match back(cis, i, n - 1) {
            Some(c) => cis[c.0 as int].previous,
            None => None,
        }
    }
}

/// Walking back through a chain visits each earlier frame once, in order, and ends
/// before the first.
pub proof fn law_chain_walk(cis: Seq<CallInfo>, i: int, n: int)
    requires
        chain(cis),
        0 <= i < cis.len(),
        0 <= n <= i + 1,
    ensures
        n <= i ==> back(cis, i, n) == Some(CallInfoIdx((i - n) as u32)),
        n == i + 1 ==> back(cis, i, n) is None,
    decreases n,
{
    if n > 0 {
        law_chain_walk(cis, i, n - 1);
        assert(cis[i - (n - 1)].previous == (if i - (n - 1) == 0 {
            None
        } else {
            Some(CallInfoIdx((i - n) as u32))
        }));
    }
}

} // verus!
