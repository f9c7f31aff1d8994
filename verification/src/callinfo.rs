//! Call frames.

use vstd::prelude::*;
use crate::value::CallInfoIdx;
use crate::value::StackIdx;

verus! {

/// The frame saved the thread's `allowhook`.
pub const CIST_OAH: u16 = 0x0001;

/// The frame runs a native function.
pub const CIST_C: u16 = 0x0002;

/// The frame was entered by a fresh run of the interpreter.
pub const CIST_FRESH: u16 = 0x0004;

/// The frame runs a debug hook.
pub const CIST_HOOKED: u16 = 0x0008;

/// The frame is a yieldable protected call.
pub const CIST_YPCALL: u16 = 0x0010;

/// The frame was tail called.
pub const CIST_TAIL: u16 = 0x0020;

/// The last hook yielded.
pub const CIST_HOOKYIELD: u16 = 0x0040;

/// The frame runs a finalizer.
pub const CIST_FIN: u16 = 0x0080;

/// The frame has transfer information.
pub const CIST_TRAN: u16 = 0x0100;

/// The lowest of the three bits that hold the recover status.
pub const CIST_RECST: u16 = 10;

/// The bits that hold the recover status.
pub const CIST_RECST_MASK: u16 = 0x1c00;

/// The frame's `__lt` call stands in for a missing `__le`, so that its result
/// counts negated if the call yields and is resumed.
pub const CIST_LEQ: u16 = 0x2000;

/// The frame traps: hooks are due.
pub const CIST_TRAP: u16 = 0x4000;

/// What a frame holds beyond its place on the stack: the saved instruction
/// counter and the number of extra arguments of a Lua frame, the saved error
/// handler and the continuation of a native one.
#[derive(Debug, Clone, Copy, PartialEq, Eq, Structural)]
pub struct CallInfoFrame {
    pub savedpc: u32,
    pub nextraargs: i32,
    pub k: Option<usize>,
    pub old_errfunc: isize,
    pub ctx: isize,
}

/// A number whose meaning the frame's activity decides, and what a call or return
/// hook is told of the values transferred.
#[derive(Debug, Clone, Copy, PartialEq, Eq, Structural)]
pub struct CallInfoExtra {
    pub value: i32,
    pub ftransfer: u16,
    pub ntransfer: u16,
}

/// A call frame.
#[derive(Debug, Clone, Copy, PartialEq, Eq, Structural)]
pub struct CallInfo {
    pub func: StackIdx,
    pub top: StackIdx,
    pub previous: Option<CallInfoIdx>,
    pub next: Option<CallInfoIdx>,
    pub u: CallInfoFrame,
    pub u2: CallInfoExtra,
    pub nresults: i16,
    pub callstatus: u16,
    pub call_metamethods: u8,
    pub tailcalls: u16,
}

impl Default for CallInfoExtra {
    /// All zero.
    fn default() -> (r: Self)
        ensures
            r == (CallInfoExtra { value: 0, ftransfer: 0, ntransfer: 0 }),
    {
        CallInfoExtra { value: 0, ftransfer: 0, ntransfer: 0 }
    }
}

/// The blank frame payload.
pub open spec fn blank_frame() -> CallInfoFrame {
    CallInfoFrame { savedpc: 0, nextraargs: 0, k: None, old_errfunc: 0, ctx: 0 }
}

/// The blank frame.
pub open spec fn blank_callinfo() -> CallInfo {
    CallInfo {
        func: StackIdx(0),
        top: StackIdx(0),
        previous: None,
        next: None,
        u: blank_frame(),
        u2: CallInfoExtra { value: 0, ftransfer: 0, ntransfer: 0 },
        nresults: 0,
        callstatus: 0,
        call_metamethods: 0,
        tailcalls: 0,
    }
}

impl CallInfoFrame {
    /// The payload that a native frame starts with.
    pub fn c_default() -> (r: Self)
        ensures
            r == blank_frame(),
    {
        CallInfoFrame { savedpc: 0, nextraargs: 0, k: None, old_errfunc: 0, ctx: 0 }
    }

    /// The payload that a Lua frame starts with.
    pub fn lua_default() -> (r: Self)
        ensures
            r == blank_frame(),
    {
        CallInfoFrame { savedpc: 0, nextraargs: 0, k: None, old_errfunc: 0, ctx: 0 }
    }
}

impl Default for CallInfo {
    /// A frame with nothing set.
    fn default() -> (r: Self)
        ensures
            r == blank_callinfo(),
    {
        CallInfo {
            func: StackIdx(0),
            top: StackIdx(0),
            previous: None,
            next: None,
            u: CallInfoFrame::c_default(),
            u2: CallInfoExtra::default(),
            nresults: 0,
            callstatus: 0,
            call_metamethods: 0,
            tailcalls: 0,
        }
    }
}

/// Whether a flag is set in a call status.
pub open spec fn has_flag(status: u16, flag: u16) -> bool {
    status & flag != 0
}

/// A call status with its recover status replaced.
pub open spec fn with_recover(status: u16, code: u16) -> u16 {
    (status & !CIST_RECST_MASK) | ((code & 7) << CIST_RECST)
}

impl CallInfo {
    /// Whether the frame runs a Lua function.
    pub open spec fn spec_is_lua(self) -> bool {
        !has_flag(self.callstatus, CIST_C)
    }

    /// Whether the frame runs a Lua function.
    pub fn is_lua(&self) -> (r: bool)
        ensures
            r == self.spec_is_lua(),
    {
        (self.callstatus & CIST_C) == 0
    }

    /// Whether the frame runs Lua code.
    pub fn is_lua_code(&self) -> (r: bool)
        ensures
            r == self.spec_is_lua(),
    {
        self.is_lua()
    }

    /// The saved instruction counter of a Lua frame.
    pub fn saved_pc(&self) -> (r: u32)
        requires
            self.spec_is_lua(),
        ensures
            r == self.u.savedpc,
    {
        self.u.savedpc
    }

    /// Saves the instruction counter of a Lua frame.
    pub fn set_saved_pc(&mut self, pc: u32)
        requires
            old(self).spec_is_lua(),
        ensures
            *final(self) == (CallInfo {
                u: CallInfoFrame { savedpc: pc, ..old(self).u },
                ..*old(self)
            }),
    {
        self.u.savedpc = pc;
    }

    /// The number of extra arguments of a vararg Lua frame.
    pub fn nextra_args(&self) -> (r: i32)
        requires
            self.spec_is_lua(),
        ensures
            r == self.u.nextraargs,
    {
        self.u.nextraargs
    }

    /// Sets the number of extra arguments of a Lua frame.
    pub fn set_nextra_args(&mut self, n: i32)
        requires
            old(self).spec_is_lua(),
        ensures
            *final(self) == (CallInfo {
                u: CallInfoFrame { nextraargs: n, ..old(self).u },
                ..*old(self)
            }),
    {
        self.u.nextraargs = n;
    }

    /// The first value transferred by a call or return.
    pub fn transfer_ftransfer(&self) -> (r: u16)
        ensures
            r == self.u2.ftransfer,
    {
        self.u2.ftransfer
    }

    /// The number of values transferred by a call or return.
    pub fn transfer_ntransfer(&self) -> (r: u16)
        ensures
            r == self.u2.ntransfer,
    {
        self.u2.ntransfer
    }

    /// Arms or disarms the trap of a Lua frame, leaving every other flag.
    pub fn set_trap(&mut self, t: bool)
        requires
            old(self).spec_is_lua(),
        ensures
            *final(self) == (CallInfo {
                callstatus: if t {
                    old(self).callstatus | CIST_TRAP
                } else {
                    old(self).callstatus & !CIST_TRAP
                },
                ..*old(self)
            }),
    {
        if t {
            self.callstatus = self.callstatus | CIST_TRAP;
        } else {
            self.callstatus = self.callstatus & !CIST_TRAP;
        }
    }

    /// Whether the frame traps.
    pub fn trap(&self) -> (r: bool)
        ensures
            r == has_flag(self.callstatus, CIST_TRAP),
    {
        (self.callstatus & CIST_TRAP) != 0
    }

    /// The status that a protected call recovers with.
    pub fn recover_status(&self) -> (r: i32)
        ensures
            r == ((self.callstatus >> CIST_RECST) & 7),
    {
        ((self.callstatus >> CIST_RECST) & 7) as i32
    }

    /// Stores the status that a protected call recovers with: its low three bits.
    pub fn set_recover_status(&mut self, status: i32)
        ensures
            *final(self) == (CallInfo {
                callstatus: with_recover(old(self).callstatus, status as u16),
                ..*old(self)
            }),
    {
        let bits: u16 = #[verifier::truncate] (status as u16);
        self.callstatus = (self.callstatus & !CIST_RECST_MASK) | ((bits & 7) << CIST_RECST);
    }

    /// The saved `allowhook`.
    pub fn get_oah(&self) -> (r: bool)
        ensures
            r == has_flag(self.callstatus, CIST_OAH),
    {
        (self.callstatus & CIST_OAH) != 0
    }

    /// Saves `allowhook`, leaving every other flag.
    pub fn set_oah(&mut self, allow: bool)
        ensures
            *final(self) == (CallInfo {
                callstatus: (old(self).callstatus & !CIST_OAH) | (if allow {
                    CIST_OAH
                } else {
                    0
                }),
                ..*old(self)
            }),
    {
        self.callstatus = (self.callstatus & !CIST_OAH) | (if allow {
            CIST_OAH
        } else {
            0
        });
    }

    /// The error handler that a native frame saved.
    pub fn u_c_old_errfunc(&self) -> (r: isize)
        requires
            !self.spec_is_lua(),
        ensures
            r == self.u.old_errfunc,
    {
        self.u.old_errfunc
    }

    /// The continuation context of a native frame.
    pub fn u_c_ctx(&self) -> (r: isize)
        requires
            !self.spec_is_lua(),
        ensures
            r == self.u.ctx,
    {
        self.u.ctx
    }

    /// The continuation of a native frame: a slot of the function registry.
    pub fn u_c_k(&self) -> (r: Option<usize>)
        requires
            !self.spec_is_lua(),
        ensures
            r == self.u.k,
    {
        self.u.k
    }

    /// Sets the continuation of a native frame.
    pub fn set_u_c_k(&mut self, k: Option<usize>)
        requires
            !old(self).spec_is_lua(),
        ensures
            *final(self) == (CallInfo { u: CallInfoFrame { k: k, ..old(self).u }, ..*old(self) }),
    {
        self.u.k = k;
    }

    /// Sets the continuation context of a native frame.
    pub fn set_u_c_ctx(&mut self, ctx: isize)
        requires
            !old(self).spec_is_lua(),
        ensures
            *final(self) == (CallInfo { u: CallInfoFrame { ctx: ctx, ..old(self).u }, ..*old(self) }),
    {
        self.u.ctx = ctx;
    }

    /// Saves the error handler in a native frame.
    pub fn set_u_c_old_errfunc(&mut self, old_errfunc: isize)
        requires
            !old(self).spec_is_lua(),
        ensures
            *final(self) == (CallInfo {
                u: CallInfoFrame { old_errfunc: old_errfunc, ..old(self).u },
                ..*old(self)
            }),
    {
        self.u.old_errfunc = old_errfunc;
    }

    /// Sets the function that a yieldable protected call recovers at.
    pub fn set_u2_funcidx(&mut self, idx: i32)
        ensures
            *final(self) == (CallInfo { u2: CallInfoExtra { value: idx, ..old(self).u2 }, ..*old(self) }),
    {
        self.u2.value = idx;
    }
}

/// The parts of a call status do not disturb one another: the trap, the saved
/// `allowhook` and the recover status read back what was stored, and storing one
/// leaves the others and the kind of the frame alone.
pub proof fn law_status_parts(s: u16, code: u16)
    ensures
        has_flag(s | CIST_TRAP, CIST_TRAP),
        !has_flag(s & !CIST_TRAP, CIST_TRAP),
        (s | CIST_TRAP) & !CIST_TRAP == s & !CIST_TRAP,
        has_flag((s & !CIST_OAH) | CIST_OAH, CIST_OAH),
        !has_flag(s & !CIST_OAH, CIST_OAH),
        (with_recover(s, code) >> CIST_RECST) & 7 == code & 7,
        with_recover(s, code) & !CIST_RECST_MASK == s & !CIST_RECST_MASK,
        has_flag(with_recover(s, code), CIST_C) == has_flag(s, CIST_C),
        has_flag(with_recover(s, code), CIST_TRAP) == has_flag(s, CIST_TRAP),
        has_flag(with_recover(s, code), CIST_LEQ) == has_flag(s, CIST_LEQ),
        has_flag(s | CIST_TRAP, CIST_C) == has_flag(s, CIST_C),
        has_flag(s & !CIST_TRAP, CIST_C) == has_flag(s, CIST_C),
        has_flag((s & !CIST_OAH) | CIST_OAH, CIST_C) == has_flag(s, CIST_C),
        ((s | CIST_TRAP) >> CIST_RECST) & 7 == (s >> CIST_RECST) & 7,
        ((s & !CIST_TRAP) >> CIST_RECST) & 7 == (s >> CIST_RECST) & 7,
{
    assert((s | 0x4000) & 0x4000 != 0 && (s & !0x4000u16) & 0x4000 == 0 && (s | 0x4000) & !0x4000u16 == s
        & !0x4000u16) by (bit_vector);
    assert(((s & !0x0001u16) | 0x0001) & 0x0001 != 0 && (s & !0x0001u16) & 0x0001 == 0) by (bit_vector);
    assert({
        let w = (s & !0x1c00u16) | ((code & 7) << 10u16);
        &&& (w >> 10u16) & 7 == code & 7
        &&& w & !0x1c00u16 == s & !0x1c00u16
        &&& (w & 0x0002 != 0) == (s & 0x0002 != 0)
        &&& (w & 0x4000 != 0) == (s & 0x4000 != 0)
        &&& (w & 0x2000 != 0) == (s & 0x2000 != 0)
    }) by (bit_vector);
    assert({
        &&& ((s | 0x4000) & 0x0002 != 0) == (s & 0x0002 != 0)
        &&& ((s & !0x4000u16) & 0x0002 != 0) == (s & 0x0002 != 0)
        &&& (((s & !0x0001u16) | 0x0001) & 0x0002 != 0) == (s & 0x0002 != 0)
        &&& ((s | 0x4000) >> 10u16) & 7 == (s >> 10u16) & 7
        &&& ((s & !0x4000u16) >> 10u16) & 7 == (s >> 10u16) & 7
    }) by (bit_vector);
}

/// The mark for a stand-in comparison leaves the other flags of a frame alone.
pub proof fn law_leq_mark(s: u16)
    ensures
        has_flag(s | CIST_LEQ, CIST_LEQ),
        !has_flag(s & !CIST_LEQ, CIST_LEQ),
        !has_flag(s, CIST_LEQ) ==> (s | CIST_LEQ) & !CIST_LEQ == s,
        has_flag(s | CIST_LEQ, CIST_C) == has_flag(s, CIST_C),
        has_flag(s & !CIST_LEQ, CIST_C) == has_flag(s, CIST_C),
        has_flag(s | CIST_LEQ, CIST_TRAP) == has_flag(s, CIST_TRAP),
        has_flag(s & !CIST_LEQ, CIST_TRAP) == has_flag(s, CIST_TRAP),
        has_flag(s | CIST_LEQ, CIST_FRESH) == has_flag(s, CIST_FRESH),
        has_flag(s & !CIST_LEQ, CIST_FRESH) == has_flag(s, CIST_FRESH),
{
    assert({
        &&& (s | 0x2000) & 0x2000 != 0
        &&& (s & !0x2000u16) & 0x2000 == 0
        &&& s & 0x2000 == 0 ==> (s | 0x2000) & !0x2000u16 == s
        &&& ((s | 0x2000) & 0x0002 != 0) == (s & 0x0002 != 0)
        &&& ((s & !0x2000u16) & 0x0002 != 0) == (s & 0x0002 != 0)
        &&& ((s | 0x2000) & 0x4000 != 0) == (s & 0x4000 != 0)
        &&& ((s & !0x2000u16) & 0x4000 != 0) == (s & 0x4000 != 0)
        &&& ((s | 0x2000) & 0x0004 != 0) == (s & 0x0004 != 0)
        &&& ((s & !0x2000u16) & 0x0004 != 0) == (s & 0x0004 != 0)
    }) by (bit_vector);
}

} // verus!
