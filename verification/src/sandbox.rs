//! The budget of a sandboxed runtime.

use vstd::prelude::*;
use vstd::string::StringSliceAdditionalSpecFns;
use crate::value::LuaError;
use crate::value::is_runtime_msg;
use crate::value::runtime_error;

verus! {

/// The count-hook mask by which threads are metered.
pub const SANDBOX_COUNT_MASK: u8 = 0x08;

/// No limit was crossed.
pub const SANDBOX_TRIP_NONE: u8 = 0;

/// The instruction budget reached zero.
pub const SANDBOX_TRIP_INSTRUCTIONS: u8 = 1;

/// The memory ceiling was exceeded.
pub const SANDBOX_TRIP_MEMORY: u8 = 2;

/// The budget of a runtime, shared by all its threads. An interval of zero means
/// that no sandbox is active. `aborting` stays set from the first trip until a
/// reset, so that the abort cannot be caught.
#[derive(Debug, Clone, Copy, PartialEq, Eq, Structural)]
pub struct SandboxLimits {
    pub interval: i32,
    pub instr_limited: bool,
    pub instr_remaining: u64,
    pub instr_limit: u64,
    pub mem_limit: Option<usize>,
    pub tripped: u8,
    pub aborting: bool,
}

impl Default for SandboxLimits {
    /// No sandbox.
    fn default() -> (r: Self)
        ensures
            r == (SandboxLimits {
                interval: 0,
                instr_limited: false,
                instr_remaining: 0,
                instr_limit: 0,
                mem_limit: None,
                tripped: SANDBOX_TRIP_NONE,
                aborting: false,
            }),
    {
        SandboxLimits {
            interval: 0,
            instr_limited: false,
            instr_remaining: 0,
            instr_limit: 0,
            mem_limit: None,
            tripped: SANDBOX_TRIP_NONE,
            aborting: false,
        }
    }
}

/// A difference that stops at zero.
pub open spec fn monus(a: u64, b: u64) -> u64 {
    if a >= b {
        (a - b) as u64
    } else {
        0
    }
}

/// What charging instructions and checking the bytes in use does: an abort where the budget
/// is used up or else the ceiling exceeded.
pub open spec fn charged(
    a: SandboxLimits,
    amount: u64,
    total_bytes: usize,
    r: Option<LuaError>,
    b: SandboxLimits,
) -> bool {
    let s = a.spent(amount);
    if s.out_of_instructions() {
        &&& b == s.trip(SANDBOX_TRIP_INSTRUCTIONS)
        &&& r matches Some(e)
        &&& is_runtime_msg(e, "sandbox: instruction budget exhausted".spec_bytes())
    } else if s.over_memory(total_bytes as int) {
        &&& b == s.trip(SANDBOX_TRIP_MEMORY)
        &&& r matches Some(e)
        &&& is_runtime_msg(e, "sandbox: memory limit exceeded".spec_bytes())
    } else {
        b == s && r is None
    }
}

/// What asking for bytes in advance does: an abort where they would exceed the ceiling.
pub open spec fn reserved(
    a: SandboxLimits,
    total_bytes: usize,
    additional: usize,
    r: Option<LuaError>,
    b: SandboxLimits,
) -> bool {
    let want = if total_bytes + additional > usize::MAX {
        usize::MAX as int
    } else {
        total_bytes + additional
    };
    if a.over_memory(want) {
        &&& b == a.trip(SANDBOX_TRIP_MEMORY)
        &&& r matches Some(e)
        &&& is_runtime_msg(e, "sandbox: memory limit exceeded".spec_bytes())
    } else {
        b == a && r is None
    }
}

impl SandboxLimits {
    /// Whether a sandbox is active.
    pub open spec fn spec_active(self) -> bool {
        self.interval != 0
    }

    /// The budget after some instructions were charged.
    pub open spec fn spent(self, amount: u64) -> SandboxLimits {
        if self.spec_active() && self.instr_limited {
            SandboxLimits { instr_remaining: monus(self.instr_remaining, amount), ..self }
        } else {
            self
        }
    }

    /// Whether the instruction budget is used up.
    pub open spec fn out_of_instructions(self) -> bool {
        self.spec_active() && self.instr_limited && self.instr_remaining == 0
    }

    /// Whether this many bytes are over the memory ceiling.
    pub open spec fn over_memory(self, bytes: int) -> bool {
        self.spec_active() && (self.mem_limit matches Some(limit) && bytes > limit)
    }

    /// The budget with a trip recorded.
    pub open spec fn trip(self, code: u8) -> SandboxLimits {
        SandboxLimits { tripped: code, aborting: true, ..self }
    }

    /// Whether a sandbox is active.
    pub fn is_active(&self) -> (r: bool)
        ensures
            r == self.spec_active(),
    {
        self.interval != 0
    }

    /// Charges some instructions against the budget and holds the bytes in use
    /// against the memory ceiling. Returns the abort error, and records the trip,
    /// where the budget is used up or else the ceiling exceeded; does nothing where no
    /// sandbox is active.
    pub fn charge(&mut self, amount: u64, total_bytes: usize) -> (r: Option<LuaError>)
        ensures
            charged(*old(self), amount, total_bytes, r, *final(self)),
    {
        if self.interval == 0 {
            return None;
        }
        if self.instr_limited {
            let rem: u64 = if self.instr_remaining >= amount {
                self.instr_remaining - amount
            } else {
                0
            };
            self.instr_remaining = rem;
            if rem == 0 {
                self.tripped = SANDBOX_TRIP_INSTRUCTIONS;
                self.aborting = true;
                return Some(runtime_error("sandbox: instruction budget exhausted"));
            }
        }
        if let Some(limit) = self.mem_limit {
            if total_bytes > limit {
                self.tripped = SANDBOX_TRIP_MEMORY;
                self.aborting = true;
                return Some(runtime_error("sandbox: memory limit exceeded"));
            }
        }
        None
    }

    /// Charges one interval.
    pub fn charge_interval(&mut self, total_bytes: usize) -> (r: Option<LuaError>)
        requires
            old(self).interval >= 0,
        ensures
            charged(*old(self), old(self).interval as u64, total_bytes, r, *final(self)),
    {
        let amount: u64 = self.interval as u64;
        self.charge(amount, total_bytes)
    }

    /// Refuses an allocation that would take the bytes in use over the memory ceiling,
    /// before it is made.
    pub fn reserve(&mut self, total_bytes: usize, additional: usize) -> (r: Option<LuaError>)
        ensures
            reserved(*old(self), total_bytes, additional, r, *final(self)),
    {
        if self.interval == 0 {
            return None;
        }
        if let Some(limit) = self.mem_limit {
            let projected: usize = total_bytes.saturating_add(additional);
            if projected > limit {
                self.tripped = SANDBOX_TRIP_MEMORY;
                self.aborting = true;
                return Some(runtime_error("sandbox: memory limit exceeded"));
            }
        }
        None
    }

    /// How many steps a pattern match may take before it must charge: what is left of
    /// the instruction budget, or zero for no limit.
    pub fn match_step_limit(&self) -> (r: u64)
        ensures
            r == (if self.spec_active() && self.instr_limited {
                self.instr_remaining
            } else {
                0
            }),
    {
        if self.interval != 0 && self.instr_limited {
            self.instr_remaining
        } else {
            0
        }
    }

    /// Sets up the limits, with an interval of at least one. An abort in flight stays.
    pub fn install(&mut self, interval: i32, instr_limit: Option<u64>, mem_limit: Option<usize>)
        ensures
            *final(self) == (SandboxLimits {
                interval: if interval < 1 {
                    1
                } else {
                    interval
                },
                instr_limited: instr_limit is Some,
                instr_remaining: instr_limit.unwrap_or(0),
                instr_limit: instr_limit.unwrap_or(0),
                mem_limit: mem_limit,
                tripped: SANDBOX_TRIP_NONE,
                aborting: old(self).aborting,
            }),
    {
        self.interval = if interval < 1 {
            1
        } else {
            interval
        };
        self.instr_limited = instr_limit.is_some();
        self.instr_remaining = instr_limit.unwrap_or(0);
        self.instr_limit = instr_limit.unwrap_or(0);
        self.mem_limit = mem_limit;
        self.tripped = SANDBOX_TRIP_NONE;
    }

    /// Refills the instruction budget and clears the trip and the abort.
    pub fn reset(&mut self)
        ensures
            *final(self) == (SandboxLimits {
                instr_remaining: if old(self).instr_limited {
                    old(self).instr_limit
                } else {
                    old(self).instr_remaining
                },
                tripped: SANDBOX_TRIP_NONE,
                aborting: false,
                ..*old(self)
            }),
    {
        if self.instr_limited {
            self.instr_remaining = self.instr_limit;
        }
        self.tripped = SANDBOX_TRIP_NONE;
        self.aborting = false;
    }
}

/// Charging in parts is charging the sum: what is left after `a` and then `b` is
/// what is left after `a + b`.
pub proof fn law_charges_add(s: SandboxLimits, a: u64, b: u64)
    requires
        a + b <= u64::MAX,
    ensures
        s.spent(a).spent(b) == s.spent((a + b) as u64),
{
}

/// A runtime whose budget is used up stays out of instructions, whatever is charged
/// next, until it is reset or given new limits.
pub proof fn law_exhausted_stays(s: SandboxLimits, amount: u64)
    requires
        s.out_of_instructions(),
    ensures
        s.spent(amount).out_of_instructions(),
        s.trip(SANDBOX_TRIP_INSTRUCTIONS).out_of_instructions(),
{
}

/// An abort is sticky: neither spending nor another trip clears it.
pub proof fn law_abort_sticky(s: SandboxLimits, amount: u64, code: u8)
    requires
        s.aborting,
    ensures
        s.spent(amount).aborting,
        s.trip(code).aborting,
        s.spent(amount).trip(code).aborting,
{
}

/// A sandbox with an instruction budget lets as many instructions run as it has left, one
/// fewer than that without an abort: it counts them down, and aborts when none are left. The
/// abort is recorded.
pub proof fn law_budget(a: SandboxLimits, amount: u64, total_bytes: usize, r: Option<LuaError>, b: SandboxLimits)
    requires
        charged(a, amount, total_bytes, r, b),
        a.interval != 0,
        a.instr_limited,
    ensures
        amount >= a.instr_remaining ==> r is Some && b.aborting && b.instr_remaining == 0 && b.tripped
            == SANDBOX_TRIP_INSTRUCTIONS,
        amount < a.instr_remaining ==> b.instr_remaining == a.instr_remaining - amount,
        amount < a.instr_remaining && (a.mem_limit matches Some(m) ==> total_bytes <= m) ==> r is None && b.aborting
            == a.aborting && b.tripped == a.tripped,
{
}

/// A sandbox with a memory ceiling aborts when more bytes are in use, or would be, and not
/// when they are as many as are allowed. Without a sandbox nothing is counted.
pub proof fn law_ceiling(
    a: SandboxLimits,
    limit: usize,
    bytes: usize,
    more: usize,
    r: Option<LuaError>,
    b: SandboxLimits,
    r2: Option<LuaError>,
    b2: SandboxLimits,
)
    requires
        charged(a, 0, bytes, r, b),
        reserved(a, bytes, more, r2, b2),
        !a.instr_limited,
        a.mem_limit == Some(limit),
        limit < usize::MAX,
    ensures
        a.interval != 0 && bytes > limit ==> r is Some && b.aborting && b.tripped == SANDBOX_TRIP_MEMORY,
        a.interval != 0 && bytes <= limit ==> r is None && b == a,
        a.interval != 0 && bytes + more > limit ==> r2 is Some && b2.aborting && b2.tripped == SANDBOX_TRIP_MEMORY,
        a.interval != 0 && bytes + more <= limit ==> r2 is None && b2 == a,
        a.interval == 0 ==> r is None && r2 is None && b == a && b2 == a,
{
}

} // verus!
