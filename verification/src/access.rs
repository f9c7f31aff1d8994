//! Access to threads, frames, tables and the sandbox, one thing at a time.

use vstd::prelude::*;
use vstd::string::StringSliceAdditionalSpecFns;
use crate::arith::coerced;
use crate::arith::number_value;
use crate::arith::spec_number_value;
use crate::arith::spec_to_integer_ns;
use crate::arith::to_integer;
use crate::arith::to_integer_ns;
use crate::arith::tonumber;
use crate::callinfo::CIST_TAIL;
use crate::callinfo::CallInfo;
use crate::callinfo::CallInfoExtra;
use crate::exec_regs::ArithOp;
use crate::float::F2Imod;
use crate::global::GlobalState;
use crate::heap::Heap;
use crate::heap::LuaProto;
use crate::heap::Sizes;
use crate::host::decimal;
use crate::host::decimal_of;
use crate::meta::raw_set_done;
use crate::opcode::Instruction;
use crate::roots::ExternalRootKey;
use crate::roots::ExternalRootSet;
use crate::sandbox::SANDBOX_TRIP_NONE;
use crate::sandbox::SandboxLimits;
use crate::sandbox::charged;
use crate::sandbox::reserved;
use crate::state::LuaState;
use crate::tagmethods::TagMethod;
use crate::tagmethods::TM_N;
use crate::tagmethods::TmIndex;
use crate::tagmethods::metatable_of;
use crate::value::CallInfoIdx;
use crate::value::LClosureId;
use crate::value::LuaClosure;
use crate::value::LuaError;
use crate::value::LuaStatus;
use crate::value::LuaValue;
use crate::value::LuaVersion;
use crate::value::StackIdx;
use crate::value::StrId;
use crate::value::TableId;
use crate::value::TypeOp;
use crate::value::UserDataId;
use crate::value::bytes_of;
use crate::value::is_runtime_msg;

verus! {

/// A slot by its signed number, which wraps around past the largest one.
pub fn stack_idx_to_i32(i: StackIdx) -> (r: i32)
    ensures
        r == (if i.0 <= i32::MAX {
            i.0 as int
        } else {
            i.0 - 0x1_0000_0000
        }),
{
    let n: u32 = i.0;
    assert(n > 0x7fff_ffff ==> (n as i32) == n - 0x1_0000_0000) by (bit_vector);
    #[verifier::truncate] (n as i32)
}

impl LuaStatus {
    /// The status of a number; an unknown one is a run-time error.
    pub open spec fn spec_from_raw(n: int) -> LuaStatus {
        if n == 0 {
            LuaStatus::Okay
        } else if n == 1 {
            LuaStatus::Yield
        } else if n == 3 {
            LuaStatus::ErrSyntax
        } else if n == 4 {
            LuaStatus::ErrMem
        } else if n == 5 {
            LuaStatus::ErrErr
        } else {
            LuaStatus::ErrRun
        }
    }

    /// The status of a number.
    pub fn from_raw(n: i32) -> (r: LuaStatus)
        ensures
            r == LuaStatus::spec_from_raw(n as int),
    {
        match n {
            0 => LuaStatus::Okay,
            1 => LuaStatus::Yield,
            3 => LuaStatus::ErrSyntax,
            4 => LuaStatus::ErrMem,
            5 => LuaStatus::ErrErr,
            _ => LuaStatus::ErrRun,
        }
    }
}

/// A status is the status of its number.
pub proof fn law_status_number(s: LuaStatus)
    ensures
        LuaStatus::spec_from_raw(s.spec_raw()) == s,
{
}

/// The type tag of a value with its variant, as compiled chunks and debugging tools know
/// it.
pub open spec fn full_tag(h: Heap, v: LuaValue) -> u8 {
    match v {
        LuaValue::Nil => 0x00,
        LuaValue::Bool(b) => if b {
            0x11
        } else {
            0x01
        },
        LuaValue::LightUserData(_) => 0x02,
        LuaValue::Int(_) => 0x03,
        LuaValue::Float(_) => 0x13,
        LuaValue::Str(s) => if h.bytes(s).len() <= crate::string::MAX_SHORT_LEN {
            0x04
        } else {
            0x14
        },
        LuaValue::Table(_) => 0x05,
        LuaValue::Function(LuaClosure::Lua(_)) => 0x06,
        LuaValue::Function(LuaClosure::LightC(_)) => 0x16,
        LuaValue::Function(LuaClosure::C(_)) => 0x26,
        LuaValue::UserData(_) => 0x07,
        LuaValue::Thread(_) => 0x08,
    }
}

impl LuaValue {
    /// The type tag of a value with its variant.
    pub fn full_type_tag(&self, h: &Heap) -> (r: u8)
        requires
            h.wf(),
            h.ok(*self),
        ensures
            r == full_tag(*h, *self),
    {
        match self {
            LuaValue::Nil => 0x00,
            LuaValue::Bool(b) => {
                if *b {
                    0x11
                } else {
                    0x01
                }
            },
            LuaValue::LightUserData(_) => 0x02,
            LuaValue::Int(_) => 0x03,
            LuaValue::Float(_) => 0x13,
            LuaValue::Str(s) => {
                if h.strings.items[s.0].bytes.len() <= crate::string::MAX_SHORT_LEN {
                    0x04
                } else {
                    0x14
                }
            },
            LuaValue::Table(_) => 0x05,
            LuaValue::Function(LuaClosure::Lua(_)) => 0x06,
            LuaValue::Function(LuaClosure::LightC(_)) => 0x16,
            LuaValue::Function(LuaClosure::C(_)) => 0x26,
            LuaValue::UserData(_) => 0x07,
            LuaValue::Thread(_) => 0x08,
        }
    }
}

/// Something that a function captures variables or values with.
pub trait LuaClosureExt {
    /// How many variables or values are captured.
    spec fn spec_nupvalues(&self, h: Heap) -> int;

    /// Whether the function exists.
    spec fn exists_in(&self, h: Heap) -> bool;

    /// How many variables or values are captured.
    fn nupvalues(&self, h: &Heap) -> (r: usize)
        requires
            self.exists_in(*h),
        ensures
            r == self.spec_nupvalues(*h),
    ;
}

impl LuaClosureExt for LuaClosure {
    open spec fn spec_nupvalues(&self, h: Heap) -> int {
        match *self {
            LuaClosure::Lua(l) => h.lclosures.items@[l.0 as int].upvals@.len() as int,
            LuaClosure::C(c) => h.cclosures.items@[c.0 as int].upvalues@.len() as int,
            LuaClosure::LightC(_) => 0,
        }
    }

    open spec fn exists_in(&self, h: Heap) -> bool {
        match *self {
            LuaClosure::Lua(l) => l.0 < h.lclosures.items@.len(),
            LuaClosure::C(c) => c.0 < h.cclosures.items@.len(),
            LuaClosure::LightC(_) => true,
        }
    }

    fn nupvalues(&self, h: &Heap) -> (r: usize) {
        match self {
            LuaClosure::Lua(l) => h.lclosures.items[l.0].upvals.len(),
            LuaClosure::C(c) => h.cclosures.items[c.0].upvalues.len(),
            LuaClosure::LightC(_) => 0,
        }
    }
}

/// Marks what the collector manages.
pub trait Collectable {

}

impl Collectable for LuaState {

}

impl LuaProto {
    /// The name of the source, empty where it is stripped.
    pub open spec fn spec_source_bytes(self, h: Heap) -> Seq<u8> {
        match self.source {
            Some(s) => h.bytes(s),
            None => Seq::empty(),
        }
    }

    /// The name of the source, empty where it is stripped.
    pub fn source_bytes(&self, h: &Heap) -> (r: Vec<u8>)
        requires
            self.source matches Some(s) ==> s.0 < h.strs().len(),
        ensures
            r@ == self.spec_source_bytes(*h),
    {
        match self.source {
            Some(s) => crate::host::copy_bytes(&h.strings.items[s.0].bytes),
            None => Vec::new(),
        }
    }

    /// The string that names the source.
    pub fn source_string(&self) -> (r: Option<StrId>)
        ensures
            r == self.source,
    {
        self.source
    }
}

impl LuaState {
    /// Charges instructions, and checks the memory in use.
    pub fn sandbox_charge(&self, g: &mut GlobalState, amount: u64) -> (r: Option<LuaError>)
        ensures
            *final(g) == (GlobalState { sandbox: final(g).sandbox, ..*old(g) }),
            charged(old(g).sandbox, amount, old(g).spec_total_bytes(), r, final(g).sandbox),
    {
        let total: usize = g.total_bytes();
        g.sandbox.charge(amount, total)
    }

    /// Charges the instructions between two checks.
    pub fn sandbox_charge_interval(&self, g: &mut GlobalState) -> (r: Option<LuaError>)
        requires
            old(g).sandbox.interval >= 0,
        ensures
            *final(g) == (GlobalState { sandbox: final(g).sandbox, ..*old(g) }),
            charged(
                old(g).sandbox,
                old(g).sandbox.interval as u64,
                old(g).spec_total_bytes(),
                r,
                final(g).sandbox,
            ),
    {
        let total: usize = g.total_bytes();
        g.sandbox.charge_interval(total)
    }

    /// Refuses an allocation that would go beyond the memory limit.
    pub fn sandbox_reserve(&self, g: &mut GlobalState, additional: usize) -> (r: Option<LuaError>)
        ensures
            *final(g) == (GlobalState { sandbox: final(g).sandbox, ..*old(g) }),
            reserved(
                old(g).sandbox,
                old(g).spec_total_bytes(),
                additional,
                r,
                final(g).sandbox,
            ),
    {
        let total: usize = g.total_bytes();
        g.sandbox.reserve(total, additional)
    }

    /// How much work a single match may do: the instructions left where they are limited,
    /// otherwise 0, which is no limit.
    pub fn sandbox_match_step_limit(&self, g: &GlobalState) -> (r: u64)
        ensures
            r == (if g.sandbox.spec_active() && g.sandbox.instr_limited {
                g.sandbox.instr_remaining
            } else {
                0
            }),
    {
        g.sandbox.match_step_limit()
    }

    /// Whether an abort of the sandbox is under way.
    pub fn sandbox_aborting(&self, g: &GlobalState) -> (r: bool)
        ensures
            r == g.sandbox.aborting,
    {
        g.sandbox.aborting
    }

    /// Whether instructions are limited.
    pub fn sandbox_instr_limited(&self, g: &GlobalState) -> (r: bool)
        ensures
            r == g.sandbox.instr_limited,
    {
        g.sandbox.instr_limited
    }

    /// The instructions left.
    pub fn sandbox_instr_remaining(&self, g: &GlobalState) -> (r: u64)
        ensures
            r == g.sandbox.instr_remaining,
    {
        g.sandbox.instr_remaining
    }

    /// The limit of instructions.
    pub fn sandbox_instr_limit(&self, g: &GlobalState) -> (r: u64)
        ensures
            r == g.sandbox.instr_limit,
    {
        g.sandbox.instr_limit
    }

    /// Which limit was tripped over.
    pub fn sandbox_tripped_code(&self, g: &GlobalState) -> (r: u8)
        ensures
            r == g.sandbox.tripped,
    {
        g.sandbox.tripped
    }

    /// Refills the instructions and forgets an abort.
    pub fn sandbox_reset(&self, g: &mut GlobalState)
        ensures
            *final(g) == (GlobalState {
                sandbox: SandboxLimits {
                    instr_remaining: if old(g).sandbox.instr_limited {
                        old(g).sandbox.instr_limit
                    } else {
                        old(g).sandbox.instr_remaining
                    },
                    tripped: SANDBOX_TRIP_NONE,
                    aborting: false,
                    ..old(g).sandbox
                },
                ..*old(g)
            }),
    {
        g.sandbox.reset();
    }

    /// Pins a value, and returns the key to it.
    pub fn external_root_value(&self, g: &mut GlobalState, value: LuaValue) -> (key: ExternalRootKey)
        requires
            old(g).wf(),
            old(g).heap.ok(value),
        ensures
            final(g).wf(),
            *final(g) == (GlobalState { external_roots: final(g).external_roots, ..*old(g) }),
            ExternalRootSet::inserted(old(g).external_roots, final(g).external_roots, key, value),
    {
        g.external_roots.insert(value)
    }

    /// The value that a key pins.
    pub fn external_rooted_value(&self, g: &GlobalState, key: ExternalRootKey) -> (r: Option<LuaValue>)
        ensures
            r == g.external_roots.held(key),
    {
        g.external_roots.get(key)
    }

    /// Replaces the value that a key pins, and returns the old one.
    pub fn external_replace_root(&self, g: &mut GlobalState, key: ExternalRootKey, value: LuaValue) -> (r: Option<
        LuaValue,
    >)
        requires
            old(g).wf(),
            old(g).heap.ok(value),
        ensures
            final(g).wf(),
            *final(g) == (GlobalState { external_roots: final(g).external_roots, ..*old(g) }),
            r == old(g).external_roots.held(key),
            r is None ==> *final(g) == *old(g),
            r is Some ==> final(g).external_roots.held(key) == Some(value),
            forall|k: ExternalRootKey|
                k != key ==> #[trigger] final(g).external_roots.held(k) == old(g).external_roots.held(k),
    {
        let r: Option<LuaValue> = g.external_roots.replace(key, value);
        proof {
            lemma_pinned_ok(*old(g), *g, value);
        }
        r
    }

    /// Lets go of the value that a key pins. A key that pins nothing any more is no error.
    pub fn external_unroot_value(&self, g: &mut GlobalState, key: ExternalRootKey) -> (r: Option<LuaValue>)
        requires
            old(g).wf(),
        ensures
            final(g).wf(),
            *final(g) == (GlobalState { external_roots: final(g).external_roots, ..*old(g) }),
            r == old(g).external_roots.held(key),
            r is None ==> *final(g) == *old(g),
            r is Some ==> ExternalRootSet::removed(old(g).external_roots, final(g).external_roots, key),
    {
        let r: Option<LuaValue> = g.external_roots.remove(key);
        proof {
            lemma_pinned_ok(*old(g), *g, LuaValue::Nil);
        }
        r
    }

    /// A frame.
    pub fn get_ci(&self, ci: CallInfoIdx) -> (r: &CallInfo)
        requires
            ci.0 < self.call_info@.len(),
        ensures
            *r == self.frame(ci),
    {
        &self.call_info[ci.0 as usize]
    }

    /// The current frame.
    pub fn current_call_info(&self) -> (r: &CallInfo)
        requires
            self.ci.0 < self.call_info@.len(),
        ensures
            *r == self.cur(),
    {
        &self.call_info[self.ci.0 as usize]
    }

    /// The number of the current frame.
    pub fn current_ci_idx(&self) -> (r: CallInfoIdx)
        ensures
            r == self.ci,
    {
        self.ci
    }

    /// The number of the frame below a frame.
    pub fn prev_ci(&self, ci: CallInfoIdx) -> (r: Option<CallInfoIdx>)
        requires
            ci.0 < self.call_info@.len(),
        ensures
            r == self.frame(ci).previous,
    {
        self.call_info[ci.0 as usize].previous
    }

    /// The frame below a frame.
    pub fn get_prev_ci(&self, ci: CallInfoIdx) -> (r: Option<&CallInfo>)
        requires
            ci.0 < self.call_info@.len(),
            self.frame(ci).previous matches Some(p) ==> p.0 < self.call_info@.len(),
        ensures
            match self.frame(ci).previous {
                Some(p) => r matches Some(c) && *c == self.frame(p),
                None => r is None,
            },
    {
        match self.call_info[ci.0 as usize].previous {
            Some(p) => Some(&self.call_info[p.0 as usize]),
            None => None,
        }
    }

    /// The value of a slot that exists.
    pub fn stack_val(&self, idx: StackIdx) -> (r: &LuaValue)
        requires
            idx.0 < self.stack@.len(),
        ensures
            *r == self.stack@[idx.0 as int],
    {
        &self.stack[idx.0 as usize]
    }

    /// Writes a slot that exists.
    pub fn set_stack_val(&mut self, idx: StackIdx, val: LuaValue)
        requires
            idx.0 < old(self).stack@.len(),
        ensures
            *final(self) == (LuaState { stack: final(self).stack, ..*old(self) }),
            final(self).stack@ == old(self).stack@.update(idx.0 as int, val),
            forall|z: Sizes| old(self).wf(z) && z.ok(val) ==> #[trigger] final(self).wf(z),
    {
        self.set_at(idx, val);
    }

    /// The value of a slot, `nil` where the stack does not reach.
    pub fn peek_at(&self, idx: StackIdx) -> (v: LuaValue)
        ensures
            v == self.at(idx.0 as int),
    {
        self.get_at(idx)
    }

    /// A frame to be changed in place.
    pub fn get_ci_mut(&mut self, ci: CallInfoIdx) -> (r: &mut CallInfo)
        requires
            ci.0 < old(self).call_info@.len(),
        ensures
            *r == old(self).call_info@[ci.0 as int],
            *final(self) == (LuaState { call_info: final(self).call_info, ..*old(self) }),
            final(self).call_info@ == old(self).call_info@.update(ci.0 as int, *final(r)),
    {
        &mut self.call_info[ci.0 as usize]
    }

    /// The current frame to be changed in place.
    pub fn current_call_info_mut(&mut self) -> (r: &mut CallInfo)
        requires
            old(self).ci.0 < old(self).call_info@.len(),
        ensures
            *r == old(self).call_info@[old(self).ci.0 as int],
            *final(self) == (LuaState { call_info: final(self).call_info, ..*old(self) }),
            final(self).call_info@ == old(self).call_info@.update(old(self).ci.0 as int, *final(r)),
    {
        &mut self.call_info[self.ci.0 as usize]
    }

    /// The slot of the function that a protected call of this frame started at.
    pub fn get_ci_u2_funcidx(&self, ci: CallInfoIdx) -> (r: i32)
        requires
            ci.0 < self.call_info@.len(),
        ensures
            r == self.call_info@[ci.0 as int].u2.value,
    {
        self.call_info[ci.0 as usize].u2.value
    }

    /// How many results a frame returns while variables are closed.
    pub fn get_ci_u2_nres(&self, ci: CallInfoIdx) -> (r: i32)
        requires
            ci.0 < self.call_info@.len(),
        ensures
            r == self.call_info@[ci.0 as int].u2.value,
    {
        self.call_info[ci.0 as usize].u2.value
    }

    /// How many values a frame yielded.
    pub fn get_ci_u2_nyield(&self, ci: CallInfoIdx) -> (r: i32)
        requires
            ci.0 < self.call_info@.len(),
        ensures
            r == self.call_info@[ci.0 as int].u2.value,
    {
        self.call_info[ci.0 as usize].u2.value
    }

    /// Sets how many results a frame returns while variables are closed.
    pub fn set_ci_u2_nres(&mut self, ci: CallInfoIdx, n: i32)
        requires
            ci.0 < old(self).call_info@.len(),
        ensures
            *final(self) == (LuaState { call_info: final(self).call_info, ..*old(self) }),
            final(self).call_info@ == old(self).call_info@.update(
                ci.0 as int,
                with_extra(old(self).call_info@[ci.0 as int], n),
            ),
    {
        self.call_info[ci.0 as usize].u2.value = n;
        assert(self.call_info@ =~= old(self).call_info@.update(
            ci.0 as int,
            with_extra(old(self).call_info@[ci.0 as int], n),
        ));
    }

    /// Sets how many values a frame yielded.
    pub fn set_ci_u2_nyield(&mut self, ci: CallInfoIdx, n: i32)
        requires
            ci.0 < old(self).call_info@.len(),
        ensures
            *final(self) == (LuaState { call_info: final(self).call_info, ..*old(self) }),
            final(self).call_info@ == old(self).call_info@.update(
                ci.0 as int,
                with_extra(old(self).call_info@[ci.0 as int], n),
            ),
    {
        self.set_ci_u2_nres(ci, n);
    }

    /// A slot to be changed in place.
    pub fn stack_at(&mut self, idx: StackIdx) -> (r: &mut LuaValue)
        requires
            idx.0 < old(self).stack@.len(),
        ensures
            *r == old(self).stack@[idx.0 as int],
            *final(self) == (LuaState { stack: final(self).stack, ..*old(self) }),
            final(self).stack@ == old(self).stack@.update(idx.0 as int, *final(r)),
    {
        &mut self.stack[idx.0 as usize]
    }

    /// `top`.
    pub fn top_idx(&self) -> (r: StackIdx)
        ensures
            r == self.top,
    {
        self.top
    }

    /// The instruction `back` places behind the saved one of a Lua frame.
    fn instruction_back(&self, g: &GlobalState, ci: CallInfoIdx, back: u32) -> (r: Instruction)
        requires
            g.wf(),
            self.wf(g.heap.sizes()),
            ci.0 < self.call_info@.len(),
            self.frame(ci).spec_is_lua(),
            self.closure_of(ci) is Some,
            back <= self.frame(ci).u.savedpc,
            self.frame(ci).u.savedpc - back < code_of(*self, *g, ci).len(),
        ensures
            r == code_of(*self, *g, ci)[self.frame(ci).u.savedpc - back],
    {
        let pc: u32 = self.call_info[ci.0 as usize].saved_pc();
        self.get_proto_instr(g, ci, pc - back)
    }

    /// The instruction before the saved one of a Lua frame.
    pub fn ci_prev_instruction(&self, g: &GlobalState, ci: CallInfoIdx) -> (r: Instruction)
        requires
            g.wf(),
            self.wf(g.heap.sizes()),
            ci.0 < self.call_info@.len(),
            self.frame(ci).spec_is_lua(),
            self.closure_of(ci) is Some,
            1 <= self.frame(ci).u.savedpc <= code_of(*self, *g, ci).len(),
        ensures
            r == code_of(*self, *g, ci)[self.frame(ci).u.savedpc - 1],
    {
        self.instruction_back(g, ci, 1)
    }

    /// The instruction two before the saved one of a Lua frame.
    pub fn ci_prev2_instruction(&self, g: &GlobalState, ci: CallInfoIdx) -> (r: Instruction)
        requires
            g.wf(),
            self.wf(g.heap.sizes()),
            ci.0 < self.call_info@.len(),
            self.frame(ci).spec_is_lua(),
            self.closure_of(ci) is Some,
            2 <= self.frame(ci).u.savedpc <= code_of(*self, *g, ci).len() + 1,
        ensures
            r == code_of(*self, *g, ci)[self.frame(ci).u.savedpc - 2],
    {
        self.instruction_back(g, ci, 2)
    }

    /// An instruction of a Lua frame.
    pub fn get_proto_instr(&self, g: &GlobalState, ci: CallInfoIdx, pc: u32) -> (r: Instruction)
        requires
            g.wf(),
            self.wf(g.heap.sizes()),
            ci.0 < self.call_info@.len(),
            self.closure_of(ci) is Some,
            pc < code_of(*self, *g, ci).len(),
        ensures
            r == code_of(*self, *g, ci)[pc as int],
    {
        let p: usize = self.frame_proto(g, ci);
        g.heap.protos.items[p].code[pc as usize]
    }

    fn frame_proto(&self, g: &GlobalState, ci: CallInfoIdx) -> (p: usize)
        requires
            g.wf(),
            self.wf(g.heap.sizes()),
            ci.0 < self.call_info@.len(),
            self.closure_of(ci) is Some,
        ensures
            p < g.heap.protos.items@.len(),
            g.heap.protos.items@[p as int] == proto_of(*self, *g, ci),
    {
        let cl: LClosureId = match self.ci_lua_closure(ci) {
            Some(cl) => cl,
            None => LClosureId(0),
        };
        proof {
            let func = self.frame(ci).func.0 as int;
            assert(g.heap.sizes().ok(self.stack@[func]));
            assert(g.heap.sizes().ok_lclosure(g.heap.lclosures.items@[cl.0 as int]));
        }
        g.heap.lclosures.items[cl.0].proto.0
    }

    /// Whether the function of a frame takes extra arguments, how many there are, and how
    /// many parameters it has; a native function has none.
    pub fn get_ci_vararg_info(&self, g: &GlobalState, ci: CallInfoIdx) -> (r: (bool, i32, i32))
        requires
            g.wf(),
            self.wf(g.heap.sizes()),
            ci.0 < self.call_info@.len(),
            self.frame(ci).spec_is_lua(),
        ensures
            r == (match self.closure_of(ci) {
                Some(_) => (
                    proto_of(*self, *g, ci).is_vararg,
                    self.frame(ci).u.nextraargs,
                    proto_of(*self, *g, ci).numparams as i32,
                ),
                None => (false, self.frame(ci).u.nextraargs, 0i32),
            }),
    {
        let n: i32 = self.ci_nextraargs(ci);
        match self.ci_lua_closure(ci) {
            Some(_) => {
                let p: usize = self.frame_proto(g, ci);
                (g.heap.protos.items[p].is_vararg, n, g.heap.protos.items[p].numparams as i32)
            },
            None => (false, n, 0),
        }
    }

    /// The number of parameters of the function of a frame; a native function has none.
    pub fn get_ci_lua_proto_numparams(&self, g: &GlobalState, ci: CallInfoIdx) -> (r: u8)
        requires
            g.wf(),
            self.wf(g.heap.sizes()),
            ci.0 < self.call_info@.len(),
        ensures
            r == (match self.closure_of(ci) {
                Some(_) => proto_of(*self, *g, ci).numparams,
                None => 0,
            }),
    {
        match self.ci_lua_closure(ci) {
            Some(_) => {
                let p: usize = self.frame_proto(g, ci);
                g.heap.protos.items[p].numparams
            },
            None => 0,
        }
    }

    /// How the thread stands.
    pub fn status(&self) -> (r: LuaStatus)
        ensures
            r == LuaStatus::spec_from_raw(self.status as int),
    {
        LuaStatus::from_raw(self.status as i32)
    }

    /// The slot of the error handler.
    pub fn errfunc(&self) -> (r: isize)
        ensures
            r == self.errfunc,
    {
        self.errfunc
    }

    /// The last instruction that a hook was told of.
    pub fn old_pc(&self) -> (r: u32)
        ensures
            r == self.oldpc,
    {
        self.oldpc
    }

    /// Sets the last instruction that a hook was told of.
    pub fn set_old_pc(&mut self, pc: u32)
        ensures
            *final(self) == (LuaState { oldpc: pc, ..*old(self) }),
    {
        self.oldpc = pc;
    }

    /// Whether there is a hook.
    pub fn has_hook(&self) -> (r: bool)
        ensures
            r == self.hooked,
    {
        self.hooked
    }

    /// The instructions left until the count hook.
    pub fn hook_count(&self) -> (r: i32)
        ensures
            r == self.hookcount,
    {
        self.hookcount
    }

    /// Sets the instructions left until the count hook.
    pub fn set_hook_count(&mut self, n: i32)
        ensures
            *final(self) == (LuaState { hookcount: n, ..*old(self) }),
    {
        self.hookcount = n;
    }

    /// The events that the hook is called for.
    pub fn hook_mask(&self) -> (r: u8)
        ensures
            r == self.hookmask,
    {
        self.hookmask
    }

    /// Sets the events that the hook is called for.
    pub fn set_hook_mask(&mut self, m: u8)
        ensures
            *final(self) == (LuaState { hookmask: m, ..*old(self) }),
    {
        self.hookmask = m;
    }

    /// The instructions between two count hooks.
    pub fn base_hook_count(&self) -> (r: i32)
        ensures
            r == self.basehookcount,
    {
        self.basehookcount
    }

    /// Sets the instructions between two count hooks.
    pub fn set_base_hook_count(&mut self, n: i32)
        ensures
            *final(self) == (LuaState { basehookcount: n, ..*old(self) }),
    {
        self.basehookcount = n;
    }

    /// Begins the hook of a call. In 5.1 the frame does not count as a tail call while the
    /// hook runs. Returns the mark to be restored.
    pub fn hook_call(&mut self, version: LuaVersion, ci: CallInfoIdx) -> (had_tail: u16)
        requires
            ci.0 < old(self).call_info@.len(),
        ensures
            if version == LuaVersion::V51 {
                &&& had_tail == old(self).frame(ci).callstatus & CIST_TAIL
                &&& old(self).frame_set(
                    ci,
                    CallInfo {
                        callstatus: old(self).frame(ci).callstatus & !CIST_TAIL,
                        ..old(self).frame(ci)
                    },
                    *final(self),
                )
            } else {
                had_tail == 0 && *final(self) == *old(self)
            },
    {
        if version != LuaVersion::V51 {
            return 0;
        }
        let i: usize = ci.0 as usize;
        let had: u16 = self.call_info[i].callstatus & CIST_TAIL;
        self.call_info[i].callstatus = self.call_info[i].callstatus & !CIST_TAIL;
        had
    }

    /// Ends the hook of a call.
    pub fn hook_call_done(&mut self, ci: CallInfoIdx, had_tail: u16)
        requires
            ci.0 < old(self).call_info@.len(),
        ensures
            old(self).frame_set(
                ci,
                CallInfo {
                    callstatus: old(self).frame(ci).callstatus | had_tail,
                    ..old(self).frame(ci)
                },
                *final(self),
            ),
    {
        let i: usize = ci.0 as usize;
        self.call_info[i].callstatus = self.call_info[i].callstatus | had_tail;
    }

    /// The registry.
    pub fn registry_value(&self, g: &GlobalState) -> (r: LuaValue)
        ensures
            r == g.l_registry,
    {
        g.l_registry
    }

    /// A numbered entry of the registry.
    pub fn registry_get(&self, g: &GlobalState, key: usize) -> (r: LuaValue)
        requires
            g.wf(),
        ensures
            r == (match g.l_registry {
                LuaValue::Table(t) => g.heap.tget(t, LuaValue::Int(key as i64)),
                _ => LuaValue::Nil,
            }),
    {
        match g.l_registry {
            LuaValue::Table(t) => g.heap.get(t, &LuaValue::Int(key as i64)),
            _ => LuaValue::Nil,
        }
    }

    /// Ends a protected call that was not to yield, by the status it ended with: an error
    /// value is taken from the slot of the function, and the stack is cut off there.
    pub fn protected_call_raw(&mut self, func: StackIdx, status: LuaStatus) -> (r: Result<(), LuaError>)
        ensures
            match status {
                LuaStatus::Okay => r is Ok && *final(self) == *old(self),
                LuaStatus::ErrSyntax => r == Err::<(), LuaError>(LuaError::Syntax(old(self).at(func.0 as int))),
                LuaStatus::Yield => r == Err::<(), LuaError>(LuaError::Yield),
                _ => r == Err::<(), LuaError>(LuaError::Runtime(old(self).at(func.0 as int))),
            },
            status != LuaStatus::Okay ==> *final(self) == (LuaState {
                stack: final(self).stack,
                top: func,
                ..*old(self)
            }) && forall|i: int| #[trigger] final(self).at(i) == old(self).at(i),
            forall|z: Sizes| old(self).wf(z) ==> #[trigger] final(self).wf(z),
    {
        match status {
            LuaStatus::Okay => Ok(()),
            LuaStatus::ErrSyntax => {
                let e: LuaValue = self.get_at(func);
                self.set_top(func);
                Err(LuaError::Syntax(e))
            },
            LuaStatus::Yield => {
                self.set_top(func);
                Err(LuaError::Yield)
            },
            _ => {
                let e: LuaValue = self.get_at(func);
                self.set_top(func);
                Err(LuaError::Runtime(e))
            },
        }
    }

    /// Whether this is the main thread that runs.
    pub fn is_main_thread(&self, g: &GlobalState) -> (r: bool)
        ensures
            r == (g.current_thread_id == g.main_thread_id),
    {
        g.current_thread_id == g.main_thread_id
    }

    /// The name of the type of a value.
    pub fn full_type_name(&self, g: &GlobalState, v: &LuaValue) -> (r: Vec<u8>)
        requires
            g.wf(),
            g.heap.ok(*v),
        ensures
            r@ == crate::tagmethods::shown_type(*g, *v),
    {
        g.obj_type_name(v)
    }
}

/// Values that are pinned exist, if they were pinned before or are the given one.
proof fn lemma_pinned_ok(a: GlobalState, b: GlobalState, value: LuaValue)
    requires
        a.wf(),
        a.heap.ok(value),
        b == (GlobalState { external_roots: b.external_roots, ..a }),
        b.external_roots.wf(),
        forall|k: ExternalRootKey|
            (#[trigger] b.external_roots.held(k)) is Some ==> b.external_roots.held(k) == Some(value)
                || b.external_roots.held(k) == a.external_roots.held(k),
    ensures
        b.wf(),
{
    let z = a.heap.sizes();
    assert forall|i: int|
        #![trigger b.external_roots.slots@[i]]
        0 <= i < b.external_roots.slots@.len() implies (b.external_roots.slots@[i].value matches Some(v) ==> z.ok(v)) by {
        if b.external_roots.slots@[i].value is Some {
            assert(i < b.external_roots.slots.len());
            let k = ExternalRootKey { index: i as usize, generation: b.external_roots.slots@[i].generation };
            assert(b.external_roots.held(k) == b.external_roots.slots@[i].value);
            if b.external_roots.held(k) != Some(value) {
                assert(a.external_roots.held(k) is Some);
                assert(a.external_roots.slots@[i].value == a.external_roots.held(k));
            }
        }
    }
}

/// The prototype of the Lua function of a frame.
pub open spec fn proto_of(s: LuaState, g: GlobalState, ci: CallInfoIdx) -> LuaProto {
    let cl = s.closure_of(ci)->0;
    g.heap.protos.items@[g.heap.lclosures.items@[cl.0 as int].proto.0 as int]
}

/// The instructions of the Lua function of a frame.
pub open spec fn code_of(s: LuaState, g: GlobalState, ci: CallInfoIdx) -> Seq<Instruction> {
    proto_of(s, g, ci).code@
}

/// What turning a value into a string comes to.
#[derive(Debug, Clone, Copy, PartialEq, Eq, Structural)]
pub enum Stringed {
    /// It is one.
    Str(StrId),
    /// It is a number; its text is to be stored in the slot.
    Number { slot: StackIdx, value: LuaValue },
}

/// What turning the value of a slot into a string comes to.
pub open spec fn stringed(v: LuaValue, slot: StackIdx) -> Result<Stringed, LuaError> {
    match v {
        LuaValue::Str(s) => Ok(Stringed::Str(s)),
        LuaValue::Int(_) | LuaValue::Float(_) => Ok(Stringed::Number { slot: slot, value: v }),
        _ => Err(LuaError::TypeError { value: v, at: None, op: TypeOp::ConvertToString }),
    }
}

impl LuaState {
    /// Turns the value of a slot into a string: a string is one, a number becomes its
    /// text, and anything else is an error.
    pub fn coerce_to_string(&self, idx: StackIdx) -> (r: Result<Stringed, LuaError>)
        ensures
            r == stringed(self.at(idx.0 as int), idx),
    {
        let v: LuaValue = self.get_at(idx);
        match v {
            LuaValue::Str(s) => Ok(Stringed::Str(s)),
            LuaValue::Int(_) | LuaValue::Float(_) => Ok(Stringed::Number { slot: idx, value: v }),
            _ => Err(LuaError::TypeError { value: v, at: None, op: TypeOp::ConvertToString }),
        }
    }

    /// The same, for a slot counted from the function of the current frame, or down from
    /// `top` where the index is negative.
    pub fn obj_to_string(&self, idx: i32) -> (r: Result<Stringed, LuaError>)
        requires
            idx != 0,
            self.ci.0 < self.call_info@.len(),
            idx > 0 ==> self.cur().func.0 + idx <= u32::MAX,
            idx < 0 ==> self.top.0 + idx >= 0 && self.top.0 <= i32::MAX,
        ensures
            ({
                let slot = StackIdx(
                    (if idx > 0 {
                        self.cur().func.0 + idx
                    } else {
                        self.top.0 + idx
                    }) as u32,
                );
                r == stringed(self.at(slot.0 as int), slot)
            }),
    {
        let slot: StackIdx = if idx > 0 {
            StackIdx(self.call_info[self.ci.0 as usize].func.0 + idx as u32)
        } else {
            StackIdx((self.top.0 as i32 + idx) as u32)
        };
        self.coerce_to_string(slot)
    }
}

impl GlobalState {
    /// A value of a table under an integer, unless it is absent or this is no table.
    pub fn fast_get_int(&self, t: &LuaValue, k: i64) -> (r: Option<LuaValue>)
        requires
            self.wf(),
            self.heap.ok(*t),
        ensures
            r == present(*self, *t, LuaValue::Int(k)),
    {
        self.fast_get(t, &LuaValue::Int(k))
    }

    /// A value of a table under a string, unless it is absent, this is no table or the key
    /// no string.
    pub fn fast_get_short_str(&self, t: &LuaValue, k: &LuaValue) -> (r: Option<LuaValue>)
        requires
            self.wf(),
            self.heap.ok(*t),
            self.heap.ok(*k),
        ensures
            r == (if k is Str {
                present(*self, *t, *k)
            } else {
                None
            }),
    {
        match k {
            LuaValue::Str(_) => self.fast_get(t, k),
            _ => None,
        }
    }

    /// A handler in a metatable, if there is one.
    pub fn fast_tm_table(&self, t: Option<TableId>, tm: TagMethod) -> (r: LuaValue)
        requires
            self.wf(),
            self.tmname@.len() == TM_N,
            tm != TagMethod::N,
            self.heap.sizes().ok_table(t),
        ensures
            r == (match t {
                Some(mt) => self.heap.tget(mt, LuaValue::Str(self.tmname@[tm.spec_tm_index()])),
                None => LuaValue::Nil,
            }),
    {
        match t {
            Some(mt) => {
                let name: StrId = self.tmname[tm.tm_index()];
                self.heap.get(mt, &LuaValue::Str(name))
            },
            None => LuaValue::Nil,
        }
    }

    /// A handler in the metatable of a userdata, if there is one.
    pub fn fast_tm_ud(&self, u: UserDataId, tm: TagMethod) -> (r: LuaValue)
        requires
            self.wf(),
            self.tmname@.len() == TM_N,
            tm != TagMethod::N,
            u.0 < self.heap.userdata.items@.len(),
        ensures
            r == (match self.heap.userdata.items@[u.0 as int].metatable {
                Some(mt) => self.heap.tget(mt, LuaValue::Str(self.tmname@[tm.spec_tm_index()])),
                None => LuaValue::Nil,
            }),
    {
        assert(self.heap.sizes().ok_userdata(self.heap.userdata.items@[u.0 as int]));
        self.fast_tm_table(self.heap.userdata.items[u.0].metatable, tm)
    }

    /// Writes to a table, without metamethods. The collector is to be told of the key.
    pub fn table_raw_set(&mut self, t: &LuaValue, k: LuaValue, v: LuaValue) -> (r: Result<(), LuaError>)
        requires
            old(self).wf(),
            old(self).heap.ok(*t),
            old(self).heap.ok(k),
            old(self).heap.ok(v),
        ensures
            final(self).wf(),
            raw_written(*old(self), *t, k, v, r, *final(self)),
    {
        match t {
            LuaValue::Table(id) => self.raw_set(*id, k, v),
            _ => Err(LuaError::TypeError { value: *t, at: None, op: TypeOp::Index }),
        }
    }

    /// Writes to a table under an integer, counted from 0.
    pub fn table_array_set(&mut self, t: &LuaValue, idx: usize, v: LuaValue) -> (r: Result<(), LuaError>)
        requires
            old(self).wf(),
            old(self).heap.ok(*t),
            old(self).heap.ok(v),
            idx < i64::MAX,
        ensures
            final(self).wf(),
            *final(self) == (GlobalState { heap: final(self).heap, ..*old(self) }),
            raw_written(*old(self), *t, LuaValue::Int((idx + 1) as i64), v, r, *final(self)),
    {
        match t {
            LuaValue::Table(id) => {
                self.raw_set_int(*id, idx as i64 + 1, v);
                Ok(())
            },
            _ => Err(LuaError::TypeError { value: *t, at: None, op: TypeOp::Index }),
        }
    }

    /// The border of a table, without metamethods.
    pub fn table_length(&self, t: &LuaValue) -> (r: Result<i64, LuaError>)
        requires
            self.wf(),
            self.heap.ok(*t),
        ensures
            match *t {
                LuaValue::Table(id) => r matches Ok(n) && crate::meta::is_border(self.heap, id, n),
                _ => r == Err::<i64, LuaError>(
                    LuaError::TypeError { value: *t, at: None, op: TypeOp::GetLength },
                ),
            },
    {
        match t {
            LuaValue::Table(id) => Ok(self.table_getn(*id)),
            _ => Err(LuaError::TypeError { value: *t, at: None, op: TypeOp::GetLength }),
        }
    }

    /// The border of a table.
    pub fn table_getn(&self, t: TableId) -> (n: i64)
        requires
            self.wf(),
            t.0 < self.heap.tables.items@.len(),
        ensures
            crate::meta::is_border(self.heap, t, n),
    {
        self.heap.tables.items[t.0].getn(&self.heap.strings.items)
    }

    /// The metatable of a value.
    pub fn table_metatable(&self, v: &LuaValue) -> (r: Option<TableId>)
        requires
            self.wf(),
            self.heap.ok(*v),
        ensures
            r == metatable_of(*self, *v),
    {
        self.operand_metatable(v)
    }
}

/// A frame with another number whose meaning its activity decides.
pub open spec fn with_extra(ci: CallInfo, n: i32) -> CallInfo {
    CallInfo { u2: CallInfoExtra { value: n, ..ci.u2 }, ..ci }
}

/// The value of a table under a key, unless it is absent or this is no table.
pub open spec fn present(g: GlobalState, t: LuaValue, k: LuaValue) -> Option<LuaValue> {
    match t {
        LuaValue::Table(id) => if g.heap.tget(id, k) == LuaValue::Nil {
            None
        } else {
            Some(g.heap.tget(id, k))
        },
        _ => None,
    }
}

/// What writing to a table without metamethods does: nothing but an error where this is no
/// table or the key is refused.
pub open spec fn raw_written(
    a: GlobalState,
    t: LuaValue,
    k: LuaValue,
    v: LuaValue,
    r: Result<(), LuaError>,
    b: GlobalState,
) -> bool {
    match t {
        LuaValue::Table(id) => raw_set_done(a, id, k, v, r, b),
        _ => r == Err::<(), LuaError>(LuaError::TypeError { value: t, at: None, op: TypeOp::Index }) && b == a,
    }
}

/// The mark that the hook of a call takes away and gives back leaves a frame as it was.
pub proof fn law_hook_mark_restored(status: u16)
    ensures
        (status & !CIST_TAIL) | (status & CIST_TAIL) == status,
{
    assert((status & !0x20u16) | (status & 0x20u16) == status) by (bit_vector);
}

impl LuaValue {
    /// A number as a double.
    pub fn to_number_no_strconv(&self) -> (r: Option<u64>)
        ensures
            r == spec_number_value(*self),
    {
        number_value(self)
    }

    /// A number, or a string that spells the given one, as a double.
    pub fn to_number_with_strconv(&self, numeral: Option<LuaValue>) -> (r: Option<u64>)
        ensures
            r == spec_number_value(coerced(*self, numeral)),
    {
        tonumber(self, numeral)
    }

    /// A number as an integer, if it has an integer value.
    pub fn to_integer_no_strconv(&self) -> (r: Option<i64>)
        ensures
            r == spec_to_integer_ns(*self, F2Imod::Eq),
    {
        to_integer_ns(self, F2Imod::Eq)
    }

    /// A number, or a string that spells the given one, as an integer.
    pub fn to_integer_with_strconv(&self, numeral: Option<LuaValue>) -> (r: Option<i64>)
        ensures
            r == spec_to_integer_ns(coerced(*self, numeral), F2Imod::Eq),
    {
        to_integer(self, numeral, F2Imod::Eq)
    }
}

/// An operation that can be asked for by its number.
#[derive(Debug, Clone, Copy, PartialEq, Eq, Structural)]
pub enum NumberedOp {
    Binary(ArithOp),
    Unm,
    BNot,
}

/// The operation of a number.
pub open spec fn numbered_op(op: int) -> Option<NumberedOp> {
    if op == 0 {
        Some(NumberedOp::Binary(ArithOp::Add))
    } else if op == 1 {
        Some(NumberedOp::Binary(ArithOp::Sub))
    } else if op == 2 {
        Some(NumberedOp::Binary(ArithOp::Mul))
    } else if op == 3 {
        Some(NumberedOp::Binary(ArithOp::Mod))
    } else if op == 4 {
        Some(NumberedOp::Binary(ArithOp::Pow))
    } else if op == 5 {
        Some(NumberedOp::Binary(ArithOp::Div))
    } else if op == 6 {
        Some(NumberedOp::Binary(ArithOp::IDiv))
    } else if op == 7 {
        Some(NumberedOp::Binary(ArithOp::BAnd))
    } else if op == 8 {
        Some(NumberedOp::Binary(ArithOp::BOr))
    } else if op == 9 {
        Some(NumberedOp::Binary(ArithOp::BXor))
    } else if op == 10 {
        Some(NumberedOp::Binary(ArithOp::Shl))
    } else if op == 11 {
        Some(NumberedOp::Binary(ArithOp::Shr))
    } else if op == 12 {
        Some(NumberedOp::Unm)
    } else if op == 13 {
        Some(NumberedOp::BNot)
    } else {
        None
    }
}

/// The operation of a number; another number is an error.
pub fn arith_op_numbered(op: i32) -> (r: Result<NumberedOp, LuaError>)
    ensures
        match numbered_op(op as int) {
            Some(o) => r == Ok::<NumberedOp, LuaError>(o),
            None => r matches Err(e) && is_runtime_msg(e, "invalid arith op ".spec_bytes() + decimal(op as i64)),
        },
{
    match op {
        0 => Ok(NumberedOp::Binary(ArithOp::Add)),
        1 => Ok(NumberedOp::Binary(ArithOp::Sub)),
        2 => Ok(NumberedOp::Binary(ArithOp::Mul)),
        3 => Ok(NumberedOp::Binary(ArithOp::Mod)),
        4 => Ok(NumberedOp::Binary(ArithOp::Pow)),
        5 => Ok(NumberedOp::Binary(ArithOp::Div)),
        6 => Ok(NumberedOp::Binary(ArithOp::IDiv)),
        7 => Ok(NumberedOp::Binary(ArithOp::BAnd)),
        8 => Ok(NumberedOp::Binary(ArithOp::BOr)),
        9 => Ok(NumberedOp::Binary(ArithOp::BXor)),
        10 => Ok(NumberedOp::Binary(ArithOp::Shl)),
        11 => Ok(NumberedOp::Binary(ArithOp::Shr)),
        12 => Ok(NumberedOp::Unm),
        13 => Ok(NumberedOp::BNot),
        _ => {
            let mut m: Vec<u8> = bytes_of("invalid arith op ");
            let mut d: Vec<u8> = decimal_of(op as i64);
            m.append(&mut d);
            Err(LuaError::RuntimeMsg(m))
        },
    }
}

/// The operations that are asked for by number come in the order of the instructions for
/// them.
pub proof fn law_numbered_ops(op: int)
    requires
        0 <= op <= 11,
    ensures
        numbered_op(op) matches Some(NumberedOp::Binary(kind)) && crate::exec_regs::arith_kind(
            crate::arith_laws::arith_opcode(34 + op),
        ) == Some(kind),
        numbered_op(12) == Some(NumberedOp::Unm),
        numbered_op(13) == Some(NumberedOp::BNot),
{
}

} // verus!
