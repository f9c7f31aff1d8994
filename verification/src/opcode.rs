//! Instructions and opcodes.

use vstd::prelude::*;

verus! {

/// An instruction word. The opcode takes the low seven bits; above it lie, by
/// format, A (8), k (1), B (8) and C (8), or A and Bx (17), or Ax (25), or sJ
/// (25).
#[derive(Debug, Clone, Copy, PartialEq, Eq, Structural)]
pub struct Instruction(pub u32);

/// What an instruction does.
#[derive(Debug, Clone, Copy, PartialEq, Eq, Structural)]
pub enum OpCode {
    Move,
    LoadI,
    LoadF,
    LoadK,
    LoadKX,
    LoadFalse,
    LFalseSkip,
    LoadTrue,
    LoadNil,
    GetUpVal,
    SetUpVal,
    GetTabUp,
    GetTable,
    GetI,
    GetField,
    SetTabUp,
    SetTable,
    SetI,
    SetField,
    NewTable,
    Self_,
    AddI,
    AddK,
    SubK,
    MulK,
    ModK,
    PowK,
    DivK,
    IDivK,
    BAndK,
    BOrK,
    BXOrK,
    ShrI,
    ShlI,
    Add,
    Sub,
    Mul,
    Mod,
    Pow,
    Div,
    IDiv,
    BAnd,
    BOr,
    BXOr,
    Shl,
    Shr,
    MmBin,
    MmBinI,
    MmBinK,
    Unm,
    BNot,
    Not,
    Len,
    Concat,
    Close,
    Tbc,
    Jmp,
    Eq,
    Lt,
    Le,
    EqK,
    EqI,
    LtI,
    LeI,
    GtI,
    GeI,
    Test,
    TestSet,
    Call,
    TailCall,
    Return,
    Return0,
    Return1,
    ForLoop,
    ForPrep,
    TForPrep,
    TForCall,
    TForLoop,
    SetList,
    Closure,
    VarArg,
    VarArgPrep,
    ExtraArg,
}

/// How many opcodes there are.
pub const NUM_OPCODES: u8 = 83;

impl OpCode {
    /// The number of an opcode.
    pub open spec fn spec_index(self) -> int {
        match self {
            OpCode::Move => 0,
            OpCode::LoadI => 1,
            OpCode::LoadF => 2,
            OpCode::LoadK => 3,
            OpCode::LoadKX => 4,
            OpCode::LoadFalse => 5,
            OpCode::LFalseSkip => 6,
            OpCode::LoadTrue => 7,
            OpCode::LoadNil => 8,
            OpCode::GetUpVal => 9,
            OpCode::SetUpVal => 10,
            OpCode::GetTabUp => 11,
            OpCode::GetTable => 12,
            OpCode::GetI => 13,
            OpCode::GetField => 14,
            OpCode::SetTabUp => 15,
            OpCode::SetTable => 16,
            OpCode::SetI => 17,
            OpCode::SetField => 18,
            OpCode::NewTable => 19,
            OpCode::Self_ => 20,
            OpCode::AddI => 21,
            OpCode::AddK => 22,
            OpCode::SubK => 23,
            OpCode::MulK => 24,
            OpCode::ModK => 25,
            OpCode::PowK => 26,
            OpCode::DivK => 27,
            OpCode::IDivK => 28,
            OpCode::BAndK => 29,
            OpCode::BOrK => 30,
            OpCode::BXOrK => 31,
            OpCode::ShrI => 32,
            OpCode::ShlI => 33,
            OpCode::Add => 34,
            OpCode::Sub => 35,
            OpCode::Mul => 36,
            OpCode::Mod => 37,
            OpCode::Pow => 38,
            OpCode::Div => 39,
            OpCode::IDiv => 40,
            OpCode::BAnd => 41,
            OpCode::BOr => 42,
            OpCode::BXOr => 43,
            OpCode::Shl => 44,
            OpCode::Shr => 45,
            OpCode::MmBin => 46,
            OpCode::MmBinI => 47,
            OpCode::MmBinK => 48,
            OpCode::Unm => 49,
            OpCode::BNot => 50,
            OpCode::Not => 51,
            OpCode::Len => 52,
            OpCode::Concat => 53,
            OpCode::Close => 54,
            OpCode::Tbc => 55,
            OpCode::Jmp => 56,
            OpCode::Eq => 57,
            OpCode::Lt => 58,
            OpCode::Le => 59,
            OpCode::EqK => 60,
            OpCode::EqI => 61,
            OpCode::LtI => 62,
            OpCode::LeI => 63,
            OpCode::GtI => 64,
            OpCode::GeI => 65,
            OpCode::Test => 66,
            OpCode::TestSet => 67,
            OpCode::Call => 68,
            OpCode::TailCall => 69,
            OpCode::Return => 70,
            OpCode::Return0 => 71,
            OpCode::Return1 => 72,
            OpCode::ForLoop => 73,
            OpCode::ForPrep => 74,
            OpCode::TForPrep => 75,
            OpCode::TForCall => 76,
            OpCode::TForLoop => 77,
            OpCode::SetList => 78,
            OpCode::Closure => 79,
            OpCode::VarArg => 80,
            OpCode::VarArgPrep => 81,
            OpCode::ExtraArg => 82,
        }
    }

    /// The opcode of a number; a number beyond the last opcode is taken for the
    /// last one, `ExtraArg`.
    pub fn from_index(i: u32) -> (r: OpCode)
        ensures
            r.spec_index() == (if i < NUM_OPCODES { i as int } else { 82 }),
    {
        match i {
            0 => OpCode::Move,
            1 => OpCode::LoadI,
            2 => OpCode::LoadF,
            3 => OpCode::LoadK,
            4 => OpCode::LoadKX,
            5 => OpCode::LoadFalse,
            6 => OpCode::LFalseSkip,
            7 => OpCode::LoadTrue,
            8 => OpCode::LoadNil,
            9 => OpCode::GetUpVal,
            10 => OpCode::SetUpVal,
            11 => OpCode::GetTabUp,
            12 => OpCode::GetTable,
            13 => OpCode::GetI,
            14 => OpCode::GetField,
            15 => OpCode::SetTabUp,
            16 => OpCode::SetTable,
            17 => OpCode::SetI,
            18 => OpCode::SetField,
            19 => OpCode::NewTable,
            20 => OpCode::Self_,
            21 => OpCode::AddI,
            22 => OpCode::AddK,
            23 => OpCode::SubK,
            24 => OpCode::MulK,
            25 => OpCode::ModK,
            26 => OpCode::PowK,
            27 => OpCode::DivK,
            28 => OpCode::IDivK,
            29 => OpCode::BAndK,
            30 => OpCode::BOrK,
            31 => OpCode::BXOrK,
            32 => OpCode::ShrI,
            33 => OpCode::ShlI,
            34 => OpCode::Add,
            35 => OpCode::Sub,
            36 => OpCode::Mul,
            37 => OpCode::Mod,
            38 => OpCode::Pow,
            39 => OpCode::Div,
            40 => OpCode::IDiv,
            41 => OpCode::BAnd,
            42 => OpCode::BOr,
            43 => OpCode::BXOr,
            44 => OpCode::Shl,
            45 => OpCode::Shr,
            46 => OpCode::MmBin,
            47 => OpCode::MmBinI,
            48 => OpCode::MmBinK,
            49 => OpCode::Unm,
            50 => OpCode::BNot,
            51 => OpCode::Not,
            52 => OpCode::Len,
            53 => OpCode::Concat,
            54 => OpCode::Close,
            55 => OpCode::Tbc,
            56 => OpCode::Jmp,
            57 => OpCode::Eq,
            58 => OpCode::Lt,
            59 => OpCode::Le,
            60 => OpCode::EqK,
            61 => OpCode::EqI,
            62 => OpCode::LtI,
            63 => OpCode::LeI,
            64 => OpCode::GtI,
            65 => OpCode::GeI,
            66 => OpCode::Test,
            67 => OpCode::TestSet,
            68 => OpCode::Call,
            69 => OpCode::TailCall,
            70 => OpCode::Return,
            71 => OpCode::Return0,
            72 => OpCode::Return1,
            73 => OpCode::ForLoop,
            74 => OpCode::ForPrep,
            75 => OpCode::TForPrep,
            76 => OpCode::TForCall,
            77 => OpCode::TForLoop,
            78 => OpCode::SetList,
            79 => OpCode::Closure,
            80 => OpCode::VarArg,
            81 => OpCode::VarArgPrep,
            _ => OpCode::ExtraArg,
        }
    }
}

/// Opcodes are told apart by their numbers.
pub proof fn lemma_opcode_index(a: OpCode, b: OpCode)
    ensures
        0 <= a.spec_index() < NUM_OPCODES,
        a.spec_index() == b.spec_index() ==> a == b,
{
}

/// Whether an instruction calls a metamethod.
pub open spec fn calls_mm(op: OpCode) -> bool {
    op == OpCode::MmBin || op == OpCode::MmBinI || op == OpCode::MmBinK
}

/// Whether an instruction can set the top of the stack for the next one.
pub open spec fn sets_top(op: OpCode) -> bool {
    op == OpCode::Call || op == OpCode::TailCall || op == OpCode::VarArg
}

/// Whether an instruction can use the top of the stack that the last one set.
pub open spec fn uses_top(op: OpCode) -> bool {
    op == OpCode::Call || op == OpCode::TailCall || op == OpCode::Return || op == OpCode::SetList || op
        == OpCode::VarArgPrep
}

/// Whether an instruction is a test, which a jump follows.
pub open spec fn tests_jump(op: OpCode) -> bool {
    match op {
        OpCode::Eq | OpCode::Lt | OpCode::Le | OpCode::EqK | OpCode::EqI => true,
        OpCode::LtI | OpCode::LeI | OpCode::GtI | OpCode::GeI => true,
        OpCode::Test | OpCode::TestSet => true,
        _ => false,
    }
}

/// Whether an instruction writes register A: all do but those that write elsewhere, compare,
/// jump, close, return, call for others or hold an argument.
pub open spec fn sets_a(op: OpCode) -> bool {
    match op {
        OpCode::SetUpVal | OpCode::SetTabUp | OpCode::SetTable | OpCode::SetI | OpCode::SetField => false,
        OpCode::SetList | OpCode::Close | OpCode::Tbc | OpCode::Jmp => false,
        OpCode::Return | OpCode::Return0 | OpCode::Return1 => false,
        OpCode::TForPrep | OpCode::TForCall | OpCode::ExtraArg => false,
        OpCode::TestSet => true,
        _ => !calls_mm(op) && !tests_jump(op),
    }
}

/// The format of an instruction: 0 with A, B and C, 1 with A and Bx, 2 with A and a signed Bx,
/// 3 with Ax, and 4 with a jump.
pub open spec fn op_format(op: OpCode) -> int {
    match op {
        OpCode::LoadK | OpCode::LoadKX | OpCode::Closure => 1,
        OpCode::ForLoop | OpCode::ForPrep | OpCode::TForPrep | OpCode::TForLoop => 1,
        OpCode::LoadI | OpCode::LoadF => 2,
        OpCode::ExtraArg => 3,
        OpCode::Jmp => 4,
        _ => 0,
    }
}

/// A bit at its place.
pub open spec fn bit_at(b: bool, place: int) -> int {
    if b {
        place
    } else {
        0
    }
}

/// The format and the properties of an opcode in a byte: bit 7 a metamethod call, bit 6
/// sets the top of the stack for the next instruction, bit 5 uses the top that
/// the last one set, bit 4 a test before a jump, bit 3 sets register A, and the
/// format below.
pub open spec fn spec_op_mode_byte(op: OpCode) -> int {
    bit_at(calls_mm(op), 128) + bit_at(sets_top(op), 64) + bit_at(uses_top(op), 32) + bit_at(tests_jump(op), 16)
        + bit_at(sets_a(op), 8) + op_format(op)
}

/// The format and the properties of an opcode, as [`spec_op_mode_byte`] lays
/// them out.
pub fn op_mode_byte(op: OpCode) -> (r: u8)
    ensures
        r == spec_op_mode_byte(op),
{
    match op {
        OpCode::SetUpVal => 0x00,
        OpCode::SetTabUp => 0x00,
        OpCode::SetTable => 0x00,
        OpCode::SetI => 0x00,
        OpCode::SetField => 0x00,
        OpCode::Close => 0x00,
        OpCode::Tbc => 0x00,
        OpCode::Return0 => 0x00,
        OpCode::Return1 => 0x00,
        OpCode::TForCall => 0x00,
        OpCode::Eq => 0x10,
        OpCode::Lt => 0x10,
        OpCode::Le => 0x10,
        OpCode::EqK => 0x10,
        OpCode::EqI => 0x10,
        OpCode::LtI => 0x10,
        OpCode::LeI => 0x10,
        OpCode::GtI => 0x10,
        OpCode::GeI => 0x10,
        OpCode::Test => 0x10,
        OpCode::LoadK => 0x09,
        OpCode::LoadKX => 0x09,
        OpCode::ForLoop => 0x09,
        OpCode::ForPrep => 0x09,
        OpCode::TForLoop => 0x09,
        OpCode::Closure => 0x09,
        OpCode::MmBin => 0x80,
        OpCode::MmBinI => 0x80,
        OpCode::MmBinK => 0x80,
        OpCode::LoadI => 0x0a,
        OpCode::LoadF => 0x0a,
        OpCode::Call => 0x68,
        OpCode::TailCall => 0x68,
        OpCode::Return => 0x20,
        OpCode::SetList => 0x20,
        OpCode::Jmp => 0x04,
        OpCode::TestSet => 0x18,
        OpCode::TForPrep => 0x01,
        OpCode::VarArg => 0x48,
        OpCode::VarArgPrep => 0x28,
        OpCode::ExtraArg => 0x03,
        _ => 0x08,
    }
}

/// The fields of an instruction.
pub trait InstructionExt {
    /// The whole word.
    spec fn word(&self) -> int;

    /// Decodes the opcode.
    fn opcode(&self) -> (r: OpCode)
        ensures
            r.spec_index() == (if self.word() % 128 < NUM_OPCODES { self.word() % 128 } else { 82 }),
    ;

    /// Field A.
    fn arg_a(&self) -> (r: i32)
        ensures
            r == spec_a(self.word()),
    ;

    /// Field B.
    fn arg_b(&self) -> (r: i32)
        ensures
            r == spec_b(self.word()),
    ;

    /// Field C.
    fn arg_c(&self) -> (r: i32)
        ensures
            r == spec_c(self.word()),
    ;

    /// Field k.
    fn arg_k(&self) -> (r: i32)
        ensures
            r == spec_k(self.word()),
    ;

    /// Field Ax.
    fn arg_ax(&self) -> (r: i32)
        ensures
            r == spec_ax(self.word()),
    ;

    /// Field Bx.
    fn arg_bx(&self) -> (r: i32)
        ensures
            r == spec_bx(self.word()),
    ;

    /// Field B as a signed number.
    fn arg_s_b(&self) -> (r: i32)
        ensures
            r == spec_b(self.word()) - 0x7f,
    ;

    /// Field C as a signed number.
    fn arg_s_c(&self) -> (r: i32)
        ensures
            r == spec_c(self.word()) - 0x7f,
    ;

    /// The jump offset.
    fn arg_s_j(&self) -> (r: i32)
        ensures
            r == spec_sj(self.word()),
    ;

    /// Field Bx as a signed number.
    fn arg_s_bx(&self) -> (r: i32)
        ensures
            r == spec_bx(self.word()) - 0xffff,
    ;

    /// Whether field k is set.
    fn test_k(&self) -> (r: bool)
        ensures
            r == (spec_k(self.word()) != 0),
    ;

    /// Whether the instruction sets register A.
    fn test_a_mode(&self) -> (r: bool)
        ensures
            r == sets_a(spec_op(self.word())),
    ;

    /// Whether the instruction calls a metamethod.
    fn is_mm_mode(&self) -> (r: bool)
        ensures
            r == calls_mm(spec_op(self.word())),
    ;

    /// Whether the instruction prepares a vararg function.
    fn is_vararg_prep(&self) -> (r: bool)
        ensures
            r == (spec_op(self.word()) == OpCode::VarArgPrep),
    ;

    /// Whether the instruction uses the top of the stack that the last one set.
    fn is_in_top(&self) -> (r: bool)
        ensures
            r == (uses_top(spec_op(self.word())) && spec_b(self.word()) == 0),
    ;
}

/// Field A of a word.
pub open spec fn spec_a(w: int) -> int {
    (w / 0x80) % 0x100
}

/// Field k of a word.
pub open spec fn spec_k(w: int) -> int {
    (w / 0x8000) % 2
}

/// Field B of a word.
pub open spec fn spec_b(w: int) -> int {
    (w / 0x1_0000) % 0x100
}

/// Field C of a word.
pub open spec fn spec_c(w: int) -> int {
    (w / 0x100_0000) % 0x100
}

/// Field Ax of a word.
pub open spec fn spec_ax(w: int) -> int {
    w / 0x80
}

/// Field Bx of a word.
pub open spec fn spec_bx(w: int) -> int {
    w / 0x8000
}

/// The jump offset of a word.
pub open spec fn spec_sj(w: int) -> int {
    spec_ax(w) - 0xff_ffff
}

/// The opcode of a word.
pub open spec fn spec_op(w: int) -> OpCode {
    choose|op: OpCode| op.spec_index() == (if w % 128 < NUM_OPCODES { w % 128 } else { 82 })
}

/// The bits of the byte tell the properties.
proof fn lemma_mode_bits(op: OpCode)
    ensures
        ((spec_op_mode_byte(op) / 8) % 2 == 1) == sets_a(op),
        ((spec_op_mode_byte(op) / 32) % 2 == 1) == uses_top(op),
        ((spec_op_mode_byte(op) / 128) % 2 == 1) == calls_mm(op),
{
}

impl InstructionExt for Instruction {
    open spec fn word(&self) -> int {
        self.0 as int
    }

    fn opcode(&self) -> (r: OpCode)
        ensures
            r == spec_op(self.word()),
    {
        let op: OpCode = OpCode::from_index(self.0 % 128);
        proof {
            lemma_opcode_index(op, spec_op(self.word()));
        }
        op
    }

    fn arg_a(&self) -> (r: i32) {
        ((self.0 / 0x80) % 0x100) as i32
    }

    fn arg_b(&self) -> (r: i32) {
        ((self.0 / 0x1_0000) % 0x100) as i32
    }

    fn arg_c(&self) -> (r: i32) {
        ((self.0 / 0x100_0000) % 0x100) as i32
    }

    fn arg_k(&self) -> (r: i32) {
        ((self.0 / 0x8000) % 2) as i32
    }

    fn arg_ax(&self) -> (r: i32) {
        (self.0 / 0x80) as i32
    }

    fn arg_bx(&self) -> (r: i32) {
        (self.0 / 0x8000) as i32
    }

    fn arg_s_b(&self) -> (r: i32) {
        self.arg_b() - 0x7f
    }

    fn arg_s_c(&self) -> (r: i32) {
        self.arg_c() - 0x7f
    }

    fn arg_s_j(&self) -> (r: i32) {
        self.arg_ax() - 0xff_ffff
    }

    fn arg_s_bx(&self) -> (r: i32) {
        self.arg_bx() - 0xffff
    }

    fn test_k(&self) -> (r: bool) {
        (self.0 / 0x8000) % 2 != 0
    }

    fn test_a_mode(&self) -> (r: bool) {
        let m: u8 = op_mode_byte(self.opcode());
        proof {
            lemma_mode_bits(spec_op(self.word()));
        }
        (m / 8) % 2 == 1
    }

    fn is_mm_mode(&self) -> (r: bool) {
        let m: u8 = op_mode_byte(self.opcode());
        proof {
            lemma_mode_bits(spec_op(self.word()));
        }
        (m / 128) % 2 == 1
    }

    fn is_vararg_prep(&self) -> (r: bool) {
        self.opcode() == OpCode::VarArgPrep
    }

    fn is_in_top(&self) -> (r: bool) {
        let m: u8 = op_mode_byte(self.opcode());
        proof {
            lemma_mode_bits(spec_op(self.word()));
        }
        (m / 32) % 2 == 1 && self.arg_b() == 0
    }
}

/// Every field of the instruction lies in its range, and a word is made up of
/// its opcode bits and the fields of its format.
pub proof fn law_fields(w: u32)
    ensures
        0 <= spec_a(w as int) < 0x100,
        0 <= spec_b(w as int) < 0x100,
        0 <= spec_c(w as int) < 0x100,
        0 <= spec_k(w as int) < 2,
        0 <= spec_bx(w as int) < 0x2_0000,
        0 <= spec_ax(w as int) < 0x200_0000,
        w == w % 128 + 0x80 * spec_a(w as int) + 0x8000 * spec_k(w as int) + 0x1_0000 * spec_b(w as int)
            + 0x100_0000 * spec_c(w as int),
        w == w % 128 + 0x80 * spec_a(w as int) + 0x8000 * spec_bx(w as int),
        w == w % 128 + 0x80 * spec_ax(w as int),
{
    let x = w as int;
    let q0 = x / 0x80;
    let q1 = x / 0x8000;
    let q2 = x / 0x1_0000;
    let q3 = x / 0x100_0000;
    assert(q1 == q0 / 0x100 && q2 == q1 / 2 && q3 == q2 / 0x100);
    assert(x == x % 128 + 0x80 * q0);
    assert(q0 == q0 % 0x100 + 0x100 * q1);
    assert(q1 == q1 % 2 + 2 * q2);
    assert(q2 == q2 % 0x100 + 0x100 * q3);
    assert(q3 < 0x100);
    assert(q3 % 0x100 == q3);
}

} // verus!
