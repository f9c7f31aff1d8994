//! Lua values, the names of objects, versions, statuses and errors.

use vstd::prelude::*;
use vstd::string::StringSliceAdditionalSpecFns;

verus! {

/// A string object.
#[derive(Debug, Clone, Copy, PartialEq, Eq, Hash, Structural)]
pub struct StrId(pub usize);

/// A table object.
#[derive(Debug, Clone, Copy, PartialEq, Eq, Hash, Structural)]
pub struct TableId(pub usize);

/// A full userdata object.
#[derive(Debug, Clone, Copy, PartialEq, Eq, Hash, Structural)]
pub struct UserDataId(pub usize);

/// A Lua closure object.
#[derive(Debug, Clone, Copy, PartialEq, Eq, Hash, Structural)]
pub struct LClosureId(pub usize);

/// A native closure object, which owns upvalues.
#[derive(Debug, Clone, Copy, PartialEq, Eq, Hash, Structural)]
pub struct CClosureId(pub usize);

/// A function prototype object.
#[derive(Debug, Clone, Copy, PartialEq, Eq, Hash, Structural)]
pub struct ProtoId(pub usize);

/// An upvalue object.
#[derive(Debug, Clone, Copy, PartialEq, Eq, Hash, Structural)]
pub struct UpValId(pub usize);

/// A thread handle object.
#[derive(Debug, Clone, Copy, PartialEq, Eq, Hash, Structural)]
pub struct ThreadRef(pub usize);

/// A function value.
#[derive(Debug, Clone, Copy, PartialEq, Eq, Structural)]
pub enum LuaClosure {
    /// A closure over a Lua function prototype.
    Lua(LClosureId),
    /// A native function with upvalues.
    C(CClosureId),
    /// A native function without upvalues: a slot of the function registry.
    LightC(usize),
}

/// A Lua value. A float is its bit pattern; an object is its name.
#[derive(Debug, Clone, Copy, PartialEq, Eq, Structural)]
pub enum LuaValue {
    Nil,
    Bool(bool),
    LightUserData(u64),
    Int(i64),
    Float(u64),
    Str(StrId),
    Table(TableId),
    Function(LuaClosure),
    UserData(UserDataId),
    Thread(ThreadRef),
}

/// The type of a value as `type` reports it, with one more for a missing
/// argument and with light userdata apart.
#[derive(Debug, Clone, Copy, PartialEq, Eq, Structural)]
pub enum LuaType {
    NoValue,
    Nil,
    Boolean,
    LightUserData,
    Number,
    String,
    Table,
    Function,
    UserData,
    Thread,
}

/// A slot of a thread's stack.
#[derive(Debug, Clone, Copy, PartialEq, Eq, Hash, Structural)]
pub struct StackIdx(pub u32);

/// A frame of a thread's call chain.
#[derive(Debug, Clone, Copy, PartialEq, Eq, Hash, Structural)]
pub struct CallInfoIdx(pub u32);

/// The language version that a runtime speaks.
#[derive(Debug, Clone, Copy, PartialEq, Eq, Structural)]
pub enum LuaVersion {
    V51,
    V52,
    V53,
    V54,
    V55,
}

/// How a protected call or a thread ended.
#[derive(Debug, Clone, Copy, PartialEq, Eq, Structural)]
pub enum LuaStatus {
    Okay,
    Yield,
    ErrRun,
    ErrSyntax,
    ErrMem,
    ErrErr,
}

/// An operation named in a type error.
#[derive(Debug, Clone, Copy, PartialEq, Eq, Structural)]
pub enum TypeOp {
    Index,
    GetLength,
    Concatenate,
    PerformArithmetic,
    PerformBitwise,
    Call,
    ConvertToString,
}

/// The operand of a numeric `for` that is no number.
#[derive(Debug, Clone, Copy, PartialEq, Eq, Structural)]
pub enum ForPart {
    Init,
    Limit,
    Step,
}

/// An error. The variants that carry values leave the wording to the debug
/// layer, which knows the names of variables.
#[derive(Debug, PartialEq, Eq)]
pub enum LuaError {
    /// A raised Lua value.
    Runtime(LuaValue),
    /// A syntax error that is a raised Lua value.
    Syntax(LuaValue),
    /// No error: the thread yields.
    Yield,
    /// A run-time error with a ready message.
    RuntimeMsg(Vec<u8>),
    /// A syntax error with a ready message, such as that of a malformed chunk.
    SyntaxMsg(Vec<u8>),
    /// Out of memory.
    Memory,
    /// A bare status.
    WithStatus(LuaStatus),
    /// An operation on a value of the wrong type; `at` is the slot it was read
    /// from, where that is known.
    TypeError { value: LuaValue, at: Option<StackIdx>, op: TypeOp },
    /// As [`LuaError::TypeError`], on the upvalue of this number.
    UpvalueTypeError { value: LuaValue, upvalue: usize, op: TypeOp },
    /// A `for` operand that is no number.
    ForError { value: LuaValue, part: ForPart },
    /// An order comparison of two values that have none.
    OrderError { left: LuaValue, right: LuaValue },
    /// A number without an integer representation where one is needed, among two
    /// operands and the slots they were read from, where those are known.
    ToIntError {
        left: LuaValue,
        left_at: Option<StackIdx>,
        right: LuaValue,
        right_at: Option<StackIdx>,
    },
    /// Arithmetic on a string that spells no number, or on what stands beside it;
    /// `binary` tells a binary operation from a unary one.
    ArithError { value: LuaValue, slot: StackIdx, binary: bool },
    /// A number of native upvalues out of range.
    UpvalueCount(i32),
    /// A `nil` table key.
    NilKey,
    /// A NaN table key.
    NanKey,
}

/// Whether an error is the run-time error with this message.
pub open spec fn is_runtime_msg(e: LuaError, msg: Seq<u8>) -> bool {
    e matches LuaError::RuntimeMsg(m) && m@ == msg
}

/// The bytes of a text.
pub fn bytes_of(s: &str) -> (r: Vec<u8>)
    ensures
        r@ == s.spec_bytes(),
{
    let b: &[u8] = s.as_bytes();
    let mut v: Vec<u8> = Vec::new();
    v.extend_from_slice(b);
    v
}

/// A run-time error with a fixed message.
pub fn runtime_error(s: &str) -> (e: LuaError)
    ensures
        is_runtime_msg(e, s.spec_bytes()),
{
    LuaError::RuntimeMsg(bytes_of(s))
}

impl LuaValue {
    /// The type of a value.
    pub open spec fn spec_type_tag(self) -> LuaType {
        match self {
            LuaValue::Nil => LuaType::Nil,
            LuaValue::Bool(_) => LuaType::Boolean,
            LuaValue::LightUserData(_) => LuaType::LightUserData,
            LuaValue::Int(_) => LuaType::Number,
            LuaValue::Float(_) => LuaType::Number,
            LuaValue::Str(_) => LuaType::String,
            LuaValue::Table(_) => LuaType::Table,
            LuaValue::Function(_) => LuaType::Function,
            LuaValue::UserData(_) => LuaType::UserData,
            LuaValue::Thread(_) => LuaType::Thread,
        }
    }

    /// The type of a value.
    pub fn base_type(&self) -> (r: LuaType)
        ensures
            r == self.spec_type_tag(),
    {
        match self {
            LuaValue::Nil => LuaType::Nil,
            LuaValue::Bool(_) => LuaType::Boolean,
            LuaValue::LightUserData(_) => LuaType::LightUserData,
            LuaValue::Int(_) => LuaType::Number,
            LuaValue::Float(_) => LuaType::Number,
            LuaValue::Str(_) => LuaType::String,
            LuaValue::Table(_) => LuaType::Table,
            LuaValue::Function(_) => LuaType::Function,
            LuaValue::UserData(_) => LuaType::UserData,
            LuaValue::Thread(_) => LuaType::Thread,
        }
    }

    /// Whether a value is `nil` or `false`.
    pub open spec fn spec_is_falsy(self) -> bool {
        self == LuaValue::Nil || self == LuaValue::Bool(false)
    }

    /// Whether a value is `nil` or `false`.
    pub fn is_falsy(&self) -> (r: bool)
        ensures
            r == self.spec_is_falsy(),
    {
        match self {
            LuaValue::Nil => true,
            LuaValue::Bool(b) => !*b,
            _ => false,
        }
    }

    /// Whether a value is an integer or a float.
    pub open spec fn spec_is_number(self) -> bool {
        self is Int || self is Float
    }

    /// Whether a value is an integer or a float.
    pub fn is_number(&self) -> (r: bool)
        ensures
            r == self.spec_is_number(),
    {
        match self {
            LuaValue::Int(_) => true,
            LuaValue::Float(_) => true,
            _ => false,
        }
    }

    /// Whether a value is a heap object.
    pub open spec fn spec_is_collectable(self) -> bool {
        match self {
            LuaValue::Str(_) => true,
            LuaValue::Table(_) => true,
            LuaValue::Function(c) => !(c is LightC),
            LuaValue::UserData(_) => true,
            LuaValue::Thread(_) => true,
            _ => false,
        }
    }

    /// Whether a value is a heap object.
    pub fn is_collectable(&self) -> (r: bool)
        ensures
            r == self.spec_is_collectable(),
    {
        match self {
            LuaValue::Str(_) => true,
            LuaValue::Table(_) => true,
            LuaValue::Function(c) => match c {
                LuaClosure::LightC(_) => false,
                _ => true,
            },
            LuaValue::UserData(_) => true,
            LuaValue::Thread(_) => true,
            _ => false,
        }
    }
}

/// Names of types.
pub trait LuaTypeExt {
    /// The name of the type.
    spec fn spec_typename(&self) -> Seq<char>;

    /// The name of the type.
    fn typename(&self) -> (r: &'static str)
        ensures
            r@ == self.spec_typename(),
    ;
}

impl LuaTypeExt for LuaType {
    open spec fn spec_typename(&self) -> Seq<char> {
        match *self {
            LuaType::NoValue => "no value"@,
            LuaType::Nil => "nil"@,
            LuaType::Boolean => "boolean"@,
            LuaType::LightUserData => "userdata"@,
            LuaType::Number => "number"@,
            LuaType::String => "string"@,
            LuaType::Table => "table"@,
            LuaType::Function => "function"@,
            LuaType::UserData => "userdata"@,
            LuaType::Thread => "thread"@,
        }
    }

    fn typename(&self) -> (r: &'static str) {
        match self {
            LuaType::NoValue => "no value",
            LuaType::Nil => "nil",
            LuaType::Boolean => "boolean",
            LuaType::LightUserData => "userdata",
            LuaType::Number => "number",
            LuaType::String => "string",
            LuaType::Table => "table",
            LuaType::Function => "function",
            LuaType::UserData => "userdata",
            LuaType::Thread => "thread",
        }
    }
}

impl LuaStatus {
    /// The number of a status.
    pub open spec fn spec_raw(self) -> int {
        match self {
            LuaStatus::Okay => 0,
            LuaStatus::Yield => 1,
            LuaStatus::ErrRun => 2,
            LuaStatus::ErrSyntax => 3,
            LuaStatus::ErrMem => 4,
            LuaStatus::ErrErr => 5,
        }
    }

    /// The number of a status.
    pub fn raw(self) -> (r: i32)
        ensures
            r == self.spec_raw(),
    {
        match self {
            LuaStatus::Okay => 0,
            LuaStatus::Yield => 1,
            LuaStatus::ErrRun => 2,
            LuaStatus::ErrSyntax => 3,
            LuaStatus::ErrMem => 4,
            LuaStatus::ErrErr => 5,
        }
    }
}

impl LuaVersion {
    /// The age of a version: how many came before it.
    pub open spec fn rank(self) -> int {
        match self {
            LuaVersion::V51 => 1,
            LuaVersion::V52 => 2,
            LuaVersion::V53 => 3,
            LuaVersion::V54 => 4,
            LuaVersion::V55 => 5,
        }
    }

    /// The version byte of compiled chunks.
    pub open spec fn spec_luac_version_byte(self) -> int {
        0x50 + self.rank()
    }

    /// The version byte of compiled chunks: `0x51` for 5.1 up to `0x55` for
    /// 5.5.
    pub fn luac_version_byte(self) -> (r: u8)
        ensures
            r == self.spec_luac_version_byte(),
    {
        match self {
            LuaVersion::V51 => 0x51,
            LuaVersion::V52 => 0x52,
            LuaVersion::V53 => 0x53,
            LuaVersion::V54 => 0x54,
            LuaVersion::V55 => 0x55,
        }
    }

    /// Whether error messages name a type by its `__name` metafield: from 5.3
    /// on.
    pub fn honors_name_metafield(self) -> (r: bool)
        ensures
            r == (self.rank() >= 3),
    {
        match self {
            LuaVersion::V51 => false,
            LuaVersion::V52 => false,
            _ => true,
        }
    }
}

impl Default for LuaVersion {
    /// 5.4, the version spoken unless another is selected.
    fn default() -> (r: Self)
        ensures
            r == LuaVersion::V54,
    {
        LuaVersion::V54
    }
}

impl StackIdx {
    /// The slot as a number.
    pub fn raw(self) -> (r: u32)
        ensures
            r == self.0,
    {
        self.0
    }

    /// The distance down to `n`, or zero where `n` is above.
    pub fn saturating_sub(self, n: u32) -> (r: u32)
        ensures
            r == (if self.0 >= n { self.0 - n } else { 0 }),
    {
        if self.0 >= n {
            self.0 - n
        } else {
            0
        }
    }

    /// The distance down to `n`, modulo 2^32.
    pub fn wrapping_sub(self, n: u32) -> (r: u32)
        ensures
            r == (self.0 - n) % 0x1_0000_0000,
    {
        if self.0 >= n {
            self.0 - n
        } else {
            (u32::MAX - n) + self.0 + 1
        }
    }
}

impl CallInfoIdx {
    /// The frame as an index.
    pub fn as_usize(self) -> (r: usize)
        ensures
            r == self.0,
    {
        self.0 as usize
    }
}

} // verus!
