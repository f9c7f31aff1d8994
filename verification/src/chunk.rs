//! The bytes of a precompiled chunk: numbers, strings and the header.

use vstd::prelude::*;
use vstd::string::StringSliceAdditionalSpecFns;
use crate::value::LuaError;
use crate::value::LuaVersion;
use crate::value::bytes_of;

verus! {

/// Something whose size a header gives.
#[derive(Debug, Clone, Copy, PartialEq, Eq, Structural)]
pub enum SizeOf {
    Int,
    SizeT,
    Instruction,
    LuaInteger,
    LuaNumber,
    Instruction55,
    LuaInteger55,
    LuaNumber55,
}

/// What is wrong with a chunk.
#[derive(Debug, Clone, Copy, PartialEq, Eq, Structural)]
pub enum LoadFault {
    Truncated,
    Overflow,
    NoString,
    NotBinary,
    Version,
    Format,
    Corrupted,
    Endianness,
    NumberFormat,
    IntegerFormat,
    FloatFormat,
    IntFormat,
    InstructionFormat,
    LuaIntegerFormat,
    LuaNumberFormat,
    Size(SizeOf),
}

/// The message of a fault.
pub open spec fn fault_text(f: LoadFault) -> &'static str {
    match f {
        LoadFault::Truncated => "bad binary format (truncated chunk)",
        LoadFault::Overflow => "bad binary format (integer overflow)",
        LoadFault::NoString => "bad binary format (bad format for constant string)",
        LoadFault::NotBinary => "bad binary format (not a binary chunk)",
        LoadFault::Version => "bad binary format (version mismatch)",
        LoadFault::Format => "bad binary format (format mismatch)",
        LoadFault::Corrupted => "bad binary format (corrupted chunk)",
        LoadFault::Endianness => "bad binary format (endianness mismatch)",
        LoadFault::NumberFormat => "bad binary format (number format mismatch)",
        LoadFault::IntegerFormat => "bad binary format (integer format mismatch)",
        LoadFault::FloatFormat => "bad binary format (float format mismatch)",
        LoadFault::IntFormat => "bad binary format (int format mismatch)",
        LoadFault::InstructionFormat => "bad binary format (instruction format mismatch)",
        LoadFault::LuaIntegerFormat => "bad binary format (Lua integer format mismatch)",
        LoadFault::LuaNumberFormat => "bad binary format (Lua number format mismatch)",
        LoadFault::Size(SizeOf::Int) => "int size mismatch",
        LoadFault::Size(SizeOf::SizeT) => "size_t size mismatch",
        LoadFault::Size(SizeOf::Instruction) => "Instruction size mismatch",
        LoadFault::Size(SizeOf::LuaInteger) => "lua_Integer size mismatch",
        LoadFault::Size(SizeOf::LuaNumber) => "lua_Number size mismatch",
        LoadFault::Size(SizeOf::Instruction55) => "instruction size mismatch",
        LoadFault::Size(SizeOf::LuaInteger55) => "Lua integer size mismatch",
        LoadFault::Size(SizeOf::LuaNumber55) => "Lua number size mismatch",
    }
}

/// Whether an error is the syntax error of a fault.
pub open spec fn is_load_error(e: LuaError, f: LoadFault) -> bool {
    e matches LuaError::SyntaxMsg(m) && m@ == fault_text(f).spec_bytes()
}

/// Makes the syntax error of a fault.
pub fn load_error(f: LoadFault) -> (e: LuaError)
    ensures
        is_load_error(e, f),
{
    let text: &str = match f {
        LoadFault::Truncated => "bad binary format (truncated chunk)",
        LoadFault::Overflow => "bad binary format (integer overflow)",
        LoadFault::NoString => "bad binary format (bad format for constant string)",
        LoadFault::NotBinary => "bad binary format (not a binary chunk)",
        LoadFault::Version => "bad binary format (version mismatch)",
        LoadFault::Format => "bad binary format (format mismatch)",
        LoadFault::Corrupted => "bad binary format (corrupted chunk)",
        LoadFault::Endianness => "bad binary format (endianness mismatch)",
        LoadFault::NumberFormat => "bad binary format (number format mismatch)",
        LoadFault::IntegerFormat => "bad binary format (integer format mismatch)",
        LoadFault::FloatFormat => "bad binary format (float format mismatch)",
        LoadFault::IntFormat => "bad binary format (int format mismatch)",
        LoadFault::InstructionFormat => "bad binary format (instruction format mismatch)",
        LoadFault::LuaIntegerFormat => "bad binary format (Lua integer format mismatch)",
        LoadFault::LuaNumberFormat => "bad binary format (Lua number format mismatch)",
        LoadFault::Size(SizeOf::Int) => "int size mismatch",
        LoadFault::Size(SizeOf::SizeT) => "size_t size mismatch",
        LoadFault::Size(SizeOf::Instruction) => "Instruction size mismatch",
        LoadFault::Size(SizeOf::LuaInteger) => "lua_Integer size mismatch",
        LoadFault::Size(SizeOf::LuaNumber) => "lua_Number size mismatch",
        LoadFault::Size(SizeOf::Instruction55) => "instruction size mismatch",
        LoadFault::Size(SizeOf::LuaInteger55) => "Lua integer size mismatch",
        LoadFault::Size(SizeOf::LuaNumber55) => "Lua number size mismatch",
    };
    LuaError::SyntaxMsg(bytes_of(text))
}

/// What reading at a place gives: a value and the place after it, or a fault.
pub enum Got<T> {
    Val { v: T, at: int },
    Bad(LoadFault),
}

/// The byte at a place.
pub open spec fn byte_at(s: Seq<u8>, p: int) -> Got<u8> {
    if 0 <= p < s.len() {
        Got::Val { v: s[p], at: p + 1 }
    } else {
        Got::Bad(LoadFault::Truncated)
    }
}

/// The next `n` bytes at a place.
pub open spec fn block_at(s: Seq<u8>, p: int, n: int) -> Got<Seq<u8>> {
    if 0 <= p && p + n <= s.len() {
        Got::Val { v: s.subrange(p, p + n), at: p + n }
    } else {
        Got::Bad(LoadFault::Truncated)
    }
}

/// A number in groups of seven bits, the highest first; the last group has the eighth bit
/// set. `x` is the number so far, and no group may follow one that reaches `limit`.
pub open spec fn groups_at(s: Seq<u8>, p: int, x: int, limit: int) -> Got<int>
    decreases s.len() - p,
{
    if !(0 <= p < s.len()) {
        Got::Bad(LoadFault::Truncated)
    } else if x >= limit {
        Got::Bad(LoadFault::Overflow)
    } else {
        let y = x * 128 + s[p] % 128;
        if s[p] >= 128 {
            Got::Val { v: y, at: p + 1 }
        } else {
            groups_at(s, p + 1, y, limit)
        }
    }
}

/// A size at a place.
pub open spec fn size_at(s: Seq<u8>, p: int) -> Got<int> {
    groups_at(s, p, 0, usize::MAX as int / 128)
}

/// An `int` at a place.
pub open spec fn int_at(s: Seq<u8>, p: int) -> Got<int> {
    groups_at(s, p, 0, i32::MAX as int / 128)
}

/// The number that bytes stand for, the lowest byte first.
pub open spec fn le_value(b: Seq<u8>) -> int
    decreases b.len(),
{
    if b.len() == 0 {
        0
    } else {
        b[0] + 256 * le_value(b.skip(1))
    }
}

/// The number that bytes stand for in the order of the host.
pub open spec fn ne_value(b: Seq<u8>, big: bool) -> int {
    le_value(
        if big {
            b.reverse()
        } else {
            b
        },
    )
}

/// A raw number of `n` bytes at a place.
pub open spec fn raw_at(s: Seq<u8>, p: int, n: int, big: bool) -> Got<int> {
    match block_at(s, p, n) {
        Got::Val { v, at } => Got::Val { v: ne_value(v, big), at: at },
        Got::Bad(e) => Got::Bad(e),
    }
}

/// The signed number with the bits of an unsigned one.
pub open spec fn signed(u: int) -> int {
    if u < 0x8000_0000_0000_0000 {
        u
    } else {
        u - 0x1_0000_0000_0000_0000
    }
}

/// A string at a place, which may be missing. Its length is stored plus one.
pub open spec fn string_at(s: Seq<u8>, p: int) -> Got<Option<Seq<u8>>> {
    match size_at(s, p) {
        Got::Bad(e) => Got::Bad(e),
        Got::Val { v, at } => if v == 0 {
            Got::Val { v: None, at: at }
        } else {
            match block_at(s, at, v - 1) {
                Got::Bad(e) => Got::Bad(e),
                Got::Val { v, at } => Got::Val { v: Some(v), at: at },
            }
        },
    }
}

/// A number is inside the place it was read to.
pub proof fn lemma_groups(s: Seq<u8>, p: int, x: int, limit: int)
    requires
        0 <= x,
    ensures
        groups_at(s, p, x, limit) matches Got::Val { v, at } ==> p < at <= s.len() && 0 <= v < limit * 128,
    decreases s.len() - p,
{
    if 0 <= p < s.len() && x < limit {
        let y = x * 128 + s[p] % 128;
        if s[p] < 128 {
            lemma_groups(s, p + 1, y, limit);
        }
    }
}

/// A string is inside the place it was read to.
pub proof fn lemma_string(s: Seq<u8>, p: int)
    ensures
        string_at(s, p) matches Got::Val { v, at } ==> p < at <= s.len(),
{
    lemma_groups(s, p, 0, usize::MAX as int / 128);
}

/// How often a group of seven bits is needed for a number.
pub open spec fn groups(x: nat, last: bool) -> Seq<u8>
    decreases x,
{
    let low = (x % 128 + if last {
        128int
    } else {
        0
    }) as u8;
    if x < 128 {
        seq![low]
    } else {
        groups((x / 128) as nat, false).push(low)
    }
}

/// Reading goes on behind the leading groups of a number.
proof fn lemma_groups_read(x: nat, s: Seq<u8>, p: int, limit: int)
    requires
        0 <= p,
        p + groups(x, false).len() <= s.len(),
        s.subrange(p, p + groups(x, false).len()) == groups(x, false),
        x <= limit,
        limit > 0,
    ensures
        groups(x, false).len() > 0,
        groups_at(s, p, 0, limit) == groups_at(s, p + groups(x, false).len(), x as int, limit),
    decreases x,
{
    let g = groups(x, false);
    let sub = s.subrange(p, p + g.len());
    if x < 128 {
        assert(sub[0] == g[0]);
        assert(s[p] == x);
    } else {
        let h = groups((x / 128) as nat, false);
        assert(g == h.push((x % 128) as u8));
        assert(s.subrange(p, p + h.len()) =~= h) by {
            assert forall|i: int| 0 <= i < h.len() implies s[p + i] == h[i] by {
                assert(sub[i] == g[i]);
            }
        }
        lemma_groups_read((x / 128) as nat, s, p, limit);
        assert(sub[h.len() as int] == g[h.len() as int]);
        assert(s[p + h.len()] == x % 128);
        assert(x / 128 * 128 + x % 128 == x);
    }
}

/// What is written as groups of seven bits is read back, up to the limit.
pub proof fn law_groups_read_back(x: nat, before: Seq<u8>, after: Seq<u8>, limit: int)
    requires
        x / 128 < limit,
    ensures
        groups_at(before + groups(x, true) + after, before.len() as int, 0, limit) == (Got::Val {
            v: x as int,
            at: (before + groups(x, true)).len() as int,
        }),
{
    let g = groups(x, true);
    let s = before + g + after;
    let p = before.len() as int;
    if x < 128 {
        assert(s[p] == g[0]);
    } else {
        let h = groups((x / 128) as nat, false);
        assert(g == h.push((x % 128 + 128) as u8));
        assert(s.subrange(p, p + h.len()) =~= h);
        lemma_groups_read((x / 128) as nat, s, p, limit);
        assert(s[p + h.len()] == g[h.len() as int]);
        assert(x / 128 * 128 + x % 128 == x);
    }
}

/// The bytes of a chunk, and how far they are read.
pub struct Input {
    pub bytes: Vec<u8>,
    pub pos: usize,
    pub big_endian: bool,
}

/// Whether reading went as it should.
pub open spec fn read_as<T>(a: Input, b: Input, r: Result<T, LoadFault>, want: Got<T>) -> bool {
    &&& b.bytes == a.bytes && b.big_endian == a.big_endian
    &&& a.pos <= b.pos <= b.bytes@.len()
    &&& match r {
        Ok(x) => want == (Got::Val { v: x, at: b.pos as int }),
        Err(e) => want == Got::<T>::Bad(e),
    }
}

impl Input {
    /// The place is in the bytes.
    pub open spec fn wf(self) -> bool {
        self.pos <= self.bytes@.len()
    }

    /// Reads a byte.
    pub fn load_byte(&mut self) -> (r: Result<u8, LoadFault>)
        requires
            old(self).wf(),
        ensures
            read_as(*old(self), *final(self), r, byte_at(old(self).bytes@, old(self).pos as int)),
    {
        if self.pos >= self.bytes.len() {
            return Err(LoadFault::Truncated);
        }
        let b: u8 = self.bytes[self.pos];
        self.pos = self.pos + 1;
        Ok(b)
    }

    /// Reads the next `n` bytes.
    pub fn load_block(&mut self, n: usize) -> (r: Result<Vec<u8>, LoadFault>)
        requires
            old(self).wf(),
        ensures
            final(self).bytes == old(self).bytes && final(self).big_endian == old(self).big_endian,
            final(self).wf() && final(self).pos >= old(self).pos,
            match r {
                Ok(b) => block_at(old(self).bytes@, old(self).pos as int, n as int) == (Got::Val {
                    v: b@,
                    at: final(self).pos as int,
                }),
                Err(e) => block_at(old(self).bytes@, old(self).pos as int, n as int) == Got::<Seq<u8>>::Bad(e),
            },
    {
        if n > self.bytes.len() - self.pos {
            return Err(LoadFault::Truncated);
        }
        let mut b: Vec<u8> = Vec::new();
        let end: usize = self.pos + n;
        let ghost start = self.pos as int;
        while self.pos < end
            invariant
                self.bytes == old(self).bytes,
                self.big_endian == old(self).big_endian,
                start == old(self).pos,
                start <= self.pos <= end <= self.bytes@.len(),
                b@ == self.bytes@.subrange(start, self.pos as int),
            decreases end - self.pos,
        {
            b.push(self.bytes[self.pos]);
            self.pos = self.pos + 1;
            assert(b@ =~= self.bytes@.subrange(start, self.pos as int));
        }
        Ok(b)
    }

    /// Reads a number in groups of seven bits.
    pub fn load_unsigned(&mut self, limit: usize) -> (r: Result<usize, LoadFault>)
        requires
            old(self).wf(),
        ensures
            final(self).bytes == old(self).bytes && final(self).big_endian == old(self).big_endian,
            final(self).wf() && final(self).pos >= old(self).pos,
            match r {
                Ok(x) => groups_at(old(self).bytes@, old(self).pos as int, 0, limit as int / 128) == (Got::Val {
                    v: x as int,
                    at: final(self).pos as int,
                }) && x <= limit && final(self).pos > old(self).pos,
                Err(e) => groups_at(old(self).bytes@, old(self).pos as int, 0, limit as int / 128) == Got::<int>::Bad(
                    e,
                ),
            },
    {
        let limit7: usize = limit / 128;
        let mut x: usize = 0;
        proof {
            lemma_groups(self.bytes@, self.pos as int, 0, limit as int / 128);
        }
        loop
            invariant
                self.wf(),
                self.bytes == old(self).bytes,
                self.big_endian == old(self).big_endian,
                self.pos >= old(self).pos,
                limit7 == limit / 128,
                groups_at(old(self).bytes@, old(self).pos as int, 0, limit as int / 128) == groups_at(
                    self.bytes@,
                    self.pos as int,
                    x as int,
                    limit as int / 128,
                ),
                groups_at(old(self).bytes@, old(self).pos as int, 0, limit as int / 128) matches Got::Val { v, at }
                    ==> old(self).pos < at && v < (limit as int / 128) * 128,
            decreases self.bytes@.len() - self.pos,
        {
            let b: u8 = match self.load_byte() {
                Ok(b) => b,
                Err(e) => {
                    return Err(e);
                },
            };
            if x >= limit7 {
                return Err(LoadFault::Overflow);
            }
            x = x * 128 + (b % 128) as usize;
            if b >= 128 {
                return Ok(x);
            }
        }
    }

    /// Reads a size.
    pub fn load_size(&mut self) -> (r: Result<usize, LoadFault>)
        requires
            old(self).wf(),
        ensures
            final(self).bytes == old(self).bytes && final(self).big_endian == old(self).big_endian,
            final(self).wf() && final(self).pos >= old(self).pos,
            match r {
                Ok(x) => size_at(old(self).bytes@, old(self).pos as int) == (Got::Val {
                    v: x as int,
                    at: final(self).pos as int,
                }) && final(self).pos > old(self).pos,
                Err(e) => size_at(old(self).bytes@, old(self).pos as int) == Got::<int>::Bad(e),
            },
    {
        self.load_unsigned(usize::MAX)
    }

    /// Reads an `int`.
    pub fn load_int(&mut self) -> (r: Result<i32, LoadFault>)
        requires
            old(self).wf(),
        ensures
            final(self).bytes == old(self).bytes && final(self).big_endian == old(self).big_endian,
            final(self).wf() && final(self).pos >= old(self).pos,
            match r {
                Ok(x) => int_at(old(self).bytes@, old(self).pos as int) == (Got::Val {
                    v: x as int,
                    at: final(self).pos as int,
                }) && x >= 0 && final(self).pos > old(self).pos,
                Err(e) => int_at(old(self).bytes@, old(self).pos as int) == Got::<int>::Bad(e),
            },
    {
        match self.load_unsigned(i32::MAX as usize) {
            Ok(x) => Ok(x as i32),
            Err(e) => Err(e),
        }
    }

    /// Reads a raw number of up to eight bytes.
    pub fn load_raw(&mut self, n: usize) -> (r: Result<u64, LoadFault>)
        requires
            old(self).wf(),
            n <= 8,
        ensures
            final(self).bytes == old(self).bytes && final(self).big_endian == old(self).big_endian,
            final(self).wf() && final(self).pos >= old(self).pos,
            match r {
                Ok(x) => raw_at(old(self).bytes@, old(self).pos as int, n as int, old(self).big_endian) == (
                Got::Val { v: x as int, at: final(self).pos as int }) && x < pow256(n as int) && final(self).pos
                    == old(self).pos + n,
                Err(e) => raw_at(old(self).bytes@, old(self).pos as int, n as int, old(self).big_endian)
                    == Got::<int>::Bad(e),
            },
    {
        let b: Vec<u8> = match self.load_block(n) {
            Ok(b) => b,
            Err(e) => {
                return Err(e);
            },
        };
        let ghost o = if self.big_endian {
            b@.reverse()
        } else {
            b@
        };
        let mut x: u64 = 0;
        let mut i: usize = b.len();
        assert(o.skip(o.len() as int).len() == 0);
        proof {
            reveal_with_fuel(pow256, 9);
        }
        while i > 0
            invariant
                i <= b@.len() <= 8,
                o == (if self.big_endian {
                    b@.reverse()
                } else {
                    b@
                }),
                x == le_value(o.skip(i as int)),
                x < pow256(b@.len() - i),
            decreases i,
        {
            i = i - 1;
            let d: u8 = if self.big_endian {
                b[b.len() - 1 - i]
            } else {
                b[i]
            };
            proof {
                assert(o[i as int] == d);
                assert(o.skip(i as int)[0] == d);
                assert(o.skip(i as int).skip(1) =~= o.skip(i + 1));
                lemma_pow256(b@.len() - i - 1);
            }
            x = x * 256 + d as u64;
        }
        assert(o.skip(0) =~= o);
        Ok(x)
    }

    /// Reads a string, which may be missing.
    pub fn load_string_n(&mut self) -> (r: Result<Option<Vec<u8>>, LoadFault>)
        requires
            old(self).wf(),
        ensures
            final(self).bytes == old(self).bytes && final(self).big_endian == old(self).big_endian,
            final(self).wf() && final(self).pos >= old(self).pos,
            match r {
                Ok(None) => string_at(old(self).bytes@, old(self).pos as int) == (Got::Val {
                    v: None::<Seq<u8>>,
                    at: final(self).pos as int,
                }) && final(self).pos > old(self).pos,
                Ok(Some(b)) => string_at(old(self).bytes@, old(self).pos as int) == (Got::Val {
                    v: Some(b@),
                    at: final(self).pos as int,
                }) && final(self).pos > old(self).pos,
                Err(e) => string_at(old(self).bytes@, old(self).pos as int) == Got::<Option<Seq<u8>>>::Bad(e),
            },
    {
        let n: usize = match self.load_size() {
            Ok(n) => n,
            Err(e) => {
                return Err(e);
            },
        };
        if n == 0 {
            return Ok(None);
        }
        match self.load_block(n - 1) {
            Ok(b) => Ok(Some(b)),
            Err(e) => Err(e),
        }
    }
}

/// The number of numbers of `n` bytes.
pub open spec fn pow256(n: int) -> int
    decreases n,
{
    if n <= 0 {
        1
    } else {
        256 * pow256(n - 1)
    }
}

/// Up to eight bytes fit a word.
proof fn lemma_pow256(n: int)
    requires
        0 <= n < 8,
    ensures
        1 <= pow256(n) <= 0x100_0000_0000_0000,
        pow256(n + 1) == 256 * pow256(n),
{
    reveal_with_fuel(pow256, 9);
}

/// A part of a header, and what is wrong where other bytes stand.
pub struct HeaderField {
    pub bytes: Vec<u8>,
    pub fault: LoadFault,
}

/// Bytes in the order of the host, given with the lowest first.
pub open spec fn ordered(b: Seq<u8>, big: bool) -> Seq<u8> {
    if big {
        b.reverse()
    } else {
        b
    }
}

/// The size of a machine word in bytes.
pub open spec fn word_size() -> u8 {
    (usize::BITS / 8) as u8
}

/// The marker, the version and the format.
pub open spec fn header_start(version: LuaVersion) -> Seq<(Seq<u8>, LoadFault)> {
    let tag: u8 = match version {
        LuaVersion::V51 => 0x51,
        LuaVersion::V52 => 0x52,
        LuaVersion::V53 => 0x53,
        LuaVersion::V54 => 0x54,
        LuaVersion::V55 => 0x55,
    };
    seq![
        (seq![0x4cu8, 0x75, 0x61], LoadFault::NotBinary),
        (seq![tag], LoadFault::Version),
        (seq![0u8], LoadFault::Format),
    ]
}

/// The byte order and the sizes of 5.1.
pub open spec fn header_sizes() -> Seq<(Seq<u8>, LoadFault)> {
    seq![
        (seq![1u8], LoadFault::Endianness),
        (seq![4u8], LoadFault::Size(SizeOf::Int)),
        (seq![word_size()], LoadFault::Size(SizeOf::SizeT)),
        (seq![4u8], LoadFault::Size(SizeOf::Instruction)),
        (seq![8u8], LoadFault::Size(SizeOf::LuaNumber)),
        (seq![0u8], LoadFault::NumberFormat),
    ]
}

/// The marker data.
pub open spec fn header_data() -> (Seq<u8>, LoadFault) {
    (seq![0x19u8, 0x93, 0x0d, 0x0a, 0x1a, 0x0a], LoadFault::Corrupted)
}

/// The sizes and formats of 5.3 and 5.4: the integer `0x5678` and the float `370.5`.
pub open spec fn header_numbers(big: bool) -> Seq<(Seq<u8>, LoadFault)> {
    seq![
        (seq![4u8], LoadFault::Size(SizeOf::Instruction)),
        (seq![8u8], LoadFault::Size(SizeOf::LuaInteger)),
        (seq![8u8], LoadFault::Size(SizeOf::LuaNumber)),
        (ordered(seq![0x78u8, 0x56, 0, 0, 0, 0, 0, 0], big), LoadFault::IntegerFormat),
        (ordered(seq![0u8, 0, 0, 0, 0, 0x28, 0x77, 0x40], big), LoadFault::FloatFormat),
    ]
}

/// The sizes and formats of 5.5: `-0x5678` as an `int` and as an integer, the instruction
/// `0x12345678` and the float `-370.5`.
pub open spec fn header_numbers55(big: bool) -> Seq<(Seq<u8>, LoadFault)> {
    seq![
        (seq![4u8], LoadFault::Size(SizeOf::Int)),
        (ordered(seq![0x88u8, 0xa9, 0xff, 0xff], big), LoadFault::IntFormat),
        (seq![4u8], LoadFault::Size(SizeOf::Instruction55)),
        (ordered(seq![0x78u8, 0x56, 0x34, 0x12], big), LoadFault::InstructionFormat),
        (seq![8u8], LoadFault::Size(SizeOf::LuaInteger55)),
        (ordered(seq![0x88u8, 0xa9, 0xff, 0xff, 0xff, 0xff, 0xff, 0xff], big), LoadFault::LuaIntegerFormat),
        (seq![8u8], LoadFault::Size(SizeOf::LuaNumber55)),
        (ordered(seq![0u8, 0, 0, 0, 0, 0x28, 0x77, 0xc0], big), LoadFault::LuaNumberFormat),
    ]
}

/// The header of a chunk behind its first byte: its parts, and the fault that goes with
/// each.
pub open spec fn header(version: LuaVersion, big: bool) -> Seq<(Seq<u8>, LoadFault)> {
    let start = header_start(version);
    match version {
        LuaVersion::V51 => start + header_sizes(),
        LuaVersion::V52 => start + header_sizes() + seq![header_data()],
        LuaVersion::V53 => start + seq![
            header_data(),
            (seq![4u8], LoadFault::Size(SizeOf::Int)),
            (seq![word_size()], LoadFault::Size(SizeOf::SizeT)),
        ] + header_numbers(big),
        LuaVersion::V54 => start + seq![header_data()] + header_numbers(big),
        LuaVersion::V55 => start + seq![header_data()] + header_numbers55(big),
    }
}

/// The parts from `i` on, one behind the other.
pub open spec fn fields_at(s: Seq<u8>, p: int, fields: Seq<(Seq<u8>, LoadFault)>, i: int) -> Got<()>
    decreases fields.len() - i,
{
    if !(0 <= i < fields.len()) {
        Got::Val { v: (), at: p }
    } else {
        match block_at(s, p, fields[i].0.len() as int) {
            Got::Bad(e) => Got::Bad(e),
            Got::Val { v, at } => if v == fields[i].0 {
                fields_at(s, at, fields, i + 1)
            } else {
                Got::Bad(fields[i].1)
            },
        }
    }
}

/// The bytes of the parts from `i` on.
pub open spec fn joined(fields: Seq<(Seq<u8>, LoadFault)>, i: int) -> Seq<u8>
    decreases fields.len() - i,
{
    if !(0 <= i < fields.len()) {
        Seq::empty()
    } else {
        fields[i].0 + joined(fields, i + 1)
    }
}

/// Parts are accepted exactly where their bytes stand one behind the other.
proof fn lemma_fields_joined(s: Seq<u8>, p: int, fields: Seq<(Seq<u8>, LoadFault)>, i: int)
    requires
        0 <= p <= s.len(),
        0 <= i,
    ensures
        fields_at(s, p, fields, i) is Val <==> p + joined(fields, i).len() <= s.len() && s.subrange(
            p,
            p + joined(fields, i).len(),
        ) == joined(fields, i),
        fields_at(s, p, fields, i) matches Got::Val { v, at } ==> at == p + joined(fields, i).len(),
    decreases fields.len() - i,
{
    let all = joined(fields, i);
    if i < fields.len() {
        let n = fields[i].0.len() as int;
        let rest = joined(fields, i + 1);
        assert(all == fields[i].0 + rest);
        if p + n <= s.len() {
            lemma_fields_joined(s, p + n, fields, i + 1);
            let sub = s.subrange(p, p + n);
            if p + all.len() <= s.len() {
                let whole = s.subrange(p, p + all.len());
                let tail = s.subrange(p + n, p + n + rest.len());
                if whole == all {
                    assert(sub =~= fields[i].0) by {
                        assert forall|k: int| 0 <= k < n implies s[p + k] == fields[i].0[k] by {
                            assert(whole[k] == all[k]);
                        }
                    }
                    assert(tail =~= rest) by {
                        assert forall|k: int| 0 <= k < rest.len() implies tail[k] == rest[k] by {
                            assert(whole[n + k] == all[n + k]);
                        }
                    }
                }
                if sub == fields[i].0 && tail == rest {
                    assert(whole =~= all) by {
                        assert forall|k: int| 0 <= k < all.len() implies whole[k] == all[k] by {
                            if k < n {
                                assert(sub[k] == fields[i].0[k]);
                            } else {
                                assert(tail[k - n] == rest[k - n]);
                            }
                        }
                    }
                }
            }
        }
    } else {
        assert(s.subrange(p, p) =~= Seq::<u8>::empty());
    }
}

/// A header is accepted exactly where the bytes of the version's header stand, and what
/// follows starts right behind them.
pub proof fn law_header_accepted(s: Seq<u8>, version: LuaVersion, big: bool)
    ensures
        fields_at(s, 0, header(version, big), 0) is Val <==> joined(header(version, big), 0).is_prefix_of(s),
        fields_at(s, 0, header(version, big), 0) matches Got::Val { v, at } ==> at == joined(
            header(version, big),
            0,
        ).len(),
{
    let h = joined(header(version, big), 0);
    lemma_fields_joined(s, 0, header(version, big), 0);
    if h.is_prefix_of(s) {
        assert(s.subrange(0, h.len() as int) =~= h);
    }
}

/// The parts that a list holds.
pub open spec fn parts(v: Seq<HeaderField>) -> Seq<(Seq<u8>, LoadFault)> {
    Seq::new(v.len(), |i: int| (v[i].bytes@, v[i].fault))
}

fn in_order(b: Vec<u8>, big: bool) -> (r: Vec<u8>)
    ensures
        r@ == ordered(b@, big),
{
    if !big {
        return b;
    }
    let mut r: Vec<u8> = Vec::new();
    let mut i: usize = b.len();
    while i > 0
        invariant
            i <= b@.len(),
            r@ == b@.subrange(i as int, b@.len() as int).reverse(),
        decreases i,
    {
        i = i - 1;
        r.push(b[i]);
        assert(r@ =~= b@.subrange(i as int, b@.len() as int).reverse());
    }
    assert(b@.subrange(0, b@.len() as int) =~= b@);
    r
}

fn push_field(v: &mut Vec<HeaderField>, bytes: Vec<u8>, fault: LoadFault)
    ensures
        parts(final(v)@) == parts(old(v)@).push((bytes@, fault)),
{
    let ghost before = v@;
    v.push(HeaderField { bytes: bytes, fault: fault });
    assert(parts(v@) =~= parts(before).push((bytes@, fault)));
}

fn byte(a: u8) -> (v: Vec<u8>)
    ensures
        v@ == seq![a],
{
    let v: Vec<u8> = vec![a];
    assert(v@ =~= seq![a]);
    v
}

fn word4(a: u8, b: u8, c: u8, d: u8, big: bool) -> (v: Vec<u8>)
    ensures
        v@ == ordered(seq![a, b, c, d], big),
{
    let v: Vec<u8> = vec![a, b, c, d];
    assert(v@ =~= seq![a, b, c, d]);
    in_order(v, big)
}

fn word8(lo: u8, b: u8, fill: u8, f: u8, g: u8, hi: u8, big: bool) -> (v: Vec<u8>)
    ensures
        v@ == ordered(seq![lo, b, fill, fill, fill, f, g, hi], big),
{
    let v: Vec<u8> = vec![lo, b, fill, fill, fill, f, g, hi];
    assert(v@ =~= seq![lo, b, fill, fill, fill, f, g, hi]);
    in_order(v, big)
}

/// The marker, the version and the format.
fn push_start(v: &mut Vec<HeaderField>, version: LuaVersion)
    ensures
        parts(final(v)@) == parts(old(v)@) + header_start(version),
{
    let ghost before = parts(v@);
    let marker: Vec<u8> = vec![0x4c, 0x75, 0x61];
    assert(marker@ =~= seq![0x4cu8, 0x75, 0x61]);
    let tag: u8 = match version {
        LuaVersion::V51 => 0x51,
        LuaVersion::V52 => 0x52,
        LuaVersion::V53 => 0x53,
        LuaVersion::V54 => 0x54,
        LuaVersion::V55 => 0x55,
    };
    push_field(v, marker, LoadFault::NotBinary);
    push_field(v, byte(tag), LoadFault::Version);
    push_field(v, byte(0), LoadFault::Format);
    assert(parts(v@) =~= before + header_start(version));
}

/// The byte order and the sizes of 5.1.
fn push_sizes(v: &mut Vec<HeaderField>)
    ensures
        parts(final(v)@) == parts(old(v)@) + header_sizes(),
{
    let ghost before = parts(v@);
    push_field(v, byte(1), LoadFault::Endianness);
    push_field(v, byte(4), LoadFault::Size(SizeOf::Int));
    push_field(v, byte((usize::BITS / 8) as u8), LoadFault::Size(SizeOf::SizeT));
    push_field(v, byte(4), LoadFault::Size(SizeOf::Instruction));
    push_field(v, byte(8), LoadFault::Size(SizeOf::LuaNumber));
    push_field(v, byte(0), LoadFault::NumberFormat);
    assert(parts(v@) =~= before + header_sizes());
}

/// The marker data.
fn push_data(v: &mut Vec<HeaderField>)
    ensures
        parts(final(v)@) == parts(old(v)@).push(header_data()),
{
    let data: Vec<u8> = vec![0x19, 0x93, 0x0d, 0x0a, 0x1a, 0x0a];
    assert(data@ =~= seq![0x19u8, 0x93, 0x0d, 0x0a, 0x1a, 0x0a]);
    push_field(v, data, LoadFault::Corrupted);
}

/// The sizes and formats of 5.3 and 5.4.
fn push_numbers(v: &mut Vec<HeaderField>, big: bool)
    ensures
        parts(final(v)@) == parts(old(v)@) + header_numbers(big),
{
    let ghost before = parts(v@);
    push_field(v, byte(4), LoadFault::Size(SizeOf::Instruction));
    push_field(v, byte(8), LoadFault::Size(SizeOf::LuaInteger));
    push_field(v, byte(8), LoadFault::Size(SizeOf::LuaNumber));
    push_field(v, word8(0x78, 0x56, 0, 0, 0, 0, big), LoadFault::IntegerFormat);
    push_field(v, word8(0, 0, 0, 0x28, 0x77, 0x40, big), LoadFault::FloatFormat);
    assert(parts(v@) =~= before + header_numbers(big));
}

/// The sizes and formats of 5.5.
fn push_numbers55(v: &mut Vec<HeaderField>, big: bool)
    ensures
        parts(final(v)@) == parts(old(v)@) + header_numbers55(big),
{
    let ghost before = parts(v@);
    push_field(v, byte(4), LoadFault::Size(SizeOf::Int));
    push_field(v, word4(0x88, 0xa9, 0xff, 0xff, big), LoadFault::IntFormat);
    push_field(v, byte(4), LoadFault::Size(SizeOf::Instruction55));
    push_field(v, word4(0x78, 0x56, 0x34, 0x12, big), LoadFault::InstructionFormat);
    push_field(v, byte(8), LoadFault::Size(SizeOf::LuaInteger55));
    push_field(v, word8(0x88, 0xa9, 0xff, 0xff, 0xff, 0xff, big), LoadFault::LuaIntegerFormat);
    push_field(v, byte(8), LoadFault::Size(SizeOf::LuaNumber55));
    push_field(v, word8(0, 0, 0, 0x28, 0x77, 0xc0, big), LoadFault::LuaNumberFormat);
    assert(parts(v@) =~= before + header_numbers55(big));
}

/// The parts of a header.
pub fn header_fields(version: LuaVersion, big: bool) -> (v: Vec<HeaderField>)
    ensures
        parts(v@) == header(version, big),
{
    let mut v: Vec<HeaderField> = Vec::new();
    push_start(&mut v, version);
    if version == LuaVersion::V51 || version == LuaVersion::V52 {
        push_sizes(&mut v);
    }
    if version != LuaVersion::V51 {
        push_data(&mut v);
    }
    if version == LuaVersion::V53 {
        push_field(&mut v, byte(4), LoadFault::Size(SizeOf::Int));
        push_field(&mut v, byte((usize::BITS / 8) as u8), LoadFault::Size(SizeOf::SizeT));
    }
    if version == LuaVersion::V53 || version == LuaVersion::V54 {
        push_numbers(&mut v, big);
    }
    if version == LuaVersion::V55 {
        push_numbers55(&mut v, big);
    }
    assert(parts(v@) =~= header(version, big));
    v
}

fn same_bytes(a: &Vec<u8>, b: &Vec<u8>) -> (r: bool)
    ensures
        r == (a@ == b@),
{
    if a.len() != b.len() {
        return false;
    }
    let mut i: usize = 0;
    while i < a.len()
        invariant
            i <= a@.len(),
            a@.len() == b@.len(),
            forall|k: int| 0 <= k < i ==> a@[k] == b@[k],
        decreases a@.len() - i,
    {
        if a[i] != b[i] {
            return false;
        }
        i = i + 1;
    }
    assert(a@ =~= b@);
    true
}

impl Input {
    /// Checks that the next bytes are those expected.
    pub fn check_literal(&mut self, expected: &HeaderField) -> (r: Result<(), LoadFault>)
        requires
            old(self).wf(),
        ensures
            final(self).bytes == old(self).bytes && final(self).big_endian == old(self).big_endian,
            final(self).wf() && final(self).pos >= old(self).pos,
            match block_at(old(self).bytes@, old(self).pos as int, expected.bytes@.len() as int) {
                Got::Bad(e) => r == Err::<(), LoadFault>(e),
                Got::Val { v, at } => if v == expected.bytes@ {
                    r is Ok && final(self).pos == at
                } else {
                    r == Err::<(), LoadFault>(expected.fault)
                },
            },
    {
        match self.load_block(expected.bytes.len()) {
            Err(e) => Err(e),
            Ok(b) => {
                if same_bytes(&b, &expected.bytes) {
                    Ok(())
                } else {
                    Err(expected.fault)
                }
            },
        }
    }

    /// Checks the header behind its first byte.
    pub fn check_header(&mut self, version: LuaVersion) -> (r: Result<(), LoadFault>)
        requires
            old(self).wf(),
        ensures
            read_as(
                *old(self),
                *final(self),
                r,
                fields_at(old(self).bytes@, old(self).pos as int, header(version, old(self).big_endian), 0),
            ),
    {
        let fields: Vec<HeaderField> = header_fields(version, self.big_endian);
        let ghost h = header(version, self.big_endian);
        let mut i: usize = 0;
        while i < fields.len()
            invariant
                i <= fields@.len(),
                h == header(version, old(self).big_endian),
                self.pos >= old(self).pos,
                parts(fields@) == h,
                self.wf(),
                self.bytes == old(self).bytes,
                self.big_endian == old(self).big_endian,
                fields_at(old(self).bytes@, old(self).pos as int, h, 0) == fields_at(
                    self.bytes@,
                    self.pos as int,
                    h,
                    i as int,
                ),
            decreases fields@.len() - i,
        {
            assert(parts(fields@)[i as int] == h[i as int]);
            match self.check_literal(&fields[i]) {
                Ok(()) => {},
                Err(e) => {
                    return Err(e);
                },
            }
            i = i + 1;
        }
        Ok(())
    }
}

} // verus!
