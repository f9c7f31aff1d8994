//! What an embedding host and the machine tell each other: hashing of byte keys, results
//! of shell commands, files of the host, and the state of a small embedding interface.

use vstd::prelude::*;
use vstd::string::StringSliceAdditionalSpecFns;
use crate::heap::Heap;
use crate::value::LuaError;
use crate::value::LuaValue;
use crate::value::LuaVersion;
use crate::value::bytes_of;

verus! {

/// A hasher of byte strings.
#[derive(Debug, Clone, Copy, PartialEq, Eq, Structural)]
pub struct LuaByteHasher {
    pub hash: u64,
}

/// One step of the FNV-1a hash.
pub open spec fn fnv_step(h: u64, b: u8) -> u64 {
    vstd::wrapping::u64_specs::wrapping_mul(h ^ (b as u64), 0x0000_0100_0000_01b3)
}

/// The FNV-1a hash of bytes, going on from a hash.
pub open spec fn fnv(h: u64, bytes: Seq<u8>) -> u64
    decreases bytes.len(),
{
    if bytes.len() == 0 {
        h
    } else {
        fnv_step(fnv(h, bytes.drop_last()), bytes.last())
    }
}

/// The bytes of a machine word in the order of the host.
pub open spec fn word_bytes(i: usize, n: int, big: bool) -> Seq<u8> {
    let le = Seq::new(n as nat, |k: int| (i as int / crate::chunk::pow256(k) % 256) as u8);
    if big {
        le.reverse()
    } else {
        le
    }
}

impl Default for LuaByteHasher {
    /// The hash of nothing.
    fn default() -> (h: Self)
        ensures
            h.hash == 0xcbf2_9ce4_8422_2325,
    {
        LuaByteHasher { hash: 0xcbf2_9ce4_8422_2325 }
    }
}

impl LuaByteHasher {
    /// Hashes bytes.
    pub fn write(&mut self, bytes: &[u8])
        ensures
            final(self).hash == fnv(old(self).hash, bytes@),
    {
        let mut i: usize = 0;
        assert(bytes@.take(0) =~= Seq::<u8>::empty());
        while i < bytes.len()
            invariant
                i <= bytes@.len(),
                self.hash == fnv(old(self).hash, bytes@.take(i as int)),
            decreases bytes@.len() - i,
        {
            self.hash = (self.hash ^ (bytes[i] as u64)).wrapping_mul(0x0000_0100_0000_01b3);
            i = i + 1;
            assert(bytes@.take(i as int).drop_last() =~= bytes@.take(i - 1));
        }
        assert(bytes@.take(i as int) =~= bytes@);
    }

    /// Hashes a byte.
    pub fn write_u8(&mut self, i: u8)
        ensures
            final(self).hash == fnv(old(self).hash, seq![i]),
    {
        let one: Vec<u8> = vec![i];
        assert(one@ =~= seq![i]);
        self.write(one.as_slice());
    }

    /// Hashes a machine word, by its bytes in the order of the host.
    pub fn write_usize(&mut self, i: usize, big_endian: bool)
        ensures
            final(self).hash == fnv(old(self).hash, word_bytes(i, usize::BITS as int / 8, big_endian)),
    {
        let n: usize = (usize::BITS / 8) as usize;
        let mut le: Vec<u8> = Vec::new();
        let mut rest: usize = i;
        let ghost all = word_bytes(i, usize::BITS as int / 8, false);
        while le.len() < n
            invariant
                le@.len() <= n,
                n == usize::BITS / 8,
                all == word_bytes(i, n as int, false),
                le@ == all.take(le@.len() as int),
                rest as int == i as int / crate::chunk::pow256(le@.len() as int),
            decreases n - le@.len(),
        {
            let ghost k = le@.len() as int;
            le.push((rest % 256) as u8);
            proof {
                lemma_pow_split(i as int, k);
                assert(le@ =~= all.take(k + 1));
            }
            rest = rest / 256;
        }
        assert(le@ =~= all);
        if big_endian {
            let mut be: Vec<u8> = Vec::new();
            let mut j: usize = le.len();
            while j > 0
                invariant
                    j <= le@.len(),
                    be@ == le@.skip(j as int).reverse(),
                decreases j,
            {
                j = j - 1;
                be.push(le[j]);
                assert(be@ =~= le@.skip(j as int).reverse());
            }
            assert(le@.skip(0) =~= le@);
            self.write(be.as_slice());
        } else {
            self.write(le.as_slice());
        }
    }

    /// The hash so far.
    pub fn finish(&self) -> (r: u64)
        ensures
            r == self.hash,
    {
        self.hash
    }
}

/// Taking one more byte off a number divides it once more.
proof fn lemma_pow_split(x: int, k: int)
    requires
        0 <= x,
        0 <= k,
    ensures
        crate::chunk::pow256(k) > 0,
        x / crate::chunk::pow256(k + 1) == x / crate::chunk::pow256(k) / 256,
    decreases k,
{
    let p = crate::chunk::pow256(k);
    if k > 0 {
        lemma_pow_split(x, k - 1);
    }
    assert(crate::chunk::pow256(k + 1) == 256 * p);
    vstd::arithmetic::div_mod::lemma_div_denominator(x, p, 256);
    assert(p * 256 == 256 * p);
}

/// Hashing in parts is hashing the whole.
pub proof fn law_hash_parts(h: u64, a: Seq<u8>, b: Seq<u8>)
    ensures
        fnv(fnv(h, a), b) == fnv(h, a + b),
    decreases b.len(),
{
    if b.len() == 0 {
        assert(a + b =~= a);
    } else {
        law_hash_parts(h, a, b.drop_last());
        assert((a + b).drop_last() =~= a + b.drop_last());
        assert((a + b).last() == b.last());
    }
}

/// How a shell command ended.
#[derive(Debug, Clone, Copy, PartialEq, Eq, Structural)]
pub enum OsExecuteReason {
    /// It exited with a code.
    Exit,
    /// A signal ended it.
    Signal,
}

/// What a shell command came to.
#[derive(Debug, Clone, Copy, PartialEq, Eq, Structural)]
pub struct OsExecuteResult {
    /// Whether it exited with code 0.
    pub success: bool,
    pub reason: OsExecuteReason,
    /// The exit code or the signal.
    pub code: i32,
}

/// A dynamic library, by a number of the host.
#[derive(Debug, Clone, Copy, PartialEq, Eq, Hash, Structural)]
pub struct DynLibId(pub u64);

/// A symbol of a dynamic library.
#[derive(Debug)]
pub enum DynamicSymbol {
    /// A native function that can be called.
    RustNative(usize),
    /// A function with a foreign calling convention, which is never called.
    LuaCAbi(usize),
    /// A refusal, with its reason.
    Unsupported { reason: Vec<u8> },
}

/// The version with a version byte.
pub fn version_from_code(code: u32) -> (r: Option<LuaVersion>)
    ensures
        r == (if code == 0x51 {
            Some(LuaVersion::V51)
        } else if code == 0x52 {
            Some(LuaVersion::V52)
        } else if code == 0x53 {
            Some(LuaVersion::V53)
        } else if code == 0x54 {
            Some(LuaVersion::V54)
        } else if code == 0x55 {
            Some(LuaVersion::V55)
        } else {
            None
        }),
        r matches Some(v) ==> v.spec_luac_version_byte() == code,
        r is None ==> forall|v: LuaVersion| v.spec_luac_version_byte() != code,
{
    match code {
        0x51 => Some(LuaVersion::V51),
        0x52 => Some(LuaVersion::V52),
        0x53 => Some(LuaVersion::V53),
        0x54 => Some(LuaVersion::V54),
        0x55 => Some(LuaVersion::V55),
        _ => None,
    }
}

/// A fixed number in place of entropy.
pub fn deterministic_entropy() -> (r: u64)
    ensures
        r == 0x4c75_612d_7761_736d,
{
    0x4c75_612d_7761_736d
}

/// The character of a hexadecimal digit.
pub open spec fn hex_digit(d: int) -> u8 {
    if d < 10 {
        (0x30 + d) as u8
    } else {
        (0x57 + d) as u8
    }
}

/// A number in base `base`, without leading zeros.
pub open spec fn digits(n: nat, base: nat) -> Seq<u8>
    decreases n,
{
    if base < 2 || n < base {
        seq![hex_digit(n as int)]
    } else {
        proof {
            assert(n / base < n) by (nonlinear_arith)
                requires
                    base >= 2,
                    n >= base,
            ;
        }
        digits(n / base, base).push(hex_digit((n % base) as int))
    }
}

fn digits_of(n: u64, base: u64) -> (out: Vec<u8>)
    requires
        base == 10 || base == 16,
    ensures
        out@ == digits(n as nat, base as nat),
    decreases n,
{
    let d: u8 = (n % base) as u8;
    let c: u8 = if d < 10 {
        0x30 + d
    } else {
        0x57 + d
    };
    if n < base {
        let out: Vec<u8> = vec![c];
        assert(out@ =~= digits(n as nat, base as nat));
        out
    } else {
        let mut out: Vec<u8> = digits_of(n / base, base);
        out.push(c);
        out
    }
}

/// An integer in decimal.
pub open spec fn decimal(i: i64) -> Seq<u8> {
    if i < 0 {
        seq![0x2du8] + digits((-i) as nat, 10)
    } else {
        digits(i as nat, 10)
    }
}

/// The bytes of an integer in decimal.
pub fn decimal_of(i: i64) -> (out: Vec<u8>)
    ensures
        out@ == decimal(i),
{
    if i < 0 {
        let m: u64 = if i == i64::MIN {
            0x8000_0000_0000_0000
        } else {
            (-i) as u64
        };
        let mut out: Vec<u8> = vec![0x2d];
        let mut d: Vec<u8> = digits_of(m, 10);
        out.append(&mut d);
        assert(out@ =~= decimal(i));
        out
    } else {
        digits_of(i as u64, 10)
    }
}

/// The text of a value as an error message, where it does not take the host's notation:
/// that of floats and of other objects is the host's.
pub open spec fn value_text(h: Heap, v: LuaValue) -> Option<Seq<u8>> {
    match v {
        LuaValue::Str(s) => Some(h.bytes(s)),
        LuaValue::Nil => Some("nil".spec_bytes()),
        LuaValue::Bool(b) => Some(
            if b {
                "true".spec_bytes()
            } else {
                "false".spec_bytes()
            },
        ),
        LuaValue::Int(i) => Some(decimal(i)),
        _ => None,
    }
}

/// Whether the value that an error raises exists.
pub open spec fn raised_ok(h: Heap, e: LuaError) -> bool {
    match e {
        LuaError::Runtime(v) | LuaError::Syntax(v) => h.ok(v),
        _ => true,
    }
}

/// What the text of an error starts from.
pub open spec fn error_text(h: Heap, e: LuaError) -> Option<Seq<u8>> {
    match e {
        LuaError::Runtime(v) | LuaError::Syntax(v) => value_text(h, v),
        LuaError::RuntimeMsg(b) => Some(b@),
        LuaError::SyntaxMsg(b) => Some(b@),
        _ => None,
    }
}

/// Copies bytes.
pub fn copy_bytes(b: &Vec<u8>) -> (r: Vec<u8>)
    ensures
        r@ == b@,
{
    let mut r: Vec<u8> = Vec::new();
    while r.len() < b.len()
        invariant
            r@.len() <= b@.len(),
            r@ == b@.take(r@.len() as int),
        decreases b@.len() - r@.len(),
    {
        r.push(b[r.len()]);
        assert(r@ =~= b@.take(r@.len() as int));
    }
    assert(r@ =~= b@);
    r
}

/// The text of a value as an error message, unless it takes the host's notation.
pub fn lua_value_bytes(h: &Heap, v: LuaValue) -> (r: Option<Vec<u8>>)
    requires
        h.ok(v),
    ensures
        match r {
            Some(b) => value_text(*h, v) == Some(b@),
            None => value_text(*h, v) is None,
        },
{
    match v {
        LuaValue::Str(s) => Some(copy_bytes(&h.strings.items[s.0].bytes)),
        LuaValue::Nil => Some(bytes_of("nil")),
        LuaValue::Bool(b) => Some(
            if b {
                bytes_of("true")
            } else {
                bytes_of("false")
            },
        ),
        LuaValue::Int(i) => Some(decimal_of(i)),
        _ => None,
    }
}

/// The text of an error, unless it takes the host's notation.
pub fn lua_error_bytes(h: &Heap, e: &LuaError) -> (r: Option<Vec<u8>>)
    requires
        raised_ok(*h, *e),
    ensures
        match r {
            Some(b) => error_text(*h, *e) == Some(b@),
            None => error_text(*h, *e) is None,
        },
{
    match e {
        LuaError::Runtime(v) | LuaError::Syntax(v) => lua_value_bytes(h, *v),
        LuaError::RuntimeMsg(b) => Some(copy_bytes(b)),
        LuaError::SyntaxMsg(b) => Some(copy_bytes(b)),
        _ => None,
    }
}

/// The limits that a sandbox is set up with.
#[derive(Debug, Clone, Copy, PartialEq, Eq, Structural)]
pub struct SandboxConfig {
    pub instruction_limit: Option<u64>,
    pub memory_limit_bytes: Option<usize>,
    /// How many instructions pass between checks, unless the host's choice stands.
    pub check_interval: Option<i32>,
    /// Whether access to the host is taken away.
    pub strict: bool,
}

/// What a strict sandbox allows where nothing else is said.
pub const STRICT_INSTRUCTIONS: u64 = 10_000_000;

/// How many bytes a strict sandbox allows where nothing else is said: 64 MiB.
pub const STRICT_MEMORY: usize = 67_108_864;

/// Limits as given, 0 for none; a strict sandbox has its own where none is given.
pub open spec fn limits_from(max_instructions: u64, max_memory: u64, strict: bool) -> SandboxConfig {
    SandboxConfig {
        instruction_limit: if max_instructions != 0 {
            Some(max_instructions)
        } else if strict {
            Some(STRICT_INSTRUCTIONS)
        } else {
            None
        },
        memory_limit_bytes: if max_memory != 0 {
            Some(max_memory as usize)
        } else if strict {
            Some(STRICT_MEMORY)
        } else {
            None
        },
        check_interval: if strict {
            None
        } else {
            Some(1000)
        },
        strict: strict,
    }
}

/// What an embedding remembers between calls: the last error, the version that the next
/// runtime speaks, and the limits it gets.
pub struct Embedding {
    pub last_error: Vec<u8>,
    pub version: LuaVersion,
    pub limits: Option<SandboxConfig>,
}

/// What reading the last error comes to.
#[derive(Debug)]
pub enum LastError {
    /// There is none.
    Absent,
    /// The room for it is too small, or missing.
    NoRoom,
    /// Its bytes.
    Text(Vec<u8>),
}

impl Default for Embedding {
    /// No error, 5.4 and no limits.
    fn default() -> (e: Self)
        ensures
            e.last_error@.len() == 0 && e.version == LuaVersion::V54 && e.limits is None,
    {
        Embedding { last_error: Vec::new(), version: LuaVersion::V54, limits: None }
    }
}

impl Embedding {
    /// Forgets the last error.
    pub fn clear_last_error(&mut self)
        ensures
            final(self).last_error@ == Seq::<u8>::empty(),
            final(self).version == old(self).version && final(self).limits == old(self).limits,
    {
        self.last_error.clear();
    }

    /// Remembers an error.
    pub fn set_last_error(&mut self, message: Vec<u8>)
        ensures
            *final(self) == (Embedding { last_error: message, ..*old(self) }),
    {
        self.last_error = message;
    }

    /// Remembers the error that a run or a reset ended with, if it did; `text` is the
    /// host's notation of it. Returns 1 for success and 0 for failure.
    pub fn finish(&mut self, h: &Heap, r: &Result<(), LuaError>, text: Vec<u8>) -> (code: i32)
        requires
            r matches Err(e) ==> raised_ok(*h, *e),
        ensures
            final(self).version == old(self).version && final(self).limits == old(self).limits,
            match r {
                Ok(()) => code == 1 && final(self).last_error@ == Seq::<u8>::empty(),
                Err(e) => code == 0 && final(self).last_error@ == (match error_text(*h, *e) {
                    Some(b) => b,
                    None => text@,
                }),
            },
    {
        match r {
            Ok(()) => {
                self.clear_last_error();
                1
            },
            Err(e) => {
                self.last_error = match lua_error_bytes(h, e) {
                    Some(b) => b,
                    None => text,
                };
                0
            },
        }
    }

    /// Selects a version by its code. A code of none is an error. Returns whether the
    /// runtime is to be made anew.
    pub fn set_version(&mut self, code: u32) -> (r: bool)
        ensures
            final(self).limits == old(self).limits,
            r == (0x51 <= code <= 0x55),
            r ==> final(self).version.spec_luac_version_byte() == code && final(self).last_error == old(
                self
            ).last_error,
            !r ==> final(self).version == old(self).version && final(self).last_error@
                == "unknown Lua version code: 0x".spec_bytes() + digits(code as nat, 16),
    {
        match version_from_code(code) {
            Some(v) => {
                self.version = v;
                true
            },
            None => {
                let mut m: Vec<u8> = bytes_of("unknown Lua version code: 0x");
                let mut d: Vec<u8> = digits_of(code as u64, 16);
                m.append(&mut d);
                self.last_error = m;
                false
            },
        }
    }

    /// The code of the selected version.
    pub fn version_code(&self) -> (r: u32)
        ensures
            r == self.version.spec_luac_version_byte(),
    {
        self.version.luac_version_byte() as u32
    }

    /// How long the last error is.
    pub fn last_error_len(&self) -> (r: usize)
        ensures
            r == self.last_error@.len(),
    {
        self.last_error.len()
    }

    /// The last error, for a place with room for `room` bytes, or for no place at all.
    pub fn last_error_read(&self, room: Option<usize>) -> (r: LastError)
        ensures
            ({
                let n = self.last_error@.len();
                if n == 0 {
                    r == LastError::Absent
                } else if room is None || room->0 < n || n > i32::MAX {
                    r == LastError::NoRoom
                } else {
                    r matches LastError::Text(b) && b@ == self.last_error@
                }
            }),
    {
        let n: usize = self.last_error.len();
        if n == 0 {
            return LastError::Absent;
        }
        match room {
            None => LastError::NoRoom,
            Some(k) => {
                if k < n || n > i32::MAX as usize {
                    LastError::NoRoom
                } else {
                    LastError::Text(copy_bytes(&self.last_error))
                }
            },
        }
    }

    /// Sets the limits that runtimes get from now on.
    pub fn set_limits(&mut self, max_instructions: u64, max_memory: u64, strict: i32)
        ensures
            *final(self) == (Embedding {
                limits: Some(limits_from(max_instructions, max_memory, strict != 0)),
                ..*old(self)
            }),
    {
        let s: bool = strict != 0;
        let instructions: Option<u64> = if max_instructions != 0 {
            Some(max_instructions)
        } else if s {
            Some(STRICT_INSTRUCTIONS)
        } else {
            None
        };
        let memory: Option<usize> = if max_memory != 0 {
            Some(max_memory as usize)
        } else if s {
            Some(STRICT_MEMORY)
        } else {
            None
        };
        let interval: Option<i32> = if s {
            None
        } else {
            Some(1000)
        };
        self.limits = Some(
            SandboxConfig {
                instruction_limit: instructions,
                memory_limit_bytes: memory,
                check_interval: interval,
                strict: s,
            },
        );
    }
}

/// The code of the limit that a run tripped over: 1 for instructions, 2 for memory, 0 for
/// neither.
pub fn last_trip(tripped: u8) -> (r: i32)
    ensures
        r == (if tripped == crate::sandbox::SANDBOX_TRIP_INSTRUCTIONS {
            1int
        } else if tripped == crate::sandbox::SANDBOX_TRIP_MEMORY {
            2
        } else {
            0
        }),
{
    if tripped == crate::sandbox::SANDBOX_TRIP_INSTRUCTIONS {
        1
    } else if tripped == crate::sandbox::SANDBOX_TRIP_MEMORY {
        2
    } else {
        0
    }
}

/// A file of the host, by its number.
#[derive(Debug, Clone, Copy, PartialEq, Eq, Structural)]
pub struct ImportedFileHandle {
    pub id: i32,
    /// A byte that was put back.
    pub unread: Option<u8>,
    pub errored: bool,
}

/// What a file is opened to.
#[derive(Debug, Clone, Copy, PartialEq, Eq, Structural)]
pub enum Opened {
    File(ImportedFileHandle),
    /// It failed, and the host gave no error number.
    Failed,
    /// It failed with an error number.
    Errno(i32),
}

/// Where a seek starts from.
#[derive(Debug, Clone, Copy, PartialEq, Eq, Structural)]
pub enum SeekFrom {
    Start(u64),
    Current(i64),
    End(i64),
}

impl ImportedFileHandle {
    /// A fresh file.
    pub fn new(id: i32) -> (f: Self)
        ensures
            f == (ImportedFileHandle { id: id, unread: None, errored: false }),
    {
        ImportedFileHandle { id: id, unread: None, errored: false }
    }

    /// Takes back the byte that was put back, if there is one; otherwise the host is to
    /// be asked for one.
    pub fn read_byte(&mut self) -> (r: Option<i32>)
        ensures
            *final(self) == (ImportedFileHandle { unread: None, ..*old(self) }),
            r == (match old(self).unread {
                Some(b) => Some(b as i32),
                None => None,
            }),
    {
        let b: Option<u8> = self.unread;
        self.unread = None;
        match b {
            Some(b) => Some(b as i32),
            None => None,
        }
    }

    /// What the host's answer to a request for a byte stands for: less than -1 is an
    /// error, and reads as the end.
    pub fn byte_read(&mut self, byte: i32) -> (r: i32)
        ensures
            r == (if byte < -1 {
                -1
            } else {
                byte as int
            }),
            *final(self) == (ImportedFileHandle { errored: old(self).errored || byte < -1, ..*old(self) }),
    {
        if byte < -1 {
            self.errored = true;
            -1
        } else {
            byte
        }
    }

    /// Puts a byte back; anything else is ignored.
    pub fn unread_byte(&mut self, byte: i32)
        ensures
            *final(self) == (if 0 <= byte <= 255 {
                ImportedFileHandle { unread: Some(byte as u8), ..*old(self) }
            } else {
                *old(self)
            }),
    {
        if 0 <= byte && byte <= 255 {
            self.unread = Some(byte as u8);
        }
    }

    /// How much was written, by the host's answer.
    pub fn write_bytes(&mut self, written: i32) -> (r: Option<usize>)
        ensures
            r == (if written < 0 {
                None
            } else {
                Some(written as usize)
            }),
            *final(self) == (ImportedFileHandle { errored: old(self).errored || written < 0, ..*old(self) }),
    {
        if written < 0 {
            self.errored = true;
            None
        } else {
            Some(written as usize)
        }
    }

    /// Whether a flush, or a change of the buffering, went well, by the host's answer.
    pub fn flush(&mut self, status: i32) -> (r: bool)
        ensures
            r == (status == 0),
            *final(self) == (ImportedFileHandle { errored: old(self).errored || status != 0, ..*old(self) }),
    {
        if status == 0 {
            true
        } else {
            self.errored = true;
            false
        }
    }

    /// Where a seek arrived, by the host's answer.
    pub fn seek(&mut self, new_pos: i64) -> (r: Option<u64>)
        ensures
            r == (if new_pos < 0 {
                None
            } else {
                Some(new_pos as u64)
            }),
            *final(self) == (ImportedFileHandle { errored: old(self).errored || new_pos < 0, ..*old(self) }),
    {
        if new_pos < 0 {
            self.errored = true;
            None
        } else {
            Some(new_pos as u64)
        }
    }

    /// Forgets an error.
    pub fn clear_error(&mut self)
        ensures
            *final(self) == (ImportedFileHandle { errored: false, ..*old(self) }),
    {
        self.errored = false;
    }

    /// Whether an error occurred.
    pub fn has_error(&self) -> (r: bool)
        ensures
            r == self.errored,
    {
        self.errored
    }
}

/// The numbers by which the host knows a seek.
pub fn seek_request(pos: SeekFrom) -> (r: (i32, i64))
    ensures
        r == (match pos {
            SeekFrom::Start(n) => (0i32, n as i64),
            SeekFrom::Current(n) => (1i32, n),
            SeekFrom::End(n) => (2i32, n),
        }),
{
    match pos {
        SeekFrom::Start(n) => (0, n as i64),
        SeekFrom::Current(n) => (1, n),
        SeekFrom::End(n) => (2, n),
    }
}

/// What the host's answer to a request to open a file stands for. Below -1 it carries an
/// error number, one lower than its negation.
pub open spec fn opened(id: i32) -> Opened {
    if id >= 0 {
        Opened::File(ImportedFileHandle { id: id, unread: None, errored: false })
    } else if id == -1 {
        Opened::Failed
    } else {
        Opened::Errno((-(id + 1)) as i32)
    }
}

/// Tells a file from a failure by the host's answer to a request to open one.
pub fn imported_file_open(id: i32) -> (r: Opened)
    ensures
        r == opened(id),
{
    if id >= 0 {
        Opened::File(ImportedFileHandle::new(id))
    } else if id == -1 {
        Opened::Failed
    } else {
        Opened::Errno(-(id + 1))
    }
}

/// How many bytes to ask the host for, by the length it gave; none if it has nothing.
pub fn read_request(len: i32) -> (r: Option<usize>)
    ensures
        r == (if len < 0 {
            None
        } else {
            Some(len as usize)
        }),
{
    if len < 0 {
        None
    } else {
        Some(len as usize)
    }
}

/// Whether the host delivered what it announced.
pub fn read_complete(len: i32, written: i32) -> (r: bool)
    ensures
        r == (written == len),
{
    written == len
}

/// How many bytes of a buffer the host filled, unless its answer makes no sense.
pub fn imported_stdin(room: usize, read: i32) -> (r: Option<usize>)
    ensures
        r == (if read < 0 || read > room {
            None
        } else {
            Some(read as usize)
        }),
{
    if read < 0 || read as usize > room {
        None
    } else {
        Some(read as usize)
    }
}

/// How long the message of a file's last error is, if there was one: an error has a
/// number or a message.
pub fn last_error_info(code: i32, len: i32) -> (r: Option<usize>)
    ensures
        r == (if code == 0 && len <= 0 {
            None
        } else if len <= 0 {
            Some(0usize)
        } else {
            Some(len as usize)
        }),
{
    if code == 0 && len <= 0 {
        None
    } else if len <= 0 {
        Some(0)
    } else {
        Some(len as usize)
    }
}

/// Every positive error number can be carried by an answer, and is told from the failure
/// without one.
pub proof fn law_errno_carried(errno: i32)
    requires
        1 <= errno,
    ensures
        opened((-errno - 1) as i32) == Opened::Errno(errno),
{
}

/// The number that digits stand for.
pub open spec fn read_digits(ds: Seq<u8>, base: nat) -> nat
    decreases ds.len(),
{
    if ds.len() == 0 {
        0
    } else {
        let d = ds.last();
        read_digits(ds.drop_last(), base) * base + (if d < 0x61 {
            (d - 0x30) as nat
        } else {
            (d - 0x57) as nat
        })
    }
}

/// The digits of a number read as that number.
pub proof fn law_digits_read_back(n: nat, base: nat)
    requires
        2 <= base <= 16,
    ensures
        read_digits(digits(n, base), base) == n,
        digits(n, base).len() > 0,
        n >= base ==> digits(n, base)[0] != 0x30,
    decreases n,
{
    reveal_with_fuel(read_digits, 2);
    if n < base {
        assert(digits(n, base).drop_last() =~= Seq::<u8>::empty());
        assert(0 * base == 0);
    } else {
        assert(n / base < n && n / base >= 1) by (nonlinear_arith)
            requires
                2 <= base <= n,
        ;
        law_digits_read_back(n / base, base);
        let ds = digits(n / base, base);
        assert(digits(n, base).drop_last() =~= ds);
        assert(n / base * base + n % base == n) by {
            vstd::arithmetic::div_mod::lemma_fundamental_div_mod(n as int, base as int);
            assert(base * (n / base) == n / base * base) by (nonlinear_arith);
        }
        assert(digits(n, base)[0] == ds[0]);
        if n / base < base {
            assert(ds[0] == hex_digit((n / base) as int));
        }
    }
}

/// A value is shown as what it is: a string by its bytes, an integer by its digits with a sign
/// where it is negative, and the others by their names.
pub proof fn law_value_text(h: Heap, v: LuaValue)
    ensures
        v matches LuaValue::Str(s) ==> value_text(h, v) == Some(h.strings.items@[s.0 as int].bytes@),
        v matches LuaValue::Int(i) ==> (i >= 0 ==> (value_text(h, v) matches Some(t) && read_digits(t, 10) == i)),
        v matches LuaValue::Int(i) ==> (i < 0 ==> (value_text(h, v) matches Some(t) && t[0] == 0x2d && read_digits(
            t.skip(1),
            10,
        ) == -i)),
        value_text(h, LuaValue::Nil) == Some("nil".spec_bytes()),
        value_text(h, LuaValue::Bool(true)) == Some("true".spec_bytes()),
        value_text(h, LuaValue::Bool(false)) == Some("false".spec_bytes()),
{
    if let LuaValue::Int(i) = v {
        if i >= 0 {
            law_digits_read_back(i as nat, 10);
        } else {
            law_digits_read_back((-i) as nat, 10);
            let t = seq![0x2du8] + digits((-i) as nat, 10);
            assert(t.skip(1) =~= digits((-i) as nat, 10));
        }
    }
}

} // verus!
