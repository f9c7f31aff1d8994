//! A scripted host for trial runs: it counts what is written, hands out fixed input, and
//! has two environment variables.

use vstd::prelude::*;
use vstd::string::StringSliceAdditionalSpecFns;
use crate::string::bytes_eq;
use crate::value::bytes_of;

verus! {

/// The state of a scripted host.
#[derive(Debug, Clone, Copy, PartialEq, Eq, Structural)]
pub struct ScriptedHost {
    pub output_bytes: usize,
    pub input_pos: usize,
}

/// The input: two lines.
pub open spec fn script() -> Seq<u8> {
    "alpha\nbeta\n".spec_bytes()
}

impl ScriptedHost {
    /// A host that has not been used.
    pub fn new() -> (h: Self)
        ensures
            h == (ScriptedHost { output_bytes: 0, input_pos: 0 }),
    {
        ScriptedHost { output_bytes: 0, input_pos: 0 }
    }

    /// Counts output.
    pub fn capture_stdout(&mut self, bytes: &[u8])
        ensures
            *final(self) == (ScriptedHost {
                output_bytes: vstd::wrapping::usize_specs::wrapping_add(
                    old(self).output_bytes,
                    bytes@.len() as usize,
                ),
                ..*old(self)
            }),
    {
        self.output_bytes = self.output_bytes.wrapping_add(bytes.len());
    }

    /// Hands out the next byte of the input, if there is room for one and one is left.
    pub fn scripted_stdin(&mut self, buf: &mut [u8]) -> (n: usize)
        ensures
            final(buf)@.len() == old(buf)@.len(),
            if old(buf)@.len() == 0 {
                n == 0 && *final(self) == *old(self)
            } else {
                &&& *final(self) == (ScriptedHost {
                    input_pos: vstd::wrapping::usize_specs::wrapping_add(old(self).input_pos, 1),
                    ..*old(self)
                })
                &&& if old(self).input_pos < script().len() {
                    n == 1 && final(buf)@ == old(buf)@.update(0, script()[old(self).input_pos as int])
                } else {
                    n == 0 && final(buf)@ == old(buf)@
                }
            },
    {
        if buf.len() == 0 {
            return 0;
        }
        let pos: usize = self.input_pos;
        self.input_pos = self.input_pos.wrapping_add(1);
        let input: &[u8] = "alpha\nbeta\n".as_bytes();
        if pos >= input.len() {
            return 0;
        }
        buf[0] = input[pos];
        1
    }
}

/// A fixed number in place of entropy.
pub fn deterministic_entropy() -> (r: u64)
    ensures
        r == 0x4c75_612d_7273_7761,
{
    0x4c75_612d_7273_7761
}

/// The value of an environment variable.
pub open spec fn env_value(name: Seq<u8>) -> Option<Seq<u8>> {
    if name == "LUA_PATH_5_4".spec_bytes() {
        Some("./from_env/?.lua".spec_bytes())
    } else if name == "LUA_PATH".spec_bytes() {
        Some("./fallback/?.lua".spec_bytes())
    } else {
        None
    }
}

/// Looks up an environment variable.
pub fn scripted_env(name: &[u8]) -> (r: Option<Vec<u8>>)
    ensures
        match r {
            Some(b) => env_value(name@) == Some(b@),
            None => env_value(name@) is None,
        },
{
    if bytes_eq(name, "LUA_PATH_5_4".as_bytes()) {
        Some(bytes_of("./from_env/?.lua"))
    } else if bytes_eq(name, "LUA_PATH".as_bytes()) {
        Some(bytes_of("./fallback/?.lua"))
    } else {
        None
    }
}

} // verus!
