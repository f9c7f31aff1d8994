//! Warnings.

use vstd::prelude::*;
use vstd::string::StringSliceAdditionalSpecFns;
use crate::global::GlobalState;
use crate::global::TestWarnMode;
use crate::global::WarnMode;
use crate::state::LuaState;
use crate::state::stored_at;
use crate::string::bytes_eq;
use crate::value::LuaValue;
use crate::value::StackIdx;

verus! {

/// What a warning comes to.
#[derive(Debug)]
pub enum Warning {
    /// Nothing.
    Silent,
    /// These bytes go to the error output.
    Write(Vec<u8>),
    /// The global variable `_WARN` gets this string.
    Store(Vec<u8>),
    /// The host's own handler gets the message.
    Handler,
}

/// Whether nothing comes of a warning, or bytes to write.
pub open spec fn writes(w: Warning, out: Seq<u8>) -> bool {
    if out.len() == 0 {
        w == Warning::Silent
    } else {
        w matches Warning::Write(b) && b@ == out
    }
}

/// Whether a message is a control message: one that starts with `@` and is whole.
pub open spec fn is_control(msg: Seq<u8>, to_cont: bool) -> bool {
    !to_cont && msg.len() > 0 && msg[0] == 0x40
}

/// Whether the default handler takes a message for a control message: one that goes on
/// with an earlier message is none.
pub open spec fn is_default_control(mode: WarnMode, msg: Seq<u8>, to_cont: bool) -> bool {
    mode != WarnMode::Cont && is_control(msg, to_cont)
}

/// What the default handler writes: nothing while it is off or for a control message,
/// otherwise the message, with the prefix unless an earlier part had it, and a line end
/// unless more follows.
pub open spec fn default_text(mode: WarnMode, msg: Seq<u8>, to_cont: bool) -> Seq<u8> {
    if is_default_control(mode, msg, to_cont) || mode == WarnMode::Off {
        Seq::empty()
    } else {
        (if mode == WarnMode::On {
            "Lua warning: ".spec_bytes()
        } else {
            Seq::empty()
        }) + msg + (if to_cont {
            Seq::empty()
        } else {
            seq![0x0au8]
        })
    }
}

/// The mode of the default handler after a message.
pub open spec fn default_mode(mode: WarnMode, msg: Seq<u8>, to_cont: bool) -> WarnMode {
    if is_default_control(mode, msg, to_cont) {
        if msg == "@off".spec_bytes() {
            WarnMode::Off
        } else if msg == "@on".spec_bytes() {
            WarnMode::On
        } else {
            mode
        }
    } else if mode == WarnMode::Off {
        mode
    } else if to_cont {
        WarnMode::Cont
    } else {
        WarnMode::On
    }
}

fn add_bytes(out: &mut Vec<u8>, b: &[u8])
    ensures
        final(out)@ == old(out)@ + b@,
{
    let mut i: usize = 0;
    while i < b.len()
        invariant
            i <= b@.len(),
            out@ == old(out)@ + b@.subrange(0, i as int),
        decreases b@.len() - i,
    {
        out.push(b[i]);
        i = i + 1;
        assert(b@.subrange(0, i as int) =~= b@.subrange(0, i - 1).push(b@[i - 1]));
        assert(out@ =~= old(out)@ + b@.subrange(0, i as int));
    }
    assert(b@.subrange(0, i as int) =~= b@);
    assert(out@ =~= old(out)@ + b@);
}

fn write_if_any(out: Vec<u8>) -> (w: Warning)
    ensures
        writes(w, out@),
{
    if out.len() == 0 {
        Warning::Silent
    } else {
        Warning::Write(out)
    }
}

/// The line that a whole warning is written as.
pub open spec fn warning_line(msg: Seq<u8>) -> Seq<u8> {
    "Lua warning: ".spec_bytes() + msg + seq![0x0au8]
}

/// The bytes of that line.
pub fn write_warning_message(msg: &[u8]) -> (out: Vec<u8>)
    ensures
        out@ == warning_line(msg@),
{
    let mut out: Vec<u8> = Vec::new();
    add_bytes(&mut out, "Lua warning: ".as_bytes());
    add_bytes(&mut out, msg);
    out.push(0x0a);
    assert(out@ =~= warning_line(msg@));
    out
}

/// The shared state after a control message to the test handler.
pub open spec fn test_controlled(g: GlobalState, msg: Seq<u8>) -> GlobalState {
    if msg == "@off".spec_bytes() {
        GlobalState { test_warn_on: false, ..g }
    } else if msg == "@on".spec_bytes() {
        GlobalState { test_warn_on: true, ..g }
    } else if msg == "@normal".spec_bytes() {
        GlobalState { test_warn_mode: TestWarnMode::Normal, ..g }
    } else if msg == "@allow".spec_bytes() {
        GlobalState { test_warn_mode: TestWarnMode::Allow, ..g }
    } else if msg == "@store".spec_bytes() {
        GlobalState { test_warn_mode: TestWarnMode::Store, ..g }
    } else {
        g
    }
}

/// What a whole message to the test handler comes to. In normal mode only a message that
/// starts with `#` is written.
pub open spec fn test_outcome(mode: TestWarnMode, on: bool, msg: Seq<u8>, w: Warning) -> bool {
    match mode {
        TestWarnMode::Normal => if on && msg.len() > 0 && msg[0] == 0x23 {
            writes(w, warning_line(msg))
        } else {
            w == Warning::Silent
        },
        TestWarnMode::Allow => if on {
            writes(w, warning_line(msg))
        } else {
            w == Warning::Silent
        },
        TestWarnMode::Store => w matches Warning::Store(b) && b@ == msg,
    }
}

/// Whether the test handler takes a message for a control message: the last one must have
/// been whole too.
pub open spec fn is_test_control(g: GlobalState, msg: Seq<u8>, to_cont: bool) -> bool {
    !g.test_warn_last_to_cont && is_control(msg, to_cont)
}

/// What the test handler does with a message.
pub open spec fn test_warned(g: GlobalState, msg: Seq<u8>, to_cont: bool, w: Warning, g2: GlobalState) -> bool {
    if is_test_control(g, msg, to_cont) {
        w == Warning::Silent && g2 == test_controlled(g, msg)
    } else {
        &&& g2 == (GlobalState { test_warn_last_to_cont: to_cont, test_warn_buffer: g2.test_warn_buffer, ..g })
        &&& if to_cont {
            w == Warning::Silent && g2.test_warn_buffer@ == g.test_warn_buffer@ + msg
        } else {
            &&& test_outcome(g.test_warn_mode, g.test_warn_on, g.test_warn_buffer@ + msg, w)
            &&& g2.test_warn_buffer@ == Seq::<u8>::empty()
        }
    }
}

/// What the default handler does with a message.
pub open spec fn default_warned(g: GlobalState, msg: Seq<u8>, to_cont: bool, w: Warning, g2: GlobalState) -> bool {
    &&& writes(w, default_text(g.warn_mode, msg, to_cont))
    &&& g2 == (GlobalState { warn_mode: default_mode(g.warn_mode, msg, to_cont), ..g })
}

impl GlobalState {
    /// The default handler.
    pub fn default_warn(&mut self, msg: &[u8], to_cont: bool) -> (w: Warning)
        ensures
            default_warned(*old(self), msg@, to_cont, w, *final(self)),
    {
        if self.warn_mode != WarnMode::Cont && !to_cont && msg.len() > 0 && msg[0] == 0x40 {
            if bytes_eq(msg, "@off".as_bytes()) {
                self.warn_mode = WarnMode::Off;
            } else if bytes_eq(msg, "@on".as_bytes()) {
                self.warn_mode = WarnMode::On;
            }
            return Warning::Silent;
        }
        if self.warn_mode == WarnMode::Off {
            return Warning::Silent;
        }
        let mut out: Vec<u8> = Vec::new();
        if self.warn_mode == WarnMode::On {
            add_bytes(&mut out, "Lua warning: ".as_bytes());
        }
        add_bytes(&mut out, msg);
        if to_cont {
            self.warn_mode = WarnMode::Cont;
        } else {
            out.push(0x0a);
            self.warn_mode = WarnMode::On;
        }
        assert(out@ =~= default_text(old(self).warn_mode, msg@, to_cont));
        write_if_any(out)
    }

    /// The test handler.
    pub fn test_warn(&mut self, msg: &[u8], to_cont: bool) -> (w: Warning)
        ensures
            test_warned(*old(self), msg@, to_cont, w, *final(self)),
    {
        if !self.test_warn_last_to_cont && !to_cont && msg.len() > 0 && msg[0] == 0x40 {
            if bytes_eq(msg, "@off".as_bytes()) {
                self.test_warn_on = false;
            } else if bytes_eq(msg, "@on".as_bytes()) {
                self.test_warn_on = true;
            } else if bytes_eq(msg, "@normal".as_bytes()) {
                self.test_warn_mode = TestWarnMode::Normal;
            } else if bytes_eq(msg, "@allow".as_bytes()) {
                self.test_warn_mode = TestWarnMode::Allow;
            } else if bytes_eq(msg, "@store".as_bytes()) {
                self.test_warn_mode = TestWarnMode::Store;
            }
            return Warning::Silent;
        }
        self.test_warn_last_to_cont = to_cont;
        let mut message: Vec<u8> = Vec::new();
        std::mem::swap(&mut message, &mut self.test_warn_buffer);
        add_bytes(&mut message, msg);
        if to_cont {
            self.test_warn_buffer = message;
            return Warning::Silent;
        }
        let on: bool = self.test_warn_on;
        match self.test_warn_mode {
            TestWarnMode::Normal => {
                if on && message.len() > 0 && message[0] == 0x23 {
                    write_if_any(write_warning_message(message.as_slice()))
                } else {
                    Warning::Silent
                }
            },
            TestWarnMode::Allow => {
                if on {
                    write_if_any(write_warning_message(message.as_slice()))
                } else {
                    Warning::Silent
                }
            },
            TestWarnMode::Store => Warning::Store(message),
        }
    }

    /// Decides what a warning comes to: the test handler goes first where it is enabled,
    /// then the host's own, then the default one.
    pub fn warning(&mut self, has_handler: bool, msg: &[u8], to_cont: bool) -> (w: Warning)
        ensures
            if old(self).test_warn_enabled {
                test_warned(*old(self), msg@, to_cont, w, *final(self))
            } else if has_handler {
                w == Warning::Handler && *final(self) == *old(self)
            } else {
                default_warned(*old(self), msg@, to_cont, w, *final(self))
            },
    {
        if self.test_warn_enabled {
            return self.test_warn(msg, to_cont);
        }
        if has_handler {
            return Warning::Handler;
        }
        self.default_warn(msg, to_cont)
    }
}

impl LuaState {
    /// Enables the test handler, off and in normal mode, and pushes `false`, which the
    /// global variable `_WARN` is to get.
    pub fn enable_test_warning_handler(&mut self, g: &mut GlobalState)
        requires
            old(self).top.0 <= old(self).stack@.len(),
            old(self).top.0 < u32::MAX,
        ensures
            *final(g) == (GlobalState {
                test_warn_enabled: true,
                test_warn_on: false,
                test_warn_mode: TestWarnMode::Normal,
                test_warn_last_to_cont: false,
                test_warn_buffer: final(g).test_warn_buffer,
                ..*old(g)
            }),
            final(g).test_warn_buffer@ == Seq::<u8>::empty(),
            *final(self) == (LuaState {
                stack: final(self).stack,
                top: StackIdx((old(self).top.0 + 1) as u32),
                ..*old(self)
            }),
            final(self).stack@ == stored_at(old(self).stack@, old(self).top.0 as int, LuaValue::Bool(false)),
    {
        g.test_warn_enabled = true;
        g.test_warn_on = false;
        g.test_warn_mode = TestWarnMode::Normal;
        g.test_warn_last_to_cont = false;
        g.test_warn_buffer.clear();
        self.push(LuaValue::Bool(false));
    }

    /// Decides what a warning comes to.
    pub fn emit_warning(&mut self, g: &mut GlobalState, has_handler: bool, msg: &[u8], to_cont: bool) -> (w: Warning)
        ensures
            *final(self) == *old(self),
            if old(g).test_warn_enabled {
                test_warned(*old(g), msg@, to_cont, w, *final(g))
            } else if has_handler {
                w == Warning::Handler && *final(g) == *old(g)
            } else {
                default_warned(*old(g), msg@, to_cont, w, *final(g))
            },
    {
        g.warning(has_handler, msg, to_cont)
    }
}

/// A message in parts is written as the whole message is, and leaves the default handler
/// in the same mode, if the whole one is no control message and the handler is on.
pub proof fn law_parts_joined(mode: WarnMode, a: Seq<u8>, b: Seq<u8>)
    requires
        !is_default_control(mode, a + b, false),
        mode != WarnMode::Off,
    ensures
        default_text(mode, a, true) + default_text(default_mode(mode, a, true), b, false) == default_text(
            mode,
            a + b,
            false,
        ),
        default_mode(default_mode(mode, a, true), b, false) == default_mode(mode, a + b, false),
{
    assert(default_text(mode, a, true) + default_text(default_mode(mode, a, true), b, false) =~= default_text(
        mode,
        a + b,
        false,
    ));
}

/// Warnings are off until they are turned on: a message comes to nothing while they are off,
/// one that is whole is written on a line of its own while they are on, and `@on` and `@off`
/// are never written.
pub proof fn law_warnings(g: GlobalState, msg: Seq<u8>, w: Warning, g2: GlobalState)
    requires
        default_warned(g, msg, false, w, g2),
        g.warn_mode != WarnMode::Cont,
    ensures
        g.warn_mode == WarnMode::Off ==> w == Warning::Silent,
        msg == "@on".spec_bytes() ==> w == Warning::Silent && g2.warn_mode == WarnMode::On,
        msg == "@off".spec_bytes() ==> w == Warning::Silent && g2.warn_mode == WarnMode::Off,
        g.warn_mode == WarnMode::On && (msg.len() == 0 || msg[0] != 0x40) ==> g2.warn_mode == WarnMode::On && (
        w matches Warning::Write(b) && b@ == "Lua warning: ".spec_bytes() + msg + seq![0x0au8]),
        g.warn_mode == WarnMode::Off && (msg.len() == 0 || msg[0] != 0x40) ==> g2.warn_mode == WarnMode::Off,
{
    reveal_strlit("@on");
    reveal_strlit("@off");
    reveal_strlit("Lua warning: ");
    assert("@on".is_ascii());
    assert("@off".is_ascii());
    assert("Lua warning: ".is_ascii());
    if g.warn_mode == WarnMode::On && (msg.len() == 0 || msg[0] != 0x40) {
        let out = "Lua warning: ".spec_bytes() + msg + seq![0x0au8];
        assert(default_text(g.warn_mode, msg, false) =~= out);
        assert(out[out.len() - 1] == 0x0a);
    }
}

} // verus!
