//! The raw/cooked mode session manager.
//!
//! A session captures a device's line-discipline attribute set at open time
//! (`original`, never mutated afterwards), derives the raw-mode set from it,
//! and can apply either set back to the device. The device itself is an
//! explicit, injectable value: the unverified shell reads the real
//! terminal's attributes into a [`TermAttrs`], lets the session decide every
//! attribute change, and writes the results back through the attribute
//! syscalls. The central contract is that restoration recovers the captured
//! attributes bit for bit, on every exit path and whether or not raw mode
//! was ever entered.

use vstd::prelude::*;

verus! {

/// Local-flag bit: echo input characters.
pub const ECHO: u32 = 0x8;

/// Local-flag bit: canonical (line-buffered) input.
pub const ICANON: u32 = 0x2;

/// Local-flag bit: generate signals from control keystrokes.
pub const ISIG: u32 = 0x1;

/// Local-flag bit: extended input processing.
pub const IEXTEN: u32 = 0x8000;

/// Input-flag bit: software flow control.
pub const IXON: u32 = 0x400;

/// Input-flag bit: translate carriage return to newline.
pub const ICRNL: u32 = 0x100;

/// Output-flag bit: output post-processing.
pub const OPOST: u32 = 0x1;

/// Control-flag bits: 8-bit character size.
pub const CS8: u32 = 0x30;

/// A snapshot of a character device's line-discipline configuration: the
/// input, output, control and local flag words, plus the minimum-read-bytes
/// and read-timeout control characters.
#[derive(Debug, Clone, Copy, PartialEq, Eq, Structural)]
pub struct TermAttrs {
    pub c_iflag: u32,
    pub c_oflag: u32,
    pub c_cflag: u32,
    pub c_lflag: u32,
    pub vmin: u8,
    pub vtime: u8,
}

/// The raw-mode attribute set derived from `t`: echo, canonical input,
/// extended input processing and signal keys off; software flow control and
/// CR-to-NL translation off; output post-processing off; character size
/// forced to 8 bits; reads return after at most one deci-second with no
/// minimum byte count.
pub open spec fn spec_raw(t: TermAttrs) -> TermAttrs {
    TermAttrs {
        c_iflag: t.c_iflag & !(IXON | ICRNL),
        c_oflag: t.c_oflag & !OPOST,
        c_cflag: t.c_cflag | CS8,
        c_lflag: t.c_lflag & !(ECHO | ICANON | IEXTEN | ISIG),
        vmin: 0,
        vtime: 1,
    }
}

/// Derives the raw-mode attribute set from `termios`.
pub fn raw(termios: TermAttrs) -> (r: TermAttrs)
    ensures
        r == spec_raw(termios),
{
    TermAttrs {
        c_iflag: termios.c_iflag & !(IXON | ICRNL),
        c_oflag: termios.c_oflag & !OPOST,
        c_cflag: termios.c_cflag | CS8,
        c_lflag: termios.c_lflag & !(ECHO | ICANON | IEXTEN | ISIG),
        vmin: 0,
        vtime: 1,
    }
}

/// The mutable attribute state of one character device.
#[derive(Debug, Clone, Copy, PartialEq, Eq, Structural)]
pub struct Device {
    pub attrs: TermAttrs,
}

/// A raw-mode session over one device: the attribute snapshot captured when
/// the session was opened, and the raw set derived from it. The session is
/// the sole owner of both sets for its lifetime.
#[derive(Debug, Clone, Copy, PartialEq, Eq, Structural)]
pub struct Termios {
    pub original: TermAttrs,
    pub raw: TermAttrs,
}

/// The session that opening `device` yields: `original` is the device's
/// current attribute set, captured verbatim, and `raw` is derived from it.
pub open spec fn spec_open(device: Device) -> Termios {
    Termios { original: device.attrs, raw: spec_raw(device.attrs) }
}

/// The device state after session `s` enters raw mode.
pub open spec fn spec_enter_raw(s: Termios, device: Device) -> Device {
    Device { attrs: s.raw }
}

/// The device state after session `s` restores: the captured original set,
/// whatever the device held before.
pub open spec fn spec_restore(s: Termios, device: Device) -> Device {
    Device { attrs: s.original }
}

impl Termios {
    /// A session is well formed when its raw set is derived from its
    /// original set by the raw-mode rule.
    pub open spec fn wf(&self) -> bool {
        self.raw == spec_raw(self.original)
    }

    /// Opens a session on `device`: captures the current attributes as
    /// `original` and derives the raw set from them. The device itself is
    /// not changed.
    pub fn new(device: &Device) -> (s: Termios)
        ensures
            s == spec_open(*device),
            s.wf(),
            s.original == device.attrs,
    {
        Termios { original: device.attrs, raw: raw(device.attrs) }
    }

    /// Enters raw mode: applies the session's raw attribute set to the
    /// device.
    pub fn raw(&self, device: &mut Device)
        ensures
            *final(device) == spec_enter_raw(*self, *old(device)),
            final(device).attrs == self.raw,
    {
        device.attrs = self.raw;
    }

    /// Restores the device: applies the captured original set back,
    /// whatever the device holds now. Safe to call whether or not raw mode
    /// was ever entered, and as often as the caller likes — it simply
    /// reapplies the original.
    pub fn original(&self, device: &mut Device)
        ensures
            *final(device) == spec_restore(*self, *old(device)),
            final(device).attrs == self.original,
    {
        device.attrs = self.original;
    }
}

/// Law: restoration recovers the attributes captured at open, bit for bit.
/// For a session opened on `initial`, whatever attribute state `work` the
/// device reached afterwards — raw mode, arbitrary changes in between —
/// restoring yields exactly the initial device state.
pub proof fn lemma_restoration_idempotence(initial: Device, work: Device)
    ensures
        spec_restore(spec_open(initial), work) == initial,
{
}

/// Law: restoring without a prior raw-mode entry is a harmless no-op.
/// Applied to the device exactly as it stood at open time, restoration
/// leaves it there.
pub proof fn lemma_noop_restore(initial: Device)
    ensures
        spec_restore(spec_open(initial), initial) == initial,
{
}

} // verus!
