//! Key codes of the USB HID keyboard usage page.
//!
//! A key code is the byte that stands for a key in a keyboard report. The
//! codes from `LCTRL` to `RGUI` are the modifiers, which a report carries
//! as bits of its first byte.

use vstd::prelude::*;

verus! {

/// No key.
pub const NO: u8 = 0x00;

/// The letter A.
pub const A: u8 = 0x04;

/// The letter S.
pub const S: u8 = 0x16;

/// The letter X.
pub const X: u8 = 0x1B;

/// The letter Z.
pub const Z: u8 = 0x1D;

/// The space bar.
pub const SPACE: u8 = 0x2C;

/// Arrow right.
pub const RIGHT: u8 = 0x4F;

/// Arrow left.
pub const LEFT: u8 = 0x50;

/// Arrow down.
pub const DOWN: u8 = 0x51;

/// Arrow up.
pub const UP: u8 = 0x52;

/// Left control, the first modifier.
pub const LCTRL: u8 = 0xE0;

/// Left shift.
pub const LSHIFT: u8 = 0xE1;

/// Left alt.
pub const LALT: u8 = 0xE2;

/// Left GUI.
pub const LGUI: u8 = 0xE3;

/// Right control.
pub const RCTRL: u8 = 0xE4;

/// Right shift.
pub const RSHIFT: u8 = 0xE5;

/// Right alt.
pub const RALT: u8 = 0xE6;

/// Right GUI, the last modifier.
pub const RGUI: u8 = 0xE7;

/// Whether `kc` is a modifier.
pub open spec fn modifier(kc: u8) -> bool {
    0xE0 <= kc <= 0xE7
}

/// Whether `kc` takes one of the key slots of a report: it is neither a
/// modifier nor the code for no key.
pub open spec fn plain(kc: u8) -> bool {
    kc != 0 && !modifier(kc)
}

/// The bit of the modifier byte that stands for `kc`, or zero if `kc` is
/// no modifier.
pub open spec fn modifier_mask(kc: u8) -> u8 {
    if modifier(kc) {
        1u8 << ((kc - 0xE0) as u8)
    } else {
        0
    }
}

/// Whether `kc` is a modifier.
pub fn is_modifier(kc: u8) -> (b: bool)
    ensures
        b == modifier(kc),
{
    0xE0 <= kc && kc <= 0xE7
}

/// Whether `kc` takes one of the key slots of a report.
pub fn is_plain(kc: u8) -> (b: bool)
    ensures
        b == plain(kc),
{
    kc != 0 && !is_modifier(kc)
}

/// The bit of the modifier byte that stands for `kc`, or zero if `kc` is
/// no modifier.
pub fn as_modifier_bit(kc: u8) -> (bit: u8)
    ensures
        bit == modifier_mask(kc),
{
    if is_modifier(kc) {
        let shift: u8 = kc - 0xE0;
        1u8 << shift
    } else {
        0
    }
}

} // verus!
