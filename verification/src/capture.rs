//! What one captured keystroke means.
//!
//! The front end taps keyboard events; each key-down it sees is turned into
//! a [`Captured`] here.

use vstd::prelude::*;

use crate::keys::{key_from_keycode, spec_key_from_keycode, KeyCombo, Modifiers};

verus! {

/// The first virtual keycode of the range macOS keeps for its own system
/// actions (`kVK_*` constants stop at 0x7E).
pub const FIRST_SYSTEM_ACTION_KEYCODE: u16 = 0x80;

/// What the user pressed.
#[derive(Clone, Copy, Debug, PartialEq, Eq, Structural)]
pub enum Captured {
    /// A hotkey to look up.
    Combo(KeyCombo),
    /// A key of the undocumented system-action range, dispatched by macOS
    /// itself rather than bindable by apps.
    SystemAction { vk: u16 },
}

/// The meaning of a key-down of keycode `vk` with `modifiers` held.
pub open spec fn spec_build_captured(vk: u16, modifiers: Modifiers) -> Captured {
    if vk >= FIRST_SYSTEM_ACTION_KEYCODE {
        Captured::SystemAction { vk }
    } else {
        Captured::Combo(KeyCombo { modifiers, key: spec_key_from_keycode(vk) })
    }
}

/// Interpret a key-down of keycode `vk` with `modifiers` held.
pub fn build_captured(vk: u16, modifiers: Modifiers) -> (r: Captured)
    ensures
        r == spec_build_captured(vk, modifiers),
{
    if vk >= FIRST_SYSTEM_ACTION_KEYCODE {
        Captured::SystemAction { vk }
    } else {
        Captured::Combo(KeyCombo { modifiers, key: key_from_keycode(vk) })
    }
}

} // verus!
