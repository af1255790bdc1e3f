//! The state of the keyboard and mouse, as the overlay asks for it, and
//! the key a hotkey is held by.
use vstd::prelude::*;

verus! {

/// Whether the keys and buttons the overlay reacts to are down now.
pub trait InputState {
    /// The key held to keep the panel open is down.
    fn hold_down(&self) -> bool;

    /// Alt is down, and no other modifier is.
    fn alt_alone(&self) -> bool;

    /// A mouse button is down.
    fn mouse_down(&self) -> bool;
}

/// A modifier key of a hotkey.
#[derive(Debug, Clone, Copy, PartialEq, Eq, Structural)]
pub enum Modifier {
    Ctrl,
    Alt,
    Shift,
    /// The Windows key.
    Meta,
}

/// The key held to keep the panel open, if any.
#[derive(Debug, Clone, Copy, PartialEq, Eq, Structural)]
pub enum HoldKey {
    Ctrl,
    Alt,
    Shift,
    NoKey,
}

/// The key to hold for a hotkey with `modifiers`: its first modifier; the
/// Windows key, or no modifier at all, gives none.
pub open spec fn hold_key_of(modifiers: Seq<Modifier>) -> HoldKey {
    if modifiers.len() == 0 {
        HoldKey::NoKey
    } else {
        match modifiers[0] {
            Modifier::Ctrl => HoldKey::Ctrl,
            Modifier::Alt => HoldKey::Alt,
            Modifier::Shift => HoldKey::Shift,
            Modifier::Meta => HoldKey::NoKey,
        }
    }
}

pub fn hold_key_for(modifiers: &[Modifier]) -> (k: HoldKey)
    ensures
        k == hold_key_of(modifiers@),
{
    if modifiers.len() == 0 {
        return HoldKey::NoKey;
    }
    match modifiers[0] {
        Modifier::Ctrl => HoldKey::Ctrl,
        Modifier::Alt => HoldKey::Alt,
        Modifier::Shift => HoldKey::Shift,
        Modifier::Meta => HoldKey::NoKey,
    }
}

} // verus!
