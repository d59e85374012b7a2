//! The maintenance actions and what each of them asks of the platform.

use vstd::prelude::*;
use crate::keymap::CustomAction;
use crate::layout::CustomEvent;

verus! {

/// What the platform is asked to do.
#[derive(Clone, Copy, Debug, PartialEq, Eq, Structural)]
pub enum Maintenance {
    /// Restart into the USB mass-storage bootloader. Nothing runs after it.
    EnterBootloader,
    /// Reset the device. Nothing runs after it.
    ResetDevice,
    /// Store this layer as the base layer to start with, and go on.
    StoreDefaultLayer(usize),
}

impl Maintenance {
    /// Whether nothing runs after the action.
    pub open spec fn terminal(self) -> bool {
        !(self is StoreDefaultLayer)
    }

    /// Whether nothing runs after the action.
    pub fn is_terminal(self) -> (b: bool)
        ensures
            b == self.terminal(),
    {
        match self {
            Maintenance::EnterBootloader => true,
            Maintenance::ResetDevice => true,
            Maintenance::StoreDefaultLayer(_) => false,
        }
    }
}

/// What the custom event of a tick asks for, `base` being the base layer.
pub open spec fn request_of(custom: CustomEvent, base: usize) -> Option<Maintenance> {
    match custom {
        CustomEvent::NoEvent => None,
        CustomEvent::Press(CustomAction::Uf2) => Some(Maintenance::EnterBootloader),
        CustomEvent::Press(CustomAction::Reset) => Some(Maintenance::ResetDevice),
        CustomEvent::Press(CustomAction::ChangeDefaultLayer) => Some(Maintenance::StoreDefaultLayer(base)),
    }
}

/// Turns the custom event of a tick into the request to the platform.
pub fn handle_custom(custom: CustomEvent, base: usize) -> (request: Option<Maintenance>)
    ensures
        request == request_of(custom, base),
{
    match custom {
        CustomEvent::NoEvent => None,
        CustomEvent::Press(action) => match action {
            CustomAction::Uf2 => Some(Maintenance::EnterBootloader),
            CustomAction::Reset => Some(Maintenance::ResetDevice),
            CustomAction::ChangeDefaultLayer => Some(Maintenance::StoreDefaultLayer(base)),
        },
    }
}

} // verus!
