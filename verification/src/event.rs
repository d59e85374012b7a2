//! Key events, identified by the physical position of the switch.

use vstd::prelude::*;

verus! {

/// Number of rows of the switch matrix.
pub const ROWS: usize = 3;

/// Number of columns of the switch matrix.
pub const COLS: usize = 3;

/// A debounced change of one switch, located by `(row, column)`.
#[derive(Clone, Copy, Debug, PartialEq, Eq, Structural)]
pub enum Event {
    /// The switch at `(row, column)` went down.
    Press(u8, u8),
    /// The switch at `(row, column)` came up.
    Release(u8, u8),
}

impl Event {
    /// The `(row, column)` the event happened at.
    pub open spec fn position(self) -> (u8, u8) {
        match self {
            Event::Press(r, c) => (r, c),
            Event::Release(r, c) => (r, c),
        }
    }

    /// The `(row, column)` the event happened at.
    pub fn coord(self) -> (pos: (u8, u8))
        ensures
            pos == self.position(),
    {
        match self {
            Event::Press(r, c) => (r, c),
            Event::Release(r, c) => (r, c),
        }
    }

    /// Whether the event is a press.
    pub fn is_press(self) -> (b: bool)
        ensures
            b == (self is Press),
    {
        match self {
            Event::Press(_, _) => true,
            Event::Release(_, _) => false,
        }
    }

    /// Whether the event is a release.
    pub fn is_release(self) -> (b: bool)
        ensures
            b == (self is Release),
    {
        match self {
            Event::Press(_, _) => false,
            Event::Release(_, _) => true,
        }
    }
}

} // verus!
