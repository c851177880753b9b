//! The verdict that the engine keeps for a query in the current cycle.

use vstd::prelude::*;

verus! {

/// Green: verified up to date. Red: known stale, or recomputed to a changed value.
#[derive(Copy, Clone, PartialEq, Eq, Debug, Structural)]
pub enum Color {
    Green,
    Red,
}

impl Color {
    /// Whether this is the verdict "up to date".
    pub fn is_green(&self) -> (b: bool)
        ensures
            b == (*self == Color::Green),
    {
        match self {
            Color::Green => true,
            Color::Red => false,
        }
    }
}

} // verus!
