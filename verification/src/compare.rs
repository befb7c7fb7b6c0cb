//! Comparison curtains: the direction of the divider between two contents.
use vstd::prelude::*;

verus! {

/// The divider's direction.
#[derive(Debug, Clone, Copy, PartialEq, Eq, Structural)]
pub enum Direction {
    /// A vertical divider: the first content on the left, the second on the
    /// right.
    Horizontal,
    /// A horizontal divider: the first content above, the second below.
    Vertical,
}

impl Default for Direction {
    fn default() -> (d: Self)
        ensures
            d == Direction::Horizontal,
    {
        Direction::Horizontal
    }
}

} // verus!
