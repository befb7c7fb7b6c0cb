//! Data tables: the direction in which a sortable column is sorted.
use vstd::prelude::*;

verus! {

/// Sort direction.
#[derive(Debug, Clone, Copy, PartialEq, Eq, Structural)]
pub enum SortOrder {
    Ascending,
    Descending,
}

/// The other direction.
pub open spec fn opposite(order: SortOrder) -> SortOrder {
    match order {
        SortOrder::Ascending => SortOrder::Descending,
        SortOrder::Descending => SortOrder::Ascending,
    }
}

impl SortOrder {
    pub fn reversed(self) -> (r: Self)
        ensures
            r == opposite(self),
    {
        match self {
            SortOrder::Ascending => SortOrder::Descending,
            SortOrder::Descending => SortOrder::Ascending,
        }
    }
}

/// Reversing always changes the direction, and reversing twice gives it
/// back.
pub proof fn law_reversed_twice(order: SortOrder)
    ensures
        opposite(order) != order,
        opposite(opposite(order)) == order,
{
}

} // verus!
