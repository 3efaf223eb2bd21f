use vstd::prelude::*;

verus! {

/// One distinct menu item ordered at one table: the quantity currently on
/// order and the preparation estimate assigned when the record was created.
#[derive(Clone, Copy, PartialEq, Eq, Structural, Debug)]
pub struct LineItem {
    /// Identifies the menu item; unique within its table partition.
    pub item_id: i64,
    /// Units of the item on order; quantity updates are applied without
    /// clamping, so the stored value may go negative.
    pub quantity: i64,
    /// Minutes of preparation, fixed when the record is first created and
    /// never recomputed by later accumulation.
    pub prep_time: i64,
}

} // verus!
