use std::collections::BTreeMap;
use vstd::prelude::*;

verus! {

/// What one side of one outcome's order book holds: price level (basis points)
/// to size, where a size is the bit pattern of the logged `f32` contract count.
pub struct BookView {
    pub bids: Map<i16, u32>,
    pub asks: Map<i16, u32>,
}

/// The order book of one outcome token: resting sizes per price level.
///
/// Sizes are kept as the bit patterns of the `f32` values that were logged,
/// so that a level is found again and compared exactly.
#[derive(Debug, Clone)]
pub struct OrderBook {
    pub bids: BTreeMap<i16, u32>,
    pub asks: BTreeMap<i16, u32>,
}

impl View for OrderBook {
    type V = BookView;

    open spec fn view(&self) -> BookView {
        BookView { bids: self.bids@, asks: self.asks@ }
    }
}

pub open spec fn empty_book() -> BookView {
    BookView { bids: Map::empty(), asks: Map::empty() }
}

impl OrderBook {
    /// An order book with no levels on either side.
    pub fn new() -> (book: Self)
        ensures
            book@ == empty_book(),
    {
        OrderBook { bids: BTreeMap::new(), asks: BTreeMap::new() }
    }
}

} // verus!
