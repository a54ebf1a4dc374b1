use crate::backtest::orderbook::{BookView, OrderBook};
use vstd::prelude::*;

verus! {

/// The two outcome books (index 0 and index 1) as the processor sees them.
pub open spec fn books_view(books: &[OrderBook; 2]) -> (BookView, BookView) {
    (books[0]@, books[1]@)
}

/// A consumer of order-book snapshots, handed each snapshot of a replay in turn.
pub trait BookProcessor: Sized {
    type Output;

    /// The processor after it has been shown the snapshot `books` taken at `timestamp`.
    spec fn after_snapshot(self, timestamp: i64, books: (BookView, BookView)) -> Self;

    /// How many more snapshots the processor can still be shown.
    spec fn room(self) -> u64;

    fn new() -> Self;

    fn process(&mut self, timestamp: i64, books: &[OrderBook; 2])
        requires
            old(self).room() > 0,
        ensures
            *final(self) == old(self).after_snapshot(timestamp, books_view(books)),
            final(self).room() + 1 >= old(self).room(),
    ;

    fn finalize(self) -> Self::Output;
}

/// The processor after it has been shown each snapshot of `snaps` in order.
pub open spec fn after_all<P: BookProcessor>(p: P, snaps: Seq<(i64, (BookView, BookView))>) -> P
    decreases snaps.len(),
{
    if snaps.len() == 0 {
        p
    } else {
        let last = snaps.last();
        after_all(p, snaps.drop_last()).after_snapshot(last.0, last.1)
    }
}

} // verus!
