use crate::backtest::book_replay::{snapshots, BookReplay, Snapshot};
use crate::backtest::orderbook::{BookView, OrderBook};
use crate::backtest::traits::{after_all, BookProcessor};
use vstd::prelude::*;

verus! {

/// Counts the snapshots it is shown.
pub struct StatsAccumulator {
    pub count: usize,
}

impl BookProcessor for StatsAccumulator {
    type Output = usize;

    open spec fn after_snapshot(self, timestamp: i64, books: (BookView, BookView)) -> Self {
        StatsAccumulator { count: (self.count + 1) as usize }
    }

    open spec fn room(self) -> u64 {
        (usize::MAX - self.count) as u64
    }

    fn new() -> (acc: Self)
        ensures
            acc.count == 0,
    {
        StatsAccumulator { count: 0 }
    }

    fn process(&mut self, timestamp: i64, books: &[OrderBook; 2]) {
        self.count += 1;
    }

    fn finalize(self) -> (count: usize)
        ensures
            count == self.count,
    {
        self.count
    }
}

/// Showing an accumulator `snaps` adds their number to its count.
pub proof fn lemma_count_after_all(acc: StatsAccumulator, snaps: Seq<Snapshot>)
    requires
        acc.count + snaps.len() <= usize::MAX,
    ensures
        after_all(acc, snaps).count == acc.count + snaps.len(),
    decreases snaps.len(),
{
    if snaps.len() > 0 {
        lemma_count_after_all(acc, snaps.drop_last());
    }
}

/// Replays a logged market on empty books and returns how many snapshots
/// (runs of equal timestamps) it produced.
pub fn process_replay(replay: &BookReplay) -> (count: usize)
    requires
        replay.replayable(),
    ensures
        count == snapshots(replay@).len(),
{
    let rows = replay.len();
    let mut stats = StatsAccumulator::new();
    proof {
        crate::backtest::book_replay::lemma_snapshots_len_bound(replay@);
        // There are no more snapshots than rows, and the rows fit a `usize`.
        assert(snapshots(replay@).len() <= rows);
        lemma_count_after_all(stats, snapshots(replay@));
    }
    replay.replay(&mut stats);
    stats.finalize()
}

} // verus!
