use logger::backtest::book_replay::BookReplay;
use logger::backtest::orderbook::{BookView, OrderBook};
use logger::backtest::stats_accumulator::{process_replay, StatsAccumulator};
use logger::backtest::traits::BookProcessor;

/// Records every snapshot it is shown.
struct Recorder {
    seen: Vec<(i64, [OrderBook; 2])>,
}

impl BookProcessor for Recorder {
    type Output = Vec<(i64, [OrderBook; 2])>;

    // The recorder is only run, never reasoned about, so its statement of
    // itself is left plain.
    fn after_snapshot(self, _timestamp: i64, _books: (BookView, BookView)) -> Self {
        self
    }

    fn room(self) -> u64 {
        u64::MAX
    }

    fn new() -> Self {
        Recorder { seen: Vec::new() }
    }

    fn process(&mut self, timestamp: i64, books: &[OrderBook; 2]) {
        self.seen.push((timestamp, books.clone()));
    }

    fn finalize(self) -> Self::Output {
        self.seen
    }
}

const ONE: u32 = 0x3F80_0000; // 1.0f32
const TWO: u32 = 0x4000_0000; // 2.0f32
const NEG_ZERO: u32 = 0x8000_0000; // -0.0f32

fn replay_of(rows: &[(i64, u8, u8, i16, u32)]) -> BookReplay {
    BookReplay::from_columns(
        rows.iter().map(|r| r.0).collect(),
        rows.iter().map(|r| r.1).collect(),
        rows.iter().map(|r| r.2).collect(),
        rows.iter().map(|r| r.3).collect(),
        rows.iter().map(|r| r.4).collect(),
    )
}

fn run(rows: &[(i64, u8, u8, i16, u32)]) -> Vec<(i64, [OrderBook; 2])> {
    let replay = replay_of(rows);
    let mut rec = Recorder::new();
    replay.replay(&mut rec);
    rec.finalize()
}

#[test]
fn empty_replay_gives_no_snapshot() {
    assert!(run(&[]).is_empty());
    assert_eq!(process_replay(&replay_of(&[])), 0);
}

#[test]
fn one_snapshot_per_timestamp_run() {
    let rows = [
        (10, 0, 0, 5000, ONE),
        (10, 1, 1, 6000, TWO),
        (11, 0, 0, 5100, ONE),
        (12, 0, 1, 5200, ONE),
        (12, 0, 1, 5300, TWO),
        (11, 1, 0, 4000, ONE),
    ];
    let seen = run(&rows);
    let stamps: Vec<i64> = seen.iter().map(|s| s.0).collect();
    assert_eq!(stamps, vec![10, 11, 12, 11]);
    assert_eq!(process_replay(&replay_of(&rows)), 4);
}

#[test]
fn equal_timestamps_give_one_snapshot_after_the_run() {
    let rows = [(7, 0, 0, 100, ONE), (7, 0, 0, 200, TWO), (7, 1, 1, 300, ONE)];
    let seen = run(&rows);
    assert_eq!(seen.len(), 1);
    assert_eq!(seen[0].0, 7);
    let books = &seen[0].1;
    assert_eq!(books[0].bids.len(), 2);
    assert_eq!(books[1].asks.get(&300), Some(&ONE));
}

#[test]
fn level_holds_last_update_and_zero_removes_it() {
    let rows = [
        (1, 0, 0, 5000, ONE),
        (1, 0, 0, 5000, TWO),
        (2, 0, 0, 5000, 0),
        (3, 0, 0, 6000, ONE),
        (4, 0, 0, 6000, NEG_ZERO),
        (5, 1, 1, 7000, TWO),
    ];
    let seen = run(&rows);
    assert_eq!(seen.len(), 5);
    assert_eq!(seen[0].1[0].bids.get(&5000), Some(&TWO));
    assert!(seen[1].1[0].bids.is_empty());
    assert_eq!(seen[2].1[0].bids.get(&6000), Some(&ONE));
    assert!(seen[3].1[0].bids.is_empty());
    assert_eq!(seen[4].1[1].asks.get(&7000), Some(&TWO));
    assert!(seen[4].1[0].asks.is_empty());
}

#[test]
fn side_other_than_zero_updates_asks() {
    let rows = [(1, 1, 2, 4200, ONE)];
    let seen = run(&rows);
    assert_eq!(seen[0].1[1].asks.get(&4200), Some(&ONE));
    assert!(seen[0].1[1].bids.is_empty());
}

#[test]
fn stats_accumulator_counts_snapshots() {
    let mut acc = StatsAccumulator::new();
    let books = [OrderBook::new(), OrderBook::new()];
    acc.process(1, &books);
    acc.process(2, &books);
    assert_eq!(acc.finalize(), 2);
}

#[test]
fn replay_len_counts_rows() {
    assert_eq!(replay_of(&[(1, 0, 0, 1, ONE), (2, 0, 0, 1, ONE)]).len(), 2);
}
