use crate::backtest::orderbook::{empty_book, BookView, OrderBook};
use crate::backtest::traits::{after_all, books_view, BookProcessor};
use crate::models::events::BookLevel;
use vstd::prelude::*;

verus! {

broadcast use vstd::std_specs::btree::group_btree_axioms, vstd::laws_cmp::group_laws_cmp;

/// One logged book update: at `timestamp`, outcome `asset_id` (0 or 1) has
/// `size_bits` (the bits of an `f32`) resting at `price_bps` on `side`
/// (0 = bid, anything else = ask).
pub struct ReplayRow {
    pub timestamp: i64,
    pub asset_id: u8,
    pub side: u8,
    pub price_bps: i16,
    pub size_bits: u32,
}

/// A snapshot handed to a processor: a timestamp and the two outcome books.
pub type Snapshot = (i64, (BookView, BookView));

/// Whether the `f32` with these bits compares equal to `0.0` (it is `+0.0` or `-0.0`).
pub open spec fn size_is_zero(bits: u32) -> bool {
    bits == 0 || bits == 0x8000_0000
}

/// A level update on one side: a zero size removes the price level, any other size sets it.
pub open spec fn update_level(levels: Map<i16, u32>, price: i16, size_bits: u32) -> Map<i16, u32> {
    if size_is_zero(size_bits) {
        levels.remove(price)
    } else {
        levels.insert(price, size_bits)
    }
}

pub open spec fn update_book(book: BookView, row: ReplayRow) -> BookView {
    if row.side == 0 {
        BookView { bids: update_level(book.bids, row.price_bps, row.size_bits), asks: book.asks }
    } else {
        BookView { bids: book.bids, asks: update_level(book.asks, row.price_bps, row.size_bits) }
    }
}

pub open spec fn update_books(books: (BookView, BookView), row: ReplayRow) -> (BookView, BookView) {
    if row.asset_id == 0 {
        (update_book(books.0, row), books.1)
    } else {
        (books.0, update_book(books.1, row))
    }
}

/// The two books after the first `n` rows have been applied to empty books.
pub open spec fn books_after(rows: Seq<ReplayRow>, n: nat) -> (BookView, BookView)
    decreases n,
{
    if n == 0 || n > rows.len() {
        (empty_book(), empty_book())
    } else {
        update_books(books_after(rows, (n - 1) as nat), rows[n - 1])
    }
}

/// The snapshots handed out while the first `n` rows are read: whenever a row's
/// timestamp differs from the previous row's, the books as they stood after the
/// previous row, stamped with the previous row's timestamp.
pub open spec fn emitted(rows: Seq<ReplayRow>, n: nat) -> Seq<Snapshot>
    decreases n,
{
    if n == 0 || n > rows.len() {
        Seq::empty()
    } else {
        let before = emitted(rows, (n - 1) as nat);
        if n >= 2 && rows[n - 2].timestamp != rows[n - 1].timestamp {
            before.push((rows[n - 2].timestamp, books_after(rows, (n - 1) as nat)))
        } else {
            before
        }
    }
}

/// Every snapshot of a replay: one per maximal run of rows with equal
/// timestamps, taken after the run's last row.
pub open spec fn snapshots(rows: Seq<ReplayRow>) -> Seq<Snapshot> {
    if rows.len() == 0 {
        Seq::empty()
    } else {
        emitted(rows, rows.len()).push((rows.last().timestamp, books_after(rows, rows.len())))
    }
}

proof fn lemma_emitted_len_monotone(rows: Seq<ReplayRow>, n: nat, m: nat)
    requires
        n <= m <= rows.len(),
    ensures
        emitted(rows, n).len() <= emitted(rows, m).len(),
    decreases m - n,
{
    if n < m {
        lemma_emitted_len_monotone(rows, n, (m - 1) as nat);
    }
}

/// How many of the first `n` rows start a new timestamp (the first row always does).
pub open spec fn timestamp_runs(rows: Seq<ReplayRow>, n: nat) -> nat
    decreases n,
{
    if n == 0 || n > rows.len() {
        0
    } else if n == 1 || rows[n - 2].timestamp != rows[n - 1].timestamp {
        timestamp_runs(rows, (n - 1) as nat) + 1
    } else {
        timestamp_runs(rows, (n - 1) as nat)
    }
}

proof fn lemma_emitted_counts_runs(rows: Seq<ReplayRow>, n: nat)
    requires
        1 <= n <= rows.len(),
    ensures
        emitted(rows, n).len() + 1 == timestamp_runs(rows, n),
    decreases n,
{
    if n > 1 {
        lemma_emitted_counts_runs(rows, (n - 1) as nat);
    } else {
        assert(emitted(rows, 0).len() == 0);
        assert(timestamp_runs(rows, 0) == 0);
    }
}

/// A replay hands out one snapshot per run of equal consecutive timestamps:
/// one for the first row and one more at every change of timestamp.
pub proof fn law_one_snapshot_per_timestamp_run(rows: Seq<ReplayRow>)
    ensures
        snapshots(rows).len() == timestamp_runs(rows, rows.len()),
{
    if rows.len() > 0 {
        lemma_emitted_counts_runs(rows, rows.len());
    }
}

/// Each snapshot is stamped with the timestamp of the run it closes and shows
/// the books after that run's last row; a later snapshot closes a later run.
pub proof fn law_snapshots_close_runs(rows: Seq<ReplayRow>, k: int)
    requires
        0 <= k < snapshots(rows).len(),
    ensures
        exists|n: nat|
            #![trigger books_after(rows, n)]
            1 <= n <= rows.len() && snapshots(rows)[k] == (rows[n - 1].timestamp, books_after(rows, n))
                && (n == rows.len() || rows[n as int].timestamp != rows[n - 1].timestamp),
{
    let len = rows.len();
    if k == snapshots(rows).len() - 1 {
        assert(snapshots(rows)[k] == (rows[len - 1].timestamp, books_after(rows, len)));
    } else {
        lemma_emitted_entry(rows, len, k);
    }
}

proof fn lemma_emitted_entry(rows: Seq<ReplayRow>, m: nat, k: int)
    requires
        m <= rows.len(),
        0 <= k < emitted(rows, m).len(),
    ensures
        exists|n: nat|
            #![trigger books_after(rows, n)]
            1 <= n < m && emitted(rows, m)[k] == (rows[n - 1].timestamp, books_after(rows, n))
                && rows[n as int].timestamp != rows[n - 1].timestamp,
    decreases m,
{
    if m > 0 {
        let before = emitted(rows, (m - 1) as nat);
        if k < before.len() {
            lemma_emitted_entry(rows, (m - 1) as nat, k);
            let n = choose|n: nat|
                #![trigger books_after(rows, n)]
                1 <= n < m - 1 && before[k] == (rows[n - 1].timestamp, books_after(rows, n))
                    && rows[n as int].timestamp != rows[n - 1].timestamp;
            assert(emitted(rows, m)[k] == before[k]);
            assert(books_after(rows, n) == books_after(rows, n));
        } else {
            let n = (m - 1) as nat;
            assert(books_after(rows, n) == books_after(rows, n));
        }
    }
}

/// Whether `row` updates price `price` on the given side (bid or ask) of the
/// given outcome (0, or any other outcome id for outcome 1).
pub open spec fn touches(row: ReplayRow, outcome0: bool, bid: bool, price: i16) -> bool {
    (row.asset_id == 0) == outcome0 && (row.side == 0) == bid && row.price_bps == price
}

pub open spec fn side_of_books(books: (BookView, BookView), outcome0: bool, bid: bool) -> Map<i16, u32> {
    let book = if outcome0 {
        books.0
    } else {
        books.1
    };
    if bid {
        book.bids
    } else {
        book.asks
    }
}

/// The index of the last of the first `n` rows that updates `price` on the
/// given side of the given outcome.
pub open spec fn last_touch(rows: Seq<ReplayRow>, n: nat, outcome0: bool, bid: bool, price: i16) -> Option<int>
    decreases n,
{
    if n == 0 || n > rows.len() {
        None
    } else if touches(rows[n - 1], outcome0, bid, price) {
        Some(n - 1)
    } else {
        last_touch(rows, (n - 1) as nat, outcome0, bid, price)
    }
}

/// `last_touch` finds the last updating row: no later row among the first `n`
/// updates the level, and it is absent only when none does.
pub proof fn lemma_last_touch(rows: Seq<ReplayRow>, n: nat, outcome0: bool, bid: bool, price: i16)
    requires
        n <= rows.len(),
    ensures
        match last_touch(rows, n, outcome0, bid, price) {
            Some(j) => 0 <= j < n && touches(rows[j], outcome0, bid, price) && forall|i: int|
                j < i < n ==> !#[trigger] touches(rows[i], outcome0, bid, price),
            None => forall|i: int| 0 <= i < n ==> !#[trigger] touches(rows[i], outcome0, bid, price),
        },
    decreases n,
{
    if n > 0 {
        lemma_last_touch(rows, (n - 1) as nat, outcome0, bid, price);
    }
}

/// A price level after `n` rows holds the size of the last of those rows that
/// updated it, and is absent exactly when that size was `+0.0` or `-0.0` (bits
/// 0 or 0x8000_0000) or no row updated it: any other size, however small,
/// stays at its price.
pub proof fn law_level_is_last_update(rows: Seq<ReplayRow>, n: nat, outcome0: bool, bid: bool, price: i16)
    requires
        n <= rows.len(),
    ensures
        ({
            let levels = side_of_books(books_after(rows, n), outcome0, bid);
            match last_touch(rows, n, outcome0, bid, price) {
                Some(j) => {
                    &&& levels.contains_key(price) == !(rows[j].size_bits == 0
                        || rows[j].size_bits == 0x8000_0000)
                    &&& levels.contains_key(price) ==> levels[price] == rows[j].size_bits
                },
                None => !levels.contains_key(price),
            }
        }),
    decreases n,
{
    if n > 0 {
        law_level_is_last_update(rows, (n - 1) as nat, outcome0, bid, price);
        let r = rows[n - 1];
        let prev = books_after(rows, (n - 1) as nat);
        let next = books_after(rows, n);
        assert(next == update_books(prev, r));
        if !touches(r, outcome0, bid, price) {
            assert(side_of_books(next, outcome0, bid).contains_key(price) == side_of_books(
                prev,
                outcome0,
                bid,
            ).contains_key(price));
            assert(side_of_books(next, outcome0, bid).contains_key(price) ==> side_of_books(
                next,
                outcome0,
                bid,
            )[price] == side_of_books(prev, outcome0, bid)[price]);
        }
    }
}

/// The replay row a logged book level is read back as.
pub open spec fn row_of_level(level: BookLevel) -> ReplayRow {
    ReplayRow {
        timestamp: level.timestamp,
        asset_id: level.asset_binary,
        side: level.side,
        price_bps: level.price_bps,
        size_bits: level.size_bits,
    }
}

proof fn lemma_single_run(rows: Seq<ReplayRow>, ts: i64, n: nat)
    requires
        1 <= n <= rows.len(),
        forall|i: int| 0 <= i < rows.len() ==> #[trigger] rows[i].timestamp == ts,
    ensures
        timestamp_runs(rows, n) == 1,
    decreases n,
{
    if n > 1 {
        lemma_single_run(rows, ts, (n - 1) as nat);
        assert(rows[n - 2].timestamp == ts && rows[n - 1].timestamp == ts);
    } else {
        assert(timestamp_runs(rows, 0) == 0);
    }
}

/// The rows logged for one `book` message (or any levels sharing a
/// timestamp), read back and replayed, give exactly one snapshot, stamped
/// with that timestamp and showing the books after all of them.
pub proof fn law_one_message_one_snapshot(levels: Seq<BookLevel>, ts: i64)
    requires
        levels.len() > 0,
        forall|i: int| 0 <= i < levels.len() ==> #[trigger] levels[i].timestamp == ts,
    ensures
        ({
            let rows = levels.map_values(|l: BookLevel| row_of_level(l));
            &&& snapshots(rows).len() == 1
            &&& snapshots(rows)[0] == (ts, books_after(rows, rows.len()))
        }),
{
    let rows = levels.map_values(|l: BookLevel| row_of_level(l));
    assert forall|i: int| 0 <= i < rows.len() implies #[trigger] rows[i].timestamp == ts by {
        assert(levels[i].timestamp == ts);
    }
    lemma_single_run(rows, ts, rows.len());
    law_one_snapshot_per_timestamp_run(rows);
    assert(rows[rows.len() - 1].timestamp == ts);
}

/// A replay never produces more snapshots than it has rows.
pub proof fn lemma_snapshots_len_bound(rows: Seq<ReplayRow>)
    ensures
        snapshots(rows).len() <= rows.len(),
{
    if rows.len() > 0 {
        lemma_emitted_len_bound(rows, rows.len());
    }
}

proof fn lemma_emitted_len_bound(rows: Seq<ReplayRow>, n: nat)
    requires
        n <= rows.len(),
    ensures
        emitted(rows, n).len() + 1 <= n || n == 0,
    decreases n,
{
    if n > 1 {
        lemma_emitted_len_bound(rows, (n - 1) as nat);
    } else if n == 1 {
        assert(emitted(rows, 0).len() == 0);
    }
}

/// Logged book updates held column by column, in the order they were written.
pub struct BookReplay {
    timestamps: Vec<i64>,
    asset_ids: Vec<u8>,
    sides: Vec<u8>,
    prices: Vec<i16>,
    sizes: Vec<u32>,
}

impl View for BookReplay {
    type V = Seq<ReplayRow>;

    closed spec fn view(&self) -> Seq<ReplayRow> {
        Seq::new(
            self.timestamps@.len(),
            |i: int|
                ReplayRow {
                    timestamp: self.timestamps@[i],
                    asset_id: self.asset_ids@[i],
                    side: self.sides@[i],
                    price_bps: self.prices@[i],
                    size_bits: self.sizes@[i],
                },
        )
    }
}

impl BookReplay {
    #[verifier::type_invariant]
    closed spec fn columns_aligned(&self) -> bool {
        &&& self.asset_ids@.len() == self.timestamps@.len()
        &&& self.sides@.len() == self.timestamps@.len()
        &&& self.prices@.len() == self.timestamps@.len()
        &&& self.sizes@.len() == self.timestamps@.len()
    }

    /// Every row names outcome 0 or outcome 1.
    pub open spec fn replayable(&self) -> bool {
        forall|i: int| 0 <= i < self@.len() ==> #[trigger] self@[i].asset_id < 2
    }

    /// Gathers the logged columns (one entry per row) into a replay.
    pub fn from_columns(
        timestamps: Vec<i64>,
        asset_ids: Vec<u8>,
        sides: Vec<u8>,
        prices: Vec<i16>,
        sizes: Vec<u32>,
    ) -> (replay: Self)
        requires
            asset_ids@.len() == timestamps@.len(),
            sides@.len() == timestamps@.len(),
            prices@.len() == timestamps@.len(),
            sizes@.len() == timestamps@.len(),
        ensures
            replay@.len() == timestamps@.len(),
            forall|i: int|
                0 <= i < timestamps@.len() ==> #[trigger] replay@[i] == (ReplayRow {
                    timestamp: timestamps@[i],
                    asset_id: asset_ids@[i],
                    side: sides@[i],
                    price_bps: prices@[i],
                    size_bits: sizes@[i],
                }),
    {
        BookReplay { timestamps, asset_ids, sides, prices, sizes }
    }

    /// The number of logged rows.
    pub fn len(&self) -> (n: usize)
        ensures
            n == self@.len(),
    {
        proof {
            use_type_invariant(self);
        }
        self.timestamps.len()
    }

    /// Replays the rows in order on two empty books and shows `processor` the
    /// books once per run of equal timestamps, after the run's last row.
    pub fn replay<P: BookProcessor>(&self, processor: &mut P)
        requires
            self.replayable(),
            old(processor).room() >= snapshots(self@).len(),
        ensures
            *final(processor) == after_all(*old(processor), snapshots(self@)),
    {
        proof {
            use_type_invariant(self);
        }
        let ghost rows = self@;
        let ghost p0 = *processor;
        let n = self.timestamps.len();
        let mut books = [OrderBook::new(), OrderBook::new()];
        let mut cur_ts: Option<i64> = None;
        let mut i: usize = 0;
        while i < n
            invariant
                n == rows.len(),
                rows == self@,
                self.replayable(),
                self.columns_aligned(),
                0 <= i <= n,
                books_view(&books) == books_after(rows, i as nat),
                cur_ts == (if i == 0 { None::<i64> } else { Some(rows[i - 1].timestamp) }),
                *processor == after_all(p0, emitted(rows, i as nat)),
                processor.room() + emitted(rows, i as nat).len() >= p0.room(),
                p0.room() >= snapshots(rows).len(),
            decreases n - i,
        {
            let timestamp = self.timestamps[i];
            let asset_id = self.asset_ids[i];
            let side = self.sides[i];
            let price = self.prices[i];
            let size = self.sizes[i];
            assert(rows[i as int].asset_id < 2);
            if cur_ts.is_some() && cur_ts != Some(timestamp) {
                proof {
                    lemma_emitted_len_monotone(rows, (i + 1) as nat, n as nat);
                }
                processor.process(cur_ts.unwrap(), &books);
                proof {
                    let e = emitted(rows, i as nat);
                    let snap = (rows[i - 1].timestamp, books_after(rows, i as nat));
                    assert(emitted(rows, (i + 1) as nat) == e.push(snap));
                    assert(e.push(snap).drop_last() =~= e);
                }
            } else {
                assert(emitted(rows, (i + 1) as nat) == emitted(rows, i as nat));
            }
            cur_ts = Some(timestamp);
            let idx = asset_id as usize;
            if side == 0 {
                if size == 0 || size == 0x8000_0000 {
                    books[idx].bids.remove(&price);
                } else {
                    books[idx].bids.insert(price, size);
                }
            } else {
                if size == 0 || size == 0x8000_0000 {
                    books[idx].asks.remove(&price);
                } else {
                    books[idx].asks.insert(price, size);
                }
            }
            i = i + 1;
        }
        if let Some(ts) = cur_ts {
            proof {
                lemma_emitted_len_monotone(rows, n as nat, n as nat);
            }
            processor.process(ts, &books);
            proof {
                let e = emitted(rows, n as nat);
                let snap = (rows[n - 1].timestamp, books_after(rows, n as nat));
                assert(e.push(snap).drop_last() =~= e);
            }
        }
    }
}

} // verus!
