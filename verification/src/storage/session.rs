use crate::api::websocket::{MarketEvent, MarketEventView};
use crate::models::events::BookLevel;
use vstd::prelude::*;

verus! {

/// How long a session waits before it tries again after failing.
pub const SESSION_RETRY_DELAY_SECS: u64 = 5;

/// The rows a session writes for a run of market events: the levels of every
/// book snapshot and price change, in order; trades are not written.
pub open spec fn event_rows(events: Seq<MarketEventView>) -> Seq<BookLevel>
    decreases events.len(),
{
    if events.len() == 0 {
        Seq::empty()
    } else {
        event_rows(events.drop_last()) + match events.last() {
            MarketEventView::Book(levels) => levels,
            MarketEventView::PriceChange(levels) => levels,
            MarketEventView::Trade(_) => Seq::empty(),
        }
    }
}

/// The rows to write for `events` (see [`event_rows`]).
pub fn rows_of_events(events: Vec<MarketEvent>) -> (rows: Vec<BookLevel>)
    ensures
        rows@ == event_rows(events@.map_values(|e: MarketEvent| e@)),
{
    let ghost all = events@.map_values(|e: MarketEvent| e@);
    let mut rows: Vec<BookLevel> = Vec::new();
    assert(all.take(0) =~= Seq::<MarketEventView>::empty());
    for event in it: events
        invariant
            all.len() == it.seq().len(),
            forall|j: int| 0 <= j < all.len() ==> #[trigger] all[j] == it.seq()[j]@,
            rows@ == event_rows(all.take(it.index() as int)),
    {
        let ghost k = it.index() as int;
        assert(all.take(k + 1).drop_last() =~= all.take(k));
        assert(all.take(k + 1).last() == all[k]);
        match event {
            MarketEvent::Book(mut levels) => {
                rows.append(&mut levels);
            },
            MarketEvent::PriceChange(mut levels) => {
                rows.append(&mut levels);
            },
            MarketEvent::Trade(_) => {},
        }
        assert(rows@ =~= event_rows(all.take(k + 1)));
    }
    assert(all.take(all.len() as int) =~= all);
    rows
}

/// How many times a session has failed, and after how many failures it gives up.
pub struct SessionRetries {
    retry_count: u32,
    max_retries: u32,
}

impl SessionRetries {
    pub closed spec fn spec_retry_count(&self) -> u32 {
        self.retry_count
    }

    pub closed spec fn spec_max_retries(&self) -> u32 {
        self.max_retries
    }

    /// No failure yet; give up at the `max_retries`-th failure.
    pub fn new(max_retries: u32) -> (r: Self)
        ensures
            r.spec_retry_count() == 0,
            r.spec_max_retries() == max_retries,
    {
        SessionRetries { retry_count: 0, max_retries }
    }

    /// How many failures have been counted.
    pub fn retry_count(&self) -> (n: u32)
        ensures
            n == self.spec_retry_count(),
    {
        self.retry_count
    }

    /// Counts a failed run; the result says whether to give up (the count has
    /// reached the maximum) rather than wait and run again.
    pub fn on_failure(&mut self) -> (give_up: bool)
        requires
            old(self).spec_retry_count() < u32::MAX,
        ensures
            final(self).spec_retry_count() == old(self).spec_retry_count() + 1,
            final(self).spec_max_retries() == old(self).spec_max_retries(),
            give_up == (final(self).spec_retry_count() >= final(self).spec_max_retries()),
    {
        self.retry_count = self.retry_count + 1;
        self.retry_count >= self.max_retries
    }
}

/// The rows of events `a` and then `b` are the rows of `a`, then those of `b`:
/// writing each payload's rows in turn writes the rows of all the events
/// received, in the order received.
pub proof fn law_rows_follow_events(a: Seq<MarketEventView>, b: Seq<MarketEventView>)
    ensures
        event_rows(a + b) == event_rows(a) + event_rows(b),
    decreases b.len(),
{
    if b.len() == 0 {
        assert(a + b =~= a);
        assert(event_rows(a) + event_rows(b) =~= event_rows(a));
    } else {
        law_rows_follow_events(a, b.drop_last());
        assert((a + b).drop_last() =~= a + b.drop_last());
        assert((a + b).last() == b.last());
        let tail = match b.last() {
            MarketEventView::Book(levels) => levels,
            MarketEventView::PriceChange(levels) => levels,
            MarketEventView::Trade(_) => Seq::<BookLevel>::empty(),
        };
        assert(event_rows(a + b) == event_rows(a + b.drop_last()) + tail);
        assert(event_rows(b) == event_rows(b.drop_last()) + tail);
        assert(event_rows(a) + event_rows(b.drop_last()) + tail =~= event_rows(a) + (event_rows(
            b.drop_last(),
        ) + tail));
    }
}

/// A trade adds no rows; a book snapshot or a price change adds its own
/// levels, in order, after the rows of the events before it.
pub proof fn law_rows_of_each_event(events: Seq<MarketEventView>, last: MarketEventView)
    ensures
        last is Trade ==> event_rows(events.push(last)) == event_rows(events),
        last matches MarketEventView::Book(levels) ==> event_rows(events.push(last)) == event_rows(
            events,
        ) + levels,
        last matches MarketEventView::PriceChange(levels) ==> event_rows(events.push(last))
            == event_rows(events) + levels,
{
    assert(events.push(last).drop_last() =~= events);
    if last is Trade {
        assert(event_rows(events) + Seq::<BookLevel>::empty() =~= event_rows(events));
    }
}

/// What a running session meets next.
#[derive(Debug)]
pub enum SessionEvent {
    /// The market events of one payload.
    Events(Vec<MarketEvent>),
    /// A message with nothing to log.
    Nothing,
    /// The feed failed.
    FeedFailed,
    /// The session's time is up.
    TimeUp,
}

/// What a running session does next.
#[derive(Debug)]
pub enum SessionAction {
    /// Hand these rows to the writer, in order, and read on.
    Write(Vec<BookLevel>),
    /// Read on.
    Continue,
    /// Connect to the feed again, then read on.
    Reconnect,
    /// Stop reading; flush and close the file.
    Stop,
}

/// What a session run has done so far: the rows it has handed to the writer
/// (the rows of the market events it has received) and the times it has
/// reconnected to the feed.
pub struct SessionProgress {
    events_processed: u64,
    reconnects: u32,
    received: Ghost<Seq<MarketEventView>>,
}

impl SessionProgress {
    /// The count of rows handed to the writer is the count of rows of the
    /// events received.
    pub closed spec fn wf(&self) -> bool {
        self.events_processed == event_rows(self.received@).len()
    }

    pub closed spec fn spec_events_processed(&self) -> u64 {
        self.events_processed
    }

    pub closed spec fn spec_reconnects(&self) -> u32 {
        self.reconnects
    }

    /// The market events received so far, in order.
    pub closed spec fn events_received(&self) -> Seq<MarketEventView> {
        self.received@
    }

    /// Whether taking `event` keeps the counts within their integer types.
    pub open spec fn fits(&self, event: SessionEvent) -> bool {
        match event {
            SessionEvent::Events(evs) => self.spec_events_processed() + event_rows(
                evs@.map_values(|e: MarketEvent| e@),
            ).len() <= u64::MAX,
            SessionEvent::FeedFailed => self.spec_reconnects() < u32::MAX,
            _ => true,
        }
    }

    /// Nothing done yet.
    pub fn new() -> (p: Self)
        ensures
            p.wf(),
            p.spec_events_processed() == 0,
            p.spec_reconnects() == 0,
            p.events_received() == Seq::<MarketEventView>::empty(),
    {
        SessionProgress { events_processed: 0, reconnects: 0, received: Ghost(Seq::empty()) }
    }

    /// Whether [`Self::step`] can take `event` (see [`Self::fits`]).
    pub fn can_take(&self, event: &SessionEvent) -> (ok: bool)
        requires
            self.wf(),
        ensures
            ok == self.fits(*event),
    {
        match event {
            SessionEvent::Events(evs) => {
                let ghost all = evs@.map_values(|e: MarketEvent| e@);
                let n = evs.len();
                let mut total: u64 = self.events_processed;
                let mut i: usize = 0;
                assert(all.take(0) =~= Seq::<MarketEventView>::empty());
                while i < n
                    invariant
                        n == evs@.len(),
                        all == evs@.map_values(|e: MarketEvent| e@),
                        self.fits(*event) == (self.spec_events_processed() + event_rows(all).len()
                            <= u64::MAX),
                        0 <= i <= n,
                        total == self.spec_events_processed() + event_rows(all.take(i as int)).len(),
                    decreases n - i,
                {
                    let ghost k = i as int;
                    assert(all.take(k + 1).drop_last() =~= all.take(k));
                    assert(all.take(k + 1).last() == evs@[k]@);
                    assert(event_rows(all.take(k + 1)) == event_rows(all.take(k)) + match evs@[k]@ {
                        MarketEventView::Book(levels) => levels,
                        MarketEventView::PriceChange(levels) => levels,
                        MarketEventView::Trade(_) => Seq::<BookLevel>::empty(),
                    });
                    let more: usize = match &evs[i] {
                        MarketEvent::Book(levels) => levels.len(),
                        MarketEvent::PriceChange(levels) => levels.len(),
                        MarketEvent::Trade(_) => 0,
                    };
                    if more as u64 > u64::MAX - total {
                        proof {
                            assert(all =~= all.take(k + 1) + all.skip(k + 1));
                            law_rows_follow_events(all.take(k + 1), all.skip(k + 1));
                        }
                        return false;
                    }
                    total = total + more as u64;
                    i = i + 1;
                }
                assert(all.take(n as int) =~= all);
                true
            },
            SessionEvent::FeedFailed => self.reconnects < u32::MAX,
            _ => true,
        }
    }

    /// Takes the next thing the session meets: a payload's events are counted
    /// and their rows handed out to be written; a message with nothing to log
    /// is passed over; a failed feed is counted and reconnected; the end of
    /// the session's time stops it.
    pub fn step(&mut self, event: SessionEvent) -> (action: SessionAction)
        requires
            old(self).wf(),
            old(self).fits(event),
        ensures
            final(self).wf(),
            match event {
                SessionEvent::Events(evs) => {
                    let views = evs@.map_values(|e: MarketEvent| e@);
                    &&& action matches SessionAction::Write(rows) && rows@ == event_rows(views)
                    &&& final(self).events_received() == old(self).events_received() + views
                    &&& final(self).spec_events_processed() == old(self).spec_events_processed()
                        + event_rows(views).len()
                    &&& final(self).spec_reconnects() == old(self).spec_reconnects()
                },
                SessionEvent::Nothing => {
                    &&& action is Continue
                    &&& final(self).events_received() == old(self).events_received()
                    &&& final(self).spec_events_processed() == old(self).spec_events_processed()
                    &&& final(self).spec_reconnects() == old(self).spec_reconnects()
                },
                SessionEvent::FeedFailed => {
                    &&& action is Reconnect
                    &&& final(self).events_received() == old(self).events_received()
                    &&& final(self).spec_events_processed() == old(self).spec_events_processed()
                    &&& final(self).spec_reconnects() == old(self).spec_reconnects() + 1
                },
                SessionEvent::TimeUp => {
                    &&& action is Stop
                    &&& final(self).events_received() == old(self).events_received()
                    &&& final(self).spec_events_processed() == old(self).spec_events_processed()
                    &&& final(self).spec_reconnects() == old(self).spec_reconnects()
                },
            },
    {
        match event {
            SessionEvent::Events(evs) => {
                let ghost views = evs@.map_values(|e: MarketEvent| e@);
                let rows = rows_of_events(evs);
                proof {
                    law_rows_follow_events(self.received@, views);
                }
                self.events_processed = self.events_processed + rows.len() as u64;
                self.received = Ghost(self.received@ + views);
                SessionAction::Write(rows)
            },
            SessionEvent::Nothing => SessionAction::Continue,
            SessionEvent::FeedFailed => {
                self.reconnects = self.reconnects + 1;
                SessionAction::Reconnect
            },
            SessionEvent::TimeUp => SessionAction::Stop,
        }
    }

    /// How many rows have been handed to the writer.
    pub fn events_processed(&self) -> (n: u64)
        ensures
            n == self.spec_events_processed(),
    {
        self.events_processed
    }

    /// How many times the feed has been reconnected.
    pub fn reconnects(&self) -> (n: u32)
        ensures
            n == self.spec_reconnects(),
    {
        self.reconnects
    }
}

/// A session's row count is the number of rows of the market events it has
/// received: every row of every book and price change, and nothing for trades.
pub proof fn law_progress_counts_received_rows(p: SessionProgress)
    requires
        p.wf(),
    ensures
        p.spec_events_processed() == event_rows(p.events_received()).len(),
{
}

} // verus!
