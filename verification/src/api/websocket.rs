use crate::error::{ErrorView, LoggerError};
use crate::models::events::{
    byte_char_boundary, hash_hex_part, hash_prefix_value, BookLevel, BookSide, Side, Trade,
};
use crate::numeric::{parse_i16, parse_i64, parse_price_bps, parsed_i16, parsed_i64, price_bps_reading};
use crate::text::{int_decimal, push_decimal_i64, str_eq};
use vstd::prelude::*;
use vstd::string::*;
use vstd::utf8::encode_utf8;

verus! {

/// The address of the CLOB market websocket.
pub const WSS_URL: &'static str = "wss://ws-subscriptions-clob.polymarket.com/ws/market";

/// The default size of a bid level whose size text does not read as a number
/// (the bits of `0.0f32`).
pub const BID_SIZE_DEFAULT: u32 = 0;

/// The default size of an ask or price-change level whose size text does not
/// read as a number (the bits of `-1.0f32`).
pub const ASK_SIZE_DEFAULT: u32 = 0xBF80_0000;

/// The default size of a trade whose size text does not read as a number
/// (the bits of `-1.0f64`).
pub const TRADE_SIZE_DEFAULT: u64 = 0xBFF0_0000_0000_0000;

/// One change of a price level, as announced in a `price_change` message.
///
/// The price is logged in basis points, read from `price` by
/// [`crate::numeric::parse_price_bps`]; `size_bits` is the size text read as an
/// `f32`, as its bit pattern (`None` when it does not read as a number).
#[derive(Debug)]
pub struct RawPriceChange {
    pub asset_id: String,
    pub price: String,
    pub size: String,
    pub side: String,
    pub size_bits: Option<u32>,
}

/// A `price_change` message.
#[derive(Debug)]
pub struct PriceChangeEvent {
    pub timestamp: String,
    pub price_changes: Vec<RawPriceChange>,
}

/// One level of a `book` message, its price and size read as in
/// [`RawPriceChange`].
#[derive(Debug)]
pub struct RawBookLevel {
    pub price: String,
    pub size_bits: Option<u32>,
}

/// A `book` message: the full book of one outcome token.
#[derive(Debug)]
pub struct BookEvent {
    pub asset_id: String,
    pub market: String,
    pub bids: Vec<RawBookLevel>,
    pub asks: Vec<RawBookLevel>,
    pub timestamp: String,
    pub hash: String,
}

/// A `last_trade_price` message. `size_bits` is the size text read as an
/// `f64`, as its bit pattern (`None` when it does not read as a number).
#[derive(Debug)]
pub struct TradeEvent {
    pub timestamp: String,
    pub asset_id: String,
    pub transaction_hash: String,
    pub price: String,
    pub size_bits: Option<u64>,
    pub side: String,
    pub fee_rate_bps: String,
}

/// One element of a websocket payload, told apart by its `event_type` and
/// decoded into the matching message.
#[derive(Debug)]
pub enum DecodedMessage {
    Book(BookEvent),
    PriceChange(PriceChangeEvent),
    Trade(TradeEvent),
    /// The element named a known event type but did not decode; the decoder's
    /// message.
    Undecodable(String),
    /// The element has no `event_type` this logger records.
    Unknown,
}

/// The kinds of payload element the logger reads, told apart by `event_type`.
#[derive(Debug, Clone, Copy, PartialEq, Eq, Structural)]
pub enum EventKind {
    Book,
    PriceChange,
    Trade,
    Unknown,
}

/// `book`, `price_change` and `last_trade_price` elements are read; any other
/// `event_type`, or none, is skipped.
pub fn classify_event_type(event_type: Option<&str>) -> (kind: EventKind)
    ensures
        kind == (match event_type {
            Some(t) => if t@ == "book"@ {
                EventKind::Book
            } else if t@ == "price_change"@ {
                EventKind::PriceChange
            } else if t@ == "last_trade_price"@ {
                EventKind::Trade
            } else {
                EventKind::Unknown
            },
            None => EventKind::Unknown,
        }),
{
    match event_type {
        Some(t) => {
            if str_eq(t, "book") {
                EventKind::Book
            } else if str_eq(t, "price_change") {
                EventKind::PriceChange
            } else if str_eq(t, "last_trade_price") {
                EventKind::Trade
            } else {
                EventKind::Unknown
            }
        },
        None => EventKind::Unknown,
    }
}

/// What the logger takes from one websocket message.
#[derive(Debug)]
pub enum MarketEvent {
    Book(Vec<BookLevel>),
    PriceChange(Vec<BookLevel>),
    Trade(Trade),
}

pub enum MarketEventView {
    Book(Seq<BookLevel>),
    PriceChange(Seq<BookLevel>),
    Trade(Trade),
}

impl View for MarketEvent {
    type V = MarketEventView;

    open spec fn view(&self) -> MarketEventView {
        match self {
            MarketEvent::Book(levels) => MarketEventView::Book(levels@),
            MarketEvent::PriceChange(levels) => MarketEventView::PriceChange(levels@),
            MarketEvent::Trade(t) => MarketEventView::Trade(*t),
        }
    }
}

/// The text Rust's `{:?}` renders for a string: quoted, with escapes.
pub uninterp spec fn debug_text(s: Seq<char>) -> Seq<char>;

/// `s` rendered with `{:?}`.
#[verifier::external_body]
fn debug_string(s: &str) -> (d: String)
    ensures
        d@ == debug_text(s@),
{
    format!("{:?}", s)
}

/// The index of the first id equal to `id`.
pub open spec fn asset_position(ids: Seq<String>, id: Seq<char>) -> Option<int>
    decreases ids.len(),
{
    if ids.len() == 0 {
        None
    } else {
        match asset_position(ids.drop_last(), id) {
            Some(k) => Some(k),
            None => if ids.last()@ == id {
                Some(ids.len() - 1)
            } else {
                None
            },
        }
    }
}

proof fn lemma_asset_position_prefix(ids: Seq<String>, id: Seq<char>, m: int)
    requires
        0 <= m <= ids.len(),
        asset_position(ids.take(m), id) is Some,
    ensures
        asset_position(ids, id) == asset_position(ids.take(m), id),
    decreases ids.len(),
{
    if m < ids.len() {
        assert(ids.drop_last().take(m) =~= ids.take(m));
        lemma_asset_position_prefix(ids.drop_last(), id, m);
    } else {
        assert(ids.take(m) =~= ids);
    }
}

/// The index of the first of `ids` equal to `id`.
fn find_asset(ids: &Vec<String>, id: &String) -> (pos: Option<usize>)
    ensures
        match pos {
            Some(k) => asset_position(ids@, id@) == Some(k as int),
            None => asset_position(ids@, id@) is None,
        },
{
    let n = ids.len();
    let mut i: usize = 0;
    while i < n
        invariant
            n == ids@.len(),
            0 <= i <= n,
            asset_position(ids@.take(i as int), id@) is None,
        decreases n - i,
    {
        assert(ids@.take(i + 1).drop_last() =~= ids@.take(i as int));
        if ids[i] == *id {
            assert(ids@.take(i + 1).last() == ids@[i as int]);
            proof {
                lemma_asset_position_prefix(ids@, id@, i + 1);
            }
            return Some(i);
        }
        i = i + 1;
    }
    assert(ids@.take(n as int) =~= ids@);
    None
}

/// The timestamp a message carries, read as `text.parse::<i64>()` reads it.
pub open spec fn timestamp_of(text: Seq<char>) -> Option<i64> {
    parsed_i64(encode_utf8(text))
}

/// A price text in basis points (see [`price_bps_reading`]), or `default`
/// when it is no decimal number.
pub open spec fn price_or(text: Seq<char>, default: i16) -> i16 {
    match price_bps_reading(encode_utf8(text)) {
        Some(v) => v,
        None => default,
    }
}

pub open spec fn size_or(s: Option<u32>, default: u32) -> u32 {
    match s {
        Some(v) => v,
        None => default,
    }
}

pub open spec fn bid_level(ts: i64, asset: u8, raw: RawBookLevel) -> BookLevel {
    BookLevel {
        timestamp: ts,
        asset_binary: asset,
        side: 0,
        price_bps: price_or(raw.price@, 0),
        size_bits: size_or(raw.size_bits, BID_SIZE_DEFAULT),
    }
}

pub open spec fn ask_level(ts: i64, asset: u8, raw: RawBookLevel) -> BookLevel {
    BookLevel {
        timestamp: ts,
        asset_binary: asset,
        side: 1,
        price_bps: price_or(raw.price@, -10000i16),
        size_bits: size_or(raw.size_bits, ASK_SIZE_DEFAULT),
    }
}

/// The detail of the error for a `book` message whose timestamp does not read.
pub open spec fn book_timestamp_detail(timestamp: Seq<char>) -> Seq<char> {
    "Invalid timestamp for logger::api::websocket::BookEvent timestamp: "@ + debug_text(timestamp)
}

/// What a `book` message yields: one level per bid, then one per ask, each
/// stamped with the message's timestamp and outcome index.
pub open spec fn book_event_outcome(e: BookEvent, ids: Seq<String>) -> Result<
    Seq<BookLevel>,
    ErrorView,
> {
    match timestamp_of(e.timestamp@) {
        None => Err(ErrorView::JsonError(book_timestamp_detail(e.timestamp@))),
        Some(ts) => match asset_position(ids, e.asset_id@) {
            None => Err(ErrorView::InvalidAssetId("Invalid asset_id for book event"@)),
            Some(k) => {
                let asset = k as u8;
                Ok(
                    e.bids@.map_values(|b: RawBookLevel| bid_level(ts, asset, b)) + e.asks@.map_values(
                        |a: RawBookLevel| ask_level(ts, asset, a),
                    ),
                )
            },
        },
    }
}

/// A `book` message yields one level per bid and ask, all stamped with the
/// message's timestamp and outcome index, bids (side 0) before asks (side 1).
/// Each level carries its own price in basis points and its own size when
/// their texts read as numbers; otherwise a bid gets price 0 and size `0.0`,
/// an ask price -10 000 and size `-1.0` (bits 0xBF80_0000).
pub proof fn law_book_message_levels(e: BookEvent, ids: Seq<String>)
    ensures
        book_event_outcome(e, ids) matches Ok(levels) ==> {
            &&& levels.len() == e.bids@.len() + e.asks@.len()
            &&& forall|i: int|
                0 <= i < levels.len() ==> {
                    &&& #[trigger] levels[i].timestamp == timestamp_of(e.timestamp@)->0
                    &&& levels[i].asset_binary == asset_position(ids, e.asset_id@)->0 as u8
                    &&& levels[i].side == (if i < e.bids@.len() {
                        0u8
                    } else {
                        1u8
                    })
                }
            &&& forall|i: int|
                0 <= i < e.bids@.len() ==> {
                    &&& #[trigger] levels[i].size_bits == match e.bids@[i].size_bits {
                        Some(b) => b,
                        None => 0u32,
                    }
                    &&& levels[i].price_bps == match price_bps_reading(
                        encode_utf8(e.bids@[i].price@),
                    ) {
                        Some(p) => p,
                        None => 0i16,
                    }
                }
            &&& forall|j: int|
                0 <= j < e.asks@.len() ==> {
                    &&& #[trigger] levels[e.bids@.len() + j].size_bits == match e.asks@[j].size_bits {
                        Some(b) => b,
                        None => 0xBF80_0000u32,
                    }
                    &&& levels[e.bids@.len() + j].price_bps == match price_bps_reading(
                        encode_utf8(e.asks@[j].price@),
                    ) {
                        Some(p) => p,
                        None => -10000i16,
                    }
                }
        },
{
    if let Ok(levels) = book_event_outcome(e, ids) {
        let ts = timestamp_of(e.timestamp@)->0;
        let asset = asset_position(ids, e.asset_id@)->0 as u8;
        let bids = e.bids@.map_values(|b: RawBookLevel| bid_level(ts, asset, b));
        let asks = e.asks@.map_values(|a: RawBookLevel| ask_level(ts, asset, a));
        assert forall|i: int| 0 <= i < levels.len() implies {
            &&& #[trigger] levels[i].timestamp == ts
            &&& levels[i].asset_binary == asset
            &&& levels[i].side == (if i < e.bids@.len() {
                0u8
            } else {
                1u8
            })
        } by {
            if i < bids.len() {
                assert(levels[i] == bids[i]);
            } else {
                assert(levels[i] == asks[i - bids.len()]);
            }
        }
        assert forall|j: int| 0 <= j < e.asks@.len() implies levels[e.bids@.len() + j] == ask_level(
            ts,
            asset,
            e.asks@[j],
        ) by {
            assert(levels[e.bids@.len() + j] == asks[j]);
        }
        assert forall|i: int| 0 <= i < e.bids@.len() implies levels[i] == bid_level(
            ts,
            asset,
            e.bids@[i],
        ) by {
            assert(levels[i] == bids[i]);
        }
    }
}

/// `{:?}` of one price change.
pub open spec fn raw_change_debug(c: RawPriceChange) -> Seq<char> {
    "RawPriceChange { asset_id: "@ + debug_text(c.asset_id@) + ", price: "@ + debug_text(c.price@)
        + ", size: "@ + debug_text(c.size@) + ", side: "@ + debug_text(c.side@) + " }"@
}

/// The `{:?}` renderings of `changes`, separated by `", "`.
pub open spec fn changes_debug(changes: Seq<RawPriceChange>) -> Seq<char>
    decreases changes.len(),
{
    if changes.len() == 0 {
        Seq::empty()
    } else if changes.len() == 1 {
        raw_change_debug(changes[0])
    } else {
        changes_debug(changes.drop_last()) + ", "@ + raw_change_debug(changes.last())
    }
}

/// `{:?}` of a price change message.
pub open spec fn price_change_debug(e: PriceChangeEvent) -> Seq<char> {
    "PriceChangeEvent { timestamp: "@ + debug_text(e.timestamp@) + ", price_changes: ["@
        + changes_debug(e.price_changes@) + "] }"@
}

pub open spec fn price_change_timestamp_detail(e: PriceChangeEvent) -> Seq<char> {
    "Invalid timestamp for logger::api::websocket::PriceChangeEvent timestamp: "@
        + price_change_debug(e)
}

pub open spec fn side_of(text: Seq<char>) -> Option<u8> {
    if text == "BUY"@ {
        Some(0u8)
    } else if text == "SELL"@ {
        Some(1u8)
    } else {
        None
    }
}

/// What the price changes of a message yield, read in order with the
/// message's timestamp `ts`: the first change with an unknown asset or side
/// stops the reading with its error.
pub open spec fn changes_outcome(changes: Seq<RawPriceChange>, ts: i64, ids: Seq<String>) -> Result<
    Seq<BookLevel>,
    ErrorView,
>
    decreases changes.len(),
{
    if changes.len() == 0 {
        Ok(Seq::empty())
    } else {
        match changes_outcome(changes.drop_last(), ts, ids) {
            Err(e) => Err(e),
            Ok(levels) => {
                let c = changes.last();
                match asset_position(ids, c.asset_id@) {
                    None => Err(
                        ErrorView::InvalidAssetId("Invalid asset_id for price change envent"@),
                    ),
                    Some(k) => match side_of(c.side@) {
                        None => Err(ErrorView::JsonError("Invalid Side"@)),
                        Some(side) => Ok(
                            levels.push(
                                BookLevel {
                                    timestamp: ts,
                                    asset_binary: k as u8,
                                    side,
                                    price_bps: price_or(c.price@, -10000i16),
                                    size_bits: size_or(c.size_bits, ASK_SIZE_DEFAULT),
                                },
                            ),
                        ),
                    },
                }
            },
        }
    }
}

/// The changes of a price change message each yield one level, in order,
/// stamped with the message's timestamp and the change's outcome index: side
/// 0 for a `BUY` change and 1 for a `SELL` one, the change's own price in basis
/// points and its own size when their texts read as numbers (otherwise price
/// -10 000 and size `-1.0`, bits 0xBF80_0000). A change whose side is neither
/// stops the reading.
pub proof fn law_price_change_levels(changes: Seq<RawPriceChange>, ts: i64, ids: Seq<String>)
    ensures
        changes_outcome(changes, ts, ids) matches Ok(levels) ==> {
            &&& levels.len() == changes.len()
            &&& forall|i: int|
                0 <= i < levels.len() ==> {
                    &&& #[trigger] levels[i].timestamp == ts
                    &&& (changes[i].side@ == "BUY"@ && levels[i].side == 0) || (changes[i].side@
                        == "SELL"@ && levels[i].side == 1)
                    &&& asset_position(ids, changes[i].asset_id@) matches Some(k) && levels[i].asset_binary
                        == k as u8
                    &&& levels[i].size_bits == match changes[i].size_bits {
                        Some(b) => b,
                        None => 0xBF80_0000u32,
                    }
                    &&& levels[i].price_bps == match price_bps_reading(
                        encode_utf8(changes[i].price@),
                    ) {
                        Some(p) => p,
                        None => -10000i16,
                    }
                }
        },
    decreases changes.len(),
{
    if changes.len() > 0 {
        let rest = changes.drop_last();
        law_price_change_levels(rest, ts, ids);
        if let Ok(levels) = changes_outcome(changes, ts, ids) {
            let prev = changes_outcome(rest, ts, ids)->Ok_0;
            assert(levels == prev.push(levels.last()));
            assert forall|i: int| 0 <= i < levels.len() - 1 implies levels[i] == prev[i] && changes[i]
                == rest[i] by {}
        }
    }
}

/// What a `price_change` message yields.
pub open spec fn price_change_outcome(e: PriceChangeEvent, ids: Seq<String>) -> Result<
    Seq<BookLevel>,
    ErrorView,
> {
    match timestamp_of(e.timestamp@) {
        None => Err(ErrorView::JsonError(price_change_timestamp_detail(e))),
        Some(ts) => changes_outcome(e.price_changes@, ts, ids),
    }
}

/// What a `last_trade_price` message yields.
pub open spec fn trade_outcome(e: TradeEvent, ids: Seq<String>) -> Result<Trade, ErrorView> {
    match timestamp_of(e.timestamp@) {
        None => Err(ErrorView::JsonError("Invalid timestamp"@)),
        Some(ts) => match asset_position(ids, e.asset_id@) {
            None => Err(ErrorView::InvalidAssetId("Invalid asset_id for trade event"@)),
            Some(k) => match side_of(e.side@) {
                None => Err(ErrorView::JsonError("Invalid side"@)),
                Some(side) => Ok(
                    Trade {
                        timestamp: ts,
                        asset_binary: k as u8,
                        transaction_hash: hash_prefix_value(encode_utf8(e.transaction_hash@)),
                        price_bps: price_or(e.price@, -10000i16),
                        size_bits: match e.size_bits {
                            Some(b) => b,
                            None => TRADE_SIZE_DEFAULT,
                        },
                        side,
                        fee_rate_bps: match parsed_i16(encode_utf8(e.fee_rate_bps@)) {
                            Some(f) => f,
                            None => -1i16,
                        },
                    },
                ),
            },
        },
    }
}

/// A trade message that reads yields a trade stamped with the message's
/// timestamp and outcome index, on side 0 for `BUY` and 1 for `SELL`, with its
/// own price in basis points and size when their texts read as numbers
/// (otherwise price -10 000 and size `-1.0`, bits 0xBFF0_0000_0000_0000) and
/// its fee when that reads as an `i16` (otherwise -1).
pub proof fn law_trade_fields(e: TradeEvent, ids: Seq<String>)
    ensures
        trade_outcome(e, ids) matches Ok(t) ==> {
            &&& parsed_i64(encode_utf8(e.timestamp@)) == Some(t.timestamp)
            &&& asset_position(ids, e.asset_id@) matches Some(k) && t.asset_binary == k as u8
            &&& (e.side@ == "BUY"@ && t.side == 0) || (e.side@ == "SELL"@ && t.side == 1)
            &&& t.price_bps == match price_bps_reading(encode_utf8(e.price@)) {
                Some(p) => p,
                None => -10000i16,
            }
            &&& t.size_bits == match e.size_bits {
                Some(b) => b,
                None => 0xBFF0_0000_0000_0000u64,
            }
            &&& t.fee_rate_bps == match parsed_i16(encode_utf8(e.fee_rate_bps@)) {
                Some(f) => f,
                None => -1i16,
            }
        },
{
}

/// A trade message gets as far as reading its hash: its timestamp, asset and
/// side all read.
pub open spec fn trade_reaches_hash(e: TradeEvent, ids: Seq<String>) -> bool {
    &&& timestamp_of(e.timestamp@) is Some
    &&& asset_position(ids, e.asset_id@) is Some
    &&& side_of(e.side@) is Some
}

/// An error at change `n - 1` stands for the whole reading.
proof fn lemma_changes_outcome_stops(changes: Seq<RawPriceChange>, ts: i64, ids: Seq<String>, n: int)
    requires
        1 <= n <= changes.len(),
        changes_outcome(changes.take(n), ts, ids) is Err,
    ensures
        changes_outcome(changes, ts, ids) == changes_outcome(changes.take(n), ts, ids),
    decreases changes.len(),
{
    if n < changes.len() {
        assert(changes.drop_last().take(n) =~= changes.take(n));
        lemma_changes_outcome_stops(changes.drop_last(), ts, ids, n);
    } else {
        assert(changes.take(n) =~= changes);
    }
}

/// `{:?}` of a price change message.
fn price_change_debug_string(e: &PriceChangeEvent) -> (text: String)
    ensures
        text@ == price_change_debug(*e),
{
    let mut text = String::from_str("PriceChangeEvent { timestamp: ");
    let ts = debug_string(e.timestamp.as_str());
    text.append(ts.as_str());
    text.append(", price_changes: [");
    let ghost head = text@;
    let n = e.price_changes.len();
    let mut i: usize = 0;
    while i < n
        invariant
            n == e.price_changes@.len(),
            0 <= i <= n,
            text@ == head + changes_debug(e.price_changes@.take(i as int)),
        decreases n - i,
    {
        let c = &e.price_changes[i];
        let ghost before = text@;
        if i > 0 {
            text.append(", ");
        }
        text.append("RawPriceChange { asset_id: ");
        let a = debug_string(c.asset_id.as_str());
        text.append(a.as_str());
        text.append(", price: ");
        let p = debug_string(c.price.as_str());
        text.append(p.as_str());
        text.append(", size: ");
        let z = debug_string(c.size.as_str());
        text.append(z.as_str());
        text.append(", side: ");
        let d = debug_string(c.side.as_str());
        text.append(d.as_str());
        text.append(" }");
        proof {
            let taken = e.price_changes@.take(i + 1);
            assert(taken.drop_last() =~= e.price_changes@.take(i as int));
            assert(taken.last() == e.price_changes@[i as int]);
            if i == 0 {
                assert(changes_debug(e.price_changes@.take(0)) == Seq::<char>::empty());
                assert(text@ =~= head + changes_debug(taken));
            } else {
                assert(text@ =~= head + changes_debug(taken));
            }
        }
        i = i + 1;
    }
    assert(e.price_changes@.take(n as int) =~= e.price_changes@);
    text.append("] }");
    assert(text@ =~= price_change_debug(*e));
    text
}

/// What one payload element yields: a market event, nothing (an element of
/// another event type), or an error.
pub open spec fn message_outcome(m: DecodedMessage, ids: Seq<String>) -> Result<
    Option<MarketEventView>,
    ErrorView,
> {
    match m {
        DecodedMessage::Book(e) => match book_event_outcome(e, ids) {
            Ok(levels) => Ok(Some(MarketEventView::Book(levels))),
            Err(x) => Err(x),
        },
        DecodedMessage::PriceChange(e) => match price_change_outcome(e, ids) {
            Ok(levels) => Ok(Some(MarketEventView::PriceChange(levels))),
            Err(x) => Err(x),
        },
        DecodedMessage::Trade(e) => match trade_outcome(e, ids) {
            Ok(t) => Ok(Some(MarketEventView::Trade(t))),
            Err(x) => Err(x),
        },
        DecodedMessage::Undecodable(msg) => Err(ErrorView::JsonError(msg@)),
        DecodedMessage::Unknown => Ok(None),
    }
}

/// What a payload yields: its elements' events in order, or the error of the
/// first element that fails.
pub open spec fn messages_outcome(items: Seq<DecodedMessage>, ids: Seq<String>) -> Result<
    Seq<MarketEventView>,
    ErrorView,
>
    decreases items.len(),
{
    if items.len() == 0 {
        Ok(Seq::empty())
    } else {
        match messages_outcome(items.drop_last(), ids) {
            Err(x) => Err(x),
            Ok(events) => match message_outcome(items.last(), ids) {
                Err(x) => Err(x),
                Ok(Some(ev)) => Ok(events.push(ev)),
                Ok(None) => Ok(events),
            },
        }
    }
}

/// The event one payload element yields, if it reads and has one.
pub open spec fn event_of(m: DecodedMessage, ids: Seq<String>) -> Option<MarketEventView> {
    match message_outcome(m, ids) {
        Ok(e) => e,
        Err(_) => None,
    }
}

/// The events of the elements that have one, in payload order.
pub open spec fn events_of(items: Seq<DecodedMessage>, ids: Seq<String>) -> Seq<MarketEventView> {
    items.filter_map(|m: DecodedMessage| event_of(m, ids))
}

/// A payload is read element by element across the whole of it: when every
/// element reads, it yields the events of the elements that have one, in
/// order; when an element fails and every element before it reads, it fails
/// with that element's error.
pub proof fn law_payload_read_in_order(items: Seq<DecodedMessage>, ids: Seq<String>)
    ensures
        (forall|i: int| 0 <= i < items.len() ==> #[trigger] message_outcome(items[i], ids) is Ok)
            ==> messages_outcome(items, ids) == Ok::<Seq<MarketEventView>, ErrorView>(
            events_of(items, ids),
        ),
        forall|k: int|
            #![trigger message_outcome(items[k], ids)]
            0 <= k < items.len() && message_outcome(items[k], ids) is Err && (forall|i: int|
                0 <= i < k ==> #[trigger] message_outcome(items[i], ids) is Ok) ==> messages_outcome(
                items,
                ids,
            ) == Err::<Seq<MarketEventView>, ErrorView>(message_outcome(items[k], ids)->Err_0),
    decreases items.len(),
{
    if items.len() > 0 {
        let rest = items.drop_last();
        let last = items.last();
        law_payload_read_in_order(rest, ids);
        assert forall|i: int| 0 <= i < rest.len() implies rest[i] == items[i] by {}
        if forall|i: int| 0 <= i < items.len() ==> #[trigger] message_outcome(items[i], ids) is Ok {
            assert forall|i: int| 0 <= i < rest.len() implies #[trigger] message_outcome(rest[i], ids) is Ok by {
                assert(message_outcome(items[i], ids) is Ok);
            }
            assert(message_outcome(items[items.len() - 1], ids) is Ok);
            match message_outcome(last, ids) {
                Ok(Some(ev)) => {
                    assert(events_of(rest, ids).push(ev) =~= events_of(rest, ids) + seq![ev]);
                },
                _ => {},
            }
        }
        assert forall|k: int|
            #![trigger message_outcome(items[k], ids)]
            0 <= k < items.len() && message_outcome(items[k], ids) is Err && (forall|i: int|
                0 <= i < k ==> #[trigger] message_outcome(items[i], ids) is Ok) implies messages_outcome(
            items,
            ids,
        ) == Err::<Seq<MarketEventView>, ErrorView>(message_outcome(items[k], ids)->Err_0) by {
            if k < items.len() - 1 {
                assert(rest[k] == items[k]);
                assert forall|i: int| 0 <= i < k implies #[trigger] message_outcome(rest[i], ids) is Ok by {
                    assert(message_outcome(items[i], ids) is Ok);
                }
                assert(message_outcome(rest[k], ids) is Err);
            } else {
                assert forall|i: int| 0 <= i < rest.len() implies #[trigger] message_outcome(rest[i], ids) is Ok by {
                    assert(message_outcome(items[i], ids) is Ok);
                }
            }
        }
    }
}

/// A trade element at `i` that the reading gets to with a readable timestamp,
/// asset and side has a hash text long enough to take 32 hex digits from.
pub open spec fn trade_read_safely(items: Seq<DecodedMessage>, ids: Seq<String>, i: int) -> bool {
    messages_outcome(items.take(i), ids) is Ok && items[i] is Trade ==> (trade_reaches_hash(
        items[i]->Trade_0,
        ids,
    ) ==> trade_hash_readable(items[i]->Trade_0))
}

#[verifier::opaque]
pub open spec fn read_safely_upto(items: Seq<DecodedMessage>, ids: Seq<String>, n: int) -> bool {
    forall|i: int| 0 <= i < n ==> #[trigger] trade_read_safely(items, ids, i)
}

/// Every trade element that the reading gets to with a readable timestamp,
/// asset and side has a hash text long enough to take 32 hex digits from.
pub open spec fn messages_read_safely(items: Seq<DecodedMessage>, ids: Seq<String>) -> bool {
    read_safely_upto(items, ids, items.len() as int)
}

proof fn lemma_read_safely_extend(items: Seq<DecodedMessage>, ids: Seq<String>, i: int)
    requires
        0 <= i < items.len(),
        read_safely_upto(items, ids, i),
        trade_read_safely(items, ids, i),
    ensures
        read_safely_upto(items, ids, i + 1),
{
    reveal(read_safely_upto);
}

proof fn lemma_read_safely_after_stop(items: Seq<DecodedMessage>, ids: Seq<String>, i: int)
    requires
        0 <= i < items.len(),
        read_safely_upto(items, ids, i),
        trade_read_safely(items, ids, i),
        messages_outcome(items.take(i + 1), ids) is Err,
    ensures
        messages_read_safely(items, ids),
{
    reveal(read_safely_upto);
    assert forall|j: int| 0 <= j < items.len() implies #[trigger] trade_read_safely(items, ids, j) by {
        if j > i {
            assert(items.take(j).take(i + 1) =~= items.take(i + 1));
            lemma_messages_outcome_stops(items.take(j), ids, i + 1);
        }
    }
}

proof fn lemma_read_safely_instance(items: Seq<DecodedMessage>, ids: Seq<String>, i: int)
    requires
        0 <= i < items.len(),
        messages_read_safely(items, ids),
    ensures
        trade_read_safely(items, ids, i),
{
    reveal(read_safely_upto);
}

/// An error at element `n - 1` stands for the whole payload.
proof fn lemma_messages_outcome_stops(items: Seq<DecodedMessage>, ids: Seq<String>, n: int)
    requires
        1 <= n <= items.len(),
        messages_outcome(items.take(n), ids) is Err,
    ensures
        messages_outcome(items, ids) == messages_outcome(items.take(n), ids),
    decreases items.len(),
{
    if n < items.len() {
        assert(items.drop_last().take(n) =~= items.take(n));
        lemma_messages_outcome_stops(items.drop_last(), ids, n);
    } else {
        assert(items.take(n) =~= items);
    }
}

/// Whether a price change message's changes all name a known asset and side.
fn changes_read(changes: &Vec<RawPriceChange>, ts: i64, asset_ids: &Vec<String>) -> (ok: bool)
    ensures
        ok == changes_outcome(changes@, ts, asset_ids@) is Ok,
{
    let n = changes.len();
    let mut i: usize = 0;
    while i < n
        invariant
            n == changes@.len(),
            0 <= i <= n,
            changes_outcome(changes@.take(i as int), ts, asset_ids@) is Ok,
        decreases n - i,
    {
        let c = &changes[i];
        assert(changes@.take(i + 1).drop_last() =~= changes@.take(i as int));
        assert(changes@.take(i + 1).last() == changes@[i as int]);
        let known_asset = find_asset(asset_ids, &c.asset_id).is_some();
        let known_side = Side::from_str(c.side.as_str()).is_some();
        if !known_asset || !known_side {
            proof {
                lemma_changes_outcome_stops(changes@, ts, asset_ids@, i + 1);
            }
            return false;
        }
        i = i + 1;
    }
    assert(changes@.take(n as int) =~= changes@);
    true
}

/// Whether reading `item` fails.
fn element_fails(item: &DecodedMessage, asset_ids: &Vec<String>) -> (fails: bool)
    ensures
        fails == message_outcome(*item, asset_ids@) is Err,
{
    match item {
        DecodedMessage::Book(e) => parse_i64(e.timestamp.as_str()).is_none() || find_asset(
            asset_ids,
            &e.asset_id,
        ).is_none(),
        DecodedMessage::PriceChange(e) => match parse_i64(e.timestamp.as_str()) {
            None => true,
            Some(ts) => !changes_read(&e.price_changes, ts, asset_ids),
        },
        DecodedMessage::Trade(e) => !trade_gets_to_hash(e, asset_ids),
        DecodedMessage::Undecodable(_) => true,
        DecodedMessage::Unknown => false,
    }
}

/// Whether reading a trade message gets as far as its hash.
fn trade_gets_to_hash(e: &TradeEvent, asset_ids: &Vec<String>) -> (reaches: bool)
    ensures
        reaches == trade_reaches_hash(*e, asset_ids@),
{
    parse_i64(e.timestamp.as_str()).is_some() && find_asset(asset_ids, &e.asset_id).is_some()
        && Side::from_str(e.side.as_str()).is_some()
}

/// Whether a trade message's hash text is long enough to take 32 hex digits from.
fn hash_readable(e: &TradeEvent) -> (readable: bool)
    ensures
        readable == trade_hash_readable(*e),
{
    let bytes = e.transaction_hash.as_str().as_bytes();
    let start: usize = if bytes.len() >= 2 && bytes[0] == 48 && bytes[1] == 120 {
        2
    } else {
        0
    };
    assert(hash_hex_part(bytes@) =~= bytes@.skip(start as int));
    let n = bytes.len();
    if n - start < 32 {
        return false;
    }
    if n - start == 32 {
        return true;
    }
    let b = bytes[start + 32];
    !(b >= 0x80 && b < 0xC0)
}

/// A trade message's hash text is long enough to take 32 hex digits from.
pub open spec fn trade_hash_readable(e: TradeEvent) -> bool {
    let part = hash_hex_part(encode_utf8(e.transaction_hash@));
    part.len() >= 32 && byte_char_boundary(part, 32)
}

pub open spec fn result_is<T, V>(r: Result<T, LoggerError>, view: spec_fn(T) -> V, expected: Result<V, ErrorView>) -> bool {
    match (r, expected) {
        (Ok(v), Ok(w)) => view(v) == w,
        (Err(e), Err(f)) => e@ == f,
        _ => false,
    }
}

/// The subscription request sent after connecting: the assets to follow and
/// the channel type.
#[derive(Debug)]
pub struct Subscription {
    pub assets_ids: Vec<String>,
    pub type_: String,
}

/// A message received from the websocket, by kind.
#[derive(Debug)]
pub enum IncomingMessage {
    Text(String),
    Close,
    /// Binary, ping, pong or raw frames.
    Other,
}

/// What to do with a received message.
#[derive(Debug)]
pub enum MessageStep {
    /// The server answered a keep-alive: send `PING` and report no events.
    ReplyPing,
    /// A payload to decode and read with [`WebSocketClient::parse_message`].
    Read,
    /// Nothing to report.
    Skip,
    /// The connection is over.
    Fail(LoggerError),
}

/// What to do after a connection attempt failed.
#[derive(Debug)]
pub enum RetryStep {
    /// Try again after this many seconds.
    WaitSecs(u64),
    /// Stop trying, with this error.
    GiveUp(LoggerError),
}

pub open spec fn two_pow(n: nat) -> nat
    decreases n,
{
    if n == 0 {
        1
    } else {
        2 * two_pow((n - 1) as nat)
    }
}

/// The wait after the `attempt`-th failure in a row: 2^attempt seconds, at most 60.
pub open spec fn backoff_secs(attempt: nat) -> nat {
    if two_pow(attempt) < 60 {
        two_pow(attempt)
    } else {
        60
    }
}

proof fn lemma_two_pow_at_least_64(n: nat)
    requires
        n >= 6,
    ensures
        two_pow(n) >= 64,
    decreases n,
{
    if n > 6 {
        lemma_two_pow_at_least_64((n - 1) as nat);
    } else {
        reveal_with_fuel(two_pow, 7);
    }
}

/// The wait between connection attempts never shrinks as failures accumulate
/// and never exceeds a minute.
pub proof fn law_backoff_grows_to_a_minute(a: nat, b: nat)
    requires
        a <= b,
    ensures
        1 <= backoff_secs(a) <= backoff_secs(b) <= 60,
    decreases b,
{
    lemma_two_pow_monotone(a, b);
    lemma_two_pow_positive(a);
}

/// The first wait is one second and each further failure doubles it, up to a
/// minute.
pub proof fn law_backoff_doubles(a: nat)
    ensures
        backoff_secs(0) == 1,
        backoff_secs(a + 1) == (if 2 * backoff_secs(a) < 60 {
            2 * backoff_secs(a)
        } else {
            60
        }),
{
    reveal_with_fuel(two_pow, 2);
    lemma_two_pow_positive(a);
    assert(two_pow(a + 1) == 2 * two_pow(a));
}

proof fn lemma_two_pow_positive(n: nat)
    ensures
        two_pow(n) >= 1,
    decreases n,
{
    if n > 0 {
        lemma_two_pow_positive((n - 1) as nat);
    }
}

proof fn lemma_two_pow_monotone(a: nat, b: nat)
    requires
        a <= b,
    ensures
        two_pow(a) <= two_pow(b),
    decreases b,
{
    if a < b {
        lemma_two_pow_monotone(a, (b - 1) as nat);
        lemma_two_pow_positive((b - 1) as nat);
    }
}

/// The wait after the `attempt`-th failed connection attempt in a row.
pub fn backoff_for(attempt: u32) -> (secs: u64)
    ensures
        secs == backoff_secs(attempt as nat),
{
    proof {
        reveal_with_fuel(two_pow, 7);
        if attempt >= 6 {
            lemma_two_pow_at_least_64(attempt as nat);
        }
    }
    if attempt == 0 {
        1
    } else if attempt == 1 {
        2
    } else if attempt == 2 {
        4
    } else if attempt == 3 {
        8
    } else if attempt == 4 {
        16
    } else if attempt == 5 {
        32
    } else {
        60
    }
}

/// The detail of the error given when connecting failed `max` times in a row.
pub open spec fn give_up_detail(max: u32) -> Seq<char> {
    "Max reconnect attemps ("@ + int_decimal(max as int) + ") exceeded"@
}

/// The decisions of the websocket client: which assets it follows and how
/// often it has failed to connect in a row.
pub struct WebSocketClient {
    asset_ids: Vec<String>,
    reconnect_attempts: u32,
    max_reconnect_attempts: u32,
}

impl WebSocketClient {
    pub closed spec fn spec_asset_ids(&self) -> Seq<String> {
        self.asset_ids@
    }

    pub closed spec fn spec_reconnect_attempts(&self) -> u32 {
        self.reconnect_attempts
    }

    pub closed spec fn spec_max_reconnect_attempts(&self) -> u32 {
        self.max_reconnect_attempts
    }

    /// A client for `asset_ids` that has not failed yet and gives up after 10
    /// failed connection attempts in a row.
    pub fn new(asset_ids: Vec<String>) -> (client: Self)
        ensures
            client.spec_asset_ids() == asset_ids@,
            client.spec_reconnect_attempts() == 0,
            client.spec_max_reconnect_attempts() == 10,
    {
        WebSocketClient { asset_ids, reconnect_attempts: 0, max_reconnect_attempts: 10 }
    }

    /// How many failed connection attempts in a row end the retrying.
    pub fn max_reconnect_attempts(&self) -> (n: u32)
        ensures
            n == self.spec_max_reconnect_attempts(),
    {
        self.max_reconnect_attempts
    }

    /// How many connection attempts in a row have failed.
    pub fn reconnect_attempts(&self) -> (n: u32)
        ensures
            n == self.spec_reconnect_attempts(),
    {
        self.reconnect_attempts
    }

    /// The assets the client follows.
    pub fn asset_ids(&self) -> (ids: &Vec<String>)
        ensures
            ids@ == self.spec_asset_ids(),
    {
        &self.asset_ids
    }

    /// Reads a `book` message: one level per bid (side 0), then one per ask
    /// (side 1), stamped with the message's timestamp and the index of its
    /// asset among `asset_ids`.
    pub fn parse_book_event(&self, event: BookEvent, asset_ids: &Vec<String>) -> (r: Result<
        Vec<BookLevel>,
        LoggerError,
    >)
        ensures
            result_is(r, |v: Vec<BookLevel>| v@, book_event_outcome(event, asset_ids@)),
    {
        let timestamp = match parse_i64(event.timestamp.as_str()) {
            Some(t) => t,
            None => {
                let mut detail = String::from_str(
                    "Invalid timestamp for logger::api::websocket::BookEvent timestamp: ",
                );
                let shown = debug_string(event.timestamp.as_str());
                detail.append(shown.as_str());
                return Err(LoggerError::JsonError(detail));
            },
        };
        let asset_binary = match find_asset(asset_ids, &event.asset_id) {
            Some(k) => #[verifier::truncate] (k as u8),
            None => {
                return Err(
                    LoggerError::InvalidAssetId(
                        String::from_str("Invalid asset_id for book event"),
                    ),
                );
            },
        };
        let ghost asset = asset_binary;
        let mut book: Vec<BookLevel> = Vec::new();
        let nb = event.bids.len();
        let mut i: usize = 0;
        while i < nb
            invariant
                nb == event.bids@.len(),
                asset == asset_binary,
                0 <= i <= nb,
                book@ == event.bids@.take(i as int).map_values(
                    |b: RawBookLevel| bid_level(timestamp, asset, b),
                ),
            decreases nb - i,
        {
            let bid = &event.bids[i];
            book.push(
                BookLevel {
                    timestamp,
                    asset_binary,
                    side: BookSide::Bid.to_u8(),
                    price_bps: match parse_price_bps(bid.price.as_str()) {
                        Some(p) => p,
                        None => 0,
                    },
                    size_bits: match bid.size_bits {
                        Some(s) => s,
                        None => BID_SIZE_DEFAULT,
                    },
                },
            );
            assert(book@.last() == bid_level(timestamp, asset, event.bids@[i as int]));
            assert(event.bids@.take(i + 1) =~= event.bids@.take(i as int).push(event.bids@[i as int]));
            assert(book@ =~= event.bids@.take(i + 1).map_values(
                |b: RawBookLevel| bid_level(timestamp, asset, b),
            ));
            i = i + 1;
        }
        assert(event.bids@.take(nb as int) =~= event.bids@);
        let ghost bids_part = book@;
        let na = event.asks.len();
        let mut j: usize = 0;
        while j < na
            invariant
                na == event.asks@.len(),
                asset == asset_binary,
                0 <= j <= na,
                book@ == bids_part + event.asks@.take(j as int).map_values(
                    |a: RawBookLevel| ask_level(timestamp, asset, a),
                ),
            decreases na - j,
        {
            let ask = &event.asks[j];
            book.push(
                BookLevel {
                    timestamp,
                    asset_binary,
                    side: BookSide::Ask.to_u8(),
                    price_bps: match parse_price_bps(ask.price.as_str()) {
                        Some(p) => p,
                        None => -10000,
                    },
                    size_bits: match ask.size_bits {
                        Some(s) => s,
                        None => ASK_SIZE_DEFAULT,
                    },
                },
            );
            assert(book@.last() == ask_level(timestamp, asset, event.asks@[j as int]));
            assert(event.asks@.take(j + 1) =~= event.asks@.take(j as int).push(event.asks@[j as int]));
            assert(book@ =~= bids_part + event.asks@.take(j + 1).map_values(
                |a: RawBookLevel| ask_level(timestamp, asset, a),
            ));
            j = j + 1;
        }
        assert(event.asks@.take(na as int) =~= event.asks@);
        Ok(book)
    }

    /// Reads a `price_change` message: one level per change, in order, stamped
    /// with the message's timestamp; the first change whose asset is not among
    /// `asset_ids` or whose side is neither `BUY` nor `SELL` stops the reading.
    pub fn parse_price_change_event(&self, event: PriceChangeEvent, asset_ids: &Vec<String>) -> (r:
        Result<Vec<BookLevel>, LoggerError>)
        ensures
            result_is(r, |v: Vec<BookLevel>| v@, price_change_outcome(event, asset_ids@)),
    {
        let timestamp = match parse_i64(event.timestamp.as_str()) {
            Some(t) => t,
            None => {
                let mut detail = String::from_str(
                    "Invalid timestamp for logger::api::websocket::PriceChangeEvent timestamp: ",
                );
                let shown = price_change_debug_string(&event);
                detail.append(shown.as_str());
                return Err(LoggerError::JsonError(detail));
            },
        };
        let mut changes: Vec<BookLevel> = Vec::new();
        let n = event.price_changes.len();
        let mut i: usize = 0;
        while i < n
            invariant
                n == event.price_changes@.len(),
                0 <= i <= n,
                timestamp_of(event.timestamp@) == Some(timestamp),
                changes_outcome(event.price_changes@.take(i as int), timestamp, asset_ids@) == Ok::<
                    Seq<BookLevel>,
                    ErrorView,
                >(changes@),
            decreases n - i,
        {
            let change = &event.price_changes[i];
            assert(event.price_changes@.take(i + 1).drop_last() =~= event.price_changes@.take(
                i as int,
            ));
            assert(event.price_changes@.take(i + 1).last() == event.price_changes@[i as int]);
            let asset_binary = match find_asset(asset_ids, &change.asset_id) {
                Some(k) => #[verifier::truncate] (k as u8),
                None => {
                    proof {
                        lemma_changes_outcome_stops(
                            event.price_changes@,
                            timestamp,
                            asset_ids@,
                            i + 1,
                        );
                    }
                    return Err(
                        LoggerError::InvalidAssetId(
                            String::from_str("Invalid asset_id for price change envent"),
                        ),
                    );
                },
            };
            let side = match Side::from_str(change.side.as_str()) {
                Some(s) => s,
                None => {
                    proof {
                        lemma_changes_outcome_stops(
                            event.price_changes@,
                            timestamp,
                            asset_ids@,
                            i + 1,
                        );
                    }
                    return Err(LoggerError::JsonError(String::from_str("Invalid Side")));
                },
            };
            changes.push(
                BookLevel {
                    timestamp,
                    asset_binary,
                    price_bps: match parse_price_bps(change.price.as_str()) {
                        Some(p) => p,
                        None => -10000,
                    },
                    size_bits: match change.size_bits {
                        Some(b) => b,
                        None => ASK_SIZE_DEFAULT,
                    },
                    side: side.to_u8(),
                },
            );
            i = i + 1;
        }
        assert(event.price_changes@.take(n as int) =~= event.price_changes@);
        Ok(changes)
    }

    /// Reads a `last_trade_price` message into a trade.
    pub fn parse_trade_event(&self, event: TradeEvent, asset_ids: &Vec<String>) -> (r: Result<
        Trade,
        LoggerError,
    >)
        requires
            trade_reaches_hash(event, asset_ids@) ==> trade_hash_readable(event),
        ensures
            result_is(r, |t: Trade| t, trade_outcome(event, asset_ids@)),
    {
        let timestamp = match parse_i64(event.timestamp.as_str()) {
            Some(t) => t,
            None => {
                return Err(LoggerError::JsonError(String::from_str("Invalid timestamp")));
            },
        };
        let asset_binary = match find_asset(asset_ids, &event.asset_id) {
            Some(k) => #[verifier::truncate] (k as u8),
            None => {
                return Err(
                    LoggerError::InvalidAssetId(
                        String::from_str("Invalid asset_id for trade event"),
                    ),
                );
            },
        };
        let side = match Side::from_str(event.side.as_str()) {
            Some(s) => s,
            None => {
                return Err(LoggerError::JsonError(String::from_str("Invalid side")));
            },
        };
        let transaction_hash = Trade::parse_hash_hex(event.transaction_hash.as_str());
        Ok(
            Trade {
                timestamp,
                asset_binary,
                transaction_hash,
                price_bps: match parse_price_bps(event.price.as_str()) {
                    Some(p) => p,
                    None => -10000,
                },
                size_bits: match event.size_bits {
                    Some(b) => b,
                    None => TRADE_SIZE_DEFAULT,
                },
                side: side.to_u8(),
                fee_rate_bps: match parse_i16(event.fee_rate_bps.as_str()) {
                    Some(f) => f,
                    None => -1,
                },
            },
        )
    }

    /// Reads one payload element.
    fn parse_element(&self, item: DecodedMessage, asset_ids: &Vec<String>) -> (r: Result<
        Option<MarketEvent>,
        LoggerError,
    >)
        requires
            item is Trade ==> (trade_reaches_hash(item->Trade_0, asset_ids@) ==> trade_hash_readable(
                item->Trade_0,
            )),
        ensures
            match (r, message_outcome(item, asset_ids@)) {
                (Ok(Some(ev)), Ok(Some(w))) => ev@ == w,
                (Ok(None), Ok(None)) => true,
                (Err(e), Err(f)) => e@ == f,
                _ => false,
            },
    {
        match item {
            DecodedMessage::Book(e) => match self.parse_book_event(e, asset_ids) {
                Ok(book) => Ok(Some(MarketEvent::Book(book))),
                Err(err) => Err(err),
            },
            DecodedMessage::PriceChange(e) => match self.parse_price_change_event(e, asset_ids) {
                Ok(changes) => Ok(Some(MarketEvent::PriceChange(changes))),
                Err(err) => Err(err),
            },
            DecodedMessage::Trade(e) => match self.parse_trade_event(e, asset_ids) {
                Ok(trade) => Ok(Some(MarketEvent::Trade(trade))),
                Err(err) => Err(err),
            },
            DecodedMessage::Undecodable(msg) => Err(LoggerError::JsonError(msg)),
            DecodedMessage::Unknown => Ok(None),
        }
    }

    /// Reads the elements of one websocket payload in order into market events;
    /// elements of other event types are skipped, and the first element that
    /// does not decode or read stops the reading with its error.
    pub fn parse_message(&self, items: Vec<DecodedMessage>, asset_ids: &Vec<String>) -> (r: Result<
        Vec<MarketEvent>,
        LoggerError,
    >)
        requires
            messages_read_safely(items@, asset_ids@),
        ensures
            result_is(r, |v: Vec<MarketEvent>| v@.map_values(|e: MarketEvent| e@), messages_outcome(items@, asset_ids@)),
    {
        let ghost all = items@;
        let mut events: Vec<MarketEvent> = Vec::new();
        assert(all.take(0) =~= Seq::<DecodedMessage>::empty());
        assert(events@.map_values(|e: MarketEvent| e@) =~= Seq::<MarketEventView>::empty());
        for item in it: items
            invariant
                it.seq() == all,
                messages_read_safely(all, asset_ids@),
                messages_outcome(all.take(it.index() as int), asset_ids@) == Ok::<Seq<MarketEventView>, ErrorView>(
                    events@.map_values(|e: MarketEvent| e@),
                ),
        {
            let ghost k = it.index() as int;
            let ghost taken = all.take(k + 1);
            assert(taken.drop_last() =~= all.take(k));
            assert(taken.last() == all[k]);
            proof {
                lemma_read_safely_instance(all, asset_ids@, k);
            }
            let event = match self.parse_element(item, asset_ids) {
                Ok(ev) => ev,
                Err(err) => {
                    proof {
                        lemma_messages_outcome_stops(all, asset_ids@, k + 1);
                    }
                    return Err(err);
                },
            };
            if let Some(e) = event {
                events.push(e);
            }
            assert(events@.map_values(|e: MarketEvent| e@) =~= match messages_outcome(taken, asset_ids@) {
                Ok(v) => v,
                Err(_) => Seq::empty(),
            });
        }
        assert(all.take(all.len() as int) =~= all);
        Ok(events)
    }

    /// Whether [`Self::parse_message`] can read `items` without meeting a trade
    /// whose hash text is too short to take 32 hex digits from (on such a
    /// payload the reading cannot go on).
    pub fn payload_is_readable(&self, items: &Vec<DecodedMessage>, asset_ids: &Vec<String>) -> (ok:
        bool)
        ensures
            ok == messages_read_safely(items@, asset_ids@),
    {
        let n = items.len();
        let mut i: usize = 0;
        proof {
            reveal(read_safely_upto);
        }
        while i < n
            invariant
                n == items@.len(),
                0 <= i <= n,
                messages_outcome(items@.take(i as int), asset_ids@) is Ok,
                read_safely_upto(items@, asset_ids@, i as int),
            decreases n - i,
        {
            let item = &items[i];
            assert(items@.take(i + 1).drop_last() =~= items@.take(i as int));
            assert(items@.take(i + 1).last() == items@[i as int]);
            if let DecodedMessage::Trade(e) = item {
                if trade_gets_to_hash(e, asset_ids) && !hash_readable(e) {
                    proof {
                        if messages_read_safely(items@, asset_ids@) {
                            lemma_read_safely_instance(items@, asset_ids@, i as int);
                        }
                    }
                    return false;
                }
            }
            assert(trade_read_safely(items@, asset_ids@, i as int));
            if element_fails(item, asset_ids) {
                proof {
                    lemma_read_safely_after_stop(items@, asset_ids@, i as int);
                }
                return true;
            }
            proof {
                lemma_read_safely_extend(items@, asset_ids@, i as int);
            }
            i = i + 1;
        }
        true
    }

    /// The subscription to send once connected: this client's assets on the
    /// `market` channel.
    pub fn subscription(&self) -> (sub: Subscription)
        ensures
            sub.assets_ids@ == self.spec_asset_ids(),
            sub.type_@ == "market"@,
    {
        Subscription { assets_ids: self.asset_ids.clone(), type_: String::from_str("market") }
    }

    /// A connection attempt succeeded: the run of failures is over.
    pub fn on_connected(&mut self)
        ensures
            final(self).spec_reconnect_attempts() == 0,
            final(self).spec_max_reconnect_attempts() == old(self).spec_max_reconnect_attempts(),
            final(self).spec_asset_ids() == old(self).spec_asset_ids(),
    {
        self.reconnect_attempts = 0;
    }

    /// A connection attempt failed: count it, and give up once the run of
    /// failures reaches the maximum; otherwise wait 2^failures seconds, at most 60.
    pub fn on_connect_failed(&mut self) -> (step: RetryStep)
        requires
            old(self).spec_reconnect_attempts() < u32::MAX,
        ensures
            final(self).spec_reconnect_attempts() == old(self).spec_reconnect_attempts() + 1,
            final(self).spec_max_reconnect_attempts() == old(self).spec_max_reconnect_attempts(),
            final(self).spec_asset_ids() == old(self).spec_asset_ids(),
            match step {
                RetryStep::GiveUp(e) => {
                    &&& final(self).spec_reconnect_attempts() >= old(self).spec_max_reconnect_attempts()
                    &&& e@ == ErrorView::WebsocketError(
                        give_up_detail(old(self).spec_max_reconnect_attempts()),
                    )
                },
                RetryStep::WaitSecs(secs) => {
                    &&& final(self).spec_reconnect_attempts() < old(self).spec_max_reconnect_attempts()
                    &&& secs == backoff_secs(final(self).spec_reconnect_attempts() as nat)
                },
            },
    {
        self.reconnect_attempts = self.reconnect_attempts + 1;
        if self.reconnect_attempts >= self.max_reconnect_attempts {
            let mut detail = String::from_str("Max reconnect attemps (");
            push_decimal_i64(&mut detail, self.max_reconnect_attempts as i64);
            detail.append(") exceeded");
            return RetryStep::GiveUp(LoggerError::WebsocketError(detail));
        }
        RetryStep::WaitSecs(backoff_for(self.reconnect_attempts))
    }

    /// What to do with a received message: answer `PONG` with a ping, read any
    /// other text, end on a close frame, and skip the rest.
    pub fn on_message(&self, msg: &IncomingMessage) -> (step: MessageStep)
        ensures
            match (msg, step) {
                (IncomingMessage::Text(t), MessageStep::ReplyPing) => t@ == "PONG"@,
                (IncomingMessage::Text(t), MessageStep::Read) => t@ != "PONG"@,
                (IncomingMessage::Close, MessageStep::Fail(e)) => e@ == ErrorView::WebsocketError(
                    "Connection closed"@,
                ),
                (IncomingMessage::Other, MessageStep::Skip) => true,
                _ => false,
            },
    {
        match msg {
            IncomingMessage::Text(t) => {
                if str_eq(t.as_str(), "PONG") {
                    MessageStep::ReplyPing
                } else {
                    MessageStep::Read
                }
            },
            IncomingMessage::Close => MessageStep::Fail(
                LoggerError::WebsocketError(String::from_str("Connection closed")),
            ),
            IncomingMessage::Other => MessageStep::Skip,
        }
    }
}

} // verus!
