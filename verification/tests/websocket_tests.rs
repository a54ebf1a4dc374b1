use logger::api::websocket::{
    backoff_for, classify_event_type, EventKind, BookEvent, DecodedMessage, IncomingMessage, MarketEvent, MessageStep,
    PriceChangeEvent, RawBookLevel, RawPriceChange, RetryStep, TradeEvent, WebSocketClient,
};
use logger::error::LoggerError;
use logger::models::events::BookLevel;

fn ids() -> Vec<String> {
    vec!["111".to_string(), "222".to_string()]
}

fn client() -> WebSocketClient {
    WebSocketClient::new(ids())
}

fn book(asset: &str, ts: &str) -> BookEvent {
    BookEvent {
        asset_id: asset.to_string(),
        market: "0xmarket".to_string(),
        bids: vec![
            RawBookLevel { price: "0.45".to_string(), size_bits: Some(0x4120_0000) },
            RawBookLevel { price: "x".to_string(), size_bits: None },
        ],
        asks: vec![RawBookLevel { price: String::new(), size_bits: None }],
        timestamp: ts.to_string(),
        hash: "h".to_string(),
    }
}

fn change(asset: &str, side: &str) -> RawPriceChange {
    RawPriceChange {
        asset_id: asset.to_string(),
        price: "0.5".to_string(),
        size: "x".to_string(),
        side: side.to_string(),
        size_bits: None,
    }
}

fn trade(ts: &str, side: &str, hash: &str) -> TradeEvent {
    TradeEvent {
        timestamp: ts.to_string(),
        asset_id: "222".to_string(),
        transaction_hash: hash.to_string(),
        price: "0.65".to_string(),
        size_bits: None,
        side: side.to_string(),
        fee_rate_bps: "12".to_string(),
    }
}

const HASH: &str = "0x00000000000000000000000000000abcffffffffffffffffffffffffffffffff";

#[test]
fn book_event_levels_bids_then_asks_with_defaults() {
    let levels = client().parse_book_event(book("222", "1700000000"), &ids()).unwrap();
    assert_eq!(
        levels,
        vec![
            BookLevel { timestamp: 1700000000, asset_binary: 1, side: 0, price_bps: 4500, size_bits: 0x4120_0000 },
            BookLevel { timestamp: 1700000000, asset_binary: 1, side: 0, price_bps: 0, size_bits: 0 },
            BookLevel { timestamp: 1700000000, asset_binary: 1, side: 1, price_bps: -10000, size_bits: 0xBF80_0000 },
        ]
    );
}

#[test]
fn book_event_bad_timestamp_is_json_error() {
    let err = client().parse_book_event(book("111", "12a"), &ids()).unwrap_err();
    assert_eq!(
        err,
        LoggerError::JsonError(
            "Invalid timestamp for logger::api::websocket::BookEvent timestamp: \"12a\"".to_string()
        )
    );
}

#[test]
fn book_event_unknown_asset_is_invalid_asset_id() {
    let err = client().parse_book_event(book("333", "1"), &ids()).unwrap_err();
    assert_eq!(err, LoggerError::InvalidAssetId("Invalid asset_id for book event".to_string()));
}

#[test]
fn price_change_levels_in_order() {
    let ev = PriceChangeEvent {
        timestamp: "-5".to_string(),
        price_changes: vec![change("111", "BUY"), change("222", "SELL")],
    };
    let levels = client().parse_price_change_event(ev, &ids()).unwrap();
    assert_eq!(levels.len(), 2);
    assert_eq!(levels[0], BookLevel { timestamp: -5, asset_binary: 0, side: 0, price_bps: 5000, size_bits: 0xBF80_0000 });
    assert_eq!(levels[1].asset_binary, 1);
    assert_eq!(levels[1].side, 1);
}

#[test]
fn price_change_bad_side_and_asset() {
    let ev = PriceChangeEvent { timestamp: "1".to_string(), price_changes: vec![change("111", "HOLD")] };
    assert_eq!(
        client().parse_price_change_event(ev, &ids()).unwrap_err(),
        LoggerError::JsonError("Invalid Side".to_string())
    );
    let ev = PriceChangeEvent { timestamp: "1".to_string(), price_changes: vec![change("9", "BUY")] };
    assert_eq!(
        client().parse_price_change_event(ev, &ids()).unwrap_err(),
        LoggerError::InvalidAssetId("Invalid asset_id for price change envent".to_string())
    );
}

#[test]
fn price_change_bad_timestamp_shows_the_event() {
    let ev = PriceChangeEvent { timestamp: "t".to_string(), price_changes: vec![change("111", "BUY")] };
    let err = client().parse_price_change_event(ev, &ids()).unwrap_err();
    assert_eq!(
        err,
        LoggerError::JsonError(
            "Invalid timestamp for logger::api::websocket::PriceChangeEvent timestamp: \
             PriceChangeEvent { timestamp: \"t\", price_changes: [RawPriceChange { asset_id: \"111\", \
             price: \"0.5\", size: \"x\", side: \"BUY\" }] }"
                .to_string()
        )
    );
}

#[test]
fn trade_event_reads_hash_and_fee() {
    let t = client().parse_trade_event(trade("42", "SELL", HASH), &ids()).unwrap();
    assert_eq!(t.timestamp, 42);
    assert_eq!(t.asset_binary, 1);
    assert_eq!(t.side, 1);
    assert_eq!(t.price_bps, 6500);
    assert_eq!(t.size_bits, 0xBFF0_0000_0000_0000);
    assert_eq!(t.fee_rate_bps, 12);
    assert_eq!(t.transaction_hash, 0xabc);
}

#[test]
fn trade_event_errors() {
    assert_eq!(
        client().parse_trade_event(trade("x", "SELL", HASH), &ids()).unwrap_err(),
        LoggerError::JsonError("Invalid timestamp".to_string())
    );
    assert_eq!(
        client().parse_trade_event(trade("1", "sell", HASH), &ids()).unwrap_err(),
        LoggerError::JsonError("Invalid side".to_string())
    );
    let mut t = trade("1", "BUY", HASH);
    t.asset_id = "0".to_string();
    assert_eq!(
        client().parse_trade_event(t, &ids()).unwrap_err(),
        LoggerError::InvalidAssetId("Invalid asset_id for trade event".to_string())
    );
}

#[test]
fn trade_fee_out_of_range_defaults() {
    let mut t = trade("1", "BUY", HASH);
    t.fee_rate_bps = "40000".to_string();
    assert_eq!(client().parse_trade_event(t, &ids()).unwrap().fee_rate_bps, -1);
}

#[test]
fn message_skips_unknown_and_keeps_order() {
    let items = vec![
        DecodedMessage::Unknown,
        DecodedMessage::Trade(trade("3", "BUY", HASH)),
        DecodedMessage::Book(book("111", "4")),
    ];
    let c = client();
    assert!(c.payload_is_readable(&items, &ids()));
    let events = c.parse_message(items, &ids()).unwrap();
    assert_eq!(events.len(), 2);
    assert!(matches!(events[0], MarketEvent::Trade(_)));
    assert!(matches!(events[1], MarketEvent::Book(ref l) if l.len() == 3));
}

#[test]
fn message_stops_at_first_error() {
    let items = vec![
        DecodedMessage::Book(book("999", "4")),
        DecodedMessage::Undecodable("missing field `asks`".to_string()),
    ];
    let err = client().parse_message(items, &ids()).unwrap_err();
    assert_eq!(err, LoggerError::InvalidAssetId("Invalid asset_id for book event".to_string()));
    let items = vec![DecodedMessage::Undecodable("missing field `asks`".to_string())];
    assert_eq!(
        client().parse_message(items, &ids()).unwrap_err(),
        LoggerError::JsonError("missing field `asks`".to_string())
    );
}

#[test]
fn short_hash_after_error_is_readable_but_not_before() {
    let c = client();
    let bad_hash = vec![DecodedMessage::Trade(trade("1", "BUY", "0x12"))];
    assert!(!c.payload_is_readable(&bad_hash, &ids()));
    let guarded = vec![
        DecodedMessage::Undecodable("x".to_string()),
        DecodedMessage::Trade(trade("1", "BUY", "0x12")),
    ];
    assert!(c.payload_is_readable(&guarded, &ids()));
    let unreached = vec![DecodedMessage::Trade(trade("bad", "BUY", "0x12"))];
    assert!(c.payload_is_readable(&unreached, &ids()));
}

#[test]
fn pong_is_answered_close_fails_other_skipped() {
    let c = client();
    assert!(matches!(c.on_message(&IncomingMessage::Text("PONG".to_string())), MessageStep::ReplyPing));
    assert!(matches!(c.on_message(&IncomingMessage::Text("[]".to_string())), MessageStep::Read));
    match c.on_message(&IncomingMessage::Close) {
        MessageStep::Fail(e) => assert_eq!(e, LoggerError::WebsocketError("Connection closed".to_string())),
        _ => panic!("close must fail"),
    }
    assert!(matches!(c.on_message(&IncomingMessage::Other), MessageStep::Skip));
}

#[test]
fn reconnect_backs_off_then_gives_up_after_ten() {
    let mut c = client();
    let mut waits = Vec::new();
    loop {
        match c.on_connect_failed() {
            RetryStep::WaitSecs(s) => waits.push(s),
            RetryStep::GiveUp(e) => {
                assert_eq!(e, LoggerError::WebsocketError("Max reconnect attemps (10) exceeded".to_string()));
                break;
            }
        }
    }
    assert_eq!(waits, vec![2, 4, 8, 16, 32, 60, 60, 60, 60]);
}

#[test]
fn success_resets_the_failure_run() {
    let mut c = client();
    for _ in 0..5 {
        let _ = c.on_connect_failed();
    }
    c.on_connected();
    assert!(matches!(c.on_connect_failed(), RetryStep::WaitSecs(2)));
}

#[test]
fn backoff_values() {
    assert_eq!(backoff_for(0), 1);
    assert_eq!(backoff_for(5), 32);
    assert_eq!(backoff_for(6), 60);
    assert_eq!(backoff_for(u32::MAX), 60);
}

#[test]
fn subscription_lists_assets_on_market_channel() {
    let s = client().subscription();
    assert_eq!(s.assets_ids, ids());
    assert_eq!(s.type_, "market");
    assert_eq!(client().asset_ids(), &ids());
}

#[test]
fn event_types_read_and_skipped() {
    assert_eq!(classify_event_type(Some("book")), EventKind::Book);
    assert_eq!(classify_event_type(Some("price_change")), EventKind::PriceChange);
    assert_eq!(classify_event_type(Some("last_trade_price")), EventKind::Trade);
    assert_eq!(classify_event_type(Some("tick_size_change")), EventKind::Unknown);
    assert_eq!(classify_event_type(None), EventKind::Unknown);
}
