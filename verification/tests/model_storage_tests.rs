use logger::api::gamma::{check_market_status, market_url, GAMMA_API_BASE};
use logger::api::websocket::{BookEvent, MarketEvent, RawBookLevel, WebSocketClient};
use logger::error::LoggerError;
use logger::models::activity::{ActivityType, UserActivity};
use logger::models::events::{BookLevel, BookSide, Side, Trade};
use logger::models::market::{MarketInfo, MarketMetadata};
use logger::numeric::{parse_i16, parse_i64, parse_price_bps};
use logger::storage::manager::{Coin, MarketInterval, SessionManager};
use logger::storage::parquet::RowBuffer;
use logger::storage::session::{rows_of_events, SessionAction, SessionEvent, SessionProgress, SessionRetries};
use logger::text::i64_to_decimal;

fn level(ts: i64) -> BookLevel {
    BookLevel { timestamp: ts, asset_binary: 0, side: 1, price_bps: 100, size_bits: 7 }
}

#[test]
fn side_codes() {
    assert_eq!(Side::from_str("BUY"), Some(Side::Buy));
    assert_eq!(Side::from_str("SELL"), Some(Side::Sell));
    assert_eq!(Side::from_str("buy"), None);
    assert_eq!(Side::Buy.to_u8(), 0);
    assert_eq!(Side::Sell.to_u8(), 1);
    assert_eq!(BookSide::Bid.to_u8(), 0);
    assert_eq!(BookSide::Ask.to_u8(), 1);
}

#[test]
fn activity_type_codes() {
    assert_eq!(ActivityType::from_str("TRADE"), Some(ActivityType::Trade));
    assert_eq!(ActivityType::from_str("REDEEM"), None);
    assert_eq!(ActivityType::Trade.to_u8(), 0);
}

fn activity(kind: &str, side: &str) -> UserActivity {
    UserActivity {
        timestamp: 99,
        proxy_wallet: "0xw".to_string(),
        condition_id: "0xc".to_string(),
        type_: kind.to_string(),
        size_bits: 1,
        usdc_size_bits: 2,
        transaction_hash: "0xt".to_string(),
        price_bits: 3,
        asset: "a".to_string(),
        side: side.to_string(),
        outcome_index: 1,
        title: "t".to_string(),
        event_slug: "e".to_string(),
        outcome: "Up".to_string(),
    }
}

#[test]
fn activity_record_codes_type_and_side() {
    let r = activity("TRADE", "SELL").to_record().unwrap();
    assert_eq!(r.type_, 0);
    assert_eq!(r.side, 1);
    assert_eq!(r.timestamp, 99);
    assert_eq!(r.outcome, "Up");
    assert_eq!(activity("TRADE", "BUY").to_record().unwrap().side, 0);
    assert_eq!(activity("TRADE", "?").to_record().unwrap().side, 255);
    assert!(activity("SPLIT", "BUY").to_record().is_none());
}

#[test]
fn metadata_keeps_market_fields() {
    let info = MarketInfo {
        id: "7".to_string(),
        slug: "s".to_string(),
        clob_token_ids: vec!["a".to_string(), "b".to_string()],
        outcomes: vec!["Up".to_string(), "Down".to_string()],
        accepting_orders_timestamp: "2025".to_string(),
        accepting_orders: true,
    };
    let m = MarketMetadata::from_market_info(info);
    assert_eq!(m.market_id, "7");
    assert_eq!(m.slug, "s");
    assert_eq!(m.asset_id_mapping, vec!["a", "b"]);
    assert_eq!(m.outcome_label_mapping, vec!["Up", "Down"]);
}

#[test]
fn hash_hex_prefix() {
    let full = "0x1234567890abcdefABCDEF1234567890ffffffffffffffffffffffffffffffff";
    assert_eq!(Trade::parse_hash_hex(full), 0x1234567890abcdefabcdef1234567890);
    assert_eq!(Trade::parse_hash_hex(&full[2..]), 0x1234567890abcdefabcdef1234567890);
    assert_eq!(Trade::parse_hash_hex("0xzz34567890abcdefABCDEF1234567890"), 0);
    assert_eq!(Trade::parse_hash_hex("+1234567890abcdefABCDEF1234567890"), 0x1234567890abcdefabcdef123456789);
}

#[test]
fn integer_parsing_matches_std() {
    for s in ["0", "-0", "+17", "-9223372036854775808", "9223372036854775807", "9223372036854775808",
              "", "-", "+", "1_0", " 1", "0001", "-00000000000000000000009", "99999999999999999999999"] {
        assert_eq!(parse_i64(s), s.parse::<i64>().ok(), "{}", s);
        assert_eq!(parse_i16(s), s.parse::<i16>().ok(), "{}", s);
    }
    assert_eq!(parse_i16("32767"), Some(32767));
    assert_eq!(parse_i16("-32769"), None);
}

#[test]
fn decimal_rendering_reads_back() {
    for x in [0i64, 7, -7, 1769490000, i64::MIN, i64::MAX] {
        let text = i64_to_decimal(x);
        assert_eq!(text, x.to_string());
        assert_eq!(parse_i64(&text), Some(x));
    }
}

#[test]
fn error_messages() {
    assert_eq!(LoggerError::WebsocketError("x".to_string()).message(), "Websocket Error: x");
    assert_eq!(LoggerError::Config("c".to_string()).message(), "Parquet Config Error: c");
    assert_eq!(LoggerError::MarketNotFound("m".to_string()).message(), "Market not found: m");
}

#[test]
fn gamma_url_and_status() {
    assert_eq!(
        market_url(GAMMA_API_BASE, "btc-updown-15m-1"),
        "https://gamma-api.polymarket.com/markets/slug/btc-updown-15m-1"
    );
    assert!(check_market_status("s", true).is_ok());
    assert_eq!(check_market_status("s", false), Err(LoggerError::MarketNotFound("s".to_string())));
}

#[test]
fn coin_and_interval_names() {
    let coins: Vec<&str> = Coin::all().iter().map(|c| c.as_str_short()).collect();
    assert_eq!(coins, vec!["btc", "eth", "sol", "xrp"]);
    let longs: Vec<&str> = Coin::all().iter().map(|c| c.as_str_long()).collect();
    assert_eq!(longs, vec!["bitcoin", "ethereum", "solana", "xrp"]);
    let secs: Vec<i64> = MarketInterval::all().iter().map(|i| i.interval_secs()).collect();
    assert_eq!(secs, vec![900, 3600, 14400]);
    let mins: Vec<i64> = MarketInterval::all().iter().map(|i| i.interval_mins()).collect();
    assert_eq!(mins, vec![15, 60, 240]);
    let durations: Vec<u64> = MarketInterval::all().iter().map(|i| i.duration_secs()).collect();
    assert_eq!(durations, vec![960, 3600, 14400]);
}

#[test]
fn slugs_per_interval() {
    assert_eq!(
        SessionManager::generate_slug(&Coin::Bitcoin, &MarketInterval::FifteenMin, 1706313600),
        "btc-updown-15m-1706313600"
    );
    assert_eq!(
        SessionManager::generate_slug(&Coin::Solana, &MarketInterval::FourHour, 1769486400),
        "sol-updown-4h-1769490000"
    );
    assert_eq!(
        SessionManager::generate_slug(&Coin::Bitcoin, &MarketInterval::Hour, 1737954000),
        "bitcoin-up-or-down-january-27-12am-et"
    );
    assert_eq!(
        SessionManager::generate_slug(&Coin::Ethereum, &MarketInterval::Hour, 1751652000),
        "ethereum-up-or-down-july-04-2pm-et"
    );
}

#[test]
fn alignment_rounds_toward_zero() {
    assert_eq!(SessionManager::aligned_start(1706314000, &MarketInterval::FifteenMin), 1706313600);
    assert_eq!(SessionManager::next_aligned_after(1706314000, &MarketInterval::FifteenMin), Some(1706314500));
    assert_eq!(SessionManager::aligned_start(-1, &MarketInterval::Hour), 0);
    assert_eq!(SessionManager::aligned_start(-3601, &MarketInterval::Hour), -3600);
    assert_eq!(SessionManager::next_aligned_after(8_210_266_876_799, &MarketInterval::Hour), None);
    let next = SessionManager::next_aligned_time(&MarketInterval::Hour).unwrap();
    assert_eq!(next % 3600, 0);
    let start = SessionManager::scheduler_start(1706314000, &MarketInterval::FourHour).unwrap();
    assert_eq!(start.current_start, 1706313600 - 1706313600 % 14400);
    assert_eq!(start.next_start, start.current_start + 14400);
    assert_eq!(start.secs_until_next as i64, start.next_start - 1706314000);
}

#[test]
fn session_plan_places_files() {
    let m = SessionManager::new("./market_data".to_string());
    let plan = m.session_plan(&Coin::XRP, &MarketInterval::Hour, 1737954000);
    assert_eq!(plan.slug, "xrp-up-or-down-january-27-12am-et");
    assert_eq!(plan.dir_parts, vec!["./market_data", "xrp", "hour", "1737954000"]);
    assert_eq!(plan.duration_secs, 3600);
}

#[test]
fn twelve_scheduler_pairs() {
    let pairs = SessionManager::scheduler_pairs();
    assert_eq!(pairs.len(), 12);
    assert_eq!(pairs[0], (Coin::Bitcoin, MarketInterval::FifteenMin));
    assert_eq!(pairs[5], (Coin::Ethereum, MarketInterval::FourHour));
    assert_eq!(pairs[11], (Coin::XRP, MarketInterval::FourHour));
}

#[test]
fn row_buffer_batches_and_keeps_order() {
    let mut buf = RowBuffer::new(2);
    assert!(!buf.has_pending());
    assert!(!buf.add_row(level(1)));
    assert!(buf.add_row(level(2)));
    let cols = buf.columns();
    assert_eq!(cols.timestamps, vec![1, 2]);
    assert_eq!(cols.sides, vec![1, 1]);
    assert_eq!(cols.price_bps, vec![100, 100]);
    assert_eq!(cols.size_bits, vec![7, 7]);
    assert_eq!(cols.asset_ids, vec![0, 0]);
    buf.mark_flushed();
    assert!(!buf.has_pending());
    assert_eq!(buf.rows_written(), 2);
    assert!(!buf.add_row(level(3)));
    assert_eq!(buf.columns().timestamps, vec![3]);
}

#[test]
fn session_rows_skip_trades() {
    let c = WebSocketClient::new(vec!["a".to_string()]);
    let book = c
        .parse_book_event(
            BookEvent {
                asset_id: "a".to_string(),
                market: String::new(),
                bids: vec![RawBookLevel { price: "0.0001".to_string(), size_bits: Some(1) }],
                asks: vec![],
                timestamp: "5".to_string(),
                hash: String::new(),
            },
            &vec!["a".to_string()],
        )
        .unwrap();
    let trade = Trade {
        timestamp: 5,
        asset_binary: 0,
        transaction_hash: 0,
        price_bps: 1,
        size_bits: 1,
        side: 0,
        fee_rate_bps: 0,
    };
    let rows = rows_of_events(vec![
        MarketEvent::Book(book.clone()),
        MarketEvent::Trade(trade),
        MarketEvent::PriceChange(vec![level(6), level(7)]),
    ]);
    assert_eq!(rows.len(), 3);
    assert_eq!(rows[0], book[0]);
    assert_eq!(rows[2].timestamp, 7);
}

#[test]
fn session_gives_up_at_max_retries() {
    let mut r = SessionRetries::new(3);
    assert!(!r.on_failure());
    assert!(!r.on_failure());
    assert!(r.on_failure());
    assert_eq!(r.retry_count(), 3);
}

#[test]
fn price_text_scales_exactly_to_basis_points() {
    assert_eq!(parse_price_bps("0.57"), Some(5700));
    assert_eq!(parse_price_bps("0.29"), Some(2900));
    assert_eq!(parse_price_bps("1"), Some(10000));
    assert_eq!(parse_price_bps("00.5"), Some(5000));
    assert_eq!(parse_price_bps("-0.5"), Some(-5000));
    assert_eq!(parse_price_bps("+.25"), Some(2500));
    assert_eq!(parse_price_bps(".001"), Some(10));
    assert_eq!(parse_price_bps("0.12349"), Some(1234));
    assert_eq!(parse_price_bps("-0.12349"), Some(-1234));
    assert_eq!(parse_price_bps("3.2767"), Some(32767));
}

#[test]
fn price_text_saturates_at_i16_range() {
    assert_eq!(parse_price_bps("3.2768"), Some(32767));
    assert_eq!(parse_price_bps("5."), Some(32767));
    assert_eq!(parse_price_bps("99999999999999999999999"), Some(32767));
    assert_eq!(parse_price_bps("-3.2768"), Some(-32768));
    assert_eq!(parse_price_bps("-3.2769"), Some(-32768));
    assert_eq!(parse_price_bps("-4"), Some(-32768));
}

#[test]
fn price_text_that_is_no_number() {
    assert_eq!(parse_price_bps(""), None);
    assert_eq!(parse_price_bps("."), None);
    assert_eq!(parse_price_bps("-"), None);
    assert_eq!(parse_price_bps("+."), None);
    assert_eq!(parse_price_bps("abc"), None);
    assert_eq!(parse_price_bps("0.5x"), None);
    assert_eq!(parse_price_bps("1.2.3"), None);
    assert_eq!(parse_price_bps(" 1"), None);
}

#[test]
fn scheduler_wakes_at_interval_boundaries() {
    assert_eq!(SessionManager::next_wake(1706314000, &MarketInterval::FifteenMin), Some((1706314500, 500)));
    assert_eq!(SessionManager::next_wake(1706314500, &MarketInterval::FifteenMin), Some((1706315400, 900)));
    assert_eq!(SessionManager::next_wake(1706313600, &MarketInterval::Hour), Some((1706317200, 3600)));
    assert_eq!(SessionManager::next_wake(1706314000, &MarketInterval::FourHour), Some((1706328000, 14000)));
    assert_eq!(SessionManager::next_wake(8_210_266_876_799, &MarketInterval::Hour), None);
    let mut at = 1706314000;
    for _ in 0..5 {
        let (next, wait) = SessionManager::next_wake(at, &MarketInterval::FifteenMin).unwrap();
        assert_eq!(next % 900, 0);
        assert!(wait > 0 && wait <= 900);
        at = next;
    }
}

#[test]
fn session_progress_counts_rows_and_reconnects() {
    let mut p = SessionProgress::new();
    assert_eq!((p.events_processed(), p.reconnects()), (0, 0));
    let events = vec![
        MarketEvent::Book(vec![level(1), level(2)]),
        MarketEvent::Trade(Trade {
            timestamp: 1,
            asset_binary: 0,
            transaction_hash: 0,
            price_bps: 1,
            size_bits: 1,
            side: 0,
            fee_rate_bps: 0,
        }),
        MarketEvent::PriceChange(vec![level(3)]),
    ];
    let ev = SessionEvent::Events(events);
    assert!(p.can_take(&ev));
    match p.step(ev) {
        SessionAction::Write(rows) => assert_eq!(rows, vec![level(1), level(2), level(3)]),
        other => panic!("unexpected {:?}", other),
    }
    assert!(matches!(p.step(SessionEvent::Nothing), SessionAction::Continue));
    assert!(matches!(p.step(SessionEvent::FeedFailed), SessionAction::Reconnect));
    match p.step(SessionEvent::Events(vec![MarketEvent::Book(vec![level(4)])])) {
        SessionAction::Write(rows) => assert_eq!(rows, vec![level(4)]),
        other => panic!("unexpected {:?}", other),
    }
    assert!(matches!(p.step(SessionEvent::TimeUp), SessionAction::Stop));
    assert_eq!(p.events_processed(), 4);
    assert_eq!(p.reconnects(), 1);
}

#[test]
fn next_boundary_from_clock_reading() {
    assert_eq!(SessionManager::next_aligned_from_clock_secs(1706314000, &MarketInterval::FifteenMin), Some(1706314500));
    assert_eq!(SessionManager::next_aligned_from_clock_secs(0, &MarketInterval::Hour), Some(3600));
    assert_eq!(SessionManager::next_aligned_from_clock_secs(8_210_266_876_799, &MarketInterval::Hour), None);
    assert_eq!(SessionManager::next_aligned_from_clock_secs(8_210_266_876_800, &MarketInterval::FifteenMin), None);
    assert_eq!(SessionManager::next_aligned_from_clock_secs(u64::MAX, &MarketInterval::FifteenMin), None);
}

#[test]
fn price_text_in_float_syntax() {
    assert_eq!(parse_price_bps("5e-1"), Some(5000));
    assert_eq!(parse_price_bps("1E-4"), Some(1));
    assert_eq!(parse_price_bps("12345e-4"), Some(12345));
    assert_eq!(parse_price_bps("0.00001e4"), Some(1000));
    assert_eq!(parse_price_bps("5.e-1"), Some(5000));
    assert_eq!(parse_price_bps(".5e1"), Some(32767));
    assert_eq!(parse_price_bps("1e+2"), Some(32767));
    assert_eq!(parse_price_bps("-1e3"), Some(-32768));
    assert_eq!(parse_price_bps("0e999999999999999999999"), Some(0));
    assert_eq!(parse_price_bps("1e-99999999999999999999"), Some(0));
    assert_eq!(parse_price_bps("7e99999999999999999999"), Some(32767));
    assert_eq!(parse_price_bps("inf"), Some(32767));
    assert_eq!(parse_price_bps("-Infinity"), Some(-32768));
    assert_eq!(parse_price_bps("+INF"), Some(32767));
    assert_eq!(parse_price_bps("NaN"), Some(0));
    assert_eq!(parse_price_bps("-nan"), Some(0));
    assert_eq!(parse_price_bps("1e"), None);
    assert_eq!(parse_price_bps("e5"), None);
    assert_eq!(parse_price_bps("1e5.0"), None);
    assert_eq!(parse_price_bps("infinit"), None);
}
