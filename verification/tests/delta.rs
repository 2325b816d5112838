//! Delta: products, subscriptions, ticks and latest prices.
use dhancred_trading_app::adapters::delta::historical::{
    delta_resolution, history_request, read_history,
};
use dhancred_trading_app::adapters::delta::latest_price_file::DeltaLatestPriceFile;
use dhancred_trading_app::adapters::delta::live::{
    ignored_lines, parse_delta_text_message, read_delta_text_message, DeltaSubscriptions, Reading,
};
use dhancred_trading_app::adapters::delta::product_master::{
    delta_instrument_active_at, resolve_delta_spot_references, take_page,
    yyyy_mm_dd_to_epoch_day, DeltaProduct, DeltaSpotIndex, DeltaSpotReference, ProductsPage,
    DELTA_OPTION_SETTLEMENT_UTC_SECONDS,
};
use dhancred_trading_app::adapters::delta::runtime::{DeltaLive, TickStep};
use dhancred_trading_app::adapters::candle_rows::{HistoryReply, HistoryRow};
use dhancred_trading_app::adapters::universe::{StrikeWindow, UniverseSummary};
use dhancred_trading_app::binary64::{Decimal, Numbers, Real};
use dhancred_trading_app::feeder::catalog::{InstrumentDefinition, InstrumentType};
use dhancred_trading_app::feeder::event::{InstrumentName, PriceEvent, Timeframe};
use dhancred_trading_app::feeder::universe::RefreshDecision;
use dhancred_trading_app::order::TextMap;

const DAY_SECONDS: u64 = 86_400;

fn bits_of(value: f64) -> Real {
    Real { bits: value.to_bits() }
}

fn decimal(value: f64) -> Decimal {
    Decimal { value: bits_of(value), text: value.to_string() }
}

fn told(value: f64) -> Decimal {
    Decimal { value: bits_of(value), text: format!("{value:.4}") }
}

fn numbers(texts: &[&str]) -> Numbers {
    let mut numbers: Numbers = TextMap::new();
    for text in texts {
        numbers.insert(text.to_string(), decimal(text.parse().expect("number")));
    }
    numbers
}

fn parse(message: &str, texts: &[&str]) -> Option<PriceEvent> {
    parse_delta_text_message(message, &numbers(texts), 1_775_800_000_000_000).expect("message")
}

fn value_of(event: &PriceEvent) -> f64 {
    f64::from_bits(event.price().value().bits)
}

fn test_instrument(
    symbol: &str,
    instrument_type: InstrumentType,
    strike: Option<f64>,
    expiry: Option<&str>,
) -> InstrumentDefinition {
    InstrumentDefinition {
        instrument_name: InstrumentName::new(symbol),
        instrument_type,
        strike: strike.map(decimal),
        expiry: expiry.map(str::to_string),
        broker: "DELTA".to_string(),
        instrument_token: symbol.to_string(),
        trading_symbol: symbol.to_string(),
        exchange: "DELTA".to_string(),
        segment: instrument_type.segment().to_string(),
        underlying: "BTC".to_string(),
        lot_size: decimal(1.0),
        tick_size: decimal(0.1),
        tradable: true,
    }
}

fn test_summary() -> UniverseSummary {
    UniverseSummary {
        selected_underlying: "BTC".to_string(),
        reference_symbol: ".DEXBTUSD".to_string(),
        reference_price: bits_of(72_520.0),
        spot_or_index_symbols: vec![".DEXBTUSD".to_string()],
        futures: vec![test_instrument("BTCUSD", InstrumentType::PerpFut, None, None)],
        atm_options: vec![
            test_instrument(
                "C-BTC-73000-120426",
                InstrumentType::Call,
                Some(73_000.0),
                Some("2026-04-12"),
            ),
            test_instrument(
                "C-BTC-72500-120426",
                InstrumentType::Call,
                Some(72_500.0),
                Some("2026-04-12"),
            ),
            test_instrument(
                "P-BTC-72500-120426",
                InstrumentType::Put,
                Some(72_500.0),
                Some("2026-04-12"),
            ),
        ],
    }
}

#[test]
fn writes_exactly_four_latest_price_lines() {
    let mut file = DeltaLatestPriceFile::new("BTC");
    let mut distances: TextMap<Real> = TextMap::new();
    distances.insert("73000".to_string(), bits_of(480.0));
    distances.insert("72500".to_string(), bits_of(20.0));
    let window = StrikeWindow { lower: bits_of(70_000.0), upper: bits_of(75_000.0), distances };
    let mut four_places: TextMap<String> = TextMap::new();
    four_places.insert("73000".to_string(), "73000.0000".to_string());
    four_places.insert("72500".to_string(), "72500.0000".to_string());

    file.set_spot_symbol(".DEXBTUSD");
    file.update_targets_from_summary(&test_summary(), &window, &four_places);
    file.update_tick(".DEXBTUSD", &told(72_500.25));
    file.update_tick("BTCUSD", &told(72_505.75));
    file.update_tick("C-BTC-72500-120426", &told(120.5));
    file.update_tick("P-BTC-72500-120426", &told(101.25));

    assert_eq!(
        file.content(),
        "BTC Spot: 72500.2500\nBTC Perp FUT: 72505.7500\nBTC ATM CALL: 72500 -> 120.5000\nBTC ATM PUT: 72500 -> 101.2500\n"
    );
}

#[test]
fn parses_compact_delta_trade_into_price_tick() {
    let message = r#"{
        "p": "72141.5",
        "r": "m",
        "s": 1.0,
        "sy": "BTCUSD",
        "t": 1775800366578410,
        "ts": 1775800367003029,
        "type": "trades"
    }"#;

    let event = parse(message, &["72141.5"]).unwrap();

    assert!(matches!(event, PriceEvent::Tick(_)));
    assert_eq!(event.instrument_name(), &InstrumentName::new("BTCUSD"));
    assert_eq!(value_of(&event), 72_141.5);
}

#[test]
fn parses_v2_ticker_into_price_tick() {
    let message = r#"{
        "close": 71810.0,
        "mark_price": "71805.1",
        "symbol": "BTCUSD",
        "timestamp": 1775800366578410,
        "type": "v2/ticker"
    }"#;

    let event = parse(message, &["71805.1"]).unwrap();

    assert!(matches!(event, PriceEvent::Tick(_)));
    assert_eq!(event.instrument_name(), &InstrumentName::new("BTCUSD"));
    assert_eq!(value_of(&event), 71_810.0);
}

#[test]
fn parses_v2_ticker_mark_price_fallback_into_price_tick() {
    let message = r#"{
        "mark_price": "294.0",
        "symbol": "C-BTC-71800-120426",
        "timestamp": 1775800366578410,
        "type": "v2/ticker"
    }"#;

    let event = parse(message, &["294.0"]).unwrap();

    assert!(matches!(event, PriceEvent::Tick(_)));
    assert_eq!(event.instrument_name(), &InstrumentName::new("C-BTC-71800-120426"));
    assert_eq!(value_of(&event), 294.0);
}

#[test]
fn parses_compact_delta_india_ticker_into_price_tick() {
    let message = r#"{
        "d": [
            {
                "g": ["-0.98795059", "0.00004200", "-0.72992386", "-31.84982882", "0.71285309"],
                "i": 130334,
                "m": "1715.50081572",
                "m24hc": "218.6193",
                "ohlc": [575.0, 2000.0, 161.0, 1714.3],
                "s": "P-BTC-73400-120426"
            }
        ],
        "sp": "71687.1",
        "sy": "P-BTC-73400-120426",
        "ts": 1775963473692921,
        "type": "ticker"
    }"#;

    let event = parse(message, &["1715.50081572", "71687.1"]).unwrap();

    assert!(matches!(event, PriceEvent::Tick(_)));
    assert_eq!(event.instrument_name(), &InstrumentName::new("P-BTC-73400-120426"));
    assert_eq!(value_of(&event), 1_714.3);
}

#[test]
fn ignores_heartbeat_and_subscription_ack() {
    assert_eq!(parse(r#"{ "type": "heartbeat" }"#, &[]), None);
    assert_eq!(parse(r#"{ "type": "subscriptions", "channels": [] }"#, &[]), None);
}

#[test]
fn parses_v2_spot_price_into_price_tick() {
    let message = r#"{
        "s": ".DEXBTUSD",
        "p": 72612.42,
        "type": "v2/spot_price"
    }"#;

    let event = parse(message, &[]).unwrap();

    assert!(matches!(event, PriceEvent::Tick(_)));
    assert_eq!(event.instrument_name(), &InstrumentName::new(".DEXBTUSD"));
    assert_eq!(value_of(&event), 72_612.42);
}

#[test]
fn ignores_invalid_delta_price_without_failing_feed() {
    let invalid_price = r#"{
        "close": 0,
        "symbol": "BTCUSD",
        "timestamp": 1775800366578410,
        "type": "v2/ticker"
    }"#;
    let missing_price = r#"{
        "symbol": "BTCUSD",
        "timestamp": 1775800366578410,
        "type": "v2/ticker"
    }"#;

    assert_eq!(parse(invalid_price, &[]), None);
    assert_eq!(parse(missing_price, &[]), None);
    let Ok(Reading::Ignored(ignored)) = read_delta_text_message(invalid_price, &numbers(&[]), 1)
    else {
        panic!("expected an ignored price");
    };
    assert_eq!(ignored.symbol, "BTCUSD");
    assert_eq!(ignored_lines(&ignored, "0", 1).len(), 1);
    assert_eq!(ignored_lines(&ignored, "0", 21).len(), 0);
    assert!(parse_delta_text_message("{", &numbers(&[]), 1).is_err());
}

#[test]
fn subscriptions_are_left_as_they_were_asked_for() {
    let symbols = vec!["A".to_string(), "B".to_string()];
    let mut subscriptions = DeltaSubscriptions::new(None);
    assert_eq!(subscriptions.ticker_channel(), "v2/ticker");
    assert_eq!(subscriptions.subscribe_symbols(&symbols), symbols);
    subscriptions.subscribed(&symbols);
    assert!(subscriptions.subscribe_symbols(&symbols).is_empty());
    assert_eq!(subscriptions.unsubscribe_symbols(&symbols), symbols);
    subscriptions.unsubscribed(&symbols);
    assert_eq!(subscriptions.subscribe_symbols(&symbols), symbols);
    assert!(subscriptions.unsubscribe_symbols(&symbols).is_empty());
}

fn product(id: u64, symbol: &str, contract_type: &str) -> DeltaProduct {
    DeltaProduct {
        id,
        symbol: symbol.to_string(),
        description: None,
        settlement_time: None,
        tick_size: None,
        contract_value: None,
        contract_unit_currency: None,
        state: Some("live".to_string()),
        trading_status: Some("operational".to_string()),
        contract_type: contract_type.to_string(),
        strike_price: None,
        underlying_asset: None,
        quoting_asset: None,
        settling_asset: None,
        spot_index: None,
    }
}

#[test]
fn parses_delta_option_symbol_parts() {
    let product = product(1, "C-BTC-90000-260426", "call_options");

    assert_eq!(product.underlying().as_deref(), Some("BTC"));
    let strike = product.strike(&numbers(&["90000"])).expect("strike");
    assert_eq!(strike.value, bits_of(90_000.0));
    assert_eq!(product.expiry_ddmmyy().as_deref(), Some("260426"));
    assert_eq!(product.expiry_yyyy_mm_dd().as_deref(), Some("2026-04-26"));
}

fn test_product_with_spot_index(id: u64, symbol: &str, spot_symbol: &str) -> DeltaProduct {
    DeltaProduct {
        contract_unit_currency: Some("BTC".to_string()),
        spot_index: Some(DeltaSpotIndex {
            id,
            symbol: spot_symbol.to_string(),
            tick_size: None,
            index_type: Some("spot_pair".to_string()),
        }),
        ..product(id, symbol, "perpetual_futures")
    }
}

#[test]
fn prefers_usd_spot_index_when_multiple_indices_exist() {
    let products = vec![
        test_product_with_spot_index(1, "BTCINR", ".DEXBTINR"),
        test_product_with_spot_index(2, "BTCUSD", ".DEXBTUSD"),
    ];
    let references = resolve_delta_spot_references(&products, &vec!["BTC".to_string()]).unwrap();

    assert_eq!(
        references,
        vec![DeltaSpotReference {
            underlying: "BTC".to_string(),
            spot_symbol: ".DEXBTUSD".to_string(),
        }]
    );
    assert!(resolve_delta_spot_references(&products, &vec!["ETH".to_string()]).is_err());
}

#[test]
fn delta_options_expire_at_12_utc_on_expiry_date() {
    let option = InstrumentDefinition {
        instrument_name: InstrumentName::new("C-BTC-70800-120426"),
        instrument_type: InstrumentType::Call,
        strike: Some(decimal(70_800.0)),
        expiry: Some("2026-04-12".to_string()),
        broker: "DELTA".to_string(),
        instrument_token: "130262".to_string(),
        trading_symbol: "C-BTC-70800-120426".to_string(),
        exchange: "DELTA".to_string(),
        segment: "CALL".to_string(),
        underlying: "BTC".to_string(),
        lot_size: decimal(0.001),
        tick_size: decimal(0.1),
        tradable: true,
    };
    let expiry_day = yyyy_mm_dd_to_epoch_day("2026-04-12").expect("expiry day");
    let before_settlement = expiry_day * DAY_SECONDS + DELTA_OPTION_SETTLEMENT_UTC_SECONDS - 1;
    let at_settlement = expiry_day * DAY_SECONDS + DELTA_OPTION_SETTLEMENT_UTC_SECONDS;

    assert!(delta_instrument_active_at(&option, before_settlement));
    assert!(!delta_instrument_active_at(&option, at_settlement));
    assert_eq!(yyyy_mm_dd_to_epoch_day("1970-01-02"), Some(1));
}

#[test]
fn products_come_in_pages() {
    let mut products = Vec::new();
    let page = |success: bool, after: Option<&str>| ProductsPage {
        success,
        result: vec![product(1, "BTCUSD", "perpetual_futures")],
        after: after.map(str::to_string),
    };
    assert_eq!(take_page(&mut products, page(true, Some("x"))), Ok(Some("x".to_string())));
    assert_eq!(take_page(&mut products, page(true, None)), Ok(None));
    assert_eq!(products.len(), 2);
    assert!(take_page(&mut products, page(false, None)).is_err());
}

#[test]
fn histories_are_asked_for_by_resolution() {
    let btc = test_instrument("BTCUSD", InstrumentType::PerpFut, None, None);
    let request =
        history_request("https://h/", &btc, Timeframe::OneMinute, 1_000, 61_000).expect("request");
    assert_eq!(request.symbol, "BTCUSD");
    assert_eq!(request.resolution, delta_resolution(Timeframe::OneMinute).expect("resolution"));
    assert_eq!(request.start, "1");
    assert_eq!(request.end, "61");
    let reply = HistoryReply {
        instrument_name: InstrumentName::new("BTC"),
        trading_symbol: "BTCUSD".to_string(),
        timeframe: Timeframe::OneMinute,
        resolution: "1m".to_string(),
        success: true,
        status: "200 OK".to_string(),
        url: "https://h/".to_string(),
        body: String::new(),
    };
    let row = HistoryRow {
        time: 60,
        open: bits_of(1.0),
        high: bits_of(2.0),
        low: bits_of(0.5),
        close: bits_of(1.5),
        volume: bits_of(7.0),
    };
    let candles = read_history(&reply, &Ok((true, vec![row]))).expect("candles");
    assert_eq!(candles.len(), 1);
    assert_eq!(candles[0].start_time.as_u64(), 60_000);
    assert_eq!(candles[0].end_time.as_u64(), 120_000);
    assert!(read_history(&reply, &Ok((false, vec![row]))).is_err());
}

#[test]
fn anchors_are_chosen_by_the_first_ticks() {
    let references = vec![DeltaSpotReference {
        underlying: "BTC".to_string(),
        spot_symbol: ".DEXBTUSD".to_string(),
    }];
    let mut live = DeltaLive::start(&references, bits_of(4.5), 3);
    assert!(live.waits_for_anchors());
    match live.on_tick(".DEXBTUSD", bits_of(72_520.0), bits_of(0.0)) {
        Ok(TickStep::Choose { underlying, decision, .. }) => {
            assert_eq!(underlying, "BTC");
            assert_eq!(
                decision,
                RefreshDecision::Initialized { anchor_price: bits_of(72_520.0) }
            );
        }
        other => panic!("{other:?}"),
    }
    let plan = live.apply_summary("BTC", &test_summary()).expect("plan");
    assert!(!plan.diff.subscribe.is_empty());
    assert!(plan.diff.unsubscribe.is_empty());
    assert_eq!(live.anchor_for(".DEXBTUSD"), Some(bits_of(72_520.0)));
    assert!(matches!(
        live.on_tick("BTCUSD", bits_of(72_000.0), bits_of(0.0)),
        Ok(TickStep::Told)
    ));
}
