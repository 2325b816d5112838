//! Masters, tokens, histories and latest prices of Fyers.
use dhancred_trading_app::adapters::fyers::historical::{
    history_request, normalize_request_window, HistoricalRateLimiter, SECOND_NANOS,
};
use dhancred_trading_app::adapters::fyers::latest_price_file::FyersLatestPriceFile;
use dhancred_trading_app::adapters::fyers::master::{
    build_fyers_universe_summary_from_master_csvs, fetch_failed, normalize_source,
    parse_master_json, refresh_step, FetchFailure, MasterFile, RefreshStep,
};
use dhancred_trading_app::adapters::fyers::token::{
    access_token_file_content, history_authorization_header, jwt_access_token_only,
};
use dhancred_trading_app::adapters::historical::{
    days_to_millis, history_instruments, maintenance_plan, recovery_plan, CandleSync, HistoryPlan,
};
use dhancred_trading_app::adapters::universe::{
    selected_trading_symbols, StrikeWindow, UniverseSummary,
};
use dhancred_trading_app::binary64::{Decimal, Numbers, Real};
use dhancred_trading_app::config::InstrumentSelection;
use dhancred_trading_app::feeder::catalog::{
    InstrumentCatalog, InstrumentDefinition, InstrumentType, UNIVERSAL_INSTRUMENT_CSV_HEADER,
};
use dhancred_trading_app::feeder::error::FeedError;
use dhancred_trading_app::feeder::event::{Candle, InstrumentName, Price, Timeframe, UnixMillis};
use dhancred_trading_app::order::TextMap;

fn bits_of(value: f64) -> Real {
    Real { bits: value.to_bits() }
}

fn decimal(value: f64) -> Decimal {
    Decimal { value: bits_of(value), text: value.to_string() }
}

fn told(value: f64) -> Decimal {
    Decimal { value: bits_of(value), text: format!("{value:.4}") }
}

fn numbers(texts: &[&str]) -> Numbers {
    let mut numbers: Numbers = TextMap::new();
    for text in texts {
        numbers.insert(text.to_string(), decimal(text.parse().expect("number")));
    }
    numbers
}

/// The strikes around a price, so far away in per cent, and how far away some strikes are.
fn window(price: f64, distance_pct: f64, strikes: &[f64]) -> StrikeWindow {
    let distance = price * (distance_pct / 100.0);
    let mut distances: TextMap<Real> = TextMap::new();
    for strike in strikes {
        distances.insert(strike.to_string(), bits_of((strike - price).abs()));
    }
    StrikeWindow {
        lower: bits_of(price - distance),
        upper: bits_of(price + distance),
        distances,
    }
}

fn test_instrument(
    symbol: &str,
    underlying: &str,
    instrument_type: InstrumentType,
    strike: Option<f64>,
    expiry: Option<&str>,
) -> InstrumentDefinition {
    InstrumentDefinition {
        instrument_name: InstrumentName::new(symbol),
        instrument_type,
        strike: strike.map(decimal),
        expiry: expiry.map(str::to_string),
        broker: "FYERS".to_string(),
        instrument_token: symbol.to_string(),
        trading_symbol: symbol.to_string(),
        exchange: "NSE".to_string(),
        segment: instrument_type.segment().to_string(),
        underlying: underlying.to_string(),
        lot_size: decimal(1.0),
        tick_size: decimal(0.05),
        tradable: true,
    }
}

fn test_summary(
    underlying: &str,
    reference_symbol: &str,
    reference_price: f64,
    strike: f64,
) -> UniverseSummary {
    UniverseSummary {
        selected_underlying: underlying.to_string(),
        reference_symbol: reference_symbol.to_string(),
        reference_price: bits_of(reference_price),
        spot_or_index_symbols: vec![reference_symbol.to_string()],
        futures: if underlying == "NIFTY" {
            vec![test_instrument(
                "NSE:NIFTY26APRFUT",
                underlying,
                InstrumentType::Fut,
                None,
                Some("2026-04-30"),
            )]
        } else {
            Vec::new()
        },
        atm_options: vec![
            test_instrument(
                &format!("NSE:{underlying}26APR{}CE", strike as i64),
                underlying,
                InstrumentType::Call,
                Some(strike),
                Some("2026-04-30"),
            ),
            test_instrument(
                &format!("NSE:{underlying}26APR{}PE", strike as i64),
                underlying,
                InstrumentType::Put,
                Some(strike),
                Some("2026-04-30"),
            ),
        ],
    }
}

#[test]
fn writes_latest_prices_for_multiple_underlyings() {
    let mut file = FyersLatestPriceFile::new();
    let nifty = test_summary("NIFTY", "NSE:NIFTY50-INDEX", 24_050.0, 24_000.0);
    let banknifty = test_summary("BANKNIFTY", "NSE:NIFTYBANK-INDEX", 55_900.0, 56_000.0);
    let mut four_places: TextMap<String> = TextMap::new();
    four_places.insert("24000".to_string(), "24000.0000".to_string());
    four_places.insert("56000".to_string(), "56000.0000".to_string());

    file.set_spot_symbol("NIFTY", "NSE:NIFTY50-INDEX");
    file.set_spot_symbol("BANKNIFTY", "NSE:NIFTYBANK-INDEX");
    file.update_targets_from_summary(
        &nifty,
        &window(24_050.0, 2.0, &[24_000.0]),
        &four_places,
    );
    file.update_targets_from_summary(
        &banknifty,
        &window(55_900.0, 2.0, &[56_000.0]),
        &four_places,
    );
    file.update_tick("NSE:NIFTY50-INDEX", &told(24_050.6));
    file.update_tick("NSE:NIFTY26APRFUT", &told(24_070.25));
    file.update_tick("NSE:NIFTY26APR24000CE", &told(210.5));
    file.update_tick("NSE:NIFTY26APR24000PE", &told(188.25));
    let written = file.update_tick("NSE:NIFTYBANK-INDEX", &told(55_912.75));

    let expected = "BANKNIFTY Spot: 55912.7500\nBANKNIFTY FUT: -\nBANKNIFTY ATM CALL: 56000 -> -\nBANKNIFTY ATM PUT: 56000 -> -\nNIFTY Spot: 24050.6000\nNIFTY FUT: 24070.2500\nNIFTY ATM CALL: 24000 -> 210.5000\nNIFTY ATM PUT: 24000 -> 188.2500\n";
    assert_eq!(file.content(), expected);
    assert_eq!(written, Some(expected.to_string()));
    assert_eq!(file.update_tick("NSE:NIFTYBANK-INDEX", &told(55_912.75)), None);
    assert_eq!(file.update_tick("NSE:ELSEWHERE", &told(1.0)), None);
}

#[test]
fn converts_fyers_master_json_to_universal_instruments() {
    let json = r#"{
        "NSE:NIFTY26MARFUT": {
            "fyToken": "101126033051714",
            "exInstType": 11,
            "tradeStatus": 1,
            "underSym": "NIFTY",
            "expiryDate": 1774864800,
            "optType": "XX",
            "strikePrice": -1.0,
            "minLotSize": 65,
            "tickSize": 0.1,
            "symTicker": "NSE:NIFTY26MARFUT",
            "exchangeName": "NSE"
        },
        "NSE:NIFTY26MAR25000CE": {
            "fyToken": "101126033000001",
            "exInstType": 14,
            "tradeStatus": 1,
            "underSym": "NIFTY",
            "expiryDate": "1774864800",
            "optType": "CE",
            "strikePrice": 25000.0,
            "minLotSize": 65,
            "tickSize": 0.05,
            "symTicker": "NSE:NIFTY26MAR25000CE",
            "exchangeName": "NSE"
        }
    }"#;

    let numbers = numbers(&["-1.0", "65", "0.1", "25000.0", "0.05"]);
    let instruments = parse_master_json("NSE_FO", json, &numbers).expect("parsed instruments");

    assert_eq!(instruments.len(), 2);
    assert_eq!(instruments[0].instrument_type, InstrumentType::Call);
    assert_eq!(instruments[0].expiry.as_deref(), Some("2026-03-30"));
    assert_eq!(instruments[0].strike.as_ref().expect("strike").value, bits_of(25_000.0));
    assert_eq!(instruments[0].segment, "CALL");
    assert_eq!(instruments[1].instrument_type, InstrumentType::Fut);
    assert_eq!(instruments[1].lot_size.value, bits_of(65.0));
}

#[test]
fn masters_that_are_no_objects_are_refused() {
    assert!(parse_master_json("NSE_FO", "{", &numbers(&[])).is_err());
    assert!(parse_master_json("NSE_FO", "[1]", &numbers(&[])).is_err());
    assert_eq!(normalize_source(" nse_fo "), Ok("NSE_FO".to_string()));
    assert_eq!(
        normalize_source("a/b"),
        Err(FeedError::Config("invalid FYERS master source a/b".to_string()))
    );
    assert!(matches!(
        fetch_failed("NSE_FO", &FetchFailure::Request("down".to_string())),
        FeedError::Http(_)
    ));
}

#[test]
fn masters_are_downloaded_once_a_day() {
    assert_eq!(refresh_step("NSE_FO", Some(86_400 * 5), 5), RefreshStep::Keep);
    assert_eq!(
        refresh_step("NSE_FO", Some(86_400 * 5 - 1), 5),
        RefreshStep::Download("FYERS NSE_FO master downloading".to_string())
    );
    assert!(matches!(refresh_step("NSE_FO", None, 5), RefreshStep::Download(_)));
}

#[test]
fn selects_fyers_derivative_universe_from_master_csvs() {
    let content = [
        UNIVERSAL_INSTRUMENT_CSV_HEADER,
        "NIFTY,SPOT,,,FYERS,101000000026000,NSE:NIFTY50-INDEX,NSE,SPOT,NIFTY,1,0.05,true",
        "NIFTY26APRFUT,FUT,,2026-04-30,FYERS,101126043051714,NSE:NIFTY26APRFUT,NSE,FUT,NIFTY,65,0.05,true",
        "NIFTY26APR25000CE,CALL,25000,2026-04-30,FYERS,101126043000001,NSE:NIFTY26APR25000CE,NSE,CALL,NIFTY,65,0.05,true",
        "NIFTY26APR25000PE,PUT,25000,2026-04-30,FYERS,101126043000002,NSE:NIFTY26APR25000PE,NSE,PUT,NIFTY,65,0.05,true",
        "NIFTY26APR25600CE,CALL,25600,2026-04-30,FYERS,101126043000003,NSE:NIFTY26APR25600CE,NSE,CALL,NIFTY,65,0.05,true",
        "BANKNIFTY26APR25000CE,CALL,25000,2026-04-30,FYERS,101126043000004,NSE:BANKNIFTY26APR25000CE,NSE,CALL,BANKNIFTY,35,0.05,true",
    ]
    .join("\n");
    let selection = InstrumentSelection {
        instrument_types: vec!["FUT".to_string(), "CALL".to_string(), "PUT".to_string()],
        strike_distance_pct: bits_of(2.0),
        refresh_trigger_pct: bits_of(1.5),
    };
    let files = vec![MasterFile { path: "NSE_FO.csv".to_string(), content: Ok(content) }];
    let summary = build_fyers_universe_summary_from_master_csvs(
        &files,
        &selection,
        "NIFTY",
        "NSE:NIFTY50-INDEX",
        bits_of(25_000.0),
        &window(25_000.0, 2.0, &[25_000.0, 25_600.0]),
        &numbers(&["1", "0.05", "65", "25000", "25600", "35"]),
    )
    .expect("built universe summary");
    let selected = selected_trading_symbols(&summary);

    assert_eq!(summary.futures.len(), 1);
    assert_eq!(summary.atm_options.len(), 2);
    assert!(selected.contains("NSE:NIFTY26APRFUT"));
    assert!(selected.contains("NSE:NIFTY26APR25000CE"));
    assert!(selected.contains("NSE:NIFTY26APR25000PE"));
    assert!(!selected.contains("NSE:NIFTY26APR25600CE"));
    assert!(!selected.contains("NSE:BANKNIFTY26APR25000CE"));
}

#[test]
fn writes_trimmed_access_token() {
    assert_eq!(access_token_file_content("  token-value  "), Ok("token-value\n".to_string()));
    assert!(access_token_file_content("  ").is_err());
}

#[test]
fn history_authorization_prefers_env_app_id_over_prefixed_token() {
    let header = history_authorization_header(
        "OLDAPP-100:jwt-token",
        Some("FYERS_TEST_APP_ID_FOR_HISTORY"),
        Some("HT4X8EWUF0-100"),
        None,
    )
    .expect("header");
    assert_eq!(header, "HT4X8EWUF0-100:jwt-token");
    assert_eq!(jwt_access_token_only("OLDAPP-100:jwt-token"), Ok("jwt-token".to_string()));
}

#[test]
fn histories_are_asked_for_while_markets_are_open() {
    assert_eq!(
        normalize_request_window("MCX:GOLD", Timeframe::OneMinute, 100, 200, 10_000_000),
        Some((100, 200))
    );
    assert_eq!(
        normalize_request_window("MCX:GOLD", Timeframe::OneMinute, 300, 200, 10_000_000),
        None
    );
    assert_eq!(
        normalize_request_window("MCX:GOLD", Timeframe::OneDay, 100, 200, u64::MAX),
        Some((100, 200))
    );
}

#[test]
fn histories_are_asked_for_in_seconds() {
    let ask = |symbol: &str, timeframe: Timeframe, start: u64, end: u64| {
        history_request(symbol, timeframe, start, end, 1_783_013_400)
    };
    let asked = ask("MCX:GOLD", Timeframe::OneMinute, 61_999, 121_000)
        .expect("request")
        .expect("something to ask for");
    assert_eq!(asked.url, "https://api-t1.fyers.in/data/history");
    assert_eq!(asked.symbol, "MCX:GOLD");
    assert_eq!(asked.resolution, "1");
    assert_eq!(asked.range_from, "61");
    assert_eq!(asked.range_to, "121");
    assert_eq!((asked.date_format, asked.cont_flag), ("0", "0"));
    // Up to the close of Wednesday 2026-07-01, 15:30 IST.
    let days = ask("NSE:SBIN-EQ", Timeframe::OneDay, 0, 1_783_013_400_000)
        .expect("request")
        .expect("something to ask for");
    assert_eq!((days.resolution, days.range_to.as_str()), ("1D", "1782900000"));
    assert!(ask("MCX:GOLD", Timeframe::OneMinute, 5, 5).expect("request").is_none());
    assert!(ask("MCX:GOLD", Timeframe::OneHour, 5, 6).is_err());
    assert!(ask("MCX:GOLD", Timeframe::OneHour, 6, 6).expect("request").is_none());
}

#[test]
fn requests_wait_for_their_turn() {
    let mut limiter = HistoricalRateLimiter::new(2, 3);
    assert_eq!(limiter.try_pass(0), None);
    assert_eq!(limiter.try_pass(1), None);
    assert!(limiter.try_pass(2).is_some());
    assert_eq!(limiter.try_pass(SECOND_NANOS + 1), None);
    assert!(limiter.try_pass(3 * SECOND_NANOS).is_some());
    assert_eq!(limiter.try_pass(62 * SECOND_NANOS), None);
}

fn one_minute(start: u64, end: u64, value: f64) -> Candle {
    let price = || Price::new(bits_of(value)).expect("price");
    Candle::new(
        InstrumentName::new("BTC"),
        Timeframe::OneMinute,
        UnixMillis::new(start),
        UnixMillis::new(end),
        price(),
        price(),
        price(),
        price(),
        bits_of(0.0),
    )
}

#[test]
fn recover_spot_history_prunes_old_candles_and_keeps_recent_gapfill() {
    let instrument = InstrumentDefinition {
        instrument_name: InstrumentName::new("BTC"),
        instrument_type: InstrumentType::Spot,
        strike: None,
        expiry: None,
        broker: "DELTA".to_string(),
        instrument_token: "1".to_string(),
        trading_symbol: "BTCUSD".to_string(),
        exchange: "DELTA".to_string(),
        segment: "SPOT".to_string(),
        underlying: "BTC".to_string(),
        lot_size: decimal(1.0),
        tick_size: decimal(0.1),
        tradable: true,
    };
    let now: u64 = 1_776_108_301_000;
    let old_end = now - days_to_millis(2);
    let recent_start = now - (2 * 60 * 1_000);
    let recent_end = recent_start + 60 * 1_000;

    let mut store = vec![one_minute(old_end - 60 * 1_000, old_end, 1.0)];
    let source = vec![one_minute(recent_start, recent_end, 2.0)];
    let catalog = InstrumentCatalog::new(vec![instrument]);

    for instrument in history_instruments(&catalog) {
        let latest = store.iter().map(|candle| candle.end_time.as_u64()).max();
        let plan = recovery_plan(now, 1, latest).expect("plan");
        store.retain(|candle| candle.end_time.as_u64() >= plan.cutoff);
        let mut sync = CandleSync::new(
            instrument.instrument_name.clone(),
            Timeframe::OneMinute,
            plan.fetch_from.expect("from"),
            now,
            2_000,
        )
        .expect("sync");
        while let Some((from, to)) = sync.next_request() {
            let reply: Vec<Candle> = source
                .iter()
                .filter(|candle| candle.end_time.as_u64() > from)
                .filter(|candle| candle.end_time.as_u64() <= to)
                .cloned()
                .collect();
            store.extend(sync.accept(&reply));
        }
    }

    assert_eq!(store.len(), 1);
    assert_eq!(store[0].end_time.as_u64(), recent_end);
}

#[test]
fn histories_are_kept_for_some_days() {
    let day = days_to_millis(1);
    assert_eq!(day, 86_400_000);
    assert_eq!(
        maintenance_plan(100 * day, 10, 2),
        Some(HistoryPlan { cutoff: 90 * day, fetch_from: Some(98 * day) })
    );
    assert_eq!(recovery_plan(100 * day, 0, None), None);
}

#[test]
fn histories_are_fetched_in_pieces() {
    let begin = |start: u64, end: u64, candles: u64| {
        CandleSync::new(InstrumentName::new("BTC"), Timeframe::OneMinute, start, end, candles)
    };
    let mut sync = begin(0, 150_000, 2).expect("sync");
    assert_eq!(sync.next_request(), Some((0, 120_000)));
    assert_eq!(sync.accept(&Vec::new()).len(), 0);
    assert_eq!(sync.next_request(), Some((120_000, 150_000)));
    assert_eq!(sync.accept(&Vec::new()).len(), 0);
    assert_eq!(sync.next_request(), None);
    assert_eq!(begin(10, 5, u64::MAX).expect("sync").next_request(), None);
    assert_eq!(
        begin(u64::MAX - 1, u64::MAX, 1).expect("sync").next_request(),
        Some((u64::MAX - 1, u64::MAX))
    );
    match begin(0, 1, u64::MAX) {
        Err(FeedError::Config(message)) => {
            assert_eq!(message, "historical recovery chunk size overflow")
        }
        _ => panic!("the pieces are too long"),
    }
}
