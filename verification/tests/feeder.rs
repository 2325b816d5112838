//! Catalogs, candles and the universe that is followed.
use dhancred_trading_app::adapters::historical::HistoricalReplayFeeder;
use dhancred_trading_app::binary64::{Decimal, Numbers, Real};
use dhancred_trading_app::dotenv::parse_dotenv_literal;
use dhancred_trading_app::feeder::catalog::{
    parse_catalog_csv, parse_instrument_type, InstrumentCatalog, InstrumentDefinition,
    InstrumentType, UniverseFilter,
};
use dhancred_trading_app::feeder::error::FeedError;
use dhancred_trading_app::feeder::event::{
    FeedChannel, InstrumentName, Price, PriceEvent, PriceTick, Timeframe, UnixMillis,
};
use dhancred_trading_app::feeder::historical_candles::{
    one_minute_bucket_bounds_ist, HistoricalCandleService,
};
use dhancred_trading_app::feeder::universe::{RefreshDecision, UniverseRefreshState};
use dhancred_trading_app::feeder::{FeedSubscription, Feeder};
use dhancred_trading_app::order::{TextMap, TextSet};

fn bits_of(value: f64) -> Real {
    Real { bits: value.to_bits() }
}

fn decimal(value: f64) -> Decimal {
    Decimal { value: bits_of(value), text: value.to_string() }
}

fn price(value: f64) -> Price {
    Price::new(bits_of(value)).expect("price")
}

fn value_of(price: Price) -> f64 {
    f64::from_bits(price.value().bits)
}

fn numbers(texts: &[&str]) -> Numbers {
    let mut numbers: Numbers = TextMap::new();
    for text in texts {
        if let Ok(value) = text.parse::<f64>() {
            numbers.insert(text.to_string(), decimal(value));
        }
    }
    numbers
}

fn set(texts: &[&str]) -> TextSet {
    let mut set = TextSet::new();
    for text in texts {
        set.insert(text.to_string());
    }
    set
}

const CATALOG: &str = "\
instrument_name,instrument_type,strike,expiry,broker,instrument_token,trading_symbol,exchange,segment,underlying,lot_size,tick_size,tradable
BTCUSD,PERP_FUT,,,DELTA,27,BTCUSD,DELTA,PERP_FUT,BTC,1,0.5,true
C-BTC-90000-260426,CALL,90000,2026-04-26,DELTA,130000,C-BTC-90000-260426,DELTA,CALL,BTC,1,0.1,true
";

#[test]
fn loads_catalog_from_universal_csv() {
    let catalog =
        parse_catalog_csv(CATALOG, &numbers(&["1", "0.5", "90000", "0.1"])).expect("catalog");
    let universe = catalog.select(&UniverseFilter {
        broker: Some("DELTA".to_string()),
        underlyings: vec!["BTC".to_string()],
        instrument_types: vec![InstrumentType::Call],
        tradable_only: true,
    });

    assert_eq!(universe.names(), &[InstrumentName::new("C-BTC-90000-260426")]);
}

#[test]
fn a_number_that_cannot_be_read_fails_the_catalog() {
    let error = parse_catalog_csv(CATALOG, &numbers(&["1", "90000", "0.1"])).err().expect("error");
    assert_eq!(error, FeedError::Parse("invalid f64 0.5: invalid float literal".to_string()));
}

#[test]
fn the_row_of_an_instrument_reads_back() {
    let known = numbers(&["1", "0.5", "90000", "0.1"]);
    let catalog = parse_catalog_csv(CATALOG, &known).expect("catalog");
    let option = catalog.get(&InstrumentName::new("C-BTC-90000-260426")).expect("option");
    let mut text = CATALOG.lines().next().expect("columns").to_string();
    text.push('\n');
    text.push_str(&option.to_csv_row());
    let again = parse_catalog_csv(&text, &known).expect("again");
    assert_eq!(again.get(&InstrumentName::new("C-BTC-90000-260426")), Some(option));
}

#[test]
fn names_of_instrument_types_read_back() {
    for kind in [
        InstrumentType::Spot,
        InstrumentType::Fut,
        InstrumentType::PerpFut,
        InstrumentType::Call,
        InstrumentType::Put,
    ] {
        assert_eq!(parse_instrument_type(kind.as_str()), Ok(kind));
    }
    assert!(parse_instrument_type("BOND").is_err());
}

fn nifty() -> InstrumentCatalog {
    InstrumentCatalog::new(vec![InstrumentDefinition {
        instrument_name: InstrumentName::new("NIFTY"),
        instrument_type: InstrumentType::Spot,
        strike: None,
        expiry: None,
        broker: "FYERS".to_string(),
        instrument_token: "101".to_string(),
        trading_symbol: "NSE:NIFTY50-INDEX".to_string(),
        exchange: "NSE".to_string(),
        segment: "SPOT".to_string(),
        underlying: "NIFTY".to_string(),
        lot_size: decimal(1.0),
        tick_size: decimal(0.05),
        tradable: true,
    }])
}

fn nifty_tick(value: f64, time: u64) -> PriceTick {
    PriceTick::new(InstrumentName::new("NSE:NIFTY50-INDEX"), price(value), UnixMillis::new(time))
}

#[test]
fn maps_raw_spot_symbol_to_canonical_name_and_closes_minute() {
    let mut service = HistoricalCandleService::new(&nifty());

    service.on_tick(&nifty_tick(100.0, 1_776_108_301_000)).expect("first tick");
    let completed = service
        .on_tick(&nifty_tick(101.0, 1_776_108_360_000))
        .expect("aggregate")
        .expect("completed candle");

    assert_eq!(completed.instrument_name.as_str(), "NIFTY");
    assert_eq!(completed.timeframe, Timeframe::OneMinute);
    assert_eq!(value_of(completed.open), 100.0);
    assert_eq!(value_of(completed.close), 100.0);
}

#[test]
fn flushes_completed_minute_without_waiting_for_next_tick_and_ignores_late_ticks() {
    let mut service = HistoricalCandleService::new(&nifty());

    service.on_tick(&nifty_tick(100.0, 1_776_108_301_000)).expect("first tick");

    let flushed = service.flush_due_before(1_776_108_360_000);
    assert_eq!(flushed.len(), 1);
    assert_eq!(flushed[0].instrument_name.as_str(), "NIFTY");
    assert_eq!(value_of(flushed[0].open), 100.0);
    assert_eq!(value_of(flushed[0].close), 100.0);

    service.on_tick(&nifty_tick(101.0, 1_776_108_340_000)).expect("late tick ignored");

    let flushed_after_late_tick = service.flush_due_before(u64::MAX);
    assert!(flushed_after_late_tick.is_empty());
}

#[test]
fn a_minute_begins_on_the_minute() {
    assert_eq!(
        one_minute_bucket_bounds_ist(1_776_108_301_234),
        Ok((1_776_108_300_000, 1_776_108_360_000))
    );
    assert_eq!(
        one_minute_bucket_bounds_ist(9_000_000_000_000_000_000).err(),
        Some(FeedError::Parse("invalid unix millis 9000000000000000000".to_string()))
    );
}

#[test]
fn historical_replay_feeder_filters_by_subscription() {
    let instrument = InstrumentName::new("BTC");
    let tick = PriceEvent::Tick(PriceTick::new(
        instrument.clone(),
        price(100.0),
        UnixMillis::new(1),
    ));
    let mut feeder = HistoricalReplayFeeder::new(vec![tick.clone()]);
    feeder
        .subscribe(FeedSubscription::new(vec![instrument], vec![FeedChannel::PriceTick]))
        .expect("subscribe");
    assert_eq!(feeder.next_event().expect("event"), Some(tick));
    assert_eq!(feeder.next_event().expect("end"), None);
}

/// How far a price has moved from the one that was last reckoned with.
fn moved(state: &mut UniverseRefreshState, current: f64) -> RefreshDecision {
    let anchor = match state.anchor_price() {
        Some(anchor) => f64::from_bits(anchor.bits),
        None => current,
    };
    let movement = ((current - anchor).abs() / anchor) * 100.0;
    state.on_underlying_price(bits_of(current), bits_of(movement))
}

#[test]
fn refreshes_only_after_trigger_pct() {
    let mut state = UniverseRefreshState::new(bits_of(4.5));

    assert_eq!(
        moved(&mut state, 100.0),
        RefreshDecision::Initialized { anchor_price: bits_of(100.0) }
    );
    assert!(matches!(moved(&mut state, 104.0), RefreshDecision::Hold { .. }));
    assert!(matches!(moved(&mut state, 105.0), RefreshDecision::Refresh { .. }));
    assert!(matches!(moved(&mut state, 109.0), RefreshDecision::Hold { .. }));
}

#[test]
fn computes_subscription_diff() {
    let mut state = UniverseRefreshState::new(bits_of(4.5));
    let first = state.apply_symbols(set(&["BTCUSD", "C-BTC-73000-120426"]));

    assert_eq!(first.subscribe.len(), 2);
    assert_eq!(first.unsubscribe.len(), 0);

    let second = state.apply_symbols(set(&["BTCUSD", "C-BTC-74000-120426"]));

    assert_eq!(second.subscribe, vec!["C-BTC-74000-120426".to_string()]);
    assert_eq!(second.unsubscribe, vec!["C-BTC-73000-120426".to_string()]);
}

#[test]
fn reset_unsubscribes_active_symbols_and_clears_anchor() {
    let mut state = UniverseRefreshState::new(bits_of(4.5));
    moved(&mut state, 100.0);
    state.apply_symbols(set(&["BTCUSD", "C-BTC-73000-120426"]));

    let diff = state.reset();

    assert_eq!(diff.subscribe.len(), 0);
    assert_eq!(
        diff.unsubscribe,
        vec!["BTCUSD".to_string(), "C-BTC-73000-120426".to_string()]
    );
    assert!(matches!(moved(&mut state, 101.0), RefreshDecision::Initialized { .. }));
}

#[test]
fn dotenv_literal_keeps_dollar_in_secret() {
    let values = parse_dotenv_literal("DB_SECRET=Abc123$Xy\n").expect("parse .env");

    assert_eq!(values, vec![("DB_SECRET".to_string(), "Abc123$Xy".to_string())]);
}

#[test]
fn dotenv_literal_strips_simple_quotes() {
    let values = parse_dotenv_literal("DB_SECRET='Abc123$Xy'\n").expect("parse .env");

    assert_eq!(values, vec![("DB_SECRET".to_string(), "Abc123$Xy".to_string())]);
}

#[test]
fn dotenv_lines_without_a_name_are_refused() {
    assert_eq!(
        parse_dotenv_literal("A=1\nnothing\n").err(),
        Some(FeedError::Config("invalid .env line 2: missing '='".to_string()))
    );
    assert_eq!(
        parse_dotenv_literal("=1\n").err(),
        Some(FeedError::Config("invalid .env line 1: empty key".to_string()))
    );
    assert_eq!(
        parse_dotenv_literal("# note\nexport A=\"x\\ny\" # rest\nB=c # d\n").expect("parse"),
        vec![
            ("A".to_string(), "x\ny".to_string()),
            ("B".to_string(), "c".to_string())
        ]
    );
}
