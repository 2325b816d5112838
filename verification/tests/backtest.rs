//! Backtests: their orders, candles, requests and reports.
use dhancred_trading_app::backtest::args::{parse_args, parse_time, wants_help};
use dhancred_trading_app::backtest::candle_feed::{
    aggregate_bars, asked_bars, bars_step, bucket_bounds, candle_bounds, direct_bars, group_end,
    last_bars, sort_bars, source_limit, BarsStep, HistoricalCandleFeed,
};
use dhancred_trading_app::backtest::engine::{
    check_request, load_ssus, required_timeframes, resolve_instruments, run_name,
};
use dhancred_trading_app::backtest::report::{
    collect_entry_metadata_keys, count_trades, csv_field, orderbook_csv, summary_csv,
    summary_rows, BacktestReportInput, Shown, SsuReportIndex, SummaryMetrics,
};
use dhancred_trading_app::backtest::stores::{
    funding_snapshots, ist_day_key, read_request, BacktestExecutionConfig, BacktestPositionBook,
    EntryAmounts, ExitAmounts, ExitPlan, FundingChargeMode, InMemoryTradeContextStore, OrderSort,
    PartialAmounts,
};
use dhancred_trading_app::binary64::{Decimal, Numbers, Real};
use dhancred_trading_app::feeder::candle_alignment::CandleAlignment;
use dhancred_trading_app::feeder::event::{
    Candle, InstrumentName, Price, Timeframe, UnixMillis,
};
use dhancred_trading_app::json::{read_json, Json, Shape};
use dhancred_trading_app::order::TextMap;
use dhancred_trading_app::pairs::PairMap;
use dhancred_trading_app::strategy::{
    Bar, PositionStatus, PricePolicy, SignalSide, SsuConfig, StrategyError, StrategyPosition,
    StrategySignal, StrategySignalType, TradeAction, TradeInstruction,
};

const MINUTE: u64 = 60_000;

const MIN_REMAINING_QTY: f64 = 0.000000001;

fn bits_of(value: f64) -> Real {
    Real { bits: value.to_bits() }
}

fn value_of(value: Real) -> f64 {
    f64::from_bits(value.bits)
}

fn fill_price(action: TradeAction, reference_price: f64, slippage_pct: f64) -> f64 {
    match action {
        TradeAction::Buy => reference_price * (1.0 + slippage_pct),
        TradeAction::Sell => reference_price * (1.0 - slippage_pct),
    }
}

fn trading_fee(price: f64, qty: f64, fee_pct: f64, execution: &BacktestExecutionConfig) -> f64 {
    let base_fee = price.abs() * qty * fee_pct;
    base_fee * (1.0 + value_of(execution.fee_tax_pct)) + value_of(execution.fixed_fee_per_order)
}

fn funding_charge(
    side: SignalSide,
    price: f64,
    qty: f64,
    entry_at: u64,
    exit_at: u64,
    execution: &BacktestExecutionConfig,
) -> f64 {
    let snapshots = funding_snapshots(execution, entry_at, exit_at) as f64;
    let rate = value_of(execution.funding_rate_pct);
    let notional = price.abs() * qty;
    match (execution.funding_charge_mode, side) {
        (FundingChargeMode::Disabled, _) => 0.0,
        (FundingChargeMode::Absolute, _) => notional * rate.abs() * snapshots,
        (FundingChargeMode::Signed, SignalSide::Long) => notional * rate * snapshots,
        (FundingChargeMode::Signed, SignalSide::Short) => -(notional * rate * snapshots),
    }
}

fn gain(side: SignalSide, entry_price: f64, exit_price: f64) -> f64 {
    match side {
        SignalSide::Long => exit_price - entry_price,
        SignalSide::Short => entry_price - exit_price,
    }
}

fn open(
    book: &mut BacktestPositionBook,
    signal: &StrategySignal,
    ssu: &SsuConfig,
) -> Result<StrategyPosition, StrategyError> {
    let request = read_request(signal, OrderSort::Entry)?;
    let execution = book.execution();
    let (raw, qty) = (value_of(request.raw_price), value_of(request.qty));
    let price = fill_price(request.action, raw, value_of(execution.slippage_pct));
    let fee = value_of(execution.fee_pct(execution.entry_fee_pct));
    book.open_position(
        signal,
        ssu,
        EntryAmounts {
            entry_price: bits_of(price),
            entry_charges: bits_of(trading_fee(price, qty, fee, &execution)),
            entry_slippage: bits_of((price - raw).abs() * qty),
            partial_limit: bits_of(qty - MIN_REMAINING_QTY),
        },
    )
}

struct Amounts {
    price: f64,
    charges: f64,
    slippage: f64,
    funding: f64,
    gross: f64,
}

fn exit_amounts(plan: &ExitPlan, execution: &BacktestExecutionConfig) -> Amounts {
    let (raw, qty) = (value_of(plan.raw_exit_price), value_of(plan.qty));
    let price = fill_price(plan.action, raw, value_of(execution.slippage_pct));
    let fee = value_of(execution.fee_pct(execution.exit_fee_pct));
    let entry_price = value_of(plan.entry_price);
    Amounts {
        price,
        charges: trading_fee(price, qty, fee, execution),
        slippage: (price - raw).abs() * qty,
        funding: funding_charge(plan.side, entry_price, qty, plan.entry_at, plan.exit_at, execution),
        gross: gain(plan.side, entry_price, price) * qty,
    }
}

fn partial_close(
    book: &mut BacktestPositionBook,
    signal: &StrategySignal,
) -> Result<StrategyPosition, StrategyError> {
    let plan = book.plan_exit(signal, true)?;
    let amounts = exit_amounts(&plan, &book.execution());
    let remaining = value_of(plan.remaining_qty) - value_of(plan.qty);
    book.partial_close_position(
        signal,
        PartialAmounts {
            exit_price: bits_of(amounts.price),
            exit_charges: bits_of(amounts.charges),
            exit_slippage: bits_of(amounts.slippage),
            funding_charges: bits_of(amounts.funding),
            gross_pnl: bits_of(amounts.gross),
            net_pnl: bits_of(amounts.gross - amounts.charges - amounts.funding),
            remaining_qty: bits_of(remaining),
            partial_limit: bits_of(remaining - MIN_REMAINING_QTY),
            trade_exit_charges: bits_of(value_of(plan.exit_charges) + amounts.charges),
            trade_exit_slippage: bits_of(value_of(plan.exit_slippage) + amounts.slippage),
            trade_funding_charges: bits_of(value_of(plan.funding_charges) + amounts.funding),
            trade_charges: bits_of(value_of(plan.charges) + (amounts.charges + amounts.funding)),
        },
    )
}

fn close(
    book: &mut BacktestPositionBook,
    signal: &StrategySignal,
) -> Result<StrategyPosition, StrategyError> {
    let plan = book.plan_exit(signal, false)?;
    let amounts = exit_amounts(&plan, &book.execution());
    let partial: f64 = plan.partial_gross.iter().map(|gross| value_of(*gross)).sum();
    let charges = value_of(plan.charges) + amounts.charges + amounts.funding;
    let gross = partial + amounts.gross;
    book.close_position(
        signal,
        ExitAmounts {
            exit_price: bits_of(amounts.price),
            trade_exit_charges: bits_of(value_of(plan.exit_charges) + amounts.charges),
            trade_exit_slippage: bits_of(value_of(plan.exit_slippage) + amounts.slippage),
            trade_funding_charges: bits_of(value_of(plan.funding_charges) + amounts.funding),
            trade_charges: bits_of(charges),
            gross_pnl: bits_of(gross),
            net_pnl: bits_of(gross - charges),
        },
    )
}

fn signal(
    signal_type: StrategySignalType,
    action: TradeAction,
    price: f64,
    qty: f64,
    reason: &str,
    at: u64,
) -> StrategySignal {
    StrategySignal {
        signal_id: format!("{reason}-{at}"),
        signal_type,
        ssu_id: 1,
        strategy_key: "test".to_string(),
        trigger_instrument: "BTC".to_string(),
        instructions: vec![TradeInstruction {
            leg_id: format!("leg-{at}"),
            instrument_name: "BTC".to_string(),
            action,
            quantity_ratio: bits_of(qty),
            price_policy: PricePolicy { reference_price: Some(bits_of(price)), limit_price: None },
        }],
        reason: reason.to_string(),
        generated_at: at,
        metadata: Json { text: "null".to_string(), shape: Shape::Null },
    }
}

fn entry(price: f64, at: u64) -> StrategySignal {
    signal(StrategySignalType::EntryLong, TradeAction::Buy, price, 1.0, "entry", at)
}

fn exit(price: f64, reason: &str, at: u64) -> StrategySignal {
    signal(StrategySignalType::ExitLong, TradeAction::Sell, price, 1.0, reason, at)
}

fn partial_exit(price: f64, qty: f64, at: u64) -> StrategySignal {
    signal(StrategySignalType::ExitLongPartial, TradeAction::Sell, price, qty, "tp1 partial", at)
}

fn ssu() -> SsuConfig {
    SsuConfig {
        ssu_id: 1,
        strategy_key: "test".to_string(),
        enabled: true,
        trade_gap_secs: 0,
        max_overlap: 1,
        max_positions_per_day: 10,
        required_timeframes: Vec::new(),
        indicator_specs: Vec::new(),
        params_json: "{}".to_string(),
    }
}

fn plain_book() -> BacktestPositionBook {
    BacktestPositionBook::new(BacktestExecutionConfig::default()).expect("book")
}

#[test]
fn position_book_records_net_pnl_after_slippage_and_charges() {
    let mut book = BacktestPositionBook::new(BacktestExecutionConfig {
        slippage_pct: bits_of(0.01),
        brokerage_pct: bits_of(0.001),
        fixed_fee_per_order: bits_of(1.0),
        ..BacktestExecutionConfig::default()
    })
    .expect("book");

    let position = open(&mut book, &entry(100.0, 1_000), &ssu()).expect("open");
    assert!((value_of(position.entry_price) - 101.0).abs() < 0.000001);
    let position = close(&mut book, &exit(110.0, "exit", 2_000)).expect("close");

    let expected_charges = 101.0 * 0.001 + 1.0 + 108.9 * 0.001 + 1.0;
    let expected_net = (108.9 - 101.0) - expected_charges;
    assert!((value_of(position.pnl.expect("pnl")) - expected_net).abs() < 0.000001);
    assert_eq!(book.trades().len(), 1);
}

#[test]
fn partial_exit_keeps_position_open_and_closes_remaining_later() {
    let mut book = plain_book();
    let mut partial = partial_exit(106.0, 1.0 / 3.0, 2_000);
    let final_exit = exit(112.0, "final exit", 3_000);

    let position = open(&mut book, &entry(100.0, 1_000), &ssu()).expect("open");
    partial.instructions[0].leg_id = position.position_id.clone();
    partial_close(&mut book, &partial).expect("partial exit");
    assert_eq!(book.list_open_by_ssu(1).len(), 1);

    let position = close(&mut book, &final_exit).expect("close");
    let expected_net = (106.0 - 100.0) / 3.0 + (112.0 - 100.0) * (2.0 / 3.0);
    assert!((value_of(position.pnl.expect("pnl")) - expected_net).abs() < 0.000001);
    let trades = book.trades();
    assert_eq!(trades.len(), 1);
    assert_eq!(trades[0].partial_exits.len(), 1);
    assert!((value_of(trades[0].remaining_qty) - 0.0).abs() < 0.000001);
}

#[test]
fn position_book_releases_open_index_after_close() {
    let mut book = plain_book();
    let ssu = ssu();
    open(&mut book, &entry(100.0, 1_000), &ssu).expect("open");
    assert!(open(&mut book, &entry(101.0, 2_000), &ssu).is_err());

    close(&mut book, &exit(110.0, "exit", 3_000)).expect("close");
    assert!(book.list_open_by_ssu(1).is_empty());

    open(&mut book, &entry(102.0, 4_000), &ssu).expect("reopen");
    let open_positions = book.list_open_by_ssu(1);
    assert_eq!(open_positions.len(), 1);
    assert_eq!(open_positions[0].entry_at, 4_000);
    assert_eq!(book.last_entry_time_by_ssu(1), Some(4_000));
    assert_eq!(book.entries_today_by_ssu(1, "1970-01-01"), 2);
    assert_eq!(book.entries_today_by_ssu(1, "1970-01-02"), 0);
}

#[test]
fn delta_fee_tax_and_funding_are_common_costs() {
    let execution = BacktestExecutionConfig {
        entry_fee_pct: Some(bits_of(0.0005)),
        exit_fee_pct: Some(bits_of(0.0005)),
        fee_tax_pct: bits_of(0.18),
        funding_rate_pct: bits_of(0.0001),
        funding_interval_hours: 8,
        funding_charge_mode: FundingChargeMode::Signed,
        ..BacktestExecutionConfig::default()
    };

    let entry_fee = trading_fee(
        100_000.0,
        1.0,
        value_of(execution.fee_pct(execution.entry_fee_pct)),
        &execution,
    );
    assert!((entry_fee - 59.0).abs() < 0.000001);

    assert_eq!(funding_snapshots(&execution, 0, 8 * 3_600_000), 2);
    let long_funding =
        funding_charge(SignalSide::Long, 100_000.0, 1.0, 0, 8 * 3_600_000, &execution);
    assert!((long_funding - 20.0).abs() < 0.000001);

    let short_funding =
        funding_charge(SignalSide::Short, 100_000.0, 1.0, 0, 8 * 3_600_000, &execution);
    assert!((short_funding + 20.0).abs() < 0.000001);
}

#[test]
fn funding_is_charged_at_whole_intervals() {
    let execution = BacktestExecutionConfig {
        funding_rate_pct: bits_of(0.0001),
        funding_interval_hours: 8,
        funding_charge_mode: FundingChargeMode::Absolute,
        ..BacktestExecutionConfig::default()
    };
    let hour: u64 = 3_600_000;
    assert_eq!(funding_snapshots(&execution, 1, 8 * hour - 1), 0);
    assert_eq!(funding_snapshots(&execution, 1, 8 * hour), 1);
    assert_eq!(funding_snapshots(&execution, 8 * hour, 24 * hour), 3);
    assert_eq!(funding_snapshots(&execution, 24 * hour, 8 * hour), 0);
    let disabled = BacktestExecutionConfig {
        funding_charge_mode: FundingChargeMode::Disabled,
        ..execution
    };
    assert_eq!(funding_snapshots(&disabled, 0, 24 * hour), 0);
}

#[test]
fn names_of_charge_modes_read_back() {
    for mode in [
        FundingChargeMode::Disabled,
        FundingChargeMode::Signed,
        FundingChargeMode::Absolute,
    ] {
        assert_eq!(FundingChargeMode::parse(mode.label()), Ok(mode));
    }
    assert!(FundingChargeMode::parse("sometimes").is_err());
}

#[test]
fn signals_of_another_sort_are_refused() {
    assert_eq!(
        read_request(&exit(1.0, "exit", 7), OrderSort::Entry).err(),
        Some(StrategyError::Rule("signal exit-7 is not an entry signal".to_string()))
    );
    assert_eq!(
        read_request(&entry(1.0, 7), OrderSort::FullExit).err(),
        Some(StrategyError::Rule("signal entry-7 is not a full exit signal".to_string()))
    );
    assert_eq!(
        read_request(&partial_exit(1.0, 1.0, 7), OrderSort::PartialExit).err(),
        Some(StrategyError::Rule(
            "signal tp1 partial-7 partial exit quantity_ratio must be between 0 and 1".to_string()
        ))
    );
    let mut empty = entry(1.0, 7);
    empty.instructions.clear();
    assert_eq!(
        read_request(&empty, OrderSort::Entry).err(),
        Some(StrategyError::Rule("signal entry-7 has no trade instructions".to_string()))
    );
    let mut book = plain_book();
    assert_eq!(
        close(&mut book, &exit(1.0, "exit", 7)).err(),
        Some(StrategyError::Rule(
            "no open virtual position found for SSU 1 instrument BTC".to_string()
        ))
    );
}

#[test]
fn limits_hold_entries_back() {
    let mut book = plain_book();
    let gapped = SsuConfig { trade_gap_secs: 60, max_overlap: 0, ..ssu() };
    open(&mut book, &entry(100.0, 1_000), &gapped).expect("open");
    assert_eq!(
        open(&mut book, &entry(100.0, 60_999), &gapped).err(),
        Some(StrategyError::Rule("SSU 1 trade_gap_secs blocked entry until 61000".to_string()))
    );
    open(&mut book, &entry(100.0, 61_000), &gapped).expect("open");
    let daily = SsuConfig { max_overlap: 0, max_positions_per_day: 2, ..ssu() };
    assert_eq!(
        open(&mut book, &entry(100.0, 70_000), &daily).err(),
        Some(StrategyError::Rule(
            "SSU 1 max_positions_per_day reached for 1970-01-01".to_string()
        ))
    );
    assert_eq!(
        open(&mut book, &entry(100.0, 70_000), &ssu()).err(),
        Some(StrategyError::Rule("SSU 1 max_overlap reached".to_string()))
    );
}

#[test]
fn an_exit_takes_the_latest_position() {
    let mut book = plain_book();
    let free = SsuConfig { max_overlap: 0, ..ssu() };
    open(&mut book, &entry(100.0, 1_000), &free).expect("open");
    open(&mut book, &entry(101.0, 2_000), &free).expect("open");
    let closed = close(&mut book, &exit(110.0, "exit", 3_000)).expect("close");
    assert_eq!(closed.position_id, "leg-2000");
    assert_eq!(closed.status, PositionStatus::Closed);
    let mut named = exit(110.0, "exit", 4_000);
    named.instructions[0].leg_id = "leg-1000".to_string();
    assert_eq!(close(&mut book, &named).expect("close").position_id, "leg-1000");
}

#[test]
fn days_of_ist_begin_before_those_of_utc() {
    assert_eq!(ist_day_key(18 * 3_600_000 + 29 * MINUTE), Ok("1970-01-01".to_string()));
    assert_eq!(ist_day_key(18 * 3_600_000 + 30 * MINUTE), Ok("1970-01-02".to_string()));
    assert_eq!(
        ist_day_key(9_000_000_000_000_000_000),
        Err(StrategyError::Parse("invalid unix millis 9000000000000000000".to_string()))
    );
}

#[test]
fn contexts_are_loaded_as_they_were_saved() {
    let mut store = InMemoryTradeContextStore::new();
    let first = read_json("{\"a\":1}").expect("json");
    let second = read_json("{\"a\":2}").expect("json");
    store.save_context("p", 1, "BTC", &first, 5);
    assert_eq!(store.load_context("p").expect("context").text, first.text);
    assert_eq!(store.load_open_contexts(1, "BTC").len(), 1);
    assert_eq!(store.load_open_contexts(2, "BTC").len(), 0);
    assert_eq!(store.update_context("p", &second, 6), Ok(()));
    assert_eq!(store.load_context("p").expect("context").text, second.text);
    store.delete_context("p");
    assert!(store.load_context("p").is_none());
    assert_eq!(
        store.update_context("p", &second, 7),
        Err(StrategyError::NotFound("missing strategy trade context for p".to_string()))
    );
}

fn minute_candle(start_minute: u64, close: f64) -> Candle {
    Candle::new(
        InstrumentName::new("BTC"),
        Timeframe::OneMinute,
        UnixMillis::new(start_minute * MINUTE),
        UnixMillis::new((start_minute + 1) * MINUTE),
        Price::new(bits_of(close)).expect("open"),
        Price::new(bits_of(close + 1.0)).expect("high"),
        Price::new(bits_of(close - 1.0)).expect("low"),
        Price::new(bits_of(close)).expect("close"),
        bits_of(0.0),
    )
}

fn minute_source(start_minute: u64, end_minute_exclusive: u64) -> Vec<Candle> {
    (start_minute..end_minute_exclusive)
        .map(|minute| minute_candle(minute, 100.0 + minute as f64))
        .collect()
}

/// The hours that candles fall into, and that none of them has a volume.
fn hours(source: &Vec<Candle>) -> (Vec<(u64, u64)>, Vec<Real>) {
    let bounds =
        candle_bounds(source, Timeframe::OneHour, CandleAlignment::utc()).expect("bounds");
    (bounds, source.iter().map(|_| bits_of(0.0)).collect())
}

#[test]
fn spans_are_counted_from_where_candles_begin() {
    let utc = CandleAlignment::utc();
    assert_eq!(
        bucket_bounds(Timeframe::OneHour, 61 * MINUTE, utc),
        Some((60 * MINUTE, 120 * MINUTE))
    );
    let nse = CandleAlignment { anchor_offset_seconds: 13_500, session_close_offset_seconds: None };
    assert_eq!(
        bucket_bounds(Timeframe::OneHour, 224 * MINUTE, nse),
        Some((165 * MINUTE, 225 * MINUTE))
    );
    assert_eq!(bucket_bounds(Timeframe::OneDay, 0, nse), None);
    assert_eq!(
        bucket_bounds(Timeframe::OneDay, 225 * MINUTE, nse),
        Some((225 * MINUTE, 1_665 * MINUTE))
    );
}

#[test]
fn aggregation_drops_latest_incomplete_bucket() {
    let source = minute_source(0, 40);
    let (bounds, volumes) = hours(&source);
    let bars = aggregate_bars("BTC", Timeframe::OneHour, &source, &bounds, &volumes);

    assert!(bars.is_empty());
}

#[test]
fn aggregation_keeps_only_completed_edge_buckets() {
    let source = minute_source(20, 120);
    let (bounds, volumes) = hours(&source);
    let bars = aggregate_bars("BTC", Timeframe::OneHour, &source, &bounds, &volumes);

    assert_eq!(bars.len(), 1);
    assert_eq!(bars[0].start_at, 60 * MINUTE);
    assert_eq!(bars[0].end_at, 120 * MINUTE);
    assert_eq!(value_of(bars[0].open), 160.0);
    assert_eq!(value_of(bars[0].high), 220.0);
    assert_eq!(value_of(bars[0].low), 159.0);
    assert_eq!(value_of(bars[0].close), 219.0);
}

#[test]
fn candles_before_a_backtest_are_the_last_ones() {
    let feed = HistoricalCandleFeed::open_with_alignments(TextMap::new());
    let none = Vec::new();
    match bars_step(&none, Timeframe::OneHour, 1) {
        BarsStep::FetchMinutes { limit } => assert_eq!(limit, 180),
        BarsStep::Ready(_) => panic!("hours are put together"),
    }
    match bars_step(&none, Timeframe::OneMinute, 1) {
        BarsStep::Ready(bars) => assert!(bars.is_empty()),
        BarsStep::FetchMinutes { .. } => panic!("minutes are not put together"),
    }
    let source = minute_source(0, 180);
    match bars_step(&source, Timeframe::OneHour, 1) {
        BarsStep::Ready(bars) => assert_eq!(bars.len(), 180),
        BarsStep::FetchMinutes { .. } => panic!("what is stored is used"),
    }
    let volumes: Vec<Real> = source.iter().map(|_| bits_of(0.0)).collect();
    let last = feed
        .load_bars_before("BTC", Timeframe::OneHour, &source, &volumes, 2)
        .expect("bars");
    let starts: Vec<u64> = last.iter().map(|bar| bar.start_at).collect();
    assert_eq!(starts, vec![60 * MINUTE, 120 * MINUTE]);
    let all =
        feed.load_bars_between("BTC", Timeframe::OneHour, &source, &volumes).expect("bars");
    assert_eq!(all.len(), 3);
    let mut alignments = TextMap::new();
    alignments.insert(
        "NSE".to_string(),
        CandleAlignment { anchor_offset_seconds: 13_500, session_close_offset_seconds: None },
    );
    let nse = HistoricalCandleFeed::open_with_alignments(alignments);
    assert_eq!(
        nse.load_bars_between("NSE", Timeframe::OneDay, &source, &volumes).err(),
        Some(StrategyError::Parse("candles of NSE are out of range".to_string()))
    );
}

#[test]
fn what_was_loaded_is_gone_through_whole() {
    let feed = HistoricalCandleFeed::open_with_alignments(TextMap::new());
    let asked = asked_bars(
        &vec!["A".to_string(), "B".to_string()],
        &vec![Timeframe::OneMinute, Timeframe::OneHour],
    );
    assert_eq!(asked.len(), 4);
    assert_eq!(asked[1], ("A".to_string(), Timeframe::OneHour));
    assert_eq!(asked[2], ("B".to_string(), Timeframe::OneMinute));
    let parts = || {
        vec![
            Ok(vec![bar("A", Timeframe::OneMinute, 20)]),
            Ok(vec![bar("A", Timeframe::OneHour, 20)]),
            Ok(vec![bar("B", Timeframe::OneMinute, 10), bar("B", Timeframe::OneMinute, 20)]),
            Ok(Vec::new()),
        ]
    };
    let replay = feed.load_replay_bars(parts()).expect("bars");
    let seen: Vec<(&str, Timeframe, u64)> = replay
        .iter()
        .map(|bar| (bar.instrument.as_str(), bar.timeframe, bar.end_at))
        .collect();
    assert_eq!(
        seen,
        vec![
            ("B", Timeframe::OneMinute, 10),
            ("A", Timeframe::OneMinute, 20),
            ("B", Timeframe::OneMinute, 20),
            ("A", Timeframe::OneHour, 20)
        ]
    );
    assert_eq!(feed.load_warmup_bars(parts(), 2).expect("bars").len(), 4);
    assert_eq!(feed.load_warmup_bars(parts(), 0).expect("bars").len(), 0);
    let mut failed = parts();
    failed[1] = Err(StrategyError::Io("first".to_string()));
    failed[3] = Err(StrategyError::Io("second".to_string()));
    assert_eq!(
        feed.load_replay_bars(failed).err(),
        Some(StrategyError::Io("first".to_string()))
    );
}

fn bar(instrument: &str, timeframe: Timeframe, end_at: u64) -> Bar {
    Bar {
        instrument: instrument.to_string(),
        timeframe,
        start_at: end_at - 1,
        end_at,
        open: bits_of(1.0),
        high: bits_of(1.0),
        low: bits_of(1.0),
        close: bits_of(1.0),
        volume: bits_of(0.0),
        is_closed: true,
    }
}

#[test]
fn candles_that_end_together_are_gone_through_together() {
    let bars = sort_bars(&vec![
        bar("B", Timeframe::OneMinute, 20),
        bar("A", Timeframe::FiveMinute, 10),
        bar("B", Timeframe::OneMinute, 10),
        bar("A", Timeframe::OneMinute, 10),
    ]);
    let names: Vec<(String, u64)> =
        bars.iter().map(|bar| (bar.instrument.clone(), bar.end_at)).collect();
    assert_eq!(
        names,
        vec![
            ("A".to_string(), 10),
            ("B".to_string(), 10),
            ("A".to_string(), 10),
            ("B".to_string(), 20)
        ]
    );
    assert_eq!(bars[2].timeframe, Timeframe::FiveMinute);
    assert_eq!(group_end(&bars, 0), 3);
    assert_eq!(group_end(&bars, 3), 4);
    assert_eq!(last_bars(&bars, 1)[0].end_at, 20);
    assert_eq!(source_limit(10, Timeframe::OneHour), 720);
    assert!(direct_bars(&Vec::new(), Timeframe::OneHour).is_none());
    assert_eq!(direct_bars(&Vec::new(), Timeframe::OneMinute).expect("none").len(), 0);
}

fn words(line: &str) -> Vec<String> {
    line.split(' ').map(str::to_string).collect()
}

#[test]
fn requests_are_read_from_the_command_line() {
    let mut numbers: Numbers = TextMap::new();
    numbers.insert(
        "0.01".to_string(),
        Decimal { value: bits_of(0.01), text: "0.01".to_string() },
    );
    let request = parse_args(
        &words("--from 2026-01-01 --to 1767312000000 --instrument BTC --instrument ETH --slippage-pct 0.01 --ssu-id 7"),
        Some("other.toml".to_string()),
        &numbers,
    )
    .expect("request");
    assert_eq!(request.config_path, "other.toml");
    assert_eq!(request.from, 1_767_225_600_000);
    assert_eq!(request.to, 1_767_312_000_000);
    assert_eq!(request.instruments, vec!["BTC".to_string(), "ETH".to_string()]);
    assert_eq!(request.ssu_ids, vec![7]);
    assert_eq!(request.execution.slippage_pct, Some(bits_of(0.01)));
    assert_eq!(check_request(&request), Ok(()));
    assert_eq!(parse_time("2026-01-01T00:30"), Ok(1_767_227_400_000));
    assert!(parse_time("soon").is_err());
    assert!(wants_help(&words("--from 1 --help")));
    assert!(!wants_help(&words("--from 1")));
}

#[test]
fn backtests_go_through_the_setups_that_are_asked_for() {
    let other = SsuConfig {
        ssu_id: 2,
        strategy_key: "other".to_string(),
        required_timeframes: vec![Timeframe::OneHour, Timeframe::OneMinute],
        ..ssu()
    };
    let request = parse_args(
        &words("--from 1 --to 2 --instrument BTC --ssu-id 2"),
        None,
        &TextMap::new(),
    )
    .expect("request");
    let chosen = load_ssus(vec![ssu(), other], &request).expect("setups");
    assert_eq!(chosen.len(), 1);
    assert_eq!(chosen[0].ssu_id, 2);
    let timeframes = required_timeframes(&chosen).expect("timeframes");
    assert!(timeframes.contains(&Timeframe::OneHour));
    assert!(timeframes.contains(&Timeframe::OneMinute));
    assert!(load_ssus(vec![ssu()], &request).is_err());
    assert_eq!(
        resolve_instruments(&vec!["BTC".to_string(), "BTC".to_string()], &Vec::new()),
        Ok(vec!["BTC".to_string()])
    );
    assert!(resolve_instruments(&Vec::new(), &Vec::new()).is_err());
}

#[test]
fn runs_are_named_by_their_moments() {
    assert_eq!(run_name(1_767_225_661), "run-20260101-000101");
}

#[test]
fn fields_are_put_in_quotes_where_they_must() {
    assert_eq!(csv_field("plain"), "plain");
    assert_eq!(csv_field("a,b"), "\"a,b\"");
    assert_eq!(csv_field("a\"b"), "\"a\"\"b\"");
    assert_eq!(csv_field("a\nb"), "\"a\nb\"");
}

fn shown(values: &[f64]) -> Shown {
    let mut shown: Shown = PairMap::new();
    for value in values {
        shown.insert((value.to_bits(), 0), format!("{value:.8}"));
    }
    shown
}

#[test]
fn reports_tell_what_was_traded() {
    let mut book = plain_book();
    let mut signal = entry(100.0, 1_000);
    signal.metadata = read_json("{\"rsi\":30}").expect("json");
    open(&mut book, &signal, &ssu()).expect("open");
    close(&mut book, &exit(110.0, "exit", 2_000)).expect("close");
    let trades = book.trades();
    let ssus = vec![SsuConfig { params_json: "{\"len\":14}".to_string(), ..ssu() }];
    let index = SsuReportIndex::new(&ssus).expect("index");
    let keys = collect_entry_metadata_keys(&trades);
    assert_eq!(keys, vec!["rsi".to_string()]);
    let numbers = shown(&[0.0, 1.0, 10.0, 100.0, 110.0]);
    let mut partial: TextMap<String> = TextMap::new();
    partial.insert("leg-1000".to_string(), "[]".to_string());
    let orderbook = orderbook_csv(&trades, &index, &keys, &numbers, &partial);
    let lines: Vec<&str> = orderbook.lines().collect();
    assert_eq!(lines.len(), 2);
    assert!(lines[0].starts_with("position_id,ssu_id,strategy,ssu_enabled,"));
    assert!(lines[0].contains(",ssu_param_len,setup_rsi,instrument,side,"));
    assert!(lines[1].starts_with("leg-1000,1,test,true,"));
    assert!(lines[1].contains(",14,30,BTC,LONG,CLOSED,"));

    let rows = summary_rows(&ssus, &trades, &vec!["BTC".to_string()]);
    assert_eq!(rows.len(), 1);
    let counts = count_trades(&trades, &rows[0].places);
    assert_eq!((counts.closed_trades, counts.open_positions), (1, 0));
    assert_eq!((counts.wins, counts.losses), (1, 0));
    assert_eq!(counts.net_values, vec![bits_of(10.0)]);
    let metrics = SummaryMetrics {
        closed_trades: 1,
        open_positions: 0,
        wins: 1,
        losses: 0,
        win_rate: bits_of(100.0),
        gross_pnl: bits_of(10.0),
        charges: bits_of(0.0),
        net_pnl: bits_of(10.0),
        max_drawdown: bits_of(0.0),
        profit_factor: None,
        expectancy: bits_of(10.0),
        avg_win: Some(bits_of(10.0)),
        avg_loss: None,
        avg_trade: bits_of(10.0),
    };
    let costs = book.execution();
    let input = BacktestReportInput {
        instruments: vec!["BTC".to_string()],
        from: 1,
        to: 2,
        warmup_bars: 3,
        replay_bars: 4,
        slippage_pct: costs.slippage_pct,
        brokerage_pct: costs.brokerage_pct,
        entry_fee_pct: None,
        exit_fee_pct: None,
        fee_tax_pct: costs.fee_tax_pct,
        fixed_fee_per_order: costs.fixed_fee_per_order,
        funding_rate_pct: costs.funding_rate_pct,
        funding_interval_hours: costs.funding_interval_hours,
        funding_charge_mode: costs.funding_charge_mode,
        ssus: vec![SsuConfig { params_json: "{\"len\":14}".to_string(), ..ssu() }],
    };
    let summary = summary_csv(&rows, &vec![metrics], &input, &index, &numbers);
    assert_eq!(summary.lines().count(), 2);
}
