//! How a backtest is set up and run.
use crate::backtest::stores::{
    charge_mode_fault, charge_mode_of, zero, BacktestExecutionConfig, FundingChargeMode,
};
use crate::binary64::{text_facts, Real};
use crate::calendar::{civil_from_days, date_of};
use crate::config::{AppConfig, BacktestExecutionSection, HistoricalCandlesSection};
use crate::feeder::candle_alignment::{
    aligned_at, candle_alignments_from_catalog, CandleAlignmentMap,
};
use crate::feeder::catalog::{InstrumentCatalog, InstrumentDefinition, InstrumentType};
use crate::feeder::event::Timeframe;
use crate::feeder::market_session::MarketSessionSchedule;
use crate::order::{ascending_items, ascending_of, sorted_keys, TextMap, TextSet};
use crate::strategy::{SsuConfig, StrategyError, StrategyFault};
use crate::text::{
    case_is_all_that_changes, copy_texts, lower, lower_of, padded, padded_of, same_ignoring_case,
    split, split_of, trim, trim_of, views,
};
use vstd::prelude::*;

verus! {

/// The costs that are asked for in place of those that are set up.
#[derive(Clone, Copy, Debug)]
pub struct BacktestExecutionOverrides {
    pub slippage_pct: Option<Real>,
    pub brokerage_pct: Option<Real>,
    pub entry_fee_pct: Option<Real>,
    pub exit_fee_pct: Option<Real>,
    pub fee_tax_pct: Option<Real>,
    pub fixed_fee_per_order: Option<Real>,
    pub funding_rate_pct: Option<Real>,
    pub funding_interval_hours: Option<u64>,
    pub funding_charge_mode: Option<FundingChargeMode>,
}

impl Default for BacktestExecutionOverrides {
    fn default() -> (r: BacktestExecutionOverrides)
        ensures
            r == (BacktestExecutionOverrides {
                slippage_pct: None,
                brokerage_pct: None,
                entry_fee_pct: None,
                exit_fee_pct: None,
                fee_tax_pct: None,
                fixed_fee_per_order: None,
                funding_rate_pct: None,
                funding_interval_hours: None,
                funding_charge_mode: None,
            }),
    {
        BacktestExecutionOverrides {
            slippage_pct: None,
            brokerage_pct: None,
            entry_fee_pct: None,
            exit_fee_pct: None,
            fee_tax_pct: None,
            fixed_fee_per_order: None,
            funding_rate_pct: None,
            funding_interval_hours: None,
            funding_charge_mode: None,
        }
    }
}

/// What is to be tried, and over which time, in milliseconds.
#[derive(Debug)]
pub struct BacktestRequest {
    pub config_path: String,
    pub from: u64,
    pub to: u64,
    pub instruments: Vec<String>,
    pub strategy_key: Option<String>,
    pub ssu_ids: Vec<i64>,
    pub output_dir: Option<String>,
    pub warmup_bars: Option<usize>,
    pub recent_bars: Option<usize>,
    pub execution: BacktestExecutionOverrides,
}

/// What a backtest came to.
#[derive(Debug)]
pub struct BacktestOutcome {
    pub output_dir: String,
    pub orderbook_path: String,
    pub summary_path: String,
    pub warmup_bars: usize,
    pub replay_bars: usize,
    pub trades: usize,
    pub open_positions: usize,
    pub net_pnl: Real,
}

/// What is wrong with what is asked for, if anything.
pub open spec fn request_fault(request: BacktestRequest) -> Option<StrategyFault> {
    if request.from >= request.to {
        Some(StrategyFault::Config("backtest --from must be before --to"@))
    } else if request.strategy_key is None && request.ssu_ids@.len() == 0 {
        Some(
            StrategyFault::Config(
                "backtest requires explicit --strategy or --ssu to avoid running the wrong SSU"@,
            ),
        )
    } else {
        None
    }
}

/// Whether what is asked for can be tried.
pub fn check_request(request: &BacktestRequest) -> (r: Result<(), StrategyError>)
    ensures
        match r {
            Ok(_) => request_fault(*request) is None,
            Err(e) => request_fault(*request) == Some(e@),
        },
{
    if request.from >= request.to {
        return Err(StrategyError::Config("backtest --from must be before --to".to_owned()));
    }
    if request.strategy_key.is_none() && request.ssu_ids.len() == 0 {
        return Err(
            StrategyError::Config(
                "backtest requires explicit --strategy or --ssu to avoid running the wrong SSU".to_owned(),
            ),
        );
    }
    Ok(())
}

/// What a backtest needs of the configuration: how many candles strategies see before it and
/// at once, and where candles are kept.
#[derive(Debug)]
pub struct BacktestSetup {
    pub strategy_sqlite_path: String,
    pub historical_sqlite_path: String,
    pub warmup_bars: usize,
    pub recent_bars: usize,
}

/// Where the candles of a backtest are kept: at a place of its own, where that is set up.
pub open spec fn sqlite_path_of(config: AppConfig, historical: HistoricalCandlesSection) -> Seq<char> {
    match config.backtest {
        Some(backtest) => match backtest.historical_candles_sqlite_path {
            Some(path) => path@,
            None => historical.sqlite_path@,
        },
        None => historical.sqlite_path@,
    }
}

pub fn resolve_historical_sqlite_path(config: &AppConfig, historical: &HistoricalCandlesSection) -> (r:
    String)
    ensures
        r@ == sqlite_path_of(*config, *historical),
{
    match &config.backtest {
        Some(backtest) => match &backtest.historical_candles_sqlite_path {
            Some(path) => path.clone(),
            None => historical.sqlite_path.clone(),
        },
        None => historical.sqlite_path.clone(),
    }
}

/// What a backtest needs of the configuration.
pub fn resolve_setup(config: &AppConfig, request: &BacktestRequest) -> (r: Result<
    BacktestSetup,
    StrategyError,
>)
    ensures
        match r {
            Ok(setup) => {
                &&& config.strategy is Some
                &&& config.historical_candles is Some
                &&& setup.strategy_sqlite_path@ == (config.strategy->0).sqlite_path@
                &&& setup.historical_sqlite_path@ == sqlite_path_of(
                    *config,
                    config.historical_candles->0,
                )
                &&& setup.warmup_bars == match request.warmup_bars {
                    Some(n) => n,
                    None => (config.strategy->0).warmup_bars,
                }
                &&& setup.recent_bars == match request.recent_bars {
                    Some(n) => n,
                    None => (config.strategy->0).recent_bars,
                }
            },
            Err(e) => e@ == if config.strategy is None {
                StrategyFault::Config("missing [strategy] config"@)
            } else {
                StrategyFault::Config("missing [historical_candles] config"@)
            } && (config.strategy is None || config.historical_candles is None),
        },
{
    let strategy = match &config.strategy {
        Some(strategy) => strategy,
        None => return Err(StrategyError::Config("missing [strategy] config".to_owned())),
    };
    let historical = match &config.historical_candles {
        Some(historical) => historical,
        None => return Err(
            StrategyError::Config("missing [historical_candles] config".to_owned()),
        ),
    };
    Ok(
        BacktestSetup {
            strategy_sqlite_path: strategy.sqlite_path.clone(),
            historical_sqlite_path: resolve_historical_sqlite_path(config, historical),
            warmup_bars: match request.warmup_bars {
                Some(n) => n,
                None => strategy.warmup_bars,
            },
            recent_bars: match request.recent_bars {
                Some(n) => n,
                None => strategy.recent_bars,
            },
        },
    )
}

/// The costs that nothing is set up for.
pub open spec fn no_costs() -> BacktestExecutionConfig {
    BacktestExecutionConfig {
        slippage_pct: zero(),
        brokerage_pct: zero(),
        entry_fee_pct: None,
        exit_fee_pct: None,
        fee_tax_pct: zero(),
        fixed_fee_per_order: zero(),
        funding_rate_pct: zero(),
        funding_interval_hours: 8,
        funding_charge_mode: FundingChargeMode::Disabled,
    }
}

/// The costs that are set up.
pub open spec fn configured_costs(section: Option<BacktestExecutionSection>) -> Result<
    BacktestExecutionConfig,
    StrategyFault,
> {
    match section {
        None => Ok(no_costs()),
        Some(execution) => match charge_mode_of(execution.funding_charge_mode@) {
            None => Err(charge_mode_fault(execution.funding_charge_mode@)),
            Some(funding_charge_mode) => Ok(
                BacktestExecutionConfig {
                    slippage_pct: execution.slippage_pct,
                    brokerage_pct: execution.brokerage_pct,
                    entry_fee_pct: execution.entry_fee_pct,
                    exit_fee_pct: execution.exit_fee_pct,
                    fee_tax_pct: execution.fee_tax_pct,
                    fixed_fee_per_order: execution.fixed_fee_per_order,
                    funding_rate_pct: execution.funding_rate_pct,
                    funding_interval_hours: execution.funding_interval_hours,
                    funding_charge_mode,
                },
            ),
        },
    }
}

pub open spec fn or_else_real(asked: Option<Real>, set: Real) -> Real {
    match asked {
        Some(value) => value,
        None => set,
    }
}

pub open spec fn or_else_option(asked: Option<Real>, set: Option<Real>) -> Option<Real> {
    match asked {
        Some(value) => Some(value),
        None => set,
    }
}

/// The costs with those that are asked for in their place.
pub open spec fn overridden(c: BacktestExecutionConfig, o: BacktestExecutionOverrides) -> BacktestExecutionConfig {
    BacktestExecutionConfig {
        slippage_pct: or_else_real(o.slippage_pct, c.slippage_pct),
        brokerage_pct: or_else_real(o.brokerage_pct, c.brokerage_pct),
        entry_fee_pct: or_else_option(o.entry_fee_pct, c.entry_fee_pct),
        exit_fee_pct: or_else_option(o.exit_fee_pct, c.exit_fee_pct),
        fee_tax_pct: or_else_real(o.fee_tax_pct, c.fee_tax_pct),
        fixed_fee_per_order: or_else_real(o.fixed_fee_per_order, c.fixed_fee_per_order),
        funding_rate_pct: or_else_real(o.funding_rate_pct, c.funding_rate_pct),
        funding_interval_hours: match o.funding_interval_hours {
            Some(value) => value,
            None => c.funding_interval_hours,
        },
        funding_charge_mode: match o.funding_charge_mode {
            Some(value) => value,
            None => c.funding_charge_mode,
        },
    }
}

fn instead(asked: Option<Real>, set: Real) -> (r: Real)
    ensures
        r == or_else_real(asked, set),
{
    match asked {
        Some(value) => value,
        None => set,
    }
}

fn instead_if_any(asked: Option<Real>, set: Option<Real>) -> (r: Option<Real>)
    ensures
        r == or_else_option(asked, set),
{
    match asked {
        Some(value) => Some(value),
        None => set,
    }
}

/// The section with the costs of backtests.
pub open spec fn execution_section(config: AppConfig) -> Option<BacktestExecutionSection> {
    match config.backtest {
        Some(backtest) => backtest.execution,
        None => None,
    }
}

/// The costs of a backtest.
pub fn resolve_execution_config(config: &AppConfig, overrides: BacktestExecutionOverrides) -> (r:
    Result<BacktestExecutionConfig, StrategyError>)
    ensures
        match configured_costs(execution_section(*config)) {
            Err(fault) => r matches Err(e) && e@ == fault,
            Ok(costs) => match r {
                Ok(execution) => execution == overridden(costs, overrides) && execution.is_valid(),
                Err(e) => !overridden(costs, overrides).is_valid() && e@ == StrategyFault::Config(
                    "backtest execution costs must be finite and non-negative"@,
                ),
            },
        },
{
    let section = match &config.backtest {
        Some(backtest) => match &backtest.execution {
            Some(execution) => Some(execution),
            None => None,
        },
        None => None,
    };
    let costs = match section {
        None => BacktestExecutionConfig::default(),
        Some(execution) => {
            let mode = match FundingChargeMode::parse(execution.funding_charge_mode.as_str()) {
                Ok(mode) => mode,
                Err(e) => return Err(e),
            };
            BacktestExecutionConfig {
                slippage_pct: execution.slippage_pct,
                brokerage_pct: execution.brokerage_pct,
                entry_fee_pct: execution.entry_fee_pct,
                exit_fee_pct: execution.exit_fee_pct,
                fee_tax_pct: execution.fee_tax_pct,
                fixed_fee_per_order: execution.fixed_fee_per_order,
                funding_rate_pct: execution.funding_rate_pct,
                funding_interval_hours: execution.funding_interval_hours,
                funding_charge_mode: mode,
            }
        },
    };
    let execution = BacktestExecutionConfig {
        slippage_pct: instead(overrides.slippage_pct, costs.slippage_pct),
        brokerage_pct: instead(overrides.brokerage_pct, costs.brokerage_pct),
        entry_fee_pct: instead_if_any(overrides.entry_fee_pct, costs.entry_fee_pct),
        exit_fee_pct: instead_if_any(overrides.exit_fee_pct, costs.exit_fee_pct),
        fee_tax_pct: instead(overrides.fee_tax_pct, costs.fee_tax_pct),
        fixed_fee_per_order: instead(overrides.fixed_fee_per_order, costs.fixed_fee_per_order),
        funding_rate_pct: instead(overrides.funding_rate_pct, costs.funding_rate_pct),
        funding_interval_hours: match overrides.funding_interval_hours {
            Some(value) => value,
            None => costs.funding_interval_hours,
        },
        funding_charge_mode: match overrides.funding_charge_mode {
            Some(value) => value,
            None => costs.funding_charge_mode,
        },
    };
    match execution.validate() {
        Ok(_) => Ok(execution),
        Err(e) => Err(e),
    }
}

/// The parts of a list between commas that say something, in a set.
pub open spec fn said_parts(parts: Seq<Seq<char>>) -> Set<Seq<char>>
    decreases parts.len(),
{
    if parts.len() == 0 {
        Set::empty()
    } else {
        let before = said_parts(parts.drop_last());
        let part = trim_of(parts.last());
        if part.len() == 0 {
            before
        } else {
            before.insert(part)
        }
    }
}

/// The instruments that are asked for, each name by itself or between commas.
pub open spec fn asked_instruments(list: Seq<Seq<char>>) -> Set<Seq<char>>
    decreases list.len(),
{
    if list.len() == 0 {
        Set::empty()
    } else {
        asked_instruments(list.drop_last()).union(said_parts(split_of(list.last(), ',')))
    }
}

fn take_said_parts(set: &mut TextSet, parts: &Vec<String>)
    ensures
        final(set)@ == old(set)@.union(said_parts(views(parts@))),
{
    let ghost start = set@;
    let ghost all = views(parts@);
    let mut i: usize = 0;
    assert(all.take(0) =~= Seq::empty());
    assert(set@ =~= start.union(Set::empty()));
    while i < parts.len()
        invariant
            i <= parts@.len(),
            all == views(parts@),
            set@ == start.union(said_parts(all.take(i as int))),
        decreases parts@.len() - i,
    {
        assert(all.take(i + 1).drop_last() =~= all.take(i as int));
        assert(all.take(i + 1).last() == parts@[i as int]@);
        let part = trim(parts[i].as_str());
        let ghost before = set@;
        if !part.as_str().is_empty() {
            let _new = set.insert(part);
        }
        i += 1;
        assert(set@ =~= start.union(said_parts(all.take(i as int))));
    }
    assert(all.take(i as int) =~= all);
}

/// The names of the instruments of a list that are traded themselves.
pub open spec fn spots_of(list: Seq<InstrumentDefinition>) -> Set<Seq<char>>
    decreases list.len(),
{
    if list.len() == 0 {
        Set::empty()
    } else {
        let before = spots_of(list.drop_last());
        let i = list.last();
        if i.instrument_type == InstrumentType::Spot && i.tradable {
            before.insert(i.instrument_name@)
        } else {
            before
        }
    }
}

/// The names of the instruments of catalogs that are traded themselves.
pub open spec fn catalog_spots(lists: Seq<Vec<InstrumentDefinition>>) -> Set<Seq<char>>
    decreases lists.len(),
{
    if lists.len() == 0 {
        Set::empty()
    } else {
        catalog_spots(lists.drop_last()).union(spots_of(lists.last()@))
    }
}

fn collect_spots(set: &mut TextSet, list: &Vec<InstrumentDefinition>)
    ensures
        final(set)@ == old(set)@.union(spots_of(list@)),
{
    let ghost start = set@;
    let mut i: usize = 0;
    assert(list@.take(0) =~= Seq::empty());
    assert(set@ =~= start.union(Set::empty()));
    while i < list.len()
        invariant
            i <= list@.len(),
            set@ == start.union(spots_of(list@.take(i as int))),
        decreases list@.len() - i,
    {
        assert(list@.take(i + 1).drop_last() =~= list@.take(i as int));
        if !list[i].is_derivative() && list[i].tradable {
            let _new = set.insert(list[i].instrument_name.to_text());
        }
        i += 1;
        assert(set@ =~= start.union(spots_of(list@.take(i as int))));
    }
    assert(list@.take(i as int) =~= list@);
}

/// The instruments of a backtest: those that are asked for, or those of the catalogs that are
/// traded themselves. `catalogs` has the instruments of the brokers that are set up.
pub fn resolve_instruments(asked: &Vec<String>, catalogs: &Vec<Vec<InstrumentDefinition>>) -> (r:
    Result<Vec<String>, StrategyError>)
    ensures
        ({
            let named = asked_instruments(views(asked@));
            let set = if named == Set::<Seq<char>>::empty() {
                catalog_spots(catalogs@)
            } else {
                named
            };
            match r {
                Ok(list) => set != Set::<Seq<char>>::empty() && views(list@) == ascending_of(set),
                Err(e) => set == Set::<Seq<char>>::empty() && e@ == StrategyFault::Config(
                    "backtest requires at least one --instrument or configured spot instrument"@,
                ),
            }
        }),
{
    let ghost all = views(asked@);
    let mut set = TextSet::new();
    let mut i: usize = 0;
    assert(all.take(0) =~= Seq::empty());
    while i < asked.len()
        invariant
            i <= asked@.len(),
            all == views(asked@),
            set@ == asked_instruments(all.take(i as int)),
        decreases asked@.len() - i,
    {
        assert(all.take(i + 1).drop_last() =~= all.take(i as int));
        assert(all.take(i + 1).last() == asked@[i as int]@);
        let parts = split(asked[i].as_str(), ',');
        take_said_parts(&mut set, &parts);
        i += 1;
    }
    assert(all.take(i as int) =~= all);
    if set.is_empty() {
        let mut k: usize = 0;
        assert(catalogs@.take(0) =~= Seq::empty());
        while k < catalogs.len()
            invariant
                k <= catalogs@.len(),
                set@ == catalog_spots(catalogs@.take(k as int)),
            decreases catalogs@.len() - k,
        {
            assert(catalogs@.take(k + 1).drop_last() =~= catalogs@.take(k as int));
            collect_spots(&mut set, &catalogs[k]);
            k += 1;
        }
        assert(catalogs@.take(k as int) =~= catalogs@);
    }
    if set.is_empty() {
        return Err(
            StrategyError::Config(
                "backtest requires at least one --instrument or configured spot instrument".to_owned(),
            ),
        );
    }
    Ok(copy_texts(ascending_items(&set)))
}

/// Whether a strategy is one of those that are asked for.
pub open spec fn is_wanted(ssu: SsuConfig, strategy_key: Option<Seq<char>>, ssu_ids: Seq<i64>) -> bool {
    &&& strategy_key matches Some(key) ==> lower_of(trim_of(ssu.strategy_key@)) == lower_of(
        lower_of(trim_of(key)),
    )
    &&& ssu_ids.len() > 0 ==> ssu_ids.contains(ssu.ssu_id)
}

/// The strategies of a list that are asked for.
pub open spec fn wanted_of(list: Seq<SsuConfig>, strategy_key: Option<Seq<char>>, ssu_ids: Seq<i64>) -> Seq<
    SsuConfig,
>
    decreases list.len(),
{
    if list.len() == 0 {
        Seq::empty()
    } else {
        let before = wanted_of(list.drop_last(), strategy_key, ssu_ids);
        if is_wanted(list.last(), strategy_key, ssu_ids) {
            before.push(list.last())
        } else {
            before
        }
    }
}

fn holds_id(ids: &Vec<i64>, id: i64) -> (r: bool)
    ensures
        r == ids@.contains(id),
{
    let mut i: usize = 0;
    while i < ids.len()
        invariant
            i <= ids@.len(),
            forall|k: int| 0 <= k < i ==> ids@[k] != id,
        decreases ids@.len() - i,
    {
        if ids[i] == id {
            assert(ids@[i as int] == id);
            return true;
        }
        i += 1;
    }
    false
}

/// The strategies that are asked for, out of all.
pub fn load_ssus(all: Vec<SsuConfig>, request: &BacktestRequest) -> (r: Result<
    Vec<SsuConfig>,
    StrategyError,
>)
    ensures
        ({
            let key = text_facts(request.strategy_key);
            let wanted = wanted_of(all@, key, request.ssu_ids@);
            match r {
                Ok(list) => wanted.len() > 0 && list@ == wanted,
                Err(e) => wanted.len() == 0 && e@ == StrategyFault::Config(
                    "no active SSUs matched the backtest filters"@,
                ),
            }
        }),
{
    let ghost key = text_facts(request.strategy_key);
    let ghost list = all@;
    let ghost mut done: int = 0;
    let mut rest = all;
    let mut behind: Vec<SsuConfig> = Vec::new();
    while rest.len() > 0
        invariant
            rest@.len() + behind@.len() == list.len(),
            forall|k: int| 0 <= k < rest@.len() ==> rest@[k] == list[k],
            forall|k: int|
                0 <= k < behind@.len() ==> #[trigger] behind@[k] == list[list.len() - 1 - k],
        decreases rest@.len(),
    {
        if let Some(one) = rest.pop() {
            behind.push(one);
        }
    }
    let mut out: Vec<SsuConfig> = Vec::new();
    assert(list.take(0) =~= Seq::empty());
    while behind.len() > 0
        invariant
            0 <= done <= list.len(),
            done == list.len() - behind@.len(),
            key == text_facts(request.strategy_key),
            forall|k: int|
                0 <= k < behind@.len() ==> #[trigger] behind@[k] == list[list.len() - 1 - k],
            out@ == wanted_of(list.take(done), key, request.ssu_ids@),
        decreases behind@.len(),
    {
        let ghost n = behind@.len();
        assert(behind@[n - 1] == list[done]);
        if let Some(one) = behind.pop() {
            assert(list.take(done + 1).drop_last() =~= list.take(done));
            assert(list.take(done + 1).last() == one);
            let named = match &request.strategy_key {
                Some(wanted) => same_ignoring_case(
                    trim(one.strategy_key.as_str()).as_str(),
                    lower(trim(wanted.as_str()).as_str()).as_str(),
                ),
                None => true,
            };
            let numbered = request.ssu_ids.len() == 0 || holds_id(&request.ssu_ids, one.ssu_id);
            if named && numbered {
                out.push(one);
            }
            proof {
                done = done + 1;
            }
        }
    }
    assert(list.take(done) =~= list);
    if out.len() == 0 {
        return Err(
            StrategyError::Config("no active SSUs matched the backtest filters".to_owned()),
        );
    }
    Ok(out)
}

/// The timeframes, from the shortest on as they are listed.
pub open spec fn timeframe_at(i: int) -> Timeframe {
    if i == 0 {
        Timeframe::OneMinute
    } else if i == 1 {
        Timeframe::ThreeMinute
    } else if i == 2 {
        Timeframe::FiveMinute
    } else if i == 3 {
        Timeframe::FifteenMinute
    } else if i == 4 {
        Timeframe::ThirtyMinute
    } else if i == 5 {
        Timeframe::SeventyFiveMinute
    } else if i == 6 {
        Timeframe::OneHour
    } else if i == 7 {
        Timeframe::FourHour
    } else {
        Timeframe::OneDay
    }
}

fn nth_timeframe(i: usize) -> (r: Timeframe)
    ensures
        r == timeframe_at(i as int),
{
    if i == 0 {
        Timeframe::OneMinute
    } else if i == 1 {
        Timeframe::ThreeMinute
    } else if i == 2 {
        Timeframe::FiveMinute
    } else if i == 3 {
        Timeframe::FifteenMinute
    } else if i == 4 {
        Timeframe::ThirtyMinute
    } else if i == 5 {
        Timeframe::SeventyFiveMinute
    } else if i == 6 {
        Timeframe::OneHour
    } else if i == 7 {
        Timeframe::FourHour
    } else {
        Timeframe::OneDay
    }
}

/// Whether a strategy looks at a timeframe, itself or through an indicator.
pub open spec fn looks_at(ssu: SsuConfig, timeframe: Timeframe) -> bool {
    ||| ssu.required_timeframes@.contains(timeframe)
    ||| exists|i: int|
        0 <= i < ssu.indicator_specs@.len() && (#[trigger] ssu.indicator_specs@[i]).timeframe
            == timeframe
}

/// Whether one of some strategies looks at a timeframe.
pub open spec fn is_required(ssus: Seq<SsuConfig>, timeframe: Timeframe) -> bool {
    exists|i: int| 0 <= i < ssus.len() && looks_at(#[trigger] ssus[i], timeframe)
}

/// The first timeframes that strategies look at, as they are listed.
pub open spec fn required_up_to(ssus: Seq<SsuConfig>, n: nat) -> Seq<Timeframe>
    decreases n,
{
    if n == 0 {
        Seq::empty()
    } else {
        let before = required_up_to(ssus, (n - 1) as nat);
        if is_required(ssus, timeframe_at(n - 1)) {
            before.push(timeframe_at(n - 1))
        } else {
            before
        }
    }
}

fn needs(ssu: &SsuConfig, timeframe: Timeframe) -> (r: bool)
    ensures
        r == looks_at(*ssu, timeframe),
{
    let mut i: usize = 0;
    while i < ssu.required_timeframes.len()
        invariant
            i <= ssu.required_timeframes@.len(),
            forall|k: int| 0 <= k < i ==> ssu.required_timeframes@[k] != timeframe,
        decreases ssu.required_timeframes@.len() - i,
    {
        if ssu.required_timeframes[i] == timeframe {
            assert(ssu.required_timeframes@[i as int] == timeframe);
            return true;
        }
        i += 1;
    }
    let mut j: usize = 0;
    while j < ssu.indicator_specs.len()
        invariant
            j <= ssu.indicator_specs@.len(),
            !ssu.required_timeframes@.contains(timeframe),
            forall|k: int| 0 <= k < j ==> (#[trigger] ssu.indicator_specs@[k]).timeframe != timeframe,
        decreases ssu.indicator_specs@.len() - j,
    {
        if ssu.indicator_specs[j].timeframe == timeframe {
            assert(ssu.indicator_specs@[j as int].timeframe == timeframe);
            return true;
        }
        j += 1;
    }
    false
}

fn one_needs(ssus: &Vec<SsuConfig>, timeframe: Timeframe) -> (r: bool)
    ensures
        r == is_required(ssus@, timeframe),
{
    let mut i: usize = 0;
    while i < ssus.len()
        invariant
            i <= ssus@.len(),
            forall|k: int| 0 <= k < i ==> !looks_at(#[trigger] ssus@[k], timeframe),
        decreases ssus@.len() - i,
    {
        if needs(&ssus[i], timeframe) {
            assert(looks_at(ssus@[i as int], timeframe));
            return true;
        }
        i += 1;
    }
    false
}

/// The timeframes that strategies look at, each once, as they are listed.
pub fn required_timeframes(ssus: &Vec<SsuConfig>) -> (r: Result<Vec<Timeframe>, StrategyError>)
    ensures
        match r {
            Ok(list) => list@.len() > 0 && list@ == required_up_to(ssus@, 9),
            Err(e) => required_up_to(ssus@, 9).len() == 0 && e@ == StrategyFault::Config(
                "matched SSUs do not declare any required timeframes"@,
            ),
        },
{
    let mut out: Vec<Timeframe> = Vec::new();
    let mut i: usize = 0;
    while i < 9
        invariant
            i <= 9,
            out@ == required_up_to(ssus@, i as nat),
        decreases 9 - i,
    {
        let timeframe = nth_timeframe(i);
        if one_needs(ssus, timeframe) {
            out.push(timeframe);
        }
        i += 1;
    }
    if out.len() == 0 {
        return Err(
            StrategyError::Config("matched SSUs do not declare any required timeframes".to_owned()),
        );
    }
    Ok(out)
}

/// The name of a run that begins at a moment.
pub open spec fn run_name_of(now_utc: u64) -> Seq<char> {
    let date = date_of((now_utc / 86_400) as int);
    let second = now_utc % 86_400;
    "run-"@ + padded_of(date.0 as nat, 4) + padded_of(date.1 as nat, 2) + padded_of(
        date.2 as nat,
        2,
    ) + "-"@ + padded_of((second / 3_600) as nat, 2) + padded_of(
        (second / 60 % 60) as nat,
        2,
    ) + padded_of((second % 60) as nat, 2)
}

/// The name of a run that begins at a moment.
pub fn run_name(now_utc: u64) -> (r: String)
    ensures
        r@ == run_name_of(now_utc),
{
    let (year, month, day) = civil_from_days((now_utc / 86_400) as i64);
    let second: u64 = now_utc % 86_400;
    let mut out = "run-".to_owned();
    out.append(padded(year as u64, 4).as_str());
    out.append(padded(month as u64, 2).as_str());
    out.append(padded(day as u64, 2).as_str());
    out.append("-");
    out.append(padded(second / 3_600, 2).as_str());
    out.append(padded(second / 60 % 60, 2).as_str());
    out.append(padded(second % 60, 2).as_str());
    out
}

/// Where the reports of a backtest go.
#[derive(Debug, PartialEq, Eq)]
pub enum OutputDir {
    /// Into this directory.
    At(String),
    /// Into a directory of this name in another.
    Under(String, String),
}

/// Where the reports of a backtest go: as is asked for, or into a directory of the run in the
/// one that is set up.
pub fn resolve_output_dir(config: &AppConfig, request: &BacktestRequest, now_utc: u64) -> (r: OutputDir)
    ensures
        match r {
            OutputDir::At(dir) => request.output_dir matches Some(asked) && dir@ == asked@,
            OutputDir::Under(root, name) => request.output_dir is None && root@ == (
            match config.backtest {
                Some(backtest) => match backtest.output_dir {
                    Some(dir) => dir@,
                    None => "backtests"@,
                },
                None => "backtests"@,
            }) && name@ == run_name_of(now_utc),
        },
{
    if let Some(dir) = &request.output_dir {
        return OutputDir::At(dir.clone());
    }
    let root = match &config.backtest {
        Some(backtest) => match &backtest.output_dir {
            Some(dir) => dir.clone(),
            None => "backtests".to_owned(),
        },
        None => "backtests".to_owned(),
    };
    OutputDir::Under(root, run_name(now_utc))
}

/// The exchange of an instrument in the last of some catalogs that have it.
pub open spec fn last_exchange(catalogs: Seq<InstrumentCatalog>, name: Seq<char>) -> Option<Seq<char>>
    decreases catalogs.len(),
{
    if catalogs.len() == 0 {
        None
    } else if catalogs.last()@.contains_key(name) {
        Some(catalogs.last()@[name].exchange@)
    } else {
        last_exchange(catalogs.drop_last(), name)
    }
}

fn put_all(target: &mut CandleAlignmentMap, source: &CandleAlignmentMap)
    ensures
        final(target)@ == old(target)@.union_prefer_right(source@),
{
    let ghost start = target@;
    let names = sorted_keys(source);
    let ghost keys = views(names@);
    let mut i: usize = 0;
    while i < names.len()
        invariant
            i <= names@.len(),
            keys == views(names@),
            keys.to_set() == source@.dom(),
            forall|k: Seq<char>| #[trigger]
                target@.contains_key(k) <==> start.contains_key(k) || keys.take(i as int).contains(k),
            forall|k: Seq<char>| #[trigger]
                target@.contains_key(k) ==> target@[k] == if keys.take(i as int).contains(k) {
                    source@[k]
                } else {
                    start[k]
                },
        decreases names@.len() - i,
    {
        let ghost before = target@;
        assert(keys.to_set().contains(keys[i as int]));
        assert(keys[i as int] == names@[i as int]@);
        if let Some(alignment) = source.get(names[i].as_str()) {
            target.insert(names[i].clone(), *alignment);
        }
        proof {
            let t = keys.take(i as int);
            let u = keys.take(i + 1);
            assert(u =~= t.push(keys[i as int]));
            assert forall|k: Seq<char>| u.contains(k) <==> t.contains(k) || k == keys[i as int] by {
                if t.contains(k) {
                    let j = choose|j: int| 0 <= j < t.len() && t[j] == k;
                    assert(u[j] == k);
                }
                if k == keys[i as int] {
                    assert(u[i as int] == k);
                }
                if u.contains(k) && k != keys[i as int] {
                    let j = choose|j: int| 0 <= j < u.len() && u[j] == k;
                    assert(t[j] == k);
                }
            }
        }
        i += 1;
    }
    proof {
        assert(keys.take(i as int) =~= keys);
        assert forall|k: Seq<char>| keys.contains(k) <==> source@.contains_key(k) by {
            assert(keys.to_set().contains(k) <==> source@.dom().contains(k));
        }
        assert(target@ =~= start.union_prefer_right(source@));
    }
}

/// The spans that the candles of the instruments of catalogs are put together in. Of an
/// instrument that several have, the last decides.
pub fn load_candle_alignments(
    catalogs: &Vec<InstrumentCatalog>,
    market_sessions: &MarketSessionSchedule,
) -> (r: CandleAlignmentMap)
    ensures
        forall|k: Seq<char>| #[trigger]
            r@.contains_key(k) <==> last_exchange(catalogs@, k) is Some,
        forall|k: Seq<char>| #[trigger]
            r@.contains_key(k) ==> aligned_at(
                market_sessions.policies(),
                last_exchange(catalogs@, k)->0,
                r@[k],
            ),
{
    let mut out: CandleAlignmentMap = TextMap::new();
    let mut i: usize = 0;
    assert(catalogs@.take(0) =~= Seq::empty());
    while i < catalogs.len()
        invariant
            i <= catalogs@.len(),
            forall|k: Seq<char>| #[trigger]
                out@.contains_key(k) <==> last_exchange(catalogs@.take(i as int), k) is Some,
            forall|k: Seq<char>| #[trigger]
                out@.contains_key(k) ==> aligned_at(
                    market_sessions.policies(),
                    last_exchange(catalogs@.take(i as int), k)->0,
                    out@[k],
                ),
        decreases catalogs@.len() - i,
    {
        let ghost before = out@;
        assert(catalogs@.take(i + 1).drop_last() =~= catalogs@.take(i as int));
        assert(catalogs@.take(i + 1).last() == catalogs@[i as int]);
        let more = candle_alignments_from_catalog(&catalogs[i], market_sessions);
        put_all(&mut out, &more);
        proof {
            assert forall|k: Seq<char>| #[trigger]
                out@.contains_key(k) <==> last_exchange(catalogs@.take(i + 1), k) is Some by {
                assert(more@.contains_key(k) <==> catalogs@[i as int]@.contains_key(k));
                assert(before.contains_key(k) <==> last_exchange(catalogs@.take(i as int), k) is Some);
            }
            assert forall|k: Seq<char>| #[trigger] out@.contains_key(k) implies aligned_at(
                market_sessions.policies(),
                last_exchange(catalogs@.take(i + 1), k)->0,
                out@[k],
            ) by {
                assert(more@.contains_key(k) <==> catalogs@[i as int]@.contains_key(k));
                assert(before.contains_key(k) <==> last_exchange(catalogs@.take(i as int), k) is Some);
            }
        }
        i += 1;
    }
    assert(catalogs@.take(i as int) =~= catalogs@);
    out
}

/// Each cost that is asked for takes the place of the one that is set, and each that is not asked
/// for stays as it is set.
pub proof fn asked_costs_come_first(c: BacktestExecutionConfig, o: BacktestExecutionOverrides)
    ensures
        ({
            let r = overridden(c, o);
            &&& o.slippage_pct is Some ==> r.slippage_pct == o.slippage_pct->0
            &&& o.slippage_pct is None ==> r.slippage_pct == c.slippage_pct
            &&& o.brokerage_pct is Some ==> r.brokerage_pct == o.brokerage_pct->0
            &&& o.brokerage_pct is None ==> r.brokerage_pct == c.brokerage_pct
            &&& o.entry_fee_pct is Some ==> r.entry_fee_pct == o.entry_fee_pct
            &&& o.entry_fee_pct is None ==> r.entry_fee_pct == c.entry_fee_pct
            &&& o.exit_fee_pct is Some ==> r.exit_fee_pct == o.exit_fee_pct
            &&& o.exit_fee_pct is None ==> r.exit_fee_pct == c.exit_fee_pct
            &&& o.fee_tax_pct is Some ==> r.fee_tax_pct == o.fee_tax_pct->0
            &&& o.fee_tax_pct is None ==> r.fee_tax_pct == c.fee_tax_pct
            &&& o.fixed_fee_per_order is Some ==> r.fixed_fee_per_order == o.fixed_fee_per_order->0
            &&& o.fixed_fee_per_order is None ==> r.fixed_fee_per_order == c.fixed_fee_per_order
            &&& o.funding_rate_pct is Some ==> r.funding_rate_pct == o.funding_rate_pct->0
            &&& o.funding_rate_pct is None ==> r.funding_rate_pct == c.funding_rate_pct
            &&& o.funding_interval_hours is Some ==> r.funding_interval_hours
                == o.funding_interval_hours->0
            &&& o.funding_interval_hours is None ==> r.funding_interval_hours
                == c.funding_interval_hours
            &&& o.funding_charge_mode is Some ==> r.funding_charge_mode == o.funding_charge_mode->0
            &&& o.funding_charge_mode is None ==> r.funding_charge_mode == c.funding_charge_mode
        }),
{
}

/// The costs that are set are those of the section, each for itself; without one there are none.
pub proof fn set_costs_are_those_of_the_section(section: BacktestExecutionSection)
    ensures
        configured_costs(Some(section)) is Ok <==> charge_mode_of(
            section.funding_charge_mode@,
        ) is Some,
        configured_costs(Some(section)) matches Ok(c) ==> {
            &&& c.slippage_pct == section.slippage_pct
            &&& c.brokerage_pct == section.brokerage_pct
            &&& c.entry_fee_pct == section.entry_fee_pct
            &&& c.exit_fee_pct == section.exit_fee_pct
            &&& c.fee_tax_pct == section.fee_tax_pct
            &&& c.fixed_fee_per_order == section.fixed_fee_per_order
            &&& c.funding_rate_pct == section.funding_rate_pct
            &&& c.funding_interval_hours == section.funding_interval_hours
            &&& charge_mode_of(section.funding_charge_mode@) == Some(c.funding_charge_mode)
        },
        configured_costs(None) matches Ok(c) && c.slippage_pct.bits == 0 && c.brokerage_pct.bits == 0
            && c.entry_fee_pct is None && c.exit_fee_pct is None && c.fee_tax_pct.bits == 0
            && c.fixed_fee_per_order.bits == 0 && c.funding_rate_pct.bits == 0
            && c.funding_charge_mode == FundingChargeMode::Disabled,
{
}

/// What is tried are the units of the strategy that is asked for and of the numbers that are, and
/// all of these, in their order.
pub proof fn wanted_are_those_asked_for(
    list: Seq<SsuConfig>,
    strategy_key: Option<Seq<char>>,
    ssu_ids: Seq<i64>,
    it: SsuConfig,
)
    ensures
        wanted_of(list, strategy_key, ssu_ids).contains(it) <==> {
            &&& list.contains(it)
            &&& strategy_key is Some ==> lower_of(trim_of(it.strategy_key@)) == lower_of(
                trim_of(strategy_key->0),
            )
            &&& ssu_ids.len() > 0 ==> ssu_ids.contains(it.ssu_id)
        },
        wanted_of(list, strategy_key, ssu_ids).len() <= list.len(),
    decreases list.len(),
{
    if strategy_key is Some {
        case_is_all_that_changes(trim_of(strategy_key->0));
    }
    let all = wanted_of(list, strategy_key, ssu_ids);
    if list.len() > 0 {
        let d = list.drop_last();
        let n = list.len() - 1;
        wanted_are_those_asked_for(d, strategy_key, ssu_ids, it);
        let before = wanted_of(d, strategy_key, ssu_ids);
        assert(list[n] == list.last());
        if before.contains(it) {
            let k = choose|k: int| 0 <= k < before.len() && before[k] == it;
            assert(all[k] == it);
        }
        if d.contains(it) {
            let k = choose|k: int| 0 <= k < d.len() && d[k] == it;
            assert(list[k] == it);
        }
        if list.contains(it) && list.last() != it {
            let k = choose|k: int| 0 <= k < list.len() && list[k] == it;
            assert(d[k] == it);
        }
        if all.contains(it) && !before.contains(it) {
            let k = choose|k: int| 0 <= k < all.len() && all[k] == it;
            if k < before.len() {
                assert(before[k] == it);
            }
        }
        if all.len() > before.len() {
            assert(all[before.len() as int] == list.last());
        }
    }
}

/// The timeframes that are looked at are those that a unit requires or has an indicator over, all
/// of them and each once.
pub proof fn required_timeframes_are_all_that_are_looked_at(
    ssus: Seq<SsuConfig>,
    timeframe: Timeframe,
)
    ensures
        required_up_to(ssus, 9).contains(timeframe) <==> exists|i: int|
            0 <= i < ssus.len() && {
                ||| (#[trigger] ssus[i]).required_timeframes@.contains(timeframe)
                ||| exists|k: int|
                    0 <= k < ssus[i].indicator_specs@.len() && (
                    #[trigger] ssus[i].indicator_specs@[k]).timeframe == timeframe
            },
        required_up_to(ssus, 9).no_duplicates(),
{
    required_so_far(ssus, 9, timeframe);
    let at = place_among(timeframe);
    assert(timeframe_at(at) == timeframe);
    if is_required(ssus, timeframe) {
        let i = choose|i: int| 0 <= i < ssus.len() && looks_at(#[trigger] ssus[i], timeframe);
        assert(ssus[i].required_timeframes@.contains(timeframe) || exists|k: int|
            0 <= k < ssus[i].indicator_specs@.len() && (#[trigger] ssus[i].indicator_specs@[k]).timeframe
                == timeframe);
    }
    if exists|i: int|
        0 <= i < ssus.len() && {
            ||| (#[trigger] ssus[i]).required_timeframes@.contains(timeframe)
            ||| exists|k: int|
                0 <= k < ssus[i].indicator_specs@.len() && (
                #[trigger] ssus[i].indicator_specs@[k]).timeframe == timeframe
        } {
        let i = choose|i: int|
            0 <= i < ssus.len() && {
                ||| (#[trigger] ssus[i]).required_timeframes@.contains(timeframe)
                ||| exists|k: int|
                    0 <= k < ssus[i].indicator_specs@.len() && (
                    #[trigger] ssus[i].indicator_specs@[k]).timeframe == timeframe
            };
        assert(looks_at(ssus[i], timeframe));
    }
}

spec fn place_among(timeframe: Timeframe) -> int {
    match timeframe {
        Timeframe::OneMinute => 0,
        Timeframe::ThreeMinute => 1,
        Timeframe::FiveMinute => 2,
        Timeframe::FifteenMinute => 3,
        Timeframe::ThirtyMinute => 4,
        Timeframe::SeventyFiveMinute => 5,
        Timeframe::OneHour => 6,
        Timeframe::FourHour => 7,
        Timeframe::OneDay => 8,
    }
}

proof fn required_so_far(ssus: Seq<SsuConfig>, n: nat, timeframe: Timeframe)
    requires
        n <= 9,
    ensures
        required_up_to(ssus, n).contains(timeframe) <==> place_among(timeframe) < n && is_required(
            ssus,
            timeframe,
        ),
        required_up_to(ssus, n).no_duplicates(),
        forall|i: int|
            0 <= i < required_up_to(ssus, n).len() ==> place_among(
                #[trigger] required_up_to(ssus, n)[i],
            ) < n,
    decreases n,
{
    if n > 0 {
        required_so_far(ssus, (n - 1) as nat, timeframe);
        let before = required_up_to(ssus, (n - 1) as nat);
        let all = required_up_to(ssus, n);
        assert(place_among(timeframe_at(n - 1)) == n - 1);
        assert(timeframe_at(place_among(timeframe)) == timeframe);
        if before.contains(timeframe) {
            let k = choose|k: int| 0 <= k < before.len() && before[k] == timeframe;
            assert(all[k] == timeframe);
        }
        if all.contains(timeframe) && !before.contains(timeframe) {
            let k = choose|k: int| 0 <= k < all.len() && all[k] == timeframe;
            if k < before.len() {
                assert(before[k] == timeframe);
            }
        }
        if all.len() > before.len() {
            assert(all[before.len() as int] == timeframe_at(n - 1));
            assert forall|i: int| 0 <= i < all.len() implies place_among(#[trigger] all[i]) < n by {
                if i < before.len() {
                    assert(all[i] == before[i]);
                }
            }
            assert forall|i: int, j: int| 0 <= i < j < all.len() implies all[i] != all[j] by {
                assert(all[i] == before[i]);
                assert(place_among(before[i]) < n - 1);
                if j < before.len() {
                    assert(all[j] == before[j]);
                }
            }
        }
    }
}

/// The instruments that are asked for are the names that are listed, with commas or one by one,
/// without the blanks round them.
pub proof fn asked_instruments_are_listed(list: Seq<Seq<char>>, name: Seq<char>)
    ensures
        asked_instruments(list).contains(name) <==> name.len() > 0 && exists|i: int, k: int|
            {
                &&& 0 <= i < list.len()
                &&& 0 <= k < split_of(list[i], ',').len()
                &&& trim_of(#[trigger] split_of(list[i], ',')[k]) == name
            },
    decreases list.len(),
{
    if list.len() > 0 {
        let d = list.drop_last();
        let n = list.len() - 1;
        asked_instruments_are_listed(d, name);
        parts_are_said(split_of(list[n], ','), name);
        assert(list[n] == list.last());
        assert forall|i: int|
            #![trigger d[i]]
            #![trigger list[i]]
            0 <= i < n implies d[i] == list[i] by {}
        if asked_instruments(d).contains(name) {
            let (i, k) = choose|i: int, k: int|
                {
                    &&& 0 <= i < d.len()
                    &&& 0 <= k < split_of(d[i], ',').len()
                    &&& trim_of(#[trigger] split_of(d[i], ',')[k]) == name
                };
            assert(trim_of(split_of(list[i], ',')[k]) == name);
        }
        if said_parts(split_of(list[n], ',')).contains(name) {
            let parts = split_of(list[n], ',');
            let k = choose|k: int| 0 <= k < parts.len() && trim_of(#[trigger] parts[k]) == name;
            assert(trim_of(split_of(list[n], ',')[k]) == name);
        }
        if name.len() > 0 && exists|i: int, k: int|
            {
                &&& 0 <= i < list.len()
                &&& 0 <= k < split_of(list[i], ',').len()
                &&& trim_of(#[trigger] split_of(list[i], ',')[k]) == name
            } {
            let (i, k) = choose|i: int, k: int|
                {
                    &&& 0 <= i < list.len()
                    &&& 0 <= k < split_of(list[i], ',').len()
                    &&& trim_of(#[trigger] split_of(list[i], ',')[k]) == name
                };
            if i < n {
                assert(trim_of(split_of(d[i], ',')[k]) == name);
            } else {
                let parts = split_of(list[n], ',');
                assert(trim_of(parts[k]) == name);
            }
        }
    }
}

proof fn parts_are_said(parts: Seq<Seq<char>>, name: Seq<char>)
    ensures
        said_parts(parts).contains(name) <==> name.len() > 0 && exists|k: int|
            0 <= k < parts.len() && trim_of(#[trigger] parts[k]) == name,
    decreases parts.len(),
{
    if parts.len() > 0 {
        let d = parts.drop_last();
        let n = parts.len() - 1;
        parts_are_said(d, name);
        assert(parts[n] == parts.last());
        assert forall|i: int|
            #![trigger d[i]]
            #![trigger parts[i]]
            0 <= i < n implies d[i] == parts[i] by {}
        if said_parts(d).contains(name) {
            let k = choose|k: int| 0 <= k < d.len() && trim_of(#[trigger] d[k]) == name;
            assert(trim_of(parts[k]) == name);
        }
    }
}

/// The spots of some catalogs are the instruments of these that are spots and can be traded.
pub proof fn spots_can_be_traded(list: Seq<InstrumentDefinition>, name: Seq<char>)
    ensures
        spots_of(list).contains(name) <==> exists|i: int|
            {
                &&& 0 <= i < list.len()
                &&& (#[trigger] list[i]).instrument_name@ == name
                &&& list[i].tradable
                &&& list[i].instrument_type == InstrumentType::Spot
            },
    decreases list.len(),
{
    if list.len() > 0 {
        let d = list.drop_last();
        let n = list.len() - 1;
        spots_can_be_traded(d, name);
        assert(list[n] == list.last());
        assert forall|i: int|
            #![trigger d[i]]
            #![trigger list[i]]
            0 <= i < n implies d[i] == list[i] by {}
        if spots_of(d).contains(name) {
            let i = choose|i: int|
                {
                    &&& 0 <= i < d.len()
                    &&& (#[trigger] d[i]).instrument_name@ == name
                    &&& d[i].tradable
                    &&& d[i].instrument_type == InstrumentType::Spot
                };
            assert(list[i] == d[i]);
        }
    }
}

/// The exchange of an instrument is that of the last catalog that has it.
pub proof fn last_catalog_tells_the_exchange(
    catalogs: Seq<InstrumentCatalog>,
    name: Seq<char>,
    i: int,
)
    requires
        0 <= i < catalogs.len(),
        catalogs[i]@.contains_key(name),
        forall|k: int| i < k < catalogs.len() ==> !(#[trigger] catalogs[k])@.contains_key(name),
    ensures
        last_exchange(catalogs, name) == Some(catalogs[i]@[name].exchange@),
    decreases catalogs.len(),
{
    if i < catalogs.len() - 1 {
        let d = catalogs.drop_last();
        assert(!catalogs[catalogs.len() - 1]@.contains_key(name));
        assert forall|k: int| i < k < d.len() implies !(#[trigger] d[k])@.contains_key(name) by {
            assert(d[k] == catalogs[k]);
        }
        last_catalog_tells_the_exchange(d, name, i);
    }
}

/// A backtest is refused where it would end before it begins, or where neither a strategy nor a
/// unit is named, and only there.
pub proof fn backtests_are_over_some_time(request: BacktestRequest)
    ensures
        request_fault(request) is None <==> request.from < request.to && (request.strategy_key is Some
            || request.ssu_ids@.len() > 0),
{
}

} // verus!
