//! The configuration of the application, as plain values.
use crate::binary64::Real;
use crate::feeder::error::{outcome, FeedError, FeedFault};
use crate::text::{
    all_of_one_is_stripped, lower, lower_of, same, strip_end, strip_end_of, trim, trim_of, upper,
    upper_of,
};
use vstd::prelude::*;

verus! {

#[derive(Debug)]
pub struct AppConfig {
    pub feeder: FeederSection,
    pub market_sessions: Vec<MarketSessionSection>,
    pub brokers: BrokersSection,
    pub historical_candles: Option<HistoricalCandlesSection>,
    pub strategy: Option<StrategySection>,
    pub backtest: Option<BacktestSection>,
    pub admin: Option<AdminSection>,
    pub master_scheduler: Option<MasterSchedulerSection>,
    pub login_scheduler: Option<LoginSchedulerSection>,
    pub channels: ChannelsSection,
    pub runtime: Option<RuntimeSection>,
    pub strategy_runtime: StrategyRuntimeConfig,
}

#[derive(Debug)]
pub struct FeederSection {
    pub mode: String,
    pub feed_brokers: Vec<String>,
}

#[derive(Debug)]
pub struct BrokersSection {
    pub config_dir: Option<String>,
    pub delta: Option<DeltaBrokerSection>,
    pub fyers: Option<FyersBrokerSection>,
    pub dbinternational: Option<DbinternationalBrokerSection>,
    pub angelone: Option<AngeloneBrokerSection>,
}

/// When the exchanges of a group trade.
#[derive(Debug)]
pub struct MarketSessionSection {
    pub id: String,
    pub exchanges: Vec<String>,
    pub timezone: String,
    pub open: Option<String>,
    pub close: Option<String>,
    pub always_open: bool,
    pub connect_before_open_secs: u64,
    pub weekdays_only: bool,
}

#[derive(Debug)]
pub struct DeltaBrokerSection {
    pub base_instruments_csv: String,
    pub derivatives_csv: String,
    pub master_csv: String,
    pub ticker_channel: Option<String>,
    pub latest_prices_file: Option<String>,
    pub latest_prices_underlying: Option<String>,
    pub console_logging: Option<bool>,
    pub instrument_types: Vec<String>,
    pub strike_distance_pct: Real,
    pub refresh_trigger_pct: Real,
    pub rest_url_env: String,
    pub ws_public_url_env: String,
    pub ws_private_url_env: String,
    pub api_key_env: String,
    pub api_secret_env: String,
}

#[derive(Debug)]
pub struct FyersBrokerSection {
    pub base_instruments_csv: String,
    pub derivatives_csv: String,
    pub master_data_dir: String,
    pub master_urls: Vec<(String, String)>,
    pub instrument_types: Vec<String>,
    pub strike_distance_pct: Real,
    pub refresh_trigger_pct: Real,
    pub data_ws_url: String,
    pub access_token_file: String,
    pub app_id_env: Option<String>,
    pub latest_prices_file: Option<String>,
    pub console_logging: Option<bool>,
    pub market_sessions: Option<Vec<FyersMarketSessionSection>>,
}

#[derive(Debug)]
pub struct FyersMarketSessionSection {
    pub enabled: bool,
    pub name: String,
    pub timezone: String,
    pub open_ist: String,
    pub close_ist: String,
    pub connect_before_open_secs: u64,
    pub weekdays_only: bool,
}

#[derive(Debug)]
pub struct DbinternationalBrokerSection {
    pub market_data_base_url: String,
    pub market_data_app_key_env: String,
    pub market_data_secret_key_env: String,
    pub market_data_token_file: String,
    pub market_data_session_file: Option<String>,
    pub market_data_master_file: String,
    pub market_data_exchange_segments: Vec<String>,
    pub market_data_socket_path: String,
    pub market_data_publish_format: String,
    pub market_data_broadcast_mode: String,
    pub market_data_subscribe_symbols: Vec<String>,
    pub latest_prices_file: Option<String>,
    pub interactive_base_url: String,
    pub interactive_app_key_env: String,
    pub interactive_secret_key_env: String,
    pub interactive_unique_key_env: Option<String>,
    pub interactive_unique_key_file: Option<String>,
    pub interactive_access_token_env: Option<String>,
    pub interactive_access_token_file: Option<String>,
    pub interactive_token_file: String,
    pub interactive_session_file: Option<String>,
    pub console_logging: Option<bool>,
    pub derivatives_csv: String,
    pub market_data_index_file: String,
    pub instrument_types: Vec<String>,
    pub strike_distance_pct: Real,
    pub refresh_trigger_pct: Real,
}

#[derive(Debug)]
pub struct AngeloneBrokerSection {
    pub api_key_env: String,
    pub client_code_env: String,
    pub password_env: String,
    pub totp_code_env: Option<String>,
    pub totp_secret_env: Option<String>,
    pub state: String,
    pub login_url: String,
    pub client_local_ip: String,
    pub client_public_ip: String,
    pub mac_address: String,
    pub session_file: String,
    pub master_url: String,
    pub master_file: String,
    pub websocket_url: String,
    pub websocket_mode: u8,
    pub websocket_subscription_limit: usize,
    pub websocket_subscription_batch_size: usize,
    pub base_instruments_csv: String,
    pub derivatives_csv: String,
    pub latest_prices_file: Option<String>,
    pub console_logging: Option<bool>,
    pub instrument_types: Vec<String>,
    pub strike_distance_pct: Real,
    pub refresh_trigger_pct: Real,
}

#[derive(Debug)]
pub struct ChannelsSection {
    pub price_tick: bool,
    pub price_candles: Vec<String>,
}

#[derive(Debug)]
pub struct HistoricalCandlesSection {
    pub enabled: bool,
    pub sqlite_path: String,
    pub one_minute_days: u32,
    pub one_day_days: u32,
    pub maintenance_time_ist: String,
    pub reconcile_one_minute_days: u32,
    pub reconcile_one_day_days: u32,
}

#[derive(Debug)]
pub struct StrategySection {
    pub enabled: bool,
    pub sqlite_path: String,
    pub warmup_bars: usize,
    pub recent_bars: usize,
}

#[derive(Debug)]
pub struct BacktestSection {
    pub output_dir: Option<String>,
    pub historical_candles_sqlite_path: Option<String>,
    pub execution: Option<BacktestExecutionSection>,
}

#[derive(Debug)]
pub struct BacktestExecutionSection {
    pub slippage_pct: Real,
    pub brokerage_pct: Real,
    pub entry_fee_pct: Option<Real>,
    pub exit_fee_pct: Option<Real>,
    pub fee_tax_pct: Real,
    pub fixed_fee_per_order: Real,
    pub funding_rate_pct: Real,
    pub funding_interval_hours: u64,
    pub funding_charge_mode: String,
}

#[derive(Debug)]
pub struct AdminSection {
    pub enabled: bool,
    pub bind_addr: String,
}

#[derive(Debug)]
pub struct MasterSchedulerSection {
    pub enabled: bool,
    pub time_ist: String,
    pub weekdays_only: bool,
}

#[derive(Debug)]
pub struct LoginSchedulerSection {
    pub enabled: bool,
    pub time_ist: String,
    pub weekdays_only: bool,
}

#[derive(Debug)]
pub struct RuntimeSection {
    pub max_events: Option<usize>,
}

#[derive(Clone, Copy, Debug)]
pub struct StrategyRuntimeConfig {
    pub diagnostics: StrategyDiagnosticsSection,
}

#[derive(Clone, Copy, Debug)]
pub struct StrategyDiagnosticsSection {
    pub closed_candle_decisions: bool,
    pub warmup_replay: bool,
}

/// Which derivatives a broker follows.
#[derive(Debug)]
pub struct InstrumentSelection {
    pub instrument_types: Vec<String>,
    pub strike_distance_pct: Real,
    pub refresh_trigger_pct: Real,
}

impl Default for StrategyDiagnosticsSection {
    fn default() -> (r: StrategyDiagnosticsSection)
        ensures
            !r.closed_candle_decisions,
            !r.warmup_replay,
    {
        StrategyDiagnosticsSection { closed_candle_decisions: false, warmup_replay: false }
    }
}

/// The name that a broker goes by: without white space around it, in upper case, and
/// with its short name written out.
pub open spec fn broker_name_of(value: Seq<char>) -> Seq<char> {
    let name = upper_of(trim_of(value));
    if name == "DB"@ || name == "DBINTERNATIONAL"@ {
        "DBINTERNATIONAL"@
    } else {
        name
    }
}

/// The name that a broker goes by.
pub fn normalize_broker_name(value: &str) -> (r: String)
    ensures
        r@ == broker_name_of(value@),
{
    let name = upper(trim(value).as_str());
    if same(name.as_str(), "DB") || same(name.as_str(), "DBINTERNATIONAL") {
        "DBINTERNATIONAL".to_owned()
    } else {
        name
    }
}

/// Whether two names are of the same broker.
pub fn broker_name_matches(configured: &str, wanted: &str) -> (r: bool)
    ensures
        r == (broker_name_of(configured@) == broker_name_of(wanted@)),
{
    same(normalize_broker_name(configured).as_str(), normalize_broker_name(wanted).as_str())
}

impl AppConfig {
    /// Whether a broker is among those that the feeder is to take data from.
    pub fn feed_broker_enabled(&self, broker: &str) -> (r: bool)
        ensures
            r == exists|i: int|
                0 <= i < self.feeder.feed_brokers@.len() && broker_name_of(
                    (#[trigger] self.feeder.feed_brokers@[i])@,
                ) == broker_name_of(broker@),
    {
        let list = &self.feeder.feed_brokers;
        let mut i: usize = 0;
        while i < list.len()
            invariant
                i <= list@.len(),
                list == &self.feeder.feed_brokers,
                forall|k: int|
                    0 <= k < i ==> broker_name_of((#[trigger] list@[k])@) != broker_name_of(
                        broker@,
                    ),
            decreases list@.len() - i,
        {
            if broker_name_matches(list[i].as_str(), broker) {
                return true;
            }
            i += 1;
        }
        false
    }
}

/// An address without the slashes at its end, and a path behind it.
pub open spec fn url_of(base: Seq<char>, path: Seq<char>) -> Seq<char> {
    strip_end_of(base, '/') + path
}

/// An address without the slashes at its end, and a path behind it.
pub fn join_url(base: &str, path: &str) -> (r: String)
    ensures
        r@ == url_of(base@, path@),
{
    strip_end(base, '/').concat(path)
}

impl DbinternationalBrokerSection {
    pub fn market_data_login_url(&self) -> (r: String)
        ensures
            r@ == url_of(self.market_data_base_url@, "/auth/login"@),
    {
        join_url(self.market_data_base_url.as_str(), "/auth/login")
    }

    pub fn market_data_master_url(&self) -> (r: String)
        ensures
            r@ == url_of(self.market_data_base_url@, "/instruments/master"@),
    {
        join_url(self.market_data_base_url.as_str(), "/instruments/master")
    }

    pub fn interactive_login_url(&self) -> (r: String)
        ensures
            r@ == url_of(self.interactive_base_url@, "/user/session"@),
    {
        join_url(self.interactive_base_url.as_str(), "/user/session")
    }
}

/// What a switch in the environment says.
pub open spec fn switch_of(name: Seq<char>, value: Seq<char>) -> Result<bool, FeedFault> {
    let v = lower_of(trim_of(value));
    if v == "1"@ || v == "true"@ || v == "yes"@ || v == "on"@ {
        Ok(true)
    } else if v == "0"@ || v == "false"@ || v == "no"@ || v == "off"@ {
        Ok(false)
    } else {
        Err(
            FeedFault::Config(
                "invalid boolean env "@ + name + "="@ + v + "; expected true/false"@,
            ),
        )
    }
}

/// Reads a switch from the value of an environment variable.
pub fn parse_bool_env(name: &str, value: &str) -> (r: Result<bool, FeedError>)
    ensures
        outcome(r) == switch_of(name@, value@),
{
    let v = lower(trim(value).as_str());
    let text = v.as_str();
    if same(text, "1") || same(text, "true") || same(text, "yes") || same(text, "on") {
        Ok(true)
    } else if same(text, "0") || same(text, "false") || same(text, "no") || same(text, "off") {
        Ok(false)
    } else {
        let mut message = "invalid boolean env ".to_owned();
        message.append(name);
        message.append("=");
        message.append(text);
        message.append("; expected true/false");
        Err(FeedError::Config(message))
    }
}

/// The diagnostics switches after the environment has had its say.
pub open spec fn overridden_of(
    config: StrategyRuntimeConfig,
    closed_candle_decisions: Option<Seq<char>>,
    warmup_replay: Option<Seq<char>>,
) -> Result<StrategyRuntimeConfig, FeedFault> {
    let first = match closed_candle_decisions {
        Some(v) => switch_of("STRATEGY_DIAGNOSTICS_CLOSED_CANDLE_DECISIONS"@, v),
        None => Ok(config.diagnostics.closed_candle_decisions),
    };
    let second = match warmup_replay {
        Some(v) => switch_of("STRATEGY_DIAGNOSTICS_WARMUP_REPLAY"@, v),
        None => Ok(config.diagnostics.warmup_replay),
    };
    match first {
        Err(e) => Err(e),
        Ok(a) => match second {
            Err(e) => Err(e),
            Ok(b) => Ok(
                StrategyRuntimeConfig {
                    diagnostics: StrategyDiagnosticsSection {
                        closed_candle_decisions: a,
                        warmup_replay: b,
                    },
                },
            ),
        },
    }
}

/// Lets the values of two environment variables, where they are set, decide the
/// diagnostics switches.
pub fn apply_strategy_env_overrides(
    config: StrategyRuntimeConfig,
    closed_candle_decisions: Option<&str>,
    warmup_replay: Option<&str>,
) -> (r: Result<StrategyRuntimeConfig, FeedError>)
    ensures
        ({
            let expected = overridden_of(
                config,
                match closed_candle_decisions {
                    Some(v) => Some(v@),
                    None => None,
                },
                match warmup_replay {
                    Some(v) => Some(v@),
                    None => None,
                },
            );
            match r {
                Ok(c) => expected == Ok::<StrategyRuntimeConfig, FeedFault>(c),
                Err(e) => expected == Err::<StrategyRuntimeConfig, FeedFault>(e@),
            }
        }),
{
    let a: bool = match closed_candle_decisions {
        Some(v) => match parse_bool_env("STRATEGY_DIAGNOSTICS_CLOSED_CANDLE_DECISIONS", v) {
            Ok(b) => b,
            Err(e) => return Err(e),
        },
        None => config.diagnostics.closed_candle_decisions,
    };
    let b: bool = match warmup_replay {
        Some(v) => match parse_bool_env("STRATEGY_DIAGNOSTICS_WARMUP_REPLAY", v) {
            Ok(b) => b,
            Err(e) => return Err(e),
        },
        None => config.diagnostics.warmup_replay,
    };
    Ok(
        StrategyRuntimeConfig {
            diagnostics: StrategyDiagnosticsSection {
                closed_candle_decisions: a,
                warmup_replay: b,
            },
        },
    )
}

/// What is said of an environment variable that is not set.
pub fn missing_env(name: &str) -> (r: FeedError)
    ensures
        r@ == FeedFault::Config("missing environment variable "@ + name@),
{
    FeedError::Config("missing environment variable ".to_owned().concat(name))
}

pub fn default_historical_one_minute_days() -> (r: u32)
    ensures
        r == 90,
{
    90
}

pub fn default_historical_one_day_days() -> (r: u32)
    ensures
        r == 300,
{
    300
}

pub fn default_historical_maintenance_time_ist() -> (r: String)
    ensures
        r@ == "00:10"@,
{
    "00:10".to_owned()
}

pub fn default_historical_reconcile_one_minute_days() -> (r: u32)
    ensures
        r == 2,
{
    2
}

pub fn default_historical_reconcile_one_day_days() -> (r: u32)
    ensures
        r == 5,
{
    5
}

pub fn default_dbinternational_socket_path() -> (r: String)
    ensures
        r@ == "/apibinarymarketdata/socket.io"@,
{
    "/apibinarymarketdata/socket.io".to_owned()
}

pub fn default_dbinternational_publish_format() -> (r: String)
    ensures
        r@ == "JSON"@,
{
    "JSON".to_owned()
}

pub fn default_dbinternational_broadcast_mode() -> (r: String)
    ensures
        r@ == "Full"@,
{
    "Full".to_owned()
}

pub fn default_strategy_warmup_bars() -> (r: usize)
    ensures
        r == 512,
{
    512
}

pub fn default_strategy_recent_bars() -> (r: usize)
    ensures
        r == 512,
{
    512
}

pub fn default_backtest_funding_interval_hours() -> (r: u64)
    ensures
        r == 8,
{
    8
}

/// The section of a broker: the one in a file of its own, where there is such a file, or else
/// the one in the configuration itself.
pub fn prefer_external<T>(external: Option<T>, inline: Option<T>) -> (r: Option<T>)
    ensures
        r == match external {
            Some(section) => Some(section),
            None => inline,
        },
{
    match external {
        Some(section) => Some(section),
        None => inline,
    }
}

/// What the environment says of the diagnostics comes before what is set, each of the two for
/// itself, and what it does not speak of stays as it is set.
pub proof fn environment_comes_before_settings(
    config: StrategyRuntimeConfig,
    decisions: Option<Seq<char>>,
    replay: Option<Seq<char>>,
)
    ensures
        overridden_of(config, decisions, replay) matches Ok(r) ==> {
            &&& decisions is None ==> r.diagnostics.closed_candle_decisions
                == config.diagnostics.closed_candle_decisions
            &&& replay is None ==> r.diagnostics.warmup_replay == config.diagnostics.warmup_replay
            &&& decisions is Some ==> {
                let v = lower_of(trim_of(decisions->0));
                &&& r.diagnostics.closed_candle_decisions ==> v == "1"@ || v == "true"@ || v
                    == "yes"@ || v == "on"@
                &&& !r.diagnostics.closed_candle_decisions ==> v == "0"@ || v == "false"@ || v
                    == "no"@ || v == "off"@
            }
            &&& replay is Some ==> {
                let v = lower_of(trim_of(replay->0));
                &&& r.diagnostics.warmup_replay ==> v == "1"@ || v == "true"@ || v == "yes"@ || v
                    == "on"@
                &&& !r.diagnostics.warmup_replay ==> v == "0"@ || v == "false"@ || v == "no"@ || v
                    == "off"@
            }
        },
        decisions is None && replay is None ==> overridden_of(config, decisions, replay) is Ok,
{
}

/// An address has one slash between its base and a path that begins with one, however many the
/// base ends with.
pub proof fn addresses_have_one_slash(base: Seq<char>, path: Seq<char>)
    ensures
        ({
            let url = url_of(base, path);
            let n = url.len() - path.len();
            &&& n >= 0
            &&& url.skip(n) == path
            &&& url.take(n) == base.take(n)
            &&& n > 0 ==> url[n - 1] != '/'
        }),
        url_of(base + seq!['/'], path) == url_of(base, path),
{
    all_of_one_is_stripped(base, '/');
    let kept = strip_end_of(base, '/');
    let url = url_of(base, path);
    assert(url.skip(kept.len() as int) =~= path);
    assert(url.take(kept.len() as int) =~= kept);
    assert((base + seq!['/']).drop_last() =~= base);
}

} // verus!
