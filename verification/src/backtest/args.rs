//! What is asked for on the command line of a backtest.
use crate::backtest::engine::{BacktestExecutionOverrides, BacktestRequest};
use crate::backtest::stores::{charge_mode_fault, charge_mode_of, FundingChargeMode};
use crate::binary64::{find_number, number_in, text_facts, Decimal, Numbers, Real};
use crate::calendar::{chrono_date_millis, chrono_time_millis, date_millis, time_millis};
use crate::feeder::catalog::{float_fault, float_fault_of};
use crate::strategy::StrategyFault;
use crate::text::{
    all_digits, chars_of, decimal_of, decimals_read_back, i64_fault, i64_fault_of, number_fault,
    number_fault_of, padding_changes_no_number, parse_i64, parse_i64_of, parse_of, parse_up_to, same,
    signed_decimal_of, signed_decimals_read_back, split, split_of, trim, trim_keeps, trim_of, views,
};
use vstd::prelude::*;

verus! {

/// A moment as it is held: one before 1970 wraps around.
pub open spec fn wrapped(millis: i64) -> u64 {
    if millis < 0 {
        (0x1_0000_0000_0000_0000 + millis) as u64
    } else {
        millis as u64
    }
}

fn wrap(millis: i64) -> (r: u64)
    ensures
        r == wrapped(millis),
{
    if millis < 0 {
        let below: u64 = (-(millis as i128)) as u64;
        u64::MAX - below + 1
    } else {
        millis as u64
    }
}

/// What is said of a text that is no moment.
pub open spec fn time_fault(value: Seq<char>) -> Seq<char> {
    "invalid time "@ + value + "; use unix millis, YYYY-MM-DD, or YYYY-MM-DDTHH:MM"@
}

/// The first of some readings of a text, where one could read it.
pub open spec fn first_reading(readings: Seq<Option<i64>>) -> Option<i64>
    decreases readings.len(),
{
    if readings.len() == 0 {
        None
    } else if readings[0] is Some {
        readings[0]
    } else {
        first_reading(readings.skip(1))
    }
}

/// The moment that a text names: in milliseconds where it has only digits, and otherwise
/// the first of some readings of it.
pub open spec fn time_from(value: Seq<char>, readings: Seq<Option<i64>>) -> Result<
    u64,
    Seq<char>,
> {
    if all_digits(value) {
        match parse_of(value, u64::MAX as nat) {
            Some(n) => Ok(n as u64),
            None => Err(
                "invalid unix millis "@ + value + ": "@ + number_fault_of(value, u64::MAX as nat),
            ),
        }
    } else {
        match first_reading(readings) {
            Some(millis) => Ok(wrapped(millis)),
            None => Err(time_fault(value)),
        }
    }
}

/// The moment that a text names, in UTC: in milliseconds, by a day, or by a day and a time.
pub open spec fn time_of(value: Seq<char>) -> Result<u64, Seq<char>> {
    time_from(
        value,
        seq![
            chrono_date_millis(value, "%Y-%m-%d"@),
            chrono_time_millis(value, "%Y-%m-%dT%H:%M"@),
            chrono_time_millis(value, "%Y-%m-%d %H:%M"@),
            chrono_time_millis(value, "%Y-%m-%dT%H:%M:%S"@),
            chrono_time_millis(value, "%Y-%m-%d %H:%M:%S"@),
        ],
    )
}

fn has_digits_only(value: &str) -> (r: bool)
    ensures
        r == all_digits(value@),
{
    let v = chars_of(value);
    let mut i: usize = 0;
    while i < v.len()
        invariant
            i <= v@.len(),
            v@ == value@,
            forall|k: int| 0 <= k < i ==> '0' <= #[trigger] value@[k] <= '9',
        decreases v@.len() - i,
    {
        if v[i] < '0' || v[i] > '9' {
            assert(!('0' <= value@[i as int] <= '9'));
            return false;
        }
        i += 1;
    }
    true
}

/// The moment that a text names, given some readings of it.
pub fn read_time(value: &str, readings: &Vec<Option<i64>>) -> (r: Result<u64, String>)
    ensures
        match r {
            Ok(at) => time_from(value@, readings@) == Ok::<u64, Seq<char>>(at),
            Err(e) => time_from(value@, readings@) == Err::<u64, Seq<char>>(e@),
        },
{
    if has_digits_only(value) {
        return match parse_up_to(value, u64::MAX) {
            Some(n) => Ok(n),
            None => {
                let mut message = "invalid unix millis ".to_owned();
                message.append(value);
                message.append(": ");
                message.append(number_fault(value, u64::MAX).as_str());
                Err(message)
            },
        };
    }
    let mut i: usize = 0;
    assert(readings@.skip(0) =~= readings@);
    while i < readings.len()
        invariant
            i <= readings@.len(),
            !all_digits(value@),
            first_reading(readings@) == first_reading(readings@.skip(i as int)),
        decreases readings@.len() - i,
    {
        assert(readings@.skip(i as int).skip(1) =~= readings@.skip(i + 1));
        if let Some(millis) = readings[i] {
            return Ok(wrap(millis));
        }
        i += 1;
    }
    let mut message = "invalid time ".to_owned();
    message.append(value);
    message.append("; use unix millis, YYYY-MM-DD, or YYYY-MM-DDTHH:MM");
    Err(message)
}

/// The moment that a text names.
pub fn parse_time(value: &str) -> (r: Result<u64, String>)
    ensures
        match r {
            Ok(at) => time_of(value@) == Ok::<u64, Seq<char>>(at),
            Err(e) => time_of(value@) == Err::<u64, Seq<char>>(e@),
        },
{
    let mut readings: Vec<Option<i64>> = Vec::new();
    readings.push(date_millis(value, "%Y-%m-%d"));
    readings.push(time_millis(value, "%Y-%m-%dT%H:%M"));
    readings.push(time_millis(value, "%Y-%m-%d %H:%M"));
    readings.push(time_millis(value, "%Y-%m-%dT%H:%M:%S"));
    readings.push(time_millis(value, "%Y-%m-%d %H:%M:%S"));
    assert(readings@ =~= seq![
        chrono_date_millis(value@, "%Y-%m-%d"@),
        chrono_time_millis(value@, "%Y-%m-%dT%H:%M"@),
        chrono_time_millis(value@, "%Y-%m-%d %H:%M"@),
        chrono_time_millis(value@, "%Y-%m-%dT%H:%M:%S"@),
        chrono_time_millis(value@, "%Y-%m-%d %H:%M:%S"@),
    ]);
    read_time(value, &readings)
}

/// What is said of a value that a flag cannot have.
pub open spec fn value_fault(flag: Seq<char>, value: Seq<char>, fault: Seq<char>) -> Seq<char> {
    "invalid "@ + flag + " value "@ + value + ": "@ + fault
}

fn value_error(flag: &str, value: &str, fault: &str) -> (r: String)
    ensures
        r@ == value_fault(flag@, value@, fault@),
{
    let mut message = "invalid ".to_owned();
    message.append(flag);
    message.append(" value ");
    message.append(value);
    message.append(": ");
    message.append(fault);
    message
}

/// The number of a value.
pub open spec fn amount_of(flag: Seq<char>, value: Seq<char>, numbers: Map<Seq<char>, Decimal>) -> Result<
    Real,
    Seq<char>,
> {
    match number_in(numbers, value) {
        Some(number) => Ok(number.value),
        None => Err(value_fault(flag, value, float_fault_of(value))),
    }
}

fn parse_amount(flag: &str, value: &str, numbers: &Numbers) -> (r: Result<Real, String>)
    ensures
        match r {
            Ok(amount) => amount_of(flag@, value@, numbers@) == Ok::<Real, Seq<char>>(amount),
            Err(e) => amount_of(flag@, value@, numbers@) == Err::<Real, Seq<char>>(e@),
        },
{
    match find_number(numbers, value) {
        Some(number) => Ok(number.value),
        None => Err(value_error(flag, value, float_fault(value).as_str())),
    }
}

/// The whole number of a value, up to a limit.
pub open spec fn count_of(flag: Seq<char>, value: Seq<char>, max: nat) -> Result<nat, Seq<char>> {
    match parse_of(value, max) {
        Some(n) => Ok(n),
        None => Err(value_fault(flag, value, number_fault_of(value, max))),
    }
}

fn parse_count(flag: &str, value: &str, max: u64) -> (r: Result<u64, String>)
    ensures
        match r {
            Ok(n) => count_of(flag@, value@, max as nat) == Ok::<nat, Seq<char>>(n as nat) && n <= max,
            Err(e) => count_of(flag@, value@, max as nat) == Err::<nat, Seq<char>>(e@),
        },
{
    match parse_up_to(value, max) {
        Some(n) => Ok(n),
        None => Err(value_error(flag, value, number_fault(value, max).as_str())),
    }
}

/// The numbers between commas.
pub open spec fn ids_of(flag: Seq<char>, parts: Seq<Seq<char>>) -> Result<Seq<i64>, Seq<char>>
    decreases parts.len(),
{
    if parts.len() == 0 {
        Ok(Seq::empty())
    } else {
        match ids_of(flag, parts.drop_last()) {
            Err(e) => Err(e),
            Ok(before) => {
                let part = trim_of(parts.last());
                if part.len() == 0 {
                    Ok(before)
                } else {
                    match parse_i64_of(part) {
                        Some(n) => Ok(before.push(n as i64)),
                        None => Err(value_fault(flag, part, i64_fault_of(part))),
                    }
                }
            },
        }
    }
}

proof fn ids_fail(flag: Seq<char>, parts: Seq<Seq<char>>, n: int)
    requires
        0 <= n <= parts.len(),
        ids_of(flag, parts.take(n)) is Err,
    ensures
        ids_of(flag, parts) == ids_of(flag, parts.take(n)),
    decreases parts.len(),
{
    if n == parts.len() {
        assert(parts.take(n) =~= parts);
    } else {
        assert(parts.drop_last().take(n) =~= parts.take(n));
        ids_fail(flag, parts.drop_last(), n);
    }
}

fn parse_ids(flag: &str, value: &str) -> (r: Result<Vec<i64>, String>)
    ensures
        match r {
            Ok(ids) => ids_of(flag@, split_of(value@, ',')) == Ok::<Seq<i64>, Seq<char>>(ids@),
            Err(e) => ids_of(flag@, split_of(value@, ',')) == Err::<Seq<i64>, Seq<char>>(e@),
        },
{
    let parts = split(value, ',');
    let ghost all = views(parts@);
    let mut out: Vec<i64> = Vec::new();
    let mut i: usize = 0;
    assert(all.take(0) =~= Seq::empty());
    while i < parts.len()
        invariant
            i <= parts@.len(),
            all == views(parts@),
            all == split_of(value@, ','),
            ids_of(flag@, all.take(i as int)) == Ok::<Seq<i64>, Seq<char>>(out@),
        decreases parts@.len() - i,
    {
        assert(all.take(i + 1).drop_last() =~= all.take(i as int));
        assert(all.take(i + 1).last() == parts@[i as int]@);
        let part = trim(parts[i].as_str());
        if !part.as_str().is_empty() {
            match parse_i64(part.as_str()) {
                Some(n) => out.push(n),
                None => {
                    proof {
                        ids_fail(flag@, all, i + 1);
                    }
                    return Err(value_error(flag, part.as_str(), i64_fault(part.as_str()).as_str()));
                },
            }
        }
        i += 1;
    }
    assert(all.take(i as int) =~= all);
    Ok(out)
}

/// What was asked for so far.
#[derive(Debug)]
pub struct Asked {
    pub config_path: String,
    pub from: Option<u64>,
    pub to: Option<u64>,
    pub instruments: Vec<String>,
    pub strategy_key: Option<String>,
    pub ssu_ids: Vec<i64>,
    pub output_dir: Option<String>,
    pub warmup_bars: Option<usize>,
    pub recent_bars: Option<usize>,
    pub execution: BacktestExecutionOverrides,
}

/// What was asked for so far, as contracts speak of it.
pub struct AskedFacts {
    pub config_path: Seq<char>,
    pub from: Option<u64>,
    pub to: Option<u64>,
    pub instruments: Seq<Seq<char>>,
    pub strategy_key: Option<Seq<char>>,
    pub ssu_ids: Seq<i64>,
    pub output_dir: Option<Seq<char>>,
    pub warmup_bars: Option<usize>,
    pub recent_bars: Option<usize>,
    pub execution: BacktestExecutionOverrides,
}

impl View for Asked {
    type V = AskedFacts;

    open spec fn view(&self) -> AskedFacts {
        AskedFacts {
            config_path: self.config_path@,
            from: self.from,
            to: self.to,
            instruments: views(self.instruments@),
            strategy_key: text_facts(self.strategy_key),
            ssu_ids: self.ssu_ids@,
            output_dir: text_facts(self.output_dir),
            warmup_bars: self.warmup_bars,
            recent_bars: self.recent_bars,
            execution: self.execution,
        }
    }
}

/// Which of the costs a flag asks for.
#[derive(Clone, Copy, Debug, PartialEq, Eq, Structural)]
pub enum Cost {
    Slippage,
    Brokerage,
    EntryFee,
    ExitFee,
    FeeTax,
    FixedFee,
    FundingRate,
}

/// The cost that a flag names.
pub open spec fn cost_of(flag: Seq<char>) -> Option<Cost> {
    if flag == "--slippage-pct"@ {
        Some(Cost::Slippage)
    } else if flag == "--brokerage-pct"@ {
        Some(Cost::Brokerage)
    } else if flag == "--entry-fee-pct"@ {
        Some(Cost::EntryFee)
    } else if flag == "--exit-fee-pct"@ {
        Some(Cost::ExitFee)
    } else if flag == "--fee-tax-pct"@ {
        Some(Cost::FeeTax)
    } else if flag == "--fixed-fee-per-order"@ {
        Some(Cost::FixedFee)
    } else if flag == "--funding-rate-pct"@ {
        Some(Cost::FundingRate)
    } else {
        None
    }
}

fn find_cost(flag: &str) -> (r: Option<Cost>)
    ensures
        r == cost_of(flag@),
{
    if same(flag, "--slippage-pct") {
        Some(Cost::Slippage)
    } else if same(flag, "--brokerage-pct") {
        Some(Cost::Brokerage)
    } else if same(flag, "--entry-fee-pct") {
        Some(Cost::EntryFee)
    } else if same(flag, "--exit-fee-pct") {
        Some(Cost::ExitFee)
    } else if same(flag, "--fee-tax-pct") {
        Some(Cost::FeeTax)
    } else if same(flag, "--fixed-fee-per-order") {
        Some(Cost::FixedFee)
    } else if same(flag, "--funding-rate-pct") {
        Some(Cost::FundingRate)
    } else {
        None
    }
}

/// The costs with one of them asked for.
pub open spec fn with_cost(o: BacktestExecutionOverrides, cost: Cost, value: Real) -> BacktestExecutionOverrides {
    match cost {
        Cost::Slippage => BacktestExecutionOverrides { slippage_pct: Some(value), ..o },
        Cost::Brokerage => BacktestExecutionOverrides { brokerage_pct: Some(value), ..o },
        Cost::EntryFee => BacktestExecutionOverrides { entry_fee_pct: Some(value), ..o },
        Cost::ExitFee => BacktestExecutionOverrides { exit_fee_pct: Some(value), ..o },
        Cost::FeeTax => BacktestExecutionOverrides { fee_tax_pct: Some(value), ..o },
        Cost::FixedFee => BacktestExecutionOverrides { fixed_fee_per_order: Some(value), ..o },
        Cost::FundingRate => BacktestExecutionOverrides { funding_rate_pct: Some(value), ..o },
    }
}

fn ask_cost(o: BacktestExecutionOverrides, cost: Cost, value: Real) -> (r: BacktestExecutionOverrides)
    ensures
        r == with_cost(o, cost, value),
{
    let mut o = o;
    match cost {
        Cost::Slippage => o.slippage_pct = Some(value),
        Cost::Brokerage => o.brokerage_pct = Some(value),
        Cost::EntryFee => o.entry_fee_pct = Some(value),
        Cost::ExitFee => o.exit_fee_pct = Some(value),
        Cost::FeeTax => o.fee_tax_pct = Some(value),
        Cost::FixedFee => o.fixed_fee_per_order = Some(value),
        Cost::FundingRate => o.funding_rate_pct = Some(value),
    }
    o
}

/// Whether a text is a flag.
pub open spec fn is_flag(flag: Seq<char>) -> bool {
    ||| flag == "--config"@
    ||| flag == "--from"@
    ||| flag == "--to"@
    ||| flag == "--instrument"@
    ||| flag == "--instruments"@
    ||| flag == "--strategy"@
    ||| flag == "--ssu"@
    ||| flag == "--ssu-id"@
    ||| flag == "--output"@
    ||| flag == "--output-dir"@
    ||| flag == "--warmup-bars"@
    ||| flag == "--recent-bars"@
    ||| cost_of(flag) is Some
    ||| flag == "--funding-interval-hours"@
    ||| flag == "--funding-mode"@
    ||| flag == "--funding-charge-mode"@
}

fn knows_flag(flag: &str) -> (r: bool)
    ensures
        r == is_flag(flag@),
{
    same(flag, "--config") || same(flag, "--from") || same(flag, "--to") || same(
        flag,
        "--instrument",
    ) || same(flag, "--instruments") || same(flag, "--strategy") || same(flag, "--ssu") || same(
        flag,
        "--ssu-id",
    ) || same(flag, "--output") || same(flag, "--output-dir") || same(flag, "--warmup-bars")
        || same(flag, "--recent-bars") || find_cost(flag).is_some() || same(
        flag,
        "--funding-interval-hours",
    ) || same(flag, "--funding-mode") || same(flag, "--funding-charge-mode")
}

/// The text of what is wrong with a way of charging.
pub open spec fn fault_text(fault: StrategyFault) -> Seq<char> {
    match fault {
        StrategyFault::Config(m) => m,
        StrategyFault::Parse(m) => m,
        StrategyFault::Rule(m) => m,
        StrategyFault::NotFound(m) => m,
        StrategyFault::Io(m) => m,
    }
}

/// What is asked for with a flag and its value besides.
pub open spec fn asked_with(
    a: AskedFacts,
    flag: Seq<char>,
    value: Seq<char>,
    numbers: Map<Seq<char>, Decimal>,
) -> Result<AskedFacts, Seq<char>> {
    if flag == "--config"@ {
        Ok(AskedFacts { config_path: value, ..a })
    } else if flag == "--from"@ {
        match time_of(value) {
            Err(e) => Err(e),
            Ok(at) => Ok(AskedFacts { from: Some(at), ..a }),
        }
    } else if flag == "--to"@ {
        match time_of(value) {
            Err(e) => Err(e),
            Ok(at) => Ok(AskedFacts { to: Some(at), ..a }),
        }
    } else if flag == "--instrument"@ || flag == "--instruments"@ {
        Ok(AskedFacts { instruments: a.instruments.push(value), ..a })
    } else if flag == "--strategy"@ {
        Ok(AskedFacts { strategy_key: Some(value), ..a })
    } else if flag == "--ssu"@ || flag == "--ssu-id"@ {
        match ids_of(flag, split_of(value, ',')) {
            Err(e) => Err(e),
            Ok(ids) => Ok(AskedFacts { ssu_ids: a.ssu_ids + ids, ..a }),
        }
    } else if flag == "--output"@ || flag == "--output-dir"@ {
        Ok(AskedFacts { output_dir: Some(value), ..a })
    } else if flag == "--warmup-bars"@ {
        match count_of(flag, value, usize::MAX as nat) {
            Err(e) => Err(e),
            Ok(n) => Ok(AskedFacts { warmup_bars: Some(n as usize), ..a }),
        }
    } else if flag == "--recent-bars"@ {
        match count_of(flag, value, usize::MAX as nat) {
            Err(e) => Err(e),
            Ok(n) => Ok(AskedFacts { recent_bars: Some(n as usize), ..a }),
        }
    } else if cost_of(flag) is Some {
        match amount_of(flag, value, numbers) {
            Err(e) => Err(e),
            Ok(amount) => Ok(
                AskedFacts { execution: with_cost(a.execution, cost_of(flag)->0, amount), ..a },
            ),
        }
    } else if flag == "--funding-interval-hours"@ {
        match count_of(flag, value, u64::MAX as nat) {
            Err(e) => Err(e),
            Ok(n) => Ok(
                AskedFacts {
                    execution: BacktestExecutionOverrides {
                        funding_interval_hours: Some(n as u64),
                        ..a.execution
                    },
                    ..a
                },
            ),
        }
    } else {
        match charge_mode_of(value) {
            None => Err(fault_text(charge_mode_fault(value))),
            Some(mode) => Ok(
                AskedFacts {
                    execution: BacktestExecutionOverrides {
                        funding_charge_mode: Some(mode),
                        ..a.execution
                    },
                    ..a
                },
            ),
        }
    }
}

/// What is asked for with arguments besides: flags, each with a value behind it.
pub open spec fn asked_for(
    a: AskedFacts,
    args: Seq<Seq<char>>,
    numbers: Map<Seq<char>, Decimal>,
) -> Result<AskedFacts, Seq<char>>
    decreases args.len(),
{
    if args.len() == 0 {
        Ok(a)
    } else if !is_flag(args[0]) {
        Err("unknown argument "@ + args[0] + "; use --help"@)
    } else if args.len() == 1 {
        Err("missing value for "@ + args[0])
    } else {
        match asked_with(a, args[0], args[1], numbers) {
            Err(e) => Err(e),
            Ok(next) => asked_for(next, args.skip(2), numbers),
        }
    }
}

impl Asked {
    fn take_limits(&mut self, flag: &str, value: &str, numbers: &Numbers) -> (r: Option<String>)
        requires
            is_flag(flag@),
            flag@ != "--config"@,
            flag@ != "--from"@,
            flag@ != "--to"@,
            flag@ != "--instrument"@,
            flag@ != "--instruments"@,
            flag@ != "--strategy"@,
            flag@ != "--ssu"@,
            flag@ != "--ssu-id"@,
            flag@ != "--output"@,
            flag@ != "--output-dir"@,
        ensures
            match r {
                None => asked_with(old(self)@, flag@, value@, numbers@) == Ok::<
                    AskedFacts,
                    Seq<char>,
                >(final(self)@),
                Some(e) => asked_with(old(self)@, flag@, value@, numbers@) == Err::<
                    AskedFacts,
                    Seq<char>,
                >(e@),
            },
    {
        if same(flag, "--warmup-bars") {
            match parse_count(flag, value, usize::MAX as u64) {
                Err(e) => return Some(e),
                Ok(n) => {
                    self.warmup_bars = Some(n as usize);
                },
            }
        } else if same(flag, "--recent-bars") {
            match parse_count(flag, value, usize::MAX as u64) {
                Err(e) => return Some(e),
                Ok(n) => {
                    self.recent_bars = Some(n as usize);
                },
            }
        } else if let Some(cost) = find_cost(flag) {
            match parse_amount(flag, value, numbers) {
                Err(e) => return Some(e),
                Ok(amount) => {
                    self.execution = ask_cost(self.execution, cost, amount);
                },
            }
        } else if same(flag, "--funding-interval-hours") {
            match parse_count(flag, value, u64::MAX) {
                Err(e) => return Some(e),
                Ok(n) => {
                    self.execution.funding_interval_hours = Some(n);
                },
            }
        } else {
            match FundingChargeMode::parse(value) {
                Err(e) => return Some(e.message()),
                Ok(mode) => {
                    self.execution.funding_charge_mode = Some(mode);
                },
            }
        }
        None
    }

    fn take(&mut self, flag: &str, value: &str, numbers: &Numbers) -> (r: Option<String>)
        requires
            is_flag(flag@),
        ensures
            match r {
                None => asked_with(old(self)@, flag@, value@, numbers@) == Ok::<
                    AskedFacts,
                    Seq<char>,
                >(final(self)@),
                Some(e) => asked_with(old(self)@, flag@, value@, numbers@) == Err::<
                    AskedFacts,
                    Seq<char>,
                >(e@),
            },
    {
        if same(flag, "--config") {
            self.config_path = value.to_owned();
        } else if same(flag, "--from") {
            match parse_time(value) {
                Err(e) => return Some(e),
                Ok(at) => {
                    self.from = Some(at);
                },
            }
        } else if same(flag, "--to") {
            match parse_time(value) {
                Err(e) => return Some(e),
                Ok(at) => {
                    self.to = Some(at);
                },
            }
        } else if same(flag, "--instrument") || same(flag, "--instruments") {
            let ghost before = views(self.instruments@);
            self.instruments.push(value.to_owned());
            assert(views(self.instruments@) =~= before.push(value@));
        } else if same(flag, "--strategy") {
            self.strategy_key = Some(value.to_owned());
        } else if same(flag, "--ssu") || same(flag, "--ssu-id") {
            match parse_ids(flag, value) {
                Err(e) => return Some(e),
                Ok(ids) => {
                    let mut ids = ids;
                    self.ssu_ids.append(&mut ids);
                },
            }
        } else if same(flag, "--output") || same(flag, "--output-dir") {
            self.output_dir = Some(value.to_owned());
        } else {
            return self.take_limits(flag, value, numbers);
        }
        None
    }
}

/// Whether a request is what was asked for.
pub open spec fn is_request_of(request: BacktestRequest, a: AskedFacts) -> bool {
    &&& request.config_path@ == a.config_path
    &&& a.from == Some(request.from)
    &&& a.to == Some(request.to)
    &&& views(request.instruments@) == a.instruments
    &&& text_facts(request.strategy_key) == a.strategy_key
    &&& request.ssu_ids@ == a.ssu_ids
    &&& text_facts(request.output_dir) == a.output_dir
    &&& request.warmup_bars == a.warmup_bars
    &&& request.recent_bars == a.recent_bars
    &&& request.execution == a.execution
}

/// What is asked for before any argument.
pub open spec fn nothing_asked(config_path: Seq<char>) -> AskedFacts {
    AskedFacts {
        config_path,
        from: None,
        to: None,
        instruments: Seq::empty(),
        strategy_key: None,
        ssu_ids: Seq::empty(),
        output_dir: None,
        warmup_bars: None,
        recent_bars: None,
        execution: BacktestExecutionOverrides {
            slippage_pct: None,
            brokerage_pct: None,
            entry_fee_pct: None,
            exit_fee_pct: None,
            fee_tax_pct: None,
            fixed_fee_per_order: None,
            funding_rate_pct: None,
            funding_interval_hours: None,
            funding_charge_mode: None,
        },
    }
}

/// The configuration that is used where none is asked for.
pub open spec fn default_config(env_path: Option<Seq<char>>) -> Seq<char> {
    match env_path {
        Some(path) => path,
        None => "config/feeder.toml"@,
    }
}

/// What is asked for. `env_path` is the configuration that the environment names, and
/// `numbers` has the values of arguments.
pub fn parse_args(args: &Vec<String>, env_path: Option<String>, numbers: &Numbers) -> (r: Result<
    BacktestRequest,
    String,
>)
    ensures
        match asked_for(
            nothing_asked(default_config(text_facts(env_path))),
            views(args@),
            numbers@,
        ) {
            Err(fault) => r matches Err(e) && e@ == fault,
            Ok(a) => match r {
                Ok(request) => is_request_of(request, a),
                Err(e) => e@ == if a.from is None {
                    "missing required --from"@
                } else {
                    "missing required --to"@
                } && (a.from is None || a.to is None),
            },
        },
{
    let ghost all = views(args@);
    let ghost start = nothing_asked(default_config(text_facts(env_path)));
    let mut asked = Asked {
        config_path: match env_path {
            Some(path) => path,
            None => "config/feeder.toml".to_owned(),
        },
        from: None,
        to: None,
        instruments: Vec::new(),
        strategy_key: None,
        ssu_ids: Vec::new(),
        output_dir: None,
        warmup_bars: None,
        recent_bars: None,
        execution: BacktestExecutionOverrides::default(),
    };
    assert(asked@.instruments =~= Seq::empty());
    let count: usize = args.len();
    let mut i: usize = 0;
    assert(all.skip(0) =~= all);
    while i < count
        invariant
            i <= count == args@.len(),
            all == views(args@),
            start == nothing_asked(default_config(text_facts(env_path))),
            asked_for(start, all, numbers@) == asked_for(asked@, all.skip(i as int), numbers@),
        decreases count - i,
    {
        let ghost rest = all.skip(i as int);
        assert(rest[0] == args@[i as int]@);
        let flag = args[i].as_str();
        if !knows_flag(flag) {
            let mut message = "unknown argument ".to_owned();
            message.append(flag);
            message.append("; use --help");
            return Err(message);
        }
        if i + 1 == count {
            return Err("missing value for ".to_owned().concat(flag));
        }
        assert(rest[1] == args@[i + 1]@);
        assert(rest.skip(2) =~= all.skip(i + 2));
        match asked.take(flag, args[i + 1].as_str(), numbers) {
            None => {},
            Some(e) => return Err(e),
        }
        i += 2;
    }
    assert(all.skip(i as int) =~= Seq::empty());
    let from: u64 = match asked.from {
        Some(at) => at,
        None => return Err("missing required --from".to_owned()),
    };
    let to: u64 = match asked.to {
        Some(at) => at,
        None => return Err("missing required --to".to_owned()),
    };
    Ok(
        BacktestRequest {
            config_path: asked.config_path,
            from,
            to,
            instruments: asked.instruments,
            strategy_key: asked.strategy_key,
            ssu_ids: asked.ssu_ids,
            output_dir: asked.output_dir,
            warmup_bars: asked.warmup_bars,
            recent_bars: asked.recent_bars,
            execution: asked.execution,
        },
    )
}

/// Whether help is asked for.
pub fn wants_help(args: &Vec<String>) -> (r: bool)
    ensures
        r == exists|i: int|
            0 <= i < args@.len() && ((#[trigger] args@[i])@ == "--help"@ || args@[i]@ == "-h"@),
{
    let mut i: usize = 0;
    while i < args.len()
        invariant
            i <= args@.len(),
            forall|k: int|
                0 <= k < i ==> (#[trigger] args@[k])@ != "--help"@ && args@[k]@ != "-h"@,
        decreases args@.len() - i,
    {
        if same(args[i].as_str(), "--help") || same(args[i].as_str(), "-h") {
            return true;
        }
        i += 1;
    }
    false
}

/// What a flag says changes what it is about, and nothing else.
pub proof fn flags_change_only_their_own(
    a: AskedFacts,
    flag: Seq<char>,
    value: Seq<char>,
    numbers: Map<Seq<char>, Decimal>,
)
    requires
        is_flag(flag),
    ensures
        asked_with(a, flag, value, numbers) matches Ok(b) ==> {
            let (e, f) = (a.execution, b.execution);
            &&& b.config_path != a.config_path ==> flag == "--config"@ && b.config_path == value
            &&& b.from != a.from ==> flag == "--from"@
            &&& b.to != a.to ==> flag == "--to"@
            &&& b.instruments != a.instruments ==> (flag == "--instrument"@ || flag
                == "--instruments"@) && b.instruments == a.instruments.push(value)
            &&& b.strategy_key != a.strategy_key ==> flag == "--strategy"@ && b.strategy_key == Some(
                value,
            )
            &&& b.ssu_ids != a.ssu_ids ==> flag == "--ssu"@ || flag == "--ssu-id"@
            &&& b.output_dir != a.output_dir ==> (flag == "--output"@ || flag == "--output-dir"@)
                && b.output_dir == Some(value)
            &&& b.warmup_bars != a.warmup_bars ==> flag == "--warmup-bars"@
            &&& b.recent_bars != a.recent_bars ==> flag == "--recent-bars"@
            &&& f.slippage_pct != e.slippage_pct ==> flag == "--slippage-pct"@
            &&& f.brokerage_pct != e.brokerage_pct ==> flag == "--brokerage-pct"@
            &&& f.entry_fee_pct != e.entry_fee_pct ==> flag == "--entry-fee-pct"@
            &&& f.exit_fee_pct != e.exit_fee_pct ==> flag == "--exit-fee-pct"@
            &&& f.fee_tax_pct != e.fee_tax_pct ==> flag == "--fee-tax-pct"@
            &&& f.fixed_fee_per_order != e.fixed_fee_per_order ==> flag == "--fixed-fee-per-order"@
            &&& f.funding_rate_pct != e.funding_rate_pct ==> flag == "--funding-rate-pct"@
            &&& f.funding_interval_hours != e.funding_interval_hours ==> flag
                == "--funding-interval-hours"@
            &&& f.funding_charge_mode != e.funding_charge_mode ==> flag == "--funding-mode"@ || flag
                == "--funding-charge-mode"@
        },
{
}

/// What a flag says is kept where it belongs: times, names, counts and costs as they are read.
pub proof fn flags_are_kept(
    a: AskedFacts,
    value: Seq<char>,
    numbers: Map<Seq<char>, Decimal>,
    at: u64,
    n: usize,
)
    ensures
        asked_with(a, "--config"@, value, numbers) matches Ok(b) && b.config_path == value,
        time_of(value) == Ok::<u64, Seq<char>>(at) ==> {
            &&& asked_with(a, "--from"@, value, numbers) is Ok
            &&& asked_with(a, "--from"@, value, numbers)->Ok_0.from == Some(at)
            &&& asked_with(a, "--to"@, value, numbers) is Ok
            &&& asked_with(a, "--to"@, value, numbers)->Ok_0.to == Some(at)
        },
        asked_with(a, "--instrument"@, value, numbers) matches Ok(b) && b.instruments
            == a.instruments.push(value),
        asked_with(a, "--strategy"@, value, numbers) matches Ok(b) && b.strategy_key == Some(value),
        asked_with(a, "--output"@, value, numbers) matches Ok(b) && b.output_dir == Some(value),
        parse_of(value, usize::MAX as nat) == Some(n as nat) ==> {
            &&& asked_with(a, "--warmup-bars"@, value, numbers) is Ok
            &&& asked_with(a, "--warmup-bars"@, value, numbers)->Ok_0.warmup_bars == Some(n)
            &&& asked_with(a, "--recent-bars"@, value, numbers) is Ok
            &&& asked_with(a, "--recent-bars"@, value, numbers)->Ok_0.recent_bars == Some(n)
        },
        number_in(numbers, value) matches Some(read) ==> {
            let kept = Some(read.value);
            let costs = |flag: Seq<char>| asked_with(a, flag, value, numbers)->Ok_0.execution;
            &&& costs("--slippage-pct"@).slippage_pct == kept
            &&& costs("--brokerage-pct"@).brokerage_pct == kept
            &&& costs("--entry-fee-pct"@).entry_fee_pct == kept
            &&& costs("--exit-fee-pct"@).exit_fee_pct == kept
            &&& costs("--fee-tax-pct"@).fee_tax_pct == kept
            &&& costs("--fixed-fee-per-order"@).fixed_fee_per_order == kept
            &&& costs("--funding-rate-pct"@).funding_rate_pct == kept
        },
{
    reveal_strlit("--config");
    reveal_strlit("--from");
    reveal_strlit("--to");
    reveal_strlit("--instrument");
    reveal_strlit("--instruments");
    reveal_strlit("--strategy");
    reveal_strlit("--ssu");
    reveal_strlit("--ssu-id");
    reveal_strlit("--output");
    reveal_strlit("--output-dir");
    reveal_strlit("--warmup-bars");
    reveal_strlit("--recent-bars");
    reveal_strlit("--slippage-pct");
    reveal_strlit("--brokerage-pct");
    reveal_strlit("--entry-fee-pct");
    reveal_strlit("--exit-fee-pct");
    reveal_strlit("--fee-tax-pct");
    reveal_strlit("--fixed-fee-per-order");
    reveal_strlit("--funding-rate-pct");
    assert("--config"@.len() == 8 && "--from"@.len() == 6 && "--to"@.len() == 4);
    assert("--from"@ != "--config"@ && "--to"@ != "--config"@ && "--to"@ != "--from"@);
    assert("--output"@[2] != "--config"@[2] && "--output"@[2] != "--ssu-id"@[2] && "--ssu-id"@[2]
        != "--config"@[2]);
    assert("--instrument"@[2] != "--output-dir"@[2]);
    assert("--warmup-bars"@[2] != "--instruments"@[2] && "--recent-bars"@[2] != "--instruments"@[2]
        && "--recent-bars"@[2] != "--warmup-bars"@[2]);
    assert("--fee-tax-pct"@[2] != "--instruments"@[2] && "--fee-tax-pct"@[2] != "--warmup-bars"@[2]
        && "--fee-tax-pct"@[2] != "--recent-bars"@[2]);
    assert("--exit-fee-pct"@[2] != "--slippage-pct"@[2]);
    assert("--entry-fee-pct"@[2] != "--brokerage-pct"@[2]);
}

/// Flags are read one after another: some and then some more are all of them, and a flag is never
/// without its value.
pub proof fn flags_follow_one_another(
    a: AskedFacts,
    first: Seq<Seq<char>>,
    rest: Seq<Seq<char>>,
    numbers: Map<Seq<char>, Decimal>,
)
    requires
        asked_for(a, first, numbers) is Ok,
    ensures
        first.len() % 2 == 0,
        asked_for(a, first + rest, numbers) == asked_for(
            asked_for(a, first, numbers)->Ok_0,
            rest,
            numbers,
        ),
    decreases first.len(),
{
    if first.len() == 0 {
        assert(first + rest =~= rest);
    } else {
        let next = asked_with(a, first[0], first[1], numbers)->Ok_0;
        flags_follow_one_another(next, first.skip(2), rest, numbers);
        assert((first + rest).skip(2) =~= first.skip(2) + rest);
        assert((first + rest)[0] == first[0] && (first + rest)[1] == first[1]);
    }
}

/// A moment that is written down as a number is that many milliseconds.
pub proof fn numbers_are_milliseconds(at: u64)
    ensures
        time_of(decimal_of(at as nat)) == Ok::<u64, Seq<char>>(at),
{
    decimals_read_back(at as nat, u64::MAX as nat);
    padding_changes_no_number(at as nat, 0);
}

/// A moment that is written down otherwise is the first that is read of it.
pub proof fn first_reading_is_taken(readings: Seq<Option<i64>>, i: int)
    requires
        0 <= i < readings.len(),
        readings[i] is Some,
        forall|k: int| 0 <= k < i ==> readings[k] is None,
    ensures
        first_reading(readings) == readings[i],
    decreases i,
{
    if i > 0 {
        let d = readings.skip(1);
        assert forall|k: int| 0 <= k < i - 1 implies d[k] is None by {
            assert(d[k] == readings[k + 1]);
        }
        first_reading_is_taken(d, i - 1);
    }
}

/// Numbers that are listed are read in their order, and none is left out.
pub proof fn listed_numbers_are_read(flag: Seq<char>, ids: Seq<i64>)
    ensures
        ids_of(flag, Seq::new(ids.len(), |i: int| signed_decimal_of(ids[i] as int))) == Ok::<
            Seq<i64>,
            Seq<char>,
        >(ids),
    decreases ids.len(),
{
    let parts = Seq::new(ids.len(), |i: int| signed_decimal_of(ids[i] as int));
    if ids.len() == 0 {
        assert(ids =~= Seq::empty());
    } else {
        let d = ids.drop_last();
        listed_numbers_are_read(flag, d);
        assert(parts.drop_last() =~= Seq::new(d.len(), |i: int| signed_decimal_of(d[i] as int)));
        let n = ids.last() as int;
        signed_decimals_read_back(n);
        signed_decimals_are_no_blanks(n);
        assert(parts.last() == signed_decimal_of(n));
        assert(ids =~= d.push(ids.last()));
    }
}

proof fn signed_decimals_are_no_blanks(n: int)
    ensures
        signed_decimal_of(n).len() > 0,
        trim_of(signed_decimal_of(n)) == signed_decimal_of(n),
{
    let s = signed_decimal_of(n);
    let m = if n < 0 {
        (-n) as nat
    } else {
        n as nat
    };
    padding_changes_no_number(m, 0);
    let d = decimal_of(m);
    assert(d.len() > 0);
    assert('0' <= d[0] <= '9');
    assert('0' <= d[d.len() - 1] <= '9');
    assert(s.last() == d.last());
    trim_keeps(s);
}

} // verus!
