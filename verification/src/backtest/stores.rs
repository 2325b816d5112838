//! The positions and the trades of a backtest.
use crate::binary64::Real;
use crate::calendar::{date_of, date_text, local_day};
use crate::feeder::historical_candles::LAST_MILLIS;
use crate::json::{Json, JsonFacts};
use crate::order::{
    ascending_items, ascending_of, ascending_of_is, sorted_keys, text_before, text_lt, text_order_is_total,
    text_order_is_transitive, TextMap, TextSet,
};
use crate::pairs::PairMap;
use crate::strategy::{
    side_of, PositionStatus, SignalSide, SsuConfig, StrategyError, StrategyFault, StrategyPosition,
    StrategySignal, StrategySignalType, TradeAction,
};
use crate::text::{
    decimal, decimal_of, lower, lower_of, padded, padded_of, same, signed_decimal,
    signed_decimal_of, trim, trim_of, views,
};
use chrono::Datelike;
use vstd::prelude::*;

verus! {

/// What counts as nothing left of a position: the number 0.000000001.
pub const MIN_REMAINING_BITS: u64 = 0x3e11_2e0b_e826_d695;

/// How funding is charged.
#[derive(Clone, Copy, Debug, PartialEq, Eq, Structural)]
pub enum FundingChargeMode {
    Disabled,
    Signed,
    Absolute,
}

/// The way of charging that a text names.
pub open spec fn charge_mode_of(value: Seq<char>) -> Option<FundingChargeMode> {
    let name = lower_of(trim_of(value));
    if name == ""@ || name == "disabled"@ || name == "off"@ || name == "none"@ {
        Some(FundingChargeMode::Disabled)
    } else if name == "signed"@ {
        Some(FundingChargeMode::Signed)
    } else if name == "absolute"@ || name == "abs"@ || name == "conservative"@ {
        Some(FundingChargeMode::Absolute)
    } else {
        None
    }
}

/// What is said of a text that names no way of charging.
pub open spec fn charge_mode_fault(value: Seq<char>) -> StrategyFault {
    StrategyFault::Config(
        "unsupported funding_charge_mode "@ + lower_of(trim_of(value))
            + "; expected disabled, signed, or absolute"@,
    )
}

/// The name of a way of charging.
pub open spec fn charge_mode_name(mode: FundingChargeMode) -> Seq<char> {
    match mode {
        FundingChargeMode::Disabled => "disabled"@,
        FundingChargeMode::Signed => "signed"@,
        FundingChargeMode::Absolute => "absolute"@,
    }
}

impl FundingChargeMode {
    pub fn parse(value: &str) -> (r: Result<FundingChargeMode, StrategyError>)
        ensures
            match r {
                Ok(mode) => charge_mode_of(value@) == Some(mode),
                Err(e) => charge_mode_of(value@) is None && e@ == charge_mode_fault(value@),
            },
    {
        let name = lower(trim(value).as_str());
        let n = name.as_str();
        if same(n, "") || same(n, "disabled") || same(n, "off") || same(n, "none") {
            Ok(FundingChargeMode::Disabled)
        } else if same(n, "signed") {
            Ok(FundingChargeMode::Signed)
        } else if same(n, "absolute") || same(n, "abs") || same(n, "conservative") {
            Ok(FundingChargeMode::Absolute)
        } else {
            let mut message = "unsupported funding_charge_mode ".to_owned();
            message.append(n);
            message.append("; expected disabled, signed, or absolute");
            Err(StrategyError::Config(message))
        }
    }

    pub fn label(self) -> (r: &'static str)
        ensures
            r@ == charge_mode_name(self),
    {
        match self {
            FundingChargeMode::Disabled => "disabled",
            FundingChargeMode::Signed => "signed",
            FundingChargeMode::Absolute => "absolute",
        }
    }
}

/// The name of a way of charging reads back as it.
pub proof fn charge_mode_name_reads_back(mode: FundingChargeMode)
    ensures
        charge_mode_of(charge_mode_name(mode)) == Some(mode),
{
    reveal_strlit("");
    reveal_strlit("disabled");
    reveal_strlit("off");
    reveal_strlit("none");
    reveal_strlit("signed");
    reveal_strlit("absolute");
    reveal_strlit("abs");
    reveal_strlit("conservative");
    let name = charge_mode_name(mode);
    reveal_with_fuel(crate::text::trim_start_of, 2);
    reveal_with_fuel(crate::text::trim_end_of, 2);
    assert(trim_of(name) =~= name);
    assert(lower_of(name) =~= name);
}

/// The costs of a backtest.
#[derive(Clone, Copy, Debug)]
pub struct BacktestExecutionConfig {
    pub slippage_pct: Real,
    pub brokerage_pct: Real,
    pub entry_fee_pct: Option<Real>,
    pub exit_fee_pct: Option<Real>,
    pub fee_tax_pct: Real,
    pub fixed_fee_per_order: Real,
    pub funding_rate_pct: Real,
    pub funding_interval_hours: u64,
    pub funding_charge_mode: FundingChargeMode,
}

/// The number zero.
pub open spec fn zero() -> Real {
    Real { bits: 0 }
}

/// The number one.
pub open spec fn one() -> Real {
    Real { bits: 0x3ff0_0000_0000_0000 }
}

impl Default for BacktestExecutionConfig {
    fn default() -> (r: BacktestExecutionConfig)
        ensures
            r == (BacktestExecutionConfig {
                slippage_pct: zero(),
                brokerage_pct: zero(),
                entry_fee_pct: None,
                exit_fee_pct: None,
                fee_tax_pct: zero(),
                fixed_fee_per_order: zero(),
                funding_rate_pct: zero(),
                funding_interval_hours: 8,
                funding_charge_mode: FundingChargeMode::Disabled,
            }),
    {
        let zero = Real { bits: 0 };
        BacktestExecutionConfig {
            slippage_pct: zero,
            brokerage_pct: zero,
            entry_fee_pct: None,
            exit_fee_pct: None,
            fee_tax_pct: zero,
            fixed_fee_per_order: zero,
            funding_rate_pct: zero,
            funding_interval_hours: 8,
            funding_charge_mode: FundingChargeMode::Disabled,
        }
    }
}

/// Whether a cost is one: finite, and not below zero.
pub open spec fn is_cost(value: Real) -> bool {
    value.is_finite() && zero().le_of(value)
}

/// Whether a cost that may be missing is one.
pub open spec fn is_cost_if_any(value: Option<Real>) -> bool {
    value matches Some(v) ==> is_cost(v)
}

fn cost_is_fine(value: Real) -> (r: bool)
    ensures
        r == is_cost(value),
{
    value.finite() && (Real { bits: 0 }).at_most(value)
}

fn cost_is_fine_if_any(value: Option<Real>) -> (r: bool)
    ensures
        r == is_cost_if_any(value),
{
    match value {
        Some(v) => cost_is_fine(v),
        None => true,
    }
}

impl BacktestExecutionConfig {
    /// Whether the costs are costs.
    pub open spec fn is_valid(&self) -> bool {
        &&& is_cost(self.slippage_pct)
        &&& is_cost(self.brokerage_pct)
        &&& is_cost_if_any(self.entry_fee_pct)
        &&& is_cost_if_any(self.exit_fee_pct)
        &&& is_cost(self.fee_tax_pct)
        &&& is_cost(self.fixed_fee_per_order)
        &&& self.funding_rate_pct.is_finite()
        &&& self.funding_charge_mode == FundingChargeMode::Disabled || self.funding_interval_hours
            != 0
    }

    pub fn validate(&self) -> (r: Result<(), StrategyError>)
        ensures
            match r {
                Ok(_) => self.is_valid(),
                Err(e) => !self.is_valid() && e@ == StrategyFault::Config(
                    "backtest execution costs must be finite and non-negative"@,
                ),
            },
    {
        let disabled = match self.funding_charge_mode {
            FundingChargeMode::Disabled => true,
            _ => false,
        };
        if cost_is_fine(self.slippage_pct) && cost_is_fine(self.brokerage_pct)
            && cost_is_fine_if_any(self.entry_fee_pct) && cost_is_fine_if_any(self.exit_fee_pct)
            && cost_is_fine(self.fee_tax_pct) && cost_is_fine(self.fixed_fee_per_order)
            && self.funding_rate_pct.finite() && (disabled || self.funding_interval_hours != 0) {
            Ok(())
        } else {
            Err(
                StrategyError::Config(
                    "backtest execution costs must be finite and non-negative".to_owned(),
                ),
            )
        }
    }

    /// The fee on what is traded: the one that is set, or the brokerage.
    pub fn fee_pct(&self, configured: Option<Real>) -> (r: Real)
        ensures
            r == match configured {
                Some(fee) => fee,
                None => self.brokerage_pct,
            },
    {
        match configured {
            Some(fee) => fee,
            None => self.brokerage_pct,
        }
    }
}

/// The milliseconds between two charges of funding, up to the greatest that can be held.
pub open spec fn interval_millis(hours: u64) -> u64 {
    if hours * 3_600_000 > u64::MAX {
        u64::MAX
    } else {
        (hours * 3_600_000) as u64
    }
}

/// How many multiples of an interval there are from one moment to another, both counted.
pub open spec fn multiples_between(from: int, to: int, interval: int) -> int {
    let first = if from % interval == 0 {
        from / interval
    } else {
        from / interval + 1
    };
    if first > to / interval {
        0
    } else {
        to / interval - first + 1
    }
}

/// A multiple of an interval is counted where, and only where, it lies between the moments.
pub proof fn multiples_lie_between(from: int, to: int, interval: int, k: int)
    requires
        0 <= from <= to,
        interval > 0,
    ensures
        ({
            let first = if from % interval == 0 {
                from / interval
            } else {
                from / interval + 1
            };
            from <= k * interval <= to <==> first <= k < first + multiples_between(
                from,
                to,
                interval,
            )
        }),
{
    let first = if from % interval == 0 {
        from / interval
    } else {
        from / interval + 1
    };
    vstd::arithmetic::div_mod::lemma_fundamental_div_mod(from, interval);
    vstd::arithmetic::div_mod::lemma_fundamental_div_mod(to, interval);
    let (a, b) = (from / interval, to / interval);
    vstd::arithmetic::div_mod::lemma_mod_bound(from, interval);
    vstd::arithmetic::div_mod::lemma_mod_bound(to, interval);
    assert(from <= k * interval <==> first <= k) by {
        let rest = from % interval;
        assert(from == interval * a + rest);
        if k <= a {
            assert(k * interval <= interval * a) by (nonlinear_arith)
                requires
                    k <= a,
                    interval > 0,
            ;
            if k < a {
                assert(k * interval + interval <= interval * a) by (nonlinear_arith)
                    requires
                        k + 1 <= a,
                        interval > 0,
                ;
            } else {
                assert(k * interval == interval * a) by (nonlinear_arith)
                    requires
                        k == a,
                ;
            }
        } else {
            assert(k * interval >= interval * a + interval) by (nonlinear_arith)
                requires
                    k >= a + 1,
                    interval > 0,
            ;
        }
    }
    assert(k * interval <= to <==> k <= b) by {
        assert(to == interval * b + to % interval);
        if k <= b {
            assert(k * interval <= interval * b) by (nonlinear_arith)
                requires
                    k <= b,
                    interval > 0,
            ;
        } else {
            assert(k * interval >= interval * b + interval) by (nonlinear_arith)
                requires
                    k >= b + 1,
                    interval > 0,
            ;
        }
    }
}

/// How often funding is charged from one moment to another.
pub open spec fn snapshots_of(execution: BacktestExecutionConfig, entry_at: u64, exit_at: u64) -> int {
    if execution.funding_charge_mode == FundingChargeMode::Disabled
        || execution.funding_rate_pct.eq_of(zero()) || execution.funding_interval_hours == 0
        || exit_at < entry_at {
        0
    } else {
        multiples_between(
            entry_at as int,
            exit_at as int,
            interval_millis(execution.funding_interval_hours) as int,
        )
    }
}

/// How often funding is charged from one moment to another.
pub fn funding_snapshots(execution: &BacktestExecutionConfig, entry_at: u64, exit_at: u64) -> (r: u64)
    ensures
        r == snapshots_of(*execution, entry_at, exit_at),
{
    let disabled = match execution.funding_charge_mode {
        FundingChargeMode::Disabled => true,
        _ => false,
    };
    if disabled || execution.funding_rate_pct.equals(Real { bits: 0 })
        || execution.funding_interval_hours == 0 || exit_at < entry_at {
        return 0;
    }
    let hours: u64 = execution.funding_interval_hours;
    let interval: u64 = if hours > 5_124_095_576_030 {
        u64::MAX
    } else {
        hours * 3_600_000
    };
    assert(interval == interval_millis(hours));
    let last: u64 = exit_at / interval;
    proof {
        vstd::arithmetic::div_mod::lemma_div_is_ordered(
            entry_at as int,
            exit_at as int,
            interval as int,
        );
        vstd::arithmetic::div_mod::lemma_div_is_ordered_by_denominator(
            exit_at as int,
            2,
            interval as int,
        );
    }
    if entry_at % interval == 0 {
        last - entry_at / interval + 1
    } else if entry_at / interval >= last {
        0
    } else {
        last - entry_at / interval
    }
}

/// What `chrono` gives for the date of a moment at a place whose clock is ahead of UTC, or
/// nothing where the moment is out of its range.
pub uninterp spec fn chrono_date(millis: i64, offset_seconds: i32) -> Option<(i32, u32, u32)>;

/// Whether a date, where there is one, has a month and a day of a calendar.
pub open spec fn has_calendar_form(date: Option<(i32, u32, u32)>) -> bool {
    match date {
        Some(d) => 1 <= d.1 <= 12 && 1 <= d.2 <= 31,
        None => true,
    }
}

/// Whether a date is that of a moment at a place whose clock is ahead of UTC.
pub open spec fn is_date_of(
    date: Option<(i32, u32, u32)>,
    millis: int,
    offset_seconds: int,
) -> bool {
    match date {
        Some(d) => 1970 <= d.0 && (d.0 as int, d.1 as int, d.2 as int) == date_of(
            local_day(millis / 1_000, offset_seconds),
        ),
        None => false,
    }
}

/// Asks `chrono` for the date of a moment at a place whose clock is ahead of UTC: through
/// `DateTime::from_timestamp_millis`, `with_timezone` of a `FixedOffset`, and the date's
/// year, month and day. The contract says which date that is for every moment from 1970 to
/// the end of the year 9999, and that months and days are those of a calendar. How far
/// beyond that the range of `chrono` goes is left to its name.
#[verifier::external_body]
fn local_date(millis: i64, offset_seconds: i32) -> (r: Option<(i32, u32, u32)>)
    requires
        0 <= offset_seconds < 86_400,
    ensures
        r == chrono_date(millis, offset_seconds),
        has_calendar_form(r),
        0 <= millis <= LAST_MILLIS ==> is_date_of(r, millis as int, offset_seconds as int),
{
    let zone = chrono::FixedOffset::east_opt(offset_seconds)?;
    let date = chrono::DateTime::from_timestamp_millis(millis)?.with_timezone(&zone);
    Some((date.year(), date.month(), date.day()))
}

/// A year as it stands in a date: with a sign where it is below zero, and at least four
/// characters.
pub open spec fn year_text(year: int) -> Seq<char> {
    if year < 0 {
        "-"@ + padded_of((-year) as nat, 3)
    } else {
        padded_of(year as nat, 4)
    }
}

/// The day of a moment, given its date.
pub open spec fn day_from(millis: u64, date: Option<(i32, u32, u32)>) -> Result<
    Seq<char>,
    StrategyFault,
> {
    match date {
        None => Err(StrategyFault::Parse("invalid unix millis "@ + decimal_of(millis as nat))),
        Some((year, month, day)) => Ok(
            year_text(year as int) + "-"@ + padded_of(month as nat, 2) + "-"@ + padded_of(
                day as nat,
                2,
            ),
        ),
    }
}

/// The day, in Indian Standard Time, that a moment falls on.
pub open spec fn ist_day_of(millis: u64) -> Result<Seq<char>, StrategyFault> {
    day_from(millis, chrono_date(millis as i64, 19_800))
}

/// The day, in Indian Standard Time, that a moment falls on.
pub fn ist_day_key(unix_millis: u64) -> (r: Result<String, StrategyError>)
    ensures
        match r {
            Ok(day) => ist_day_of(unix_millis) == Ok::<Seq<char>, StrategyFault>(day@),
            Err(e) => ist_day_of(unix_millis) == Err::<Seq<char>, StrategyFault>(e@),
        },
        unix_millis <= LAST_MILLIS ==> (r matches Ok(day) && day@ == date_text(
            date_of(local_day((unix_millis / 1_000) as int, 19_800)),
        )),
{
    day_key(unix_millis, local_date(unix_millis as i64, 19_800))
}

/// The day of a moment, given its date.
pub fn day_key(unix_millis: u64, date: Option<(i32, u32, u32)>) -> (r: Result<
    String,
    StrategyError,
>)
    ensures
        match r {
            Ok(day) => day_from(unix_millis, date) == Ok::<Seq<char>, StrategyFault>(day@),
            Err(e) => day_from(unix_millis, date) == Err::<Seq<char>, StrategyFault>(e@),
        },
{
    match date {
        None => Err(
            StrategyError::Parse(
                "invalid unix millis ".to_owned().concat(decimal(unix_millis).as_str()),
            ),
        ),
        Some((year, month, day)) => {
            let mut out: String = if year < 0 {
                "-".to_owned().concat(padded((-(year as i64)) as u64, 3).as_str())
            } else {
                padded(year as u64, 4)
            };
            out.append("-");
            out.append(padded(month as u64, 2).as_str());
            out.append("-");
            out.append(padded(day as u64, 2).as_str());
            Ok(out)
        },
    }
}

/// What is traded at once: all that a signal asks for.
#[derive(Clone, Copy, Debug, PartialEq, Eq, Structural)]
pub enum OrderSort {
    Entry,
    PartialExit,
    FullExit,
}

/// What a signal asks for.
#[derive(Debug)]
pub struct OrderRequest {
    pub leg_id: String,
    pub instrument: String,
    pub side: SignalSide,
    pub action: TradeAction,
    pub raw_price: Real,
    pub qty: Real,
}

/// What a signal asks for, as contracts speak of it.
pub struct RequestFacts {
    pub leg_id: Seq<char>,
    pub instrument: Seq<char>,
    pub side: SignalSide,
    pub action: TradeAction,
    pub raw_price: Real,
    pub qty: Real,
}

impl View for OrderRequest {
    type V = RequestFacts;

    open spec fn view(&self) -> RequestFacts {
        RequestFacts {
            leg_id: self.leg_id@,
            instrument: self.instrument@,
            side: self.side,
            action: self.action,
            raw_price: self.raw_price,
            qty: self.qty,
        }
    }
}

/// What is said of a signal that cannot be followed.
pub open spec fn signal_fault(signal: StrategySignal, text: Seq<char>) -> StrategyFault {
    StrategyFault::Rule("signal "@ + signal.signal_id@ + text)
}

fn signal_error(signal: &StrategySignal, text: &str) -> (r: StrategyError)
    ensures
        r@ == signal_fault(*signal, text@),
{
    let mut message = "signal ".to_owned();
    message.append(signal.signal_id.as_str());
    message.append(text);
    StrategyError::Rule(message)
}

/// Whether a signal is of a sort.
pub open spec fn is_of_sort(signal_type: StrategySignalType, sort: OrderSort) -> bool {
    match sort {
        OrderSort::Entry => signal_type is EntryLong || signal_type is EntryShort,
        OrderSort::PartialExit => signal_type is ExitLongPartial || signal_type is ExitShortPartial,
        OrderSort::FullExit => signal_type is ExitLong || signal_type is ExitShort,
    }
}

/// What is said of a signal that is not of a sort.
pub open spec fn sort_text(sort: OrderSort) -> Seq<char> {
    match sort {
        OrderSort::Entry => " is not an entry signal"@,
        OrderSort::PartialExit => " is not a partial exit signal"@,
        OrderSort::FullExit => " is not a full exit signal"@,
    }
}

/// Whether a quantity can be traded.
pub open spec fn is_qty(qty: Real, sort: OrderSort) -> bool {
    match sort {
        OrderSort::Entry => qty.is_finite() && !qty.le_of(zero()),
        OrderSort::PartialExit => qty.is_finite() && !qty.le_of(zero()) && !one().le_of(qty),
        OrderSort::FullExit => true,
    }
}

/// The price that a signal's first trade has: the one to go by, or the limit.
pub open spec fn price_of(signal: StrategySignal) -> Option<Real> {
    let policy = signal.instructions@[0].price_policy;
    match policy.reference_price {
        Some(price) => Some(price),
        None => policy.limit_price,
    }
}

pub open spec fn request_in(signal: StrategySignal, side: SignalSide, raw_price: Real) -> RequestFacts {
    let first = signal.instructions@[0];
    RequestFacts {
        leg_id: first.leg_id@,
        instrument: first.instrument_name@,
        side,
        action: first.action,
        raw_price,
        qty: first.quantity_ratio.absolute_of(),
    }
}

/// What a signal asks for. An exit in part looks at its quantity before its price, an entry
/// at its price before its quantity.
pub open spec fn request_of(signal: StrategySignal, sort: OrderSort) -> Result<
    RequestFacts,
    StrategyFault,
> {
    let no_price = signal_fault(
        signal,
        " primary instruction has no reference or limit price"@,
    );
    if !is_of_sort(signal.signal_type, sort) {
        Err(signal_fault(signal, sort_text(sort)))
    } else if side_of(signal.signal_type) is None {
        Err(signal_fault(signal, " has no directional side"@))
    } else if signal.instructions@.len() == 0 {
        Err(signal_fault(signal, " has no trade instructions"@))
    } else {
        let side = side_of(signal.signal_type)->0;
        let qty = signal.instructions@[0].quantity_ratio.absolute_of();
        if sort == OrderSort::PartialExit && !is_qty(qty, sort) {
            Err(
                signal_fault(
                    signal,
                    " partial exit quantity_ratio must be between 0 and 1"@,
                ),
            )
        } else {
            match price_of(signal) {
                None => Err(no_price),
                Some(price) => if !is_qty(qty, sort) {
                    Err(
                        signal_fault(
                            signal,
                            " primary instruction has invalid quantity_ratio"@,
                        ),
                    )
                } else {
                    Ok(request_in(signal, side, price))
                },
            }
        }
    }
}

/// What a signal asks for.
pub fn read_request(signal: &StrategySignal, sort: OrderSort) -> (r: Result<
    OrderRequest,
    StrategyError,
>)
    ensures
        match r {
            Ok(request) => request_of(*signal, sort) == Ok::<RequestFacts, StrategyFault>(request@),
            Err(e) => request_of(*signal, sort) == Err::<RequestFacts, StrategyFault>(e@),
        },
{
    match sort {
        OrderSort::Entry => {
            if !signal.signal_type.is_entry() {
                return Err(signal_error(signal, " is not an entry signal"));
            }
        },
        OrderSort::PartialExit => {
            if !signal.signal_type.is_partial_exit() {
                return Err(signal_error(signal, " is not a partial exit signal"));
            }
        },
        OrderSort::FullExit => {
            if !signal.signal_type.is_full_exit() {
                return Err(signal_error(signal, " is not a full exit signal"));
            }
        },
    }
    let side = match signal.signal_type.side() {
        Some(side) => side,
        None => return Err(signal_error(signal, " has no directional side")),
    };
    let first = match signal.primary_instruction() {
        Some(first) => first,
        None => return Err(signal_error(signal, " has no trade instructions")),
    };
    let qty = first.quantity_ratio.absolute();
    let some = qty.finite() && !qty.at_most(Real { bits: 0 });
    let part = some && !(Real { bits: 0x3ff0_0000_0000_0000 }).at_most(qty);
    let is_partial = match sort {
        OrderSort::PartialExit => true,
        _ => false,
    };
    let is_entry = match sort {
        OrderSort::Entry => true,
        _ => false,
    };
    if is_partial && !part {
        return Err(signal_error(signal, " partial exit quantity_ratio must be between 0 and 1"));
    }
    let raw_price = match first.price_policy.reference_price {
        Some(price) => price,
        None => match first.price_policy.limit_price {
            Some(price) => price,
            None => return Err(
                signal_error(signal, " primary instruction has no reference or limit price"),
            ),
        },
    };
    if is_entry && !some {
        return Err(signal_error(signal, " primary instruction has invalid quantity_ratio"));
    }
    Ok(
        OrderRequest {
            leg_id: first.leg_id.clone(),
            instrument: first.instrument_name.clone(),
            side,
            action: first.action,
            raw_price,
            qty,
        },
    )
}

/// What was sold or bought back of a position before it was closed.
#[derive(Debug)]
pub struct BacktestPartialExit {
    pub signal_id: String,
    pub reason: String,
    pub qty: Real,
    pub raw_exit_price: Real,
    pub exit_price: Real,
    pub exit_at: u64,
    pub exit_charges: Real,
    pub exit_slippage: Real,
    pub funding_charges: Real,
    pub gross_pnl: Real,
    pub net_pnl: Real,
}

/// A trade of a backtest. `partial_limit` is what is left of its quantity, less what counts
/// as nothing left.
#[derive(Debug)]
pub struct BacktestTrade {
    pub position_id: String,
    pub entry_signal_id: String,
    pub exit_signal_id: Option<String>,
    pub entry_metadata: Json,
    pub ssu_id: i64,
    pub strategy_key: String,
    pub instrument: String,
    pub side: SignalSide,
    pub status: PositionStatus,
    pub qty: Real,
    pub remaining_qty: Real,
    pub partial_limit: Real,
    pub raw_entry_price: Real,
    pub entry_price: Real,
    pub entry_at: u64,
    pub entry_charges: Real,
    pub entry_slippage: Real,
    pub raw_exit_price: Option<Real>,
    pub exit_price: Option<Real>,
    pub exit_at: Option<u64>,
    pub exit_reason: Option<String>,
    pub exit_charges: Real,
    pub exit_slippage: Real,
    pub funding_charges: Real,
    pub gross_pnl: Option<Real>,
    pub charges: Real,
    pub net_pnl: Option<Real>,
    pub partial_exits: Vec<BacktestPartialExit>,
}

/// What an entry comes to: the price with slippage, the fee, the slippage, and the quantity
/// less what counts as nothing left.
#[derive(Clone, Copy, Debug)]
pub struct EntryAmounts {
    pub entry_price: Real,
    pub entry_charges: Real,
    pub entry_slippage: Real,
    pub partial_limit: Real,
}

/// What an exit in part comes to, and what the trade then comes to.
#[derive(Clone, Copy, Debug)]
pub struct PartialAmounts {
    pub exit_price: Real,
    pub exit_charges: Real,
    pub exit_slippage: Real,
    pub funding_charges: Real,
    pub gross_pnl: Real,
    pub net_pnl: Real,
    pub remaining_qty: Real,
    pub partial_limit: Real,
    pub trade_exit_charges: Real,
    pub trade_exit_slippage: Real,
    pub trade_funding_charges: Real,
    pub trade_charges: Real,
}

/// What a trade comes to with its exit.
#[derive(Clone, Copy, Debug)]
pub struct ExitAmounts {
    pub exit_price: Real,
    pub trade_exit_charges: Real,
    pub trade_exit_slippage: Real,
    pub trade_funding_charges: Real,
    pub trade_charges: Real,
    pub gross_pnl: Real,
    pub net_pnl: Real,
}

/// An open position, as it is found by what it holds.
pub struct OpenFacts {
    pub ssu_id: i64,
    pub instrument: Seq<char>,
    pub side: SignalSide,
    pub entry_at: u64,
    pub position_id: Seq<char>,
}

/// What a book holds: positions and trades by their ids, which positions are open, of which
/// strategy, and as what they are found, when strategies entered last, and how often they
/// entered on a day.
pub struct BookFacts {
    pub positions: Map<Seq<char>, StrategyPosition>,
    pub trades: Map<Seq<char>, BacktestTrade>,
    pub open: Set<(i64, Seq<char>)>,
    pub orders: Set<OpenFacts>,
    pub last_entries: Map<i64, u64>,
    pub entries: Map<(i64, Seq<char>), u32>,
}

/// The open positions of a strategy.
pub open spec fn open_ids(open: Set<(i64, Seq<char>)>, ssu_id: i64) -> Set<Seq<char>> {
    Set::new(|id: Seq<char>| open.contains((ssu_id, id)))
}

/// How often a strategy entered on a day.
pub open spec fn entries_on(book: BookFacts, ssu_id: i64, day: Seq<char>) -> u32 {
    if book.entries.contains_key((ssu_id, day)) {
        book.entries[(ssu_id, day)]
    } else {
        0
    }
}

/// What is wrong with an entry of a strategy now, if anything.
pub open spec fn limit_fault(book: BookFacts, generated_at: u64, ssu: SsuConfig) -> Option<StrategyFault> {
    let id = "SSU "@ + signed_decimal_of(ssu.ssu_id as int);
    let blocked_until = book.last_entries[ssu.ssu_id] + ssu.trade_gap_secs * 1_000;
    if ssu.trade_gap_secs > 0 && book.last_entries.contains_key(ssu.ssu_id) && generated_at
        < blocked_until {
        Some(
            StrategyFault::Rule(
                id + " trade_gap_secs blocked entry until "@ + decimal_of(blocked_until as nat),
            ),
        )
    } else if ssu.max_overlap > 0 && open_ids(book.open, ssu.ssu_id).len() % 0x1_0000_0000
        >= ssu.max_overlap {
        Some(StrategyFault::Rule(id + " max_overlap reached"@))
    } else if ssu.max_positions_per_day > 0 {
        match ist_day_of(generated_at) {
            Err(e) => Some(e),
            Ok(day) => if entries_on(book, ssu.ssu_id, day) >= ssu.max_positions_per_day {
                Some(StrategyFault::Rule(id + " max_positions_per_day reached for "@ + day))
            } else {
                None
            },
        }
    } else {
        None
    }
}

/// Whether a position is the one that a signal enters.
pub open spec fn is_entered(
    p: StrategyPosition,
    signal: StrategySignal,
    request: RequestFacts,
    amounts: EntryAmounts,
) -> bool {
    &&& p.position_id@ == request.leg_id
    &&& p.ssu_id == signal.ssu_id
    &&& p.trigger_instrument@ == signal.trigger_instrument@
    &&& p.trade_instrument@ == request.instrument
    &&& p.side == request.side
    &&& p.entry_price == amounts.entry_price
    &&& p.entry_at == signal.generated_at
    &&& p.exit_price is None
    &&& p.exit_at is None
    &&& p.exit_reason is None
    &&& p.pnl is None
    &&& p.status == PositionStatus::Open
}

/// Whether a trade is the one that a signal enters.
pub open spec fn is_entered_trade(
    t: BacktestTrade,
    signal: StrategySignal,
    request: RequestFacts,
    amounts: EntryAmounts,
) -> bool {
    &&& t.position_id@ == request.leg_id
    &&& t.entry_signal_id@ == signal.signal_id@
    &&& t.exit_signal_id is None
    &&& t.entry_metadata@ == signal.metadata@
    &&& t.ssu_id == signal.ssu_id
    &&& t.strategy_key@ == signal.strategy_key@
    &&& t.instrument@ == request.instrument
    &&& t.side == request.side
    &&& t.status == PositionStatus::Open
    &&& t.qty == request.qty
    &&& t.remaining_qty == request.qty
    &&& t.partial_limit == amounts.partial_limit
    &&& t.raw_entry_price == request.raw_price
    &&& t.entry_price == amounts.entry_price
    &&& t.entry_at == signal.generated_at
    &&& t.entry_charges == amounts.entry_charges
    &&& t.entry_slippage == amounts.entry_slippage
    &&& t.raw_exit_price is None
    &&& t.exit_price is None
    &&& t.exit_at is None
    &&& t.exit_reason is None
    &&& t.exit_charges == zero()
    &&& t.exit_slippage == zero()
    &&& t.funding_charges == zero()
    &&& t.gross_pnl is None
    &&& t.charges == amounts.entry_charges
    &&& t.net_pnl is None
    &&& t.partial_exits@.len() == 0
}

/// As what a position is found while it is open.
pub open spec fn found_as(p: StrategyPosition) -> OpenFacts {
    OpenFacts {
        ssu_id: p.ssu_id,
        instrument: p.trade_instrument@,
        side: p.side,
        entry_at: p.entry_at,
        position_id: p.position_id@,
    }
}

/// Whether a book has become another by an entry.
pub open spec fn entered(
    before: BookFacts,
    after: BookFacts,
    signal: StrategySignal,
    request: RequestFacts,
    amounts: EntryAmounts,
) -> bool {
    let id = request.leg_id;
    let ssu_id = signal.ssu_id;
    &&& after.positions == before.positions.insert(id, after.positions[id])
    &&& is_entered(after.positions[id], signal, request, amounts)
    &&& after.trades == before.trades.insert(id, after.trades[id])
    &&& is_entered_trade(after.trades[id], signal, request, amounts)
    &&& after.open == before.open.insert((ssu_id, id))
    &&& after.orders == before.orders.insert(found_as(after.positions[id]))
    &&& after.last_entries == before.last_entries.insert(
        ssu_id,
        if before.last_entries.contains_key(ssu_id) && before.last_entries[ssu_id]
            > signal.generated_at {
            before.last_entries[ssu_id]
        } else {
            signal.generated_at
        },
    )
    &&& match ist_day_of(signal.generated_at) {
        Ok(day) => after.entries == before.entries.insert(
            (ssu_id, day),
            (entries_on(before, ssu_id, day) + 1) as u32,
        ),
        Err(_) => after.entries == before.entries,
    }
}

/// Whether one open position comes behind another: it was entered later, or as late with a
/// greater id.
pub open spec fn is_later(a: OpenFacts, b: OpenFacts) -> bool {
    a.entry_at > b.entry_at || (a.entry_at == b.entry_at && text_lt(b.position_id, a.position_id))
}

/// Whether an open position is of a strategy, an instrument and a side.
pub open spec fn is_held_as(o: OpenFacts, ssu_id: i64, instrument: Seq<char>, side: SignalSide) -> bool {
    o.ssu_id == ssu_id && o.instrument == instrument && o.side == side
}

/// Whether an open position is the last of a strategy, an instrument and a side.
pub open spec fn is_latest(
    o: OpenFacts,
    orders: Set<OpenFacts>,
    ssu_id: i64,
    instrument: Seq<char>,
    side: SignalSide,
) -> bool {
    &&& orders.contains(o)
    &&& is_held_as(o, ssu_id, instrument, side)
    &&& forall|p: OpenFacts|
        #[trigger] orders.contains(p) && is_held_as(p, ssu_id, instrument, side) ==> !is_later(p, o)
}

/// The last of the open positions of a strategy, an instrument and a side.
pub open spec fn latest_of(
    orders: Set<OpenFacts>,
    ssu_id: i64,
    instrument: Seq<char>,
    side: SignalSide,
) -> Option<Seq<char>> {
    if exists|o: OpenFacts| #[trigger] is_latest(o, orders, ssu_id, instrument, side) {
        Some((choose|o: OpenFacts| #[trigger] is_latest(o, orders, ssu_id, instrument, side)).position_id)
    } else {
        None
    }
}

/// There is but one last position.
pub proof fn latest_is_one(
    a: OpenFacts,
    b: OpenFacts,
    orders: Set<OpenFacts>,
    ssu_id: i64,
    instrument: Seq<char>,
    side: SignalSide,
)
    requires
        is_latest(a, orders, ssu_id, instrument, side),
        is_latest(b, orders, ssu_id, instrument, side),
    ensures
        a == b,
{
    text_order_is_total(a.position_id, b.position_id);
    assert(!is_later(a, b) && !is_later(b, a));
}

/// The position that a signal is about: the one that its leg names, where that is open and of
/// its strategy, instrument and side, or else the last of those.
pub open spec fn position_for(book: BookFacts, ssu_id: i64, request: RequestFacts) -> Option<Seq<char>> {
    let id = request.leg_id;
    let p = book.positions[id];
    if book.positions.contains_key(id) && p.ssu_id == ssu_id && p.trade_instrument@
        == request.instrument && p.side == request.side && p.status == PositionStatus::Open {
        Some(p.position_id@)
    } else {
        latest_of(book.orders, ssu_id, request.instrument, request.side)
    }
}

/// What is said where there is no such position.
pub open spec fn no_position(ssu_id: i64, request: RequestFacts) -> StrategyFault {
    StrategyFault::Rule(
        "no open virtual position found for SSU "@ + signed_decimal_of(ssu_id as int)
            + " instrument "@ + request.instrument,
    )
}

/// The position that an exit is about, or what is wrong with the exit.
pub open spec fn exit_of(book: BookFacts, signal: StrategySignal, sort: OrderSort) -> Result<
    (Seq<char>, RequestFacts),
    StrategyFault,
> {
    match request_of(signal, sort) {
        Err(e) => Err(e),
        Ok(request) => match position_for(book, signal.ssu_id, request) {
            None => Err(no_position(signal.ssu_id, request)),
            Some(id) => if !book.trades.contains_key(id) {
                Err(StrategyFault::NotFound("missing backtest trade for "@ + id))
            } else {
                let trade = book.trades[id];
                let least = Real { bits: MIN_REMAINING_BITS };
                if sort == OrderSort::PartialExit {
                    if trade.status != PositionStatus::Open || trade.remaining_qty.le_of(least) {
                        Err(
                            StrategyFault::Rule(
                                "position "@ + id + " has no remaining quantity for partial exit"@,
                            ),
                        )
                    } else if trade.partial_limit.le_of(request.qty) {
                        Err(
                            signal_fault(
                                signal,
                                " partial exit quantity_ratio would close the full position"@,
                            ),
                        )
                    } else {
                        Ok((id, request))
                    }
                } else if trade.remaining_qty.le_of(least) {
                    Err(
                        StrategyFault::Rule(
                            "position "@ + id + " has no remaining quantity to close"@,
                        ),
                    )
                } else {
                    Ok((id, request))
                }
            },
        },
    }
}

/// What an exit is about: the position, how it is traded, and what its trade came to so far.
#[derive(Debug)]
pub struct ExitPlan {
    pub position_id: String,
    pub side: SignalSide,
    pub action: TradeAction,
    pub raw_exit_price: Real,
    /// What is sold or bought back: a part, or all that is left.
    pub qty: Real,
    pub entry_price: Real,
    pub entry_at: u64,
    pub exit_at: u64,
    pub remaining_qty: Real,
    pub exit_charges: Real,
    pub exit_slippage: Real,
    pub funding_charges: Real,
    pub charges: Real,
    /// What the exits before came to, before charges.
    pub partial_gross: Vec<Real>,
}

/// Whether a plan is that of an exit.
pub open spec fn is_plan_of(
    plan: ExitPlan,
    signal: StrategySignal,
    sort: OrderSort,
    id: Seq<char>,
    request: RequestFacts,
    trade: BacktestTrade,
) -> bool {
    &&& plan.position_id@ == id
    &&& plan.side == request.side
    &&& plan.action == request.action
    &&& plan.raw_exit_price == request.raw_price
    &&& plan.qty == if sort == OrderSort::PartialExit {
        request.qty
    } else {
        trade.remaining_qty
    }
    &&& plan.entry_price == trade.entry_price
    &&& plan.entry_at == trade.entry_at
    &&& plan.exit_at == signal.generated_at
    &&& plan.remaining_qty == trade.remaining_qty
    &&& plan.exit_charges == trade.exit_charges
    &&& plan.exit_slippage == trade.exit_slippage
    &&& plan.funding_charges == trade.funding_charges
    &&& plan.charges == trade.charges
    &&& plan.partial_gross@ == gross_of(trade.partial_exits@)
}

pub open spec fn gross_of(exits: Seq<BacktestPartialExit>) -> Seq<Real> {
    Seq::new(exits.len(), |i: int| exits[i].gross_pnl)
}

/// Whether a trade is what another becomes by an exit in part.
pub open spec fn is_partly_exited(
    after: BacktestTrade,
    before: BacktestTrade,
    signal: StrategySignal,
    request: RequestFacts,
    amounts: PartialAmounts,
) -> bool {
    let exits = after.partial_exits@;
    &&& after == (BacktestTrade {
        remaining_qty: amounts.remaining_qty,
        partial_limit: amounts.partial_limit,
        exit_charges: amounts.trade_exit_charges,
        exit_slippage: amounts.trade_exit_slippage,
        funding_charges: amounts.trade_funding_charges,
        charges: amounts.trade_charges,
        partial_exits: after.partial_exits,
        ..before
    })
    &&& exits.len() == before.partial_exits@.len() + 1
    &&& exits.drop_last() == before.partial_exits@
    &&& exits.last().signal_id@ == signal.signal_id@
    &&& exits.last().reason@ == signal.reason@
    &&& exits.last().qty == request.qty
    &&& exits.last().raw_exit_price == request.raw_price
    &&& exits.last().exit_price == amounts.exit_price
    &&& exits.last().exit_at == signal.generated_at
    &&& exits.last().exit_charges == amounts.exit_charges
    &&& exits.last().exit_slippage == amounts.exit_slippage
    &&& exits.last().funding_charges == amounts.funding_charges
    &&& exits.last().gross_pnl == amounts.gross_pnl
    &&& exits.last().net_pnl == amounts.net_pnl
}

/// Whether a trade is what another becomes by its exit.
pub open spec fn is_exited(
    after: BacktestTrade,
    before: BacktestTrade,
    signal: StrategySignal,
    request: RequestFacts,
    amounts: ExitAmounts,
) -> bool {
    &&& after == (BacktestTrade {
        exit_signal_id: after.exit_signal_id,
        status: PositionStatus::Closed,
        raw_exit_price: Some(request.raw_price),
        exit_price: Some(amounts.exit_price),
        exit_at: Some(signal.generated_at),
        exit_reason: after.exit_reason,
        exit_charges: amounts.trade_exit_charges,
        exit_slippage: amounts.trade_exit_slippage,
        funding_charges: amounts.trade_funding_charges,
        gross_pnl: Some(amounts.gross_pnl),
        charges: amounts.trade_charges,
        net_pnl: Some(amounts.net_pnl),
        remaining_qty: zero(),
        ..before
    })
    &&& after.exit_signal_id matches Some(id) && id@ == signal.signal_id@
    &&& after.exit_reason matches Some(reason) && reason@ == signal.reason@
}

/// Whether a position is what another becomes by its exit.
pub open spec fn is_closed_as(
    after: StrategyPosition,
    before: StrategyPosition,
    signal: StrategySignal,
    amounts: ExitAmounts,
) -> bool {
    &&& after == (StrategyPosition {
        exit_price: Some(amounts.exit_price),
        exit_at: Some(signal.generated_at),
        exit_reason: after.exit_reason,
        pnl: Some(amounts.net_pnl),
        status: PositionStatus::Closed,
        ..before
    })
    &&& after.exit_reason matches Some(reason) && reason@ == signal.reason@
}

/// Whether a book has become another by the exit of a position.
pub open spec fn exited(
    before: BookFacts,
    after: BookFacts,
    signal: StrategySignal,
    id: Seq<char>,
    request: RequestFacts,
    amounts: ExitAmounts,
) -> bool {
    &&& after.positions == before.positions.insert(id, after.positions[id])
    &&& is_closed_as(after.positions[id], before.positions[id], signal, amounts)
    &&& after.trades == before.trades.insert(id, after.trades[id])
    &&& is_exited(after.trades[id], before.trades[id], signal, request, amounts)
    &&& after.open == before.open.remove((before.positions[id].ssu_id, id))
    &&& after.orders == before.orders.remove(found_as(before.positions[id]))
    &&& after.last_entries == before.last_entries
    &&& after.entries == before.entries
}

/// Whether what is open is what the positions say: a position is listed as open where, and
/// only where, it is, under its strategy, and is found as what it is.
pub open spec fn in_step(book: BookFacts) -> bool {
    &&& forall|ssu_id: i64, id: Seq<char>| #[trigger]
        book.open.contains((ssu_id, id)) <==> book.positions.contains_key(id)
            && book.positions[id].status == PositionStatus::Open && book.positions[id].ssu_id
            == ssu_id
    &&& forall|o: OpenFacts| #[trigger]
        book.orders.contains(o) <==> book.positions.contains_key(o.position_id)
            && book.positions[o.position_id].status == PositionStatus::Open && o == found_as(
            book.positions[o.position_id],
        )
    &&& forall|id: Seq<char>| #[trigger]
        book.positions.contains_key(id) ==> book.positions[id].position_id@ == id
}

/// Entering a position under an id of its own keeps what is open in step with the positions.
pub proof fn entering_keeps_step(
    before: BookFacts,
    after: BookFacts,
    signal: StrategySignal,
    request: RequestFacts,
    amounts: EntryAmounts,
)
    requires
        in_step(before),
        !before.positions.contains_key(request.leg_id),
        entered(before, after, signal, request, amounts),
    ensures
        in_step(after),
{
    let id = request.leg_id;
    assert forall|o: OpenFacts| #[trigger]
        after.orders.contains(o) <==> after.positions.contains_key(o.position_id)
            && after.positions[o.position_id].status == PositionStatus::Open && o == found_as(
            after.positions[o.position_id],
        ) by {
        assert(before.orders.contains(o) ==> before.positions.contains_key(o.position_id));
    }
    assert forall|ssu_id: i64, k: Seq<char>| #[trigger]
        after.open.contains((ssu_id, k)) <==> after.positions.contains_key(k)
            && after.positions[k].status == PositionStatus::Open && after.positions[k].ssu_id
            == ssu_id by {
        assert(before.open.contains((ssu_id, k)) ==> before.positions.contains_key(k));
    }
}

/// Closing a position keeps what is open in step with the positions, and the position is open
/// no longer.
pub proof fn exiting_keeps_step(
    before: BookFacts,
    after: BookFacts,
    signal: StrategySignal,
    id: Seq<char>,
    request: RequestFacts,
    amounts: ExitAmounts,
)
    requires
        in_step(before),
        before.positions.contains_key(id),
        exited(before, after, signal, id, request, amounts),
    ensures
        in_step(after),
        forall|ssu_id: i64| !#[trigger] after.open.contains((ssu_id, id)),
{
    let p = before.positions[id];
    assert(p.position_id@ == id);
    assert forall|o: OpenFacts| #[trigger]
        after.orders.contains(o) <==> after.positions.contains_key(o.position_id)
            && after.positions[o.position_id].status == PositionStatus::Open && o == found_as(
            after.positions[o.position_id],
        ) by {
        assert(before.orders.contains(o) <==> before.positions.contains_key(o.position_id)
            && before.positions[o.position_id].status == PositionStatus::Open && o == found_as(
            before.positions[o.position_id],
        ));
    }
    assert forall|ssu_id: i64, k: Seq<char>| #[trigger]
        after.open.contains((ssu_id, k)) <==> after.positions.contains_key(k)
            && after.positions[k].status == PositionStatus::Open && after.positions[k].ssu_id
            == ssu_id by {
        assert(before.open.contains((ssu_id, k)) <==> before.positions.contains_key(k)
            && before.positions[k].status == PositionStatus::Open && before.positions[k].ssu_id
            == ssu_id);
    }
}

/// Closing a position that was entered under an id of its own leaves open what was open before
/// it was entered.
pub proof fn exiting_undoes_entering(
    before: BookFacts,
    between: BookFacts,
    after: BookFacts,
    entry: StrategySignal,
    entry_request: RequestFacts,
    entry_amounts: EntryAmounts,
    exit: StrategySignal,
    exit_request: RequestFacts,
    exit_amounts: ExitAmounts,
)
    requires
        in_step(before),
        !before.positions.contains_key(entry_request.leg_id),
        entered(before, between, entry, entry_request, entry_amounts),
        exited(between, after, exit, entry_request.leg_id, exit_request, exit_amounts),
    ensures
        after.open == before.open,
        after.orders == before.orders,
{
    let id = entry_request.leg_id;
    assert(!before.open.contains((entry.ssu_id, id)));
    assert(!before.orders.contains(found_as(between.positions[id])));
    assert(after.open =~= before.open);
    assert(after.orders =~= before.orders);
}

/// An entry that the limits of a strategy allow keeps them: it comes no sooner after the last
/// entry than the strategy asks for, no more positions are open than it allows, and no more
/// were entered on the day.
pub proof fn entering_keeps_limits(
    before: BookFacts,
    after: BookFacts,
    signal: StrategySignal,
    request: RequestFacts,
    amounts: EntryAmounts,
    ssu: SsuConfig,
)
    requires
        signal.ssu_id == ssu.ssu_id,
        limit_fault(before, signal.generated_at, ssu) is None,
        entered(before, after, signal, request, amounts),
        open_ids(before.open, ssu.ssu_id).finite(),
        open_ids(before.open, ssu.ssu_id).len() < 0x1_0000_0000,
    ensures
        ssu.trade_gap_secs > 0 && before.last_entries.contains_key(ssu.ssu_id)
            ==> signal.generated_at >= before.last_entries[ssu.ssu_id] + ssu.trade_gap_secs * 1_000,
        ssu.max_overlap > 0 ==> open_ids(after.open, ssu.ssu_id).len() <= ssu.max_overlap,
        ssu.max_positions_per_day > 0 ==> ist_day_of(signal.generated_at) is Ok && entries_on(
            after,
            ssu.ssu_id,
            ist_day_of(signal.generated_at)->Ok_0,
        ) <= ssu.max_positions_per_day,
{
    let had = open_ids(before.open, ssu.ssu_id);
    assert(open_ids(after.open, ssu.ssu_id) =~= had.insert(request.leg_id));
}

/// The number of a strategy as a key.
spec fn code_of(ssu_id: i64) -> u64 {
    (ssu_id + 0x8000_0000_0000_0000) as u64
}

fn ssu_code(ssu_id: i64) -> (r: u64)
    ensures
        r == code_of(ssu_id),
{
    (ssu_id as i128 + 0x8000_0000_0000_0000) as u64
}

spec fn key_of(ssu_id: i64) -> (u64, u64) {
    (code_of(ssu_id), 0u64)
}

spec fn open_in(map: Map<(u64, u64), TextSet>) -> Set<(i64, Seq<char>)> {
    Set::new(
        |p: (i64, Seq<char>)| map.contains_key(key_of(p.0)) && map[key_of(p.0)]@.contains(p.1),
    )
}

spec fn lasts_in(map: Map<(u64, u64), u64>) -> Map<i64, u64> {
    Map::new(|ssu_id: i64| map.contains_key(key_of(ssu_id)), |ssu_id: i64| map[key_of(ssu_id)])
}

spec fn entries_in(map: Map<Seq<char>, PairMap<u32>>) -> Map<(i64, Seq<char>), u32> {
    Map::new(
        |p: (i64, Seq<char>)| map.contains_key(p.1) && map[p.1]@.contains_key(key_of(p.0)),
        |p: (i64, Seq<char>)| map[p.1]@[key_of(p.0)],
    )
}

#[derive(Debug)]
struct OpenOrder {
    ssu_id: i64,
    instrument: String,
    side: SignalSide,
    entry_at: u64,
    position_id: String,
}

impl View for OpenOrder {
    type V = OpenFacts;

    closed spec fn view(&self) -> OpenFacts {
        OpenFacts {
            ssu_id: self.ssu_id,
            instrument: self.instrument@,
            side: self.side,
            entry_at: self.entry_at,
            position_id: self.position_id@,
        }
    }
}

spec fn orders_in(v: Seq<OpenOrder>) -> Set<OpenFacts> {
    Set::new(|o: OpenFacts| exists|i: int| 0 <= i < v.len() && #[trigger] v[i]@ == o)
}

/// The positions and the trades of a backtest.
pub struct BacktestPositionBook {
    execution: BacktestExecutionConfig,
    positions: TextMap<StrategyPosition>,
    trades: TextMap<BacktestTrade>,
    open: PairMap<TextSet>,
    orders: Vec<OpenOrder>,
    last_entries: PairMap<u64>,
    entries: TextMap<PairMap<u32>>,
}

impl View for BacktestPositionBook {
    type V = BookFacts;

    closed spec fn view(&self) -> BookFacts {
        BookFacts {
            positions: self.positions@,
            trades: self.trades@,
            open: open_in(self.open@),
            orders: orders_in(self.orders@),
            last_entries: lasts_in(self.last_entries@),
            entries: entries_in(self.entries@),
        }
    }
}

/// The positions with ids, in their order.
pub open spec fn positions_at(ids: Seq<Seq<char>>, positions: Map<Seq<char>, StrategyPosition>) -> Seq<
    StrategyPosition,
>
    decreases ids.len(),
{
    if ids.len() == 0 {
        Seq::empty()
    } else {
        let before = positions_at(ids.drop_last(), positions);
        if positions.contains_key(ids.last()) {
            before.push(positions[ids.last()])
        } else {
            before
        }
    }
}

/// The trades with ids, in their order.
pub open spec fn trades_at(ids: Seq<Seq<char>>, trades: Map<Seq<char>, BacktestTrade>) -> Seq<
    BacktestTrade,
> {
    Seq::new(ids.len(), |i: int| trades[ids[i]])
}

fn is_behind(a: &OpenOrder, b: &OpenOrder) -> (r: bool)
    ensures
        r == is_later(a@, b@),
{
    a.entry_at > b.entry_at || (a.entry_at == b.entry_at && text_before(
        b.position_id.as_str(),
        a.position_id.as_str(),
    ))
}

proof fn lateness_is_transitive(a: OpenFacts, b: OpenFacts, c: OpenFacts)
    requires
        !is_later(a, b),
        !is_later(b, c),
    ensures
        !is_later(a, c),
{
    text_order_is_total(a.position_id, b.position_id);
    text_order_is_total(b.position_id, c.position_id);
    text_order_is_total(a.position_id, c.position_id);
    if text_lt(a.position_id, b.position_id) && text_lt(b.position_id, c.position_id) {
        text_order_is_transitive(a.position_id, b.position_id, c.position_id);
    }
}

proof fn lateness_is_one_way(a: OpenFacts, b: OpenFacts)
    requires
        is_later(a, b),
    ensures
        !is_later(b, a),
{
    text_order_is_total(a.position_id, b.position_id);
}

fn find_latest(orders: &Vec<OpenOrder>, ssu_id: i64, instrument: &str, side: SignalSide) -> (r:
    Option<String>)
    ensures
        crate::binary64::text_facts(r) == latest_of(
            orders_in(orders@),
            ssu_id,
            instrument@,
            side,
        ),
{
    let ghost all = orders_in(orders@);
    let mut best: Option<usize> = None;
    let mut i: usize = 0;
    while i < orders.len()
        invariant
            i <= orders@.len(),
            match best {
                None => forall|k: int|
                    0 <= k < i ==> !is_held_as(
                        #[trigger] orders@[k]@,
                        ssu_id,
                        instrument@,
                        side,
                    ),
                Some(b) => b < i && is_held_as(orders@[b as int]@, ssu_id, instrument@, side)
                    && forall|k: int|
                    0 <= k < i && is_held_as(#[trigger] orders@[k]@, ssu_id, instrument@, side)
                        ==> !is_later(orders@[k]@, orders@[b as int]@),
            },
        decreases orders@.len() - i,
    {
        let one = &orders[i];
        if one.ssu_id == ssu_id && same(one.instrument.as_str(), instrument) && one.side == side {
            match best {
                None => {
                    best = Some(i);
                    proof {
                        text_order_is_total(one.position_id@, one.position_id@);
                    }
                },
                Some(b) => {
                    if is_behind(one, &orders[b]) {
                        proof {
                            lateness_is_one_way(one@, orders@[b as int]@);
                            text_order_is_total(one.position_id@, one.position_id@);
                            assert forall|k: int|
                                0 <= k < i + 1 && is_held_as(
                                    #[trigger] orders@[k]@,
                                    ssu_id,
                                    instrument@,
                                    side,
                                ) implies !is_later(orders@[k]@, one@) by {
                                if k < i {
                                    lateness_is_transitive(orders@[k]@, orders@[b as int]@, one@);
                                }
                            }
                        }
                        best = Some(i);
                    }
                },
            }
        }
        i += 1;
    }
    match best {
        None => {
            assert forall|o: OpenFacts| !(#[trigger] is_latest(o, all, ssu_id, instrument@, side)) by {
                if is_latest(o, all, ssu_id, instrument@, side) {
                    let k = choose|k: int| 0 <= k < orders@.len() && #[trigger] orders@[k]@ == o;
                    assert(is_held_as(orders@[k]@, ssu_id, instrument@, side));
                }
            }
            None
        },
        Some(b) => {
            proof {
                let found = orders@[b as int]@;
                assert(all.contains(found));
                assert forall|p: OpenFacts|
                    #[trigger] all.contains(p) && is_held_as(p, ssu_id, instrument@, side) implies !is_later(
                    p,
                    found,
                ) by {
                    let k = choose|k: int| 0 <= k < orders@.len() && #[trigger] orders@[k]@ == p;
                    assert(is_held_as(orders@[k]@, ssu_id, instrument@, side));
                }
                assert(is_latest(found, all, ssu_id, instrument@, side));
                let chosen = choose|o: OpenFacts| #[trigger]
                    is_latest(o, all, ssu_id, instrument@, side);
                latest_is_one(found, chosen, all, ssu_id, instrument@, side);
            }
            Some(orders[b].position_id.clone())
        },
    }
}

impl BacktestPositionBook {
    /// The costs that are reckoned with.
    pub closed spec fn costs(&self) -> BacktestExecutionConfig {
        self.execution
    }

    /// Whether every position has its trade, is kept under its id, and is found only where it
    /// is kept.
    pub closed spec fn is_sound(&self) -> bool {
        &&& forall|id: Seq<char>| #[trigger]
            self.positions@.contains_key(id) ==> self.positions@[id].position_id@ == id
                && self.trades@.contains_key(id)
        &&& forall|i: int|
            0 <= i < self.orders@.len() ==> self.positions@.contains_key(
                (#[trigger] self.orders@[i]).position_id@,
            )
    }

    /// A book without positions.
    pub fn new(execution: BacktestExecutionConfig) -> (r: Result<BacktestPositionBook, StrategyError>)
        ensures
            match r {
                Ok(book) => {
                    &&& execution.is_valid()
                    &&& book.is_sound()
                    &&& book.costs() == execution
                    &&& in_step(book@)
                    &&& book@ == (BookFacts {
                        positions: Map::empty(),
                        trades: Map::empty(),
                        open: Set::empty(),
                        orders: Set::empty(),
                        last_entries: Map::empty(),
                        entries: Map::empty(),
                    })
                },
                Err(e) => !execution.is_valid() && e@ == StrategyFault::Config(
                    "backtest execution costs must be finite and non-negative"@,
                ),
            },
    {
        match execution.validate() {
            Err(e) => return Err(e),
            Ok(_) => {},
        }
        let book = BacktestPositionBook {
            execution,
            positions: TextMap::new(),
            trades: TextMap::new(),
            open: PairMap::new(),
            orders: Vec::new(),
            last_entries: PairMap::new(),
            entries: TextMap::new(),
        };
        assert(book@.open =~= Set::empty());
        assert(book@.orders =~= Set::empty());
        assert(book@.last_entries =~= Map::empty());
        assert(book@.entries =~= Map::empty());
        Ok(book)
    }

    /// The costs that are reckoned with.
    pub fn execution(&self) -> (r: BacktestExecutionConfig)
        ensures
            r == self.costs(),
    {
        self.execution
    }

    /// The trades, by their ids.
    pub fn trades(&self) -> (r: Vec<&BacktestTrade>)
        ensures
            r@.len() == self@.trades.dom().len(),
            r@.len() == ascending_of(self@.trades.dom()).len(),
            forall|i: int|
                0 <= i < r@.len() ==> *(#[trigger] r@[i]) == trades_at(
                    ascending_of(self@.trades.dom()),
                    self@.trades,
                )[i],
    {
        let ids = sorted_keys(&self.trades);
        let ghost all = views(ids@);
        let mut out: Vec<&BacktestTrade> = Vec::new();
        let mut i: usize = 0;
        while i < ids.len()
            invariant
                i <= ids@.len(),
                all == views(ids@),
                all == ascending_of(self@.trades.dom()),
                all.to_set() == self.trades@.dom(),
                self@.trades == self.trades@,
                out@.len() == i,
                forall|k: int| 0 <= k < i ==> *(#[trigger] out@[k]) == self@.trades[all[k]],
            decreases ids@.len() - i,
        {
            assert(all.to_set().contains(all[i as int]));
            if let Some(trade) = self.trades.get(ids[i].as_str()) {
                out.push(trade);
            }
            i += 1;
        }
        proof {
            all.unique_seq_to_set();
        }
        out
    }

    /// The open positions of a strategy, by their ids.
    pub fn list_open_by_ssu(&self, ssu_id: i64) -> (r: Vec<StrategyPosition>)
        ensures
            r@ == positions_at(ascending_of(open_ids(self@.open, ssu_id)), self@.positions),
    {
        let mut out: Vec<StrategyPosition> = Vec::new();
        match self.open.get((ssu_code(ssu_id), 0)) {
            None => {
                proof {
                    assert(open_ids(self@.open, ssu_id) =~= Set::empty());
                    let none = Seq::<Seq<char>>::empty();
                    ascending_of_is(none);
                    assert(none.to_set() =~= Set::empty());
                }
                out
            },
            Some(set) => {
                assert(open_ids(self@.open, ssu_id) =~= set@);
                let ids = ascending_items(set);
                let ghost all = views(ids@);
                let mut i: usize = 0;
                assert(all.take(0) =~= Seq::empty());
                while i < ids.len()
                    invariant
                        i <= ids@.len(),
                        all == views(ids@),
                        self@.positions == self.positions@,
                        out@ == positions_at(all.take(i as int), self@.positions),
                    decreases ids@.len() - i,
                {
                    assert(all.take(i + 1).drop_last() =~= all.take(i as int));
                    assert(all.take(i + 1).last() == ids@[i as int]@);
                    if let Some(position) = self.positions.get(ids[i].as_str()) {
                        out.push(position.clone());
                    }
                    i += 1;
                }
                assert(all.take(i as int) =~= all);
                out
            },
        }
    }

    /// When a strategy entered last.
    pub fn last_entry_time_by_ssu(&self, ssu_id: i64) -> (r: Option<u64>)
        ensures
            r == if self@.last_entries.contains_key(ssu_id) {
                Some(self@.last_entries[ssu_id])
            } else {
                None
            },
    {
        match self.last_entries.get((ssu_code(ssu_id), 0)) {
            Some(at) => Some(*at),
            None => None,
        }
    }

    /// How often a strategy entered on a day.
    pub fn entries_today_by_ssu(&self, ssu_id: i64, ist_day: &str) -> (r: u32)
        ensures
            r == entries_on(self@, ssu_id, ist_day@),
    {
        match self.entries.get(ist_day) {
            None => 0,
            Some(map) => match map.get((ssu_code(ssu_id), 0)) {
                Some(n) => *n,
                None => 0,
            },
        }
    }

    fn open_count_by_ssu(&self, ssu_id: i64) -> (r: u64)
        ensures
            r == open_ids(self@.open, ssu_id).len() % 0x1_0000_0000,
    {
        match self.open.get((ssu_code(ssu_id), 0)) {
            None => {
                assert(open_ids(self@.open, ssu_id) =~= Set::empty());
                0
            },
            Some(set) => {
                assert(open_ids(self@.open, ssu_id) =~= set@);
                set.len() as u64 % 0x1_0000_0000
            },
        }
    }

    fn enforce_ssu_limits(&self, generated_at: u64, ssu: &SsuConfig) -> (r: Option<StrategyError>)
        requires
            self@.last_entries.contains_key(ssu.ssu_id) ==> self@.last_entries[ssu.ssu_id]
                + ssu.trade_gap_secs * 1_000 <= u64::MAX,
        ensures
            match r {
                None => limit_fault(self@, generated_at, *ssu) is None,
                Some(e) => limit_fault(self@, generated_at, *ssu) == Some(e@),
            },
    {
        let mut id = "SSU ".to_owned();
        id.append(signed_decimal(ssu.ssu_id).as_str());
        if ssu.trade_gap_secs > 0 {
            if let Some(last) = self.last_entry_time_by_ssu(ssu.ssu_id) {
                let blocked_until: u64 = last + ssu.trade_gap_secs * 1_000;
                if generated_at < blocked_until {
                    id.append(" trade_gap_secs blocked entry until ");
                    id.append(decimal(blocked_until).as_str());
                    return Some(StrategyError::Rule(id));
                }
            }
        }
        if ssu.max_overlap > 0 {
            if self.open_count_by_ssu(ssu.ssu_id) >= ssu.max_overlap as u64 {
                id.append(" max_overlap reached");
                return Some(StrategyError::Rule(id));
            }
        }
        if ssu.max_positions_per_day > 0 {
            match ist_day_key(generated_at) {
                Err(e) => return Some(e),
                Ok(day) => {
                    if self.entries_today_by_ssu(ssu.ssu_id, day.as_str())
                        >= ssu.max_positions_per_day {
                        id.append(" max_positions_per_day reached for ");
                        id.append(day.as_str());
                        return Some(StrategyError::Rule(id));
                    }
                },
            }
        }
        None
    }

    fn list_as_open(&mut self, ssu_id: i64, id: &str)
        ensures
            final(self)@ == (BookFacts { open: old(self)@.open.insert((ssu_id, id@)), ..old(self)@ }),
            final(self).positions == old(self).positions,
            final(self).trades == old(self).trades,
            final(self).orders == old(self).orders,
            final(self).costs() == old(self).costs(),
    {
        let ghost before = self.open@;
        let code: u64 = ssu_code(ssu_id);
        let mut set = match self.open.remove((code, 0)) {
            Some(set) => set,
            None => TextSet::new(),
        };
        let _new = set.insert(id.to_owned());
        self.open.insert((code, 0), set);
        assert(open_in(self.open@) =~= open_in(before).insert((ssu_id, id@)));
    }

    fn unlist_as_open(&mut self, ssu_id: i64, id: &str)
        ensures
            final(self)@ == (BookFacts { open: old(self)@.open.remove((ssu_id, id@)), ..old(self)@ }),
            final(self).positions == old(self).positions,
            final(self).trades == old(self).trades,
            final(self).orders == old(self).orders,
            final(self).costs() == old(self).costs(),
    {
        let ghost before = self.open@;
        let code: u64 = ssu_code(ssu_id);
        match self.open.remove((code, 0)) {
            Some(set) => {
                let mut set = set;
                let ghost all = set@;
                let _was = set.remove(id);
                if !set.is_empty() {
                    self.open.insert((code, 0), set);
                } else {
                    assert forall|k: Seq<char>| all.contains(k) implies k == id@ by {
                        assert(!set@.contains(k));
                    }
                }
            },
            None => {},
        }
        assert(open_in(self.open@) =~= open_in(before).remove((ssu_id, id@)));
    }

    fn note_entry(&mut self, ssu_id: i64, entry_at: u64)
        ensures
            final(self)@ == (BookFacts {
                last_entries: old(self)@.last_entries.insert(
                    ssu_id,
                    if old(self)@.last_entries.contains_key(ssu_id)
                        && old(self)@.last_entries[ssu_id] > entry_at {
                        old(self)@.last_entries[ssu_id]
                    } else {
                        entry_at
                    },
                ),
                ..old(self)@
            }),
            final(self).positions == old(self).positions,
            final(self).trades == old(self).trades,
            final(self).orders == old(self).orders,
            final(self).costs() == old(self).costs(),
    {
        let ghost before = self.last_entries@;
        let last: u64 = match self.last_entry_time_by_ssu(ssu_id) {
            Some(at) => if at > entry_at {
                at
            } else {
                entry_at
            },
            None => entry_at,
        };
        self.last_entries.insert((ssu_code(ssu_id), 0), last);
        assert(lasts_in(self.last_entries@) =~= lasts_in(before).insert(ssu_id, last));
    }

    fn count_entry(&mut self, ssu_id: i64, day: String)
        requires
            entries_on(old(self)@, ssu_id, day@) < u32::MAX,
        ensures
            final(self)@ == (BookFacts {
                entries: old(self)@.entries.insert(
                    (ssu_id, day@),
                    (entries_on(old(self)@, ssu_id, day@) + 1) as u32,
                ),
                ..old(self)@
            }),
            final(self).positions == old(self).positions,
            final(self).trades == old(self).trades,
            final(self).orders == old(self).orders,
            final(self).costs() == old(self).costs(),
    {
        let ghost before = self.entries@;
        let ghost key = day@;
        let n: u32 = self.entries_today_by_ssu(ssu_id, day.as_str());
        let mut map: PairMap<u32> = match self.entries.remove(day.as_str()) {
            Some(map) => map,
            None => PairMap::new(),
        };
        map.insert((ssu_code(ssu_id), 0), n + 1);
        self.entries.insert(day, map);
        assert(entries_in(self.entries@) =~= entries_in(before).insert(
            (ssu_id, key),
            (n + 1) as u32,
        ));
    }

    fn add_order(&mut self, order: OpenOrder)
        ensures
            final(self)@ == (BookFacts { orders: old(self)@.orders.insert(order@), ..old(self)@ }),
            final(self).positions == old(self).positions,
            final(self).trades == old(self).trades,
            final(self).orders@ == old(self).orders@.push(order),
            final(self).costs() == old(self).costs(),
    {
        let ghost before = self.orders@;
        self.orders.push(order);
        proof {
            assert forall|o: OpenFacts| #[trigger]
                orders_in(self.orders@).contains(o) <==> orders_in(before).insert(order@).contains(
                    o,
                ) by {
                if orders_in(before).contains(o) {
                    let i = choose|i: int| 0 <= i < before.len() && #[trigger] before[i]@ == o;
                    assert(self.orders@[i]@ == o);
                }
                if o == order@ {
                    assert(self.orders@[before.len() as int]@ == o);
                }
                if orders_in(self.orders@).contains(o) {
                    let i = choose|i: int|
                        0 <= i < self.orders@.len() && #[trigger] self.orders@[i]@ == o;
                    if i < before.len() {
                        assert(before[i]@ == o);
                    }
                }
            }
            assert(orders_in(self.orders@) =~= orders_in(before).insert(order@));
        }
    }

    fn drop_order(&mut self, order: &OpenOrder)
        ensures
            final(self)@ == (BookFacts { orders: old(self)@.orders.remove(order@), ..old(self)@ }),
            final(self).positions == old(self).positions,
            final(self).trades == old(self).trades,
            forall|i: int|
                0 <= i < final(self).orders@.len() ==> old(self).orders@.contains(
                    #[trigger] final(self).orders@[i],
                ),
            final(self).costs() == old(self).costs(),
    {
        let ghost all = self.orders@;
        let mut old_orders: Vec<OpenOrder> = Vec::new();
        std::mem::swap(&mut old_orders, &mut self.orders);
        let mut kept: Vec<OpenOrder> = Vec::new();
        let ghost mut done: Seq<OpenOrder> = Seq::empty();
        while old_orders.len() > 0
            invariant
                done.len() + old_orders@.len() == all.len(),
                all == old_orders@ + done,
                self.positions == old(self).positions,
                self.trades == old(self).trades,
                self.open == old(self).open,
                self.last_entries == old(self).last_entries,
                self.entries == old(self).entries,
                self.execution == old(self).execution,
                forall|i: int|
                    0 <= i < kept@.len() ==> done.contains(#[trigger] kept@[i]) && kept@[i]@
                        != order@,
                forall|i: int|
                    0 <= i < done.len() && (#[trigger] done[i])@ != order@ ==> kept@.contains(
                        done[i],
                    ),
            decreases old_orders@.len(),
        {
            let ghost was = old_orders@;
            let ghost done_before = done;
            let ghost kept_before = kept@;
            if let Some(one) = old_orders.pop() {
                let alike = one.ssu_id == order.ssu_id && one.side == order.side && one.entry_at
                    == order.entry_at && same(one.instrument.as_str(), order.instrument.as_str())
                    && same(one.position_id.as_str(), order.position_id.as_str());
                assert(alike == (one@ == order@));
                proof {
                    done = seq![one] + done;
                    assert(was =~= old_orders@.push(one));
                    assert(all =~= old_orders@ + done);
                    assert forall|i: int| 0 <= i < kept_before.len() implies done.contains(
                        #[trigger] kept_before[i],
                    ) by {
                        let k = choose|k: int|
                            0 <= k < done_before.len() && done_before[k] == kept_before[i];
                        assert(done[k + 1] == kept_before[i]);
                    }
                }
                if !alike {
                    kept.push(one);
                }
                proof {
                    assert(done[0] == one);
                    assert forall|i: int| 0 <= i < kept@.len() implies done.contains(
                        #[trigger] kept@[i],
                    ) && kept@[i]@ != order@ by {
                        if i < kept_before.len() {
                            assert(kept@[i] == kept_before[i]);
                        } else {
                            assert(done.contains(one));
                        }
                    }
                    assert forall|i: int|
                        0 <= i < done.len() && (#[trigger] done[i])@ != order@ implies kept@.contains(
                        done[i],
                    ) by {
                        if i > 0 {
                            assert(done[i] == done_before[i - 1]);
                            let k = choose|k: int|
                                0 <= k < kept_before.len() && kept_before[k] == done[i];
                            assert(kept@[k] == done[i]);
                        } else {
                            assert(kept@[kept_before.len() as int] == one);
                        }
                    }
                }
            }
        }
        assert(all =~= done);
        self.orders = kept;
        proof {
            assert forall|o: OpenFacts| #[trigger]
                orders_in(self.orders@).contains(o) <==> orders_in(all).remove(order@).contains(
                    o,
                ) by {
                if orders_in(all).contains(o) && o != order@ {
                    let i = choose|i: int| 0 <= i < all.len() && #[trigger] all[i]@ == o;
                    assert(kept@.contains(done[i]));
                    let k = choose|k: int| 0 <= k < kept@.len() && kept@[k] == done[i];
                    assert(self.orders@[k]@ == o);
                }
                if orders_in(self.orders@).contains(o) {
                    let k = choose|k: int|
                        0 <= k < self.orders@.len() && #[trigger] self.orders@[k]@ == o;
                    assert(done.contains(kept@[k]));
                    let i = choose|i: int| 0 <= i < done.len() && done[i] == kept@[k];
                    assert(all[i]@ == o);
                }
            }
            assert(orders_in(self.orders@) =~= orders_in(all).remove(order@));
        }
    }
}

/// Whether the numbers that an entry is reckoned with can be held.
pub open spec fn has_room(book: BookFacts, ssu: SsuConfig) -> bool {
    &&& book.last_entries.contains_key(ssu.ssu_id) ==> book.last_entries[ssu.ssu_id]
        + ssu.trade_gap_secs * 1_000 <= u64::MAX
    &&& forall|ssu_id: i64, day: Seq<char>| #[trigger] entries_on(book, ssu_id, day) < u32::MAX
}

impl BacktestPositionBook {
    /// Enters the position that a signal asks for. `amounts` is what the entry comes to. Where
    /// the day of the entry cannot be told, the position is entered, and that is said.
    pub fn open_position(
        &mut self,
        signal: &StrategySignal,
        ssu: &SsuConfig,
        amounts: EntryAmounts,
    ) -> (r: Result<StrategyPosition, StrategyError>)
        requires
            old(self).is_sound(),
            has_room(old(self)@, *ssu),
        ensures
            final(self).is_sound(),
            final(self).costs() == old(self).costs(),
            match request_of(*signal, OrderSort::Entry) {
                Err(fault) => final(self)@ == old(self)@ && (r matches Err(e) && e@ == fault),
                Ok(request) => match limit_fault(old(self)@, signal.generated_at, *ssu) {
                    Some(fault) => final(self)@ == old(self)@ && (r matches Err(e) && e@ == fault),
                    None => entered(old(self)@, final(self)@, *signal, request, amounts)
                        && match ist_day_of(signal.generated_at) {
                        Ok(_) => r matches Ok(position) && position
                            == final(self)@.positions[request.leg_id],
                        Err(fault) => r matches Err(e) && e@ == fault,
                    },
                },
            },
    {
        let request = match read_request(signal, OrderSort::Entry) {
            Ok(request) => request,
            Err(e) => return Err(e),
        };
        if let Some(e) = self.enforce_ssu_limits(signal.generated_at, ssu) {
            return Err(e);
        }
        let zero = Real { bits: 0 };
        let position = StrategyPosition {
            position_id: request.leg_id.clone(),
            ssu_id: signal.ssu_id,
            trigger_instrument: signal.trigger_instrument.clone(),
            trade_instrument: request.instrument.clone(),
            side: request.side,
            entry_price: amounts.entry_price,
            entry_at: signal.generated_at,
            exit_price: None,
            exit_at: None,
            exit_reason: None,
            pnl: None,
            status: PositionStatus::Open,
        };
        let trade = BacktestTrade {
            position_id: request.leg_id.clone(),
            entry_signal_id: signal.signal_id.clone(),
            exit_signal_id: None,
            entry_metadata: signal.metadata.clone(),
            ssu_id: signal.ssu_id,
            strategy_key: signal.strategy_key.clone(),
            instrument: request.instrument.clone(),
            side: request.side,
            status: PositionStatus::Open,
            qty: request.qty,
            remaining_qty: request.qty,
            partial_limit: amounts.partial_limit,
            raw_entry_price: request.raw_price,
            entry_price: amounts.entry_price,
            entry_at: signal.generated_at,
            entry_charges: amounts.entry_charges,
            entry_slippage: amounts.entry_slippage,
            raw_exit_price: None,
            exit_price: None,
            exit_at: None,
            exit_reason: None,
            exit_charges: zero,
            exit_slippage: zero,
            funding_charges: zero,
            gross_pnl: None,
            charges: amounts.entry_charges,
            net_pnl: None,
            partial_exits: Vec::new(),
        };
        let ghost start = self@;
        let ghost facts = request@;
        self.positions.insert(request.leg_id.clone(), position.clone());
        self.trades.insert(request.leg_id.clone(), trade);
        self.list_as_open(signal.ssu_id, request.leg_id.as_str());
        let order = OpenOrder {
            ssu_id: signal.ssu_id,
            instrument: request.instrument.clone(),
            side: request.side,
            entry_at: signal.generated_at,
            position_id: request.leg_id.clone(),
        };
        self.add_order(order);
        self.note_entry(signal.ssu_id, signal.generated_at);
        assert(self@.entries == start.entries);
        match ist_day_key(signal.generated_at) {
            Err(e) => Err(e),
            Ok(day) => {
                assert(entries_on(self@, signal.ssu_id, day@) == entries_on(
                    old(self)@,
                    signal.ssu_id,
                    day@,
                ));
                self.count_entry(signal.ssu_id, day);
                Ok(position)
            },
        }
    }

    fn find_position(&self, ssu_id: i64, request: &OrderRequest) -> (r: Option<String>)
        requires
            self.is_sound(),
        ensures
            crate::binary64::text_facts(r) == position_for(self@, ssu_id, request@),
            r matches Some(id) ==> self.positions@.contains_key(id@),
    {
        if let Some(p) = self.positions.get(request.leg_id.as_str()) {
            if p.ssu_id == ssu_id && same(p.trade_instrument.as_str(), request.instrument.as_str())
                && p.side == request.side && p.status == PositionStatus::Open {
                return Some(p.position_id.clone());
            }
        }
        let latest = find_latest(&self.orders, ssu_id, request.instrument.as_str(), request.side);
        proof {
            if latest is Some {
                let chosen = choose|o: OpenFacts| #[trigger]
                    is_latest(o, self@.orders, ssu_id, request.instrument@, request.side);
                assert(is_latest(chosen, self@.orders, ssu_id, request.instrument@, request.side));
                let k = choose|k: int|
                    0 <= k < self.orders@.len() && #[trigger] self.orders@[k]@ == chosen;
                assert(self.positions@.contains_key(self.orders@[k].position_id@));
            }
        }
        latest
    }

    fn find_exit(&self, signal: &StrategySignal, sort: OrderSort) -> (r: Result<
        (String, OrderRequest),
        StrategyError,
    >)
        requires
            self.is_sound(),
            sort != OrderSort::Entry,
        ensures
            match r {
                Ok((id, request)) => exit_of(self@, *signal, sort) == Ok::<
                    (Seq<char>, RequestFacts),
                    StrategyFault,
                >((id@, request@)) && self.positions@.contains_key(id@)
                    && self.trades@.contains_key(id@),
                Err(e) => exit_of(self@, *signal, sort) == Err::<
                    (Seq<char>, RequestFacts),
                    StrategyFault,
                >(e@),
            },
    {
        let request = match read_request(signal, sort) {
            Ok(request) => request,
            Err(e) => return Err(e),
        };
        let id = match self.find_position(signal.ssu_id, &request) {
            Some(id) => id,
            None => {
                let mut message = "no open virtual position found for SSU ".to_owned();
                message.append(signed_decimal(signal.ssu_id).as_str());
                message.append(" instrument ");
                message.append(request.instrument.as_str());
                return Err(StrategyError::Rule(message));
            },
        };
        let trade = match self.trades.get(id.as_str()) {
            Some(trade) => trade,
            None => return Err(
                StrategyError::NotFound(
                    "missing backtest trade for ".to_owned().concat(id.as_str()),
                ),
            ),
        };
        let none_left = trade.remaining_qty.at_most(Real { bits: MIN_REMAINING_BITS });
        let is_partial = match sort {
            OrderSort::PartialExit => true,
            _ => false,
        };
        let mut message = "position ".to_owned();
        message.append(id.as_str());
        if is_partial {
            if trade.status != PositionStatus::Open || none_left {
                message.append(" has no remaining quantity for partial exit");
                return Err(StrategyError::Rule(message));
            }
            if trade.partial_limit.at_most(request.qty) {
                return Err(
                    signal_error(
                        signal,
                        " partial exit quantity_ratio would close the full position",
                    ),
                );
            }
        } else if none_left {
            message.append(" has no remaining quantity to close");
            return Err(StrategyError::Rule(message));
        }
        Ok((id, request))
    }

    /// What an exit is about, or what is wrong with it.
    pub fn plan_exit(&self, signal: &StrategySignal, partial: bool) -> (r: Result<
        ExitPlan,
        StrategyError,
    >)
        requires
            self.is_sound(),
        ensures
            ({
                let sort = if partial {
                    OrderSort::PartialExit
                } else {
                    OrderSort::FullExit
                };
                match exit_of(self@, *signal, sort) {
                    Err(fault) => r matches Err(e) && e@ == fault,
                    Ok((id, request)) => r matches Ok(plan) && is_plan_of(
                        plan,
                        *signal,
                        sort,
                        id,
                        request,
                        self@.trades[id],
                    ),
                }
            }),
    {
        let sort = if partial {
            OrderSort::PartialExit
        } else {
            OrderSort::FullExit
        };
        match self.find_exit(signal, sort) {
            Err(e) => Err(e),
            Ok((position_id, request)) => match self.trades.get(position_id.as_str()) {
                None => Err(
                    StrategyError::NotFound(
                        "missing backtest trade for ".to_owned().concat(position_id.as_str()),
                    ),
                ),
                Some(trade) => {
                    let mut partial_gross: Vec<Real> = Vec::new();
                    let mut i: usize = 0;
                    while i < trade.partial_exits.len()
                        invariant
                            i <= trade.partial_exits@.len(),
                            partial_gross@ == gross_of(trade.partial_exits@).take(i as int),
                        decreases trade.partial_exits@.len() - i,
                    {
                        partial_gross.push(trade.partial_exits[i].gross_pnl);
                        i += 1;
                        assert(gross_of(trade.partial_exits@).take(i as int) =~= gross_of(
                            trade.partial_exits@,
                        ).take(i - 1).push(gross_of(trade.partial_exits@)[i - 1]));
                    }
                    assert(gross_of(trade.partial_exits@).take(i as int) =~= gross_of(
                        trade.partial_exits@,
                    ));
                    Ok(
                        ExitPlan {
                            position_id,
                            side: request.side,
                            action: request.action,
                            raw_exit_price: request.raw_price,
                            qty: if partial {
                                request.qty
                            } else {
                                trade.remaining_qty
                            },
                            entry_price: trade.entry_price,
                            entry_at: trade.entry_at,
                            exit_at: signal.generated_at,
                            remaining_qty: trade.remaining_qty,
                            exit_charges: trade.exit_charges,
                            exit_slippage: trade.exit_slippage,
                            funding_charges: trade.funding_charges,
                            charges: trade.charges,
                            partial_gross,
                        },
                    )
                },
            },
        }
    }

    /// Sells or buys back the part of a position that a signal asks for. `amounts` is what
    /// that comes to. The position stays open.
    pub fn partial_close_position(&mut self, signal: &StrategySignal, amounts: PartialAmounts) -> (r:
        Result<StrategyPosition, StrategyError>)
        requires
            old(self).is_sound(),
        ensures
            final(self).is_sound(),
            final(self).costs() == old(self).costs(),
            match exit_of(old(self)@, *signal, OrderSort::PartialExit) {
                Err(fault) => final(self)@ == old(self)@ && (r matches Err(e) && e@ == fault),
                Ok((id, request)) => {
                    &&& final(self)@ == (BookFacts {
                        trades: old(self)@.trades.insert(id, final(self)@.trades[id]),
                        ..old(self)@
                    })
                    &&& is_partly_exited(
                        final(self)@.trades[id],
                        old(self)@.trades[id],
                        *signal,
                        request,
                        amounts,
                    )
                    &&& r matches Ok(position) && position == old(self)@.positions[id]
                },
            },
    {
        let (id, request) = match self.find_exit(signal, OrderSort::PartialExit) {
            Ok(pair) => pair,
            Err(e) => return Err(e),
        };
        let position = match self.positions.get(id.as_str()) {
            Some(position) => position.clone(),
            None => return Err(
                StrategyError::NotFound(
                    "missing backtest trade for ".to_owned().concat(id.as_str()),
                ),
            ),
        };
        let ghost before = self.trades@;
        if let Some(trade) = self.trades.remove(id.as_str()) {
            let mut trade = trade;
            let ghost was = trade;
            trade.remaining_qty = amounts.remaining_qty;
            trade.partial_limit = amounts.partial_limit;
            trade.exit_charges = amounts.trade_exit_charges;
            trade.exit_slippage = amounts.trade_exit_slippage;
            trade.funding_charges = amounts.trade_funding_charges;
            trade.charges = amounts.trade_charges;
            trade.partial_exits.push(
                BacktestPartialExit {
                    signal_id: signal.signal_id.clone(),
                    reason: signal.reason.clone(),
                    qty: request.qty,
                    raw_exit_price: request.raw_price,
                    exit_price: amounts.exit_price,
                    exit_at: signal.generated_at,
                    exit_charges: amounts.exit_charges,
                    exit_slippage: amounts.exit_slippage,
                    funding_charges: amounts.funding_charges,
                    gross_pnl: amounts.gross_pnl,
                    net_pnl: amounts.net_pnl,
                },
            );
            assert(trade.partial_exits@.drop_last() =~= was.partial_exits@);
            let ghost now = trade;
            self.trades.insert(id.clone(), trade);
            assert(self.trades@ =~= before.insert(id@, now));
        }
        Ok(position)
    }

    /// Closes the position that a signal asks for. `amounts` is what that comes to.
    pub fn close_position(&mut self, signal: &StrategySignal, amounts: ExitAmounts) -> (r: Result<
        StrategyPosition,
        StrategyError,
    >)
        requires
            old(self).is_sound(),
        ensures
            final(self).is_sound(),
            final(self).costs() == old(self).costs(),
            match exit_of(old(self)@, *signal, OrderSort::FullExit) {
                Err(fault) => final(self)@ == old(self)@ && (r matches Err(e) && e@ == fault),
                Ok((id, request)) => {
                    &&& old(self)@.positions.contains_key(id)
                    &&& exited(old(self)@, final(self)@, *signal, id, request, amounts)
                    &&& r matches Ok(position) && position == final(self)@.positions[id]
                },
            },
    {
        let (id, request) = match self.find_exit(signal, OrderSort::FullExit) {
            Ok(pair) => pair,
            Err(e) => return Err(e),
        };
        let open_position = match self.positions.get(id.as_str()) {
            Some(position) => position.clone(),
            None => return Err(
                StrategyError::NotFound(
                    "missing backtest trade for ".to_owned().concat(id.as_str()),
                ),
            ),
        };
        let ghost start = self@;
        let ghost before = self.trades@;
        if let Some(trade) = self.trades.remove(id.as_str()) {
            let mut trade = trade;
            trade.exit_signal_id = Some(signal.signal_id.clone());
            trade.status = PositionStatus::Closed;
            trade.raw_exit_price = Some(request.raw_price);
            trade.exit_price = Some(amounts.exit_price);
            trade.exit_at = Some(signal.generated_at);
            trade.exit_reason = Some(signal.reason.clone());
            trade.exit_charges = amounts.trade_exit_charges;
            trade.exit_slippage = amounts.trade_exit_slippage;
            trade.funding_charges = amounts.trade_funding_charges;
            trade.gross_pnl = Some(amounts.gross_pnl);
            trade.charges = amounts.trade_charges;
            trade.net_pnl = Some(amounts.net_pnl);
            trade.remaining_qty = Real { bits: 0 };
            let ghost now = trade;
            self.trades.insert(id.clone(), trade);
            assert(self.trades@ =~= before.insert(id@, now));
        }
        self.unlist_as_open(open_position.ssu_id, id.as_str());
        let order = OpenOrder {
            ssu_id: open_position.ssu_id,
            instrument: open_position.trade_instrument.clone(),
            side: open_position.side,
            entry_at: open_position.entry_at,
            position_id: open_position.position_id.clone(),
        };
        self.drop_order(&order);
        let ghost orders = self.orders@;
        let mut position = open_position;
        position.exit_price = Some(amounts.exit_price);
        position.exit_at = Some(signal.generated_at);
        position.exit_reason = Some(signal.reason.clone());
        position.pnl = Some(amounts.net_pnl);
        position.status = PositionStatus::Closed;
        self.positions.insert(id, position.clone());
        proof {
            assert forall|i: int| 0 <= i < self.orders@.len() implies self.positions@.contains_key(
                (#[trigger] self.orders@[i]).position_id@,
            ) by {
                assert(orders[i] == self.orders@[i]);
            }
        }
        Ok(position)
    }
}

/// What a strategy wants to remember of a position.
#[derive(Debug)]
pub struct ContextRecord {
    pub ssu_id: i64,
    pub trigger_instrument: String,
    pub metadata: Json,
    pub updated_at: u64,
}

/// What strategies want to remember of positions, by their ids.
pub struct InMemoryTradeContextStore {
    contexts: TextMap<ContextRecord>,
}

impl View for InMemoryTradeContextStore {
    type V = Map<Seq<char>, ContextRecord>;

    closed spec fn view(&self) -> Map<Seq<char>, ContextRecord> {
        self.contexts@
    }
}

/// The ids of a list whose records are of a strategy and an instrument.
pub open spec fn contexts_at(
    ids: Seq<Seq<char>>,
    contexts: Map<Seq<char>, ContextRecord>,
    ssu_id: i64,
    trigger_instrument: Seq<char>,
) -> Seq<(Seq<char>, JsonFacts)>
    decreases ids.len(),
{
    if ids.len() == 0 {
        Seq::empty()
    } else {
        let before = contexts_at(ids.drop_last(), contexts, ssu_id, trigger_instrument);
        let record = contexts[ids.last()];
        if record.ssu_id == ssu_id && record.trigger_instrument@ == trigger_instrument {
            before.push((ids.last(), record.metadata@))
        } else {
            before
        }
    }
}

pub open spec fn context_views(v: Seq<(String, Json)>) -> Seq<(Seq<char>, JsonFacts)> {
    Seq::new(v.len(), |i: int| (v[i].0@, v[i].1@))
}

impl InMemoryTradeContextStore {
    pub fn new() -> (r: InMemoryTradeContextStore)
        ensures
            r@ == Map::<Seq<char>, ContextRecord>::empty(),
    {
        InMemoryTradeContextStore { contexts: TextMap::new() }
    }

    pub fn save_context(
        &mut self,
        position_id: &str,
        ssu_id: i64,
        trigger_instrument: &str,
        metadata: &Json,
        updated_at: u64,
    )
        ensures
            final(self)@ == old(self)@.insert(position_id@, final(self)@[position_id@]),
            ({
                let record = final(self)@[position_id@];
                &&& record.ssu_id == ssu_id
                &&& record.trigger_instrument@ == trigger_instrument@
                &&& record.metadata@ == metadata@
                &&& record.updated_at == updated_at
            }),
    {
        self.contexts.insert(
            position_id.to_owned(),
            ContextRecord {
                ssu_id,
                trigger_instrument: trigger_instrument.to_owned(),
                metadata: metadata.clone(),
                updated_at,
            },
        );
    }

    pub fn load_context(&self, position_id: &str) -> (r: Option<Json>)
        ensures
            match r {
                Some(metadata) => self@.contains_key(position_id@) && metadata@
                    == self@[position_id@].metadata@,
                None => !self@.contains_key(position_id@),
            },
    {
        match self.contexts.get(position_id) {
            Some(record) => Some(record.metadata.clone()),
            None => None,
        }
    }

    /// What is remembered of the positions of a strategy in an instrument, by their ids.
    pub fn load_open_contexts(&self, ssu_id: i64, trigger_instrument: &str) -> (r: Vec<(String, Json)>)
        ensures
            context_views(r@) == contexts_at(
                ascending_of(self@.dom()),
                self@,
                ssu_id,
                trigger_instrument@,
            ),
    {
        let ids = sorted_keys(&self.contexts);
        let ghost all = views(ids@);
        let mut out: Vec<(String, Json)> = Vec::new();
        let mut i: usize = 0;
        assert(all.take(0) =~= Seq::empty());
        assert(context_views(out@) =~= Seq::empty());
        while i < ids.len()
            invariant
                i <= ids@.len(),
                all == views(ids@),
                all.to_set() == self.contexts@.dom(),
                self@ == self.contexts@,
                context_views(out@) == contexts_at(
                    all.take(i as int),
                    self@,
                    ssu_id,
                    trigger_instrument@,
                ),
            decreases ids@.len() - i,
        {
            let ghost before = context_views(out@);
            assert(all.take(i + 1).drop_last() =~= all.take(i as int));
            assert(all.take(i + 1).last() == ids@[i as int]@);
            assert(all.to_set().contains(all[i as int]));
            if let Some(record) = self.contexts.get(ids[i].as_str()) {
                if record.ssu_id == ssu_id && same(
                    record.trigger_instrument.as_str(),
                    trigger_instrument,
                ) {
                    let one = (ids[i].clone(), record.metadata.clone());
                    out.push(one);
                    assert(context_views(out@) =~= before.push((one.0@, one.1@)));
                }
            }
            i += 1;
        }
        assert(all.take(i as int) =~= all);
        out
    }

    pub fn update_context(&mut self, position_id: &str, metadata: &Json, updated_at: u64) -> (r:
        Result<(), StrategyError>)
        ensures
            match r {
                Ok(_) => {
                    &&& old(self)@.contains_key(position_id@)
                    &&& final(self)@ == old(self)@.insert(
                        position_id@,
                        final(self)@[position_id@],
                    )
                    &&& final(self)@[position_id@] == (ContextRecord {
                        metadata: final(self)@[position_id@].metadata,
                        updated_at,
                        ..old(self)@[position_id@]
                    })
                    &&& final(self)@[position_id@].metadata@ == metadata@
                },
                Err(e) => {
                    &&& !old(self)@.contains_key(position_id@)
                    &&& final(self)@ == old(self)@
                    &&& e@ == StrategyFault::NotFound(
                        "missing strategy trade context for "@ + position_id@,
                    )
                },
            },
    {
        let ghost before = self.contexts@;
        match self.contexts.remove(position_id) {
            None => {
                assert(before.remove(position_id@) =~= before);
                Err(
                    StrategyError::NotFound(
                        "missing strategy trade context for ".to_owned().concat(position_id),
                    ),
                )
            },
            Some(record) => {
                let mut record = record;
                record.metadata = metadata.clone();
                record.updated_at = updated_at;
                let ghost now = record;
                self.contexts.insert(position_id.to_owned(), record);
                assert(self.contexts@ =~= before.insert(position_id@, now));
                Ok(())
            },
        }
    }

    pub fn delete_context(&mut self, position_id: &str)
        ensures
            final(self)@ == old(self)@.remove(position_id@),
    {
        let _record = self.contexts.remove(position_id);
    }
}

/// The name of a side in reports.
pub open spec fn side_name(side: SignalSide) -> Seq<char> {
    match side {
        SignalSide::Long => "LONG"@,
        SignalSide::Short => "SHORT"@,
    }
}

pub fn side_label(side: SignalSide) -> (r: &'static str)
    ensures
        r@ == side_name(side),
{
    match side {
        SignalSide::Long => "LONG",
        SignalSide::Short => "SHORT",
    }
}

/// The name of a status in reports.
pub open spec fn status_name(status: PositionStatus) -> Seq<char> {
    match status {
        PositionStatus::Open => "OPEN"@,
        PositionStatus::Closed => "CLOSED"@,
    }
}

pub fn status_label(status: PositionStatus) -> (r: &'static str)
    ensures
        r@ == status_name(status),
{
    match status {
        PositionStatus::Open => "OPEN",
        PositionStatus::Closed => "CLOSED",
    }
}

/// The name of a sort of signal.
pub open spec fn signal_type_name(signal_type: StrategySignalType) -> Seq<char> {
    match signal_type {
        StrategySignalType::EntryLong => "ENTRY_LONG"@,
        StrategySignalType::EntryShort => "ENTRY_SHORT"@,
        StrategySignalType::ExitLong => "EXIT_LONG"@,
        StrategySignalType::ExitShort => "EXIT_SHORT"@,
        StrategySignalType::ExitLongPartial => "EXIT_LONG_PARTIAL"@,
        StrategySignalType::ExitShortPartial => "EXIT_SHORT_PARTIAL"@,
        StrategySignalType::Shift => "SHIFT"@,
        StrategySignalType::Rollover => "ROLLOVER"@,
    }
}

pub fn signal_type_label(signal_type: StrategySignalType) -> (r: &'static str)
    ensures
        r@ == signal_type_name(signal_type),
{
    match signal_type {
        StrategySignalType::EntryLong => "ENTRY_LONG",
        StrategySignalType::EntryShort => "ENTRY_SHORT",
        StrategySignalType::ExitLong => "EXIT_LONG",
        StrategySignalType::ExitShort => "EXIT_SHORT",
        StrategySignalType::ExitLongPartial => "EXIT_LONG_PARTIAL",
        StrategySignalType::ExitShortPartial => "EXIT_SHORT_PARTIAL",
        StrategySignalType::Shift => "SHIFT",
        StrategySignalType::Rollover => "ROLLOVER",
    }
}

/// What some amounts are worth together.
pub open spec fn worth_together(amounts: Seq<Real>, worth: spec_fn(Real) -> int) -> int
    decreases amounts.len(),
{
    if amounts.len() == 0 {
        0
    } else {
        worth_together(amounts.drop_last(), worth) + worth(amounts.last())
    }
}

/// Whether the parts of an open trade make up its whole, whatever amounts are worth: it is
/// charged with its entry, its exits in part and its funding, and what is left of it is what
/// was not sold or bought back.
pub open spec fn parts_make_the_whole(t: BacktestTrade, worth: spec_fn(Real) -> int) -> bool {
    let exits = t.partial_exits@;
    let n = exits.len();
    &&& worth(t.exit_charges) == worth_together(Seq::new(n, |i: int| exits[i].exit_charges), worth)
    &&& worth(t.exit_slippage) == worth_together(
        Seq::new(n, |i: int| exits[i].exit_slippage),
        worth,
    )
    &&& worth(t.funding_charges) == worth_together(
        Seq::new(n, |i: int| exits[i].funding_charges),
        worth,
    )
    &&& worth(t.charges) == worth(t.entry_charges) + worth(t.exit_charges) + worth(
        t.funding_charges,
    )
    &&& worth(t.remaining_qty) == worth(t.qty) - worth_together(
        Seq::new(n, |i: int| exits[i].qty),
        worth,
    )
}

/// A trade that is entered is charged with its entry alone, and all of it is left.
pub proof fn entry_is_charged(
    before: BookFacts,
    after: BookFacts,
    signal: StrategySignal,
    request: RequestFacts,
    amounts: EntryAmounts,
    worth: spec_fn(Real) -> int,
)
    requires
        entered(before, after, signal, request, amounts),
        worth(Real { bits: 0 }) == 0,
    ensures
        ({
            let t = after.trades[request.leg_id];
            &&& worth(t.charges) == worth(amounts.entry_charges)
            &&& worth(t.entry_charges) == worth(amounts.entry_charges)
            &&& worth(t.exit_charges) == 0
            &&& worth(t.funding_charges) == 0
            &&& worth(t.charges) == worth(t.entry_charges) + worth(t.exit_charges) + worth(
                t.funding_charges,
            )
            &&& t.remaining_qty == t.qty
            &&& parts_make_the_whole(t, worth)
        }),
{
    let t = after.trades[request.leg_id];
    let exits = t.partial_exits@;
    assert(Seq::new(exits.len(), |i: int| exits[i].exit_charges) =~= Seq::empty());
    assert(Seq::new(exits.len(), |i: int| exits[i].exit_slippage) =~= Seq::empty());
    assert(Seq::new(exits.len(), |i: int| exits[i].funding_charges) =~= Seq::empty());
    assert(Seq::new(exits.len(), |i: int| exits[i].qty) =~= Seq::empty());
}

/// An exit in part charges the trade with its own charges and its own funding, and takes its own
/// quantity off what is left, where what is handed in was reckoned from the plan of the exit,
/// whatever amounts are worth. So none of the charges of a trade is left out of its total.
pub proof fn partial_exit_is_charged(
    plan: ExitPlan,
    before: BacktestTrade,
    after: BacktestTrade,
    signal: StrategySignal,
    id: Seq<char>,
    request: RequestFacts,
    amounts: PartialAmounts,
    worth: spec_fn(Real) -> int,
)
    requires
        is_plan_of(plan, signal, OrderSort::PartialExit, id, request, before),
        is_partly_exited(after, before, signal, request, amounts),
        worth(amounts.trade_charges) == worth(plan.charges) + worth(amounts.exit_charges) + worth(
            amounts.funding_charges,
        ),
        worth(amounts.trade_exit_charges) == worth(plan.exit_charges) + worth(amounts.exit_charges),
        worth(amounts.trade_exit_slippage) == worth(plan.exit_slippage) + worth(
            amounts.exit_slippage,
        ),
        worth(amounts.trade_funding_charges) == worth(plan.funding_charges) + worth(
            amounts.funding_charges,
        ),
        worth(amounts.remaining_qty) == worth(plan.remaining_qty) - worth(plan.qty),
    ensures
        worth(after.charges) == worth(before.charges) + worth(amounts.exit_charges) + worth(
            amounts.funding_charges,
        ),
        worth(after.exit_charges) == worth(before.exit_charges) + worth(amounts.exit_charges),
        worth(after.exit_slippage) == worth(before.exit_slippage) + worth(amounts.exit_slippage),
        worth(after.funding_charges) == worth(before.funding_charges) + worth(
            amounts.funding_charges,
        ),
        worth(after.remaining_qty) == worth(before.remaining_qty) - worth(request.qty),
        worth(before.charges) == worth(before.entry_charges) + worth(before.exit_charges) + worth(
            before.funding_charges,
        ) ==> worth(after.charges) == worth(after.entry_charges) + worth(after.exit_charges)
            + worth(after.funding_charges),
        parts_make_the_whole(before, worth) ==> parts_make_the_whole(after, worth),
{
    let exits = after.partial_exits@;
    let had = before.partial_exits@;
    let n = had.len();
    assert(exits.drop_last() == had);
    assert forall|i: int| 0 <= i < n implies #[trigger] exits[i] == had[i] by {
        assert(exits.drop_last()[i] == had[i]);
    }
    let a = Seq::new(exits.len(), |i: int| exits[i].exit_charges);
    let b = Seq::new(exits.len(), |i: int| exits[i].exit_slippage);
    let c = Seq::new(exits.len(), |i: int| exits[i].funding_charges);
    let q = Seq::new(exits.len(), |i: int| exits[i].qty);
    assert(a.drop_last() =~= Seq::new(n, |i: int| had[i].exit_charges));
    assert(b.drop_last() =~= Seq::new(n, |i: int| had[i].exit_slippage));
    assert(c.drop_last() =~= Seq::new(n, |i: int| had[i].funding_charges));
    assert(q.drop_last() =~= Seq::new(n, |i: int| had[i].qty));
    assert(a.last() == amounts.exit_charges);
    assert(b.last() == amounts.exit_slippage);
    assert(c.last() == amounts.funding_charges);
    assert(q.last() == request.qty);
}

/// What a closed trade comes to is what all of its exits come to, less its entry, the charges of
/// all of its exits and all of its funding, where what is handed in was reckoned from the plan of
/// the exit, whatever amounts are worth. Here `charged`, `slipped`, `funded` and `gained` are
/// what the last exit comes to.
pub proof fn closed_trade_comes_to_its_parts(
    plan: ExitPlan,
    before: BookFacts,
    after: BookFacts,
    signal: StrategySignal,
    id: Seq<char>,
    request: RequestFacts,
    amounts: ExitAmounts,
    charged: int,
    slipped: int,
    funded: int,
    gained: int,
    worth: spec_fn(Real) -> int,
)
    requires
        is_plan_of(plan, signal, OrderSort::FullExit, id, request, before.trades[id]),
        exited(before, after, signal, id, request, amounts),
        parts_make_the_whole(before.trades[id], worth),
        worth(amounts.trade_charges) == worth(plan.charges) + charged + funded,
        worth(amounts.trade_exit_charges) == worth(plan.exit_charges) + charged,
        worth(amounts.trade_exit_slippage) == worth(plan.exit_slippage) + slipped,
        worth(amounts.trade_funding_charges) == worth(plan.funding_charges) + funded,
        worth(amounts.gross_pnl) == worth_together(plan.partial_gross@, worth) + gained,
        worth(amounts.net_pnl) == worth(amounts.gross_pnl) - worth(amounts.trade_charges),
    ensures
        ({
            let was = before.trades[id];
            let t = after.trades[id];
            let exits = was.partial_exits@;
            let n = exits.len();
            let all_charges = worth_together(Seq::new(n, |i: int| exits[i].exit_charges), worth);
            let all_slippage = worth_together(Seq::new(n, |i: int| exits[i].exit_slippage), worth);
            let all_funding = worth_together(Seq::new(n, |i: int| exits[i].funding_charges), worth);
            let all_gross = worth_together(Seq::new(n, |i: int| exits[i].gross_pnl), worth);
            &&& worth(t.exit_charges) == all_charges + charged
            &&& worth(t.exit_slippage) == all_slippage + slipped
            &&& worth(t.funding_charges) == all_funding + funded
            &&& worth(t.charges) == worth(was.entry_charges) + all_charges + charged + all_funding
                + funded
            &&& worth(t.charges) == worth(t.entry_charges) + worth(t.exit_charges) + worth(
                t.funding_charges,
            )
            &&& t.gross_pnl matches Some(gross) && worth(gross) == all_gross + gained
            &&& t.net_pnl matches Some(net) && worth(net) == all_gross + gained - worth(t.charges)
            &&& after.positions[id].pnl == t.net_pnl
            &&& t.status == PositionStatus::Closed
            &&& after.positions[id].status == PositionStatus::Closed
            &&& t.remaining_qty.bits == 0
            &&& plan.qty == was.remaining_qty
        }),
{
    let exits = before.trades[id].partial_exits@;
    assert(plan.partial_gross@ =~= Seq::new(exits.len(), |i: int| exits[i].gross_pnl));
}

/// What a signal asks for is what it says: its sort goes by its type, the side is that of its
/// type, and the rest comes from its first trade, whose price is the one to go by, or else the
/// limit. An entry is of some quantity, and an exit in part of less than one.
pub proof fn request_is_what_the_signal_says(signal: StrategySignal, sort: OrderSort)
    ensures
        request_of(signal, sort) matches Ok(request) ==> {
            let kind = signal.signal_type;
            let first = signal.instructions@[0];
            &&& signal.instructions@.len() > 0
            &&& sort == OrderSort::Entry <==> kind == StrategySignalType::EntryLong || kind
                == StrategySignalType::EntryShort
            &&& sort == OrderSort::PartialExit <==> kind == StrategySignalType::ExitLongPartial
                || kind == StrategySignalType::ExitShortPartial
            &&& sort == OrderSort::FullExit <==> kind == StrategySignalType::ExitLong || kind
                == StrategySignalType::ExitShort
            &&& request.side == SignalSide::Long <==> kind == StrategySignalType::EntryLong
                || kind == StrategySignalType::ExitLong || kind
                == StrategySignalType::ExitLongPartial
            &&& request.leg_id == first.leg_id@
            &&& request.instrument == first.instrument_name@
            &&& request.action == first.action
            &&& request.qty.bits == first.quantity_ratio.bits || request.qty.bits
                + 0x8000_0000_0000_0000 == first.quantity_ratio.bits
            &&& request.qty.bits < 0x8000_0000_0000_0000
            &&& match first.price_policy.reference_price {
                Some(price) => request.raw_price == price,
                None => first.price_policy.limit_price == Some(request.raw_price),
            }
            &&& sort == OrderSort::Entry ==> 0 < request.qty.bits < 0x7ff0_0000_0000_0000
            &&& sort == OrderSort::PartialExit ==> 0 < request.qty.bits < 0x3ff0_0000_0000_0000
        },
{
}

/// A signal that says all that is needed is followed: of the type of its sort, with a first trade
/// that has a price and a quantity that the sort allows.
pub proof fn request_of_a_whole_signal_is_read(signal: StrategySignal, sort: OrderSort)
    requires
        signal.instructions@.len() > 0,
        match sort {
            OrderSort::Entry => signal.signal_type == StrategySignalType::EntryLong
                || signal.signal_type == StrategySignalType::EntryShort,
            OrderSort::PartialExit => signal.signal_type == StrategySignalType::ExitLongPartial
                || signal.signal_type == StrategySignalType::ExitShortPartial,
            OrderSort::FullExit => signal.signal_type == StrategySignalType::ExitLong
                || signal.signal_type == StrategySignalType::ExitShort,
        },
        signal.instructions@[0].price_policy.reference_price is Some
            || signal.instructions@[0].price_policy.limit_price is Some,
        ({
            let ratio = signal.instructions@[0].quantity_ratio.bits;
            let size = if ratio >= 0x8000_0000_0000_0000 {
                ratio - 0x8000_0000_0000_0000
            } else {
                ratio as int
            };
            match sort {
                OrderSort::Entry => 0 < size < 0x7ff0_0000_0000_0000,
                OrderSort::PartialExit => 0 < size < 0x3ff0_0000_0000_0000,
                OrderSort::FullExit => true,
            }
        }),
    ensures
        request_of(signal, sort) is Ok,
{
}

/// A trade that is entered tells what its signal says, and is found under the leg of it; the
/// position that belongs to it agrees with it, and nothing else in the book changes but when
/// and how often the strategy entered.
pub proof fn entered_trade_tells_its_signal(
    before: BookFacts,
    after: BookFacts,
    signal: StrategySignal,
    request: RequestFacts,
    amounts: EntryAmounts,
)
    requires
        request_of(signal, OrderSort::Entry) == Ok::<RequestFacts, StrategyFault>(request),
        entered(before, after, signal, request, amounts),
    ensures
        ({
            let first = signal.instructions@[0];
            let id = first.leg_id@;
            let t = after.trades[id];
            let p = after.positions[id];
            let long = signal.signal_type == StrategySignalType::EntryLong;
            &&& after.trades.contains_key(id)
            &&& after.positions.contains_key(id)
            &&& t.position_id@ == id && p.position_id@ == id
            &&& t.ssu_id == signal.ssu_id && p.ssu_id == signal.ssu_id
            &&& t.side == SignalSide::Long <==> long
            &&& p.side == SignalSide::Long <==> long
            &&& t.instrument@ == first.instrument_name@
            &&& p.trade_instrument@ == first.instrument_name@
            &&& p.trigger_instrument@ == signal.trigger_instrument@
            &&& t.entry_at == signal.generated_at && p.entry_at == signal.generated_at
            &&& t.entry_price == amounts.entry_price && p.entry_price == amounts.entry_price
            &&& match first.price_policy.reference_price {
                Some(price) => t.raw_entry_price == price,
                None => first.price_policy.limit_price == Some(t.raw_entry_price),
            }
            &&& t.qty.bits == first.quantity_ratio.bits || t.qty.bits + 0x8000_0000_0000_0000
                == first.quantity_ratio.bits
            &&& t.remaining_qty == t.qty
            &&& t.entry_slippage == amounts.entry_slippage
            &&& t.entry_signal_id@ == signal.signal_id@
            &&& t.strategy_key@ == signal.strategy_key@
            &&& t.status == PositionStatus::Open && p.status == PositionStatus::Open
            &&& t.exit_at is None && p.exit_at is None
            &&& t.net_pnl is None && p.pnl is None
            &&& after.open.contains((signal.ssu_id, id))
            &&& after.last_entries.contains_key(signal.ssu_id)
            &&& after.last_entries[signal.ssu_id] >= signal.generated_at
            &&& before.last_entries.contains_key(signal.ssu_id)
                ==> after.last_entries[signal.ssu_id] >= before.last_entries[signal.ssu_id]
            &&& after.last_entries[signal.ssu_id] == signal.generated_at || (
            before.last_entries.contains_key(signal.ssu_id) && after.last_entries[signal.ssu_id]
                == before.last_entries[signal.ssu_id])
            &&& forall|k: Seq<char>|
                k != id ==> {
                    &&& #[trigger] after.trades.contains_key(k) <==> before.trades.contains_key(k)
                    &&& after.trades[k] == before.trades[k]
                }
            &&& forall|k: Seq<char>|
                k != id ==> {
                    &&& #[trigger] after.positions.contains_key(k)
                        <==> before.positions.contains_key(k)
                    &&& after.positions[k] == before.positions[k]
                }
            &&& forall|k: i64, i: Seq<char>|
                (k, i) != (signal.ssu_id, id) ==> (#[trigger] after.open.contains((k, i))
                    <==> before.open.contains((k, i)))
        }),
{
}

/// Where the day of an entry is known, the strategy has entered once more on that day, and no
/// strategy on any other.
pub proof fn entry_is_counted_on_its_day(
    before: BookFacts,
    after: BookFacts,
    signal: StrategySignal,
    request: RequestFacts,
    amounts: EntryAmounts,
    day: Seq<char>,
    ssu_id: i64,
    other: Seq<char>,
)
    requires
        entered(before, after, signal, request, amounts),
        ist_day_of(signal.generated_at) == Ok::<Seq<char>, StrategyFault>(day),
        entries_on(before, signal.ssu_id, day) < u32::MAX,
    ensures
        entries_on(after, signal.ssu_id, day) == entries_on(before, signal.ssu_id, day) + 1,
        ssu_id != signal.ssu_id || other != day ==> entries_on(after, ssu_id, other) == entries_on(
            before,
            ssu_id,
            other,
        ),
{
}

/// An entry that keeps the limits of its strategy is not refused.
pub proof fn entry_within_limits_is_allowed(book: BookFacts, generated_at: u64, ssu: SsuConfig)
    requires
        ssu.trade_gap_secs == 0 || !book.last_entries.contains_key(ssu.ssu_id) || generated_at
            >= book.last_entries[ssu.ssu_id] + ssu.trade_gap_secs * 1_000,
        ssu.max_overlap == 0 || open_ids(book.open, ssu.ssu_id).len() < ssu.max_overlap,
        ssu.max_positions_per_day == 0 || (ist_day_of(generated_at) is Ok && entries_on(
            book,
            ssu.ssu_id,
            ist_day_of(generated_at)->Ok_0,
        ) < ssu.max_positions_per_day),
    ensures
        limit_fault(book, generated_at, ssu) is None,
{
}

/// An exit in part is put down as what its signal says, behind those before, and leaves the rest
/// of the trade as it was: it stays open, and is still of the same entry.
pub proof fn partial_exit_tells_its_signal(
    before: BacktestTrade,
    after: BacktestTrade,
    signal: StrategySignal,
    request: RequestFacts,
    amounts: PartialAmounts,
)
    requires
        request_of(signal, OrderSort::PartialExit) == Ok::<RequestFacts, StrategyFault>(request),
        is_partly_exited(after, before, signal, request, amounts),
    ensures
        ({
            let first = signal.instructions@[0];
            let one = after.partial_exits@[before.partial_exits@.len() as int];
            &&& after.partial_exits@.len() == before.partial_exits@.len() + 1
            &&& forall|i: int|
                0 <= i < before.partial_exits@.len() ==> (#[trigger] after.partial_exits@[i])
                    == before.partial_exits@[i]
            &&& one.signal_id@ == signal.signal_id@
            &&& one.reason@ == signal.reason@
            &&& one.exit_at == signal.generated_at
            &&& one.qty.bits == first.quantity_ratio.bits || one.qty.bits + 0x8000_0000_0000_0000
                == first.quantity_ratio.bits
            &&& match first.price_policy.reference_price {
                Some(price) => one.raw_exit_price == price,
                None => first.price_policy.limit_price == Some(one.raw_exit_price),
            }
            &&& one.exit_price == amounts.exit_price
            &&& one.gross_pnl == amounts.gross_pnl
            &&& one.net_pnl == amounts.net_pnl
            &&& after.status == before.status
            &&& after.position_id == before.position_id
            &&& after.ssu_id == before.ssu_id
            &&& after.instrument == before.instrument
            &&& after.side == before.side
            &&& after.qty == before.qty
            &&& after.entry_price == before.entry_price
            &&& after.raw_entry_price == before.raw_entry_price
            &&& after.entry_at == before.entry_at
            &&& after.entry_charges == before.entry_charges
            &&& after.entry_slippage == before.entry_slippage
            &&& after.exit_at == before.exit_at
            &&& after.exit_price == before.exit_price
            &&& after.gross_pnl == before.gross_pnl
            &&& after.net_pnl == before.net_pnl
        }),
{
    let exits = after.partial_exits@;
    let had = before.partial_exits@;
    assert forall|i: int| 0 <= i < had.len() implies (#[trigger] exits[i]) == had[i] by {
        assert(exits.drop_last()[i] == had[i]);
    }
}

/// A trade that is closed tells what its exit says and keeps what its entry said; its position
/// agrees with it, and no other trade or position changes.
pub proof fn closed_trade_tells_its_signal(
    before: BookFacts,
    after: BookFacts,
    signal: StrategySignal,
    id: Seq<char>,
    request: RequestFacts,
    amounts: ExitAmounts,
)
    requires
        request_of(signal, OrderSort::FullExit) == Ok::<RequestFacts, StrategyFault>(request),
        exited(before, after, signal, id, request, amounts),
    ensures
        ({
            let first = signal.instructions@[0];
            let was = before.trades[id];
            let t = after.trades[id];
            let p = after.positions[id];
            let q = before.positions[id];
            &&& t.exit_at == Some(signal.generated_at) && p.exit_at == Some(signal.generated_at)
            &&& t.exit_price == Some(amounts.exit_price) && p.exit_price == Some(amounts.exit_price)
            &&& match first.price_policy.reference_price {
                Some(price) => t.raw_exit_price == Some(price),
                None => t.raw_exit_price == first.price_policy.limit_price,
            }
            &&& t.exit_signal_id matches Some(x) && x@ == signal.signal_id@
            &&& t.exit_reason matches Some(x) && x@ == signal.reason@
            &&& p.exit_reason matches Some(x) && x@ == signal.reason@
            &&& t.status == PositionStatus::Closed && p.status == PositionStatus::Closed
            &&& t.position_id == was.position_id && p.position_id == q.position_id
            &&& t.ssu_id == was.ssu_id && p.ssu_id == q.ssu_id
            &&& t.instrument == was.instrument && p.trade_instrument == q.trade_instrument
            &&& t.side == was.side && p.side == q.side
            &&& t.qty == was.qty
            &&& t.entry_price == was.entry_price && p.entry_price == q.entry_price
            &&& t.raw_entry_price == was.raw_entry_price
            &&& t.entry_at == was.entry_at && p.entry_at == q.entry_at
            &&& t.entry_charges == was.entry_charges
            &&& t.entry_slippage == was.entry_slippage
            &&& t.entry_signal_id == was.entry_signal_id
            &&& t.strategy_key == was.strategy_key
            &&& t.entry_metadata == was.entry_metadata
            &&& t.partial_exits == was.partial_exits
            &&& !after.open.contains((q.ssu_id, id))
            &&& forall|k: Seq<char>|
                k != id ==> {
                    &&& #[trigger] after.trades.contains_key(k) <==> before.trades.contains_key(k)
                    &&& after.trades[k] == before.trades[k]
                }
            &&& forall|k: Seq<char>|
                k != id ==> {
                    &&& #[trigger] after.positions.contains_key(k)
                        <==> before.positions.contains_key(k)
                    &&& after.positions[k] == before.positions[k]
                }
            &&& after.last_entries == before.last_entries
            &&& after.entries == before.entries
        }),
{
}

/// The plan of an exit tells what its trade came to so far and what its signal says.
pub proof fn plan_tells_the_trade(
    plan: ExitPlan,
    signal: StrategySignal,
    sort: OrderSort,
    id: Seq<char>,
    request: RequestFacts,
    trade: BacktestTrade,
)
    requires
        request_of(signal, sort) == Ok::<RequestFacts, StrategyFault>(request),
        is_plan_of(plan, signal, sort, id, request, trade),
        sort != OrderSort::Entry,
    ensures
        plan.position_id@ == id,
        plan.action == signal.instructions@[0].action,
        plan.side == SignalSide::Long <==> signal.signal_type == StrategySignalType::ExitLong
            || signal.signal_type == StrategySignalType::ExitLongPartial,
        plan.exit_at == signal.generated_at,
        plan.entry_price == trade.entry_price,
        plan.entry_at == trade.entry_at,
        plan.remaining_qty == trade.remaining_qty,
        signal.signal_type == StrategySignalType::ExitLong || signal.signal_type
            == StrategySignalType::ExitShort ==> plan.qty == trade.remaining_qty,
        signal.signal_type == StrategySignalType::ExitLongPartial || signal.signal_type
            == StrategySignalType::ExitShortPartial ==> plan.qty.bits
            == signal.instructions@[0].quantity_ratio.bits || plan.qty.bits
            + 0x8000_0000_0000_0000 == signal.instructions@[0].quantity_ratio.bits,
        plan.charges == trade.charges,
        plan.exit_charges == trade.exit_charges,
        plan.exit_slippage == trade.exit_slippage,
        plan.funding_charges == trade.funding_charges,
        plan.partial_gross@.len() == trade.partial_exits@.len(),
        forall|i: int|
            0 <= i < trade.partial_exits@.len() ==> #[trigger] plan.partial_gross@[i]
                == trade.partial_exits@[i].gross_pnl,
{
}

proof fn some_is_latest(s: Set<OpenFacts>) -> (o: OpenFacts)
    requires
        s.finite(),
        s.len() > 0,
    ensures
        s.contains(o),
        forall|p: OpenFacts| #[trigger] s.contains(p) ==> !is_later(p, o),
    decreases s.len(),
{
    let a = s.choose();
    text_order_is_total(a.position_id, a.position_id);
    if s.len() == 1 {
        assert(s.remove(a).len() == 0);
        assert forall|p: OpenFacts| #[trigger] s.contains(p) implies !is_later(p, a) by {
            if p != a {
                assert(s.remove(a).contains(p));
            }
        }
        a
    } else {
        let rest = s.remove(a);
        let b = some_is_latest(rest);
        if is_later(a, b) {
            lateness_is_one_way(a, b);
            assert forall|p: OpenFacts| #[trigger] s.contains(p) implies !is_later(p, a) by {
                if p != a {
                    assert(rest.contains(p));
                    lateness_is_transitive(p, b, a);
                }
            }
            a
        } else {
            assert forall|p: OpenFacts| #[trigger] s.contains(p) implies !is_later(p, b) by {
                if p != a {
                    assert(rest.contains(p));
                }
            }
            b
        }
    }
}

/// An exit is about an open position of its strategy, instrument and side: the one that its leg
/// names, or else the one that was entered last. There is none for it only where no such
/// position is open.
pub proof fn exit_finds_an_open_position(book: BookFacts, ssu_id: i64, request: RequestFacts)
    requires
        in_step(book),
        book.orders.finite(),
    ensures
        match position_for(book, ssu_id, request) {
            Some(id) => {
                let p = book.positions[id];
                &&& book.positions.contains_key(id)
                &&& p.status == PositionStatus::Open
                &&& p.ssu_id == ssu_id
                &&& p.trade_instrument@ == request.instrument
                &&& p.side == request.side
                &&& id == request.leg_id || forall|k: Seq<char>|
                    {
                        let q = book.positions[k];
                        #[trigger] book.positions.contains_key(k) && q.status
                            == PositionStatus::Open && q.ssu_id == ssu_id && q.trade_instrument@
                            == request.instrument && q.side == request.side ==> k
                            != request.leg_id && q.entry_at <= p.entry_at
                    }
            },
            None => forall|k: Seq<char>|
                {
                    let q = book.positions[k];
                    #[trigger] book.positions.contains_key(k) && q.ssu_id == ssu_id
                        && q.trade_instrument@ == request.instrument && q.side == request.side
                        ==> q.status != PositionStatus::Open
                },
        },
{
    let held = book.orders.filter(
        |o: OpenFacts| is_held_as(o, ssu_id, request.instrument, request.side),
    );
    let p = book.positions[request.leg_id];
    let named = book.positions.contains_key(request.leg_id) && p.ssu_id == ssu_id
        && p.trade_instrument@ == request.instrument && p.side == request.side && p.status
        == PositionStatus::Open;
    if !named {
        if exists|o: OpenFacts| #[trigger]
            is_latest(o, book.orders, ssu_id, request.instrument, request.side) {
            let o = choose|o: OpenFacts| #[trigger]
                is_latest(o, book.orders, ssu_id, request.instrument, request.side);
            assert(is_latest(o, book.orders, ssu_id, request.instrument, request.side));
            let id = o.position_id;
            assert(book.orders.contains(o));
            assert(book.positions[id].position_id@ == id);
            assert forall|k: Seq<char>|
                {
                    let q = book.positions[k];
                    #[trigger] book.positions.contains_key(k) && q.status == PositionStatus::Open
                        && q.ssu_id == ssu_id && q.trade_instrument@ == request.instrument
                        && q.side == request.side
                } implies k != request.leg_id && book.positions[k].entry_at
                <= book.positions[id].entry_at by {
                let q = book.positions[k];
                assert(q.position_id@ == k);
                assert(book.orders.contains(found_as(q)));
            }
        } else {
            assert forall|k: Seq<char>|
                {
                    let q = book.positions[k];
                    #[trigger] book.positions.contains_key(k) && q.ssu_id == ssu_id
                        && q.trade_instrument@ == request.instrument && q.side == request.side
                } implies book.positions[k].status != PositionStatus::Open by {
                let q = book.positions[k];
                assert(q.position_id@ == k);
                if q.status == PositionStatus::Open {
                    assert(book.orders.contains(found_as(q)));
                    assert(held.contains(found_as(q)));
                    vstd::set_lib::lemma_len_subset(held, book.orders);
                    assert(held.len() > 0);
                    let o = some_is_latest(held);
                    assert forall|x: OpenFacts|
                        #[trigger] book.orders.contains(x) && is_held_as(
                            x,
                            ssu_id,
                            request.instrument,
                            request.side,
                        ) implies !is_later(x, o) by {
                        assert(held.contains(x));
                    }
                    assert(is_latest(o, book.orders, ssu_id, request.instrument, request.side));
                }
            }
        }
    }
}

/// An exit is of a trade of which something is left, and an exit in part of less than that and of
/// an open trade; what is left is more than 0.000000001.
pub proof fn exit_is_of_what_is_left(book: BookFacts, signal: StrategySignal, sort: OrderSort)
    requires
        sort != OrderSort::Entry,
    ensures
        exit_of(book, signal, sort) matches Ok((id, request)) ==> {
            let trade = book.trades[id];
            &&& request_of(signal, sort) == Ok::<RequestFacts, StrategyFault>(request)
            &&& position_for(book, signal.ssu_id, request) == Some(id)
            &&& book.trades.contains_key(id)
            &&& trade.remaining_qty.is_nan() || trade.remaining_qty.rank() > 0x3e11_2e0b_e826_d695
            &&& sort == OrderSort::PartialExit ==> {
                &&& trade.status == PositionStatus::Open
                &&& trade.partial_limit.is_nan() || request.qty.is_nan() || request.qty.rank()
                    < trade.partial_limit.rank()
            }
        },
{
}

/// Funding is charged at the multiples of its interval from the entry to the exit, both counted,
/// and at no other moment; and never where it is switched off or its rate is zero.
pub proof fn funding_is_charged_at_its_hours(
    execution: BacktestExecutionConfig,
    entry_at: u64,
    exit_at: u64,
) -> (first: int)
    requires
        execution.funding_interval_hours * 3_600_000 <= u64::MAX,
    ensures
        execution.funding_charge_mode == FundingChargeMode::Disabled ==> snapshots_of(
            execution,
            entry_at,
            exit_at,
        ) == 0,
        execution.funding_rate_pct.bits == 0 || execution.funding_rate_pct.bits
            == 0x8000_0000_0000_0000 ==> snapshots_of(execution, entry_at, exit_at) == 0,
        exit_at < entry_at ==> snapshots_of(execution, entry_at, exit_at) == 0,
        execution.funding_charge_mode != FundingChargeMode::Disabled
            && execution.funding_rate_pct.bits != 0 && execution.funding_rate_pct.bits
            != 0x8000_0000_0000_0000 && execution.funding_interval_hours > 0 && entry_at <= exit_at
            ==> forall|k: int|
            entry_at <= #[trigger] (k * (execution.funding_interval_hours * 3_600_000)) <= exit_at
                <==> first <= k < first + snapshots_of(execution, entry_at, exit_at),
{
    let interval = execution.funding_interval_hours * 3_600_000;
    let first = if interval == 0 {
        0
    } else if entry_at as int % interval == 0 {
        entry_at as int / interval
    } else {
        entry_at as int / interval + 1
    };
    if execution.funding_interval_hours > 0 && entry_at <= exit_at {
        assert forall|k: int|
            execution.funding_charge_mode != FundingChargeMode::Disabled
                && execution.funding_rate_pct.bits != 0 && execution.funding_rate_pct.bits
                != 0x8000_0000_0000_0000 implies (entry_at <= #[trigger] (k * (
        execution.funding_interval_hours * 3_600_000)) <= exit_at <==> first <= k < first
            + snapshots_of(execution, entry_at, exit_at)) by {
            multiples_lie_between(entry_at as int, exit_at as int, interval, k);
        }
    }
    first
}

/// Costs are accepted where each of them is finite and not below zero, the rate of funding is
/// finite, and funding that is charged has an interval.
pub proof fn accepted_costs_are_finite_and_not_negative(execution: BacktestExecutionConfig)
    ensures
        execution.is_valid() <==> {
            let is_fine = |v: Real|
                v.bits < 0x7ff0_0000_0000_0000 || v.bits == 0x8000_0000_0000_0000;
            &&& is_fine(execution.slippage_pct)
            &&& is_fine(execution.brokerage_pct)
            &&& execution.entry_fee_pct is Some ==> is_fine(execution.entry_fee_pct->0)
            &&& execution.exit_fee_pct is Some ==> is_fine(execution.exit_fee_pct->0)
            &&& is_fine(execution.fee_tax_pct)
            &&& is_fine(execution.fixed_fee_per_order)
            &&& execution.funding_rate_pct.bits < 0x7ff0_0000_0000_0000 || (0x8000_0000_0000_0000
                <= execution.funding_rate_pct.bits < 0xfff0_0000_0000_0000)
            &&& execution.funding_charge_mode != FundingChargeMode::Disabled
                ==> execution.funding_interval_hours > 0
        },
{
}

/// What is remembered of the positions of a strategy in an instrument is all that is kept of
/// them, and of no others.
pub proof fn contexts_are_of_the_strategy(
    ids: Seq<Seq<char>>,
    contexts: Map<Seq<char>, ContextRecord>,
    ssu_id: i64,
    trigger_instrument: Seq<char>,
    one: (Seq<char>, JsonFacts),
)
    ensures
        contexts_at(ids, contexts, ssu_id, trigger_instrument).contains(one) <==> exists|i: int|
            {
                &&& 0 <= i < ids.len()
                &&& #[trigger] ids[i] == one.0
                &&& contexts[ids[i]].ssu_id == ssu_id
                &&& contexts[ids[i]].trigger_instrument@ == trigger_instrument
                &&& contexts[ids[i]].metadata@ == one.1
            },
    decreases ids.len(),
{
    let all = contexts_at(ids, contexts, ssu_id, trigger_instrument);
    if ids.len() > 0 {
        let d = ids.drop_last();
        let n = ids.len() - 1;
        contexts_are_of_the_strategy(d, contexts, ssu_id, trigger_instrument, one);
        let before = contexts_at(d, contexts, ssu_id, trigger_instrument);
        assert(ids[n] == ids.last());
        assert forall|i: int|
            #![trigger d[i]]
            #![trigger ids[i]]
            0 <= i < n implies d[i] == ids[i] by {}
        if before.contains(one) {
            let k = choose|k: int| 0 <= k < before.len() && before[k] == one;
            assert(all[k] == one);
            let i = choose|i: int|
                {
                    &&& 0 <= i < d.len()
                    &&& #[trigger] d[i] == one.0
                    &&& contexts[d[i]].ssu_id == ssu_id
                    &&& contexts[d[i]].trigger_instrument@ == trigger_instrument
                    &&& contexts[d[i]].metadata@ == one.1
                };
            assert(ids[i] == one.0);
        }
        if all.contains(one) && !before.contains(one) {
            let k = choose|k: int| 0 <= k < all.len() && all[k] == one;
            if k < before.len() {
                assert(before[k] == one);
            }
            assert(ids[n] == one.0);
        }
        if all.len() > before.len() {
            assert(all[before.len() as int] == (ids[n], contexts[ids[n]].metadata@));
        }
    }
}

/// The open positions of a strategy that are listed are those that are open and of it, all of
/// them.
pub proof fn listed_positions_are_open(book: BookFacts, ssu_id: i64, p: StrategyPosition)
    requires
        in_step(book),
        open_ids(book.open, ssu_id).finite(),
    ensures
        positions_at(ascending_of(open_ids(book.open, ssu_id)), book.positions).contains(p)
            <==> p.status == PositionStatus::Open && p.ssu_id == ssu_id
            && book.positions.contains_key(p.position_id@) && book.positions[p.position_id@] == p,
{
    let set = open_ids(book.open, ssu_id);
    crate::order::ascending_of_holds(set);
    let ids = ascending_of(set);
    positions_are_those(ids, book.positions, p);
    let all = positions_at(ids, book.positions);
    if all.contains(p) {
        let i = choose|i: int|
            0 <= i < ids.len() && book.positions.contains_key(#[trigger] ids[i])
                && book.positions[ids[i]] == p;
        assert(ids.to_set().contains(ids[i]));
        assert(book.open.contains((ssu_id, ids[i])));
    }
    if p.status == PositionStatus::Open && p.ssu_id == ssu_id && book.positions.contains_key(
        p.position_id@,
    ) && book.positions[p.position_id@] == p {
        assert(book.open.contains((ssu_id, p.position_id@)));
        assert(ids.to_set().contains(p.position_id@));
        let i = ids.index_of(p.position_id@);
        assert(ids[i] == p.position_id@);
    }
}

proof fn positions_are_those(
    ids: Seq<Seq<char>>,
    positions: Map<Seq<char>, StrategyPosition>,
    p: StrategyPosition,
)
    ensures
        positions_at(ids, positions).contains(p) <==> exists|i: int|
            0 <= i < ids.len() && positions.contains_key(#[trigger] ids[i]) && positions[ids[i]]
                == p,
    decreases ids.len(),
{
    let all = positions_at(ids, positions);
    if ids.len() > 0 {
        let d = ids.drop_last();
        let n = ids.len() - 1;
        positions_are_those(d, positions, p);
        let before = positions_at(d, positions);
        assert(ids[n] == ids.last());
        assert forall|i: int|
            #![trigger d[i]]
            #![trigger ids[i]]
            0 <= i < n implies d[i] == ids[i] by {}
        if before.contains(p) {
            let k = choose|k: int| 0 <= k < before.len() && before[k] == p;
            assert(all[k] == p);
            let i = choose|i: int|
                0 <= i < d.len() && positions.contains_key(#[trigger] d[i]) && positions[d[i]] == p;
            assert(ids[i] == d[i]);
        }
        if all.contains(p) && !before.contains(p) {
            let k = choose|k: int| 0 <= k < all.len() && all[k] == p;
            if k < before.len() {
                assert(before[k] == p);
            }
            assert(positions.contains_key(ids[n]));
        }
        if all.len() > before.len() {
            assert(all[before.len() as int] == positions[ids[n]]);
        }
    }
}

/// The name of a sort of signal tells whether it enters or leaves, and the side that it is about.
pub proof fn signal_names_tell_their_side(signal_type: StrategySignalType)
    ensures
        side_of(signal_type) matches Some(side) ==> {
            let name = signal_type_name(signal_type);
            &&& is_of_sort(signal_type, OrderSort::Entry) ==> name == "ENTRY_"@ + side_name(side)
            &&& is_of_sort(signal_type, OrderSort::FullExit) ==> name == "EXIT_"@ + side_name(side)
            &&& is_of_sort(signal_type, OrderSort::PartialExit) ==> name == "EXIT_"@ + side_name(
                side,
            ) + "_PARTIAL"@
        },
        side_of(signal_type) is None <==> signal_type == StrategySignalType::Shift || signal_type
            == StrategySignalType::Rollover,
{
    reveal_strlit("ENTRY_");
    reveal_strlit("EXIT_");
    reveal_strlit("_PARTIAL");
    reveal_strlit("LONG");
    reveal_strlit("SHORT");
    reveal_strlit("ENTRY_LONG");
    reveal_strlit("ENTRY_SHORT");
    reveal_strlit("EXIT_LONG");
    reveal_strlit("EXIT_SHORT");
    reveal_strlit("EXIT_LONG_PARTIAL");
    reveal_strlit("EXIT_SHORT_PARTIAL");
    let name = signal_type_name(signal_type);
    if let Some(side) = side_of(signal_type) {
        if is_of_sort(signal_type, OrderSort::Entry) {
            assert(name =~= "ENTRY_"@ + side_name(side));
        } else if is_of_sort(signal_type, OrderSort::FullExit) {
            assert(name =~= "EXIT_"@ + side_name(side));
        } else {
            assert(name =~= "EXIT_"@ + side_name(side) + "_PARTIAL"@);
        }
    }
}

/// Funding is charged in the way that is named, whatever the case of the letters: not at all, as
/// its sign says, or always as a cost; a name of one way is no name of another.
pub proof fn charge_modes_are_named(value: Seq<char>)
    ensures
        ({
            let name = lower_of(trim_of(value));
            let mode = charge_mode_of(value);
            &&& mode == Some(FundingChargeMode::Disabled) <==> name.len() == 0 || name == "disabled"@
                || name == "off"@ || name == "none"@
            &&& mode == Some(FundingChargeMode::Signed) <==> name == "signed"@
            &&& mode == Some(FundingChargeMode::Absolute) <==> name == "absolute"@ || name == "abs"@
                || name == "conservative"@
        }),
{
    reveal_strlit("");
    reveal_strlit("disabled");
    reveal_strlit("off");
    reveal_strlit("none");
    reveal_strlit("signed");
    reveal_strlit("absolute");
    reveal_strlit("abs");
    reveal_strlit("conservative");
    let name = lower_of(trim_of(value));
    assert(name.len() == 0 ==> name =~= ""@);
    assert("disabled"@[0] != "absolute"@[0]);
    assert("off"@[0] != "abs"@[0]);
}

} // verus!
