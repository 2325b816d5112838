//! What strategies decide, and what becomes of it.
use crate::binary64::Real;
use crate::feeder::event::Timeframe;
use crate::json::Json;
use vstd::prelude::*;

verus! {

#[derive(Debug, PartialEq, Eq)]
pub enum StrategyError {
    Config(String),
    Parse(String),
    Rule(String),
    NotFound(String),
    Io(String),
}

/// What is wrong, as contracts speak of it.
pub enum StrategyFault {
    Config(Seq<char>),
    Parse(Seq<char>),
    Rule(Seq<char>),
    NotFound(Seq<char>),
    Io(Seq<char>),
}

impl View for StrategyError {
    type V = StrategyFault;

    open spec fn view(&self) -> StrategyFault {
        match self {
            StrategyError::Config(m) => StrategyFault::Config(m@),
            StrategyError::Parse(m) => StrategyFault::Parse(m@),
            StrategyError::Rule(m) => StrategyFault::Rule(m@),
            StrategyError::NotFound(m) => StrategyFault::NotFound(m@),
            StrategyError::Io(m) => StrategyFault::Io(m@),
        }
    }
}

impl StrategyError {
    /// What is said.
    pub open spec fn text(&self) -> Seq<char> {
        match self {
            StrategyError::Config(m) => m@,
            StrategyError::Parse(m) => m@,
            StrategyError::Rule(m) => m@,
            StrategyError::NotFound(m) => m@,
            StrategyError::Io(m) => m@,
        }
    }

    pub fn message(&self) -> (r: String)
        ensures
            r@ == self.text(),
    {
        match self {
            StrategyError::Config(m) => m.clone(),
            StrategyError::Parse(m) => m.clone(),
            StrategyError::Rule(m) => m.clone(),
            StrategyError::NotFound(m) => m.clone(),
            StrategyError::Io(m) => m.clone(),
        }
    }
}

#[derive(Clone, Copy, Debug, PartialEq, Eq, Structural)]
pub enum SignalSide {
    Long,
    Short,
}

#[derive(Clone, Copy, Debug, PartialEq, Eq, Structural)]
pub enum PositionStatus {
    Open,
    Closed,
}

#[derive(Clone, Copy, Debug, PartialEq, Eq, Structural)]
pub enum TradeAction {
    Buy,
    Sell,
}

#[derive(Clone, Copy, Debug, PartialEq, Eq, Structural)]
pub enum StrategySignalType {
    EntryLong,
    EntryShort,
    ExitLong,
    ExitShort,
    ExitLongPartial,
    ExitShortPartial,
    Shift,
    Rollover,
}

/// The side that a signal is about.
pub open spec fn side_of(signal_type: StrategySignalType) -> Option<SignalSide> {
    match signal_type {
        StrategySignalType::EntryLong => Some(SignalSide::Long),
        StrategySignalType::ExitLong => Some(SignalSide::Long),
        StrategySignalType::ExitLongPartial => Some(SignalSide::Long),
        StrategySignalType::EntryShort => Some(SignalSide::Short),
        StrategySignalType::ExitShort => Some(SignalSide::Short),
        StrategySignalType::ExitShortPartial => Some(SignalSide::Short),
        _ => None,
    }
}

impl StrategySignalType {
    pub fn is_entry(self) -> (r: bool)
        ensures
            r == (self is EntryLong || self is EntryShort),
    {
        match self {
            StrategySignalType::EntryLong => true,
            StrategySignalType::EntryShort => true,
            _ => false,
        }
    }

    pub fn is_partial_exit(self) -> (r: bool)
        ensures
            r == (self is ExitLongPartial || self is ExitShortPartial),
    {
        match self {
            StrategySignalType::ExitLongPartial => true,
            StrategySignalType::ExitShortPartial => true,
            _ => false,
        }
    }

    pub fn is_full_exit(self) -> (r: bool)
        ensures
            r == (self is ExitLong || self is ExitShort),
    {
        match self {
            StrategySignalType::ExitLong => true,
            StrategySignalType::ExitShort => true,
            _ => false,
        }
    }

    pub fn side(self) -> (r: Option<SignalSide>)
        ensures
            r == side_of(self),
    {
        match self {
            StrategySignalType::EntryLong => Some(SignalSide::Long),
            StrategySignalType::ExitLong => Some(SignalSide::Long),
            StrategySignalType::ExitLongPartial => Some(SignalSide::Long),
            StrategySignalType::EntryShort => Some(SignalSide::Short),
            StrategySignalType::ExitShort => Some(SignalSide::Short),
            StrategySignalType::ExitShortPartial => Some(SignalSide::Short),
            _ => None,
        }
    }
}

#[derive(Clone, Copy, Debug)]
pub struct PricePolicy {
    pub reference_price: Option<Real>,
    pub limit_price: Option<Real>,
}

/// One of the trades that a signal asks for.
#[derive(Debug)]
pub struct TradeInstruction {
    pub leg_id: String,
    pub instrument_name: String,
    pub action: TradeAction,
    pub quantity_ratio: Real,
    pub price_policy: PricePolicy,
}

/// What a strategy decided.
#[derive(Debug)]
pub struct StrategySignal {
    pub signal_id: String,
    pub signal_type: StrategySignalType,
    pub ssu_id: i64,
    pub strategy_key: String,
    pub trigger_instrument: String,
    pub instructions: Vec<TradeInstruction>,
    pub reason: String,
    pub generated_at: u64,
    pub metadata: Json,
}

impl StrategySignal {
    /// The trade that comes first.
    pub fn primary_instruction(&self) -> (r: Option<&TradeInstruction>)
        ensures
            match r {
                Some(i) => self.instructions@.len() > 0 && *i == self.instructions@[0],
                None => self.instructions@.len() == 0,
            },
    {
        if self.instructions.len() > 0 {
            Some(&self.instructions[0])
        } else {
            None
        }
    }
}

#[derive(Debug)]
pub struct IndicatorSpec {
    pub timeframe: Timeframe,
}

/// A strategy as it is set up.
#[derive(Debug)]
pub struct SsuConfig {
    pub ssu_id: i64,
    pub strategy_key: String,
    pub enabled: bool,
    pub trade_gap_secs: u64,
    pub max_overlap: u32,
    pub max_positions_per_day: u32,
    pub required_timeframes: Vec<Timeframe>,
    pub indicator_specs: Vec<IndicatorSpec>,
    pub params_json: String,
}

/// What is held of an instrument.
#[derive(Debug)]
pub struct StrategyPosition {
    pub position_id: String,
    pub ssu_id: i64,
    pub trigger_instrument: String,
    pub trade_instrument: String,
    pub side: SignalSide,
    pub entry_price: Real,
    pub entry_at: u64,
    pub exit_price: Option<Real>,
    pub exit_at: Option<u64>,
    pub exit_reason: Option<String>,
    pub pnl: Option<Real>,
    pub status: PositionStatus,
}

impl Clone for StrategyPosition {
    fn clone(&self) -> (r: StrategyPosition)
        ensures
            r == *self,
    {
        StrategyPosition {
            position_id: self.position_id.clone(),
            ssu_id: self.ssu_id,
            trigger_instrument: self.trigger_instrument.clone(),
            trade_instrument: self.trade_instrument.clone(),
            side: self.side,
            entry_price: self.entry_price,
            entry_at: self.entry_at,
            exit_price: self.exit_price,
            exit_at: self.exit_at,
            exit_reason: match &self.exit_reason {
                Some(reason) => Some(reason.clone()),
                None => None,
            },
            pnl: self.pnl,
            status: self.status,
        }
    }
}

/// A candle as strategies see it.
#[derive(Debug)]
pub struct Bar {
    pub instrument: String,
    pub timeframe: Timeframe,
    pub start_at: u64,
    pub end_at: u64,
    pub open: Real,
    pub high: Real,
    pub low: Real,
    pub close: Real,
    pub volume: Real,
    pub is_closed: bool,
}

impl Clone for Bar {
    fn clone(&self) -> (r: Bar)
        ensures
            r == *self,
    {
        Bar {
            instrument: self.instrument.clone(),
            timeframe: self.timeframe,
            start_at: self.start_at,
            end_at: self.end_at,
            open: self.open,
            high: self.high,
            low: self.low,
            close: self.close,
            volume: self.volume,
            is_closed: self.is_closed,
        }
    }
}

} // verus!
