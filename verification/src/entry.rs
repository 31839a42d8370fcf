//! The sniper's entry gates: the checks a newly seen pool passes, in order, before any
//! filter looks at it, and the decision record each refusal leaves.
use vstd::prelude::*;

use crate::escrow::{same_key, Key};

verus! {

/// What the entry gates read: the pool's quote mint against ours, the snipe list (when
/// one is loaded, whether it lists the mint), the operator modes, and the buy and
/// position counters with their limits (a limit of zero is no limit).
#[derive(Debug, Clone, Copy)]
pub struct EntryState {
    pub pool_quote: Key,
    pub quote: Key,
    pub listed: Option<bool>,
    pub sell_mode: bool,
    pub dump_mode: bool,
    pub max_buys: u32,
    pub buys: u32,
    pub max_open: u32,
    pub open: u32,
}

/// Why a pool is passed over.
#[derive(Debug, Clone, Copy, PartialEq, Eq, Structural)]
pub enum EntryRefusal {
    /// The pool is quoted in another mint.
    WrongQuoteMint,
    /// A snipe list is loaded and does not list the mint.
    NotListed,
    /// Sell or dump mode is on; `dump` says which the record names.
    OperatorMode { dump: bool },
    /// The session's buy limit is reached.
    BuyLimit,
    /// As many positions are open as are allowed.
    MaxConcurrent,
    /// A session-heat pause is running.
    HeatCooldown,
}

/// The first gate a pool fails, in the order the sniper checks them, or `None`.
pub open spec fn entry_gate_spec(s: EntryState) -> Option<EntryRefusal> {
    if s.pool_quote@ != s.quote@ {
        Some(EntryRefusal::WrongQuoteMint)
    } else if s.listed == Some(false) {
        Some(EntryRefusal::NotListed)
    } else if s.sell_mode || s.dump_mode {
        Some(EntryRefusal::OperatorMode { dump: s.dump_mode })
    } else if s.max_buys > 0 && s.buys >= s.max_buys {
        Some(EntryRefusal::BuyLimit)
    } else if s.max_open > 0 && s.open >= s.max_open {
        Some(EntryRefusal::MaxConcurrent)
    } else {
        None
    }
}

/// Run the entry gates on a pool, as `entry_gate_spec` says.
pub fn entry_gate(s: &EntryState) -> (r: Option<EntryRefusal>)
    ensures
        r == entry_gate_spec(*s),
{
    if !same_key(&s.pool_quote, &s.quote) {
        Some(EntryRefusal::WrongQuoteMint)
    } else if s.listed == Some(false) {
        Some(EntryRefusal::NotListed)
    } else if s.sell_mode || s.dump_mode {
        Some(EntryRefusal::OperatorMode { dump: s.dump_mode })
    } else if s.max_buys > 0 && s.buys >= s.max_buys {
        Some(EntryRefusal::BuyLimit)
    } else if s.max_open > 0 && s.open >= s.max_open {
        Some(EntryRefusal::MaxConcurrent)
    } else {
        None
    }
}

/// A pool that passes the gates is quoted in our mint, listed when a list is loaded,
/// seen with both modes off, and under both limits; and a pool in another quote mint is
/// refused for that before anything else.
pub proof fn a_passed_pool_is_clear_to_evaluate(s: EntryState)
    ensures
        entry_gate_spec(s) is None ==> {
            &&& s.pool_quote@ == s.quote@
            &&& s.listed != Some(false)
            &&& !s.sell_mode && !s.dump_mode
            &&& (s.max_buys == 0 || s.buys < s.max_buys)
            &&& (s.max_open == 0 || s.open < s.max_open)
        },
        s.pool_quote@ != s.quote@ ==> entry_gate_spec(s) == Some(EntryRefusal::WrongQuoteMint),
{
}

impl EntryRefusal {
    /// The decision record a refusal writes: its decision, stage and reason.
    pub fn record(&self) -> (r: (&'static str, &'static str, &'static str))
        ensures
            r == (match *self {
                EntryRefusal::WrongQuoteMint => ("ignored", "quote_mint", "wrong_quote_mint"),
                EntryRefusal::NotListed => ("rejected", "snipe_list", "not_listed"),
                EntryRefusal::OperatorMode { dump } => ("ignored", "operator_mode", if dump { "dump_mode" } else { "sell_mode" }),
                EntryRefusal::BuyLimit => ("ignored", "buy_limit", "max_buys_reached"),
                EntryRefusal::MaxConcurrent => ("ignored", "exposure", "max_concurrent_positions"),
                EntryRefusal::HeatCooldown => ("ignored", "risk", "session_heat_cooldown"),
            }),
    {
        match *self {
            EntryRefusal::WrongQuoteMint => ("ignored", "quote_mint", "wrong_quote_mint"),
            EntryRefusal::NotListed => ("rejected", "snipe_list", "not_listed"),
            EntryRefusal::OperatorMode { dump } => ("ignored", "operator_mode", if dump { "dump_mode" } else { "sell_mode" }),
            EntryRefusal::BuyLimit => ("ignored", "buy_limit", "max_buys_reached"),
            EntryRefusal::MaxConcurrent => ("ignored", "exposure", "max_concurrent_positions"),
            EntryRefusal::HeatCooldown => ("ignored", "risk", "session_heat_cooldown"),
        }
    }
}

} // verus!
