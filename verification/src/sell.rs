//! The sniper's sell path: which wallet positions a startup scan watches and a dump
//! force-sells, the rounds a failing sell escalates through, the checks it makes
//! before each attempt, and the book it keeps of closed trades.
//!
//! A rug drains a pool within seconds, so the rounds are front-loaded: two immediate
//! attempts, the second with doubled slippage, then two short waits with no price floor
//! at all. A pool whose quote vault is nearly empty rejects every swap, so it is written
//! off rather than retried.
use vstd::prelude::*;

use crate::amm::{amm_out, amm_out_spec, balance_or, read_balance};
use crate::escrow::{same_key, Key};

verus! {

/// Below this many lamports in its quote vault a pool rejects every swap.
pub const DRAIN_THRESHOLD_LAMPORTS: u64 = 500_000;

/// How many rounds a sell gets before it is given up as stuck.
pub const SELL_ROUNDS: usize = 4;

/// Round `i` of a sell: the seconds to wait first, and the slippage round it runs
/// (0 normal, 1 doubled, 2 no floor).
pub open spec fn round_plan_spec(i: int) -> (u64, u32) {
    if i == 0 {
        (0, 0)
    } else if i == 1 {
        (0, 1)
    } else if i == 2 {
        (1, 2)
    } else {
        (2, 2)
    }
}

/// The plan of round `i`, as `round_plan_spec` says.
pub fn round_plan(i: usize) -> (r: (u64, u32))
    requires
        i < SELL_ROUNDS,
    ensures
        r == round_plan_spec(i as int),
{
    if i == 0 {
        (0, 0)
    } else if i == 1 {
        (0, 1)
    } else if i == 2 {
        (1, 2)
    } else {
        (2, 2)
    }
}

/// Whether a pool's quote vault is too empty to sell into.
pub open spec fn drained(quote_lamports: u64) -> bool {
    quote_lamports < DRAIN_THRESHOLD_LAMPORTS
}

/// Before the first round: is the pool already drained? Only a balance that was read
/// counts; a failed read (`None`) is no evidence, and neither is a balance string that
/// does not parse.
pub fn drained_before_retry(quote_balance: Option<&str>) -> (b: bool)
    ensures
        b == match quote_balance {
            None => false,
            Some(t) => drained(balance_or(t@, u64::MAX)),
        },
{
    match quote_balance {
        None => false,
        Some(t) => read_balance(t, u64::MAX) < DRAIN_THRESHOLD_LAMPORTS,
    }
}

/// The amount left to sell after a balance read, as `refreshed_amount` says.
pub open spec fn refreshed_amount_spec(current: u64, base_balance: Option<Seq<char>>) -> Option<u64> {
    match base_balance {
        None => Some(current),
        Some(t) => if balance_or(t, 0) == 0 { None } else { Some(balance_or(t, 0)) },
    }
}

/// Before each round the token balance is read again, since an earlier round may have
/// sold some or all of it: `None` when the balance reads as zero (nothing left to sell),
/// else the amount to sell. A failed read keeps the amount from before.
pub fn refreshed_amount(current: u64, base_balance: Option<&str>) -> (r: Option<u64>)
    ensures
        r == match base_balance {
            None => Some(current),
            Some(t) => if balance_or(t@, 0) == 0 { None } else { Some(balance_or(t@, 0)) },
        },
{
    match base_balance {
        None => Some(current),
        Some(t) => {
            let fresh = read_balance(t, 0);
            if fresh == 0 {
                None
            } else {
                Some(fresh)
            }
        },
    }
}

/// What one attempt reads from the pool's vaults: the estimated quote out for the amount,
/// and the quote vault's lamports for the drain guard.
#[derive(Debug, Clone, Copy, PartialEq, Eq)]
pub struct PoolRead {
    pub estimated_out: u64,
    pub quote_lamports: u64,
}

/// The pool read of an attempt from the two vault balances, each `None` when its read
/// failed. Both must be read for an estimate: otherwise it is 0 and the quote is unknown
/// (`u64::MAX`), which never trips the drain guard. A balance string that does not parse
/// counts as 1.
pub open spec fn pool_read_spec(quote: Option<Seq<char>>, base: Option<Seq<char>>, amount: u64) -> PoolRead {
    match (quote, base) {
        (Some(q), Some(b)) => PoolRead {
            estimated_out: amm_out_spec(amount, balance_or(b, 1), balance_or(q, 1)) as u64,
            quote_lamports: balance_or(q, 1),
        },
        _ => PoolRead { estimated_out: 0, quote_lamports: u64::MAX },
    }
}

/// Read the pool for an attempt, as `pool_read_spec` says.
pub fn pool_read(quote: Option<&str>, base: Option<&str>, amount: u64) -> (r: PoolRead)
    requires
        match quote {
            Some(q) => balance_or(q@, 1) as int * amount as int * 9975 <= u128::MAX,
            None => true,
        },
    ensures
        r == pool_read_spec(
            match quote {
                Some(q) => Some(q@),
                None => None,
            },
            match base {
                Some(b) => Some(b@),
                None => None,
            },
            amount,
        ),
        r.estimated_out <= r.quote_lamports,
{
    match (quote, base) {
        (Some(q), Some(b)) => {
            let qv = read_balance(q, 1);
            let bv = read_balance(b, 1);
            PoolRead { estimated_out: amm_out(amount, bv, qv), quote_lamports: qv }
        },
        _ => PoolRead { estimated_out: 0, quote_lamports: u64::MAX },
    }
}

/// The price floor an attempt puts on its swap.
#[derive(Debug, Clone, Copy, PartialEq, Eq, Structural)]
pub enum Floor {
    /// `min_out = 0`: any price, closing the position is what matters.
    Any,
    /// The estimate less the configured sell slippage.
    Normal,
    /// The estimate less twice the configured sell slippage.
    Doubled,
}

/// The floor for an attempt: none in dump mode, from the third round on, or without an
/// estimate; otherwise the configured slippage, doubled on the second round.
pub open spec fn floor_spec(dump_mode: bool, sell_round: u32, estimated_out: u64) -> Floor {
    if dump_mode || sell_round >= 2 {
        Floor::Any
    } else if estimated_out == 0 {
        Floor::Any
    } else if sell_round == 0 {
        Floor::Normal
    } else {
        Floor::Doubled
    }
}

/// Choose an attempt's floor, as `floor_spec` says.
pub fn sell_floor(dump_mode: bool, sell_round: u32, estimated_out: u64) -> (f: Floor)
    ensures
        f == floor_spec(dump_mode, sell_round, estimated_out),
{
    if dump_mode || sell_round >= 2 {
        Floor::Any
    } else if estimated_out == 0 {
        Floor::Any
    } else if sell_round == 0 {
        Floor::Normal
    } else {
        Floor::Doubled
    }
}

/// The rounds only ever loosen: each round's slippage round is at least the one before,
/// and the last two accept any price.
pub proof fn rounds_only_loosen(i: int, j: int)
    requires
        0 <= i <= j < SELL_ROUNDS,
    ensures
        round_plan_spec(i).1 <= round_plan_spec(j).1,
        j >= 2 ==> forall|dump: bool, est: u64| floor_spec(dump, round_plan_spec(j).1, est) == Floor::Any,
{
}

/// What a failing sell does next. A sell is retried through the rounds of `round_plan` in
/// order, stopping at the first success or once the balance reads as zero; a pool already
/// drained is written off and never sold into.
#[derive(Debug, Clone, Copy, PartialEq, Eq, Structural)]
pub enum RetryStep {
    /// The pool is drained: record a total loss and sell nothing.
    WriteOff,
    /// Wait `delay` seconds, then read the token balance before round `round`.
    Prepare { round: usize, delay: u64 },
    /// Sell `amount` in round `round`, at slippage round `sell_round`.
    Sell { round: usize, sell_round: u32, amount: u64 },
    /// Stop: the sell went through, or nothing is left to sell.
    Done,
    /// Every round failed: the position may be stuck.
    Exhausted,
}

/// The first step: write a drained pool off, else prepare round 0.
pub open spec fn retry_begin_spec(quote_balance: Option<Seq<char>>) -> RetryStep {
    match quote_balance {
        Some(t) => if drained(balance_or(t, u64::MAX)) {
            RetryStep::WriteOff
        } else {
            RetryStep::Prepare { round: 0, delay: round_plan_spec(0).0 }
        },
        None => RetryStep::Prepare { round: 0, delay: round_plan_spec(0).0 },
    }
}

/// Start a retried sell from the quote vault's balance string (`None` when the read
/// failed), as `retry_begin_spec` says.
pub fn retry_begin(quote_balance: Option<&str>) -> (s: RetryStep)
    ensures
        s == retry_begin_spec(
            match quote_balance {
                Some(t) => Some(t@),
                None => None,
            },
        ),
{
    if drained_before_retry(quote_balance) {
        RetryStep::WriteOff
    } else {
        RetryStep::Prepare { round: 0, delay: 0 }
    }
}

/// After the balance read before round `round`: stop when nothing is left, else sell
/// what is there (what was there before, if the read failed) at this round's slippage.
pub fn retry_balance(round: usize, current: u64, base_balance: Option<&str>) -> (s: RetryStep)
    requires
        round < SELL_ROUNDS,
    ensures
        match refreshed_amount_spec(current, match base_balance {
            Some(t) => Some(t@),
            None => None,
        }) {
            None => s == RetryStep::Done,
            Some(a) => s == (RetryStep::Sell { round, sell_round: round_plan_spec(round as int).1, amount: a }),
        },
{
    match refreshed_amount(current, base_balance) {
        None => RetryStep::Done,
        Some(a) => {
            let (_, sell_round) = round_plan(round);
            RetryStep::Sell { round, sell_round, amount: a }
        },
    }
}

/// After the attempt of round `round`: stop on success, else prepare the next round, or
/// give up after the last.
pub fn retry_outcome(round: usize, sold: bool) -> (s: RetryStep)
    requires
        round < SELL_ROUNDS,
    ensures
        s == (if sold {
            RetryStep::Done
        } else if round + 1 < SELL_ROUNDS {
            RetryStep::Prepare { round: (round + 1) as usize, delay: round_plan_spec(round + 1).0 }
        } else {
            RetryStep::Exhausted
        }),
{
    if sold {
        RetryStep::Done
    } else if round + 1 < SELL_ROUNDS {
        let (delay, _) = round_plan(round + 1);
        RetryStep::Prepare { round: round + 1, delay }
    } else {
        RetryStep::Exhausted
    }
}

/// A token account the wallet holds: the account, the mint it holds, and how much.
#[derive(Debug, Clone, Copy, PartialEq, Eq)]
pub struct Holding {
    pub account: Key,
    pub mint: Key,
    pub amount: u64,
}

/// Whether a list of keys holds `k`.
pub open spec fn has_key(s: Seq<Key>, k: Key) -> bool {
    exists|i: int| 0 <= i < s.len() && s[i]@ == k@
}

/// Whether no key occurs twice.
pub open spec fn distinct_keys(s: Seq<Key>) -> bool {
    forall|i: int, j: int| 0 <= i < j < s.len() ==> s[i]@ != s[j]@
}

/// Whether a holding is a position to watch at startup: a positive balance, a mint that
/// is not the quote mint, WSOL or the project's own (`skip`), not known to have no pool,
/// and not already under a sell monitor.
pub open spec fn to_monitor(h: Holding, skip: Seq<Key>, no_pool: Seq<Key>, monitored: Seq<Key>) -> bool {
    h.amount > 0 && !has_key(skip, h.mint) && !has_key(no_pool, h.mint) && !has_key(monitored, h.mint)
}

/// The mints to look up a pool for and watch, in the order their accounts come, each once.
pub open spec fn monitor_spec(hs: Seq<Holding>, skip: Seq<Key>, no_pool: Seq<Key>, monitored: Seq<Key>) -> Seq<Key>
    decreases hs.len(),
{
    if hs.len() == 0 {
        Seq::empty()
    } else {
        let prev = monitor_spec(hs.drop_last(), skip, no_pool, monitored);
        let h = hs.last();
        if to_monitor(h, skip, no_pool, monitored) && !has_key(prev, h.mint) {
            prev.push(h.mint)
        } else {
            prev
        }
    }
}

/// The watch list holds exactly the mints of the holdings to watch, each once.
proof fn monitor_spec_props(hs: Seq<Holding>, skip: Seq<Key>, no_pool: Seq<Key>, monitored: Seq<Key>)
    ensures
        distinct_keys(monitor_spec(hs, skip, no_pool, monitored)),
        forall|k: Key| #[trigger] has_key(monitor_spec(hs, skip, no_pool, monitored), k) <==> exists|i: int|
            0 <= i < hs.len() && hs[i].mint@ == k@ && to_monitor(hs[i], skip, no_pool, monitored),
    decreases hs.len(),
{
    if hs.len() > 0 {
        let d = hs.drop_last();
        let prev = monitor_spec(d, skip, no_pool, monitored);
        let h = hs.last();
        let r = monitor_spec(hs, skip, no_pool, monitored);
        monitor_spec_props(d, skip, no_pool, monitored);
        assert forall|k: Key| #[trigger] has_key(r, k) <==> exists|i: int|
            0 <= i < hs.len() && hs[i].mint@ == k@ && to_monitor(hs[i], skip, no_pool, monitored) by {
            if has_key(r, k) {
                let j = choose|j: int| 0 <= j < r.len() && r[j]@ == k@;
                if j < prev.len() {
                    assert(has_key(prev, k));
                    let i = choose|i: int| 0 <= i < d.len() && d[i].mint@ == k@ && to_monitor(d[i], skip, no_pool, monitored);
                    assert(hs[i] == d[i]);
                } else {
                    assert(hs[hs.len() - 1] == h);
                }
            }
            if exists|i: int| 0 <= i < hs.len() && hs[i].mint@ == k@ && to_monitor(hs[i], skip, no_pool, monitored) {
                let i = choose|i: int| 0 <= i < hs.len() && hs[i].mint@ == k@ && to_monitor(hs[i], skip, no_pool, monitored);
                if i < d.len() {
                    assert(d[i] == hs[i]);
                    assert(has_key(prev, k));
                    let j = choose|j: int| 0 <= j < prev.len() && prev[j]@ == k@;
                    assert(r[j] == prev[j]);
                } else {
                    if has_key(prev, h.mint) {
                        let j = choose|j: int| 0 <= j < prev.len() && prev[j]@ == h.mint@;
                        assert(r[j] == prev[j]);
                    } else {
                        assert(r[prev.len() as int] == h.mint);
                    }
                }
            }
        }
        assert forall|i: int, j: int| 0 <= i < j < r.len() implies r[i]@ != r[j]@ by {
            if j == prev.len() as int && r.len() > prev.len() {
                assert(r[i] == prev[i]);
                assert(r[j] == h.mint);
                if r[i]@ == r[j]@ {
                    assert(has_key(prev, h.mint));
                }
            } else {
                assert(r[i] == prev[i] && r[j] == prev[j]);
            }
        }
    }
}

/// Whether `s` holds `k`.
fn key_in(s: &[Key], k: &Key) -> (b: bool)
    ensures
        b == has_key(s@, *k),
{
    let mut i: usize = 0;
    while i < s.len()
        invariant
            i <= s@.len(),
            forall|j: int| 0 <= j < i ==> s@[j]@ != k@,
        decreases s@.len() - i,
    {
        if same_key(&s[i], k) {
            return true;
        }
        i = i + 1;
    }
    false
}

/// The mints a startup scan looks up a pool for and watches: those of the holdings with a
/// positive balance whose mint is not skipped (the quote mint, WSOL, the project's own),
/// not known to have no pool and not already watched; each mint once, in the order its
/// first account comes.
pub fn mints_to_monitor(holdings: &[Holding], skip: &[Key], no_pool: &[Key], monitored: &[Key]) -> (r: Vec<Key>)
    ensures
        r@ == monitor_spec(holdings@, skip@, no_pool@, monitored@),
        forall|k: Key| #[trigger] has_key(r@, k) <==> exists|i: int|
            0 <= i < holdings@.len() && holdings@[i].mint@ == k@ && holdings@[i].amount > 0 && !has_key(skip@, k)
                && !has_key(no_pool@, k) && !has_key(monitored@, k),
        distinct_keys(r@),
{
    let mut r: Vec<Key> = Vec::new();
    let mut i: usize = 0;
    while i < holdings.len()
        invariant
            i <= holdings@.len(),
            r@ == monitor_spec(holdings@.take(i as int), skip@, no_pool@, monitored@),
        decreases holdings@.len() - i,
    {
        assert(holdings@.take(i as int + 1).drop_last() =~= holdings@.take(i as int));
        let h = holdings[i];
        if h.amount > 0 && !key_in(skip, &h.mint) && !key_in(no_pool, &h.mint) && !key_in(monitored, &h.mint)
            && !key_in(r.as_slice(), &h.mint) {
            r.push(h.mint);
        }
        i = i + 1;
    }
    assert(holdings@.take(holdings@.len() as int) =~= holdings@);
    proof {
        monitor_spec_props(holdings@, skip@, no_pool@, monitored@);
        assert forall|k: Key| #[trigger] has_key(r@, k) <==> exists|i: int|
            0 <= i < holdings@.len() && holdings@[i].mint@ == k@ && holdings@[i].amount > 0 && !has_key(skip@, k)
                && !has_key(no_pool@, k) && !has_key(monitored@, k) by {
            if exists|i: int| 0 <= i < holdings@.len() && holdings@[i].mint@ == k@ && holdings@[i].amount > 0 && !has_key(skip@, k)
                && !has_key(no_pool@, k) && !has_key(monitored@, k) {
                let i = choose|i: int| 0 <= i < holdings@.len() && holdings@[i].mint@ == k@ && holdings@[i].amount > 0 && !has_key(skip@, k)
                    && !has_key(no_pool@, k) && !has_key(monitored@, k);
                assert(to_monitor(holdings@[i], skip@, no_pool@, monitored@));
            }
            if has_key(r@, k) {
                let i = choose|i: int| 0 <= i < holdings@.len() && holdings@[i].mint@ == k@ && to_monitor(holdings@[i], skip@, no_pool@, monitored@);
                assert(!has_key(skip@, holdings@[i].mint) ==> !has_key(skip@, k));
                assert(!has_key(no_pool@, holdings@[i].mint) ==> !has_key(no_pool@, k));
                assert(!has_key(monitored@, holdings@[i].mint) ==> !has_key(monitored@, k));
            }
        }
    }
    r
}

/// The accounts a dump force-sells, in the order they come: every one with a positive
/// balance whose mint is not skipped (the quote mint, WSOL, the project's own). Each
/// account is sold on its own, so a mint held in two accounts is sold from both.
pub open spec fn dump_spec(hs: Seq<Holding>, skip: Seq<Key>) -> Seq<Key>
    decreases hs.len(),
{
    if hs.len() == 0 {
        Seq::empty()
    } else {
        let prev = dump_spec(hs.drop_last(), skip);
        let h = hs.last();
        if h.amount > 0 && !has_key(skip, h.mint) { prev.push(h.account) } else { prev }
    }
}

/// The accounts a dump force-sells, as `dump_spec` says.
pub fn dump_targets(holdings: &[Holding], skip: &[Key]) -> (r: Vec<Key>)
    ensures
        r@ == dump_spec(holdings@, skip@),
{
    let mut r: Vec<Key> = Vec::new();
    let mut i: usize = 0;
    while i < holdings.len()
        invariant
            i <= holdings@.len(),
            r@ == dump_spec(holdings@.take(i as int), skip@),
        decreases holdings@.len() - i,
    {
        assert(holdings@.take(i as int + 1).drop_last() =~= holdings@.take(i as int));
        let h = holdings[i];
        if h.amount > 0 && !key_in(skip, &h.mint) {
            r.push(h.account);
        }
        i = i + 1;
    }
    assert(holdings@.take(holdings@.len() as int) =~= holdings@);
    r
}

/// What a startup scan does with a watched mint once its pool is looked up.
#[derive(Debug, Clone, Copy, PartialEq, Eq, Structural)]
pub enum PoolStep {
    /// No pool: the mint can never be sold; remember it so later scans skip it.
    Blacklist,
    /// A pool quoted in our quote mint: start a sell monitor.
    Monitor,
    /// A pool quoted in something else: leave it.
    Skip,
}

/// Decide on a watched mint from its pool's quote mint (`None` when no pool was found).
pub fn pool_step(pool_quote: Option<Key>, quote: Key) -> (s: PoolStep)
    ensures
        s == (match pool_quote {
            None => PoolStep::Blacklist,
            Some(q) => if q@ == quote@ { PoolStep::Monitor } else { PoolStep::Skip },
        }),
{
    match pool_quote {
        None => PoolStep::Blacklist,
        Some(q) => if same_key(&q, &quote) { PoolStep::Monitor } else { PoolStep::Skip },
    }
}

/// How many closed trades the strategy history keeps.
pub const HISTORY_LEN: usize = 20;

/// A losing trade at least this deep, in lamports, marks its mint as a rug to blacklist.
pub const RUG_LOSS_LAMPORTS: i64 = -1_000_000;

/// The session-heat settings: `losses` losses within `window_secs` pause buying for
/// `cooldown_mins`. Either count at zero switches the check off.
#[derive(Debug, Clone, Copy, PartialEq, Eq, Structural)]
pub struct HeatLimits {
    pub losses: u32,
    pub window_secs: u64,
    pub cooldown_mins: u32,
}

/// What the sniper remembers of its closed trades: the recent history (whether each was
/// profitable, and its result in lamports), the current losing streak, the times of the
/// recent losses, when the heat pause ends (unix milliseconds) and the day's result.
#[derive(Debug, Clone)]
pub struct LossBook {
    pub history: Vec<(bool, i64)>,
    pub consecutive_losses: u32,
    pub heat: Vec<u64>,
    pub cooldown_until_ms: u64,
    pub daily_pnl_lamports: i64,
}

/// The history after one more trade: appended, and the oldest dropped once it is longer
/// than `HISTORY_LEN`.
pub open spec fn history_after(h: Seq<(bool, i64)>, e: (bool, i64)) -> Seq<(bool, i64)> {
    let p = h.push(e);
    if p.len() > HISTORY_LEN {
        p.drop_first()
    } else {
        p
    }
}

/// Whether a loss at time `t` is still inside the window at time `now` (a time after
/// `now` counts as just now).
pub open spec fn recent(t: u64, now: u64, window: u64) -> bool {
    (if now >= t { now - t } else { 0 }) < window
}

/// The loss times still inside the window, in their order.
pub open spec fn keep_recent(s: Seq<u64>, now: u64, window: u64) -> Seq<u64>
    decreases s.len(),
{
    if s.len() == 0 {
        Seq::empty()
    } else {
        let p = keep_recent(s.drop_last(), now, window);
        if recent(s.last(), now, window) {
            p.push(s.last())
        } else {
            p
        }
    }
}

/// Whether the session-heat check is on.
pub open spec fn heat_active(l: HeatLimits) -> bool {
    l.losses > 0 && l.window_secs > 0
}

/// The loss times after a trade closed at `now`: a loss is added and the old ones
/// pruned, while the check is on; otherwise nothing changes.
pub open spec fn heat_after(heat: Seq<u64>, profitable: bool, now: u64, l: HeatLimits) -> Seq<u64> {
    if profitable || !heat_active(l) {
        heat
    } else {
        keep_recent(heat.push(now), now, l.window_secs)
    }
}

/// The end of a heat pause that starts at `now`, in unix milliseconds.
pub open spec fn cooldown_end(now: u64, l: HeatLimits) -> int {
    (now + l.cooldown_mins * 60) * 1000
}

/// Whether a trade closed at `now` starts a heat pause.
pub open spec fn heat_trips(heat: Seq<u64>, profitable: bool, now: u64, l: HeatLimits) -> bool {
    !profitable && heat_active(l) && heat_after(heat, profitable, now, l).len() >= l.losses
}

/// Every time in `keep_recent` is recent, and it keeps no more than it was given.
proof fn keep_recent_props(s: Seq<u64>, now: u64, window: u64)
    ensures
        keep_recent(s, now, window).len() <= s.len(),
        forall|i: int| 0 <= i < keep_recent(s, now, window).len()
            ==> recent(#[trigger] keep_recent(s, now, window)[i], now, window),
    decreases s.len(),
{
    if s.len() > 0 {
        keep_recent_props(s.drop_last(), now, window);
    }
}

impl LossBook {
    /// A book with no trades in it.
    pub fn new() -> (b: LossBook)
        ensures
            b.history@ == Seq::<(bool, i64)>::empty(),
            b.consecutive_losses == 0,
            b.heat@ == Seq::<u64>::empty(),
            b.cooldown_until_ms == 0,
            b.daily_pnl_lamports == 0,
    {
        LossBook {
            history: Vec::new(),
            consecutive_losses: 0,
            heat: Vec::new(),
            cooldown_until_ms: 0,
            daily_pnl_lamports: 0,
        }
    }

    /// Record a closed trade that ended at `now_secs` (unix seconds): push it to the
    /// history, reset the losing streak on a profit or lengthen it on a loss (the counter
    /// wraps, as an atomic add does), add a loss to the heat window and start the pause
    /// once the window holds `limits.losses` of them, and add the result to the day's.
    /// Returns whether the mint is to be blacklisted as a rug.
    pub fn record_outcome(&mut self, profitable: bool, pnl_lamports: i64, now_secs: u64, limits: HeatLimits) -> (blacklist: bool)
        requires
            i64::MIN <= old(self).daily_pnl_lamports + pnl_lamports <= i64::MAX,
            heat_trips(old(self).heat@, profitable, now_secs, limits) ==> cooldown_end(now_secs, limits) <= u64::MAX,
        ensures
            blacklist == (!profitable && pnl_lamports <= RUG_LOSS_LAMPORTS),
            final(self).history@ == history_after(old(self).history@, (profitable, pnl_lamports)),
            old(self).history@.len() <= HISTORY_LEN ==> final(self).history@.len() <= HISTORY_LEN,
            final(self).consecutive_losses == (if profitable {
                0
            } else if old(self).consecutive_losses == u32::MAX {
                0
            } else {
                old(self).consecutive_losses + 1
            }),
            final(self).heat@ == heat_after(old(self).heat@, profitable, now_secs, limits),
            forall|i: int| 0 <= i < final(self).heat@.len() && !profitable && heat_active(limits)
                ==> recent(#[trigger] final(self).heat@[i], now_secs, limits.window_secs),
            final(self).cooldown_until_ms == (if heat_trips(old(self).heat@, profitable, now_secs, limits) {
                cooldown_end(now_secs, limits)
            } else {
                old(self).cooldown_until_ms as int
            }),
            final(self).daily_pnl_lamports == old(self).daily_pnl_lamports + pnl_lamports,
    {
        let blacklist = !profitable && pnl_lamports <= RUG_LOSS_LAMPORTS;
        self.history.push((profitable, pnl_lamports));
        if self.history.len() > HISTORY_LEN {
            self.history.remove(0);
        }
        proof {
            let p = old(self).history@.push((profitable, pnl_lamports));
            if p.len() > HISTORY_LEN {
                assert(self.history@ =~= p.drop_first());
            }
        }
        self.daily_pnl_lamports = self.daily_pnl_lamports + pnl_lamports;
        if profitable {
            self.consecutive_losses = 0;
        } else {
            if self.consecutive_losses == u32::MAX {
                self.consecutive_losses = 0;
            } else {
                self.consecutive_losses = self.consecutive_losses + 1;
            }
            if limits.losses > 0 && limits.window_secs > 0 {
                let mut all: Vec<u64> = Vec::new();
                std::mem::swap(&mut all, &mut self.heat);
                all.push(now_secs);
                let mut kept: Vec<u64> = Vec::new();
                let mut i: usize = 0;
                while i < all.len()
                    invariant
                        i <= all@.len(),
                        all@ == old(self).heat@.push(now_secs),
                        kept@ == keep_recent(all@.take(i as int), now_secs, limits.window_secs),
                    decreases all@.len() - i,
                {
                    let t = all[i];
                    proof {
                        assert(all@.take(i + 1).drop_last() =~= all@.take(i as int));
                        assert(all@.take(i + 1).last() == t);
                    }
                    if now_secs.saturating_sub(t) < limits.window_secs {
                        kept.push(t);
                    }
                    i = i + 1;
                }
                assert(all@.take(all@.len() as int) =~= all@);
                if kept.len() >= limits.losses as usize {
                    let cooldown_secs: u64 = limits.cooldown_mins as u64 * 60;
                    self.cooldown_until_ms = (now_secs + cooldown_secs) * 1000;
                }
                self.heat = kept;
            }
        }
        proof {
            if !profitable && heat_active(limits) {
                keep_recent_props(old(self).heat@.push(now_secs), now_secs, limits.window_secs);
            }
        }
        blacklist
    }

    /// Whether buying is paused at `now_ms` (unix milliseconds): the heat check is on and
    /// its pause has not ended.
    pub fn cooling_down(&self, heat_losses: u32, now_ms: u64) -> (b: bool)
        ensures
            b == (heat_losses > 0 && self.cooldown_until_ms > now_ms),
    {
        heat_losses > 0 && self.cooldown_until_ms > now_ms
    }
}

/// What a watched position does about the operator modes on one check.
#[derive(Debug, Clone, Copy, PartialEq, Eq, Structural)]
pub enum ModeCheck {
    /// Neither mode is on: keep watching.
    Continue,
    /// Dump mode alone is on but the position is younger than the minimum dump hold: let
    /// take-profit and stop-loss have it for now.
    Hold,
    /// Sell now.
    ForceSell,
}

/// The decision, as `mode_check` says.
pub open spec fn mode_check_spec(sell_mode: bool, dump_mode: bool, min_dump_hold_secs: u64, age_secs: u64) -> ModeCheck {
    if !sell_mode && !dump_mode {
        ModeCheck::Continue
    } else if dump_mode && !sell_mode && min_dump_hold_secs > 0 && age_secs < min_dump_hold_secs {
        ModeCheck::Hold
    } else {
        ModeCheck::ForceSell
    }
}

/// Sell or dump mode switched on while a position is watched: sell mode sells at once;
/// dump mode alone waits until the position is `min_dump_hold_secs` old (zero: no wait).
pub fn mode_check(sell_mode: bool, dump_mode: bool, min_dump_hold_secs: u64, age_secs: u64) -> (c: ModeCheck)
    ensures
        c == mode_check_spec(sell_mode, dump_mode, min_dump_hold_secs, age_secs),
{
    if !sell_mode && !dump_mode {
        ModeCheck::Continue
    } else if dump_mode && !sell_mode && min_dump_hold_secs > 0 && age_secs < min_dump_hold_secs {
        ModeCheck::Hold
    } else {
        ModeCheck::ForceSell
    }
}

/// Whether a position has reached the hold cap (`max_hold_mins` whole minutes, zero for
/// no cap) and is to be sold to free the capital.
pub fn hold_capped(max_hold_mins: u32, age_secs: u64) -> (b: bool)
    ensures
        b == (max_hold_mins > 0 && age_secs / 60 >= max_hold_mins),
{
    max_hold_mins > 0 && age_secs / 60 >= max_hold_mins as u64
}

/// The least a sell attempt accepts.
#[derive(Debug, Clone, Copy, PartialEq, Eq, Structural)]
pub enum MinOut {
    /// The amount the caller fixed.
    Forced(u64),
    /// The quoted output less the configured sell slippage.
    ConfiguredSlippage,
    /// The quoted output less 95%.
    NinetyFivePercent,
    /// A single lamport: any return closes the position.
    OneLamport,
}

/// The minimum output of attempt `attempt`, as `attempt_min_out` says.
pub open spec fn attempt_min_out_spec(attempt: u32, forced: Option<u64>) -> MinOut {
    match forced {
        Some(m) => MinOut::Forced(m),
        None => if attempt == 0 {
            MinOut::ConfiguredSlippage
        } else if attempt == 1 {
            MinOut::NinetyFivePercent
        } else {
            MinOut::OneLamport
        },
    }
}

/// The ladder a closing sell climbs: a forced minimum holds on every attempt; otherwise
/// the first attempt allows the configured slippage, the second 95%, and every later one
/// takes a single lamport.
pub fn attempt_min_out(attempt: u32, forced: Option<u64>) -> (m: MinOut)
    ensures
        m == attempt_min_out_spec(attempt, forced),
{
    match forced {
        Some(m) => MinOut::Forced(m),
        None => if attempt == 0 {
            MinOut::ConfiguredSlippage
        } else if attempt == 1 {
            MinOut::NinetyFivePercent
        } else {
            MinOut::OneLamport
        },
    }
}

/// How many attempts a closing sell gets: the configured count, but never fewer than three.
pub fn attempt_count(max_sell_retries: u32) -> (n: u32)
    ensures
        n == (if max_sell_retries < 3 { 3 } else { max_sell_retries }),
{
    if max_sell_retries < 3 { 3 } else { max_sell_retries }
}

/// Without a forced minimum, the ladder ends at a single lamport: with at least three
/// attempts, the last accepts any return.
pub proof fn the_ladder_always_reaches_any_return(max_sell_retries: u32)
    ensures
        attempt_min_out_spec(
            ((if max_sell_retries < 3 { 3 } else { max_sell_retries }) - 1) as u32,
            None,
        ) == MinOut::OneLamport,
{
}

} // verus!

