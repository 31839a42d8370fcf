use scematica::amm::amm_out;
use scematica::sell::{attempt_count, attempt_min_out, hold_capped, mode_check, MinOut, ModeCheck};
use scematica::sell::{
    drained_before_retry, dump_targets, mints_to_monitor, pool_read, pool_step, refreshed_amount, retry_balance,
    retry_begin, retry_outcome, round_plan, sell_floor, Floor, HeatLimits, Holding, LossBook, PoolRead, PoolStep, RetryStep,
    DRAIN_THRESHOLD_LAMPORTS, HISTORY_LEN, SELL_ROUNDS,
};

#[test]
fn the_rounds_front_load_and_then_drop_the_floor() {
    let plan: Vec<(u64, u32)> = (0..SELL_ROUNDS).map(round_plan).collect();
    assert_eq!(plan, vec![(0, 0), (0, 1), (1, 2), (2, 2)]);
}

#[test]
fn a_drained_pool_is_written_off_before_retrying() {
    assert!(drained_before_retry(Some("499999")));
    assert!(!drained_before_retry(Some("500000")));
    // No reading, or one that does not parse, is no evidence of a drain.
    assert!(!drained_before_retry(None));
    assert!(!drained_before_retry(Some("n/a")));
    assert_eq!(DRAIN_THRESHOLD_LAMPORTS, 500_000);
}

#[test]
fn a_fully_sold_token_stops_the_rounds() {
    assert_eq!(refreshed_amount(1000, Some("0")), None);
    assert_eq!(refreshed_amount(1000, Some("garbage")), None);
    assert_eq!(refreshed_amount(1000, Some("400")), Some(400));
    assert_eq!(refreshed_amount(1000, None), Some(1000));
}

#[test]
fn the_pool_read_needs_both_vaults() {
    assert_eq!(
        pool_read(Some("1000000"), Some("5000"), 100),
        PoolRead { estimated_out: amm_out(100, 5000, 1_000_000), quote_lamports: 1_000_000 }
    );
    assert_eq!(pool_read(None, Some("5000"), 100), PoolRead { estimated_out: 0, quote_lamports: u64::MAX });
    assert_eq!(pool_read(Some("1000000"), None, 100), PoolRead { estimated_out: 0, quote_lamports: u64::MAX });
    // An unreadable quote balance counts as one lamport: drained.
    assert_eq!(pool_read(Some("?"), Some("5000"), 100).quote_lamports, 1);
}

#[test]
fn the_floor_loosens_by_round() {
    assert_eq!(sell_floor(false, 0, 10), Floor::Normal);
    assert_eq!(sell_floor(false, 1, 10), Floor::Doubled);
    assert_eq!(sell_floor(false, 2, 10), Floor::Any);
    assert_eq!(sell_floor(true, 0, 10), Floor::Any);
    assert_eq!(sell_floor(false, 0, 0), Floor::Any);
}

fn k(b: u8) -> [u8; 32] {
    [b; 32]
}

fn hold(account: u8, mint: u8, amount: u64) -> Holding {
    Holding { account: k(account), mint: k(mint), amount }
}

#[test]
fn a_startup_scan_watches_each_sellable_mint_once() {
    let hs = [hold(1, 10, 5), hold(2, 11, 0), hold(3, 12, 7), hold(4, 10, 9), hold(5, 13, 1), hold(6, 14, 2), hold(7, 15, 3)];
    // 12 is the quote mint, 13 has no pool, 14 is already watched.
    let r = mints_to_monitor(&hs, &[k(12)], &[k(13)], &[k(14)]);
    assert_eq!(r, vec![k(10), k(15)]);
}

#[test]
fn a_dump_sells_every_account_with_a_balance() {
    let hs = [hold(1, 10, 5), hold(2, 11, 0), hold(3, 12, 7), hold(4, 10, 9)];
    assert_eq!(dump_targets(&hs, &[k(12)]), vec![k(1), k(4)]);
}

#[test]
fn a_pool_decides_the_watched_mint() {
    assert_eq!(pool_step(None, k(1)), PoolStep::Blacklist);
    assert_eq!(pool_step(Some(k(1)), k(1)), PoolStep::Monitor);
    assert_eq!(pool_step(Some(k(2)), k(1)), PoolStep::Skip);
}

#[test]
fn a_retried_sell_runs_the_rounds_in_order() {
    assert_eq!(retry_begin(Some("100")), RetryStep::WriteOff);
    assert_eq!(retry_begin(None), RetryStep::Prepare { round: 0, delay: 0 });
    assert_eq!(retry_balance(0, 50, Some("40")), RetryStep::Sell { round: 0, sell_round: 0, amount: 40 });
    assert_eq!(retry_balance(1, 50, None), RetryStep::Sell { round: 1, sell_round: 1, amount: 50 });
    assert_eq!(retry_balance(2, 50, Some("0")), RetryStep::Done);
    assert_eq!(retry_outcome(0, false), RetryStep::Prepare { round: 1, delay: 0 });
    assert_eq!(retry_outcome(1, false), RetryStep::Prepare { round: 2, delay: 1 });
    assert_eq!(retry_outcome(2, false), RetryStep::Prepare { round: 3, delay: 2 });
    assert_eq!(retry_outcome(3, false), RetryStep::Exhausted);
    assert_eq!(retry_outcome(1, true), RetryStep::Done);
}

const HEAT: HeatLimits = HeatLimits { losses: 3, window_secs: 600, cooldown_mins: 30 };

#[test]
fn a_deep_loss_blacklists_the_mint() {
    let mut book = LossBook::new();
    assert!(!book.record_outcome(false, -999_999, 1_000, HEAT));
    assert!(book.record_outcome(false, -1_000_000, 1_001, HEAT));
    // A trade flagged profitable is never a rug, whatever its number says.
    assert!(!book.record_outcome(true, -5_000_000, 1_002, HEAT));
    assert_eq!(book.daily_pnl_lamports, -6_999_999);
}

#[test]
fn a_profit_resets_the_losing_streak() {
    let mut book = LossBook::new();
    book.record_outcome(false, -10, 1_000, HEAT);
    book.record_outcome(false, -10, 1_001, HEAT);
    assert_eq!(book.consecutive_losses, 2);
    book.record_outcome(true, 25, 1_002, HEAT);
    assert_eq!(book.consecutive_losses, 0);
    assert_eq!(book.daily_pnl_lamports, 5);
}

#[test]
fn the_history_keeps_the_last_twenty_trades() {
    let mut book = LossBook::new();
    for k in 0..21i64 {
        book.record_outcome(true, k, 1_000, HEAT);
    }
    assert_eq!(book.history.len(), HISTORY_LEN);
    assert_eq!(book.history[0], (true, 1));
    assert_eq!(book.history[19], (true, 20));
}

#[test]
fn three_losses_in_the_window_start_the_pause() {
    let mut book = LossBook::new();
    book.record_outcome(false, -10, 1_000, HEAT);
    book.record_outcome(false, -10, 1_100, HEAT);
    assert_eq!(book.cooldown_until_ms, 0);
    assert!(!book.cooling_down(HEAT.losses, 1_200_000));
    book.record_outcome(false, -10, 1_200, HEAT);
    assert_eq!(book.heat, vec![1_000, 1_100, 1_200]);
    assert_eq!(book.cooldown_until_ms, (1_200 + 30 * 60) * 1_000);
    assert!(book.cooling_down(HEAT.losses, 1_200_000));
    assert!(!book.cooling_down(HEAT.losses, 3_000_000));
    assert!(!book.cooling_down(0, 1_200_000));
}

#[test]
fn old_losses_leave_the_heat_window() {
    let mut book = LossBook::new();
    book.record_outcome(false, -10, 1_000, HEAT);
    book.record_outcome(false, -10, 1_599, HEAT);
    assert_eq!(book.heat, vec![1_000, 1_599]);
    book.record_outcome(false, -10, 1_600, HEAT);
    assert_eq!(book.heat, vec![1_599, 1_600]);
    assert_eq!(book.cooldown_until_ms, 0);
    // A profit leaves the window alone.
    book.record_outcome(true, 10, 1_601, HEAT);
    assert_eq!(book.heat, vec![1_599, 1_600]);
}

#[test]
fn the_heat_check_off_keeps_no_loss_times() {
    let mut book = LossBook::new();
    let off = HeatLimits { losses: 0, window_secs: 600, cooldown_mins: 30 };
    for t in 0..5u64 {
        book.record_outcome(false, -10, 1_000 + t, off);
    }
    assert!(book.heat.is_empty());
    assert_eq!(book.cooldown_until_ms, 0);
    assert_eq!(book.consecutive_losses, 5);
}

#[test]
fn dump_mode_waits_for_the_minimum_hold() {
    assert_eq!(mode_check(false, false, 120, 5), ModeCheck::Continue);
    assert_eq!(mode_check(false, true, 120, 119), ModeCheck::Hold);
    assert_eq!(mode_check(false, true, 120, 120), ModeCheck::ForceSell);
    assert_eq!(mode_check(false, true, 0, 1), ModeCheck::ForceSell);
    // Sell mode never waits, with or without dump mode.
    assert_eq!(mode_check(true, false, 120, 1), ModeCheck::ForceSell);
    assert_eq!(mode_check(true, true, 120, 1), ModeCheck::ForceSell);
}

#[test]
fn the_hold_cap_counts_whole_minutes() {
    assert!(!hold_capped(0, 1_000_000));
    assert!(!hold_capped(10, 599));
    assert!(hold_capped(10, 600));
}

#[test]
fn the_closing_ladder_ends_at_one_lamport() {
    assert_eq!(attempt_min_out(0, None), MinOut::ConfiguredSlippage);
    assert_eq!(attempt_min_out(1, None), MinOut::NinetyFivePercent);
    assert_eq!(attempt_min_out(2, None), MinOut::OneLamport);
    assert_eq!(attempt_min_out(7, None), MinOut::OneLamport);
    assert_eq!(attempt_min_out(0, Some(500)), MinOut::Forced(500));
    assert_eq!(attempt_min_out(5, Some(500)), MinOut::Forced(500));
    assert_eq!(attempt_count(0), 3);
    assert_eq!(attempt_count(2), 3);
    assert_eq!(attempt_count(6), 6);
}
