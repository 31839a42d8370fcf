use scematica::amm::{amm_out, estimate_sell_out};
use scematica::escrow::{
    escrow, file_challenge, finalize_timeout, mark_provisional, resolve, settle, BondState, BondTerms, EscrowError,
    Payee, Payout, SlashRouting,
};
use scematica::swap::{profit_or_revert, start_swap, ScematicaError};
use scematica::vault::{
    check_deposit, extend_lock, initialize_vault, record_deposit, withdraw, VaultError, MAX_LOCK_SECS, MIN_LOCK_SECS,
    POSITION_LEN, VAULT_LEN,
};

fn k(b: u8) -> [u8; 32] {
    [b; 32]
}

fn terms() -> BondTerms {
    BondTerms {
        agent: k(1),
        digest: k(9),
        bond_amount: 1_000,
        min_out_raw: 5,
        deadline_unix: 10_000,
        dispute_window_secs: 600,
        resolve_grace_secs: 300,
        routing: SlashRouting { to_caller_bps: 5_000, to_challengers_bps: 3_000, to_insurance_bps: 1_500, to_lineage_bps: 500 },
        authority: k(2),
        caller: k(3),
        insurance: k(4),
        lineage: k(5),
    }
}

#[test]
fn the_split_always_disburses_the_whole_bond() {
    let r = SlashRouting { to_caller_bps: 3_333, to_challengers_bps: 3_333, to_insurance_bps: 3_333, to_lineage_bps: 1 };
    assert!(r.is_valid());
    let s = r.distribute(1_001);
    assert_eq!(s.challengers, 333);
    assert_eq!(s.insurance, 333);
    assert_eq!(s.lineage, 0);
    assert_eq!(s.caller + s.challengers + s.insurance + s.lineage, 1_001);
    assert!(!SlashRouting { to_caller_bps: 1, ..r }.is_valid());
}

#[test]
fn opening_refuses_unbounded_or_unnamed_bonds() {
    assert!(escrow(&terms()).is_ok());
    assert_eq!(escrow(&BondTerms { bond_amount: 0, ..terms() }).unwrap_err(), EscrowError::ZeroBond);
    assert_eq!(escrow(&BondTerms { deadline_unix: 0, ..terms() }).unwrap_err(), EscrowError::UnboundedDeadline);
    assert_eq!(escrow(&BondTerms { caller: [0; 32], ..terms() }).unwrap_err(), EscrowError::UnnamedDestination);
    assert_eq!(escrow(&BondTerms { insurance: [0; 32], ..terms() }).unwrap_err(), EscrowError::UnnamedDestination);
    let bad = SlashRouting { to_caller_bps: 1, ..terms().routing };
    assert_eq!(escrow(&BondTerms { routing: bad, ..terms() }).unwrap_err(), EscrowError::InvalidRouting);
}

#[test]
fn an_unchallenged_dishonour_is_slashed_when_the_window_closes() {
    let mut e = escrow(&terms()).unwrap();
    assert_eq!(mark_provisional(&mut e, &k(9), false, 100), Err(EscrowError::Unauthorized));
    assert_eq!(mark_provisional(&mut e, &k(2), false, 100), Ok(()));
    assert_eq!(e.window_closes_unix, 700);
    assert_eq!(file_challenge(&mut e, &k(6), 50, 200), Err(EscrowError::NothingToChallenge));
    assert_eq!(finalize_timeout(&mut e, 699), Err(EscrowError::WindowOpen));
    assert_eq!(finalize_timeout(&mut e, 700), Ok(()));
    assert_eq!(e.state, BondState::Finalized);
    assert!(e.final_slashed);
    let pays = settle(&e).unwrap();
    assert_eq!(
        pays,
        vec![
            Payout { to: Payee::Caller, amount: 500 },
            Payout { to: Payee::Insurance, amount: 150 },
            Payout { to: Payee::Lineage, amount: 50 },
            Payout { to: Payee::Caller, amount: 300 },
        ]
    );
}

#[test]
fn a_won_challenge_pays_the_challenger_its_stake_and_slice() {
    let mut e = escrow(&terms()).unwrap();
    mark_provisional(&mut e, &k(2), true, 100).unwrap();
    assert_eq!(file_challenge(&mut e, &k(6), 0, 200), Err(EscrowError::ZeroStake));
    file_challenge(&mut e, &k(6), 40, 200).unwrap();
    assert_eq!(file_challenge(&mut e, &k(7), 40, 201), Err(EscrowError::BadState), "one challenger");
    resolve(&mut e, &k(2), true).unwrap();
    let pays = settle(&e).unwrap();
    let total: u64 = pays.iter().map(|p| p.amount).sum();
    assert_eq!(total, 1_040);
    assert!(pays.contains(&Payout { to: Payee::Challenger, amount: 340 }));
}

#[test]
fn an_unanswered_dispute_resolves_against_the_agent() {
    let mut e = escrow(&terms()).unwrap();
    mark_provisional(&mut e, &k(2), true, 100).unwrap();
    file_challenge(&mut e, &k(6), 40, 200).unwrap();
    assert_eq!(finalize_timeout(&mut e, 999), Err(EscrowError::WindowOpen));
    finalize_timeout(&mut e, 1_000).unwrap();
    assert!(e.final_slashed);
    assert_eq!(settle(&e).unwrap().iter().map(|p| p.amount).sum::<u64>(), 1_040);
}

#[test]
fn an_honoured_bond_returns_bond_and_forfeited_stake() {
    let mut e = escrow(&terms()).unwrap();
    assert_eq!(settle(&e), Err(EscrowError::BadState));
    mark_provisional(&mut e, &k(2), true, 100).unwrap();
    file_challenge(&mut e, &k(6), 40, 200).unwrap();
    resolve(&mut e, &k(2), false).unwrap();
    assert_eq!(settle(&e).unwrap(), vec![Payout { to: Payee::Agent, amount: 1_040 }]);
    assert_eq!(finalize_timeout(&mut e, 50_000), Err(EscrowError::BadState));
}

#[test]
fn an_unfilled_bond_is_slashed_after_its_deadline() {
    let mut e = escrow(&terms()).unwrap();
    assert_eq!(finalize_timeout(&mut e, 9_999), Err(EscrowError::DeadlineNotPassed));
    finalize_timeout(&mut e, 10_000).unwrap();
    assert!(e.final_slashed);
}

#[test]
fn lock_bounds_are_a_week_and_a_decade() {
    assert_eq!(MIN_LOCK_SECS, 604_800);
    assert!((MIN_LOCK_SECS..=MAX_LOCK_SECS).contains(&MIN_LOCK_SECS));
    assert!((MIN_LOCK_SECS..=MAX_LOCK_SECS).contains(&MAX_LOCK_SECS));
    assert!(!(MIN_LOCK_SECS..=MAX_LOCK_SECS).contains(&60));
    assert!(!(MIN_LOCK_SECS..=MAX_LOCK_SECS).contains(&0));
    assert!(!(MIN_LOCK_SECS..=MAX_LOCK_SECS).contains(&-1));
    assert_eq!(check_deposit(1, 60, 0), Err(VaultError::LockOutOfRange));
}

#[test]
fn account_sizes_match_their_fields() {
    assert_eq!(VAULT_LEN, 8 + 128 + 32 + 1);
    assert_eq!(POSITION_LEN, 8 + 64 + 24 + 16 + 1);
}

#[test]
fn unlock_computation_cannot_wrap() {
    assert_eq!(i64::MAX.checked_add(MAX_LOCK_SECS), None);
    let now: i64 = 1_786_000_000;
    assert_eq!(now.checked_add(MIN_LOCK_SECS), Some(now + 604_800), "ordinary case still computes");
    assert_eq!(check_deposit(1, MAX_LOCK_SECS, i64::MAX), Err(VaultError::MathOverflow));
    assert_eq!(check_deposit(1, MIN_LOCK_SECS, now), Ok(now + 604_800));
    assert_eq!(check_deposit(0, MIN_LOCK_SECS, now), Err(VaultError::ZeroBacking));
}

#[test]
fn a_vault_returns_exactly_what_was_locked() {
    assert_eq!(initialize_vault(&k(1), &k(1)).unwrap_err(), VaultError::SameMint);
    let mut v = initialize_vault(&k(1), &k(2)).unwrap();
    let unlock = check_deposit(500, MIN_LOCK_SECS, 1_000).unwrap();
    // The vault's backing balance went 0 -> 495 (a fee-on-transfer mint kept 5).
    let p = record_deposit(&mut v, &k(7), 1, unlock, 1_000, 0, 495, 0, 0).unwrap();
    assert_eq!(p.backing_amount, 495);
    assert_eq!(v.total_backing_locked, 495);
    assert_eq!(v.positions_open, 1);
    assert_eq!(withdraw(&mut v, &p, &k(7), unlock - 1), Err(VaultError::StillLocked));
    assert_eq!(withdraw(&mut v, &p, &k(8), unlock), Err(VaultError::NotDepositor));
    assert_eq!(withdraw(&mut v, &p, &k(7), unlock), Ok((0, 495)));
    assert_eq!(v.total_backing_locked, 0);
    assert_eq!(v.positions_open, 0);
    assert_eq!(v.positions_lifetime, 1);
}

#[test]
fn a_lock_only_ever_moves_later() {
    let mut v = initialize_vault(&k(1), &k(2)).unwrap();
    let mut p = record_deposit(&mut v, &k(7), 1, 2_000_000, 1_000, 10, 20, 0, 0).unwrap();
    assert_eq!(extend_lock(&mut p, &k(7), 1_999_999, 1_000), Err(VaultError::LockNotExtended));
    assert_eq!(extend_lock(&mut p, &k(8), 3_000_000, 1_000), Err(VaultError::NotDepositor));
    assert_eq!(extend_lock(&mut p, &k(7), 1_000 + MAX_LOCK_SECS + 1, 1_000), Err(VaultError::LockOutOfRange));
    assert_eq!(extend_lock(&mut p, &k(7), 3_000_000, 1_000), Ok(()));
    assert_eq!(p.unlock_unix, 3_000_000);
    assert_eq!(record_deposit(&mut v, &k(7), 2, 2_000_000, 1_000, 20, 20, 0, 0).unwrap_err(), VaultError::ZeroBacking);
}

#[test]
fn a_swap_must_end_strictly_ahead_and_above_its_floor() {
    let st = start_swap(&k(1), &k(2), &k(3), 1_000, 400, 450);
    assert_eq!(st.swap_input, 1_000);
    assert_eq!(st.expected_output, 1_050);
    assert_eq!(profit_or_revert(&st, &k(1), &k(2), &k(3), 1_000), Err(ScematicaError::NotProfitable));
    assert_eq!(profit_or_revert(&st, &k(1), &k(2), &k(3), 1_040), Err(ScematicaError::SlippageExceeded));
    assert_eq!(profit_or_revert(&st, &k(1), &k(9), &k(3), 2_000), Err(ScematicaError::InvalidTokenAccount));
    assert_eq!(profit_or_revert(&st, &k(5), &k(2), &k(3), 2_000), Err(ScematicaError::Unauthorized));
    assert_eq!(profit_or_revert(&st, &k(1), &k(2), &k(3), 1_060), Ok(60));
    assert_eq!(start_swap(&k(1), &k(2), &k(3), 10, 400, 5).expected_output, 5);
}

#[test]
fn a_constant_product_quote_takes_the_fee_and_never_drains_the_pool() {
    // 1000 in against 10_000/20_000: 20_000 * 1000 * 9975 / (10_000 * 10_000 + 1000 * 9975).
    assert_eq!(amm_out(1_000, 10_000, 20_000), 1_814);
    assert_eq!(amm_out(0, 0, 5), 0);
    assert!(amm_out(u32::MAX as u64, 1, 1_000) <= 1_000);
}

#[test]
fn a_sell_estimate_uses_the_pool_formula() {
    // 1000 quote, 1000 base, sell 100: 1000*100*9975 / (1000*10000 + 100*9975) = 90
    assert_eq!(estimate_sell_out("1000", "1000", 100), 90);
    assert_eq!(estimate_sell_out("1000", "1000", 100), amm_out(100, 1000, 1000));
}

#[test]
fn a_sell_estimate_is_zero_without_a_quote_reserve() {
    assert_eq!(estimate_sell_out("0", "1000", 100), 0);
    assert_eq!(estimate_sell_out("n/a", "1000", 100), 0);
    assert_eq!(estimate_sell_out("1000", "0", 100), 0);
}

#[test]
fn an_unreadable_base_balance_counts_as_one_token() {
    assert_eq!(estimate_sell_out("1000", "x", 100), amm_out(100, 1, 1000));
}
