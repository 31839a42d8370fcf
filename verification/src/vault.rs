//! The lock vault's accounting: depositors lock a backing amount (and optionally a token
//! amount) for between a week and a decade, may only lengthen a lock, and withdraw exactly
//! what they deposited once it expires.
//!
//! The vault's totals are the sums over its open positions; every instruction keeps them
//! so, which is what makes the checked subtractions on withdrawal unreachable failures.
//! Amounts credited are what the vault actually received, measured as the change in its
//! balance across the transfer, not what was asked for.
use vstd::prelude::*;

use crate::escrow::{same_key, Key};

verus! {

/// The shortest lock: one week, in seconds.
pub const MIN_LOCK_SECS: i64 = 604_800;

/// The longest lock: ten years of 365 days, in seconds.
pub const MAX_LOCK_SECS: i64 = 315_360_000;

/// Bytes of a vault account: discriminator, four keys, four counters, bump.
pub const VAULT_LEN: usize = 169;

/// Bytes of a position account: discriminator, two keys, three `u64`s, two `i64`s, bump.
pub const POSITION_LEN: usize = 113;

/// Why an instruction was refused.
#[derive(Debug, Clone, Copy, PartialEq, Eq, Structural)]
pub enum VaultError {
    ZeroBacking,
    LockOutOfRange,
    StillLocked,
    LockNotExtended,
    NotDepositor,
    VaultMismatch,
    MintMismatch,
    MathOverflow,
    AccountingUnderflow,
    SameMint,
}

/// A vault: the two mints and the running totals.
#[derive(Debug, Clone, Copy)]
pub struct Vault {
    pub token_mint: Key,
    pub backing_mint: Key,
    pub total_token_locked: u64,
    pub total_backing_locked: u64,
    pub positions_open: u64,
    pub positions_lifetime: u64,
}

/// One depositor's locked amounts.
#[derive(Debug, Clone, Copy)]
pub struct Position {
    pub depositor: Key,
    pub token_amount: u64,
    pub backing_amount: u64,
    pub created_unix: i64,
    pub unlock_unix: i64,
    pub nonce: u64,
}

/// Open a vault for a token backed by a different mint.
pub fn initialize_vault(token_mint: &Key, backing_mint: &Key) -> (r: Result<Vault, VaultError>)
    ensures
        token_mint@ == backing_mint@ ==> r == Err::<Vault, VaultError>(VaultError::SameMint),
        token_mint@ != backing_mint@ ==> r is Ok && r->Ok_0.token_mint == *token_mint && r->Ok_0.backing_mint
            == *backing_mint && r->Ok_0.total_token_locked == 0 && r->Ok_0.total_backing_locked == 0
            && r->Ok_0.positions_open == 0 && r->Ok_0.positions_lifetime == 0,
{
    if same_key(token_mint, backing_mint) {
        return Err(VaultError::SameMint);
    }
    Ok(
        Vault {
            token_mint: *token_mint,
            backing_mint: *backing_mint,
            total_token_locked: 0,
            total_backing_locked: 0,
            positions_open: 0,
            positions_lifetime: 0,
        },
    )
}

/// The checks a deposit makes before any transfer: a positive backing amount, a lock of a
/// week to a decade, and an unlock time that does not overflow. The unlock time, or why not.
pub open spec fn deposit_terms(backing_amount: u64, lock_secs: i64, now: i64) -> Result<i64, VaultError> {
    if backing_amount == 0 {
        Err(VaultError::ZeroBacking)
    } else if !(MIN_LOCK_SECS <= lock_secs <= MAX_LOCK_SECS) {
        Err(VaultError::LockOutOfRange)
    } else if now as int + lock_secs as int > i64::MAX {
        Err(VaultError::MathOverflow)
    } else {
        Ok((now + lock_secs) as i64)
    }
}

/// Check a deposit before its transfers, as `deposit_terms` says.
pub fn check_deposit(backing_amount: u64, lock_secs: i64, now: i64) -> (r: Result<i64, VaultError>)
    ensures
        r == deposit_terms(backing_amount, lock_secs, now),
{
    if backing_amount == 0 {
        return Err(VaultError::ZeroBacking);
    }
    if !(MIN_LOCK_SECS <= lock_secs && lock_secs <= MAX_LOCK_SECS) {
        return Err(VaultError::LockOutOfRange);
    }
    match now.checked_add(lock_secs) {
        Some(u) => Ok(u),
        None => Err(VaultError::MathOverflow),
    }
}

/// What the vault received across a transfer: its balance after less its balance before.
pub open spec fn received(before: u64, after: u64) -> Result<u64, VaultError> {
    if after >= before { Ok((after - before) as u64) } else { Err(VaultError::AccountingUnderflow) }
}

/// A recorded deposit: the new position, or why it was refused; the vault is updated only
/// on success.
pub open spec fn record_spec(
    v: Vault,
    depositor: Key,
    nonce: u64,
    unlock_unix: i64,
    now: i64,
    backing: Result<u64, VaultError>,
    token: Result<u64, VaultError>,
) -> Result<(Vault, Position), VaultError> {
    match backing {
        Err(e) => Err(e),
        Ok(b) => if b == 0 {
            Err(VaultError::ZeroBacking)
        } else {
            match token {
                Err(e) => Err(e),
                Ok(t) => if v.total_token_locked as int + t as int > u64::MAX || v.total_backing_locked as int + b as int
                    > u64::MAX || v.positions_open as int + 1 > u64::MAX || v.positions_lifetime as int + 1
                    > u64::MAX {
                    Err(VaultError::MathOverflow)
                } else {
                    Ok(
                        (
                            Vault {
                                total_token_locked: (v.total_token_locked + t) as u64,
                                total_backing_locked: (v.total_backing_locked + b) as u64,
                                positions_open: (v.positions_open + 1) as u64,
                                positions_lifetime: (v.positions_lifetime + 1) as u64,
                                ..v
                            },
                            Position {
                                depositor,
                                token_amount: t,
                                backing_amount: b,
                                created_unix: now,
                                unlock_unix,
                                nonce,
                            },
                        ),
                    )
                },
            }
        },
    }
}

/// Record a deposit once its transfers have run, crediting what the vault's balances
/// show it received (`token_before`/`token_after` are both zero when no token was
/// deposited). Atomic: on a refusal the vault is unchanged.
pub fn record_deposit(
    v: &mut Vault,
    depositor: &Key,
    nonce: u64,
    unlock_unix: i64,
    now: i64,
    backing_before: u64,
    backing_after: u64,
    token_before: u64,
    token_after: u64,
) -> (r: Result<Position, VaultError>)
    ensures
        match record_spec(
            *old(v),
            *depositor,
            nonce,
            unlock_unix,
            now,
            received(backing_before, backing_after),
            received(token_before, token_after),
        ) {
            Ok((nv, p)) => r == Ok::<Position, VaultError>(p) && *final(v) == nv,
            Err(e) => r == Err::<Position, VaultError>(e) && *final(v) == *old(v),
        },
{
    if backing_after < backing_before {
        return Err(VaultError::AccountingUnderflow);
    }
    let b = backing_after - backing_before;
    if b == 0 {
        return Err(VaultError::ZeroBacking);
    }
    if token_after < token_before {
        return Err(VaultError::AccountingUnderflow);
    }
    let t = token_after - token_before;
    let tt = match v.total_token_locked.checked_add(t) {
        Some(x) => x,
        None => return Err(VaultError::MathOverflow),
    };
    let tb = match v.total_backing_locked.checked_add(b) {
        Some(x) => x,
        None => return Err(VaultError::MathOverflow),
    };
    let po = match v.positions_open.checked_add(1) {
        Some(x) => x,
        None => return Err(VaultError::MathOverflow),
    };
    let pl = match v.positions_lifetime.checked_add(1) {
        Some(x) => x,
        None => return Err(VaultError::MathOverflow),
    };
    v.total_token_locked = tt;
    v.total_backing_locked = tb;
    v.positions_open = po;
    v.positions_lifetime = pl;
    Ok(Position { depositor: *depositor, token_amount: t, backing_amount: b, created_unix: now, unlock_unix, nonce })
}

/// `a + b`, held to the range of `i64`.
pub open spec fn sat_add(a: i64, b: i64) -> int {
    let s = a as int + b as int;
    if s > i64::MAX { i64::MAX as int } else if s < i64::MIN { i64::MIN as int } else { s }
}

/// `extend_lock` as a transition: only the depositor, only later, and never beyond a
/// decade from now.
pub open spec fn extend_spec(p: Position, signer: Key, new_unlock_unix: i64, now: i64) -> Result<Position, VaultError> {
    if signer@ != p.depositor@ {
        Err(VaultError::NotDepositor)
    } else if !(new_unlock_unix > p.unlock_unix) {
        Err(VaultError::LockNotExtended)
    } else if new_unlock_unix > sat_add(now, MAX_LOCK_SECS) {
        Err(VaultError::LockOutOfRange)
    } else {
        Ok(Position { unlock_unix: new_unlock_unix, ..p })
    }
}

/// Lengthen a lock. A lock can only ever move later.
pub fn extend_lock(p: &mut Position, signer: &Key, new_unlock_unix: i64, now: i64) -> (r: Result<(), VaultError>)
    ensures
        match extend_spec(*old(p), *signer, new_unlock_unix, now) {
            Ok(n) => r is Ok && *final(p) == n,
            Err(e) => r == Err::<(), VaultError>(e) && *final(p) == *old(p),
        },
{
    if !same_key(signer, &p.depositor) {
        return Err(VaultError::NotDepositor);
    }
    if !(new_unlock_unix > p.unlock_unix) {
        return Err(VaultError::LockNotExtended);
    }
    let limit: i64 = crate::escrow::add_clamped(now, MAX_LOCK_SECS);
    if new_unlock_unix > limit {
        return Err(VaultError::LockOutOfRange);
    }
    p.unlock_unix = new_unlock_unix;
    Ok(())
}

/// The decade a lock may reach is counted from the time of the call, not from the
/// deposit: the depositor can move a lock to any later time up to ten years from now,
/// however old the position is, and only the unlock time changes; a request past that
/// horizon, one not from the depositor, or one that does not move the lock later is
/// refused.
pub proof fn a_lock_extends_to_a_decade_from_now(p: Position, signer: Key, new_unlock_unix: i64, now: i64)
    ensures
        signer@ == p.depositor@ && new_unlock_unix > p.unlock_unix && new_unlock_unix <= now as int + MAX_LOCK_SECS
            ==> extend_spec(p, signer, new_unlock_unix, now) == Ok::<Position, VaultError>(
            Position { unlock_unix: new_unlock_unix, ..p },
        ),
        new_unlock_unix > now as int + MAX_LOCK_SECS || signer@ != p.depositor@ || new_unlock_unix <= p.unlock_unix
            ==> extend_spec(p, signer, new_unlock_unix, now) is Err,
{
}

/// `withdraw` as a transition: the depositor, once unlocked, takes back both amounts, and
/// the totals and the open count go down by them.
pub open spec fn withdraw_spec(v: Vault, p: Position, signer: Key, now: i64) -> Result<Vault, VaultError> {
    if signer@ != p.depositor@ {
        Err(VaultError::NotDepositor)
    } else if now < p.unlock_unix {
        Err(VaultError::StillLocked)
    } else if v.total_token_locked < p.token_amount || v.total_backing_locked < p.backing_amount || v.positions_open
        < 1 {
        Err(VaultError::AccountingUnderflow)
    } else {
        Ok(
            Vault {
                total_token_locked: (v.total_token_locked - p.token_amount) as u64,
                total_backing_locked: (v.total_backing_locked - p.backing_amount) as u64,
                positions_open: (v.positions_open - 1) as u64,
                ..v
            },
        )
    }
}

/// Withdraw an expired position. Returns the token and backing amounts to transfer back
/// to the depositor, exactly what the position holds; the position then closes.
pub fn withdraw(v: &mut Vault, p: &Position, signer: &Key, now: i64) -> (r: Result<(u64, u64), VaultError>)
    ensures
        match withdraw_spec(*old(v), *p, *signer, now) {
            Ok(nv) => r == Ok::<(u64, u64), VaultError>((p.token_amount, p.backing_amount)) && *final(v) == nv,
            Err(e) => r == Err::<(u64, u64), VaultError>(e) && *final(v) == *old(v),
        },
{
    if !same_key(signer, &p.depositor) {
        return Err(VaultError::NotDepositor);
    }
    if now < p.unlock_unix {
        return Err(VaultError::StillLocked);
    }
    if v.total_token_locked < p.token_amount || v.total_backing_locked < p.backing_amount || v.positions_open < 1 {
        return Err(VaultError::AccountingUnderflow);
    }
    v.total_token_locked = v.total_token_locked - p.token_amount;
    v.total_backing_locked = v.total_backing_locked - p.backing_amount;
    v.positions_open = v.positions_open - 1;
    Ok((p.token_amount, p.backing_amount))
}

/// The token amounts of the given positions, summed.
pub open spec fn sum_token(ps: Seq<Position>) -> int
    decreases ps.len(),
{
    if ps.len() == 0 { 0 } else { sum_token(ps.drop_last()) + ps.last().token_amount }
}

/// The backing amounts of the given positions, summed.
pub open spec fn sum_backing(ps: Seq<Position>) -> int
    decreases ps.len(),
{
    if ps.len() == 0 { 0 } else { sum_backing(ps.drop_last()) + ps.last().backing_amount }
}

/// The vault's totals and open count are exactly those of its open positions.
pub open spec fn accounted(v: Vault, open: Seq<Position>) -> bool {
    &&& v.total_token_locked == sum_token(open)
    &&& v.total_backing_locked == sum_backing(open)
    &&& v.positions_open == open.len()
}

/// Removing one position takes its amounts out of the sums.
proof fn sums_after_remove(ps: Seq<Position>, i: int)
    requires
        0 <= i < ps.len(),
    ensures
        sum_token(ps.remove(i)) == sum_token(ps) - ps[i].token_amount,
        sum_backing(ps.remove(i)) == sum_backing(ps) - ps[i].backing_amount,
    decreases ps.len(),
{
    if i == ps.len() - 1 {
        assert(ps.remove(i) =~= ps.drop_last());
    } else {
        sums_after_remove(ps.drop_last(), i);
        assert(ps.remove(i).drop_last() =~= ps.drop_last().remove(i));
        assert(ps.remove(i).last() == ps.last());
    }
}

/// Each position's amounts are part of the sums.
proof fn sums_cover(ps: Seq<Position>, i: int)
    requires
        0 <= i < ps.len(),
    ensures
        ps[i].token_amount <= sum_token(ps),
        ps[i].backing_amount <= sum_backing(ps),
{
    sums_after_remove(ps, i);
    sums_nonnegative(ps.remove(i));
}

/// Sums of amounts are never negative.
proof fn sums_nonnegative(ps: Seq<Position>)
    ensures
        sum_token(ps) >= 0,
        sum_backing(ps) >= 0,
    decreases ps.len(),
{
    if ps.len() > 0 {
        sums_nonnegative(ps.drop_last());
    }
}

/// A recorded deposit keeps the vault's totals equal to its open positions, the new
/// one included.
pub proof fn deposits_keep_the_books(
    v: Vault,
    open: Seq<Position>,
    depositor: Key,
    nonce: u64,
    unlock_unix: i64,
    now: i64,
    backing: Result<u64, VaultError>,
    token: Result<u64, VaultError>,
)
    requires
        accounted(v, open),
        record_spec(v, depositor, nonce, unlock_unix, now, backing, token) is Ok,
    ensures
        accounted(
            record_spec(v, depositor, nonce, unlock_unix, now, backing, token)->Ok_0.0,
            open.push(record_spec(v, depositor, nonce, unlock_unix, now, backing, token)->Ok_0.1),
        ),
{
    let p = record_spec(v, depositor, nonce, unlock_unix, now, backing, token)->Ok_0.1;
    assert(open.push(p).drop_last() =~= open);
}

/// Withdrawing an open position never finds the books short: with the totals equal to
/// the open positions, a due withdrawal by its depositor succeeds, and the books still
/// balance without it.
pub proof fn withdrawals_keep_the_books(v: Vault, open: Seq<Position>, i: int, now: i64)
    requires
        accounted(v, open),
        0 <= i < open.len(),
        now >= open[i].unlock_unix,
    ensures
        withdraw_spec(v, open[i], open[i].depositor, now) is Ok,
        accounted(withdraw_spec(v, open[i], open[i].depositor, now)->Ok_0, open.remove(i)),
{
    sums_cover(open, i);
    sums_after_remove(open, i);
}

} // verus!
