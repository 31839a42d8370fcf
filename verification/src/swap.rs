//! The atomic profit guard around a swap: record the source balance before the swap, and
//! after it accept only a strictly larger balance that also clears the slippage floor.
//! A refusal reverts the whole transaction, so an unprofitable swap never lands.
use vstd::prelude::*;

use crate::escrow::{same_key, Key};

verus! {

/// Bytes of the swap-state account.
pub const SWAP_STATE_LEN: usize = 121;

/// Why the guard refused.
#[derive(Debug, Clone, Copy, PartialEq, Eq, Structural)]
pub enum ScematicaError {
    /// The final balance did not exceed the initial one.
    NotProfitable,
    /// The final balance was below the minimum expected.
    SlippageExceeded,
    /// The signer is not the recorded authority.
    Unauthorized,
    /// The account checked afterwards is not the one recorded, or holds another mint.
    InvalidTokenAccount,
}

/// What `start_swap` records.
#[derive(Debug, Clone, Copy)]
pub struct SwapState {
    pub authority: Key,
    pub src_mint: Key,
    pub src: Key,
    /// The source balance before the swap.
    pub swap_input: u64,
    /// The least final balance accepted.
    pub expected_output: u64,
}

/// `a - b` held at 0, then `+ c` held at `u64::MAX`.
pub open spec fn floor_spec(balance: u64, input: u64, min_out: u64) -> u64 {
    let after = if balance >= input { balance - input } else { 0 };
    if after + min_out > u64::MAX { u64::MAX } else { (after + min_out) as u64 }
}

/// Record the source account's balance before the swap, and the least final balance the
/// swap must leave: the balance less the input, plus the minimum expected output.
pub fn start_swap(authority: &Key, src: &Key, src_mint: &Key, balance: u64, swap_input: u64, min_expected_output: u64) -> (s: SwapState)
    ensures
        s.authority == *authority,
        s.src == *src,
        s.src_mint == *src_mint,
        s.swap_input == balance,
        s.expected_output == floor_spec(balance, swap_input, min_expected_output),
{
    let floor = balance.saturating_sub(swap_input).saturating_add(min_expected_output);
    SwapState { authority: *authority, src_mint: *src_mint, src: *src, swap_input: balance, expected_output: floor }
}

/// What the guard decides: the profit, or why the swap must be undone.
pub open spec fn guard_spec(st: SwapState, signer: Key, src: Key, mint: Key, final_balance: u64) -> Result<u64, ScematicaError> {
    if signer@ != st.authority@ {
        Err(ScematicaError::Unauthorized)
    } else if src@ != st.src@ || mint@ != st.src_mint@ {
        Err(ScematicaError::InvalidTokenAccount)
    } else if !(final_balance > st.swap_input) {
        Err(ScematicaError::NotProfitable)
    } else if !(final_balance >= st.expected_output) {
        Err(ScematicaError::SlippageExceeded)
    } else {
        Ok((final_balance - st.swap_input) as u64)
    }
}

/// After the swap: the same account and mint must now hold strictly more than before and
/// at least the recorded floor. Returns the profit.
pub fn profit_or_revert(st: &SwapState, signer: &Key, src: &Key, mint: &Key, final_balance: u64) -> (r: Result<u64, ScematicaError>)
    ensures
        r == guard_spec(*st, *signer, *src, *mint, final_balance),
{
    if !same_key(signer, &st.authority) {
        return Err(ScematicaError::Unauthorized);
    }
    if !same_key(src, &st.src) || !same_key(mint, &st.src_mint) {
        return Err(ScematicaError::InvalidTokenAccount);
    }
    if !(final_balance > st.swap_input) {
        return Err(ScematicaError::NotProfitable);
    }
    if !(final_balance >= st.expected_output) {
        return Err(ScematicaError::SlippageExceeded);
    }
    Ok(final_balance - st.swap_input)
}

/// A swap that passes the guard never loses: the final balance exceeds the starting one
/// by exactly the profit reported, and clears the floor.
pub proof fn a_passed_swap_is_profitable(st: SwapState, signer: Key, src: Key, mint: Key, final_balance: u64)
    requires
        guard_spec(st, signer, src, mint, final_balance) is Ok,
    ensures
        final_balance > st.swap_input,
        final_balance >= st.expected_output,
        guard_spec(st, signer, src, mint, final_balance)->Ok_0 > 0,
        final_balance == st.swap_input + guard_spec(st, signer, src, mint, final_balance)->Ok_0,
{
}

} // verus!
