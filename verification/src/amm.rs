//! Constant-product AMM quoting, as the sniper prices a swap through a Raydium pool with
//! its 0.25% fee.
use vstd::prelude::*;

use crate::presence::{parse_unsigned, parse_unsigned_exec};
use crate::text::chars_of;

verus! {

/// The output of a constant-product swap with a 0.25% fee:
/// `reserve_out * amount_in * 9975 / (reserve_in * 10000 + amount_in * 9975)`, rounded
/// down; 0 for an empty pool with no input.
pub open spec fn amm_out_spec(amount_in: u64, reserve_in: u64, reserve_out: u64) -> int {
    let num = reserve_out as int * amount_in as int * 9975;
    let den = reserve_in as int * 10000 + amount_in as int * 9975;
    if den == 0 { 0 } else { num / den }
}

/// The output of swapping `amount_in` into a pool holding `reserve_in` and `reserve_out`.
/// The numerator is computed in `u128`, which holds it whenever
/// `reserve_out * amount_in * 9975` does.
pub fn amm_out(amount_in: u64, reserve_in: u64, reserve_out: u64) -> (out: u64)
    requires
        reserve_out as int * amount_in as int * 9975 <= u128::MAX,
    ensures
        out == amm_out_spec(amount_in, reserve_in, reserve_out),
        out <= reserve_out,
{
    proof {
        assert(reserve_in as int * 10000 + amount_in as int * 9975 <= u128::MAX) by (nonlinear_arith)
            requires reserve_in <= u64::MAX, amount_in <= u64::MAX;
    }
    let num: u128 = (reserve_out as u128) * (amount_in as u128) * 9975u128;
    let den: u128 = (reserve_in as u128) * 10000u128 + (amount_in as u128) * 9975u128;
    if den == 0 {
        return 0;
    }
    proof {
        output_within_reserve(amount_in, reserve_in, reserve_out);
    }
    (num / den) as u64
}

/// A swap can never take more than the pool holds of the output token.
pub proof fn output_within_reserve(amount_in: u64, reserve_in: u64, reserve_out: u64)
    ensures
        0 <= amm_out_spec(amount_in, reserve_in, reserve_out) <= reserve_out,
{
    let a = amount_in as int;
    let ri = reserve_in as int;
    let ro = reserve_out as int;
    let num = ro * a * 9975;
    let den = ri * 10000 + a * 9975;
    if den != 0 {
        assert(0 <= num / den <= ro) by (nonlinear_arith)
            requires
                num == ro * a * 9975,
                den == ri * 10000 + a * 9975,
                den > 0,
                a >= 0, ri >= 0, ro >= 0,
        {
            assert(num <= ro * den);
        }
    }
}


/// A token-account balance as the RPC reports it, a decimal string, read as a `u64`; a
/// string that does not read gives `fallback`.
pub open spec fn balance_or(amount: Seq<char>, fallback: u64) -> u64 {
    match parse_unsigned(amount, u64::MAX) {
        Some(v) => v,
        None => fallback,
    }
}

/// Read a token-account balance string, as `balance_or` says.
pub fn read_balance(amount: &str, fallback: u64) -> (v: u64)
    ensures
        v == balance_or(amount@, fallback),
{
    let cs = chars_of(amount);
    assert(cs@.subrange(0, cs@.len() as int) =~= cs@);
    match parse_unsigned_exec(&cs, 0, cs.len(), u64::MAX) {
        Some(v) => v,
        None => fallback,
    }
}

/// The sell estimate from the pool's vault balances: nothing when either reserve reads as
/// empty, else the constant-product output of selling `amount_in` base tokens for quote.
pub open spec fn sell_out_spec(quote: u64, base: u64, amount_in: u64) -> int {
    if quote == 0 || base == 0 { 0 } else { amm_out_spec(amount_in, base, quote) }
}

/// Estimate what selling `amount_in` tokens returns, from the balance strings of the
/// pool's quote and base vaults. An unreadable quote balance counts as empty, so the
/// estimate is 0 and the caller falls back to a minimum of one; an unreadable base
/// balance counts as one token.
pub fn estimate_sell_out(quote_amount: &str, base_amount: &str, amount_in: u64) -> (out: u64)
    requires
        balance_or(quote_amount@, 0) as int * amount_in as int * 9975 <= u128::MAX,
    ensures
        out == sell_out_spec(balance_or(quote_amount@, 0), balance_or(base_amount@, 1), amount_in),
        out <= balance_or(quote_amount@, 0),
{
    let q = read_balance(quote_amount, 0);
    let b = read_balance(base_amount, 1);
    if q == 0 || b == 0 {
        return 0;
    }
    amm_out(amount_in, b, q)
}

} // verus!
