//! ABI encoding for anchoring an attestation to the mesh contract on chain.
//!
//! This produces calldata, not transactions: signing stays with whoever holds the key.
//! Selectors are computed with keccak from the function signatures, so a signature change
//! cannot silently produce calldata aimed at a different function.
use vstd::prelude::*;
use vstd::string::StringSliceAdditionalSpecFns;

use crate::attest::{Attestation, Freshness};
use crate::bytes::{be_u64, push_bytes, push_u64};
use crate::commit::{hex_of, hex_string, Digest};
use crate::decimal::{decimal, push_decimal};
use crate::keccak::{keccak, keccak256};

verus! {

/// The mesh contract on BOT Chain mainnet, verified by exact bytecode match.
pub const MESH_MAINNET: &'static str = "0xa12d2d3Ae97D13ada52515C2Fe93c5206F798D37";

/// The signature of the batch-anchoring entry point.
pub const ANCHOR_BATCH_SIGNATURE: &'static str = "anchorBatch(bytes32,bytes32,uint32,uint64)";

/// The signature of the agent-registration entry point.
pub const REGISTER_AGENT_SIGNATURE: &'static str = "registerAgent(bytes32,string)";

/// The 4-byte function selector of a signature: the first four bytes of its keccak256.
pub open spec fn selector_spec(signature: Seq<u8>) -> Seq<u8> {
    keccak256(signature).subrange(0, 4)
}

/// `n` zero bytes.
pub open spec fn zeros(n: nat) -> Seq<u8> {
    Seq::new(n, |i: int| 0u8)
}

/// A `u64` as one ABI word: right-aligned, 24 zero bytes then its big-endian bytes.
pub open spec fn word_spec(v: u64) -> Seq<u8> {
    zeros(24) + be_u64(v)
}

/// Padding that brings a string of `len` bytes to a whole number of 32-byte words.
pub open spec fn pad_len(len: nat) -> nat {
    ((32 - len % 32) % 32) as nat
}

/// The calldata of `anchorBatch(weights, root, claim_count, challenge_window)`.
pub open spec fn anchor_batch_spec(weights: Seq<u8>, root: Seq<u8>, claim_count: u32, challenge_window: u64) -> Seq<u8> {
    selector_spec(ANCHOR_BATCH_SIGNATURE.spec_bytes()) + weights + root + word_spec(claim_count as u64)
        + word_spec(challenge_window)
}

/// The calldata of `registerAgent(weights, uri)`: the head holds the weights hash and the
/// offset of the string (two head words, 0x40); the tail holds the length, then the bytes
/// right-padded to a whole word.
pub open spec fn register_agent_spec(weights: Seq<u8>, uri: Seq<u8>) -> Seq<u8> {
    selector_spec(REGISTER_AGENT_SIGNATURE.spec_bytes()) + weights + word_spec(0x40) + word_spec(uri.len() as u64)
        + uri + zeros(pad_len(uri.len()))
}

/// The 4-byte selector of a function signature.
pub fn selector(signature: &str) -> (s: [u8; 4])
    ensures
        s@ == selector_spec(signature.spec_bytes()),
{
    let out = keccak(signature.as_bytes());
    let s = [out[0], out[1], out[2], out[3]];
    assert(s@ =~= selector_spec(signature.spec_bytes()));
    s
}

/// `0x` and the lowercase hex of the bytes.
pub fn hex(bytes: &[u8]) -> (s: String)
    ensures
        s@ == hex_string(bytes@),
{
    hex_of(bytes)
}

/// Append `n` zero bytes.
fn push_zeros(out: &mut Vec<u8>, n: usize)
    ensures
        final(out)@ == old(out)@ + zeros(n as nat),
{
    let mut i: usize = 0;
    while i < n
        invariant
            i <= n,
            out@ == old(out)@ + zeros(i as nat),
        decreases n - i,
    {
        out.push(0u8);
        i = i + 1;
        assert(out@ =~= old(out)@ + zeros(i as nat));
    }
}

/// Append one right-aligned ABI word holding `v`.
fn push_word_u64(out: &mut Vec<u8>, v: u64)
    ensures
        final(out)@ == old(out)@ + word_spec(v),
{
    push_zeros(out, 24);
    push_u64(out, v);
    assert(out@ =~= old(out)@ + word_spec(v));
}

/// Calldata for `anchorBatch(bytes32 weightsHash, bytes32 root, uint32 claimCount, uint64 challengeWindow)`.
///
/// All four arguments are static, so the encoding is the selector followed by four words
/// in order: no offsets, no tail.
pub fn anchor_batch_calldata(weights: &Digest, root: &Digest, claim_count: u32, challenge_window: u64) -> (out: Vec<u8>)
    ensures
        out@ == anchor_batch_spec(weights.0@, root.0@, claim_count, challenge_window),
        out@.len() == 4 + 128,
{
    let mut out: Vec<u8> = Vec::new();
    let sel = selector(ANCHOR_BATCH_SIGNATURE);
    push_bytes(&mut out, &sel);
    push_bytes(&mut out, &weights.0);
    push_bytes(&mut out, &root.0);
    push_word_u64(&mut out, claim_count as u64);
    push_word_u64(&mut out, challenge_window);
    assert(out@ =~= anchor_batch_spec(weights.0@, root.0@, claim_count, challenge_window));
    out
}

/// Calldata for `registerAgent(bytes32 weightsHash, string uri)`.
///
/// The string is dynamic, so the head holds an offset (0x40, past two head words) and the
/// tail holds the length, then the content right-padded to a whole word.
pub fn register_agent_calldata(weights: &Digest, uri: &str) -> (out: Vec<u8>)
    ensures
        out@ == register_agent_spec(weights.0@, uri.spec_bytes()),
        out@.len() == 4 + 96 + uri.spec_bytes().len() + pad_len(uri.spec_bytes().len()),
        (out@.len() - 4) % 32 == 0,
        pad_len(uri.spec_bytes().len()) < 32,
{
    let bytes = uri.as_bytes();
    let mut out: Vec<u8> = Vec::new();
    let sel = selector(REGISTER_AGENT_SIGNATURE);
    push_bytes(&mut out, &sel);
    push_bytes(&mut out, &weights.0);
    push_word_u64(&mut out, 0x40);
    push_word_u64(&mut out, bytes.len() as u64);
    push_bytes(&mut out, bytes);
    let pad = (32 - bytes.len() % 32) % 32;
    push_zeros(&mut out, pad);
    assert(out@ =~= register_agent_spec(weights.0@, uri.spec_bytes()));
    proof {
        let n = uri.spec_bytes().len();
        assert((n + pad_len(n)) % 32 == 0 && pad_len(n) < 32) by (nonlinear_arith)
            requires pad_len(n) == ((32 - n % 32) % 32) as nat, n >= 0;
    }
    out
}

/// A ready-to-run command, with the reasoning attached.
#[derive(Debug, Clone)]
pub struct AnchorPlan {
    pub contract: String,
    pub calldata: String,
    pub command: String,
    /// Present when the batch is retrospective. Publishing it as live would be dishonest.
    pub warning: Option<String>,
}

/// The `cast send` command that submits `calldata` from `account`. `--legacy` is not
/// optional on BOT Chain: its base fee is 0, so an EIP-1559 transaction carries no
/// priority and validators have no reason to include it.
pub open spec fn command_spec(calldata: Seq<char>, account: Seq<char>) -> Seq<char> {
    "cast send "@ + MESH_MAINNET@ + " "@ + calldata + " \\\n  --rpc-url https://rpc.botchain.ai \\\n  --account "@
        + account + " --legacy"@
}

/// The warning attached to a retrospective batch that is `lag` seconds old.
pub open spec fn warning_spec(lag: u64) -> Seq<char> {
    "This batch is "@ + decimal(lag as nat) + WARNING_TAIL@
}

/// What follows the age in the retrospective warning.
pub const WARNING_TAIL: &'static str = "s old, past the freshness bound. Its outcomes are already knowable, so anchoring it proves the record was not edited afterwards but NOT that it was committed in advance. Publish it labelled as retrospective.";

/// Build the anchoring plan for an attestation.
pub fn plan_anchor(attestation: &Attestation, weights: &Digest, challenge_window: u64, account: &str) -> (p: AnchorPlan)
    ensures
        p.contract@ == MESH_MAINNET@,
        p.calldata@ == hex_string(
            anchor_batch_spec(weights.0@, attestation.root.0@, attestation.count as u32, challenge_window),
        ),
        p.command@ == command_spec(p.calldata@, account@),
        attestation.freshness == Freshness::Live ==> p.warning is None,
        attestation.freshness == Freshness::Retrospective ==> p.warning is Some && p.warning->0@ == warning_spec(
            attestation.max_lag_secs,
        ),
{
    let data = anchor_batch_calldata(weights, &attestation.root, attestation.count as u32, challenge_window);
    let calldata = hex(data.as_slice());
    let mut command = String::from_str("cast send ");
    command.append(MESH_MAINNET);
    command.append(" ");
    command.append(calldata.as_str());
    command.append(" \\\n  --rpc-url https://rpc.botchain.ai \\\n  --account ");
    command.append(account);
    command.append(" --legacy");
    let warning = match attestation.freshness {
        Freshness::Live => None,
        Freshness::Retrospective => {
            let mut w = String::from_str("This batch is ");
            push_decimal(&mut w, attestation.max_lag_secs);
            w.append(WARNING_TAIL);
            Some(w)
        },
    };
    AnchorPlan { contract: String::from_str(MESH_MAINNET), calldata, command, warning }
}

/// The value of a hex digit byte, if it is one (either case).
pub open spec fn hex_value(c: u8) -> Option<u8> {
    if 48 <= c <= 57 {
        Some((c - 48) as u8)
    } else if 97 <= c <= 102 {
        Some((c - 87) as u8)
    } else if 65 <= c <= 70 {
        Some((c - 55) as u8)
    } else {
        None
    }
}

/// How `u8::from_str_radix(_, 16)` reads two bytes: an optional `+` then hex digits.
pub open spec fn pair_value(x: u8, y: u8) -> Option<u8> {
    if x == 43 {
        hex_value(y)
    } else {
        match (hex_value(x), hex_value(y)) {
            (Some(h), Some(l)) => Some((h * 16 + l) as u8),
            _ => None,
        }
    }
}

/// `b` without its leading `0x` prefixes.
pub open spec fn strip_0x(b: Seq<u8>) -> Seq<u8>
    decreases b.len(),
{
    if b.len() >= 2 && b[0] == 48 && b[1] == 120 { strip_0x(b.skip(2)) } else { b }
}

/// A digest written as 64 hex digits, optionally after `0x`: its 32 bytes, or `None`.
pub open spec fn parse_digest_spec(b: Seq<u8>) -> Option<Seq<u8>> {
    let c = strip_0x(b);
    if c.len() != 64 || !(forall|k: int| 0 <= k < 32 ==> (#[trigger] pair_value(c[2 * k], c[2 * k + 1])) is Some) {
        None
    } else {
        Some(Seq::new(32, |k: int| pair_value(c[2 * k], c[2 * k + 1])->0))
    }
}

/// The value of a hex digit byte, as `hex_value` says.
pub(crate) fn hex_value_exec(c: u8) -> (r: Option<u8>)
    ensures
        r == hex_value(c),
{
    if 48 <= c && c <= 57 {
        Some(c - 48)
    } else if 97 <= c && c <= 102 {
        Some(c - 87)
    } else if 65 <= c && c <= 70 {
        Some(c - 55)
    } else {
        None
    }
}

/// Read two bytes as one hex byte, as `pair_value` says.
fn pair_value_exec(x: u8, y: u8) -> (r: Option<u8>)
    ensures
        r == pair_value(x, y),
{
    if x == 43 {
        return hex_value_exec(y);
    }
    match (hex_value_exec(x), hex_value_exec(y)) {
        (Some(h), Some(l)) => Some(h * 16 + l),
        _ => None,
    }
}

/// Parse a digest written as 64 hex digits, optionally after `0x`.
pub fn parse_digest(hex: &str) -> (r: Option<Digest>)
    ensures
        match parse_digest_spec(hex.spec_bytes()) {
            Some(d) => match r {
                Some(x) => x.0@ == d,
                None => false,
            },
            None => r is None,
        },
{
    let b = hex.as_bytes();
    let mut start: usize = 0;
    assert(b@.skip(0) =~= b@);
    while b.len() - start >= 2 && b[start] == 48 && b[start + 1] == 120
        invariant
            start <= b@.len(),
            strip_0x(b@.skip(start as int)) == strip_0x(b@),
        decreases b@.len() - start,
    {
        assert(b@.skip(start as int).skip(2) =~= b@.skip(start + 2));
        start = start + 2;
    }
    let ghost c = b@.skip(start as int);
    assert(strip_0x(c) == c);
    if b.len() - start != 64 {
        return None;
    }
    let mut out = [0u8; 32];
    let mut k: usize = 0;
    while k < 32
        invariant
            k <= 32,
            c == b@.skip(start as int),
            c == strip_0x(b@),
            b@ == hex.spec_bytes(),
            c.len() == 64,
            b@.len() == start + 64,
            forall|j: int| 0 <= j < k ==> (#[trigger] pair_value(c[2 * j], c[2 * j + 1])) is Some && out@[j]
                == pair_value(c[2 * j], c[2 * j + 1])->0,
        decreases 32 - k,
    {
        let i0: usize = b.len() - 64 + 2 * k;
        let x = b[i0];
        let y = b[i0 + 1];
        assert(x == c[2 * k as int] && y == c[2 * k + 1]);
        match pair_value_exec(x, y) {
            Some(v) => {
                out[k] = v;
            },
            None => {
                assert(pair_value(c[2 * k as int], c[2 * k + 1]) is None);
                assert(!(forall|j: int| 0 <= j < 32 ==> (#[trigger] pair_value(c[2 * j], c[2 * j + 1])) is Some));
                return None;
            },
        }
        k = k + 1;
    }
    assert(out@ =~= Seq::new(32, |j: int| pair_value(c[2 * j], c[2 * j + 1])->0));
    Some(Digest(out))
}

} // verus!
