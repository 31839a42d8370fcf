//! Decision attestation: each trading decision reduced to a digest, a batch of them
//! under one Merkle root, and a record of how promptly the batch was committed.
use vstd::prelude::*;
use vstd::string::StringSliceAdditionalSpecFns;

use crate::batch::{level0, root_of, ClaimBatch};
use crate::bytes::{
    be_u32, be_u32_injective, be_u64, be_u64_injective, push_bytes, push_u32, push_u64, split_equal_prefix,
};
use crate::commit::{hash_bytes, Digest};
use crate::fixed::Fx;
use crate::keccak::keccak256;
use vstd::utf8::encode_utf8;

verus! {

/// Default freshness bound, in seconds.
pub const DEFAULT_MAX_LAG_SECS: u64 = 300;

/// Whether a byte is an ASCII digit.
pub open spec fn is_digit(c: u8) -> bool {
    48 <= c <= 57
}

/// The value of a string of ASCII digits.
pub open spec fn digits_value(b: Seq<u8>) -> nat
    decreases b.len(),
{
    if b.len() == 0 {
        0
    } else {
        digits_value(b.drop_last()) * 10 + (b.last() - 48) as nat
    }
}

/// How `u64::from_str` reads a short field: an optional `+` and at least one digit.
pub open spec fn parse_field(b: Seq<u8>) -> Option<nat> {
    let d = field_digits(b);
    if d.len() > 0 && all_digits(d) { Some(digits_value(d)) } else { None }
}

/// A field with its optional leading `+` removed.
pub open spec fn field_digits(b: Seq<u8>) -> Seq<u8> {
    if b.len() > 0 && b[0] == 43 { b.drop_first() } else { b }
}

/// Every byte is an ASCII digit.
pub open spec fn all_digits(d: Seq<u8>) -> bool {
    forall|i: int| 0 <= i < d.len() ==> is_digit(#[trigger] d[i])
}

/// Days since 1970-01-01 of a proleptic Gregorian date (civil-from-days), with the
/// year shifted so the year starts in March.
pub open spec fn days_from_civil(y: int, mo: int, d: int) -> int {
    let y_adj = if mo <= 2 { y - 1 } else { y };
    let era = y_adj / 400;
    let yoe = y_adj - era * 400;
    let mp = (mo + 9) % 12;
    let doy = (153 * mp + 2) / 5 + d - 1;
    let doe = yoe * 365 + yoe / 4 - yoe / 100 + doy;
    era * 146097 + doe - 719468
}

/// The six numeric fields of an RFC3339 timestamp prefix, each read from fixed byte
/// positions.
pub open spec fn ts_fields(b: Seq<u8>) -> Option<(nat, nat, nat, nat, nat, nat)> {
    if b.len() < 19 {
        None
    } else {
        match (parse_field(b.subrange(0, 4)), parse_field(b.subrange(5, 7)), parse_field(b.subrange(8, 10)),
            parse_field(b.subrange(11, 13)), parse_field(b.subrange(14, 16)), parse_field(b.subrange(17, 19))) {
            (Some(y), Some(mo), Some(d), Some(h), Some(mi), Some(s)) => Some((y, mo, d, h, mi, s)),
            _ => None,
        }
    }
}

/// The one input the arithmetic cannot take: year zero in January or February, where
/// shifting the year to start in March goes below zero.
pub open spec fn year_underflows(b: Seq<u8>) -> bool {
    match ts_fields(b) {
        Some((y, mo, d, h, mi, s)) => 1 <= mo <= 12 && 1 <= d <= 31 && h <= 23 && mi <= 59 && s <= 60 && y == 0 && mo <= 2,
        None => false,
    }
}

/// Unix seconds of an RFC3339 timestamp, or `None` when it does not parse.
pub open spec fn parse_unix_spec(b: Seq<u8>) -> Option<u64> {
    match ts_fields(b) {
        None => None,
        Some((y, mo, d, h, mi, s)) => {
            if !(1 <= mo <= 12) || !(1 <= d <= 31) || h > 23 || mi > 59 || s > 60 {
                None
            } else {
                let days = days_from_civil(y as int, mo as int, d as int);
                if days < 0 { None } else { Some((days * 86400 + h * 3600 + mi * 60 + s) as u64) }
            }
        },
    }
}

/// Read one numeric field from `b[a..e]`.
fn field_value(b: &[u8], a: usize, e: usize) -> (r: Option<u64>)
    requires
        a < e <= b@.len(),
        e - a <= 4,
    ensures
        match r {
            Some(v) => parse_field(b@.subrange(a as int, e as int)) == Some(v as nat) && v < 10000,
            None => parse_field(b@.subrange(a as int, e as int)) is None,
        },
{
    let ghost s = b@.subrange(a as int, e as int);
    let mut start = a;
    if b[a] == 43u8 {
        start = a + 1;
    }
    let ghost d = field_digits(s);
    assert(d =~= b@.subrange(start as int, e as int));
    if start >= e {
        return None;
    }
    let mut v: u64 = 0;
    let mut i = start;
    while i < e
        invariant
            a <= start <= i <= e <= b@.len(),
            e - start <= 4,
            d == b@.subrange(start as int, e as int),
            s == b@.subrange(a as int, e as int),
            d == field_digits(s),
            forall|k: int| start <= k < i ==> is_digit(#[trigger] b@[k]),
            v == digits_value(b@.subrange(start as int, i as int)),
            v < 10000,
            v < pow10(i - start),
        decreases e - i,
    {
        let c = b[i];
        if c < 48u8 || c > 57u8 {
            assert(d[i - start] == b@[i as int]);
            assert(!is_digit(d[i - start]));
            assert(!all_digits(d));
            assert(parse_field(s) is None);
            return None;
        }
        assert(b@.subrange(start as int, i + 1).drop_last() =~= b@.subrange(start as int, i as int));
        assert(v * 10 + 9 < pow10(i + 1 - start)) by {
            reveal_with_fuel(pow10, 5);
        }
        v = v * 10 + (c - 48u8) as u64;
        i = i + 1;
        assert(v < 10000) by {
            reveal_with_fuel(pow10, 5);
        }
    }
    assert(forall|k: int| 0 <= k < d.len() ==> is_digit(#[trigger] d[k]) <== forall|k: int| start <= k < e ==> is_digit(#[trigger] b@[k]));
    Some(v)
}

/// 10^n, for small n.
pub open spec fn pow10(n: int) -> int
    decreases n,
{
    if n <= 0 { 1 } else { 10 * pow10(n - 1) }
}

/// Whether `ts` is the one timestamp `parse_unix` cannot take: a valid date in January
/// or February of year zero.
pub fn year_underflows_in(ts: &str) -> (b: bool)
    ensures
        b == year_underflows(ts.spec_bytes()),
{
    let b = ts.as_bytes();
    if b.len() < 19 {
        return false;
    }
    let y = match field_value(b, 0, 4) { Some(v) => v, None => return false };
    let mo = match field_value(b, 5, 7) { Some(v) => v, None => return false };
    let d = match field_value(b, 8, 10) { Some(v) => v, None => return false };
    let h = match field_value(b, 11, 13) { Some(v) => v, None => return false };
    let mi = match field_value(b, 14, 16) { Some(v) => v, None => return false };
    let s = match field_value(b, 17, 19) { Some(v) => v, None => return false };
    assert(ts_fields(ts.spec_bytes()) == Some((y as nat, mo as nat, d as nat, h as nat, mi as nat, s as nat)));
    1 <= mo && mo <= 12 && 1 <= d && d <= 31 && h <= 23 && mi <= 59 && s <= 60 && y == 0 && mo <= 2
}

/// Parse an RFC3339 timestamp to unix seconds. Strict: an unparseable timestamp is
/// `None`, never a default.
pub fn parse_unix(ts: &str) -> (r: Option<u64>)
    requires
        !year_underflows(ts.spec_bytes()),
    ensures
        r == parse_unix_spec(ts.spec_bytes()),
{
    let b = ts.as_bytes();
    if b.len() < 19 {
        return None;
    }
    let y = match field_value(b, 0, 4) { Some(v) => v, None => return None };
    let mo = match field_value(b, 5, 7) { Some(v) => v, None => return None };
    let d = match field_value(b, 8, 10) { Some(v) => v, None => return None };
    let h = match field_value(b, 11, 13) { Some(v) => v, None => return None };
    let mi = match field_value(b, 14, 16) { Some(v) => v, None => return None };
    let s = match field_value(b, 17, 19) { Some(v) => v, None => return None };
    if !(1 <= mo && mo <= 12) || !(1 <= d && d <= 31) || h > 23 || mi > 59 || s > 60 {
        return None;
    }
    assert(ts_fields(ts.spec_bytes()) == Some((y as nat, mo as nat, d as nat, h as nat, mi as nat, s as nat)));
    assert(ts_fields(ts.spec_bytes()) == Some((y as nat, mo as nat, d as nat, h as nat, mi as nat, s as nat)));
    let y_adj = if mo <= 2 { y - 1 } else { y };
    let era = y_adj / 400;
    let yoe = y_adj - era * 400;
    let mp = (mo + 9) % 12;
    let doy = (153 * mp + 2) / 5 + d - 1;
    let doe = yoe * 365 + yoe / 4 - yoe / 100 + doy;
    let days: i64 = (era as i64) * 146_097 + doe as i64 - 719_468;
    if days < 0 {
        return None;
    }
    Some(days as u64 * 86_400 + h * 3600 + mi * 60 + s)
}

/// One evaluation, as the trading bot recorded it. The two scores are held already
/// quantised to fixed point, which is the form the digest commits to.
#[derive(Debug, Clone, PartialEq, Eq)]
pub struct DecisionRecord {
    pub timestamp: String,
    pub mint: String,
    pub decision: String,
    pub stage: String,
    pub reason: String,
    pub pool_score: Fx,
    pub dq_action: String,
    pub dq_confidence: Fx,
}

/// How trustworthy the timing of a batch is.
#[derive(Debug, Clone, Copy, PartialEq, Eq, Structural)]
pub enum Freshness {
    /// Every decision was anchored before its outcome could be known.
    Live,
    /// At least one decision is older than the bound. A weaker claim, and labelled so.
    Retrospective,
}

/// A batch ready to anchor.
#[derive(Debug)]
pub struct Attestation {
    pub root: Digest,
    pub digests: Vec<Digest>,
    pub count: usize,
    /// Unix seconds of the oldest and newest decision covered.
    pub window: (u64, u64),
    pub freshness: Freshness,
    /// Seconds between the oldest decision and the moment of attestation.
    pub max_lag_secs: u64,
}

/// A length-prefixed string: its byte length as a big-endian `u32`, then its bytes.
pub open spec fn field_spec(bytes: Seq<u8>) -> Seq<u8> {
    be_u32(bytes.len() as u32) + bytes
}

/// The domain tag of a decision digest: `scema-bot-mesh/decision/v1`.
pub open spec fn decision_tag() -> Seq<u8> {
    seq![115u8, 99, 101, 109, 97, 45, 98, 111, 116, 45, 109, 101, 115, 104, 47, 100, 101, 99, 105,
        115, 105, 111, 110, 47, 118, 49]
}

/// What a decision digest is taken over.
pub open spec fn decision_preimage(r: DecisionRecord, unix: u64) -> Seq<u8> {
    decision_tag() + be_u64(unix) + field_spec(encode_utf8(r.mint@)) + field_spec(encode_utf8(r.decision@))
        + field_spec(encode_utf8(r.stage@)) + field_spec(encode_utf8(r.reason@))
        + field_spec(encode_utf8(r.dq_action@)) + be_u32(r.pool_score.0 as u32) + be_u32(r.dq_confidence.0 as u32)
}

/// The canonical digest of one decision.
pub open spec fn decision_digest_spec(r: DecisionRecord, unix: u64) -> Seq<u8> {
    keccak256(decision_preimage(r, unix))
}

/// A length-prefixed field is read back unambiguously: two byte strings that each start
/// with such a field, of fewer than 2^32 bytes, agree only if the fields agree and so do
/// the rests.
proof fn split_field(x1: Seq<u8>, r1: Seq<u8>, x2: Seq<u8>, r2: Seq<u8>)
    requires
        x1.len() < 0x1_0000_0000,
        x2.len() < 0x1_0000_0000,
        field_spec(x1) + r1 == field_spec(x2) + r2,
    ensures
        x1 == x2,
        r1 == r2,
{
    let s1 = be_u32(x1.len() as u32);
    let s2 = be_u32(x2.len() as u32);
    assert(field_spec(x1) + r1 =~= s1 + (x1 + r1));
    assert(field_spec(x2) + r2 =~= s2 + (x2 + r2));
    split_equal_prefix(s1, x1 + r1, s2, x2 + r2);
    be_u32_injective(x1.len() as u32, x2.len() as u32);
    split_equal_prefix(x1, r1, x2, r2);
}

/// Whether every text field of a decision fits a 32-bit length prefix.
pub open spec fn fields_fit(r: DecisionRecord) -> bool {
    &&& encode_utf8(r.mint@).len() < 0x1_0000_0000
    &&& encode_utf8(r.decision@).len() < 0x1_0000_0000
    &&& encode_utf8(r.stage@).len() < 0x1_0000_0000
    &&& encode_utf8(r.reason@).len() < 0x1_0000_0000
    &&& encode_utf8(r.dq_action@).len() < 0x1_0000_0000
}

/// The preimage, read front to back: the tag, the time, then each field in turn.
pub open spec fn preimage_nested(r: DecisionRecord, t: u64) -> Seq<u8> {
    decision_tag() + (be_u64(t) + (field_spec(encode_utf8(r.mint@)) + (field_spec(encode_utf8(r.decision@)) + (
    field_spec(encode_utf8(r.stage@)) + (field_spec(encode_utf8(r.reason@)) + (field_spec(encode_utf8(r.dq_action@))
        + (be_u32(r.pool_score.0 as u32) + be_u32(r.dq_confidence.0 as u32))))))))
}

proof fn preimage_is_nested(r: DecisionRecord, t: u64)
    ensures
        decision_preimage(r, t) == preimage_nested(r, t),
{
    assert(decision_preimage(r, t) =~= preimage_nested(r, t));
}

/// Field boundaries are unambiguous: two decisions hash the same preimage only if every
/// field, the time and both scores agree; `("ab", "c")` and `("a", "bc")` are different
/// preimages. (The length prefix is 32 bits, so this holds for fields shorter than 4 GiB.)
pub proof fn field_boundaries_are_unambiguous(r1: DecisionRecord, t1: u64, r2: DecisionRecord, t2: u64)
    requires
        fields_fit(r1),
        fields_fit(r2),
        decision_preimage(r1, t1) == decision_preimage(r2, t2),
    ensures
        t1 == t2,
        r1.mint@ == r2.mint@,
        r1.decision@ == r2.decision@,
        r1.stage@ == r2.stage@,
        r1.reason@ == r2.reason@,
        r1.dq_action@ == r2.dq_action@,
        r1.pool_score == r2.pool_score,
        r1.dq_confidence == r2.dq_confidence,
{
    preimage_is_nested(r1, t1);
    preimage_is_nested(r2, t2);
    let m1 = encode_utf8(r1.mint@);
    let d1 = encode_utf8(r1.decision@);
    let s1 = encode_utf8(r1.stage@);
    let e1 = encode_utf8(r1.reason@);
    let q1 = encode_utf8(r1.dq_action@);
    let m2 = encode_utf8(r2.mint@);
    let d2 = encode_utf8(r2.decision@);
    let s2 = encode_utf8(r2.stage@);
    let e2 = encode_utf8(r2.reason@);
    let q2 = encode_utf8(r2.dq_action@);
    let p1 = be_u32(r1.pool_score.0 as u32);
    let p2 = be_u32(r2.pool_score.0 as u32);
    let c1 = be_u32(r1.dq_confidence.0 as u32);
    let c2 = be_u32(r2.dq_confidence.0 as u32);
    let rq1 = p1 + c1;
    let rq2 = p2 + c2;
    let re1 = field_spec(q1) + rq1;
    let re2 = field_spec(q2) + rq2;
    let rs1 = field_spec(e1) + re1;
    let rs2 = field_spec(e2) + re2;
    let rd1 = field_spec(s1) + rs1;
    let rd2 = field_spec(s2) + rs2;
    let rm1 = field_spec(d1) + rd1;
    let rm2 = field_spec(d2) + rd2;
    let b1 = field_spec(m1) + rm1;
    let b2 = field_spec(m2) + rm2;
    split_equal_prefix(decision_tag(), be_u64(t1) + b1, decision_tag(), be_u64(t2) + b2);
    split_equal_prefix(be_u64(t1), b1, be_u64(t2), b2);
    be_u64_injective(t1, t2);
    split_field(m1, rm1, m2, rm2);
    split_field(d1, rd1, d2, rd2);
    split_field(s1, rs1, s2, rs2);
    split_field(e1, re1, e2, re2);
    split_field(q1, rq1, q2, rq2);
    split_equal_prefix(p1, c1, p2, c2);
    be_u32_injective(r1.pool_score.0 as u32, r2.pool_score.0 as u32);
    be_u32_injective(r1.dq_confidence.0 as u32, r2.dq_confidence.0 as u32);
    let (a, b) = (r1.pool_score.0, r2.pool_score.0);
    assert((a as u32) == (b as u32) ==> a == b) by (bit_vector);
    let (c, d) = (r1.dq_confidence.0, r2.dq_confidence.0);
    assert((c as u32) == (d as u32) ==> c == d) by (bit_vector);
    vstd::utf8::encode_utf8_decode_utf8(r1.mint@);
    vstd::utf8::encode_utf8_decode_utf8(r2.mint@);
    vstd::utf8::encode_utf8_decode_utf8(r1.decision@);
    vstd::utf8::encode_utf8_decode_utf8(r2.decision@);
    vstd::utf8::encode_utf8_decode_utf8(r1.stage@);
    vstd::utf8::encode_utf8_decode_utf8(r2.stage@);
    vstd::utf8::encode_utf8_decode_utf8(r1.reason@);
    vstd::utf8::encode_utf8_decode_utf8(r2.reason@);
    vstd::utf8::encode_utf8_decode_utf8(r1.dq_action@);
    vstd::utf8::encode_utf8_decode_utf8(r2.dq_action@);
}

/// Domains are separated: a weights preimage, an inference-claim preimage and a decision
/// preimage never coincide, whatever they carry, because their tags differ at the same
/// byte (`scema-bot-mesh/` then `w`, `i` or `d`).
pub proof fn domains_are_separated(net: crate::net::PolicyNet, c: crate::commit::InferenceClaim, r: DecisionRecord, t: u64)
    ensures
        crate::commit::weights_preimage(net) != crate::commit::claim_preimage(c),
        crate::commit::weights_preimage(net) != decision_preimage(r, t),
        crate::commit::claim_preimage(c) != decision_preimage(r, t),
{
    let w = crate::commit::weights_preimage(net);
    let i = crate::commit::claim_preimage(c);
    let d = decision_preimage(r, t);
    assert(w[15] == 119u8);
    assert(i[15] == 105u8);
    assert(d[15] == 100u8);
}

/// Length-prefix a string's bytes.
pub fn field(bytes: &[u8]) -> (out: Vec<u8>)
    ensures
        out@ == field_spec(bytes@),
{
    let mut out: Vec<u8> = Vec::new();
    push_u32(&mut out, bytes.len() as u32);
    push_bytes(&mut out, bytes);
    out
}

fn push_field(out: &mut Vec<u8>, s: &String)
    ensures
        final(out)@ == old(out)@ + field_spec(encode_utf8(s@)),
{
    let f = field(s.as_str().as_bytes());
    push_bytes(out, f.as_slice());
}

/// Canonical digest of one decision. Every field is length-prefixed so that field
/// boundaries are unambiguous, and the scores are committed as their fixed-point bits.
pub fn decision_digest(r: &DecisionRecord, unix: u64) -> (d: Digest)
    ensures
        d.0@ == decision_digest_spec(*r, unix),
{
    let mut pre: Vec<u8> = vec![115u8, 99, 101, 109, 97, 45, 98, 111, 116, 45, 109, 101, 115, 104, 47,
        100, 101, 99, 105, 115, 105, 111, 110, 47, 118, 49];
    assert(pre@ =~= decision_tag());
    push_u64(&mut pre, unix);
    push_field(&mut pre, &r.mint);
    push_field(&mut pre, &r.decision);
    push_field(&mut pre, &r.stage);
    push_field(&mut pre, &r.reason);
    push_field(&mut pre, &r.dq_action);
    push_u32(&mut pre, r.pool_score.0 as u32);
    push_u32(&mut pre, r.dq_confidence.0 as u32);
    assert(pre@ =~= decision_preimage(*r, unix));
    hash_bytes(pre.as_slice())
}

/// The oldest timestamp among the records (`u64::MAX` for none).
pub open spec fn oldest(rs: Seq<(DecisionRecord, u64)>) -> u64
    decreases rs.len(),
{
    if rs.len() == 0 {
        u64::MAX
    } else {
        let o = oldest(rs.drop_last());
        if rs.last().1 < o { rs.last().1 } else { o }
    }
}

/// The newest timestamp among the records (0 for none).
pub open spec fn newest(rs: Seq<(DecisionRecord, u64)>) -> u64
    decreases rs.len(),
{
    if rs.len() == 0 {
        0
    } else {
        let n = newest(rs.drop_last());
        if rs.last().1 > n { rs.last().1 } else { n }
    }
}

/// `a - b`, or 0 when `b > a`.
pub open spec fn saturating_sub(a: u64, b: u64) -> u64 {
    if a >= b { (a - b) as u64 } else { 0 }
}

/// Build an attestation over decisions, as of `now`. `None` for an empty set.
pub fn attest(records: &[(DecisionRecord, u64)], now: u64, max_lag_secs: u64) -> (r: Option<Attestation>)
    ensures
        match r {
            None => records@.len() == 0,
            Some(a) => {
                &&& records@.len() > 0
                &&& a.digests@.len() == records@.len()
                &&& forall|i: int| 0 <= i < records@.len() ==> (#[trigger] a.digests@[i]).0@
                    == decision_digest_spec(records@[i].0, records@[i].1)
                &&& a.root.0@ == root_of(level0(a.digests@))
                &&& a.count == records@.len()
                &&& a.window == (oldest(records@), newest(records@))
                &&& a.max_lag_secs == saturating_sub(now, oldest(records@))
                &&& a.freshness == (if a.max_lag_secs <= max_lag_secs { Freshness::Live } else { Freshness::Retrospective })
            },
        },
{
    if records.len() == 0 {
        return None;
    }
    let mut batch = ClaimBatch::new();
    let mut digests: Vec<Digest> = Vec::new();
    let mut old: u64 = u64::MAX;
    let mut new: u64 = 0;
    let mut i: usize = 0;
    while i < records.len()
        invariant
            i <= records@.len(),
            digests@.len() == i,
            batch.view() == digests@,
            forall|k: int| 0 <= k < i ==> (#[trigger] digests@[k]).0@ == decision_digest_spec(records@[k].0, records@[k].1),
            old == oldest(records@.take(i as int)),
            new == newest(records@.take(i as int)),
        decreases records@.len() - i,
    {
        assert(records@.take(i as int + 1).drop_last() =~= records@.take(i as int));
        let entry = &records[i];
        let d = decision_digest(&entry.0, entry.1);
        batch.push(d);
        digests.push(d);
        if entry.1 < old {
            old = entry.1;
        }
        if entry.1 > new {
            new = entry.1;
        }
        i = i + 1;
    }
    assert(records@.take(records@.len() as int) =~= records@);
    let max_lag = if now >= old { now - old } else { 0 };
    let root = match batch.root() {
        Some(r) => r,
        None => return None,
    };
    Some(Attestation {
        root,
        digests,
        count: records.len(),
        window: (old, new),
        freshness: if max_lag <= max_lag_secs { Freshness::Live } else { Freshness::Retrospective },
        max_lag_secs: max_lag,
    })
}

/// The window of an attestation spans every decision it covers.
pub proof fn window_spans_all(rs: Seq<(DecisionRecord, u64)>)
    ensures
        forall|i: int| 0 <= i < rs.len() ==> oldest(rs) <= (#[trigger] rs[i]).1 <= newest(rs),
    decreases rs.len(),
{
    if rs.len() > 0 {
        window_spans_all(rs.drop_last());
        assert forall|i: int| 0 <= i < rs.len() implies oldest(rs) <= (#[trigger] rs[i]).1 <= newest(rs) by {
            if i < rs.len() - 1 {
                assert(rs.drop_last()[i] == rs[i]);
            }
        }
    }
}

} // verus!
