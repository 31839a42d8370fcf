//! The JSON-RPC client's decisions: which endpoints to try and in what order, when to
//! move on to the next one, how a quantity in a reply is read and how one is written.
//!
//! A transport failure moves to the next endpoint; a well-formed JSON-RPC error does not,
//! since every other node would give the same answer. Operator endpoints come before the
//! built-in list, which stays as a fallback.
use vstd::prelude::*;
use vstd::string::StringSliceAdditionalSpecFns;
use vstd::utf8::encode_utf8;

use crate::anchor::{hex_value, strip_0x};
use crate::chain::{Endpoint, EndpointKind, Network};
use crate::commit::{hex_char, hex_digit};

verus! {

/// The endpoint list of a network, with operator overrides in front.
#[derive(Debug, Clone)]
pub struct Client {
    network: Network,
    /// Extra endpoints from the operator, tried before the built-in list.
    overrides: Vec<Endpoint>,
}

impl Client {
    /// The network's own endpoints.
    pub closed spec fn network_view(&self) -> Network {
        self.network
    }

    /// The operator's endpoints, in the order they were added.
    pub closed spec fn overrides_view(&self) -> Seq<Endpoint> {
        self.overrides@
    }

    /// A client for a network, with no overrides.
    pub fn new(network: Network) -> (c: Client)
        ensures
            c.network_view() == network,
            c.overrides_view() == Seq::<Endpoint>::empty(),
    {
        Client { network, overrides: Vec::new() }
    }

    /// Add an operator endpoint, a node tried before the built-in list. The built-ins
    /// remain as fallback, so a private node going down degrades to public reads.
    pub fn with_endpoint(self, url: &'static str) -> (c: Client)
        ensures
            c.network_view() == self.network_view(),
            c.overrides_view().len() == self.overrides_view().len() + 1,
            c.overrides_view().drop_last() == self.overrides_view(),
            c.overrides_view().last().url == url,
            c.overrides_view().last().kind == EndpointKind::Node,
    {
        let mut c = self;
        c.overrides.push(Endpoint { url, kind: EndpointKind::Node, note: "operator override" });
        assert(c.overrides@.drop_last() =~= self.overrides@);
        c
    }

    /// The network this client talks to.
    pub fn network(&self) -> (n: &Network)
        ensures
            *n == self.network_view(),
    {
        &self.network
    }

    /// Every endpoint in the order to try them: the overrides, then the network's own.
    pub fn endpoints(&self) -> (v: Vec<Endpoint>)
        ensures
            v@ == self.overrides_view() + self.network_view().endpoints@,
    {
        let mut v: Vec<Endpoint> = Vec::new();
        let mut i: usize = 0;
        while i < self.overrides.len()
            invariant
                i <= self.overrides@.len(),
                v@ == self.overrides@.take(i as int),
            decreases self.overrides@.len() - i,
        {
            v.push(self.overrides[i]);
            i = i + 1;
            assert(v@ =~= self.overrides@.take(i as int));
        }
        let mut j: usize = 0;
        while j < self.network.endpoints.len()
            invariant
                i == self.overrides@.len(),
                j <= self.network.endpoints@.len(),
                v@ == self.overrides@ + self.network.endpoints@.take(j as int),
            decreases self.network.endpoints@.len() - j,
        {
            v.push(self.network.endpoints[j]);
            j = j + 1;
            assert(v@ =~= self.overrides@ + self.network.endpoints@.take(j as int));
        }
        assert(self.overrides@.take(i as int) =~= self.overrides@);
        assert(self.network.endpoints@.take(j as int) =~= self.network.endpoints@);
        v
    }
}

/// How one attempt at one endpoint went.
#[derive(Debug, Clone, Copy, PartialEq, Eq, Structural)]
pub enum Attempt {
    /// The endpoint answered with a result.
    Answered,
    /// The endpoint answered with a JSON-RPC error: the chain said no.
    Rejected,
    /// The endpoint could not be reached or its reply could not be read.
    Unreachable,
}

/// What to do after an attempt.
#[derive(Debug, Clone, Copy, PartialEq, Eq, Structural)]
pub enum NextStep {
    /// Return the answer.
    Done,
    /// Return the rejection; no other node would answer differently.
    Refused,
    /// Try the endpoint at this position.
    Try(usize),
    /// Every endpoint failed in transport.
    Exhausted,
}

/// After attempt `index` of `count` endpoints: an answer or a rejection ends the call,
/// and only a transport failure moves on.
pub fn after_attempt(index: usize, count: usize, attempt: Attempt) -> (n: NextStep)
    requires
        index < count,
    ensures
        attempt == Attempt::Answered ==> n == NextStep::Done,
        attempt == Attempt::Rejected ==> n == NextStep::Refused,
        attempt == Attempt::Unreachable && index + 1 < count ==> n == NextStep::Try((index + 1) as usize),
        attempt == Attempt::Unreachable && index + 1 == count ==> n == NextStep::Exhausted,
{
    match attempt {
        Attempt::Answered => NextStep::Done,
        Attempt::Rejected => NextStep::Refused,
        Attempt::Unreachable => if index + 1 < count {
            NextStep::Try(index + 1)
        } else {
            NextStep::Exhausted
        },
    }
}

/// The value of a string of hex digits, most significant first.
pub open spec fn hex_digits_value(d: Seq<u8>) -> nat
    decreases d.len(),
{
    if d.len() == 0 { 0 } else { hex_digits_value(d.drop_last()) * 16 + hex_value(d.last())->0 as nat }
}

/// Whether every byte is a hex digit.
pub open spec fn all_hex(d: Seq<u8>) -> bool {
    forall|i: int| 0 <= i < d.len() ==> (#[trigger] hex_value(d[i])) is Some
}

/// How a quantity is read: its leading `0x` prefixes dropped, then what
/// `from_str_radix(_, 16)` accepts (an optional `+`, then one or more hex digits), at
/// most `max`.
pub open spec fn quantity_spec(b: Seq<u8>, max: nat) -> Option<nat> {
    let c = strip_0x(b);
    let d = if c.len() > 0 && c[0] == 43 { c.drop_first() } else { c };
    if d.len() == 0 || !all_hex(d) || hex_digits_value(d) > max { None } else { Some(hex_digits_value(d)) }
}

/// Hex digits only grow a number as more are appended.
proof fn hex_value_grows(d: Seq<u8>, k: int)
    requires
        0 <= k <= d.len(),
        all_hex(d),
    ensures
        hex_digits_value(d.take(k)) <= hex_digits_value(d),
    decreases d.len() - k,
{
    if k < d.len() {
        hex_value_grows(d, k + 1);
        assert(d.take(k + 1).drop_last() =~= d.take(k));
        assert(hex_value(d[k]) is Some);
    } else {
        assert(d.take(k) =~= d);
    }
}

/// Read a `0x`-prefixed quantity of at most `u128::MAX`, as `quantity_spec` says.
pub fn parse_quantity(s: &str) -> (r: Option<u128>)
    ensures
        match quantity_spec(s.spec_bytes(), u128::MAX as nat) {
            Some(v) => r == Some(v as u128),
            None => r is None,
        },
{
    let b = s.as_bytes();
    let mut start: usize = 0;
    assert(b@.skip(0) =~= b@);
    while b.len() - start >= 2 && b[start] == 48 && b[start + 1] == 120
        invariant
            start <= b@.len(),
            strip_0x(b@.skip(start as int)) == strip_0x(b@),
        decreases b@.len() - start,
    {
        assert(b@.skip(start as int).skip(2) =~= b@.skip(start + 2));
        start = start + 2;
    }
    let ghost c = b@.skip(start as int);
    assert(strip_0x(c) == c);
    if start < b.len() && b[start] == 43 {
        start = start + 1;
    }
    let ghost d = b@.skip(start as int);
    assert(d =~= (if c.len() > 0 && c[0] == 43 { c.drop_first() } else { c }));
    if start >= b.len() {
        return None;
    }
    let mut v: u128 = 0;
    let mut i = start;
    while i < b.len()
        invariant
            start <= i <= b@.len(),
            start < b@.len(),
            d == b@.skip(start as int),
            d.len() > 0,
            strip_0x(b@) == c,
            d == (if c.len() > 0 && c[0] == 43 { c.drop_first() } else { c }),
            b@ == s.spec_bytes(),
            forall|k: int| start <= k < i ==> (#[trigger] hex_value(b@[k])) is Some,
            v == hex_digits_value(b@.subrange(start as int, i as int)),
        decreases b@.len() - i,
    {
        let digit = match crate::anchor::hex_value_exec(b[i]) {
            Some(x) => x,
            None => {
                assert(d[i - start] == b@[i as int]);
                assert(!all_hex(d));
                return None;
            },
        };
        assert(b@.subrange(start as int, i + 1).drop_last() =~= b@.subrange(start as int, i as int));
        if v > (u128::MAX - digit as u128) / 16 {
            proof {
                assert(v * 16 + digit > u128::MAX) by (nonlinear_arith)
                    requires v > (u128::MAX - digit) / 16, digit <= 15;
                if all_hex(d) {
                    hex_value_grows(d, i + 1 - start);
                    assert(d.take(i + 1 - start) =~= b@.subrange(start as int, i + 1));
                }
            }
            return None;
        }
        proof {
            assert(v * 16 + digit <= u128::MAX) by (nonlinear_arith)
                requires v <= (u128::MAX - digit) / 16, digit <= 15;
        }
        v = v * 16 + digit as u128;
        i = i + 1;
    }
    assert(b@.subrange(start as int, b@.len() as int) =~= d);
    assert(forall|k: int| 0 <= k < d.len() ==> (#[trigger] hex_value(d[k])) is Some <== forall|k: int| start <= k < b@.len() ==> (#[trigger] hex_value(b@[k])) is Some);
    Some(v)
}

/// Read a `0x`-prefixed quantity that must fit a `u64`.
pub fn parse_quantity_u64(s: &str) -> (r: Option<u64>)
    ensures
        match quantity_spec(s.spec_bytes(), u64::MAX as nat) {
            Some(v) => r == Some(v as u64),
            None => r is None,
        },
{
    match parse_quantity(s) {
        Some(v) => if v <= u64::MAX as u128 {
            Some(v as u64)
        } else {
            None
        },
        None => None,
    }
}

/// The `result` of a JSON-RPC reply, as the client reads it: its text when it is a JSON
/// string, `None` for any other JSON value (a bare number is not a quantity).
#[derive(Debug, Clone, PartialEq, Eq)]
pub struct RpcReply {
    pub result: Option<String>,
}

/// A text that may be absent, as characters.
pub open spec fn text_of(t: Option<&str>) -> Option<Seq<char>> {
    match t {
        Some(s) => Some(s@),
        None => None,
    }
}

/// The text of a reply's result, if it was a JSON string.
pub open spec fn reply_text(r: RpcReply) -> Option<Seq<char>> {
    match r.result {
        Some(s) => Some(s@),
        None => None,
    }
}

/// Why a reply's quantity could not be read.
#[derive(Debug, Clone, Copy, PartialEq, Eq, Structural)]
pub enum QuantityError {
    /// The value is not a JSON string; a bare number is not a quantity.
    NotAString,
    /// The string is not a hex quantity that fits.
    BadHex,
}

/// The lowercase hex digits of `n`, most significant first, with no leading zeros.
pub open spec fn hex_digits(n: nat) -> Seq<char>
    decreases n,
{
    if n < 16 {
        seq![hex_char(n as u8)]
    } else {
        hex_digits(n / 16) + seq![hex_char((n % 16) as u8)]
    }
}

/// A quantity as the client writes one into a request: `0x` and the lowercase hex digits,
/// as `format!("0x{n:x}")` writes them.
pub open spec fn quantity_text(n: nat) -> Seq<char> {
    "0x"@ + hex_digits(n)
}

/// Append the lowercase hex digits of `n`.
fn push_hex(s: &mut String, n: u64)
    ensures
        final(s)@ == old(s)@ + hex_digits(n as nat),
    decreases n,
{
    if n >= 16 {
        push_hex(s, n / 16);
    }
    let d = (n % 16) as u8;
    s.append(hex_digit(d));
}

/// Write a block number or other quantity for a request.
pub fn to_quantity(n: u64) -> (s: String)
    ensures
        s@ == quantity_text(n as nat),
{
    let mut s = String::from_str("0x");
    push_hex(&mut s, n);
    s
}

/// Each digit written is a hex digit of its value, and never an `x`.
proof fn hex_char_reads_back(d: u8)
    requires
        d < 16,
    ensures
        (hex_char(d) as u32) < 128,
        hex_value(hex_char(d) as u8) == Some(d),
        hex_char(d) != 'x',
{
}

/// The digits written are plain ASCII, and read back as the number.
proof fn hex_digits_read_back(n: nat)
    ensures
        vstd::utf8::is_ascii_chars(hex_digits(n)),
        hex_digits(n).len() >= 1,
        forall|i: int| 0 <= i < hex_digits(n).len() ==> hex_digits(n)[i] != 'x',
        all_hex(Seq::new(hex_digits(n).len(), |i: int| hex_digits(n)[i] as u8)),
        hex_digits_value(Seq::new(hex_digits(n).len(), |i: int| hex_digits(n)[i] as u8)) == n,
    decreases n,
{
    let h = hex_digits(n);
    let b = Seq::new(h.len(), |i: int| h[i] as u8);
    if n < 16 {
        hex_char_reads_back(n as u8);
        assert(b.drop_last() =~= Seq::<u8>::empty());
        assert(b.last() == hex_char(n as u8) as u8);
        assert(hex_digits_value(b) == hex_digits_value(b.drop_last()) * 16 + hex_value(b.last())->0 as nat);
    } else {
        let p = hex_digits(n / 16);
        let pb = Seq::new(p.len(), |i: int| p[i] as u8);
        hex_digits_read_back(n / 16);
        hex_char_reads_back((n % 16) as u8);
        assert(h == p + seq![hex_char((n % 16) as u8)]);
        assert(b.drop_last() =~= pb);
        assert(forall|i: int| 0 <= i < p.len() ==> h[i] == p[i]);
        assert(b.last() == hex_char((n % 16) as u8) as u8);
        assert(hex_digits_value(b) == hex_digits_value(pb) * 16 + (n % 16));
        assert(n == (n / 16) * 16 + n % 16);
        assert(all_hex(b)) by {
            assert forall|i: int| 0 <= i < b.len() implies (#[trigger] hex_value(b[i])) is Some by {
                if i < p.len() {
                    assert(b[i] == pb[i]);
                }
            }
        }
    }
}

/// A quantity the client writes reads back as the same number: `to_quantity` and
/// `parse_quantity_u64` are inverse.
pub proof fn quantity_round_trip(n: u64)
    ensures
        quantity_spec(vstd::utf8::encode_utf8(quantity_text(n as nat)), u64::MAX as nat) == Some(n as nat),
{
    reveal_strlit("0x");
    let h = hex_digits(n as nat);
    let t = quantity_text(n as nat);
    hex_digits_read_back(n as nat);
    assert(vstd::utf8::is_ascii_chars(t)) by {
        assert forall|i: int| 0 <= i < t.len() implies '\0' <= #[trigger] t[i] <= '\u{7f}' by {
            if i >= 2 {
                assert(t[i] == h[i - 2]);
            }
        }
    }
    vstd::utf8::is_ascii_chars_encode_utf8(t);
    let b = vstd::utf8::encode_utf8(t);
    let d = Seq::new(h.len(), |i: int| h[i] as u8);
    assert(b[0] == 48 && b[1] == 120);
    assert(b.skip(2) =~= d) by {
        assert forall|i: int| 0 <= i < d.len() implies b.skip(2)[i] == d[i] by {
            assert(t[i + 2] == h[i]);
        }
    }
    assert(strip_0x(d) == d) by {
        if d.len() >= 2 {
            assert(h[1] != 'x');
        }
    }
    assert(strip_0x(b) == d);
    assert(d[0] != 43) by {
        assert(hex_value(d[0]) is Some);
    }
}

/// What `quantity_u64_of` reads from a reply's text.
pub open spec fn quantity_u64_of_spec(text: Option<Seq<char>>) -> Result<u64, QuantityError> {
    match text {
        None => Err(QuantityError::NotAString),
        Some(s) => match quantity_spec(encode_utf8(s), u64::MAX as nat) {
            Some(v) => Ok(v as u64),
            None => Err(QuantityError::BadHex),
        },
    }
}

/// Read a reply's text as a `u64` quantity: `NotAString` when the reply held no string,
/// `BadHex` when the string is not a quantity that fits.
pub fn quantity_u64_of(text: Option<&str>) -> (r: Result<u64, QuantityError>)
    ensures
        r == quantity_u64_of_spec(text_of(text)),
{
    match text {
        None => Err(QuantityError::NotAString),
        Some(s) => match parse_quantity_u64(s) {
            Some(n) => Ok(n),
            None => Err(QuantityError::BadHex),
        },
    }
}

/// What `quantity_u128_of` reads from a reply's text.
pub open spec fn quantity_u128_of_spec(text: Option<Seq<char>>) -> Result<u128, QuantityError> {
    match text {
        None => Err(QuantityError::NotAString),
        Some(s) => match quantity_spec(encode_utf8(s), u128::MAX as nat) {
            Some(v) => Ok(v as u128),
            None => Err(QuantityError::BadHex),
        },
    }
}

/// Read a reply's text as a `u128` quantity, as `quantity_u64_of` does for `u64`.
pub fn quantity_u128_of(text: Option<&str>) -> (r: Result<u128, QuantityError>)
    ensures
        r == quantity_u128_of_spec(text_of(text)),
{
    match text {
        None => Err(QuantityError::NotAString),
        Some(s) => match parse_quantity(s) {
            Some(n) => Ok(n),
            None => Err(QuantityError::BadHex),
        },
    }
}

/// Parse a `0x`-prefixed quantity from a reply, as a `u64`: its result's text read by
/// `quantity_u64_of`.
pub fn hex_u64(reply: &RpcReply) -> (r: Result<u64, QuantityError>)
    ensures
        r == quantity_u64_of_spec(reply_text(*reply)),
{
    match &reply.result {
        Some(t) => quantity_u64_of(Some(t.as_str())),
        None => quantity_u64_of(None),
    }
}

/// Parse a `0x`-prefixed quantity from a reply, as a `u128`: its result's text read by
/// `quantity_u128_of`.
pub fn hex_u128(reply: &RpcReply) -> (r: Result<u128, QuantityError>)
    ensures
        r == quantity_u128_of_spec(reply_text(*reply)),
{
    match &reply.result {
        Some(t) => quantity_u128_of(Some(t.as_str())),
        None => quantity_u128_of(None),
    }
}

/// Why an endpoint's chain id was not accepted.
#[derive(Debug, Clone, Copy, PartialEq, Eq, Structural)]
pub enum ChainIdError {
    /// The reply did not hold a quantity.
    Unreadable(QuantityError),
    /// The endpoint answered for another chain: the wrong network, or a chain-id
    /// collision. Nothing further is trusted from it.
    WrongChain { got: u64, expected: u64 },
}

impl Client {
    /// What `chain_id_verdict` decides for a reply's text.
    pub open spec fn chain_id_verdict_spec(&self, text: Option<Seq<char>>) -> Result<u64, ChainIdError> {
        match quantity_u64_of_spec(text) {
            Err(e) => Err(ChainIdError::Unreadable(e)),
            Ok(got) => if got == self.network_view().chain_id {
                Ok(got)
            } else {
                Err(ChainIdError::WrongChain { got, expected: self.network_view().chain_id })
            },
        }
    }

    /// Judge an endpoint's `eth_chainId` reply text against the network this client is
    /// pinned to: the id when it is the expected one, else why not. Chain ids are not
    /// unique, so the check that means something is that this endpoint reports the id
    /// this network expects.
    pub fn chain_id_verdict(&self, text: Option<&str>) -> (r: Result<u64, ChainIdError>)
        ensures
            r == self.chain_id_verdict_spec(text_of(text)),
    {
        match quantity_u64_of(text) {
            Err(e) => Err(ChainIdError::Unreadable(e)),
            Ok(got) => if got == self.network.chain_id {
                Ok(got)
            } else {
                Err(ChainIdError::WrongChain { got, expected: self.network.chain_id })
            },
        }
    }

    /// Judge an endpoint's `eth_chainId` reply: its result's text judged by
    /// `chain_id_verdict`. Only the expected id is ever accepted.
    pub fn check_chain_id(&self, reply: &RpcReply) -> (r: Result<u64, ChainIdError>)
        ensures
            r == self.chain_id_verdict_spec(reply_text(*reply)),
    {
        match &reply.result {
            Some(t) => self.chain_id_verdict(Some(t.as_str())),
            None => self.chain_id_verdict(None),
        }
    }
}

} // verus!
