//! Commitments: a policy's weights and an inference, each reduced to 32 bytes.
//!
//! The weights hash binds the network's shape and every parameter; a claim binds the
//! weights hash, the input, the Q-values and the chosen action. Both are domain-separated
//! by a version tag so neither can stand in for the other.
use vstd::prelude::*;

use crate::bytes::{be_u32, be_u32_injective, push_bytes, push_u32, split_equal_prefix};
use crate::fixed::Fx;
use crate::keccak::{keccak, keccak256};
use crate::net::{MeshError, PolicyNet};
use crate::format::{hidden_words, words};

verus! {

/// A 32-byte keccak256 digest, ABI-compatible with Solidity's `bytes32`.
#[derive(Debug, Clone, Copy, PartialEq, Eq, PartialOrd, Ord, Hash, Default)]
pub struct Digest(pub [u8; 32]);

/// The lowercase hex digit for a value below 16.
pub open spec fn hex_char(n: u8) -> char {
    if n < 10 { (48 + n) as char } else { (87 + n) as char }
}

/// Two lowercase hex digits per byte.
pub open spec fn hex_body(bytes: Seq<u8>) -> Seq<char>
    decreases bytes.len(),
{
    if bytes.len() == 0 {
        Seq::empty()
    } else {
        hex_body(bytes.drop_last()) + seq![hex_char(bytes.last() >> 4u8), hex_char(bytes.last() & 15u8)]
    }
}

/// `0x` followed by the lowercase hex of the bytes.
pub open spec fn hex_string(bytes: Seq<u8>) -> Seq<char> {
    seq!['0', 'x'] + hex_body(bytes)
}

/// The one-character string for a hex digit.
pub fn hex_digit(n: u8) -> (s: &'static str)
    requires
        n < 16,
    ensures
        s@ == seq![hex_char(n)],
{
    proof {
        reveal_strlit("0"); reveal_strlit("1"); reveal_strlit("2"); reveal_strlit("3");
        reveal_strlit("4"); reveal_strlit("5"); reveal_strlit("6"); reveal_strlit("7");
        reveal_strlit("8"); reveal_strlit("9"); reveal_strlit("a"); reveal_strlit("b");
        reveal_strlit("c"); reveal_strlit("d"); reveal_strlit("e"); reveal_strlit("f");
    }
    match n {
        0 => "0",
        1 => "1",
        2 => "2",
        3 => "3",
        4 => "4",
        5 => "5",
        6 => "6",
        7 => "7",
        8 => "8",
        9 => "9",
        10 => "a",
        11 => "b",
        12 => "c",
        13 => "d",
        14 => "e",
        _ => "f",
    }
}

/// `0x` and the lowercase hex of a byte slice.
pub fn hex_of(bytes: &[u8]) -> (s: String)
    ensures
        s@ == hex_string(bytes@),
{
    proof {
        reveal_strlit("0x");
    }
    let mut s = String::from_str("0x");
    let mut i: usize = 0;
    while i < bytes.len()
        invariant
            i <= bytes@.len(),
            s@ == hex_string(bytes@.take(i as int)),
        decreases bytes@.len() - i,
    {
        let b = bytes[i];
        assert(b >> 4u8 < 16 && b & 15u8 < 16) by (bit_vector);
        s.append(hex_digit(b >> 4));
        s.append(hex_digit(b & 15));
        assert(bytes@.take(i as int + 1).drop_last() =~= bytes@.take(i as int));
        i = i + 1;
        assert(s@ =~= hex_string(bytes@.take(i as int)));
    }
    assert(bytes@.take(bytes@.len() as int) =~= bytes@);
    s
}

impl Digest {
    /// `0x` followed by 64 lowercase hex digits.
    pub fn to_hex(self) -> (s: String)
        ensures
            s@ == hex_string(self.0@),
    {
        hex_of(&self.0)
    }

    /// Byte-for-byte equality.
    pub fn same_as(&self, other: &Digest) -> (r: bool)
        ensures
            r == (self.0@ == other.0@),
    {
        let mut i: usize = 0;
        while i < 32
            invariant
                i <= 32,
                forall|k: int| 0 <= k < i ==> self.0@[k] == other.0@[k],
            decreases 32 - i,
        {
            if self.0[i] != other.0[i] {
                return false;
            }
            i = i + 1;
        }
        assert(self.0@ =~= other.0@);
        true
    }
}

/// The 32 bytes of a Keccak-256 digest of `data`, as a [`Digest`].
pub fn hash_bytes(data: &[u8]) -> (d: Digest)
    ensures
        d.0@ == keccak256(data@),
{
    Digest(keccak(data))
}

/// Big-endian `int32` encoding of fixed-point values, in order.
pub open spec fn encode_fx(values: Seq<Fx>) -> Seq<u8>
    decreases values.len(),
{
    if values.len() == 0 {
        Seq::empty()
    } else {
        encode_fx(values.drop_last()) + be_u32(values.last().0 as u32)
    }
}

/// Append the big-endian encoding of fixed-point values.
pub fn push_fx(out: &mut Vec<u8>, values: &[Fx])
    ensures
        final(out)@ == old(out)@ + encode_fx(values@),
{
    let mut i: usize = 0;
    while i < values.len()
        invariant
            i <= values@.len(),
            out@ == old(out)@ + encode_fx(values@.take(i as int)),
        decreases values@.len() - i,
    {
        assert(values@.take(i as int + 1).drop_last() =~= values@.take(i as int));
        push_u32(out, values[i].0 as u32);
        i = i + 1;
        assert(out@ =~= old(out)@ + encode_fx(values@.take(i as int)));
    }
    assert(values@.take(values@.len() as int) =~= values@);
}

/// The domain tag of a weights hash: `scema-bot-mesh/weights/v1`.
pub open spec fn weights_tag() -> Seq<u8> {
    seq![115u8, 99, 101, 109, 97, 45, 98, 111, 116, 45, 109, 101, 115, 104, 47, 119, 101, 105,
        103, 104, 116, 115, 47, 118, 49]
}

/// The domain tag of an inference digest: `scema-bot-mesh/inference/v1`.
pub open spec fn inference_tag() -> Seq<u8> {
    seq![115u8, 99, 101, 109, 97, 45, 98, 111, 116, 45, 109, 101, 115, 104, 47, 105, 110, 102,
        101, 114, 101, 110, 99, 101, 47, 118, 49]
}

fn weights_tag_bytes() -> (v: Vec<u8>)
    ensures
        v@ == weights_tag(),
{
    let v: Vec<u8> = vec![115u8, 99, 101, 109, 97, 45, 98, 111, 116, 45, 109, 101, 115, 104, 47,
        119, 101, 105, 103, 104, 116, 115, 47, 118, 49];
    assert(v@ =~= weights_tag());
    v
}

fn inference_tag_bytes() -> (v: Vec<u8>)
    ensures
        v@ == inference_tag(),
{
    let v: Vec<u8> = vec![115u8, 99, 101, 109, 97, 45, 98, 111, 116, 45, 109, 101, 115, 104, 47,
        105, 110, 102, 101, 114, 101, 110, 99, 101, 47, 118, 49];
    assert(v@ =~= inference_tag());
    v
}

/// What a weights hash is taken over: the tag, the shape (state width, hidden layer
/// count, each hidden layer's width, action count, each as a big-endian `u32`) and every
/// parameter. Two networks with identical parameter vectors but different layer widths
/// therefore never hash the same preimage.
pub open spec fn weights_preimage(net: PolicyNet) -> Seq<u8> {
    weights_tag() + be_u32(net.state_dim_spec() as u32) + be_u32(net.trunk@.len() as u32) + words(
        hidden_words(net),
    ) + be_u32(net.advantage_head.outputs as u32) + encode_fx(net.params_spec())
}

/// The commitment identifying a policy.
pub open spec fn weights_hash_spec(net: PolicyNet) -> Seq<u8> {
    keccak256(weights_preimage(net))
}

/// Hash of a policy's shape and parameters.
pub fn weights_hash(net: &PolicyNet) -> (d: Digest)
    ensures
        d.0@ == weights_hash_spec(*net),
{
    let mut pre = weights_tag_bytes();
    push_u32(&mut pre, net.state_dim() as u32);
    push_u32(&mut pre, net.trunk.len() as u32);
    let ghost head = pre@;
    let mut i: usize = 0;
    while i < net.trunk.len()
        invariant
            i <= net.trunk@.len(),
            pre@ == head + words(hidden_words(*net).take(i as int)),
        decreases net.trunk@.len() - i,
    {
        assert(hidden_words(*net).take(i as int + 1).drop_last() =~= hidden_words(*net).take(i as int));
        push_u32(&mut pre, net.trunk[i].outputs as u32);
        i = i + 1;
        assert(pre@ =~= head + words(hidden_words(*net).take(i as int)));
    }
    assert(hidden_words(*net).take(net.trunk@.len() as int) =~= hidden_words(*net));
    push_u32(&mut pre, net.action_count() as u32);
    let params = net.parameters();
    push_fx(&mut pre, params.as_slice());
    assert(pre@ =~= weights_preimage(*net));
    hash_bytes(pre.as_slice())
}

/// A claim that a policy produced an action for an input.
#[derive(Debug, Clone, PartialEq, Eq)]
pub struct InferenceClaim {
    pub weights: Digest,
    pub input: Vec<Fx>,
    pub q_values: Vec<Fx>,
    pub action: usize,
}

/// How a claim fares when re-run against a policy.
#[derive(Debug, Clone, Copy, PartialEq, Eq, Structural)]
pub enum Verdict {
    Valid,
    /// The policy supplied is not the one the claim committed to.
    WrongWeights,
    /// Right policy, different Q-values: the claimed inference did not happen.
    OutputMismatch,
    /// Q-values match but the chosen action does not follow from them.
    ActionMismatch,
    /// The input does not fit the network. A malformed claim, not a dishonest one.
    Unrunnable,
}

impl Verdict {
    pub open spec fn is_valid_spec(self) -> bool {
        self is Valid
    }

    pub open spec fn is_slashable_spec(self) -> bool {
        self is WrongWeights || self is OutputMismatch || self is ActionMismatch
    }

    pub fn is_valid(self) -> (b: bool)
        ensures
            b == self.is_valid_spec(),
    {
        match self {
            Verdict::Valid => true,
            _ => false,
        }
    }

    /// Whether this verdict justifies slashing. A malformed claim is a bug, not fraud.
    pub fn is_slashable(self) -> (b: bool)
        ensures
            b == self.is_slashable_spec(),
    {
        match self {
            Verdict::WrongWeights | Verdict::OutputMismatch | Verdict::ActionMismatch => true,
            _ => false,
        }
    }
}

/// What the 32-byte claim digest is taken over.
pub open spec fn claim_preimage(c: InferenceClaim) -> Seq<u8> {
    inference_tag() + c.weights.0@ + encode_fx(c.input@) + encode_fx(c.q_values@)
        + be_u32(c.action as u32)
}

/// Whether a claim records exactly what `net` produces for `input`.
pub open spec fn is_honest_claim(c: InferenceClaim, net: PolicyNet) -> bool {
    &&& c.weights.0@ == weights_hash_spec(net)
    &&& net.q_spec(c.input@) == Ok::<Seq<Fx>, MeshError>(c.q_values@)
    &&& net.act_spec(c.input@) == Ok::<usize, MeshError>(c.action)
}

/// The verdict of re-running a claim against a policy.
pub open spec fn verdict_spec(c: InferenceClaim, net: PolicyNet) -> Verdict {
    if weights_hash_spec(net) != c.weights.0@ {
        Verdict::WrongWeights
    } else {
        match net.q_spec(c.input@) {
            Err(_) => Verdict::Unrunnable,
            Ok(q) => if q != c.q_values@ {
                Verdict::OutputMismatch
            } else {
                match net.act_spec(c.input@) {
                    Ok(a) => if a == c.action { Verdict::Valid } else { Verdict::ActionMismatch },
                    Err(_) => Verdict::Unrunnable,
                }
            },
        }
    }
}

/// Equality of two fixed-point vectors.
pub fn fx_slices_equal(a: &[Fx], b: &[Fx]) -> (r: bool)
    ensures
        r == (a@ == b@),
{
    if a.len() != b.len() {
        return false;
    }
    let mut i: usize = 0;
    while i < a.len()
        invariant
            i <= a@.len(),
            a@.len() == b@.len(),
            forall|k: int| 0 <= k < i ==> a@[k] == b@[k],
        decreases a@.len() - i,
    {
        if a[i].0 != b[i].0 {
            return false;
        }
        i = i + 1;
    }
    assert(a@ =~= b@);
    true
}

impl InferenceClaim {
    /// Run the policy and record what it produced.
    pub fn produce(net: &PolicyNet, input: &[Fx]) -> (r: Result<InferenceClaim, MeshError>)
        requires
            net.well_formed(),
        ensures
            match r {
                Ok(c) => is_honest_claim(c, *net) && c.input@ == input@,
                Err(e) => net.q_spec(input@) == Err::<Seq<Fx>, MeshError>(e),
            },
    {
        let q_values = match net.q_values(input) {
            Ok(q) => q,
            Err(e) => return Err(e),
        };
        let action = match net.act(input) {
            Ok(a) => a,
            Err(e) => return Err(e),
        };
        Ok(InferenceClaim {
            weights: weights_hash(net),
            input: vstd::slice::slice_to_vec(input),
            q_values,
            action,
        })
    }

    /// The 32 bytes that go on-chain.
    pub fn digest(&self) -> (d: Digest)
        ensures
            d.0@ == keccak256(claim_preimage(*self)),
    {
        let mut pre = inference_tag_bytes();
        push_bytes(&mut pre, &self.weights.0);
        push_fx(&mut pre, self.input.as_slice());
        push_fx(&mut pre, self.q_values.as_slice());
        push_u32(&mut pre, self.action as u32);
        hash_bytes(pre.as_slice())
    }

    /// Re-run the claim against a policy and report whether, and how, it fails.
    pub fn verify(&self, net: &PolicyNet) -> (v: Verdict)
        requires
            net.well_formed(),
        ensures
            v == verdict_spec(*self, *net),
    {
        if !weights_hash(net).same_as(&self.weights) {
            return Verdict::WrongWeights;
        }
        let q = match net.q_values(self.input.as_slice()) {
            Ok(q) => q,
            Err(_) => return Verdict::Unrunnable,
        };
        if !fx_slices_equal(q.as_slice(), self.q_values.as_slice()) {
            return Verdict::OutputMismatch;
        }
        match net.act(self.input.as_slice()) {
            Ok(a) => if a == self.action { Verdict::Valid } else { Verdict::ActionMismatch },
            Err(_) => Verdict::Unrunnable,
        }
    }
}

/// A claim that records exactly what the policy produced is judged valid by anyone who
/// re-runs it against that policy: an honest agent can always be vindicated.
pub proof fn honest_claims_verify(c: InferenceClaim, net: PolicyNet)
    requires
        is_honest_claim(c, net),
    ensures
        verdict_spec(c, net) == Verdict::Valid,
{
}

/// A claim whose recorded action differs from the policy's choice is refused, and the
/// refusal is a slashable one.
pub proof fn misreported_action_is_slashable(c: InferenceClaim, net: PolicyNet)
    requires
        c.weights.0@ == weights_hash_spec(net),
        net.q_spec(c.input@) == Ok::<Seq<Fx>, MeshError>(c.q_values@),
        net.act_spec(c.input@) is Ok,
        net.act_spec(c.input@) != Ok::<usize, MeshError>(c.action),
    ensures
        verdict_spec(c, net) == Verdict::ActionMismatch,
        verdict_spec(c, net).is_slashable_spec(),
{
}

/// Each value takes four bytes.
proof fn encode_fx_len(v: Seq<Fx>)
    ensures
        encode_fx(v).len() == 4 * v.len(),
    decreases v.len(),
{
    if v.len() > 0 {
        encode_fx_len(v.drop_last());
    }
}

/// Encodings of equally many values agree only on equal values.
proof fn encode_fx_injective(a: Seq<Fx>, b: Seq<Fx>)
    requires
        a.len() == b.len(),
        encode_fx(a) == encode_fx(b),
    ensures
        a == b,
    decreases a.len(),
{
    if a.len() > 0 {
        encode_fx_len(a.drop_last());
        encode_fx_len(b.drop_last());
        split_equal_prefix(
            encode_fx(a.drop_last()),
            be_u32(a.last().0 as u32),
            encode_fx(b.drop_last()),
            be_u32(b.last().0 as u32),
        );
        encode_fx_injective(a.drop_last(), b.drop_last());
        be_u32_injective(a.last().0 as u32, b.last().0 as u32);
        let x = a.last().0;
        let y = b.last().0;
        assert(x as u32 == y as u32 ==> x == y) by (bit_vector);
        assert(a =~= a.drop_last().push(a.last()));
        assert(b =~= b.drop_last().push(b.last()));
    }
}

/// A claim's digest is taken over bytes that fix the whole claim: two claims whose inputs
/// have one width (as all claims on one policy do) and whose actions fit in 32 bits have
/// the same preimage only when they agree on the weights, the input, the Q-values and the
/// action.
pub proof fn a_claim_preimage_fixes_the_claim(c1: InferenceClaim, c2: InferenceClaim)
    requires
        c1.input@.len() == c2.input@.len(),
        c1.action < 0x1_0000_0000,
        c2.action < 0x1_0000_0000,
        claim_preimage(c1) == claim_preimage(c2),
    ensures
        c1.weights.0@ == c2.weights.0@,
        c1.input@ == c2.input@,
        c1.q_values@ == c2.q_values@,
        c1.action == c2.action,
{
    let t = inference_tag();
    let w1 = c1.weights.0@;
    let w2 = c2.weights.0@;
    let i1 = encode_fx(c1.input@);
    let i2 = encode_fx(c2.input@);
    let q1 = encode_fx(c1.q_values@);
    let q2 = encode_fx(c2.q_values@);
    let a1 = be_u32(c1.action as u32);
    let a2 = be_u32(c2.action as u32);
    encode_fx_len(c1.input@);
    encode_fx_len(c2.input@);
    encode_fx_len(c1.q_values@);
    encode_fx_len(c2.q_values@);
    assert(w1.len() == 32 && w2.len() == 32);
    assert((t + w1 + i1 + q1 + a1).len() == (t + w2 + i2 + q2 + a2).len());
    split_equal_prefix(t + w1 + i1 + q1, a1, t + w2 + i2 + q2, a2);
    split_equal_prefix(t + w1 + i1, q1, t + w2 + i2, q2);
    split_equal_prefix(t + w1, i1, t + w2, i2);
    split_equal_prefix(t, w1, t, w2);
    encode_fx_injective(c1.input@, c2.input@);
    encode_fx_injective(c1.q_values@, c2.q_values@);
    be_u32_injective(c1.action as u32, c2.action as u32);
}

} // verus!

