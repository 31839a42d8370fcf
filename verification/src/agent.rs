//! `Agent`: a policy plus its commitment bookkeeping.
//!
//! Acting is synchronous and local. Depending on the record mode each act also records
//! the digest of an inference claim (and optionally the claim itself); a flush seals the
//! recorded digests under one Merkle root.
use vstd::prelude::*;

use crate::batch::{level0, root_of, ClaimBatch};
use crate::bytes::be_u32;
use crate::commit::{
    encode_fx, inference_tag, weights_hash, weights_hash_spec, Digest, InferenceClaim,
};
use crate::fixed::Fx;
use crate::format::{
    decode_spec, encode_spec, err_view, fits_header, is_canonical, round_trip, shape_determines_network,
    shape_determines_weights_hash, shape_view, ErrView, FormatError, ShapeView,
};
use crate::keccak::keccak256;
use crate::net::{MeshError, PolicyNet};

verus! {

#[derive(Debug, Clone, Copy, PartialEq, Eq, Structural)]
pub enum RecordMode {
    /// Keep every claim. Full auditability, memory grows until flushed.
    All,
    /// Keep only the digest of each claim: enough to anchor and to prove inclusion.
    DigestsOnly,
    /// Record nothing.
    Off,
}

#[derive(Debug)]
pub enum AgentError {
    Net(MeshError),
    Format(FormatError),
}

/// What loading `bytes` gives: an agent whose policy is what the file decodes to, well
/// formed and within the header's limits, with nothing recorded yet; or the file's error.
pub open spec fn load_outcome(bytes: Seq<u8>, mode: RecordMode, r: Result<Agent, AgentError>) -> bool {
    match r {
        Ok(a) => a.inv() && decode_spec(bytes) == Ok::<ShapeView, ErrView>(shape_view(a.policy_view()))
            && is_canonical(a.policy_view()) && fits_header(a.policy_view()) && a.mode_view() == mode
            && a.pending_view() == Seq::<Digest>::empty() && a.acts_view() == 0,
        Err(AgentError::Format(e)) => decode_spec(bytes) == Err::<ShapeView, ErrView>(err_view(e)),
        Err(AgentError::Net(_)) => false,
    }
}

/// Saving an agent and loading the saved bytes back always succeeds, and gives an agent
/// with the same policy, layer by layer and parameter by parameter, the same weights
/// commitment, and nothing pending.
pub proof fn a_saved_agent_loads_back(a: Agent, mode: RecordMode, r: Result<Agent, AgentError>)
    requires
        is_canonical(a.policy_view()),
        fits_header(a.policy_view()),
        load_outcome(encode_spec(a.policy_view()), mode, r),
    ensures
        r is Ok,
        shape_view(r->Ok_0.policy_view()) == shape_view(a.policy_view()),
        weights_hash_spec(r->Ok_0.policy_view()) == weights_hash_spec(a.policy_view()),
        r->Ok_0.policy_view().trunk@.len() == a.policy_view().trunk@.len(),
        forall|i: int| 0 <= i < a.policy_view().all_layers().len() ==> {
            &&& (#[trigger] r->Ok_0.policy_view().all_layers()[i]).inputs == a.policy_view().all_layers()[i].inputs
            &&& r->Ok_0.policy_view().all_layers()[i].outputs == a.policy_view().all_layers()[i].outputs
            &&& r->Ok_0.policy_view().all_layers()[i].weights@ == a.policy_view().all_layers()[i].weights@
            &&& r->Ok_0.policy_view().all_layers()[i].biases@ == a.policy_view().all_layers()[i].biases@
        },
        r->Ok_0.pending_view() == Seq::<Digest>::empty(),
        r->Ok_0.acts_view() == 0,
{
    round_trip(a.policy_view());
    let b = r->Ok_0;
    shape_determines_network(a.policy_view(), b.policy_view());
    shape_determines_weights_hash(b.policy_view(), a.policy_view());
}

/// The digest an honest claim about `net` acting on `obs` commits to.
pub open spec fn honest_digest(net: PolicyNet, obs: Seq<Fx>, q: Seq<Fx>, action: usize) -> Seq<u8> {
    keccak256(inference_tag() + weights_hash_spec(net) + encode_fx(obs) + encode_fx(q) + be_u32(action as u32))
}

/// The digest an agent records when it acts is the digest of the claim that act makes:
/// the one a challenger recomputes from the policy's weights hash, the observation, the
/// Q-values and the action.
pub proof fn a_recorded_digest_is_the_claims_digest(
    net: PolicyNet,
    obs: Seq<Fx>,
    q: Seq<Fx>,
    action: usize,
    c: InferenceClaim,
)
    requires
        c.weights.0@ == weights_hash_spec(net),
        c.input@ == obs,
        c.q_values@ == q,
        c.action == action,
    ensures
        honest_digest(net, obs, q, action) == keccak256(crate::commit::claim_preimage(c)),
{
}

/// A sealed batch: what goes on chain, plus what a challenger needs.
#[derive(Debug, Clone)]
pub struct Anchor {
    /// Which policy produced these.
    pub weights: Digest,
    /// The 32 bytes committed on chain.
    pub root: Digest,
    pub claim_count: usize,
    /// Present only under [`RecordMode::All`].
    pub claims: Vec<InferenceClaim>,
}

/// A policy plus its commitment bookkeeping.
pub struct Agent {
    net: PolicyNet,
    /// Cached hash of `net`; only `replace_policy` changes the weights.
    weights: Digest,
    mode: RecordMode,
    batch: ClaimBatch,
    claims: Vec<InferenceClaim>,
    acts: u64,
}

impl Agent {
    /// The cached weights hash is that of the current policy.
    pub closed spec fn inv(self) -> bool {
        self.weights.0@ == weights_hash_spec(self.net)
    }

    pub closed spec fn policy_view(self) -> PolicyNet {
        self.net
    }

    pub closed spec fn mode_view(self) -> RecordMode {
        self.mode
    }

    /// Digests recorded since the last flush.
    pub closed spec fn pending_view(self) -> Seq<Digest> {
        self.batch.view()
    }

    /// Claims kept since the last flush.
    pub closed spec fn claims_view(self) -> Seq<InferenceClaim> {
        self.claims@
    }

    pub closed spec fn acts_view(self) -> u64 {
        self.acts
    }

    pub fn new(net: PolicyNet, mode: RecordMode) -> (a: Agent)
        ensures
            a.inv(),
            a.policy_view() == net,
            a.mode_view() == mode,
            a.pending_view() == Seq::<Digest>::empty(),
            a.claims_view() == Seq::<InferenceClaim>::empty(),
            a.acts_view() == 0,
    {
        let weights = weights_hash(&net);
        Agent { net, weights, mode, batch: ClaimBatch::new(), claims: Vec::new(), acts: 0 }
    }

    /// Load a `.mesh` file.
    pub fn load(bytes: &[u8], mode: RecordMode) -> (r: Result<Agent, AgentError>)
        ensures
            load_outcome(bytes@, mode, r),
    {
        match crate::format::decode(bytes) {
            Ok(net) => Ok(Agent::new(net, mode)),
            Err(e) => Err(AgentError::Format(e)),
        }
    }

    /// The `.mesh` bytes of the policy.
    pub fn save(&self) -> (out: Vec<u8>)
        ensures
            out@ == crate::format::encode_spec(self.policy_view()),
    {
        crate::format::encode(&self.net)
    }

    /// The commitment identifying this policy.
    pub fn weights_hash(&self) -> (d: Digest)
        requires
            self.inv(),
        ensures
            d.0@ == weights_hash_spec(self.policy_view()),
    {
        self.weights
    }

    pub fn policy(&self) -> (p: &PolicyNet)
        ensures
            *p == self.policy_view(),
    {
        &self.net
    }

    pub fn acts(&self) -> (n: u64)
        ensures
            n == self.acts_view(),
    {
        self.acts
    }

    /// Swap in a different policy, rehashing and clearing pending claims, so one root
    /// never covers claims made under two policies.
    pub fn replace_policy(&mut self, net: PolicyNet)
        ensures
            final(self).inv(),
            final(self).policy_view() == net,
            final(self).mode_view() == old(self).mode_view(),
            final(self).pending_view() == Seq::<Digest>::empty(),
            final(self).claims_view() == Seq::<InferenceClaim>::empty(),
            final(self).acts_view() == old(self).acts_view(),
    {
        let weights = weights_hash(&net);
        let mode = self.mode;
        let acts = self.acts;
        *self = Agent { net, weights, mode, batch: ClaimBatch::new(), claims: Vec::new(), acts };
    }

    /// Choose an action, recording a claim digest (and under `All` the claim) unless
    /// recording is off. The action does not depend on the record mode.
    pub fn act(&mut self, observation: &[Fx]) -> (r: Result<usize, AgentError>)
        requires
            old(self).inv(),
            old(self).policy_view().well_formed(),
            old(self).acts_view() < u64::MAX,
            old(self).pending_view().len() < usize::MAX,
        ensures
            final(self).inv(),
            final(self).policy_view() == old(self).policy_view(),
            final(self).mode_view() == old(self).mode_view(),
            final(self).acts_view() == old(self).acts_view() + 1,
            match r {
                Ok(a) => old(self).policy_view().act_spec(observation@) == Ok::<usize, MeshError>(a),
                Err(AgentError::Net(e)) => old(self).policy_view().act_spec(observation@) == Err::<usize, MeshError>(e),
                Err(AgentError::Format(_)) => false,
            },
            r is Err || old(self).mode_view() == RecordMode::Off ==> final(self).pending_view() == old(self).pending_view()
                && final(self).claims_view() == old(self).claims_view(),
            r is Ok && old(self).mode_view() != RecordMode::Off ==> (
                old(self).policy_view().q_spec(observation@) matches Ok(q)
                && final(self).pending_view().len() == old(self).pending_view().len() + 1
                && final(self).pending_view().drop_last() == old(self).pending_view()
                && final(self).pending_view().last().0@ == honest_digest(
                    old(self).policy_view(), observation@, q, r->Ok_0)),
            r is Ok && old(self).mode_view() == RecordMode::DigestsOnly ==> final(self).claims_view() == old(self).claims_view(),
            r is Ok && old(self).mode_view() == RecordMode::All ==> (
                final(self).claims_view().len() == old(self).claims_view().len() + 1
                && final(self).claims_view().drop_last() == old(self).claims_view()
                && crate::commit::is_honest_claim(final(self).claims_view().last(), old(self).policy_view())
                && final(self).claims_view().last().input@ == observation@),
    {
        self.acts = self.acts + 1;
        match self.mode {
            RecordMode::Off => match self.net.act(observation) {
                Ok(a) => Ok(a),
                Err(e) => Err(AgentError::Net(e)),
            },
            RecordMode::DigestsOnly => {
                let claim = match InferenceClaim::produce(&self.net, observation) {
                    Ok(c) => c,
                    Err(e) => return Err(AgentError::Net(e)),
                };
                let action = claim.action;
                let d = claim.digest();
                self.batch.push(d);
                Ok(action)
            },
            RecordMode::All => {
                let claim = match InferenceClaim::produce(&self.net, observation) {
                    Ok(c) => c,
                    Err(e) => return Err(AgentError::Net(e)),
                };
                let action = claim.action;
                let d = claim.digest();
                self.batch.push(d);
                self.claims.push(claim);
                Ok(action)
            },
        }
    }

    /// Q-values without recording anything.
    pub fn inspect(&self, observation: &[Fx]) -> (r: Result<Vec<Fx>, AgentError>)
        requires
            self.policy_view().well_formed(),
        ensures
            match r {
                Ok(q) => self.policy_view().q_spec(observation@) == Ok::<Seq<Fx>, MeshError>(q@),
                Err(AgentError::Net(e)) => self.policy_view().q_spec(observation@) == Err::<Seq<Fx>, MeshError>(e),
                Err(AgentError::Format(_)) => false,
            },
    {
        match self.net.q_values(observation) {
            Ok(q) => Ok(q),
            Err(e) => Err(AgentError::Net(e)),
        }
    }

    /// Number of digests awaiting a flush.
    pub fn pending(&self) -> (n: usize)
        ensures
            n == self.pending_view().len(),
    {
        self.batch.len()
    }

    pub fn batch(&self) -> (b: &ClaimBatch)
        ensures
            b.view() == self.pending_view(),
    {
        &self.batch
    }

    pub fn claims(&self) -> (c: &[InferenceClaim])
        ensures
            c@ == self.claims_view(),
    {
        self.claims.as_slice()
    }

    /// Seal the pending digests into an anchor and start a fresh batch. `None` when
    /// nothing is pending, and then nothing changes.
    pub fn flush(&mut self) -> (r: Option<Anchor>)
        requires
            old(self).inv(),
        ensures
            final(self).inv(),
            final(self).policy_view() == old(self).policy_view(),
            final(self).mode_view() == old(self).mode_view(),
            final(self).acts_view() == old(self).acts_view(),
            match r {
                None => old(self).pending_view().len() == 0
                    && final(self).pending_view() == old(self).pending_view()
                    && final(self).claims_view() == old(self).claims_view(),
                Some(a) => old(self).pending_view().len() > 0
                    && a.weights.0@ == weights_hash_spec(old(self).policy_view())
                    && a.root.0@ == root_of(level0(old(self).pending_view()))
                    && a.claim_count == old(self).pending_view().len()
                    && a.claims@ == old(self).claims_view()
                    && final(self).pending_view() == Seq::<Digest>::empty()
                    && final(self).claims_view() == Seq::<InferenceClaim>::empty(),
            },
    {
        let root = match self.batch.root() {
            Some(r) => r,
            None => return None,
        };
        let mut claims: Vec<InferenceClaim> = Vec::new();
        std::mem::swap(&mut claims, &mut self.claims);
        let anchor = Anchor { weights: self.weights, root, claim_count: self.batch.len(), claims };
        self.batch.clear();
        Some(anchor)
    }
}

} // verus!
