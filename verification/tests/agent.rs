use scematica::agent::{Agent, AgentError, RecordMode};
use scematica::batch::verify_proof;
use scematica::commit::{weights_hash, Verdict};
use scematica::fixed::Fx;
use scematica::net::PolicyNet;

fn net() -> PolicyNet {
    let mut n = PolicyNet::new(3, &[4], 2);
    for (i, w) in n.trunk[0].weights.iter_mut().enumerate() {
        *w = Fx::from_bits(3_000 * (i as i32 % 7 + 1));
    }
    n.advantage_head.weights[1] = Fx::one();
    n.value_head.weights[0] = Fx::one();
    n
}

fn obs(k: i16) -> Vec<Fx> {
    vec![Fx::from_int(k), Fx::from_int(k + 1), Fx::from_int(2)]
}

#[test]
fn acting_is_deterministic_regardless_of_record_mode() {
    let mut off = Agent::new(net(), RecordMode::Off);
    let mut all = Agent::new(net(), RecordMode::All);
    for k in 0..8 {
        assert_eq!(off.act(&obs(k)).unwrap(), all.act(&obs(k)).unwrap());
    }
    assert_eq!(off.pending(), 0);
    assert_eq!(all.pending(), 8);
}

#[test]
fn every_claim_in_a_flushed_anchor_proves_against_its_root() {
    let mut agent = Agent::new(net(), RecordMode::All);
    for k in 0..5 {
        agent.act(&obs(k)).unwrap();
    }
    let proofs: Vec<_> = (0..5).map(|i| agent.batch().proof_for(i).unwrap()).collect();
    let digests: Vec<_> = agent.batch().digests().to_vec();
    let anchor = agent.flush().unwrap();
    assert_eq!(anchor.claim_count, 5);
    for (i, proof) in proofs.iter().enumerate() {
        assert!(verify_proof(&digests[i], i as u32, proof, &anchor.root));
    }
}

#[test]
fn recorded_claims_verify_against_the_policy() {
    let policy = net();
    let mut agent = Agent::new(policy.clone(), RecordMode::All);
    for k in 0..4 {
        agent.act(&obs(k)).unwrap();
    }
    let anchor = agent.flush().unwrap();
    assert_eq!(anchor.weights, weights_hash(&policy));
    for claim in &anchor.claims {
        assert_eq!(claim.verify(&policy), Verdict::Valid);
    }
}

#[test]
fn flushing_nothing_anchors_nothing() {
    let mut agent = Agent::new(net(), RecordMode::All);
    assert!(agent.flush().is_none());
}

#[test]
fn flush_resets_the_batch() {
    let mut agent = Agent::new(net(), RecordMode::DigestsOnly);
    agent.act(&obs(1)).unwrap();
    let first = agent.flush().unwrap();
    agent.act(&obs(2)).unwrap();
    let second = agent.flush().unwrap();
    assert_eq!(second.claim_count, 1, "the second batch must not carry the first");
    assert_ne!(first.root, second.root);
}

#[test]
fn digests_only_still_anchors_but_keeps_no_inputs() {
    let mut agent = Agent::new(net(), RecordMode::DigestsOnly);
    agent.act(&obs(3)).unwrap();
    let anchor = agent.flush().unwrap();
    assert_eq!(anchor.claim_count, 1);
    assert!(anchor.claims.is_empty());
}

#[test]
fn replacing_the_policy_drops_claims_made_under_the_old_one() {
    let mut agent = Agent::new(net(), RecordMode::All);
    agent.act(&obs(1)).unwrap();
    assert_eq!(agent.pending(), 1);
    let mut other = net();
    other.value_head.biases[0] = Fx::one();
    let before = agent.weights_hash();
    agent.replace_policy(other);
    assert_eq!(agent.pending(), 0);
    assert_ne!(agent.weights_hash(), before);
}

#[test]
fn save_load_preserves_behaviour_and_identity() {
    let mut first = Agent::new(net(), RecordMode::Off);
    let bytes = first.save();
    let mut restored = Agent::load(&bytes, RecordMode::Off).unwrap();
    assert_eq!(restored.weights_hash(), first.weights_hash());
    for k in 0..6 {
        assert_eq!(restored.act(&obs(k)).unwrap(), first.act(&obs(k)).unwrap());
    }
}

#[test]
fn inspect_does_not_record() {
    let agent = Agent::new(net(), RecordMode::All);
    agent.inspect(&obs(1)).unwrap();
    assert_eq!(agent.pending(), 0, "a debug overlay must not create commitments");
}

#[test]
fn a_bad_observation_shape_is_an_error_not_a_panic() {
    let mut agent = Agent::new(net(), RecordMode::All);
    assert!(matches!(agent.act(&[Fx::one()]), Err(AgentError::Net(_))));
}

#[test]
fn acts_counts_every_action_and_claims_are_kept_in_full_mode() {
    let mut agent = Agent::new(net(), RecordMode::All);
    for k in 0..3 {
        agent.act(&obs(k)).unwrap();
    }
    assert_eq!(agent.acts(), 3);
    assert_eq!(agent.claims().len(), 3);
    assert_eq!(agent.policy().state_dim(), 3);
}
