use scematica::commit::{weights_hash, InferenceClaim, Verdict};
use scematica::fixed::Fx;
use scematica::net::PolicyNet;

fn net() -> PolicyNet {
    let mut n = PolicyNet::new(2, &[3], 2);
    for (i, w) in n.trunk[0].weights.iter_mut().enumerate() {
        *w = Fx::from_bits(1000 * (i as i32 + 1));
    }
    for (i, w) in n.advantage_head.weights.iter_mut().enumerate() {
        *w = Fx::from_bits(700 * (i as i32 + 1));
    }
    n.value_head.weights = vec![Fx::one(), Fx::one(), Fx::one()];
    n
}

#[test]
fn an_honest_claim_verifies() {
    let n = net();
    let claim = InferenceClaim::produce(&n, &[Fx::from_int(2), Fx::from_int(3)]).unwrap();
    assert_eq!(claim.verify(&n), Verdict::Valid);
    assert!(!claim.verify(&n).is_slashable());
    assert!(claim.verify(&n).is_valid());
}

#[test]
fn a_tampered_output_is_caught_and_is_slashable() {
    let n = net();
    let mut claim = InferenceClaim::produce(&n, &[Fx::from_int(2), Fx::from_int(3)]).unwrap();
    claim.q_values[0] = claim.q_values[0].add(Fx::one());
    assert_eq!(claim.verify(&n), Verdict::OutputMismatch);
    assert!(claim.verify(&n).is_slashable());
}

#[test]
fn substituting_different_weights_is_caught() {
    let n = net();
    let claim = InferenceClaim::produce(&n, &[Fx::from_int(1), Fx::from_int(1)]).unwrap();
    let mut other = n.clone();
    other.value_head.biases[0] = Fx::one();
    assert_eq!(claim.verify(&other), Verdict::WrongWeights);
}

#[test]
fn a_malformed_claim_is_not_treated_as_fraud() {
    let n = net();
    let claim = InferenceClaim { weights: weights_hash(&n), input: vec![Fx::one()], q_values: vec![], action: 0 };
    assert_eq!(claim.verify(&n), Verdict::Unrunnable);
    assert!(!claim.verify(&n).is_slashable());
}

#[test]
fn a_single_weight_change_moves_the_hash() {
    let a = net();
    let mut b = a.clone();
    b.trunk[0].weights[0] = b.trunk[0].weights[0].add(Fx::from_bits(1));
    assert_ne!(weights_hash(&a), weights_hash(&b));
}

#[test]
fn shape_is_part_of_the_commitment() {
    let a = PolicyNet::new(4, &[], 2);
    let b = PolicyNet::new(2, &[], 4);
    assert_eq!(a.parameter_count(), b.parameter_count());
    assert_eq!(a.parameters(), b.parameters());
    assert_ne!(weights_hash(&a), weights_hash(&b), "shape must be bound into the hash");
}

#[test]
fn domains_are_separated() {
    let n = net();
    let claim = InferenceClaim::produce(&n, &[Fx::one(), Fx::one()]).unwrap();
    assert_ne!(claim.digest(), claim.weights);
}

#[test]
fn hashing_is_stable_across_runs() {
    let n = net();
    let h = weights_hash(&n);
    for _ in 0..32 {
        assert_eq!(weights_hash(&n), h);
    }
    assert_eq!(h.to_hex().len(), 66);
}

#[test]
fn a_misreported_action_is_slashable() {
    let n = net();
    let mut claim = InferenceClaim::produce(&n, &[Fx::from_int(2), Fx::from_int(3)]).unwrap();
    claim.action = 1 - claim.action;
    assert_eq!(claim.verify(&n), Verdict::ActionMismatch);
    assert!(claim.verify(&n).is_slashable());
}

#[test]
fn hex_is_lowercase_with_a_prefix() {
    let d = scematica::commit::Digest([0xAB; 32]);
    let h = d.to_hex();
    assert!(h.starts_with("0xabab"));
    assert_eq!(h.len(), 66);
}

#[test]
fn a_third_party_can_adjudicate_without_trusting_the_agent() {
    let mut net = PolicyNet::new(3, &[4], 2);
    for (i, w) in net.trunk[0].weights.iter_mut().enumerate() {
        *w = Fx::from_bits(2_000 * (i as i32 % 5 + 1));
    }
    net.advantage_head.weights[0] = Fx::one();
    net.value_head.weights[1] = Fx::one();
    // 0.25 and -0.75 in Q16.16.
    let state = [Fx::from_bits(16384), Fx::from_bits(-49152), Fx::one()];
    let honest = InferenceClaim::produce(&net, &state).unwrap();
    assert!(honest.verify(&net).is_valid());
    let mut lie = honest.clone();
    lie.action = 1 - honest.action;
    assert_eq!(lie.verify(&net), Verdict::ActionMismatch);
    assert!(lie.verify(&net).is_slashable());
    assert_ne!(lie.digest(), honest.digest());
}

#[test]
fn the_readme_example_holds() {
    let net = PolicyNet::new(4, &[8], 3);
    let state = [Fx::from_bits(32768), Fx::zero(), Fx::from_bits(-81920), Fx::one()];
    let claim = InferenceClaim::produce(&net, &state).unwrap();
    let onchain = claim.digest();
    assert_eq!(claim.verify(&net), Verdict::Valid);
    assert_eq!(onchain, claim.digest());
}

#[test]
fn hidden_widths_are_part_of_the_commitment() {
    let a = PolicyNet::new(1, &[2, 2], 1);
    let b = PolicyNet::new(1, &[1, 3], 1);
    assert_eq!(a.parameter_count(), b.parameter_count());
    assert_eq!(a.parameters(), b.parameters());
    assert_ne!(weights_hash(&a), weights_hash(&b));
}
