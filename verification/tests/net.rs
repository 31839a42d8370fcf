use scematica::fixed::Fx;
use scematica::net::{bellman_target, td_error, MeshError, PolicyNet};

fn net_2x2() -> PolicyNet {
    let mut net = PolicyNet::new(2, &[2], 2);
    net.trunk[0].weights = vec![Fx::one(), Fx::zero(), Fx::zero(), Fx::one()];
    net.value_head.weights = vec![Fx::one(), Fx::one()];
    net.advantage_head.weights = vec![Fx::one(), Fx::zero(), Fx::zero(), Fx::one()];
    net
}

#[test]
fn advantages_are_centred_so_v_is_identifiable() {
    let net = net_2x2();
    let q = net.q_values(&[Fx::from_int(3), Fx::from_int(1)]).unwrap();
    let v = Fx::from_int(4);
    let residual = q.iter().fold(Fx::zero(), |acc, x| acc.add(x.sub(v)));
    assert_eq!(residual, Fx::zero());
}

#[test]
fn adding_a_constant_to_every_advantage_changes_nothing() {
    let net = net_2x2();
    let state = [Fx::from_int(2), Fx::from_int(5)];
    let before = net.q_values(&state).unwrap();
    let mut shifted = net.clone();
    for b in shifted.advantage_head.biases.iter_mut() {
        *b = b.add(Fx::from_int(7));
    }
    assert_eq!(before, shifted.q_values(&state).unwrap());
}

#[test]
fn forward_pass_is_bit_exact_on_repeat() {
    let net = net_2x2();
    // 0.37 and -1.9 in Q16.16.
    let state = [Fx::from_bits(24248), Fx::from_bits(-124518)];
    let a = net.q_values(&state).unwrap();
    for _ in 0..64 {
        assert_eq!(net.q_values(&state).unwrap(), a);
    }
}

#[test]
fn ties_break_to_the_lowest_index() {
    let net = PolicyNet::new(2, &[], 3);
    assert_eq!(net.act(&[Fx::one(), Fx::one()]).unwrap(), 0);
}

#[test]
fn shape_mismatch_is_reported_not_panicked() {
    let net = net_2x2();
    assert_eq!(net.q_values(&[Fx::one()]), Err(MeshError::ShapeMismatch { expected: 2, got: 1 }));
}

#[test]
fn relu_actually_gates_the_trunk() {
    let mut net = net_2x2();
    net.trunk[0].weights = vec![Fx::one().neg(), Fx::zero(), Fx::zero(), Fx::one().neg()];
    let q = net.q_values(&[Fx::from_int(5), Fx::from_int(5)]).unwrap();
    assert!(q.iter().all(|v| *v == Fx::zero()));
}

#[test]
fn bellman_target_respects_terminality() {
    let r = Fx::from_int(2);
    // 0.9 in Q16.16.
    let gamma = Fx::from_bits(58982);
    let next = [Fx::from_int(10), Fx::from_int(3)];
    assert_eq!(bellman_target(r, gamma, &next, true), r, "no bootstrap past a terminal state");
    assert_eq!(bellman_target(r, gamma, &next, false), r.add(gamma.mul(Fx::from_int(10))));
    assert_eq!(bellman_target(r, gamma, &[], false), r, "no successors is terminal in effect");
}

#[test]
fn td_error_is_signed_target_minus_prediction() {
    assert_eq!(td_error(Fx::from_int(5), Fx::from_int(3)), Fx::from_int(2));
    assert_eq!(td_error(Fx::from_int(3), Fx::from_int(5)), Fx::from_int(2).neg());
}

#[test]
fn parameter_order_is_stable_and_complete() {
    let net = PolicyNet::new(4, &[8, 6], 3);
    assert_eq!(net.parameters().len(), net.parameter_count());
    assert_eq!(net.parameter_count(), 40 + 54 + 7 + 21);
}

#[test]
fn state_dim_and_action_count_follow_the_shape() {
    let net = PolicyNet::new(5, &[7, 4], 3);
    assert_eq!(net.state_dim(), 5);
    assert_eq!(net.action_count(), 3);
    assert_eq!(net.trunk.len(), 2);
}
