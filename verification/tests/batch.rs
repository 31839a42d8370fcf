use scematica::batch::{verify_proof, ClaimBatch};
use scematica::commit::Digest;

fn d(byte: u8) -> Digest {
    Digest([byte; 32])
}

fn batch_of(n: u8) -> ClaimBatch {
    let mut b = ClaimBatch::new();
    for i in 0..n {
        b.push(d(i));
    }
    b
}

#[test]
fn empty_batch_has_no_root() {
    assert_eq!(ClaimBatch::new().root(), None);
}

#[test]
fn every_claim_proves_against_the_root() {
    for n in 1u8..=17 {
        let b = batch_of(n);
        let root = b.root().unwrap();
        for i in 0..n as usize {
            let proof = b.proof_for(i).expect("proof exists");
            assert!(verify_proof(&d(i as u8), i as u32, &proof, &root), "claim {i} of {n} failed to prove");
        }
    }
}

#[test]
fn a_wrong_claim_does_not_prove() {
    let b = batch_of(8);
    let root = b.root().unwrap();
    let proof = b.proof_for(3).unwrap();
    assert!(!verify_proof(&d(99), 3, &proof, &root), "a substituted digest must fail");
}

#[test]
fn a_claim_cannot_be_moved_to_another_index() {
    let b = batch_of(8);
    let root = b.root().unwrap();
    let proof = b.proof_for(3).unwrap();
    assert!(!verify_proof(&d(3), 4, &proof, &root));
}

#[test]
fn duplicated_trailing_claims_do_not_collide() {
    let mut three = ClaimBatch::new();
    for i in 0..3u8 {
        three.push(d(i));
    }
    let mut four = three.clone();
    four.push(d(2));
    assert_ne!(three.root().unwrap(), four.root().unwrap());
}

#[test]
fn identical_claims_at_different_positions_hash_differently() {
    let mut b = ClaimBatch::new();
    b.push(d(7));
    b.push(d(7));
    let root = b.root().unwrap();
    let p0 = b.proof_for(0).unwrap();
    let p1 = b.proof_for(1).unwrap();
    assert!(verify_proof(&d(7), 0, &p0, &root));
    assert!(verify_proof(&d(7), 1, &p1, &root));
    assert_ne!(p0, p1, "same digest at different indices must take different paths");
}

#[test]
fn a_single_claim_is_its_own_root() {
    let b = batch_of(1);
    let root = b.root().unwrap();
    assert!(verify_proof(&d(0), 0, &[], &root));
    assert_ne!(root, d(0));
}

#[test]
fn order_is_part_of_the_commitment() {
    let mut a = ClaimBatch::new();
    a.push(d(1));
    a.push(d(2));
    let mut b = ClaimBatch::new();
    b.push(d(2));
    b.push(d(1));
    assert_ne!(a.root().unwrap(), b.root().unwrap());
}

#[test]
fn roots_are_stable_across_recomputation() {
    let b = batch_of(11);
    let r = b.root().unwrap();
    for _ in 0..16 {
        assert_eq!(b.root().unwrap(), r);
    }
}

#[test]
fn out_of_range_index_has_no_proof() {
    assert!(batch_of(4).proof_for(4).is_none());
}

#[test]
fn print_vectors_for_solidity() {
    for n in [1usize, 2, 3, 5] {
        let mut batch = ClaimBatch::new();
        for i in 0..n {
            batch.push(d(i as u8 + 1));
        }
        println!("n={n} root={}", batch.root().unwrap().to_hex());
        for i in 0..n {
            let p = batch.proof_for(i).unwrap();
            let path: Vec<String> = p
                .iter()
                .map(|s| format!("{}:{}", if s.sibling_is_left { "L" } else { "R" }, s.sibling.to_hex()))
                .collect();
            println!("  i={i} steps={} {}", p.len(), path.join(" "));
        }
    }
}

#[test]
fn push_returns_the_index_and_clear_empties() {
    let mut b = ClaimBatch::new();
    assert!(b.is_empty());
    assert_eq!(b.push(d(1)), 0);
    assert_eq!(b.push(d(2)), 1);
    assert_eq!(b.len(), 2);
    assert_eq!(b.digests(), &[d(1), d(2)]);
    b.clear();
    assert!(b.is_empty());
    assert_eq!(b.root(), None);
}
