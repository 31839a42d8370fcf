use scematica::attest::{decision_digest, DecisionRecord};
use scematica::commit::Digest;
use scematica::daemon::{advance, next_batch, Checkpoint, Resync};
use scematica::fixed::Fx;

fn rec(mint: &str) -> DecisionRecord {
    DecisionRecord {
        timestamp: "2026-08-10T00:00:00Z".into(),
        mint: mint.into(),
        decision: "accepted".into(),
        stage: "dq_advice".into(),
        reason: "ok".into(),
        pool_score: Fx::from_int(70),
        dq_action: "Hold".into(),
        dq_confidence: Fx::from_bits(32768),
    }
}

fn log(n: usize) -> Vec<(DecisionRecord, u64)> {
    (0..n).map(|i| (rec(&format!("M{i}")), 1_000 + i as u64)).collect()
}

#[test]
fn a_fresh_checkpoint_takes_everything() {
    let all = log(5);
    let b = next_batch(&all, &Checkpoint::default());
    assert_eq!(b.records.len(), 5);
    assert_eq!(b.resync, Resync::NotNeeded);
}

#[test]
fn progress_is_respected_and_nothing_repeats() {
    let all = log(5);
    let mut cp = Checkpoint::default();
    advance(&mut cp, &all, 3, &Digest([1; 32]));
    let b = next_batch(&all, &cp);
    assert_eq!(b.start_index, 3);
    assert_eq!(b.records.len(), 2, "only the unanchored tail");
    assert_eq!(b.resync, Resync::NotNeeded);
}

#[test]
fn nothing_new_yields_an_empty_batch() {
    let all = log(3);
    let mut cp = Checkpoint::default();
    advance(&mut cp, &all, 3, &Digest([1; 32]));
    assert!(next_batch(&all, &cp).records.is_empty());
}

#[test]
fn a_truncated_log_triggers_a_reported_resync() {
    let all = log(10);
    let mut cp = Checkpoint::default();
    advance(&mut cp, &all, 8, &Digest([1; 32]));
    let shorter = log(4);
    let b = next_batch(&shorter, &cp);
    assert_eq!(b.resync, Resync::LogShrank);
    assert_eq!(b.start_index, 0, "resync must re-cover the whole log");
}

#[test]
fn a_rewritten_log_is_detected_by_the_digest_tripwire() {
    let all = log(5);
    let mut cp = Checkpoint::default();
    advance(&mut cp, &all, 3, &Digest([1; 32]));
    let mut rewritten = log(5);
    rewritten[2].0.dq_action = "SellAll".into();
    let b = next_batch(&rewritten, &cp);
    assert_eq!(b.resync, Resync::DigestMismatch);
    assert_eq!(b.start_index, 0);
}

#[test]
fn advancing_records_the_tripwire_digest() {
    let all = log(4);
    let mut cp = Checkpoint::default();
    advance(&mut cp, &all, 4, &Digest([9; 32]));
    let (r, u) = &all[3];
    assert_eq!(cp.last_digest, decision_digest(r, *u).to_hex());
    assert_eq!(cp.roots.len(), 1);
}

#[test]
fn advancing_to_zero_clears_the_tripwire() {
    let all = log(2);
    let mut cp = Checkpoint::default();
    advance(&mut cp, &all, 0, &Digest([1; 32]));
    assert!(cp.last_digest.is_empty(), "no last record means no tripwire");
    assert_eq!(next_batch(&all, &cp).resync, Resync::NotNeeded);
}

#[test]
fn a_fresh_checkpoint_is_the_default_one() {
    assert_eq!(Checkpoint::fresh(), Checkpoint::default());
}

#[test]
fn anchored_roots_are_kept_in_order() {
    let all = log(3);
    let mut cp = Checkpoint::fresh();
    advance(&mut cp, &all, 1, &Digest([1; 32]));
    advance(&mut cp, &all, 3, &Digest([2; 32]));
    assert_eq!(cp.roots, vec![Digest([1; 32]).to_hex(), Digest([2; 32]).to_hex()]);
    assert_eq!(cp.processed, 3);
}
