use scematica::attest::{attest, decision_digest, parse_unix, year_underflows_in, DecisionRecord, Freshness, DEFAULT_MAX_LAG_SECS};
use scematica::batch::{verify_proof, ClaimBatch};
use scematica::fixed::Fx;

/// The importer's quantisation of a score: scale by 2^16, clamp, round half away.
fn fx(v: f64) -> Fx {
    Fx((v * 65536.0).clamp(i32::MIN as f64, i32::MAX as f64).round() as i32)
}

fn rec(mint: &str, ts: &str, action: &str, conf: f64) -> DecisionRecord {
    DecisionRecord {
        timestamp: ts.into(),
        mint: mint.into(),
        decision: "accepted".into(),
        stage: "dq_advice".into(),
        reason: "ok".into(),
        pool_score: fx(71.5),
        dq_action: action.into(),
        dq_confidence: fx(conf),
    }
}

const T0: &str = "2026-08-10T00:00:00Z";

#[test]
fn timestamps_parse_to_unix() {
    let a = parse_unix(T0).unwrap();
    let b = parse_unix("2026-08-10T00:01:00Z").unwrap();
    assert_eq!(b - a, 60);
    assert_eq!(parse_unix("2026-08-11T00:00:00Z").unwrap() - a, 86_400);
}

#[test]
fn a_bad_timestamp_is_skipped_not_defaulted() {
    assert!(parse_unix("not a date").is_none());
    assert!(parse_unix("2026-13-01T00:00:00Z").is_none(), "month 13");
    assert!(parse_unix("").is_none());
}

#[test]
fn changing_any_field_changes_the_digest() {
    let base = rec("MintA", T0, "BuyStandard", 0.8);
    let d0 = decision_digest(&base, 1);
    let mut other = base.clone();
    other.dq_action = "Hold".into();
    assert_ne!(decision_digest(&other, 1), d0, "action must be committed");
    let mut other = base.clone();
    other.dq_confidence = fx(0.81);
    assert_ne!(decision_digest(&other, 1), d0, "confidence must be committed");
    let mut other = base.clone();
    other.decision = "rejected".into();
    assert_ne!(decision_digest(&other, 1), d0);
    assert_ne!(decision_digest(&base, 2), d0, "time must be committed");
}

#[test]
fn field_boundaries_are_unambiguous() {
    let mut a = rec("ab", T0, "Hold", 0.5);
    a.decision = "c".into();
    let mut b = rec("a", T0, "Hold", 0.5);
    b.decision = "bc".into();
    assert_ne!(decision_digest(&a, 1), decision_digest(&b, 1));
}

#[test]
fn digests_are_stable_across_runs() {
    let r = rec("MintA", T0, "BuyAggressive", 0.42);
    let d = decision_digest(&r, 99);
    for _ in 0..32 {
        assert_eq!(decision_digest(&r, 99), d);
    }
}

#[test]
fn a_prompt_batch_is_live_and_a_late_one_is_not() {
    let t = parse_unix(T0).unwrap();
    let records = vec![(rec("M", T0, "Hold", 0.1), t)];
    let live = attest(&records, t + 60, DEFAULT_MAX_LAG_SECS).unwrap();
    assert_eq!(live.freshness, Freshness::Live);
    let late = attest(&records, t + 86_400, DEFAULT_MAX_LAG_SECS).unwrap();
    assert_eq!(late.freshness, Freshness::Retrospective);
    assert_eq!(late.max_lag_secs, 86_400);
}

#[test]
fn clock_skew_cannot_mislabel_a_live_batch() {
    let t = parse_unix(T0).unwrap();
    let records = vec![(rec("M", T0, "Hold", 0.1), t)];
    let a = attest(&records, t - 10, DEFAULT_MAX_LAG_SECS).unwrap();
    assert_eq!(a.max_lag_secs, 0);
    assert_eq!(a.freshness, Freshness::Live);
}

#[test]
fn every_decision_is_provable_against_the_root() {
    let t = parse_unix(T0).unwrap();
    let records: Vec<_> = (0..5).map(|i| (rec(&format!("Mint{i}"), T0, "Hold", 0.5), t + i)).collect();
    let a = attest(&records, t + 10, DEFAULT_MAX_LAG_SECS).unwrap();
    let mut batch = ClaimBatch::new();
    for d in &a.digests {
        batch.push(*d);
    }
    assert_eq!(batch.root().unwrap(), a.root);
    for (i, d) in a.digests.iter().enumerate() {
        let proof = batch.proof_for(i).unwrap();
        assert!(verify_proof(d, i as u32, &proof, &a.root));
    }
}

#[test]
fn nothing_to_attest_yields_no_anchor() {
    assert!(attest(&[], 1, DEFAULT_MAX_LAG_SECS).is_none());
}

#[test]
fn the_window_spans_oldest_to_newest() {
    let t = parse_unix(T0).unwrap();
    let records = vec![
        (rec("A", T0, "Hold", 0.5), t + 100),
        (rec("B", T0, "Hold", 0.5), t),
        (rec("C", T0, "Hold", 0.5), t + 50),
    ];
    let a = attest(&records, t + 200, DEFAULT_MAX_LAG_SECS).unwrap();
    assert_eq!(a.window, (t, t + 100));
}

#[test]
fn the_unix_epoch_and_a_leap_day_parse_exactly() {
    assert_eq!(parse_unix("1970-01-01T00:00:00Z"), Some(0));
    assert_eq!(parse_unix("2024-02-29T12:00:00Z"), Some(1_709_208_000));
    assert_eq!(parse_unix("2026-08-10T00:00:00Z"), Some(1_786_320_000));
    assert!(parse_unix("1969-12-31T23:59:59Z").is_none(), "before the epoch");
    assert!(parse_unix("2026-08-10T24:00:00Z").is_none(), "hour 24");
}

#[test]
fn only_a_valid_date_early_in_year_zero_underflows() {
    assert!(year_underflows_in("0000-01-15T00:00:00Z"));
    assert!(year_underflows_in("0000-02-29T23:59:60Z"));
    assert!(!year_underflows_in("0000-03-01T00:00:00Z"));
    assert!(!year_underflows_in("0000-01-99T00:00:00Z"));
    assert!(!year_underflows_in("++00-01-15T00:00:00Z"));
    assert!(!year_underflows_in("2024-01-15T00:00:00Z"));
    assert!(!year_underflows_in("0000-01-15"));
}
