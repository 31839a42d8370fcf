use scematica::auth::{claim_reply, press_refusal, admission, NO_OWNER_YET, Access, Admission, Auth, CLAIM_TTL_MS, NOT_AUTHORISED};

fn owned(id: i64) -> Auth {
    Auth::from_owner_list(&id.to_string())
}

#[test]
fn an_empty_allow_list_authorises_nobody() {
    let a = Auth::from_owner_list("");
    assert!(matches!(a.authorise(1), Access::Denied(_)));
    assert!(matches!(a.authorise(999), Access::Denied(_)));
}

#[test]
fn a_stranger_is_refused_when_an_owner_exists() {
    let a = owned(7);
    assert_eq!(a.authorise(7), Access::Owner);
    assert!(matches!(a.authorise(8), Access::Denied(_)));
}

#[test]
fn a_refusal_never_names_the_owner() {
    let a = owned(4242);
    let Access::Denied(msg) = a.authorise(1) else { panic!("expected a refusal") };
    assert!(!msg.contains("4242"));
    assert_eq!(msg, NOT_AUTHORISED);
}

#[test]
fn claiming_needs_the_printed_code() {
    let mut a = Auth::from_owner_list("");
    let code = a.issue_claim(100).expect("a bot with no owner issues a code");
    assert!(a.try_claim(5, "WRONG1", 101).is_err());
    assert!(a.try_claim(5, &code, 102).is_ok());
    assert_eq!(a.authorise(5), Access::Owner);
}

#[test]
fn a_code_is_single_use() {
    let mut a = Auth::from_owner_list("");
    let code = a.issue_claim(100).unwrap();
    assert!(a.try_claim(5, &code, 101).is_ok());
    assert!(a.try_claim(6, &code, 102).is_err());
    assert!(matches!(a.authorise(6), Access::Denied(_)));
}

#[test]
fn no_code_is_issued_once_an_owner_exists() {
    assert!(owned(1).issue_claim(0).is_none());
}

#[test]
fn an_expired_code_is_refused() {
    let mut a = Auth::from_owner_list("");
    let code = a.issue_claim(100).unwrap();
    assert!(a.try_claim(5, &code, 100 + CLAIM_TTL_MS + 1).is_err());
    assert!(matches!(a.authorise(5), Access::Denied(_)));
}

#[test]
fn a_malformed_owner_entry_does_not_authorise_zero() {
    let a = Auth::from_owner_list("not-an-id, 42 ,");
    assert_eq!(a.owner_count(), 1);
    assert_eq!(a.authorise(42), Access::Owner);
    assert!(matches!(a.authorise(0), Access::Denied(_)));
    assert!(a.was_configured());
}

#[test]
fn a_claim_code_is_read_without_case_or_surrounding_space() {
    let mut a = Auth::from_owner_list("");
    let code = a.issue_claim(0).unwrap();
    assert!(a.try_claim(9, &format!("  {}  ", code.to_lowercase()), 1).is_ok());
    assert!(!a.was_configured(), "a claimed owner is in memory only");
}

#[test]
fn only_a_claim_passes_without_an_owner() {
    let a = owned(7);
    assert_eq!(admission(&a, 8, " /claim ABC123 "), Admission::Claim(" ABC123".into()));
    assert_eq!(admission(&a, 7, "/status"), Admission::Admitted);
    assert!(matches!(admission(&a, 8, "/status"), Admission::Refused(_)));
}

#[test]
fn a_claimant_is_told_how_to_make_it_stick() {
    let ok = claim_reply(&Ok(()), 42);
    assert!(ok.starts_with("✅ Claimed. You are the owner (id <code>42</code>)."));
    assert!(ok.contains("<code>SCEMA_TG_OWNERS=42</code>"));
    assert_eq!(claim_reply(&Err("bad <code>".to_string()), 42), "bad &lt;code&gt;");
    assert!(claim_reply(&Ok(()), -7).contains("(id <code>-7</code>)"));
}

#[test]
fn a_refused_message_is_told_why_and_a_refused_press_is_not_authorised() {
    let none = Auth::from_owner_list("");
    assert_eq!(admission(&none, 5, "/status"), Admission::Refused(NO_OWNER_YET.to_string()));
    let owned = owned(1);
    assert_eq!(admission(&owned, 5, "/status"), Admission::Refused(NOT_AUTHORISED.to_string()));
    assert_eq!(press_refusal(&owned, 5), Some(NOT_AUTHORISED));
    assert_eq!(press_refusal(&none, 5), Some(NOT_AUTHORISED));
    assert_eq!(press_refusal(&owned, 1), None);
}
