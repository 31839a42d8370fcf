use scematica::chat::{cancel_reply, Confirmations, Pending, Press, PENDING_TTL_MS};

fn pending(chat: i64, user: i64, issued_at_ms: u64) -> Pending<&'static str> {
    Pending { call: "check balance", chat_id: chat, user_id: user, message_id: 0, issued_at_ms }
}

#[test]
fn a_fresh_confirmation_is_pressable_and_an_old_one_is_not() {
    let now = 10_000_000;
    assert!(!pending(1, 1, now - 1_000).expired(now));
    assert!(pending(1, 1, now - PENDING_TTL_MS - 1_000).expired(now));
    // Measured in milliseconds: 50 ms past the limit is already too late.
    assert!(!pending(1, 1, now - PENDING_TTL_MS).expired(now));
    assert!(pending(1, 1, now - PENDING_TTL_MS - 50).expired(now));
}

#[test]
fn a_press_from_the_wrong_user_does_not_consume_the_prompt() {
    let mut c: Confirmations<&'static str> = Confirmations::new();
    let token = c.issue("check balance", 10, 20, 0);
    assert_eq!(token, "c1");
    assert_eq!(c.cancel(10, 999, &token), Press::WrongUser);
    assert!(c.contains(&token), "the prompt must survive a wrong-user press");
}

#[test]
fn a_press_from_the_wrong_chat_is_refused() {
    let mut c: Confirmations<&'static str> = Confirmations::new();
    let token = c.issue("check balance", 10, 20, 0);
    assert_eq!(c.cancel(11, 20, &token), Press::WrongUser);
}

#[test]
fn an_unknown_token_is_gone_rather_than_an_error() {
    let mut c: Confirmations<&'static str> = Confirmations::new();
    assert_eq!(c.cancel(1, 1, "nope"), Press::Gone);
}

#[test]
fn sweeping_drops_only_the_expired() {
    let mut c: Confirmations<&'static str> = Confirmations::new();
    let old = c.issue("old", 1, 1, 0);
    let fresh = c.issue("fresh", 1, 1, PENDING_TTL_MS + 1);
    c.sweep(PENDING_TTL_MS + 1);
    assert!(c.contains(&fresh));
    assert!(!c.contains(&old));
}

#[test]
fn resetting_a_chat_drops_its_prompts_but_not_another_chats() {
    let mut c: Confirmations<&'static str> = Confirmations::new();
    let a = c.issue("a", 1, 1, 0);
    let b = c.issue("b", 2, 2, 0);
    c.reset(1);
    assert!(!c.contains(&a));
    assert!(c.contains(&b));
}

#[test]
fn a_confirmed_prompt_runs_once() {
    let mut c: Confirmations<&'static str> = Confirmations::new();
    let t = c.issue("swap", 5, 6, 100);
    c.bind_message(&t, 42);
    assert_eq!(c.message_of(&t), Some(42));
    assert_eq!(c.confirm(5, 6, &t, 150), Press::Confirmed("swap"));
    assert_eq!(c.confirm(5, 6, &t, 151), Press::Gone);
    let late = c.issue("late", 5, 6, 0);
    assert_eq!(late, "c2");
    assert_eq!(c.confirm(5, 6, &late, PENDING_TTL_MS + 1), Press::Expired);
    assert!(!c.contains(&late));
}

#[test]
fn a_press_with_no_live_prompt_is_told_why() {
    assert_eq!(Press::<()>::Gone.notice(), Some("<i>That action was already answered.</i>"));
    assert!(Press::<()>::Expired.notice().unwrap().contains("expired"));
    assert!(Press::<()>::WrongUser.notice().unwrap().contains("someone else"));
    assert_eq!(Press::<()>::Cancelled.notice(), None);
    assert_eq!(Press::Confirmed(()).notice(), None);
}

#[test]
fn a_cancel_is_answered_by_the_model_or_plainly() {
    assert_eq!(cancel_reply(None), "Cancelled.");
    assert_eq!(cancel_reply(Some("Okay, not selling.".into())), "Okay, not selling.");
}
