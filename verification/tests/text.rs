use scematica::text::{esc, next_offset, split_message, truncate, MAX_MESSAGE};

#[test]
fn escapes_the_three_html_characters() {
    assert_eq!(esc("a<b>&c"), "a&lt;b&gt;&amp;c");
}

#[test]
fn a_markdown_hostile_symbol_survives() {
    let symbol = "PUMP_IT*[NOW]";
    assert_eq!(esc(symbol), symbol);
}

#[test]
fn short_messages_are_not_split() {
    assert_eq!(split_message("one\ntwo").len(), 1);
}

#[test]
fn long_messages_split_on_line_boundaries() {
    let body = "0123456789\n".repeat(600);
    let parts = split_message(&body);
    assert!(parts.len() > 1);
    for p in &parts {
        assert!(p.len() <= MAX_MESSAGE, "chunk of {} bytes", p.len());
        assert!(p.ends_with('\n'));
    }
    let rejoined: String = parts.concat();
    assert_eq!(rejoined, body);
}

#[test]
fn an_overlong_single_line_is_truncated_alone() {
    let body = format!("short\n{}\nshort", "x".repeat(MAX_MESSAGE + 100));
    let parts = split_message(&body);
    assert!(parts.iter().all(|p| p.len() <= MAX_MESSAGE));
}

#[test]
fn truncation_respects_char_boundaries() {
    let body = "é".repeat(MAX_MESSAGE);
    let cut = truncate(&body);
    assert!(cut.len() <= MAX_MESSAGE);
}

#[test]
fn a_short_message_is_not_truncated_and_a_long_one_ends_in_an_ellipsis() {
    assert_eq!(truncate("hello"), "hello");
    let cut = truncate(&"x".repeat(MAX_MESSAGE + 1));
    assert_eq!(cut.len(), MAX_MESSAGE);
    assert!(cut.ends_with('…'));
    assert_eq!(&cut[..MAX_MESSAGE - 3], "x".repeat(MAX_MESSAGE - 3));
}

#[test]
fn an_overlong_line_goes_out_on_its_own() {
    let long = "y".repeat(MAX_MESSAGE + 10);
    let body = format!("a\n{long}\nb\n");
    let parts = split_message(&body);
    assert_eq!(parts.len(), 3);
    assert_eq!(parts[0], "a\n");
    assert!(parts[1].ends_with('…'));
    assert_eq!(parts[2], "b\n");
}

#[test]
fn carriage_returns_before_newlines_are_dropped_when_splitting() {
    let line = "z".repeat(100);
    let body = format!("{line}\r\n").repeat(50);
    let parts = split_message(&body);
    let rejoined: String = parts.concat();
    assert_eq!(rejoined, format!("{line}\n").repeat(50));
}

#[test]
fn the_offset_moves_past_each_update_and_never_back() {
    assert_eq!(next_offset(0, 41), 42);
    assert_eq!(next_offset(50, 41), 50);
    assert_eq!(next_offset(42, 42), 43);
}
