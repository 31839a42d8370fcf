use scematica::render::{controls_block, dash, dash_count, filter_report, hms, liveness_line, log_lines, on_off, short_mint};
use scematica::state::{Controls, Liveness};

#[test]
fn a_short_mint_is_not_falsely_ellipsised() {
    assert_eq!(short_mint("SOL"), "SOL");
    assert!(short_mint("MintAAAAAAAAAAAAAAAAAAAAAAAAAAAAAAAA").contains('…'));
}

#[test]
fn a_long_mint_keeps_four_bytes_at_each_end() {
    assert_eq!(short_mint("MintAAAAAAAAAAAAAAAAAAAAAAAAAAAAZZZZ"), "Mint…ZZZZ");
    assert_eq!(short_mint("<b>AAAAAAAAAAAA&>&"), "&lt;b&gt;A…A&amp;&gt;&amp;");
    assert_eq!(short_mint("exactly12chr"), "exactly12chr");
}

#[test]
fn an_unmeasured_value_is_an_em_dash() {
    assert_eq!(dash(None), "—");
    assert_eq!(dash(Some("0.00".to_string())), "0.00");
    assert_eq!(dash_count(None), "—");
    assert_eq!(dash_count(Some(0)), "0");
}

#[test]
fn durations_read_in_the_largest_units() {
    assert_eq!(hms(45), "45s");
    assert_eq!(hms(200), "3m 20s");
    assert_eq!(hms(7_500), "2h 5m");
    assert_eq!(hms(0), "0s");
}

#[test]
fn the_three_liveness_lines_differ() {
    assert_eq!(liveness_line(&Liveness::Live { metrics_age_secs: 2 }), "🟢 <b>RUNNING</b> — state written 2s ago");
    assert_eq!(
        liveness_line(&Liveness::Stale { metrics_age_secs: 900, pid: Some(1234) }),
        "🟠 <b>NOT WRITING</b> — last state 15m 0s ago (lockfile PID 1234)\nThe process may be wedged. It still holds the single-instance lock, so a restart will refuse until it is stopped."
    );
    assert!(liveness_line(&Liveness::Stopped).contains("STOPPED"));
}

#[test]
fn log_lines_escape_and_distinguish_missing_from_empty() {
    assert_eq!(log_lines(None), "<b>LOG</b>\n\n<i>No log file.</i>");
    assert_eq!(log_lines(Some(&[])), "<b>LOG</b>\n\nEmpty.");
    let lines = vec!["a<b".to_string(), "c".to_string()];
    assert_eq!(log_lines(Some(&lines)), "<b>LOG</b>\n\n<pre>a&lt;b\nc</pre>");
}

#[test]
fn on_and_off() {
    assert_eq!(on_off(true), "on");
    assert_eq!(on_off(false), "off");
}

fn row(name: &str, n: u64) -> (String, u64) {
    (name.to_string(), n)
}

#[test]
fn filters_rank_most_frequent_first_and_keep_ties_in_order() {
    let r = filter_report(&vec![row("age", 3), row("liquidity", 10), row("mint_auth", 3), row("score", 7)]);
    assert_eq!(r.rows, vec![row("liquidity", 10), row("score", 7), row("age", 3), row("mint_auth", 3)]);
    assert_eq!(r.total, 23);
}

#[test]
fn filters_show_twenty_but_count_all() {
    let rows: Vec<(String, u64)> = (0..25u64).map(|i| (format!("f{i}"), i + 1)).collect();
    let r = filter_report(&rows);
    assert_eq!(r.rows.len(), 20);
    assert_eq!(r.rows[0], row("f24", 25));
    assert_eq!(r.rows[19], row("f5", 6));
    assert_eq!(r.total, (1..=25u128).sum::<u128>());
}

#[test]
fn filters_with_no_rows_report_nothing() {
    let r = filter_report(&Vec::new());
    assert!(r.rows.is_empty());
    assert_eq!(r.total, 0);
}

#[test]
fn filter_total_does_not_wrap() {
    let r = filter_report(&vec![row("a", u64::MAX), row("b", u64::MAX)]);
    assert_eq!(r.total, 2 * (u64::MAX as u128));
}

fn controls(sell_mode: bool, reason: Option<&str>, dump_mode: bool) -> Controls {
    Controls {
        sell_mode,
        sell_mode_reason: reason.map(str::to_string),
        dump_mode,
        high_speed: false,
        moon_chase: true,
        rate_mode: None,
    }
}

#[test]
fn an_active_bot_reads_as_active() {
    let out = controls_block(&controls(false, None, false));
    assert_eq!(out, "<b>Buys</b>       ▶ active\n<b>Moon chase</b> on\n");
}

#[test]
fn a_pause_names_who_paused_escaped() {
    let out = controls_block(&controls(true, Some("telegram:<ops>"), true));
    assert!(out.starts_with("<b>Buys</b>       ⏸ PAUSED (by telegram:&lt;ops&gt;)\n"));
    assert!(out.contains("DUMP MODE"));
    assert!(!out.contains("High speed"));
}
