use scematica::control::{enabled_mode_names, find_mode, rewrite_sniper_key, EditError, ModeEntry, Param};

#[test]
fn the_edit_is_scoped_to_the_sniper_table() {
    let src = "\
[sniper]
take_profit_pct = 175.0   # baseline
stop_loss_pct = 10.0

[[sniper.rate_modes]]
name = \"Micro\"
take_profit_pct = 50.0
";
    // 220.0 is the TOML form of the new value.
    let out = rewrite_sniper_key(src, "take_profit_pct", "220.0").unwrap();
    assert!(out.contains("take_profit_pct = 220.0   # baseline"));
    assert!(out.contains("take_profit_pct = 50.0"));
    assert!(out.contains("# baseline"));
}

#[test]
fn a_subtable_header_ends_the_sniper_section() {
    assert!(!"[sniper.filters]".starts_with("[sniper]"));
    assert!(!"[[sniper.rate_modes]]".starts_with("[sniper]"));
    assert!("[sniper]".starts_with("[sniper]"));
    let src = "[sniper.filters]\nstop_loss_pct = 3.0\n";
    assert_eq!(rewrite_sniper_key(src, "stop_loss_pct", "12.0"), Err(EditError::KeyNotFound));
}

#[test]
fn every_other_line_is_kept_verbatim() {
    let src = "# top\n[sniper]\n  stop_loss_pct=10.0\nother = 1\n";
    let out = rewrite_sniper_key(src, Param::StopLoss.key(), "12.5").unwrap();
    assert_eq!(out, "# top\n[sniper]\nstop_loss_pct = 12.5\nother = 1\n");
}

#[test]
fn only_the_first_occurrence_in_the_table_is_rewritten() {
    let src = "[sniper]\nstop_loss_pct = 1.0\nstop_loss_pct = 2.0\n";
    let out = rewrite_sniper_key(src, "stop_loss_pct", "9.0").unwrap();
    assert_eq!(out, "[sniper]\nstop_loss_pct = 9.0\nstop_loss_pct = 2.0\n");
}

#[test]
fn param_keys_name_the_config_fields() {
    assert_eq!(Param::TakeProfit.key(), "take_profit_pct");
    assert_eq!(Param::StopLoss.key(), "stop_loss_pct");
}

fn modes() -> Vec<ModeEntry> {
    vec![
        ModeEntry { name: "Safe".into(), enabled: true },
        ModeEntry { name: "Degen".into(), enabled: false },
        ModeEntry { name: "turbo".into(), enabled: true },
        ModeEntry { name: "TURBO".into(), enabled: true },
    ]
}

#[test]
fn a_mode_is_found_by_trimmed_name_ignoring_case() {
    assert_eq!(find_mode(&modes(), "  safe "), Some(0));
    assert_eq!(find_mode(&modes(), "Turbo"), Some(2));
}

#[test]
fn a_disabled_or_unknown_mode_is_not_found() {
    assert_eq!(find_mode(&modes(), "degen"), None);
    assert_eq!(find_mode(&modes(), "yolo"), None);
    assert_eq!(find_mode(&modes(), ""), None);
}

#[test]
fn the_available_list_names_enabled_modes_in_order() {
    assert_eq!(enabled_mode_names(&modes()), vec!["Safe".to_string(), "turbo".into(), "TURBO".into()]);
}
