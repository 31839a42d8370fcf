use scematica::commands::{
    button_data, dump_reply, parse_button, prompt_text, route, unknown_reply, Button, Command, Risk, Toggle, count_arg, dump_command, eq_ignore_ascii_case, fresh_code, help, menu, parse_message, DumpArm, DumpStep, Parsed,
    Pending, CODE_ALPHABET, DUMP_TTL_MS,
};

#[test]
fn a_plain_message_goes_to_the_model() {
    assert_eq!(parse_message("how are the trades going?"), Parsed::Chat("how are the trades going?".into()));
}

#[test]
fn a_group_suffixed_command_still_parses() {
    assert_eq!(
        parse_message("/status@ScemaAgentBot"),
        Parsed::Command { name: "status".into(), arg: String::new() }
    );
}

#[test]
fn an_unknown_command_is_named_rather_than_sent_to_the_model() {
    assert_eq!(parse_message("/psotions"), Parsed::Command { name: "psotions".into(), arg: String::new() });
}

#[test]
fn commands_are_lowercased_and_arguments_trimmed() {
    assert_eq!(
        parse_message("  /TRADES   20  "),
        Parsed::Command { name: "trades".into(), arg: "20".into() }
    );
    assert_eq!(parse_message("//mode  degen x"), Parsed::Command { name: "mode".into(), arg: "degen x".into() });
}

#[test]
fn counts_are_clamped() {
    assert_eq!(count_arg("999999", 15, 100), 100);
    assert_eq!(count_arg("0", 15, 100), 1);
    assert_eq!(count_arg("", 15, 100), 15);
    assert_eq!(count_arg("lots", 25, 100), 25);
    assert_eq!(count_arg("30 more", 25, 100), 30);
}

#[test]
fn dump_needs_two_steps() {
    let mut p = Pending::new();
    let first = dump_command(&mut p, 7, "", 1_000);
    let msg = dump_reply(&first, Some(3), &Ok(()));
    assert!(msg.contains("min_out = 0"));
    let DumpStep::Armed(code) = first else { panic!("expected an armed dump") };
    assert!(msg.contains(&format!("<code>/dump {code}</code>")));
    assert!(msg.contains("<b>3</b> open position(s)"));
    assert_eq!(code.len(), 4);
    assert!(p.dumps.contains_key(&7), "the first /dump must arm, not act");
    let bad = dump_command(&mut p, 7, "ZZZZ", 1_001);
    assert_eq!(bad, DumpStep::WrongCode);
    assert!(dump_reply(&bad, None, &Ok(())).contains("not the current code"));
    assert!(p.dumps.contains_key(&7), "a wrong code does not disarm");
    assert_eq!(dump_command(&mut p, 7, &code.to_lowercase(), 1_002), DumpStep::Engage);
    assert!(!p.dumps.contains_key(&7), "a code is used once");
}

#[test]
fn a_dump_code_is_scoped_to_its_chat() {
    let mut p = Pending::new();
    dump_command(&mut p, 7, "", 1_000);
    let code = p.dumps.get(&7).unwrap().code.clone();
    let other = dump_command(&mut p, 8, &code, 1_001);
    assert_eq!(other, DumpStep::WrongCode);
    assert!(dump_reply(&other, None, &Ok(())).contains("not the current code"));
    assert!(p.dumps.contains_key(&7));
}

#[test]
fn an_expired_dump_code_is_refused() {
    let mut p = Pending::new();
    p.dumps.insert(7, DumpArm { code: "ABCD".into(), issued_at_ms: 1_000 });
    let late = dump_command(&mut p, 7, "ABCD", 1_000 + DUMP_TTL_MS + 1);
    assert_eq!(late, DumpStep::Expired);
    assert!(dump_reply(&late, None, &Ok(())).contains("expired"));
    assert!(!p.dumps.contains_key(&7));
}

#[test]
fn a_dump_code_expires_to_the_millisecond() {
    let mut p = Pending::new();
    p.dumps.insert(7, DumpArm { code: "ABCD".into(), issued_at_ms: 1_000 });
    assert_eq!(dump_command(&mut p, 7, "ABCD", 1_000 + 60_050), DumpStep::Expired);
    p.dumps.insert(7, DumpArm { code: "ABCD".into(), issued_at_ms: 1_000 });
    assert_eq!(dump_command(&mut p, 7, "ABCD", 1_000 + 60_000), DumpStep::Engage);
}

#[test]
fn dump_off_clears_the_flag() {
    let mut p = Pending::new();
    assert_eq!(dump_command(&mut p, 7, "OFF", 1), DumpStep::ClearFlag);
}

#[test]
fn codes_come_from_the_unambiguous_alphabet() {
    for _ in 0..20 {
        let c = fresh_code(6);
        assert_eq!(c.len(), 6);
        assert!(c.chars().all(|ch| CODE_ALPHABET.contains(ch)));
    }
    assert!(eq_ignore_ascii_case("AbC", "aBc"));
    assert!(!eq_ignore_ascii_case("AbC", "aBd"));
}

#[test]
fn help_lists_the_read_and_control_commands() {
    let h = help();
    assert!(h.starts_with("<b>SCEMATICA — TELEGRAM</b>"));
    assert!(h.contains("/status — Is the bot running, and what has it done\n"));
    assert!(h.contains("<b>Control</b>\n/mode — Switch rate mode — /mode degen\n"));
    assert!(!h.contains("/ask —"), "chat commands are described, not listed");
    assert_eq!(menu().len(), 21);
}

#[test]
fn route_sends_plain_text_to_the_model() {
    assert_eq!(route("hello there"), Command::Chat("hello there".into()));
}

#[test]
fn route_clamps_read_counts() {
    assert_eq!(route("/trades 999999"), Command::Trades(100));
    assert_eq!(route("/trades"), Command::Trades(15));
    assert_eq!(route("/pnl 5000"), Command::Pnl(1000));
    assert_eq!(route("/pools 0"), Command::Pools(1));
    assert_eq!(route("/log lots"), Command::Log(25));
}

#[test]
fn route_knows_aliases_and_unknowns() {
    assert_eq!(route("/start"), Command::Help);
    assert_eq!(route("/pos"), Command::Positions);
    assert_eq!(route("/config@SomeBot"), Command::Params);
    assert_eq!(route("/stop"), Command::Pause);
    assert_eq!(route("/psotions"), Command::Unknown("psotions".into()));
}

#[test]
fn route_mode_without_argument_lists_modes() {
    assert_eq!(route("/mode"), Command::Modes);
    assert_eq!(route("/mode degen"), Command::Mode("degen".into()));
}

#[test]
fn route_passes_parameter_text_on() {
    assert_eq!(route("/tp 175%"), Command::SetParam { take_profit: true, arg: "175%".into() });
    assert_eq!(route("/sl lots"), Command::SetParam { take_profit: false, arg: "lots".into() });
}

#[test]
fn route_reads_switches() {
    assert_eq!(route("/highspeed ON"), Command::Switch { which: Toggle::HighSpeed, on: Some(true) });
    assert_eq!(route("/moonchase 0"), Command::Switch { which: Toggle::MoonChase, on: Some(false) });
    assert_eq!(route("/moonchase maybe"), Command::Switch { which: Toggle::MoonChase, on: None });
}

#[test]
fn route_ask_and_dump() {
    assert_eq!(route("/ask"), Command::AskUsage);
    assert_eq!(route("/ask how did we do?"), Command::Chat("how did we do?".into()));
    assert_eq!(route("/dump ABC123"), Command::Dump("ABC123".into()));
    assert_eq!(route("/reset"), Command::Reset);
}

#[test]
fn buttons_name_a_verb_and_a_token() {
    assert_eq!(parse_button("ok:c1"), Button::Confirm("c1".into()));
    assert_eq!(parse_button("no:c7"), Button::Cancel("c7".into()));
    assert_eq!(parse_button("ok:"), Button::Confirm(String::new()));
    assert_eq!(parse_button("yes:c1"), Button::Unknown);
    assert_eq!(parse_button("ok"), Button::Unknown);
}

#[test]
fn a_prompts_buttons_carry_only_a_verb_and_its_token() {
    assert_eq!(button_data(true, "c3"), "ok:c3");
    assert_eq!(button_data(false, "c3"), "no:c3");
    assert_eq!(parse_button(&button_data(true, "c3")), Button::Confirm("c3".into()));
    assert_eq!(parse_button(&button_data(false, "c3")), Button::Cancel("c3".into()));
}

#[test]
fn a_prompt_is_marked_by_risk_and_escapes_the_summary() {
    assert_eq!(
        prompt_text("sell <all>", Risk::High),
        "🔴 <b>Confirm</b>\n\nsell &lt;all&gt;\n\n<i>Expires in 5 minutes. Only you, in this chat, can answer it.</i>"
    );
    assert!(prompt_text("status", Risk::Safe).starts_with("<b>Confirm</b>"));
    assert!(prompt_text("pause", Risk::Moderate).starts_with("⚠️ <b>Confirm</b>"));
}

#[test]
fn an_unknown_command_is_refused_by_name() {
    assert_eq!(
        unknown_reply("psotions"),
        "No command <code>/psotions</code>. /help for the list.\n\n<i>Not passed to the model: a typo answered confidently is worse than a typo refused.</i>"
    );
    assert!(unknown_reply("<b>").contains("/&lt;b&gt;"));
}

#[test]
fn engaging_and_clearing_a_dump_say_what_happened() {
    assert!(dump_reply(&DumpStep::Engage, None, &Ok(())).contains("DUMP MODE ENGAGED"));
    assert!(dump_reply(&DumpStep::ClearFlag, None, &Ok(())).starts_with("Dump mode cleared."));
    assert_eq!(dump_reply(&DumpStep::Engage, None, &Err("disk <full>".into())), "❌ disk &lt;full&gt;");
    assert!(dump_reply(&DumpStep::Armed("AB23".into()), None, &Ok(())).contains("<b>—</b>"));
}
