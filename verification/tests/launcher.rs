use scematica::launcher::{components, exit_code, help_text, launch_for, Launch, RunOutcome};

#[test]
fn help_and_version_are_recognised() {
    assert_eq!(launch_for(None), Launch::Help);
    assert_eq!(launch_for(Some("-h")), Launch::Help);
    assert_eq!(launch_for(Some("--help")), Launch::Help);
    assert_eq!(launch_for(Some("help")), Launch::Help);
    assert_eq!(launch_for(Some("-V")), Launch::Version);
    assert_eq!(launch_for(Some("version")), Launch::Version);
}

#[test]
fn a_component_is_found_by_its_command() {
    match launch_for(Some("ddqn")) {
        Launch::Run(c) => {
            assert_eq!(c.stem, "scema-ddqn");
            assert_eq!(c.krate, "scematica-nn");
        }
        other => panic!("expected a component, got {other:?}"),
    }
    assert_eq!(launch_for(Some("snipe")), Launch::Unknown("snipe".into()));
    assert_eq!(launch_for(Some("Sniper")), Launch::Unknown("Sniper".into()));
}

#[test]
fn the_help_lists_every_component_in_padded_columns() {
    let expected = [
        "scematica 0.1.0 — unified launcher for the Scematica stack\n",
        "\n",
        "USAGE:\n",
        "  scematica <command> [args...]\n",
        "\n",
        "COMMANDS:\n",
        "  dashboard  Terminal monitoring dashboard (try: dashboard --demo)\n",
        "  sniper     New-pool sniper engine (needs keypair + RPC)\n",
        "  backtest   Replay pool history through the filter + TP/SL sim\n",
        "  protocol   x402 HTTP 402 payment facilitator server\n",
        "  ddqn       Deep Q* agent live training viewer\n",
        "  scemadex   ScemaDEX agentic-liquidity live viewer\n",
        "  help       Show this help\n",
        "  version    Show the suite version\n",
        "\n",
        "Each command runs the corresponding installed binary. Install the\n",
        "whole stack alongside the launcher with, e.g.:\n",
        "  cargo install scematica-suite scematica-dashboard scematica-sniper \\\n",
        "                scematica-protocol scematica-nn scemadex-sdk\n",
    ]
    .concat();
    assert_eq!(help_text("0.1.0"), expected);
    assert_eq!(components().len(), 6);
}

#[test]
fn exit_codes_follow_the_component() {
    assert_eq!(exit_code(RunOutcome::NotInstalled), 127);
    assert_eq!(exit_code(RunOutcome::SpawnFailed), 1);
    assert_eq!(exit_code(RunOutcome::Exited(Some(3))), 3);
    assert_eq!(exit_code(RunOutcome::Exited(None)), 1);
}
