//! The `scematica` launcher: its table of component commands, what a command line asks
//! for, and the help it prints. Finding and running the component binary is the
//! caller's.
use vstd::prelude::*;

use crate::control::{same_chars};
use crate::text::{chars_of, push_char};

verus! {

/// A component the launcher can start: the subcommand, the binary's stem, the crate that
/// installs it, and a one-line description.
#[derive(Debug, Clone, Copy, PartialEq, Eq)]
pub struct Component {
    pub command: &'static str,
    pub stem: &'static str,
    pub krate: &'static str,
    pub about: &'static str,
}

/// The components, in the order the help lists them.
pub open spec fn components_spec() -> Seq<Component> {
    seq![
        Component {
            command: "dashboard",
            stem: "dashboard",
            krate: "scematica-dashboard",
            about: "Terminal monitoring dashboard (try: dashboard --demo)",
        },
        Component {
            command: "sniper",
            stem: "sniper",
            krate: "scematica-sniper",
            about: "New-pool sniper engine (needs keypair + RPC)",
        },
        Component {
            command: "backtest",
            stem: "backtest",
            krate: "scematica-sniper",
            about: "Replay pool history through the filter + TP/SL sim",
        },
        Component {
            command: "protocol",
            stem: "protocol",
            krate: "scematica-protocol",
            about: "x402 HTTP 402 payment facilitator server",
        },
        Component {
            command: "ddqn",
            stem: "scema-ddqn",
            krate: "scematica-nn",
            about: "Deep Q* agent live training viewer",
        },
        Component {
            command: "scemadex",
            stem: "scemadex",
            krate: "scemadex-sdk",
            about: "ScemaDEX agentic-liquidity live viewer",
        },
    ]
}

/// The component table.
pub fn components() -> (v: Vec<Component>)
    ensures
        v@ == components_spec(),
{
    vec![
        Component {
            command: "dashboard",
            stem: "dashboard",
            krate: "scematica-dashboard",
            about: "Terminal monitoring dashboard (try: dashboard --demo)",
        },
        Component {
            command: "sniper",
            stem: "sniper",
            krate: "scematica-sniper",
            about: "New-pool sniper engine (needs keypair + RPC)",
        },
        Component {
            command: "backtest",
            stem: "backtest",
            krate: "scematica-sniper",
            about: "Replay pool history through the filter + TP/SL sim",
        },
        Component {
            command: "protocol",
            stem: "protocol",
            krate: "scematica-protocol",
            about: "x402 HTTP 402 payment facilitator server",
        },
        Component {
            command: "ddqn",
            stem: "scema-ddqn",
            krate: "scematica-nn",
            about: "Deep Q* agent live training viewer",
        },
        Component {
            command: "scemadex",
            stem: "scemadex",
            krate: "scemadex-sdk",
            about: "ScemaDEX agentic-liquidity live viewer",
        },
    ]
}

/// What a command line asks the launcher for.
#[derive(Debug, Clone, PartialEq, Eq)]
pub enum Launch {
    Help,
    Version,
    /// Run this component with the rest of the arguments.
    Run(Component),
    /// No such command: say so, print the help, exit 2.
    Unknown(String),
}

/// Whether a first argument asks for help: none at all, `-h`, `--help` or `help`.
pub open spec fn asks_help(sub: Option<Seq<char>>) -> bool {
    match sub {
        None => true,
        Some(s) => s == "-h"@ || s == "--help"@ || s == "help"@,
    }
}

/// Whether a first argument asks for the version: `-V`, `--version` or `version`.
pub open spec fn asks_version(s: Seq<char>) -> bool {
    s == "-V"@ || s == "--version"@ || s == "version"@
}

fn is(s: &Vec<char>, lit: &str) -> (b: bool)
    ensures
        b == (s@ == lit@),
{
    let l = chars_of(lit);
    same_chars(s, &l)
}

/// Read the first argument: help, the version, a component to run (the first whose
/// command it names), or an unknown command.
pub fn launch_for(sub: Option<&str>) -> (l: Launch)
    ensures
        asks_help(
            match sub {
                Some(s) => Some(s@),
                None => None,
            },
        ) ==> l == Launch::Help,
        match sub {
            None => true,
            Some(s) => !asks_help(Some(s@)) ==> if asks_version(s@) {
                l == Launch::Version
            } else {
                match l {
                    Launch::Run(c) => c.command@ == s@ && exists|i: int|
                        0 <= i < components_spec().len() && components_spec()[i] == c && forall|j: int|
                            0 <= j < i ==> components_spec()[j].command@ != s@,
                    Launch::Unknown(n) => n@ == s@ && forall|j: int|
                        0 <= j < components_spec().len() ==> components_spec()[j].command@ != s@,
                    _ => false,
                }
            },
        },
{
    let s = match sub {
        None => return Launch::Help,
        Some(s) => s,
    };
    let cs = chars_of(s);
    if is(&cs, "-h") || is(&cs, "--help") || is(&cs, "help") {
        return Launch::Help;
    }
    if is(&cs, "-V") || is(&cs, "--version") || is(&cs, "version") {
        return Launch::Version;
    }
    let table = components();
    let mut i: usize = 0;
    while i < table.len()
        invariant
            i <= table@.len(),
            table@ == components_spec(),
            cs@ == s@,
            sub == Some(s),
            !asks_help(Some(s@)),
            !asks_version(s@),
            forall|j: int| 0 <= j < i ==> table@[j].command@ != s@,
        decreases table@.len() - i,
    {
        if is(&cs, table[i].command) {
            assert(components_spec()[i as int] == table@[i as int]);
            return Launch::Run(table[i]);
        }
        i = i + 1;
    }
    let mut name = String::new();
    let mut k: usize = 0;
    while k < cs.len()
        invariant
            k <= cs@.len(),
            name@ == cs@.take(k as int),
        decreases cs@.len() - k,
    {
        push_char(&mut name, cs[k]);
        k = k + 1;
        assert(name@ =~= cs@.take(k as int));
    }
    assert(cs@.take(cs@.len() as int) =~= cs@);
    Launch::Unknown(name)
}

/// `s` padded with spaces on the right to `width` characters, as `{:<width}` writes it.
pub open spec fn pad_right(s: Seq<char>, width: nat) -> Seq<char> {
    if s.len() >= width { s } else { s + Seq::new((width - s.len()) as nat, |i: int| ' ') }
}

/// The help's line for each component, in order: the command padded to ten columns, then
/// its description.
pub open spec fn component_lines(cs: Seq<Component>) -> Seq<char>
    decreases cs.len(),
{
    if cs.len() == 0 {
        Seq::empty()
    } else {
        component_lines(cs.drop_last()) + "  "@ + pad_right(cs.last().command@, 10) + " "@ + cs.last().about@ + "\n"@
    }
}

/// The first lines of the help, after the version.
pub const HELP_TOP: &'static str = " — unified launcher for the Scematica stack\n\nUSAGE:\n  scematica <command> [args...]\n\nCOMMANDS:\n";

/// The lines of the help after the component table.
pub const HELP_BOTTOM: &'static str = "  help       Show this help\n  version    Show the suite version\n\nEach command runs the corresponding installed binary. Install the\nwhole stack alongside the launcher with, e.g.:\n  cargo install scematica-suite scematica-dashboard scematica-sniper \\\n                scematica-protocol scematica-nn scemadex-sdk\n";

/// The launcher's help for a given version.
pub open spec fn help_spec(version: Seq<char>) -> Seq<char> {
    "scematica "@ + version + HELP_TOP@ + component_lines(components_spec()) + HELP_BOTTOM@
}

/// Append `s` padded to `width` characters.
fn push_padded(out: &mut String, s: &str, width: usize)
    ensures
        final(out)@ == old(out)@ + pad_right(s@, width as nat),
{
    let cs = chars_of(s);
    out.append(s);
    let mut n = cs.len();
    let ghost base = out@;
    while n < width
        invariant
            cs@ == s@,
            cs@.len() <= n <= width || (n == cs@.len() && n >= width),
            out@ == base + Seq::new((n - cs@.len()) as nat, |i: int| ' '),
        decreases width - n,
    {
        push_char(out, ' ');
        n = n + 1;
        assert(out@ =~= base + Seq::new((n - cs@.len()) as nat, |i: int| ' '));
    }
    assert(out@ =~= old(out)@ + pad_right(s@, width as nat));
}

/// The help the launcher prints, for the suite's version.
pub fn help_text(version: &str) -> (s: String)
    ensures
        s@ == help_spec(version@),
{
    let table = components();
    let mut s = String::from_str("scematica ");
    s.append(version);
    s.append(HELP_TOP);
    let ghost head = s@;
    let mut i: usize = 0;
    while i < table.len()
        invariant
            i <= table@.len(),
            table@ == components_spec(),
            s@ == head + component_lines(table@.take(i as int)),
        decreases table@.len() - i,
    {
        assert(table@.take(i as int + 1).drop_last() =~= table@.take(i as int));
        s.append("  ");
        push_padded(&mut s, table[i].command, 10);
        s.append(" ");
        s.append(table[i].about);
        s.append("\n");
        i = i + 1;
        assert(s@ =~= head + component_lines(table@.take(i as int)));
    }
    assert(table@.take(table@.len() as int) =~= table@);
    s.append(HELP_BOTTOM);
    s
}

/// How a launch ended, for the exit code.
#[derive(Debug, Clone, Copy, PartialEq, Eq)]
pub enum RunOutcome {
    /// The component's binary is neither beside the launcher nor on `PATH`.
    NotInstalled,
    /// The binary was found but could not be started.
    SpawnFailed,
    /// The component ran; its exit code, `None` when a signal ended it.
    Exited(Option<i32>),
}

/// The launcher's exit code: 127 when the component is not installed, the component's own
/// code when it exited with one, and 1 otherwise.
pub fn exit_code(outcome: RunOutcome) -> (code: i32)
    ensures
        code == match outcome {
            RunOutcome::NotInstalled => 127i32,
            RunOutcome::SpawnFailed => 1i32,
            RunOutcome::Exited(Some(c)) => c,
            RunOutcome::Exited(None) => 1i32,
        },
{
    match outcome {
        RunOutcome::NotInstalled => 127,
        RunOutcome::SpawnFailed => 1,
        RunOutcome::Exited(Some(c)) => c,
        RunOutcome::Exited(None) => 1,
    }
}

} // verus!
