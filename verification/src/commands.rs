//! The command table, parsing a chat message into a command, and the two-step gate in
//! front of `/dump`.
//!
//! `/dump` force-sells every position at any price, so one tap is not consent: the first
//! `/dump` answers with what will happen and a short code, and only `/dump <code>` from the
//! same chat within a minute acts.
use std::collections::HashMap;

use vstd::prelude::*;

use crate::presence::{is_ws, parse_unsigned, trim, trim_range};
use crate::random::random_below;
use crate::text::{chars_of, esc, esc_spec, push_char};

verus! {

broadcast use vstd::std_specs::hash::group_hash_axioms;

/// How long a `/dump` code stays valid, in milliseconds.
pub const DUMP_TTL_MS: u64 = 60_000;

/// The characters codes are drawn from: no 0/O and no 1/I/L, since a code is read off one
/// screen and typed into another.
pub const CODE_ALPHABET: &'static str = "23456789ABCDEFGHJKMNPQRSTUVWXYZ";

/// The command menu: name and description, in the order `help` lists them.
pub open spec fn menu_spec() -> Seq<(Seq<char>, Seq<char>)> {
    seq![
        ("status"@, "Is the bot running, and what has it done"@),
        ("positions"@, "Open positions with PnL, peak, TP and SL"@),
        ("trades"@, "Recent trades — /trades 20"@),
        ("pnl"@, "Realised PnL over the recent window"@),
        ("filters"@, "Per-filter rejection counts"@),
        ("dq"@, "Deep Q* agent stats and its last advice"@),
        ("pools"@, "Recent pool decisions"@),
        ("params"@, "Every live trading parameter"@),
        ("modes"@, "The rate-mode table"@),
        ("log"@, "Tail the sniper log — /log 30"@),
        ("mode"@, "Switch rate mode — /mode degen"@),
        ("tp"@, "Set take-profit % — /tp 220"@),
        ("sl"@, "Set stop-loss % — /sl 12"@),
        ("pause"@, "Pause buys (positions keep their exits)"@),
        ("resume"@, "Resume buys"@),
        ("dump"@, "DANGER: force-sell everything at any price"@),
        ("highspeed"@, "/highspeed on|off"@),
        ("moonchase"@, "/moonchase on|off"@),
        ("ask"@, "Ask Grok — or just send a message"@),
        ("reset"@, "Forget the chat history"@),
        ("help"@, "This list"@),
    ]
}

/// The command menu published to Telegram, as name and description pairs.
pub fn menu() -> (m: Vec<(&'static str, &'static str)>)
    ensures
        m@.len() == menu_spec().len(),
        forall|i: int| 0 <= i < m@.len() ==> (#[trigger] m@[i]).0@ == menu_spec()[i].0 && m@[i].1@ == menu_spec()[i].1,
{
    let m: Vec<(&'static str, &'static str)> = vec![
        ("status", "Is the bot running, and what has it done"),
        ("positions", "Open positions with PnL, peak, TP and SL"),
        ("trades", "Recent trades — /trades 20"),
        ("pnl", "Realised PnL over the recent window"),
        ("filters", "Per-filter rejection counts"),
        ("dq", "Deep Q* agent stats and its last advice"),
        ("pools", "Recent pool decisions"),
        ("params", "Every live trading parameter"),
        ("modes", "The rate-mode table"),
        ("log", "Tail the sniper log — /log 30"),
        ("mode", "Switch rate mode — /mode degen"),
        ("tp", "Set take-profit % — /tp 220"),
        ("sl", "Set stop-loss % — /sl 12"),
        ("pause", "Pause buys (positions keep their exits)"),
        ("resume", "Resume buys"),
        ("dump", "DANGER: force-sell everything at any price"),
        ("highspeed", "/highspeed on|off"),
        ("moonchase", "/moonchase on|off"),
        ("ask", "Ask Grok — or just send a message"),
        ("reset", "Forget the chat history"),
        ("help", "This list"),
    ];
    m
}

/// One menu entry as a help line.
pub open spec fn menu_line(e: (Seq<char>, Seq<char>)) -> Seq<char> {
    "/"@ + e.0 + " — "@ + e.1 + "\n"@
}

/// The help lines for menu entries `a..b`.
pub open spec fn menu_block(m: Seq<(Seq<char>, Seq<char>)>, a: int, b: int) -> Seq<char>
    decreases b - a,
{
    if b <= a { Seq::empty() } else { menu_block(m, a, b - 1) + menu_line(m[b - 1]) }
}

/// The help text: the ten read commands, the eight control commands, then how chat works.
pub open spec fn help_spec() -> Seq<char> {
    HELP_HEAD@ + menu_block(menu_spec(), 0, 10) + "\n<b>Control</b>\n"@ + menu_block(menu_spec(), 10, 18) + HELP_TAIL@
}

/// The start of the help text.
pub const HELP_HEAD: &'static str = "<b>SCEMATICA — TELEGRAM</b>\n\nThe sniper's own controls and its Grok agent.\n\n<b>Read</b>\n";

/// The end of the help text.
pub const HELP_TAIL: &'static str = "\n<b>Chat</b>\nSend any message to talk to Grok. It can read the bot's state and, with a confirmation, act.\n\n<i>Trading parameters live in config.toml. /tp and /sl edit it and the sniper picks the change up within 30 seconds; /mode switches the whole profile in 5.</i>";

/// Append the help lines for menu entries `a..b`.
fn push_menu_block(s: &mut String, m: &Vec<(&'static str, &'static str)>, a: usize, b: usize)
    requires
        a <= b <= m@.len(),
        m@.len() == menu_spec().len(),
        forall|i: int| 0 <= i < m@.len() ==> (#[trigger] m@[i]).0@ == menu_spec()[i].0 && m@[i].1@ == menu_spec()[i].1,
    ensures
        final(s)@ == old(s)@ + menu_block(menu_spec(), a as int, b as int),
{
    let mut i = a;
    while i < b
        invariant
            a <= i <= b <= m@.len(),
            m@.len() == menu_spec().len(),
            forall|k: int| 0 <= k < m@.len() ==> (#[trigger] m@[k]).0@ == menu_spec()[k].0 && m@[k].1@ == menu_spec()[k].1,
            s@ == old(s)@ + menu_block(menu_spec(), a as int, i as int),
        decreases b - i,
    {
        let (c, d) = m[i];
        s.append("/");
        s.append(c);
        s.append(" — ");
        s.append(d);
        s.append("\n");
        i = i + 1;
        assert(s@ =~= old(s)@ + menu_block(menu_spec(), a as int, i as int));
    }
}

/// The help message.
pub fn help() -> (s: String)
    ensures
        s@ == help_spec(),
{
    let m = menu();
    let mut s = String::from_str(HELP_HEAD);
    push_menu_block(&mut s, &m, 0, 10);
    s.append("\n<b>Control</b>\n");
    push_menu_block(&mut s, &m, 10, 18);
    s.append(HELP_TAIL);
    s
}

/// What handling a message decided the bot should do.
#[derive(Debug, Clone, PartialEq, Eq)]
pub enum Action {
    /// Send this HTML back.
    Reply(String),
    /// Not a command: hand the text to the model.
    Chat(String),
    /// A command the bot does not have.
    Unknown(String),
}

/// A message, read as a command or as chat.
#[derive(Debug, Clone, PartialEq, Eq)]
pub enum Parsed {
    /// Not a command: the trimmed text.
    Chat(String),
    /// `/cmd[@bot] [arg]`: the lowercased name and the trimmed argument.
    Command { name: String, arg: String },
}

/// The position of the first white-space character, if any.
pub open spec fn first_ws(s: Seq<char>) -> Option<int> {
    if exists|i: int| 0 <= i < s.len() && is_ws(s[i]) {
        Some(choose|i: int| 0 <= i < s.len() && is_ws(s[i]) && forall|j: int| 0 <= j < i ==> !is_ws(s[j]))
    } else {
        None
    }
}

/// `s` without its leading `/` characters.
pub open spec fn strip_slashes(s: Seq<char>) -> Seq<char>
    decreases s.len(),
{
    if s.len() > 0 && s[0] == '/' { strip_slashes(s.drop_first()) } else { s }
}

/// `s` up to its first `@`, if any.
pub open spec fn before_at(s: Seq<char>) -> Seq<char> {
    if exists|i: int| 0 <= i < s.len() && s[i] == '@' {
        s.take(choose|i: int| 0 <= i < s.len() && s[i] == '@' && forall|j: int| 0 <= j < i ==> s[j] != '@')
    } else {
        s
    }
}

/// ASCII lowercase of one character.
pub open spec fn lower(c: char) -> char {
    if 'A' <= c <= 'Z' { ((c as u32) + 32) as char } else { c }
}

/// ASCII lowercase of a string.
pub open spec fn lower_all(s: Seq<char>) -> Seq<char> {
    Seq::new(s.len(), |i: int| lower(s[i]))
}

/// How a message is read: trimmed; chat unless it starts with `/`; otherwise the name is
/// the first word without its slashes, cut at any `@` (Telegram appends the bot's name
/// in groups) and lowercased, and the argument is the rest, trimmed.
pub open spec fn parse_spec(text: Seq<char>) -> (bool, Seq<char>, Seq<char>) {
    let t = trim(text);
    if !(t.len() > 0 && t[0] == '/') {
        (false, t, Seq::empty())
    } else {
        let (head, arg) = match first_ws(t) {
            Some(i) => (t.take(i), trim(t.skip(i + 1))),
            None => (t, Seq::empty()),
        };
        (true, lower_all(before_at(strip_slashes(head))), arg)
    }
}

/// The view of a parsed message: whether it is a command, then its name (or the chat
/// text) and argument.
pub open spec fn parsed_view(p: Parsed) -> (bool, Seq<char>, Seq<char>) {
    match p {
        Parsed::Chat(t) => (false, t@, Seq::empty()),
        Parsed::Command { name, arg } => (true, name@, arg@),
    }
}

/// A string of the given characters.
pub(crate) fn string_of(v: &Vec<char>, a: usize, b: usize) -> (s: String)
    requires
        a <= b <= v@.len(),
    ensures
        s@ == v@.subrange(a as int, b as int),
{
    let mut s = String::new();
    let mut i = a;
    while i < b
        invariant
            a <= i <= b <= v@.len(),
            s@ == v@.subrange(a as int, i as int),
        decreases b - i,
    {
        push_char(&mut s, v[i]);
        i = i + 1;
        assert(s@ =~= v@.subrange(a as int, i as int));
    }
    s
}

/// Whether `c` is white space, as `is_ws` says.
pub(crate) fn ws(c: char) -> (r: bool)
    ensures
        r == is_ws(c),
{
    let u = c as u32;
    (0x9 <= u && u <= 0xD) || u == 0x20 || u == 0x85 || u == 0xA0 || u == 0x1680 || (0x2000 <= u && u <= 0x200A)
        || u == 0x2028 || u == 0x2029 || u == 0x202F || u == 0x205F || u == 0x3000
}

/// The first index at or after `from` holding a character for which `pick` holds, or
/// `v.len()`.
fn scan_ws(v: &Vec<char>, from: usize) -> (r: usize)
    requires
        from <= v@.len(),
    ensures
        from <= r <= v@.len(),
        forall|j: int| from <= j < r ==> !is_ws(#[trigger] v@[j]),
        r < v@.len() ==> is_ws(v@[r as int]),
{
    let mut i = from;
    while i < v.len() && !ws(v[i])
        invariant
            from <= i <= v@.len(),
            forall|j: int| from <= j < i ==> !is_ws(#[trigger] v@[j]),
        decreases v@.len() - i,
    {
        i = i + 1;
    }
    i
}

/// Read a message as a command or as chat.
#[verifier::spinoff_prover]
#[verifier::rlimit(40)]
pub fn parse_message(text: &str) -> (p: Parsed)
    ensures
        parsed_view(p) == parse_spec(text@),
{
    let all = chars_of(text);
    let (a, b) = trim_range(&all);
    let t = crate::control::sub_chars(&all, a, b);
    if !(t.len() > 0 && t[0] == '/') {
        return Parsed::Chat(string_of(&t, 0, t.len()));
    }
    let e = scan_ws(&t, 0);
    let ghost fw = first_ws(t@);
    proof {
        if e < t@.len() {
            assert(fw == Some(e as int)) by {
                let k = choose|k: int| 0 <= k < t@.len() && is_ws(t@[k]) && forall|j: int| 0 <= j < k ==> !is_ws(t@[j]);
                assert(0 <= k < t@.len() && is_ws(t@[k]) && forall|j: int| 0 <= j < k ==> !is_ws(t@[j])) by {
                    assert(0 <= e < t@.len() && is_ws(t@[e as int]) && forall|j: int| 0 <= j < e ==> !is_ws(t@[j]));
                }
                if k < e {
                    assert(!is_ws(t@[k]));
                }
                if k > e {
                    assert(!is_ws(t@[e as int]));
                }
            }
        } else {
            assert(!(exists|i: int| 0 <= i < t@.len() && is_ws(t@[i])));
        }
    }
    let arg = if e < t.len() {
        let rest = crate::control::sub_chars(&t, e + 1, t.len());
        assert(rest@ =~= t@.skip(e + 1));
        let (ra, rb) = trim_range(&rest);
        string_of(&rest, ra, rb)
    } else {
        String::new()
    };
    // Skip the slashes.
    let mut s: usize = 0;
    assert(t@.take(e as int).skip(0) =~= t@.take(e as int));
    while s < e && t[s] == '/'
        invariant
            s <= e <= t@.len(),
            strip_slashes(t@.take(e as int).skip(s as int)) == strip_slashes(t@.take(e as int)),
        decreases e - s,
    {
        assert(t@.take(e as int).skip(s as int).drop_first() =~= t@.take(e as int).skip(s + 1));
        s = s + 1;
    }
    let ghost stripped = t@.take(e as int).skip(s as int);
    assert(stripped =~= t@.subrange(s as int, e as int));
    assert(strip_slashes(stripped) == stripped);
    let ghost head = if e < t@.len() { t@.take(e as int) } else { t@ };
    assert(head =~= t@.take(e as int));
    assert(strip_slashes(head) == stripped);
    // Cut at the first '@'.
    let mut at = s;
    while at < e && t[at] != '@'
        invariant
            s <= at <= e <= t@.len(),
            forall|j: int| s <= j < at ==> t@[j] != '@',
        decreases e - at,
    {
        at = at + 1;
    }
    proof {
        let st = t@.subrange(s as int, e as int);
        if at < e {
            let k = choose|k: int| 0 <= k < st.len() && st[k] == '@' && forall|j: int| 0 <= j < k ==> st[j] != '@';
            assert(0 <= k < st.len() && st[k] == '@' && forall|j: int| 0 <= j < k ==> st[j] != '@') by {
                assert(st[at - s] == '@');
                assert(forall|j: int| 0 <= j < at - s ==> st[j] != '@' <== forall|j: int| s <= j < at ==> t@[j] != '@');
            }
            if k < at - s {
                assert(st[k] == t@[s + k]);
            }
            if k > at - s {
                assert(st[at - s] == t@[at as int]);
            }
            assert(before_at(st) =~= t@.subrange(s as int, at as int));
        } else {
            assert forall|i: int| 0 <= i < st.len() implies st[i] != '@' by {
                assert(st[i] == t@[s + i]);
            }
            assert(before_at(st) =~= t@.subrange(s as int, at as int));
        }
    }
    let mut name = String::new();
    let mut i = s;
    while i < at
        invariant
            s <= i <= at <= e <= t@.len(),
            name@ == lower_all(t@.subrange(s as int, i as int)),
        decreases at - i,
    {
        let c = t[i];
        let l = if 'A' <= c && c <= 'Z' { ((c as u32) + 32) as u8 as char } else { c };
        assert(l == lower(c)) by {
            if 'A' <= c && c <= 'Z' {
                assert(((c as u32) + 32) as u8 as char == ((c as u32) + 32) as char);
            }
        }
        push_char(&mut name, l);
        i = i + 1;
        assert(name@ =~= lower_all(t@.subrange(s as int, i as int)));
    }
    proof {
        assert(before_at(strip_slashes(head)) =~= t@.subrange(s as int, at as int));
        assert(t@ == trim(text@));
    }
    Parsed::Command { name, arg }
}

/// A count taken from the first word of an argument: read as a number when it is one,
/// `default` otherwise, then held to `1..=max`.
pub open spec fn count_spec(arg: Seq<char>, default: usize, max: usize) -> usize {
    let t = trim(arg);
    let word = match first_ws(t) {
        Some(i) => t.take(i),
        None => t,
    };
    let n: int = match parse_unsigned(word, usize::MAX as u64) {
        Some(v) => v as int,
        None => default as int,
    };
    (if n < 1 { 1 } else if n > max { max as int } else { n }) as usize
}

/// How many lines or events a read command should show. A fat finger asking for 100000
/// trades must not read a 40 MB log into one message.
pub fn count_arg(arg: &str, default: usize, max: usize) -> (n: usize)
    requires
        1 <= max,
    ensures
        n == count_spec(arg@, default, max),
        1 <= n <= max,
{
    let all = chars_of(arg);
    let (a, b) = trim_range(&all);
    let t = crate::control::sub_chars(&all, a, b);
    let e = scan_ws(&t, 0);
    proof {
        if e < t@.len() {
            assert(first_ws(t@) == Some(e as int)) by {
                let k = choose|k: int| 0 <= k < t@.len() && is_ws(t@[k]) && forall|j: int| 0 <= j < k ==> !is_ws(t@[j]);
                assert(0 <= k < t@.len() && is_ws(t@[k]) && forall|j: int| 0 <= j < k ==> !is_ws(t@[j])) by {
                    assert(0 <= e < t@.len() && is_ws(t@[e as int]) && forall|j: int| 0 <= j < e ==> !is_ws(t@[j]));
                }
                if k < e {
                    assert(!is_ws(t@[k]));
                }
                if k > e {
                    assert(!is_ws(t@[e as int]));
                }
            }
            assert(t@.subrange(0, e as int) =~= t@.take(e as int));
        } else {
            assert(!(exists|i: int| 0 <= i < t@.len() && is_ws(t@[i])));
            assert(t@.subrange(0, e as int) =~= t@);
        }
    }
    let parsed = crate::presence::parse_unsigned_exec(&t, 0, e, usize::MAX as u64);
    let n: usize = match parsed {
        Some(v) => v as usize,
        None => default,
    };
    if n < 1 {
        1
    } else if n > max {
        max
    } else {
        n
    }
}

/// A pending `/dump`: the code shown and when, in unix milliseconds.
#[derive(Debug, Clone)]
pub struct DumpArm {
    pub code: String,
    pub issued_at_ms: u64,
}

/// Pending `/dump`s, one per chat.
#[derive(Debug)]
pub struct Pending {
    pub dumps: HashMap<i64, DumpArm>,
}

/// What a `/dump` message decided.
#[derive(Debug, Clone, PartialEq, Eq)]
pub enum DumpStep {
    /// `/dump off`: clear the dump flag.
    ClearFlag,
    /// A code was offered but this chat's arm has expired; it is dropped.
    Expired,
    /// A code was offered that is not this chat's live code. Nothing changes.
    WrongCode,
    /// The right code, in time: engage dump mode. The arm is used up.
    Engage,
    /// `/dump` alone: armed with this code, to be sent back within the time limit.
    Armed(String),
}

/// Two strings equal but for ASCII case.
pub open spec fn eq_ignore_case(a: Seq<char>, b: Seq<char>) -> bool {
    a.len() == b.len() && forall|i: int| 0 <= i < a.len() ==> lower(#[trigger] a[i]) == lower(b[i])
}

/// Whether every character of a code is from the code alphabet.
pub open spec fn is_code(code: Seq<char>, len: nat) -> bool {
    code.len() == len && forall|i: int| 0 <= i < code.len() ==> CODE_ALPHABET@.contains(#[trigger] code[i])
}

/// Whether two strings are equal but for ASCII case.
pub fn eq_ignore_ascii_case(a: &str, b: &str) -> (r: bool)
    ensures
        r == eq_ignore_case(a@, b@),
{
    let x = chars_of(a);
    let y = chars_of(b);
    if x.len() != y.len() {
        return false;
    }
    let mut i: usize = 0;
    while i < x.len()
        invariant
            i <= x@.len(),
            x@.len() == y@.len(),
            x@ == a@,
            y@ == b@,
            forall|k: int| 0 <= k < i ==> lower(#[trigger] x@[k]) == lower(y@[k]),
        decreases x@.len() - i,
    {
        let c = x[i];
        let d = y[i];
        let lc = if 'A' <= c && c <= 'Z' { ((c as u32) + 32) as u8 as char } else { c };
        let ld = if 'A' <= d && d <= 'Z' { ((d as u32) + 32) as u8 as char } else { d };
        assert(lc == lower(c)) by {
            if 'A' <= c && c <= 'Z' {
                assert(((c as u32) + 32) as u8 as char == ((c as u32) + 32) as char);
            }
        }
        assert(ld == lower(d)) by {
            if 'A' <= d && d <= 'Z' {
                assert(((d as u32) + 32) as u8 as char == ((d as u32) + 32) as char);
            }
        }
        if lc != ld {
            return false;
        }
        i = i + 1;
    }
    true
}

/// A fresh code of `len` characters drawn from the code alphabet.
pub fn fresh_code(len: usize) -> (code: String)
    ensures
        is_code(code@, len as nat),
{
    proof {
        reveal_strlit("23456789ABCDEFGHJKMNPQRSTUVWXYZ");
    }
    let alphabet = chars_of(CODE_ALPHABET);
    let mut code = String::new();
    let mut i: usize = 0;
    while i < len
        invariant
            i <= len,
            alphabet@ == CODE_ALPHABET@,
            alphabet@.len() == 31,
            is_code(code@, i as nat),
        decreases len - i,
    {
        let k = random_below(alphabet.len());
        push_char(&mut code, alphabet[k]);
        assert(CODE_ALPHABET@.contains(alphabet@[k as int]));
        i = i + 1;
    }
    code
}

impl Pending {
    /// No `/dump` armed anywhere.
    pub fn new() -> (p: Pending)
        ensures
            p.dumps@ == Map::<i64, DumpArm>::empty(),
    {
        Pending { dumps: HashMap::new() }
    }
}

/// What offering `arg` as a `/dump` code from a chat at time `now` (unix milliseconds) decides, and the
/// pending arms after: an expired arm is dropped; this chat's live code, case aside and
/// trimmed, engages and is used up; anything else changes nothing.
pub open spec fn code_step(dumps: Map<i64, DumpArm>, chat_id: i64, arg: Seq<char>, now: u64) -> (
    DumpStep,
    Map<i64, DumpArm>,
) {
    match dumps.get(chat_id) {
        Some(a) => if now >= a.issued_at_ms && now - a.issued_at_ms > DUMP_TTL_MS {
            (DumpStep::Expired, dumps.remove(chat_id))
        } else if eq_ignore_case(a.code@, trim(arg)) {
            (DumpStep::Engage, dumps.remove(chat_id))
        } else {
            (DumpStep::WrongCode, dumps)
        },
        None => (DumpStep::WrongCode, dumps),
    }
}

/// A dump code engages once: after it engages, any code offered from that chat, at any
/// time, is a wrong code until `/dump` arms a new one.
pub proof fn a_dump_code_engages_once(
    dumps: Map<i64, DumpArm>,
    chat_id: i64,
    arg: Seq<char>,
    now: u64,
    later_arg: Seq<char>,
    later: u64,
)
    requires
        code_step(dumps, chat_id, arg, now).0 == DumpStep::Engage,
    ensures
        code_step(code_step(dumps, chat_id, arg, now).1, chat_id, later_arg, later).0 == DumpStep::WrongCode,
{
}

/// A code acts only in the chat it was shown in: offered from a chat with no arm of its
/// own, it is a wrong code, whatever other chats hold.
pub proof fn a_dump_code_is_scoped_to_its_chat(dumps: Map<i64, DumpArm>, chat_id: i64, arg: Seq<char>, now: u64)
    requires
        !dumps.dom().contains(chat_id),
    ensures
        code_step(dumps, chat_id, arg, now) == (DumpStep::WrongCode, dumps),
{
}

/// Handle `/dump [arg]` from a chat at time `now` (unix milliseconds): `off` clears the flag;
/// an argument is a code, which acts only when it is this chat's live code (case aside)
/// and within the time limit; no argument arms the chat with a fresh four-character code.
pub fn dump_command(pending: &mut Pending, chat_id: i64, arg: &str, now: u64) -> (step: DumpStep)
    ensures
        eq_ignore_case(arg@, "off"@) ==> step == DumpStep::ClearFlag && final(pending).dumps@ == old(pending).dumps@,
        !eq_ignore_case(arg@, "off"@) && arg@.len() > 0 ==> (step, final(pending).dumps@) == code_step(
            old(pending).dumps@,
            chat_id,
            arg@,
            now,
        ),
        !eq_ignore_case(arg@, "off"@) && arg@.len() == 0 ==> match step {
            DumpStep::Armed(code) => is_code(code@, 4) && final(pending).dumps@ == old(pending).dumps@.insert(
                chat_id,
                final(pending).dumps@[chat_id],
            ) && final(pending).dumps@[chat_id].code@ == code@ && final(pending).dumps@[chat_id].issued_at_ms == now,
            _ => false,
        },
{
    proof {
        reveal_strlit("off");
    }
    if eq_ignore_ascii_case(arg, "off") {
        return DumpStep::ClearFlag;
    }
    if !arg.is_empty() {
        let verdict: u8 = match pending.dumps.get(&chat_id) {
            Some(a) => {
                if now >= a.issued_at_ms && now - a.issued_at_ms > DUMP_TTL_MS {
                    0
                } else {
                    let all = chars_of(arg);
                    let (x, y) = trim_range(&all);
                    let offered = string_of(&all, x, y);
                    if eq_ignore_ascii_case(a.code.as_str(), offered.as_str()) {
                        1
                    } else {
                        2
                    }
                }
            },
            None => 2,
        };
        if verdict == 0 {
            pending.dumps.remove(&chat_id);
            return DumpStep::Expired;
        }
        if verdict == 2 {
            return DumpStep::WrongCode;
        }
        pending.dumps.remove(&chat_id);
        return DumpStep::Engage;
    }
    let code = fresh_code(4);
    let shown = code.clone();
    pending.dumps.insert(chat_id, DumpArm { code, issued_at_ms: now });
    DumpStep::Armed(shown)
}

/// Which on/off mode a toggle command names.
#[derive(Debug, Clone, Copy, PartialEq, Eq, Structural)]
pub enum Toggle {
    HighSpeed,
    MoonChase,
}

/// What a message asks the bot to do, before anything is read or written.
#[derive(Debug, Clone, PartialEq, Eq)]
pub enum Command {
    /// Not a command: hand the text to the model.
    Chat(String),
    Help,
    Status,
    Positions,
    /// The last this many trades.
    Trades(usize),
    /// Realised PnL over this many events.
    Pnl(usize),
    Filters,
    Dq,
    /// The last this many pool decisions.
    Pools(usize),
    Params,
    Modes,
    /// The last this many log lines.
    Log(usize),
    /// Switch to the named rate mode.
    Mode(String),
    /// Set take-profit or stop-loss from the argument's text.
    SetParam { take_profit: bool, arg: String },
    Pause,
    Resume,
    /// `/dump` with its argument: the two-step gate decides.
    Dump(String),
    /// Turn a mode on or off; `None` when the argument is neither.
    Switch { which: Toggle, on: Option<bool> },
    /// `/ask` with nothing to ask.
    AskUsage,
    Reset,
    /// A command the bot does not have, by name.
    Unknown(String),
}

/// Whether an argument switches something on (`on`, `1`, `true`) or off (`off`, `0`,
/// `false`), ignoring ASCII case; `None` otherwise.
pub open spec fn switch_spec(arg: Seq<char>) -> Option<bool> {
    let a = lower_all(arg);
    if a == "on"@ || a == "1"@ || a == "true"@ {
        Some(true)
    } else if a == "off"@ || a == "0"@ || a == "false"@ {
        Some(false)
    } else {
        None
    }
}

/// A command as plain values: a tag, a number and a text.
pub open spec fn command_view(c: Command) -> (u8, int, Seq<char>) {
    match c {
        Command::Chat(t) => (0, 0, t@),
        Command::Help => (1, 0, Seq::empty()),
        Command::Status => (2, 0, Seq::empty()),
        Command::Positions => (3, 0, Seq::empty()),
        Command::Trades(n) => (4, n as int, Seq::empty()),
        Command::Pnl(n) => (5, n as int, Seq::empty()),
        Command::Filters => (6, 0, Seq::empty()),
        Command::Dq => (7, 0, Seq::empty()),
        Command::Pools(n) => (8, n as int, Seq::empty()),
        Command::Params => (9, 0, Seq::empty()),
        Command::Modes => (10, 0, Seq::empty()),
        Command::Log(n) => (11, n as int, Seq::empty()),
        Command::Mode(t) => (12, 0, t@),
        Command::SetParam { take_profit, arg } => (13, if take_profit { 1int } else { 0int }, arg@),
        Command::Pause => (15, 0, Seq::empty()),
        Command::Resume => (16, 0, Seq::empty()),
        Command::Dump(t) => (17, 0, t@),
        Command::Switch { which, on } => (
            if which == Toggle::HighSpeed { 18u8 } else { 19u8 },
            match on {
                Some(true) => 1int,
                Some(false) => 0int,
                None => -1int,
            },
            Seq::empty(),
        ),
        Command::AskUsage => (21, 0, Seq::empty()),
        Command::Reset => (22, 0, Seq::empty()),
        Command::Unknown(t) => (23, 0, t@),
    }
}

/// The view of an on/off argument.
pub open spec fn switch_view(arg: Seq<char>) -> int {
    match switch_spec(arg) {
        Some(true) => 1,
        Some(false) => 0,
        None => -1,
    }
}

/// The command a message names: chat unless it is a command; each name (and its
/// aliases) to its command, counts held to each command's range, and anything else
/// named back as unknown.
pub open spec fn route_spec(p: (bool, Seq<char>, Seq<char>)) -> (u8, int, Seq<char>) {
    let (is_cmd, name, arg) = p;
    if !is_cmd {
        (0, 0, name)
    } else if name == "start"@ || name == "help"@ {
        (1, 0, Seq::empty())
    } else if name == "status"@ {
        (2, 0, Seq::empty())
    } else if name == "positions"@ || name == "pos"@ {
        (3, 0, Seq::empty())
    } else if name == "trades"@ {
        (4, count_spec(arg, 15, 100) as int, Seq::empty())
    } else if name == "pnl"@ {
        (5, count_spec(arg, 100, 1000) as int, Seq::empty())
    } else if name == "filters"@ {
        (6, 0, Seq::empty())
    } else if name == "dq"@ {
        (7, 0, Seq::empty())
    } else if name == "pools"@ {
        (8, count_spec(arg, 15, 60) as int, Seq::empty())
    } else if name == "params"@ || name == "config"@ {
        (9, 0, Seq::empty())
    } else if name == "modes"@ {
        (10, 0, Seq::empty())
    } else if name == "log"@ {
        (11, count_spec(arg, 25, 100) as int, Seq::empty())
    } else if name == "mode"@ {
        if arg.len() == 0 { (10, 0, Seq::empty()) } else { (12, 0, arg) }
    } else if name == "tp"@ {
        (13, 1, arg)
    } else if name == "sl"@ {
        (13, 0, arg)
    } else if name == "pause"@ || name == "stop"@ {
        (15, 0, Seq::empty())
    } else if name == "resume"@ {
        (16, 0, Seq::empty())
    } else if name == "dump"@ {
        (17, 0, arg)
    } else if name == "highspeed"@ {
        (18, switch_view(arg), Seq::empty())
    } else if name == "moonchase"@ {
        (19, switch_view(arg), Seq::empty())
    } else if name == "ask"@ {
        if arg.len() == 0 { (21, 0, Seq::empty()) } else { (0, 0, arg) }
    } else if name == "reset"@ {
        (22, 0, Seq::empty())
    } else {
        (23, 0, name)
    }
}

/// Whether a string spells a literal.
fn is(s: &String, lit: &str) -> (b: bool)
    ensures
        b == (s@ == lit@),
{
    *s == String::from_str(lit)
}

/// Read an on/off argument, as `switch_spec` says.
fn switch_of(arg: &String) -> (r: Option<bool>)
    ensures
        r == switch_spec(arg@),
{
    let cs = chars_of(arg.as_str());
    let mut lowered = String::new();
    let mut i: usize = 0;
    while i < cs.len()
        invariant
            i <= cs@.len(),
            cs@ == arg@,
            lowered@ == lower_all(cs@.take(i as int)),
        decreases cs@.len() - i,
    {
        let c = cs[i];
        let l = if 'A' <= c && c <= 'Z' { ((c as u32) + 32) as u8 as char } else { c };
        assert(l == lower(c)) by {
            if 'A' <= c && c <= 'Z' {
                assert(((c as u32) + 32) as u8 as char == ((c as u32) + 32) as char);
            }
        }
        push_char(&mut lowered, l);
        i = i + 1;
        assert(lowered@ =~= lower_all(cs@.take(i as int)));
    }
    assert(cs@.take(cs@.len() as int) =~= cs@);
    if is(&lowered, "on") || is(&lowered, "1") || is(&lowered, "true") {
        Some(true)
    } else if is(&lowered, "off") || is(&lowered, "0") || is(&lowered, "false") {
        Some(false)
    } else {
        None
    }
}

/// Read a message into the command it names; nothing is read or written yet.
pub fn route(text: &str) -> (c: Command)
    ensures
        command_view(c) == route_spec(parse_spec(text@)),
{
    let (name, arg) = match parse_message(text) {
        Parsed::Chat(t) => return Command::Chat(t),
        Parsed::Command { name, arg } => (name, arg),
    };
    if is(&name, "start") || is(&name, "help") {
        Command::Help
    } else if is(&name, "status") {
        Command::Status
    } else if is(&name, "positions") || is(&name, "pos") {
        Command::Positions
    } else if is(&name, "trades") {
        Command::Trades(count_arg(arg.as_str(), 15, 100))
    } else if is(&name, "pnl") {
        Command::Pnl(count_arg(arg.as_str(), 100, 1000))
    } else if is(&name, "filters") {
        Command::Filters
    } else if is(&name, "dq") {
        Command::Dq
    } else if is(&name, "pools") {
        Command::Pools(count_arg(arg.as_str(), 15, 60))
    } else if is(&name, "params") || is(&name, "config") {
        Command::Params
    } else if is(&name, "modes") {
        Command::Modes
    } else if is(&name, "log") {
        Command::Log(count_arg(arg.as_str(), 25, 100))
    } else if is(&name, "mode") {
        if arg.as_str().is_empty() {
            Command::Modes
        } else {
            Command::Mode(arg)
        }
    } else if is(&name, "tp") {
        Command::SetParam { take_profit: true, arg }
    } else if is(&name, "sl") {
        Command::SetParam { take_profit: false, arg }
    } else if is(&name, "pause") || is(&name, "stop") {
        Command::Pause
    } else if is(&name, "resume") {
        Command::Resume
    } else if is(&name, "dump") {
        Command::Dump(arg)
    } else if is(&name, "highspeed") {
        Command::Switch { which: Toggle::HighSpeed, on: switch_of(&arg) }
    } else if is(&name, "moonchase") {
        Command::Switch { which: Toggle::MoonChase, on: switch_of(&arg) }
    } else if is(&name, "ask") {
        if arg.as_str().is_empty() {
            Command::AskUsage
        } else {
            Command::Chat(arg)
        }
    } else if is(&name, "reset") {
        Command::Reset
    } else {
        Command::Unknown(name)
    }
}

/// What a keyboard press asks for: `ok:<token>` confirms, `no:<token>` cancels.
#[derive(Debug, Clone, PartialEq, Eq)]
pub enum Button {
    Confirm(String),
    Cancel(String),
    /// Anything else: a crafted press can name a token, and nothing more.
    Unknown,
}

/// A button's data read back: `ok:<token>` confirms (`true`) and `no:<token>` cancels
/// (`false`) the prompt with that token; anything else names nothing.
pub open spec fn read_button(data: Seq<char>) -> Option<(bool, Seq<char>)> {
    if data.len() >= 3 && data.take(3) == "ok:"@ {
        Some((true, data.skip(3)))
    } else if data.len() >= 3 && data.take(3) == "no:"@ {
        Some((false, data.skip(3)))
    } else {
        None
    }
}

/// Read a button's data: the verb before the first colon, the token after it.
pub fn parse_button(data: &str) -> (b: Button)
    ensures
        match b {
            Button::Confirm(t) => read_button(data@) == Some((true, t@)),
            Button::Cancel(t) => read_button(data@) == Some((false, t@)),
            Button::Unknown => read_button(data@) is None,
        },
{
    proof {
        reveal_strlit("ok:");
        reveal_strlit("no:");
    }
    let cs = chars_of(data);
    if cs.len() >= 3 && cs[2] == ':' {
        let head = crate::control::sub_chars(&cs, 0, 3);
        let okv = chars_of("ok:");
        let nov = chars_of("no:");
        assert(head@ =~= data@.take(3));
        if crate::control::same_chars(&head, &okv) {
            return Button::Confirm(string_of(&cs, 3, cs.len()));
        }
        if crate::control::same_chars(&head, &nov) {
            return Button::Cancel(string_of(&cs, 3, cs.len()));
        }
        return Button::Unknown;
    }
    proof {
        if cs@.len() >= 3 {
            assert(data@.take(3)[2] == cs@[2]);
            assert("ok:"@[2] == ':');
        }
    }
    Button::Unknown
}

/// The data a prompt's Confirm (`true`) or Cancel button carries: a verb and the
/// prompt's token, never an instruction.
pub fn button_data(confirm: bool, token: &str) -> (s: String)
    ensures
        s@ == (if confirm { "ok:"@ } else { "no:"@ }) + token@,
{
    let mut s = if confirm { String::from_str("ok:") } else { String::from_str("no:") };
    s.append(token);
    s
}

/// The buttons a prompt is sent with read back as the answers they stand for: Confirm
/// confirms and Cancel cancels that prompt, and no other.
pub proof fn a_prompts_buttons_read_back(token: Seq<char>)
    ensures
        read_button("ok:"@ + token) == Some((true, token)),
        read_button("no:"@ + token) == Some((false, token)),
{
    reveal_strlit("ok:");
    reveal_strlit("no:");
    assert(("ok:"@ + token).take(3) =~= "ok:"@);
    assert(("ok:"@ + token).skip(3) =~= token);
    assert(("no:"@ + token).take(3) =~= "no:"@);
    assert(("no:"@ + token).skip(3) =~= token);
    assert("no:"@ != "ok:"@) by {
        assert("no:"@[0] != "ok:"@[0]);
    }
}

/// How risky the model judged a call awaiting confirmation.
#[derive(Debug, Clone, Copy, PartialEq, Eq, Structural)]
pub enum Risk {
    Safe,
    Moderate,
    High,
}

/// The marker a prompt opens with: nothing, a warning sign, or a red circle.
pub open spec fn badge_spec(r: Risk) -> Seq<char> {
    match r {
        Risk::Safe => Seq::empty(),
        Risk::Moderate => "⚠️ "@,
        Risk::High => "🔴 "@,
    }
}

/// The closing line of every prompt.
pub const PROMPT_TAIL: &'static str = "\n\n<i>Expires in 5 minutes. Only you, in this chat, can answer it.</i>";

/// A confirmation prompt: the risk marker, a heading, the call's summary escaped, and who
/// may answer it and for how long.
pub fn prompt_text(summary: &str, risk: Risk) -> (s: String)
    ensures
        s@ == badge_spec(risk) + "<b>Confirm</b>\n\n"@ + esc_spec(summary@) + PROMPT_TAIL@,
{
    let mut s = match risk {
        Risk::Safe => String::new(),
        Risk::Moderate => String::from_str("⚠️ "),
        Risk::High => String::from_str("🔴 "),
    };
    s.append("<b>Confirm</b>\n\n");
    let e = esc(summary);
    s.append(e.as_str());
    s.append(PROMPT_TAIL);
    proof {
        assert(s@ =~= badge_spec(risk) + "<b>Confirm</b>\n\n"@ + esc_spec(summary@) + PROMPT_TAIL@);
    }
    s
}

/// The reply to a command the bot does not have. It is not passed to the model: a typo
/// answered confidently is worse than a typo refused.
pub open spec fn unknown_reply_spec(cmd: Seq<char>) -> Seq<char> {
    "No command <code>/"@ + esc_spec(cmd)
        + "</code>. /help for the list.\n\n<i>Not passed to the model: a typo answered confidently is worse than a typo refused.</i>"@
}

/// The reply to an unknown command, as `unknown_reply_spec` says.
pub fn unknown_reply(cmd: &str) -> (s: String)
    ensures
        s@ == unknown_reply_spec(cmd@),
{
    let mut s = String::from_str("No command <code>/");
    let e = esc(cmd);
    s.append(e.as_str());
    s.append(
        "</code>. /help for the list.\n\n<i>Not passed to the model: a typo answered confidently is worse than a typo refused.</i>",
    );
    s
}

/// The reply after `/dump off` cleared the flag.
pub const DUMP_CLEARED: &'static str = "Dump mode cleared. <i>Positions already sold are not coming back.</i>";

/// The reply to a code offered after its arm expired.
pub const DUMP_EXPIRED: &'static str = "That code expired. Send <code>/dump</code> again if you still mean it.";

/// The reply to a code that is not this chat's live one.
pub const DUMP_WRONG_CODE: &'static str = "That is not the current code. Send <code>/dump</code> to get one.";

/// The reply once dump mode is engaged.
pub const DUMP_ENGAGED: &'static str = "🔴 <b>DUMP MODE ENGAGED.</b>\n\nEvery open position is being sold at market with <code>min_out = 0</code>. Buys are not paused by this — send <code>/pause</code> if you also want entries stopped.\n\n<code>/dump off</code> clears the flag, but anything already sold is gone.";

/// The opening of the warning that arms a dump, before the position count.
pub const DUMP_WARNING_HEAD: &'static str = "⚠️ <b>DUMP — read this.</b>\n\nThis force-sells <b>";

/// The warning's text between the position count and the code.
pub const DUMP_WARNING_MID: &'static str = "</b> open position(s) at market with <code>min_out = 0</code>: it accepts <b>any</b> price, including approximately nothing in a thin pool. It is not reversible.\n\nTo go ahead, send:\n\n<code>/dump ";

/// The warning's close, after the code.
pub const DUMP_WARNING_TAIL: &'static str = "</code>\n\n<i>Expires in 60 seconds. If you only want to stop buying, use /pause.</i>";

/// A failed control-file write, as the operator is told it.
pub open spec fn failure_spec(e: Seq<char>) -> Seq<char> {
    "❌ "@ + esc_spec(e)
}

/// What a `/dump` step is answered. `open` is how many positions are open, if known;
/// `written` is what setting or clearing the dump flag came to, for the steps that do.
pub open spec fn dump_reply_spec(step: DumpStep, open: Option<u64>, written: Result<(), Seq<char>>) -> Seq<char> {
    match step {
        DumpStep::ClearFlag => match written {
            Ok(()) => DUMP_CLEARED@,
            Err(e) => failure_spec(e),
        },
        DumpStep::Expired => DUMP_EXPIRED@,
        DumpStep::WrongCode => DUMP_WRONG_CODE@,
        DumpStep::Engage => match written {
            Ok(()) => DUMP_ENGAGED@,
            Err(e) => failure_spec(e),
        },
        DumpStep::Armed(code) => DUMP_WARNING_HEAD@ + (match open {
            Some(n) => crate::decimal::decimal(n as nat),
            None => "—"@,
        }) + DUMP_WARNING_MID@ + code@ + DUMP_WARNING_TAIL@,
    }
}

/// The reply to a `/dump` step, as `dump_reply_spec` says: the warning that arms it
/// states that the minimum output is zero and gives the code.
pub fn dump_reply(step: &DumpStep, open: Option<u64>, written: &Result<(), String>) -> (s: String)
    ensures
        s@ == dump_reply_spec(
            *step,
            open,
            match written {
                Ok(()) => Ok(()),
                Err(e) => Err(e@),
            },
        ),
{
    match step {
        DumpStep::Expired => String::from_str(DUMP_EXPIRED),
        DumpStep::WrongCode => String::from_str(DUMP_WRONG_CODE),
        DumpStep::Armed(code) => {
            let mut s = String::from_str(DUMP_WARNING_HEAD);
            let n = crate::render::dash_count(open);
            s.append(n.as_str());
            s.append(DUMP_WARNING_MID);
            s.append(code.as_str());
            s.append(DUMP_WARNING_TAIL);
            s
        },
        DumpStep::ClearFlag | DumpStep::Engage => match written {
            Ok(()) => if matches!(step, DumpStep::ClearFlag) {
                String::from_str(DUMP_CLEARED)
            } else {
                String::from_str(DUMP_ENGAGED)
            },
            Err(e) => {
                let mut s = String::from_str("❌ ");
                let t = esc(e.as_str());
                s.append(t.as_str());
                s
            },
        },
    }
}

} // verus!
