//! What the bot's state files say, once read: whether the sniper is running, and the
//! tail of its logs. Absent is not zero: every reading that found nothing is `None`.
use vstd::prelude::*;

use crate::presence::{trim, is_ws, parse_unsigned, trim_range};
use crate::text::{chars_of, lines_of, lines_spec};

verus! {

/// How stale the metrics file may be before the sniper counts as not running. Its writer
/// runs every five seconds; six periods leave room for a slow disk.
pub const STALE_AFTER_SECS: u64 = 30;

/// Whether the sniper is running, and how confident that answer is.
#[derive(Debug, Clone, Copy, PartialEq, Eq, Structural)]
pub enum Liveness {
    /// State is being written now.
    Live { metrics_age_secs: u64 },
    /// State exists but nothing has been written recently: the bot was here and is not
    /// writing. A wedged process and an absent one need different actions.
    Stale { metrics_age_secs: u64, pid: Option<u32> },
    /// No state at all.
    Stopped,
}

impl Liveness {
    /// Whether the sniper is writing state now.
    pub fn is_live(&self) -> (b: bool)
        ensures
            b == (*self is Live),
    {
        match self {
            Liveness::Live { .. } => true,
            _ => false,
        }
    }
}

/// The liveness for a metrics file of the given age (`None` when there is none) and the
/// PID read from the lock file.
pub open spec fn liveness_spec(metrics_age: Option<u64>, pid: Option<u32>) -> Liveness {
    match metrics_age {
        Some(age) => if age <= STALE_AFTER_SECS {
            Liveness::Live { metrics_age_secs: age }
        } else {
            Liveness::Stale { metrics_age_secs: age, pid }
        },
        None => Liveness::Stopped,
    }
}

/// Decide liveness from the metrics file's age and the lock file's text.
pub fn liveness_of(metrics_age: Option<u64>, lock_text: Option<&str>) -> (l: Liveness)
    ensures
        l == liveness_spec(
            metrics_age,
            match lock_text {
                Some(t) => match parse_unsigned(trim(t@), 0xFFFF_FFFF) {
                    Some(v) => Some(v as u32),
                    None => None,
                },
                None => None,
            },
        ),
{
    let pid: Option<u32> = match lock_text {
        Some(t) => pid_of(t),
        None => None,
    };
    match metrics_age {
        Some(age) => if age <= STALE_AFTER_SECS {
            Liveness::Live { metrics_age_secs: age }
        } else {
            Liveness::Stale { metrics_age_secs: age, pid }
        },
        None => Liveness::Stopped,
    }
}

/// The PID in a lock file: its trimmed text read as a `u32`.
pub fn pid_of(text: &str) -> (r: Option<u32>)
    ensures
        r == (match parse_unsigned(trim(text@), 0xFFFF_FFFF) {
            Some(v) => Some(v as u32),
            None => None,
        }),
{
    let cs = chars_of(text);
    let (a, b) = trim_range(&cs);
    match crate::presence::parse_unsigned_exec(&cs, a, b, 0xFFFF_FFFF) {
        Some(v) => Some(v as u32),
        None => None,
    }
}

/// The control files, as the sniper sees them. Presence of the file is the signal for
/// sell and dump mode.
#[derive(Debug, Clone)]
pub struct Controls {
    pub sell_mode: bool,
    pub sell_mode_reason: Option<String>,
    pub dump_mode: bool,
    pub high_speed: bool,
    pub moon_chase: bool,
    /// The rate mode name from the file; the numbers behind it come from `config.toml`.
    pub rate_mode: Option<String>,
}

/// Whether a line is blank: nothing but white space.
pub open spec fn is_blank(l: Seq<char>) -> bool {
    trim(l).len() == 0
}

/// The lines that are not blank, in order.
pub open spec fn non_blank(ls: Seq<Seq<char>>) -> Seq<Seq<char>>
    decreases ls.len(),
{
    if ls.len() == 0 {
        Seq::empty()
    } else if is_blank(ls.last()) {
        non_blank(ls.drop_last())
    } else {
        non_blank(ls.drop_last()).push(ls.last())
    }
}

/// The last `n` non-blank lines of a text, oldest first.
pub open spec fn tail_spec(text: Seq<char>, n: nat) -> Seq<Seq<char>> {
    let nb = non_blank(lines_spec(text));
    if nb.len() <= n { nb } else { nb.subrange(nb.len() - n, nb.len() as int) }
}

/// Whether a string is blank.
fn blank(s: &String) -> (b: bool)
    ensures
        b == is_blank(s@),
{
    let cs = chars_of(s.as_str());
    let (a, b) = trim_range(&cs);
    a == b
}

/// The last `n` non-blank lines of a log, newest last.
pub fn tail_lines(text: &str, n: usize) -> (v: Vec<String>)
    ensures
        v@.len() == tail_spec(text@, n as nat).len(),
        forall|i: int| 0 <= i < v@.len() ==> (#[trigger] v@[i])@ == tail_spec(text@, n as nat)[i],
{
    let lines = lines_of(text);
    let ghost ls = lines_spec(text@);
    let mut kept: Vec<String> = Vec::new();
    let mut i: usize = 0;
    while i < lines.len()
        invariant
            i <= lines@.len(),
            lines@.len() == ls.len(),
            ls == lines_spec(text@),
            forall|k: int| 0 <= k < lines@.len() ==> (#[trigger] lines@[k])@ == ls[k],
            kept@.len() == non_blank(ls.take(i as int)).len(),
            forall|k: int| 0 <= k < kept@.len() ==> (#[trigger] kept@[k])@ == non_blank(ls.take(i as int))[k],
        decreases lines@.len() - i,
    {
        assert(ls.take(i + 1).drop_last() =~= ls.take(i as int));
        assert(ls.take(i + 1).last() == ls[i as int]);
        if !blank(&lines[i]) {
            kept.push(lines[i].clone());
        }
        i = i + 1;
    }
    assert(ls.take(ls.len() as int) =~= ls);
    let start: usize = if kept.len() <= n { 0 } else { kept.len() - n };
    let mut out: Vec<String> = Vec::new();
    let mut j: usize = start;
    while j < kept.len()
        invariant
            start <= j <= kept@.len(),
            out@.len() == j - start,
            forall|k: int| 0 <= k < out@.len() ==> (#[trigger] out@[k])@ == kept@[start + k]@,
        decreases kept@.len() - j,
    {
        out.push(kept[j].clone());
        j = j + 1;
    }
    out
}

} // verus!
