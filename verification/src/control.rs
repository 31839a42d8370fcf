//! Changing the bot's trading parameters: rewriting one key of `config.toml`'s
//! `[sniper]` table, line by line so that every comment survives.
//!
//! The edit is scoped to the `[sniper]` table: the same key names appear in every
//! `[[sniper.rate_modes]]` entry further down, and a first-match replace would silently
//! retune a rate mode instead. Any new table header, `[sniper.filters]` included, ends
//! the section.
use vstd::prelude::*;

use crate::presence::{is_ws, trim, trim_range, trim_start};
use crate::text::{chars_of, lines_of, lines_spec, push_char};
use crate::commands::{eq_ignore_ascii_case, eq_ignore_case, string_of};

verus! {

/// Which `[sniper]` key to rewrite.
#[derive(Debug, Clone, Copy, PartialEq, Eq, Structural)]
pub enum Param {
    TakeProfit,
    StopLoss,
}

impl Param {
    /// The key's name in `config.toml`.
    pub open spec fn key_spec(self) -> Seq<char> {
        match self {
            Param::TakeProfit => "take_profit_pct"@,
            Param::StopLoss => "stop_loss_pct"@,
        }
    }

    /// The key's name in `config.toml`.
    pub fn key(self) -> (k: &'static str)
        ensures
            k@ == self.key_spec(),
    {
        match self {
            Param::TakeProfit => "take_profit_pct",
            Param::StopLoss => "stop_loss_pct",
        }
    }
}

/// Why a parameter edit was refused.
#[derive(Debug, Clone, Copy, PartialEq, Eq, Structural)]
pub enum EditError {
    /// The key does not occur in the `[sniper]` table.
    KeyNotFound,
}

/// `s` begins with `p`.
pub open spec fn starts_with(s: Seq<char>, p: Seq<char>) -> bool {
    p.len() <= s.len() && s.take(p.len() as int) == p
}

/// The position of the first `c` in `s`, if any.
pub open spec fn first_index(s: Seq<char>, c: char) -> Option<int> {
    if exists|i: int| 0 <= i < s.len() && s[i] == c {
        Some(choose|i: int| 0 <= i < s.len() && s[i] == c && forall|j: int| 0 <= j < i ==> s[j] != c)
    } else {
        None
    }
}

/// The text before the first `=`, or all of it.
pub open spec fn before_eq(s: Seq<char>) -> Seq<char> {
    match first_index(s, '=') {
        Some(i) => s.take(i),
        None => s,
    }
}

/// Whether a line assigns `key`: its name, before any `=`, trimmed, is `key`.
pub open spec fn assigns(line: Seq<char>, key: Seq<char>) -> bool {
    trim(before_eq(trim_start(line))) == key
}

/// Where the run of white space that ends at `i` begins.
pub open spec fn gap_start(line: Seq<char>, i: int) -> int
    decreases i,
{
    if i > 0 && is_ws(line[i - 1]) { gap_start(line, i - 1) } else { i }
}

/// The trailing comment a rewritten line keeps, exactly as the line carried it: the line
/// from the white space before its first `#`; nothing when there is no `#`.
pub open spec fn comment_of(line: Seq<char>) -> Seq<char> {
    match first_index(line, '#') {
        Some(i) => line.skip(gap_start(line, i)),
        None => Seq::empty(),
    }
}

/// One line of the rewrite. State: inside `[sniper]`, already replaced, text so far.
pub open spec fn edit_step(st: (bool, bool, Seq<char>), line: Seq<char>, key: Seq<char>, value: Seq<char>) -> (bool, bool, Seq<char>) {
    let t = trim_start(line);
    if starts_with(t, "["@) {
        (starts_with(t, "[sniper]"@), st.1, st.2 + line + "\n"@)
    } else if st.0 && !st.1 && assigns(line, key) {
        (st.0, true, st.2 + key + " = "@ + value + comment_of(line) + "\n"@)
    } else {
        (st.0, st.1, st.2 + line + "\n"@)
    }
}

/// The rewrite state after the given lines.
pub open spec fn edit_lines(lines: Seq<Seq<char>>, key: Seq<char>, value: Seq<char>) -> (bool, bool, Seq<char>)
    decreases lines.len(),
{
    if lines.len() == 0 {
        (false, false, Seq::empty())
    } else {
        edit_step(edit_lines(lines.drop_last(), key, value), lines.last(), key, value)
    }
}

/// The edited file, or `None` when `[sniper]` does not assign the key.
pub open spec fn rewrite_spec(text: Seq<char>, key: Seq<char>, value: Seq<char>) -> Option<Seq<char>> {
    let st = edit_lines(lines_spec(text), key, value);
    if st.1 { Some(st.2) } else { None }
}

/// Whether two character vectors hold the same characters.
pub(crate) fn same_chars(a: &Vec<char>, b: &Vec<char>) -> (r: bool)
    ensures
        r == (a@ == b@),
{
    if a.len() != b.len() {
        return false;
    }
    let mut i: usize = 0;
    while i < a.len()
        invariant
            i <= a@.len(),
            a@.len() == b@.len(),
            forall|k: int| 0 <= k < i ==> a@[k] == b@[k],
        decreases a@.len() - i,
    {
        if a[i] != b[i] {
            return false;
        }
        i = i + 1;
    }
    assert(a@ =~= b@);
    true
}

/// The characters `v[a..b]`.
pub(crate) fn sub_chars(v: &Vec<char>, a: usize, b: usize) -> (r: Vec<char>)
    requires
        a <= b <= v@.len(),
    ensures
        r@ == v@.subrange(a as int, b as int),
{
    let mut r: Vec<char> = Vec::new();
    let mut i = a;
    while i < b
        invariant
            a <= i <= b <= v@.len(),
            r@ == v@.subrange(a as int, i as int),
        decreases b - i,
    {
        r.push(v[i]);
        i = i + 1;
        assert(r@ =~= v@.subrange(a as int, i as int));
    }
    r
}

/// The position of the first `c` in `v`, as `first_index` says.
fn find_char(v: &Vec<char>, c: char) -> (r: Option<usize>)
    ensures
        match r {
            Some(i) => i < v@.len() && first_index(v@, c) == Some(i as int),
            None => first_index(v@, c) is None,
        },
{
    let mut i: usize = 0;
    while i < v.len()
        invariant
            i <= v@.len(),
            forall|j: int| 0 <= j < i ==> v@[j] != c,
        decreases v@.len() - i,
    {
        if v[i] == c {
            proof {
                let k = choose|k: int| 0 <= k < v@.len() && v@[k] == c && forall|j: int| 0 <= j < k ==> v@[j] != c;
                assert(0 <= k < v@.len() && v@[k] == c && forall|j: int| 0 <= j < k ==> v@[j] != c) by {
                    assert(0 <= i < v@.len() && v@[i as int] == c && forall|j: int| 0 <= j < i ==> v@[j] != c);
                }
                if k < i {
                    assert(v@[k] != c);
                }
                if k > i {
                    assert(v@[i as int] != c);
                }
            }
            return Some(i);
        }
        i = i + 1;
    }
    None
}

/// Whether `v` begins with the characters of `p`.
fn starts_with_exec(v: &Vec<char>, p: &Vec<char>) -> (r: bool)
    ensures
        r == starts_with(v@, p@),
{
    if p.len() > v.len() {
        return false;
    }
    let head = sub_chars(v, 0, p.len());
    assert(head@ =~= v@.take(p@.len() as int));
    same_chars(&head, p)
}

/// Append characters to a string.
fn push_chars(s: &mut String, v: &Vec<char>, from: usize)
    requires
        from <= v@.len(),
    ensures
        final(s)@ == old(s)@ + v@.skip(from as int),
{
    let mut i = from;
    while i < v.len()
        invariant
            from <= i <= v@.len(),
            s@ == old(s)@ + v@.subrange(from as int, i as int),
        decreases v@.len() - i,
    {
        push_char(s, v[i]);
        i = i + 1;
        assert(s@ =~= old(s)@ + v@.subrange(from as int, i as int));
    }
    assert(v@.subrange(from as int, v@.len() as int) =~= v@.skip(from as int));
}

/// Whether a start-trimmed line assigns `key`.
fn names_key(t: &Vec<char>, key: &str) -> (r: bool)
    ensures
        r == (trim(before_eq(t@)) == key@),
{
    let name_end = match find_char(t, '=') {
        Some(e) => e,
        None => t.len(),
    };
    let name = sub_chars(t, 0, name_end);
    assert(name@ =~= before_eq(t@));
    let (na, nb) = trim_range(&name);
    let trimmed = sub_chars(&name, na, nb);
    let key_chars = chars_of(key);
    same_chars(&trimmed, &key_chars)
}

/// Append the rewritten assignment, keeping the line's comment.
fn push_assignment(out: &mut String, line: &Vec<char>, key: &str, value: &str)
    ensures
        final(out)@ == old(out)@ + key@ + " = "@ + value@ + comment_of(line@) + "\n"@,
{
    out.append(key);
    out.append(" = ");
    out.append(value);
    match find_char(line, '#') {
        Some(h) => {
            let mut j = h;
            while j > 0 && crate::commands::ws(line[j - 1])
                invariant
                    j <= h < line@.len(),
                    gap_start(line@, j as int) == gap_start(line@, h as int),
                decreases j,
            {
                j = j - 1;
            }
            push_chars(out, line, j);
        },
        None => {},
    }
    out.append("\n");
    assert(out@ =~= old(out)@ + key@ + " = "@ + value@ + comment_of(line@) + "\n"@);
}

/// Apply one line of the rewrite, as `edit_step` says.
fn edit_line(st: (bool, bool), out: &mut String, line_str: &String, key: &str, value: &str) -> (r: (bool, bool))
    ensures
        (r.0, r.1, final(out)@) == edit_step((st.0, st.1, old(out)@), line_str@, key@, value@),
{
    let line = chars_of(line_str.as_str());
    let (a, _) = trim_range(&line);
    let t = sub_chars(&line, a, line.len());
    assert(t@ =~= trim_start(line@));
    let open_bracket = chars_of("[");
    if starts_with_exec(&t, &open_bracket) {
        let sniper_header = chars_of("[sniper]");
        let in_sniper = starts_with_exec(&t, &sniper_header);
        out.append(line_str.as_str());
        out.append("\n");
        return (in_sniper, st.1);
    }
    if st.0 && !st.1 && names_key(&t, key) {
        push_assignment(out, &line, key, value);
        return (st.0, true);
    }
    out.append(line_str.as_str());
    out.append("\n");
    st
}

/// Rewrite `key = value` inside the `[sniper]` table of a TOML text, keeping every other
/// line, and the trailing comment of the rewritten one, as it was. `value` is the value's
/// TOML text.
pub fn rewrite_sniper_key(text: &str, key: &str, value: &str) -> (r: Result<String, EditError>)
    ensures
        match r {
            Ok(s) => rewrite_spec(text@, key@, value@) == Some(s@),
            Err(e) => rewrite_spec(text@, key@, value@) is None && e == EditError::KeyNotFound,
        },
{
    let lines = lines_of(text);
    let ghost ls = lines_spec(text@);
    let mut out = String::new();
    let mut st: (bool, bool) = (false, false);
    let mut i: usize = 0;
    while i < lines.len()
        invariant
            i <= lines@.len(),
            lines@.len() == ls.len(),
            ls == lines_spec(text@),
            forall|k: int| 0 <= k < lines@.len() ==> (#[trigger] lines@[k])@ == ls[k],
            edit_lines(ls.take(i as int), key@, value@) == (st.0, st.1, out@),
        decreases lines@.len() - i,
    {
        assert(ls.take(i + 1).drop_last() =~= ls.take(i as int));
        assert(ls.take(i + 1).last() == ls[i as int]);
        st = edit_line(st, &mut out, &lines[i], key, value);
        i = i + 1;
    }
    assert(ls.take(ls.len() as int) =~= ls);
    if st.1 {
        Ok(out)
    } else {
        Err(EditError::KeyNotFound)
    }
}


/// Lines put back together, each followed by a newline.
pub open spec fn unlines(ls: Seq<Seq<char>>) -> Seq<char>
    decreases ls.len(),
{
    if ls.len() == 0 {
        Seq::empty()
    } else {
        unlines(ls.drop_last()) + ls.last() + "\n"@
    }
}

/// Whether a reader of the first `n` lines is inside the `[sniper]` table: the last table
/// header among them is `[sniper]` itself (not `[sniper.filters]` or a rate mode).
pub open spec fn in_sniper(ls: Seq<Seq<char>>, n: int) -> bool
    decreases n,
{
    if n <= 0 || n > ls.len() {
        false
    } else if starts_with(trim_start(ls[n - 1]), "["@) {
        starts_with(trim_start(ls[n - 1]), "[sniper]"@)
    } else {
        in_sniper(ls, n - 1)
    }
}

/// Whether line `i` is an assignment of `key` inside the `[sniper]` table.
pub open spec fn is_target(ls: Seq<Seq<char>>, key: Seq<char>, i: int) -> bool {
    &&& 0 <= i < ls.len()
    &&& !starts_with(trim_start(ls[i]), "["@)
    &&& in_sniper(ls, i)
    &&& assigns(ls[i], key)
}

/// Whether line `j` is the first assignment of `key` inside `[sniper]`.
pub open spec fn first_target(ls: Seq<Seq<char>>, key: Seq<char>, j: int) -> bool {
    is_target(ls, key, j) && forall|i: int| 0 <= i < j ==> !is_target(ls, key, i)
}

/// The line an assignment of `key` becomes: the new value, and the old line's comment.
pub open spec fn assignment(key: Seq<char>, value: Seq<char>, old_line: Seq<char>) -> Seq<char> {
    key + " = "@ + value + comment_of(old_line)
}

/// The rewrite over the first `n` lines, described line by line.
#[verifier::rlimit(60)]
proof fn edit_prefix(ls: Seq<Seq<char>>, key: Seq<char>, value: Seq<char>, n: int)
    requires
        0 <= n <= ls.len(),
    ensures
        edit_lines(ls.take(n), key, value).0 == in_sniper(ls, n),
        edit_lines(ls.take(n), key, value).1 == exists|i: int| 0 <= i < n && is_target(ls, key, i),
        !edit_lines(ls.take(n), key, value).1 ==> edit_lines(ls.take(n), key, value).2 == unlines(ls.take(n)),
        forall|j: int|
            0 <= j < n && #[trigger] first_target(ls, key, j) ==> edit_lines(ls.take(n), key, value).2 == unlines(
                ls.take(n).update(j, assignment(key, value, ls[j])),
            ),
    decreases n,
{
    reveal_strlit("[");
    reveal_strlit("[sniper]");
    reveal_strlit(" = ");
    reveal_strlit("\n");
    if n == 0 {
        assert(ls.take(0) =~= Seq::<Seq<char>>::empty());
    } else {
        edit_prefix(ls, key, value, n - 1);
        let prev = ls.take(n - 1);
        let cur = ls.take(n);
        let l = ls[n - 1];
        assert(cur.drop_last() =~= prev);
        assert(cur.last() == l);
        let st = edit_lines(prev, key, value);
        let st2 = edit_lines(cur, key, value);
        assert(st2 == edit_step(st, l, key, value));
        assert(unlines(cur) == unlines(prev) + l + "\n"@);
        if st.1 {
            let w = choose|i: int| 0 <= i < n - 1 && is_target(ls, key, i);
            assert(0 <= w < n && is_target(ls, key, w));
        }
        if !st.1 && st.0 && !starts_with(trim_start(l), "["@) && assigns(l, key) {
            assert(is_target(ls, key, n - 1));
        }
        assert(st2.1 == exists|i: int| 0 <= i < n && is_target(ls, key, i)) by {
            if st2.1 && !st.1 {
                assert(is_target(ls, key, n - 1));
            }
            if exists|i: int| 0 <= i < n && is_target(ls, key, i) {
                let w = choose|i: int| 0 <= i < n && is_target(ls, key, i);
                if w < n - 1 {
                } else {
                    assert(is_target(ls, key, n - 1));
                }
            }
        }
        assert forall|j: int| 0 <= j < n && #[trigger] first_target(ls, key, j) implies st2.2 == unlines(
            cur.update(j, assignment(key, value, ls[j])),
        ) by {
            let upd = cur.update(j, assignment(key, value, ls[j]));
            if j < n - 1 {
                assert(upd.drop_last() =~= prev.update(j, assignment(key, value, ls[j])));
                assert(upd.last() == l);
                assert(st.1);
                assert(st2.2 == st.2 + l + "\n"@);
            } else {
                assert(upd.drop_last() =~= prev);
                assert(upd.last() == assignment(key, value, l));
                assert(!st.1) by {
                    if st.1 {
                        let w = choose|i: int| 0 <= i < n - 1 && is_target(ls, key, i);
                        assert(!is_target(ls, key, w));
                    }
                }
            }
        }
    }
}

/// The edit touches one line, the first assignment of the key inside `[sniper]`: every
/// other line, rate modes and other tables that carry the same key among them, comes back
/// as it was, and the rewritten line keeps its comment. With no such line, the edit is
/// refused.
pub proof fn the_edit_touches_one_line(text: Seq<char>, key: Seq<char>, value: Seq<char>)
    ensures
        match rewrite_spec(text, key, value) {
            Some(out) => exists|j: int|
                first_target(lines_spec(text), key, j) && out == unlines(
                    lines_spec(text).update(j, assignment(key, value, lines_spec(text)[j])),
                ),
            None => forall|i: int| 0 <= i < lines_spec(text).len() ==> !is_target(lines_spec(text), key, i),
        },
{
    let ls = lines_spec(text);
    edit_prefix(ls, key, value, ls.len() as int);
    assert(ls.take(ls.len() as int) =~= ls);
    if edit_lines(ls, key, value).1 {
        let w = choose|i: int| 0 <= i < ls.len() && is_target(ls, key, i);
        let j = first_of(ls, key, w);
        assert(first_target(ls, key, j));
    }
}

/// Below any target there is a first one.
proof fn first_of(ls: Seq<Seq<char>>, key: Seq<char>, w: int) -> (j: int)
    requires
        is_target(ls, key, w),
    ensures
        first_target(ls, key, j),
        j <= w,
    decreases w,
{
    if exists|i: int| 0 <= i < w && is_target(ls, key, i) {
        let i = choose|i: int| 0 <= i < w && is_target(ls, key, i);
        first_of(ls, key, i)
    } else {
        w
    }
}

/// A rate mode as the lookup reads it from the config: its name and whether it is
/// enabled. Its numbers stay with the config.
#[derive(Debug, Clone, PartialEq, Eq)]
pub struct ModeEntry {
    pub name: String,
    pub enabled: bool,
}

/// Whether a mode answers to a requested name: enabled, and named the same but for ASCII
/// case once the request is trimmed.
pub open spec fn answers_to(m: ModeEntry, name: Seq<char>) -> bool {
    m.enabled && eq_ignore_case(m.name@, trim(name))
}

/// The names of the enabled modes, in config order.
pub open spec fn enabled_spec(modes: Seq<ModeEntry>) -> Seq<Seq<char>>
    decreases modes.len(),
{
    if modes.len() == 0 {
        Seq::empty()
    } else if modes.last().enabled {
        enabled_spec(modes.drop_last()).push(modes.last().name@)
    } else {
        enabled_spec(modes.drop_last())
    }
}

/// Find a rate mode by name, case-insensitively, among the enabled ones: the position of
/// the first that answers to it, or `None` when none does.
pub fn find_mode(modes: &Vec<ModeEntry>, name: &str) -> (r: Option<usize>)
    ensures
        match r {
            Some(i) => i < modes@.len() && answers_to(modes@[i as int], name@) && forall|j: int|
                0 <= j < i ==> !answers_to(#[trigger] modes@[j], name@),
            None => forall|j: int| 0 <= j < modes@.len() ==> !answers_to(#[trigger] modes@[j], name@),
        },
{
    let all = chars_of(name);
    let (a, b) = trim_range(&all);
    let wanted = string_of(&all, a, b);
    let mut i: usize = 0;
    while i < modes.len()
        invariant
            i <= modes@.len(),
            wanted@ == trim(name@),
            forall|j: int| 0 <= j < i ==> !answers_to(#[trigger] modes@[j], name@),
        decreases modes@.len() - i,
    {
        if modes[i].enabled && eq_ignore_ascii_case(modes[i].name.as_str(), wanted.as_str()) {
            return Some(i);
        }
        i = i + 1;
    }
    None
}

/// The names of the enabled modes, in config order: what a refused switch lists as
/// available.
pub fn enabled_mode_names(modes: &Vec<ModeEntry>) -> (names: Vec<String>)
    ensures
        names@.map_values(|n: String| n@) == enabled_spec(modes@),
{
    let mut names: Vec<String> = Vec::new();
    let mut i: usize = 0;
    while i < modes.len()
        invariant
            i <= modes@.len(),
            names@.map_values(|n: String| n@) == enabled_spec(modes@.take(i as int)),
        decreases modes@.len() - i,
    {
        proof {
            assert(modes@.take(i as int + 1).drop_last() =~= modes@.take(i as int));
        }
        if modes[i].enabled {
            names.push(modes[i].name.clone());
        }
        assert(names@.map_values(|n: String| n@) =~= enabled_spec(modes@.take(i as int + 1)));
        i = i + 1;
    }
    assert(modes@.take(modes@.len() as int) =~= modes@);
    names
}

} // verus!
