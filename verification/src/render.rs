//! Turning bot state into chat messages.
//!
//! An unmeasured value prints an em dash, never `0`: a missing file means nobody measured
//! it, and a row of zeroes would describe a bot that is not running as one that traded
//! nothing. Everything that did not originate as a literal here goes through `esc`.
use vstd::prelude::*;
use vstd::string::StringSliceAdditionalSpecFns;
use vstd::utf8::{decode_utf8, encode_utf8, is_char_boundary};

use crate::decimal::{decimal, push_decimal};
use crate::state::{Controls, Liveness};
use crate::text::{blen, esc, esc_spec};

verus! {

broadcast use vstd::utf8::encode_utf8_valid_utf8, vstd::utf8::encode_utf8_decode_utf8;

/// The one place a missing measurement becomes text: the value as given, or an em dash.
pub fn dash(v: Option<String>) -> (s: String)
    ensures
        s@ == (match v {
            Some(t) => t@,
            None => "—"@,
        }),
{
    match v {
        Some(t) => t,
        None => String::from_str("—"),
    }
}

/// A count, or an em dash when it was not measured.
pub fn dash_count(v: Option<u64>) -> (s: String)
    ensures
        s@ == (match v {
            Some(n) => decimal(n as nat),
            None => "—"@,
        }),
{
    match v {
        Some(n) => {
            let mut s = String::new();
            push_decimal(&mut s, n);
            s
        },
        None => String::from_str("—"),
    }
}

/// A mint shortened for a phone screen: its first and last four bytes around an ellipsis
/// when longer than twelve bytes, escaped either way.
pub open spec fn short_mint_spec(m: Seq<char>) -> Seq<char> {
    let b = encode_utf8(m);
    if b.len() <= 12 {
        esc_spec(m)
    } else {
        esc_spec(decode_utf8(b.subrange(0, 4)) + "…"@ + decode_utf8(b.subrange(b.len() - 4, b.len() as int)))
    }
}

/// A mint, shortened but never invented. The cut is marked with an ellipsis so a reader
/// can tell a shortened address from a short one. (Mints are ASCII; a longer one must
/// have char boundaries at both cuts.)
pub fn short_mint(m: &str) -> (s: String)
    requires
        m.spec_bytes().len() <= usize::MAX,
        m.spec_bytes().len() > 12 ==> is_char_boundary(m.spec_bytes(), 4) && is_char_boundary(
            m.spec_bytes(),
            m.spec_bytes().len() - 4,
        ),
    ensures
        s@ == short_mint_spec(m@),
{
    let n = m.len();
    if n <= 12 {
        return esc(m);
    }
    let (head, _) = m.split_at(4);
    let (_, tail) = m.split_at(n - 4);
    let mut joined = String::from_str(head);
    joined.append("…");
    joined.append(tail);
    proof {
        assert(head@ == decode_utf8(encode_utf8(head@)));
        assert(tail@ == decode_utf8(encode_utf8(tail@)));
    }
    esc(joined.as_str())
}

/// A duration as hours and minutes, minutes and seconds, or seconds alone.
pub open spec fn hms_spec(secs: u64) -> Seq<char> {
    let h = secs / 3600;
    let m = (secs % 3600) / 60;
    let s = secs % 60;
    if h > 0 {
        decimal(h as nat) + "h "@ + decimal(m as nat) + "m"@
    } else if m > 0 {
        decimal(m as nat) + "m "@ + decimal(s as nat) + "s"@
    } else {
        decimal(s as nat) + "s"@
    }
}

/// A duration for a human: `2h 5m`, `3m 20s` or `45s`.
pub fn hms(secs: u64) -> (r: String)
    ensures
        r@ == hms_spec(secs),
{
    let h = secs / 3600;
    let m = (secs % 3600) / 60;
    let s = secs % 60;
    let mut out = String::new();
    if h > 0 {
        push_decimal(&mut out, h);
        out.append("h ");
        push_decimal(&mut out, m);
        out.append("m");
    } else if m > 0 {
        push_decimal(&mut out, m);
        out.append("m ");
        push_decimal(&mut out, s);
        out.append("s");
    } else {
        push_decimal(&mut out, s);
        out.append("s");
    }
    out
}

/// What the stale-state line adds after the age.
pub const STALE_TAIL: &'static str = "\nThe process may be wedged. It still holds the single-instance lock, so a restart will refuse until it is stopped.";

/// The status line for each liveness.
pub open spec fn liveness_line_spec(l: Liveness) -> Seq<char> {
    match l {
        Liveness::Live { metrics_age_secs } => "🟢 <b>RUNNING</b> — state written "@ + decimal(metrics_age_secs as nat)
            + "s ago"@,
        Liveness::Stale { metrics_age_secs, pid } => "🟠 <b>NOT WRITING</b> — last state "@ + hms_spec(metrics_age_secs)
            + " ago"@ + (match pid {
            Some(p) => " (lockfile PID "@ + decimal(p as nat) + ")"@,
            None => Seq::<char>::empty(),
        }) + STALE_TAIL@,
        Liveness::Stopped => "⚫ <b>STOPPED</b> — no state files. The sniper is not running."@,
    }
}

/// One line saying whether the sniper is running. A wedged process still holds the
/// single-instance lock, so it is reported apart from a stopped one.
pub fn liveness_line(l: &Liveness) -> (s: String)
    ensures
        s@ == liveness_line_spec(*l),
{
    match l {
        Liveness::Live { metrics_age_secs } => {
            let mut s = String::from_str("🟢 <b>RUNNING</b> — state written ");
            push_decimal(&mut s, *metrics_age_secs);
            s.append("s ago");
            s
        },
        Liveness::Stale { metrics_age_secs, pid } => {
            let mut s = String::from_str("🟠 <b>NOT WRITING</b> — last state ");
            let h = hms(*metrics_age_secs);
            s.append(h.as_str());
            s.append(" ago");
            match pid {
                Some(p) => {
                    s.append(" (lockfile PID ");
                    push_decimal(&mut s, *p as u64);
                    s.append(")");
                },
                None => {},
            }
            s.append(STALE_TAIL);
            proof {
                let pid_part = match *pid {
                    Some(p) => " (lockfile PID "@ + decimal(p as nat) + ")"@,
                    None => Seq::<char>::empty(),
                };
                assert(s@ =~= "🟠 <b>NOT WRITING</b> — last state "@ + hms_spec(*metrics_age_secs) + " ago"@ + pid_part
                    + STALE_TAIL@);
            }
            s
        },
        Liveness::Stopped => String::from_str("⚫ <b>STOPPED</b> — no state files. The sniper is not running."),
    }
}

/// The status report's control lines: whether buys are paused (and by whom, escaped),
/// then a line for each of dump mode, high speed and moon chase that is on.
pub open spec fn controls_block_spec(c: Controls) -> Seq<char> {
    "<b>Buys</b>       "@ + (if c.sell_mode {
        "⏸ PAUSED"@ + match c.sell_mode_reason {
            Some(r) => " (by "@ + esc_spec(r@) + ")"@,
            None => Seq::<char>::empty(),
        }
    } else {
        "▶ active"@
    }) + "\n"@ + (if c.dump_mode {
        "<b>DUMP MODE</b>  🔴 ENGAGED — positions are being force-sold at any price\n"@
    } else {
        Seq::<char>::empty()
    }) + (if c.high_speed { "<b>High speed</b> on\n"@ } else { Seq::<char>::empty() }) + (if c.moon_chase {
        "<b>Moon chase</b> on\n"@
    } else {
        Seq::<char>::empty()
    })
}

/// The status report's control lines, as `controls_block_spec` says. The control files'
/// presence is the signal, so a paused bot never reads as active.
pub fn controls_block(c: &Controls) -> (s: String)
    ensures
        s@ == controls_block_spec(*c),
{
    let mut s = String::from_str("<b>Buys</b>       ");
    let ghost head = s@;
    if c.sell_mode {
        s.append("⏸ PAUSED");
        match &c.sell_mode_reason {
            Some(r) => {
                s.append(" (by ");
                let e = esc(r.as_str());
                s.append(e.as_str());
                s.append(")");
            },
            None => {},
        }
    } else {
        s.append("▶ active");
    }
    s.append("\n");
    let ghost after_buys = s@;
    if c.dump_mode {
        s.append("<b>DUMP MODE</b>  🔴 ENGAGED — positions are being force-sold at any price\n");
    }
    let ghost after_dump = s@;
    if c.high_speed {
        s.append("<b>High speed</b> on\n");
    }
    let ghost after_speed = s@;
    if c.moon_chase {
        s.append("<b>Moon chase</b> on\n");
    }
    proof {
        let buys = if c.sell_mode {
            "⏸ PAUSED"@ + match &c.sell_mode_reason {
                Some(r) => " (by "@ + esc_spec(r@) + ")"@,
                None => Seq::<char>::empty(),
            }
        } else {
            "▶ active"@
        };
        assert(after_buys =~= "<b>Buys</b>       "@ + buys + "\n"@);
        assert(s@ =~= controls_block_spec(*c));
    }
    s
}

/// `on` or `off`.
pub fn on_off(b: bool) -> (s: &'static str)
    ensures
        s@ == (if b { "on"@ } else { "off"@ }),
{
    if b {
        "on"
    } else {
        "off"
    }
}

/// Lines joined with newlines between them.
pub open spec fn join_lines(lines: Seq<String>) -> Seq<char>
    decreases lines.len(),
{
    if lines.len() == 0 {
        Seq::empty()
    } else if lines.len() == 1 {
        lines[0]@
    } else {
        join_lines(lines.drop_last()) + "\n"@ + lines.last()@
    }
}

/// The log message: absent, empty, or the lines escaped inside a `<pre>` block.
pub open spec fn log_lines_spec(lines: Option<Seq<String>>) -> Seq<char> {
    match lines {
        None => "<b>LOG</b>\n\n<i>No log file.</i>"@,
        Some(l) => if l.len() == 0 {
            "<b>LOG</b>\n\nEmpty."@
        } else {
            "<b>LOG</b>\n\n<pre>"@ + esc_spec(join_lines(l)) + "</pre>"@
        },
    }
}

/// The tail of the sniper log as a message. A missing log and an empty one read
/// differently.
pub fn log_lines(lines: Option<&[String]>) -> (s: String)
    ensures
        s@ == log_lines_spec(
            match lines {
                Some(l) => Some(l@),
                None => None,
            },
        ),
{
    let l = match lines {
        None => return String::from_str("<b>LOG</b>\n\n<i>No log file.</i>"),
        Some(l) => l,
    };
    if l.len() == 0 {
        return String::from_str("<b>LOG</b>\n\nEmpty.");
    }
    let mut joined = String::new();
    let mut i: usize = 0;
    while i < l.len()
        invariant
            i <= l@.len(),
            joined@ == join_lines(l@.take(i as int)),
        decreases l@.len() - i,
    {
        assert(l@.take(i + 1).drop_last() =~= l@.take(i as int));
        if i > 0 {
            joined.append("\n");
        }
        joined.append(l[i].as_str());
        i = i + 1;
        proof {
            if i == 1 {
                assert(joined@ =~= l@.take(1)[0]@);
            }
        }
    }
    assert(l@.take(l@.len() as int) =~= l@);
    let mut s = String::from_str("<b>LOG</b>\n\n<pre>");
    let e = esc(joined.as_str());
    s.append(e.as_str());
    s.append("</pre>");
    s
}


/// How many filters the report lists; the total still counts every one.
pub const FILTER_ROWS_SHOWN: usize = 20;

/// Place a filter's row among rows ranked by count, most first: after every row that
/// rejected at least as many pools, so that ties keep the order they came in.
pub open spec fn insert_by_count(s: Seq<(String, u64)>, x: (String, u64)) -> Seq<(String, u64)>
    decreases s.len(),
{
    if s.len() == 0 {
        seq![x]
    } else if s[0].1 < x.1 {
        seq![x] + s
    } else {
        seq![s[0]] + insert_by_count(s.drop_first(), x)
    }
}

/// Rows ranked by count, most first, ties in the order given (a stable sort).
pub open spec fn rank_spec(s: Seq<(String, u64)>) -> Seq<(String, u64)>
    decreases s.len(),
{
    if s.len() == 0 {
        Seq::empty()
    } else {
        insert_by_count(rank_spec(s.drop_last()), s.last())
    }
}

/// The sum of the rows' counts.
pub open spec fn count_sum(s: Seq<(String, u64)>) -> int
    decreases s.len(),
{
    if s.len() == 0 {
        0
    } else {
        count_sum(s.drop_last()) + s.last().1
    }
}

/// Whether rows are ordered by count, most first.
pub open spec fn by_count_desc(s: Seq<(String, u64)>) -> bool {
    forall|i: int, j: int| 0 <= i < j < s.len() ==> s[i].1 >= s[j].1
}

/// The filter report: the most frequent filters, and the total over all of them.
#[derive(Debug)]
pub struct FilterReport {
    pub rows: Vec<(String, u64)>,
    pub total: u128,
}

/// Inserting where the first smaller count stands is what `insert_by_count` does.
proof fn insert_at_first_smaller(s: Seq<(String, u64)>, x: (String, u64), p: int)
    requires
        0 <= p <= s.len(),
        forall|i: int| 0 <= i < p ==> s[i].1 >= x.1,
        p == s.len() || s[p].1 < x.1,
    ensures
        insert_by_count(s, x) == s.insert(p, x),
    decreases s.len(),
{
    if s.len() == 0 {
        assert(s.insert(p, x) =~= seq![x]);
    } else if p == 0 {
        assert(s.insert(p, x) =~= seq![x] + s);
    } else {
        let t = s.drop_first();
        assert forall|i: int| 0 <= i < p - 1 implies t[i].1 >= x.1 by {
            assert(t[i] == s[i + 1]);
        }
        insert_at_first_smaller(t, x, p - 1);
        assert(s.insert(p, x) =~= seq![s[0]] + t.insert(p - 1, x));
    }
}

/// Inserting into ranked rows keeps them ranked.
proof fn insert_keeps_ranked(s: Seq<(String, u64)>, x: (String, u64))
    requires
        by_count_desc(s),
    ensures
        by_count_desc(insert_by_count(s, x)),
        insert_by_count(s, x).len() == s.len() + 1,
        forall|i: int| 0 <= i < insert_by_count(s, x).len() ==>
            (#[trigger] insert_by_count(s, x)[i] == x || s.contains(insert_by_count(s, x)[i])),
    decreases s.len(),
{
    let r = insert_by_count(s, x);
    if s.len() == 0 {
    } else if s[0].1 < x.1 {
        assert forall|i: int| 0 <= i < r.len() implies (#[trigger] r[i] == x || s.contains(r[i])) by {
            if i > 0 {
                assert(r[i] == s[i - 1]);
            }
        }
    } else {
        let t = s.drop_first();
        assert(by_count_desc(t)) by {
            assert forall|i: int, j: int| 0 <= i < j < t.len() implies t[i].1 >= t[j].1 by {
                assert(t[i] == s[i + 1] && t[j] == s[j + 1]);
            }
        }
        insert_keeps_ranked(t, x);
        let rt = insert_by_count(t, x);
        assert(r =~= seq![s[0]] + rt);
        assert forall|i: int| 0 <= i < r.len() implies (#[trigger] r[i] == x || s.contains(r[i])) by {
            if i > 0 {
                assert(r[i] == rt[i - 1]);
                if rt[i - 1] != x {
                    let k = choose|k: int| 0 <= k < t.len() && t[k] == rt[i - 1];
                    assert(s[k + 1] == t[k]);
                }
            } else {
                assert(s[0] == s[0]);
            }
        }
        assert forall|i: int, j: int| 0 <= i < j < r.len() implies r[i].1 >= r[j].1 by {
            if i > 0 {
                assert(r[i] == rt[i - 1] && r[j] == rt[j - 1]);
            } else {
                assert(r[j] == rt[j - 1]);
                if rt[j - 1] != x {
                    let k = choose|k: int| 0 <= k < t.len() && t[k] == rt[j - 1];
                    assert(s[k + 1] == t[k]);
                }
            }
        }
    }
}

/// The rows of a ranking are the rows given, no more and no fewer.
proof fn insert_keeps_rows(s: Seq<(String, u64)>, x: (String, u64))
    ensures
        insert_by_count(s, x).to_multiset() == s.to_multiset().insert(x),
    decreases s.len(),
{
    broadcast use vstd::seq_lib::group_seq_properties, vstd::multiset::group_multiset_axioms;
    let e = Seq::<(String, u64)>::empty();
    e.to_multiset_ensures();
    assert(seq![x] =~= e.push(x));
    assert(seq![x].to_multiset() =~= vstd::multiset::Multiset::<(String, u64)>::empty().insert(x));
    if s.len() == 0 {
    } else if s[0].1 < x.1 {
        vstd::seq_lib::lemma_multiset_commutative(seq![x], s);
        assert(insert_by_count(s, x) == seq![x] + s);
        assert(seq![x].to_multiset().add(s.to_multiset()) =~= s.to_multiset().insert(x));
    } else {
        let t = s.drop_first();
        let h = seq![s[0]];
        insert_keeps_rows(t, x);
        assert(h =~= e.push(s[0]));
        assert(h.to_multiset() =~= vstd::multiset::Multiset::<(String, u64)>::empty().insert(s[0]));
        assert(s =~= h + t);
        vstd::seq_lib::lemma_multiset_commutative(h, t);
        vstd::seq_lib::lemma_multiset_commutative(h, insert_by_count(t, x));
        assert(insert_by_count(s, x) == h + insert_by_count(t, x));
        assert(h.to_multiset().add(t.to_multiset().insert(x)) =~= h.to_multiset().add(t.to_multiset()).insert(x));
    }
}

/// Ranked filters come out ordered by count, most first.
pub proof fn ranking_orders_by_count(s: Seq<(String, u64)>)
    ensures
        by_count_desc(rank_spec(s)),
        rank_spec(s).len() == s.len(),
    decreases s.len(),
{
    if s.len() > 0 {
        ranking_orders_by_count(s.drop_last());
        insert_keeps_ranked(rank_spec(s.drop_last()), s.last());
    }
}

/// Ranking loses no filter and invents none: the same rows, counted with multiplicity.
pub proof fn ranking_keeps_every_row(s: Seq<(String, u64)>)
    ensures
        rank_spec(s).to_multiset() == s.to_multiset(),
    decreases s.len(),
{
    if s.len() > 0 {
        let d = s.drop_last();
        ranking_keeps_every_row(d);
        insert_keeps_rows(rank_spec(d), s.last());
        d.to_multiset_ensures();
        assert(d.push(s.last()) =~= s);
        assert(d.push(s.last()).to_multiset() =~= d.to_multiset().insert(s.last()));
    } else {
        assert(s =~= Seq::<(String, u64)>::empty());
    }
}

proof fn count_sum_bound(s: Seq<(String, u64)>)
    ensures
        0 <= count_sum(s) <= s.len() * (u64::MAX as int),
    decreases s.len(),
{
    if s.len() > 0 {
        count_sum_bound(s.drop_last());
    }
}

/// Rank filter counts for the report: every row ranked by count, most first, ties in the
/// order given; the first `FILTER_ROWS_SHOWN` of them kept; and the total of all counts.
pub fn filter_report(rows: &Vec<(String, u64)>) -> (r: FilterReport)
    ensures
        r.rows@ == rank_spec(rows@).take(
            if rows@.len() < FILTER_ROWS_SHOWN { rows@.len() as int } else { FILTER_ROWS_SHOWN as int },
        ),
        r.total == count_sum(rows@),
        by_count_desc(r.rows@),
{
    let mut ranked: Vec<(String, u64)> = Vec::new();
    let mut total: u128 = 0;
    let mut i: usize = 0;
    while i < rows.len()
        invariant
            i <= rows@.len(),
            ranked@ == rank_spec(rows@.take(i as int)),
            total == count_sum(rows@.take(i as int)),
        decreases rows@.len() - i,
    {
        let x = (rows[i].0.clone(), rows[i].1);
        assert(x == rows@[i as int]);
        proof {
            assert(rows@.take(i as int + 1).drop_last() =~= rows@.take(i as int));
            ranking_orders_by_count(rows@.take(i as int));
            count_sum_bound(rows@.take(i as int));
            assert(i * (u64::MAX as int) <= u64::MAX as int * u64::MAX as int) by (nonlinear_arith)
                requires i <= u64::MAX;
        }
        let mut p: usize = 0;
        while p < ranked.len() && ranked[p].1 >= x.1
            invariant
                p <= ranked@.len(),
                forall|k: int| 0 <= k < p ==> ranked@[k].1 >= x.1,
            decreases ranked@.len() - p,
        {
            p = p + 1;
        }
        proof {
            insert_at_first_smaller(ranked@, x, p as int);
        }
        ranked.insert(p, x);
        total = total + rows[i].1 as u128;
        i = i + 1;
    }
    assert(rows@.take(rows@.len() as int) =~= rows@);
    proof {
        ranking_orders_by_count(rows@);
    }
    let keep = if ranked.len() < FILTER_ROWS_SHOWN { ranked.len() } else { FILTER_ROWS_SHOWN };
    ranked.truncate(keep);
    FilterReport { rows: ranked, total }
}

} // verus!
