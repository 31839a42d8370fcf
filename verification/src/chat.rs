//! Confirmation prompts for the model's tool calls, over Telegram.
//!
//! A pending action is bound to one chat and one user, and a press from anyone else is
//! refused without consuming the prompt; it expires, because an unanswered "sell?" from an
//! hour ago is not consent; and its token is single-use, so a resolved prompt cannot be
//! pressed twice.
use vstd::prelude::*;

use crate::decimal::{decimal, decimal_injective, push_decimal};

verus! {

/// How long an unanswered confirmation stays pressable, in milliseconds.
pub const PENDING_TTL_MS: u64 = 5 * 60 * 1000;

/// Turns of conversation kept per chat.
pub const HISTORY_TURNS: usize = 50;

/// A call waiting for its confirmation.
#[derive(Debug, Clone)]
pub struct Pending<T> {
    pub call: T,
    /// The chat and user the prompt was shown to. Both must match on the press.
    pub chat_id: i64,
    pub user_id: i64,
    /// The message carrying the prompt's keyboard, once sent (0 before).
    pub message_id: i64,
    /// When the prompt was issued, in unix milliseconds.
    pub issued_at_ms: u64,
}

/// Whether a prompt issued at `issued_at_ms` has expired at `now` (unix milliseconds).
pub open spec fn expired_at(issued_at_ms: u64, now: u64) -> bool {
    now >= issued_at_ms && now - issued_at_ms > PENDING_TTL_MS
}

impl<T> Pending<T> {
    /// Whether this prompt has expired at `now`.
    pub fn expired(&self, now: u64) -> (b: bool)
        ensures
            b == expired_at(self.issued_at_ms, now),
    {
        now >= self.issued_at_ms && now - self.issued_at_ms > PENDING_TTL_MS
    }
}

/// One live prompt and the token that rides in its buttons.
#[derive(Debug, Clone)]
pub struct Entry<T> {
    pub token: String,
    pub pending: Pending<T>,
}

/// Live confirmations, keyed by token.
#[derive(Debug)]
pub struct Confirmations<T> {
    entries: Vec<Entry<T>>,
    next_token: u64,
}

/// What a press asked of a prompt.
#[derive(Debug, Clone, PartialEq, Eq)]
pub enum Press<T> {
    /// The token is unknown: already answered, swept, or never issued.
    Gone,
    /// The press came from another chat or user; the prompt is kept for the right one.
    WrongUser,
    /// The prompt had expired; it is dropped.
    Expired,
    /// The right person, in time: here is the call to run. The prompt is used up.
    Confirmed(T),
    /// The right person declined. The prompt is used up.
    Cancelled,
}

/// What the chat is told when a press finds no live prompt for it: the prompt was already
/// answered, it expired, or it is someone else's. A press that confirmed or cancelled is
/// answered by the call's own outcome instead.
pub open spec fn notice_spec<T>(p: Press<T>) -> Option<Seq<char>> {
    match p {
        Press::Gone => Some("<i>That action was already answered.</i>"@),
        Press::Expired => Some("<i>That confirmation expired. Ask again if you still want it.</i>"@),
        Press::WrongUser => Some(
            "<i>That confirmation belongs to someone else's request and is still waiting for them.</i>"@,
        ),
        _ => None,
    }
}

impl<T> Press<T> {
    /// The notice for this press, as `notice_spec` says.
    pub fn notice(&self) -> (n: Option<&'static str>)
        ensures
            match n {
                Some(t) => notice_spec(*self) == Some(t@),
                None => notice_spec(*self) is None,
            },
    {
        match self {
            Press::Gone => Some("<i>That action was already answered.</i>"),
            Press::Expired => Some("<i>That confirmation expired. Ask again if you still want it.</i>"),
            Press::WrongUser => Some(
                "<i>That confirmation belongs to someone else's request and is still waiting for them.</i>",
            ),
            _ => None,
        }
    }
}

/// What a cancelled prompt is answered: the chat's model says how it takes the refusal
/// (`agent_text`), or, when the chat has no model session, a plain `Cancelled.`.
pub fn cancel_reply(agent_text: Option<String>) -> (s: String)
    ensures
        s@ == (match agent_text {
            Some(t) => t@,
            None => "Cancelled."@,
        }),
{
    match agent_text {
        Some(t) => t,
        None => String::from_str("Cancelled."),
    }
}

/// The token for prompt number `n`: `c` and its decimal digits.
pub open spec fn token_spec(n: u64) -> Seq<char> {
    "c"@ + decimal(n as nat)
}

/// The position of the prompt with this token, if any.
pub open spec fn find_in<T>(es: Seq<Entry<T>>, token: Seq<char>) -> Option<int> {
    if exists|i: int| 0 <= i < es.len() && es[i].token@ == token {
        Some(choose|i: int| 0 <= i < es.len() && es[i].token@ == token)
    } else {
        None
    }
}

/// No two prompts share a token.
pub open spec fn distinct_tokens<T>(es: Seq<Entry<T>>) -> bool {
    forall|i: int, j: int| 0 <= i < es.len() && 0 <= j < es.len() && i != j ==> es[i].token@ != es[j].token@
}

/// The prompts for which `keep` holds, in order.
pub open spec fn retain_spec<T>(es: Seq<Entry<T>>, keep: spec_fn(Entry<T>) -> bool) -> Seq<Entry<T>>
    decreases es.len(),
{
    if es.len() == 0 {
        Seq::empty()
    } else if keep(es.last()) {
        retain_spec(es.drop_last(), keep).push(es.last())
    } else {
        retain_spec(es.drop_last(), keep)
    }
}

/// Keep the prompts outside a chat.
pub open spec fn not_in_chat<T>(chat_id: i64) -> spec_fn(Entry<T>) -> bool {
    |e: Entry<T>| e.pending.chat_id != chat_id
}

/// Keep the prompts that have not expired at `now`.
pub open spec fn still_fresh<T>(now: u64) -> spec_fn(Entry<T>) -> bool {
    |e: Entry<T>| !expired_at(e.pending.issued_at_ms, now)
}

/// Every prompt kept is one of the originals.
proof fn retained_are_members<T>(es: Seq<Entry<T>>, keep: spec_fn(Entry<T>) -> bool)
    ensures
        forall|a: int| 0 <= a < retain_spec(es, keep).len() ==> exists|b: int| 0 <= b < es.len() && #[trigger] retain_spec(es, keep)[a] == es[b],
    decreases es.len(),
{
    if es.len() > 0 {
        retained_are_members(es.drop_last(), keep);
        let r = retain_spec(es.drop_last(), keep);
        assert forall|a: int| 0 <= a < retain_spec(es, keep).len() implies exists|b: int| 0 <= b < es.len() && #[trigger] retain_spec(es, keep)[a] == es[b] by {
            if a < r.len() {
                let b = choose|b: int| 0 <= b < es.drop_last().len() && r[a] == es.drop_last()[b];
                assert(retain_spec(es, keep)[a] == es[b]);
            } else {
                assert(retain_spec(es, keep)[a] == es[es.len() - 1]);
            }
        }
    }
}

/// Keeping some prompts keeps their tokens distinct.
proof fn retained_distinct<T>(es: Seq<Entry<T>>, keep: spec_fn(Entry<T>) -> bool)
    requires
        distinct_tokens(es),
    ensures
        distinct_tokens(retain_spec(es, keep)),
    decreases es.len(),
{
    if es.len() > 0 {
        let prev = es.drop_last();
        assert(distinct_tokens(prev)) by {
            assert forall|i: int, j: int| 0 <= i < prev.len() && 0 <= j < prev.len() && i != j implies prev[i].token@ != prev[j].token@ by {
                assert(prev[i] == es[i] && prev[j] == es[j]);
            }
        }
        retained_distinct(prev, keep);
        retained_are_members(prev, keep);
        let r = retain_spec(prev, keep);
        if keep(es.last()) {
            let n = retain_spec(es, keep);
            assert forall|i: int, j: int| 0 <= i < n.len() && 0 <= j < n.len() && i != j implies n[i].token@ != n[j].token@ by {
                if i == r.len() as int && j < r.len() {
                    let b = choose|b: int| 0 <= b < prev.len() && #[trigger] r[j] == prev[b];
                    assert(n[j] == es[b]);
                    assert(n[i] == es[es.len() - 1]);
                } else if j == r.len() as int && i < r.len() {
                    let b = choose|b: int| 0 <= b < prev.len() && #[trigger] r[i] == prev[b];
                    assert(n[i] == es[b]);
                    assert(n[j] == es[es.len() - 1]);
                } else {
                    assert(n[i] == r[i] && n[j] == r[j]);
                }
            }
        }
    }
}

/// A token is `token_spec(k)` for a number `k` below `n`.
pub open spec fn numbered(t: Seq<char>, n: u64) -> bool {
    exists|k: u64| k < n && #[trigger] token_spec(k) == t
}

/// Every prompt's token is `token_spec(k)` for a number `k` below `n`.
pub open spec fn numbered_below<T>(es: Seq<Entry<T>>, n: u64) -> bool {
    forall|i: int| 0 <= i < es.len() ==> numbered(#[trigger] es[i].token@, n)
}

/// Distinct numbers make distinct tokens.
proof fn token_injective(a: u64, b: u64)
    requires
        token_spec(a) == token_spec(b),
    ensures
        a == b,
{
    reveal_strlit("c");
    assert(token_spec(a).drop_first() =~= decimal(a as nat));
    assert(token_spec(b).drop_first() =~= decimal(b as nat));
    decimal_injective(a as nat, b as nat);
}

/// The next number's token is not yet in use.
proof fn fresh_token_absent<T>(es: Seq<Entry<T>>, n: u64)
    requires
        numbered_below(es, n),
    ensures
        find_in(es, token_spec(n)) is None,
{
    if exists|i: int| 0 <= i < es.len() && es[i].token@ == token_spec(n) {
        let i = choose|i: int| 0 <= i < es.len() && es[i].token@ == token_spec(n);
        let k = choose|k: u64| k < n && #[trigger] token_spec(k) == es[i].token@;
        token_injective(k, n);
    }
}

/// Prompts drawn from a numbered table are numbered too.
proof fn members_numbered<T>(es: Seq<Entry<T>>, r: Seq<Entry<T>>, n: u64)
    requires
        numbered_below(es, n),
        forall|a: int| 0 <= a < r.len() ==> exists|b: int| 0 <= b < es.len() && #[trigger] r[a] == es[b],
    ensures
        numbered_below(r, n),
{
    assert forall|a: int| 0 <= a < r.len() implies numbered(#[trigger] r[a].token@, n) by {
        let b = choose|b: int| 0 <= b < es.len() && #[trigger] r[a] == es[b];
        let k = choose|k: u64| k < n && #[trigger] token_spec(k) == es[b].token@;
        assert(token_spec(k) == r[a].token@);
    }
}

impl<T> Confirmations<T> {
    /// The live prompts, in the order they were issued.
    pub closed spec fn entries_view(&self) -> Seq<Entry<T>> {
        self.entries@
    }

    /// The number the next prompt's token will carry.
    pub closed spec fn next_view(&self) -> u64 {
        self.next_token
    }

    /// The table's invariant: tokens are distinct, and each carries a number already
    /// handed out.
    pub closed spec fn wf(&self) -> bool {
        distinct_tokens(self.entries@) && numbered_below(self.entries@, self.next_token)
    }

    /// An empty table; the first token is `c1`.
    pub fn new() -> (c: Confirmations<T>)
        ensures
            c.wf(),
            c.entries_view().len() == 0,
            c.next_view() == 1,
    {
        Confirmations { entries: Vec::new(), next_token: 1 }
    }

    /// The position of the prompt with this token.
    fn find(&self, token: &str) -> (r: Option<usize>)
        requires
            self.wf(),
        ensures
            match r {
                Some(i) => i < self.entries@.len() && find_in(self.entries@, token@) == Some(i as int),
                None => find_in(self.entries@, token@) is None,
            },
    {
        let mut i: usize = 0;
        while i < self.entries.len()
            invariant
                i <= self.entries@.len(),
                distinct_tokens(self.entries@),
                forall|j: int| 0 <= j < i ==> self.entries@[j].token@ != token@,
            decreases self.entries@.len() - i,
        {
            if self.entries[i].token == String::from_str(token) {
                proof {
                    let k = choose|k: int| 0 <= k < self.entries@.len() && self.entries@[k].token@ == token@;
                    assert(0 <= k < self.entries@.len() && self.entries@[k].token@ == token@) by {
                        assert(0 <= i < self.entries@.len() && self.entries@[i as int].token@ == token@);
                    }
                    if k != i {
                        assert(self.entries@[k].token@ != self.entries@[i as int].token@);
                    }
                }
                return Some(i);
            }
            i = i + 1;
        }
        None
    }

    /// Record a call awaiting confirmation from this chat and user, and return its token,
    /// which is short enough for Telegram's 64-byte button data.
    pub fn issue(&mut self, call: T, chat_id: i64, user_id: i64, now: u64) -> (token: String)
        requires
            old(self).wf(),
            old(self).next_view() < u64::MAX,
        ensures
            final(self).wf(),
            token@ == token_spec(old(self).next_view()),
            find_in(old(self).entries_view(), token@) is None,
            final(self).next_view() == old(self).next_view() + 1,
            final(self).entries_view().drop_last() == old(self).entries_view(),
            final(self).entries_view().last().token@ == token@,
            final(self).entries_view().last().pending.chat_id == chat_id,
            final(self).entries_view().last().pending.user_id == user_id,
            final(self).entries_view().last().pending.message_id == 0,
            final(self).entries_view().last().pending.issued_at_ms == now,
            final(self).entries_view().last().pending.call == call,
    {
        let mut token = String::from_str("c");
        push_decimal(&mut token, self.next_token);
        let ghost issued = self.next_token;
        proof {
            reveal_strlit("c");
            fresh_token_absent(self.entries@, self.next_token);
        }
        self.next_token = self.next_token + 1;
        let shown = token.clone();
        let ghost before = self.entries@;
        self.entries.push(
            Entry { token, pending: Pending { call, chat_id, user_id, message_id: 0, issued_at_ms: now } },
        );
        proof {
            assert(self.entries@.drop_last() =~= before);
            assert forall|i: int, j: int|
                0 <= i < self.entries@.len() && 0 <= j < self.entries@.len() && i != j implies self.entries@[i].token@
                != self.entries@[j].token@ by {
                if i == before.len() as int {
                    assert(!(before[j].token@ == shown@));
                } else if j == before.len() as int {
                    assert(!(before[i].token@ == shown@));
                }
            }
            assert forall|i: int| 0 <= i < self.entries@.len() implies numbered(
                #[trigger] self.entries@[i].token@,
                self.next_token,
            ) by {
                if i == before.len() as int {
                    assert(token_spec(issued) == self.entries@[i].token@);
                } else {
                    assert(self.entries@[i] == before[i]);
                    let k = choose|k: u64| k < issued && #[trigger] token_spec(k) == before[i].token@;
                    assert(token_spec(k) == self.entries@[i].token@);
                }
            }
        }
        shown
    }

    /// Answer a press of Confirm. The prompt is taken out of the table before its call is
    /// handed back, so a second press arriving meanwhile finds nothing.
    pub fn confirm(&mut self, chat_id: i64, user_id: i64, token: &str, now: u64) -> (p: Press<T>)
        requires
            old(self).wf(),
        ensures
            final(self).wf(),
            final(self).next_view() == old(self).next_view(),
            match find_in(old(self).entries_view(), token@) {
                None => p == Press::<T>::Gone && final(self).entries_view() == old(self).entries_view(),
                Some(i) => {
                    let e = old(self).entries_view()[i];
                    if e.pending.chat_id != chat_id || e.pending.user_id != user_id {
                        p == Press::<T>::WrongUser && final(self).entries_view() == old(self).entries_view()
                    } else if expired_at(e.pending.issued_at_ms, now) {
                        p == Press::<T>::Expired && final(self).entries_view() == old(self).entries_view().remove(i)
                    } else {
                        p == Press::Confirmed(e.pending.call) && final(self).entries_view()
                            == old(self).entries_view().remove(i)
                    }
                },
            },
    {
        let i = match self.find(token) {
            None => return Press::Gone,
            Some(i) => i,
        };
        if self.entries[i].pending.chat_id != chat_id || self.entries[i].pending.user_id != user_id {
            return Press::WrongUser;
        }
        let ghost before = self.entries@;
        let e = self.entries.remove(i);
        proof {
            self.removal_keeps_distinct(before, i as int);
        }
        if e.pending.expired(now) {
            return Press::Expired;
        }
        Press::Confirmed(e.pending.call)
    }

    /// Answer a press of Cancel: the right person declines and the prompt is used up.
    pub fn cancel(&mut self, chat_id: i64, user_id: i64, token: &str) -> (p: Press<T>)
        requires
            old(self).wf(),
        ensures
            final(self).wf(),
            final(self).next_view() == old(self).next_view(),
            match find_in(old(self).entries_view(), token@) {
                None => p == Press::<T>::Gone && final(self).entries_view() == old(self).entries_view(),
                Some(i) => {
                    let e = old(self).entries_view()[i];
                    if e.pending.chat_id != chat_id || e.pending.user_id != user_id {
                        p == Press::<T>::WrongUser && final(self).entries_view() == old(self).entries_view()
                    } else {
                        p == Press::<T>::Cancelled && final(self).entries_view() == old(self).entries_view().remove(i)
                    }
                },
            },
    {
        let i = match self.find(token) {
            None => return Press::Gone,
            Some(i) => i,
        };
        if self.entries[i].pending.chat_id != chat_id || self.entries[i].pending.user_id != user_id {
            return Press::WrongUser;
        }
        let ghost before = self.entries@;
        let _ = self.entries.remove(i);
        proof {
            self.removal_keeps_distinct(before, i as int);
        }
        Press::Cancelled
    }

    /// Removing one prompt keeps the tokens distinct.
    proof fn removal_keeps_distinct(&self, before: Seq<Entry<T>>, i: int)
        requires
            distinct_tokens(before),
            numbered_below(before, self.next_token),
            0 <= i < before.len(),
            self.entries@ == before.remove(i),
        ensures
            self.wf(),
    {
        assert forall|a: int, b: int|
            0 <= a < self.entries@.len() && 0 <= b < self.entries@.len() && a != b implies self.entries@[a].token@
            != self.entries@[b].token@ by {
            let a0 = if a < i { a } else { a + 1 };
            let b0 = if b < i { b } else { b + 1 };
            assert(self.entries@[a] == before[a0]);
            assert(self.entries@[b] == before[b0]);
        }
        assert forall|a: int| 0 <= a < self.entries@.len() implies numbered(
            #[trigger] self.entries@[a].token@,
            self.next_token,
        ) by {
            let a0 = if a < i { a } else { a + 1 };
            assert(self.entries@[a] == before[a0]);
            let k = choose|k: u64| k < self.next_token && #[trigger] token_spec(k) == before[a0].token@;
            assert(token_spec(k) == self.entries@[a].token@);
        }
    }

    /// Forget a chat: drop its prompts, keeping every other chat's.
    pub fn reset(&mut self, chat_id: i64)
        requires
            old(self).wf(),
        ensures
            final(self).wf(),
            final(self).next_view() == old(self).next_view(),
            final(self).entries_view() == retain_spec(old(self).entries_view(), not_in_chat::<T>(chat_id)),
    {
        let ghost before = self.entries@;
        let ghost nt = self.next_token;
        let ghost keep = not_in_chat::<T>(chat_id);
        let mut i: usize = 0;
        let ghost mut j: int = 0;
        while i < self.entries.len()
            invariant
                0 <= j <= before.len(),
                i <= self.entries@.len(),
                self.entries@ == retain_spec(before.take(j), keep) + before.skip(j),
                i == retain_spec(before.take(j), keep).len(),
                keep == not_in_chat::<T>(chat_id),
                self.next_token == nt,
            decreases before.len() - j,
        {
            assert(self.entries@[i as int] == before[j]);
            assert(before.take(j + 1).drop_last() =~= before.take(j));
            assert(before.take(j + 1).last() == before[j]);
            if self.entries[i].pending.chat_id == chat_id {
                let _ = self.entries.remove(i);
                proof {
                    assert(self.entries@ =~= retain_spec(before.take(j + 1), keep) + before.skip(j + 1));
                    j = j + 1;
                }
            } else {
                proof {
                    assert(self.entries@ =~= retain_spec(before.take(j + 1), keep) + before.skip(j + 1));
                    j = j + 1;
                }
                i = i + 1;
            }
        }
        proof {
            if j < before.len() {
                assert(self.entries@.len() > i);
            }
            assert(before.take(before.len() as int) =~= before);
            assert(before.skip(before.len() as int) =~= Seq::<Entry<T>>::empty());
            assert(self.entries@ =~= retain_spec(before, keep));
            retained_distinct(before, keep);
            retained_are_members(before, keep);
            members_numbered(before, self.entries@, nt);
        }
    }

    /// Drop the prompts nobody answered in time. Expiry is also checked when a prompt is
    /// pressed, so a missed sweep cannot revive a stale one.
    pub fn sweep(&mut self, now: u64)
        requires
            old(self).wf(),
        ensures
            final(self).wf(),
            final(self).next_view() == old(self).next_view(),
            final(self).entries_view() == retain_spec(old(self).entries_view(), still_fresh::<T>(now)),
    {
        let ghost before = self.entries@;
        let ghost nt = self.next_token;
        let ghost keep = still_fresh::<T>(now);
        let mut i: usize = 0;
        let ghost mut j: int = 0;
        while i < self.entries.len()
            invariant
                0 <= j <= before.len(),
                i <= self.entries@.len(),
                self.entries@ == retain_spec(before.take(j), keep) + before.skip(j),
                i == retain_spec(before.take(j), keep).len(),
                keep == still_fresh::<T>(now),
                self.next_token == nt,
            decreases before.len() - j,
        {
            assert(self.entries@[i as int] == before[j]);
            assert(before.take(j + 1).drop_last() =~= before.take(j));
            assert(before.take(j + 1).last() == before[j]);
            if self.entries[i].pending.expired(now) {
                let _ = self.entries.remove(i);
                proof {
                    assert(self.entries@ =~= retain_spec(before.take(j + 1), keep) + before.skip(j + 1));
                    j = j + 1;
                }
            } else {
                proof {
                    assert(self.entries@ =~= retain_spec(before.take(j + 1), keep) + before.skip(j + 1));
                    j = j + 1;
                }
                i = i + 1;
            }
        }
        proof {
            if j < before.len() {
                assert(self.entries@.len() > i);
            }
            assert(before.take(before.len() as int) =~= before);
            assert(before.skip(before.len() as int) =~= Seq::<Entry<T>>::empty());
            assert(self.entries@ =~= retain_spec(before, keep));
            retained_distinct(before, keep);
            retained_are_members(before, keep);
            members_numbered(before, self.entries@, nt);
        }
    }

    /// Record which message carries a prompt, so its keyboard can be removed on answer.
    pub fn bind_message(&mut self, token: &str, message_id: i64)
        requires
            old(self).wf(),
        ensures
            final(self).wf(),
            final(self).next_view() == old(self).next_view(),
            find_in(old(self).entries_view(), token@) is None ==> final(self).entries_view() == old(self).entries_view(),
            find_in(old(self).entries_view(), token@) is Some ==> {
                let i = find_in(old(self).entries_view(), token@)->0;
                let e = old(self).entries_view()[i];
                &&& final(self).entries_view().len() == old(self).entries_view().len()
                &&& forall|k: int| 0 <= k < old(self).entries_view().len() && k != i ==> final(self).entries_view()[k]
                    == old(self).entries_view()[k]
                &&& final(self).entries_view()[i].token@ == e.token@
                &&& final(self).entries_view()[i].pending.message_id == message_id
                &&& final(self).entries_view()[i].pending.chat_id == e.pending.chat_id
                &&& final(self).entries_view()[i].pending.user_id == e.pending.user_id
                &&& final(self).entries_view()[i].pending.issued_at_ms == e.pending.issued_at_ms
            },
    {
        match self.find(token) {
            None => {},
            Some(i) => {
                let ghost before = self.entries@;
                let mut e = self.entries.remove(i);
                e.pending.message_id = message_id;
                self.entries.insert(i, e);
                proof {
                    assert forall|a: int, b: int|
                        0 <= a < self.entries@.len() && 0 <= b < self.entries@.len() && a != b implies self.entries@[a].token@
                        != self.entries@[b].token@ by {
                        assert(self.entries@[a].token@ == before[a].token@);
                        assert(self.entries@[b].token@ == before[b].token@);
                    }
                    assert forall|a: int| 0 <= a < self.entries@.len() implies numbered(
                        #[trigger] self.entries@[a].token@,
                        self.next_token,
                    ) by {
                        let k = choose|k: u64| k < self.next_token && #[trigger] token_spec(k) == before[a].token@;
                        assert(self.entries@[a].token@ == before[a].token@);
                    }
                }
            },
        }
    }

    /// The message carrying a prompt, if the prompt is live.
    pub fn message_of(&self, token: &str) -> (m: Option<i64>)
        requires
            self.wf(),
        ensures
            match find_in(self.entries_view(), token@) {
                None => m is None,
                Some(i) => m == Some(self.entries_view()[i].pending.message_id),
            },
    {
        match self.find(token) {
            None => None,
            Some(i) => Some(self.entries[i].pending.message_id),
        }
    }

    /// Whether a prompt with this token is live.
    pub fn contains(&self, token: &str) -> (b: bool)
        requires
            self.wf(),
        ensures
            b == find_in(self.entries_view(), token@) is Some,
    {
        self.find(token).is_some()
    }
}

/// A prompt is single-use: once a press has confirmed, cancelled or expired it, its token
/// finds nothing, so a second press of the same button is answered `Gone`.
pub proof fn a_prompt_answers_once<T>(es: Seq<Entry<T>>, i: int)
    requires
        distinct_tokens(es),
        0 <= i < es.len(),
    ensures
        find_in(es.remove(i), es[i].token@) is None,
{
    let r = es.remove(i);
    if exists|k: int| 0 <= k < r.len() && r[k].token@ == es[i].token@ {
        let k = choose|k: int| 0 <= k < r.len() && r[k].token@ == es[i].token@;
        let k0 = if k < i { k } else { k + 1 };
        assert(r[k] == es[k0]);
    }
}

} // verus!
