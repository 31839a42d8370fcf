//! Who may command the bot. Deny by default: an empty allow-list authorises nobody.
//!
//! Nobody knows their own Telegram user id, so the list is bootstrapped by a claim code
//! printed to the operator's console, never sent over Telegram. The code is single-use,
//! expires, and claiming is refused once an owner exists.
use std::collections::HashSet;

use vstd::prelude::*;

use crate::commands::{eq_ignore_ascii_case, eq_ignore_case, fresh_code, is_code};
use crate::presence::{parse_i64, trim, trim_range};
use crate::decimal::{push_signed, signed_decimal};
use crate::text::{chars_of, esc, esc_spec};

verus! {

broadcast use vstd::std_specs::hash::group_hash_axioms;

/// How long a printed claim code stays valid, in milliseconds.
pub const CLAIM_TTL_MS: u64 = 15 * 60 * 1000;

/// The environment variable holding the comma-separated allow-list of user ids.
pub const OWNERS_ENV: &'static str = "SCEMA_TG_OWNERS";

/// The refusal when there is no owner yet: it says how to claim, and nothing else.
pub const NO_OWNER_YET: &'static str = "This bot has no owner yet. Run it and read the claim code from the operator's console, then send:\n\n<code>/claim CODE</code>";

/// The refusal when an owner exists. It names nobody and offers no way in.
pub const NOT_AUTHORISED: &'static str = "Not authorised.";

/// Why a claim failed.
pub const ALREADY_OWNED: &'static str = "This bot already has an owner. Add another by setting SCEMA_TG_OWNERS and restarting — which needs access to the machine, exactly as claiming did.";
pub const NO_CLAIM_ACTIVE: &'static str = "No claim code is active. Restart the bot to print a new one.";
pub const CLAIM_EXPIRED: &'static str = "That claim code has expired. Restart the bot to print a new one.";
pub const CLAIM_INVALID: &'static str = "That code is not valid.";

/// A live claim code and when it was printed, in unix milliseconds.
#[derive(Debug, Clone)]
pub struct Claim {
    pub code: String,
    pub issued_at_ms: u64,
}

/// What `authorise` decided.
#[derive(Debug, Clone, PartialEq, Eq)]
pub enum Access {
    /// This user is on the allow-list.
    Owner,
    /// Refused. The message is safe to send back: it says nothing about who is allowed.
    Denied(String),
}

/// The allow-list and the claim state.
#[derive(Debug)]
pub struct Auth {
    /// Telegram user ids permitted to command the bot.
    owners: HashSet<i64>,
    /// The live claim code, if the bot started with no owners.
    claim: Option<Claim>,
    /// True when the allow-list came from configuration rather than a claim.
    configured: bool,
}

/// One step of splitting at commas.
pub open spec fn comma_step(st: (Seq<Seq<char>>, Seq<char>), c: char) -> (Seq<Seq<char>>, Seq<char>) {
    if c == ',' { (st.0.push(st.1), Seq::empty()) } else { (st.0, st.1.push(c)) }
}

/// The finished pieces and the current one after reading `s`.
pub open spec fn comma_scan(s: Seq<char>) -> (Seq<Seq<char>>, Seq<char>)
    decreases s.len(),
{
    if s.len() == 0 { (Seq::empty(), Seq::empty()) } else { comma_step(comma_scan(s.drop_last()), s.last()) }
}

/// The pieces of `s` between commas, as `str::split(',')` yields them.
pub open spec fn comma_pieces(s: Seq<char>) -> Seq<Seq<char>> {
    let st = comma_scan(s);
    st.0.push(st.1)
}

/// The ids a list of pieces names: each piece, trimmed, read as an `i64`; pieces that are
/// not numbers are skipped.
pub open spec fn ids_of(pieces: Seq<Seq<char>>) -> Set<i64>
    decreases pieces.len(),
{
    if pieces.len() == 0 {
        Set::empty()
    } else {
        match parse_i64(trim(pieces.last())) {
            Some(v) => ids_of(pieces.drop_last()).insert(v),
            None => ids_of(pieces.drop_last()),
        }
    }
}

/// Add the id a piece names, if it names one.
fn add_id(owners: &mut HashSet<i64>, piece: &Vec<char>)
    ensures
        final(owners)@ == (match parse_i64(trim(piece@)) {
            Some(v) => old(owners)@.insert(v),
            None => old(owners)@,
        }),
{
    let (a, b) = trim_range(piece);
    match crate::presence::parse_i64_exec(piece, a, b) {
        Some(v) => {
            owners.insert(v);
        },
        None => {},
    }
}

/// A claim's reply as text: `Ok`, or the refusal's words.
pub open spec fn reply_view(r: Result<(), String>) -> Result<(), Seq<char>> {
    match r {
        Ok(()) => Ok(()),
        Err(m) => Err(m@),
    }
}

/// What a claim of `offered` by `user` at time `now` (unix milliseconds) does to an allow-list and its live
/// code: the reply, the allow-list after, and the code after. Refused while anyone owns
/// the bot, or with no live code; a code older than the time limit is refused and spent;
/// a wrong code is refused and kept; the right one, ignoring ASCII case after trimming,
/// makes the claimant the sole owner and is spent.
pub open spec fn claim_spec(
    owners: Set<i64>,
    claim: Option<(Seq<char>, u64)>,
    user: i64,
    offered: Seq<char>,
    now: u64,
) -> (Result<(), Seq<char>>, Set<i64>, Option<(Seq<char>, u64)>) {
    if owners != Set::<i64>::empty() {
        (Err(ALREADY_OWNED@), owners, claim)
    } else {
        match claim {
            None => (Err(NO_CLAIM_ACTIVE@), owners, None),
            Some((code, issued)) => if now >= issued && now - issued > CLAIM_TTL_MS {
                (Err(CLAIM_EXPIRED@), owners, None)
            } else if !eq_ignore_case(code, trim(offered)) {
                (Err(CLAIM_INVALID@), owners, claim)
            } else {
                (Ok(()), set![user], None)
            },
        }
    }
}

/// A claim code is single-use: once a claim succeeds the bot has its owner, and any later
/// claim, by anyone with any code at any time, is refused as already owned.
pub proof fn a_claim_code_is_single_use(
    owners: Set<i64>,
    claim: Option<(Seq<char>, u64)>,
    user: i64,
    offered: Seq<char>,
    now: u64,
    later_user: i64,
    later_offered: Seq<char>,
    later: u64,
)
    requires
        claim_spec(owners, claim, user, offered, now).0 is Ok,
    ensures
        claim_spec(
            claim_spec(owners, claim, user, offered, now).1,
            claim_spec(owners, claim, user, offered, now).2,
            later_user,
            later_offered,
            later,
        ).0 == Err::<(), Seq<char>>(ALREADY_OWNED@),
{
    assert(set![user].contains(user));
    assert(set![user] != Set::<i64>::empty());
}

impl Auth {
    /// The allow-list.
    pub closed spec fn owners_view(&self) -> Set<i64> {
        self.owners@
    }

    /// The live claim code and its time, if any.
    pub closed spec fn claim_view(&self) -> Option<(Seq<char>, u64)> {
        match self.claim {
            Some(c) => Some((c.code@, c.issued_at_ms)),
            None => None,
        }
    }

    /// Whether the allow-list came from configuration.
    pub closed spec fn configured_view(&self) -> bool {
        self.configured
    }

    /// Read a comma-separated allow-list of user ids. Entries that are not ids are
    /// skipped, never read as zero: a sloppy parser would quietly hold a junk entry.
    pub fn from_owner_list(raw: &str) -> (a: Auth)
        ensures
            a.owners_view() == ids_of(comma_pieces(raw@)),
            a.claim_view() is None,
            a.configured_view() == (a.owners_view() != Set::<i64>::empty()),
    {
        let cs = chars_of(raw);
        let mut owners: HashSet<i64> = HashSet::new();
        let mut start: usize = 0;
        let mut i: usize = 0;
        let ghost mut done: Seq<Seq<char>> = Seq::empty();
        while i < cs.len()
            invariant
                start <= i <= cs@.len(),
                comma_scan(cs@.take(i as int)) == (done, cs@.subrange(start as int, i as int)),
                owners@ == ids_of(done),
            decreases cs@.len() - i,
        {
            assert(cs@.take(i + 1).drop_last() =~= cs@.take(i as int));
            if cs[i] == ',' {
                let piece = crate::control::sub_chars(&cs, start, i);
                add_id(&mut owners, &piece);
                proof {
                    assert(done.push(piece@).drop_last() =~= done);
                    done = done.push(piece@);
                    assert(cs@.subrange(i + 1, i + 1) =~= Seq::<char>::empty());
                }
                start = i + 1;
            } else {
                assert(cs@.subrange(start as int, i + 1) =~= cs@.subrange(start as int, i as int).push(cs@[i as int]));
            }
            i = i + 1;
        }
        assert(cs@.take(i as int) =~= cs@);
        let piece = crate::control::sub_chars(&cs, start, i);
        add_id(&mut owners, &piece);
        assert(done.push(piece@).drop_last() =~= done);
        assert(cs@ == raw@);
        let configured = !owners.is_empty();
        Auth { owners, claim: None, configured }
    }

    /// How many owners there are.
    pub fn owner_count(&self) -> (n: usize)
        ensures
            n == self.owners_view().len(),
    {
        self.owners.len()
    }

    /// Whether the allow-list came from configuration rather than a claim; a claimed owner
    /// is in memory only, so the operator has to be told to persist it.
    pub fn was_configured(&self) -> (b: bool)
        ensures
            b == self.configured_view(),
    {
        self.configured
    }

    /// Mint a six-character claim code at time `now` (unix milliseconds), replacing any earlier one. `None`,
    /// and nothing changes, when an owner already exists.
    pub fn issue_claim(&mut self, now: u64) -> (r: Option<String>)
        ensures
            old(self).owners_view() != Set::<i64>::empty() ==> r is None && final(self).claim_view() == old(self).claim_view(),
            old(self).owners_view() == Set::<i64>::empty() ==> r is Some && is_code(r->0@, 6) && final(self).claim_view() == Some(
                (r->0@, now),
            ),
            final(self).owners_view() == old(self).owners_view(),
            final(self).configured_view() == old(self).configured_view(),
    {
        if !self.owners.is_empty() {
            return None;
        }
        let code = fresh_code(6);
        let shown = code.clone();
        self.claim = Some(Claim { code, issued_at_ms: now });
        Some(shown)
    }

    /// Attempt a claim at time `now` (unix milliseconds). On success the claimant becomes the sole owner and
    /// the code is spent; the code is compared ignoring ASCII case, after trimming.
    pub fn try_claim(&mut self, user_id: i64, offered: &str, now: u64) -> (r: Result<(), String>)
        ensures
            claim_spec(old(self).owners_view(), old(self).claim_view(), user_id, offered@, now) == (
                reply_view(r),
                final(self).owners_view(),
                final(self).claim_view(),
            ),
            final(self).configured_view() == old(self).configured_view(),
    {
        if !self.owners.is_empty() {
            return Err(String::from_str(ALREADY_OWNED));
        }
        let verdict: u8 = match &self.claim {
            None => 0,
            Some(c) => {
                if now >= c.issued_at_ms && now - c.issued_at_ms > CLAIM_TTL_MS {
                    1
                } else {
                    let all = chars_of(offered);
                    let (a, b) = trim_range(&all);
                    let t = crate::control::sub_chars(&all, a, b);
                    let mut s = String::new();
                    let mut i: usize = 0;
                    while i < t.len()
                        invariant
                            i <= t@.len(),
                            s@ == t@.take(i as int),
                        decreases t@.len() - i,
                    {
                        crate::text::push_char(&mut s, t[i]);
                        i = i + 1;
                        assert(s@ =~= t@.take(i as int));
                    }
                    assert(t@.take(t@.len() as int) =~= t@);
                    if eq_ignore_ascii_case(c.code.as_str(), s.as_str()) {
                        3
                    } else {
                        2
                    }
                }
            },
        };
        if verdict == 0 {
            return Err(String::from_str(NO_CLAIM_ACTIVE));
        }
        if verdict == 1 {
            self.claim = None;
            return Err(String::from_str(CLAIM_EXPIRED));
        }
        if verdict == 2 {
            return Err(String::from_str(CLAIM_INVALID));
        }
        self.claim = None;
        self.owners.insert(user_id);
        assert(self.owners@ =~= set![user_id]);
        Ok(())
    }

    /// May this user command the bot? Only an owner may; a refusal names nobody.
    pub fn authorise(&self, user_id: i64) -> (a: Access)
        ensures
            self.owners_view().contains(user_id) ==> a == Access::Owner,
            !self.owners_view().contains(user_id) && self.owners_view() == Set::<i64>::empty() ==> a is Denied
                && a->Denied_0@ == NO_OWNER_YET@,
            !self.owners_view().contains(user_id) && self.owners_view() != Set::<i64>::empty() ==> a is Denied
                && a->Denied_0@ == NOT_AUTHORISED@,
    {
        if self.owners.contains(&user_id) {
            return Access::Owner;
        }
        if self.owners.is_empty() {
            return Access::Denied(String::from_str(NO_OWNER_YET));
        }
        Access::Denied(String::from_str(NOT_AUTHORISED))
    }
}

/// Whether a button press may be acted on: `None` for an owner; otherwise the answer the
/// press gets, which is `NOT_AUTHORISED` whoever owns the bot, and nothing else is done.
pub fn press_refusal(auth: &Auth, user_id: i64) -> (r: Option<&'static str>)
    ensures
        auth.owners_view().contains(user_id) ==> r is None,
        !auth.owners_view().contains(user_id) ==> (r matches Some(t) && t@ == NOT_AUTHORISED@),
{
    match auth.authorise(user_id) {
        Access::Owner => None,
        Access::Denied(_) => Some(NOT_AUTHORISED),
    }
}

/// What the bot does with a message before reading it as a command.
#[derive(Debug, Clone, PartialEq, Eq)]
pub enum Admission {
    /// `/claim <code>`: the one message answered without authorisation. Carries the rest
    /// of the text after `/claim`.
    Claim(String),
    /// Refused, with the reply to send.
    Refused(String),
    /// An owner: go on to read the command.
    Admitted,
}

/// Whether a message is a claim: its trimmed text starts with `/claim`. The rest.
pub open spec fn claim_rest(text: Seq<char>) -> Option<Seq<char>> {
    let t = trim(text);
    if t.len() >= 6 && t.take(6) == "/claim"@ { Some(t.skip(6)) } else { None }
}

/// Decide whether a message may be acted on. `/claim` is reachable without authorisation
/// and can do nothing but claim; every other message needs an owner.
pub fn admission(auth: &Auth, user_id: i64, text: &str) -> (a: Admission)
    ensures
        claim_rest(text@) is Some ==> a is Claim && a->Claim_0@ == claim_rest(text@)->0,
        claim_rest(text@) is None && auth.owners_view().contains(user_id) ==> a == Admission::Admitted,
        claim_rest(text@) is None && !auth.owners_view().contains(user_id) ==> a is Refused,
        a == Admission::Admitted ==> auth.owners_view().contains(user_id),
        a is Refused ==> a->Refused_0@ == (if auth.owners_view() == Set::<i64>::empty() {
            NO_OWNER_YET@
        } else {
            NOT_AUTHORISED@
        }),
{
    proof {
        reveal_strlit("/claim");
    }
    let all = chars_of(text);
    let (x, y) = trim_range(&all);
    let t = crate::control::sub_chars(&all, x, y);
    let prefix = chars_of("/claim");
    let mut is_claim = false;
    if t.len() >= 6 {
        let head = crate::control::sub_chars(&t, 0, 6);
        assert(head@ =~= t@.take(6));
        is_claim = crate::control::same_chars(&head, &prefix);
    }
    if is_claim {
        let mut rest = String::new();
        let mut i: usize = 6;
        while i < t.len()
            invariant
                6 <= i <= t@.len(),
                rest@ == t@.subrange(6, i as int),
            decreases t@.len() - i,
        {
            crate::text::push_char(&mut rest, t[i]);
            i = i + 1;
            assert(rest@ =~= t@.subrange(6, i as int));
        }
        assert(t@.subrange(6, t@.len() as int) =~= t@.skip(6));
        return Admission::Claim(rest);
    }
    match auth.authorise(user_id) {
        Access::Owner => Admission::Admitted,
        Access::Denied(why) => Admission::Refused(why),
    }
}

/// What a claimant is told: on success, that they own the bot and how to make that
/// survive a restart; on a refusal, the reason, escaped.
pub open spec fn claim_reply_spec(r: Result<(), Seq<char>>, user_id: i64) -> Seq<char> {
    match r {
        Ok(()) => "✅ Claimed. You are the owner (id <code>"@ + signed_decimal(user_id as int)
            + "</code>).\n\nSet <code>"@ + OWNERS_ENV@ + "="@ + signed_decimal(user_id as int)
            + "</code> in .env so this survives a restart — until then the claim lives in memory only.\n\n/help"@,
        Err(m) => esc_spec(m),
    }
}

/// The reply to a claim, as `claim_reply_spec` says.
pub fn claim_reply(r: &Result<(), String>, user_id: i64) -> (s: String)
    ensures
        s@ == claim_reply_spec(reply_view(*r), user_id),
{
    match r {
        Ok(()) => {
            let mut s = String::from_str("✅ Claimed. You are the owner (id <code>");
            push_signed(&mut s, user_id);
            s.append("</code>).\n\nSet <code>");
            s.append(OWNERS_ENV);
            s.append("=");
            push_signed(&mut s, user_id);
            s.append(
                "</code> in .env so this survives a restart — until then the claim lives in memory only.\n\n/help",
            );
            s
        },
        Err(m) => esc(m.as_str()),
    }
}

} // verus!
