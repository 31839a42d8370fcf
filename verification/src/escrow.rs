//! The optimistic bond escrow's rules: a bond moves through
//! `Escrowed → Provisional → (Disputed →) Finalized`, and only `settle`, after
//! `Finalized`, moves money.
//!
//! Every state has a way out that needs no particular person: a deadline for an unfilled
//! bond, the dispute window for a provisional one, and a resolution grace period for a
//! dispute. A slashed bond splits four ways by basis points that sum to 10 000, with the
//! caller absorbing rounding dust so the whole bond is always paid out.
//!
//! Accounts are modelled by their 32-byte keys, and the clock by the unix time passed in.
use vstd::prelude::*;

verus! {

/// A 32-byte account key. All zeros is the unset key.
pub type Key = [u8; 32];

/// Whether a key is the unset (all-zero) key.
pub open spec fn is_unset(k: Key) -> bool {
    forall|i: int| 0 <= i < 32 ==> #[trigger] k@[i] == 0
}

/// Whether a key is the unset key.
pub fn key_is_unset(k: &Key) -> (r: bool)
    ensures
        r == is_unset(*k),
{
    let mut i: usize = 0;
    while i < 32
        invariant
            i <= 32,
            forall|j: int| 0 <= j < i ==> k@[j] == 0,
        decreases 32 - i,
    {
        if k[i] != 0 {
            return false;
        }
        i = i + 1;
    }
    true
}

/// Whether two keys are equal.
pub fn same_key(a: &Key, b: &Key) -> (r: bool)
    ensures
        r == (a@ == b@),
{
    let mut i: usize = 0;
    while i < 32
        invariant
            i <= 32,
            forall|j: int| 0 <= j < i ==> a@[j] == b@[j],
        decreases 32 - i,
    {
        if a[i] != b[i] {
            return false;
        }
        i = i + 1;
    }
    assert(a@ =~= b@);
    true
}

/// A four-way split of a slashed bond, in basis points.
#[derive(Debug, Clone, Copy, PartialEq, Eq, Structural, Default)]
pub struct SlashRouting {
    pub to_caller_bps: u16,
    pub to_challengers_bps: u16,
    pub to_insurance_bps: u16,
    pub to_lineage_bps: u16,
}

/// The amounts of a split; the caller absorbs the rounding dust.
#[derive(Debug, Clone, Copy, PartialEq, Eq, Structural)]
pub struct SlashSplit {
    pub caller: u64,
    pub challengers: u64,
    pub insurance: u64,
    pub lineage: u64,
}

/// `bond * bps / 10 000`, rounded down.
pub open spec fn share(bond: u64, bps: u16) -> int {
    (bond as int * bps as int) / 10_000
}

/// `a - b`, or 0 when `b > a`.
pub open spec fn sat_sub(a: int, b: int) -> int {
    if a >= b { a - b } else { 0 }
}

impl SlashRouting {
    /// The shares sum to 10 000 basis points.
    pub open spec fn valid(self) -> bool {
        self.to_caller_bps as int + self.to_challengers_bps as int + self.to_insurance_bps as int + self.to_lineage_bps as int
            == 10_000
    }

    /// The split of `bond`: each of the three named slices rounded down, the caller
    /// taking what remains (never below zero).
    pub open spec fn split_spec(self, bond: u64) -> SlashSplit {
        let c = share(bond, self.to_challengers_bps) as u64;
        let i = share(bond, self.to_insurance_bps) as u64;
        let l = share(bond, self.to_lineage_bps) as u64;
        SlashSplit {
            caller: sat_sub(sat_sub(sat_sub(bond as int, c as int), i as int), l as int) as u64,
            challengers: c,
            insurance: i,
            lineage: l,
        }
    }

    /// Whether the shares sum to 10 000 basis points.
    pub fn is_valid(&self) -> (b: bool)
        ensures
            b == self.valid(),
    {
        self.to_caller_bps as u32 + self.to_challengers_bps as u32 + self.to_insurance_bps as u32
            + self.to_lineage_bps as u32 == 10_000
    }

    /// Split `bond` per the routing; the caller share takes the rounding remainder.
    pub fn distribute(&self, bond: u64) -> (s: SlashSplit)
        ensures
            s == self.split_spec(bond),
    {
        let c = share_exec(bond, self.to_challengers_bps);
        let i = share_exec(bond, self.to_insurance_bps);
        let l = share_exec(bond, self.to_lineage_bps);
        let caller = bond.saturating_sub(c).saturating_sub(i).saturating_sub(l);
        SlashSplit { caller, challengers: c, insurance: i, lineage: l }
    }
}

/// `bond * bps / 10 000`, rounded down; at most `bond * 6.5536`, so it fits a `u64`
/// whenever `bps <= 10 000`, and is computed in `u128` regardless.
fn share_exec(bond: u64, bps: u16) -> (r: u64)
    ensures
        r == share(bond, bps) as u64,
{
    assert((bond as u128) * (bps as u128) <= 0xFFFF_FFFF_FFFF_FFFFu128 * 0xFFFFu128) by (nonlinear_arith)
        requires bond <= 0xFFFF_FFFF_FFFF_FFFFu64, bps <= 0xFFFFu16;
    let wide: u128 = (bond as u128) * (bps as u128) / 10_000u128;
    proof {
        assert((bond as int * bps as int) / 10_000 <= (bond as int) * 7) by (nonlinear_arith)
            requires bond >= 0, 0 <= bps <= 65535;
    }
    #[verifier::truncate]
    (wide as u64)
}

/// A valid routing disburses the whole bond: the four slices sum to it exactly.
pub proof fn split_conserves_the_bond(r: SlashRouting, bond: u64)
    requires
        r.valid(),
    ensures
        r.split_spec(bond).caller as int + r.split_spec(bond).challengers as int + r.split_spec(bond).insurance as int
            + r.split_spec(bond).lineage as int == bond as int,
{
    let b = bond as int;
    let c = share(bond, r.to_challengers_bps);
    let i = share(bond, r.to_insurance_bps);
    let l = share(bond, r.to_lineage_bps);
    let pc = r.to_challengers_bps as int;
    let pi = r.to_insurance_bps as int;
    let pl = r.to_lineage_bps as int;
    assert(c + i + l <= b) by (nonlinear_arith)
        requires
            c == (b * pc) / 10_000,
            i == (b * pi) / 10_000,
            l == (b * pl) / 10_000,
            pc >= 0, pi >= 0, pl >= 0,
            pc + pi + pl <= 10_000,
            b >= 0,
    {
        assert(c * 10_000 <= b * pc);
        assert(i * 10_000 <= b * pi);
        assert(l * 10_000 <= b * pl);
        assert((c + i + l) * 10_000 <= b * (pc + pi + pl));
        assert(b * (pc + pi + pl) <= b * 10_000);
    }
    assert(0 <= c && 0 <= i && 0 <= l) by (nonlinear_arith)
        requires
            c == (b * pc) / 10_000,
            i == (b * pi) / 10_000,
            l == (b * pl) / 10_000,
            pc >= 0, pi >= 0, pl >= 0, b >= 0;
}

/// Where a bond is in its lifecycle.
#[derive(Debug, Clone, Copy, PartialEq, Eq, Structural)]
pub enum BondState {
    Escrowed,
    Provisional,
    Disputed,
    Finalized,
}

/// Why an instruction was refused.
#[derive(Debug, Clone, Copy, PartialEq, Eq, Structural)]
pub enum EscrowError {
    InvalidRouting,
    ZeroBond,
    ZeroStake,
    BadState,
    WindowClosed,
    WindowOpen,
    DeadlineNotPassed,
    NothingToChallenge,
    Unauthorized,
    VaultMismatch,
    MintMismatch,
    DestinationMismatch,
    UnnamedDestination,
    UnboundedDeadline,
}

/// The bond record.
#[derive(Debug, Clone, Copy)]
pub struct BondEscrow {
    pub agent: Key,
    pub caller: Key,
    pub authority: Key,
    pub challenger: Key,
    pub insurance: Key,
    pub lineage: Key,
    pub digest: [u8; 32],
    pub bond_amount: u64,
    pub challenger_stake: u64,
    pub min_out_raw: u64,
    pub deadline_unix: i64,
    pub dispute_window_secs: i64,
    pub resolve_grace_secs: i64,
    pub window_closes_unix: i64,
    pub routing: SlashRouting,
    pub state: BondState,
    pub provisional_honored: bool,
    pub final_slashed: bool,
}

/// What opening a bond asks for.
#[derive(Debug, Clone, Copy)]
pub struct BondTerms {
    pub agent: Key,
    pub digest: [u8; 32],
    pub bond_amount: u64,
    pub min_out_raw: u64,
    pub deadline_unix: i64,
    pub dispute_window_secs: i64,
    pub resolve_grace_secs: i64,
    pub routing: SlashRouting,
    pub authority: Key,
    pub caller: Key,
    pub insurance: Key,
    pub lineage: Key,
}

/// `a + b`, held to the range of `i64`.
pub open spec fn sat_add_i64(a: i64, b: i64) -> i64 {
    let s = a as int + b as int;
    if s > i64::MAX { i64::MAX } else if s < i64::MIN { i64::MIN } else { s as i64 }
}

/// `a + b`, held to the range of `i64` (a saturating add).
pub fn add_clamped(a: i64, b: i64) -> (r: i64)
    ensures
        r == sat_add_i64(a, b),
{
    let s: i128 = a as i128 + b as i128;
    if s > i64::MAX as i128 {
        i64::MAX
    } else if s < i64::MIN as i128 {
        i64::MIN
    } else {
        s as i64
    }
}

/// The first check an opening fails, if any, in the order they are made.
pub open spec fn open_error(t: BondTerms) -> Option<EscrowError> {
    if !t.routing.valid() {
        Some(EscrowError::InvalidRouting)
    } else if t.bond_amount == 0 {
        Some(EscrowError::ZeroBond)
    } else if is_unset(t.caller) {
        Some(EscrowError::UnnamedDestination)
    } else if t.deadline_unix <= 0 || t.resolve_grace_secs <= 0 {
        Some(EscrowError::UnboundedDeadline)
    } else if t.routing.to_insurance_bps != 0 && is_unset(t.insurance) {
        Some(EscrowError::UnnamedDestination)
    } else if t.routing.to_lineage_bps != 0 && is_unset(t.lineage) {
        Some(EscrowError::UnnamedDestination)
    } else {
        None
    }
}

/// Whether `e` is the record a successful opening of `t` creates: `Escrowed`, with the
/// terms recorded and no challenger, stake or outcome yet.
pub open spec fn opened(e: BondEscrow, t: BondTerms) -> bool {
    &&& e.agent == t.agent
    &&& e.caller == t.caller
    &&& e.authority == t.authority
    &&& is_unset(e.challenger)
    &&& e.insurance == t.insurance
    &&& e.lineage == t.lineage
    &&& e.digest == t.digest
    &&& e.bond_amount == t.bond_amount
    &&& e.challenger_stake == 0
    &&& e.min_out_raw == t.min_out_raw
    &&& e.deadline_unix == t.deadline_unix
    &&& e.dispute_window_secs == t.dispute_window_secs
    &&& e.resolve_grace_secs == t.resolve_grace_secs
    &&& e.window_closes_unix == 0
    &&& e.routing == t.routing
    &&& e.state == BondState::Escrowed
    &&& !e.provisional_honored
    &&& !e.final_slashed
}

/// Open a bond. Every slice that can be paid must name its party, and every state must
/// have a bounded way out, so an unset caller, a non-positive deadline or grace, and a
/// paid insurance or lineage slice with no party are refused.
pub fn escrow(t: &BondTerms) -> (r: Result<BondEscrow, EscrowError>)
    ensures
        match open_error(*t) {
            Some(err) => r == Err::<BondEscrow, EscrowError>(err),
            None => r is Ok && opened(r->Ok_0, *t),
        },
{
    if !t.routing.is_valid() {
        return Err(EscrowError::InvalidRouting);
    }
    if t.bond_amount == 0 {
        return Err(EscrowError::ZeroBond);
    }
    if key_is_unset(&t.caller) {
        return Err(EscrowError::UnnamedDestination);
    }
    if t.deadline_unix <= 0 || t.resolve_grace_secs <= 0 {
        return Err(EscrowError::UnboundedDeadline);
    }
    if t.routing.to_insurance_bps != 0 && key_is_unset(&t.insurance) {
        return Err(EscrowError::UnnamedDestination);
    }
    if t.routing.to_lineage_bps != 0 && key_is_unset(&t.lineage) {
        return Err(EscrowError::UnnamedDestination);
    }
    let e = BondEscrow {
        agent: t.agent,
        caller: t.caller,
        authority: t.authority,
        challenger: [0u8; 32],
        insurance: t.insurance,
        lineage: t.lineage,
        digest: t.digest,
        bond_amount: t.bond_amount,
        challenger_stake: 0,
        min_out_raw: t.min_out_raw,
        deadline_unix: t.deadline_unix,
        dispute_window_secs: t.dispute_window_secs,
        resolve_grace_secs: t.resolve_grace_secs,
        window_closes_unix: 0,
        routing: t.routing,
        state: BondState::Escrowed,
        provisional_honored: false,
        final_slashed: false,
    };
    Ok(e)
}

/// `mark_provisional` as a transition.
pub open spec fn mark_provisional_spec(e: BondEscrow, signer: Key, honored: bool, now: i64) -> Result<BondEscrow, EscrowError> {
    if signer@ != e.authority@ {
        Err(EscrowError::Unauthorized)
    } else if e.state != BondState::Escrowed {
        Err(EscrowError::BadState)
    } else {
        Ok(BondEscrow {
            state: BondState::Provisional,
            provisional_honored: honored,
            window_closes_unix: sat_add_i64(now, e.dispute_window_secs),
            ..e
        })
    }
}

/// Record a fill's provisional outcome and open the dispute window. Only the recorded
/// authority may, and only from `Escrowed`.
pub fn mark_provisional(e: &mut BondEscrow, signer: &Key, honored: bool, now: i64) -> (r: Result<(), EscrowError>)
    ensures
        match mark_provisional_spec(*old(e), *signer, honored, now) {
            Ok(n) => r is Ok && *final(e) == n,
            Err(err) => r == Err::<(), EscrowError>(err) && *final(e) == *old(e),
        },
{
    if !same_key(signer, &e.authority) {
        return Err(EscrowError::Unauthorized);
    }
    if e.state != BondState::Escrowed {
        return Err(EscrowError::BadState);
    }
    e.state = BondState::Provisional;
    e.provisional_honored = honored;
    e.window_closes_unix = add_clamped(now, e.dispute_window_secs);
    Ok(())
}

/// `file_challenge` as a transition.
pub open spec fn file_challenge_spec(e: BondEscrow, challenger: Key, stake: u64, now: i64) -> Result<BondEscrow, EscrowError> {
    if e.state != BondState::Provisional {
        Err(EscrowError::BadState)
    } else if !e.provisional_honored {
        Err(EscrowError::NothingToChallenge)
    } else if !(now < e.window_closes_unix) {
        Err(EscrowError::WindowClosed)
    } else if stake == 0 {
        Err(EscrowError::ZeroStake)
    } else {
        Ok(BondEscrow { state: BondState::Disputed, challenger, challenger_stake: stake, ..e })
    }
}

/// Stake against a provisionally honored bond while the window is open, moving it to
/// `Disputed`. A dishonored provisional has nothing to challenge, and a second
/// challenger finds the bond no longer `Provisional`.
pub fn file_challenge(e: &mut BondEscrow, challenger: &Key, stake: u64, now: i64) -> (r: Result<(), EscrowError>)
    ensures
        match file_challenge_spec(*old(e), *challenger, stake, now) {
            Ok(n) => r is Ok && *final(e) == n,
            Err(err) => r == Err::<(), EscrowError>(err) && *final(e) == *old(e),
        },
{
    if e.state != BondState::Provisional {
        return Err(EscrowError::BadState);
    }
    if !e.provisional_honored {
        return Err(EscrowError::NothingToChallenge);
    }
    if !(now < e.window_closes_unix) {
        return Err(EscrowError::WindowClosed);
    }
    if stake == 0 {
        return Err(EscrowError::ZeroStake);
    }
    e.state = BondState::Disputed;
    e.challenger = *challenger;
    e.challenger_stake = stake;
    Ok(())
}

/// `resolve` as a transition.
pub open spec fn resolve_spec(e: BondEscrow, signer: Key, challenger_won: bool) -> Result<BondEscrow, EscrowError> {
    if signer@ != e.authority@ {
        Err(EscrowError::Unauthorized)
    } else if e.state != BondState::Disputed {
        Err(EscrowError::BadState)
    } else {
        Ok(BondEscrow { state: BondState::Finalized, final_slashed: challenger_won, ..e })
    }
}

/// Resolve a dispute with the adjudicated truth: the challenger winning slashes the bond.
/// Authority only, from `Disputed`.
pub fn resolve(e: &mut BondEscrow, signer: &Key, challenger_won: bool) -> (r: Result<(), EscrowError>)
    ensures
        match resolve_spec(*old(e), *signer, challenger_won) {
            Ok(n) => r is Ok && *final(e) == n,
            Err(err) => r == Err::<(), EscrowError>(err) && *final(e) == *old(e),
        },
{
    if !same_key(signer, &e.authority) {
        return Err(EscrowError::Unauthorized);
    }
    if e.state != BondState::Disputed {
        return Err(EscrowError::BadState);
    }
    e.state = BondState::Finalized;
    e.final_slashed = challenger_won;
    Ok(())
}

/// `finalize_timeout` as a transition.
pub open spec fn finalize_timeout_spec(e: BondEscrow, now: i64) -> Result<BondEscrow, EscrowError> {
    match e.state {
        BondState::Provisional => if now >= e.window_closes_unix {
            Ok(BondEscrow { state: BondState::Finalized, final_slashed: !e.provisional_honored, ..e })
        } else {
            Err(EscrowError::WindowOpen)
        },
        BondState::Escrowed => if e.deadline_unix != 0 && now >= e.deadline_unix {
            Ok(BondEscrow { state: BondState::Finalized, final_slashed: true, ..e })
        } else {
            Err(EscrowError::DeadlineNotPassed)
        },
        BondState::Disputed => if now >= sat_add_i64(e.window_closes_unix, e.resolve_grace_secs) {
            Ok(BondEscrow { state: BondState::Finalized, final_slashed: true, ..e })
        } else {
            Err(EscrowError::WindowOpen)
        },
        BondState::Finalized => Err(EscrowError::BadState),
    }
}

/// Finalize a matured bond, permissionlessly: an unchallenged provisional outcome becomes
/// final once its window has passed; an unfilled bond past its deadline is slashed; a
/// dispute nobody resolved within the grace period is slashed.
pub fn finalize_timeout(e: &mut BondEscrow, now: i64) -> (r: Result<(), EscrowError>)
    ensures
        match finalize_timeout_spec(*old(e), now) {
            Ok(n) => r is Ok && *final(e) == n,
            Err(err) => r == Err::<(), EscrowError>(err) && *final(e) == *old(e),
        },
{
    match e.state {
        BondState::Provisional => {
            if !(now >= e.window_closes_unix) {
                return Err(EscrowError::WindowOpen);
            }
            e.final_slashed = !e.provisional_honored;
        },
        BondState::Escrowed => {
            if !(e.deadline_unix != 0 && now >= e.deadline_unix) {
                return Err(EscrowError::DeadlineNotPassed);
            }
            e.final_slashed = true;
        },
        BondState::Disputed => {
            if !(now >= add_clamped(e.window_closes_unix, e.resolve_grace_secs)) {
                return Err(EscrowError::WindowOpen);
            }
            e.final_slashed = true;
        },
        BondState::Finalized => {
            return Err(EscrowError::BadState);
        },
    }
    e.state = BondState::Finalized;
    Ok(())
}

/// Who a settlement transfer pays.
#[derive(Debug, Clone, Copy, PartialEq, Eq, Structural)]
pub enum Payee {
    Agent,
    Caller,
    Challenger,
    Insurance,
    Lineage,
}

/// One transfer out of the vault.
#[derive(Debug, Clone, Copy, PartialEq, Eq, Structural)]
pub struct Payout {
    pub to: Payee,
    pub amount: u64,
}

/// `a + b`, held to the range of `u64`.
pub open spec fn sat_add_u64(a: u64, b: u64) -> u64 {
    if a as int + b as int > u64::MAX { u64::MAX } else { (a + b) as u64 }
}

/// The transfers of a settlement, in order, before zero amounts are dropped: honored
/// returns bond and any forfeited stake to the agent; slashed splits the bond four ways,
/// and a challenger, when there is one, recovers its stake with its slice, which rolls to
/// the caller otherwise.
pub open spec fn settle_transfers(e: BondEscrow) -> Seq<Payout> {
    if !e.final_slashed {
        seq![Payout { to: Payee::Agent, amount: sat_add_u64(e.bond_amount, e.challenger_stake) }]
    } else {
        let d = e.routing.split_spec(e.bond_amount);
        seq![
            Payout { to: Payee::Caller, amount: d.caller },
            Payout { to: Payee::Insurance, amount: d.insurance },
            Payout { to: Payee::Lineage, amount: d.lineage },
            if e.challenger_stake > 0 || !is_unset(e.challenger) {
                Payout { to: Payee::Challenger, amount: sat_add_u64(d.challengers, e.challenger_stake) }
            } else {
                Payout { to: Payee::Caller, amount: d.challengers }
            },
        ]
    }
}

/// The transfers that move money: those with a non-zero amount, in order.
pub open spec fn nonzero(ps: Seq<Payout>) -> Seq<Payout>
    decreases ps.len(),
{
    if ps.len() == 0 {
        Seq::empty()
    } else if ps.last().amount == 0 {
        nonzero(ps.drop_last())
    } else {
        nonzero(ps.drop_last()).push(ps.last())
    }
}

/// The total of a list of transfers.
pub open spec fn total(ps: Seq<Payout>) -> int
    decreases ps.len(),
{
    if ps.len() == 0 { 0 } else { total(ps.drop_last()) + ps.last().amount }
}

/// Push a transfer when it moves money.
fn push_payout(out: &mut Vec<Payout>, p: Payout)
    ensures
        final(out)@ == (if p.amount == 0 { old(out)@ } else { old(out)@.push(p) }),
{
    if p.amount != 0 {
        out.push(p);
    }
}

/// `nonzero` of a list with one more transfer.
proof fn nonzero_push(ps: Seq<Payout>, p: Payout)
    ensures
        nonzero(ps.push(p)) == (if p.amount == 0 { nonzero(ps) } else { nonzero(ps).push(p) }),
{
    assert(ps.push(p).drop_last() =~= ps);
}

/// `total` of a list with one more transfer.
proof fn total_push(ps: Seq<Payout>, p: Payout)
    ensures
        total(ps.push(p)) == total(ps) + p.amount,
{
    assert(ps.push(p).drop_last() =~= ps);
}

/// The transfers that disburse a `Finalized` bond, which then closes. Permissionless.
pub fn settle(e: &BondEscrow) -> (r: Result<Vec<Payout>, EscrowError>)
    ensures
        e.state != BondState::Finalized ==> r == Err::<Vec<Payout>, EscrowError>(EscrowError::BadState),
        e.state == BondState::Finalized ==> r is Ok && r->Ok_0@ == nonzero(settle_transfers(*e)),
{
    if e.state != BondState::Finalized {
        return Err(EscrowError::BadState);
    }
    let ghost ts = settle_transfers(*e);
    let mut out: Vec<Payout> = Vec::new();
    assert(nonzero(Seq::<Payout>::empty()) =~= Seq::<Payout>::empty());
    if !e.final_slashed {
        let p = Payout { to: Payee::Agent, amount: e.bond_amount.saturating_add(e.challenger_stake) };
        push_payout(&mut out, p);
        proof {
            nonzero_push(Seq::empty(), p);
            assert(ts =~= Seq::<Payout>::empty().push(p));
        }
        return Ok(out);
    }
    let d = e.routing.distribute(e.bond_amount);
    let p0 = Payout { to: Payee::Caller, amount: d.caller };
    let p1 = Payout { to: Payee::Insurance, amount: d.insurance };
    let p2 = Payout { to: Payee::Lineage, amount: d.lineage };
    let p3 = if e.challenger_stake > 0 || !key_is_unset(&e.challenger) {
        Payout { to: Payee::Challenger, amount: d.challengers.saturating_add(e.challenger_stake) }
    } else {
        Payout { to: Payee::Caller, amount: d.challengers }
    };
    push_payout(&mut out, p0);
    push_payout(&mut out, p1);
    push_payout(&mut out, p2);
    push_payout(&mut out, p3);
    proof {
        let s0 = Seq::<Payout>::empty();
        nonzero_push(s0, p0);
        nonzero_push(s0.push(p0), p1);
        nonzero_push(s0.push(p0).push(p1), p2);
        nonzero_push(s0.push(p0).push(p1).push(p2), p3);
        assert(ts =~= s0.push(p0).push(p1).push(p2).push(p3));
    }
    Ok(out)
}

/// Dropping zero transfers changes no total.
proof fn nonzero_total(ps: Seq<Payout>)
    ensures
        total(nonzero(ps)) == total(ps),
    decreases ps.len(),
{
    if ps.len() > 0 {
        nonzero_total(ps.drop_last());
        if ps.last().amount != 0 {
            assert(nonzero(ps).drop_last() =~= nonzero(ps.drop_last()));
        }
    }
}

/// Settlement pays out exactly what the vault holds, the bond plus any challenge stake,
/// whichever way the bond finalized (given a valid routing, which opening enforces, and
/// a total that fits in a `u64`).
pub proof fn settle_pays_out_the_vault(e: BondEscrow)
    requires
        e.routing.valid(),
        e.bond_amount as int + e.challenger_stake as int <= u64::MAX,
    ensures
        total(nonzero(settle_transfers(e))) == e.bond_amount as int + e.challenger_stake as int,
{
    let ts = settle_transfers(e);
    nonzero_total(ts);
    let s0 = Seq::<Payout>::empty();
    if e.final_slashed {
        split_conserves_the_bond(e.routing, e.bond_amount);
        assert(ts =~= s0.push(ts[0]).push(ts[1]).push(ts[2]).push(ts[3]));
        total_push(s0, ts[0]);
        total_push(s0.push(ts[0]), ts[1]);
        total_push(s0.push(ts[0]).push(ts[1]), ts[2]);
        total_push(s0.push(ts[0]).push(ts[1]).push(ts[2]), ts[3]);
        if !(e.challenger_stake > 0 || !is_unset(e.challenger)) {
            assert(e.challenger_stake == 0);
        }
    } else {
        assert(ts =~= s0.push(ts[0]));
        total_push(s0, ts[0]);
    }
}

/// Every unfinalized bond can be finalized by anyone once enough time has passed: no
/// state needs a particular person to leave it (given the positive deadline and grace
/// that opening enforces).
pub proof fn every_bond_can_be_finalized(e: BondEscrow, now: i64)
    requires
        e.state != BondState::Finalized,
        e.deadline_unix > 0,
        e.state == BondState::Escrowed ==> now >= e.deadline_unix,
        e.state == BondState::Provisional ==> now >= e.window_closes_unix,
        e.state == BondState::Disputed ==> now >= sat_add_i64(e.window_closes_unix, e.resolve_grace_secs),
    ensures
        finalize_timeout_spec(e, now) is Ok,
        finalize_timeout_spec(e, now)->Ok_0.state == BondState::Finalized,
{
}

/// A finalized bond is final: no instruction but `settle` accepts it.
pub proof fn finalized_is_terminal(e: BondEscrow, signer: Key, challenger: Key, flag: bool, amount: u64, now: i64)
    requires
        e.state == BondState::Finalized,
    ensures
        signer@ == e.authority@ ==> mark_provisional_spec(e, signer, flag, now) == Err::<BondEscrow, EscrowError>(EscrowError::BadState),
        file_challenge_spec(e, challenger, amount, now) == Err::<BondEscrow, EscrowError>(EscrowError::BadState),
        signer@ == e.authority@ ==> resolve_spec(e, signer, flag) == Err::<BondEscrow, EscrowError>(EscrowError::BadState),
        finalize_timeout_spec(e, now) == Err::<BondEscrow, EscrowError>(EscrowError::BadState),
{
}

/// An unchallenged provisional outcome is what becomes final: a fill marked dishonored is
/// slashed when its window passes, and one marked honored is not.
pub proof fn unchallenged_outcome_stands(e: BondEscrow, signer: Key, honored: bool, marked_at: i64, now: i64)
    requires
        e.state == BondState::Escrowed,
        signer@ == e.authority@,
        mark_provisional_spec(e, signer, honored, marked_at) is Ok,
        now >= mark_provisional_spec(e, signer, honored, marked_at)->Ok_0.window_closes_unix,
    ensures
        finalize_timeout_spec(mark_provisional_spec(e, signer, honored, marked_at)->Ok_0, now) is Ok,
        finalize_timeout_spec(mark_provisional_spec(e, signer, honored, marked_at)->Ok_0, now)->Ok_0.final_slashed
            == !honored,
{
}

/// Only the recorded authority can record an outcome or resolve a dispute.
pub proof fn only_the_authority_decides(e: BondEscrow, signer: Key, flag: bool, now: i64)
    requires
        signer@ != e.authority@,
    ensures
        mark_provisional_spec(e, signer, flag, now) == Err::<BondEscrow, EscrowError>(EscrowError::Unauthorized),
        resolve_spec(e, signer, flag) == Err::<BondEscrow, EscrowError>(EscrowError::Unauthorized),
{
}

} // verus!
