//! The stake-weighted oracle: each assertion pins the deployment's policy
//! when it opens; a dispute opens a registration phase in which third
//! parties stake on a hidden side, then a reveal phase in which hidden sides
//! are disclosed and counted by stake.
//!
//! `TholosV2` holds what the deployed contract keeps in storage. Each entry
//! point checks its inputs in the contract's order, changes nothing when it
//! refuses, and returns the token movements the host must carry out. The
//! host computes the two digests the contract needs (of a policy's
//! canonical encoding, and of a vote's commitment preimage) and passes them
//! in.

use std::collections::HashMap;
use vstd::prelude::*;
use vstd::string::StringExecFns;

use crate::common::{net_deposit, same_address, Address, Transfer};

verus! {

pub const MAX_REGISTRATION_DURATION_SECS: u64 = 604_800;

pub const MAX_REVEAL_DURATION_SECS: u64 = 604_800;

/// Twenty-nine days: with registration windows of at most seven days, a
/// hard cap between one and about 4.1 times the window.
pub const MAX_ANTI_SNIPE_HARD_MAX_SECS: u64 = 2_505_600;

/// Seven days, as for the first version's challenge window.
pub const MAX_CHALLENGE_WINDOW_SECS: u64 = 604_800;

/// 1000 basis points (10 %) of the bond at most for the finalize reward.
pub const MAX_FINALIZE_REWARD_BPS: u32 = 1_000;

/// `i128::MAX / MAX_FINALIZE_REWARD_BPS`, so that the finalize reward's
/// multiply-before-divide stays within `i128`.
pub const MAX_BOND_AMOUNT: i128 = 170_141_183_460_469_231_731_687_303_715_884_105;

/// Basis points in one whole.
pub const BPS_DENOMINATOR: i128 = 10_000;

/// The single weighted round of this design; part of every vote
/// commitment so that the format need not change if rounds are added.
pub const ROUND: u32 = 0;

/// A 32-byte digest.
pub type Digest = [u8; 32];

/// Which weight rule an assertion's vote is decided under.
#[derive(Clone, Copy, Debug, PartialEq, Eq, Structural)]
pub enum WeightRuleVersion {
    /// `weight(address) = locked_bond(address)`.
    LinearStakeV1,
}

/// What happens if neither side reaches a strict majority by the reveal
/// deadline.
#[derive(Clone, Copy, Debug, PartialEq, Eq, Structural)]
pub enum TimeoutDefaultRule {
    AssertedOutcomeStands,
}

/// Version of the settlement formula.
#[derive(Clone, Copy, Debug, PartialEq, Eq, Structural)]
pub enum PayoutRuleVersion {
    ProRataV1,
}

/// The lifecycle phase of an assertion.
#[derive(Clone, Copy, Debug, PartialEq, Eq, Structural)]
pub enum PhaseV2 {
    Pending,
    Registration,
    Reveal,
    Resolved,
}

/// Why an assertion reached `Resolved`.
#[derive(Clone, Copy, Debug, PartialEq, Eq, Structural)]
pub enum TerminalCause {
    NotYetDecided,
    /// Never disputed within the challenge window; closed by `finalize`.
    UncontestedFinalize,
    StrictMajorityFor,
    StrictMajorityAgainst,
    OptimisticTimeout,
    AdminCancelled,
}

/// Which side a position is on: public for the asserter (`Fixed(true)`) and
/// the disputer (`Fixed(false)`), hidden behind a salted commitment for a
/// third party until it reveals.
#[derive(Clone, Copy, Debug, PartialEq, Eq)]
pub enum PositionKind {
    /// `true` if the position agrees with the asserted outcome.
    Fixed(bool),
    /// The commitment digest to the position's eventual side.
    External(Digest),
}

/// One address's stake on one dispute.
#[derive(Clone, Copy, Debug, PartialEq, Eq)]
pub struct Position {
    pub amount: i128,
    pub kind: PositionKind,
    /// Whether this position's weight has been counted into the tallies.
    pub revealed: bool,
}

/// A position together with the address that holds it.
#[derive(Clone, Debug)]
pub struct Stake {
    pub voter: Address,
    pub position: Position,
}

/// The registration and reveal bookkeeping of one disputed assertion.
#[derive(Clone, Copy, Debug, PartialEq, Eq, Structural)]
pub struct Resolution {
    pub registration_opened_at: u64,
    /// The soft cutoff, pushed out by qualifying late deposits, never past
    /// `registration_hard_deadline`.
    pub registration_deadline: u64,
    pub registration_hard_deadline: u64,
    /// The eligible total `W`: the sum of all positions' amounts.
    pub eligible_total: i128,
    /// 0 until reveal opens.
    pub reveal_opened_at: u64,
    /// 0 until reveal opens.
    pub reveal_deadline: u64,
    /// Weight revealed agreeing with the asserted outcome.
    pub agree_weight: i128,
    /// Weight revealed against the asserted outcome.
    pub disagree_weight: i128,
}

/// The deployment parameters, pinned in full onto every assertion when it
/// opens and never changed afterwards.
#[derive(Clone, Debug)]
pub struct PolicySnapshotV2 {
    pub token: Address,
    pub base_bond: i128,
    pub challenge_window_secs: u64,
    pub finalize_reward_bps: u32,
    /// Always equal to `base_bond`.
    pub min_resolution_bond: i128,
    pub registration_duration_secs: u64,
    pub anti_snipe_extension_secs: u64,
    pub anti_snipe_hard_max_secs: u64,
    pub reveal_duration_secs: u64,
    pub weight_rule: WeightRuleVersion,
    pub timeout_default: TimeoutDefaultRule,
    pub payout_rule: PayoutRuleVersion,
    pub max_position: i128,
    pub max_total_weight: i128,
}

#[derive(Clone, Debug)]
pub struct AssertionV2 {
    pub id: u64,
    pub asserter: Address,
    pub opened_at: u64,
    pub disputer: Option<Address>,
    pub outcome: bool,
    pub phase: PhaseV2,
    pub policy: PolicySnapshotV2,
    /// Digest of `policy`'s canonical encoding, taken when the assertion
    /// opened.
    pub policy_hash: Digest,
    pub terminal_cause: TerminalCause,
    pub final_outcome: Option<bool>,
    pub finalizer: Option<Address>,
}

#[derive(Clone, Copy, Debug, PartialEq, Eq, PartialOrd, Ord, Structural)]
pub enum Error {
    AlreadyInitialized,
    NotInitialized,
    AssertionNotFound,
    InvalidBondAmount,
    InvalidRegistrationDuration,
    InvalidRevealDuration,
    InvalidAntiSnipeParams,
    InvalidMaxPosition,
    InvalidMaxTotalWeight,
    InvalidChallengeWindow,
    InvalidFinalizeReward,
    NotPending,
    ChallengeWindowOpen,
    DisputerIsAsserter,
    NotRegistration,
    CannotRegisterAsFixedParty,
    InvalidPositionAmount,
    BelowMinimumResolutionBond,
    PositionExceedsMax,
    EligibleTotalExceedsMax,
    CommitmentMismatch,
    RegistrationClosed,
    RegistrationNotClosed,
    NotReveal,
    RevealClosed,
    AlreadyRevealed,
    CommitmentVerificationFailed,
    /// A dispute came after the assertion's challenge window had closed.
    ChallengeWindowClosed,
}

/// The deployment-wide settings written by `initialize`.
#[derive(Clone, Debug)]
pub struct DeploymentV2 {
    pub admin: Address,
    pub policy: PolicySnapshotV2,
    pub next_id: u64,
}

/// A claim was posted.
#[derive(Clone, Debug)]
pub struct Asserted {
    pub id: u64,
    pub asserter: Address,
    pub outcome: bool,
}

/// An undisputed claim was closed by `finalizer`, who was paid `reward`.
#[derive(Clone, Debug)]
pub struct Finalized {
    pub id: u64,
    pub outcome: bool,
    pub finalizer: Address,
    pub reward: i128,
}

/// A claim was disputed; registration is open until
/// `registration_deadline`.
#[derive(Clone, Debug)]
pub struct Disputed {
    pub id: u64,
    pub disputer: Address,
    pub registration_deadline: u64,
}

/// A third-party position was funded or topped up.
#[derive(Clone, Debug)]
pub struct PositionFunded {
    pub id: u64,
    pub voter: Address,
    /// The position's total after this deposit.
    pub amount: i128,
    /// The eligible total `W` after this deposit.
    pub eligible_total: i128,
}

/// The reveal phase opened, until `reveal_deadline`.
#[derive(Clone, Copy, Debug, PartialEq, Eq, Structural)]
pub struct RevealOpened {
    pub id: u64,
    pub reveal_deadline: u64,
}

/// A committed side was disclosed and counted.
#[derive(Clone, Debug)]
pub struct Revealed {
    pub id: u64,
    pub voter: Address,
    pub choice: bool,
}

/// One event the contract publishes.
#[derive(Clone, Debug)]
pub enum Event {
    Asserted(Asserted),
    Finalized(Finalized),
    Disputed(Disputed),
    PositionFunded(PositionFunded),
    RevealOpened(RevealOpened),
    Revealed(Revealed),
}

/// The contract's storage, with the events published so far, oldest
/// first.
pub struct TholosV2 {
    pub deployment: Option<DeploymentV2>,
    pub assertions: HashMap<u64, AssertionV2>,
    pub resolutions: HashMap<u64, Resolution>,
    /// The positions on each disputed assertion: the asserter's first, the
    /// disputer's second, then third parties in the order they joined.
    pub positions: HashMap<u64, Vec<Stake>>,
    pub events: Vec<Event>,
}

impl Resolution {
    /// `agree_weight + disagree_weight`.
    pub fn revealed_weight(&self) -> (r: i128)
        requires
            i128::MIN <= self.agree_weight + self.disagree_weight <= i128::MAX,
        ensures
            r == self.agree_weight + self.disagree_weight,
    {
        self.agree_weight + self.disagree_weight
    }
}

/// Why `initialize` refuses its arguments, in the contract's order of
/// checks, or `None` if it accepts them.
pub open spec fn init_error(
    initialized: bool,
    base_bond: i128,
    challenge_window_secs: u64,
    finalize_reward_bps: u32,
    registration_duration_secs: u64,
    anti_snipe_extension_secs: u64,
    anti_snipe_hard_max_secs: u64,
    reveal_duration_secs: u64,
    max_position: i128,
    max_total_weight: i128,
) -> Option<Error> {
    if initialized {
        Some(Error::AlreadyInitialized)
    } else if base_bond <= 0 || base_bond > MAX_BOND_AMOUNT {
        Some(Error::InvalidBondAmount)
    } else if challenge_window_secs == 0 || challenge_window_secs > MAX_CHALLENGE_WINDOW_SECS {
        Some(Error::InvalidChallengeWindow)
    } else if finalize_reward_bps > MAX_FINALIZE_REWARD_BPS {
        Some(Error::InvalidFinalizeReward)
    } else if registration_duration_secs == 0 || registration_duration_secs
        > MAX_REGISTRATION_DURATION_SECS {
        Some(Error::InvalidRegistrationDuration)
    } else if reveal_duration_secs == 0 || reveal_duration_secs > MAX_REVEAL_DURATION_SECS {
        Some(Error::InvalidRevealDuration)
    } else if anti_snipe_extension_secs > anti_snipe_hard_max_secs {
        Some(Error::InvalidAntiSnipeParams)
    } else if anti_snipe_hard_max_secs < registration_duration_secs || anti_snipe_hard_max_secs
        > MAX_ANTI_SNIPE_HARD_MAX_SECS {
        Some(Error::InvalidAntiSnipeParams)
    } else if max_total_weight <= 0 || max_total_weight > MAX_BOND_AMOUNT {
        Some(Error::InvalidMaxTotalWeight)
    } else if max_position <= 0 || max_position > max_total_weight {
        Some(Error::InvalidMaxPosition)
    } else {
        None
    }
}

impl PolicySnapshotV2 {
    /// A policy that `initialize` could have pinned.
    pub open spec fn wf(self) -> bool {
        &&& init_error(
            false,
            self.base_bond,
            self.challenge_window_secs,
            self.finalize_reward_bps,
            self.registration_duration_secs,
            self.anti_snipe_extension_secs,
            self.anti_snipe_hard_max_secs,
            self.reveal_duration_secs,
            self.max_position,
            self.max_total_weight,
        ) is None
        &&& self.min_resolution_bond == self.base_bond
        &&& self.weight_rule == WeightRuleVersion::LinearStakeV1
        &&& self.timeout_default == TimeoutDefaultRule::AssertedOutcomeStands
        &&& self.payout_rule == PayoutRuleVersion::ProRataV1
    }

    /// A copy of this policy.
    pub fn copy(&self) -> (r: PolicySnapshotV2)
        ensures
            r == *self,
    {
        PolicySnapshotV2 {
            token: self.token.clone(),
            base_bond: self.base_bond,
            challenge_window_secs: self.challenge_window_secs,
            finalize_reward_bps: self.finalize_reward_bps,
            min_resolution_bond: self.min_resolution_bond,
            registration_duration_secs: self.registration_duration_secs,
            anti_snipe_extension_secs: self.anti_snipe_extension_secs,
            anti_snipe_hard_max_secs: self.anti_snipe_hard_max_secs,
            reveal_duration_secs: self.reveal_duration_secs,
            weight_rule: self.weight_rule,
            timeout_default: self.timeout_default,
            payout_rule: self.payout_rule,
            max_position: self.max_position,
            max_total_weight: self.max_total_weight,
        }
    }
}

/// Sum of the amounts of `book`.
pub open spec fn total_amount(book: Seq<Stake>) -> int
    decreases book.len(),
{
    if book.len() == 0 {
        0
    } else {
        total_amount(book.drop_last()) + book.last().position.amount
    }
}

/// Sum of the amounts of the revealed positions of `book`.
pub open spec fn revealed_amount(book: Seq<Stake>) -> int
    decreases book.len(),
{
    if book.len() == 0 {
        0
    } else {
        revealed_amount(book.drop_last()) + if book.last().position.revealed {
            book.last().position.amount as int
        } else {
            0
        }
    }
}

/// `voter` holds a position in `book`.
pub open spec fn has_voter(book: Seq<Stake>, voter: Address) -> bool {
    exists|k: int| 0 <= k < book.len() && #[trigger] book[k].voter@ == voter@
}

/// The positions of a disputed assertion `a`: the asserter's, then the
/// disputer's (both public, for a bond each), then distinct third parties
/// with committed sides and amounts within the policy's bound.
pub open spec fn book_ok(book: Seq<Stake>, a: AssertionV2, revealed_phase: bool) -> bool {
    &&& book.len() >= 2
    &&& book[0].voter == a.asserter
    &&& book[0].position.amount == a.policy.base_bond
    &&& book[0].position.kind == PositionKind::Fixed(true)
    &&& book[0].position.revealed == revealed_phase
    &&& a.disputer matches Some(ds) && book[1].voter == ds
    &&& book[1].position.amount == a.policy.base_bond
    &&& book[1].position.kind == PositionKind::Fixed(false)
    &&& book[1].position.revealed == revealed_phase
    &&& forall|k: int| #![trigger book[k]] 2 <= k < book.len() ==> {
        &&& book[k].position.kind is External
        &&& 0 < book[k].position.amount <= a.policy.max_position
        &&& (!revealed_phase ==> !book[k].position.revealed)
    }
    &&& forall|j: int, k: int| 0 <= j < k < book.len() ==> #[trigger] book[j].voter@
        != #[trigger] book[k].voter@
}

impl AssertionV2 {
    /// The stored assertion under `id` is consistent with the deployment
    /// `d`, with its resolution `res` and with its positions `book`.
    pub open spec fn wf(
        self,
        id: u64,
        d: DeploymentV2,
        res: Option<Resolution>,
        book: Option<Seq<Stake>>,
    ) -> bool {
        &&& self.id == id
        &&& id < d.next_id
        &&& self.policy.wf()
        &&& match self.phase {
            PhaseV2::Pending => {
                &&& self.disputer is None
                &&& self.terminal_cause == TerminalCause::NotYetDecided
                &&& self.final_outcome is None
                &&& self.finalizer is None
                &&& res is None
                &&& book is None
            },
            PhaseV2::Resolved => {
                &&& self.disputer is None
                &&& self.terminal_cause == TerminalCause::UncontestedFinalize
                &&& self.final_outcome == Some(self.outcome)
                &&& self.finalizer is Some
                &&& res is None
                &&& book is None
            },
            PhaseV2::Registration | PhaseV2::Reveal => {
                let revealing = self.phase == PhaseV2::Reveal;
                &&& self.disputer matches Some(ds) && ds@ != self.asserter@
                &&& self.terminal_cause == TerminalCause::NotYetDecided
                &&& self.final_outcome is None
                &&& self.finalizer is None
                &&& res matches Some(r) && book matches Some(b) && {
                    &&& book_ok(b, self, revealing)
                    &&& r.eligible_total == total_amount(b)
                    &&& r.eligible_total <= 2 * MAX_BOND_AMOUNT
                    &&& r.registration_opened_at + self.policy.registration_duration_secs
                        <= r.registration_deadline
                    &&& r.registration_deadline <= r.registration_hard_deadline
                    &&& r.registration_hard_deadline == r.registration_opened_at
                        + self.policy.anti_snipe_hard_max_secs
                    &&& if revealing {
                        &&& r.reveal_deadline == r.reveal_opened_at
                            + self.policy.reveal_duration_secs
                        &&& r.agree_weight >= 0
                        &&& r.disagree_weight >= 0
                        &&& r.agree_weight + r.disagree_weight == revealed_amount(b)
                    } else {
                        &&& r.reveal_opened_at == 0
                        &&& r.reveal_deadline == 0
                        &&& r.agree_weight == 0
                        &&& r.disagree_weight == 0
                    }
                }
            },
        }
    }
}

impl TholosV2 {
    pub open spec fn wf(self) -> bool {
        &&& forall|id: u64| #[trigger]
            self.resolutions@.contains_key(id) ==> self.assertions@.contains_key(id)
        &&& forall|id: u64| #[trigger]
            self.positions@.contains_key(id) ==> self.assertions@.contains_key(id)
        &&& match self.deployment {
            None => self.assertions@.dom().is_empty(),
            Some(d) => {
                &&& d.policy.wf()
                &&& forall|id: u64| #[trigger]
                    self.assertions@.contains_key(id) ==> self.assertions@[id].wf(
                        id,
                        d,
                        self.resolution_of(id),
                        self.book_of(id),
                    )
            },
        }
    }

    /// Tokens escrowed for the assertion under `id`: its bond while
    /// pending, every position once disputed, none once resolved.
    pub open spec fn escrowed(self, id: u64) -> int {
        match self.assertions@[id].phase {
            PhaseV2::Pending => self.assertions@[id].policy.base_bond as int,
            PhaseV2::Resolved => 0,
            _ => self.resolutions@[id].eligible_total as int,
        }
    }

    pub open spec fn resolution_of(self, id: u64) -> Option<Resolution> {
        if self.resolutions@.contains_key(id) {
            Some(self.resolutions@[id])
        } else {
            None
        }
    }

    pub open spec fn book_of(self, id: u64) -> Option<Seq<Stake>> {
        if self.positions@.contains_key(id) {
            Some(self.positions@[id]@)
        } else {
            None
        }
    }
}


/// The finalize reward for a bond at `bps` basis points.
pub open spec fn finalize_reward(bond: i128, bps: u32) -> int {
    if bps > 0 {
        (bond * bps) / (BPS_DENOMINATOR as int)
    } else {
        0
    }
}

/// The payouts of an uncontested `finalize`: the reward to `caller` when
/// there is one, then the rest of the bond to `asserter`.
pub open spec fn finalize_payouts(caller: Address, asserter: Address, bond: i128, bps: u32) -> Seq<Transfer> {
    let reward = finalize_reward(bond, bps);
    if reward > 0 {
        seq![
            Transfer::Payout { to: caller, amount: reward as i128 },
            Transfer::Payout { to: asserter, amount: (bond - reward) as i128 },
        ]
    } else {
        seq![Transfer::Payout { to: asserter, amount: bond }]
    }
}

/// How far an assertion has come. An undisputed one goes from pending to
/// resolved directly.
pub open spec fn phase_rank(p: PhaseV2) -> int {
    match p {
        PhaseV2::Pending => 0,
        PhaseV2::Registration => 1,
        PhaseV2::Reveal => 2,
        PhaseV2::Resolved => 3,
    }
}

/// The eligible total of the assertion under `id`, and the holder and amount
/// of each of its positions, are the same in `pre` and `post`.
pub open spec fn stakes_frozen(pre: TholosV2, post: TholosV2, id: u64) -> bool {
    let b1 = pre.positions@[id]@;
    let b2 = post.positions@[id]@;
    &&& post.resolutions@[id].eligible_total == pre.resolutions@[id].eligible_total
    &&& b2.len() == b1.len()
    &&& forall|k: int| #![trigger b2[k]] 0 <= k < b1.len() ==> b2[k].voter == b1[k].voter
        && b2[k].position.amount == b1[k].position.amount
}

/// The revealed tallies of the assertion under `id` only grow from `pre` to
/// `post`; every position keeps its place and holder; a revealed position
/// stays revealed with the same amount, so its weight is counted once.
pub open spec fn tallies_advance(pre: TholosV2, post: TholosV2, id: u64) -> bool {
    let r1 = pre.resolutions@[id];
    let r2 = post.resolutions@[id];
    let b1 = pre.positions@[id]@;
    let b2 = post.positions@[id]@;
    &&& post.resolutions@.contains_key(id)
    &&& r1.agree_weight <= r2.agree_weight
    &&& r1.disagree_weight <= r2.disagree_weight
    &&& b1.len() <= b2.len()
    &&& forall|k: int| #![trigger b2[k]] 0 <= k < b1.len() ==> {
        &&& b2[k].voter@ == b1[k].voter@
        &&& b1[k].position.revealed ==> b2[k].position.revealed && b2[k].position.amount
            == b1[k].position.amount
    }
}

/// Every assertion of `pre` is still in `post`, in the same or a later
/// phase, with the same claim, poster, opening time, pinned policy and
/// policy digest; once disputed, its disputer stays; once revealing, its
/// eligible total and every position's holder and amount are frozen; its
/// tallies only grow and no reveal is undone; once resolved, it is
/// unchanged.
pub open spec fn assertions_advance(pre: TholosV2, post: TholosV2) -> bool {
    forall|id: u64| #[trigger] pre.assertions@.contains_key(id) ==> {
        let a = pre.assertions@[id];
        let b = post.assertions@[id];
        &&& post.assertions@.contains_key(id)
        &&& phase_rank(a.phase) <= phase_rank(b.phase)
        &&& b.asserter == a.asserter && b.outcome == a.outcome && b.opened_at == a.opened_at
        &&& b.policy == a.policy && b.policy_hash == a.policy_hash
        &&& a.disputer is Some ==> b.disputer == a.disputer
        &&& a.phase == PhaseV2::Reveal ==> stakes_frozen(pre, post, id)
        &&& pre.resolutions@.contains_key(id) ==> tallies_advance(pre, post, id)
        &&& a.phase == PhaseV2::Resolved ==> b == a
    }
}

/// What a successful reveal publishes: the opening of the reveal phase
/// when this reveal opened it, then the reveal itself.
pub open spec fn reveal_events(id: u64, opening: bool, reveal_deadline: u64, voter: Address, choice: bool) -> Seq<
    Event,
> {
    let revealed = Event::Revealed(Revealed { id, voter, choice });
    if opening {
        seq![Event::RevealOpened(RevealOpened { id, reveal_deadline }), revealed]
    } else {
        seq![revealed]
    }
}

/// The two states hold the same settings, assertions, resolutions,
/// positions and events.
pub open spec fn same_state(a: TholosV2, b: TholosV2) -> bool {
    &&& a.deployment == b.deployment
    &&& a.assertions@ == b.assertions@
    &&& a.resolutions@ == b.resolutions@
    &&& a.positions@ == b.positions@
    &&& a.events@ == b.events@
}

/// Where `voter` holds a position in `book`.
fn find_voter(book: &Vec<Stake>, voter: &Address) -> (r: Option<usize>)
    ensures
        match r {
            Some(k) => k < book@.len() && book@[k as int].voter@ == voter@,
            None => !has_voter(book@, *voter),
        },
{
    let mut k: usize = 0;
    while k < book.len()
        invariant
            k <= book@.len(),
            forall|j: int| 0 <= j < k ==> book@[j].voter@ != voter@,
        decreases book.len() - k,
    {
        if same_address(&book[k].voter, voter) {
            return Some(k);
        }
        k = k + 1;
    }
    None
}

/// Whether two digests are equal.
fn digest_eq(a: &Digest, b: &Digest) -> (r: bool)
    ensures
        r == (a@ == b@),
{
    let mut i: usize = 0;
    while i < 32
        invariant
            i <= 32,
            forall|j: int| 0 <= j < i ==> a@[j] == b@[j],
        decreases 32 - i,
    {
        if a[i] != b[i] {
            return false;
        }
        i = i + 1;
    }
    assert(a@ =~= b@);
    true
}

/// Where `voter`'s position sits in `book` (meaningful when it has one).
pub open spec fn voter_index(book: Seq<Stake>, voter: Address) -> int {
    choose|k: int| 0 <= k < book.len() && #[trigger] book[k].voter@ == voter@
}

/// The amount `voter` already has at stake in `book`, 0 if none.
pub open spec fn staked_amount(book: Seq<Stake>, voter: Address) -> int {
    if has_voter(book, voter) {
        book[voter_index(book, voter)].position.amount as int
    } else {
        0
    }
}

/// The registration deadline after a deposit at `now`: a deposit within
/// `extension` of the current deadline pushes it to `now + extension`,
/// never past `hard_deadline`.
pub open spec fn extended_deadline(deadline: u64, hard_deadline: u64, extension: u64, now: u64) -> int {
    if now >= deadline.saturating_sub(extension) {
        if now + extension < hard_deadline {
            now + extension
        } else {
            hard_deadline as int
        }
    } else {
        deadline as int
    }
}

/// The registration deadline after a deposit of `amount` at `now`: only a
/// qualifying deposit, of at least `min_resolution_bond`, may extend it.
pub open spec fn deadline_after_deposit(res: Resolution, pol: PolicySnapshotV2, amount: i128, now: u64) -> u64 {
    if amount >= pol.min_resolution_bond {
        extended_deadline(
            res.registration_deadline,
            res.registration_hard_deadline,
            pol.anti_snipe_extension_secs,
            now,
        ) as u64
    } else {
        res.registration_deadline
    }
}

/// `s` with its weight counted.
pub open spec fn mark_revealed(s: Stake) -> Stake {
    Stake { voter: s.voter, position: Position { revealed: true, ..s.position } }
}

/// A book in which nothing has been revealed has no revealed weight.
proof fn lemma_nothing_revealed(b: Seq<Stake>)
    requires
        forall|k: int| 0 <= k < b.len() ==> !(#[trigger] b[k]).position.revealed,
    ensures
        revealed_amount(b) == 0,
    decreases b.len(),
{
    if b.len() > 0 {
        let c = b.drop_last();
        assert forall|k: int| 0 <= k < c.len() implies !(#[trigger] c[k]).position.revealed by {
            assert(c[k] == b[k]);
        }
        lemma_nothing_revealed(c);
        assert(b.last() == b[b.len() - 1]);
    }
}

/// Counts a public position into the tally of its side.
fn tally_fixed(resolution: &mut Resolution, position: Position)
    requires
        0 <= old(resolution).agree_weight <= 2 * MAX_BOND_AMOUNT,
        0 <= old(resolution).disagree_weight <= 2 * MAX_BOND_AMOUNT,
        0 <= position.amount <= MAX_BOND_AMOUNT,
    ensures
        *final(resolution) == match position.kind {
            PositionKind::Fixed(true) => Resolution {
                agree_weight: (old(resolution).agree_weight + position.amount) as i128,
                ..*old(resolution)
            },
            PositionKind::Fixed(false) => Resolution {
                disagree_weight: (old(resolution).disagree_weight + position.amount) as i128,
                ..*old(resolution)
            },
            PositionKind::External(_) => *old(resolution),
        },
{
    if let PositionKind::Fixed(agrees_with_asserter) = position.kind {
        if agrees_with_asserter {
            resolution.agree_weight = resolution.agree_weight + position.amount;
        } else {
            resolution.disagree_weight = resolution.disagree_weight + position.amount;
        }
    }
}

/// A copy of `s` with its weight counted.
fn revealed_stake(s: &Stake) -> (r: Stake)
    ensures
        r == mark_revealed(*s),
{
    Stake { voter: s.voter.clone(), position: Position { revealed: true, ..s.position } }
}

proof fn lemma_total_update(b: Seq<Stake>, k: int, s: Stake)
    requires
        0 <= k < b.len(),
    ensures
        total_amount(b.update(k, s)) == total_amount(b) - b[k].position.amount
            + s.position.amount,
    decreases b.len(),
{
    if k == b.len() - 1 {
        assert(b.update(k, s).drop_last() =~= b.drop_last());
    } else {
        lemma_total_update(b.drop_last(), k, s);
        assert(b.update(k, s).drop_last() =~= b.drop_last().update(k, s));
    }
}

proof fn lemma_revealed_update(b: Seq<Stake>, k: int, s: Stake)
    requires
        0 <= k < b.len(),
    ensures
        revealed_amount(b.update(k, s)) == revealed_amount(b) - (if b[k].position.revealed {
            b[k].position.amount as int
        } else {
            0
        }) + (if s.position.revealed {
            s.position.amount as int
        } else {
            0
        }),
    decreases b.len(),
{
    if k == b.len() - 1 {
        assert(b.update(k, s).drop_last() =~= b.drop_last());
    } else {
        lemma_revealed_update(b.drop_last(), k, s);
        assert(b.update(k, s).drop_last() =~= b.drop_last().update(k, s));
    }
}

/// With no negative amounts, the revealed part of a book is at most its
/// total and neither is negative.
proof fn lemma_revealed_le_total(b: Seq<Stake>)
    requires
        forall|k: int| 0 <= k < b.len() ==> #[trigger] b[k].position.amount >= 0,
    ensures
        0 <= revealed_amount(b) <= total_amount(b),
    decreases b.len(),
{
    if b.len() > 0 {
        let c = b.drop_last();
        assert forall|k: int| 0 <= k < c.len() implies #[trigger] c[k].position.amount >= 0 by {
            assert(c[k] == b[k]);
        }
        lemma_revealed_le_total(c);
        assert(b.last() == b[b.len() - 1]);
    }
}

impl TholosV2 {
    /// A freshly deployed, uninitialized contract.
    pub fn new() -> (t: TholosV2)
        ensures
            t.deployment is None,
            t.assertions@ == Map::<u64, AssertionV2>::empty(),
            t.resolutions@ == Map::<u64, Resolution>::empty(),
            t.positions@ == Map::<u64, Vec<Stake>>::empty(),
            t.events@ == Seq::<Event>::empty(),
            t.wf(),
    {
        TholosV2 {
            deployment: None,
            assertions: HashMap::new(),
            resolutions: HashMap::new(),
            positions: HashMap::new(),
            events: Vec::new(),
        }
    }

    /// One-time setup, pinning the defaults every later assertion's policy
    /// snapshot is built from. `min_resolution_bond` is set to `base_bond`.
    /// The host requires `admin`'s signature before anything is checked.
    pub fn initialize(
        &mut self,
        admin: Address,
        token: Address,
        base_bond: i128,
        challenge_window_secs: u64,
        finalize_reward_bps: u32,
        registration_duration_secs: u64,
        anti_snipe_extension_secs: u64,
        anti_snipe_hard_max_secs: u64,
        reveal_duration_secs: u64,
        max_position: i128,
        max_total_weight: i128,
    ) -> (r: Result<(), Error>)
        requires
            old(self).wf(),
        ensures
            final(self).wf(),
            assertions_advance(*old(self), *final(self)),
            final(self).assertions@ == old(self).assertions@,
            final(self).resolutions@ == old(self).resolutions@,
            final(self).positions@ == old(self).positions@,
            final(self).events@ == old(self).events@,
            ({
                let err = init_error(
                    old(self).deployment is Some,
                    base_bond,
                    challenge_window_secs,
                    finalize_reward_bps,
                    registration_duration_secs,
                    anti_snipe_extension_secs,
                    anti_snipe_hard_max_secs,
                    reveal_duration_secs,
                    max_position,
                    max_total_weight,
                );
                match r {
                    Err(e) => err == Some(e) && final(self).deployment == old(self).deployment,
                    Ok(()) => err is None && final(self).deployment == Some(
                        (DeploymentV2 {
                            admin,
                            policy: PolicySnapshotV2 {
                                token,
                                base_bond,
                                challenge_window_secs,
                                finalize_reward_bps,
                                min_resolution_bond: base_bond,
                                registration_duration_secs,
                                anti_snipe_extension_secs,
                                anti_snipe_hard_max_secs,
                                reveal_duration_secs,
                                weight_rule: WeightRuleVersion::LinearStakeV1,
                                timeout_default: TimeoutDefaultRule::AssertedOutcomeStands,
                                payout_rule: PayoutRuleVersion::ProRataV1,
                                max_position,
                                max_total_weight,
                            },
                            next_id: 0,
                        }),
                    ),
                }
            }),
    {
        if self.deployment.is_some() {
            return Err(Error::AlreadyInitialized);
        }
        if base_bond <= 0 || base_bond > MAX_BOND_AMOUNT {
            return Err(Error::InvalidBondAmount);
        }
        if challenge_window_secs == 0 || challenge_window_secs > MAX_CHALLENGE_WINDOW_SECS {
            return Err(Error::InvalidChallengeWindow);
        }
        if finalize_reward_bps > MAX_FINALIZE_REWARD_BPS {
            return Err(Error::InvalidFinalizeReward);
        }
        if registration_duration_secs == 0 || registration_duration_secs
            > MAX_REGISTRATION_DURATION_SECS {
            return Err(Error::InvalidRegistrationDuration);
        }
        if reveal_duration_secs == 0 || reveal_duration_secs > MAX_REVEAL_DURATION_SECS {
            return Err(Error::InvalidRevealDuration);
        }
        if anti_snipe_extension_secs > anti_snipe_hard_max_secs {
            return Err(Error::InvalidAntiSnipeParams);
        }
        // The hard deadline is measured from the opening of registration;
        // one shorter than the ordinary window would precede the soft
        // deadline before any extension. The upper bound keeps the delay a
        // run of extensions can buy a small multiple of the window.
        if anti_snipe_hard_max_secs < registration_duration_secs || anti_snipe_hard_max_secs
            > MAX_ANTI_SNIPE_HARD_MAX_SECS {
            return Err(Error::InvalidAntiSnipeParams);
        }
        // Checked before `max_position`, which is compared against it.
        if max_total_weight <= 0 || max_total_weight > MAX_BOND_AMOUNT {
            return Err(Error::InvalidMaxTotalWeight);
        }
        if max_position <= 0 || max_position > max_total_weight {
            return Err(Error::InvalidMaxPosition);
        }
        let policy = PolicySnapshotV2 {
            token,
            base_bond,
            challenge_window_secs,
            finalize_reward_bps,
            min_resolution_bond: base_bond,
            registration_duration_secs,
            anti_snipe_extension_secs,
            anti_snipe_hard_max_secs,
            reveal_duration_secs,
            weight_rule: WeightRuleVersion::LinearStakeV1,
            timeout_default: TimeoutDefaultRule::AssertedOutcomeStands,
            payout_rule: PayoutRuleVersion::ProRataV1,
            max_position,
            max_total_weight,
        };
        self.deployment = Some(DeploymentV2 { admin, policy, next_id: 0 });
        Ok(())
    }

    /// The policy new assertions are currently pinned from.
    pub fn get_policy(&self) -> (r: Result<&PolicySnapshotV2, Error>)
        ensures
            match self.deployment {
                Some(d) => r == Ok::<&PolicySnapshotV2, Error>(&d.policy),
                None => r == Err::<&PolicySnapshotV2, Error>(Error::NotInitialized),
            },
    {
        match &self.deployment {
            Some(d) => Ok(&d.policy),
            None => Err(Error::NotInitialized),
        }
    }

    /// The assertion under `id`.
    pub fn get_assertion(&self, id: u64) -> (r: Result<&AssertionV2, Error>)
        ensures
            match r {
                Ok(a) => self.assertions@.contains_key(id) && *a == self.assertions@[id],
                Err(e) => !self.assertions@.contains_key(id) && e == Error::AssertionNotFound,
            },
    {
        match self.assertions.get(&id) {
            Some(a) => Ok(a),
            None => Err(Error::AssertionNotFound),
        }
    }

    /// The registration and reveal bookkeeping of the assertion under `id`,
    /// which exists once it has been disputed.
    pub fn get_resolution(&self, id: u64) -> (r: Result<&Resolution, Error>)
        ensures
            match r {
                Ok(res) => self.resolutions@.contains_key(id) && *res == self.resolutions@[id],
                Err(e) => !self.resolutions@.contains_key(id) && e == Error::AssertionNotFound,
            },
    {
        match self.resolutions.get(&id) {
            Some(res) => Ok(res),
            None => Err(Error::AssertionNotFound),
        }
    }

    /// `address`'s position on the assertion under `id`.
    pub fn get_position(&self, id: u64, address: &Address) -> (r: Result<&Position, Error>)
        ensures
            match r {
                Ok(p) => self.positions@.contains_key(id) && exists|k: int|
                    0 <= k < self.positions@[id]@.len() && #[trigger] self.positions@[id]@[k].voter@
                        == address@ && *p == self.positions@[id]@[k].position,
                Err(e) => e == Error::AssertionNotFound && !(self.positions@.contains_key(id)
                    && has_voter(self.positions@[id]@, *address)),
            },
    {
        match self.positions.get(&id) {
            None => Err(Error::AssertionNotFound),
            Some(book) => match find_voter(book, address) {
                Some(k) => Ok(&book[k].position),
                None => Err(Error::AssertionNotFound),
            },
        }
    }

    /// Posts a bonded claim at ledger time `now`, pinning the current policy
    /// and `policy_hash`, the host's digest of that policy's canonical
    /// encoding. Returns the new id and the bond deposit the host must
    /// collect from `asserter`, whose signature it requires.
    pub fn assert_outcome(
        &mut self,
        asserter: Address,
        outcome: bool,
        now: u64,
        policy_hash: Digest,
    ) -> (r: Result<(u64, Vec<Transfer>), Error>)
        requires
            old(self).wf(),
            old(self).deployment matches Some(d) ==> d.next_id < u64::MAX,
        ensures
            final(self).wf(),
            assertions_advance(*old(self), *final(self)),
            final(self).resolutions@ == old(self).resolutions@,
            final(self).positions@ == old(self).positions@,
            match old(self).deployment {
                None => r == Err::<(u64, Vec<Transfer>), Error>(Error::NotInitialized) && same_state(
                    *final(self),
                    *old(self),
                ),
                Some(d) => {
                    &&& final(self).deployment == Some(
                        (DeploymentV2 { next_id: (d.next_id + 1) as u64, ..d }),
                    )
                    &&& r matches Ok((id, ts)) && {
                        &&& id == d.next_id
                        &&& !old(self).assertions@.contains_key(id)
                        &&& final(self).assertions@ == old(self).assertions@.insert(
                            id,
                            AssertionV2 {
                                id,
                                asserter,
                                opened_at: now,
                                disputer: None,
                                outcome,
                                phase: PhaseV2::Pending,
                                policy: d.policy,
                                policy_hash,
                                terminal_cause: TerminalCause::NotYetDecided,
                                final_outcome: None,
                                finalizer: None,
                            },
                        )
                        &&& ts@ == seq![Transfer::Deposit { from: asserter, amount: d.policy.base_bond }]
                        &&& net_deposit(ts@) == final(self).escrowed(id)
                        &&& final(self).events@ == old(self).events@.push(
                            Event::Asserted(Asserted { id, asserter, outcome }),
                        )
                    }
                },
            },
    {
        let d = match self.deployment.as_mut() {
            None => return Err(Error::NotInitialized),
            Some(d) => d,
        };
        let policy = d.policy.copy();
        let id = d.next_id;
        d.next_id = id + 1;
        let bond = policy.base_bond;
        let assertion = AssertionV2 {
            id,
            asserter: asserter.clone(),
            opened_at: now,
            disputer: None,
            outcome,
            phase: PhaseV2::Pending,
            policy,
            policy_hash,
            terminal_cause: TerminalCause::NotYetDecided,
            final_outcome: None,
            finalizer: None,
        };
        self.assertions.insert(id, assertion);
        self.events.push(Event::Asserted(Asserted { id, asserter: asserter.clone(), outcome }));
        let mut ts: Vec<Transfer> = Vec::new();
        ts.push(Transfer::Deposit { from: asserter, amount: bond });
        proof {
            reveal_with_fuel(net_deposit, 2);
        }
        Ok((id, ts))
    }

    /// Finalizes a pending assertion once its challenge window has passed,
    /// at ledger time `now`. `caller` is recorded as the finalizer (the host
    /// always requires its signature) and receives `bond *
    /// finalize_reward_bps / 10_000` when that is positive; the asserter
    /// receives the rest. Returns the asserted outcome and the payouts.
    pub fn finalize(&mut self, caller: Address, id: u64, now: u64) -> (r: Result<
        (bool, Vec<Transfer>),
        Error,
    >)
        requires
            old(self).wf(),
            old(self).assertions@.contains_key(id) ==> old(self).assertions@[id].opened_at
                + old(self).assertions@[id].policy.challenge_window_secs <= u64::MAX,
        ensures
            final(self).wf(),
            assertions_advance(*old(self), *final(self)),
            final(self).deployment == old(self).deployment,
            final(self).resolutions@ == old(self).resolutions@,
            final(self).positions@ == old(self).positions@,
            ({
                let a = old(self).assertions@[id];
                if !old(self).assertions@.contains_key(id) {
                    r == Err::<(bool, Vec<Transfer>), Error>(Error::AssertionNotFound)
                        && same_state(*final(self), *old(self))
                } else if a.phase != PhaseV2::Pending {
                    r == Err::<(bool, Vec<Transfer>), Error>(Error::NotPending) && same_state(
                        *final(self),
                        *old(self),
                    )
                } else if now <= a.opened_at + a.policy.challenge_window_secs {
                    r == Err::<(bool, Vec<Transfer>), Error>(Error::ChallengeWindowOpen)
                        && same_state(*final(self), *old(self))
                } else {
                    &&& final(self).assertions@ == old(self).assertions@.insert(
                        id,
                        AssertionV2 {
                            phase: PhaseV2::Resolved,
                            terminal_cause: TerminalCause::UncontestedFinalize,
                            final_outcome: Some(a.outcome),
                            finalizer: Some(caller),
                            ..a
                        },
                    )
                    &&& r matches Ok((outcome, ts)) && {
                        &&& outcome == a.outcome
                        &&& ts@ == finalize_payouts(
                            caller,
                            a.asserter,
                            a.policy.base_bond,
                            a.policy.finalize_reward_bps,
                        )
                        &&& net_deposit(ts@) == final(self).escrowed(id) - old(self).escrowed(id)
                    }
                    &&& final(self).events@ == old(self).events@.push(
                        Event::Finalized(
                            Finalized {
                                id,
                                outcome: a.outcome,
                                finalizer: caller,
                                reward: finalize_reward(a.policy.base_bond, a.policy.finalize_reward_bps)
                                    as i128,
                            },
                        ),
                    )
                }
            }),
    {
        let (phase, opened_at, window, bond, reward_bps, outcome) = match self.assertions.get(&id) {
            None => return Err(Error::AssertionNotFound),
            Some(a) => (
                a.phase,
                a.opened_at,
                a.policy.challenge_window_secs,
                a.policy.base_bond,
                a.policy.finalize_reward_bps,
                a.outcome,
            ),
        };
        if phase != PhaseV2::Pending {
            return Err(Error::NotPending);
        }
        if now <= opened_at + window {
            return Err(Error::ChallengeWindowOpen);
        }
        proof {
            assert(bond * reward_bps <= MAX_BOND_AMOUNT * MAX_FINALIZE_REWARD_BPS) by (nonlinear_arith)
                requires
                    0 < bond <= MAX_BOND_AMOUNT,
                    reward_bps <= MAX_FINALIZE_REWARD_BPS,
            ;
            assert(0 <= (bond * reward_bps) / 10_000 <= bond / 10) by (nonlinear_arith)
                requires
                    0 < bond,
                    reward_bps <= 1_000,
            ;
        }
        let reward: i128 = if reward_bps > 0 {
            bond * (reward_bps as i128) / BPS_DENOMINATOR
        } else {
            0
        };
        let mut a = match self.assertions.remove(&id) {
            None => return Err(Error::AssertionNotFound),
            Some(a) => a,
        };
        let asserter = a.asserter.clone();
        a.phase = PhaseV2::Resolved;
        a.terminal_cause = TerminalCause::UncontestedFinalize;
        a.final_outcome = Some(outcome);
        a.finalizer = Some(caller.clone());
        self.assertions.insert(id, a);
        self.events.push(
            Event::Finalized(Finalized { id, outcome, finalizer: caller.clone(), reward }),
        );
        let mut ts: Vec<Transfer> = Vec::new();
        if reward > 0 {
            ts.push(Transfer::Payout { to: caller, amount: reward });
        }
        ts.push(Transfer::Payout { to: asserter, amount: bond - reward });
        proof {
            reveal_with_fuel(net_deposit, 3);
        }
        Ok((outcome, ts))
    }

    /// Disputes a pending assertion at ledger time `now`, at the latest at
    /// the end of its challenge window, opening its registration phase. The asserter and the disputer each hold a public
    /// position of one bond; the eligible total starts at both. Returns the
    /// bond deposit the host must collect from `disputer`, whose signature
    /// it requires.
    pub fn dispute(&mut self, disputer: Address, id: u64, now: u64) -> (r: Result<Vec<Transfer>, Error>)
        requires
            old(self).wf(),
            old(self).assertions@.contains_key(id) ==> now
                + old(self).assertions@[id].policy.anti_snipe_hard_max_secs <= u64::MAX,
        ensures
            final(self).wf(),
            assertions_advance(*old(self), *final(self)),
            final(self).deployment == old(self).deployment,
            ({
                let a = old(self).assertions@[id];
                let bond = a.policy.base_bond;
                if !old(self).assertions@.contains_key(id) {
                    r == Err::<Vec<Transfer>, Error>(Error::AssertionNotFound) && same_state(
                        *final(self),
                        *old(self),
                    )
                } else if a.phase != PhaseV2::Pending {
                    r == Err::<Vec<Transfer>, Error>(Error::NotPending) && same_state(
                        *final(self),
                        *old(self),
                    )
                } else if disputer@ == a.asserter@ {
                    r == Err::<Vec<Transfer>, Error>(Error::DisputerIsAsserter) && same_state(
                        *final(self),
                        *old(self),
                    )
                } else if now > a.opened_at + a.policy.challenge_window_secs {
                    r == Err::<Vec<Transfer>, Error>(Error::ChallengeWindowClosed) && same_state(
                        *final(self),
                        *old(self),
                    )
                } else {
                    &&& final(self).assertions@ == old(self).assertions@.insert(
                        id,
                        AssertionV2 { disputer: Some(disputer), phase: PhaseV2::Registration, ..a },
                    )
                    &&& final(self).resolutions@ == old(self).resolutions@.insert(
                        id,
                        Resolution {
                            registration_opened_at: now,
                            registration_deadline: (now + a.policy.registration_duration_secs) as u64,
                            registration_hard_deadline: (now + a.policy.anti_snipe_hard_max_secs) as u64,
                            eligible_total: (2 * bond) as i128,
                            reveal_opened_at: 0,
                            reveal_deadline: 0,
                            agree_weight: 0,
                            disagree_weight: 0,
                        },
                    )
                    &&& final(self).positions@ == old(self).positions@.insert(
                        id,
                        final(self).positions@[id],
                    )
                    &&& final(self).positions@[id]@ == seq![
                        Stake {
                            voter: a.asserter,
                            position: Position { amount: bond, kind: PositionKind::Fixed(true), revealed: false },
                        },
                        Stake {
                            voter: disputer,
                            position: Position { amount: bond, kind: PositionKind::Fixed(false), revealed: false },
                        },
                    ]
                    &&& r matches Ok(ts) && {
                        &&& ts@ == seq![Transfer::Deposit { from: disputer, amount: bond }]
                        &&& net_deposit(ts@) == final(self).escrowed(id) - old(self).escrowed(id)
                    }
                    &&& final(self).events@ == old(self).events@.push(
                        Event::Disputed(
                            Disputed {
                                id,
                                disputer,
                                registration_deadline: (now + a.policy.registration_duration_secs) as u64,
                            },
                        ),
                    )
                }
            }),
    {
        let (asserter, bond, registration, hard_max) = match self.assertions.get(&id) {
            None => return Err(Error::AssertionNotFound),
            Some(a) => {
                if a.phase != PhaseV2::Pending {
                    return Err(Error::NotPending);
                }
                if same_address(&disputer, &a.asserter) {
                    return Err(Error::DisputerIsAsserter);
                }
                // The challenge window gates whether a dispute can start at
                // all; after it, only `finalize` applies.
                if now > a.opened_at && now - a.opened_at > a.policy.challenge_window_secs {
                    return Err(Error::ChallengeWindowClosed);
                }
                (
                    a.asserter.clone(),
                    a.policy.base_bond,
                    a.policy.registration_duration_secs,
                    a.policy.anti_snipe_hard_max_secs,
                )
            },
        };
        let mut a = match self.assertions.remove(&id) {
            None => return Err(Error::AssertionNotFound),
            Some(a) => a,
        };
        a.disputer = Some(disputer.clone());
        a.phase = PhaseV2::Registration;
        self.assertions.insert(id, a);
        let mut book: Vec<Stake> = Vec::new();
        book.push(
            Stake {
                voter: asserter,
                position: Position { amount: bond, kind: PositionKind::Fixed(true), revealed: false },
            },
        );
        book.push(
            Stake {
                voter: disputer.clone(),
                position: Position { amount: bond, kind: PositionKind::Fixed(false), revealed: false },
            },
        );
        self.positions.insert(id, book);
        let resolution = Resolution {
            registration_opened_at: now,
            registration_deadline: now + registration,
            registration_hard_deadline: now + hard_max,
            eligible_total: bond * 2,
            reveal_opened_at: 0,
            reveal_deadline: 0,
            agree_weight: 0,
            disagree_weight: 0,
        };
        self.resolutions.insert(id, resolution);
        self.events.push(
            Event::Disputed(
                Disputed {
                    id,
                    disputer: disputer.clone(),
                    registration_deadline: resolution.registration_deadline,
                },
            ),
        );
        let mut ts: Vec<Transfer> = Vec::new();
        ts.push(Transfer::Deposit { from: disputer, amount: bond });
        proof {
            reveal_with_fuel(net_deposit, 2);
            reveal_with_fuel(total_amount, 3);
            assert(self.positions@ =~= old(self).positions@.insert(id, self.positions@[id]));
            let book = self.positions@[id]@;
            assert(book.drop_last().drop_last() =~= Seq::<Stake>::empty());
            assert(total_amount(book) == 2 * bond);
            assert forall|i: u64| #[trigger] self.assertions@.contains_key(i) implies self.assertions@[i].wf(
                i,
                self.deployment->0,
                self.resolution_of(i),
                self.book_of(i),
            ) by {
                if i != id {
                    assert(old(self).assertions@.contains_key(i));
                    assert(self.resolution_of(i) == old(self).resolution_of(i));
                    assert(self.book_of(i) == old(self).book_of(i));
                }
            }
        }
        Ok(ts)
    }

    /// The contract reaches the addition of `amount` to the voter's stake:
    /// every check before it has passed.
    pub open spec fn register_reaches_sum(
        self,
        voter: Address,
        id: u64,
        amount: i128,
        commitment: Digest,
        now: u64,
    ) -> bool {
        let a = self.assertions@[id];
        let book = self.positions@[id]@;
        let k = voter_index(book, voter);
        &&& self.assertions@.contains_key(id)
        &&& a.phase == PhaseV2::Registration
        &&& voter@ != a.asserter@
        &&& voter@ != a.disputer->0@
        &&& amount > 0
        &&& now <= self.resolutions@[id].registration_deadline
        &&& if has_voter(book, voter) {
            !(book[k].position.kind matches PositionKind::External(c) && c@ != commitment@)
        } else {
            amount >= a.policy.min_resolution_bond
        }
    }

    /// Funds or tops up a third-party position on an assertion in its
    /// registration phase, at ledger time `now`, committing to a side by
    /// `commitment` without revealing it. The asserter and disputer cannot
    /// register. A new position needs at least `min_resolution_bond`; a
    /// top-up must reuse the position's commitment. The position and the
    /// eligible total must stay within the policy's bounds. A deposit of at
    /// least `min_resolution_bond`, first or top-up, within
    /// `anti_snipe_extension_secs` of the deadline pushes the deadline out by
    /// that much, never past the hard deadline; a smaller top-up never moves
    /// it. Returns the deposit the host
    /// must collect from `voter`, whose signature it requires.
    pub fn register(
        &mut self,
        voter: Address,
        id: u64,
        amount: i128,
        commitment: Digest,
        now: u64,
    ) -> (r: Result<Vec<Transfer>, Error>)
        requires
            old(self).wf(),
            old(self).assertions@.contains_key(id) && old(self).assertions@[id].phase
                == PhaseV2::Registration && now <= old(self).resolutions@[id].registration_deadline
                ==> now + old(self).assertions@[id].policy.anti_snipe_extension_secs <= u64::MAX,
            old(self).register_reaches_sum(voter, id, amount, commitment, now) ==> amount
                + staked_amount(old(self).positions@[id]@, voter) <= i128::MAX,
        ensures
            final(self).wf(),
            assertions_advance(*old(self), *final(self)),
            final(self).deployment == old(self).deployment,
            final(self).assertions@ == old(self).assertions@,
            ({
                let a = old(self).assertions@[id];
                let pol = a.policy;
                let res = old(self).resolutions@[id];
                let book = old(self).positions@[id]@;
                let known = has_voter(book, voter);
                let k = voter_index(book, voter);
                let prev = staked_amount(book, voter);
                if !old(self).assertions@.contains_key(id) {
                    r == Err::<Vec<Transfer>, Error>(Error::AssertionNotFound) && same_state(
                        *final(self),
                        *old(self),
                    )
                } else if a.phase != PhaseV2::Registration {
                    r == Err::<Vec<Transfer>, Error>(Error::NotRegistration) && same_state(
                        *final(self),
                        *old(self),
                    )
                } else if voter@ == a.asserter@ || voter@ == a.disputer->0@ {
                    r == Err::<Vec<Transfer>, Error>(Error::CannotRegisterAsFixedParty)
                        && same_state(*final(self), *old(self))
                } else if amount <= 0 {
                    r == Err::<Vec<Transfer>, Error>(Error::InvalidPositionAmount) && same_state(
                        *final(self),
                        *old(self),
                    )
                } else if now > res.registration_deadline {
                    r == Err::<Vec<Transfer>, Error>(Error::RegistrationClosed) && same_state(
                        *final(self),
                        *old(self),
                    )
                } else if known && (book[k].position.kind matches PositionKind::External(c)
                    && c@ != commitment@) {
                    r == Err::<Vec<Transfer>, Error>(Error::CommitmentMismatch) && same_state(
                        *final(self),
                        *old(self),
                    )
                } else if !known && amount < pol.min_resolution_bond {
                    r == Err::<Vec<Transfer>, Error>(Error::BelowMinimumResolutionBond)
                        && same_state(*final(self), *old(self))
                } else if prev + amount > pol.max_position {
                    r == Err::<Vec<Transfer>, Error>(Error::PositionExceedsMax) && same_state(
                        *final(self),
                        *old(self),
                    )
                } else if res.eligible_total + amount > pol.max_total_weight {
                    r == Err::<Vec<Transfer>, Error>(Error::EligibleTotalExceedsMax)
                        && same_state(*final(self), *old(self))
                } else {
                    let stake = Stake {
                        voter,
                        position: Position {
                            amount: (prev + amount) as i128,
                            kind: PositionKind::External(commitment),
                            revealed: false,
                        },
                    };
                    &&& final(self).resolutions@ == old(self).resolutions@.insert(
                        id,
                        Resolution {
                            registration_deadline: deadline_after_deposit(res, pol, amount, now),
                            eligible_total: (res.eligible_total + amount) as i128,
                            ..res
                        },
                    )
                    &&& final(self).positions@ == old(self).positions@.insert(
                        id,
                        final(self).positions@[id],
                    )
                    &&& final(self).positions@[id]@ == if known {
                        book.update(k, stake)
                    } else {
                        book.push(stake)
                    }
                    &&& r matches Ok(ts) && {
                        &&& ts@ == seq![Transfer::Deposit { from: voter, amount }]
                        &&& net_deposit(ts@) == final(self).escrowed(id) - old(self).escrowed(id)
                    }
                    &&& final(self).events@ == old(self).events@.push(
                        Event::PositionFunded(
                            PositionFunded {
                                id,
                                voter,
                                amount: (prev + amount) as i128,
                                eligible_total: (res.eligible_total + amount) as i128,
                            },
                        ),
                    )
                }
            }),
    {
        let (phase, asserter, disputer, extension, min_bond, max_position, max_total) =
            match self.assertions.get(&id) {
            None => return Err(Error::AssertionNotFound),
            Some(a) => (
                a.phase,
                a.asserter.clone(),
                a.disputer.clone(),
                a.policy.anti_snipe_extension_secs,
                a.policy.min_resolution_bond,
                a.policy.max_position,
                a.policy.max_total_weight,
            ),
        };
        if phase != PhaseV2::Registration {
            return Err(Error::NotRegistration);
        }
        let disputer = match disputer {
            Some(ds) => ds,
            None => return Err(Error::NotRegistration),
        };
        if same_address(&voter, &asserter) || same_address(&voter, &disputer) {
            return Err(Error::CannotRegisterAsFixedParty);
        }
        if amount <= 0 {
            return Err(Error::InvalidPositionAmount);
        }
        let mut resolution: Resolution = match self.resolutions.get(&id) {
            None => return Err(Error::AssertionNotFound),
            Some(res) => *res,
        };
        if now > resolution.registration_deadline {
            return Err(Error::RegistrationClosed);
        }
        // A qualifying deposit, one of at least the minimum resolution bond,
        // landing within the last extension window of the current deadline
        // pushes it out, capped at the hard deadline. A smaller top-up does
        // not: the floor is what prices each extension.
        if amount >= min_bond && now >= resolution.registration_deadline.saturating_sub(extension) {
            let extended = now + extension;
            resolution.registration_deadline = if extended < resolution.registration_hard_deadline {
                extended
            } else {
                resolution.registration_hard_deadline
            };
        }
        let (found, previous_amount) = match self.positions.get(&id) {
            None => return Err(Error::AssertionNotFound),
            Some(book) => {
                let found = find_voter(book, &voter);
                match found {
                    Some(k) => {
                        let position = book[k].position;
                        if let PositionKind::External(stored) = position.kind {
                            if !digest_eq(&stored, &commitment) {
                                return Err(Error::CommitmentMismatch);
                            }
                        }
                        (found, position.amount)
                    },
                    None => {
                        if amount < min_bond {
                            return Err(Error::BelowMinimumResolutionBond);
                        }
                        (found, 0)
                    },
                }
            },
        };
        let ghost old_book = self.positions@[id]@;
        proof {
            let a = self.assertions@[id];
            assert(a.wf(id, self.deployment->0, self.resolution_of(id), self.book_of(id)));
            if let Some(k) = found {
                assert(voter_index(old_book, voter) == k as int) by {
                    let j = voter_index(old_book, voter);
                    assert(old_book[k as int].voter@ == voter@);
                    assert(has_voter(old_book, voter));
                    if j != k as int {
                        if j < k as int {
                            assert(old_book[j].voter@ != old_book[k as int].voter@);
                        } else {
                            assert(old_book[k as int].voter@ != old_book[j].voter@);
                        }
                    }
                }
                assert(k >= 2) by {
                    assert(old_book[0].voter == a.asserter);
                    assert(old_book[1].voter == a.disputer->0);
                }
                assert(0 < previous_amount <= max_position);
            }
            assert forall|j: int| 0 <= j < old_book.len() implies #[trigger] old_book[j].position.amount
                >= 0 by {
                if j >= 2 {
                    assert(old_book[j].position.amount > 0);
                }
            }
            lemma_revealed_le_total(old_book);
        }
        let new_amount = previous_amount + amount;
        if new_amount > max_position {
            return Err(Error::PositionExceedsMax);
        }
        let new_total = resolution.eligible_total - previous_amount + new_amount;
        if new_total > max_total {
            return Err(Error::EligibleTotalExceedsMax);
        }
        let mut book = match self.positions.remove(&id) {
            None => return Err(Error::AssertionNotFound),
            Some(book) => book,
        };
        let stake = Stake {
            voter: voter.clone(),
            position: Position {
                amount: new_amount,
                kind: PositionKind::External(commitment),
                revealed: false,
            },
        };
        let ghost gstake = stake;
        match found {
            Some(k) => {
                book.set(k, stake);
            },
            None => {
                book.push(stake);
            },
        }
        self.positions.insert(id, book);
        resolution.eligible_total = new_total;
        self.resolutions.insert(id, resolution);
        self.events.push(
            Event::PositionFunded(
                PositionFunded { id, voter: voter.clone(), amount: new_amount, eligible_total: new_total },
            ),
        );
        let mut ts: Vec<Transfer> = Vec::new();
        ts.push(Transfer::Deposit { from: voter, amount });
        proof {
            reveal_with_fuel(net_deposit, 2);
            let a = self.assertions@[id];
            let nb = self.positions@[id]@;
            assert(self.positions@ =~= old(self).positions@.insert(id, self.positions@[id]));
            assert(self.resolutions@ =~= old(self).resolutions@.insert(id, self.resolutions@[id]));
            match found {
                Some(k) => {
                    lemma_total_update(old_book, k as int, gstake);
                    assert(nb == old_book.update(k as int, gstake));
                },
                None => {
                    assert(nb.drop_last() =~= old_book);
                    assert forall|j: int, q: int| 0 <= j < q < nb.len() implies #[trigger] nb[j].voter@
                        != #[trigger] nb[q].voter@ by {
                        if q == nb.len() - 1 {
                            assert(nb[j] == old_book[j]);
                        }
                    }
                },
            }
            assert(book_ok(nb, a, false));
            assert forall|k: int| 0 <= k < old_book.len() implies #[trigger] nb[k].voter@
                == old_book[k].voter@ && !old_book[k].position.revealed by {
                assert(book_ok(old_book, a, false));
                if k >= 2 {
                    assert(!old_book[k].position.revealed);
                }
                match found {
                    Some(j) => {
                        if k != j as int {
                            assert(nb[k] == old_book[k]);
                        }
                    },
                    None => {
                        assert(nb[k] == old_book[k]);
                    },
                }
            }
            assert(tallies_advance(*old(self), *self, id));
            assert forall|i: u64| #[trigger] self.assertions@.contains_key(i) implies self.assertions@[i].wf(
                i,
                self.deployment->0,
                self.resolution_of(i),
                self.book_of(i),
            ) by {
                if i != id {
                    assert(self.resolution_of(i) == old(self).resolution_of(i));
                    assert(self.book_of(i) == old(self).book_of(i));
                }
            }
        }
        Ok(ts)
    }

    /// Discloses the side an external position committed to, at ledger time
    /// `now`, and counts its full weight for that side. `digest` is the
    /// host's digest of the vote preimage built from `choice` and the salt;
    /// it must equal the stored commitment. This method only compares the
    /// two: what ties `digest` to `(choice, salt)` is the host's SHA-256 of
    /// the XDR encoding of `vote_preimage(..)`, which is not stated here. The first reveal after the
    /// registration deadline opens the reveal phase, counting the
    /// asserter's and disputer's public positions. Nothing changes when the
    /// reveal is refused. The host requires `voter`'s signature.
    pub fn reveal_vote(&mut self, voter: Address, id: u64, choice: bool, digest: Digest, now: u64) -> (r:
        Result<(), Error>)
        requires
            old(self).wf(),
            old(self).assertions@.contains_key(id) && old(self).assertions@[id].phase
                == PhaseV2::Registration ==> now + old(
                self,
            ).assertions@[id].policy.reveal_duration_secs <= u64::MAX,
        ensures
            final(self).wf(),
            assertions_advance(*old(self), *final(self)),
            final(self).deployment == old(self).deployment,
            ({
                let a = old(self).assertions@[id];
                let pol = a.policy;
                let res = old(self).resolutions@[id];
                let book = old(self).positions@[id]@;
                let opening = a.phase == PhaseV2::Registration;
                let reveal_deadline = if opening {
                    now + pol.reveal_duration_secs
                } else {
                    res.reveal_deadline as int
                };
                let book1 = if opening {
                    book.update(0, mark_revealed(book[0])).update(1, mark_revealed(book[1]))
                } else {
                    book
                };
                let k = voter_index(book, voter);
                let p = book1[k].position;
                if !old(self).assertions@.contains_key(id) {
                    r == Err::<(), Error>(Error::AssertionNotFound) && same_state(
                        *final(self),
                        *old(self),
                    )
                } else if a.phase == PhaseV2::Pending || a.phase == PhaseV2::Resolved {
                    r == Err::<(), Error>(Error::NotReveal) && same_state(*final(self), *old(self))
                } else if opening && now <= res.registration_deadline {
                    r == Err::<(), Error>(Error::RegistrationNotClosed) && same_state(
                        *final(self),
                        *old(self),
                    )
                } else if now > reveal_deadline {
                    r == Err::<(), Error>(Error::RevealClosed) && same_state(*final(self), *old(self))
                } else if !has_voter(book, voter) {
                    r == Err::<(), Error>(Error::AssertionNotFound) && same_state(
                        *final(self),
                        *old(self),
                    )
                } else if p.revealed || p.kind is Fixed {
                    r == Err::<(), Error>(Error::AlreadyRevealed) && same_state(
                        *final(self),
                        *old(self),
                    )
                } else if p.kind matches PositionKind::External(c) && c@ != digest@ {
                    r == Err::<(), Error>(Error::CommitmentVerificationFailed) && same_state(
                        *final(self),
                        *old(self),
                    )
                } else {
                    let agrees = choice == a.outcome;
                    &&& r is Ok
                    &&& final(self).assertions@ == old(self).assertions@.insert(
                        id,
                        AssertionV2 { phase: PhaseV2::Reveal, ..a },
                    )
                    &&& final(self).positions@ == old(self).positions@.insert(
                        id,
                        final(self).positions@[id],
                    )
                    &&& final(self).positions@[id]@ == book1.update(k, mark_revealed(book1[k]))
                    &&& final(self).resolutions@ == old(self).resolutions@.insert(
                        id,
                        Resolution {
                            reveal_opened_at: if opening { now } else { res.reveal_opened_at },
                            reveal_deadline: reveal_deadline as u64,
                            agree_weight: (res.agree_weight + (if opening { pol.base_bond as int } else { 0 })
                                + (if agrees { p.amount as int } else { 0 })) as i128,
                            disagree_weight: (res.disagree_weight + (if opening { pol.base_bond as int } else { 0 })
                                + (if agrees { 0 } else { p.amount as int })) as i128,
                            ..res
                        },
                    )
                    &&& final(self).events@ == old(self).events@ + reveal_events(
                        id,
                        opening,
                        reveal_deadline as u64,
                        voter,
                        choice,
                    )
                }
            }),
    {
        let (phase, outcome, reveal_duration) = match self.assertions.get(&id) {
            None => return Err(Error::AssertionNotFound),
            Some(a) => (a.phase, a.outcome, a.policy.reveal_duration_secs),
        };
        // An uncontested assertion resolved by `finalize` never had a
        // resolution, so the phase is checked first.
        if phase == PhaseV2::Pending || phase == PhaseV2::Resolved {
            return Err(Error::NotReveal);
        }
        let mut resolution: Resolution = match self.resolutions.get(&id) {
            None => return Err(Error::AssertionNotFound),
            Some(res) => *res,
        };
        let opening = phase == PhaseV2::Registration;
        if opening {
            if now <= resolution.registration_deadline {
                return Err(Error::RegistrationNotClosed);
            }
            resolution.reveal_opened_at = now;
            resolution.reveal_deadline = now + reveal_duration;
        }
        if now > resolution.reveal_deadline {
            return Err(Error::RevealClosed);
        }
        let ghost old_book = self.positions@[id]@;
        proof {
            let a = self.assertions@[id];
            assert(a.wf(id, self.deployment->0, self.resolution_of(id), self.book_of(id)));
            assert forall|j: int| 0 <= j < old_book.len() implies #[trigger] old_book[j].position.amount
                >= 0 by {
                if j >= 2 {
                    assert(old_book[j].position.amount > 0);
                }
            }
            lemma_revealed_le_total(old_book);
            if opening {
                assert forall|j: int| 0 <= j < old_book.len() implies !(#[trigger] old_book[j]).position.revealed by {
                    if j >= 2 {
                        assert(!old_book[j].position.revealed);
                    }
                }
                lemma_nothing_revealed(old_book);
            }
        }
        let (k, amount) = match self.positions.get(&id) {
            None => return Err(Error::AssertionNotFound),
            Some(book) => {
                if book.len() < 2 {
                    return Err(Error::AssertionNotFound);
                }
                if opening {
                    // The public sides of the asserter and the disputer are
                    // counted once, here.
                    tally_fixed(&mut resolution, book[0].position);
                    tally_fixed(&mut resolution, book[1].position);
                }
                let k = match find_voter(book, &voter) {
                    None => return Err(Error::AssertionNotFound),
                    Some(k) => k,
                };
                let position = book[k].position;
                if position.revealed || (opening && k < 2) {
                    return Err(Error::AlreadyRevealed);
                }
                match position.kind {
                    PositionKind::Fixed(_) => return Err(Error::AlreadyRevealed),
                    PositionKind::External(commitment) => {
                        if !digest_eq(&commitment, &digest) {
                            return Err(Error::CommitmentVerificationFailed);
                        }
                    },
                }
                (k, position.amount)
            },
        };
        proof {
            assert(voter_index(old_book, voter) == k as int) by {
                let j = voter_index(old_book, voter);
                assert(old_book[k as int].voter@ == voter@);
                assert(has_voter(old_book, voter));
                if j != k as int {
                    if j < k as int {
                        assert(old_book[j].voter@ != old_book[k as int].voter@);
                    } else {
                        assert(old_book[k as int].voter@ != old_book[j].voter@);
                    }
                }
            }
        }
        if opening {
            let mut a = match self.assertions.remove(&id) {
                None => return Err(Error::AssertionNotFound),
                Some(a) => a,
            };
            a.phase = PhaseV2::Reveal;
            self.assertions.insert(id, a);
        }
        let mut book = match self.positions.remove(&id) {
            None => return Err(Error::AssertionNotFound),
            Some(book) => book,
        };
        let ghost book0 = book@;
        if opening {
            let s0 = revealed_stake(&book[0]);
            book.set(0, s0);
            let s1 = revealed_stake(&book[1]);
            book.set(1, s1);
        }
        let ghost book1 = book@;
        let sk = revealed_stake(&book[k]);
        book.set(k, sk);
        self.positions.insert(id, book);
        if choice == outcome {
            resolution.agree_weight = resolution.agree_weight + amount;
        } else {
            resolution.disagree_weight = resolution.disagree_weight + amount;
        }
        self.resolutions.insert(id, resolution);
        if opening {
            self.events.push(
                Event::RevealOpened(RevealOpened { id, reveal_deadline: resolution.reveal_deadline }),
            );
        }
        self.events.push(Event::Revealed(Revealed { id, voter, choice }));
        proof {
            let a = self.assertions@[id];
            let nb = self.positions@[id]@;
            assert(self.positions@ =~= old(self).positions@.insert(id, self.positions@[id]));
            assert(self.resolutions@ =~= old(self).resolutions@.insert(id, self.resolutions@[id]));
            if opening {
                assert(self.assertions@ =~= old(self).assertions@.insert(id, self.assertions@[id]));
                lemma_revealed_update(book0, 0, mark_revealed(book0[0]));
                lemma_revealed_update(book0.update(0, mark_revealed(book0[0])), 1, mark_revealed(book0[1]));
                lemma_total_update(book0, 0, mark_revealed(book0[0]));
                lemma_total_update(book0.update(0, mark_revealed(book0[0])), 1, mark_revealed(book0[1]));
            } else {
                assert(self.assertions@ =~= old(self).assertions@);
            }
            lemma_revealed_update(book1, k as int, mark_revealed(book1[k as int]));
            lemma_total_update(book1, k as int, mark_revealed(book1[k as int]));
            assert(book_ok(nb, a, true));
            assert(a.wf(id, self.deployment->0, self.resolution_of(id), self.book_of(id)));
            assert forall|i: u64| #[trigger] self.assertions@.contains_key(i) implies self.assertions@[i].wf(
                i,
                self.deployment->0,
                self.resolution_of(i),
                self.book_of(i),
            ) by {
                if i != id {
                    assert(self.resolution_of(i) == old(self).resolution_of(i));
                    assert(self.book_of(i) == old(self).book_of(i));
                }
            }
        }
        Ok(())
    }
}


/// A deposit at or before the registration deadline never moves the
/// deadline earlier and never past the hard deadline; once the deadline
/// has reached the hard deadline it stays there.
pub proof fn lemma_extension_bounded(deadline: u64, hard_deadline: u64, extension: u64, now: u64)
    requires
        deadline <= hard_deadline,
        now <= deadline,
    ensures
        deadline <= extended_deadline(deadline, hard_deadline, extension, now) <= hard_deadline,
        deadline == hard_deadline ==> extended_deadline(deadline, hard_deadline, extension, now)
            == hard_deadline,
{
}

/// Of a disputed assertion, the eligible total is what is held in escrow
/// for it and the sum of all its positions: the asserter's and the
/// disputer's base bonds, each counted once, and one aggregated position per
/// third party. The weight revealed so far for both sides together is
/// within it.
pub proof fn lemma_disputed_accounting(t: TholosV2, id: u64)
    requires
        t.wf(),
        t.resolutions@.contains_key(id),
    ensures
        t.positions@.contains_key(id),
        t.escrowed(id) == t.resolutions@[id].eligible_total,
        t.resolutions@[id].eligible_total == total_amount(t.positions@[id]@),
        t.positions@[id]@.len() >= 2,
        t.positions@[id]@[0].voter@ == t.assertions@[id].asserter@,
        t.positions@[id]@[0].position.amount == t.assertions@[id].policy.base_bond,
        t.positions@[id]@[1].position.amount == t.assertions@[id].policy.base_bond,
        forall|j: int, k: int|
            0 <= j < k < t.positions@[id]@.len() ==> #[trigger] t.positions@[id]@[j].voter@
                != #[trigger] t.positions@[id]@[k].voter@,
        0 <= t.resolutions@[id].agree_weight,
        0 <= t.resolutions@[id].disagree_weight,
        t.resolutions@[id].agree_weight + t.resolutions@[id].disagree_weight
            <= t.resolutions@[id].eligible_total,
{
    let a = t.assertions@[id];
    let d = t.deployment->0;
    assert(t.assertions@.contains_key(id));
    assert(a.wf(id, d, t.resolution_of(id), t.book_of(id)));
    let b = t.positions@[id]@;
    assert forall|j: int| 0 <= j < b.len() implies #[trigger] b[j].position.amount >= 0 by {
        if j >= 2 {
            assert(b[j].position.amount > 0);
        }
    }
    lemma_revealed_le_total(b);
}

/// What a vote commitment is the digest of.
pub struct VoteCommitmentPreimage {
    pub domain: String,
    pub network_id: Digest,
    pub contract_address: Address,
    pub policy_hash: Digest,
    pub assertion_id: u64,
    pub round: u32,
    pub voter: Address,
    pub choice: bool,
    pub salt: Digest,
}

/// The preimage a vote commitment must be the digest of:
/// `("THOLOS_V2_VOTE", network_id, contract_address, policy_hash,
/// assertion_id, ROUND, voter, choice, salt)`.
pub fn vote_preimage(
    network_id: Digest,
    contract_address: Address,
    policy_hash: Digest,
    assertion_id: u64,
    voter: Address,
    choice: bool,
    salt: Digest,
) -> (p: VoteCommitmentPreimage)
    ensures
        p.domain@ == "THOLOS_V2_VOTE"@,
        p.network_id == network_id,
        p.contract_address == contract_address,
        p.policy_hash == policy_hash,
        p.assertion_id == assertion_id,
        p.round == ROUND,
        p.voter == voter,
        p.choice == choice,
        p.salt == salt,
{
    VoteCommitmentPreimage {
        domain: String::from_str("THOLOS_V2_VOTE"),
        network_id,
        contract_address,
        policy_hash,
        assertion_id,
        round: ROUND,
        voter,
        choice,
        salt,
    }
}

/// The finalize reward is the bond's share at `bps` basis points rounded
/// down: `10_000 * reward <= bond * bps < 10_000 * (reward + 1)`.
pub proof fn lemma_finalize_reward_exact(bond: i128, bps: u32)
    requires
        0 < bond <= MAX_BOND_AMOUNT,
        bps <= MAX_FINALIZE_REWARD_BPS,
    ensures
        10_000 * finalize_reward(bond, bps) <= bond * bps < 10_000 * (finalize_reward(bond, bps) + 1),
{
    if bps > 0 {
        let x: int = bond * bps;
        assert(x >= 0) by (nonlinear_arith)
            requires
                x == bond * bps,
                bond > 0,
                bps > 0,
        ;
        assert(10_000 * (x / 10_000) <= x < 10_000 * (x / 10_000 + 1)) by (nonlinear_arith)
            requires
                x >= 0,
        ;
        assert(finalize_reward(bond, bps) == x / 10_000);
    }
}

/// The anti-sniping rule: a deposit accepted at `now` (at or before the
/// deadline) that lands no more than `extension` seconds before the deadline
/// leaves `extension` seconds from `now` to answer it, capped at the hard
/// deadline: the new deadline is `min(now + extension, hard_deadline)`. An
/// earlier deposit leaves the deadline where it was.
pub proof fn lemma_extension_rule(deadline: u64, hard_deadline: u64, extension: u64, now: u64)
    requires
        deadline <= hard_deadline,
        now <= deadline,
    ensures
        deadline <= now + extension ==> extended_deadline(deadline, hard_deadline, extension, now)
            == (if now + extension < hard_deadline {
            now + extension
        } else {
            hard_deadline as int
        }),
        now + extension < deadline ==> extended_deadline(deadline, hard_deadline, extension, now)
            == deadline,
{
}

/// What a deposit accepted at `now` (at or before the deadline) does to the
/// registration deadline: a deposit of at least `min_resolution_bond` that
/// lands no more than `anti_snipe_extension_secs` before the deadline moves
/// it to `min(now + anti_snipe_extension_secs, registration_hard_deadline)`;
/// a smaller deposit, or an earlier one, leaves it where it was.
pub proof fn lemma_deposit_deadline(res: Resolution, pol: PolicySnapshotV2, amount: i128, now: u64)
    requires
        res.registration_deadline <= res.registration_hard_deadline,
        now <= res.registration_deadline,
    ensures
        ({
            let d = res.registration_deadline;
            let e = pol.anti_snipe_extension_secs;
            let h = res.registration_hard_deadline;
            let after = deadline_after_deposit(res, pol, amount, now);
            &&& amount >= pol.min_resolution_bond && d <= now + e ==> after == (if now + e < h {
                now + e
            } else {
                h as int
            })
            &&& amount < pol.min_resolution_bond ==> after == d
            &&& now + e < d ==> after == d
        }),
{
}

} // verus!
