//! The committee-resolved oracle: bonded assertions, a challenge window,
//! disputes decided by a strict majority of a resolver committee, and the
//! committee's own single-slot rotation by vote.
//!
//! `Tholos` holds what the deployed contract keeps in storage: the
//! deployment-wide settings (absent until `initialize`) and the assertions
//! by id. Each entry point is a method that checks its inputs in the same
//! order as the contract, updates the state, and returns the token movements
//! the host must carry out. Signatures, the ledger clock and the token
//! itself stay with the host.

use std::collections::HashMap;
use vstd::prelude::*;

use crate::common::{
    contains_address, copy_addresses, disjoint_addrs, distinct_addrs, has_addr, lemma_distinct_subset_len,
    net_deposit, same_address, subset_addrs, Address, Transfer,
};

verus! {

/// The largest resolver committee. A committee is copied onto every
/// disputed assertion, so its size bounds the cost of every dispute.
pub const MAX_RESOLVERS: u32 = 21;

/// The finalize reward is at most 1000 basis points (10 %) of the bond.
pub const MAX_FINALIZE_REWARD_BPS: u32 = 1_000;

/// A challenge window is at most seven days.
pub const MAX_CHALLENGE_WINDOW_SECS: u64 = 604_800;

/// `i128::MAX / MAX_FINALIZE_REWARD_BPS`: the finalize reward multiplies the
/// bond by the basis points before dividing, and the escrow holds two bonds
/// once disputed; this bound keeps both within `i128`.
pub const MAX_BOND_AMOUNT: i128 = 170_141_183_460_469_231_731_687_303_715_884_105;

/// Basis points in one whole.
pub const BPS_DENOMINATOR: i128 = 10_000;

#[derive(Clone, Copy, Debug, PartialEq, Eq, Structural)]
pub enum Status {
    Pending,
    Disputed,
    Resolved,
}

#[derive(Clone, Copy, Debug, PartialEq, Eq, PartialOrd, Ord, Structural)]
pub enum Error {
    AlreadyInitialized,
    NotInitialized,
    InvalidResolverCount,
    AssertionNotFound,
    NotPending,
    NotDisputed,
    ChallengeWindowClosed,
    ChallengeWindowOpen,
    NotAResolver,
    AlreadyVoted,
    Paused,
    /// `bond_amount` was not positive, or exceeded `MAX_BOND_AMOUNT`.
    InvalidBondAmount,
    InvalidChallengeWindow,
    TooManyResolvers,
    /// `finalize_reward_bps` was greater than `MAX_FINALIZE_REWARD_BPS`.
    InvalidFinalizeReward,
    DuplicateResolvers,
    RotationInProgress,
    NoRotationProposal,
    ResolverNotInCommittee,
    DuplicateResolver,
    NotProposer,
}

/// An open single-slot rotation of the live committee.
#[derive(Clone, Debug)]
pub struct RotationProposal {
    /// The current resolver to remove.
    pub old_resolver: Address,
    /// The resolver to add in its place.
    pub new_resolver: Address,
    /// The resolver who opened the proposal.
    pub proposed_by: Address,
    /// Resolvers who voted yes.
    pub yes: Vec<Address>,
    /// Resolvers who voted no.
    pub no: Vec<Address>,
}

#[derive(Clone, Debug)]
pub struct Assertion {
    pub asserter: Address,
    pub outcome: bool,
    pub bond: i128,
    pub opened_at: u64,
    pub status: Status,
    pub disputer: Option<Address>,
    pub votes_for_outcome: u32,
    pub votes_against_outcome: u32,
    pub voted: Vec<Address>,
    /// The committee at the moment this assertion was disputed; empty until
    /// then. Voting and the majority are computed against this copy.
    pub resolvers: Vec<Address>,
    /// Who called `finalize`; `None` unless finalized uncontested.
    pub finalizer: Option<Address>,
}

/// The deployment-wide settings, all written together by `initialize`.
#[derive(Clone, Debug)]
pub struct Deployment {
    pub admin: Address,
    pub token: Address,
    pub bond_amount: i128,
    pub challenge_window_secs: u64,
    /// The live resolver committee.
    pub resolvers: Vec<Address>,
    pub next_id: u64,
    pub paused: bool,
    pub finalize_reward_bps: u32,
    pub rotation: Option<RotationProposal>,
}

/// A claim was posted.
#[derive(Clone, Debug)]
pub struct Asserted {
    pub id: u64,
    pub asserter: Address,
    pub outcome: bool,
}

/// A pending claim was disputed.
#[derive(Clone, Debug)]
pub struct Disputed {
    pub id: u64,
    pub disputer: Address,
}

/// An undisputed claim was closed by `finalizer`, who was paid `reward`
/// (zero when no reward is configured).
#[derive(Clone, Debug)]
pub struct Finalized {
    pub id: u64,
    pub outcome: bool,
    pub finalizer: Address,
    pub reward: i128,
}

/// A dispute was decided; `outcome` is the outcome that now stands.
#[derive(Clone, Copy, Debug, PartialEq, Eq, Structural)]
pub struct Resolved {
    pub id: u64,
    pub outcome: bool,
}

/// The live committee was replaced, by the admin or by a rotation.
#[derive(Clone, Debug)]
pub struct ResolversUpdated {
    pub resolvers: Vec<Address>,
}

#[derive(Clone, Copy, Debug, PartialEq, Eq, Structural)]
pub struct PauseUpdated {
    pub paused: bool,
}

#[derive(Clone, Debug)]
pub struct RotationProposed {
    pub old_resolver: Address,
    pub new_resolver: Address,
    pub proposed_by: Address,
}

#[derive(Clone, Debug)]
pub struct RotationExecuted {
    pub old_resolver: Address,
    pub new_resolver: Address,
}

#[derive(Clone, Debug)]
pub struct RotationCancelled {
    pub old_resolver: Address,
    pub new_resolver: Address,
}

/// One event the contract publishes.
#[derive(Clone, Debug)]
pub enum Event {
    Asserted(Asserted),
    Disputed(Disputed),
    Finalized(Finalized),
    Resolved(Resolved),
    ResolversUpdated(ResolversUpdated),
    PauseUpdated(PauseUpdated),
    RotationProposed(RotationProposed),
    RotationExecuted(RotationExecuted),
    RotationCancelled(RotationCancelled),
}

/// The contract's storage: settings (absent before `initialize`) and the
/// assertions by id, with the events published so far, oldest first. A
/// refused call publishes nothing and changes nothing.
pub struct Tholos {
    pub deployment: Option<Deployment>,
    pub assertions: HashMap<u64, Assertion>,
    pub events: Vec<Event>,
}

/// A strict majority of `n` voters.
pub open spec fn majority_of(n: int) -> int {
    n / 2 + 1
}

/// Why `c` cannot be a committee, checked in the contract's order, or `None`
/// if it can: an odd, nonzero size of at most `MAX_RESOLVERS` distinct
/// addresses.
pub open spec fn committee_error(c: Seq<Address>) -> Option<Error> {
    if c.len() == 0 || c.len() % 2 == 0 {
        Some(Error::InvalidResolverCount)
    } else if c.len() > MAX_RESOLVERS {
        Some(Error::TooManyResolvers)
    } else if !distinct_addrs(c) {
        Some(Error::DuplicateResolvers)
    } else {
        None
    }
}

pub open spec fn valid_committee(c: Seq<Address>) -> bool {
    committee_error(c) is None
}

impl RotationProposal {
    /// The proposal matches the live committee `c` it was validated against,
    /// and is still open: yes-votes are short of a majority and enough
    /// members have not voted no for a majority to remain reachable.
    pub open spec fn fits(self, c: Seq<Address>) -> bool {
        &&& has_addr(c, self.old_resolver)
        &&& !has_addr(c, self.new_resolver)
        &&& has_addr(c, self.proposed_by)
        &&& distinct_addrs(self.yes@)
        &&& distinct_addrs(self.no@)
        &&& subset_addrs(self.yes@, c)
        &&& subset_addrs(self.no@, c)
        &&& disjoint_addrs(self.yes@, self.no@)
        &&& self.yes@.len() < majority_of(c.len() as int)
        &&& self.no@.len() + majority_of(c.len() as int) <= c.len()
    }
}

impl Deployment {
    pub open spec fn wf(self) -> bool {
        &&& valid_committee(self.resolvers@)
        &&& 0 < self.bond_amount <= MAX_BOND_AMOUNT
        &&& 0 < self.challenge_window_secs <= MAX_CHALLENGE_WINDOW_SECS
        &&& self.finalize_reward_bps <= MAX_FINALIZE_REWARD_BPS
        &&& (self.rotation matches Some(p) ==> p.fits(self.resolvers@))
    }
}

impl Assertion {
    /// The votes cast so far are distinct members of the snapshot and are
    /// counted on exactly one side each.
    pub open spec fn tally_ok(self) -> bool {
        &&& valid_committee(self.resolvers@)
        &&& distinct_addrs(self.voted@)
        &&& subset_addrs(self.voted@, self.resolvers@)
        &&& self.votes_for_outcome + self.votes_against_outcome == self.voted@.len()
    }

    pub open spec fn majority(self) -> int {
        majority_of(self.resolvers@.len() as int)
    }

    /// Nothing has happened to the assertion beyond its posting.
    pub open spec fn untouched(self) -> bool {
        &&& self.disputer is None
        &&& self.finalizer is None
        &&& self.voted@.len() == 0
        &&& self.resolvers@.len() == 0
        &&& self.votes_for_outcome == 0
        &&& self.votes_against_outcome == 0
    }

    /// The stored assertion under `id` is consistent with the deployment `d`.
    pub open spec fn wf(self, id: u64, d: Deployment) -> bool {
        &&& id < d.next_id
        &&& 0 < self.bond <= MAX_BOND_AMOUNT
        &&& match self.status {
            Status::Pending => self.untouched(),
            Status::Disputed => {
                &&& self.disputer is Some
                &&& self.finalizer is None
                &&& self.tally_ok()
                &&& self.votes_for_outcome < self.majority()
                &&& self.votes_against_outcome < self.majority()
            },
            Status::Resolved => match self.finalizer {
                Some(_) => {
                    &&& self.disputer is None
                    &&& self.voted@.len() == 0
                    &&& self.resolvers@.len() == 0
                    &&& self.votes_for_outcome == 0
                    &&& self.votes_against_outcome == 0
                },
                None => {
                    &&& self.disputer is Some
                    &&& self.tally_ok()
                    &&& (self.votes_for_outcome >= self.majority()
                        || self.votes_against_outcome >= self.majority())
                },
            },
        }
    }

    /// Tokens this assertion holds in escrow: one bond while pending, both
    /// bonds while disputed, none once resolved.
    pub open spec fn escrowed(self) -> int {
        match self.status {
            Status::Pending => self.bond as int,
            Status::Disputed => 2 * self.bond,
            Status::Resolved => 0,
        }
    }
}

impl Tholos {
    pub open spec fn wf(self) -> bool {
        match self.deployment {
            None => self.assertions@.dom().is_empty(),
            Some(d) => {
                &&& d.wf()
                &&& forall|id: u64| #[trigger]
                    self.assertions@.contains_key(id) ==> self.assertions@[id].wf(id, d)
            },
        }
    }
}

/// Why `initialize` refuses its arguments, in the contract's order of
/// checks, or `None` if it accepts them.
pub open spec fn init_error(
    initialized: bool,
    resolvers: Seq<Address>,
    bond_amount: i128,
    challenge_window_secs: u64,
    finalize_reward_bps: u32,
) -> Option<Error> {
    if initialized {
        Some(Error::AlreadyInitialized)
    } else if committee_error(resolvers) is Some {
        committee_error(resolvers)
    } else if bond_amount <= 0 || bond_amount > MAX_BOND_AMOUNT {
        Some(Error::InvalidBondAmount)
    } else if challenge_window_secs == 0 || challenge_window_secs > MAX_CHALLENGE_WINDOW_SECS {
        Some(Error::InvalidChallengeWindow)
    } else if finalize_reward_bps > MAX_FINALIZE_REWARD_BPS {
        Some(Error::InvalidFinalizeReward)
    } else {
        None
    }
}

/// Rejects a committee with a repeated address: `[A, A, B]` has an odd
/// length but only two distinct voters, which would break the no-tie
/// guarantee and can strand both bonds.
fn assert_unique_resolvers(resolvers: &Vec<Address>) -> (r: Result<(), Error>)
    ensures
        r is Ok <==> distinct_addrs(resolvers@),
        r matches Err(e) ==> e == Error::DuplicateResolvers,
{
    let len = resolvers.len();
    let mut i: usize = 0;
    while i < len
        invariant
            len == resolvers@.len(),
            i <= len,
            forall|p: int, q: int| 0 <= p < i && p < q < len ==> resolvers@[p]@ != resolvers@[q]@,
        decreases len - i,
    {
        let mut j: usize = i + 1;
        while j < len
            invariant
                len == resolvers@.len(),
                i < len,
                i + 1 <= j <= len,
                forall|p: int, q: int| 0 <= p < i && p < q < len ==> resolvers@[p]@ != resolvers@[q]@,
                forall|q: int| i < q < j ==> resolvers@[i as int]@ != resolvers@[q]@,
            decreases len - j,
        {
            if same_address(&resolvers[i], &resolvers[j]) {
                assert(!distinct_addrs(resolvers@)) by {
                    assert(resolvers@[i as int]@ == resolvers@[j as int]@);
                }
                return Err(Error::DuplicateResolvers);
            }
            j = j + 1;
        }
        i = i + 1;
    }
    Ok(())
}

/// Checks `c` as `initialize` and `update_resolvers` do: size first, then
/// duplicates.
fn check_committee(c: &Vec<Address>) -> (r: Result<(), Error>)
    ensures
        match r {
            Ok(()) => committee_error(c@) is None,
            Err(e) => committee_error(c@) == Some(e),
        },
{
    if c.len() == 0 || c.len() % 2 == 0 {
        return Err(Error::InvalidResolverCount);
    }
    if c.len() > MAX_RESOLVERS as usize {
        return Err(Error::TooManyResolvers);
    }
    assert_unique_resolvers(c)
}

impl Assertion {
    /// `self` is what `assert_outcome` stores for a new claim.
    pub open spec fn is_fresh(self, asserter: Address, outcome: bool, bond: i128, now: u64) -> bool {
        &&& self.asserter == asserter
        &&& self.outcome == outcome
        &&& self.bond == bond
        &&& self.opened_at == now
        &&& self.status == Status::Pending
        &&& self.untouched()
    }

    /// `self` is `before` after `dispute` by `disputer` against the live
    /// committee `committee`.
    pub open spec fn disputed_from(self, before: Assertion, disputer: Address, committee: Seq<Address>) -> bool {
        &&& self.asserter == before.asserter
        &&& self.outcome == before.outcome
        &&& self.bond == before.bond
        &&& self.opened_at == before.opened_at
        &&& self.status == Status::Disputed
        &&& self.disputer == Some(disputer)
        &&& self.votes_for_outcome == before.votes_for_outcome
        &&& self.votes_against_outcome == before.votes_against_outcome
        &&& self.voted == before.voted
        &&& self.resolvers@ == committee
        &&& self.finalizer == before.finalizer
    }
}

/// The finalize reward for a bond at `bps` basis points: `bond * bps /
/// 10_000`, rounded down, or nothing when `bps` is zero.
pub open spec fn finalize_reward(bond: i128, bps: u32) -> int {
    if bps > 0 {
        (bond * bps) / (BPS_DENOMINATOR as int)
    } else {
        0
    }
}

/// The payouts of an uncontested `finalize`: the reward to `caller` when
/// there is one, then the rest of the bond to `asserter`.
pub open spec fn finalize_payouts(caller: Address, asserter: Address, bond: i128, bps: u32) -> Seq<Transfer> {
    let reward = finalize_reward(bond, bps);
    if reward > 0 {
        seq![
            Transfer::Payout { to: caller, amount: reward as i128 },
            Transfer::Payout { to: asserter, amount: (bond - reward) as i128 },
        ]
    } else {
        seq![Transfer::Payout { to: asserter, amount: bond }]
    }
}

/// What `update_resolvers` publishes: the cancellation of the open
/// rotation, if there is one, then the new committee.
pub open spec fn update_events(rotation: Option<RotationProposal>, resolvers: Vec<Address>) -> Seq<Event> {
    let updated = Event::ResolversUpdated(ResolversUpdated { resolvers });
    match rotation {
        Some(p) => seq![
            Event::RotationCancelled(
                RotationCancelled { old_resolver: p.old_resolver, new_resolver: p.new_resolver },
            ),
            updated,
        ],
        None => seq![updated],
    }
}

/// The contract is paused: `assert_outcome`, `dispute` and `resolve`
/// refuse with `Paused`. No other entry point ever refuses for it.
pub open spec fn pause_refuses(t: Tholos) -> bool {
    t.deployment matches Some(d) && d.paused
}

/// How far an assertion has come: pending, then disputed, then resolved.
pub open spec fn status_rank(s: Status) -> int {
    match s {
        Status::Pending => 0,
        Status::Disputed => 1,
        Status::Resolved => 2,
    }
}

/// Every assertion of `pre` is still in `post`, at the same or a later
/// status, with the same claim, poster and bond; once disputed, its
/// disputer and the committee copied onto it stay as they were; once
/// resolved, it is unchanged.
pub open spec fn assertions_advance(pre: Tholos, post: Tholos) -> bool {
    forall|id: u64| #[trigger] pre.assertions@.contains_key(id) ==> {
        let a = pre.assertions@[id];
        let b = post.assertions@[id];
        &&& post.assertions@.contains_key(id)
        &&& status_rank(a.status) <= status_rank(b.status)
        &&& b.asserter == a.asserter && b.outcome == a.outcome && b.bond == a.bond
        &&& b.opened_at == a.opened_at
        &&& a.status != Status::Pending ==> b.disputer == a.disputer && b.resolvers == a.resolvers
        &&& a.status == Status::Resolved ==> b == a
    }
}

/// The two states hold the same settings, assertions and events.
pub open spec fn same_state(a: Tholos, b: Tholos) -> bool {
    &&& a.deployment == b.deployment
    &&& a.assertions@ == b.assertions@
    &&& a.events@ == b.events@
}

/// `post` is `pre` with only the assertion under `id` replaced.
pub open spec fn only_assertion_changed(pre: Tholos, post: Tholos, id: u64) -> bool {
    &&& post.deployment == pre.deployment
    &&& post.assertions@.contains_key(id)
    &&& post.assertions@ == pre.assertions@.insert(id, post.assertions@[id])
}

/// `c` with `old_resolver` replaced by `new_resolver`.
pub open spec fn swapped(c: Seq<Address>, old_resolver: Address, new_resolver: Address) -> Seq<
    Address,
> {
    c.map_values(|x: Address| if x@ == old_resolver@ { new_resolver } else { x })
}

/// Yes- and no-votes by distinct members, none voting twice, are at most
/// as many as the committee.
proof fn lemma_ballots_fit(yes: Seq<Address>, no: Seq<Address>, c: Seq<Address>)
    requires
        distinct_addrs(yes),
        distinct_addrs(no),
        disjoint_addrs(yes, no),
        subset_addrs(yes, c),
        subset_addrs(no, c),
    ensures
        yes.len() + no.len() <= c.len(),
{
    let both = yes + no;
    assert(distinct_addrs(both)) by {
        assert forall|p: int, q: int| 0 <= p < q < both.len() implies both[p]@ != both[q]@ by {
            if q < yes.len() {
            } else if p >= yes.len() {
                assert(both[p] == no[p - yes.len()]);
                assert(both[q] == no[q - yes.len()]);
            } else {
                assert(both[p] == yes[p]);
                assert(both[q] == no[q - yes.len()]);
                assert(!has_addr(no, yes[p]));
            }
        }
    }
    assert(subset_addrs(both, c)) by {
        assert forall|p: int| 0 <= p < both.len() implies has_addr(c, #[trigger] both[p]) by {
            if p < yes.len() {
                assert(both[p] == yes[p]);
            } else {
                assert(both[p] == no[p - yes.len()]);
            }
        }
    }
    lemma_distinct_subset_len(both, c);
}

/// Adding `r`, who is in `c` but in neither list, to one of two ballot
/// lists keeps them distinct, disjoint and within `c`.
proof fn lemma_ballot_push(yes: Seq<Address>, no: Seq<Address>, c: Seq<Address>, r: Address)
    requires
        distinct_addrs(yes),
        distinct_addrs(no),
        disjoint_addrs(yes, no),
        subset_addrs(yes, c),
        subset_addrs(no, c),
        has_addr(c, r),
        !has_addr(yes, r),
        !has_addr(no, r),
    ensures
        distinct_addrs(yes.push(r)),
        subset_addrs(yes.push(r), c),
        disjoint_addrs(yes.push(r), no),
        distinct_addrs(no.push(r)),
        subset_addrs(no.push(r), c),
        disjoint_addrs(yes, no.push(r)),
{
    let y2 = yes.push(r);
    let n2 = no.push(r);
    assert forall|p: int, q: int| 0 <= p < q < y2.len() implies y2[p]@ != y2[q]@ by {
        if q == yes.len() {
            assert(y2[p] == yes[p]);
        }
    }
    assert forall|p: int, q: int| 0 <= p < q < n2.len() implies n2[p]@ != n2[q]@ by {
        if q == no.len() {
            assert(n2[p] == no[p]);
        }
    }
    assert forall|p: int| 0 <= p < y2.len() implies has_addr(c, #[trigger] y2[p]) by {
        if p < yes.len() {
            assert(y2[p] == yes[p]);
        }
    }
    assert forall|p: int| 0 <= p < n2.len() implies has_addr(c, #[trigger] n2[p]) by {
        if p < no.len() {
            assert(n2[p] == no[p]);
        }
    }
    assert forall|p: int| 0 <= p < y2.len() implies !has_addr(no, #[trigger] y2[p]) by {
        if p < yes.len() {
            assert(y2[p] == yes[p]);
        }
    }
    assert forall|p: int| 0 <= p < yes.len() implies !has_addr(n2, #[trigger] yes[p]) by {
        assert(!has_addr(no, yes[p]));
        if has_addr(n2, yes[p]) {
            let k = choose|k: int| 0 <= k < n2.len() && #[trigger] n2[k]@ == yes[p]@;
            if k < no.len() {
                assert(n2[k] == no[k]);
            }
        }
    }
}

/// The committee with `old_resolver` swapped for `new_resolver`.
fn swap_resolver(c: &Vec<Address>, old_resolver: &Address, new_resolver: &Address) -> (r: Vec<
    Address,
>)
    ensures
        r@ == swapped(c@, *old_resolver, *new_resolver),
{
    let mut r: Vec<Address> = Vec::new();
    let mut i: usize = 0;
    while i < c.len()
        invariant
            i <= c.len(),
            r@ == swapped(c@.subrange(0, i as int), *old_resolver, *new_resolver),
        decreases c.len() - i,
    {
        if same_address(&c[i], old_resolver) {
            r.push(new_resolver.clone());
        } else {
            r.push(c[i].clone());
        }
        proof {
            assert(c@.subrange(0, i + 1) == c@.subrange(0, i as int).push(c@[i as int]));
        }
        i = i + 1;
    }
    assert(c@.subrange(0, c@.len() as int) == c@);
    r
}

/// Swapping a member of a committee for a non-member keeps it a committee.
pub proof fn lemma_swap_keeps_committee(c: Seq<Address>, old_resolver: Address, new_resolver: Address)
    requires
        valid_committee(c),
        !has_addr(c, new_resolver),
    ensures
        valid_committee(swapped(c, old_resolver, new_resolver)),
{
    let s = swapped(c, old_resolver, new_resolver);
    assert forall|p: int, q: int| 0 <= p < q < s.len() implies #[trigger] s[p]@ != #[trigger] s[q]@ by {
        if c[p]@ == old_resolver@ && c[q]@ == old_resolver@ {
            assert(c[p]@ == c[q]@);
        } else if c[p]@ == old_resolver@ {
            assert(s[p]@ == new_resolver@);
            assert(s[q] == c[q]);
        } else if c[q]@ == old_resolver@ {
            assert(s[q]@ == new_resolver@);
            assert(s[p] == c[p]);
        } else {
            assert(s[p] == c[p]);
            assert(s[q] == c[q]);
        }
    }
}

impl Tholos {
    /// A freshly deployed, uninitialized contract.
    pub fn new() -> (t: Tholos)
        ensures
            t.deployment is None,
            t.assertions@ == Map::<u64, Assertion>::empty(),
            t.events@ == Seq::<Event>::empty(),
            t.wf(),
    {
        Tholos { deployment: None, assertions: HashMap::new(), events: Vec::new() }
    }

    /// Initializes the contract. `resolvers` must have an odd length so a
    /// simple majority can never tie. `finalize_reward_bps` is the share of
    /// the bond, in basis points (0 to 1000), paid to whoever calls
    /// `finalize`; 0 returns the full bond to the asserter. The caller's
    /// host requires `admin`'s signature once the arguments are accepted.
    pub fn initialize(
        &mut self,
        admin: Address,
        token: Address,
        bond_amount: i128,
        challenge_window_secs: u64,
        resolvers: Vec<Address>,
        finalize_reward_bps: u32,
    ) -> (r: Result<(), Error>)
        requires
            old(self).wf(),
        ensures
            final(self).wf(),
            assertions_advance(*old(self), *final(self)),
            r != Err::<(), Error>(Error::Paused),
            final(self).assertions@ == old(self).assertions@,
            final(self).events@ == old(self).events@,
            match r {
                Err(e) => {
                    &&& init_error(
                        old(self).deployment is Some,
                        resolvers@,
                        bond_amount,
                        challenge_window_secs,
                        finalize_reward_bps,
                    ) == Some(e)
                    &&& final(self).deployment == old(self).deployment
                },
                Ok(()) => {
                    &&& init_error(
                        old(self).deployment is Some,
                        resolvers@,
                        bond_amount,
                        challenge_window_secs,
                        finalize_reward_bps,
                    ) is None
                    &&& final(self).deployment matches Some(d) && {
                        &&& d.admin == admin
                        &&& d.token == token
                        &&& d.bond_amount == bond_amount
                        &&& d.challenge_window_secs == challenge_window_secs
                        &&& d.resolvers@ == resolvers@
                        &&& d.next_id == 0
                        &&& !d.paused
                        &&& d.finalize_reward_bps == finalize_reward_bps
                        &&& d.rotation is None
                    }
                },
            },
    {
        if self.deployment.is_some() {
            return Err(Error::AlreadyInitialized);
        }
        check_committee(&resolvers)?;
        if bond_amount <= 0 || bond_amount > MAX_BOND_AMOUNT {
            return Err(Error::InvalidBondAmount);
        }
        if challenge_window_secs == 0 || challenge_window_secs > MAX_CHALLENGE_WINDOW_SECS {
            return Err(Error::InvalidChallengeWindow);
        }
        if finalize_reward_bps > MAX_FINALIZE_REWARD_BPS {
            return Err(Error::InvalidFinalizeReward);
        }
        self.deployment = Some(
            Deployment {
                admin,
                token,
                bond_amount,
                challenge_window_secs,
                resolvers,
                next_id: 0,
                paused: false,
                finalize_reward_bps,
                rotation: None,
            },
        );
        Ok(())
    }

    /// Pauses or unpauses new assertions, disputes and resolver votes.
    /// Pending assertions can still be finalized while paused. The host
    /// requires the admin's signature.
    pub fn set_paused(&mut self, paused: bool) -> (r: Result<(), Error>)
        requires
            old(self).wf(),
        ensures
            final(self).wf(),
            assertions_advance(*old(self), *final(self)),
            r != Err::<(), Error>(Error::Paused),
            old(self).deployment is Some ==> pause_refuses(*final(self)) == paused,
            final(self).assertions@ == old(self).assertions@,
            match old(self).deployment {
                None => {
                    &&& r == Err::<(), Error>(Error::NotInitialized)
                    &&& final(self).deployment is None
                    &&& final(self).events@ == old(self).events@
                },
                Some(d) => {
                    &&& r is Ok
                    &&& final(self).deployment == Some((Deployment { paused, ..d }))
                    &&& final(self).events@ == old(self).events@.push(
                        Event::PauseUpdated(PauseUpdated { paused }),
                    )
                },
            },
    {
        match self.deployment.as_mut() {
            None => return Err(Error::NotInitialized),
            Some(d) => {
                d.paused = paused;
            },
        }
        self.events.push(Event::PauseUpdated(PauseUpdated { paused }));
        Ok(())
    }

    /// Replaces the live committee; the emergency override path. Callable
    /// while paused. An open rotation proposal is cleared, so no proposal
    /// ever executes against a committee it was not built for. Assertions
    /// already disputed keep the committee copied onto them. The host
    /// requires the admin's signature before the committee is checked.
    pub fn update_resolvers(&mut self, new_resolvers: Vec<Address>) -> (r: Result<(), Error>)
        requires
            old(self).wf(),
        ensures
            final(self).wf(),
            assertions_advance(*old(self), *final(self)),
            r != Err::<(), Error>(Error::Paused),
            final(self).assertions@ == old(self).assertions@,
            r is Err ==> final(self).events@ == old(self).events@,
            match old(self).deployment {
                None => r == Err::<(), Error>(Error::NotInitialized) && final(self).deployment
                    is None,
                Some(d) => match committee_error(new_resolvers@) {
                    Some(e) => r == Err::<(), Error>(e) && final(self).deployment == old(
                        self,
                    ).deployment,
                    None => r is Ok && final(self).events@ == old(self).events@ + update_events(
                        d.rotation,
                        new_resolvers,
                    ) && (final(self).deployment matches Some(d2) && {
                        &&& d2.resolvers@ == new_resolvers@
                        &&& d2.rotation is None
                        &&& d2.admin == d.admin
                        &&& d2.token == d.token
                        &&& d2.bond_amount == d.bond_amount
                        &&& d2.challenge_window_secs == d.challenge_window_secs
                        &&& d2.next_id == d.next_id
                        &&& d2.paused == d.paused
                        &&& d2.finalize_reward_bps == d.finalize_reward_bps
                    }),
                },
            },
    {
        if self.deployment.is_none() {
            return Err(Error::NotInitialized);
        }
        check_committee(&new_resolvers)?;
        let cancelled = match self.deployment.as_mut() {
            None => return Err(Error::NotInitialized),
            Some(d) => {
                d.resolvers = copy_addresses(&new_resolvers);
                d.rotation.take()
            },
        };
        if let Some(p) = cancelled {
            self.events.push(
                Event::RotationCancelled(
                    RotationCancelled { old_resolver: p.old_resolver, new_resolver: p.new_resolver },
                ),
            );
        }
        self.events.push(Event::ResolversUpdated(ResolversUpdated { resolvers: new_resolvers }));
        Ok(())
    }

    /// Posts a bonded claim about an outcome at ledger time `now`. Returns
    /// the new assertion id and the bond deposit the host must collect from
    /// `asserter`, whose signature it requires.
    pub fn assert_outcome(&mut self, asserter: Address, outcome: bool, now: u64) -> (r: Result<
        (u64, Vec<Transfer>),
        Error,
    >)
        requires
            old(self).wf(),
            old(self).deployment matches Some(d) ==> d.next_id < u64::MAX,
        ensures
            final(self).wf(),
            assertions_advance(*old(self), *final(self)),
            (r == Err::<(u64, Vec<Transfer>), Error>(Error::Paused)) <==> pause_refuses(*old(self)),
            r is Err ==> final(self).events@ == old(self).events@,
            match old(self).deployment {
                None => {
                    &&& r == Err::<(u64, Vec<Transfer>), Error>(Error::NotInitialized)
                    &&& final(self).deployment == old(self).deployment
                    &&& final(self).assertions@ == old(self).assertions@
                },
                Some(d) => if d.paused {
                    &&& r == Err::<(u64, Vec<Transfer>), Error>(Error::Paused)
                    &&& final(self).deployment == old(self).deployment
                    &&& final(self).assertions@ == old(self).assertions@
                } else {
                    &&& r matches Ok((id, ts)) && {
                        &&& id == d.next_id
                        &&& !old(self).assertions@.contains_key(id)
                        &&& final(self).assertions@ == old(self).assertions@.insert(
                            id,
                            final(self).assertions@[id],
                        )
                        &&& final(self).assertions@[id].is_fresh(
                            asserter,
                            outcome,
                            d.bond_amount,
                            now,
                        )
                        &&& ts@ == seq![Transfer::Deposit { from: asserter, amount: d.bond_amount }]
                        &&& net_deposit(ts@) == final(self).assertions@[id].escrowed()
                        &&& final(self).events@ == old(self).events@.push(
                            Event::Asserted(Asserted { id, asserter, outcome }),
                        )
                    }
                    &&& final(self).deployment == Some((Deployment { next_id: (d.next_id + 1) as u64, ..d }))
                },
            },
    {
        let d = match self.deployment.as_mut() {
            None => return Err(Error::NotInitialized),
            Some(d) => d,
        };
        if d.paused {
            return Err(Error::Paused);
        }
        let bond = d.bond_amount;
        let id = d.next_id;
        d.next_id = id + 1;
        let assertion = Assertion {
            asserter: asserter.clone(),
            outcome,
            bond,
            opened_at: now,
            status: Status::Pending,
            disputer: None,
            votes_for_outcome: 0,
            votes_against_outcome: 0,
            voted: Vec::new(),
            resolvers: Vec::new(),
            finalizer: None,
        };
        self.assertions.insert(id, assertion);
        self.events.push(Event::Asserted(Asserted { id, asserter: asserter.clone(), outcome }));
        let mut ts: Vec<Transfer> = Vec::new();
        ts.push(Transfer::Deposit { from: asserter, amount: bond });
        proof {
            reveal_with_fuel(net_deposit, 2);
        }
        Ok((id, ts))
    }

    /// Disputes a pending assertion within its challenge window by matching
    /// its bond. The live committee is copied onto the assertion: it alone
    /// decides this dispute, whatever later happens to the committee.
    /// Returns the bond deposit the host must collect from `disputer`, whose
    /// signature it requires.
    pub fn dispute(&mut self, disputer: Address, id: u64, now: u64) -> (r: Result<Vec<Transfer>, Error>)
        requires
            old(self).wf(),
            old(self).deployment matches Some(d) ==> (old(self).assertions@.contains_key(id)
                ==> old(self).assertions@[id].opened_at + d.challenge_window_secs <= u64::MAX),
        ensures
            final(self).wf(),
            assertions_advance(*old(self), *final(self)),
            (r == Err::<Vec<Transfer>, Error>(Error::Paused)) <==> pause_refuses(*old(self)),
            match old(self).deployment {
                None => r == Err::<Vec<Transfer>, Error>(Error::NotInitialized) && same_state(
                    *final(self),
                    *old(self),
                ),
                Some(d) => {
                    let a = old(self).assertions@[id];
                    if d.paused {
                        r == Err::<Vec<Transfer>, Error>(Error::Paused) && same_state(
                            *final(self),
                            *old(self),
                        )
                    } else if !old(self).assertions@.contains_key(id) {
                        r == Err::<Vec<Transfer>, Error>(Error::AssertionNotFound) && same_state(
                            *final(self),
                            *old(self),
                        )
                    } else if a.status != Status::Pending {
                        r == Err::<Vec<Transfer>, Error>(Error::NotPending) && same_state(
                            *final(self),
                            *old(self),
                        )
                    } else if now > a.opened_at + d.challenge_window_secs {
                        r == Err::<Vec<Transfer>, Error>(Error::ChallengeWindowClosed)
                            && same_state(*final(self), *old(self))
                    } else {
                        &&& only_assertion_changed(*old(self), *final(self), id)
                        &&& final(self).assertions@[id].disputed_from(a, disputer, d.resolvers@)
                        &&& r matches Ok(ts) && {
                            &&& ts@ == seq![Transfer::Deposit { from: disputer, amount: a.bond }]
                            &&& net_deposit(ts@) == final(self).assertions@[id].escrowed()
                                - a.escrowed()
                        }
                        &&& final(self).events@ == old(self).events@.push(
                            Event::Disputed(Disputed { id, disputer }),
                        )
                    }
                },
            },
    {
        let (paused, window, committee) = match &self.deployment {
            None => return Err(Error::NotInitialized),
            Some(d) => (d.paused, d.challenge_window_secs, copy_addresses(&d.resolvers)),
        };
        if paused {
            return Err(Error::Paused);
        }
        match self.assertions.get(&id) {
            None => return Err(Error::AssertionNotFound),
            Some(a) => {
                if a.status != Status::Pending {
                    return Err(Error::NotPending);
                }
                if now > a.opened_at + window {
                    return Err(Error::ChallengeWindowClosed);
                }
            },
        }
        let mut a = match self.assertions.remove(&id) {
            None => return Err(Error::AssertionNotFound),
            Some(a) => a,
        };
        let bond = a.bond;
        a.resolvers = committee;
        a.disputer = Some(disputer.clone());
        a.status = Status::Disputed;
        self.assertions.insert(id, a);
        self.events.push(Event::Disputed(Disputed { id, disputer: disputer.clone() }));
        let mut ts: Vec<Transfer> = Vec::new();
        ts.push(Transfer::Deposit { from: disputer, amount: bond });
        proof {
            reveal_with_fuel(net_deposit, 2);
            assert(self.assertions@ =~= old(self).assertions@.insert(id, self.assertions@[id]));
        }
        Ok(ts)
    }

    /// Finalizes a pending assertion once its challenge window has passed
    /// with no dispute, at ledger time `now`. Not blocked by the pause.
    /// `caller` is recorded as the finalizer (the host always requires its
    /// signature) and receives `bond * finalize_reward_bps / 10_000` when
    /// that is positive; the asserter receives the rest of the bond. Returns
    /// the asserted outcome and the payouts, in order.
    pub fn finalize(&mut self, caller: Address, id: u64, now: u64) -> (r: Result<
        (bool, Vec<Transfer>),
        Error,
    >)
        requires
            old(self).wf(),
            old(self).deployment matches Some(d) ==> (old(self).assertions@.contains_key(id)
                ==> old(self).assertions@[id].opened_at + d.challenge_window_secs <= u64::MAX),
        ensures
            final(self).wf(),
            assertions_advance(*old(self), *final(self)),
            r != Err::<(bool, Vec<Transfer>), Error>(Error::Paused),
            ({
                let a = old(self).assertions@[id];
                let d = old(self).deployment->0;
                if !old(self).assertions@.contains_key(id) {
                    r == Err::<(bool, Vec<Transfer>), Error>(Error::AssertionNotFound)
                        && same_state(*final(self), *old(self))
                } else if a.status != Status::Pending {
                    r == Err::<(bool, Vec<Transfer>), Error>(Error::NotPending) && same_state(
                        *final(self),
                        *old(self),
                    )
                } else if now <= a.opened_at + d.challenge_window_secs {
                    r == Err::<(bool, Vec<Transfer>), Error>(Error::ChallengeWindowOpen)
                        && same_state(*final(self), *old(self))
                } else {
                    let b = final(self).assertions@[id];
                    &&& only_assertion_changed(*old(self), *final(self), id)
                    &&& b == (Assertion { status: Status::Resolved, finalizer: Some(caller), ..a })
                    &&& r matches Ok((outcome, ts)) && {
                        &&& outcome == a.outcome
                        &&& ts@ == finalize_payouts(
                            caller,
                            a.asserter,
                            a.bond,
                            d.finalize_reward_bps,
                        )
                        &&& net_deposit(ts@) == b.escrowed() - a.escrowed()
                    }
                    &&& final(self).events@ == old(self).events@.push(
                        Event::Finalized(
                            Finalized {
                                id,
                                outcome: a.outcome,
                                finalizer: caller,
                                reward: finalize_reward(a.bond, d.finalize_reward_bps) as i128,
                            },
                        ),
                    )
                }
            }),
    {
        let (status, opened_at, bond, outcome) = match self.assertions.get(&id) {
            None => return Err(Error::AssertionNotFound),
            Some(a) => (a.status, a.opened_at, a.bond, a.outcome),
        };
        if status != Status::Pending {
            return Err(Error::NotPending);
        }
        let (window, reward_bps) = match &self.deployment {
            None => return Err(Error::NotInitialized),
            Some(d) => (d.challenge_window_secs, d.finalize_reward_bps),
        };
        if now <= opened_at + window {
            return Err(Error::ChallengeWindowOpen);
        }
        proof {
            assert(bond * reward_bps <= MAX_BOND_AMOUNT * MAX_FINALIZE_REWARD_BPS) by (nonlinear_arith)
                requires
                    0 < bond <= MAX_BOND_AMOUNT,
                    reward_bps <= MAX_FINALIZE_REWARD_BPS,
            ;
            assert(0 <= (bond * reward_bps) / 10_000 <= bond / 10) by (nonlinear_arith)
                requires
                    0 < bond,
                    reward_bps <= 1_000,
            ;
        }
        let reward: i128 = if reward_bps > 0 {
            bond * (reward_bps as i128) / BPS_DENOMINATOR
        } else {
            0
        };
        let mut a = match self.assertions.remove(&id) {
            None => return Err(Error::AssertionNotFound),
            Some(a) => a,
        };
        let asserter = a.asserter.clone();
        a.status = Status::Resolved;
        a.finalizer = Some(caller.clone());
        self.assertions.insert(id, a);
        self.events.push(
            Event::Finalized(Finalized { id, outcome, finalizer: caller.clone(), reward }),
        );
        let mut ts: Vec<Transfer> = Vec::new();
        if reward > 0 {
            ts.push(Transfer::Payout { to: caller, amount: reward });
        }
        ts.push(Transfer::Payout { to: asserter, amount: bond - reward });
        proof {
            reveal_with_fuel(net_deposit, 3);
            assert(self.assertions@ =~= old(self).assertions@.insert(id, self.assertions@[id]));
        }
        Ok((outcome, ts))
    }

    /// A resolver of the committee copied onto a disputed assertion votes on
    /// it. Once one side reaches a strict majority of that committee the
    /// assertion is resolved and the winner (the asserter if the claim
    /// stands, the disputer otherwise) receives both bonds. Returns the final
    /// outcome once decided, `None` while undecided, and the payouts. The
    /// host requires `resolver`'s signature.
    pub fn resolve(&mut self, resolver: Address, id: u64, agrees_with_asserter: bool) -> (r: Result<
        (Option<bool>, Vec<Transfer>),
        Error,
    >)
        requires
            old(self).wf(),
        ensures
            final(self).wf(),
            assertions_advance(*old(self), *final(self)),
            (r == Err::<(Option<bool>, Vec<Transfer>), Error>(Error::Paused)) <==> pause_refuses(*old(self)),
            ({
                let a = old(self).assertions@[id];
                let d = old(self).deployment->0;
                if old(self).deployment is None {
                    r == Err::<(Option<bool>, Vec<Transfer>), Error>(Error::NotInitialized)
                        && same_state(*final(self), *old(self))
                } else if d.paused {
                    r == Err::<(Option<bool>, Vec<Transfer>), Error>(Error::Paused) && same_state(
                        *final(self),
                        *old(self),
                    )
                } else if !old(self).assertions@.contains_key(id) {
                    r == Err::<(Option<bool>, Vec<Transfer>), Error>(Error::AssertionNotFound)
                        && same_state(*final(self), *old(self))
                } else if a.status != Status::Disputed {
                    r == Err::<(Option<bool>, Vec<Transfer>), Error>(Error::NotDisputed)
                        && same_state(*final(self), *old(self))
                } else if !has_addr(a.resolvers@, resolver) {
                    r == Err::<(Option<bool>, Vec<Transfer>), Error>(Error::NotAResolver)
                        && same_state(*final(self), *old(self))
                } else if has_addr(a.voted@, resolver) {
                    r == Err::<(Option<bool>, Vec<Transfer>), Error>(Error::AlreadyVoted)
                        && same_state(*final(self), *old(self))
                } else {
                    let b = final(self).assertions@[id];
                    let votes_for = a.votes_for_outcome + if agrees_with_asserter { 1int } else { 0 };
                    let votes_against = a.votes_against_outcome + if agrees_with_asserter { 0int } else { 1 };
                    let decided = votes_for >= a.majority() || votes_against >= a.majority();
                    &&& only_assertion_changed(*old(self), *final(self), id)
                    &&& b.voted@ == a.voted@.push(resolver)
                    &&& b.votes_for_outcome == votes_for
                    &&& b.votes_against_outcome == votes_against
                    &&& b.status == (if decided { Status::Resolved } else { Status::Disputed })
                    &&& b.asserter == a.asserter && b.outcome == a.outcome && b.bond == a.bond
                    &&& b.opened_at == a.opened_at && b.disputer == a.disputer
                    &&& b.resolvers == a.resolvers && b.finalizer == a.finalizer
                    &&& r matches Ok((result, ts)) && {
                        &&& net_deposit(ts@) == b.escrowed() - a.escrowed()
                        &&& if !decided {
                            result is None && ts@ == Seq::<Transfer>::empty()
                        } else if votes_for >= a.majority() {
                            &&& result == Some(a.outcome)
                            &&& ts@ == seq![Transfer::Payout { to: a.asserter, amount: (2 * a.bond) as i128 }]
                        } else {
                            &&& result == Some(!a.outcome)
                            &&& ts@ == seq![Transfer::Payout { to: a.disputer->0, amount: (2 * a.bond) as i128 }]
                        }
                        &&& final(self).events@ == match result {
                            Some(outcome) => old(self).events@.push(
                                Event::Resolved(Resolved { id, outcome }),
                            ),
                            None => old(self).events@,
                        }
                    }
                }
            }),
    {
        match &self.deployment {
            None => return Err(Error::NotInitialized),
            Some(d) => {
                if d.paused {
                    return Err(Error::Paused);
                }
            },
        }
        match self.assertions.get(&id) {
            None => return Err(Error::AssertionNotFound),
            Some(a) => {
                if a.status != Status::Disputed {
                    return Err(Error::NotDisputed);
                }
                if !contains_address(&a.resolvers, &resolver) {
                    return Err(Error::NotAResolver);
                }
                if contains_address(&a.voted, &resolver) {
                    return Err(Error::AlreadyVoted);
                }
            },
        }
        let mut a = match self.assertions.remove(&id) {
            None => return Err(Error::AssertionNotFound),
            Some(a) => a,
        };
        proof {
            assert(a.wf(id, self.deployment->0));
            let pushed = a.voted@.push(resolver);
            assert(distinct_addrs(pushed)) by {
                assert forall|p: int, q: int| 0 <= p < q < pushed.len() implies pushed[p]@ != pushed[q]@ by {
                    if q == pushed.len() - 1 {
                        assert(pushed[p] == a.voted@[p]);
                    }
                }
            }
            assert(subset_addrs(pushed, a.resolvers@)) by {
                assert forall|p: int| 0 <= p < pushed.len() implies has_addr(a.resolvers@, #[trigger] pushed[p]) by {
                    if p < a.voted@.len() {
                        assert(pushed[p] == a.voted@[p]);
                    }
                }
            }
            lemma_distinct_subset_len(pushed, a.resolvers@);
        }
        a.voted.push(resolver);
        if agrees_with_asserter {
            a.votes_for_outcome = a.votes_for_outcome + 1;
        } else {
            a.votes_against_outcome = a.votes_against_outcome + 1;
        }
        let majority = (a.resolvers.len() / 2 + 1) as u32;
        let winner_is_asserter = if a.votes_for_outcome >= majority {
            Some(true)
        } else if a.votes_against_outcome >= majority {
            Some(false)
        } else {
            None
        };
        let mut ts: Vec<Transfer> = Vec::new();
        let result = match winner_is_asserter {
            None => {
                self.assertions.insert(id, a);
                None
            },
            Some(asserter_wins) => {
                let payout = a.bond * 2;
                let winner = if asserter_wins {
                    a.asserter.clone()
                } else {
                    match &a.disputer {
                        Some(w) => w.clone(),
                        None => a.asserter.clone(),
                    }
                };
                let final_outcome = if asserter_wins {
                    a.outcome
                } else {
                    !a.outcome
                };
                a.status = Status::Resolved;
                self.assertions.insert(id, a);
                self.events.push(Event::Resolved(Resolved { id, outcome: final_outcome }));
                ts.push(Transfer::Payout { to: winner, amount: payout });
                Some(final_outcome)
            },
        };
        proof {
            reveal_with_fuel(net_deposit, 2);
            assert(self.assertions@ =~= old(self).assertions@.insert(id, self.assertions@[id]));
        }
        Ok((result, ts))
    }

    /// Proposes replacing the member `old_resolver` of the live committee
    /// by the non-member `new_resolver`. Only a current resolver may
    /// propose, and only one proposal may be open. Not blocked by the pause.
    /// The host requires `resolver`'s signature.
    pub fn propose_rotation(
        &mut self,
        resolver: Address,
        old_resolver: Address,
        new_resolver: Address,
    ) -> (r: Result<(), Error>)
        requires
            old(self).wf(),
        ensures
            final(self).wf(),
            assertions_advance(*old(self), *final(self)),
            r != Err::<(), Error>(Error::Paused),
            final(self).assertions@ == old(self).assertions@,
            final(self).events@ == match r {
                Ok(()) => old(self).events@.push(
                    Event::RotationProposed(
                        RotationProposed { old_resolver, new_resolver, proposed_by: resolver },
                    ),
                ),
                Err(_) => old(self).events@,
            },
            ({
                let d = old(self).deployment->0;
                let c = d.resolvers@;
                if old(self).deployment is None {
                    r == Err::<(), Error>(Error::NotInitialized) && final(self).deployment
                        == old(self).deployment
                } else if !has_addr(c, resolver) {
                    r == Err::<(), Error>(Error::NotAResolver) && final(self).deployment == old(
                        self,
                    ).deployment
                } else if d.rotation is Some {
                    r == Err::<(), Error>(Error::RotationInProgress) && final(self).deployment
                        == old(self).deployment
                } else if !has_addr(c, old_resolver) {
                    r == Err::<(), Error>(Error::ResolverNotInCommittee) && final(self).deployment
                        == old(self).deployment
                } else if has_addr(c, new_resolver) || old_resolver@ == new_resolver@ {
                    r == Err::<(), Error>(Error::DuplicateResolver) && final(self).deployment
                        == old(self).deployment
                } else {
                    &&& r is Ok
                    &&& final(self).deployment matches Some(d2) && {
                        &&& d2.rotation matches Some(p) && {
                            &&& p.old_resolver == old_resolver
                            &&& p.new_resolver == new_resolver
                            &&& p.proposed_by == resolver
                            &&& p.yes@.len() == 0
                            &&& p.no@.len() == 0
                        }
                        &&& d2.resolvers == d.resolvers
                        &&& d2.admin == d.admin && d2.token == d.token
                        &&& d2.bond_amount == d.bond_amount
                        &&& d2.challenge_window_secs == d.challenge_window_secs
                        &&& d2.next_id == d.next_id && d2.paused == d.paused
                        &&& d2.finalize_reward_bps == d.finalize_reward_bps
                    }
                }
            }),
    {
        let d = match self.deployment.as_mut() {
            None => return Err(Error::NotInitialized),
            Some(d) => d,
        };
        if !contains_address(&d.resolvers, &resolver) {
            return Err(Error::NotAResolver);
        }
        if d.rotation.is_some() {
            return Err(Error::RotationInProgress);
        }
        if !contains_address(&d.resolvers, &old_resolver) {
            return Err(Error::ResolverNotInCommittee);
        }
        if contains_address(&d.resolvers, &new_resolver) || same_address(&old_resolver, &new_resolver) {
            return Err(Error::DuplicateResolver);
        }
        let proposed = RotationProposed {
            old_resolver: old_resolver.clone(),
            new_resolver: new_resolver.clone(),
            proposed_by: resolver.clone(),
        };
        d.rotation = Some(
            RotationProposal {
                old_resolver,
                new_resolver,
                proposed_by: resolver,
                yes: Vec::new(),
                no: Vec::new(),
            },
        );
        self.events.push(Event::RotationProposed(proposed));
        Ok(())
    }

    /// A current resolver votes on the open rotation. Once yes-votes reach a
    /// strict majority of the live committee the rotation executes: the old
    /// member is swapped for the new one and the proposal is cleared. If the
    /// members who have not voted can no longer bring the yes-votes to a
    /// majority, the proposal is cancelled. Returns `Some(true)` when
    /// executed, `Some(false)` when cancelled, `None` while it stays open.
    /// Not blocked by the pause. The host requires `resolver`'s signature.
    pub fn vote_rotation(&mut self, resolver: Address, approve: bool) -> (r: Result<Option<bool>, Error>)
        requires
            old(self).wf(),
        ensures
            final(self).wf(),
            assertions_advance(*old(self), *final(self)),
            r != Err::<Option<bool>, Error>(Error::Paused),
            final(self).assertions@ == old(self).assertions@,
            ({
                let p = old(self).deployment->0.rotation->0;
                let before = old(self).events@;
                let after = final(self).events@;
                match r {
                    Ok(Some(true)) => {
                        &&& after.len() == before.len() + 2
                        &&& after.subrange(0, before.len() as int) == before
                        &&& after[before.len() as int] == Event::RotationExecuted(
                            RotationExecuted { old_resolver: p.old_resolver, new_resolver: p.new_resolver },
                        )
                        &&& after[before.len() + 1int] matches Event::ResolversUpdated(u)
                            && final(self).deployment matches Some(d2)
                            && u.resolvers@ == d2.resolvers@
                    },
                    Ok(Some(false)) => after == before.push(
                        Event::RotationCancelled(
                            RotationCancelled { old_resolver: p.old_resolver, new_resolver: p.new_resolver },
                        ),
                    ),
                    _ => after == before,
                }
            }),
            ({
                let d = old(self).deployment->0;
                let c = d.resolvers@;
                let p = d.rotation->0;
                let yes = if approve { p.yes@.push(resolver) } else { p.yes@ };
                let no = if approve { p.no@ } else { p.no@.push(resolver) };
                let n = c.len() as int;
                if old(self).deployment is None || d.rotation is None {
                    r == Err::<Option<bool>, Error>(Error::NoRotationProposal)
                        && final(self).deployment == old(self).deployment
                } else if !has_addr(c, resolver) {
                    r == Err::<Option<bool>, Error>(Error::NotAResolver) && final(self).deployment
                        == old(self).deployment
                } else if has_addr(p.yes@, resolver) || has_addr(p.no@, resolver) {
                    r == Err::<Option<bool>, Error>(Error::AlreadyVoted) && final(self).deployment
                        == old(self).deployment
                } else {
                    final(self).deployment matches Some(d2) && {
                        &&& d2.admin == d.admin && d2.token == d.token
                        &&& d2.bond_amount == d.bond_amount
                        &&& d2.challenge_window_secs == d.challenge_window_secs
                        &&& d2.next_id == d.next_id && d2.paused == d.paused
                        &&& d2.finalize_reward_bps == d.finalize_reward_bps
                        &&& if yes.len() >= majority_of(n) {
                            &&& r == Ok::<Option<bool>, Error>(Some(true))
                            &&& d2.resolvers@ == swapped(c, p.old_resolver, p.new_resolver)
                            &&& d2.rotation is None
                        } else if yes.len() + (n - yes.len() - no.len()) < majority_of(n) {
                            &&& r == Ok::<Option<bool>, Error>(Some(false))
                            &&& d2.resolvers == d.resolvers
                            &&& d2.rotation is None
                        } else {
                            &&& r == Ok::<Option<bool>, Error>(None)
                            &&& d2.resolvers == d.resolvers
                            &&& d2.rotation matches Some(p2) && {
                                &&& p2.old_resolver == p.old_resolver
                                &&& p2.new_resolver == p.new_resolver
                                &&& p2.proposed_by == p.proposed_by
                                &&& p2.yes@ == yes
                                &&& p2.no@ == no
                            }
                        }
                    }
                }
            }),
    {
        let d = match self.deployment.as_mut() {
            None => return Err(Error::NoRotationProposal),
            Some(d) => d,
        };
        match &d.rotation {
            None => return Err(Error::NoRotationProposal),
            Some(p) => {
                if !contains_address(&d.resolvers, &resolver) {
                    return Err(Error::NotAResolver);
                }
                if contains_address(&p.yes, &resolver) || contains_address(&p.no, &resolver) {
                    return Err(Error::AlreadyVoted);
                }
            },
        }
        let mut p = match d.rotation.take() {
            None => return Err(Error::NoRotationProposal),
            Some(p) => p,
        };
        proof {
            lemma_ballot_push(p.yes@, p.no@, d.resolvers@, resolver);
        }
        if approve {
            p.yes.push(resolver);
        } else {
            p.no.push(resolver);
        }
        proof {
            lemma_ballots_fit(p.yes@, p.no@, d.resolvers@);
        }
        let n = d.resolvers.len();
        let majority = n / 2 + 1;
        if p.yes.len() >= majority {
            let new_committee = swap_resolver(&d.resolvers, &p.old_resolver, &p.new_resolver);
            proof {
                lemma_swap_keeps_committee(d.resolvers@, p.old_resolver, p.new_resolver);
            }
            d.resolvers = copy_addresses(&new_committee);
            self.events.push(
                Event::RotationExecuted(
                    RotationExecuted { old_resolver: p.old_resolver, new_resolver: p.new_resolver },
                ),
            );
            self.events.push(Event::ResolversUpdated(ResolversUpdated { resolvers: new_committee }));
            return Ok(Some(true));
        }
        let remaining = n - p.yes.len() - p.no.len();
        if p.yes.len() + remaining < majority {
            self.events.push(
                Event::RotationCancelled(
                    RotationCancelled { old_resolver: p.old_resolver, new_resolver: p.new_resolver },
                ),
            );
            return Ok(Some(false));
        }
        d.rotation = Some(p);
        Ok(None)
    }

    /// Cancels the open rotation. The proposer may always cancel; any other
    /// current resolver only once the proposal can no longer reach a
    /// majority. The host requires `resolver`'s signature.
    pub fn cancel_rotation(&mut self, resolver: Address) -> (r: Result<(), Error>)
        requires
            old(self).wf(),
        ensures
            final(self).wf(),
            assertions_advance(*old(self), *final(self)),
            r != Err::<(), Error>(Error::Paused),
            final(self).assertions@ == old(self).assertions@,
            ({
                let p = old(self).deployment->0.rotation->0;
                final(self).events@ == match r {
                    Ok(()) => old(self).events@.push(
                        Event::RotationCancelled(
                            RotationCancelled { old_resolver: p.old_resolver, new_resolver: p.new_resolver },
                        ),
                    ),
                    Err(_) => old(self).events@,
                }
            }),
            ({
                let d = old(self).deployment->0;
                let c = d.resolvers@;
                let p = d.rotation->0;
                let n = c.len() as int;
                if old(self).deployment is None || d.rotation is None {
                    r == Err::<(), Error>(Error::NoRotationProposal) && final(self).deployment
                        == old(self).deployment
                } else if !has_addr(c, resolver) {
                    r == Err::<(), Error>(Error::NotAResolver) && final(self).deployment == old(
                        self,
                    ).deployment
                } else if !(resolver@ == p.proposed_by@ || p.yes@.len() + (n - p.yes@.len()
                    - p.no@.len()) < majority_of(n)) {
                    r == Err::<(), Error>(Error::NotProposer) && final(self).deployment == old(
                        self,
                    ).deployment
                } else {
                    &&& r is Ok
                    &&& final(self).deployment == Some((Deployment { rotation: None, ..d }))
                }
            }),
    {
        let d = match self.deployment.as_mut() {
            None => return Err(Error::NoRotationProposal),
            Some(d) => d,
        };
        match &d.rotation {
            None => return Err(Error::NoRotationProposal),
            Some(p) => {
                if !contains_address(&d.resolvers, &resolver) {
                    return Err(Error::NotAResolver);
                }
                proof {
                    lemma_ballots_fit(p.yes@, p.no@, d.resolvers@);
                }
                let n = d.resolvers.len();
                let majority = n / 2 + 1;
                let remaining = n - p.yes.len() - p.no.len();
                let can_cancel = same_address(&resolver, &p.proposed_by) || p.yes.len() + remaining
                    < majority;
                if !can_cancel {
                    return Err(Error::NotProposer);
                }
            },
        }
        let cancelled = match d.rotation.take() {
            None => return Err(Error::NoRotationProposal),
            Some(p) => RotationCancelled { old_resolver: p.old_resolver, new_resolver: p.new_resolver },
        };
        self.events.push(Event::RotationCancelled(cancelled));
        Ok(())
    }

    /// The stored assertion under `id`.
    pub fn get_assertion_state(&self, id: u64) -> (r: Result<&Assertion, Error>)
        ensures
            match r {
                Ok(a) => self.assertions@.contains_key(id) && *a == self.assertions@[id],
                Err(e) => !self.assertions@.contains_key(id) && e == Error::AssertionNotFound,
            },
    {
        match self.assertions.get(&id) {
            None => Err(Error::AssertionNotFound),
            Some(a) => Ok(a),
        }
    }
}


/// An odd committee never gives both sides a strict majority: once a
/// disputed assertion is decided, it is decided for exactly one side.
pub proof fn lemma_no_tie(a: Assertion)
    requires
        a.tally_ok(),
    ensures
        !(a.votes_for_outcome >= a.majority() && a.votes_against_outcome >= a.majority()),
{
    lemma_distinct_subset_len(a.voted@, a.resolvers@);
}

/// An uncontested finalize splits the bond exactly: the reward is at most a
/// tenth of it, the asserter receives a positive remainder, and the payouts
/// empty the escrow of exactly the one bond.
pub proof fn lemma_finalize_split(caller: Address, asserter: Address, bond: i128, bps: u32)
    requires
        0 < bond <= MAX_BOND_AMOUNT,
        bps <= MAX_FINALIZE_REWARD_BPS,
    ensures
        0 <= finalize_reward(bond, bps) <= bond / 10,
        bond - finalize_reward(bond, bps) > 0,
        net_deposit(finalize_payouts(caller, asserter, bond, bps)) == -bond,
{
    assert(0 <= (bond * bps) / 10_000 <= bond / 10) by (nonlinear_arith)
        requires
            0 < bond,
            bps <= 1_000,
    ;
    reveal_with_fuel(net_deposit, 3);
    let ts = finalize_payouts(caller, asserter, bond, bps);
    if finalize_reward(bond, bps) > 0 {
        assert(ts.drop_last().drop_last() =~= Seq::<Transfer>::empty());
    } else {
        assert(ts.drop_last() =~= Seq::<Transfer>::empty());
    }
}

/// A proposal that is still open can still pass: enough members have not
/// voted no for the yes-votes to reach a majority. So only its proposer can
/// cancel an open proposal; `vote_rotation` cancels a dead one itself.
pub proof fn lemma_open_proposal_can_still_pass(p: RotationProposal, c: Seq<Address>)
    requires
        valid_committee(c),
        p.fits(c),
    ensures
        p.yes@.len() + (c.len() - p.yes@.len() - p.no@.len()) >= majority_of(c.len() as int),
{
}

/// Pausing gates exactly posting, disputing and voting: in the state
/// `set_paused(paused)` leaves behind, `assert_outcome`, `dispute` and
/// `resolve` refuse with `Paused` exactly when `paused` (each states so over
/// `pause_refuses`), while `finalize`, `update_resolvers` and the rotation
/// calls never refuse for it. Nothing else about the state changes.
pub proof fn lemma_pause_gate(t: Tholos, paused: bool)
    requires
        t.deployment is Some,
    ensures
        ({
            let after = Tholos { deployment: Some((Deployment { paused, ..t.deployment->0 })), ..t };
            &&& pause_refuses(after) == paused
            &&& after.assertions@ == t.assertions@
            &&& after.events@ == t.events@
        }),
{
}

/// A rotation replaces the voted-out member in place: the committee keeps
/// its length and order, every seat held by `old_resolver` now holds
/// `new_resolver`, and every other seat is unchanged. So a member that
/// occurred once is gone afterwards, and the newcomer sits exactly where it
/// sat.
pub proof fn lemma_swap_in_place(c: Seq<Address>, old_resolver: Address, new_resolver: Address)
    ensures
        swapped(c, old_resolver, new_resolver).len() == c.len(),
        forall|i: int| #![trigger swapped(c, old_resolver, new_resolver)[i]]
            0 <= i < c.len() ==> swapped(c, old_resolver, new_resolver)[i] == (if c[i]@
                == old_resolver@ {
                new_resolver
            } else {
                c[i]
            }),
        old_resolver@ != new_resolver@ ==> !has_addr(swapped(c, old_resolver, new_resolver), old_resolver),
        has_addr(c, old_resolver) ==> has_addr(swapped(c, old_resolver, new_resolver), new_resolver),
{
    let s = swapped(c, old_resolver, new_resolver);
    if old_resolver@ != new_resolver@ && has_addr(s, old_resolver) {
        let i = choose|i: int| 0 <= i < s.len() && #[trigger] s[i]@ == old_resolver@;
        assert(s[i] == (if c[i]@ == old_resolver@ { new_resolver } else { c[i] }));
    }
    if has_addr(c, old_resolver) {
        let i = choose|i: int| 0 <= i < c.len() && #[trigger] c[i]@ == old_resolver@;
        assert(s[i]@ == new_resolver@);
    }
}

/// A committee is accepted exactly when it has an odd number of members, at
/// most `MAX_RESOLVERS`, and no address occurs at two positions, however far
/// apart; a well-sized committee with any repeated address is refused with
/// `DuplicateResolvers`.
pub proof fn lemma_committee_rule(c: Seq<Address>)
    ensures
        committee_error(c) is None <==> (c.len() % 2 == 1 && c.len() <= 21 && forall|i: int, j: int|
            0 <= i < j < c.len() ==> c[i]@ != c[j]@),
        (c.len() % 2 == 1 && c.len() <= 21 && exists|i: int, j: int|
            0 <= i < j < c.len() && c[i]@ == c[j]@) ==> committee_error(c) == Some(
            Error::DuplicateResolvers,
        ),
{
    if c.len() % 2 == 1 && c.len() <= 21 && exists|i: int, j: int|
        0 <= i < j < c.len() && c[i]@ == c[j]@ {
        let (i, j) = choose|i: int, j: int| 0 <= i < j < c.len() && c[i]@ == c[j]@;
        assert(c[i]@ == c[j]@);
        assert(!distinct_addrs(c));
    }
}

/// The finalize reward is the bond's share at `bps` basis points rounded
/// down: `10_000 * reward <= bond * bps < 10_000 * (reward + 1)`.
pub proof fn lemma_finalize_reward_exact(bond: i128, bps: u32)
    requires
        0 < bond <= MAX_BOND_AMOUNT,
        bps <= MAX_FINALIZE_REWARD_BPS,
    ensures
        10_000 * finalize_reward(bond, bps) <= bond * bps < 10_000 * (finalize_reward(bond, bps) + 1),
{
    if bps > 0 {
        let x: int = bond * bps;
        assert(x >= 0) by (nonlinear_arith)
            requires
                x == bond * bps,
                bond > 0,
                bps > 0,
        ;
        assert(10_000 * (x / 10_000) <= x < 10_000 * (x / 10_000 + 1)) by (nonlinear_arith)
            requires
                x >= 0,
        ;
        assert(finalize_reward(bond, bps) == x / 10_000);
    }
}

} // verus!
