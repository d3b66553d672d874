use tholos::common::Transfer;
use tholos::v2::{
    vote_preimage, Digest, Error, PhaseV2, Position, PositionKind, TholosV2, ROUND,
};

const BOND: i128 = 100;
const T0: u64 = 1_700_000_000;
const REG: u64 = 3600;
const EXT: u64 = 300;
const HARD: u64 = 7200;
const REVEAL: u64 = 3600;

/// A stand-in for the host's digest of a vote preimage.
fn commitment(voter: &str, choice: bool, salt: u8) -> Digest {
    let mut out = [salt; 32];
    for (i, b) in voter.bytes().enumerate() {
        out[i % 32] ^= b;
    }
    out[31] ^= choice as u8;
    out
}

fn contract() -> TholosV2 {
    let mut t = TholosV2::new();
    t.initialize(
        "GADMIN".to_string(),
        "CTOKEN".to_string(),
        BOND,
        3600,
        0,
        REG,
        EXT,
        HARD,
        REVEAL,
        1_000,
        10_000,
    )
    .unwrap();
    t
}

/// A contract with assertion 0 by `GA` (outcome `true`) disputed by `GD` at
/// `T0`.
fn disputed() -> TholosV2 {
    let mut t = contract();
    t.assert_outcome("GA".to_string(), true, T0 - 10, [7u8; 32]).unwrap();
    t.dispute("GD".to_string(), 0, T0).unwrap();
    t
}

#[test]
fn dispute_opens_registration_with_two_public_positions() {
    let mut t = contract();
    t.assert_outcome("GA".to_string(), true, T0 - 10, [7u8; 32]).unwrap();
    let ts = t.dispute("GD".to_string(), 0, T0).unwrap();
    assert!(matches!(&ts[..], [Transfer::Deposit { from, amount: BOND }] if from == "GD"));

    let a = t.get_assertion(0).unwrap();
    assert_eq!(a.phase, PhaseV2::Registration);
    assert_eq!(a.disputer, Some("GD".to_string()));

    let res = *t.get_resolution(0).unwrap();
    assert_eq!(res.registration_opened_at, T0);
    assert_eq!(res.registration_deadline, T0 + REG);
    assert_eq!(res.registration_hard_deadline, T0 + HARD);
    assert_eq!(res.eligible_total, 2 * BOND);
    assert_eq!(res.revealed_weight(), 0);

    let asserter = *t.get_position(0, &"GA".to_string()).unwrap();
    assert_eq!(asserter, Position { amount: BOND, kind: PositionKind::Fixed(true), revealed: false });
    let disputer = *t.get_position(0, &"GD".to_string()).unwrap();
    assert_eq!(disputer, Position { amount: BOND, kind: PositionKind::Fixed(false), revealed: false });
}

#[test]
fn dispute_refusals() {
    let mut t = contract();
    assert_eq!(t.dispute("GD".to_string(), 0, T0), Err(Error::AssertionNotFound));
    t.assert_outcome("GA".to_string(), true, T0, [7u8; 32]).unwrap();
    assert_eq!(t.dispute("GA".to_string(), 0, T0), Err(Error::DisputerIsAsserter));
    t.dispute("GD".to_string(), 0, T0).unwrap();
    assert_eq!(t.dispute("GE".to_string(), 0, T0), Err(Error::NotPending));
    assert_eq!(t.finalize("GF".to_string(), 0, T0 + 4000), Err(Error::NotPending));
}

#[test]
fn register_adds_weight_and_top_ups_aggregate() {
    let mut t = disputed();
    let c = commitment("GV", true, 1);
    let ts = t.register("GV".to_string(), 0, 150, c, T0 + 10).unwrap();
    assert!(matches!(&ts[..], [Transfer::Deposit { from, amount: 150 }] if from == "GV"));
    assert_eq!(t.get_resolution(0).unwrap().eligible_total, 350);
    assert_eq!(t.get_resolution(0).unwrap().registration_deadline, T0 + REG);

    t.register("GV".to_string(), 0, 50, c, T0 + 20).unwrap();
    let p = *t.get_position(0, &"GV".to_string()).unwrap();
    assert_eq!(p, Position { amount: 200, kind: PositionKind::External(c), revealed: false });
    assert_eq!(t.get_resolution(0).unwrap().eligible_total, 400);
}

#[test]
fn register_refusals_change_nothing() {
    let mut t = disputed();
    let c = commitment("GV", true, 1);
    assert_eq!(t.register("GA".to_string(), 0, 150, c, T0), Err(Error::CannotRegisterAsFixedParty));
    assert_eq!(t.register("GD".to_string(), 0, 150, c, T0), Err(Error::CannotRegisterAsFixedParty));
    assert_eq!(t.register("GV".to_string(), 0, 0, c, T0), Err(Error::InvalidPositionAmount));
    assert_eq!(t.register("GV".to_string(), 0, 99, c, T0), Err(Error::BelowMinimumResolutionBond));
    assert_eq!(t.register("GV".to_string(), 0, 1_001, c, T0), Err(Error::PositionExceedsMax));
    assert_eq!(t.register("GV".to_string(), 1, 150, c, T0), Err(Error::AssertionNotFound));
    assert_eq!(
        t.register("GV".to_string(), 0, 150, c, T0 + REG + 1),
        Err(Error::RegistrationClosed)
    );
    t.register("GV".to_string(), 0, 100, c, T0).unwrap();
    let other = commitment("GV", false, 2);
    assert_eq!(t.register("GV".to_string(), 0, 100, other, T0), Err(Error::CommitmentMismatch));
    // A top-up is not held to the minimum for a new position.
    assert!(t.register("GV".to_string(), 0, 1, c, T0).is_ok());
    assert_eq!(t.get_resolution(0).unwrap().eligible_total, 301);
}

#[test]
fn register_refuses_a_total_over_the_weight_cap() {
    let mut t = disputed();
    for i in 0..9 {
        let v = format!("GV{}", i);
        t.register(v.clone(), 0, 1_000, commitment(&v, true, 0), T0).unwrap();
    }
    assert_eq!(t.get_resolution(0).unwrap().eligible_total, 9_200);
    let v = "GLATE".to_string();
    assert_eq!(
        t.register(v.clone(), 0, 801, commitment(&v, true, 0), T0),
        Err(Error::EligibleTotalExceedsMax)
    );
    assert!(t.register(v.clone(), 0, 800, commitment(&v, true, 0), T0).is_ok());
}

#[test]
fn register_before_dispute_is_refused() {
    let mut t = contract();
    t.assert_outcome("GA".to_string(), true, T0, [7u8; 32]).unwrap();
    let c = commitment("GV", true, 1);
    assert_eq!(t.register("GV".to_string(), 0, 150, c, T0), Err(Error::NotRegistration));
}

#[test]
fn late_deposits_extend_the_deadline_up_to_the_hard_cap() {
    let mut t = disputed();
    // Outside the last extension window: no change.
    let v = "GEARLY".to_string();
    t.register(v.clone(), 0, 100, commitment(&v, true, 0), T0 + REG - EXT - 1).unwrap();
    assert_eq!(t.get_resolution(0).unwrap().registration_deadline, T0 + REG);

    // Within it: pushed to now + extension.
    let mut now = T0 + REG - 100;
    let mut n = 0;
    loop {
        let v = format!("GLATE{}", n);
        t.register(v.clone(), 0, 100, commitment(&v, true, 0), now).unwrap();
        let deadline = t.get_resolution(0).unwrap().registration_deadline;
        assert!(deadline <= T0 + HARD);
        if deadline == T0 + HARD {
            break;
        }
        assert_eq!(deadline, now + EXT);
        now = deadline - 1;
        n += 1;
    }
    // Saturated: a further qualifying deposit leaves it at the hard cap.
    let v = "GLAST".to_string();
    t.register(v.clone(), 0, 100, commitment(&v, true, 0), T0 + HARD - 1).unwrap();
    assert_eq!(t.get_resolution(0).unwrap().registration_deadline, T0 + HARD);
}

#[test]
fn only_a_qualifying_top_up_extends_the_deadline() {
    let mut t = disputed();
    let v = "GV".to_string();
    let c = commitment(&v, true, 0);
    t.register(v.clone(), 0, 100, c, T0 + 10).unwrap();
    assert_eq!(t.get_resolution(0).unwrap().registration_deadline, T0 + REG);

    // A top-up below the minimum resolution bond, inside the last extension
    // window: accepted, counted, but the deadline stays.
    let now = T0 + REG - 10;
    t.register(v.clone(), 0, BOND - 1, c, now).unwrap();
    let res = *t.get_resolution(0).unwrap();
    assert_eq!(res.registration_deadline, T0 + REG);
    assert_eq!(res.eligible_total, 3 * BOND + BOND - 1);
    assert_eq!(t.get_position(0, &v).unwrap().amount, 2 * BOND - 1);

    // A top-up of the minimum at the same moment does extend it.
    t.register(v.clone(), 0, BOND, c, now).unwrap();
    assert_eq!(t.get_resolution(0).unwrap().registration_deadline, now + EXT);
}

#[test]
fn dispute_after_the_challenge_window_is_refused() {
    let mut t = contract();
    t.assert_outcome("GA".to_string(), true, T0, [7u8; 32]).unwrap();
    // The window is 3600 s: its last second still admits a dispute.
    let before = t.events.len();
    assert_eq!(t.dispute("GD".to_string(), 0, T0 + 3601), Err(Error::ChallengeWindowClosed));
    assert_eq!(t.events.len(), before);
    assert_eq!(t.get_assertion(0).unwrap().phase, PhaseV2::Pending);
    assert!(t.get_resolution(0).is_err());
    // The assertion can still be finalized uncontested.
    assert_eq!(t.finalize("GF".to_string(), 0, T0 + 3601).map(|(o, _)| o), Ok(true));

    let mut t = contract();
    t.assert_outcome("GA".to_string(), true, T0, [7u8; 32]).unwrap();
    assert!(t.dispute("GD".to_string(), 0, T0 + 3600).is_ok());
}

#[test]
fn reveal_counts_public_sides_then_the_revealed_stake() {
    let mut t = disputed();
    let c = commitment("GV", false, 9);
    t.register("GV".to_string(), 0, 300, c, T0 + 10).unwrap();

    assert_eq!(
        t.reveal_vote("GV".to_string(), 0, false, c, T0 + REG),
        Err(Error::RegistrationNotClosed)
    );

    let now = T0 + REG + 1;
    t.reveal_vote("GV".to_string(), 0, false, c, now).unwrap();
    assert_eq!(t.get_assertion(0).unwrap().phase, PhaseV2::Reveal);
    let res = *t.get_resolution(0).unwrap();
    assert_eq!(res.reveal_opened_at, now);
    assert_eq!(res.reveal_deadline, now + REVEAL);
    assert_eq!(res.agree_weight, BOND);
    assert_eq!(res.disagree_weight, BOND + 300);
    assert_eq!(res.revealed_weight(), res.eligible_total);
    assert!(t.get_position(0, &"GA".to_string()).unwrap().revealed);
    assert!(t.get_position(0, &"GD".to_string()).unwrap().revealed);
    assert!(t.get_position(0, &"GV".to_string()).unwrap().revealed);
}

#[test]
fn reveal_refusals_leave_registration_open() {
    let mut t = disputed();
    let c = commitment("GV", true, 3);
    t.register("GV".to_string(), 0, 300, c, T0).unwrap();
    let now = T0 + REG + 1;

    let wrong = commitment("GV", false, 3);
    assert_eq!(
        t.reveal_vote("GV".to_string(), 0, false, wrong, now),
        Err(Error::CommitmentVerificationFailed)
    );
    assert_eq!(t.get_assertion(0).unwrap().phase, PhaseV2::Registration);
    assert_eq!(t.get_resolution(0).unwrap().reveal_opened_at, 0);

    assert_eq!(
        t.reveal_vote("GNOBODY".to_string(), 0, true, c, now),
        Err(Error::AssertionNotFound)
    );
    assert_eq!(t.reveal_vote("GA".to_string(), 0, true, c, now), Err(Error::AlreadyRevealed));
    assert_eq!(t.get_assertion(0).unwrap().phase, PhaseV2::Registration);

    t.reveal_vote("GV".to_string(), 0, true, c, now).unwrap();
    assert_eq!(t.reveal_vote("GV".to_string(), 0, true, c, now + 1), Err(Error::AlreadyRevealed));
}

#[test]
fn reveal_closes_at_the_reveal_deadline() {
    let mut t = disputed();
    let a = commitment("GV1", true, 1);
    let b = commitment("GV2", true, 2);
    t.register("GV1".to_string(), 0, 100, a, T0).unwrap();
    t.register("GV2".to_string(), 0, 100, b, T0).unwrap();
    let now = T0 + REG + 1;
    t.reveal_vote("GV1".to_string(), 0, true, a, now).unwrap();
    assert_eq!(
        t.reveal_vote("GV2".to_string(), 0, true, b, now + REVEAL + 1),
        Err(Error::RevealClosed)
    );
    assert!(t.reveal_vote("GV2".to_string(), 0, true, b, now + REVEAL).is_ok());
    assert_eq!(t.get_resolution(0).unwrap().agree_weight, BOND + 200);
}

#[test]
fn reveal_needs_a_disputed_assertion() {
    let mut t = contract();
    let c = commitment("GV", true, 1);
    assert_eq!(t.reveal_vote("GV".to_string(), 0, true, c, T0), Err(Error::AssertionNotFound));
    t.assert_outcome("GA".to_string(), true, T0, [7u8; 32]).unwrap();
    assert_eq!(t.reveal_vote("GV".to_string(), 0, true, c, T0), Err(Error::NotReveal));
    t.finalize("GF".to_string(), 0, T0 + 3601).unwrap();
    assert_eq!(t.reveal_vote("GV".to_string(), 0, true, c, T0), Err(Error::NotReveal));
}

#[test]
fn vote_preimage_fixes_domain_and_round() {
    let p = vote_preimage(
        [1u8; 32],
        "CCONTRACT".to_string(),
        [2u8; 32],
        5,
        "GV".to_string(),
        true,
        [3u8; 32],
    );
    assert_eq!(p.domain, "THOLOS_V2_VOTE");
    assert_eq!(p.round, ROUND);
    assert_eq!(p.round, 0);
    assert_eq!(p.assertion_id, 5);
    assert_eq!(p.voter, "GV");
    assert!(p.choice);
    assert_eq!(p.salt, [3u8; 32]);
    assert_eq!(p.policy_hash, [2u8; 32]);
    assert_eq!(p.network_id, [1u8; 32]);
    assert_eq!(p.contract_address, "CCONTRACT");
}
