use std::collections::HashMap;

use tholos::common::Transfer;
use tholos::v2::{
    Digest, Error, PayoutRuleVersion, PhaseV2, PolicySnapshotV2, TerminalCause,
    TimeoutDefaultRule, TholosV2, WeightRuleVersion, MAX_BOND_AMOUNT, MAX_CHALLENGE_WINDOW_SECS,
    MAX_ANTI_SNIPE_HARD_MAX_SECS, MAX_FINALIZE_REWARD_BPS, MAX_REGISTRATION_DURATION_SECS,
};

const DEFAULT_BOND: i128 = 100;
const DEFAULT_CHALLENGE_WINDOW: u64 = 3600;
const DEFAULT_FINALIZE_REWARD_BPS: u32 = 0;
const DEFAULT_REGISTRATION_SECS: u64 = 3600;
const DEFAULT_ANTI_SNIPE_EXT_SECS: u64 = 300;
const DEFAULT_ANTI_SNIPE_HARD_MAX_SECS: u64 = 1800;
const DEFAULT_REVEAL_SECS: u64 = 3600;
const DEFAULT_MAX_POSITION: i128 = 1_000_000;
const DEFAULT_MAX_TOTAL_WEIGHT: i128 = 10_000_000;
const DEFAULT_MINT: i128 = 1_000;
/// A hard cap that `initialize` accepts with the default registration
/// window: the hard deadline may not fall before the ordinary one.
const VALID_HARD_MAX_SECS: u64 = 7200;
const START_TIME: u64 = 1_700_000_000;
const CONTRACT: &str = "CTHOLOSV2";

struct Addresses {
    next: u64,
}

impl Addresses {
    fn new() -> Self {
        Addresses { next: 0 }
    }

    fn generate(&mut self) -> String {
        self.next += 1;
        format!("GVOTER{:050}", self.next)
    }
}

struct Token {
    balances: HashMap<String, i128>,
}

impl Token {
    fn new() -> Self {
        Token { balances: HashMap::new() }
    }

    fn mint(&mut self, addr: &str, amount: i128) {
        *self.balances.entry(addr.to_string()).or_insert(0) += amount;
    }

    fn balance(&self, addr: &str) -> i128 {
        *self.balances.get(addr).unwrap_or(&0)
    }

    fn move_tokens(&mut self, from: &str, to: &str, amount: i128) {
        let from_balance = self.balance(from);
        assert!(from_balance >= amount, "insufficient balance");
        self.balances.insert(from.to_string(), from_balance - amount);
        self.mint(to, amount);
    }

    fn apply(&mut self, transfers: &[Transfer]) {
        for t in transfers {
            match t {
                Transfer::Deposit { from, amount } => self.move_tokens(from, CONTRACT, *amount),
                Transfer::Payout { to, amount } => self.move_tokens(CONTRACT, to, *amount),
            }
        }
    }
}

/// A stand-in for the host's digest of a policy's canonical encoding: a
/// deterministic function of every field.
fn policy_digest(policy: &PolicySnapshotV2) -> Digest {
    let mut out = [0u8; 32];
    let mut fold = |bytes: &[u8], seed: usize| {
        for (i, b) in bytes.iter().enumerate() {
            let k = (i + seed) % 32;
            out[k] = out[k].wrapping_mul(31).wrapping_add(*b);
        }
    };
    fold(policy.token.as_bytes(), 0);
    fold(&policy.base_bond.to_le_bytes(), 1);
    fold(&policy.challenge_window_secs.to_le_bytes(), 2);
    fold(&policy.finalize_reward_bps.to_le_bytes(), 3);
    fold(&policy.registration_duration_secs.to_le_bytes(), 4);
    fold(&policy.anti_snipe_extension_secs.to_le_bytes(), 5);
    fold(&policy.anti_snipe_hard_max_secs.to_le_bytes(), 6);
    fold(&policy.reveal_duration_secs.to_le_bytes(), 7);
    fold(&policy.max_position.to_le_bytes(), 8);
    fold(&policy.max_total_weight.to_le_bytes(), 9);
    out
}

fn setup(addrs: &mut Addresses) -> String {
    addrs.generate()
}

struct Fixture {
    addrs: Addresses,
    contract: TholosV2,
    token: Token,
    token_id: String,
    admin: String,
    now: u64,
}

#[allow(clippy::too_many_arguments)]
fn init(
    contract: &mut TholosV2,
    admin: &str,
    token_id: &str,
    base_bond: i128,
    challenge_window_secs: u64,
    finalize_reward_bps: u32,
) -> Result<(), Error> {
    contract.initialize(
        admin.to_string(),
        token_id.to_string(),
        base_bond,
        challenge_window_secs,
        finalize_reward_bps,
        DEFAULT_REGISTRATION_SECS,
        DEFAULT_ANTI_SNIPE_EXT_SECS,
        DEFAULT_ANTI_SNIPE_HARD_MAX_SECS,
        DEFAULT_REVEAL_SECS,
        DEFAULT_MAX_POSITION,
        DEFAULT_MAX_TOTAL_WEIGHT,
    )
}

#[allow(clippy::too_many_arguments)]
fn init_full(
    contract: &mut TholosV2,
    admin: &str,
    token_id: &str,
    registration_duration_secs: u64,
    anti_snipe_extension_secs: u64,
    anti_snipe_hard_max_secs: u64,
    reveal_duration_secs: u64,
    max_position: i128,
    max_total_weight: i128,
) -> Result<(), Error> {
    contract.initialize(
        admin.to_string(),
        token_id.to_string(),
        DEFAULT_BOND,
        DEFAULT_CHALLENGE_WINDOW,
        DEFAULT_FINALIZE_REWARD_BPS,
        registration_duration_secs,
        anti_snipe_extension_secs,
        anti_snipe_hard_max_secs,
        reveal_duration_secs,
        max_position,
        max_total_weight,
    )
}

/// Initializes with the default windows and `VALID_HARD_MAX_SECS`.
fn init_valid(
    contract: &mut TholosV2,
    admin: &str,
    token_id: &str,
    base_bond: i128,
    finalize_reward_bps: u32,
) -> Result<(), Error> {
    contract.initialize(
        admin.to_string(),
        token_id.to_string(),
        base_bond,
        DEFAULT_CHALLENGE_WINDOW,
        finalize_reward_bps,
        DEFAULT_REGISTRATION_SECS,
        DEFAULT_ANTI_SNIPE_EXT_SECS,
        VALID_HARD_MAX_SECS,
        DEFAULT_REVEAL_SECS,
        DEFAULT_MAX_POSITION,
        DEFAULT_MAX_TOTAL_WEIGHT,
    )
}

/// A fresh, uninitialized contract with an admin and a token address.
fn fresh() -> (TholosV2, String, String) {
    let mut addrs = Addresses::new();
    let token_id = setup(&mut addrs);
    let admin = addrs.generate();
    (TholosV2::new(), admin, token_id)
}

impl Fixture {
    fn new() -> Self {
        let mut addrs = Addresses::new();
        let token_id = setup(&mut addrs);
        let admin = addrs.generate();
        let mut contract = TholosV2::new();
        init_valid(&mut contract, &admin, &token_id, DEFAULT_BOND, DEFAULT_FINALIZE_REWARD_BPS).unwrap();
        Fixture { addrs, contract, token: Token::new(), token_id, admin, now: START_TIME }
    }

    fn generate(&mut self) -> String {
        self.addrs.generate()
    }

    fn funded_address(&mut self) -> String {
        let addr = self.generate();
        self.token.mint(&addr, DEFAULT_MINT);
        addr
    }

    fn advance_past_window(&mut self) {
        self.now += DEFAULT_CHALLENGE_WINDOW + 1;
    }

    fn assert_outcome(&mut self, asserter: &str, outcome: bool) -> u64 {
        let digest = policy_digest(self.contract.get_policy().unwrap());
        let (id, ts) =
            self.contract.assert_outcome(asserter.to_string(), outcome, self.now, digest).unwrap();
        self.token.apply(&ts);
        id
    }

    fn try_finalize(&mut self, caller: &str, id: u64) -> Result<bool, Error> {
        let (outcome, ts) = self.contract.finalize(caller.to_string(), id, self.now)?;
        self.token.apply(&ts);
        Ok(outcome)
    }

    fn finalize(&mut self, caller: &str, id: u64) -> bool {
        self.try_finalize(caller, id).unwrap()
    }
}

#[test]
fn initialize_pins_expected_policy() {
    let f = Fixture::new();

    let policy = f.contract.get_policy().unwrap();

    assert_eq!(policy.token, f.token_id);
    assert_eq!(policy.base_bond, DEFAULT_BOND);
    assert_eq!(policy.challenge_window_secs, DEFAULT_CHALLENGE_WINDOW);
    assert_eq!(policy.finalize_reward_bps, DEFAULT_FINALIZE_REWARD_BPS);
    assert_eq!(policy.min_resolution_bond, DEFAULT_BOND);
    assert_eq!(policy.registration_duration_secs, DEFAULT_REGISTRATION_SECS);
    assert_eq!(policy.anti_snipe_extension_secs, DEFAULT_ANTI_SNIPE_EXT_SECS);
    assert_eq!(policy.anti_snipe_hard_max_secs, VALID_HARD_MAX_SECS);
    assert_eq!(policy.reveal_duration_secs, DEFAULT_REVEAL_SECS);
    assert_eq!(policy.weight_rule, WeightRuleVersion::LinearStakeV1);
    assert_eq!(policy.timeout_default, TimeoutDefaultRule::AssertedOutcomeStands);
    assert_eq!(policy.payout_rule, PayoutRuleVersion::ProRataV1);
    assert_eq!(policy.max_position, DEFAULT_MAX_POSITION);
    assert_eq!(policy.max_total_weight, DEFAULT_MAX_TOTAL_WEIGHT);
}

#[test]
fn initialize_twice_fails() {
    let mut f = Fixture::new();
    let admin = f.admin.clone();
    let token_id = f.token_id.clone();
    let result =
        init_valid(&mut f.contract, &admin, &token_id, DEFAULT_BOND, DEFAULT_FINALIZE_REWARD_BPS);
    assert_eq!(result, Err(Error::AlreadyInitialized));
}

#[test]
fn test_get_policy_before_initialize_fails() {
    let contract = TholosV2::new();
    let result = contract.get_policy().err();
    assert_eq!(result, Some(Error::NotInitialized));
}

#[test]
fn test_initialize_rejects_zero_bond() {
    let (mut c, admin, token_id) = fresh();
    let result = init(&mut c, &admin, &token_id, 0, DEFAULT_CHALLENGE_WINDOW, DEFAULT_FINALIZE_REWARD_BPS);
    assert_eq!(result, Err(Error::InvalidBondAmount));
}

#[test]
fn test_initialize_rejects_negative_bond() {
    let (mut c, admin, token_id) = fresh();
    let result = init(&mut c, &admin, &token_id, -1, DEFAULT_CHALLENGE_WINDOW, DEFAULT_FINALIZE_REWARD_BPS);
    assert_eq!(result, Err(Error::InvalidBondAmount));
}

#[test]
fn test_initialize_rejects_bond_over_max() {
    let (mut c, admin, token_id) = fresh();
    let result = init(
        &mut c,
        &admin,
        &token_id,
        MAX_BOND_AMOUNT + 1,
        DEFAULT_CHALLENGE_WINDOW,
        DEFAULT_FINALIZE_REWARD_BPS,
    );
    assert_eq!(result, Err(Error::InvalidBondAmount));
}

#[test]
fn initialize_accepts_bond_at_max() {
    let (mut c, admin, token_id) = fresh();
    let result = init_valid(&mut c, &admin, &token_id, MAX_BOND_AMOUNT, DEFAULT_FINALIZE_REWARD_BPS);
    assert_eq!(result, Ok(()));
}

#[test]
fn test_initialize_rejects_zero_registration_duration() {
    let (mut c, admin, token_id) = fresh();
    let result = init_full(
        &mut c,
        &admin,
        &token_id,
        0,
        DEFAULT_ANTI_SNIPE_EXT_SECS,
        DEFAULT_ANTI_SNIPE_HARD_MAX_SECS,
        DEFAULT_REVEAL_SECS,
        DEFAULT_MAX_POSITION,
        DEFAULT_MAX_TOTAL_WEIGHT,
    );
    assert_eq!(result, Err(Error::InvalidRegistrationDuration));
}

#[test]
fn test_initialize_rejects_registration_duration_over_max() {
    let (mut c, admin, token_id) = fresh();
    let result = init_full(
        &mut c,
        &admin,
        &token_id,
        MAX_REGISTRATION_DURATION_SECS + 1,
        DEFAULT_ANTI_SNIPE_EXT_SECS,
        DEFAULT_ANTI_SNIPE_HARD_MAX_SECS,
        DEFAULT_REVEAL_SECS,
        DEFAULT_MAX_POSITION,
        DEFAULT_MAX_TOTAL_WEIGHT,
    );
    assert_eq!(result, Err(Error::InvalidRegistrationDuration));
}

#[test]
fn test_initialize_rejects_zero_reveal_duration() {
    let (mut c, admin, token_id) = fresh();
    let result = init_full(
        &mut c,
        &admin,
        &token_id,
        DEFAULT_REGISTRATION_SECS,
        DEFAULT_ANTI_SNIPE_EXT_SECS,
        DEFAULT_ANTI_SNIPE_HARD_MAX_SECS,
        0,
        DEFAULT_MAX_POSITION,
        DEFAULT_MAX_TOTAL_WEIGHT,
    );
    assert_eq!(result, Err(Error::InvalidRevealDuration));
}

#[test]
fn test_initialize_rejects_anti_snipe_extension_over_hard_max() {
    let (mut c, admin, token_id) = fresh();
    let result = init_full(
        &mut c,
        &admin,
        &token_id,
        DEFAULT_REGISTRATION_SECS,
        2000,
        1800,
        DEFAULT_REVEAL_SECS,
        DEFAULT_MAX_POSITION,
        DEFAULT_MAX_TOTAL_WEIGHT,
    );
    assert_eq!(result, Err(Error::InvalidAntiSnipeParams));
}

#[test]
fn initialize_accepts_anti_snipe_extension_equal_to_hard_max() {
    let (mut c, admin, token_id) = fresh();
    let result = init_full(
        &mut c,
        &admin,
        &token_id,
        DEFAULT_REGISTRATION_SECS,
        VALID_HARD_MAX_SECS,
        VALID_HARD_MAX_SECS,
        DEFAULT_REVEAL_SECS,
        DEFAULT_MAX_POSITION,
        DEFAULT_MAX_TOTAL_WEIGHT,
    );
    assert_eq!(result, Ok(()));
}

#[test]
fn initialize_rejects_zero_max_position() {
    let (mut c, admin, token_id) = fresh();
    let result = init_full(
        &mut c,
        &admin,
        &token_id,
        DEFAULT_REGISTRATION_SECS,
        DEFAULT_ANTI_SNIPE_EXT_SECS,
        VALID_HARD_MAX_SECS,
        DEFAULT_REVEAL_SECS,
        0,
        DEFAULT_MAX_TOTAL_WEIGHT,
    );
    assert_eq!(result, Err(Error::InvalidMaxPosition));
}

#[test]
fn initialize_rejects_max_position_over_max_total_weight() {
    let (mut c, admin, token_id) = fresh();
    let result = init_full(
        &mut c,
        &admin,
        &token_id,
        DEFAULT_REGISTRATION_SECS,
        DEFAULT_ANTI_SNIPE_EXT_SECS,
        VALID_HARD_MAX_SECS,
        DEFAULT_REVEAL_SECS,
        DEFAULT_MAX_TOTAL_WEIGHT + 1,
        DEFAULT_MAX_TOTAL_WEIGHT,
    );
    assert_eq!(result, Err(Error::InvalidMaxPosition));
}

#[test]
fn initialize_rejects_zero_max_total_weight() {
    let (mut c, admin, token_id) = fresh();
    let result = init_full(
        &mut c,
        &admin,
        &token_id,
        DEFAULT_REGISTRATION_SECS,
        DEFAULT_ANTI_SNIPE_EXT_SECS,
        VALID_HARD_MAX_SECS,
        DEFAULT_REVEAL_SECS,
        DEFAULT_MAX_POSITION,
        0,
    );
    assert_eq!(result, Err(Error::InvalidMaxTotalWeight));
}

#[test]
fn initialize_rejects_max_total_weight_over_max_bond() {
    let (mut c, admin, token_id) = fresh();
    let result = init_full(
        &mut c,
        &admin,
        &token_id,
        DEFAULT_REGISTRATION_SECS,
        DEFAULT_ANTI_SNIPE_EXT_SECS,
        VALID_HARD_MAX_SECS,
        DEFAULT_REVEAL_SECS,
        MAX_BOND_AMOUNT,
        MAX_BOND_AMOUNT + 1,
    );
    assert_eq!(result, Err(Error::InvalidMaxTotalWeight));
}

#[test]
fn test_initialize_rejects_zero_challenge_window() {
    let (mut c, admin, token_id) = fresh();
    let result = init(&mut c, &admin, &token_id, DEFAULT_BOND, 0, DEFAULT_FINALIZE_REWARD_BPS);
    assert_eq!(result, Err(Error::InvalidChallengeWindow));
}

#[test]
fn test_initialize_rejects_challenge_window_over_max() {
    let (mut c, admin, token_id) = fresh();
    let result = init(
        &mut c,
        &admin,
        &token_id,
        DEFAULT_BOND,
        MAX_CHALLENGE_WINDOW_SECS + 1,
        DEFAULT_FINALIZE_REWARD_BPS,
    );
    assert_eq!(result, Err(Error::InvalidChallengeWindow));
}

#[test]
fn test_initialize_rejects_finalize_reward_over_max() {
    let (mut c, admin, token_id) = fresh();
    let result = init(
        &mut c,
        &admin,
        &token_id,
        DEFAULT_BOND,
        DEFAULT_CHALLENGE_WINDOW,
        MAX_FINALIZE_REWARD_BPS + 1,
    );
    assert_eq!(result, Err(Error::InvalidFinalizeReward));
}

#[test]
fn initialize_accepts_finalize_reward_at_max() {
    let (mut c, admin, token_id) = fresh();
    let result = init_valid(&mut c, &admin, &token_id, DEFAULT_BOND, MAX_FINALIZE_REWARD_BPS);
    assert_eq!(result, Ok(()));
}

#[test]
fn assert_outcome_transfers_bond_and_pins_policy() {
    let mut f = Fixture::new();
    let asserter = f.funded_address();

    let id = f.assert_outcome(&asserter, true);

    assert_eq!(id, 0);
    assert_eq!(f.token.balance(&asserter), DEFAULT_MINT - DEFAULT_BOND);
    assert_eq!(f.token.balance(CONTRACT), DEFAULT_BOND);

    let assertion = f.contract.get_assertion(id).unwrap();
    assert_eq!(assertion.id, 0);
    assert_eq!(assertion.asserter, asserter);
    assert_eq!(assertion.disputer, None);
    assert!(assertion.outcome);
    assert_eq!(assertion.phase, PhaseV2::Pending);
    assert_eq!(assertion.policy.base_bond, DEFAULT_BOND);
    assert_eq!(assertion.terminal_cause, TerminalCause::NotYetDecided);
    assert_eq!(assertion.final_outcome, None);
    assert_eq!(assertion.finalizer, None);
}

#[test]
fn assert_outcome_ids_increment() {
    let mut f = Fixture::new();
    let asserter = f.funded_address();

    let first = f.assert_outcome(&asserter, true);
    let second = f.assert_outcome(&asserter, false);

    assert_eq!(first, 0);
    assert_eq!(second, 1);
}

#[test]
fn get_assertion_not_found() {
    let f = Fixture::new();
    let result = f.contract.get_assertion(0).err();
    assert_eq!(result, Some(Error::AssertionNotFound));
}

#[test]
fn policy_hash_is_deterministic_for_identical_policy() {
    let mut f = Fixture::new();
    let asserter = f.funded_address();

    let id_a = f.assert_outcome(&asserter, true);
    let id_b = f.assert_outcome(&asserter, false);

    let a = f.contract.get_assertion(id_a).unwrap();
    let b = f.contract.get_assertion(id_b).unwrap();

    assert_eq!(a.policy_hash, b.policy_hash);
}

#[test]
fn finalize_before_window_elapses_fails() {
    let mut f = Fixture::new();
    let asserter = f.funded_address();
    let caller = f.generate();

    let id = f.assert_outcome(&asserter, true);

    let result = f.try_finalize(&caller, id);
    assert_eq!(result, Err(Error::ChallengeWindowOpen));
}

#[test]
fn finalize_uncontested_with_zero_reward() {
    let mut f = Fixture::new();
    let asserter = f.funded_address();
    let caller = f.generate();

    let id = f.assert_outcome(&asserter, true);
    assert_eq!(f.token.balance(&asserter), DEFAULT_MINT - DEFAULT_BOND);

    f.advance_past_window();

    let outcome = f.finalize(&caller, id);

    assert!(outcome);
    assert_eq!(f.token.balance(&asserter), DEFAULT_MINT);
    assert_eq!(f.token.balance(&caller), 0);

    let assertion = f.contract.get_assertion(id).unwrap();
    assert_eq!(assertion.phase, PhaseV2::Resolved);
    assert_eq!(assertion.terminal_cause, TerminalCause::UncontestedFinalize);
    assert_eq!(assertion.final_outcome, Some(true));
    assert_eq!(assertion.finalizer, Some(caller));
}

#[test]
fn finalize_uncontested_with_nonzero_reward() {
    let (mut c, admin, token_id) = fresh();
    init_valid(&mut c, &admin, &token_id, 100, 1_000).unwrap();
    let mut f = Fixture {
        addrs: Addresses { next: 100 },
        contract: c,
        token: Token::new(),
        token_id,
        admin,
        now: START_TIME,
    };

    let asserter = f.generate();
    f.token.mint(&asserter, DEFAULT_MINT);
    let caller = f.generate();

    let id = f.assert_outcome(&asserter, true);
    f.now += DEFAULT_CHALLENGE_WINDOW + 1;

    f.finalize(&caller, id);

    assert_eq!(f.token.balance(&caller), 10);
    assert_eq!(f.token.balance(&asserter), DEFAULT_MINT - 100 + 90);
}

#[test]
fn finalize_twice_fails() {
    let mut f = Fixture::new();
    let asserter = f.funded_address();
    let caller = f.generate();

    let id = f.assert_outcome(&asserter, true);
    f.advance_past_window();
    f.finalize(&caller, id);

    let result = f.try_finalize(&caller, id);
    assert_eq!(result, Err(Error::NotPending));
}

#[test]
fn finalize_nonexistent_assertion_fails() {
    let mut f = Fixture::new();
    let caller = f.generate();

    let result = f.try_finalize(&caller, 0);
    assert_eq!(result, Err(Error::AssertionNotFound));
}

#[test]
fn initialize_rejects_hard_cap_before_registration_window() {
    // The default test windows: a hard cap of 1800 s below a 3600 s
    // registration window would put the hard deadline before the soft one.
    let (mut c, admin, token_id) = fresh();
    let result = init(&mut c, &admin, &token_id, DEFAULT_BOND, DEFAULT_CHALLENGE_WINDOW, 0);
    assert_eq!(result, Err(Error::InvalidAntiSnipeParams));
}

#[test]
fn initialize_rejects_hard_cap_over_twenty_nine_days() {
    let (mut c, admin, token_id) = fresh();
    let result = init_full(
        &mut c,
        &admin,
        &token_id,
        DEFAULT_REGISTRATION_SECS,
        DEFAULT_ANTI_SNIPE_EXT_SECS,
        MAX_ANTI_SNIPE_HARD_MAX_SECS + 1,
        DEFAULT_REVEAL_SECS,
        DEFAULT_MAX_POSITION,
        DEFAULT_MAX_TOTAL_WEIGHT,
    );
    assert_eq!(result, Err(Error::InvalidAntiSnipeParams));
}

#[test]
fn initialize_accepts_hard_cap_at_twenty_nine_days() {
    let (mut c, admin, token_id) = fresh();
    assert_eq!(MAX_ANTI_SNIPE_HARD_MAX_SECS, 29 * 24 * 60 * 60);
    let result = init_full(
        &mut c,
        &admin,
        &token_id,
        MAX_REGISTRATION_DURATION_SECS,
        DEFAULT_ANTI_SNIPE_EXT_SECS,
        MAX_ANTI_SNIPE_HARD_MAX_SECS,
        DEFAULT_REVEAL_SECS,
        DEFAULT_MAX_POSITION,
        DEFAULT_MAX_TOTAL_WEIGHT,
    );
    assert_eq!(result, Ok(()));
    assert_eq!(c.get_policy().unwrap().anti_snipe_hard_max_secs, MAX_ANTI_SNIPE_HARD_MAX_SECS);
}
