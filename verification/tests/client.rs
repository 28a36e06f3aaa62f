use std::collections::{BTreeSet, VecDeque};

use fedimint_amm::client::db::{
    dump_selects, ClientDb, DbKeyPrefix, LpPositionKey, LpPositionPrefixAll, LpPositionRecord, OperationId,
    RecoveredBalanceKey, RecoveredBalancePrefixAll, RecoveredBalanceRecord, SwapOutcome,
    SwapOutcomeKey, SwapOutcomePrefixAll, TransactionId,
};
use fedimint_amm::client::derivation::{
    check_tweak, derive_keypair, grind_tweak, matches_own_key, tweak_filter, ModuleSecret,
    CHILD_LP, CHILD_SWAP,
};
use fedimint_amm::client::module::{find_pool, AmmClientModule, AmmClientStateMachines, ClientError};
use fedimint_amm::client::recovery::{BalanceScan, LpScan};
use fedimint_amm::client::single_tx::{
    transition_submitted, transition_withdraw_submitted, DepositCommon, DepositState,
    DepositStateMachine, WithdrawCommon, WithdrawState, WithdrawStateMachine,
};
use fedimint_amm::client::slippage::{min_after_slippage, SlippageError};
use fedimint_amm::client::swap::{
    build_claim_input, claim_step, next_after_tx2_failure, retry_delay, SwapAction, SwapCommon,
    SwapEvent, SwapState, SwapStateMachine,
};
use fedimint_amm::client::sweep::{
    AmmRecoverySummary, ClaimOutcome, ClaimSweep, SweepAction, SweepEvent,
};
use fedimint_amm::config::{AmmClientConfig, UnitParams};
use fedimint_amm::crypto::{Keypair, PublicKey};
use fedimint_amm::endpoints::{
    BalanceRecoveryEntry, BalanceRecoveryResponse, BalanceRequest, LpRecoveryEntry, LpRecoveryResponse,
    PoolSummary, QuoteRequest, QuoteResponse, RecoveryPageRequest,
};
use fedimint_amm::math::CurveError;
use fedimint_amm::pool_id::PoolId;
use fedimint_amm::server::db::{self as server_db, PeerId};
use fedimint_amm::server::init::default_consensus_config;
use fedimint_amm::server::ledger::{Amm, Ledger};
use fedimint_amm::table::{Table, TableKey};
use fedimint_amm::types::{AmmInput, AmmOutput};
use fedimint_amm::units::{Amount, AmountUnit, Amounts};

fn unit(n: u64) -> AmountUnit {
    AmountUnit::new_custom(n)
}

fn msats(n: u64) -> Amount {
    Amount::from_msats(n)
}

fn keypair(seed: u8) -> Keypair {
    Keypair::from_secret([seed; 32]).expect("a repeated non-zero byte is a valid secret key")
}

fn test_pubkey(seed: u8) -> PublicKey {
    keypair(seed).public_key()
}

fn pubkey(seed: u8) -> PublicKey {
    keypair(seed).public_key()
}

fn pool() -> PoolId {
    PoolId::new(unit(0), unit(1)).expect("distinct units")
}

fn operation(seed: u8) -> OperationId {
    OperationId { bytes: [seed; 32] }
}

fn txid(seed: u8) -> TransactionId {
    TransactionId { bytes: [seed; 32] }
}

fn secret(seed: &[u8; 32], salt: &[u8]) -> ModuleSecret {
    ModuleSecret { root_key: seed.to_vec(), salt: salt.to_vec() }
}

fn grind(root: &ModuleSecret) -> [u8; 16] {
    grind_tweak(root).expect("a tweak is found")
}

#[test]
fn min_after_slippage_zero_tolerance_keeps_the_full_amount() {
    assert_eq!(min_after_slippage(1_000, 0), Ok(1_000));
}

#[test]
fn min_after_slippage_full_tolerance_allows_zero() {
    assert_eq!(min_after_slippage(1_000, 10_000), Ok(0));
}

#[test]
fn min_after_slippage_applies_the_stated_percentage() {
    // 1% of 1000 = 10, so 100 bps of tolerance keeps 990.
    assert_eq!(min_after_slippage(1_000, 100), Ok(990));
}

#[test]
fn min_after_slippage_floors_rather_than_rounds() {
    // 3 * 9_999 / 10_000 = 2.9997, must floor to 2, not round to 3.
    assert_eq!(min_after_slippage(3, 1), Ok(2));
}

#[test]
fn min_after_slippage_rejects_bps_above_ten_thousand() {
    assert_eq!(min_after_slippage(1_000, 10_001), Err(SlippageError::OutOfRange));
}

#[test]
fn min_after_slippage_handles_amount_zero() {
    assert_eq!(min_after_slippage(0, 5_000), Ok(0));
}

#[test]
fn more_tolerance_never_demands_more() {
    assert_eq!(min_after_slippage(u64::MAX, 0), Ok(u64::MAX));
    let mut last = u64::MAX;
    for bps in (0..=10_000).step_by(7) {
        let least = min_after_slippage(u64::MAX - 3, bps).unwrap();
        assert!(least <= last);
        last = least;
    }
    assert_eq!(SlippageError::OutOfRange.message(), "max_slippage_bps must be <= 10_000");
}

fn root(seed: &[u8; 32]) -> ModuleSecret {
    secret(seed, b"fedimint-amm-client matches_own_key tests")
}

#[test]
fn matches_own_key_accepts_a_genuinely_ground_tweak() {
    let root = root(&[1u8; 32]);
    let filter = tweak_filter(&root);
    let tweak = grind(&root);
    let pubkey = derive_keypair(&root, CHILD_SWAP, tweak).public_key();

    assert!(matches_own_key(&root, filter, CHILD_SWAP, tweak, pubkey));
}

/// A tweak that passes the filter proves nothing of the key beside it.
#[test]
fn matches_own_key_rejects_a_filter_passing_tweak_paired_with_the_wrong_pubkey() {
    let root = root(&[2u8; 32]);
    let filter = tweak_filter(&root);
    let tweak = grind(&root); // passes the filter by construction
    let unrelated_pubkey = derive_keypair(&root, CHILD_LP, [0u8; 16]).public_key();

    assert!(!matches_own_key(&root, filter, CHILD_SWAP, tweak, unrelated_pubkey));
}

#[test]
fn matches_own_key_rejects_a_tweak_from_a_different_seed() {
    let root_a = root(&[3u8; 32]);
    let root_b = root(&[4u8; 32]);
    let filter_a = tweak_filter(&root_a);
    let tweak_b = grind(&root_b);
    let pubkey_b = derive_keypair(&root_b, CHILD_SWAP, tweak_b).public_key();

    assert!(!matches_own_key(&root_a, filter_a, CHILD_SWAP, tweak_b, pubkey_b));
}

/// A balance's key is never taken for a position's, even with the same tweak.
#[test]
fn matches_own_key_is_specific_to_the_requested_child_id() {
    let root = root(&[5u8; 32]);
    let filter = tweak_filter(&root);
    let tweak = grind(&root);
    let swap_pubkey = derive_keypair(&root, CHILD_SWAP, tweak).public_key();

    assert!(matches_own_key(&root, filter, CHILD_SWAP, tweak, swap_pubkey));
    assert!(!matches_own_key(&root, filter, CHILD_LP, tweak, swap_pubkey));
}

/// A fixed root secret for tests that don't care which seed they use.
fn test_root_secret() -> ModuleSecret {
    test_root_secret_from(&[0x42; 32])
}

fn test_root_secret_from(seed: &[u8; 32]) -> ModuleSecret {
    secret(seed, b"fedimint-amm-client tests")
}

#[test]
fn ground_tweaks_pass_their_own_filter() {
    let root = test_root_secret();
    let filter = tweak_filter(&root);
    for _ in 0..8 {
        assert!(check_tweak(grind(&root), filter));
    }
}

#[test]
fn a_different_seed_rejects_the_tweak_almost_always() {
    let a = test_root_secret_from(&[1u8; 32]);
    let filters: Vec<[u8; 32]> =
        (2..12u8).map(|seed| tweak_filter(&test_root_secret_from(&[seed; 32]))).collect();
    let mut hits = 0;
    for _ in 0..20 {
        let tweak = grind(&a);
        hits += filters.iter().filter(|filter| check_tweak(tweak, **filter)).count();
    }
    // ~1/65536 chance each; 200 trials should essentially never hit.
    assert!(hits <= 1, "filter is not seed-specific");
}

#[test]
fn derivation_is_deterministic_in_the_tweak() {
    let root = test_root_secret();
    let t = [9u8; 16];
    assert_eq!(
        derive_keypair(&root, CHILD_SWAP, t).public_key(),
        derive_keypair(&root, CHILD_SWAP, t).public_key()
    );
}

#[test]
fn child_ids_are_namespaced() {
    let root = test_root_secret();
    let t = [9u8; 16];
    assert_ne!(
        derive_keypair(&root, CHILD_SWAP, t).public_key(),
        derive_keypair(&root, CHILD_LP, t).public_key()
    );
}

/// Two clients on the same seed never draw the same key.
#[test]
fn concurrent_clients_on_one_seed_do_not_collide() {
    let root = test_root_secret();
    let keys: BTreeSet<_> = (0..40)
        .map(|_| derive_keypair(&root, CHILD_SWAP, grind(&root)).public_key())
        .collect();
    assert_eq!(keys.len(), 40);
}

#[test]
fn every_part_of_a_tweak_and_of_a_secret_changes_the_key() {
    let base = derive_keypair(&test_root_secret(), CHILD_SWAP, [9; 16]).public_key();
    for i in [0, 7, 8, 15] {
        let mut tweak = [9u8; 16];
        tweak[i] = 10;
        assert_ne!(derive_keypair(&test_root_secret(), CHILD_SWAP, tweak).public_key(), base);
    }
    let salted = secret(&[0x42; 32], b"another salt");
    assert_ne!(derive_keypair(&salted, CHILD_SWAP, [9; 16]).public_key(), base);
    assert_ne!(tweak_filter(&salted), tweak_filter(&test_root_secret()));
}

fn sm(state: SwapState) -> SwapStateMachine {
    SwapStateMachine {
        common: SwapCommon {
            operation_id: operation(77),
            unit_out: AmountUnit::new_custom(1),
            recipient_keypair: keypair(1),
        },
        state,
    }
}

/// Every state, the two final ones first.
fn every_state() -> Vec<SwapState> {
    vec![
        SwapState::Tx1Rejected("boom".to_string()),
        SwapState::Done,
        SwapState::Tx1Submitted { txid: txid(0) },
        SwapState::Tx1Accepted { attempts: 0 },
        SwapState::Tx1Accepted { attempts: 3 },
        SwapState::Tx2Failed { attempts: 1, error: "boom".to_string() },
        SwapState::Tx2Submitted { txid: txid(0), attempts: 0 },
    ]
}

#[test]
fn rejected_and_done_states_have_no_transitions() {
    for state in [SwapState::Tx1Rejected("boom".to_string()), SwapState::Done] {
        assert_eq!(sm(state).action(), SwapAction::Nothing);
    }
}

#[test]
fn non_terminal_states_schedule_a_transition() {
    for state in [
        SwapState::Tx1Submitted { txid: txid(0) },
        SwapState::Tx1Accepted { attempts: 0 },
        SwapState::Tx1Accepted { attempts: 3 },
        SwapState::Tx2Failed { attempts: 1, error: "boom".to_string() },
        SwapState::Tx2Submitted { txid: txid(0), attempts: 0 },
    ] {
        assert_ne!(sm(state).action(), SwapAction::Nothing);
    }
}

#[test]
fn each_state_waits_for_its_own_thing() {
    let actions: Vec<SwapAction> = every_state().into_iter().map(|s| sm(s).action()).collect();
    let claim = SwapAction::Claim { pubkey: pubkey(1), unit: unit(1) };
    assert_eq!(
        actions,
        vec![
            SwapAction::Nothing,
            SwapAction::Nothing,
            SwapAction::AwaitTransaction { txid: txid(0) },
            claim,
            claim,
            SwapAction::Pause { attempts: 1 },
            SwapAction::AwaitTransaction { txid: txid(0) },
        ]
    );
}

#[test]
fn operation_id_is_read_from_common() {
    let op = operation(5);
    let machine = SwapStateMachine {
        common: SwapCommon {
            operation_id: op,
            unit_out: AmountUnit::new_custom(1),
            recipient_keypair: keypair(1),
        },
        state: SwapState::Done,
    };
    assert_eq!(machine.operation_id(), op);
    assert_eq!(AmmClientStateMachines::Swap(machine).operation_id(), op);
}

#[test]
fn state_machine_round_trips_through_encoding() {
    for state in [
        SwapState::Tx1Submitted { txid: txid(3) },
        SwapState::Tx1Rejected("rejected".to_string()),
        SwapState::Tx1Accepted { attempts: 0 },
        SwapState::Tx1Accepted { attempts: 5 },
        SwapState::Tx2Failed { attempts: 2, error: "boom".to_string() },
        SwapState::Tx2Submitted { txid: txid(4), attempts: 1 },
        SwapState::Done,
    ] {
        let machine = sm(state);
        let bytes = machine.encode();
        let decoded = SwapStateMachine::decode(&bytes).expect("round trip");
        assert_eq!(machine, decoded);
        assert_eq!(SwapStateMachine::decode(&bytes[..bytes.len() - 1]), None);
    }
}

/// Nothing left to claim means that an earlier try went through.
#[test]
fn tx1_accepted_completes_when_balance_already_claimed() {
    let mut db = ClientDb::new();
    let next = sm(SwapState::Tx1Accepted { attempts: 0 }).advance(SwapEvent::NothingToClaim, &mut db);
    assert_eq!(next.state, SwapState::Done);
}

#[test]
fn tx2_failure_moves_to_a_distinct_retry_state() {
    let next = next_after_tx2_failure(0, "boom".to_string());
    match next {
        SwapState::Tx2Failed { attempts, .. } => assert_eq!(attempts, 1),
        other => panic!("expected Tx2Failed, got {other:?}"),
    }
}

#[test]
fn tx2_failure_retries_forever_without_ever_becoming_terminal() {
    let mut attempts = 0;
    for _ in 0..100 {
        match next_after_tx2_failure(attempts, "boom".to_string()) {
            SwapState::Tx2Failed { attempts: next, .. } => attempts = next,
            other => panic!("expected Tx2Failed, never anything else, got {other:?}"),
        }
    }
    assert_eq!(attempts, 100);
}

/// After the pause the balance is read again, and the count of tries is kept.
#[test]
fn tx2_failed_transition_returns_to_tx1_accepted_with_attempts_preserved() {
    let mut db = ClientDb::new();
    let old_state = sm(SwapState::Tx2Failed { attempts: 3, error: "boom".to_string() });
    assert_eq!(old_state.action(), SwapAction::Pause { attempts: 3 });
    let next = old_state.advance(SwapEvent::PauseOver, &mut db);
    assert_eq!(next.state, SwapState::Tx1Accepted { attempts: 3 });
}

/// A swap from its first transaction to its end, with one failed claim.
#[test]
fn a_swap_runs_to_its_end() {
    let mut db = ClientDb::new();
    let key = SwapOutcomeKey(operation(77));
    let machine = sm(SwapState::Tx1Submitted { txid: txid(1) });
    let machine = machine.advance(SwapEvent::Accepted, &mut db);
    assert_eq!(machine.state, SwapState::Tx1Accepted { attempts: 0 });
    let machine = machine.advance(
        SwapEvent::ClaimSubmitted { txid: txid(2), balance: msats(900) },
        &mut db,
    );
    assert_eq!(machine.state, SwapState::Tx2Submitted { txid: txid(2), attempts: 0 });
    assert_eq!(
        db.outcomes.get_ref(&key),
        Some(&SwapOutcome::Settled { amount_out: msats(900) })
    );
    let machine = machine.advance(SwapEvent::Rejected("late".to_string()), &mut db);
    assert!(matches!(machine.state, SwapState::Tx2Failed { attempts: 1, .. }));
    let machine = machine.advance(SwapEvent::PauseOver, &mut db);
    let machine = machine.advance(
        SwapEvent::ClaimSubmitted { txid: txid(3), balance: msats(950) },
        &mut db,
    );
    let machine = machine.advance(SwapEvent::Accepted, &mut db);
    assert_eq!(machine.state, SwapState::Done);
    assert_eq!(
        db.outcomes.get_ref(&key),
        Some(&SwapOutcome::Settled { amount_out: msats(950) })
    );
}

#[test]
fn a_refused_swap_ends_and_is_remembered() {
    let mut db = ClientDb::new();
    let machine = sm(SwapState::Tx1Submitted { txid: txid(1) })
        .advance(SwapEvent::Rejected("slippage".to_string()), &mut db);
    assert_eq!(machine.state, SwapState::Tx1Rejected("slippage".to_string()));
    assert_eq!(
        db.outcomes.get_ref(&SwapOutcomeKey(operation(77))),
        Some(&SwapOutcome::Tx1Rejected("slippage".to_string()))
    );
}

#[test]
fn a_claim_that_cannot_be_built_is_tried_again() {
    let mut db = ClientDb::new();
    let machine = sm(SwapState::Tx1Accepted { attempts: 4 })
        .advance(SwapEvent::ClaimFailed("no funds".to_string()), &mut db);
    assert!(matches!(machine.state, SwapState::Tx2Failed { attempts: 5, .. }));
    assert_eq!(
        next_after_tx2_failure(u32::MAX - 1, "boom".to_string()),
        SwapState::Tx2Failed { attempts: u32::MAX, error: "boom".to_string() }
    );
}

#[test]
fn build_claim_input_declares_exactly_the_balance_just_read() {
    let keypair = keypair(7);
    let unit = AmountUnit::new_custom(2);
    let balance = Amount::from_msats(123_456);

    let input = build_claim_input(keypair, unit, balance);

    assert_eq!(input.keys, vec![keypair]);
    assert_eq!(input.amounts, Amounts::new_custom(unit, balance));
    match input.input {
        AmmInput::ClaimBalanceV0 { pubkey, unit: got_unit } => {
            assert_eq!(pubkey, keypair.public_key());
            assert_eq!(got_unit, unit);
        }
        other => panic!("expected ClaimBalanceV0, got {other:?}"),
    }
}

#[test]
fn build_claim_input_tracks_the_balance_argument_not_a_fixed_value() {
    let keypair = keypair(8);
    let unit = AmountUnit::new_custom(3);

    let small = build_claim_input(keypair, unit, Amount::from_msats(10));
    let large = build_claim_input(keypair, unit, Amount::from_msats(10_000));

    assert_ne!(small.amounts, large.amounts);
}

#[test]
fn a_claim_is_made_where_there_is_a_balance() {
    let common = sm(SwapState::Done).common;
    assert_eq!(claim_step(&common, None), None);
    assert_eq!(
        claim_step(&common, Some(msats(5))),
        Some(build_claim_input(keypair(1), unit(1), msats(5)))
    );
}

#[test]
fn retry_delay_plateaus_at_a_bounded_value() {
    for attempt in [1, 2, 3, 8, 100, 10_000] {
        let delay = retry_delay(attempt);
        assert!(delay <= 100 * 1_000_000_000, "attempt {attempt}: {delay:?}");
    }
}

/// The pause grows along the Fibonacci numbers, with up to a second on top.
#[test]
fn retry_delay_follows_the_fibonacci_numbers() {
    let seconds = [1, 1, 2, 3, 5, 8, 13, 21, 34, 55, 89, 89, 89];
    for (i, expected) in seconds.iter().enumerate() {
        let delay = retry_delay(i as u32 + 1);
        assert!(delay >= expected * 1_000_000_000, "try {i}: {delay}");
        assert!(delay <= (expected + 1) * 1_000_000_000, "try {i}: {delay}");
    }
    assert!(retry_delay(0) <= 2_000_000_000);
}

fn deposit_machine(seed: u8, tweak: [u8; 16], expected_shares: u64) -> DepositStateMachine {
    DepositStateMachine {
        common: DepositCommon {
            operation_id: operation(1),
            pool: pool(),
            owner_pk: pubkey(seed),
            tweak,
            expected_shares,
        },
        state: DepositState::Submitted { txid: txid(0) },
    }
}

fn withdraw_machine(key: LpPositionKey, shares: u64) -> WithdrawStateMachine {
    WithdrawStateMachine {
        common: WithdrawCommon {
            operation_id: operation(1),
            pool: key.pool,
            owner_pk: key.owner_pk,
            shares,
        },
        state: WithdrawState::Submitted { txid: txid(0) },
    }
}

#[test]
fn deposit_accepted_inserts_the_local_position() {
    let mut db = ClientDb::new();
    let old_state = deposit_machine(1, [5u8; 16], 42);
    assert_eq!(old_state.awaited(), Some(txid(0)));

    let next = transition_submitted(&mut db, Ok(()), old_state.clone());
    assert_eq!(next.state, DepositState::Accepted);
    assert_eq!(next.awaited(), None);

    let record = db.positions.get(&LpPositionKey {
        pool: old_state.common.pool,
        owner_pk: old_state.common.owner_pk,
    });
    assert_eq!(record, Some(LpPositionRecord { tweak: [5u8; 16], shares: 42 }));
}

#[test]
fn deposit_rejected_does_not_touch_the_local_position() {
    let mut db = ClientDb::new();
    let old_state = deposit_machine(2, [6u8; 16], 7);

    let next = transition_submitted(&mut db, Err("rejected".to_string()), old_state.clone());
    assert_eq!(next.state, DepositState::Rejected("rejected".to_string()));

    let record = db.positions.get(&LpPositionKey {
        pool: old_state.common.pool,
        owner_pk: old_state.common.owner_pk,
    });
    assert_eq!(record, None);
}

#[test]
fn withdraw_accepted_decrements_a_partial_position() {
    let mut db = ClientDb::new();
    let key = LpPositionKey { pool: pool(), owner_pk: pubkey(3) };
    db.positions.insert(key, LpPositionRecord { tweak: [9u8; 16], shares: 100 });

    let next = transition_withdraw_submitted(&mut db, Ok(()), withdraw_machine(key, 40));
    assert_eq!(next.state, WithdrawState::Accepted);

    assert_eq!(
        db.positions.get(&key),
        Some(LpPositionRecord { tweak: [9u8; 16], shares: 60 })
    );
}

#[test]
fn withdraw_accepted_removes_a_fully_drained_position() {
    let mut db = ClientDb::new();
    let key = LpPositionKey { pool: pool(), owner_pk: pubkey(4) };
    db.positions.insert(key, LpPositionRecord { tweak: [1u8; 16], shares: 50 });

    let next = transition_withdraw_submitted(&mut db, Ok(()), withdraw_machine(key, 50));
    assert_eq!(next.state, WithdrawState::Accepted);

    assert_eq!(
        db.positions.get(&key),
        None,
        "a fully drained position must be removed, not left at 0"
    );
}

#[test]
fn withdraw_rejected_changes_nothing() {
    let mut db = ClientDb::new();
    let key = LpPositionKey { pool: pool(), owner_pk: pubkey(4) };
    let record = LpPositionRecord { tweak: [1u8; 16], shares: 50 };
    db.positions.insert(key, record);
    let next =
        transition_withdraw_submitted(&mut db, Err("no".to_string()), withdraw_machine(key, 50));
    assert_eq!(next.state, WithdrawState::Rejected("no".to_string()));
    assert_eq!(db.positions.get(&key), Some(record));
}

#[test]
fn state_machines_round_trip_through_encoding() {
    let deposit = DepositStateMachine {
        common: DepositCommon {
            operation_id: operation(9),
            pool: pool(),
            owner_pk: pubkey(1),
            tweak: [1u8; 16],
            expected_shares: 10,
        },
        state: DepositState::Accepted,
    };
    assert_eq!(DepositStateMachine::decode(&deposit.encode()), Some(deposit));

    let withdraw = WithdrawStateMachine {
        common: WithdrawCommon {
            operation_id: operation(8),
            pool: pool(),
            owner_pk: pubkey(2),
            shares: 5,
        },
        state: WithdrawState::Rejected("no".to_string()),
    };
    assert_eq!(WithdrawStateMachine::decode(&withdraw.encode()), Some(withdraw));
}

#[test]
fn lp_position_round_trips() {
    let mut db = ClientDb::new();
    let key = LpPositionKey { pool: pool(), owner_pk: test_pubkey(1) };
    let record = LpPositionRecord { tweak: [7u8; 16], shares: 1_234 };
    db.positions.insert(key, record);
    assert_eq!(db.positions.get(&key), Some(record));
}

#[test]
fn lp_positions_enumerate_under_prefix() {
    let mut db = ClientDb::new();
    let pool_a = PoolId::new(AmountUnit::new_custom(0), AmountUnit::new_custom(1)).unwrap();
    let pool_b = PoolId::new(AmountUnit::new_custom(0), AmountUnit::new_custom(2)).unwrap();

    for (pool, seed) in [(pool_a, 1u8), (pool_a, 2u8), (pool_b, 3u8)] {
        db.positions.insert(
            LpPositionKey { pool, owner_pk: test_pubkey(seed) },
            LpPositionRecord { tweak: [seed; 16], shares: 10 },
        );
    }

    assert_eq!(db.positions.len(), 3);
    for i in 0..3 {
        assert!(db.positions.row(i).0.to_bytes().starts_with(&LpPositionPrefixAll.to_bytes()));
    }
}

#[test]
fn swap_outcomes_round_trip_and_overwrite() {
    let mut db = ClientDb::new();
    let key = SwapOutcomeKey(operation(10));

    db.outcomes.insert(key, SwapOutcome::Settled { amount_out: Amount::from_msats(500) });
    assert_eq!(
        db.outcomes.get_ref(&key),
        Some(&SwapOutcome::Settled { amount_out: Amount::from_msats(500) })
    );

    db.outcomes.insert(key, SwapOutcome::Settled { amount_out: Amount::from_msats(700) });
    assert_eq!(
        db.outcomes.get_ref(&key),
        Some(&SwapOutcome::Settled { amount_out: Amount::from_msats(700) }),
        "the later balance read must win"
    );

    let rejected = SwapOutcomeKey(operation(11));
    db.outcomes.insert(rejected, SwapOutcome::Tx1Rejected("boom".to_string()));
    assert_eq!(
        db.outcomes.get_ref(&rejected),
        Some(&SwapOutcome::Tx1Rejected("boom".to_string()))
    );
}

#[test]
fn recovered_balance_round_trips() {
    let mut db = ClientDb::new();
    let key = RecoveredBalanceKey { pubkey: test_pubkey(20), unit: AmountUnit::new_custom(1) };
    let record = RecoveredBalanceRecord { tweak: [11u8; 16] };
    db.recovered.insert(key, record);
    assert_eq!(db.recovered.get(&key), Some(record));
}

#[test]
fn recovered_balances_enumerate_under_prefix_and_are_removable() {
    let mut db = ClientDb::new();

    for seed in [21u8, 22, 23] {
        db.recovered.insert(
            RecoveredBalanceKey { pubkey: test_pubkey(seed), unit: AmountUnit::new_custom(0) },
            RecoveredBalanceRecord { tweak: [seed; 16] },
        );
    }
    assert_eq!(db.recovered.len(), 3);

    let (removed_key, _) = db.recovered.row(0);
    db.recovered.remove(&removed_key);
    assert_eq!(db.recovered.len(), 2);
}

#[test]
fn client_tables_start_with_their_own_byte() {
    let prefixes = [
        LpPositionPrefixAll.to_bytes(),
        RecoveredBalancePrefixAll.to_bytes(),
        SwapOutcomePrefixAll.to_bytes(),
    ];
    assert_ne!(prefixes[0], prefixes[1]);
    assert_ne!(prefixes[1], prefixes[2]);
    assert_ne!(prefixes[0], prefixes[2]);
    let key = SwapOutcomeKey(operation(10)).to_bytes();
    assert!(key.starts_with(&prefixes[2]));
    // A dump takes every table or those named, and never a reserved range.
    assert!(dump_selects(&vec![], DbKeyPrefix::SwapOutcome));
    assert!(!dump_selects(&vec![], DbKeyPrefix::ExternalReservedStart));
    assert!(!dump_selects(&vec!["lpposition".to_string()], DbKeyPrefix::SwapOutcome));
}

fn balance_entry(seed: u8, amount: u64) -> BalanceRecoveryEntry {
    BalanceRecoveryEntry {
        tweak: [seed; 16],
        pubkey: test_pubkey(seed),
        unit: AmountUnit::new_custom(0),
        amount: Amount::from_msats(amount),
    }
}

fn three_pages() -> Vec<BalanceRecoveryResponse> {
    vec![
        BalanceRecoveryResponse {
            entries: vec![balance_entry(1, 100), balance_entry(2, 200)],
            next_cursor: Some(vec![2]),
        },
        BalanceRecoveryResponse {
            entries: vec![balance_entry(3, 300)],
            next_cursor: Some(vec![3]),
        },
        BalanceRecoveryResponse { entries: vec![balance_entry(4, 400)], next_cursor: None },
    ]
}

/// Walks pages that are handed out one at a time, and returns the requests that
/// were made and the entries that were seen.
fn walk(
    pages: Vec<BalanceRecoveryResponse>,
) -> Result<(Vec<RecoveryPageRequest>, Vec<PublicKey>), String> {
    let mut pages = VecDeque::from(pages);
    let root = test_root_secret();
    let mut scan = BalanceScan::start(&root);
    let mut requests = Vec::new();
    let mut seen = Vec::new();
    while let Some(request) = scan.request() {
        requests.push(request);
        let page = pages.pop_front().ok_or_else(|| "exhausted".to_string())?;
        seen.extend(page.entries.iter().map(|entry| entry.pubkey));
        scan = scan.accept(&root, page);
    }
    assert!(scan.own.is_empty());
    Ok((requests, seen))
}

#[test]
fn for_each_visits_every_entry_across_every_page() {
    let (requests, seen) = walk(three_pages()).unwrap();

    assert_eq!(seen, vec![test_pubkey(1), test_pubkey(2), test_pubkey(3), test_pubkey(4)]);
    assert_eq!(requests.len(), 3, "must consume every page exactly once");
}

#[test]
fn for_each_stops_at_a_single_page_with_no_next_cursor() {
    let (requests, seen) = walk(vec![BalanceRecoveryResponse {
        entries: vec![balance_entry(9, 1)],
        next_cursor: None,
    }])
    .unwrap();
    assert_eq!(seen.len(), 1);
    assert_eq!(requests.len(), 1);
}

#[test]
fn for_each_propagates_a_page_fetch_error() {
    assert!(walk(vec![]).is_err());
}

/// A cursor goes back exactly as it was handed out.
#[test]
fn cursor_is_forwarded_verbatim_between_pages() {
    let (requests, _) = walk(three_pages()).unwrap();
    let seen_cursors: Vec<Option<Vec<u8>>> = requests.into_iter().map(|r| r.cursor).collect();
    assert_eq!(seen_cursors, vec![None, Some(vec![2]), Some(vec![3])]);
}

fn lp_entry(seed: u8, pool: PoolId, shares: u64) -> LpRecoveryEntry {
    LpRecoveryEntry { tweak: [seed; 16], pool, pubkey: test_pubkey(seed), shares }
}

#[test]
fn lp_for_each_visits_every_entry_across_every_page() {
    let pool = PoolId::new(AmountUnit::new_custom(0), AmountUnit::new_custom(1)).unwrap();
    let mut pages = VecDeque::from(vec![
        LpRecoveryResponse { entries: vec![lp_entry(1, pool, 10)], next_cursor: Some(vec![1]) },
        LpRecoveryResponse { entries: vec![lp_entry(2, pool, 20)], next_cursor: None },
    ]);
    let root = test_root_secret();
    let mut scan = LpScan::start(&root);
    let mut seen = Vec::new();
    while scan.request().is_some() {
        let page = pages.pop_front().expect("a page for every request");
        seen.extend(page.entries.iter().map(|entry| entry.shares));
        scan = scan.accept(&root, page);
    }
    assert_eq!(seen, vec![10, 20]);
}

fn client() -> AmmClientModule {
    let mut units = Table::new();
    for id in [0, 1] {
        units.insert(unit(id), UnitParams { min_swap_in: msats(10) });
    }
    AmmClientModule {
        cfg: AmmClientConfig { units, default_fee_per_mille: 3, fee_overrides: Table::new() },
        root_secret: test_root_secret(),
    }
}

fn summary(lo: u64, hi: u64, shares: u64) -> PoolSummary {
    PoolSummary {
        pool: pool(),
        reserve_lo: msats(lo),
        reserve_hi: msats(hi),
        total_shares: shares,
        fee_per_mille: 3,
    }
}

fn quote(amount: u64) -> QuoteResponse {
    QuoteResponse { amount_out: msats(amount), price_impact_per_mille: 0 }
}

#[test]
fn a_swap_order_is_bounded_by_its_quote() {
    let order = client()
        .swap_with_tweak(operation(1), unit(0), unit(1), msats(5_000), 100, quote(1_000), [3; 16])
        .expect("ordered");
    let key = derive_keypair(&test_root_secret(), CHILD_SWAP, [3; 16]);
    assert_eq!(
        order.output,
        AmmOutput::new_swap_v0(&key, unit(0), unit(1), msats(5_000), msats(990), [3; 16])
    );
    assert_eq!(order.amounts, Amounts::new_custom(unit(0), msats(5_000)));
    assert_eq!(order.common.recipient_keypair, key);
}

#[test]
fn a_swap_is_not_ordered_on_bad_terms() {
    let try_swap = |a, b, bps| {
        client().swap(operation(1), unit(a), unit(b), msats(5), bps, quote(9)).unwrap_err()
    };
    assert_eq!(try_swap(0, 0, 0), ClientError::IdenticalUnits);
    assert_eq!(try_swap(0, 7, 0), ClientError::UnknownUnit);
    assert_eq!(try_swap(0, 1, 10_001), ClientError::Slippage(SlippageError::OutOfRange));
    assert_eq!(try_swap(0, 0, 0).message(), "unit_in and unit_out must differ");
}

#[test]
fn a_first_deposit_is_previewed_against_an_empty_pool() {
    let order = client()
        .deposit_with_tweak(operation(1), pool(), msats(4_000_000), msats(1_000_000), 50, &[], [4; 16])
        .expect("ordered");
    // The root of the product less the locked minimum.
    assert_eq!(order.common.expected_shares, 2_000_000 - 1_000);
    match order.output {
        AmmOutput::DepositV0 { min_shares, owner_pk, .. } => {
            assert_eq!(min_shares, (2_000_000 - 1_000) * 9_950 / 10_000);
            assert_eq!(owner_pk, derive_keypair(&test_root_secret(), CHILD_LP, [4; 16]).public_key());
        }
        other => panic!("expected DepositV0, got {other:?}"),
    }
    assert_eq!(order.amounts.get(unit(0)), Some(msats(4_000_000)));
    assert_eq!(order.amounts.get(unit(1)), Some(msats(1_000_000)));
}

#[test]
fn a_deposit_is_not_ordered_on_bad_terms() {
    let other = PoolId::new(unit(0), unit(9)).unwrap();
    let try_deposit = |pool, lo, bps| {
        client()
            .deposit(operation(1), pool, msats(lo), msats(1_000_000), bps, &[])
            .unwrap_err()
    };
    assert_eq!(try_deposit(other, 5, 0), ClientError::UnknownUnit);
    assert!(matches!(try_deposit(pool(), 0, 0), ClientError::Curve(_)));
    assert_eq!(
        try_deposit(pool(), 1_000_000, 10_001),
        ClientError::Slippage(SlippageError::OutOfRange)
    );
}

#[test]
fn a_withdrawal_demands_exactly_its_preview() {
    let mut db = ClientDb::new();
    let owner_pk = derive_keypair(&test_root_secret(), CHILD_LP, [5; 16]).public_key();
    db.positions.insert(
        LpPositionKey { pool: pool(), owner_pk },
        LpPositionRecord { tweak: [5; 16], shares: 500 },
    );
    let order = client()
        .withdraw(&db, operation(1), pool(), owner_pk, 100, &[summary(3_000, 7_001, 1_000)])
        .expect("ordered");
    assert_eq!(
        order.input.input,
        AmmInput::WithdrawV0 {
            pool: pool(),
            owner_pk,
            shares: 100,
            min_lo: msats(300),
            min_hi: msats(700),
            max_lo: msats(300),
            max_hi: msats(700),
        }
    );
    assert_eq!(order.input.amounts.get(unit(0)), Some(msats(300)));
    assert_eq!(order.input.keys[0].public_key(), owner_pk);
}

#[test]
fn a_withdrawal_is_not_ordered_on_bad_terms() {
    let mut db = ClientDb::new();
    let owner_pk = derive_keypair(&test_root_secret(), CHILD_LP, [5; 16]).public_key();
    let stranger = test_pubkey(9);
    for key in [owner_pk, stranger] {
        db.positions.insert(
            LpPositionKey { pool: pool(), owner_pk: key },
            LpPositionRecord { tweak: [5; 16], shares: 500 },
        );
    }
    let pools = [summary(3_000, 7_000, 1_000)];
    assert_eq!(find_pool(&pools, pool()), Some(pools[0]));
    assert_eq!(find_pool(&[], pool()), None);
    let try_withdraw = |key, shares, pools: &[PoolSummary]| {
        client().withdraw(&db, operation(1), pool(), key, shares, pools).unwrap_err()
    };
    assert_eq!(try_withdraw(test_pubkey(8), 1, &pools), ClientError::UnknownPosition);
    assert_eq!(try_withdraw(owner_pk, 0, &pools), ClientError::ZeroShares);
    assert_eq!(try_withdraw(stranger, 1, &pools), ClientError::WrongTweak);
    assert_eq!(try_withdraw(owner_pk, 1, &[]), ClientError::NoSuchPool);
    assert_eq!(
        try_withdraw(owner_pk, 1_001, &pools),
        ClientError::Curve(CurveError::InsufficientShares)
    );
}

#[test]
fn what_became_of_an_operation_is_told() {
    let client = client();
    assert_eq!(client.await_swap(&sm(SwapState::Done)), Some(Ok(())));
    assert_eq!(
        client.await_swap(&sm(SwapState::Tx1Rejected("no".to_string()))),
        Some(Err("Tx1 rejected: no".to_string()))
    );
    assert_eq!(client.await_swap(&sm(SwapState::Tx1Accepted { attempts: 9 })), None);
    let mut deposit = deposit_machine(1, [1; 16], 3);
    assert_eq!(client.await_deposit(&deposit), None);
    deposit.state = DepositState::Rejected("no".to_string());
    assert_eq!(client.await_deposit(&deposit), Some(Err("deposit rejected: no".to_string())));
    let mut withdraw = withdraw_machine(LpPositionKey { pool: pool(), owner_pk: pubkey(1) }, 3);
    withdraw.state = WithdrawState::Accepted;
    assert_eq!(client.await_withdraw(&withdraw), Some(Ok(())));
}

#[test]
fn known_items_cost_nothing_and_unknown_ones_have_no_price() {
    let client = client();
    let known = AmmInput::ClaimBalanceV0 { pubkey: pubkey(1), unit: unit(0) };
    let unknown = AmmInput::Default { variant: 9, bytes: vec![] };
    assert_eq!(client.input_fee(&known), Some(Amounts::zero()));
    assert_eq!(client.input_fee(&unknown), None);
    assert_eq!(client.output_fee(&AmmOutput::Default { variant: 9, bytes: vec![] }), None);
}

/// A client that lost everything but its secret finds its balance and its
/// position again, and can claim the one and withdraw the other.
#[test]
fn a_recovered_client_gets_its_funds_back() {
    let client = client();
    let root = test_root_secret();
    let server = Amm::new(default_consensus_config(), 4, PeerId { id: 0 });
    let mut ledger = Ledger::new();

    let deposit = client
        .deposit(
            operation(1),
            pool(),
            msats(1_000_000_000),
            msats(1_000_000_000),
            0,
            &server.pools(&ledger),
        )
        .expect("ordered");
    server.process_output(&mut ledger, &deposit.output).expect("deposited");

    let request = QuoteRequest { unit_in: unit(0), unit_out: unit(1), amount_in: msats(1_000_000) };
    let quote = server.quote(&ledger, request).expect("quoted");
    let swap = client
        .swap(operation(2), unit(0), unit(1), msats(1_000_000), 0, quote)
        .expect("ordered");
    let AmmOutput::SwapV0 { tweak: swap_tweak, .. } = swap.output else {
        panic!("not a swap")
    };
    server.process_output(&mut ledger, &swap.output).expect("swapped");

    // A stranger's balance stands beside it.
    ledger.balances.insert(
        server_db::BalanceKey { owner: test_pubkey(3), unit: unit(1) },
        server_db::BalanceEntry { amount: msats(5), tweak: swap_tweak },
    );

    let mut balances = BalanceScan::start(&root);
    while let Some(request) = balances.request() {
        let page = server.balance_recovery(&ledger, &request).expect("a page");
        balances = balances.accept(&root, page);
    }
    let mut positions = LpScan::start(&root);
    while let Some(request) = positions.request() {
        let page = server.lp_recovery(&ledger, &request).expect("a page");
        positions = positions.accept(&root, page);
    }
    assert_eq!(balances.own.len(), 1);
    assert_eq!(positions.own.len(), 1);

    let mut db = ClientDb::new();
    client.recover(&mut db, &balances, &positions);
    let found = balances.own[0];
    let key = RecoveredBalanceKey { pubkey: found.pubkey, unit: unit(1) };
    assert_eq!(db.recovered.get(&key), Some(RecoveredBalanceRecord { tweak: swap_tweak }));
    let listed = client.list_lp_positions(&db);
    assert_eq!(listed.len(), 1);
    assert_eq!(listed[0].1.shares, deposit.common.expected_shares);

    let sweep = ClaimSweep::start(&db);
    assert_eq!(
        sweep.action(&client),
        SweepAction::ReadBalance { pubkey: found.pubkey, unit: unit(1) }
    );
    let held = server.balance(&ledger, BalanceRequest { pubkey: found.pubkey, unit: unit(1) });
    assert_eq!(held, Some(found.amount));
    let sweep = sweep.advance(SweepEvent::BalanceRead(held), &client, &mut db);
    let SweepAction::Claim(claim) = sweep.action(&client) else {
        panic!("not a claim")
    };
    assert_eq!(
        claim.input,
        AmmInput::ClaimBalanceV0 { pubkey: found.pubkey, unit: unit(1) }
    );
    let meta = server.process_input(&mut ledger, &claim.input).expect("claimed");
    assert_eq!(meta.pub_key, claim.keys[0].public_key());
    assert_eq!(meta.amount.amounts, claim.amounts);
    let sweep = sweep.advance(SweepEvent::Claimed, &client, &mut db);
    assert_eq!(sweep.action(&client), SweepAction::Nothing);
    assert_eq!(db.recovered.len(), 0);
    assert!(server.process_input(&mut ledger, &claim.input).is_err());
    assert_eq!(
        client.recovery_summary(&balances, &positions, &sweep),
        AmmRecoverySummary {
            balances_found: 1,
            balances_claimed: 1,
            positions_restored: 1,
            claim_errors: vec![],
        }
    );

    let withdraw = client
        .withdraw(&db, operation(3), pool(), listed[0].0.owner_pk, 1_000, &server.pools(&ledger))
        .expect("ordered");
    let meta = server.process_input(&mut ledger, &withdraw.input.input).expect("withdrawn");
    assert_eq!(meta.amount.amounts, withdraw.input.amounts);
}

/// Of three marked balances one is claimed, one is gone, and one fails: the
/// failed one is reported and stays marked.
#[test]
fn a_sweep_accounts_for_every_mark() {
    let client = client();
    let mut db = ClientDb::new();
    for seed in [21u8, 22, 23] {
        db.recovered.insert(
            RecoveredBalanceKey { pubkey: test_pubkey(seed), unit: unit(0) },
            RecoveredBalanceRecord { tweak: [seed; 16] },
        );
    }
    let mut sweep = ClaimSweep::start(&db);
    let marks = sweep.marks.clone();
    for event in [
        SweepEvent::Claimed, // Not waited for, and without effect.
        SweepEvent::BalanceRead(Some(msats(5))),
        SweepEvent::Claimed,
        SweepEvent::BalanceRead(None),
        SweepEvent::BalanceRead(Some(msats(7))),
        SweepEvent::Failed("boom".to_string()),
        SweepEvent::Claimed, // Nothing is left.
    ] {
        sweep = sweep.advance(event, &client, &mut db);
    }
    assert_eq!(
        sweep.outcomes,
        vec![
            ClaimOutcome::Claimed,
            ClaimOutcome::Gone,
            ClaimOutcome::Failed("boom".to_string()),
        ]
    );
    assert_eq!(db.recovered.len(), 1);
    assert_eq!(db.recovered.row(0), marks[2]);
    let root = test_root_secret();
    let summary =
        client.recovery_summary(&BalanceScan::start(&root), &LpScan::start(&root), &sweep);
    assert_eq!(summary.balances_claimed, 1);
    // The line names the key, the unit and the error.
    assert_eq!(summary.claim_errors.len(), 1);
    let line = &summary.claim_errors[0];
    let key = marks[2].0.pubkey.shown().expect("a point of the curve");
    assert_eq!(line, &format!("{key}/AmountUnit(0): boom"));
    assert_ne!(marks[1].0.pubkey.shown(), Some(key));
    assert_eq!(PublicKey { bytes: [0; 33] }.shown(), None);
}
