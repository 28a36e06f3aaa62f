use fedimint_amm::config::{AmmConfigConsensus, UnitParams};
use fedimint_amm::crypto::{Keypair, PublicKey};
use fedimint_amm::math::{self, MINIMUM_LIQUIDITY};
use fedimint_amm::pool_id::PoolId;
use fedimint_amm::server::db::{
    BalanceEntry, BalanceKey, LpPosition, LpPositionKey, PeerId, Pool, PoolKey,
};
use fedimint_amm::server::ledger::{Amm, Ledger};
use fedimint_amm::table::Table;
use fedimint_amm::types::{AmmInput, AmmInputError, AmmOutput};
use fedimint_amm::units::{Amount, AmountUnit};

fn unit(n: u64) -> AmountUnit {
    AmountUnit::new_custom(n)
}

fn keypair(seed: u8) -> Keypair {
    Keypair::from_secret([seed; 32]).expect("a repeated non-zero byte is a valid secret key")
}

fn test_pubkey(seed: u8) -> PublicKey {
    keypair(seed).public_key()
}

fn pool01() -> PoolId {
    PoolId::new(unit(0), unit(1)).unwrap()
}

/// The keypair of a key made by `test_pubkey`.
fn keypair_of(pk: PublicKey) -> Keypair {
    (1..=255u8).map(keypair).find(|k| k.public_key() == pk).expect("a test key")
}

fn swap_of(
    unit_in: AmountUnit,
    unit_out: AmountUnit,
    amount_in: Amount,
    min_out: Amount,
    recipient_pk: PublicKey,
    tweak: [u8; 16],
) -> AmmOutput {
    AmmOutput::new_swap_v0(&keypair_of(recipient_pk), unit_in, unit_out, amount_in, min_out, tweak)
}

fn deposit_of(
    pool: PoolId,
    amount_lo: Amount,
    amount_hi: Amount,
    min_shares: u64,
    owner_pk: PublicKey,
    tweak: [u8; 16],
) -> AmmOutput {
    AmmOutput::new_deposit_v0(&keypair_of(owner_pk), pool, amount_lo, amount_hi, min_shares, tweak)
}

fn config(
    units: &[(u64, u64)],
    default_fee_per_mille: u16,
    overrides: &[(PoolId, u16)],
    band: (u16, u16),
) -> AmmConfigConsensus {
    let mut table = Table::new();
    for (id, min_swap_in) in units {
        table.insert(unit(*id), UnitParams { min_swap_in: Amount::from_msats(*min_swap_in) });
    }
    let mut fee_overrides = Table::new();
    for (pool, fee) in overrides {
        fee_overrides.insert(*pool, *fee);
    }
    AmmConfigConsensus {
        units: table,
        default_fee_per_mille,
        fee_overrides,
        min_fee_per_mille: band.0,
        max_fee_per_mille: band.1,
    }
}

fn amm() -> Amm {
    Amm::new(config(&[(0, 1_000), (1, 1_000)], 3, &[], (0, 999)), 4, PeerId { id: 0 })
}

#[test]
fn claim_balance_for_nonexistent_balance_fails() {
    let mut ledger = Ledger::new();
    let module = amm();
    let owner = test_pubkey(1);

    let input = AmmInput::ClaimBalanceV0 {
        pubkey: owner,
        unit: unit(0),
    };

    let result = module.process_input(&mut ledger, &input);
    assert_eq!(result, Err(AmmInputError::NoSuchBalance));
}

#[test]
fn claim_balance_returns_stored_amount_and_deletes_record() {
    let mut ledger = Ledger::new();
    let module = amm();
    let owner = test_pubkey(2);
    let key = BalanceKey {
        owner,
        unit: unit(0),
    };
    ledger.balances.insert(key, BalanceEntry {
            amount: Amount::from_msats(12_345),
            tweak: [7u8; 16],
        },
    );

    let input = AmmInput::ClaimBalanceV0 {
        pubkey: owner,
        unit: unit(0),
    };

    let result = module
        .process_input(&mut ledger, &input)
        .expect("claiming an existing balance must succeed");

    assert_eq!(result.pub_key, owner);
    assert_eq!(
        result.amount.amounts.get(unit(0)),
        Some(Amount::from_msats(12_345))
    );
    assert_eq!(result.amount.amounts.count(), 1);
    assert!(result.amount.fees.count() == 0);

    assert!(
        ledger.balances.get(&key).is_none(),
        "the balance record must be deleted on claim"
    );
}

#[test]
fn second_claim_of_same_balance_fails() {
    let mut ledger = Ledger::new();
    let module = amm();
    let owner = test_pubkey(3);
    let key = BalanceKey {
        owner,
        unit: unit(0),
    };
    ledger.balances.insert(key, BalanceEntry {
            amount: Amount::from_msats(500),
            tweak: [1u8; 16],
        },
    );

    let input = AmmInput::ClaimBalanceV0 {
        pubkey: owner,
        unit: unit(0),
    };

    module
        .process_input(&mut ledger, &input)
        .expect("first claim must succeed");

    let result = module.process_input(&mut ledger, &input);
    assert_eq!(result, Err(AmmInputError::NoSuchBalance));
}

#[test]
fn withdraw_from_unknown_pool_fails() {
    let mut ledger = Ledger::new();
    let module = amm();

    let input = AmmInput::WithdrawV0 {
        pool: pool01(),
        owner_pk: test_pubkey(4),
        shares: 100,
        min_lo: Amount::from_msats(0),
        min_hi: Amount::from_msats(0),
        max_lo: Amount::from_msats(u64::MAX),
        max_hi: Amount::from_msats(u64::MAX),
    };

    let result = module.process_input(&mut ledger, &input);
    assert_eq!(result, Err(AmmInputError::NoSuchPool));
}

#[test]
fn withdraw_with_unknown_position_fails() {
    let mut ledger = Ledger::new();
    let module = amm();
    let pool = pool01();

    ledger.pools.insert(PoolKey(pool), Pool {
            reserve_lo: Amount::from_msats(1_000_000),
            reserve_hi: Amount::from_msats(1_000_000),
            total_shares: 1_000_000,
        },
    );

    let input = AmmInput::WithdrawV0 {
        pool,
        owner_pk: test_pubkey(5),
        shares: 100,
        min_lo: Amount::from_msats(0),
        min_hi: Amount::from_msats(0),
        max_lo: Amount::from_msats(u64::MAX),
        max_hi: Amount::from_msats(u64::MAX),
    };

    let result = module.process_input(&mut ledger, &input);
    assert_eq!(result, Err(AmmInputError::NoSuchPosition));
}

#[test]
fn withdraw_more_shares_than_held_fails() {
    let mut ledger = Ledger::new();
    let module = amm();
    let pool = pool01();
    let owner = test_pubkey(6);

    ledger.pools.insert(PoolKey(pool), Pool {
            reserve_lo: Amount::from_msats(1_000_000),
            reserve_hi: Amount::from_msats(1_000_000),
            total_shares: 1_000_000,
        },
    );
    ledger.positions.insert(LpPositionKey { pool, owner }, LpPosition {
            shares: 100,
            tweak: [2u8; 16],
        },
    );

    let input = AmmInput::WithdrawV0 {
        pool,
        owner_pk: owner,
        shares: 101,
        min_lo: Amount::from_msats(0),
        min_hi: Amount::from_msats(0),
        max_lo: Amount::from_msats(u64::MAX),
        max_hi: Amount::from_msats(u64::MAX),
    };

    let result = module.process_input(&mut ledger, &input);
    assert_eq!(result, Err(AmmInputError::InsufficientShares));
}

#[test]
fn partial_withdraw_debits_reserves_and_keeps_position() {
    let mut ledger = Ledger::new();
    let module = amm();
    let pool = pool01();
    let owner = test_pubkey(7);

    let reserve_lo = Amount::from_msats(1_001_000);
    let reserve_hi = Amount::from_msats(1_001_000);
    let total_shares = 1_000_000;
    ledger.pools.insert(PoolKey(pool), Pool {
            reserve_lo,
            reserve_hi,
            total_shares,
        },
    );
    ledger.positions.insert(LpPositionKey { pool, owner }, LpPosition {
            shares: 1_000,
            tweak: [3u8; 16],
        },
    );

    let expected = math::burn_shares(reserve_lo.msats, reserve_hi.msats, total_shares, 500)
        .expect("burn must succeed for this fixture");

    let input = AmmInput::WithdrawV0 {
        pool,
        owner_pk: owner,
        shares: 500,
        min_lo: Amount::from_msats(0),
        min_hi: Amount::from_msats(0),
        max_lo: Amount::from_msats(u64::MAX),
        max_hi: Amount::from_msats(u64::MAX),
    };

    let result = module
        .process_input(&mut ledger, &input)
        .expect("partial withdraw must succeed");

    assert_eq!(result.pub_key, owner);
    assert_eq!(
        result.amount.amounts.get(pool.lo()),
        Some(Amount::from_msats(expected.da))
    );
    assert_eq!(
        result.amount.amounts.get(pool.hi()),
        Some(Amount::from_msats(expected.db))
    );

    let stored_pool = ledger.pools.get(&PoolKey(pool)).unwrap();
    assert_eq!(
        stored_pool.reserve_lo,
        Amount::from_msats(reserve_lo.msats - expected.da)
    );
    assert_eq!(
        stored_pool.reserve_hi,
        Amount::from_msats(reserve_hi.msats - expected.db)
    );
    assert_eq!(stored_pool.total_shares, expected.new_total_shares);

    let position = ledger.positions.get(&LpPositionKey { pool, owner })
        .expect("position must still exist after a partial withdraw");
    assert_eq!(position.shares, 500);
    assert_eq!(position.tweak, [3u8; 16]);
}

#[test]
fn full_withdraw_deletes_position() {
    let mut ledger = Ledger::new();
    let module = amm();
    let pool = pool01();
    let owner = test_pubkey(8);

    ledger.pools.insert(PoolKey(pool), Pool {
            reserve_lo: Amount::from_msats(1_001_000),
            reserve_hi: Amount::from_msats(1_001_000),
            total_shares: 1_000_000,
        },
    );
    ledger.positions.insert(LpPositionKey { pool, owner }, LpPosition {
            shares: 1_000,
            tweak: [4u8; 16],
        },
    );

    let input = AmmInput::WithdrawV0 {
        pool,
        owner_pk: owner,
        shares: 1_000,
        min_lo: Amount::from_msats(0),
        min_hi: Amount::from_msats(0),
        max_lo: Amount::from_msats(u64::MAX),
        max_hi: Amount::from_msats(u64::MAX),
    };

    module
        .process_input(&mut ledger, &input)
        .expect("full withdraw must succeed");

    assert!(
        ledger.positions.get(&LpPositionKey { pool, owner }).is_none(),
        "an emptied position must be deleted, not left as a zero-share record"
    );
}

#[test]
fn withdraw_below_min_lo_hi_fails_and_writes_nothing() {
    let mut ledger = Ledger::new();
    let module = amm();
    let pool = pool01();
    let owner = test_pubkey(9);

    let seeded_pool = Pool {
        reserve_lo: Amount::from_msats(1_001_000),
        reserve_hi: Amount::from_msats(1_001_000),
        total_shares: 1_000_000,
    };
    ledger.pools.insert(PoolKey(pool), seeded_pool);
    let seeded_position = LpPosition {
        shares: 1_000,
        tweak: [5u8; 16],
    };
    ledger.positions.insert(LpPositionKey { pool, owner }, seeded_position);

    let expected = math::burn_shares(
        seeded_pool.reserve_lo.msats,
        seeded_pool.reserve_hi.msats,
        seeded_pool.total_shares,
        500,
    )
    .unwrap();

    let input = AmmInput::WithdrawV0 {
        pool,
        owner_pk: owner,
        shares: 500,
        min_lo: Amount::from_msats(expected.da + 1),
        min_hi: Amount::from_msats(0),
        max_lo: Amount::from_msats(u64::MAX),
        max_hi: Amount::from_msats(u64::MAX),
    };

    let result = module.process_input(&mut ledger, &input);
    assert_eq!(result, Err(AmmInputError::SlippageExceeded));

    assert_eq!(ledger.pools.get(&PoolKey(pool)).unwrap(), seeded_pool);
    assert_eq!(
        ledger.positions.get(&LpPositionKey { pool, owner }).unwrap(),
        seeded_position
    );
}

#[test]
fn withdraw_that_floors_to_zero_on_both_legs_is_rejected() {
    let mut ledger = Ledger::new();
    let module = amm();
    let pool = pool01();
    let owner = test_pubkey(10);

    ledger.pools.insert(PoolKey(pool), Pool {
            reserve_lo: Amount::from_msats(10),
            reserve_hi: Amount::from_msats(10),
            total_shares: 1_000_000,
        },
    );
    ledger.positions.insert(LpPositionKey { pool, owner }, LpPosition {
            shares: 1,
            tweak: [6u8; 16],
        },
    );

    let input = AmmInput::WithdrawV0 {
        pool,
        owner_pk: owner,
        shares: 1,
        min_lo: Amount::from_msats(0),
        min_hi: Amount::from_msats(0),
        max_lo: Amount::from_msats(u64::MAX),
        max_hi: Amount::from_msats(u64::MAX),
    };

    let result = module.process_input(&mut ledger, &input);
    assert_eq!(
        result,
        Err(AmmInputError::Curve(
            math::CurveError::OutputRoundsToZero.message().to_string()
        ))
    );

    assert_eq!(
        ledger.positions.get(&LpPositionKey { pool, owner })
            .unwrap()
            .shares,
        1
    );
}

#[test]
fn zero_leg_is_omitted_from_amounts() {
    let mut ledger = Ledger::new();
    let module = amm();
    let pool = pool01();
    let owner = test_pubkey(11);

    let reserve_lo = Amount::from_msats(1_000_000_000);
    let reserve_hi = Amount::from_msats(10);
    let total_shares = 1_000_000;
    ledger.pools.insert(PoolKey(pool), Pool {
            reserve_lo,
            reserve_hi,
            total_shares,
        },
    );
    ledger.positions.insert(LpPositionKey { pool, owner }, LpPosition {
            shares: 1,
            tweak: [8u8; 16],
        },
    );

    let expected = math::burn_shares(reserve_lo.msats, reserve_hi.msats, total_shares, 1).unwrap();
    assert!(expected.da > 0);
    assert_eq!(expected.db, 0, "fixture must exercise the zero-leg path");

    let input = AmmInput::WithdrawV0 {
        pool,
        owner_pk: owner,
        shares: 1,
        min_lo: Amount::from_msats(0),
        min_hi: Amount::from_msats(0),
        max_lo: Amount::from_msats(u64::MAX),
        max_hi: Amount::from_msats(u64::MAX),
    };

    let result = module
        .process_input(&mut ledger, &input)
        .expect("a single non-zero leg must still succeed");

    assert_eq!(
        result.amount.amounts.get(pool.lo()),
        Some(Amount::from_msats(expected.da))
    );
    assert_eq!(
        result.amount.amounts.get(pool.hi()),
        None,
        "the zero leg must be OMITTED, not present as an explicit zero"
    );
    assert_eq!(result.amount.amounts.count(), 1);

    assert_eq!(expected.da, 1_000);
    let stored_pool = ledger.pools.get(&PoolKey(pool))
        .expect("pool must still exist after withdrawal");
    assert_eq!(
        stored_pool.reserve_lo,
        Amount::from_msats(1_000_000_000 - 1_000),
        "reserve_lo must be debited by da"
    );
    assert_eq!(
        stored_pool.reserve_hi,
        Amount::from_msats(10),
        "reserve_hi must be debited by db (which is 0 here), not by da"
    );
}

#[test]
fn total_shares_never_reaches_zero_after_full_withdrawal() {
    let mut ledger = Ledger::new();
    let module = amm();
    let pool = pool01();
    let owner = test_pubkey(12);

    let total_shares = 1_000_000u64;
    let owner_shares = total_shares - MINIMUM_LIQUIDITY;
    ledger.pools.insert(PoolKey(pool), Pool {
            reserve_lo: Amount::from_msats(1_000_000),
            reserve_hi: Amount::from_msats(1_000_000),
            total_shares,
        },
    );
    ledger.positions.insert(LpPositionKey { pool, owner }, LpPosition {
            shares: owner_shares,
            tweak: [9u8; 16],
        },
    );

    let input = AmmInput::WithdrawV0 {
        pool,
        owner_pk: owner,
        shares: owner_shares,
        min_lo: Amount::from_msats(0),
        min_hi: Amount::from_msats(0),
        max_lo: Amount::from_msats(u64::MAX),
        max_hi: Amount::from_msats(u64::MAX),
    };

    module
        .process_input(&mut ledger, &input)
        .expect("withdrawing the entire assigned position must succeed");

    let stored_pool = ledger.pools.get(&PoolKey(pool))
        .expect("the Pool record itself is never deleted");
    assert_eq!(stored_pool.total_shares, MINIMUM_LIQUIDITY);
    assert!(stored_pool.total_shares > 0);

    assert!(
        ledger.positions.get(&LpPositionKey { pool, owner }).is_none(),
        "the emptied position must be deleted"
    );
}

#[test]
fn withdraw_below_min_hi_only_fails_and_writes_nothing() {
    let mut ledger = Ledger::new();
    let module = amm();
    let pool = pool01();
    let owner = test_pubkey(13);

    let seeded_pool = Pool {
        reserve_lo: Amount::from_msats(1_001_000),
        reserve_hi: Amount::from_msats(1_001_000),
        total_shares: 1_000_000,
    };
    ledger.pools.insert(PoolKey(pool), seeded_pool);
    let seeded_position = LpPosition {
        shares: 1_000,
        tweak: [13u8; 16],
    };
    ledger.positions.insert(LpPositionKey { pool, owner }, seeded_position);

    let expected = math::burn_shares(
        seeded_pool.reserve_lo.msats,
        seeded_pool.reserve_hi.msats,
        seeded_pool.total_shares,
        500,
    )
    .unwrap();

    let input = AmmInput::WithdrawV0 {
        pool,
        owner_pk: owner,
        shares: 500,
        min_lo: Amount::from_msats(0),
        min_hi: Amount::from_msats(expected.db + 1),
        max_lo: Amount::from_msats(u64::MAX),
        max_hi: Amount::from_msats(u64::MAX),
    };

    let result = module.process_input(&mut ledger, &input);
    assert_eq!(result, Err(AmmInputError::SlippageExceeded));

    assert_eq!(ledger.pools.get(&PoolKey(pool)).unwrap(), seeded_pool);
    assert_eq!(
        ledger.positions.get(&LpPositionKey { pool, owner }).unwrap(),
        seeded_position
    );
}

#[test]
fn default_input_variant_is_rejected_as_unknown() {
    let mut ledger = Ledger::new();
    let module = amm();

    let input = AmmInput::Default {
        variant: 42,
        bytes: vec![1, 2, 3],
    };

    let result = module.process_input(&mut ledger, &input);
    assert_eq!(result, Err(AmmInputError::UnknownVariant));
}

#[test]
fn withdraw_zero_shares_fails() {
    let mut ledger = Ledger::new();
    let module = amm();
    let pool = pool01();
    let owner = test_pubkey(14);

    ledger.pools.insert(PoolKey(pool), Pool {
            reserve_lo: Amount::from_msats(1_000_000),
            reserve_hi: Amount::from_msats(1_000_000),
            total_shares: 1_000_000,
        },
    );
    ledger.positions.insert(LpPositionKey { pool, owner }, LpPosition {
            shares: 100,
            tweak: [14u8; 16],
        },
    );

    let input = AmmInput::WithdrawV0 {
        pool,
        owner_pk: owner,
        shares: 0,
        min_lo: Amount::from_msats(0),
        min_hi: Amount::from_msats(0),
        max_lo: Amount::from_msats(u64::MAX),
        max_hi: Amount::from_msats(u64::MAX),
    };

    let result = module.process_input(&mut ledger, &input);
    assert_eq!(
        result,
        Err(AmmInputError::Curve(math::CurveError::ZeroAmount.message().to_string()))
    );
}

/// A payout above the upper bound is refused as one below the lower bound is.
#[test]
fn withdraw_above_max_lo_or_hi_fails_and_writes_nothing() {
    let module = amm();
    let pool = pool01();
    let owner = test_pubkey(40);
    let mut ledger = Ledger::new();
    ledger.pools.insert(
        PoolKey(pool),
        Pool {
            reserve_lo: Amount::from_msats(1_000_000),
            reserve_hi: Amount::from_msats(2_000_000),
            total_shares: 1_000_000,
        },
    );
    ledger.positions.insert(LpPositionKey { pool, owner }, LpPosition { shares: 1_000, tweak: [3; 16] });
    let before = ledger.clone();
    let withdraw = |max_lo: u64, max_hi: u64| AmmInput::WithdrawV0 {
        pool,
        owner_pk: owner,
        shares: 500,
        min_lo: Amount::from_msats(500),
        min_hi: Amount::from_msats(1_000),
        max_lo: Amount::from_msats(max_lo),
        max_hi: Amount::from_msats(max_hi),
    };
    assert_eq!(
        module.process_input(&mut ledger, &withdraw(499, 1_000)),
        Err(AmmInputError::SlippageExceeded)
    );
    assert_eq!(
        module.process_input(&mut ledger, &withdraw(500, 999)),
        Err(AmmInputError::SlippageExceeded)
    );
    assert_eq!(ledger, before);
    let meta = module.process_input(&mut ledger, &withdraw(500, 1_000)).expect("exactly the preview");
    assert_eq!(meta.amount.amounts.get(unit(0)), Some(Amount::from_msats(500)));
    assert_eq!(meta.amount.amounts.get(unit(1)), Some(Amount::from_msats(1_000)));
}

#[test]
fn input_errors_say_what_they_mean() {
    for (error, text) in [
        (AmmInputError::UnknownVariant, "unknown input variant"),
        (AmmInputError::NoSuchBalance, "no balance for this key and unit"),
        (AmmInputError::NoSuchPool, "no such pool"),
        (AmmInputError::NoSuchPosition, "no LP position for this key"),
        (AmmInputError::InsufficientShares, "not enough shares"),
        (AmmInputError::SlippageExceeded, "payout below min_lo/min_hi"),
        (AmmInputError::Curve("x".to_string()), "arithmetic error: x"),
    ] {
        assert_eq!(error.message(), text);
    }
}
