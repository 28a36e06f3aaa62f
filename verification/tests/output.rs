use fedimint_amm::config::{AmmConfigConsensus, UnitParams};
use fedimint_amm::crypto::{Keypair, PublicKey};
use fedimint_amm::math::{self, MAX_RESERVE, MINIMUM_LIQUIDITY};
use fedimint_amm::pool_id::PoolId;
use fedimint_amm::server::db::{BalanceEntry, BalanceKey, LpPosition, LpPositionKey, PeerId, Pool, PoolKey};
use fedimint_amm::server::ledger::{Amm, Ledger};
use fedimint_amm::table::Table;
use fedimint_amm::types::{AmmOutput, AmmOutputError};
use fedimint_amm::units::{Amount, AmountUnit};

fn unit(n: u64) -> AmountUnit {
    AmountUnit::new_custom(n)
}

fn keypair(seed: u8) -> Keypair {
    Keypair::from_secret([seed; 32]).expect("a repeated non-zero byte is a valid secret key")
}

fn test_pubkey(seed: u8) -> PublicKey {
    keypair(seed).public_key()
}

fn pool01() -> PoolId {
    PoolId::new(unit(0), unit(1)).unwrap()
}

/// The keypair of a key made by `test_pubkey`.
fn keypair_of(pk: PublicKey) -> Keypair {
    (1..=255u8).map(keypair).find(|k| k.public_key() == pk).expect("a test key")
}

fn swap_of(
    unit_in: AmountUnit,
    unit_out: AmountUnit,
    amount_in: Amount,
    min_out: Amount,
    recipient_pk: PublicKey,
    tweak: [u8; 16],
) -> AmmOutput {
    AmmOutput::new_swap_v0(&keypair_of(recipient_pk), unit_in, unit_out, amount_in, min_out, tweak)
}

fn deposit_of(
    pool: PoolId,
    amount_lo: Amount,
    amount_hi: Amount,
    min_shares: u64,
    owner_pk: PublicKey,
    tweak: [u8; 16],
) -> AmmOutput {
    AmmOutput::new_deposit_v0(&keypair_of(owner_pk), pool, amount_lo, amount_hi, min_shares, tweak)
}

fn config(
    units: &[(u64, u64)],
    default_fee_per_mille: u16,
    overrides: &[(PoolId, u16)],
    band: (u16, u16),
) -> AmmConfigConsensus {
    let mut table = Table::new();
    for (id, min_swap_in) in units {
        table.insert(unit(*id), UnitParams { min_swap_in: Amount::from_msats(*min_swap_in) });
    }
    let mut fee_overrides = Table::new();
    for (pool, fee) in overrides {
        fee_overrides.insert(*pool, *fee);
    }
    AmmConfigConsensus {
        units: table,
        default_fee_per_mille,
        fee_overrides,
        min_fee_per_mille: band.0,
        max_fee_per_mille: band.1,
    }
}

/// Units 0 and 1 may be traded from 1_000 msats on, at 3 per mille.
fn amm() -> Amm {
    Amm::new(config(&[(0, 1_000), (1, 1_000)], 3, &[], (0, 999)), 4, PeerId { id: 0 })
}

#[test]
fn swap_into_fresh_pool_fails_with_no_such_pool() {
    let mut ledger = Ledger::new();
    let module = amm();

    let output = swap_of(unit(0), unit(1), Amount::from_msats(10_000), Amount::from_msats(0), test_pubkey(1), [0u8; 16]);

    let result = module.process_output(&mut ledger, &output);
    assert_eq!(result, Err(AmmOutputError::NoSuchPool));
}

#[test]
fn deposit_into_empty_pool_creates_it_and_mints_shares() {
    let mut ledger = Ledger::new();
    let module = amm();
    let owner = test_pubkey(2);
    let pool = pool01();

    let da = Amount::from_msats(1_000_000);
    let db_amt = Amount::from_msats(1_000_000);

    let output = deposit_of(pool, da, db_amt, 0, owner, [1u8; 16]);

    let result = module
        .process_output(&mut ledger, &output)
        .expect("deposit into a fresh pool must succeed");

    assert_eq!(result.amounts.get(pool.lo()), Some(da));
    assert_eq!(result.amounts.get(pool.hi()), Some(db_amt));
    assert_eq!(result.amounts.count(), 2);
    assert!(result.fees.count() == 0);

    let expected_minted = 1_000_000u64;
    let stored_pool = ledger.pools.get(&PoolKey(pool))
        .expect("pool must now exist");
    assert_eq!(stored_pool.reserve_lo, da);
    assert_eq!(stored_pool.reserve_hi, db_amt);
    assert_eq!(stored_pool.total_shares, expected_minted);

    let position = ledger.positions.get(&LpPositionKey { pool, owner })
        .expect("LP position must be created");
    assert_eq!(position.shares, expected_minted - MINIMUM_LIQUIDITY);
    assert_eq!(position.tweak, [1u8; 16]);
}

#[test]
fn deposit_below_minimum_liquidity_is_rejected_and_writes_nothing() {
    let mut ledger = Ledger::new();
    let module = amm();
    let pool = pool01();

    let output = deposit_of(pool, Amount::from_msats(1_000), Amount::from_msats(1_000), 0, test_pubkey(3), [2u8; 16]);

    let result = module.process_output(&mut ledger, &output);
    assert!(result.is_err(), "expected rejection, got {result:?}");
    assert!(
        ledger.pools.get(&PoolKey(pool)).is_none(),
        "a rejected DepositV0 must leave no Pool record behind"
    );
}

#[test]
fn deposit_with_min_shares_too_high_returns_slippage_exceeded() {
    let mut ledger = Ledger::new();
    let module = amm();
    let pool = pool01();
    let first_owner = test_pubkey(4);
    let second_owner = test_pubkey(5);

    let first = deposit_of(pool, Amount::from_msats(1_000_000), Amount::from_msats(1_000_000), 0, first_owner, [3u8; 16]);
    module
        .process_output(&mut ledger, &first)
        .expect("first deposit must succeed");
    let pool_after_first = ledger.pools.get(&PoolKey(pool)).unwrap();

    let second = deposit_of(pool, Amount::from_msats(100), Amount::from_msats(100), u64::MAX, second_owner, [4u8; 16]);
    let result = module.process_output(&mut ledger, &second);
    assert_eq!(result, Err(AmmOutputError::SlippageExceeded));

    let pool_after_second = ledger.pools.get(&PoolKey(pool)).unwrap();
    assert_eq!(pool_after_first, pool_after_second);
    assert!(
        ledger.positions.get(&LpPositionKey {
            pool,
            owner: second_owner
        })
        .is_none()
    );
}

#[test]
fn swap_moves_reserves_and_credits_balance_by_the_same_dy() {
    let mut ledger = Ledger::new();
    let module = amm();
    let pool = pool01();

    let reserve_lo = Amount::from_msats(1_000_000_000);
    let reserve_hi = Amount::from_msats(1_000_000);
    ledger.pools.insert(PoolKey(pool), Pool {
            reserve_lo,
            reserve_hi,
            total_shares: 1_000_000_000,
        },
    );

    let amount_in = Amount::from_msats(10_000_000);
    let recipient = test_pubkey(6);
    let output = swap_of(unit(0), unit(1), amount_in, Amount::from_msats(0), recipient, [5u8; 16]);

    let result = module
        .process_output(&mut ledger, &output)
        .expect("swap on a live pool must succeed");

    let expected_dy = math::amount_out(reserve_lo.msats, reserve_hi.msats, amount_in.msats, 3)
        .expect("reference vector must compute cleanly");
    assert_eq!(expected_dy, 9_871);

    assert_eq!(result.amounts.get(unit(0)), Some(amount_in));
    assert_eq!(result.amounts.count(), 1);
    assert!(result.fees.count() == 0);

    let stored_pool = ledger.pools.get(&PoolKey(pool)).unwrap();
    assert_eq!(stored_pool.reserve_lo, Amount::from_msats(1_010_000_000));
    assert_eq!(
        stored_pool.reserve_hi,
        Amount::from_msats(reserve_hi.msats - expected_dy)
    );

    let balance = ledger.balances.get(&BalanceKey {
            owner: recipient,
            unit: unit(1),
        })
        .expect("balance must be credited");
    assert_eq!(balance.amount, Amount::from_msats(expected_dy));

    let reserve_hi_delta = reserve_hi.msats - stored_pool.reserve_hi.msats;
    assert_eq!(reserve_hi_delta, expected_dy);
    assert_eq!(balance.amount.msats, reserve_hi_delta);
}

#[test]
fn swap_with_min_out_above_dy_returns_slippage_exceeded_and_writes_nothing() {
    let mut ledger = Ledger::new();
    let module = amm();
    let pool = pool01();

    let reserve_lo = Amount::from_msats(1_000_000_000);
    let reserve_hi = Amount::from_msats(1_000_000);
    let seeded_pool = Pool {
        reserve_lo,
        reserve_hi,
        total_shares: 1_000_000_000,
    };
    ledger.pools.insert(PoolKey(pool), seeded_pool);

    let amount_in = Amount::from_msats(10_000_000);
    let dy = math::amount_out(reserve_lo.msats, reserve_hi.msats, amount_in.msats, 3).unwrap();
    let recipient = test_pubkey(7);

    let output = swap_of(unit(0), unit(1), amount_in, Amount::from_msats(dy + 1), recipient, [6u8; 16]);

    let result = module.process_output(&mut ledger, &output);
    assert_eq!(result, Err(AmmOutputError::SlippageExceeded));

    assert_eq!(ledger.pools.get(&PoolKey(pool)).unwrap(), seeded_pool);
    assert!(
        ledger.balances.get(&BalanceKey {
            owner: recipient,
            unit: unit(1)
        })
        .is_none()
    );
}

#[test]
fn swap_with_identical_units_is_rejected() {
    let mut ledger = Ledger::new();
    let module = amm();

    let output = swap_of(unit(0), unit(0), Amount::from_msats(10_000), Amount::from_msats(0), test_pubkey(8), [7u8; 16]);

    let result = module.process_output(&mut ledger, &output);
    assert_eq!(result, Err(AmmOutputError::IdenticalUnits));
}

#[test]
fn swap_with_unit_outside_allowlist_is_rejected() {
    let mut ledger = Ledger::new();
    let module = amm();

    let output = swap_of(unit(0), unit(99), Amount::from_msats(10_000), Amount::from_msats(0), test_pubkey(9), [8u8; 16]);

    let result = module.process_output(&mut ledger, &output);
    assert_eq!(result, Err(AmmOutputError::UnknownUnit));
}

#[test]
fn swap_below_min_swap_in_is_rejected() {
    let mut ledger = Ledger::new();
    let module = amm();

    let output = swap_of(unit(0), unit(1), Amount::from_msats(500), Amount::from_msats(0), test_pubkey(10), [9u8; 16]);

    let result = module.process_output(&mut ledger, &output);
    assert_eq!(result, Err(AmmOutputError::BelowMinSwapIn));
}

#[test]
fn swap_that_would_exceed_max_reserve_is_rejected() {
    let mut ledger = Ledger::new();
    let module = amm();
    let pool = pool01();

    let seeded_pool = Pool {
        reserve_lo: Amount::from_msats(math::MAX_RESERVE),
        reserve_hi: Amount::from_msats(math::MAX_RESERVE),
        total_shares: 1,
    };
    ledger.pools.insert(PoolKey(pool), seeded_pool);

    let recipient = test_pubkey(11);
    let output = swap_of(unit(0), unit(1), Amount::from_msats(1_000), Amount::from_msats(0), recipient, [10u8; 16]);

    let result = module.process_output(&mut ledger, &output);
    assert_eq!(result, Err(AmmOutputError::ReserveCapExceeded));

    assert_eq!(ledger.pools.get(&PoolKey(pool)).unwrap(), seeded_pool);
    assert!(
        ledger.balances.get(&BalanceKey {
            owner: recipient,
            unit: unit(1)
        })
        .is_none()
    );
}

#[test]
fn second_swap_into_existing_balance_adds_rather_than_replaces() {
    let mut ledger = Ledger::new();
    let module = amm();
    let pool = pool01();

    ledger.pools.insert(PoolKey(pool), Pool {
            reserve_lo: Amount::from_msats(1_000_000_000),
            reserve_hi: Amount::from_msats(1_000_000),
            total_shares: 1_000_000_000,
        },
    );

    let recipient = test_pubkey(12);
    let amount_in = Amount::from_msats(10_000_000);

    let first = swap_of(unit(0), unit(1), amount_in, Amount::from_msats(0), recipient, [11u8; 16]);
    module
        .process_output(&mut ledger, &first)
        .expect("first swap must succeed");
    let balance_after_first = ledger.balances.get(&BalanceKey {
            owner: recipient,
            unit: unit(1),
        })
        .unwrap();
    let dy1 = balance_after_first.amount.msats;

    let pool_after_first = ledger.pools.get(&PoolKey(pool)).unwrap();
    let dy2 = math::amount_out(
        pool_after_first.reserve_lo.msats,
        pool_after_first.reserve_hi.msats,
        amount_in.msats,
        3,
    )
    .unwrap();

    let second = swap_of(unit(0), unit(1), amount_in, Amount::from_msats(0), recipient, [12u8; 16]);
    module
        .process_output(&mut ledger, &second)
        .expect("second swap must succeed");

    let balance_after_second = ledger.balances.get(&BalanceKey {
            owner: recipient,
            unit: unit(1),
        })
        .unwrap();
    assert_eq!(balance_after_second.amount.msats, dy1 + dy2);
    assert_eq!(balance_after_second.tweak, [11u8; 16]);
}

#[test]
fn balance_tweak_is_preserved_across_accumulation() {
    let mut ledger = Ledger::new();
    let module = amm();
    let pool = pool01();

    ledger.pools.insert(PoolKey(pool), Pool {
            reserve_lo: Amount::from_msats(1_000_000_000),
            reserve_hi: Amount::from_msats(1_000_000),
            total_shares: 1_000_000_000,
        },
    );

    let recipient = test_pubkey(13);
    let amount_in = Amount::from_msats(10_000_000);
    let tweak_a = [0xAAu8; 16];
    let tweak_b = [0xBBu8; 16];

    let first = swap_of(unit(0), unit(1), amount_in, Amount::from_msats(0), recipient, tweak_a);
    module
        .process_output(&mut ledger, &first)
        .expect("first swap must succeed");
    let dy1 = ledger.balances.get(&BalanceKey {
            owner: recipient,
            unit: unit(1),
        })
        .unwrap()
        .amount
        .msats;

    let pool_after_first = ledger.pools.get(&PoolKey(pool)).unwrap();
    let dy2 = math::amount_out(
        pool_after_first.reserve_lo.msats,
        pool_after_first.reserve_hi.msats,
        amount_in.msats,
        3,
    )
    .unwrap();

    let second = swap_of(unit(0), unit(1), amount_in, Amount::from_msats(0), recipient, tweak_b);
    module
        .process_output(&mut ledger, &second)
        .expect("second swap must succeed");

    let balance = ledger.balances.get(&BalanceKey {
            owner: recipient,
            unit: unit(1),
        })
        .unwrap();
    assert_eq!(balance.amount.msats, dy1 + dy2, "amount must accumulate");
    assert_eq!(
        balance.tweak, tweak_a,
        "the FIRST tweak must be preserved, not overwritten by the second swap"
    );
}

#[test]
fn lp_position_tweak_is_preserved_across_accumulation() {
    let mut ledger = Ledger::new();
    let module = amm();
    let pool = pool01();
    let owner = test_pubkey(14);
    let tweak_a = [0xCCu8; 16];
    let tweak_b = [0xDDu8; 16];

    let first = deposit_of(pool, Amount::from_msats(1_000_000), Amount::from_msats(1_000_000), 0, owner, tweak_a);
    module
        .process_output(&mut ledger, &first)
        .expect("first deposit must succeed");
    let shares_after_first = ledger.positions.get(&LpPositionKey { pool, owner })
        .unwrap()
        .shares;

    let second = deposit_of(pool, Amount::from_msats(100), Amount::from_msats(100), 0, owner, tweak_b);
    let result = module
        .process_output(&mut ledger, &second)
        .expect("second deposit must succeed");
    assert!(result.amounts.count() != 0);

    let position = ledger.positions.get(&LpPositionKey { pool, owner }).unwrap();
    assert!(
        position.shares > shares_after_first,
        "shares must accumulate: {shares_after_first} -> {}",
        position.shares
    );
    assert_eq!(
        position.tweak, tweak_a,
        "the FIRST tweak must be preserved, not overwritten by the second deposit"
    );
}

#[test]
fn duplicate_owner_deposit_accumulates_without_panicking() {
    let mut ledger = Ledger::new();
    let module = amm();
    let pool = pool01();
    let owner = test_pubkey(15);

    let first = deposit_of(pool, Amount::from_msats(1_000_000), Amount::from_msats(1_000_000), 0, owner, [0xEEu8; 16]);
    module
        .process_output(&mut ledger, &first)
        .expect("first deposit must succeed");
    let shares_after_first = ledger.positions.get(&LpPositionKey { pool, owner })
        .unwrap()
        .shares;
    let pool_after_first = ledger.pools.get(&PoolKey(pool)).unwrap();

    let second = deposit_of(pool, Amount::from_msats(100), Amount::from_msats(100), 0, owner, [0xFFu8; 16]);
    let result = module.process_output(&mut ledger, &second);
    assert!(
        result.is_ok(),
        "duplicate-owner deposit must not error, got {result:?}"
    );

    let position = ledger.positions.get(&LpPositionKey { pool, owner }).unwrap();
    let expected_second_mint = math::mint_shares(
        pool_after_first.reserve_lo.msats,
        pool_after_first.reserve_hi.msats,
        pool_after_first.total_shares,
        100,
        100,
    )
    .unwrap()
    .to_owner;
    assert_eq!(position.shares, shares_after_first + expected_second_mint);
}

fn live_pool() -> Ledger {
    let mut ledger = Ledger::new();
    ledger.pools.insert(
        PoolKey(pool01()),
        Pool {
            reserve_lo: Amount::from_msats(1_000_000_000),
            reserve_hi: Amount::from_msats(1_000_000),
            total_shares: 1_000_000_000,
        },
    );
    ledger
}

/// A proof made by another key, or for other fields, is refused before anything
/// else is looked at.
#[test]
fn an_output_without_a_valid_proof_is_refused() {
    let module = amm();
    let mut ledger = live_pool();
    let before = ledger.clone();

    let honest = swap_of(unit(0), unit(1), Amount::from_msats(10_000_000), Amount::from_msats(0), test_pubkey(6), [5; 16]);
    let AmmOutput::SwapV0 { unit_in, unit_out, amount_in, min_out, recipient_pk, pop, .. } = honest else {
        unreachable!()
    };
    let other_tweak = AmmOutput::SwapV0 { unit_in, unit_out, amount_in, min_out, recipient_pk, tweak: [6; 16], pop };
    assert_eq!(
        module.process_output(&mut ledger, &other_tweak),
        Err(AmmOutputError::InvalidProofOfPossession)
    );
    let other_key = AmmOutput::SwapV0 {
        unit_in,
        unit_out,
        amount_in,
        min_out,
        recipient_pk: test_pubkey(7),
        tweak: [5; 16],
        pop,
    };
    assert_eq!(
        module.process_output(&mut ledger, &other_key),
        Err(AmmOutputError::InvalidProofOfPossession)
    );
    // Even where the units would be refused too.
    let identical = AmmOutput::SwapV0 { unit_in, unit_out: unit_in, amount_in, min_out, recipient_pk, tweak: [5; 16], pop };
    assert_eq!(
        module.process_output(&mut ledger, &identical),
        Err(AmmOutputError::InvalidProofOfPossession)
    );
    let deposit = deposit_of(pool01(), Amount::from_msats(5_000), Amount::from_msats(5_000), 0, test_pubkey(8), [1; 16]);
    let AmmOutput::DepositV0 { pool, amount_lo, amount_hi, owner_pk, tweak, pop, .. } = deposit else {
        unreachable!()
    };
    let forged = AmmOutput::DepositV0 { pool, amount_lo, amount_hi, min_shares: 1, owner_pk, tweak, pop };
    assert_eq!(
        module.process_output(&mut ledger, &forged),
        Err(AmmOutputError::InvalidProofOfPossession)
    );
    assert_eq!(ledger, before);
}

#[test]
fn an_unknown_output_is_refused() {
    let mut ledger = Ledger::new();
    let output = AmmOutput::Default { variant: 9, bytes: vec![1] };
    assert_eq!(
        amm().process_output(&mut ledger, &output),
        Err(AmmOutputError::UnknownVariant)
    );
}

#[test]
fn a_deposit_in_an_unknown_unit_is_refused() {
    let mut ledger = Ledger::new();
    let pool = PoolId::new(unit(0), unit(99)).unwrap();
    let output = deposit_of(pool, Amount::from_msats(1_000_000), Amount::from_msats(1_000_000), 0, test_pubkey(3), [2; 16]);
    assert_eq!(
        amm().process_output(&mut ledger, &output),
        Err(AmmOutputError::UnknownUnit)
    );
}

/// A balance at its cap takes no more; the pool is left alone too.
#[test]
fn a_full_balance_takes_no_more() {
    let mut ledger = live_pool();
    let recipient = test_pubkey(9);
    ledger.balances.insert(
        BalanceKey { owner: recipient, unit: unit(1) },
        BalanceEntry { amount: Amount::from_msats(MAX_RESERVE), tweak: [3; 16] },
    );
    let before = ledger.clone();
    let output = swap_of(unit(0), unit(1), Amount::from_msats(10_000_000), Amount::from_msats(0), recipient, [4; 16]);
    assert_eq!(
        amm().process_output(&mut ledger, &output),
        Err(AmmOutputError::ReserveCapExceeded)
    );
    assert_eq!(ledger, before);
}

/// A swap that misses both the least output and the cap is refused for the
/// output.
#[test]
fn slippage_comes_before_the_reserve_cap() {
    let mut ledger = Ledger::new();
    ledger.pools.insert(
        PoolKey(pool01()),
        Pool {
            reserve_lo: Amount::from_msats(MAX_RESERVE - 100),
            reserve_hi: Amount::from_msats(MAX_RESERVE - 100),
            total_shares: 1_000_000_000,
        },
    );
    let output = swap_of(unit(0), unit(1), Amount::from_msats(2_000), Amount::from_msats(1_000_000), test_pubkey(9), [4; 16]);
    assert_eq!(
        amm().process_output(&mut ledger, &output),
        Err(AmmOutputError::SlippageExceeded)
    );
}

#[test]
fn a_curve_error_carries_its_text() {
    let mut ledger = Ledger::new();
    ledger.pools.insert(
        PoolKey(pool01()),
        Pool {
            reserve_lo: Amount::from_msats(1_000_000_000),
            reserve_hi: Amount::from_msats(10),
            total_shares: 1_000_000,
        },
    );
    let output = swap_of(unit(0), unit(1), Amount::from_msats(1_000), Amount::from_msats(0), test_pubkey(9), [4; 16]);
    let error = amm().process_output(&mut ledger, &output).unwrap_err();
    assert_eq!(error, AmmOutputError::Curve("output rounds to zero".to_string()));
    assert_eq!(error.message(), "arithmetic error: output rounds to zero");
}

#[test]
fn shares_that_do_not_fit_are_refused() {
    let mut ledger = Ledger::new();
    ledger.pools.insert(
        PoolKey(pool01()),
        Pool {
            reserve_lo: Amount::from_msats(1_000),
            reserve_hi: Amount::from_msats(1_000),
            total_shares: 1_000,
        },
    );
    let owner = test_pubkey(9);
    ledger.positions.insert(
        LpPositionKey { pool: pool01(), owner },
        LpPosition { shares: u64::MAX, tweak: [0; 16] },
    );
    let before = ledger.clone();
    let output = deposit_of(pool01(), Amount::from_msats(100), Amount::from_msats(100), 0, owner, [4; 16]);
    assert_eq!(
        amm().process_output(&mut ledger, &output),
        Err(AmmOutputError::Curve("share overflow".to_string()))
    );
    assert_eq!(ledger, before);
}

#[test]
fn output_errors_say_what_they_mean() {
    for (error, text) in [
        (AmmOutputError::UnknownVariant, "unknown output variant"),
        (
            AmmOutputError::InvalidProofOfPossession,
            "invalid proof of possession for the named key",
        ),
        (AmmOutputError::IdenticalUnits, "unit_in and unit_out must differ"),
        (AmmOutputError::UnknownUnit, "unit not in the federation's allowlist"),
        (AmmOutputError::NoSuchPool, "no such pool"),
        (AmmOutputError::BelowMinSwapIn, "amount_in below the unit's min_swap_in"),
        (
            AmmOutputError::SlippageExceeded,
            "output below min_out, or shares below min_shares",
        ),
        (AmmOutputError::ReserveCapExceeded, "would exceed MAX_RESERVE"),
        (AmmOutputError::KInvariantViolated, "k invariant violated"),
    ] {
        assert_eq!(error.message(), text);
    }
}
