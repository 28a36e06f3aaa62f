use fedimint_amm::bytes::bytes_lt;
use fedimint_amm::config::{AmmConfigConsensus, UnitParams};
use fedimint_amm::crypto::{Keypair, PublicKey};
use fedimint_amm::endpoints::{
    ApiError, BalanceRecoveryResponse, BalanceRequest, FeeVoteSubmitRequest, FeeVotesRequest,
    LpRecoveryResponse, PoolSummary, QuoteRequest, QuoteResponse, RecoveryPageRequest, BALANCE_ENDPOINT, BALANCE_RECOVERY_ENDPOINT,
    FEE_VOTES_ENDPOINT, FEE_VOTE_SUBMIT_ENDPOINT, LP_RECOVERY_ENDPOINT, MAX_RECOVERY_PAGE_SIZE,
    POOLS_ENDPOINT, QUOTE_ENDPOINT,
};
use fedimint_amm::math;
use fedimint_amm::pool_id::PoolId;
use fedimint_amm::server::db::{
    BalanceEntry, BalanceKey, DesiredFeeKey, LpPosition, LpPositionKey, PeerId, Pool, PoolKey,
};
use fedimint_amm::server::dispatch::{ApiParams, ApiResponse};
use fedimint_amm::server::ledger::{Amm, Ledger};
use fedimint_amm::server::recovery::{recovery_page_limit, recovery_range};
use fedimint_amm::table::{Table, TableKey};
use fedimint_amm::types::{AmmOutput, AmmOutputError};
use fedimint_amm::units::{Amount, AmountUnit};

fn unit(n: u64) -> AmountUnit {
    AmountUnit::new_custom(n)
}

fn keypair(seed: u8) -> Keypair {
    Keypair::from_secret([seed; 32]).expect("a repeated non-zero byte is a valid secret key")
}

fn pool01() -> PoolId {
    PoolId::new(unit(0), unit(1)).unwrap()
}

fn config(
    units: &[(u64, u64)],
    default_fee_per_mille: u16,
    overrides: &[(PoolId, u16)],
    band: (u16, u16),
) -> AmmConfigConsensus {
    let mut table = Table::new();
    for (id, min_swap_in) in units {
        table.insert(unit(*id), UnitParams { min_swap_in: Amount::from_msats(*min_swap_in) });
    }
    let mut fee_overrides = Table::new();
    for (pool, fee) in overrides {
        fee_overrides.insert(*pool, *fee);
    }
    AmmConfigConsensus {
        units: table,
        default_fee_per_mille,
        fee_overrides,
        min_fee_per_mille: band.0,
        max_fee_per_mille: band.1,
    }
}

fn amm() -> Amm {
    Amm::new(config(&[(0, 1_000), (1, 1_000)], 3, &[], (0, 999)), 4, PeerId { id: 0 })
}

#[test]
fn quote_endpoint_matches_settlement_in_both_directions() {
    let mut ledger = Ledger::new();
    let module = amm();
    let pool = pool01();

    {
        ledger.pools.insert(PoolKey(pool), Pool {
                reserve_lo: Amount::from_msats(1_000_000_000),
                reserve_hi: Amount::from_msats(1_000_000),
                total_shares: 1_000_000_000,
            },
        );
    }

    let lo_to_hi: QuoteResponse = module.quote(&ledger, QuoteRequest {
            unit_in: unit(0),
            unit_out: unit(1),
            amount_in: Amount::from_msats(10_000_000),
        },
    )
    .expect("lo->hi quote must succeed");
    assert_eq!(lo_to_hi.amount_out, Amount::from_msats(9_871));
    assert_eq!(lo_to_hi.price_impact_per_mille, 13);

    let hi_to_lo: QuoteResponse = module.quote(&ledger, QuoteRequest {
            unit_in: unit(1),
            unit_out: unit(0),
            amount_in: Amount::from_msats(10_000),
        },
    )
    .expect("hi->lo quote must succeed");
    assert_eq!(hi_to_lo.amount_out, Amount::from_msats(9_871_580));
    assert_eq!(hi_to_lo.price_impact_per_mille, 13);
}

#[test]
fn quote_endpoint_rejects_amount_below_min_swap_in() {
    let mut ledger = Ledger::new();
    let module = amm();
    let pool = pool01();
    ledger.pools.insert(PoolKey(pool), Pool {
            reserve_lo: Amount::from_msats(1_000_000_000),
            reserve_hi: Amount::from_msats(1_000_000),
            total_shares: 1_000_000_000,
        },
    );

    let result: Result<QuoteResponse, ApiError> = module.quote(&ledger, QuoteRequest {
            unit_in: unit(0),
            unit_out: unit(1),
            amount_in: Amount::from_msats(500),
        },
    );
    let err = result.expect_err("a below-min_swap_in quote must be rejected");
    assert_eq!(err.message, AmmOutputError::BelowMinSwapIn.message());
}

#[test]
fn quote_endpoint_rejects_unit_not_in_allowlist() {
    let mut ledger = Ledger::new();
    let module = amm();
    let unknown_unit = unit(2);
    let pool = PoolId::new(unit(0), unknown_unit).unwrap();
    ledger.pools.insert(PoolKey(pool), Pool {
            reserve_lo: Amount::from_msats(1_000_000_000),
            reserve_hi: Amount::from_msats(1_000_000),
            total_shares: 1_000_000_000,
        },
    );

    let result: Result<QuoteResponse, ApiError> = module.quote(&ledger, QuoteRequest {
            unit_in: unit(0),
            unit_out: unknown_unit,
            amount_in: Amount::from_msats(10_000),
        },
    );
    let err = result.expect_err("a quote naming a unit outside the allowlist must be rejected");
    assert_eq!(err.message, AmmOutputError::UnknownUnit.message());
}

#[test]
fn balance_endpoint_looks_up_a_single_stored_balance() {
    let mut ledger = Ledger::new();
    let module = amm();

    let pubkey = Keypair::from_secret([7u8; 32])
        .expect("nonzero bytes are a valid secret key")
        .public_key();

    {
        ledger.balances.insert(BalanceKey {
                owner: pubkey,
                unit: unit(0),
            }, BalanceEntry {
                amount: Amount::from_msats(4_242),
                tweak: [7u8; 16],
            },
        );
    }

    let found: Option<Amount> = module.balance(&ledger, BalanceRequest {
            pubkey,
            unit: unit(0),
        });
    assert_eq!(found, Some(Amount::from_msats(4_242)));

    let wrong_unit: Option<Amount> = module.balance(&ledger, BalanceRequest {
            pubkey,
            unit: unit(1),
        });
    assert_eq!(wrong_unit, None);

    let other_pubkey = Keypair::from_secret([8u8; 32])
        .expect("nonzero bytes are a valid secret key")
        .public_key();
    let not_found: Option<Amount> = module.balance(&ledger, BalanceRequest {
            pubkey: other_pubkey,
            unit: unit(0),
        });
    assert_eq!(not_found, None);
}

#[test]
fn pools_endpoint_reports_the_fee_override_not_the_default() {
    let mut ledger = Ledger::new();
    let pool = pool01();
    let module =
        Amm::new(config(&[(0, 1_000), (1, 1_000)], 3, &[(pool, 100)], (0, 999)), 4, PeerId { id: 0 });
    ledger.pools.insert(PoolKey(pool), Pool {
            reserve_lo: Amount::from_msats(1_000_000),
            reserve_hi: Amount::from_msats(1_000_000),
            total_shares: 1_000_000,
        },
    );

    let pools: Vec<PoolSummary> = module.pools(&ledger);
    assert_eq!(pools.len(), 1);
    assert_eq!(
        pools[0].fee_per_mille, 100,
        "must report the pool's fee override (100), not default_fee_per_mille (3)"
    );
}

#[test]
fn quote_endpoint_rejects_amount_that_would_exceed_max_reserve() {
    let mut ledger = Ledger::new();
    let module = amm();
    let pool = pool01();

    let reserve_lo = Amount::from_msats(math::MAX_RESERVE - 100);
    let reserve_hi = Amount::from_msats(math::MAX_RESERVE - 100);
    let amount_in = Amount::from_msats(2_000);
    ledger.pools.insert(PoolKey(pool), Pool {
            reserve_lo,
            reserve_hi,
            total_shares: 1_000_000_000,
        },
    );

    let result: Result<QuoteResponse, ApiError> = module.quote(&ledger, QuoteRequest {
            unit_in: unit(0),
            unit_out: unit(1),
            amount_in,
        },
    );
    let err = result.expect_err("a quote that would push reserve_in past MAX_RESERVE must fail");
    assert_eq!(err.message, AmmOutputError::ReserveCapExceeded.message());
}

#[test]
fn balance_recovery_paginates_every_row_exactly_once() {
    let mut ledger = Ledger::new();
    let module = amm();

    let row_count = MAX_RECOVERY_PAGE_SIZE as usize + 5;
    let mut expected_pubkeys = Vec::with_capacity(row_count);
    {
        for i in 0..row_count {
            let mut sk_bytes = [0u8; 32];
            sk_bytes[0..8].copy_from_slice(&(i as u64 + 1).to_be_bytes());
            let pk = Keypair::from_secret(sk_bytes)
                .expect("nonzero index-derived bytes are a valid secret key")
                .public_key();
            expected_pubkeys.push(pk);
            ledger.balances.insert(BalanceKey {
                    owner: pk,
                    unit: unit(0),
                }, BalanceEntry {
                    amount: Amount::from_msats(1_000 + i as u64),
                    tweak: [i as u8; 16],
                },
            );
        }
    }
    expected_pubkeys.sort();

    let mut collected_pubkeys = Vec::new();
    let mut cursor: Option<Vec<u8>> = None;
    let mut pages = 0;
    loop {
        pages += 1;
        assert!(pages <= row_count + 1, "pagination did not terminate");
        let page: BalanceRecoveryResponse = module.balance_recovery(&ledger, &RecoveryPageRequest {
                cursor: cursor.clone(),
                limit: Some(u32::MAX),
            },
        )
        .expect("balance recovery page must succeed");

        assert!(
            page.entries.len() <= MAX_RECOVERY_PAGE_SIZE as usize,
            "a client-requested limit above MAX_RECOVERY_PAGE_SIZE must be clamped server-side"
        );
        collected_pubkeys.extend(page.entries.iter().map(|e| e.pubkey));

        match page.next_cursor {
            Some(next) => cursor = Some(next),
            None => break,
        }
    }

    assert!(pages >= 2, "the fixture must force at least two pages");
    assert_eq!(
        collected_pubkeys.len(),
        row_count,
        "every row must be returned exactly once: no duplicates, no gaps"
    );
    collected_pubkeys.sort();
    assert_eq!(
        collected_pubkeys, expected_pubkeys,
        "the set of pubkeys collected across pages must equal the set inserted"
    );
}

#[test]
fn balance_recovery_keyset_cursor_survives_deletion_below_cursor() {
    let mut ledger = Ledger::new();
    let module = amm();

    let pubkeys: Vec<_> = (1u8..=3)
        .map(|seed| {
            Keypair::from_secret([seed; 32])
                .unwrap()
                .public_key()
        })
        .collect();
    let mut sorted_pubkeys = pubkeys.clone();
    sorted_pubkeys.sort();

    {
        for (i, pk) in pubkeys.iter().enumerate() {
            ledger.balances.insert(BalanceKey {
                    owner: *pk,
                    unit: unit(0),
                }, BalanceEntry {
                    amount: Amount::from_msats(1_000 + i as u64),
                    tweak: [i as u8; 16],
                },
            );
        }
    }

    let page1: BalanceRecoveryResponse = module.balance_recovery(&ledger, &RecoveryPageRequest {
            cursor: None,
            limit: Some(1),
        },
    )
    .expect("page 1 must succeed");
    assert_eq!(page1.entries.len(), 1);
    assert_eq!(page1.entries[0].pubkey, sorted_pubkeys[0]);
    let cursor = page1.next_cursor.expect("more rows remain");

    {
        ledger.balances.remove(&BalanceKey {
            owner: sorted_pubkeys[0],
            unit: unit(0),
        });
    }

    let page2: BalanceRecoveryResponse = module.balance_recovery(&ledger, &RecoveryPageRequest {
            cursor: Some(cursor),
            limit: Some(1),
        },
    )
    .expect("page 2 must succeed");
    assert_eq!(
        page2.entries.len(),
        1,
        "row sorted_pubkeys[1] still exists and was never returned by page 1"
    );
    assert_eq!(
        page2.entries[0].pubkey, sorted_pubkeys[1],
        "a keyset cursor must not skip a row that a deletion below the cursor would have shifted \
         under an offset cursor"
    );
}

#[test]
fn lp_recovery_paginates_every_row_exactly_once() {
    let mut ledger = Ledger::new();
    let module = amm();
    let pool = pool01();

    let row_count = MAX_RECOVERY_PAGE_SIZE as usize + 5;
    let mut expected_pubkeys = Vec::with_capacity(row_count);
    {
        for i in 0..row_count {
            let mut sk_bytes = [0u8; 32];
            sk_bytes[0..8].copy_from_slice(&(i as u64 + 1).to_be_bytes());
            let pk = Keypair::from_secret(sk_bytes)
                .expect("nonzero index-derived bytes are a valid secret key")
                .public_key();
            expected_pubkeys.push(pk);
            ledger.positions.insert(LpPositionKey { pool, owner: pk }, LpPosition {
                    shares: 1 + i as u64,
                    tweak: [i as u8; 16],
                },
            );
        }
    }
    expected_pubkeys.sort();

    let mut collected_pubkeys = Vec::new();
    let mut cursor: Option<Vec<u8>> = None;
    let mut pages = 0;
    loop {
        pages += 1;
        assert!(pages <= row_count + 1, "pagination did not terminate");
        let page: LpRecoveryResponse = module.lp_recovery(&ledger, &RecoveryPageRequest {
                cursor: cursor.clone(),
                limit: None,
            },
        )
        .expect("LP recovery page must succeed");

        assert!(page.entries.len() <= MAX_RECOVERY_PAGE_SIZE as usize);
        collected_pubkeys.extend(page.entries.iter().map(|e| e.pubkey));

        match page.next_cursor {
            Some(next) => cursor = Some(next),
            None => break,
        }
    }

    assert!(pages >= 2, "the fixture must force at least two pages");
    assert_eq!(collected_pubkeys.len(), row_count);
    collected_pubkeys.sort();
    assert_eq!(collected_pubkeys, expected_pubkeys);
}

fn pool_id() -> PoolId {
    pool01()
}

fn seed_lower_prefix_rows(ledger: &mut Ledger) {
    let pool = pool_id();
    ledger.pools.insert(PoolKey(pool), Pool {
            reserve_lo: Amount::from_msats(1_000_000),
            reserve_hi: Amount::from_msats(1_000_000),
            total_shares: 1_000_000,
        },
    );
    ledger.positions.insert(LpPositionKey {
            pool,
            owner: test_owner_pubkey(),
        }, LpPosition {
            shares: 1,
            tweak: [0u8; 16],
        },
    );
}

fn test_owner_pubkey() -> PublicKey {
    Keypair::from_secret([9u8; 32])
        .expect("nonzero bytes are a valid secret key")
        .public_key()
}

#[test]
fn balance_recovery_empty_cursor() {
    let mut ledger = Ledger::new();
    seed_lower_prefix_rows(&mut ledger);
    let module = amm();
    let result: Result<BalanceRecoveryResponse, ApiError> = module.balance_recovery(&ledger, &RecoveryPageRequest {
            cursor: Some(vec![]),
            limit: Some(10),
        },
    );
    assert!(
        result.is_err(),
        "an empty cursor must be rejected cleanly, not accepted"
    );
}

#[test]
fn balance_recovery_cursor_below_prefix() {
    let mut ledger = Ledger::new();
    seed_lower_prefix_rows(&mut ledger);
    let module = amm();
    let result: Result<BalanceRecoveryResponse, ApiError> = module.balance_recovery(&ledger, &RecoveryPageRequest {
            cursor: Some(vec![0x02]),
            limit: Some(10),
        },
    );
    assert!(
        result.is_err(),
        "a cursor below this endpoint's own prefix must be rejected cleanly"
    );
}

#[test]
fn balance_recovery_cursor_above_prefix() {
    let mut ledger = Ledger::new();
    {
        ledger.balances.insert(BalanceKey {
                owner: test_owner_pubkey(),
                unit: unit(0),
            }, BalanceEntry {
                amount: Amount::from_msats(1),
                tweak: [0u8; 16],
            },
        );
    }
    let module = amm();
    let result: Result<BalanceRecoveryResponse, ApiError> = module.balance_recovery(&ledger, &RecoveryPageRequest {
            cursor: Some(vec![0xFF]),
            limit: Some(10),
        },
    );
    assert!(
        result.is_err(),
        "a cursor above every real prefix must be rejected cleanly, not panic the range scan"
    );
}

#[test]
fn balance_recovery_garbage_cursor() {
    let mut ledger = Ledger::new();
    seed_lower_prefix_rows(&mut ledger);
    let module = amm();
    let result: Result<BalanceRecoveryResponse, ApiError> = module.balance_recovery(&ledger, &RecoveryPageRequest {
            cursor: Some(vec![0x00, 0xDE, 0xAD, 0xBE, 0xEF]),
            limit: Some(10),
        },
    );
    assert!(
        result.is_err(),
        "garbage cursor bytes must be rejected cleanly, not panic"
    );
}

#[test]
fn balance_recovery_over_long_cursor() {
    let ledger = Ledger::new();
    let module = amm();
    let result: Result<BalanceRecoveryResponse, ApiError> = module.balance_recovery(&ledger, &RecoveryPageRequest {
            cursor: Some(vec![0u8; 257]),
            limit: Some(10),
        },
    );
    assert!(
        result.is_err(),
        "an over-long cursor must be rejected cleanly"
    );
}


fn seed_pool_row(ledger: &mut Ledger) {
    ledger.pools.insert(PoolKey(pool_id()), Pool {
            reserve_lo: Amount::from_msats(1_000_000),
            reserve_hi: Amount::from_msats(1_000_000),
            total_shares: 1_000_000,
        },
    );
}

#[test]
fn lp_recovery_empty_cursor() {
    let mut ledger = Ledger::new();
    seed_pool_row(&mut ledger);
    let module = amm();
    let result: Result<LpRecoveryResponse, ApiError> = module.lp_recovery(&ledger, &RecoveryPageRequest {
            cursor: Some(vec![]),
            limit: Some(10),
        },
    );
    assert!(
        result.is_err(),
        "an empty cursor must be rejected cleanly, not accepted"
    );
}

#[test]
fn lp_recovery_cursor_below_prefix() {
    let mut ledger = Ledger::new();
    seed_pool_row(&mut ledger);
    let module = amm();
    let result: Result<LpRecoveryResponse, ApiError> = module.lp_recovery(&ledger, &RecoveryPageRequest {
            cursor: Some(vec![0x01]),
            limit: Some(10),
        },
    );
    assert!(
        result.is_err(),
        "a cursor below this endpoint's own prefix must be rejected cleanly"
    );
}

#[test]
fn lp_recovery_cursor_above_prefix() {
    let mut ledger = Ledger::new();
    {
        ledger.positions.insert(LpPositionKey {
                pool: pool_id(),
                owner: test_owner_pubkey(),
            }, LpPosition {
                shares: 1,
                tweak: [0u8; 16],
            },
        );
    }
    let module = amm();
    let result: Result<LpRecoveryResponse, ApiError> = module.lp_recovery(&ledger, &RecoveryPageRequest {
            cursor: Some(vec![0xFF]),
            limit: Some(10),
        },
    );
    assert!(
        result.is_err(),
        "a cursor above every real prefix must be rejected cleanly, not panic the range scan"
    );
}

#[test]
fn lp_recovery_garbage_cursor() {
    let mut ledger = Ledger::new();
    seed_pool_row(&mut ledger);
    let module = amm();
    let result: Result<LpRecoveryResponse, ApiError> = module.lp_recovery(&ledger, &RecoveryPageRequest {
            cursor: Some(vec![0x00, 0xDE, 0xAD, 0xBE, 0xEF]),
            limit: Some(10),
        },
    );
    assert!(
        result.is_err(),
        "garbage cursor bytes must be rejected cleanly, not panic"
    );
}

#[test]
fn lp_recovery_over_long_cursor() {
    let ledger = Ledger::new();
    let module = amm();
    let result: Result<LpRecoveryResponse, ApiError> = module.lp_recovery(&ledger, &RecoveryPageRequest {
            cursor: Some(vec![0u8; 257]),
            limit: Some(10),
        },
    );
    assert!(
        result.is_err(),
        "an over-long cursor must be rejected cleanly"
    );
}

#[test]
fn a_quote_needs_two_units_and_a_pool() {
    let ledger = Ledger::new();
    let request = |unit_in, unit_out| QuoteRequest {
        unit_in: unit(unit_in),
        unit_out: unit(unit_out),
        amount_in: Amount::from_msats(10_000),
    };
    let same = amm().quote(&ledger, request(0, 0)).unwrap_err();
    assert_eq!((same.code, same.message.as_str()), (400, "unit_in and unit_out must differ"));
    let none = amm().quote(&ledger, request(0, 1)).unwrap_err();
    assert_eq!((none.code, none.message.as_str()), (404, "no such pool"));
}

/// What a quote says is what settles.
#[test]
fn a_settled_swap_credits_what_was_quoted() {
    let mut ledger = Ledger::new();
    let module = amm();
    ledger.pools.insert(
        PoolKey(pool01()),
        Pool {
            reserve_lo: Amount::from_msats(1_000_000_000),
            reserve_hi: Amount::from_msats(1_000_000),
            total_shares: 1_000_000_000,
        },
    );
    let amount_in = Amount::from_msats(7_654_321);
    let quote = module
        .quote(&ledger, QuoteRequest { unit_in: unit(0), unit_out: unit(1), amount_in })
        .expect("quote");
    let swap = AmmOutput::new_swap_v0(&keypair(5), unit(0), unit(1), amount_in, quote.amount_out, [1; 16]);
    module.process_output(&mut ledger, &swap).expect("settles at the quote");
    let pubkey = keypair(5).public_key();
    assert_eq!(
        module.balance(&ledger, BalanceRequest { pubkey, unit: unit(1) }),
        Some(quote.amount_out)
    );
}

/// Pages have a largest size; whatever the cursor, the range stays in its table.
#[test]
fn a_page_is_bounded_on_every_side() {
    assert_eq!(recovery_page_limit(None), MAX_RECOVERY_PAGE_SIZE as usize);
    assert_eq!(recovery_page_limit(Some(0)), 1);
    assert_eq!(recovery_page_limit(Some(7)), 7);
    assert_eq!(recovery_page_limit(Some(u32::MAX)), MAX_RECOVERY_PAGE_SIZE as usize);

    assert_eq!(recovery_range(3, None), (vec![3], vec![4]));
    assert_eq!(recovery_range(3, Some(&[])), (vec![3], vec![4]));
    assert_eq!(recovery_range(3, Some(&[2, 9])), (vec![3], vec![4]));
    assert_eq!(recovery_range(3, Some(&[3, 9])), (vec![3, 9, 0], vec![4]));
    assert_eq!(recovery_range(3, Some(&[4])), (vec![4], vec![4]));
    assert_eq!(recovery_range(3, Some(&[0xff, 1])), (vec![4], vec![4]));

    assert!(bytes_lt(&[], &[0]) && bytes_lt(&[1], &[1, 0]) && bytes_lt(&[1, 9], &[2]));
    assert!(!bytes_lt(&[2], &[2]) && !bytes_lt(&[2, 0], &[2]));
}

#[test]
fn a_cursor_of_the_other_table_is_refused() {
    let owner = keypair(3).public_key();
    let ledger = Ledger::new();
    let cursor = LpPositionKey { pool: pool01(), owner }.to_bytes();
    let error = amm()
        .balance_recovery(&ledger, &RecoveryPageRequest { cursor: Some(cursor.clone()), limit: None })
        .unwrap_err();
    assert_eq!((error.code, error.message.as_str()), (400, "malformed recovery cursor"));
    assert!(amm()
        .lp_recovery(&ledger, &RecoveryPageRequest { cursor: Some(cursor), limit: None })
        .is_ok());
    let long = amm()
        .lp_recovery(&ledger, &RecoveryPageRequest { cursor: Some(vec![2; 257]), limit: None })
        .unwrap_err();
    assert_eq!(long.message, "cursor too large");
}

#[test]
fn recovered_rows_carry_what_was_stored() {
    let mut ledger = Ledger::new();
    let owner = keypair(3).public_key();
    ledger.balances.insert(
        BalanceKey { owner, unit: unit(1) },
        BalanceEntry { amount: Amount::from_msats(77), tweak: [8; 16] },
    );
    ledger.positions.insert(
        LpPositionKey { pool: pool01(), owner },
        LpPosition { shares: 55, tweak: [9; 16] },
    );
    let first = RecoveryPageRequest { cursor: None, limit: None };
    let balances = amm().balance_recovery(&ledger, &first).unwrap();
    assert_eq!(balances.next_cursor, None);
    let entry = balances.entries[0];
    assert_eq!((entry.pubkey, entry.unit, entry.amount.msats, entry.tweak), (owner, unit(1), 77, [8; 16]));
    let positions = amm().lp_recovery(&ledger, &first).unwrap();
    let entry = positions.entries[0];
    assert_eq!((entry.pubkey, entry.pool, entry.shares, entry.tweak), (owner, pool01(), 55, [9; 16]));
}

/// Pools are listed by their units, also where a number takes more bytes.
#[test]
fn pools_are_listed_in_the_order_of_their_units() {
    let mut ledger = Ledger::new();
    let row = Pool {
        reserve_lo: Amount::from_msats(1),
        reserve_hi: Amount::from_msats(1),
        total_shares: 1_001,
    };
    for (lo, hi) in [(70_000, 70_001), (0, 300), (2, 3), (0, 7), (252, 253), (253, 254)] {
        ledger.pools.insert(PoolKey(PoolId::new(unit(lo), unit(hi)).unwrap()), row);
    }
    let listed: Vec<(u64, u64)> =
        amm().pools(&ledger).iter().map(|p| (p.pool.lo().id, p.pool.hi().id)).collect();
    assert_eq!(
        listed,
        vec![(0, 7), (0, 300), (2, 3), (252, 253), (253, 254), (70_000, 70_001)]
    );
}

#[test]
fn each_endpoint_answers_under_its_own_name() {
    let names = [
        POOLS_ENDPOINT,
        QUOTE_ENDPOINT,
        BALANCE_ENDPOINT,
        BALANCE_RECOVERY_ENDPOINT,
        LP_RECOVERY_ENDPOINT,
        FEE_VOTE_SUBMIT_ENDPOINT,
        FEE_VOTES_ENDPOINT,
    ];
    for (i, a) in names.iter().enumerate() {
        for b in &names[i + 1..] {
            assert_ne!(a, b);
        }
    }
    assert_eq!(POOLS_ENDPOINT, "amm_pools");
    assert_eq!(QUOTE_ENDPOINT, "amm_quote");
    assert_eq!(BALANCE_RECOVERY_ENDPOINT, "amm_balance_recovery");
    assert_eq!(LP_RECOVERY_ENDPOINT, "amm_lp_recovery");
    assert_eq!(FEE_VOTE_SUBMIT_ENDPOINT, "amm_fee_vote_submit");
    assert_eq!(FEE_VOTES_ENDPOINT, "amm_fee_votes");
    assert_eq!(amm().api_endpoints(), names);

    let mut ledger = Ledger::new();
    let owner = keypair(3).public_key();
    ledger.pools.insert(
        PoolKey(pool01()),
        Pool {
            reserve_lo: Amount::from_msats(1_000_000_000),
            reserve_hi: Amount::from_msats(1_000_000),
            total_shares: 1_000_000_000,
        },
    );
    ledger.balances.insert(
        BalanceKey { owner, unit: unit(1) },
        BalanceEntry { amount: Amount::from_msats(77), tweak: [8; 16] },
    );
    let mut ask = |path: &str, params: ApiParams| {
        amm().answer(&mut ledger, &path.to_string(), true, params)
    };
    let first = ApiParams::RecoveryPage(RecoveryPageRequest { cursor: None, limit: None });
    let quote = ApiParams::Quote(QuoteRequest {
        unit_in: unit(0),
        unit_out: unit(1),
        amount_in: Amount::from_msats(10_000_000),
    });
    let vote =
        ApiParams::FeeVoteSubmit(FeeVoteSubmitRequest { pool: pool01(), fee_per_mille: 12 });
    assert!(matches!(
        ask(POOLS_ENDPOINT, ApiParams::Nothing),
        Some(Ok(ApiResponse::Pools(pools))) if pools.len() == 1
    ));
    assert!(matches!(ask(QUOTE_ENDPOINT, quote.clone()), Some(Ok(ApiResponse::Quote(_)))));
    assert_eq!(
        ask(BALANCE_ENDPOINT, ApiParams::Balance(BalanceRequest { pubkey: owner, unit: unit(1) })),
        Some(Ok(ApiResponse::Balance(Some(Amount::from_msats(77)))))
    );
    assert!(matches!(
        ask(BALANCE_RECOVERY_ENDPOINT, first.clone()),
        Some(Ok(ApiResponse::BalanceRecovery(page))) if page.entries.len() == 1
    ));
    assert!(matches!(
        ask(LP_RECOVERY_ENDPOINT, first.clone()),
        Some(Ok(ApiResponse::LpRecovery(page))) if page.entries.is_empty()
    ));
    assert_eq!(ask(FEE_VOTE_SUBMIT_ENDPOINT, vote), Some(Ok(ApiResponse::FeeVoteSubmit)));
    assert!(matches!(
        ask(FEE_VOTES_ENDPOINT, ApiParams::FeeVotes(FeeVotesRequest { pool: pool01() })),
        Some(Ok(ApiResponse::FeeVotes(_)))
    ));
    assert_eq!(ask("amm_unknown", ApiParams::Nothing), None);
    assert_eq!(ask(POOLS_ENDPOINT, first), None);
    assert_eq!(ask(FEE_VOTES_ENDPOINT, quote), None);
    assert_eq!(ledger.desired_fees.get(&DesiredFeeKey(pool01())), Some(12));
}
