use fedimint_amm::config::{AmmConfigConsensus, UnitParams};
use fedimint_amm::endpoints::{
    FeeVoteSubmitRequest, FeeVotesRequest, FeeVotesResponse, PoolSummary, QuoteRequest,
    QuoteResponse, FEE_VOTES_ENDPOINT, FEE_VOTE_SUBMIT_ENDPOINT,
};
use fedimint_amm::math;
use fedimint_amm::pool_id::PoolId;
use fedimint_amm::server::consensus::ConsensusItemError;
use fedimint_amm::server::db::{DesiredFeeKey, FeeVoteKey, FeeVotesByPoolPrefix, PeerId, Pool, PoolKey};
use fedimint_amm::server::fees::nth_smallest;
use fedimint_amm::server::ledger::{Amm, Ledger};
use fedimint_amm::table::{Table, TableKey};
use fedimint_amm::types::AmmConsensusItem;
use fedimint_amm::units::{Amount, AmountUnit};
use fedimint_core::NumPeers;

fn unit(n: u64) -> AmountUnit {
    AmountUnit::new_custom(n)
}

fn peer(id: u16) -> PeerId {
    PeerId { id }
}

fn pool01() -> PoolId {
    PoolId::new(unit(0), unit(1)).expect("0 != 1")
}

fn pool02() -> PoolId {
    PoolId::new(unit(0), unit(2)).expect("0 != 2")
}

fn config(
    units: &[(u64, u64)],
    default_fee_per_mille: u16,
    overrides: &[(PoolId, u16)],
    band: (u16, u16),
) -> AmmConfigConsensus {
    let mut table = Table::new();
    for (id, min_swap_in) in units {
        table.insert(unit(*id), UnitParams { min_swap_in: Amount::from_msats(*min_swap_in) });
    }
    let mut fee_overrides = Table::new();
    for (pool, fee) in overrides {
        fee_overrides.insert(*pool, *fee);
    }
    AmmConfigConsensus {
        units: table,
        default_fee_per_mille,
        fee_overrides,
        min_fee_per_mille: band.0,
        max_fee_per_mille: band.1,
    }
}

/// A band of 1 to 50 and a configured fee of 3.
fn amm_with(num_peers: usize, our_peer_id: u16) -> Amm {
    Amm::new(
        config(&[(0, 1_000), (1, 1_000), (2, 1_000)], 3, &[], (1, 50)),
        num_peers,
        peer(our_peer_id),
    )
}

fn amm() -> Amm {
    amm_with(4, 0)
}

fn create_pool(ledger: &mut Ledger, pool: PoolId) {
    ledger.pools.insert(
        PoolKey(pool),
        Pool {
            reserve_lo: Amount::from_msats(1_000_000_000),
            reserve_hi: Amount::from_msats(1_000_000),
            total_shares: 1_000_000_000,
        },
    );
}

fn insert_votes(ledger: &mut Ledger, pool: PoolId, votes: &[(u16, u16)]) {
    for (id, fee) in votes {
        ledger.fee_votes.insert(FeeVoteKey { pool, peer: peer(*id) }, *fee);
    }
}

fn consensus_fee(module: &Amm, ledger: &Ledger, pool: PoolId) -> u16 {
    module.consensus_fee_for(ledger, pool)
}

#[test]
fn falls_back_to_the_config_fee_before_any_votes() {
    let mut ledger = Ledger::new();
    let module = amm();
    create_pool(&mut ledger, pool01());

    assert_eq!(consensus_fee(&module, &ledger, pool01()), 3);
}

#[test]
fn below_threshold_votes_do_not_move_the_fee() {
    let mut ledger = Ledger::new();
    let module = amm();
    create_pool(&mut ledger, pool01());

    insert_votes(&mut ledger, pool01(), &[(0, 20), (1, 20)]);
    assert_eq!(consensus_fee(&module, &ledger, pool01()), 3);

    insert_votes(&mut ledger, pool01(), &[(2, 20)]);
    assert_eq!(consensus_fee(&module, &ledger, pool01()), 20);
}

struct AggregationCase {
    total_peers: usize,
    threshold: usize,
    votes: &'static [(u16, u16)],
    expected_fee: u16,
}

#[test]
fn picks_the_threshold_index_of_the_sorted_votes() {
    let cases = [
        AggregationCase {
            total_peers: 1,
            threshold: 1,
            votes: &[(0, 7)],
            expected_fee: 7,
        },
        AggregationCase {
            total_peers: 4,
            threshold: 3,
            votes: &[(0, 40), (1, 10), (2, 20), (3, 30)],
            expected_fee: 30,
        },
        AggregationCase {
            total_peers: 4,
            threshold: 3,
            votes: &[(0, 10), (1, 30), (2, 20)],
            expected_fee: 30,
        },
        AggregationCase {
            total_peers: 7,
            threshold: 5,
            votes: &[(0, 1), (1, 2), (2, 3), (3, 4), (4, 5), (5, 6), (6, 7)],
            expected_fee: 5,
        },
        AggregationCase {
            total_peers: 10,
            threshold: 7,
            votes: &[
                (0, 10),
                (1, 9),
                (2, 8),
                (3, 7),
                (4, 6),
                (5, 5),
                (6, 4),
                (7, 3),
                (8, 2),
                (9, 1),
            ],
            expected_fee: 7,
        },
    ];

    for case in cases {
        assert_eq!(
            NumPeers::from(case.total_peers).threshold(),
            case.threshold,
            "the expectations below are written against this threshold"
        );

        let mut ledger = Ledger::new();
        let module = amm_with(case.total_peers, 0);
        create_pool(&mut ledger, pool01());
        insert_votes(&mut ledger, pool01(), case.votes);

        assert_eq!(
            consensus_fee(&module, &ledger, pool01()),
            case.expected_fee,
            "n={}",
            case.total_peers
        );
    }
}

#[test]
fn a_single_faulty_guardian_cannot_pull_the_fee_outside_the_honest_range() {
    let honest = [10u16, 20, 30];

    for faulty in [1u16, 15, 50] {
        let mut ledger = Ledger::new();
        let module = amm();
        create_pool(&mut ledger, pool01());
        insert_votes(
            &mut ledger,
            pool01(),
            &[(0, honest[0]), (1, honest[1]), (2, honest[2]), (3, faulty)],
        );

        let fee = consensus_fee(&module, &ledger, pool01());
        assert!(
            (honest[0]..=honest[2]).contains(&fee),
            "faulty vote {faulty} moved the fee to {fee}, outside the honest range \
             [{}, {}]",
            honest[0],
            honest[2]
        );
    }
}

#[test]
fn votes_are_scoped_to_their_own_pool() {
    let mut ledger = Ledger::new();
    let module = amm();
    create_pool(&mut ledger, pool01());
    create_pool(&mut ledger, pool02());

    insert_votes(&mut ledger, pool01(), &[(0, 40), (1, 40), (2, 40)]);

    assert_eq!(consensus_fee(&module, &ledger, pool01()), 40);
    assert_eq!(
        consensus_fee(&module, &ledger, pool02()),
        3,
        "pool02 has no votes of its own and must fall back to the config fee"
    );
}

#[test]
fn an_out_of_band_config_fee_is_clamped_into_the_band() {
    let mut ledger = Ledger::new();
    let mut module = amm();
    module.cfg.default_fee_per_mille = 900;
    create_pool(&mut ledger, pool01());

    assert_eq!(consensus_fee(&module, &ledger, pool01()), 50);

    module.cfg.default_fee_per_mille = 0;
    assert_eq!(consensus_fee(&module, &ledger, pool01()), 1);
}

#[test]
fn out_of_band_rows_are_clamped_even_if_they_reach_the_table() {
    let mut ledger = Ledger::new();
    let module = amm();
    create_pool(&mut ledger, pool01());
    insert_votes(&mut ledger, pool01(), &[(0, 999), (1, 999), (2, 999)]);

    assert_eq!(consensus_fee(&module, &ledger, pool01()), 50);
}


#[test]
fn accepts_an_in_band_vote_for_an_existing_pool() {
    let mut ledger = Ledger::new();
    let module = amm();
    create_pool(&mut ledger, pool01());
    module
        .process_consensus_item(&mut ledger, &AmmConsensusItem::FeeVoteV0 {
                pool: pool01(),
                fee_per_mille: 12,
            },
            peer(1),
        )
        .expect("an in-band vote for an existing pool must be accepted");
    assert_eq!(
        ledger.fee_votes.get(&FeeVoteKey {
            pool: pool01(),
            peer: peer(1)
        }),
        Some(12)
    );
}

#[test]
fn rejects_votes_outside_the_configured_band() {
    let mut ledger = Ledger::new();
    let module = amm();
    create_pool(&mut ledger, pool01());

    for fee in [0u16, 51, 999] {
        let error = module
            .process_consensus_item(&mut ledger, &AmmConsensusItem::FeeVoteV0 {
                    pool: pool01(),
                    fee_per_mille: fee,
                },
                peer(1),
            )
            .expect_err("a vote outside [1, 50] must be rejected");
        assert!(
            error.message().contains("outside the configured band"),
            "unexpected error for fee {fee}: {error:?}"
        );
    }
}

#[test]
fn accepts_votes_exactly_on_the_band_endpoints() {
    let mut ledger = Ledger::new();
    let module = amm();
    create_pool(&mut ledger, pool01());

    for (n, fee) in [(1u16, 1u16), (2, 50)] {
        module
            .process_consensus_item(&mut ledger, &AmmConsensusItem::FeeVoteV0 {
                    pool: pool01(),
                    fee_per_mille: fee,
                },
                peer(n),
            )
            .expect("a vote on the band boundary must be accepted");
    }
}

#[test]
fn rejects_a_vote_for_a_pool_that_does_not_exist() {
    let mut ledger = Ledger::new();
    let module = amm();
    let error = module
        .process_consensus_item(&mut ledger, &AmmConsensusItem::FeeVoteV0 {
                pool: pool01(),
                fee_per_mille: 12,
            },
            peer(1),
        )
        .expect_err("a vote naming a non-existent pool must be rejected");
    assert!(error.message().contains("pool that does not exist"));
}

#[test]
fn rejects_a_redundant_vote_but_accepts_a_change() {
    let mut ledger = Ledger::new();
    let module = amm();
    create_pool(&mut ledger, pool01());

    let vote = |fee| AmmConsensusItem::FeeVoteV0 {
        pool: pool01(),
        fee_per_mille: fee,
    };
    module
        .process_consensus_item(&mut ledger, &vote(12), peer(1))
        .expect("first vote");
    let error = module
        .process_consensus_item(&mut ledger, &vote(12), peer(1))
        .expect_err("re-voting the same value changes nothing and must be rejected");
    assert!(error.message().contains("redundant"));
    module
        .process_consensus_item(&mut ledger, &vote(13), peer(1))
        .expect("changing the vote must be accepted");
    module
        .process_consensus_item(&mut ledger, &vote(12), peer(1))
        .expect("changing back must be accepted");
}

#[test]
fn the_same_value_from_a_different_peer_is_not_redundant() {
    let mut ledger = Ledger::new();
    let module = amm();
    create_pool(&mut ledger, pool01());

    let vote = AmmConsensusItem::FeeVoteV0 {
        pool: pool01(),
        fee_per_mille: 12,
    };

    for n in [1u16, 2] {
        module
            .process_consensus_item(&mut ledger, &vote, peer(n))
            .expect("each peer's first vote is its own row");
    }
}

#[test]
fn rejects_an_unknown_consensus_item_variant_without_panicking() {
    let mut ledger = Ledger::new();
    let module = amm();
    let error = module
        .process_consensus_item(&mut ledger, &AmmConsensusItem::Default {
                variant: 42,
                bytes: vec![1, 2, 3],
            },
            peer(1),
        )
        .expect_err("an unknown variant must be rejected");
    assert!(error.message().contains("unknown variant 42"));
}


#[test]
fn proposes_nothing_when_no_fee_has_been_desired() {
    let mut ledger = Ledger::new();
    let module = amm();
    create_pool(&mut ledger, pool01());
    assert!(module.consensus_proposal(&ledger).is_empty());
}

#[test]
fn proposes_the_difference_and_then_stops() {
    let mut ledger = Ledger::new();
    let module = amm_with(4, 2);
    create_pool(&mut ledger, pool01());

    {
        ledger.desired_fees.insert(DesiredFeeKey(pool01()), 12u16);
    }
    assert_eq!(
        module.consensus_proposal(&ledger),
        vec![AmmConsensusItem::FeeVoteV0 {
            pool: pool01(),
            fee_per_mille: 12
        }]
    );

    insert_votes(&mut ledger, pool01(), &[(2, 12)]);
    assert!(module.consensus_proposal(&ledger).is_empty());
}

#[test]
fn diffs_against_our_own_recorded_vote_not_another_peers() {
    let mut ledger = Ledger::new();
    let module = amm_with(4, 2);
    create_pool(&mut ledger, pool01());

    {
        ledger.desired_fees.insert(DesiredFeeKey(pool01()), 12u16);
    }
    insert_votes(&mut ledger, pool01(), &[(0, 12), (1, 12)]);
    assert_eq!(
        module.consensus_proposal(&ledger),
        vec![AmmConsensusItem::FeeVoteV0 {
            pool: pool01(),
            fee_per_mille: 12
        }]
    );
}

#[test]
fn re_proposes_a_vote_that_never_got_recorded() {
    let mut ledger = Ledger::new();
    let module = amm_with(4, 2);
    create_pool(&mut ledger, pool01());

        ledger.desired_fees.insert(DesiredFeeKey(pool01()), 12);
    insert_votes(&mut ledger, pool01(), &[(2, 12)]);
    ledger.desired_fees.insert(DesiredFeeKey(pool01()), 13);
    insert_votes(&mut ledger, pool01(), &[(2, 13)]);
    ledger.desired_fees.insert(DesiredFeeKey(pool01()), 12);
    assert_eq!(
        module.consensus_proposal(&ledger),
        vec![AmmConsensusItem::FeeVoteV0 {
            pool: pool01(),
            fee_per_mille: 12
        }],
        "a merged-away vote must still be a difference in the next session"
    );
}

#[test]
fn does_not_propose_a_vote_for_a_pool_that_does_not_exist() {
    let mut ledger = Ledger::new();
    let module = amm();
    ledger.desired_fees.insert(DesiredFeeKey(pool01()), 12u16);
    assert!(module.consensus_proposal(&ledger).is_empty());
}


#[test]
fn submit_endpoint_requires_verified_guardian_auth() {
    let mut ledger = Ledger::new();
    let module = amm();
    create_pool(&mut ledger, pool01());

    let request = FeeVoteSubmitRequest {
        pool: pool01(),
        fee_per_mille: 12,
    };

    module.fee_vote_submit(&mut ledger, false, request)
        .expect_err("an unauthenticated caller must not be able to set a guardian's vote");
    assert_eq!(ledger.desired_fees.get(&DesiredFeeKey(pool01())), None);

    module.fee_vote_submit(&mut ledger, true, request)
        .expect("an authenticated guardian may set its own vote");
    assert_eq!(ledger.desired_fees.get(&DesiredFeeKey(pool01())), Some(12));
}

#[test]
fn submit_endpoint_rejects_out_of_band_and_unknown_pools() {
    let mut ledger = Ledger::new();
    let module = amm();
    create_pool(&mut ledger, pool01());

    let out_of_band = module.fee_vote_submit(&mut ledger, true,
        FeeVoteSubmitRequest {
            pool: pool01(),
            fee_per_mille: 51,
        },
    )
    .expect_err("a fee outside the band must be rejected at submit time");
    assert!(out_of_band.message.contains("within [1, 50]"));

    let unknown_pool = module.fee_vote_submit(&mut ledger, true,
        FeeVoteSubmitRequest {
            pool: pool02(),
            fee_per_mille: 12,
        },
    )
    .expect_err("a vote for a pool that does not exist must be rejected at submit time");
    assert!(unknown_pool.message.contains("no such pool"));
    assert_eq!(ledger.desired_fees.get(&DesiredFeeKey(pool01())), None);
    assert_eq!(ledger.desired_fees.get(&DesiredFeeKey(pool02())), None);
}

#[test]
fn submit_endpoint_is_idempotent() {
    let mut ledger = Ledger::new();
    let module = amm();
    create_pool(&mut ledger, pool01());

    let request = FeeVoteSubmitRequest {
        pool: pool01(),
        fee_per_mille: 12,
    };
    for _ in 0..3 {
        module.fee_vote_submit(&mut ledger, true, request)
            .expect("re-submitting the desired value must succeed");
    }
    assert_eq!(ledger.desired_fees.get(&DesiredFeeKey(pool01())), Some(12));
}

#[test]
fn fee_votes_endpoint_reports_votes_and_the_aggregate_unauthenticated() {
    let mut ledger = Ledger::new();
    let module = amm();
    create_pool(&mut ledger, pool01());
    insert_votes(&mut ledger, pool01(), &[(0, 10), (1, 20), (2, 30)]);

    let response: FeeVotesResponse = module.fee_votes(&ledger, FeeVotesRequest { pool: pool01() });

    assert_eq!(response.votes, vec![(peer(0), 10),
            (peer(1), 20),
            (peer(2), 30),]);
    assert_eq!(response.effective_fee_per_mille, 30);
    assert_eq!(response.min_fee_per_mille, 1);
    assert_eq!(response.max_fee_per_mille, 50);
}

#[test]
fn fee_votes_endpoint_reports_an_empty_map_before_any_votes() {
    let mut ledger = Ledger::new();
    let module = amm();
    create_pool(&mut ledger, pool01());

    let response: FeeVotesResponse = module.fee_votes(&ledger, FeeVotesRequest { pool: pool01() });

    assert!(response.votes.is_empty());
    assert_eq!(response.effective_fee_per_mille, 3);
}

/// Both are served under the names that clients know.
#[test]
fn the_new_endpoints_are_registered_under_their_published_paths() {
    let paths: Vec<&str> = amm().api_endpoints();
    assert!(paths.contains(&FEE_VOTE_SUBMIT_ENDPOINT));
    assert!(paths.contains(&FEE_VOTES_ENDPOINT));
}

#[test]
fn pools_and_quote_endpoints_both_follow_the_votes() {
    let mut ledger = Ledger::new();
    let module = amm();
    create_pool(&mut ledger, pool01());

    let amount_in = Amount::from_msats(10_000_000);
    let quote_request = QuoteRequest {
        unit_in: unit(0),
        unit_out: unit(1),
        amount_in,
    };

    let before: Vec<PoolSummary> = module.pools(&ledger);
    assert_eq!(before[0].fee_per_mille, 3);
    let quote_before: QuoteResponse = module.quote(&ledger, quote_request)
        .expect("quote");

    insert_votes(&mut ledger, pool01(), &[(0, 30), (1, 30), (2, 30)]);

    let after: Vec<PoolSummary> = module.pools(&ledger);
    assert_eq!(after[0].fee_per_mille, 30);
    let quote_after: QuoteResponse = module.quote(&ledger, quote_request)
        .expect("quote");

    assert_eq!(
        quote_before.amount_out,
        Amount::from_msats(
            math::amount_out(1_000_000_000, 1_000_000, amount_in.msats, 3).expect("valid swap")
        )
    );
    assert_eq!(
        quote_after.amount_out,
        Amount::from_msats(
            math::amount_out(1_000_000_000, 1_000_000, amount_in.msats, 30).expect("valid swap")
        )
    );
    assert!(
        quote_after.amount_out < quote_before.amount_out,
        "a higher voted fee must return less"
    );
}

#[test]
fn the_nth_smallest_vote_is_that_of_the_sorted_votes() {
    let votes = vec![30u16, 10, 20, 10];
    assert_eq!(nth_smallest(&votes, 0), 10);
    assert_eq!(nth_smallest(&votes, 1), 10);
    assert_eq!(nth_smallest(&votes, 2), 20);
    assert_eq!(nth_smallest(&votes, 3), 30);
}

/// With exactly a threshold of votes, one of them faulty, the fee can be the
/// faulty one where it is the highest; never where it is the lowest.
#[test]
fn a_missing_honest_vote_leaves_the_upper_end_open() {
    let mut ledger = Ledger::new();
    create_pool(&mut ledger, pool01());
    insert_votes(&mut ledger, pool01(), &[(0, 10), (1, 20), (3, 50)]);
    assert_eq!(consensus_fee(&amm(), &ledger, pool01()), 50);

    let mut ledger = Ledger::new();
    create_pool(&mut ledger, pool01());
    insert_votes(&mut ledger, pool01(), &[(0, 10), (1, 20), (3, 1)]);
    assert_eq!(consensus_fee(&amm(), &ledger, pool01()), 20);
}

#[test]
fn a_proposal_is_accepted_and_then_no_longer_made() {
    let mut ledger = Ledger::new();
    let module = amm_with(4, 2);
    create_pool(&mut ledger, pool01());
    module
        .fee_vote_submit(
            &mut ledger,
            true,
            FeeVoteSubmitRequest { pool: pool01(), fee_per_mille: 12 },
        )
        .expect("submit");
    let items = module.consensus_proposal(&ledger);
    assert_eq!(items.len(), 1);
    module
        .process_consensus_item(&mut ledger, &items[0], peer(2))
        .expect("what is proposed is accepted");
    assert!(module.consensus_proposal(&ledger).is_empty());
    assert_eq!(
        module.process_consensus_item(&mut ledger, &items[0], peer(2)),
        Err(ConsensusItemError::Redundant)
    );
}

#[test]
fn one_pools_votes_share_a_prefix() {
    let prefix = FeeVotesByPoolPrefix(pool01()).to_bytes();
    assert!(FeeVoteKey { pool: pool01(), peer: peer(7) }.to_bytes().starts_with(&prefix));
    assert!(!FeeVoteKey { pool: pool02(), peer: peer(7) }.to_bytes().starts_with(&prefix));
}
