use fedimint_amm::common::KIND;
use fedimint_amm::config::{
    AmmClientConfig, AmmConfigConsensus, ConfigError, UnitParams,
};
use fedimint_amm::crypto::{Keypair, PublicKey};
use fedimint_amm::pool_id::PoolId;
use fedimint_amm::server::db::{
    BalanceEntry, BalanceKey, DbKeyPrefix, DesiredFeeKey, FeeVoteKey, FeeVotesByPoolPrefix,
    LpPosition, LpPositionKey, PeerId, Pool, PoolKey,
};
use fedimint_amm::server::init::{default_consensus_config, dump_selects, AmmInit};
use fedimint_amm::server::ledger::Ledger;
use fedimint_amm::table::{Table, TableKey};
use fedimint_amm::units::{Amount, AmountUnit};

fn units() -> Table<AmountUnit, UnitParams> {
    let mut units = Table::new();
    units.insert(
        AmountUnit::new_custom(0),
        UnitParams { min_swap_in: Amount::from_msats(1_000) },
    );
    units.insert(
        AmountUnit::new_custom(1),
        UnitParams { min_swap_in: Amount::from_msats(10) },
    );
    units
}

fn cfg() -> AmmConfigConsensus {
    AmmConfigConsensus {
        units: units(),
        default_fee_per_mille: 3,
        fee_overrides: Table::new(),
        min_fee_per_mille: 1,
        max_fee_per_mille: 50,
    }
}

fn pool_id(a: u64, b: u64) -> PoolId {
    PoolId::new(AmountUnit::new_custom(a), AmountUnit::new_custom(b)).expect("distinct units")
}

fn test_pubkey(seed: u8) -> PublicKey {
    Keypair::from_secret([seed; 32])
        .expect("a repeated non-zero byte is a valid secret key")
        .public_key()
}

fn peers() -> Vec<PeerId> {
    (0..4).map(|id| PeerId { id }).collect()
}

#[test]
fn accepts_a_well_formed_config() {
    assert_eq!(cfg().validate(), Ok(()));
}

#[test]
fn rejects_empty_units() {
    let mut c = cfg();
    c.units = Table::new();
    assert_eq!(c.validate(), Err(ConfigError::NoUnits));
}

#[test]
fn rejects_fee_at_or_above_one_thousand() {
    let mut c = cfg();
    c.default_fee_per_mille = 1_000;
    assert_eq!(c.validate(), Err(ConfigError::InvalidFee));
}

#[test]
fn rejects_zero_min_swap_in() {
    let mut c = cfg();
    c.units.insert(
        AmountUnit::new_custom(0),
        UnitParams { min_swap_in: Amount::from_msats(0) },
    );
    assert_eq!(c.validate(), Err(ConfigError::ZeroMinSwapIn));
}

#[test]
fn rejects_fee_override_for_an_unknown_unit() {
    let mut c = cfg();
    let unknown = PoolId::new(AmountUnit::new_custom(0), AmountUnit::new_custom(99)).unwrap();
    c.fee_overrides.insert(unknown, 5);
    assert_eq!(c.validate(), Err(ConfigError::UnknownUnitInOverride));
}

#[test]
fn rejects_fee_override_at_or_above_one_thousand() {
    let mut c = cfg();
    let pool = PoolId::new(AmountUnit::new_custom(0), AmountUnit::new_custom(1)).unwrap();
    c.fee_overrides.insert(pool, 1_000);
    assert_eq!(c.validate(), Err(ConfigError::InvalidFee));
}

#[test]
fn rejects_an_inverted_fee_band() {
    let mut c = cfg();
    c.min_fee_per_mille = 51;
    c.max_fee_per_mille = 50;
    assert_eq!(c.validate(), Err(ConfigError::InvertedFeeBand));
}

#[test]
fn accepts_a_degenerate_single_value_fee_band() {
    let mut c = cfg();
    c.min_fee_per_mille = 3;
    c.max_fee_per_mille = 3;
    assert_eq!(c.validate(), Ok(()));
}

#[test]
fn rejects_a_band_ceiling_at_or_above_one_thousand() {
    let mut c = cfg();
    c.max_fee_per_mille = 1_000;
    assert_eq!(c.validate(), Err(ConfigError::InvalidFee));
}

#[test]
fn fee_band_admits_its_own_endpoints_and_nothing_outside() {
    let c = cfg();
    assert!(!c.fee_in_band(0));
    assert!(c.fee_in_band(1));
    assert!(c.fee_in_band(50));
    assert!(!c.fee_in_band(51));
}

#[test]
fn clamping_pulls_out_of_band_fees_to_the_nearest_endpoint() {
    let c = cfg();
    assert_eq!(c.clamp_fee_to_band(0), 1);
    assert_eq!(c.clamp_fee_to_band(3), 3);
    assert_eq!(c.clamp_fee_to_band(999), 50);
}

#[test]
fn fee_for_prefers_the_override() {
    let mut c = cfg();
    let pool = PoolId::new(AmountUnit::new_custom(0), AmountUnit::new_custom(1)).unwrap();
    assert_eq!(c.fee_for(pool), 3);
    c.fee_overrides.insert(pool, 1);
    assert_eq!(c.fee_for(pool), 1);
}

#[test]
fn client_config_fee_for_prefers_the_override() {
    let mut c = AmmClientConfig {
        units: units(),
        default_fee_per_mille: 3,
        fee_overrides: Table::new(),
    };
    let pool = PoolId::new(AmountUnit::new_custom(0), AmountUnit::new_custom(1)).unwrap();
    assert_eq!(c.fee_for(pool), 3);
    c.fee_overrides.insert(pool, 1);
    assert_eq!(c.fee_for(pool), 1);
}

/// Where several things are wrong, the first of them is named.
#[test]
fn config_errors_come_in_a_fixed_order() {
    let mut c = cfg();
    c.units = Table::new();
    c.default_fee_per_mille = 1_000;
    assert_eq!(c.validate(), Err(ConfigError::NoUnits));
    let mut c = cfg();
    c.default_fee_per_mille = 1_000;
    c.max_fee_per_mille = 0;
    assert_eq!(c.validate(), Err(ConfigError::InvalidFee));
    assert_eq!(ConfigError::NoUnits.message(), "units must not be empty");
    assert_eq!(ConfigError::InvalidFee.message(), "fee_per_mille must be < 1000");
}

#[test]
fn init_reports_our_module_kind() {
    assert_eq!(AmmInit::kind(), KIND);
}

/// Every guardian gets a valid configuration, and all get the same.
#[test]
fn trusted_dealer_gen_emits_a_valid_config_for_every_peer() {
    let peers = peers();
    let configs = AmmInit.trusted_dealer_gen(&peers);
    assert_eq!(configs.len(), 4);

    let mut consensus = Vec::new();
    for (_peer, cfg) in configs {
        assert_eq!(cfg.consensus.validate(), Ok(()));
        consensus.push(cfg.consensus);
    }
    assert!(consensus.windows(2).all(|w| w[0] == w[1]));
}

#[test]
fn empty_units_are_rejected_by_validation() {
    let cfg = AmmConfigConsensus {
        units: Table::new(),
        default_fee_per_mille: 3,
        fee_overrides: Table::new(),
        min_fee_per_mille: 1,
        max_fee_per_mille: 50,
    };
    assert_eq!(cfg.validate(), Err(ConfigError::NoUnits));
}

#[test]
fn get_client_config_projects_consensus_fields() {
    let peers = peers();
    let configs = AmmInit.trusted_dealer_gen(&peers);
    let consensus = configs[0].1.consensus.clone();

    let client_cfg = AmmInit.get_client_config(consensus.clone());

    assert_eq!(client_cfg.units, consensus.units);
    assert_eq!(client_cfg.default_fee_per_mille, consensus.default_fee_per_mille);
    assert_eq!(client_cfg.fee_overrides, consensus.fee_overrides);
}

#[test]
fn validate_config_calls_validate() {
    let peers = peers();
    let configs = AmmInit.trusted_dealer_gen(&peers);
    assert!(AmmInit.validate_config(&configs[0].1).is_ok());

    let mut bad = configs[0].1.clone();
    bad.consensus.units = Table::new();
    assert!(AmmInit.validate_config(&bad).is_err());
}

#[test]
fn default_consensus_config_passes_validate() {
    assert_eq!(default_consensus_config().validate(), Ok(()));
}

#[test]
fn the_default_config_trades_bitcoin_and_tether() {
    let cfg = AmmInit.distributed_gen().expect("the default is valid").consensus;
    assert_eq!(
        cfg.units.get(&AmountUnit::bitcoin()),
        Some(UnitParams { min_swap_in: Amount::from_msats(1_000) })
    );
    assert_eq!(
        cfg.units.get(&AmountUnit::new_custom(1)),
        Some(UnitParams { min_swap_in: Amount::from_msats(10) })
    );
    assert_eq!(cfg.units.len(), 2);
    assert_eq!(
        (cfg.default_fee_per_mille, cfg.min_fee_per_mille, cfg.max_fee_per_mille),
        (3, 1, 50)
    );
}

#[test]
fn a_dump_takes_every_table_or_those_named() {
    assert!(dump_selects(&vec![], DbKeyPrefix::FeeVote));
    let names = vec!["pool".to_string(), "desiredfee".to_string()];
    assert!(dump_selects(&names, DbKeyPrefix::Pool));
    assert!(dump_selects(&names, DbKeyPrefix::DesiredFee));
    assert!(!dump_selects(&names, DbKeyPrefix::Balance));
}

#[test]
fn pool_records_round_trip() {
    let mut ledger = Ledger::new();
    let id = pool_id(0, 1);
    let pool = Pool {
        reserve_lo: Amount::from_msats(100),
        reserve_hi: Amount::from_msats(200),
        total_shares: 1_000,
    };
    ledger.pools.insert(PoolKey(id), pool);
    assert_eq!(ledger.pools.get(&PoolKey(id)), Some(pool));
}

#[test]
fn lp_positions_enumerate_under_table_prefix() {
    let mut ledger = Ledger::new();
    let a = pool_id(0, 1);
    let b = pool_id(0, 2);
    let k1 = test_pubkey(1);
    let k2 = test_pubkey(2);

    for (pool, key) in [(a, k1), (a, k2), (b, k1)] {
        ledger.positions.insert(
            LpPositionKey { pool, owner: key },
            LpPosition { shares: 10, tweak: [0u8; 16] },
        );
    }

    assert_eq!(ledger.positions.len(), 3);
    for i in 0..3 {
        let key = ledger.positions.row(i).0.to_bytes();
        assert_eq!(key[0], DbKeyPrefix::LpPosition.as_byte());
    }
}

/// The rows whose keys start with `prefix`.
fn by_prefix<K: TableKey + Copy, V: Copy>(table: &Table<K, V>, prefix: &[u8]) -> Vec<V> {
    let mut found = Vec::new();
    let mut i = table.lower_bound(prefix);
    while i < table.len() && table.row(i).0.to_bytes().starts_with(prefix) {
        found.push(table.row(i).1);
        i += 1;
    }
    found
}

#[test]
fn fee_votes_scan_per_pool_not_across_pools() {
    let mut ledger = Ledger::new();
    let a = pool_id(0, 1);
    let b = pool_id(0, 2);

    for (pool, id, fee) in [(a, 0, 5u16), (a, 1, 7), (a, 2, 9), (b, 0, 40)] {
        ledger.fee_votes.insert(FeeVoteKey { pool, peer: PeerId { id } }, fee);
    }

    let mut votes_a = by_prefix(&ledger.fee_votes, &FeeVotesByPoolPrefix(a).to_bytes());
    votes_a.sort_unstable();
    assert_eq!(votes_a, vec![5, 7, 9]);

    let votes_b = by_prefix(&ledger.fee_votes, &FeeVotesByPoolPrefix(b).to_bytes());
    assert_eq!(votes_b, vec![40]);

    assert_eq!(ledger.fee_votes.len(), 4);
}

#[test]
fn desired_fees_round_trip_and_enumerate() {
    let mut ledger = Ledger::new();
    let a = pool_id(0, 1);
    let b = pool_id(0, 2);

    ledger.desired_fees.insert(DesiredFeeKey(a), 4u16);
    ledger.desired_fees.insert(DesiredFeeKey(b), 6u16);

    assert_eq!(ledger.desired_fees.get(&DesiredFeeKey(a)), Some(4));
    assert_eq!(ledger.desired_fees.len(), 2);
}

#[test]
fn balances_round_trip_and_delete() {
    let mut ledger = Ledger::new();
    let key = BalanceKey { owner: test_pubkey(3), unit: AmountUnit::new_custom(1) };
    ledger.balances.insert(
        key,
        BalanceEntry { amount: Amount::from_msats(42), tweak: [1u8; 16] },
    );
    assert!(ledger.balances.get(&key).is_some());
    ledger.balances.remove(&key);
    assert!(ledger.balances.get(&key).is_none());
}

/// No key of one table lies in another.
#[test]
fn tables_start_with_their_own_byte() {
    let pool = pool_id(0, 1);
    let owner = test_pubkey(1);
    let firsts = [
        PoolKey(pool).to_bytes()[0],
        LpPositionKey { pool, owner }.to_bytes()[0],
        BalanceKey { owner, unit: AmountUnit::bitcoin() }.to_bytes()[0],
        FeeVoteKey { pool, peer: PeerId { id: 0 } }.to_bytes()[0],
        DesiredFeeKey(pool).to_bytes()[0],
    ];
    assert_eq!(firsts, [0x01, 0x02, 0x03, 0x04, 0x05]);
}

/// A table keeps its rows in key order, one row a key.
#[test]
fn a_table_is_sorted_and_keeps_the_last_value() {
    let mut table: Table<AmountUnit, u8> = Table::new();
    for (id, value) in [(5, 1), (300, 2), (0, 3), (5, 4)] {
        table.insert(AmountUnit::new_custom(id), value);
    }
    let rows: Vec<(u64, u8)> = (0..table.len()).map(|i| table.row(i)).map(|(k, v)| (k.id, v)).collect();
    assert_eq!(rows, vec![(0, 3), (5, 4), (300, 2)]);
    assert_eq!(table.remove(&AmountUnit::new_custom(5)), Some(4));
    assert_eq!(table.remove(&AmountUnit::new_custom(5)), None);
    assert_eq!(table.get_ref(&AmountUnit::new_custom(300)), Some(&2));
    assert_eq!(table.len(), 2);
}
