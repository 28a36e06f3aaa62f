use fedimint_amm::federation::{
    add_unit, all_units, declared_units, spv2_init, unit_info, InstanceUnits, ModuleStatus,
    OracleKind, PrimarySupport, UnitSource,
};
use fedimint_amm::server::init::default_consensus_config;
use fedimint_amm::units::{Amount, AmountUnit};

fn unit(id: u64) -> AmountUnit {
    AmountUnit::new_custom(id)
}

fn declared(supported: Option<PrimarySupport>, kind: &str) -> InstanceUnits {
    declared_units(supported, &kind.to_string(), vec![unit(0), unit(1)])
}

#[test]
fn a_module_answers_for_its_own_units() {
    let mint = declared(Some(PrimarySupport::Selected(vec![unit(1)])), "mintv2");
    assert_eq!((mint.units, mint.source), (vec![unit(1)], UnitSource::PrimaryModuleSupport));
    let amm = declared(Some(PrimarySupport::NoUnits), "amm");
    assert_eq!((amm.units, amm.source), (vec![unit(0), unit(1)], UnitSource::ModuleConfig));
    let usdt = declared(Some(PrimarySupport::NoUnits), "usdt");
    assert_eq!((usdt.units, usdt.source), (vec![unit(1)], UnitSource::ModuleConstant));
    let meta = declared(Some(PrimarySupport::NoUnits), "meta");
    assert_eq!((meta.units, meta.source), (vec![], UnitSource::Undeclared));
    assert_eq!(meta.status, ModuleStatus::Active);
    let any = declared(Some(PrimarySupport::Any), "dummy");
    assert_eq!((any.units, any.source), (vec![], UnitSource::AnyUnit));
    // What a module offers comes before its kind.
    let amm = declared(Some(PrimarySupport::Selected(vec![unit(7)])), "amm");
    assert_eq!((amm.units, amm.source), (vec![unit(7)], UnitSource::PrimaryModuleSupport));
}

/// The unit that the tether module issues can be traded without a change of
/// configuration.
#[test]
fn usdt_unit_is_in_the_amm_allowlist() {
    let usdt = declared(Some(PrimarySupport::NoUnits), "usdt").units;
    assert_eq!(usdt, vec![AmountUnit::new_custom(1)]);
    assert!(default_consensus_config().units.get(&usdt[0]).is_some());
}

#[test]
fn an_unknown_kind_is_listed_without_units() {
    let unknown = declared(None, "amm");
    assert_eq!(unknown.status, ModuleStatus::UnsupportedByClient);
    assert_eq!((unknown.units, unknown.source), (vec![], UnitSource::Undeclared));
}

#[test]
fn units_are_collected_in_order_and_once() {
    let instances = vec![
        declared(Some(PrimarySupport::Selected(vec![unit(9), unit(0)])), "mintv2"),
        declared(Some(PrimarySupport::NoUnits), "amm"),
        declared(None, "other"),
    ];
    assert_eq!(all_units(&instances), vec![unit(0), unit(1), unit(9)]);
    let mut units = vec![unit(2), unit(5)];
    add_unit(&mut units, unit(5));
    add_unit(&mut units, unit(3));
    assert_eq!(units, vec![unit(2), unit(3), unit(5)]);
}

#[test]
fn a_unit_without_a_primary_module_has_no_balance() {
    let held = unit_info(unit(1), Some((4, Amount::from_msats(7))));
    assert_eq!((held.primary_module, held.balance), (Some(4), Some(Amount::from_msats(7))));
    let none = unit_info(unit(1), None);
    assert_eq!((none.primary_module, none.balance), (None, None));
}

#[test]
fn the_stability_pool_has_its_deployed_parameters() {
    let deployed = spv2_init(false, None).expect("no cycle is set");
    assert_eq!(deployed.oracle, OracleKind::Aggregate);
    assert_eq!(deployed.cycle_duration_secs, 600);
    assert_eq!(deployed.min_allowed_seek, Amount::from_msats(100_000));
    assert_eq!(deployed.min_allowed_provide, Amount::from_msats(100_000));
    assert_eq!(deployed.max_allowed_provide_fee_rate_ppb, 2000);
    assert_eq!(deployed.min_allowed_cancellation_bps, 100);
    assert_eq!((deployed.collateral_provider, deployed.collateral_seeker), (1, 1));
    assert_eq!(spv2_init(false, Some("30")).unwrap().cycle_duration_secs, 30);
    let test = spv2_init(true, Some("30")).unwrap();
    assert_eq!((test.oracle, test.cycle_duration_secs), (OracleKind::Mock, 15));
    assert_eq!(spv2_init(true, Some("soon")), None);
}
