//! What a federation runs: which units its modules deal in, and what the
//! stability pool is set up with.

use vstd::prelude::*;

use crate::text::{parse_u64, u64_from_text};
use crate::units::{Amount, AmountUnit};

verus! {

/// Which of a module's declarations its units come from.
#[derive(Debug, Clone, Copy, PartialEq, Eq, Structural)]
pub enum UnitSource {
    /// The units that the module offers to be primary for.
    PrimaryModuleSupport,
    /// The module offers to be primary for any unit, so there is no list.
    AnyUnit,
    /// The module's own configuration.
    ModuleConfig,
    /// A constant of the module.
    ModuleConstant,
    /// Nothing declares the module's units.
    Undeclared,
}

/// Whether the client can talk to an instance.
#[derive(Debug, Clone, Copy, PartialEq, Eq, Structural)]
pub enum ModuleStatus {
    Active,
    UnsupportedByClient,
}

/// The units that a module offers to be primary for.
#[derive(Debug, Clone, PartialEq, Eq)]
pub enum PrimarySupport {
    Selected(Vec<AmountUnit>),
    Any,
    NoUnits,
}

/// The unit that the tether module issues.
pub open spec fn usdt_unit() -> AmountUnit {
    AmountUnit { id: 1 }
}

/// What an instance deals in, and who says so.
#[derive(Debug, Clone, PartialEq, Eq)]
pub struct InstanceUnits {
    pub status: ModuleStatus,
    pub units: Vec<AmountUnit>,
    pub source: UnitSource,
}

/// Which declaration answers for an instance. What it offers to be primary for
/// comes first, since funding is routed by that; then its kind's own
/// configuration or constant.
pub open spec fn source_of(
    supported: Option<PrimarySupport>,
    kind: Seq<char>,
) -> UnitSource {
    match supported {
        None => UnitSource::Undeclared,
        Some(PrimarySupport::Selected(_)) => UnitSource::PrimaryModuleSupport,
        Some(PrimarySupport::Any) => UnitSource::AnyUnit,
        Some(PrimarySupport::NoUnits) => if kind == "amm"@ {
            UnitSource::ModuleConfig
        } else if kind == "usdt"@ {
            UnitSource::ModuleConstant
        } else {
            UnitSource::Undeclared
        },
    }
}

/// What an instance deals in: `supported` is what it offers to be primary for,
/// or nothing where the client does not know its kind; `configured` are the
/// units of the market's configuration.
pub fn declared_units(
    supported: Option<PrimarySupport>,
    kind: &String,
    configured: Vec<AmountUnit>,
) -> (r: InstanceUnits)
    ensures
        r.status == (if supported is Some {
            ModuleStatus::Active
        } else {
            ModuleStatus::UnsupportedByClient
        }),
        r.source == source_of(supported, kind@),
        match r.source {
            UnitSource::PrimaryModuleSupport => supported matches Some(PrimarySupport::Selected(units))
                && r.units == units,
            UnitSource::ModuleConfig => r.units == configured,
            UnitSource::ModuleConstant => r.units@ == seq![usdt_unit()],
            _ => r.units@.len() == 0,
        },
{
    match supported {
        None => InstanceUnits {
            status: ModuleStatus::UnsupportedByClient,
            units: Vec::new(),
            source: UnitSource::Undeclared,
        },
        Some(PrimarySupport::Selected(units)) => InstanceUnits {
            status: ModuleStatus::Active,
            units,
            source: UnitSource::PrimaryModuleSupport,
        },
        Some(PrimarySupport::Any) => InstanceUnits {
            status: ModuleStatus::Active,
            units: Vec::new(),
            source: UnitSource::AnyUnit,
        },
        Some(PrimarySupport::NoUnits) => {
            if *kind == "amm".to_owned() {
                InstanceUnits {
                    status: ModuleStatus::Active,
                    units: configured,
                    source: UnitSource::ModuleConfig,
                }
            } else if *kind == "usdt".to_owned() {
                let units = vec![AmountUnit { id: 1 }];
                assert(units@ =~= seq![usdt_unit()]);
                InstanceUnits {
                    status: ModuleStatus::Active,
                    units,
                    source: UnitSource::ModuleConstant,
                }
            } else {
                InstanceUnits {
                    status: ModuleStatus::Active,
                    units: Vec::new(),
                    source: UnitSource::Undeclared,
                }
            }
        },
    }
}

/// Whether units are in ascending order, none of them twice.
pub open spec fn ascending(units: Seq<AmountUnit>) -> bool {
    forall|i: int, j: int|
        0 <= i < j < units.len() ==> (#[trigger] units[i]).id < (#[trigger] units[j]).id
}

/// Adds a unit to units in ascending order, unless it is there already.
pub fn add_unit(units: &mut Vec<AmountUnit>, unit: AmountUnit)
    requires
        ascending(old(units)@),
    ensures
        ascending(final(units)@),
        forall|u: AmountUnit| #[trigger]
            final(units)@.contains(u) <==> old(units)@.contains(u) || u == unit,
{
    let mut at: usize = 0;
    while at < units.len() && units[at].id < unit.id
        invariant
            at <= units@.len(),
            forall|i: int| 0 <= i < at ==> (#[trigger] units@[i]).id < unit.id,
            units@ == old(units)@,
        decreases units@.len() - at,
    {
        at = at + 1;
    }
    if at < units.len() && units[at].id == unit.id {
        assert(units@[at as int] == unit);
        return;
    }
    let ghost before = units@;
    units.insert(at, unit);
    proof {
        assert(units@ == before.insert(at as int, unit));
        assert forall|i: int, j: int| 0 <= i < j < units@.len() implies (#[trigger] units@[i]).id
            < (#[trigger] units@[j]).id by {
            let a = if i < at { i } else { i - 1 };
            let b = if j < at { j } else { j - 1 };
            if i != at {
                assert(units@[i] == before[a]);
            }
            if j != at {
                assert(units@[j] == before[b]);
            }
            if i == at {
                assert(before[at as int].id > unit.id);
                if b > at {
                    assert(before[at as int].id < before[b].id);
                }
            }
        }
        assert forall|u: AmountUnit| #[trigger]
            units@.contains(u) <==> before.contains(u) || u == unit by {
            if units@.contains(u) && u != unit {
                let i = choose|i: int| 0 <= i < units@.len() && units@[i] == u;
                let a = if i < at { i } else { i - 1 };
                assert(before[a] == u);
            }
            if before.contains(u) {
                let i = choose|i: int| 0 <= i < before.len() && before[i] == u;
                let a = if i < at { i } else { i + 1 };
                assert(units@[a] == u);
            }
            if u == unit {
                assert(units@[at as int] == u);
            }
        }
    }
}

/// Every unit that any instance deals in, in ascending order, each once.
pub fn all_units(instances: &Vec<InstanceUnits>) -> (r: Vec<AmountUnit>)
    ensures
        ascending(r@),
        forall|u: AmountUnit| #[trigger]
            r@.contains(u) <==> exists|i: int|
                0 <= i < instances@.len() && (#[trigger] instances@[i]).units@.contains(u),
{
    let mut out: Vec<AmountUnit> = Vec::new();
    let mut i: usize = 0;
    while i < instances.len()
        invariant
            i <= instances@.len(),
            ascending(out@),
            forall|u: AmountUnit| #[trigger]
                out@.contains(u) <==> exists|j: int|
                    0 <= j < i && (#[trigger] instances@[j]).units@.contains(u),
        decreases instances@.len() - i,
    {
        let ghost before = out@;
        let n: usize = instances[i].units.len();
        let mut k: usize = 0;
        while k < n
            invariant
                i < instances@.len(),
                n == instances@[i as int].units@.len(),
                k <= n,
                ascending(out@),
                forall|u: AmountUnit| #[trigger]
                    out@.contains(u) <==> before.contains(u) || exists|j: int|
                        0 <= j < k && instances@[i as int].units@[j] == u,
            decreases n - k,
        {
            let unit = instances[i].units[k];
            add_unit(&mut out, unit);
            k = k + 1;
        }
        proof {
            assert forall|u: AmountUnit| #[trigger]
                out@.contains(u) <==> exists|j: int|
                    0 <= j < i + 1 && (#[trigger] instances@[j]).units@.contains(u) by {
                if out@.contains(u) {
                    if before.contains(u) {
                        let j = choose|j: int|
                            0 <= j < i && (#[trigger] instances@[j]).units@.contains(u);
                        assert(instances@[j].units@.contains(u));
                    } else {
                        assert(instances@[i as int].units@.contains(u));
                    }
                }
                if exists|j: int| 0 <= j < i + 1 && (#[trigger] instances@[j]).units@.contains(u) {
                    let j = choose|j: int|
                        0 <= j < i + 1 && (#[trigger] instances@[j]).units@.contains(u);
                    if j < i {
                        assert(before.contains(u));
                    } else {
                        let m = choose|m: int|
                            0 <= m < instances@[j].units@.len() && instances@[j].units@[m] == u;
                        assert(instances@[i as int].units@[m] == u);
                    }
                }
            }
        }
        i = i + 1;
    }
    out
}

/// One unit: the instance that funds and takes change in it, and what is held.
#[derive(Debug, Clone, Copy, PartialEq, Eq, Structural)]
pub struct UnitInfo {
    pub unit: AmountUnit,
    pub primary_module: Option<u16>,
    pub balance: Option<Amount>,
}

/// What is said of a unit: with no instance that is primary for it there is no
/// balance either.
pub fn unit_info(unit: AmountUnit, primary: Option<(u16, Amount)>) -> (r: UnitInfo)
    ensures
        r.unit == unit,
        r.primary_module == (match primary {
            Some((id, _)) => Some(id),
            None => None::<u16>,
        }),
        r.balance == (match primary {
            Some((_, held)) => Some(held),
            None => None::<Amount>,
        }),
        r.primary_module is Some <==> r.balance is Some,
{
    match primary {
        Some((id, held)) => UnitInfo { unit, primary_module: Some(id), balance: Some(held) },
        None => UnitInfo { unit, primary_module: None, balance: None },
    }
}

/// Where the stability pool takes its price from.
#[derive(Debug, Clone, Copy, PartialEq, Eq, Structural)]
pub enum OracleKind {
    Mock,
    Aggregate,
}

/// What the stability pool is set up with.
#[derive(Debug, Clone, Copy, PartialEq, Eq, Structural)]
pub struct StabilityPoolParams {
    pub oracle: OracleKind,
    pub cycle_duration_secs: u64,
    pub collateral_provider: u64,
    pub collateral_seeker: u64,
    pub min_allowed_seek: Amount,
    pub min_allowed_provide: Amount,
    pub max_allowed_provide_fee_rate_ppb: u64,
    pub min_allowed_cancellation_bps: u32,
}

/// The length of a cycle: fifteen seconds on test, else what the operator set,
/// else ten minutes. What the operator set has to be a number either way.
pub open spec fn cycle_secs(test_params: bool, set: Option<Seq<char>>) -> Option<u64> {
    match set {
        None => Some(
            if test_params {
                15
            } else {
                600
            },
        ),
        Some(text) => match u64_from_text(text) {
            None => None,
            Some(n) => Some(
                if test_params {
                    15
                } else {
                    n
                },
            ),
        },
    }
}

/// What the stability pool is set up with; nothing where the operator's cycle
/// length is not a number.
pub fn spv2_init(test_params: bool, cycle_duration: Option<&str>) -> (r: Option<
    StabilityPoolParams,
>)
    ensures
        match cycle_secs(
            test_params,
            match cycle_duration {
                Some(text) => Some(text@),
                None => None,
            },
        ) {
            None => r is None,
            Some(secs) => r == Some(
                StabilityPoolParams {
                    oracle: if test_params {
                        OracleKind::Mock
                    } else {
                        OracleKind::Aggregate
                    },
                    cycle_duration_secs: secs,
                    collateral_provider: 1,
                    collateral_seeker: 1,
                    min_allowed_seek: Amount { msats: 100_000 },
                    min_allowed_provide: Amount { msats: 100_000 },
                    max_allowed_provide_fee_rate_ppb: 2000,
                    min_allowed_cancellation_bps: 100,
                },
            ),
        },
{
    let set: u64 = match cycle_duration {
        Some(text) => match parse_u64(text) {
            Some(n) => n,
            None => return None,
        },
        None => 600,
    };
    Some(
        StabilityPoolParams {
            oracle: if test_params {
                OracleKind::Mock
            } else {
                OracleKind::Aggregate
            },
            cycle_duration_secs: if test_params {
                15
            } else {
                set
            },
            collateral_provider: 1,
            collateral_seeker: 1,
            min_allowed_seek: Amount { msats: 100_000 },
            min_allowed_provide: Amount { msats: 100_000 },
            max_allowed_provide_fee_rate_ppb: 2000,
            min_allowed_cancellation_bps: 100,
        },
    )
}

/// What a module offers to be primary for answers before its kind does: a
/// selection of units is taken as it is, and only one that offers nothing is
/// asked by kind. A module that the client does not know declares nothing.
pub proof fn law_what_is_offered_answers_first(kind: Seq<char>, units: Vec<AmountUnit>)
    ensures
        source_of(None, kind) == UnitSource::Undeclared,
        source_of(Some(PrimarySupport::Selected(units)), kind) == UnitSource::PrimaryModuleSupport,
        source_of(Some(PrimarySupport::Any), kind) == UnitSource::AnyUnit,
        source_of(Some(PrimarySupport::NoUnits), kind) == UnitSource::ModuleConfig <==> kind
            == "amm"@,
        source_of(Some(PrimarySupport::NoUnits), kind) == UnitSource::ModuleConstant <==> kind
            == "usdt"@,
{
    reveal_strlit("amm");
    reveal_strlit("usdt");
    assert("amm"@.len() != "usdt"@.len());
}

/// A cycle lasts as long as the operator says, ten minutes where nothing is said,
/// and fifteen seconds on test whatever is said. What is no number is refused on
/// test too.
pub proof fn law_a_cycle_lasts_as_the_operator_says(test_params: bool, set: Option<Seq<char>>)
    ensures
        match cycle_secs(test_params, set) {
            Some(secs) => {
                &&& test_params ==> secs == 15
                &&& !test_params && set is None ==> secs == 600
                &&& set matches Some(text) ==> (u64_from_text(text) matches Some(n) && (test_params
                    || secs == n))
            },
            None => set matches Some(text) && u64_from_text(text) is None,
        },
{
}

} // verus!
