//! Setting a federation's market up.

use vstd::prelude::*;

use crate::config::{
    AmmClientConfig, AmmConfig, AmmConfigConsensus, AmmConfigPrivate, ConfigError, UnitParams,
};
use crate::server::db::{DbKeyPrefix, PeerId};
use crate::table::Table;
use crate::text::{is_selected, selects};
use crate::units::{Amount, AmountUnit};

verus! {

/// Whether a configuration is the one that new federations start with: bitcoin
/// and unit 1, a fee of 3 per mille, and a band from 1 to 50.
pub open spec fn is_default_config(cfg: AmmConfigConsensus) -> bool {
    &&& cfg.wf()
    &&& cfg.units.view() == Map::<AmountUnit, UnitParams>::empty().insert(
        AmountUnit { id: 0 },
        UnitParams { min_swap_in: Amount { msats: 1_000 } },
    ).insert(AmountUnit { id: 1 }, UnitParams { min_swap_in: Amount { msats: 10 } })
    &&& cfg.default_fee_per_mille == 3
    &&& cfg.fee_overrides.rows().len() == 0
    &&& cfg.min_fee_per_mille == 1
    &&& cfg.max_fee_per_mille == 50
}

/// The configuration that new federations start with.
pub fn default_consensus_config() -> (r: AmmConfigConsensus)
    ensures
        is_default_config(r),
        r.validation() is Ok,
{
    let mut units: Table<AmountUnit, UnitParams> = Table::new();
    units.insert(AmountUnit::bitcoin(), UnitParams { min_swap_in: Amount { msats: 1_000 } });
    units.insert(AmountUnit::new_custom(1), UnitParams { min_swap_in: Amount { msats: 10 } });
    let cfg = AmmConfigConsensus {
        units,
        default_fee_per_mille: 3,
        fee_overrides: Table::new(),
        min_fee_per_mille: 1,
        max_fee_per_mille: 50,
    };
    proof {
        let one = AmountUnit { id: 1 };
        assert(cfg.units.view().dom().contains(one));
        assert(cfg.units.lookup(one) is Some);
        let i = cfg.units.lemma_has_row(one);
        assert forall|j: int| 0 <= j < cfg.units.rows().len() implies (
        #[trigger] cfg.units.rows()[j]).1.min_swap_in.msats > 0 by {
            cfg.units.lemma_row(j);
        }
    }
    cfg
}

/// The name that selects a table for dumping.
pub open spec fn dump_name(table: DbKeyPrefix) -> Seq<char> {
    match table {
        DbKeyPrefix::Pool => "pool"@,
        DbKeyPrefix::LpPosition => "lpposition"@,
        DbKeyPrefix::Balance => "balance"@,
        DbKeyPrefix::FeeVote => "feevote"@,
        DbKeyPrefix::DesiredFee => "desiredfee"@,
    }
}

/// Whether a table is to be dumped, given the names that were asked for: without
/// any name, every table is.
pub fn dump_selects(names: &Vec<String>, table: DbKeyPrefix) -> (r: bool)
    ensures
        r == is_selected(names@, dump_name(table)),
{
    let name: String = match table {
        DbKeyPrefix::Pool => "pool".to_owned(),
        DbKeyPrefix::LpPosition => "lpposition".to_owned(),
        DbKeyPrefix::Balance => "balance".to_owned(),
        DbKeyPrefix::FeeVote => "feevote".to_owned(),
        DbKeyPrefix::DesiredFee => "desiredfee".to_owned(),
    };
    selects(names, &name)
}

/// Sets the module up.
#[derive(Debug, Clone, Copy, PartialEq, Eq, Structural)]
pub struct AmmInit;

impl AmmInit {
    /// The name of the module's kind.
    pub fn kind() -> (r: &'static str)
        ensures
            r@ == "amm"@,
    {
        "amm"
    }

    /// A configuration for every guardian, all of them the same.
    pub fn trusted_dealer_gen(&self, peers: &[PeerId]) -> (r: Vec<(PeerId, AmmConfig)>)
        ensures
            r@.len() == peers@.len(),
            forall|i: int|
                0 <= i < r@.len() ==> (#[trigger] r@[i]).0 == peers@[i] && is_default_config(
                    r@[i].1.consensus,
                ),
    {
        let mut out: Vec<(PeerId, AmmConfig)> = Vec::new();
        let mut i: usize = 0;
        while i < peers.len()
            invariant
                i <= peers@.len(),
                out@.len() == i,
                forall|j: int|
                    0 <= j < i ==> (#[trigger] out@[j]).0 == peers@[j] && is_default_config(
                        out@[j].1.consensus,
                    ),
            decreases peers@.len() - i,
        {
            out.push(
                (
                    peers[i],
                    AmmConfig {
                        private: AmmConfigPrivate,
                        consensus: default_consensus_config(),
                    },
                ),
            );
            i = i + 1;
        }
        out
    }

    /// This guardian's configuration.
    pub fn distributed_gen(&self) -> (r: Result<AmmConfig, ConfigError>)
        ensures
            r matches Ok(cfg) && is_default_config(cfg.consensus),
    {
        let consensus = default_consensus_config();
        match consensus.validate() {
            Ok(()) => Ok(AmmConfig { private: AmmConfigPrivate, consensus }),
            Err(e) => Err(e),
        }
    }

    /// What a client is told of the configuration. The band is left out.
    pub fn get_client_config(&self, config: AmmConfigConsensus) -> (r: AmmClientConfig)
        ensures
            r.units == config.units,
            r.default_fee_per_mille == config.default_fee_per_mille,
            r.fee_overrides == config.fee_overrides,
    {
        AmmClientConfig {
            units: config.units,
            default_fee_per_mille: config.default_fee_per_mille,
            fee_overrides: config.fee_overrides,
        }
    }

    /// Checks a guardian's configuration.
    pub fn validate_config(&self, config: &AmmConfig) -> (r: Result<(), ConfigError>)
        requires
            config.consensus.wf(),
        ensures
            r == config.consensus.validation(),
    {
        config.consensus.validate()
    }
}

} // verus!
