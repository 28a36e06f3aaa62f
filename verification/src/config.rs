//! The market's configuration.

use vstd::prelude::*;

use crate::encoding::{bigsize, encode_u64, lemma_bigsize_prefix, Reader};
use crate::pool_id::{law_pool_encoding_is_unambiguous, PoolId};
use crate::table::{Table, TableKey};
use crate::units::{Amount, AmountUnit};

verus! {

/// What the market asks of one unit.
#[derive(Debug, Clone, Copy, PartialEq, Eq, Hash, Structural)]
pub struct UnitParams {
    /// The least a swap may put in.
    pub min_swap_in: Amount,
}

/// What every guardian agrees on.
#[derive(Debug, Clone, PartialEq, Eq)]
pub struct AmmConfigConsensus {
    /// The units that may be traded.
    pub units: Table<AmountUnit, UnitParams>,
    /// The fee of a pool without an override and without enough votes.
    pub default_fee_per_mille: u16,
    pub fee_overrides: Table<PoolId, u16>,
    /// Lower end of the band that a voted fee is confined to.
    pub min_fee_per_mille: u16,
    /// Upper end of the band.
    pub max_fee_per_mille: u16,
}

/// What a client needs to know.
#[derive(Debug, Clone, PartialEq, Eq)]
pub struct AmmClientConfig {
    pub units: Table<AmountUnit, UnitParams>,
    pub default_fee_per_mille: u16,
    pub fee_overrides: Table<PoolId, u16>,
}

/// A guardian's private part: there is none.
#[derive(Debug, Clone, Copy, PartialEq, Eq, Structural)]
pub struct AmmConfigPrivate;

/// A guardian's whole configuration.
#[derive(Debug, Clone, PartialEq, Eq)]
pub struct AmmConfig {
    pub private: AmmConfigPrivate,
    pub consensus: AmmConfigConsensus,
}

/// Why a configuration is refused.
#[derive(Debug, Clone, Copy, PartialEq, Eq, Structural)]
pub enum ConfigError {
    NoUnits,
    InvalidFee,
    ZeroMinSwapIn,
    UnknownUnitInOverride,
    InvertedFeeBand,
}

impl ConfigError {
    /// The text shown for each error.
    pub open spec fn text(self) -> Seq<char> {
        match self {
            ConfigError::NoUnits => "units must not be empty"@,
            ConfigError::InvalidFee => "fee_per_mille must be < 1000"@,
            ConfigError::ZeroMinSwapIn => "min_swap_in must be non-zero"@,
            ConfigError::UnknownUnitInOverride => "fee override names a unit not in `units`"@,
            ConfigError::InvertedFeeBand =>
                "min_fee_per_mille must be <= max_fee_per_mille"@,
        }
    }

    /// The error as a human-readable line.
    pub fn message(self) -> (r: &'static str)
        ensures
            r@ == self.text(),
    {
        match self {
            ConfigError::NoUnits => "units must not be empty",
            ConfigError::InvalidFee => "fee_per_mille must be < 1000",
            ConfigError::ZeroMinSwapIn => "min_swap_in must be non-zero",
            ConfigError::UnknownUnitInOverride => "fee override names a unit not in `units`",
            ConfigError::InvertedFeeBand => "min_fee_per_mille must be <= max_fee_per_mille",
        }
    }
}

impl TableKey for AmountUnit {
    open spec fn key_bytes(self) -> Seq<u8> {
        bigsize(self.id)
    }

    open spec fn key_valid(self) -> bool {
        true
    }

    fn to_bytes(&self) -> (r: Vec<u8>) {
        encode_u64(self.id)
    }

    fn from_bytes(bytes: &[u8]) -> (r: Option<Self>) {
        let mut reader = Reader::new(bytes);
        let id: Option<u64> = reader.read_u64();
        let ghost tail = reader.rest();
        let done = reader.is_done();
        let ghost none = Seq::<u8>::empty();
        proof {
            assert forall|k: AmountUnit| #[trigger] k.key_bytes() == bytes@ implies id is Some
                && done by {
                assert(bigsize(k.id) + none =~= bigsize(k.id));
                lemma_bigsize_prefix(id->0, tail, k.id, none);
            }
        }
        match id {
            Some(id) if done => {
                assert(bigsize(id) + none =~= bigsize(id));
                Some(AmountUnit { id })
            },
            _ => None,
        }
    }

    proof fn lemma_key_injective(a: Self, b: Self) {
        let none = Seq::<u8>::empty();
        assert(bigsize(a.id) + none =~= bigsize(a.id));
        assert(bigsize(b.id) + none =~= bigsize(b.id));
        lemma_bigsize_prefix(a.id, none, b.id, none);
    }
}

impl TableKey for PoolId {
    open spec fn key_bytes(self) -> Seq<u8> {
        self.encoded()
    }

    open spec fn key_valid(self) -> bool {
        self.canonical()
    }

    fn to_bytes(&self) -> (r: Vec<u8>) {
        let mut out: Vec<u8> = Vec::new();
        self.encode(&mut out);
        assert(out@ =~= self.encoded());
        out
    }

    fn from_bytes(bytes: &[u8]) -> (r: Option<Self>) {
        let mut reader = Reader::new(bytes);
        let pool = PoolId::decode(&mut reader);
        let ghost tail = reader.rest();
        let done = reader.is_done();
        let ghost none = Seq::<u8>::empty();
        proof {
            assert forall|k: PoolId|
                k.key_valid() && #[trigger] k.key_bytes() == bytes@ implies pool is Some && done by {
                assert(k.encoded() + none =~= k.encoded());
                law_pool_encoding_is_unambiguous(pool->0, tail, k, none);
            }
        }
        match pool {
            Some(pool) if done => {
                assert(pool.encoded() + none =~= pool.encoded());
                Some(pool)
            },
            _ => None,
        }
    }

    proof fn lemma_key_injective(a: Self, b: Self) {
        let none = Seq::<u8>::empty();
        assert(a.encoded() + none =~= a.encoded());
        assert(b.encoded() + none =~= b.encoded());
        law_pool_encoding_is_unambiguous(a, none, b, none);
    }
}

/// The fee that applies to `pool`: its override, or the default.
pub open spec fn configured_fee(overrides: Table<PoolId, u16>, default_fee: u16, pool: PoolId) -> u16 {
    match overrides.lookup(pool) {
        Some(fee) => fee,
        None => default_fee,
    }
}

fn fee_for(fee_overrides: &Table<PoolId, u16>, default_fee_per_mille: u16, pool: PoolId) -> (r: u16)
    requires
        fee_overrides.wf(),
    ensures
        r == configured_fee(*fee_overrides, default_fee_per_mille, pool),
{
    match fee_overrides.get(&pool) {
        Some(fee) => fee,
        None => default_fee_per_mille,
    }
}

/// What is wrong with one override.
pub open spec fn override_error(
    units: Table<AmountUnit, UnitParams>,
    pool: PoolId,
    fee: u16,
) -> Option<ConfigError> {
    if fee >= 1000 {
        Some(ConfigError::InvalidFee)
    } else if units.lookup(pool.low()) is None || units.lookup(pool.high()) is None {
        Some(ConfigError::UnknownUnitInOverride)
    } else {
        None
    }
}

/// What is wrong with the first override that is refused, in key order.
pub open spec fn first_override_error(
    units: Table<AmountUnit, UnitParams>,
    rows: Seq<(PoolId, u16)>,
) -> Option<ConfigError>
    decreases rows.len(),
{
    if rows.len() == 0 {
        None
    } else {
        match override_error(units, rows[0].0, rows[0].1) {
            Some(error) => Some(error),
            None => first_override_error(units, rows.skip(1)),
        }
    }
}

impl AmmConfigConsensus {
    /// The two tables are tables.
    pub open spec fn wf(self) -> bool {
        self.units.wf() && self.fee_overrides.wf()
    }

    /// The outcome of validation.
    pub open spec fn validation(self) -> Result<(), ConfigError> {
        if self.units.rows().len() == 0 {
            Err(ConfigError::NoUnits)
        } else if self.default_fee_per_mille >= 1000 || self.max_fee_per_mille >= 1000 {
            Err(ConfigError::InvalidFee)
        } else if self.min_fee_per_mille > self.max_fee_per_mille {
            Err(ConfigError::InvertedFeeBand)
        } else if exists|i: int|
            0 <= i < self.units.rows().len() && (#[trigger] self.units.rows()[i]).1.min_swap_in.msats
                == 0 {
            Err(ConfigError::ZeroMinSwapIn)
        } else {
            match first_override_error(self.units, self.fee_overrides.rows()) {
                Some(error) => Err(error),
                None => Ok(()),
            }
        }
    }

    /// Checks the configuration before the guardians agree on it.
    pub fn validate(&self) -> (r: Result<(), ConfigError>)
        requires
            self.wf(),
        ensures
            r == self.validation(),
    {
        let n: usize = self.units.len();
        if n == 0 {
            return Err(ConfigError::NoUnits);
        }
        if self.default_fee_per_mille >= 1000 {
            return Err(ConfigError::InvalidFee);
        }
        if self.max_fee_per_mille >= 1000 {
            return Err(ConfigError::InvalidFee);
        }
        if self.min_fee_per_mille > self.max_fee_per_mille {
            return Err(ConfigError::InvertedFeeBand);
        }
        let mut i: usize = 0;
        while i < n
            invariant
                n == self.units.rows().len(),
                i <= n,
                forall|j: int|
                    0 <= j < i ==> (#[trigger] self.units.rows()[j]).1.min_swap_in.msats != 0,
                self.default_fee_per_mille < 1000,
                self.max_fee_per_mille < 1000,
                self.min_fee_per_mille <= self.max_fee_per_mille,
            decreases n - i,
        {
            if self.units.row(i).1.min_swap_in.msats == 0 {
                assert(self.units.rows()[i as int].1.min_swap_in.msats == 0);
                return Err(ConfigError::ZeroMinSwapIn);
            }
            i = i + 1;
        }
        let count: usize = self.fee_overrides.len();
        let mut k: usize = 0;
        assert(self.fee_overrides.rows().skip(0) =~= self.fee_overrides.rows());
        while k < count
            invariant
                self.wf(),
                n > 0,
                n == self.units.rows().len(),
                forall|j: int|
                    0 <= j < n ==> (#[trigger] self.units.rows()[j]).1.min_swap_in.msats != 0,
                self.default_fee_per_mille < 1000,
                self.max_fee_per_mille < 1000,
                self.min_fee_per_mille <= self.max_fee_per_mille,
                count == self.fee_overrides.rows().len(),
                k <= count,
                first_override_error(self.units, self.fee_overrides.rows())
                    == first_override_error(self.units, self.fee_overrides.rows().skip(k as int)),
            decreases count - k,
        {
            let (pool, fee) = self.fee_overrides.row(k);
            proof {
                let rest = self.fee_overrides.rows().skip(k as int);
                assert(rest[0] == (pool, fee));
                assert(rest.skip(1) =~= self.fee_overrides.rows().skip(k as int + 1));
            }
            if fee >= 1000 {
                return Err(ConfigError::InvalidFee);
            }
            if self.units.get(&pool.lo()).is_none() || self.units.get(&pool.hi()).is_none() {
                return Err(ConfigError::UnknownUnitInOverride);
            }
            k = k + 1;
        }
        Ok(())
    }

    /// The fee that applies to `pool`: its override, or the default.
    pub fn fee_for(&self, pool: PoolId) -> (r: u16)
        requires
            self.wf(),
        ensures
            r == configured_fee(self.fee_overrides, self.default_fee_per_mille, pool),
    {
        fee_for(&self.fee_overrides, self.default_fee_per_mille, pool)
    }

    /// Whether `fee` lies in the band, its ends included.
    pub fn fee_in_band(&self, fee: u16) -> (r: bool)
        ensures
            r == (self.min_fee_per_mille <= fee <= self.max_fee_per_mille),
    {
        self.min_fee_per_mille <= fee && fee <= self.max_fee_per_mille
    }

    /// The fee nearest to `fee` that lies in the band.
    pub open spec fn clamped_fee(self, fee: u16) -> u16 {
        if fee < self.min_fee_per_mille {
            self.min_fee_per_mille
        } else if fee > self.max_fee_per_mille {
            self.max_fee_per_mille
        } else {
            fee
        }
    }

    /// The fee nearest to `fee` that lies in the band.
    pub fn clamp_fee_to_band(&self, fee: u16) -> (r: u16)
        requires
            self.min_fee_per_mille <= self.max_fee_per_mille,
        ensures
            r == self.clamped_fee(fee),
            self.min_fee_per_mille <= r <= self.max_fee_per_mille,
    {
        if fee < self.min_fee_per_mille {
            self.min_fee_per_mille
        } else if fee > self.max_fee_per_mille {
            self.max_fee_per_mille
        } else {
            fee
        }
    }
}

impl AmmClientConfig {
    /// The two tables are tables.
    pub open spec fn wf(self) -> bool {
        self.units.wf() && self.fee_overrides.wf()
    }

    /// The fee that applies to `pool`: its override, or the default.
    pub fn fee_for(&self, pool: PoolId) -> (r: u16)
        requires
            self.wf(),
        ensures
            r == configured_fee(self.fee_overrides, self.default_fee_per_mille, pool),
    {
        fee_for(&self.fee_overrides, self.default_fee_per_mille, pool)
    }
}

/// A configuration is accepted exactly when there are units, every fee is below
/// one thousand, the band is not inverted, no unit's threshold is zero, and
/// every override is over known units. What is wrong with one that is not is named
/// in that order.
pub proof fn law_validation_accepts_exactly_the_sound(cfg: AmmConfigConsensus)
    ensures
        cfg.validation() is Ok <==> {
            &&& cfg.units.rows().len() > 0
            &&& cfg.default_fee_per_mille < 1000
            &&& cfg.min_fee_per_mille <= cfg.max_fee_per_mille < 1000
            &&& forall|i: int|
                0 <= i < cfg.units.rows().len() ==> (#[trigger] cfg.units.rows()[i]).1.min_swap_in.msats
                    > 0
            &&& forall|i: int|
                0 <= i < cfg.fee_overrides.rows().len() ==> {
                    let (pool, fee) = #[trigger] cfg.fee_overrides.rows()[i];
                    &&& fee < 1000
                    &&& cfg.units.lookup(pool.low()) is Some
                    &&& cfg.units.lookup(pool.high()) is Some
                }
        },
        cfg.validation() == Err::<(), ConfigError>(ConfigError::NoUnits) <==> cfg.units.rows().len()
            == 0,
        cfg.validation() == Err::<(), ConfigError>(ConfigError::InvertedFeeBand) <==> {
            &&& cfg.units.rows().len() > 0
            &&& cfg.default_fee_per_mille < 1000 && cfg.max_fee_per_mille < 1000
            &&& cfg.min_fee_per_mille > cfg.max_fee_per_mille
        },
        cfg.units.rows().len() > 0 && (cfg.default_fee_per_mille >= 1000 || cfg.max_fee_per_mille
            >= 1000) ==> cfg.validation() == Err::<(), ConfigError>(ConfigError::InvalidFee),
        cfg.validation() == Err::<(), ConfigError>(ConfigError::ZeroMinSwapIn) <==> {
            &&& cfg.default_fee_per_mille < 1000
            &&& cfg.min_fee_per_mille <= cfg.max_fee_per_mille < 1000
            &&& exists|i: int|
                0 <= i < cfg.units.rows().len() && (#[trigger] cfg.units.rows()[i]).1.min_swap_in.msats
                    == 0
        },
{
    lemma_first_override_error(cfg.units, cfg.fee_overrides.rows());
    lemma_override_error_kinds(cfg.units, cfg.fee_overrides.rows());
}

/// An override is refused for its fee or for its units.
proof fn lemma_override_error_kinds(
    units: Table<AmountUnit, UnitParams>,
    rows: Seq<(PoolId, u16)>,
)
    ensures
        first_override_error(units, rows) matches Some(e) ==> e == ConfigError::InvalidFee || e
            == ConfigError::UnknownUnitInOverride,
    decreases rows.len(),
{
    if rows.len() > 0 {
        lemma_override_error_kinds(units, rows.skip(1));
    }
}

proof fn lemma_first_override_error(
    units: Table<AmountUnit, UnitParams>,
    rows: Seq<(PoolId, u16)>,
)
    ensures
        first_override_error(units, rows) is None <==> forall|i: int|
            0 <= i < rows.len() ==> override_error(units, (#[trigger] rows[i]).0, rows[i].1)
                is None,
    decreases rows.len(),
{
    if rows.len() > 0 {
        let rest = rows.skip(1);
        lemma_first_override_error(units, rest);
        assert forall|i: int| 1 <= i < rows.len() implies #[trigger] rows[i] == rest[i - 1] by {
        }
        assert forall|i: int| 0 <= i < rest.len() implies #[trigger] rest[i] == rows[i + 1] by {
        }
        if first_override_error(units, rows) is None {
            assert forall|i: int| 0 <= i < rows.len() implies override_error(
                units,
                (#[trigger] rows[i]).0,
                rows[i].1,
            ) is None by {
                if i > 0 {
                    assert(rows[i] == rest[i - 1]);
                }
            }
        } else if override_error(units, rows[0].0, rows[0].1) is None {
            let i = choose|i: int|
                0 <= i < rest.len() && override_error(units, (#[trigger] rest[i]).0, rest[i].1)
                    is Some;
            assert(rows[i + 1] == rest[i]);
        }
    }
}

/// Where nothing is wrong but an override, the first one that is wrong decides:
/// its fee before its units.
pub proof fn law_the_first_wrong_override_decides(cfg: AmmConfigConsensus, i: int)
    requires
        cfg.units.rows().len() > 0,
        cfg.default_fee_per_mille < 1000,
        cfg.min_fee_per_mille <= cfg.max_fee_per_mille < 1000,
        forall|j: int|
            0 <= j < cfg.units.rows().len() ==> (#[trigger] cfg.units.rows()[j]).1.min_swap_in.msats
                > 0,
        0 <= i < cfg.fee_overrides.rows().len(),
        forall|j: int|
            0 <= j < i ==> {
                let (pool, fee) = #[trigger] cfg.fee_overrides.rows()[j];
                &&& fee < 1000
                &&& cfg.units.lookup(pool.low()) is Some
                &&& cfg.units.lookup(pool.high()) is Some
            },
    ensures
        ({
            let (pool, fee) = cfg.fee_overrides.rows()[i];
            if fee >= 1000 {
                cfg.validation() == Err::<(), ConfigError>(ConfigError::InvalidFee)
            } else if cfg.units.lookup(pool.low()) is None || cfg.units.lookup(pool.high())
                is None {
                cfg.validation() == Err::<(), ConfigError>(ConfigError::UnknownUnitInOverride)
            } else {
                true
            }
        }),
{
    let rows = cfg.fee_overrides.rows();
    assert forall|j: int| 0 <= j < i implies override_error(
        cfg.units,
        (#[trigger] rows[j]).0,
        rows[j].1,
    ) is None by {
        let (pool, fee) = rows[j];
        assert(fee < 1000);
    }
    lemma_first_wrong(cfg.units, rows, i);
}

/// With nothing wrong before row `i`, what is wrong is what is wrong from there.
proof fn lemma_first_wrong(
    units: Table<AmountUnit, UnitParams>,
    rows: Seq<(PoolId, u16)>,
    i: int,
)
    requires
        0 <= i < rows.len(),
        forall|j: int|
            0 <= j < i ==> override_error(units, (#[trigger] rows[j]).0, rows[j].1) is None,
    ensures
        override_error(units, rows[i].0, rows[i].1) is Some ==> first_override_error(units, rows)
            == override_error(units, rows[i].0, rows[i].1),
    decreases rows.len(),
{
    if i > 0 {
        let rest = rows.skip(1);
        assert(override_error(units, rows[0].0, rows[0].1) is None);
        assert(rest[i - 1] == rows[i]);
        assert forall|j: int| 0 <= j < i - 1 implies override_error(
            units,
            (#[trigger] rest[j]).0,
            rest[j].1,
        ) is None by {
            assert(rest[j] == rows[j + 1]);
        }
        lemma_first_wrong(units, rest, i - 1);
    }
}

} // verus!
