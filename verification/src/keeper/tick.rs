//! One tick of the keeper: from what was read to what is done, and what is said
//! about it.

use vstd::prelude::*;
use vstd::string::*;

use crate::client::module::{find_pool, first_report, is_first_report, is_reported};
use crate::config::AmmClientConfig;
use crate::endpoints::PoolSummary;
use crate::keeper::options::{dollar_text, format_micro_usd};
use crate::keeper::policy::{
    apply_trade, decide, decision, dev_bps, deviation_bps, pool_price_micro_usd, trade_result,
    Balances, Decision, HoldReason, KeeperConfig, MinSwapIn, PoolState, DECIMAL_GAP,
};
use crate::math::lemma_quotient;
use crate::pool_id::PoolId;
use crate::text::{
    all_digits, append_decimal, decimal, decimal_value, lemma_decimal_reads_back,
};
use crate::units::AmountUnit;

verus! {

/// Why the keeper does not start.
#[derive(Debug, Clone, PartialEq, Eq)]
pub enum StartError {
    /// The low unit of the pool is not bitcoin.
    NotABitcoinPool,
    /// The federation does not run exactly one market; these are the ones it
    /// runs.
    NotOneInstance { instances: Vec<u16> },
    /// A unit of the pool may not be traded.
    UnknownUnit { unit: AmountUnit },
}

/// The instances of a kind, in order.
pub open spec fn instances_of(modules: Seq<(u16, String)>, kind: Seq<char>) -> Seq<u16>
    decreases modules.len(),
{
    if modules.len() == 0 {
        Seq::empty()
    } else {
        let front = instances_of(modules.drop_last(), kind);
        if modules.last().1@ == kind {
            front.push(modules.last().0)
        } else {
            front
        }
    }
}

/// The federation's one market. With none, or with several, there is no way to
/// tell which was meant.
pub fn resolve_instance(modules: &Vec<(u16, String)>) -> (r: Result<u16, StartError>)
    ensures
        ({
            let found = instances_of(modules@, "amm"@);
            if found.len() == 1 {
                r == Ok::<u16, StartError>(found[0])
            } else {
                r matches Err(StartError::NotOneInstance { instances }) && instances@ == found
            }
        }),
{
    let kind: String = "amm".to_owned();
    let mut instances: Vec<u16> = Vec::new();
    let mut i: usize = 0;
    while i < modules.len()
        invariant
            i <= modules@.len(),
            kind@ == "amm"@,
            instances@ == instances_of(modules@.take(i as int), "amm"@),
        decreases modules@.len() - i,
    {
        proof {
            let next = modules@.take(i as int + 1);
            assert(next.drop_last() =~= modules@.take(i as int));
            assert(next.last() == modules@[i as int]);
        }
        if modules[i].1 == kind {
            instances.push(modules[i].0);
        }
        i = i + 1;
    }
    assert(modules@.take(modules@.len() as int) =~= modules@);
    if instances.len() == 1 {
        return Ok(instances[0]);
    }
    Err(StartError::NotOneInstance { instances })
}

/// The least a swap may put in of `unit`; nothing where it may not be traded.
pub fn unit_params(config: &AmmClientConfig, unit: AmountUnit) -> (r: Option<u64>)
    requires
        config.wf(),
    ensures
        r == (match config.units.lookup(unit) {
            Some(params) => Some(params.min_swap_in.msats),
            None => None::<u64>,
        }),
{
    match config.units.get(&unit) {
        Some(params) => Some(params.min_swap_in.msats),
        None => None,
    }
}

/// What the keeper has to know of the pool it is set on before it starts: that
/// its low unit is bitcoin, that both units may be traded, and the least that
/// each may be traded in.
pub fn check_pool(config: &AmmClientConfig, pool: PoolId) -> (r: Result<MinSwapIn, StartError>)
    requires
        config.wf(),
    ensures
        match (config.units.lookup(pool.low()), config.units.lookup(pool.high())) {
            _ if pool.low().id != 0 => r == Err::<MinSwapIn, StartError>(
                StartError::NotABitcoinPool,
            ),
            (None, _) => r == Err::<MinSwapIn, StartError>(
                StartError::UnknownUnit { unit: pool.low() },
            ),
            (_, None) => r == Err::<MinSwapIn, StartError>(
                StartError::UnknownUnit { unit: pool.high() },
            ),
            (Some(lo), Some(hi)) => r == Ok::<MinSwapIn, StartError>(
                MinSwapIn { lo: lo.min_swap_in.msats, hi: hi.min_swap_in.msats },
            ),
        },
{
    if pool.lo().id != 0 {
        return Err(StartError::NotABitcoinPool);
    }
    let lo: u64 = match unit_params(config, pool.lo()) {
        Some(lo) => lo,
        None => return Err(StartError::UnknownUnit { unit: pool.lo() }),
    };
    let hi: u64 = match unit_params(config, pool.hi()) {
        Some(hi) => hi,
        None => return Err(StartError::UnknownUnit { unit: pool.hi() }),
    };
    Ok(MinSwapIn { lo, hi })
}

/// The pool as a report has it.
pub open spec fn state_of(summary: PoolSummary, pool: PoolId) -> PoolState {
    PoolState {
        unit_lo: pool.low(),
        unit_hi: pool.high(),
        reserve_lo: summary.reserve_lo.msats,
        reserve_hi: summary.reserve_hi.msats,
        fee_per_mille: summary.fee_per_mille,
    }
}

/// The pool as the guardians just reported it, reserves and fee of its first
/// report.
pub fn read_pool(pools: &[PoolSummary], pool: PoolId) -> (r: Option<PoolState>)
    ensures
        match r {
            Some(state) => exists|i: int| #[trigger]
                is_first_report(pools@, pool, i) && state == state_of(pools@[i], pool),
            None => !is_reported(pools@, pool),
        },
        r == (match first_report(pools@, pool) {
            Some(summary) => Some(state_of(summary, pool)),
            None => None::<PoolState>,
        }),
{
    match find_pool(pools, pool) {
        Some(summary) => Some(
            PoolState {
                unit_lo: pool.lo(),
                unit_hi: pool.hi(),
                reserve_lo: summary.reserve_lo.msats,
                reserve_hi: summary.reserve_hi.msats,
                fee_per_mille: summary.fee_per_mille,
            },
        ),
        None => None,
    }
}

/// Decides a tick. Where the price, the pool or the balances could not be read,
/// nothing is decided and nothing is done.
pub fn tick(
    oracle_micro: Option<u128>,
    pool: Option<PoolState>,
    balances: Option<Balances>,
    min_swap_in: MinSwapIn,
    cfg: &KeeperConfig,
) -> (r: Option<Decision>)
    ensures
        r == (match (oracle_micro, pool, balances) {
            (Some(price), Some(pool), Some(balances)) => Some(
                decision(pool, min_swap_in, price, balances, *cfg),
            ),
            _ => None::<Decision>,
        }),
{
    match (oracle_micro, pool, balances) {
        (Some(price), Some(pool), Some(balances)) => Some(
            decide(&pool, min_swap_in, price, balances, cfg),
        ),
        _ => None,
    }
}

/// A whole number in decimal, with a minus sign where it is negative.
pub open spec fn signed_text(n: int) -> Seq<char> {
    if n < 0 {
        seq!['-'] + decimal((-n) as nat)
    } else {
        decimal(n as nat)
    }
}

/// A whole number in decimal.
pub fn format_signed(n: i128) -> (r: String)
    ensures
        r@ == signed_text(n as int),
{
    let mut s = String::new();
    if n < 0 {
        s.append("-");
        proof {
            reveal_strlit("-");
            assert("-"@ =~= seq!['-']);
        }
        let magnitude: u128 = if n == i128::MIN {
            0x8000_0000_0000_0000_0000_0000_0000_0000
        } else {
            (-n) as u128
        };
        append_decimal(&mut s, magnitude);
    } else {
        append_decimal(&mut s, n as u128);
    }
    assert(s@ =~= signed_text(n as int));
    s
}

/// A price in dollars, or a dash where there is none.
pub open spec fn price_text(price: Option<u128>) -> Seq<char> {
    match price {
        Some(micro) => dollar_text(micro),
        None => "-"@,
    }
}

fn format_price(price: Option<u128>) -> (r: String)
    ensures
        r@ == price_text(price),
{
    match price {
        Some(micro) => format_micro_usd(micro),
        None => "-".to_owned(),
    }
}

/// The price of reserves, if there is one.
pub open spec fn spot_price(reserve_lo: u64, reserve_hi: u64) -> Option<u128> {
    if reserve_lo == 0 {
        None
    } else {
        Some(((reserve_hi * DECIMAL_GAP) / (reserve_lo as int)) as u128)
    }
}

/// What is said about a tick.
#[derive(Debug, Clone, PartialEq, Eq)]
pub struct TickReport {
    pub pool_usd: String,
    pub oracle_usd: String,
    pub dev_bps: String,
    /// Where a trade is expected to take the price; none for a hold.
    pub lands_at_usd: Option<String>,
    /// Whether the operator needs to see it.
    pub warning: bool,
}

/// What is said about a tick: the pool's price, the oracle's, how far they are
/// apart, and where a trade is expected to land.
pub fn report(pool: &PoolState, oracle_micro: u128, decided: Decision) -> (r: TickReport)
    ensures
        r.pool_usd@ == price_text(spot_price(pool.reserve_lo, pool.reserve_hi)),
        r.oracle_usd@ == dollar_text(oracle_micro),
        r.dev_bps@ == (match deviation_bps(
            pool.reserve_lo as int,
            pool.reserve_hi as int,
            oracle_micro as int,
        ) {
            Some(dev) => signed_text(dev as int),
            None => "-"@,
        }),
        match decided {
            Decision::Trade { unit_in, unit_out, amount_in } => {
                &&& r.lands_at_usd matches Some(text) && text@ == price_text(
                    match trade_result(*pool, unit_in, amount_in) {
                        Some((lo, hi)) => spot_price(lo, hi),
                        None => None,
                    },
                )
                &&& !r.warning
            },
            Decision::Hold(reason) => r.lands_at_usd is None && r.warning == reason.warns(),
        },
{
    let pool_usd = format_price(pool_price_micro_usd(pool.reserve_lo, pool.reserve_hi));
    let oracle_usd = format_micro_usd(oracle_micro);
    let dev_text: String = match dev_bps(pool.reserve_lo, pool.reserve_hi, oracle_micro) {
        Some(dev) => format_signed(dev),
        None => "-".to_owned(),
    };
    let (lands_at_usd, warning): (Option<String>, bool) = match decided {
        Decision::Trade { unit_in, amount_in, .. } => {
            let landed: Option<u128> = match apply_trade(pool, unit_in, amount_in) {
                Some((lo, hi)) => pool_price_micro_usd(lo, hi),
                None => None,
            };
            (Some(format_price(landed)), false)
        },
        Decision::Hold(reason) => (None, reason.is_warning()),
    };
    TickReport { pool_usd, oracle_usd, dev_bps: dev_text, lands_at_usd, warning }
}

/// The instances of a kind are the numbers of the modules of that kind, in order.
pub proof fn law_instances_are_those_of_the_kind(modules: Seq<(u16, String)>, kind: Seq<char>)
    ensures
        instances_of(modules, kind) == modules.filter(
            |module: (u16, String)| module.1@ == kind,
        ).map_values(|module: (u16, String)| module.0),
    decreases modules.len(),
{
    reveal(Seq::filter);
    let is_kind = |module: (u16, String)| module.1@ == kind;
    let number = |module: (u16, String)| module.0;
    if modules.len() > 0 {
        let front = modules.drop_last();
        law_instances_are_those_of_the_kind(front, kind);
        if is_kind(modules.last()) {
            assert(front.filter(is_kind).push(modules.last()).map_values(number)
                =~= front.filter(is_kind).map_values(number).push(modules.last().0));
        }
    } else {
        assert(modules.filter(is_kind).map_values(number) =~= Seq::<u16>::empty());
    }
}

/// The price of reserves in plain numbers: the whole micro-dollars that one coin
/// of a hundred million parts costs, where there is a low reserve.
pub proof fn law_spot_price_in_numbers(reserve_lo: u64, reserve_hi: u64)
    ensures
        match spot_price(reserve_lo, reserve_hi) {
            Some(micro) => reserve_lo > 0 && micro * reserve_lo <= reserve_hi * 100_000_000_000 < (
            micro + 1) * reserve_lo,
            None => reserve_lo == 0,
        },
{
    if reserve_lo > 0 {
        let scaled = reserve_hi * 100_000_000_000;
        let q = scaled / (reserve_lo as int);
        lemma_quotient(scaled, reserve_lo as int);
        assert((q + 1) * reserve_lo == q * reserve_lo + reserve_lo) by (nonlinear_arith);
        assert(0 <= q <= scaled) by (nonlinear_arith)
            requires
                q * reserve_lo <= scaled,
                (q + 1) * reserve_lo > scaled,
                reserve_lo > 0,
                scaled >= 0,
        ;
    }
}

/// A whole number's text is its digits, with a minus sign before them where it is
/// negative.
pub proof fn law_signed_text_reads_back(n: int)
    ensures
        n >= 0 ==> all_digits(signed_text(n)) && decimal_value(signed_text(n)) == n,
        n < 0 ==> {
            let digits = signed_text(n).skip(1);
            &&& signed_text(n)[0] == '-'
            &&& all_digits(digits) && decimal_value(digits) == -n
        },
{
    if n < 0 {
        lemma_decimal_reads_back((-n) as nat);
        assert(signed_text(n).skip(1) =~= decimal((-n) as nat));
    } else {
        lemma_decimal_reads_back(n as nat);
    }
}

/// A pool is worked on as it was reported: its reserves and its fee, over its own
/// units.
pub proof fn law_a_pool_is_worked_on_as_reported(summary: PoolSummary, pool: PoolId)
    ensures
        ({
            let state = state_of(summary, pool);
            &&& state.unit_lo == pool.low() && state.unit_hi == pool.high()
            &&& state.reserve_lo == summary.reserve_lo.msats
            &&& state.reserve_hi == summary.reserve_hi.msats
            &&& state.fee_per_mille == summary.fee_per_mille
        }),
{
}

/// A hold needs no attention exactly when the price is in the band, or so near to
/// the oracle's that not one unit fits between them.
pub proof fn law_a_hold_warns_unless_the_price_is_right(reason: HoldReason)
    ensures
        match reason {
            HoldReason::InBand { .. } => !reason.warns(),
            HoldReason::NoSizeAvailable { .. } => !reason.warns(),
            HoldReason::EmptyPool => reason.warns(),
            HoldReason::ZeroReserve { .. } => reason.warns(),
            HoldReason::Unpriceable => reason.warns(),
            HoldReason::BandBelowFee { .. } => reason.warns(),
            HoldReason::BelowMinSwapIn { .. } => reason.warns(),
            HoldReason::OutputRoundsToZero { .. } => reason.warns(),
        },
{
}

} // verus!
