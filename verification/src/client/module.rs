//! What the client does when it is asked to swap, to deposit or to withdraw.
//!
//! The client asks the guardians, submits transactions and waits; what it
//! submits, and what it makes of the answers, is decided here.

use vstd::prelude::*;
use vstd::string::*;

use crate::client::db::{ClientDb, LpPositionKey, LpPositionRecord, OperationId};
use crate::client::derivation::{
    accepts_every_tweak, derive_keypair, grind_tweak, is_own, ModuleSecret, CHILD_LP, CHILD_SWAP,
};
use crate::client::single_tx::{
    DepositCommon, DepositState, DepositStateMachine, WithdrawCommon, WithdrawState,
    WithdrawStateMachine,
};
use crate::client::slippage::{after_slippage, min_after_slippage, SlippageError};
use crate::client::swap::{ClientInput, SwapCommon, SwapState, SwapStateMachine};
use crate::config::AmmClientConfig;
use crate::crypto::PublicKey;
use crate::endpoints::{PoolSummary, QuoteResponse};
use crate::math::{burn_outcome, burn_shares, mint_outcome, mint_shares, CurveError};
use crate::pool_id::PoolId;
use crate::types::{AmmInput, AmmOutput};
use crate::units::{Amount, AmountUnit, Amounts};

verus! {

/// Why the client does not start an operation.
#[derive(Debug, Clone, Copy, PartialEq, Eq, Structural)]
pub enum ClientError {
    IdenticalUnits,
    UnknownUnit,
    Slippage(SlippageError),
    Curve(CurveError),
    AmountOverflow,
    UnknownPosition,
    ZeroShares,
    WrongTweak,
    NoSuchPool,
    NoTweak,
}

impl ClientError {
    /// The text shown for each error.
    pub open spec fn text(self) -> Seq<char> {
        match self {
            ClientError::IdenticalUnits => "unit_in and unit_out must differ"@,
            ClientError::UnknownUnit => "unit not in this federation's allowlist"@,
            ClientError::Slippage(_) => "max_slippage_bps must be <= 10_000"@,
            ClientError::Curve(e) => e.text(),
            ClientError::AmountOverflow => "amount overflow"@,
            ClientError::UnknownPosition =>
                "no locally known LP position for this pool/owner_pk"@,
            ClientError::ZeroShares => "shares must be non-zero"@,
            ClientError::WrongTweak =>
                "stored tweak does not derive to the requested owner_pk"@,
            ClientError::NoSuchPool => "no such pool"@,
            ClientError::NoTweak => "no tweak was found"@,
        }
    }

    /// The error as a human-readable line.
    pub fn message(self) -> (r: &'static str)
        ensures
            r@ == self.text(),
    {
        match self {
            ClientError::IdenticalUnits => "unit_in and unit_out must differ",
            ClientError::UnknownUnit => "unit not in this federation's allowlist",
            ClientError::Slippage(e) => e.message(),
            ClientError::Curve(e) => e.message(),
            ClientError::AmountOverflow => "amount overflow",
            ClientError::UnknownPosition => "no locally known LP position for this pool/owner_pk",
            ClientError::ZeroShares => "shares must be non-zero",
            ClientError::WrongTweak => "stored tweak does not derive to the requested owner_pk",
            ClientError::NoSuchPool => "no such pool",
            ClientError::NoTweak => "no tweak was found",
        }
    }
}

/// A swap that is ready to be submitted.
#[derive(Debug, Clone)]
pub struct SwapOrder {
    pub output: AmmOutput,
    /// What the transaction has to be funded with.
    pub amounts: Amounts,
    pub common: SwapCommon,
}

/// A deposit that is ready to be submitted.
#[derive(Debug, Clone)]
pub struct DepositOrder {
    pub output: AmmOutput,
    /// What the transaction has to be funded with.
    pub amounts: Amounts,
    pub common: DepositCommon,
}

/// A withdrawal that is ready to be submitted.
#[derive(Debug, Clone)]
pub struct WithdrawOrder {
    pub input: ClientInput,
    pub common: WithdrawCommon,
}

/// The state machines need nothing beyond what every operation has.
#[derive(Debug, Clone, Copy, PartialEq, Eq, Structural)]
pub struct AmmClientContext;

/// Sets the client module up.
#[derive(Debug, Clone, Copy, PartialEq, Eq, Structural)]
pub struct AmmClientInit;

/// Any operation in progress.
#[derive(Debug, Clone)]
pub enum AmmClientStateMachines {
    Swap(SwapStateMachine),
    Deposit(DepositStateMachine),
    Withdraw(WithdrawStateMachine),
}

impl AmmClientStateMachines {
    /// The operation that the machine belongs to.
    pub fn operation_id(&self) -> (r: OperationId)
        ensures
            r == (match *self {
                AmmClientStateMachines::Swap(sm) => sm.common.operation_id,
                AmmClientStateMachines::Deposit(sm) => sm.common.operation_id,
                AmmClientStateMachines::Withdraw(sm) => sm.common.operation_id,
            }),
    {
        match self {
            AmmClientStateMachines::Swap(sm) => sm.operation_id(),
            AmmClientStateMachines::Deposit(sm) => sm.operation_id(),
            AmmClientStateMachines::Withdraw(sm) => sm.operation_id(),
        }
    }
}

/// What the operation log says of an operation.
#[derive(Debug, Clone, Copy, PartialEq, Eq)]
pub enum AmmOperationMeta {
    Swap { unit_in: AmountUnit, unit_out: AmountUnit, amount_in: Amount },
    Deposit { pool: PoolId, amount_lo: Amount, amount_hi: Amount },
    Withdraw { pool: PoolId, owner_pk: PublicKey, shares: u64 },
    RecoveredClaim { pubkey: PublicKey, unit: AmountUnit },
}

/// The client of one federation's market.
#[derive(Debug)]
pub struct AmmClientModule {
    pub cfg: AmmClientConfig,
    pub root_secret: ModuleSecret,
}

/// The first report of a pool, if the guardians reported it.
pub open spec fn first_report(pools: Seq<PoolSummary>, pool: PoolId) -> Option<PoolSummary>
    decreases pools.len(),
{
    if pools.len() == 0 {
        None
    } else if pools[0].pool == pool {
        Some(pools[0])
    } else {
        first_report(pools.skip(1), pool)
    }
}

/// The pool as the guardians last reported it; an empty one where they reported
/// none.
pub open spec fn reported_pool(pools: Seq<PoolSummary>, pool: PoolId) -> (u64, u64, u64) {
    match first_report(pools, pool) {
        Some(summary) => (
            summary.reserve_lo.msats,
            summary.reserve_hi.msats,
            summary.total_shares,
        ),
        None => (0, 0, 0),
    }
}

/// Whether the guardians reported the pool.
pub open spec fn is_reported(pools: Seq<PoolSummary>, pool: PoolId) -> bool {
    exists|i: int| 0 <= i < pools.len() && (#[trigger] pools[i]).pool == pool
}

/// Whether row `i` of a report is the first of its pool.
pub open spec fn is_first_report(pools: Seq<PoolSummary>, pool: PoolId, i: int) -> bool {
    &&& 0 <= i < pools.len()
    &&& pools[i].pool == pool
    &&& forall|j: int| 0 <= j < i ==> (#[trigger] pools[j]).pool != pool
}

/// The first report of a pool.
pub fn find_pool(pools: &[PoolSummary], pool: PoolId) -> (r: Option<PoolSummary>)
    ensures
        r == first_report(pools@, pool),
        match r {
            Some(summary) => exists|i: int| #[trigger]
                is_first_report(pools@, pool, i) && pools@[i] == summary,
            None => !is_reported(pools@, pool),
        },
        r is Some <==> is_reported(pools@, pool),
{
    let mut i: usize = 0;
    assert(pools@.skip(0) =~= pools@);
    while i < pools.len()
        invariant
            i <= pools@.len(),
            forall|j: int| 0 <= j < i ==> (#[trigger] pools@[j]).pool != pool,
            first_report(pools@, pool) == first_report(pools@.skip(i as int), pool),
        decreases pools@.len() - i,
    {
        assert(pools@.skip(i as int)[0] == pools@[i as int]);
        assert(pools@.skip(i as int).skip(1) =~= pools@.skip(i as int + 1));
        if pools[i].pool == pool {
            assert(is_first_report(pools@, pool, i as int));
            return Some(pools[i]);
        }
        i = i + 1;
    }
    None
}

/// Whether a swap can be ordered, and the least it may pay.
pub open spec fn swap_terms(
    cfg: AmmClientConfig,
    unit_in: AmountUnit,
    unit_out: AmountUnit,
    max_slippage_bps: u64,
    quoted: Amount,
) -> Result<u64, ClientError> {
    if unit_in == unit_out {
        Err(ClientError::IdenticalUnits)
    } else if cfg.units.lookup(unit_in) is None || cfg.units.lookup(unit_out) is None {
        Err(ClientError::UnknownUnit)
    } else {
        match after_slippage(quoted.msats, max_slippage_bps) {
            Ok(least) => Ok(least),
            Err(e) => Err(ClientError::Slippage(e)),
        }
    }
}

/// Whether a deposit can be ordered, the shares that a preview promises, and the
/// least it may mint.
pub open spec fn deposit_terms(
    cfg: AmmClientConfig,
    pool: PoolId,
    amount_lo: Amount,
    amount_hi: Amount,
    max_slippage_bps: u64,
    pools: Seq<PoolSummary>,
) -> Result<(u64, u64), ClientError> {
    let (reserve_lo, reserve_hi, total_shares) = reported_pool(pools, pool);
    if cfg.units.lookup(pool.low()) is None || cfg.units.lookup(pool.high()) is None {
        Err(ClientError::UnknownUnit)
    } else {
        match mint_outcome(reserve_lo, reserve_hi, total_shares, amount_lo.msats, amount_hi.msats) {
            Err(e) => Err(ClientError::Curve(e)),
            Ok(preview) => match after_slippage(preview.to_owner, max_slippage_bps) {
                Ok(least) => Ok((preview.to_owner, least)),
                Err(e) => Err(ClientError::Slippage(e)),
            },
        }
    }
}

/// Whether a withdrawal can be ordered, and exactly what it has to pay.
pub open spec fn withdraw_terms(
    root: ModuleSecret,
    record: Option<LpPositionRecord>,
    pool: PoolId,
    owner_pk: PublicKey,
    shares: u64,
    pools: Seq<PoolSummary>,
) -> Result<(u64, u64), ClientError> {
    let (reserve_lo, reserve_hi, total_shares) = reported_pool(pools, pool);
    match record {
        None => Err(ClientError::UnknownPosition),
        Some(record) => if shares == 0 {
            Err(ClientError::ZeroShares)
        } else if root.public_key(CHILD_LP, record.tweak) != Some(owner_pk.bytes@) {
            Err(ClientError::WrongTweak)
        } else if !is_reported(pools, pool) {
            Err(ClientError::NoSuchPool)
        } else {
            match burn_outcome(reserve_lo, reserve_hi, total_shares, shares) {
                Err(e) => Err(ClientError::Curve(e)),
                Ok(preview) => Ok((preview.da, preview.db)),
            }
        },
    }
}

/// Whether an order is that of a swap which pays at least `least`, to the key of
/// `tweak`, with a proof that the key is the client's.
pub open spec fn is_swap_order(
    order: SwapOrder,
    root: ModuleSecret,
    operation_id: OperationId,
    unit_in: AmountUnit,
    unit_out: AmountUnit,
    amount_in: Amount,
    least: u64,
    tweak: [u8; 16],
) -> bool {
    let key = order.common.recipient_keypair;
    &&& order.output matches AmmOutput::SwapV0 {
        unit_in: u,
        unit_out: v,
        amount_in: a,
        min_out: m,
        recipient_pk: k,
        tweak: t,
        pop: p,
    } && u == unit_in && v == unit_out && a == amount_in && m.msats == least && k == key.public()
        && t == tweak
    &&& order.output.pop_valid()
    &&& Some(key.public().bytes@) == root.public_key(CHILD_SWAP, tweak)
    &&& order.common.operation_id == operation_id
    &&& order.common.unit_out == unit_out
    &&& order.amounts.wf()
    &&& forall|x: AmountUnit| #[trigger]
        order.amounts.of(x) == (if x == unit_in {
            amount_in.msats as int
        } else {
            0
        })
}

/// Whether an order is that of a deposit which mints at least `least` shares, to
/// the key of `tweak`, with a proof that the key is the client's.
pub open spec fn is_deposit_order(
    order: DepositOrder,
    root: ModuleSecret,
    operation_id: OperationId,
    pool: PoolId,
    amount_lo: Amount,
    amount_hi: Amount,
    expected: u64,
    least: u64,
    tweak: [u8; 16],
) -> bool {
    &&& order.output matches AmmOutput::DepositV0 {
        pool: q,
        amount_lo: a,
        amount_hi: b,
        min_shares: m,
        owner_pk: k,
        tweak: t,
        pop: p,
    } && q == pool && a == amount_lo && b == amount_hi && m == least && k == order.common.owner_pk
        && t == tweak
    &&& order.output.pop_valid()
    &&& Some(order.common.owner_pk.bytes@) == root.public_key(CHILD_LP, tweak)
    &&& order.common.operation_id == operation_id
    &&& order.common.pool == pool
    &&& order.common.tweak == tweak
    &&& order.common.expected_shares == expected
    &&& order.amounts.wf()
    &&& forall|x: AmountUnit| #[trigger]
        order.amounts.of(x) == (if x == pool.low() {
            amount_lo.msats as int
        } else if x == pool.high() {
            amount_hi.msats as int
        } else {
            0
        })
}

impl AmmClientModule {
    /// Orders a swap of `amount_in`, given a quote taken just now, to a key that
    /// nobody has used before. It may pay less than the quote by the tolerance.
    /// What it pays is found again from the secret alone.
    pub fn swap(
        &self,
        operation_id: OperationId,
        unit_in: AmountUnit,
        unit_out: AmountUnit,
        amount_in: Amount,
        max_slippage_bps: u64,
        quote: QuoteResponse,
    ) -> (r: Result<SwapOrder, ClientError>)
        requires
            self.cfg.wf(),
        ensures
            match swap_terms(self.cfg, unit_in, unit_out, max_slippage_bps, quote.amount_out) {
                Err(e) => r matches Err(error) && error == e,
                Ok(least) => match r {
                    Ok(order) => order.output matches AmmOutput::SwapV0 { tweak, .. }
                        && is_swap_order(
                        order,
                        self.root_secret,
                        operation_id,
                        unit_in,
                        unit_out,
                        amount_in,
                        least,
                        tweak,
                    ) && is_own(
                        self.root_secret,
                        CHILD_SWAP,
                        tweak,
                        order.common.recipient_keypair.public(),
                    ),
                    Err(error) => error == ClientError::NoTweak && !accepts_every_tweak(
                        self.root_secret.filter(),
                    ),
                },
            },
    {
        if let Err(e) = self.check_swap(unit_in, unit_out, max_slippage_bps, quote) {
            return Err(e);
        }
        match grind_tweak(&self.root_secret) {
            Some(tweak) => self.swap_with_tweak(
                operation_id,
                unit_in,
                unit_out,
                amount_in,
                max_slippage_bps,
                quote,
                tweak,
            ),
            None => Err(ClientError::NoTweak),
        }
    }

    /// The least that a swap may pay, where it can be ordered at all.
    pub fn check_swap(
        &self,
        unit_in: AmountUnit,
        unit_out: AmountUnit,
        max_slippage_bps: u64,
        quote: QuoteResponse,
    ) -> (r: Result<u64, ClientError>)
        requires
            self.cfg.wf(),
        ensures
            r == swap_terms(self.cfg, unit_in, unit_out, max_slippage_bps, quote.amount_out),
    {
        if unit_in == unit_out {
            return Err(ClientError::IdenticalUnits);
        }
        if self.cfg.units.get(&unit_in).is_none() || self.cfg.units.get(&unit_out).is_none() {
            return Err(ClientError::UnknownUnit);
        }
        match min_after_slippage(quote.amount_out.msats, max_slippage_bps) {
            Ok(least) => Ok(least),
            Err(e) => Err(ClientError::Slippage(e)),
        }
    }

    /// Orders a swap to the key of a tweak that was drawn for it.
    pub fn swap_with_tweak(
        &self,
        operation_id: OperationId,
        unit_in: AmountUnit,
        unit_out: AmountUnit,
        amount_in: Amount,
        max_slippage_bps: u64,
        quote: QuoteResponse,
        tweak: [u8; 16],
    ) -> (r: Result<SwapOrder, ClientError>)
        requires
            self.cfg.wf(),
        ensures
            match swap_terms(self.cfg, unit_in, unit_out, max_slippage_bps, quote.amount_out) {
                Err(e) => r matches Err(error) && error == e,
                Ok(least) => r matches Ok(order) && is_swap_order(
                    order,
                    self.root_secret,
                    operation_id,
                    unit_in,
                    unit_out,
                    amount_in,
                    least,
                    tweak,
                ),
            },
    {
        let least: u64 = match self.check_swap(unit_in, unit_out, max_slippage_bps, quote) {
            Ok(least) => least,
            Err(e) => return Err(e),
        };
        let recipient_keypair = derive_keypair(&self.root_secret, CHILD_SWAP, tweak);
        let output = AmmOutput::new_swap_v0(
            &recipient_keypair,
            unit_in,
            unit_out,
            amount_in,
            Amount { msats: least },
            tweak,
        );
        Ok(
            SwapOrder {
                output,
                amounts: Amounts::new_custom(unit_in, amount_in),
                common: SwapCommon { operation_id, unit_out, recipient_keypair },
            },
        )
    }

    /// Orders a deposit, given the pools as just reported, to a key that nobody
    /// has used before. It may mint less than the preview by the tolerance. The
    /// position is found again from the secret alone.
    pub fn deposit(
        &self,
        operation_id: OperationId,
        pool: PoolId,
        amount_lo: Amount,
        amount_hi: Amount,
        max_slippage_bps: u64,
        pools: &[PoolSummary],
    ) -> (r: Result<DepositOrder, ClientError>)
        requires
            self.cfg.wf(),
        ensures
            match deposit_terms(
                self.cfg,
                pool,
                amount_lo,
                amount_hi,
                max_slippage_bps,
                pools@,
            ) {
                Err(e) => r matches Err(error) && error == e,
                Ok((expected, least)) => match r {
                    Ok(order) => is_deposit_order(
                        order,
                        self.root_secret,
                        operation_id,
                        pool,
                        amount_lo,
                        amount_hi,
                        expected,
                        least,
                        order.common.tweak,
                    ) && is_own(
                        self.root_secret,
                        CHILD_LP,
                        order.common.tweak,
                        order.common.owner_pk,
                    ),
                    Err(error) => error == ClientError::NoTweak && !accepts_every_tweak(
                        self.root_secret.filter(),
                    ),
                },
            },
    {
        if let Err(e) = self.check_deposit(pool, amount_lo, amount_hi, max_slippage_bps, pools) {
            return Err(e);
        }
        match grind_tweak(&self.root_secret) {
            Some(tweak) => self.deposit_with_tweak(
                operation_id,
                pool,
                amount_lo,
                amount_hi,
                max_slippage_bps,
                pools,
                tweak,
            ),
            None => Err(ClientError::NoTweak),
        }
    }

    /// The shares that a preview promises for a deposit and the least it may
    /// mint, where it can be ordered at all.
    pub fn check_deposit(
        &self,
        pool: PoolId,
        amount_lo: Amount,
        amount_hi: Amount,
        max_slippage_bps: u64,
        pools: &[PoolSummary],
    ) -> (r: Result<(u64, u64), ClientError>)
        requires
            self.cfg.wf(),
        ensures
            r == deposit_terms(self.cfg, pool, amount_lo, amount_hi, max_slippage_bps, pools@),
    {
        if self.cfg.units.get(&pool.lo()).is_none() || self.cfg.units.get(&pool.hi()).is_none() {
            return Err(ClientError::UnknownUnit);
        }
        let (reserve_lo, reserve_hi, total_shares): (u64, u64, u64) = match find_pool(pools, pool) {
            Some(summary) => (
                summary.reserve_lo.msats,
                summary.reserve_hi.msats,
                summary.total_shares,
            ),
            None => (0, 0, 0),
        };
        let preview = match mint_shares(
            reserve_lo,
            reserve_hi,
            total_shares,
            amount_lo.msats,
            amount_hi.msats,
        ) {
            Ok(preview) => preview,
            Err(e) => return Err(ClientError::Curve(e)),
        };
        let least: u64 = match min_after_slippage(preview.to_owner, max_slippage_bps) {
            Ok(least) => least,
            Err(e) => return Err(ClientError::Slippage(e)),
        };
        Ok((preview.to_owner, least))
    }

    /// Orders a deposit to the key of a tweak that was drawn for it.
    pub fn deposit_with_tweak(
        &self,
        operation_id: OperationId,
        pool: PoolId,
        amount_lo: Amount,
        amount_hi: Amount,
        max_slippage_bps: u64,
        pools: &[PoolSummary],
        tweak: [u8; 16],
    ) -> (r: Result<DepositOrder, ClientError>)
        requires
            self.cfg.wf(),
        ensures
            match deposit_terms(
                self.cfg,
                pool,
                amount_lo,
                amount_hi,
                max_slippage_bps,
                pools@,
            ) {
                Err(e) => r matches Err(error) && error == e,
                Ok((expected, least)) => r matches Ok(order) && is_deposit_order(
                    order,
                    self.root_secret,
                    operation_id,
                    pool,
                    amount_lo,
                    amount_hi,
                    expected,
                    least,
                    tweak,
                ),
            },
    {
        let (expected_shares, least): (u64, u64) = match self.check_deposit(
            pool,
            amount_lo,
            amount_hi,
            max_slippage_bps,
            pools,
        ) {
            Ok(terms) => terms,
            Err(e) => return Err(e),
        };
        let owner_keypair = derive_keypair(&self.root_secret, CHILD_LP, tweak);
        let owner_pk = owner_keypair.public_key();
        let output = AmmOutput::new_deposit_v0(
            &owner_keypair,
            pool,
            amount_lo,
            amount_hi,
            least,
            tweak,
        );
        let amounts = match both_amounts(amount_lo, amount_hi, pool) {
            Some(amounts) => amounts,
            None => return Err(ClientError::AmountOverflow),
        };
        Ok(
            DepositOrder {
                output,
                amounts,
                common: DepositCommon {
                    operation_id,
                    pool,
                    owner_pk,
                    tweak,
                    expected_shares,
                },
            },
        )
    }

    /// Orders a withdrawal of `shares`, given the pools as just reported. It
    /// pays exactly what the preview says, or is refused.
    pub fn withdraw(
        &self,
        db: &ClientDb,
        operation_id: OperationId,
        pool: PoolId,
        owner_pk: PublicKey,
        shares: u64,
        pools: &[PoolSummary],
    ) -> (r: Result<WithdrawOrder, ClientError>)
        requires
            db.wf(),
        ensures
            match withdraw_terms(
                self.root_secret,
                db.positions.lookup(LpPositionKey { pool, owner_pk }),
                pool,
                owner_pk,
                shares,
                pools@,
            ) {
                Err(e) => r matches Err(error) && error == e,
                Ok((lo, hi)) => r matches Ok(order) && {
                    &&& order.input.input == (AmmInput::WithdrawV0 {
                        pool,
                        owner_pk,
                        shares,
                        min_lo: Amount { msats: lo },
                        min_hi: Amount { msats: hi },
                        max_lo: Amount { msats: lo },
                        max_hi: Amount { msats: hi },
                    })
                    &&& order.input.keys@.len() == 1
                    &&& order.input.keys@[0].public() == owner_pk
                    &&& order.input.amounts.wf()
                    &&& forall|x: AmountUnit| #[trigger]
                        order.input.amounts.of(x) == (if x == pool.low() {
                            lo as int
                        } else if x == pool.high() {
                            hi as int
                        } else {
                            0
                        })
                    &&& order.common == (WithdrawCommon { operation_id, pool, owner_pk, shares })
                },
            },
    {
        let record = match db.positions.get(&LpPositionKey { pool, owner_pk }) {
            Some(record) => record,
            None => return Err(ClientError::UnknownPosition),
        };
        if shares == 0 {
            return Err(ClientError::ZeroShares);
        }
        let owner_keypair = derive_keypair(&self.root_secret, CHILD_LP, record.tweak);
        let derived = owner_keypair.public_key();
        proof {
            if derived.bytes@ == owner_pk.bytes@ {
                assert(derived.bytes =~= owner_pk.bytes);
            }
        }
        if !derived.same(&owner_pk) {
            return Err(ClientError::WrongTweak);
        }
        let summary = match find_pool(pools, pool) {
            Some(summary) => summary,
            None => return Err(ClientError::NoSuchPool),
        };
        let preview = match burn_shares(
            summary.reserve_lo.msats,
            summary.reserve_hi.msats,
            summary.total_shares,
            shares,
        ) {
            Ok(preview) => preview,
            Err(e) => return Err(ClientError::Curve(e)),
        };
        let lo = Amount { msats: preview.da };
        let hi = Amount { msats: preview.db };
        let amounts = match both_amounts(lo, hi, pool) {
            Some(amounts) => amounts,
            None => return Err(ClientError::AmountOverflow),
        };
        Ok(
            WithdrawOrder {
                input: ClientInput {
                    input: AmmInput::WithdrawV0 {
                        pool,
                        owner_pk,
                        shares,
                        min_lo: lo,
                        min_hi: hi,
                        max_lo: lo,
                        max_hi: hi,
                    },
                    keys: vec![owner_keypair],
                    amounts,
                },
                common: WithdrawCommon { operation_id, pool, owner_pk, shares },
            },
        )
    }

    /// The positions that the client remembers, in key order.
    pub fn list_lp_positions(&self, db: &ClientDb) -> (r: Vec<(LpPositionKey, LpPositionRecord)>)
        requires
            db.wf(),
        ensures
            r@ == db.positions.rows(),
    {
        let mut out: Vec<(LpPositionKey, LpPositionRecord)> = Vec::new();
        let n: usize = db.positions.len();
        let mut i: usize = 0;
        while i < n
            invariant
                n == db.positions.rows().len(),
                i <= n,
                out@ == db.positions.rows().take(i as int),
            decreases n - i,
        {
            out.push(db.positions.row(i));
            i = i + 1;
            assert(out@ =~= db.positions.rows().take(i as int));
        }
        assert(db.positions.rows().take(n as int) =~= db.positions.rows());
        out
    }

    /// What an input costs: nothing, for the kinds that this version knows.
    pub fn input_fee(&self, input: &AmmInput) -> (r: Option<Amounts>)
        ensures
            match r {
                Some(fee) => !(input is Default) && fee.wf() && (forall|u: AmountUnit| #[trigger]
                    fee.of(u) == 0),
                None => input is Default,
            },
    {
        match input {
            AmmInput::ClaimBalanceV0 { .. } | AmmInput::WithdrawV0 { .. } => Some(Amounts::zero()),
            AmmInput::Default { .. } => None,
        }
    }

    /// What an output costs: nothing, for the kinds that this version knows.
    pub fn output_fee(&self, output: &AmmOutput) -> (r: Option<Amounts>)
        ensures
            match r {
                Some(fee) => !(output is Default) && fee.wf() && (forall|u: AmountUnit| #[trigger]
                    fee.of(u) == 0),
                None => output is Default,
            },
    {
        match output {
            AmmOutput::SwapV0 { .. } | AmmOutput::DepositV0 { .. } => Some(Amounts::zero()),
            AmmOutput::Default { .. } => None,
        }
    }

    /// What there is to tell whoever waits for a swap; nothing while it is in
    /// progress.
    pub fn await_swap(&self, machine: &SwapStateMachine) -> (r: Option<Result<(), String>>)
        ensures
            match machine.state {
                SwapState::Done => r matches Some(Ok(_)),
                SwapState::Tx1Rejected(error) => r matches Some(Err(e)) && e@ == "Tx1 rejected: "@
                    + error@,
                _ => r is None,
            },
    {
        match &machine.state {
            SwapState::Done => Some(Ok(())),
            SwapState::Tx1Rejected(error) => Some(Err(prefixed("Tx1 rejected: ", error))),
            SwapState::Tx1Submitted { .. }
            | SwapState::Tx1Accepted { .. }
            | SwapState::Tx2Failed { .. }
            | SwapState::Tx2Submitted { .. } => None,
        }
    }

    /// What there is to tell whoever waits for a deposit; nothing while it is in
    /// progress.
    pub fn await_deposit(&self, machine: &DepositStateMachine) -> (r: Option<Result<(), String>>)
        ensures
            match machine.state {
                DepositState::Accepted => r matches Some(Ok(_)),
                DepositState::Rejected(error) => r matches Some(Err(e)) && e@
                    == "deposit rejected: "@ + error@,
                _ => r is None,
            },
    {
        match &machine.state {
            DepositState::Accepted => Some(Ok(())),
            DepositState::Rejected(error) => Some(Err(prefixed("deposit rejected: ", error))),
            DepositState::Submitted { .. } => None,
        }
    }

    /// What there is to tell whoever waits for a withdrawal; nothing while it is
    /// in progress.
    pub fn await_withdraw(&self, machine: &WithdrawStateMachine) -> (r: Option<Result<(), String>>)
        ensures
            match machine.state {
                WithdrawState::Accepted => r matches Some(Ok(_)),
                WithdrawState::Rejected(error) => r matches Some(Err(e)) && e@
                    == "withdraw rejected: "@ + error@,
                _ => r is None,
            },
    {
        match &machine.state {
            WithdrawState::Accepted => Some(Ok(())),
            WithdrawState::Rejected(error) => Some(Err(prefixed("withdraw rejected: ", error))),
            WithdrawState::Submitted { .. } => None,
        }
    }
}

/// `text` behind a prefix.
fn prefixed(prefix: &str, text: &String) -> (r: String)
    ensures
        r@ == prefix@ + text@,
{
    let mut s: String = prefix.to_owned();
    s.append(text.as_str());
    s
}

/// The amounts of both sides of a pool.
fn both_amounts(lo: Amount, hi: Amount, pool: PoolId) -> (r: Option<Amounts>)
    ensures
        r matches Some(amounts) && amounts.wf() && (forall|x: AmountUnit| #[trigger]
            amounts.of(x) == (if x == pool.low() {
                lo.msats as int
            } else if x == pool.high() {
                hi.msats as int
            } else {
                0
            })),
{
    let amounts = match Amounts::zero().checked_add_unit(lo, pool.lo()) {
        Some(amounts) => amounts,
        None => return None,
    };
    amounts.checked_add_unit(hi, pool.hi())
}

} // verus!
