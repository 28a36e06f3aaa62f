//! Transaction items for people to read.

use vstd::prelude::*;
use vstd::string::*;

use crate::pool_id::PoolId;
use crate::text::{append_decimal, decimal};
use crate::types::{AmmConsensusItem, AmmInput, AmmOutput, AmmOutputOutcome};
use crate::units::{Amount, AmountUnit};

verus! {

/// A unit as it is shown.
pub open spec fn unit_text(unit: AmountUnit) -> Seq<char> {
    "AmountUnit("@ + decimal(unit.id as nat) + ")"@
}

/// An amount as it is shown.
pub open spec fn amount_text(amount: Amount) -> Seq<char> {
    decimal(amount.msats as nat) + " msat"@
}

/// A pool as it is shown.
pub open spec fn pool_text(pool: PoolId) -> Seq<char> {
    "PoolId { lo: "@ + unit_text(pool.low()) + ", hi: "@ + unit_text(pool.high()) + " }"@
}

/// Appends a unit as it is shown.
pub(crate) fn append_unit(s: &mut String, unit: AmountUnit)
    ensures
        final(s)@ == old(s)@ + unit_text(unit),
{
    s.append("AmountUnit(");
    append_decimal(s, unit.id as u128);
    s.append(")");
    assert(s@ =~= old(s)@ + unit_text(unit));
}

fn append_amount(s: &mut String, amount: Amount)
    ensures
        final(s)@ == old(s)@ + amount_text(amount),
{
    append_decimal(s, amount.msats as u128);
    s.append(" msat");
    assert(s@ =~= old(s)@ + amount_text(amount));
}

fn append_pool(s: &mut String, pool: PoolId)
    ensures
        final(s)@ == old(s)@ + pool_text(pool),
{
    s.append("PoolId { lo: ");
    append_unit(s, pool.lo());
    s.append(", hi: ");
    append_unit(s, pool.hi());
    s.append(" }");
    assert(s@ =~= old(s)@ + pool_text(pool));
}

impl AmmOutput {
    /// The output as it is shown.
    pub open spec fn text(self) -> Seq<char> {
        match self {
            AmmOutput::SwapV0 { unit_in, unit_out, amount_in, .. } => "AmmOutput::SwapV0 "@
                + amount_text(amount_in) + " "@ + unit_text(unit_in) + " -> "@ + unit_text(
                unit_out,
            ),
            AmmOutput::DepositV0 { pool, amount_lo, amount_hi, .. } => "AmmOutput::DepositV0 "@
                + pool_text(pool) + " "@ + amount_text(amount_lo) + "/"@ + amount_text(amount_hi),
            AmmOutput::Default { variant, bytes } => "AmmOutput::Default variant="@ + decimal(
                variant as nat,
            ) + " bytes_len="@ + decimal(bytes@.len()),
        }
    }

    /// The output as a human-readable line.
    pub fn describe(&self) -> (r: String)
        ensures
            r@ == self.text(),
    {
        match self {
            AmmOutput::SwapV0 { unit_in, unit_out, amount_in, .. } => {
                let mut s: String = "AmmOutput::SwapV0 ".to_owned();
                append_amount(&mut s, *amount_in);
                s.append(" ");
                append_unit(&mut s, *unit_in);
                s.append(" -> ");
                append_unit(&mut s, *unit_out);
                s
            },
            AmmOutput::DepositV0 { pool, amount_lo, amount_hi, .. } => {
                let mut s: String = "AmmOutput::DepositV0 ".to_owned();
                append_pool(&mut s, *pool);
                s.append(" ");
                append_amount(&mut s, *amount_lo);
                s.append("/");
                append_amount(&mut s, *amount_hi);
                s
            },
            AmmOutput::Default { variant, bytes } => {
                let mut s: String = "AmmOutput::Default variant=".to_owned();
                append_decimal(&mut s, *variant as u128);
                s.append(" bytes_len=");
                append_decimal(&mut s, bytes.len() as u128);
                s
            },
        }
    }
}

impl AmmInput {
    /// The input as it is shown.
    pub open spec fn text(self) -> Seq<char> {
        match self {
            AmmInput::ClaimBalanceV0 { unit, .. } => "AmmInput::ClaimBalanceV0 "@ + unit_text(unit),
            AmmInput::WithdrawV0 { pool, shares, .. } => "AmmInput::WithdrawV0 "@ + pool_text(pool)
                + " shares="@ + decimal(shares as nat),
            AmmInput::Default { variant, bytes } => "AmmInput::Default variant="@ + decimal(
                variant as nat,
            ) + " bytes_len="@ + decimal(bytes@.len()),
        }
    }

    /// The input as a human-readable line.
    pub fn describe(&self) -> (r: String)
        ensures
            r@ == self.text(),
    {
        match self {
            AmmInput::ClaimBalanceV0 { unit, .. } => {
                let mut s: String = "AmmInput::ClaimBalanceV0 ".to_owned();
                append_unit(&mut s, *unit);
                s
            },
            AmmInput::WithdrawV0 { pool, shares, .. } => {
                let mut s: String = "AmmInput::WithdrawV0 ".to_owned();
                append_pool(&mut s, *pool);
                s.append(" shares=");
                append_decimal(&mut s, *shares as u128);
                s
            },
            AmmInput::Default { variant, bytes } => {
                let mut s: String = "AmmInput::Default variant=".to_owned();
                append_decimal(&mut s, *variant as u128);
                s.append(" bytes_len=");
                append_decimal(&mut s, bytes.len() as u128);
                s
            },
        }
    }
}

impl AmmOutputOutcome {
    /// The outcome as a human-readable line.
    pub fn describe(&self) -> (r: &'static str)
        ensures
            r@ == "AmmOutputOutcome"@,
    {
        "AmmOutputOutcome"
    }
}

impl AmmConsensusItem {
    /// The item as a human-readable line, whatever its kind.
    pub fn describe(&self) -> (r: &'static str)
        ensures
            r@ == "AmmConsensusItem"@,
    {
        "AmmConsensusItem"
    }
}

} // verus!
