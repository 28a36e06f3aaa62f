//! How much worse than a preview an operation may settle.

use vstd::prelude::*;


verus! {

/// Why a tolerance is refused.
#[derive(Debug, Clone, Copy, PartialEq, Eq, Structural)]
pub enum SlippageError {
    OutOfRange,
}

impl SlippageError {
    /// The error as a human-readable line.
    pub fn message(self) -> (r: &'static str)
        ensures
            r@ == "max_slippage_bps must be <= 10_000"@,
    {
        "max_slippage_bps must be <= 10_000"
    }
}

/// What is left of `amount` less a tolerance in basis points, rounded down.
pub open spec fn after_slippage(amount: u64, max_slippage_bps: u64) -> Result<u64, SlippageError> {
    if max_slippage_bps > 10_000 {
        Err(SlippageError::OutOfRange)
    } else {
        Ok(((amount * (10_000 - max_slippage_bps)) / 10_000) as u64)
    }
}

/// The least that `amount` may turn into, given a tolerance in basis points.
pub fn min_after_slippage(amount: u64, max_slippage_bps: u64) -> (r: Result<u64, SlippageError>)
    ensures
        r == after_slippage(amount, max_slippage_bps),
        r matches Ok(least) ==> least <= amount && least == (amount * (10_000 - max_slippage_bps))
            / 10_000,
{
    if max_slippage_bps > 10_000 {
        return Err(SlippageError::OutOfRange);
    }
    let retained_bps: u128 = (10_000 - max_slippage_bps) as u128;
    proof {
        let a = amount as int;
        let k = retained_bps as int;
        assert(0 <= a * k <= a * 10_000) by (nonlinear_arith)
            requires
                0 <= a,
                0 <= k <= 10_000,
        ;
    }
    let least: u128 = amount as u128 * retained_bps / 10_000;
    Ok(least as u64)
}

/// No tolerance keeps the whole amount, a full one allows nothing, and more
/// tolerance never asks for more.
pub proof fn law_tolerance_is_monotone(amount: u64, small: u64, big: u64)
    requires
        small <= big <= 10_000,
    ensures
        after_slippage(amount, 0) == Ok::<u64, SlippageError>(amount),
        after_slippage(amount, 10_000) == Ok::<u64, SlippageError>(0),
        after_slippage(amount, big)->Ok_0 <= after_slippage(amount, small)->Ok_0 <= amount,
{
    let a = amount as int;
    let x = 10_000 - small;
    let y = 10_000 - big;
    assert(a * 0 == 0) by (nonlinear_arith);
    assert(0 <= a * y <= a * x <= a * 10_000) by (nonlinear_arith)
        requires
            0 <= a,
            0 <= y <= x <= 10_000,
    ;
}

/// The least in plain numbers: the largest whole amount that is no more than the
/// given one less the tolerance, which is at most the whole of it.
pub proof fn law_least_is_the_amount_less_the_tolerance(amount: u64, max_slippage_bps: u64)
    ensures
        match after_slippage(amount, max_slippage_bps) {
            Ok(least) => {
                &&& max_slippage_bps <= 10_000
                &&& least * 10_000 <= amount * (10_000 - max_slippage_bps) < (least + 1) * 10_000
            },
            Err(SlippageError::OutOfRange) => max_slippage_bps > 10_000,
        },
{
    if max_slippage_bps <= 10_000 {
        let kept = amount * (10_000 - max_slippage_bps);
        assert(0 <= kept <= amount * 10_000) by (nonlinear_arith)
            requires
                kept == amount * (10_000 - max_slippage_bps),
                0 <= max_slippage_bps <= 10_000,
        ;
    }
}

} // verus!
