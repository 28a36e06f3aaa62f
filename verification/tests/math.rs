use fedimint_amm::math::{
    amount_out, burn_shares, isqrt, k_non_decreasing, mint_shares, price_impact_per_mille,
    CurveError, MAX_RESERVE, MINIMUM_LIQUIDITY,
};

#[test]
fn amount_out_matches_reference_vector() {
    assert_eq!(amount_out(1_000_000_000, 1_000_000, 10_000_000, 3), Ok(9_871));
}

#[test]
fn amount_out_rejects_degenerate_inputs() {
    assert_eq!(amount_out(1_000, 1_000, 0, 3), Err(CurveError::ZeroAmount));
    assert_eq!(amount_out(0, 1_000, 10, 3), Err(CurveError::ZeroReserve));
    assert_eq!(amount_out(1_000, 0, 10, 3), Err(CurveError::ZeroReserve));
    assert_eq!(amount_out(1_000, 1_000, 10, 1_000), Err(CurveError::InvalidFee));
    assert_eq!(
        amount_out(MAX_RESERVE + 1, 1_000, 10, 3),
        Err(CurveError::ReserveCapExceeded)
    );
    assert_eq!(
        amount_out(1_000, 1_000, MAX_RESERVE + 1, 3),
        Err(CurveError::ReserveCapExceeded)
    );
}

#[test]
fn amount_out_rejects_dust_that_rounds_to_zero() {
    assert_eq!(
        amount_out(1_000_000_000, 10, 1, 3),
        Err(CurveError::OutputRoundsToZero)
    );
}

#[test]
fn amount_out_never_drains_the_pool() {
    let out = amount_out(1_000, MAX_RESERVE, MAX_RESERVE, 3).unwrap();
    assert!(out < MAX_RESERVE);
}

#[test]
fn first_mint_burns_minimum_liquidity() {
    let outcome = mint_shares(0, 0, 0, 1_000_000, 1_000_000).unwrap();
    assert_eq!(outcome.new_total_shares, 1_000_000);
    assert_eq!(outcome.to_owner, 1_000_000 - MINIMUM_LIQUIDITY);
}

#[test]
fn first_mint_rejects_below_minimum_liquidity() {
    assert_eq!(
        mint_shares(0, 0, 0, 1_000, 1_000),
        Err(CurveError::InsufficientInitialLiquidity)
    );
}

#[test]
fn later_mint_takes_the_minimum_of_both_ratios() {
    let outcome = mint_shares(1_000, 1_000, 1_000, 100, 500).unwrap();
    assert_eq!(outcome.to_owner, 100);
    assert_eq!(outcome.new_total_shares, 1_100);
}

#[test]
fn burn_pays_out_pro_rata_and_floors() {
    let outcome = burn_shares(1_001, 1_001, 1_000, 500).unwrap();
    assert_eq!(outcome.da, 500);
    assert_eq!(outcome.db, 500);
    assert_eq!(outcome.new_total_shares, 500);
}

#[test]
fn burn_rejects_more_shares_than_exist() {
    assert_eq!(
        burn_shares(1_000, 1_000, 1_000, 1_001),
        Err(CurveError::InsufficientShares)
    );
    assert_eq!(burn_shares(1_000, 1_000, 1_000, 0), Err(CurveError::ZeroAmount));
}

#[test]
fn burn_rejects_a_position_too_small_to_pay_anything() {
    assert_eq!(
        burn_shares(10, 10, 1_000_000, 1),
        Err(CurveError::OutputRoundsToZero)
    );
}

#[test]
fn price_impact_matches_worked_example() {
    let out = amount_out(1_000_000_000, 1_000_000, 10_000_000, 3).unwrap();
    assert_eq!(out, 9_871);
    assert_eq!(
        price_impact_per_mille(1_000_000_000, 1_000_000, 10_000_000, out),
        13
    );
}

#[test]
fn price_impact_matches_a_hand_computed_exact_case() {
    let out = amount_out(3, 12, 1, 0).unwrap();
    assert_eq!(out, 3);
    assert_eq!(price_impact_per_mille(3, 12, 1, out), 250);
}

/// Two reserves whose product falls: nothing a swap can produce.
#[test]
fn k_non_decreasing_rejects_a_manufactured_decrease() {
    assert!(!k_non_decreasing(1_000, 1_000, 1_001, 998));
    assert!(k_non_decreasing(1_000, 1_000, 1_001, 1_000));
    assert!(k_non_decreasing(1_000, 1_000, 1_000, 1_000));
}

#[test]
fn k_never_decreases() {
    for r_in in [1u64, 7, 1_000, 1 << 20, MAX_RESERVE / 2] {
        for r_out in [1u64, 13, 999, 1 << 33, MAX_RESERVE] {
            for amt in [1u64, 2, 500, 1 << 18, MAX_RESERVE / 2] {
                for fee in [0u16, 3, 50, 999] {
                    if let Ok(out) = amount_out(r_in, r_out, amt, fee) {
                        assert!(out < r_out);
                        assert!(k_non_decreasing(r_in, r_out, r_in + amt, r_out - out));
                    }
                }
            }
        }
    }
}

#[test]
fn round_trip_always_loses() {
    for r_a in [1_000_000u64, 123_456_789, 1 << 40] {
        for r_b in [1_000_000u64, 987_654_321, 1 << 40] {
            for amt in [1_000u64, 77_777, 1 << 30] {
                let out = amount_out(r_a, r_b, amt, 3).unwrap_or(0);
                if out > 0 {
                    if let Ok(back) = amount_out(r_b - out, r_a + amt, out, 3) {
                        assert!(back < amt);
                    }
                }
            }
        }
    }
    // Without a fee a round trip may break even, and never gains.
    let out = amount_out(1_000, 1_000, 1_000, 0).unwrap();
    assert_eq!(out, 500);
    assert_eq!(amount_out(500, 2_000, 500, 0), Ok(1_000));
}

#[test]
fn deposit_withdraw_never_profits() {
    for r_lo in [1_000_000u64, 1 << 40] {
        for r_hi in [1_000_003u64, 1 << 39] {
            for shares in [1_000_000u64, 1 << 35] {
                for da in [1_000u64, 12_345, 1 << 30] {
                    for db in [1_000u64, 54_321, 1 << 30] {
                        if let Ok(m) = mint_shares(r_lo, r_hi, shares, da, db) {
                            if let Ok(b) =
                                burn_shares(r_lo + da, r_hi + db, m.new_total_shares, m.to_owner)
                            {
                                assert!(b.da <= da);
                                assert!(b.db <= db);
                            }
                        }
                    }
                }
            }
        }
    }
}

#[test]
fn no_overflow_within_caps() {
    for fee in [0u16, 1, 500, 999] {
        let out = amount_out(MAX_RESERVE, MAX_RESERVE, MAX_RESERVE, fee).unwrap();
        assert!(out < MAX_RESERVE);
        assert!(price_impact_per_mille(MAX_RESERVE, MAX_RESERVE, MAX_RESERVE, out) <= 1000);
    }
}

/// One more unit in can be reported as one per mille less impact, because the
/// output is rounded down; never by more once outputs are large.
#[test]
fn price_impact_is_monotonic_within_rounding() {
    let small = amount_out(110_847, 56_519, 111_847, 3).unwrap();
    let big = amount_out(110_847, 56_519, 111_848, 3).unwrap();
    assert_eq!((small, big), (28_343, 28_344));
    assert_eq!(price_impact_per_mille(110_847, 56_519, 111_847, small), 504);
    assert_eq!(price_impact_per_mille(110_847, 56_519, 111_848, big), 503);

    let larger = amount_out(110_847, 56_519, 150_000, 3).unwrap();
    assert!(price_impact_per_mille(110_847, 56_519, 150_000, larger) > 504);
}

#[test]
fn nothing_has_no_impact_and_higher_fees_never_pay_more() {
    assert_eq!(price_impact_per_mille(1_000, 1_000, 0, 0), 0);
    assert_eq!(price_impact_per_mille(1_000, 0, 10, 0), 0);
    let mut last = u64::MAX;
    for fee in 0..1000 {
        if let Ok(out) = amount_out(1_000_000, 777_777, 12_345, fee) {
            assert!(out <= last, "fee {fee}");
            last = out;
        }
    }
    assert_eq!(amount_out(1_000_000, 777_777, 12_345, 0), Ok(9_484));
    assert_eq!(amount_out(1_000_000, 777_777, 12_345, 500), Ok(4_771));
}

#[test]
fn the_integer_square_root_rounds_down() {
    assert_eq!(isqrt(0), 0);
    assert_eq!(isqrt(1), 1);
    assert_eq!(isqrt(15), 3);
    assert_eq!(isqrt(16), 4);
    assert_eq!(isqrt(u128::MAX), u64::MAX);
}

#[test]
fn mint_refuses_what_the_cap_or_the_pool_does_not_allow() {
    assert_eq!(mint_shares(0, 0, 0, 0, 5), Err(CurveError::ZeroAmount));
    assert_eq!(
        mint_shares(MAX_RESERVE, 5, 5, 1, 1),
        Err(CurveError::ReserveCapExceeded)
    );
    assert_eq!(mint_shares(0, 5, 5, 1, 1), Err(CurveError::ZeroReserve));
    assert_eq!(
        mint_shares(1_000_000, 1_000_000, 10, 1, 1),
        Err(CurveError::OutputRoundsToZero)
    );
    assert_eq!(
        mint_shares(1, 1, u64::MAX, MAX_RESERVE - 1, MAX_RESERVE - 1),
        Err(CurveError::Overflow)
    );
}

#[test]
fn curve_errors_say_what_they_mean() {
    assert_eq!(CurveError::ZeroAmount.message(), "amount must be non-zero");
    assert_eq!(CurveError::ZeroReserve.message(), "reserves must be non-zero");
    assert_eq!(
        CurveError::ReserveCapExceeded.message(),
        "value exceeds MAX_RESERVE"
    );
    assert_eq!(CurveError::InvalidFee.message(), "fee_per_mille must be < 1000");
    assert_eq!(
        CurveError::OutputRoundsToZero.message(),
        "output rounds to zero"
    );
    assert_eq!(
        CurveError::InsufficientLiquidity.message(),
        "pool has insufficient liquidity"
    );
    assert_eq!(
        CurveError::InsufficientInitialLiquidity.message(),
        "initial liquidity must exceed MINIMUM_LIQUIDITY"
    );
    assert_eq!(CurveError::InsufficientShares.message(), "not enough shares");
    assert_eq!(CurveError::Overflow.message(), "arithmetic overflow");
}
