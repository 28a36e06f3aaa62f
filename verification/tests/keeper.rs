use fedimint_amm::config::{AmmClientConfig, UnitParams};
use fedimint_amm::endpoints::PoolSummary;
use fedimint_amm::keeper::calendar::{days_from_civil, days_in_month, is_leap_year};
use fedimint_amm::keeper::options::{
    format_micro_usd, format_pool, parse_duration, parse_micro_usd, parse_pool_id, DollarError,
    DurationError,
};
use fedimint_amm::keeper::oracle::{
    check_jump, check_quote, parse_rfc3339_utc, FeedQuote, OracleError, OraclePrice, PriceMemory,
};
use fedimint_amm::keeper::policy::{Balances, Decision, HoldReason, KeeperConfig, MinSwapIn, PoolState};
use fedimint_amm::keeper::tick::{
    check_pool, format_signed, read_pool, report, resolve_instance, tick, unit_params, StartError,
};
use fedimint_amm::pool_id::{PoolId, PoolIdError};
use fedimint_amm::table::Table;
use fedimint_amm::units::{Amount, AmountUnit};

/// When the recorded feed entry was published, and at which price.
const FIXTURE_TIMESTAMP: i64 = 1_788_268_533;
const FIXTURE_MICRO: u128 = 77_785_250_000;

fn quote(timestamp: &str) -> Option<FeedQuote> {
    Some(FeedQuote { rate_micro: Ok(FIXTURE_MICRO), timestamp: timestamp.to_string() })
}

fn fixture() -> Option<FeedQuote> {
    quote("2026-09-01T13:15:33Z")
}

#[test]
fn the_pool_id_must_be_canonical() {
    let pool = parse_pool_id("0:1").expect("canonical");
    assert_eq!(pool.lo(), AmountUnit::bitcoin());
    assert_eq!(pool.hi(), AmountUnit::new_custom(1));
    assert_eq!(format_pool(pool), "0:1");

    for value in ["1:0", "1:1", "0", "0:", ":1", "0:1:2", "a:b", "-1:1"] {
        assert!(parse_pool_id(value).is_err(), "{value:?} was accepted");
    }
}

#[test]
fn durations_take_a_unit_suffix() {
    assert_eq!(parse_duration("60"), Ok(60));
    assert_eq!(parse_duration("60s"), Ok(60));
    assert_eq!(parse_duration("5m"), Ok(300));
    assert_eq!(parse_duration("2h"), Ok(7_200));
    assert_eq!(parse_duration("0s"), Ok(0));

    for value in ["", "s", "-1s", "1.5m", "1d", "60 s"] {
        assert!(parse_duration(value).is_err(), "{value:?} was accepted");
    }
    assert_eq!(parse_duration("+60s"), Ok(60));
    assert_eq!(parse_duration("60\u{20ac}"), Err(DurationError::NotADuration));
    assert_eq!(parse_duration("18446744073709551615h"), Err(DurationError::TooLong));
    assert_eq!(parse_duration("18446744073709551616"), Err(DurationError::NotADuration));
}

#[test]
fn dollars_parse_to_micro_usd_without_a_float() {
    assert_eq!(parse_micro_usd("1"), Ok(1_000_000));
    assert_eq!(parse_micro_usd("12.50"), Ok(12_500_000));
    assert_eq!(parse_micro_usd("12.5"), Ok(12_500_000));
    assert_eq!(parse_micro_usd("0.000001"), Ok(1));
    assert_eq!(parse_micro_usd(".5"), Ok(500_000));
    assert_eq!(parse_micro_usd("0"), Ok(0));

    for value in ["", ".", "-1", "1.2345678", "1e6", "1,5", "abc"] {
        assert!(parse_micro_usd(value).is_err(), "{value:?} was accepted");
    }
    assert_eq!(parse_micro_usd("1.2345678"), Err(DollarError::TooFine));
    assert_eq!(parse_micro_usd("1.2.3"), Err(DollarError::NotAnAmount));
    assert_eq!(
        parse_micro_usd("340282366920938463463374607431768211455"),
        Err(DollarError::TooLarge)
    );
    assert_eq!(
        parse_micro_usd("340282366920938463463374607431768211456"),
        Err(DollarError::NotAnAmount)
    );
    assert_eq!(parse_micro_usd("7."), Ok(7_000_000));
}

#[test]
fn micro_usd_formats_as_dollars() {
    assert_eq!(format_micro_usd(0), "0.000000");
    assert_eq!(format_micro_usd(12_500_000), "12.500000");
    assert_eq!(format_micro_usd(77_785_250_000), "77785.250000");
    for micro in [0, 1, 999_999, 1_000_000, 77_785_250_001, u128::MAX] {
        assert_eq!(parse_micro_usd(&format_micro_usd(micro)), Ok(micro));
    }
}

#[test]
fn signed_numbers_format_with_their_sign() {
    assert_eq!(format_signed(0), "0");
    assert_eq!(format_signed(-99), "-99");
    assert_eq!(format_signed(i128::MAX), i128::MAX.to_string());
    assert_eq!(format_signed(i128::MIN), i128::MIN.to_string());
}

#[test]
fn the_live_fixture_parses() {
    let price = check_quote(fixture(), FIXTURE_TIMESTAMP + 5, 300).expect("fixture parses");
    assert_eq!(price.micro_usd_per_btc, FIXTURE_MICRO);
    assert_eq!(price.timestamp_unix, FIXTURE_TIMESTAMP);
}

#[test]
fn a_stale_timestamp_is_refused() {
    let error = check_quote(fixture(), FIXTURE_TIMESTAMP + 301, 300).expect_err("301s > 300s");
    assert_eq!(error, OracleError::Stale { age_secs: 301, max_age_secs: 300 });
    check_quote(fixture(), FIXTURE_TIMESTAMP + 300, 300).expect("exactly at the limit is fresh");
}

#[test]
fn a_far_future_timestamp_is_refused() {
    let error = check_quote(fixture(), FIXTURE_TIMESTAMP - 301, 300).expect_err("301s in the future");
    assert_eq!(error, OracleError::Stale { age_secs: -301, max_age_secs: 300 });
    assert!(check_quote(fixture(), FIXTURE_TIMESTAMP - 300, 300).is_ok());
    assert!(check_quote(fixture(), 0, u64::MAX).is_ok());
}

#[test]
fn an_absent_btc_pair_is_refused() {
    assert_eq!(
        check_quote(None, FIXTURE_TIMESTAMP, 300),
        Err(OracleError::MissingPair)
    );
}

#[test]
fn a_refused_rate_comes_before_the_timestamp() {
    for error in [
        OracleError::BadRate("0".to_string()),
        OracleError::RateOutOfRange("1e30".to_string()),
    ] {
        let quote = FeedQuote { rate_micro: Err(error.clone()), timestamp: "nonsense".to_string() };
        assert_eq!(check_quote(Some(quote), FIXTURE_TIMESTAMP, 300), Err(error));
    }
}

#[test]
fn a_malformed_timestamp_is_refused() {
    for timestamp in [
        "",
        "2026-09-01",
        "2026-09-01 13:15:33Z",
        "2026-13-01T13:15:33Z",
        "2026-02-30T13:15:33Z",
        "2026-09-01T24:15:33Z",
        "2026-09-01T13:60:33Z",
        "2026-09-01T13:15:33+02:00",
        "2026-09-01T13:15:33",
        "2026-+9-01T13:15:33Z",
        "2026-09-01T13:15:33\u{20ac}",
        "2026-00-01T13:15:33Z",
        "2026-09-00T13:15:33Z",
        "2026-09-01T13:15:61Z",
        "2026-09-01T13:15:33ZZ",
        "2026-09-01T13:15:33.1",
    ] {
        assert_eq!(
            check_quote(quote(timestamp), FIXTURE_TIMESTAMP, 300),
            Err(OracleError::BadTimestamp(timestamp.to_string())),
            "timestamp {timestamp:?} was accepted"
        );
    }
}

#[test]
fn rfc3339_matches_known_epochs() {
    for (text, expected) in [
        ("1970-01-01T00:00:00Z", 0),
        ("1969-12-31T23:59:59Z", -1),
        ("1999-12-31T23:59:59Z", 946_684_799),
        ("2000-02-29T12:00:00Z", 951_825_600),
        ("2024-02-29T00:00:00Z", 1_709_164_800),
        ("2026-09-01T13:15:33Z", 1_788_268_533),
        ("2100-03-01T00:00:00Z", 4_107_542_400),
    ] {
        assert_eq!(parse_rfc3339_utc(text), Some(expected), "{text}");
    }
    assert_eq!(parse_rfc3339_utc("0000-01-01T00:00:00Z"), Some(-62_167_219_200));
    assert_eq!(parse_rfc3339_utc("9999-12-31T23:59:60Z"), Some(253_402_300_800));
}

#[test]
fn rfc3339_accepts_the_shapes_the_feed_could_publish() {
    let base = parse_rfc3339_utc("2026-09-01T13:15:33Z").expect("base parses");

    assert_eq!(parse_rfc3339_utc("2026-09-01t13:15:33z"), Some(base));
    assert_eq!(parse_rfc3339_utc("2026-09-01T13:15:33.000Z"), Some(base));
    assert_eq!(parse_rfc3339_utc("2026-09-01T13:15:33.123456Z"), Some(base));
    assert_eq!(parse_rfc3339_utc("2016-12-31T23:59:60Z"), Some(1_483_228_800));
    assert_eq!(parse_rfc3339_utc("2026-09-01T13:15:33.Z"), None);
}

#[test]
fn days_follow_the_calendar() {
    assert_eq!(days_from_civil(1970, 1, 1), 0);
    assert_eq!(days_from_civil(1969, 12, 31), -1);
    assert_eq!(days_from_civil(2000, 3, 1), days_from_civil(2000, 2, 29) + 1);
    assert_eq!(days_from_civil(1900, 3, 1), days_from_civil(1900, 2, 28) + 1);
    assert_eq!(days_from_civil(-1, 3, 1) + 366, days_from_civil(0, 3, 1));
    assert!(is_leap_year(2000) && is_leap_year(2024) && !is_leap_year(1900) && !is_leap_year(2026));
    assert!(is_leap_year(0) && is_leap_year(-4) && !is_leap_year(-100) && !is_leap_year(-1));
    assert_eq!(days_in_month(2024, 2), 29);
    assert_eq!(days_in_month(2026, 2), 28);
    assert_eq!(days_in_month(2026, 4), 30);
    assert_eq!(days_in_month(2026, 12), 31);
    assert_eq!(days_in_month(2026, 13), 0);
}

#[test]
fn a_jump_larger_than_the_limit_is_refused() {
    assert_eq!(check_jump(100_000, 110_000, 10), Ok(()));
    assert_eq!(check_jump(100_000, 90_000, 10), Ok(()));
    assert_eq!(
        check_jump(100_000, 110_001, 10),
        Err(OracleError::Jump { moved_pct: 10, max_pct: 10 })
    );
    assert_eq!(
        check_jump(100_000, 50_000, 10),
        Err(OracleError::Jump { moved_pct: 50, max_pct: 10 })
    );
    assert_eq!(
        check_jump(0, 1, 10),
        Err(OracleError::Jump { moved_pct: u128::MAX, max_pct: 10 })
    );
}

#[test]
fn the_jump_check_is_exact_at_feed_scale() {
    assert_eq!(check_jump(FIXTURE_MICRO, 85_000_000_000, 10), Ok(()));
    assert!(check_jump(FIXTURE_MICRO, 90_000_000_000, 10).is_err());
}

#[test]
fn only_an_accepted_price_is_remembered() {
    let mut memory = PriceMemory { last_rate_micro: None };
    let price = |micro| OraclePrice { micro_usd_per_btc: micro, timestamp_unix: 0 };
    assert_eq!(memory.accept(price(100_000), 10), Ok(100_000));
    assert!(memory.accept(price(120_000), 10).is_err());
    assert_eq!(memory.last_rate_micro, Some(100_000));
    assert_eq!(memory.accept(price(110_000), 10), Ok(110_000));
    assert_eq!(memory.accept(price(120_000), 10), Ok(120_000));
}

fn pool01() -> PoolId {
    PoolId::new(AmountUnit::new_custom(0), AmountUnit::new_custom(1)).unwrap()
}

fn client_config(units: &[(u64, u64)]) -> AmmClientConfig {
    let mut table = Table::new();
    for (unit, min) in units {
        table.insert(
            AmountUnit::new_custom(*unit),
            UnitParams { min_swap_in: Amount::from_msats(*min) },
        );
    }
    AmmClientConfig { units: table, default_fee_per_mille: 3, fee_overrides: Table::new() }
}

#[test]
fn exactly_one_market_is_resolved() {
    let module = |id: u16, kind: &str| (id, kind.to_string());
    assert_eq!(
        resolve_instance(&vec![module(0, "walletv2"), module(4, "amm"), module(5, "lnv2")]),
        Ok(4)
    );
    assert_eq!(
        resolve_instance(&vec![module(0, "walletv2")]),
        Err(StartError::NotOneInstance { instances: vec![] })
    );
    assert_eq!(
        resolve_instance(&vec![module(2, "amm"), module(7, "amm")]),
        Err(StartError::NotOneInstance { instances: vec![2, 7] })
    );
}

#[test]
fn the_keeper_starts_on_a_known_bitcoin_pool_only() {
    let cfg = client_config(&[(0, 1_000), (1, 10), (2, 5)]);
    assert_eq!(check_pool(&cfg, pool01()), Ok(MinSwapIn { lo: 1_000, hi: 10 }));
    assert_eq!(
        check_pool(&cfg, PoolId::new(AmountUnit::new_custom(1), AmountUnit::new_custom(2)).unwrap()),
        Err(StartError::NotABitcoinPool)
    );
    assert_eq!(
        check_pool(&client_config(&[(0, 1_000)]), pool01()),
        Err(StartError::UnknownUnit { unit: AmountUnit::new_custom(1) })
    );
    assert_eq!(
        check_pool(&client_config(&[(1, 1_000)]), pool01()),
        Err(StartError::UnknownUnit { unit: AmountUnit::new_custom(0) })
    );
    assert_eq!(unit_params(&cfg, AmountUnit::new_custom(2)), Some(5));
    assert_eq!(unit_params(&cfg, AmountUnit::new_custom(3)), None);
}

#[test]
fn the_pool_is_read_from_the_report() {
    let summary = PoolSummary {
        pool: pool01(),
        reserve_lo: Amount::from_msats(11),
        reserve_hi: Amount::from_msats(22),
        total_shares: 33,
        fee_per_mille: 4,
    };
    let state = read_pool(&[summary], pool01()).expect("reported");
    assert_eq!(
        state,
        PoolState {
            unit_lo: AmountUnit::new_custom(0),
            unit_hi: AmountUnit::new_custom(1),
            reserve_lo: 11,
            reserve_hi: 22,
            fee_per_mille: 4,
        }
    );
    assert_eq!(read_pool(&[], pool01()), None);
    // The first report of a pool counts, its fee too.
    let later = PoolSummary { fee_per_mille: 9, ..summary };
    assert_eq!(read_pool(&[summary, later], pool01()), Some(state));
}

fn state() -> PoolState {
    PoolState {
        unit_lo: AmountUnit::new_custom(0),
        unit_hi: AmountUnit::new_custom(1),
        reserve_lo: 1_000_000_000,
        reserve_hi: 1_000_000_000,
        fee_per_mille: 3,
    }
}

#[test]
fn a_tick_that_could_not_read_everything_decides_nothing() {
    let min = MinSwapIn { lo: 1_000, hi: 1_000 };
    let cfg = KeeperConfig {
        band_bps: 50,
        max_trade_micro_usd: 1_000_000,
        btc_floor_msat: 0,
        usdt_floor_micros: 0,
    };
    let balances = Balances { lo: u64::MAX / 2, hi: u64::MAX / 2 };
    let price = 99_000_000_000;
    assert_eq!(tick(None, Some(state()), Some(balances), min, &cfg), None);
    assert_eq!(tick(Some(price), None, Some(balances), min, &cfg), None);
    assert_eq!(tick(Some(price), Some(state()), None, min, &cfg), None);
    assert_eq!(
        tick(Some(price), Some(state()), Some(balances), min, &cfg),
        Some(Decision::Trade {
            unit_in: AmountUnit::new_custom(0),
            unit_out: AmountUnit::new_custom(1),
            amount_in: 1_010_101,
        })
    );
}

#[test]
fn a_report_says_where_the_prices_are() {
    let hold = Decision::Hold(HoldReason::InBand { dev_bps: 0 });
    let said = report(&state(), 100_000_000_000, hold);
    assert_eq!(said.pool_usd, "100000.000000");
    assert_eq!(said.oracle_usd, "100000.000000");
    assert_eq!(said.dev_bps, "0");
    assert_eq!(said.lands_at_usd, None);
    assert!(!said.warning);

    let trade = Decision::Trade {
        unit_in: AmountUnit::new_custom(0),
        unit_out: AmountUnit::new_custom(1),
        amount_in: 1_000_000,
    };
    let said = report(&state(), 99_000_000_000, trade);
    assert_eq!(said.dev_bps, "101");
    assert_eq!(said.lands_at_usd.as_deref(), Some("99800.598801"));

    let empty = PoolState { reserve_lo: 0, reserve_hi: 0, ..state() };
    let said = report(&empty, 99_000_000_000, Decision::Hold(HoldReason::EmptyPool));
    assert_eq!((said.pool_usd.as_str(), said.dev_bps.as_str()), ("-", "-"));
    assert!(said.warning);
}

#[test]
fn pool_id_errors_name_what_is_wrong() {
    assert_eq!(parse_pool_id("0"), Err(PoolIdError::MissingSeparator));
    assert_eq!(parse_pool_id("0:1:2"), Err(PoolIdError::TooManySeparators));
    assert_eq!(parse_pool_id(":1"), Err(PoolIdError::LoNotANumber));
    assert_eq!(parse_pool_id("0:"), Err(PoolIdError::HiNotANumber));
    assert_eq!(parse_pool_id("1:1"), Err(PoolIdError::NotCanonical));
}
