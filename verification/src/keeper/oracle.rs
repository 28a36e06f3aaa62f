//! The external reference price: when it was published, and whether to trust it.

use vstd::prelude::*;
use vstd::string::*;

use crate::keeper::calendar::{
    days_before_month, days_from_civil, days_in_month, days_since_epoch, is_date,
};
use crate::math::lemma_quotient;
use crate::keeper::options::{lemma_padded_reads_back, pow10};
use crate::text::{all_digits, decimal_padded, decimal_value, digits_value, is_digit};

verus! {

/// Where the price is read from unless the operator says otherwise.
pub const DEFAULT_ORACLE_URL: &'static str = "https://price-feed.dev.fedibtc.com/latest";

/// The one pair that is read.
pub const BTC_USD: &'static str = "BTC/USD";

/// The largest price that is accepted, in micro-USD per bitcoin.
pub const MAX_MICRO_USD_PER_BTC: u128 = 1_000_000_000_000_000_000;

/// A reference price that has been checked.
#[derive(Debug, Clone, Copy, PartialEq, Eq, Structural)]
pub struct OraclePrice {
    pub micro_usd_per_btc: u128,
    /// When the feed published it, in Unix seconds.
    pub timestamp_unix: i64,
}

/// Why a reference price is refused.
#[derive(Debug, Clone, PartialEq, Eq)]
pub enum OracleError {
    /// The feed is not of the expected shape.
    Malformed(String),
    /// The feed does not have the pair.
    MissingPair,
    /// The rate is not a positive number.
    BadRate(String),
    /// The rate is above the ceiling.
    RateOutOfRange(String),
    /// The timestamp is not an instant in UTC.
    BadTimestamp(String),
    /// The price is too old, or too far in the future.
    Stale { age_secs: i64, max_age_secs: u64 },
    /// The price moved too far since the last one accepted.
    Jump { moved_pct: u128, max_pct: u64 },
}

/// The pair's entry in the feed: its rate, already in whole micro-USD or refused,
/// and its timestamp as published.
#[derive(Debug, PartialEq, Eq)]
pub struct FeedQuote {
    pub rate_micro: Result<u128, OracleError>,
    pub timestamp: String,
}

/// How far apart two prices are.
pub open spec fn distance(a: u128, b: u128) -> int {
    if a >= b {
        a - b
    } else {
        b - a
    }
}

/// `a`, or the largest `u128` where it is beyond.
pub open spec fn saturate_u128(a: int) -> int {
    if a > u128::MAX {
        u128::MAX as int
    } else {
        a
    }
}

/// What is wrong with a move from one price to another: it exceeds the limit, in
/// whole percent of the first.
pub open spec fn jump_error(prev_micro: u128, new_micro: u128, max_pct: u64) -> Option<
    (u128, u64),
> {
    let moved = saturate_u128(distance(prev_micro, new_micro) * 100);
    if moved > saturate_u128(prev_micro * max_pct) {
        Some(
            (
                if prev_micro == 0 {
                    u128::MAX
                } else {
                    (moved / (prev_micro as int)) as u128
                },
                max_pct,
            ),
        )
    } else {
        None
    }
}

/// Refuses a price that moved more than `max_pct` percent against the last one
/// accepted, in either direction.
pub fn check_jump(prev_micro: u128, new_micro: u128, max_pct: u64) -> (r: Result<(), OracleError>)
    ensures
        r == (match jump_error(prev_micro, new_micro, max_pct) {
            Some((moved_pct, max_pct)) => Err(OracleError::Jump { moved_pct, max_pct }),
            None => Ok::<(), OracleError>(()),
        }),
{
    let delta: u128 = if prev_micro >= new_micro {
        prev_micro - new_micro
    } else {
        new_micro - prev_micro
    };
    let moved: u128 = match delta.checked_mul(100) {
        Some(product) => product,
        None => u128::MAX,
    };
    let bound: u128 = match prev_micro.checked_mul(max_pct as u128) {
        Some(product) => product,
        None => u128::MAX,
    };
    if moved > bound {
        let moved_pct: u128 = if prev_micro == 0 {
            u128::MAX
        } else {
            proof {
                lemma_quotient(moved as int, prev_micro as int);
            }
            moved / prev_micro
        };
        return Err(OracleError::Jump { moved_pct, max_pct });
    }
    Ok(())
}

/// The character that has to stand at each fixed place, where it is not a digit.
pub open spec fn well_placed(i: int, c: char) -> bool {
    if i == 4 || i == 7 {
        c == '-'
    } else if i == 10 {
        c == 'T' || c == 't'
    } else if i == 13 || i == 16 {
        c == ':'
    } else {
        is_digit(c)
    }
}

/// Whether a text starts as a date and a time of day do.
pub open spec fn fixed_shape(s: Seq<char>) -> bool {
    s.len() >= 19 && forall|i: int| 0 <= i < 19 ==> well_placed(i, #[trigger] s[i])
}

/// Whether a text is the zone letter.
pub open spec fn is_zone(s: Seq<char>) -> bool {
    s.len() == 1 && (s[0] == 'Z' || s[0] == 'z')
}

/// Whether a text may stand behind the seconds: the zone letter, with a point
/// and at least one digit before it or without.
pub open spec fn is_tail(s: Seq<char>) -> bool {
    is_zone(s) || (s.len() >= 3 && s[0] == '.' && all_digits(s.subrange(1, s.len() - 1))
        && is_zone(s.skip(s.len() - 1)))
}

/// The number that a field of a text stands for.
pub open spec fn field(s: Seq<char>, from: int, to: int) -> int {
    decimal_value(s.subrange(from, to))
}

/// The instant that a text stands for, in Unix seconds. A leap second counts as
/// the second after it; fractions of a second are dropped.
pub open spec fn instant(s: Seq<char>) -> Option<int> {
    if !fixed_shape(s) {
        None
    } else {
        let year = field(s, 0, 4);
        let month = field(s, 5, 7);
        let day = field(s, 8, 10);
        let hour = field(s, 11, 13);
        let minute = field(s, 14, 16);
        let second = field(s, 17, 19);
        if is_date(year, month, day) && hour <= 23 && minute <= 59 && second <= 60 && is_tail(
            s.skip(19),
        ) {
            Some(
                days_since_epoch(year, month, day) * 86_400 + hour * 3_600 + minute * 60 + second,
            )
        } else {
            None
        }
    }
}

/// A text that stands for an instant is plain ASCII.
proof fn lemma_instant_is_ascii(s: Seq<char>)
    requires
        fixed_shape(s),
        is_tail(s.skip(19)),
    ensures
        vstd::utf8::is_ascii_chars(s),
{
    let tail = s.skip(19);
    assert forall|i: int| 0 <= i < s.len() implies '\0' <= #[trigger] s[i] <= '\u{7f}' by {
        if i < 19 {
            assert(well_placed(i, s[i]));
        } else {
            assert(tail[i - 19] == s[i]);
            if !is_zone(tail) {
                if i == s.len() - 1 {
                    assert(tail.skip(tail.len() - 1)[0] == s[i]);
                } else if i > 19 {
                    assert(tail.subrange(1, tail.len() - 1)[i - 20] == s[i]);
                    assert(is_digit(tail.subrange(1, tail.len() - 1)[i - 20]));
                }
            }
        }
    }
}

/// Reads a field of digits.
fn read_field(s: &str, from: usize, to: usize) -> (r: i64)
    requires
        s.is_ascii(),
        from <= to <= s@.len(),
        to - from <= 4,
        all_digits(s@.subrange(from as int, to as int)),
    ensures
        r == field(s@, from as int, to as int),
        0 <= r <= 9999,
        to - from <= 2 ==> r <= 99,
{
    proof {
        lemma_short_field(s@.subrange(from as int, to as int));
    }
    match digits_value(s, from, to) {
        Some(value) => value as i64,
        None => 0,
    }
}

/// A row of at most four digits is below ten thousand, one of at most two below
/// a hundred.
proof fn lemma_short_field(s: Seq<char>)
    requires
        s.len() <= 4,
        all_digits(s),
    ensures
        0 <= decimal_value(s) <= 9999,
        s.len() <= 2 ==> decimal_value(s) <= 99,
{
    reveal_with_fuel(decimal_value, 6);
    if s.len() > 0 {
        assert(is_digit(s[s.len() - 1]));
        let a = s.drop_last();
        if a.len() > 0 {
            assert(a[a.len() - 1] == s[s.len() - 2]);
            assert(is_digit(s[s.len() - 2]));
            let b = a.drop_last();
            if b.len() > 0 {
                assert(b[b.len() - 1] == s[s.len() - 3]);
                assert(is_digit(s[s.len() - 3]));
                let c = b.drop_last();
                if c.len() > 0 {
                    assert(c[c.len() - 1] == s[s.len() - 4]);
                    assert(is_digit(s[s.len() - 4]));
                    assert(c.drop_last().len() == 0);
                }
            }
        }
    }
}

/// Whether the text starts as a date and a time of day do.
fn has_fixed_shape(s: &str) -> (r: bool)
    requires
        s.is_ascii(),
    ensures
        r == fixed_shape(s@),
{
    if s.unicode_len() < 19 {
        return false;
    }
    let mut i: usize = 0;
    while i < 19
        invariant
            s.is_ascii(),
            s@.len() >= 19,
            i <= 19,
            forall|j: int| 0 <= j < i ==> well_placed(j, #[trigger] s@[j]),
        decreases 19 - i,
    {
        let c: char = s.get_char(i);
        let good = if i == 4 || i == 7 {
            c == '-'
        } else if i == 10 {
            c == 'T' || c == 't'
        } else if i == 13 || i == 16 {
            c == ':'
        } else {
            '0' <= c && c <= '9'
        };
        assert(good == well_placed(i as int, s@[i as int]));
        if !good {
            return false;
        }
        i = i + 1;
    }
    true
}

/// Whether the text behind `from` may stand behind the seconds.
fn has_tail(s: &str, from: usize) -> (r: bool)
    requires
        s.is_ascii(),
        from <= s@.len(),
    ensures
        r == is_tail(s@.skip(from as int)),
{
    let len: usize = s.unicode_len();
    let ghost tail = s@.skip(from as int);
    if from == len {
        return false;
    }
    let last: char = s.get_char(len - 1);
    assert(tail[tail.len() - 1] == last);
    assert(tail.skip(tail.len() - 1)[0] == last);
    if last != 'Z' && last != 'z' {
        return false;
    }
    if len - from == 1 {
        return true;
    }
    if len - from < 3 {
        return false;
    }
    assert(tail[0] == s@[from as int]);
    if s.get_char(from) != '.' {
        return false;
    }
    let ghost digits = tail.subrange(1, tail.len() - 1);
    let mut i: usize = from + 1;
    while i < len - 1
        invariant
            s.is_ascii(),
            len == s@.len(),
            from + 3 <= len,
            from + 1 <= i <= len - 1,
            tail == s@.skip(from as int),
            digits == tail.subrange(1, tail.len() - 1),
            forall|j: int| 0 <= j < i - from - 1 ==> is_digit(#[trigger] digits[j]),
        decreases len - i,
    {
        let c: char = s.get_char(i);
        assert(digits[i - from - 1] == s@[i as int]);
        if !('0' <= c && c <= '9') {
            assert(!is_digit(digits[i - from - 1]));
            return false;
        }
        i = i + 1;
    }
    true
}

/// The instant that an RFC 3339 text in UTC stands for, in Unix seconds.
///
/// Every separator, width and range has to be exactly right, and the only zone
/// is `Z`: an offset is refused, never read as UTC.
pub fn parse_rfc3339_utc(s: &str) -> (r: Option<i64>)
    ensures
        match r {
            Some(t) => instant(s@) == Some(t as int) && -62_167_219_200 <= t <= 253_402_300_800,
            None => instant(s@) is None,
        },
{
    if !s.is_ascii() {
        proof {
            if instant(s@) is Some {
                lemma_instant_is_ascii(s@);
            }
        }
        return None;
    }
    if !has_fixed_shape(s) {
        return None;
    }
    proof {
        lemma_field_digits(s@, 0, 4);
        lemma_field_digits(s@, 5, 7);
        lemma_field_digits(s@, 8, 10);
        lemma_field_digits(s@, 11, 13);
        lemma_field_digits(s@, 14, 16);
        lemma_field_digits(s@, 17, 19);
    }
    let year: i64 = read_field(s, 0, 4);
    let month: i64 = read_field(s, 5, 7);
    let day: i64 = read_field(s, 8, 10);
    let hour: i64 = read_field(s, 11, 13);
    let minute: i64 = read_field(s, 14, 16);
    let second: i64 = read_field(s, 17, 19);
    if month < 1 || month > 12 || day < 1 || day > days_in_month(year, month) {
        return None;
    }
    if hour > 23 || minute > 59 || second > 60 {
        return None;
    }
    if !has_tail(s, 19) {
        return None;
    }
    proof {
        lemma_days_in_range(year as int, month as int, day as int);
    }
    let days: i64 = days_from_civil(year, month, day);
    Some(days * 86_400 + hour * 3_600 + minute * 60 + second)
}

/// The fields of a well-shaped text are digits.
proof fn lemma_field_digits(s: Seq<char>, from: int, to: int)
    requires
        fixed_shape(s),
        0 <= from <= to <= 19,
        to <= 4 || (5 <= from && to <= 7) || (8 <= from && to <= 10) || (11 <= from && to <= 13)
            || (14 <= from && to <= 16) || 17 <= from,
    ensures
        all_digits(s.subrange(from, to)),
{
    let sub = s.subrange(from, to);
    assert forall|i: int| 0 <= i < sub.len() implies is_digit(#[trigger] sub[i]) by {
        assert(sub[i] == s[from + i]);
        assert(well_placed(from + i, s[from + i]));
    }
}

/// Dates of four-digit years lie within these days.
proof fn lemma_days_in_range(year: int, month: int, day: int)
    requires
        0 <= year <= 9999,
        is_date(year, month, day),
    ensures
        -719_528 <= days_since_epoch(year, month, day) <= 2_932_896,
{
    reveal_with_fuel(days_before_month, 13);
}

/// The age of a price, and what is wrong with it: it lies further from now than
/// the limit, on either side.
pub open spec fn is_stale(now_unix: i64, timestamp_unix: i64, max_age_secs: u64) -> bool {
    let age = now_unix - timestamp_unix;
    let max: int = if max_age_secs > i64::MAX {
        i64::MAX as int
    } else {
        max_age_secs as int
    };
    age > max || age < -max
}

/// Checks the pair's entry in the feed, as far as it has one: the rate, then the
/// timestamp, then how far that is from now.
pub fn check_quote(quote: Option<FeedQuote>, now_unix: i64, max_age_secs: u64) -> (r: Result<
    OraclePrice,
    OracleError,
>)
    requires
        quote matches Some(q) ==> (q.rate_micro is Ok ==> (instant(q.timestamp@) matches Some(t)
            ==> i64::MIN <= now_unix - t <= i64::MAX)),
    ensures
        match quote {
            None => r == Err::<OraclePrice, OracleError>(OracleError::MissingPair),
            Some(q) => match (q.rate_micro, instant(q.timestamp@)) {
                (Err(e), _) => r == Err::<OraclePrice, OracleError>(e),
                (Ok(_), None) => r == Err::<OraclePrice, OracleError>(
                    OracleError::BadTimestamp(q.timestamp),
                ),
                (Ok(micro), Some(t)) => {
                    let timestamp_unix = t as i64;
                    if is_stale(now_unix, timestamp_unix, max_age_secs) {
                        r == Err::<OraclePrice, OracleError>(
                            OracleError::Stale {
                                age_secs: (now_unix - timestamp_unix) as i64,
                                max_age_secs,
                            },
                        )
                    } else {
                        r == Ok::<OraclePrice, OracleError>(
                            OraclePrice { micro_usd_per_btc: micro, timestamp_unix },
                        )
                    }
                },
            },
        },
{
    let quote = match quote {
        Some(quote) => quote,
        None => return Err(OracleError::MissingPair),
    };
    let micro_usd_per_btc: u128 = match quote.rate_micro {
        Ok(micro) => micro,
        Err(e) => return Err(e),
    };
    let timestamp_unix: i64 = match parse_rfc3339_utc(quote.timestamp.as_str()) {
        Some(t) => t,
        None => return Err(OracleError::BadTimestamp(quote.timestamp)),
    };
    let age_secs: i64 = now_unix - timestamp_unix;
    let max: i64 = if max_age_secs > i64::MAX as u64 {
        i64::MAX
    } else {
        max_age_secs as i64
    };
    if age_secs > max || age_secs < -max {
        return Err(OracleError::Stale { age_secs, max_age_secs });
    }
    Ok(OraclePrice { micro_usd_per_btc, timestamp_unix })
}

/// What the keeper remembers of earlier prices.
#[derive(Debug, Clone, Copy, PartialEq, Eq, Structural)]
pub struct PriceMemory {
    /// The last price that passed every check.
    pub last_rate_micro: Option<u128>,
}

impl PriceMemory {
    /// Takes a checked price in, unless it moved too far from the last one taken
    /// in. The first price has none to be held against. A refused price is not
    /// remembered.
    pub fn accept(&mut self, price: OraclePrice, max_pct: u64) -> (r: Result<u128, OracleError>)
        ensures
            ({
                let refused = match old(self).last_rate_micro {
                    Some(last) => jump_error(last, price.micro_usd_per_btc, max_pct),
                    None => None,
                };
                match refused {
                    Some((moved_pct, max_pct)) => r == Err::<u128, OracleError>(
                        OracleError::Jump { moved_pct, max_pct },
                    ) && *final(self) == *old(self),
                    None => r == Ok::<u128, OracleError>(price.micro_usd_per_btc) && final(
                        self
                    ).last_rate_micro == Some(price.micro_usd_per_btc),
                }
            }),
    {
        if let Some(last) = self.last_rate_micro {
            match check_jump(last, price.micro_usd_per_btc, max_pct) {
                Ok(()) => {},
                Err(e) => return Err(e),
            }
        }
        self.last_rate_micro = Some(price.micro_usd_per_btc);
        Ok(price.micro_usd_per_btc)
    }
}

/// Where nothing saturates, a move is refused exactly when it exceeds the limit.
pub proof fn law_jump_limit_is_exact(prev_micro: u128, new_micro: u128, max_pct: u64)
    requires
        distance(prev_micro, new_micro) * 100 <= u128::MAX,
        prev_micro * max_pct <= u128::MAX,
    ensures
        jump_error(prev_micro, new_micro, max_pct) is Some <==> distance(prev_micro, new_micro)
            * 100 > prev_micro * max_pct,
{
}

/// A price stamped far in the future is refused as one far in the past is.
pub proof fn law_staleness_is_symmetric(now_unix: i64, offset: int, max_age_secs: u64)
    requires
        i64::MIN <= now_unix + offset <= i64::MAX,
        i64::MIN <= now_unix - offset <= i64::MAX,
    ensures
        is_stale(now_unix, (now_unix + offset) as i64, max_age_secs) == is_stale(
            now_unix,
            (now_unix - offset) as i64,
            max_age_secs,
        ),
{
}

/// A jump in plain numbers: a move of more than the allowed percentage of the
/// last price is refused, and the percentage it is refused with is the whole
/// percent that the price moved. Products are taken no further than a number of
/// their kind goes.
pub proof fn law_jump_in_numbers(prev_micro: u128, new_micro: u128, max_pct: u64)
    ensures
        ({
            let top = u128::MAX as int;
            let up = (new_micro - prev_micro) * 100;
            let down = (prev_micro - new_micro) * 100;
            let allowed = prev_micro * max_pct;
            let moved = if up > down {
                up
            } else {
                down
            };
            match jump_error(prev_micro, new_micro, max_pct) {
                None => up <= allowed && down <= allowed || allowed >= top,
                Some((pct, limit)) => {
                    &&& allowed < top
                    &&& up > allowed || down > allowed
                    &&& limit == max_pct
                    &&& prev_micro == 0 ==> pct == u128::MAX
                    &&& prev_micro > 0 && moved <= top ==> pct * prev_micro <= moved < (pct + 1)
                        * prev_micro
                },
            }
        }),
{
    let moved = saturate_u128(distance(prev_micro, new_micro) * 100);
    if prev_micro > 0 {
        lemma_quotient(moved, prev_micro as int);
        let q = moved / (prev_micro as int);
        assert((q + 1) * prev_micro == q * prev_micro + prev_micro) by (nonlinear_arith);
    }
}

/// Staleness in plain numbers: a price is refused exactly when it is stamped more
/// than the limit before now or more than the limit behind it. No limit is longer
/// than a signed number of seconds goes.
pub proof fn law_staleness_in_numbers(now_unix: i64, timestamp_unix: i64, max_age_secs: u64)
    ensures
        ({
            let limit: int = if max_age_secs < 0x8000_0000_0000_0000 {
                max_age_secs as int
            } else {
                0x7fff_ffff_ffff_ffff
            };
            is_stale(now_unix, timestamp_unix, max_age_secs) <==> timestamp_unix + limit < now_unix
                || timestamp_unix > now_unix + limit
        }),
{
}

/// A date and a time of day, written out in full with the zone letter.
pub open spec fn written(
    year: nat,
    month: nat,
    day: nat,
    hour: nat,
    minute: nat,
    second: nat,
) -> Seq<char> {
    decimal_padded(year, 4) + seq!['-'] + decimal_padded(month, 2) + seq!['-'] + decimal_padded(
        day,
        2,
    ) + seq!['T'] + decimal_padded(hour, 2) + seq![':'] + decimal_padded(minute, 2) + seq![':']
        + decimal_padded(second, 2) + seq!['Z']
}

/// A date and a time of day that is written out is read as that second of that
/// day; one that does not exist is not read at all.
pub proof fn law_a_written_instant_reads_back(
    year: nat,
    month: nat,
    day: nat,
    hour: nat,
    minute: nat,
    second: nat,
)
    requires
        year < 10_000,
        month < 100,
        day < 100,
        hour < 100,
        minute < 100,
        second < 100,
    ensures
        instant(written(year, month, day, hour, minute, second)) == (if is_date(
            year as int,
            month as int,
            day as int,
        ) && hour < 24 && minute < 60 && second <= 60 {
            Some(
                days_since_epoch(year as int, month as int, day as int) * 86_400 + hour * 3_600
                    + minute * 60 + second,
            )
        } else {
            None::<int>
        }),
{
    let s = written(year, month, day, hour, minute, second);
    lemma_padded(year, 4);
    lemma_padded(month, 2);
    lemma_padded(day, 2);
    lemma_padded(hour, 2);
    lemma_padded(minute, 2);
    lemma_padded(second, 2);
    assert(s.len() == 20);
    assert(s.subrange(0, 4) =~= decimal_padded(year, 4));
    assert(s.subrange(5, 7) =~= decimal_padded(month, 2));
    assert(s.subrange(8, 10) =~= decimal_padded(day, 2));
    assert(s.subrange(11, 13) =~= decimal_padded(hour, 2));
    assert(s.subrange(14, 16) =~= decimal_padded(minute, 2));
    assert(s.subrange(17, 19) =~= decimal_padded(second, 2));
    assert(s.skip(19) =~= seq!['Z']);
    assert forall|i: int| 0 <= i < 19 implies well_placed(i, #[trigger] s[i]) by {
        if i < 4 {
            assert(s[i] == decimal_padded(year, 4)[i]);
        } else if 5 <= i < 7 {
            assert(s[i] == decimal_padded(month, 2)[i - 5]);
        } else if 8 <= i < 10 {
            assert(s[i] == decimal_padded(day, 2)[i - 8]);
        } else if 11 <= i < 13 {
            assert(s[i] == decimal_padded(hour, 2)[i - 11]);
        } else if 14 <= i < 16 {
            assert(s[i] == decimal_padded(minute, 2)[i - 14]);
        } else if 17 <= i < 19 {
            assert(s[i] == decimal_padded(second, 2)[i - 17]);
        }
    }
}

/// A padded number's text is a row of that many digits, and stands for the number
/// where it is wide enough.
proof fn lemma_padded(n: nat, width: nat)
    requires
        width == 4 && n < 10_000 || width == 2 && n < 100,
    ensures
        all_digits(decimal_padded(n, width)),
        decimal_padded(n, width).len() == width,
        decimal_value(decimal_padded(n, width)) == n,
{
    reveal_with_fuel(pow10, 8);
    lemma_padded_reads_back(n, width);
}

/// Fractions of a second and the case of the two letters make no difference to
/// the instant that a text stands for.
pub proof fn law_fractions_and_case_make_no_difference(head: Seq<char>, digits: Seq<char>)
    requires
        head.len() == 19,
        digits.len() > 0,
        all_digits(digits),
    ensures
        instant(head + seq!['.'] + digits + seq!['Z']) == instant(head.push('Z')),
        instant(head.push('z')) == instant(head.push('Z')),
        instant(head.update(10, 't').push('Z')) == instant(head.update(10, 'T').push('Z')),
{
    let plain = head.push('Z');
    let fraction = head + seq!['.'] + digits + seq!['Z'];
    let lower = head.push('z');
    lemma_same_head(plain, fraction);
    lemma_same_head(plain, lower);
    lemma_same_head(head.update(10, 'T').push('Z'), head.update(10, 't').push('Z'));
    let tail = fraction.skip(19);
    assert(tail.len() == digits.len() + 2);
    assert(tail[0] == '.');
    assert(tail.subrange(1, tail.len() - 1) =~= digits);
    assert(tail.skip(tail.len() - 1) =~= seq!['Z']);
    assert(plain.skip(19) =~= seq!['Z']);
    assert(lower.skip(19) =~= seq!['z']);
    assert(head.update(10, 't').push('Z').skip(19) =~= seq!['Z']);
    assert(head.update(10, 'T').push('Z').skip(19) =~= seq!['Z']);
}

/// Texts whose first nineteen characters agree, but for the case of the letter
/// between the date and the time, start alike.
proof fn lemma_same_head(a: Seq<char>, b: Seq<char>)
    requires
        a.len() >= 19,
        b.len() >= 19,
        forall|i: int| 0 <= i < 19 && i != 10 ==> #[trigger] a[i] == #[trigger] b[i],
        a[10] == b[10] || (a[10] == 'T' && b[10] == 't'),
    ensures
        fixed_shape(a) == fixed_shape(b),
        field(a, 0, 4) == field(b, 0, 4),
        field(a, 5, 7) == field(b, 5, 7),
        field(a, 8, 10) == field(b, 8, 10),
        field(a, 11, 13) == field(b, 11, 13),
        field(a, 14, 16) == field(b, 14, 16),
        field(a, 17, 19) == field(b, 17, 19),
{
    assert(a.subrange(0, 4) =~= b.subrange(0, 4));
    assert(a.subrange(5, 7) =~= b.subrange(5, 7));
    assert(a.subrange(8, 10) =~= b.subrange(8, 10));
    assert(a.subrange(11, 13) =~= b.subrange(11, 13));
    assert(a.subrange(14, 16) =~= b.subrange(14, 16));
    assert(a.subrange(17, 19) =~= b.subrange(17, 19));
    if fixed_shape(a) {
        assert forall|i: int| 0 <= i < 19 implies well_placed(i, #[trigger] b[i]) by {
            assert(well_placed(i, a[i]));
        }
    }
    if fixed_shape(b) {
        assert forall|i: int| 0 <= i < 19 implies well_placed(i, #[trigger] a[i]) by {
            assert(well_placed(i, b[i]));
        }
    }
}

/// A text that stands for an instant has its separators in their places, ends on
/// the zone letter, and has nothing but a fraction between the seconds and that.
pub proof fn law_an_instant_is_well_written(s: Seq<char>)
    requires
        instant(s) is Some,
    ensures
        s.len() == 20 || s.len() >= 22,
        s[4] == '-' && s[7] == '-' && s[13] == ':' && s[16] == ':',
        s[10] == 'T' || s[10] == 't',
        s[s.len() - 1] == 'Z' || s[s.len() - 1] == 'z',
        s.len() > 20 ==> s[19] == '.',
        forall|i: int|
            0 <= i < s.len() - 1 && i != 4 && i != 7 && i != 10 && i != 13 && i != 16 && i != 19
                ==> '0' <= #[trigger] s[i] && s[i] <= '9',
{
    let tail = s.skip(19);
    assert(well_placed(4, s[4]) && well_placed(7, s[7]) && well_placed(10, s[10]));
    assert(well_placed(13, s[13]) && well_placed(16, s[16]));
    assert(tail[0] == s[19]);
    if !is_zone(tail) {
        let last = tail.skip(tail.len() - 1);
        assert(last[0] == s[s.len() - 1]);
    }
    assert forall|i: int|
        0 <= i < s.len() - 1 && i != 4 && i != 7 && i != 10 && i != 13 && i != 16 && i
            != 19 implies '0' <= #[trigger] s[i] && s[i] <= '9' by {
        if i < 19 {
            assert(well_placed(i, s[i]));
        } else {
            let fraction = tail.subrange(1, tail.len() - 1);
            assert(fraction[i - 20] == s[i]);
            assert(is_digit(fraction[i - 20]));
        }
    }
}

} // verus!
