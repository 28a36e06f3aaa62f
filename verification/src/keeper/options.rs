//! The operator's settings as text, and amounts for people to read.

use vstd::prelude::*;
use vstd::string::*;

use crate::pool_id::{find_char, first_index, lemma_first_index_is, PoolId, PoolIdError};
use crate::text::{
    all_digits, append_decimal, append_decimal_padded, decimal, decimal_padded, decimal_value,
    digits_value, is_digit, law_u64_text_round_trip, lemma_decimal_reads_back,
    lemma_decimal_value_grows, parse_u64, u64_from_text,
};

verus! {

/// Why a text is not a duration.
#[derive(Debug, Clone, Copy, PartialEq, Eq, Structural)]
pub enum DurationError {
    /// It is not a number with `s`, `m`, `h` or nothing behind it.
    NotADuration,
    /// It is more seconds than can be counted.
    TooLong,
}

/// Why a text is not an amount of dollars.
#[derive(Debug, Clone, Copy, PartialEq, Eq, Structural)]
pub enum DollarError {
    /// It is not a decimal number.
    NotAnAmount,
    /// It has more than six decimal places.
    TooFine,
    /// It is more than can be counted.
    TooLarge,
}

/// The digits of a duration, and the seconds that each counts for.
pub open spec fn duration_parts(s: Seq<char>) -> (Seq<char>, int) {
    if s.len() == 0 {
        (s, 1)
    } else if s.last() == 's' {
        (s.drop_last(), 1)
    } else if s.last() == 'm' {
        (s.drop_last(), 60)
    } else if s.last() == 'h' {
        (s.drop_last(), 3_600)
    } else {
        (s, 1)
    }
}

/// The seconds that a text stands for.
pub open spec fn duration_of(s: Seq<char>) -> Result<u64, DurationError> {
    let (digits, unit) = duration_parts(s);
    match u64_from_text(digits) {
        None => Err(DurationError::NotADuration),
        Some(n) => if n * unit > u64::MAX {
            Err(DurationError::TooLong)
        } else {
            Ok((n * unit) as u64)
        },
    }
}

/// Reads a duration such as `90`, `90s`, `5m` or `2h`, in seconds.
pub fn parse_duration(value: &str) -> (r: Result<u64, DurationError>)
    ensures
        r == duration_of(value@),
{
    let len: usize = value.unicode_len();
    let mut keep: usize = len;
    let mut unit: u64 = 1;
    if len > 0 {
        let last: char = value.get_char(len - 1);
        if last == 's' {
            keep = len - 1;
        } else if last == 'm' {
            keep = len - 1;
            unit = 60;
        } else if last == 'h' {
            keep = len - 1;
            unit = 3_600;
        }
    }
    let digits: &str = value.substring_char(0, keep);
    assert(digits@ =~= duration_parts(value@).0);
    match parse_u64(digits) {
        Some(n) => match n.checked_mul(unit) {
            Some(secs) => Ok(secs),
            None => Err(DurationError::TooLong),
        },
        None => Err(DurationError::NotADuration),
    }
}

/// Ten to the power of `n`.
pub open spec fn pow10(n: int) -> int
    decreases n,
{
    if n <= 0 {
        1
    } else {
        10 * pow10(n - 1)
    }
}

/// What stands before the point, and what behind it.
pub open spec fn dollar_parts(s: Seq<char>) -> (Seq<char>, Seq<char>) {
    let at = first_index(s, '.');
    if at == s.len() {
        (s, Seq::empty())
    } else {
        (s.take(at), s.skip(at + 1))
    }
}

/// The micro-dollars that a decimal text of dollars stands for.
pub open spec fn dollars_of(s: Seq<char>) -> Result<u128, DollarError> {
    let (whole, fraction) = dollar_parts(s);
    if (whole.len() == 0 && fraction.len() == 0) || !all_digits(whole) || !all_digits(fraction) {
        Err(DollarError::NotAnAmount)
    } else if fraction.len() > 6 {
        Err(DollarError::TooFine)
    } else if decimal_value(whole) > u128::MAX {
        Err(DollarError::NotAnAmount)
    } else {
        let micro = decimal_value(whole) * 1_000_000 + decimal_value(fraction) * pow10(
            6 - fraction.len(),
        );
        if micro > u128::MAX {
            Err(DollarError::TooLarge)
        } else {
            Ok(micro as u128)
        }
    }
}

/// Whether a part of the text is digits only.
fn are_digits(s: &str) -> (r: bool)
    ensures
        r == all_digits(s@),
        r ==> s.is_ascii(),
{
    let len: usize = s.unicode_len();
    let mut i: usize = 0;
    while i < len
        invariant
            len == s@.len(),
            i <= len,
            forall|j: int| 0 <= j < i ==> is_digit(#[trigger] s@[j]),
        decreases len - i,
    {
        let c: char = s.get_char(i);
        if !('0' <= c && c <= '9') {
            assert(!is_digit(s@[i as int]));
            return false;
        }
        i = i + 1;
    }
    true
}

/// The scale of a fraction of `digits` decimal places, in millionths.
fn fraction_scale(digits: usize) -> (r: u128)
    requires
        digits <= 6,
    ensures
        r == pow10(6 - digits),
        1 <= r <= 1_000_000,
{
    proof {
        reveal_with_fuel(pow10, 8);
    }
    match digits {
        0 => 1_000_000,
        1 => 100_000,
        2 => 10_000,
        3 => 1_000,
        4 => 100,
        5 => 10,
        _ => 1,
    }
}

/// At most six digits stand for less than a million.
proof fn lemma_six_digits(s: Seq<char>)
    requires
        s.len() <= 6,
        all_digits(s),
    ensures
        0 <= decimal_value(s) < pow10(s.len() as int),
        decimal_value(s) < 1_000_000,
    decreases s.len(),
{
    lemma_digits_below_power(s);
    reveal_with_fuel(pow10, 8);
}

proof fn lemma_digits_below_power(s: Seq<char>)
    requires
        all_digits(s),
    ensures
        0 <= decimal_value(s) < pow10(s.len() as int),
    decreases s.len(),
{
    if s.len() > 0 {
        let front = s.drop_last();
        assert forall|i: int| 0 <= i < front.len() implies is_digit(#[trigger] front[i]) by {
            assert(front[i] == s[i]);
        }
        assert(is_digit(s[s.len() - 1]));
        lemma_digits_below_power(front);
    }
}

/// Reads a decimal number of dollars, such as `12.50`, as micro-dollars.
pub fn parse_micro_usd(value: &str) -> (r: Result<u128, DollarError>)
    ensures
        r == dollars_of(value@),
{
    let len: usize = value.unicode_len();
    let at: usize = find_char(value, '.', 0);
    assert(value@.skip(0) =~= value@);
    let whole: &str = value.substring_char(0, at);
    let fraction: &str = if at < len {
        value.substring_char(at + 1, len)
    } else {
        value.substring_char(len, len)
    };
    assert(whole@ =~= dollar_parts(value@).0);
    assert(fraction@ =~= dollar_parts(value@).1);
    let whole_len: usize = whole.unicode_len();
    let fraction_len: usize = fraction.unicode_len();
    if whole_len == 0 && fraction_len == 0 {
        return Err(DollarError::NotAnAmount);
    }
    if !are_digits(whole) || !are_digits(fraction) {
        return Err(DollarError::NotAnAmount);
    }
    if fraction_len > 6 {
        return Err(DollarError::TooFine);
    }
    assert(whole@.subrange(0, whole_len as int) =~= whole@);
    assert(fraction@.subrange(0, fraction_len as int) =~= fraction@);
    let whole_value: u128 = match digits_value(whole, 0, whole_len) {
        Some(v) => v,
        None => return Err(DollarError::NotAnAmount),
    };
    proof {
        lemma_six_digits(fraction@);
    }
    let fraction_value: u128 = match digits_value(fraction, 0, fraction_len) {
        Some(v) => v,
        None => return Err(DollarError::NotAnAmount),
    };
    let scale: u128 = fraction_scale(fraction_len);
    assert(fraction_value * scale <= 1_000_000 * 1_000_000) by (nonlinear_arith)
        requires
            fraction_value < 1_000_000,
            scale <= 1_000_000,
    ;
    let micro_fraction: u128 = fraction_value * scale;
    match whole_value.checked_mul(1_000_000) {
        Some(micro) => match micro.checked_add(micro_fraction) {
            Some(total) => Ok(total),
            None => Err(DollarError::TooLarge),
        },
        None => Err(DollarError::TooLarge),
    }
}

/// Micro-dollars as dollars with six decimal places.
pub open spec fn dollar_text(micro: u128) -> Seq<char> {
    decimal((micro / 1_000_000) as nat) + seq!['.'] + decimal_padded(
        (micro % 1_000_000) as nat,
        6,
    )
}

/// Micro-dollars as dollars with six decimal places, such as `12.500000`.
pub fn format_micro_usd(micro: u128) -> (r: String)
    ensures
        r@ == dollar_text(micro),
{
    let mut s = String::new();
    append_decimal(&mut s, micro / 1_000_000);
    s.append(".");
    append_decimal_padded(&mut s, micro % 1_000_000, 6);
    proof {
        reveal_strlit(".");
        assert("."@ =~= seq!['.']);
        assert(s@ =~= dollar_text(micro));
    }
    s
}

/// A padded number's text is a row of digits that stands for it, where it is
/// wide enough.
pub proof fn lemma_padded_reads_back(n: nat, width: nat)
    requires
        n < pow10(width as int),
    ensures
        all_digits(decimal_padded(n, width)),
        decimal_padded(n, width).len() == width,
        decimal_value(decimal_padded(n, width)) == n,
    decreases width,
{
    if width > 0 {
        lemma_padded_reads_back(n / 10, (width - 1) as nat);
        let s = decimal_padded(n, width);
        let front = decimal_padded(n / 10, (width - 1) as nat);
        assert(s.drop_last() =~= front);
        assert forall|i: int| 0 <= i < s.len() implies is_digit(#[trigger] s[i]) by {
            if i < s.len() - 1 {
                assert(s[i] == front[i]);
            }
        }
    }
}

/// Reading an amount's text gives the amount back, to the last micro-dollar.
pub proof fn law_dollar_text_round_trip(micro: u128)
    ensures
        dollars_of(dollar_text(micro)) == Ok::<u128, DollarError>(micro),
{
    let whole = decimal((micro / 1_000_000) as nat);
    let fraction = decimal_padded((micro % 1_000_000) as nat, 6);
    let s = dollar_text(micro);
    let at = whole.len() as int;
    reveal_with_fuel(pow10, 8);
    lemma_decimal_reads_back((micro / 1_000_000) as nat);
    lemma_padded_reads_back((micro % 1_000_000) as nat, 6);
    assert forall|i: int| 0 <= i < at implies s[i] != '.' by {
        assert(s[i] == whole[i]);
        assert(is_digit(whole[i]));
    }
    assert(s[at] == '.');
    lemma_first_index_is(s, '.', at);
    assert(s.take(at) =~= whole);
    assert(s.skip(at + 1) =~= fraction);
}

/// The text form of a pool id, such as `0:1`.
pub fn format_pool(pool: PoolId) -> (r: String)
    ensures
        r@ == pool.text(),
{
    pool.to_text()
}

/// Reads the text form of a pool id.
pub fn parse_pool_id(value: &str) -> (r: Result<PoolId, PoolIdError>)
    ensures
        r == PoolId::parsed(value@),
{
    PoolId::from_text(value)
}

/// A number of seconds, minutes or hours is read as that many seconds: on its
/// own or with an `s` behind it as it is, with an `m` sixty times and with an `h`
/// three thousand six hundred times as many, unless that is too many.
pub proof fn law_durations_count_seconds(n: u64)
    ensures
        duration_of(decimal(n as nat)) == Ok::<u64, DurationError>(n),
        duration_of(decimal(n as nat).push('s')) == Ok::<u64, DurationError>(n),
        duration_of(decimal(n as nat).push('m')) == (if n * 60 <= u64::MAX {
            Ok::<u64, DurationError>((n * 60) as u64)
        } else {
            Err::<u64, DurationError>(DurationError::TooLong)
        }),
        duration_of(decimal(n as nat).push('h')) == (if n * 3_600 <= u64::MAX {
            Ok::<u64, DurationError>((n * 3_600) as u64)
        } else {
            Err::<u64, DurationError>(DurationError::TooLong)
        }),
{
    let s = decimal(n as nat);
    lemma_decimal_reads_back(n as nat);
    law_u64_text_round_trip(n);
    assert(is_digit(s[s.len() - 1]));
    assert(s.last() == s[s.len() - 1]);
    let unit = duration_parts(s).1;
    assert(n * unit == n) by (nonlinear_arith)
        requires
            unit == 1,
    ;
    assert(s.push('s').drop_last() =~= s);
    assert(s.push('m').drop_last() =~= s);
    assert(s.push('h').drop_last() =~= s);
}

/// A number of dollars is read as a million times as many micro-dollars, and a
/// fraction of up to six places as that part of a million: one place counts
/// hundred thousands, six count single ones.
pub proof fn law_dollars_count_millionths(whole: u64, fraction: nat, places: nat)
    requires
        places <= 6,
        fraction < pow10(places as int),
    ensures
        dollars_of(decimal(whole as nat)) == Ok::<u128, DollarError>(
            (whole * 1_000_000) as u128,
        ),
        dollars_of(decimal(whole as nat) + seq!['.'] + decimal_padded(fraction, places)) matches Ok(
            micro,
        ) && micro == whole * 1_000_000 + fraction * (if places == 0 {
            1_000_000int
        } else if places == 1 {
            100_000
        } else if places == 2 {
            10_000
        } else if places == 3 {
            1_000
        } else if places == 4 {
            100
        } else if places == 5 {
            10
        } else {
            1
        }),
{
    let w = decimal(whole as nat);
    let f = decimal_padded(fraction, places);
    let s = w + seq!['.'] + f;
    let at = w.len() as int;
    lemma_decimal_reads_back(whole as nat);
    lemma_padded_reads_back(fraction, places);
    reveal_with_fuel(pow10, 8);
    assert forall|i: int| 0 <= i < at implies s[i] != '.' && w[i] != '.' by {
        assert(s[i] == w[i]);
        assert(is_digit(w[i]));
    }
    assert(s[at] == '.');
    lemma_first_index_is(s, '.', at);
    lemma_first_index_is(w, '.', at);
    assert(s.take(at) =~= w);
    assert(s.skip(at + 1) =~= f);
    assert(decimal_value(Seq::<char>::empty()) == 0);
    let scale = pow10(6 - places);
    assert(fraction * scale <= 1_000_000 * 1_000_000) by (nonlinear_arith)
        requires
            fraction <= 1_000_000,
            0 <= scale <= 1_000_000,
    ;
}

/// What stands before the first point of a text of dollars counts whole ones, what
/// stands behind it parts of one, six places at most; either may be missing, not
/// both. Any other character, and a second point, is refused.
pub proof fn law_dollars_are_digits_around_a_point(whole: Seq<char>, fraction: Seq<char>)
    requires
        !whole.contains('.'),
    ensures
        ({
            let digits = all_digits(whole) && all_digits(fraction);
            let some = whole.len() > 0 || fraction.len() > 0;
            let places = fraction.len();
            let place: int = if places == 0 {
                1_000_000
            } else if places == 1 {
                100_000
            } else if places == 2 {
                10_000
            } else if places == 3 {
                1_000
            } else if places == 4 {
                100
            } else if places == 5 {
                10
            } else {
                1
            };
            let micro = decimal_value(whole) * 1_000_000 + decimal_value(fraction) * place;
            match dollars_of(whole + seq!['.'] + fraction) {
                Ok(amount) => digits && some && places <= 6 && amount == micro,
                Err(DollarError::TooFine) => digits && some && places > 6,
                Err(DollarError::TooLarge) => digits && some && places <= 6 && micro > u128::MAX
                    && decimal_value(whole) <= u128::MAX,
                Err(DollarError::NotAnAmount) => !digits || !some || (places <= 6 && decimal_value(
                    whole,
                ) > u128::MAX),
            }
        }),
        dollars_of(whole) == dollars_of(whole + seq!['.']),
{
    let s = whole + seq!['.'] + fraction;
    let t = whole + seq!['.'];
    let at = whole.len() as int;
    assert forall|i: int| 0 <= i < at implies whole[i] != '.' by {
        assert(whole.contains(whole[i]));
    }
    assert(s[at] == '.' && t[at] == '.');
    lemma_first_index_is(whole, '.', at);
    lemma_first_index_is(s, '.', at);
    lemma_first_index_is(t, '.', at);
    assert(s.take(at) =~= whole);
    assert(t.take(at) =~= whole);
    assert(s.skip(at + 1) =~= fraction);
    assert(t.skip(at + 1) =~= Seq::<char>::empty());
    reveal_with_fuel(pow10, 8);
    if all_digits(whole) && all_digits(fraction) && fraction.len() <= 6 {
        lemma_decimal_value_grows(whole, 0);
        lemma_decimal_value_grows(fraction, 0);
        let value = decimal_value(fraction);
        let place = pow10(6 - fraction.len());
        assert(value * place >= 0) by (nonlinear_arith)
            requires
                value >= 0,
                place >= 0,
        ;
    }
}

} // verus!
