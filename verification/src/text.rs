//! Decimal numbers as text.

use vstd::prelude::*;
use vstd::string::*;

verus! {

/// Whether `c` is a decimal digit.
pub open spec fn is_digit(c: char) -> bool {
    '0' <= c && c <= '9'
}

/// Whether every character is a decimal digit.
pub open spec fn all_digits(s: Seq<char>) -> bool {
    forall|i: int| 0 <= i < s.len() ==> is_digit(#[trigger] s[i])
}

/// The number that a row of digits stands for.
pub open spec fn decimal_value(s: Seq<char>) -> int
    decreases s.len(),
{
    if s.len() == 0 {
        0
    } else {
        decimal_value(s.drop_last()) * 10 + (s.last() as int - '0' as int)
    }
}

/// The digit that stands for `d`.
pub open spec fn digit_char(d: int) -> char {
    if d == 0 {
        '0'
    } else if d == 1 {
        '1'
    } else if d == 2 {
        '2'
    } else if d == 3 {
        '3'
    } else if d == 4 {
        '4'
    } else if d == 5 {
        '5'
    } else if d == 6 {
        '6'
    } else if d == 7 {
        '7'
    } else if d == 8 {
        '8'
    } else {
        '9'
    }
}

/// A number in decimal, without leading zeros.
pub open spec fn decimal(n: nat) -> Seq<char>
    decreases n,
{
    if n < 10 {
        seq![digit_char(n as int)]
    } else {
        decimal(n / 10).push(digit_char((n % 10) as int))
    }
}

/// A number in exactly `width` decimal digits, the high ones dropped.
pub open spec fn decimal_padded(n: nat, width: nat) -> Seq<char>
    decreases width,
{
    if width == 0 {
        Seq::empty()
    } else {
        decimal_padded(n / 10, (width - 1) as nat).push(digit_char((n % 10) as int))
    }
}

/// The digits of an unsigned number in text: what follows an optional plus sign.
pub open spec fn unsigned_digits(s: Seq<char>) -> Seq<char> {
    if s.len() > 0 && s[0] == '+' {
        s.skip(1)
    } else {
        s
    }
}

/// The `u64` that a text stands for: at least one digit, an optional plus sign
/// before them, and a value in range.
pub open spec fn u64_from_text(s: Seq<char>) -> Option<u64> {
    let digits = unsigned_digits(s);
    if digits.len() == 0 || !all_digits(digits) || decimal_value(digits) > u64::MAX {
        None
    } else {
        Some(decimal_value(digits) as u64)
    }
}

/// The value of a row of digits is not negative, and a longer row that starts
/// the same way is worth at least as much.
pub proof fn lemma_decimal_value_grows(s: Seq<char>, i: int)
    requires
        all_digits(s),
        0 <= i <= s.len(),
    ensures
        0 <= decimal_value(s.take(i)) <= decimal_value(s),
    decreases s.len(),
{
    if s.len() == 0 {
        assert(s.take(i) =~= s);
    } else {
        let t = s.drop_last();
        assert forall|k: int| 0 <= k < t.len() implies is_digit(#[trigger] t[k]) by {
            assert(t[k] == s[k]);
        }
        assert(is_digit(s[s.len() - 1]));
        if i == s.len() {
            assert(s.take(i) =~= s);
            lemma_decimal_value_grows(t, t.len() as int);
            assert(t.take(t.len() as int) =~= t);
        } else {
            assert(s.take(i) =~= t.take(i));
            lemma_decimal_value_grows(t, i);
        }
    }
}

/// Reads the digits of `s` from `from` up to `to`; nothing where a character is
/// not a digit or the value exceeds a `u128`.
pub fn digits_value(s: &str, from: usize, to: usize) -> (r: Option<u128>)
    requires
        s.is_ascii(),
        from <= to <= s@.len(),
    ensures
        r == (if all_digits(s@.subrange(from as int, to as int)) && decimal_value(
            s@.subrange(from as int, to as int),
        ) <= u128::MAX {
            Some(decimal_value(s@.subrange(from as int, to as int)) as u128)
        } else {
            None::<u128>
        }),
        r matches Some(v) ==> v == decimal_value(s@.subrange(from as int, to as int)),
{
    let ghost field = s@.subrange(from as int, to as int);
    let mut value: u128 = 0;
    let mut i: usize = from;
    while i < to
        invariant
            s.is_ascii(),
            from <= i <= to <= s@.len(),
            field == s@.subrange(from as int, to as int),
            all_digits(field.take(i - from)),
            value == decimal_value(field.take(i - from)),
        decreases to - i,
    {
        let b: u8 = s.get_ascii(i);
        let ghost k = i - from;
        assert(field[k] == s@[i as int]);
        if b < 48 || b > 57 {
            assert(s@[i as int] as u8 == b);
            assert(!is_digit(field[k]));
            return None;
        }
        proof {
            assert(s@[i as int] as u8 == b);
            lemma_ascii_at(s@, i as int);
            assert(is_digit(field[k]));
            assert(field.take(k + 1).drop_last() =~= field.take(k));
            assert(field.take(k + 1).last() == field[k]);
            assert forall|j: int| 0 <= j < k + 1 implies is_digit(
                #[trigger] field.take(k + 1)[j],
            ) by {
                if j < k {
                    assert(field.take(k + 1)[j] == field.take(k)[j]);
                }
            }
            if all_digits(field) {
                lemma_decimal_value_grows(field, k + 1);
            }
        }
        let digit: u128 = (b - 48) as u128;
        if value > (u128::MAX - digit) / 10 {
            proof {
                assert(decimal_value(field.take(k + 1)) > u128::MAX);
            }
            return None;
        }
        value = value * 10 + digit;
        i = i + 1;
    }
    assert(field.take(to - from) =~= field);
    Some(value)
}

/// An ASCII character is its own byte.
proof fn lemma_ascii_at(s: Seq<char>, i: int)
    requires
        vstd::utf8::is_ascii_chars(s),
        0 <= i < s.len(),
    ensures
        s[i] as u8 == s[i] as int,
        (s[i] as int) < 128,
{
}

/// Reads an unsigned number, as `str::parse::<u64>` does.
pub fn parse_u64(s: &str) -> (r: Option<u64>)
    ensures
        r == u64_from_text(s@),
{
    if !s.is_ascii() {
        proof {
            assert(!all_digits(unsigned_digits(s@))) by {
                let bad = choose|i: int|
                    0 <= i < s@.len() && !('\0' <= #[trigger] s@[i] <= '\u{7f}');
                if s@[0] == '+' {
                    assert(s@.skip(1)[bad - 1] == s@[bad]);
                    assert(!is_digit(s@.skip(1)[bad - 1]));
                } else {
                    assert(!is_digit(s@[bad]));
                }
            }
        }
        return None;
    }
    let len: usize = s.unicode_len();
    let mut from: usize = 0;
    if len > 0 {
        let sign: u8 = s.get_ascii(0);
        proof {
            lemma_ascii_at(s@, 0);
        }
        if sign == 43 {
            from = 1;
        }
    }
    assert(unsigned_digits(s@) =~= s@.subrange(from as int, len as int));
    if from == len {
        return None;
    }
    match digits_value(s, from, len) {
        Some(value) => if value <= u64::MAX as u128 {
            Some(value as u64)
        } else {
            None
        },
        None => None,
    }
}

/// The text of one digit.
fn digit_text(d: u8) -> (r: &'static str)
    requires
        d < 10,
    ensures
        r@ == seq![digit_char(d as int)],
{
    proof {
        reveal_strlit("0");
        reveal_strlit("1");
        reveal_strlit("2");
        reveal_strlit("3");
        reveal_strlit("4");
        reveal_strlit("5");
        reveal_strlit("6");
        reveal_strlit("7");
        reveal_strlit("8");
        reveal_strlit("9");
        assert("0"@ =~= seq!['0']);
        assert("1"@ =~= seq!['1']);
        assert("2"@ =~= seq!['2']);
        assert("3"@ =~= seq!['3']);
        assert("4"@ =~= seq!['4']);
        assert("5"@ =~= seq!['5']);
        assert("6"@ =~= seq!['6']);
        assert("7"@ =~= seq!['7']);
        assert("8"@ =~= seq!['8']);
        assert("9"@ =~= seq!['9']);
    }
    match d {
        0 => "0",
        1 => "1",
        2 => "2",
        3 => "3",
        4 => "4",
        5 => "5",
        6 => "6",
        7 => "7",
        8 => "8",
        _ => "9",
    }
}

/// Appends `n` in decimal.
pub fn append_decimal(s: &mut String, n: u128)
    ensures
        final(s)@ == old(s)@ + decimal(n as nat),
    decreases n,
{
    if n >= 10 {
        append_decimal(s, n / 10);
    }
    s.append(digit_text((n % 10) as u8));
    assert(s@ =~= old(s)@ + decimal(n as nat));
}

/// Appends `n` in exactly `width` decimal digits.
pub fn append_decimal_padded(s: &mut String, n: u128, width: u8)
    ensures
        final(s)@ == old(s)@ + decimal_padded(n as nat, width as nat),
    decreases width,
{
    if width > 0 {
        append_decimal_padded(s, n / 10, width - 1);
        s.append(digit_text((n % 10) as u8));
    }
    assert(s@ =~= old(s)@ + decimal_padded(n as nat, width as nat));
}

/// A number's decimal text is a row of digits that stands for it.
pub proof fn lemma_decimal_reads_back(n: nat)
    ensures
        all_digits(decimal(n)),
        decimal(n).len() >= 1,
        decimal_value(decimal(n)) == n,
    decreases n,
{
    if n < 10 {
        let s = decimal(n);
        assert(s.drop_last() =~= Seq::<char>::empty());
        assert(decimal_value(s.drop_last()) == 0);
    } else {
        lemma_decimal_reads_back(n / 10);
        let s = decimal(n);
        assert(s.drop_last() =~= decimal(n / 10));
        assert forall|i: int| 0 <= i < s.len() implies is_digit(#[trigger] s[i]) by {
            if i < s.len() - 1 {
                assert(s[i] == decimal(n / 10)[i]);
            }
        }
    }
}

/// Reading a number's decimal text gives the number back.
pub proof fn law_u64_text_round_trip(n: u64)
    ensures
        u64_from_text(decimal(n as nat)) == Some(n),
{
    lemma_decimal_reads_back(n as nat);
    assert(is_digit(decimal(n as nat)[0]));
}

/// Whether a name is among the ones asked for: where none is asked for, every
/// name is.
pub open spec fn is_selected(names: Seq<String>, name: Seq<char>) -> bool {
    names.len() == 0 || exists|i: int| 0 <= i < names.len() && (#[trigger] names[i])@ == name
}

/// Whether a name is among the ones asked for.
pub fn selects(names: &Vec<String>, name: &String) -> (r: bool)
    ensures
        r == is_selected(names@, name@),
{
    if names.len() == 0 {
        return true;
    }
    let mut i: usize = 0;
    while i < names.len()
        invariant
            i <= names@.len(),
            forall|j: int| 0 <= j < i ==> (#[trigger] names@[j])@ != name@,
        decreases names@.len() - i,
    {
        if names[i] == *name {
            assert(names@[i as int]@ == name@);
            return true;
        }
        i = i + 1;
    }
    false
}

/// A text stands for a number exactly when it is digits, at least one, and their
/// value fits; a plus sign before them makes no difference.
pub proof fn law_numbers_are_digits(s: Seq<char>)
    requires
        s.len() > 0 ==> s[0] != '+',
    ensures
        match u64_from_text(s) {
            Some(n) => s.len() > 0 && all_digits(s) && decimal_value(s) == n,
            None => s.len() == 0 || !all_digits(s) || decimal_value(s) > u64::MAX,
        },
        u64_from_text(seq!['+'] + s) == u64_from_text(s),
{
    assert((seq!['+'] + s).skip(1) =~= s);
    if all_digits(s) {
        lemma_decimal_value_grows(s, 0);
    }
}

/// Without names everything is selected, with names just what they name.
pub proof fn law_names_select_what_they_name(names: Seq<String>, name: Seq<char>)
    ensures
        names.len() == 0 ==> is_selected(names, name),
        names.len() > 0 ==> (is_selected(names, name) <==> names.map_values(
            |n: String| n@,
        ).contains(name)),
{
    let texts = names.map_values(|n: String| n@);
    if names.len() > 0 && texts.contains(name) {
        let i = choose|i: int| 0 <= i < texts.len() && texts[i] == name;
        assert(names[i]@ == name);
    }
    if names.len() > 0 && is_selected(names, name) {
        let i = choose|i: int| 0 <= i < names.len() && (#[trigger] names[i])@ == name;
        assert(texts[i] == name);
    }
}

} // verus!
