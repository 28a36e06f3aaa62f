//! The identifier of a pool: an unordered pair of distinct units.

use vstd::prelude::*;
use vstd::string::*;

use crate::bytes::{append_bytes, lemma_lex_common_start, lex_lt};
use crate::encoding::{
    bigsize, encode_u64, law_bigsize_keeps_order, lemma_bigsize_prefix, Reader,
};
use crate::text::{
    append_decimal, decimal, is_digit, law_u64_text_round_trip, lemma_decimal_reads_back,
    parse_u64, u64_from_text,
};
use crate::units::AmountUnit;

verus! {

/// A pool over an unordered pair of units, stored sorted, so that `(A, B)` and
/// `(B, A)` are the same pool.
#[derive(Debug, Clone, Copy, PartialEq, Eq, PartialOrd, Ord, Hash, Structural)]
pub struct PoolId {
    lo: AmountUnit,
    hi: AmountUnit,
}

/// Why a text is not a pool id.
#[derive(Debug, Clone, Copy, PartialEq, Eq, Structural)]
pub enum PoolIdError {
    /// There is no `:`.
    MissingSeparator,
    /// There is more than one `:`.
    TooManySeparators,
    /// What stands before the `:` is not a unit number.
    LoNotANumber,
    /// What stands behind the `:` is not a unit number.
    HiNotANumber,
    /// The two units are equal or out of order.
    NotCanonical,
}

/// The place of the first `c` in `s`, or the length of `s` where there is none.
pub open spec fn first_index(s: Seq<char>, c: char) -> int
    decreases s.len(),
{
    if s.len() == 0 {
        0
    } else if s[0] == c {
        0
    } else {
        1 + first_index(s.skip(1), c)
    }
}

/// Where the first `c` stands.
pub proof fn lemma_first_index(s: Seq<char>, c: char)
    ensures
        0 <= first_index(s, c) <= s.len(),
        first_index(s, c) < s.len() ==> s[first_index(s, c)] == c,
        forall|i: int| 0 <= i < first_index(s, c) ==> s[i] != c,
    decreases s.len(),
{
    if s.len() > 0 && s[0] != c {
        lemma_first_index(s.skip(1), c);
        assert forall|i: int| 0 <= i < first_index(s, c) implies s[i] != c by {
            if i > 0 {
                assert(s.skip(1)[i - 1] == s[i]);
            }
        }
    }
}

/// The first `c` is where no earlier one is.
pub proof fn lemma_first_index_is(s: Seq<char>, c: char, at: int)
    requires
        0 <= at <= s.len(),
        at < s.len() ==> s[at] == c,
        forall|i: int| 0 <= i < at ==> s[i] != c,
    ensures
        first_index(s, c) == at,
{
    lemma_first_index(s, c);
}

/// The place of the first `c` at or behind `from`, or the length of the text.
pub fn find_char(s: &str, c: char, from: usize) -> (r: usize)
    requires
        from <= s@.len(),
    ensures
        r == from + first_index(s@.skip(from as int), c),
        from <= r <= s@.len(),
{
    let len: usize = s.unicode_len();
    let ghost tail = s@.skip(from as int);
    let mut i: usize = from;
    while i < len
        invariant
            len == s@.len(),
            from <= i <= len,
            tail == s@.skip(from as int),
            forall|j: int| 0 <= j < i - from ==> tail[j] != c,
        decreases len - i,
    {
        assert(tail[i - from] == s@[i as int]);
        if s.get_char(i) == c {
            proof {
                lemma_first_index_is(tail, c, i - from);
            }
            return i;
        }
        i = i + 1;
    }
    proof {
        lemma_first_index_is(tail, c, len - from);
    }
    len
}

impl PoolId {
    /// The units are in order, and distinct.
    #[verifier::type_invariant]
    pub closed spec fn canonical(self) -> bool {
        self.lo.id < self.hi.id
    }

    /// The unit with the lower number.
    pub closed spec fn low(self) -> AmountUnit {
        self.lo
    }

    /// The unit with the higher number.
    pub closed spec fn high(self) -> AmountUnit {
        self.hi
    }

    /// The pool over `lo` and `hi`.
    pub closed spec fn over(lo: AmountUnit, hi: AmountUnit) -> PoolId {
        PoolId { lo, hi }
    }

    /// The pool of two units in either order; none where they are the same.
    pub open spec fn of_units(x: AmountUnit, y: AmountUnit) -> Option<PoolId> {
        if x.id == y.id {
            None
        } else if x.id < y.id {
            Some(PoolId::over(x, y))
        } else {
            Some(PoolId::over(y, x))
        }
    }

    /// A pool id is its two units, and canonical when they are in order.
    pub proof fn lemma_over(lo: AmountUnit, hi: AmountUnit)
        ensures
            PoolId::over(lo, hi).low() == lo,
            PoolId::over(lo, hi).high() == hi,
            PoolId::over(lo, hi).canonical() == (lo.id < hi.id),
    {
    }

    /// Every pool id is the pool over its two units.
    pub proof fn lemma_is_over(self)
        ensures
            self == PoolId::over(self.low(), self.high()),
            self.canonical() == (self.low().id < self.high().id),
    {
    }

    /// The pool of two units, whichever comes first; none where they are the
    /// same.
    pub fn new(x: AmountUnit, y: AmountUnit) -> (r: Option<PoolId>)
        ensures
            r == PoolId::of_units(x, y),
            r matches Some(p) ==> p.canonical(),
    {
        if x.id == y.id {
            None
        } else if x.id < y.id {
            Some(PoolId { lo: x, hi: y })
        } else {
            Some(PoolId { lo: y, hi: x })
        }
    }

    /// The unit with the lower number.
    pub fn lo(&self) -> (r: AmountUnit)
        ensures
            r == self.low(),
            self.canonical(),
            self.low().id < self.high().id,
    {
        proof {
            use_type_invariant(self);
        }
        self.lo
    }

    /// The unit with the higher number.
    pub fn hi(&self) -> (r: AmountUnit)
        ensures
            r == self.high(),
            self.canonical(),
            self.low().id < self.high().id,
    {
        proof {
            use_type_invariant(self);
        }
        self.hi
    }

    /// Whether the pool trades `unit`.
    pub fn contains(&self, unit: AmountUnit) -> (r: bool)
        ensures
            r == (unit == self.low() || unit == self.high()),
    {
        self.lo == unit || self.hi == unit
    }

    /// The other side of the pair; none where `unit` is not in it.
    pub fn other(&self, unit: AmountUnit) -> (r: Option<AmountUnit>)
        ensures
            r == (if unit == self.low() {
                Some(self.high())
            } else if unit == self.high() {
                Some(self.low())
            } else {
                None::<AmountUnit>
            }),
    {
        if unit == self.lo {
            Some(self.hi)
        } else if unit == self.hi {
            Some(self.lo)
        } else {
            None
        }
    }

    /// The text form: both numbers in decimal, a `:` between them.
    pub open spec fn text(self) -> Seq<char> {
        decimal(self.low().id as nat) + seq![':'] + decimal(self.high().id as nat)
    }

    /// The pool id that a text stands for.
    pub open spec fn parsed(s: Seq<char>) -> Result<PoolId, PoolIdError> {
        let at = first_index(s, ':');
        if at == s.len() {
            Err(PoolIdError::MissingSeparator)
        } else {
            let lo = s.take(at);
            let hi = s.skip(at + 1);
            if hi.contains(':') {
                Err(PoolIdError::TooManySeparators)
            } else {
                match (u64_from_text(lo), u64_from_text(hi)) {
                    (None, _) => Err(PoolIdError::LoNotANumber),
                    (_, None) => Err(PoolIdError::HiNotANumber),
                    (Some(lo), Some(hi)) => if lo < hi {
                        Ok(PoolId::over(AmountUnit { id: lo }, AmountUnit { id: hi }))
                    } else {
                        Err(PoolIdError::NotCanonical)
                    },
                }
            }
        }
    }

    /// The text form, such as `0:7`.
    pub fn to_text(&self) -> (r: String)
        ensures
            r@ == self.text(),
    {
        let mut s = String::new();
        append_decimal(&mut s, self.lo.id as u128);
        s.append(":");
        append_decimal(&mut s, self.hi.id as u128);
        proof {
            reveal_strlit(":");
            assert(":"@ =~= seq![':']);
            assert(s@ =~= self.text());
        }
        s
    }

    /// Reads the text form. Only the canonical order is accepted, so that one
    /// pair of units never stands for two pools.
    pub fn from_text(s: &str) -> (r: Result<PoolId, PoolIdError>)
        ensures
            r == PoolId::parsed(s@),
    {
        let len: usize = s.unicode_len();
        let at: usize = find_char(s, ':', 0);
        assert(s@.skip(0) =~= s@);
        if at == len {
            return Err(PoolIdError::MissingSeparator);
        }
        let second: usize = find_char(s, ':', at + 1);
        proof {
            lemma_first_index(s@.skip(at + 1), ':');
            if second < len {
                assert(s@.skip(at + 1)[second - (at + 1)] == ':');
            }
        }
        if second < len {
            return Err(PoolIdError::TooManySeparators);
        }
        let lo_text: &str = s.substring_char(0, at);
        let hi_text: &str = s.substring_char(at + 1, len);
        assert(lo_text@ =~= s@.take(at as int));
        assert(hi_text@ =~= s@.skip(at + 1));
        let lo: u64 = match parse_u64(lo_text) {
            Some(lo) => lo,
            None => return Err(PoolIdError::LoNotANumber),
        };
        let hi: u64 = match parse_u64(hi_text) {
            Some(hi) => hi,
            None => return Err(PoolIdError::HiNotANumber),
        };
        if lo >= hi {
            return Err(PoolIdError::NotCanonical);
        }
        Ok(PoolId { lo: AmountUnit { id: lo }, hi: AmountUnit { id: hi } })
    }

    /// The consensus encoding: the low unit, then the high one.
    pub open spec fn encoded(self) -> Seq<u8> {
        bigsize(self.low().id) + bigsize(self.high().id)
    }

    /// Appends the consensus encoding.
    pub fn encode(&self, out: &mut Vec<u8>)
        ensures
            final(out)@ == old(out)@ + self.encoded(),
    {
        append_bytes(out, encode_u64(self.lo.id).as_slice());
        append_bytes(out, encode_u64(self.hi.id).as_slice());
        assert(out@ =~= old(out)@ + self.encoded());
    }

    /// Reads the consensus encoding; a pair out of order is refused.
    pub fn decode(reader: &mut Reader) -> (r: Option<PoolId>)
        requires
            old(reader).wf(),
        ensures
            final(reader).wf(),
            match r {
                Some(p) => p.canonical() && old(reader).rest() == p.encoded()
                    + final(reader).rest(),
                None => forall|p: PoolId, rest: Seq<u8>|
                    p.canonical() ==> old(reader).rest() != #[trigger] (p.encoded() + rest),
            },
    {
        let lo: Option<u64> = reader.read_u64();
        let ghost after_lo = reader.rest();
        let hi: Option<u64> = if lo.is_some() {
            reader.read_u64()
        } else {
            None
        };
        let ghost tail = reader.rest();
        match (lo, hi) {
            (Some(lo), Some(hi)) if lo < hi => {
                let p = PoolId { lo: AmountUnit { id: lo }, hi: AmountUnit { id: hi } };
                assert(bigsize(lo) + (bigsize(hi) + tail) =~= p.encoded() + tail);
                Some(p)
            },
            _ => {
                proof {
                    assert forall|p: PoolId, rest: Seq<u8>|
                        p.canonical() implies old(reader).rest() != #[trigger] (p.encoded()
                        + rest) by {
                        if old(reader).rest() == p.encoded() + rest {
                            let behind = bigsize(p.high().id) + rest;
                            assert(p.encoded() + rest =~= bigsize(p.low().id) + behind);
                            lemma_bigsize_prefix(lo->0, after_lo, p.low().id, behind);
                            lemma_bigsize_prefix(hi->0, tail, p.high().id, rest);
                        }
                    }
                }
                None
            },
        }
    }
}

/// `new` does not depend on the order of the units.
pub proof fn law_pool_is_unordered(x: AmountUnit, y: AmountUnit)
    ensures
        PoolId::of_units(x, y) == PoolId::of_units(y, x),
{
}

/// Reading a pool id's text gives the pool id back.
pub proof fn law_pool_text_round_trip(p: PoolId)
    requires
        p.canonical(),
    ensures
        PoolId::parsed(p.text()) == Ok::<PoolId, PoolIdError>(p),
{
    let lo = decimal(p.low().id as nat);
    let hi = decimal(p.high().id as nat);
    let s = p.text();
    let at = lo.len() as int;
    lemma_decimal_reads_back(p.low().id as nat);
    lemma_decimal_reads_back(p.high().id as nat);
    assert forall|i: int| 0 <= i < at implies s[i] != ':' by {
        assert(s[i] == lo[i]);
        assert(is_digit(lo[i]));
    }
    assert(s[at] == ':');
    lemma_first_index_is(s, ':', at);
    assert(s.take(at) =~= lo);
    assert(s.skip(at + 1) =~= hi);
    assert(!hi.contains(':')) by {
        if hi.contains(':') {
            let i = choose|i: int| 0 <= i < hi.len() && hi[i] == ':';
            assert(is_digit(hi[i]));
        }
    }
    law_u64_text_round_trip(p.low().id);
    law_u64_text_round_trip(p.high().id);
    p.lemma_is_over();
}

/// Encoded pool ids sort by their low unit, then by their high one, whatever
/// stands behind them.
pub proof fn law_pool_encoding_keeps_order(a: PoolId, x: Seq<u8>, b: PoolId, y: Seq<u8>)
    requires
        a.low().id < b.low().id || (a.low().id == b.low().id && a.high().id < b.high().id),
    ensures
        lex_lt(a.encoded() + x, b.encoded() + y),
{
    let u = bigsize(a.high().id) + x;
    let v = bigsize(b.high().id) + y;
    assert(a.encoded() + x =~= bigsize(a.low().id) + u);
    assert(b.encoded() + y =~= bigsize(b.low().id) + v);
    if a.low().id < b.low().id {
        law_bigsize_keeps_order(a.low().id, u, b.low().id, v);
    } else {
        law_bigsize_keeps_order(a.high().id, x, b.high().id, y);
        lemma_lex_common_start(bigsize(a.low().id), u, v);
    }
}

/// Distinct pools have distinct encodings, and neither starts the other.
pub proof fn law_pool_encoding_is_unambiguous(a: PoolId, x: Seq<u8>, b: PoolId, y: Seq<u8>)
    requires
        a.encoded() + x == b.encoded() + y,
    ensures
        a == b,
        x == y,
{
    assert(a.encoded() + x =~= bigsize(a.low().id) + (bigsize(a.high().id) + x));
    assert(b.encoded() + y =~= bigsize(b.low().id) + (bigsize(b.high().id) + y));
    lemma_bigsize_prefix(
        a.low().id,
        bigsize(a.high().id) + x,
        b.low().id,
        bigsize(b.high().id) + y,
    );
    lemma_bigsize_prefix(a.high().id, x, b.high().id, y);
    a.lemma_is_over();
    b.lemma_is_over();
}

/// A text stands for a pool exactly when it is two numbers with one colon between
/// them, the first below the second. What is wrong with any other is named in that
/// order: no colon, more than one, a first or second part that is no number, and
/// numbers out of order.
pub proof fn law_pool_text_is_two_numbers_in_order(lo: Seq<char>, hi: Seq<char>)
    requires
        !lo.contains(':'),
        !hi.contains(':'),
    ensures
        ({
            let parsed = PoolId::parsed(lo + seq![':'] + hi);
            match (u64_from_text(lo), u64_from_text(hi)) {
                (None, _) => parsed == Err::<PoolId, PoolIdError>(PoolIdError::LoNotANumber),
                (_, None) => parsed == Err::<PoolId, PoolIdError>(PoolIdError::HiNotANumber),
                (Some(a), Some(b)) => if a < b {
                    parsed matches Ok(pool) && pool.low().id == a && pool.high().id == b
                } else {
                    parsed == Err::<PoolId, PoolIdError>(PoolIdError::NotCanonical)
                },
            }
        }),
        PoolId::parsed(lo) == Err::<PoolId, PoolIdError>(PoolIdError::MissingSeparator),
        forall|more: Seq<char>|
            #![trigger PoolId::parsed(lo + seq![':'] + hi + seq![':'] + more)]
            PoolId::parsed(lo + seq![':'] + hi + seq![':'] + more) == Err::<PoolId, PoolIdError>(
                PoolIdError::TooManySeparators,
            ),
{
    let at = lo.len() as int;
    let s = lo + seq![':'] + hi;
    assert forall|i: int| 0 <= i < at implies lo[i] != ':' by {
        assert(lo.contains(lo[i]));
    }
    lemma_first_index_is(lo, ':', at);
    assert(s[at] == ':');
    lemma_first_index_is(s, ':', at);
    assert(s.take(at) =~= lo);
    assert(s.skip(at + 1) =~= hi);
    if let (Some(a), Some(b)) = (u64_from_text(lo), u64_from_text(hi)) {
        PoolId::lemma_over(AmountUnit { id: a }, AmountUnit { id: b });
    }
    assert forall|more: Seq<char>|
        #![trigger PoolId::parsed(lo + seq![':'] + hi + seq![':'] + more)]
        PoolId::parsed(lo + seq![':'] + hi + seq![':'] + more) == Err::<PoolId, PoolIdError>(
            PoolIdError::TooManySeparators,
        ) by {
        let t = lo + seq![':'] + hi + seq![':'] + more;
        assert(t[at] == ':');
        lemma_first_index_is(t, ':', at);
        let rest = t.skip(at + 1);
        assert(rest[hi.len() as int] == ':');
    }
}

} // verus!
