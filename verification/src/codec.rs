//! The consensus encodings of transaction items and consensus items.

use vstd::prelude::*;

use crate::bytes::append_bytes;
use crate::crypto::{is_public_key, PublicKey};
use crate::encoding::{
    append_byte_string, append_u64s, bigsize, bigsizes, byte_string, lemma_bigsize_prefix,
    lemma_bigsizes_prefix, lemma_block_prefix, lemma_byte_string_prefix, Reader,
};
use crate::pool_id::PoolId;
use crate::pop::{
    append_deposit_fields, append_swap_fields, deposit_fields, lemma_deposit_fields_prefix,
    lemma_swap_fields_prefix, swap_fields,
};
use crate::types::{AmmConsensusItem, AmmInput, AmmOutput, AmmOutputOutcome};
use crate::units::{Amount, AmountUnit};

verus! {

impl AmmOutput {
    /// The number of the output's kind.
    pub open spec fn variant_number(self) -> u64 {
        match self {
            AmmOutput::SwapV0 { .. } => 0,
            AmmOutput::DepositV0 { .. } => 1,
            AmmOutput::Default { variant, .. } => variant,
        }
    }

    /// The output's fields, encoded in order.
    pub open spec fn content(self) -> Seq<u8> {
        match self {
            AmmOutput::SwapV0 {
                unit_in,
                unit_out,
                amount_in,
                min_out,
                recipient_pk,
                tweak,
                pop,
            } => swap_fields(unit_in, unit_out, amount_in, min_out, recipient_pk, tweak) + pop@,
            AmmOutput::DepositV0 {
                pool,
                amount_lo,
                amount_hi,
                min_shares,
                owner_pk,
                tweak,
                pop,
            } => deposit_fields(pool, amount_lo, amount_hi, min_shares, owner_pk, tweak) + pop@,
            AmmOutput::Default { variant, bytes } => bytes@,
        }
    }

    /// The consensus encoding: the number of the kind, then the fields as one
    /// byte string, so that an older reader can carry a newer kind along.
    pub open spec fn encoded(self) -> Seq<u8> {
        bigsize(self.variant_number()) + byte_string(self.content())
    }

    /// Whether the encoding reads back as this output: its key is one, its pool
    /// is canonical, and an unknown kind has an unknown number.
    pub open spec fn decodable(self) -> bool {
        match self {
            AmmOutput::SwapV0 { recipient_pk, .. } => recipient_pk.valid(),
            AmmOutput::DepositV0 { pool, owner_pk, .. } => pool.canonical() && owner_pk.valid(),
            AmmOutput::Default { variant, bytes } => variant >= 2,
        }
    }

    /// The same output, a carried byte string compared by its bytes.
    pub open spec fn same(self, other: AmmOutput) -> bool {
        match (self, other) {
            (
                AmmOutput::Default { variant: v, bytes: b },
                AmmOutput::Default { variant: w, bytes: c },
            ) => v == w && b@ == c@,
            _ => self == other,
        }
    }

    /// The consensus encoding.
    pub fn encode(&self) -> (r: Vec<u8>)
        ensures
            r@ == self.encoded(),
    {
        let mut content: Vec<u8> = Vec::new();
        let number: u64 = match self {
            AmmOutput::SwapV0 {
                unit_in,
                unit_out,
                amount_in,
                min_out,
                recipient_pk,
                tweak,
                pop,
            } => {
                append_swap_fields(
                    &mut content,
                    *unit_in,
                    *unit_out,
                    *amount_in,
                    *min_out,
                    *recipient_pk,
                    *tweak,
                );
                append_bytes(&mut content, pop.as_slice());
                0
            },
            AmmOutput::DepositV0 {
                pool,
                amount_lo,
                amount_hi,
                min_shares,
                owner_pk,
                tweak,
                pop,
            } => {
                append_deposit_fields(
                    &mut content,
                    *pool,
                    *amount_lo,
                    *amount_hi,
                    *min_shares,
                    *owner_pk,
                    *tweak,
                );
                append_bytes(&mut content, pop.as_slice());
                1
            },
            AmmOutput::Default { variant, bytes } => {
                append_bytes(&mut content, bytes.as_slice());
                *variant
            },
        };
        assert(content@ =~= self.content());
        encode_variant(number, content.as_slice())
    }

    /// Reads a consensus encoding. Exactly the encodings of decodable outputs
    /// are accepted, with nothing left over.
    pub fn decode(bytes: &[u8]) -> (r: Option<AmmOutput>)
        ensures
            match r {
                Some(x) => x.decodable() && x.encoded() == bytes@,
                None => forall|x: AmmOutput|
                    x.decodable() && x.content().len() <= u64::MAX ==> #[trigger] x.encoded()
                        != bytes@,
            },
    {
        let (number, content) = match decode_variant(bytes) {
            Some(parts) => parts,
            None => return None,
        };
        let decoded: Option<AmmOutput> = if number == 0 {
            decode_swap(content.as_slice())
        } else if number == 1 {
            decode_deposit(content.as_slice())
        } else {
            Some(AmmOutput::Default { variant: number, bytes: content })
        };
        proof {
            assert forall|x: AmmOutput|
                x.decodable() && x.content().len() <= u64::MAX && #[trigger] x.encoded()
                    == bytes@ implies decoded is Some by {
                lemma_variant_unique(x.variant_number(), x.content(), number, content@);
                match x {
                    AmmOutput::SwapV0 { .. } => {},
                    AmmOutput::DepositV0 { .. } => {},
                    AmmOutput::Default { .. } => {},
                }
            }
        }
        decoded
    }
}

/// The encoding of one kind of item: its number, then its fields as one byte
/// string.
pub fn encode_variant(number: u64, content: &[u8]) -> (r: Vec<u8>)
    ensures
        r@ == bigsize(number) + byte_string(content@),
{
    let mut out: Vec<u8> = Vec::new();
    let numbers: [u64; 1] = [number];
    append_u64s(&mut out, numbers.as_slice());
    append_byte_string(&mut out, content);
    proof {
        assert(numbers@ =~= seq![number]);
        assert(numbers@.skip(1) =~= Seq::<u64>::empty());
        assert(bigsizes(numbers@.skip(1)) =~= Seq::<u8>::empty());
        assert(bigsizes(numbers@) =~= bigsize(number));
        assert(out@ =~= bigsize(number) + byte_string(content@));
    }
    out
}

/// Splits the encoding of an item into its kind and its fields, with nothing
/// left over.
pub fn decode_variant(bytes: &[u8]) -> (r: Option<(u64, Vec<u8>)>)
    ensures
        match r {
            Some((number, content)) => content@.len() <= u64::MAX && bytes@ == bigsize(number)
                + byte_string(content@),
            None => forall|number: u64, content: Seq<u8>|
                content.len() <= u64::MAX ==> bytes@ != #[trigger] (bigsize(number) + byte_string(
                    content,
                )),
        },
{
    let mut reader = Reader::new(bytes);
    let number: Option<u64> = reader.read_u64();
    let ghost behind = reader.rest();
    let content: Option<Vec<u8>> = if number.is_some() {
        reader.read_byte_string()
    } else {
        None
    };
    let ghost tail = reader.rest();
    let done = reader.is_done();
    match (number, content) {
        (Some(number), Some(content)) if done => {
            assert(bytes@ =~= bigsize(number) + byte_string(content@));
            Some((number, content))
        },
        _ => {
            proof {
                assert forall|n: u64, c: Seq<u8>| c.len() <= u64::MAX implies bytes@ != #[trigger] (
                bigsize(n) + byte_string(c)) by {
                    if bytes@ == bigsize(n) + byte_string(c) {
                        lemma_bigsize_prefix(number->0, behind, n, byte_string(c));
                        let none = Seq::<u8>::empty();
                        assert(byte_string(c) + none =~= byte_string(c));
                        if content is Some {
                            lemma_byte_string_prefix((content->0)@, tail, c, none);
                        }
                    }
                }
            }
            None
        },
    }
}

/// The kind and the fields of an item are determined by its encoding.
pub proof fn lemma_variant_unique(n: u64, c: Seq<u8>, m: u64, d: Seq<u8>)
    requires
        c.len() <= u64::MAX,
        d.len() <= u64::MAX,
        bigsize(n) + byte_string(c) == bigsize(m) + byte_string(d),
    ensures
        n == m,
        c == d,
{
    lemma_bigsize_prefix(n, byte_string(c), m, byte_string(d));
    let none = Seq::<u8>::empty();
    assert(byte_string(c) + none =~= byte_string(c));
    assert(byte_string(d) + none =~= byte_string(d));
    lemma_byte_string_prefix(c, none, d, none);
}

/// Reads the fields of a swap.
fn decode_swap(content: &[u8]) -> (r: Option<AmmOutput>)
    ensures
        match r {
            Some(x) => x is SwapV0 && x.decodable() && x.content() == content@,
            None => forall|x: AmmOutput|
                x is SwapV0 && x.decodable() ==> #[trigger] x.content() != content@,
        },
{
    let mut reader = Reader::new(content);
    let numbers: Option<Vec<u64>> = reader.read_u64s(4);
    let ghost rest1 = reader.rest();
    let key: Option<[u8; 33]> = if numbers.is_some() {
        reader.read_array::<33>()
    } else {
        None
    };
    let ghost rest2 = reader.rest();
    let tweak: Option<[u8; 16]> = if key.is_some() {
        reader.read_array::<16>()
    } else {
        None
    };
    let ghost rest3 = reader.rest();
    let pop: Option<[u8; 64]> = if tweak.is_some() {
        reader.read_array::<64>()
    } else {
        None
    };
    let ghost rest4 = reader.rest();
    let done = reader.is_done();
    proof {
        assert forall|x: AmmOutput|
            x is SwapV0 && x.decodable() && #[trigger] x.content()
                == content@ implies numbers is Some && key is Some && tweak is Some && pop is Some
            && done && is_public_key((key->0)@) by {
            if let AmmOutput::SwapV0 {
                unit_in,
                unit_out,
                amount_in,
                min_out,
                recipient_pk,
                tweak: t,
                pop: p,
            } = x {
                let a = seq![unit_in.id, unit_out.id, amount_in.msats, min_out.msats];
                let behind = recipient_pk.bytes@ + (t@ + p@);
                assert(content@ =~= bigsizes(a) + behind);
                lemma_bigsizes_prefix((numbers->0)@, rest1, a, behind);
                lemma_block_prefix((key->0)@, rest2, recipient_pk.bytes@, t@ + p@);
                lemma_block_prefix((tweak->0)@, rest3, t@, p@);
                let none = Seq::<u8>::empty();
                assert(p@ + none =~= p@);
                lemma_block_prefix((pop->0)@, rest4, p@, none);
            }
        }
    }
    match (numbers, key, tweak, pop) {
        (Some(numbers), Some(key), Some(tweak), Some(pop)) if done => {
            match PublicKey::from_bytes(key) {
                Some(recipient_pk) => {
                    let x = AmmOutput::SwapV0 {
                        unit_in: AmountUnit { id: numbers[0] },
                        unit_out: AmountUnit { id: numbers[1] },
                        amount_in: Amount { msats: numbers[2] },
                        min_out: Amount { msats: numbers[3] },
                        recipient_pk,
                        tweak,
                        pop,
                    };
                    proof {
                        assert(numbers@ =~= seq![
                            numbers@[0],
                            numbers@[1],
                            numbers@[2],
                            numbers@[3],
                        ]);
                        assert(content@ =~= x.content());
                    }
                    Some(x)
                },
                None => None,
            }
        },
        _ => None,
    }
}

/// Reads the fields of a deposit.
fn decode_deposit(content: &[u8]) -> (r: Option<AmmOutput>)
    ensures
        match r {
            Some(x) => x is DepositV0 && x.decodable() && x.content() == content@,
            None => forall|x: AmmOutput|
                x is DepositV0 && x.decodable() ==> #[trigger] x.content() != content@,
        },
{
    let mut reader = Reader::new(content);
    let numbers: Option<Vec<u64>> = reader.read_u64s(5);
    let ghost rest1 = reader.rest();
    let key: Option<[u8; 33]> = if numbers.is_some() {
        reader.read_array::<33>()
    } else {
        None
    };
    let ghost rest2 = reader.rest();
    let tweak: Option<[u8; 16]> = if key.is_some() {
        reader.read_array::<16>()
    } else {
        None
    };
    let ghost rest3 = reader.rest();
    let pop: Option<[u8; 64]> = if tweak.is_some() {
        reader.read_array::<64>()
    } else {
        None
    };
    let ghost rest4 = reader.rest();
    let done = reader.is_done();
    proof {
        assert forall|x: AmmOutput|
            x is DepositV0 && x.decodable() && #[trigger] x.content()
                == content@ implies numbers is Some && key is Some && tweak is Some && pop is Some
            && done && is_public_key((key->0)@) && (numbers->0)@[0] < (numbers->0)@[1] by {
            if let AmmOutput::DepositV0 {
                pool,
                amount_lo,
                amount_hi,
                min_shares,
                owner_pk,
                tweak: t,
                pop: p,
            } = x {
                let a = seq![
                    pool.low().id,
                    pool.high().id,
                    amount_lo.msats,
                    amount_hi.msats,
                    min_shares,
                ];
                let behind = owner_pk.bytes@ + (t@ + p@);
                assert(content@ =~= bigsizes(a) + behind);
                lemma_bigsizes_prefix((numbers->0)@, rest1, a, behind);
                lemma_block_prefix((key->0)@, rest2, owner_pk.bytes@, t@ + p@);
                lemma_block_prefix((tweak->0)@, rest3, t@, p@);
                let none = Seq::<u8>::empty();
                assert(p@ + none =~= p@);
                lemma_block_prefix((pop->0)@, rest4, p@, none);
                pool.lemma_is_over();
                assert(a[0] < a[1]);
            }
        }
    }
    match (numbers, key, tweak, pop) {
        (Some(numbers), Some(key), Some(tweak), Some(pop)) if done && numbers[0] < numbers[1] => {
            let pool = PoolId::new(AmountUnit { id: numbers[0] }, AmountUnit { id: numbers[1] });
            match (PublicKey::from_bytes(key), pool) {
                (Some(owner_pk), Some(pool)) => {
                    let x = AmmOutput::DepositV0 {
                        pool,
                        amount_lo: Amount { msats: numbers[2] },
                        amount_hi: Amount { msats: numbers[3] },
                        min_shares: numbers[4],
                        owner_pk,
                        tweak,
                        pop,
                    };
                    proof {
                        PoolId::lemma_over(
                            AmountUnit { id: numbers@[0] },
                            AmountUnit { id: numbers@[1] },
                        );
                        assert(numbers@ =~= seq![
                            numbers@[0],
                            numbers@[1],
                            numbers@[2],
                            numbers@[3],
                            numbers@[4],
                        ]);
                        assert(content@ =~= x.content());
                    }
                    Some(x)
                },
                _ => None,
            }
        },
        _ => None,
    }
}

/// Reading the encoding of an output gives the output back: whatever decodes to
/// the same bytes is the same output.
pub proof fn law_output_encoding_is_unambiguous(x: AmmOutput, y: AmmOutput)
    requires
        x.decodable(),
        y.decodable(),
        x.content().len() <= u64::MAX,
        y.content().len() <= u64::MAX,
        x.encoded() == y.encoded(),
    ensures
        x.same(y),
{
    lemma_variant_unique(x.variant_number(), x.content(), y.variant_number(), y.content());
    match (x, y) {
        (
            AmmOutput::SwapV0 {
                unit_in,
                unit_out,
                amount_in,
                min_out,
                recipient_pk,
                tweak,
                pop,
            },
            AmmOutput::SwapV0 {
                unit_in: unit_in2,
                unit_out: unit_out2,
                amount_in: amount_in2,
                min_out: min_out2,
                recipient_pk: recipient_pk2,
                tweak: tweak2,
                pop: pop2,
            },
        ) => {
            lemma_swap_fields_prefix(
                unit_in,
                unit_out,
                amount_in,
                min_out,
                recipient_pk,
                tweak,
                pop@,
                unit_in2,
                unit_out2,
                amount_in2,
                min_out2,
                recipient_pk2,
                tweak2,
                pop2@,
            );
            assert(pop =~= pop2);
        },
        (
            AmmOutput::DepositV0 {
                pool,
                amount_lo,
                amount_hi,
                min_shares,
                owner_pk,
                tweak,
                pop,
            },
            AmmOutput::DepositV0 {
                pool: pool2,
                amount_lo: amount_lo2,
                amount_hi: amount_hi2,
                min_shares: min_shares2,
                owner_pk: owner_pk2,
                tweak: tweak2,
                pop: pop2,
            },
        ) => {
            lemma_deposit_fields_prefix(
                pool,
                amount_lo,
                amount_hi,
                min_shares,
                owner_pk,
                tweak,
                pop@,
                pool2,
                amount_lo2,
                amount_hi2,
                min_shares2,
                owner_pk2,
                tweak2,
                pop2@,
            );
            assert(pop =~= pop2);
        },
        _ => {},
    }
}

impl AmmInput {
    /// The number of the input's kind.
    pub open spec fn variant_number(self) -> u64 {
        match self {
            AmmInput::ClaimBalanceV0 { .. } => 0,
            AmmInput::WithdrawV0 { .. } => 1,
            AmmInput::Default { variant, .. } => variant,
        }
    }

    /// The input's fields, encoded in order.
    pub open spec fn content(self) -> Seq<u8> {
        match self {
            AmmInput::ClaimBalanceV0 { pubkey, unit } => pubkey.bytes@ + bigsize(unit.id),
            AmmInput::WithdrawV0 { pool, owner_pk, shares, min_lo, min_hi, max_lo, max_hi } =>
                bigsizes(seq![pool.low().id, pool.high().id]) + owner_pk.bytes@ + bigsizes(
                seq![shares, min_lo.msats, min_hi.msats, max_lo.msats, max_hi.msats],
            ),
            AmmInput::Default { variant, bytes } => bytes@,
        }
    }

    /// The consensus encoding: the number of the kind, then the fields as one
    /// byte string.
    pub open spec fn encoded(self) -> Seq<u8> {
        bigsize(self.variant_number()) + byte_string(self.content())
    }

    /// Whether the encoding reads back as this input.
    pub open spec fn decodable(self) -> bool {
        match self {
            AmmInput::ClaimBalanceV0 { pubkey, .. } => pubkey.valid(),
            AmmInput::WithdrawV0 { pool, owner_pk, .. } => pool.canonical() && owner_pk.valid(),
            AmmInput::Default { variant, bytes } => variant >= 2,
        }
    }

    /// The same input, a carried byte string compared by its bytes.
    pub open spec fn same(self, other: AmmInput) -> bool {
        match (self, other) {
            (
                AmmInput::Default { variant: v, bytes: b },
                AmmInput::Default { variant: w, bytes: c },
            ) => v == w && b@ == c@,
            _ => self == other,
        }
    }

    /// The consensus encoding.
    pub fn encode(&self) -> (r: Vec<u8>)
        ensures
            r@ == self.encoded(),
    {
        let mut content: Vec<u8> = Vec::new();
        let number: u64 = match self {
            AmmInput::ClaimBalanceV0 { pubkey, unit } => {
                append_bytes(&mut content, pubkey.bytes.as_slice());
                let numbers: [u64; 1] = [unit.id];
                append_u64s(&mut content, numbers.as_slice());
                proof {
                    assert(numbers@ =~= seq![unit.id]);
                    lemma_bigsizes_one(unit.id);
                }
                0
            },
            AmmInput::WithdrawV0 { pool, owner_pk, shares, min_lo, min_hi, max_lo, max_hi } => {
                let units: [u64; 2] = [pool.lo().id, pool.hi().id];
                append_u64s(&mut content, units.as_slice());
                append_bytes(&mut content, owner_pk.bytes.as_slice());
                let numbers: [u64; 5] = [
                    *shares,
                    min_lo.msats,
                    min_hi.msats,
                    max_lo.msats,
                    max_hi.msats,
                ];
                append_u64s(&mut content, numbers.as_slice());
                proof {
                    assert(units@ =~= seq![pool.low().id, pool.high().id]);
                    assert(numbers@ =~= seq![
                        *shares,
                        min_lo.msats,
                        min_hi.msats,
                        max_lo.msats,
                        max_hi.msats,
                    ]);
                }
                1
            },
            AmmInput::Default { variant, bytes } => {
                append_bytes(&mut content, bytes.as_slice());
                *variant
            },
        };
        assert(content@ =~= self.content());
        encode_variant(number, content.as_slice())
    }

    /// Reads a consensus encoding. Exactly the encodings of decodable inputs
    /// are accepted, with nothing left over.
    pub fn decode(bytes: &[u8]) -> (r: Option<AmmInput>)
        ensures
            match r {
                Some(x) => x.decodable() && x.encoded() == bytes@,
                None => forall|x: AmmInput|
                    x.decodable() && x.content().len() <= u64::MAX ==> #[trigger] x.encoded()
                        != bytes@,
            },
    {
        let (number, content) = match decode_variant(bytes) {
            Some(parts) => parts,
            None => return None,
        };
        let decoded: Option<AmmInput> = if number == 0 {
            decode_claim(content.as_slice())
        } else if number == 1 {
            decode_withdraw(content.as_slice())
        } else {
            Some(AmmInput::Default { variant: number, bytes: content })
        };
        proof {
            assert forall|x: AmmInput|
                x.decodable() && x.content().len() <= u64::MAX && #[trigger] x.encoded()
                    == bytes@ implies decoded is Some by {
                lemma_variant_unique(x.variant_number(), x.content(), number, content@);
                match x {
                    AmmInput::ClaimBalanceV0 { .. } => {},
                    AmmInput::WithdrawV0 { .. } => {},
                    AmmInput::Default { .. } => {},
                }
            }
        }
        decoded
    }
}

/// One integer is a row of one.
pub proof fn lemma_bigsizes_one(v: u64)
    ensures
        bigsizes(seq![v]) == bigsize(v),
{
    assert(seq![v].skip(1) =~= Seq::<u64>::empty());
    assert(bigsizes(seq![v].skip(1)) =~= Seq::<u8>::empty());
    assert(bigsizes(seq![v]) =~= bigsize(v));
}

/// Reads the fields of a claim.
fn decode_claim(content: &[u8]) -> (r: Option<AmmInput>)
    ensures
        match r {
            Some(x) => x is ClaimBalanceV0 && x.decodable() && x.content() == content@,
            None => forall|x: AmmInput|
                x is ClaimBalanceV0 && x.decodable() ==> #[trigger] x.content() != content@,
        },
{
    let mut reader = Reader::new(content);
    let key: Option<[u8; 33]> = reader.read_array::<33>();
    let ghost rest1 = reader.rest();
    let unit: Option<u64> = if key.is_some() {
        reader.read_u64()
    } else {
        None
    };
    let ghost rest2 = reader.rest();
    let done = reader.is_done();
    proof {
        assert forall|x: AmmInput|
            x is ClaimBalanceV0 && x.decodable() && #[trigger] x.content()
                == content@ implies key is Some && unit is Some && done && is_public_key(
            (key->0)@,
        ) by {
            if let AmmInput::ClaimBalanceV0 { pubkey, unit: u } = x {
                lemma_block_prefix((key->0)@, rest1, pubkey.bytes@, bigsize(u.id));
                let none = Seq::<u8>::empty();
                assert(bigsize(u.id) + none =~= bigsize(u.id));
                lemma_bigsize_prefix(unit->0, rest2, u.id, none);
            }
        }
    }
    match (key, unit) {
        (Some(key), Some(unit)) if done => {
            match PublicKey::from_bytes(key) {
                Some(pubkey) => {
                    let x = AmmInput::ClaimBalanceV0 { pubkey, unit: AmountUnit { id: unit } };
                    assert(content@ =~= x.content());
                    Some(x)
                },
                None => None,
            }
        },
        _ => None,
    }
}

/// Reads the fields of a withdrawal.
fn decode_withdraw(content: &[u8]) -> (r: Option<AmmInput>)
    ensures
        match r {
            Some(x) => x is WithdrawV0 && x.decodable() && x.content() == content@,
            None => forall|x: AmmInput|
                x is WithdrawV0 && x.decodable() ==> #[trigger] x.content() != content@,
        },
{
    let mut reader = Reader::new(content);
    let units: Option<Vec<u64>> = reader.read_u64s(2);
    let ghost rest1 = reader.rest();
    let key: Option<[u8; 33]> = if units.is_some() {
        reader.read_array::<33>()
    } else {
        None
    };
    let ghost rest2 = reader.rest();
    let numbers: Option<Vec<u64>> = if key.is_some() {
        reader.read_u64s(5)
    } else {
        None
    };
    let ghost rest3 = reader.rest();
    let done = reader.is_done();
    proof {
        assert forall|x: AmmInput|
            x is WithdrawV0 && x.decodable() && #[trigger] x.content()
                == content@ implies units is Some && key is Some && numbers is Some && done
            && is_public_key((key->0)@) && (units->0)@[0] < (units->0)@[1] by {
            if let AmmInput::WithdrawV0 {
                pool,
                owner_pk,
                shares,
                min_lo,
                min_hi,
                max_lo,
                max_hi,
            } = x {
                let a = seq![pool.low().id, pool.high().id];
                let b = seq![shares, min_lo.msats, min_hi.msats, max_lo.msats, max_hi.msats];
                assert(content@ =~= bigsizes(a) + (owner_pk.bytes@ + bigsizes(b)));
                lemma_bigsizes_prefix((units->0)@, rest1, a, owner_pk.bytes@ + bigsizes(b));
                lemma_block_prefix((key->0)@, rest2, owner_pk.bytes@, bigsizes(b));
                let none = Seq::<u8>::empty();
                assert(bigsizes(b) + none =~= bigsizes(b));
                lemma_bigsizes_prefix((numbers->0)@, rest3, b, none);
                pool.lemma_is_over();
                assert(a[0] < a[1]);
            }
        }
    }
    match (units, key, numbers) {
        (Some(units), Some(key), Some(numbers)) if done && units[0] < units[1] => {
            let pool = PoolId::new(AmountUnit { id: units[0] }, AmountUnit { id: units[1] });
            match (PublicKey::from_bytes(key), pool) {
                (Some(owner_pk), Some(pool)) => {
                    let x = AmmInput::WithdrawV0 {
                        pool,
                        owner_pk,
                        shares: numbers[0],
                        min_lo: Amount { msats: numbers[1] },
                        min_hi: Amount { msats: numbers[2] },
                        max_lo: Amount { msats: numbers[3] },
                        max_hi: Amount { msats: numbers[4] },
                    };
                    proof {
                        PoolId::lemma_over(
                            AmountUnit { id: units@[0] },
                            AmountUnit { id: units@[1] },
                        );
                        assert(units@ =~= seq![units@[0], units@[1]]);
                        assert(numbers@ =~= seq![
                            numbers@[0],
                            numbers@[1],
                            numbers@[2],
                            numbers@[3],
                            numbers@[4],
                        ]);
                        assert(content@ =~= x.content());
                    }
                    Some(x)
                },
                _ => None,
            }
        },
        _ => None,
    }
}

/// Reading the encoding of an input gives the input back: whatever decodes to
/// the same bytes is the same input.
pub proof fn law_input_encoding_is_unambiguous(x: AmmInput, y: AmmInput)
    requires
        x.decodable(),
        y.decodable(),
        x.content().len() <= u64::MAX,
        y.content().len() <= u64::MAX,
        x.encoded() == y.encoded(),
    ensures
        x.same(y),
{
    lemma_variant_unique(x.variant_number(), x.content(), y.variant_number(), y.content());
    match (x, y) {
        (
            AmmInput::ClaimBalanceV0 { pubkey, unit },
            AmmInput::ClaimBalanceV0 { pubkey: pubkey2, unit: unit2 },
        ) => {
            let none = Seq::<u8>::empty();
            lemma_block_prefix(pubkey.bytes@, bigsize(unit.id), pubkey2.bytes@, bigsize(unit2.id));
            assert(bigsize(unit.id) + none =~= bigsize(unit.id));
            assert(bigsize(unit2.id) + none =~= bigsize(unit2.id));
            lemma_bigsize_prefix(unit.id, none, unit2.id, none);
            assert(pubkey.bytes =~= pubkey2.bytes);
        },
        (
            AmmInput::WithdrawV0 { pool, owner_pk, shares, min_lo, min_hi, max_lo, max_hi },
            AmmInput::WithdrawV0 {
                pool: pool2,
                owner_pk: owner_pk2,
                shares: shares2,
                min_lo: min_lo2,
                min_hi: min_hi2,
                max_lo: max_lo2,
                max_hi: max_hi2,
            },
        ) => {
            let none = Seq::<u8>::empty();
            let a = seq![pool.low().id, pool.high().id];
            let a2 = seq![pool2.low().id, pool2.high().id];
            let k = owner_pk.bytes@;
            let k2 = owner_pk2.bytes@;
            let b = seq![shares, min_lo.msats, min_hi.msats, max_lo.msats, max_hi.msats];
            let b2 = seq![shares2, min_lo2.msats, min_hi2.msats, max_lo2.msats, max_hi2.msats];
            assert(x.content() =~= bigsizes(a) + (k + bigsizes(b)));
            assert(y.content() =~= bigsizes(a2) + (k2 + bigsizes(b2)));
            lemma_bigsizes_prefix(a, k + bigsizes(b), a2, k2 + bigsizes(b2));
            lemma_block_prefix(k, bigsizes(b), k2, bigsizes(b2));
            assert(bigsizes(b) + none =~= bigsizes(b));
            assert(bigsizes(b2) + none =~= bigsizes(b2));
            lemma_bigsizes_prefix(b, none, b2, none);
            assert(a[0] == a2[0] && a[1] == a2[1]);
            assert(b[0] == b2[0] && b[1] == b2[1] && b[2] == b2[2] && b[3] == b2[3] && b[4]
                == b2[4]);
            assert(owner_pk.bytes =~= owner_pk2.bytes);
            pool.lemma_is_over();
            pool2.lemma_is_over();
        },
        _ => {},
    }
}

impl AmmConsensusItem {
    /// The number of the item's kind.
    pub open spec fn variant_number(self) -> u64 {
        match self {
            AmmConsensusItem::FeeVoteV0 { .. } => 0,
            AmmConsensusItem::Default { variant, .. } => variant,
        }
    }

    /// The item's fields, encoded in order.
    pub open spec fn content(self) -> Seq<u8> {
        match self {
            AmmConsensusItem::FeeVoteV0 { pool, fee_per_mille } => bigsizes(
                seq![pool.low().id, pool.high().id, fee_per_mille as u64],
            ),
            AmmConsensusItem::Default { variant, bytes } => bytes@,
        }
    }

    /// The consensus encoding: the number of the kind, then the fields as one
    /// byte string.
    pub open spec fn encoded(self) -> Seq<u8> {
        bigsize(self.variant_number()) + byte_string(self.content())
    }

    /// Whether the encoding reads back as this item.
    pub open spec fn decodable(self) -> bool {
        match self {
            AmmConsensusItem::FeeVoteV0 { pool, .. } => pool.canonical(),
            AmmConsensusItem::Default { variant, bytes } => variant >= 1,
        }
    }

    /// The same item, a carried byte string compared by its bytes.
    pub open spec fn same(self, other: AmmConsensusItem) -> bool {
        match (self, other) {
            (
                AmmConsensusItem::Default { variant: v, bytes: b },
                AmmConsensusItem::Default { variant: w, bytes: c },
            ) => v == w && b@ == c@,
            _ => self == other,
        }
    }

    /// The consensus encoding.
    pub fn encode(&self) -> (r: Vec<u8>)
        ensures
            r@ == self.encoded(),
    {
        let mut content: Vec<u8> = Vec::new();
        let number: u64 = match self {
            AmmConsensusItem::FeeVoteV0 { pool, fee_per_mille } => {
                let numbers: [u64; 3] = [pool.lo().id, pool.hi().id, *fee_per_mille as u64];
                append_u64s(&mut content, numbers.as_slice());
                assert(numbers@ =~= seq![pool.low().id, pool.high().id, *fee_per_mille as u64]);
                0
            },
            AmmConsensusItem::Default { variant, bytes } => {
                append_bytes(&mut content, bytes.as_slice());
                *variant
            },
        };
        assert(content@ =~= self.content());
        encode_variant(number, content.as_slice())
    }

    /// Reads a consensus encoding. Exactly the encodings of decodable items are
    /// accepted, with nothing left over.
    pub fn decode(bytes: &[u8]) -> (r: Option<AmmConsensusItem>)
        ensures
            match r {
                Some(x) => x.decodable() && x.encoded() == bytes@,
                None => forall|x: AmmConsensusItem|
                    x.decodable() && x.content().len() <= u64::MAX ==> #[trigger] x.encoded()
                        != bytes@,
            },
    {
        let (number, content) = match decode_variant(bytes) {
            Some(parts) => parts,
            None => return None,
        };
        let decoded: Option<AmmConsensusItem> = if number == 0 {
            decode_fee_vote(content.as_slice())
        } else {
            Some(AmmConsensusItem::Default { variant: number, bytes: content })
        };
        proof {
            assert forall|x: AmmConsensusItem|
                x.decodable() && x.content().len() <= u64::MAX && #[trigger] x.encoded()
                    == bytes@ implies decoded is Some by {
                lemma_variant_unique(x.variant_number(), x.content(), number, content@);
                match x {
                    AmmConsensusItem::FeeVoteV0 { .. } => {},
                    AmmConsensusItem::Default { .. } => {},
                }
            }
        }
        decoded
    }
}

/// Reads the fields of a fee vote.
fn decode_fee_vote(content: &[u8]) -> (r: Option<AmmConsensusItem>)
    ensures
        match r {
            Some(x) => x is FeeVoteV0 && x.decodable() && x.content() == content@,
            None => forall|x: AmmConsensusItem|
                x is FeeVoteV0 && x.decodable() ==> #[trigger] x.content() != content@,
        },
{
    let mut reader = Reader::new(content);
    let numbers: Option<Vec<u64>> = reader.read_u64s(3);
    let ghost rest = reader.rest();
    let done = reader.is_done();
    proof {
        assert forall|x: AmmConsensusItem|
            x is FeeVoteV0 && x.decodable() && #[trigger] x.content()
                == content@ implies numbers is Some && done && (numbers->0)@[0] < (numbers->0)@[1]
            && (numbers->0)@[2] <= u16::MAX by {
            if let AmmConsensusItem::FeeVoteV0 { pool, fee_per_mille } = x {
                let a = seq![pool.low().id, pool.high().id, fee_per_mille as u64];
                let none = Seq::<u8>::empty();
                assert(bigsizes(a) + none =~= bigsizes(a));
                lemma_bigsizes_prefix((numbers->0)@, rest, a, none);
                pool.lemma_is_over();
                assert(a[0] < a[1] && a[2] <= u16::MAX);
            }
        }
    }
    match numbers {
        Some(numbers) if done && numbers[0] < numbers[1] && numbers[2] <= u16::MAX as u64 => {
            match PoolId::new(AmountUnit { id: numbers[0] }, AmountUnit { id: numbers[1] }) {
                Some(pool) => {
                    let x = AmmConsensusItem::FeeVoteV0 {
                        pool,
                        fee_per_mille: numbers[2] as u16,
                    };
                    proof {
                        PoolId::lemma_over(
                            AmountUnit { id: numbers@[0] },
                            AmountUnit { id: numbers@[1] },
                        );
                        assert(numbers@ =~= seq![numbers@[0], numbers@[1], numbers@[2]]);
                        assert(content@ =~= x.content());
                    }
                    Some(x)
                },
                None => None,
            }
        },
        _ => None,
    }
}

/// Reading the encoding of a consensus item gives the item back.
pub proof fn law_consensus_item_encoding_is_unambiguous(x: AmmConsensusItem, y: AmmConsensusItem)
    requires
        x.decodable(),
        y.decodable(),
        x.content().len() <= u64::MAX,
        y.content().len() <= u64::MAX,
        x.encoded() == y.encoded(),
    ensures
        x.same(y),
{
    lemma_variant_unique(x.variant_number(), x.content(), y.variant_number(), y.content());
    match (x, y) {
        (
            AmmConsensusItem::FeeVoteV0 { pool, fee_per_mille },
            AmmConsensusItem::FeeVoteV0 { pool: pool2, fee_per_mille: fee2 },
        ) => {
            let none = Seq::<u8>::empty();
            let a = seq![pool.low().id, pool.high().id, fee_per_mille as u64];
            let b = seq![pool2.low().id, pool2.high().id, fee2 as u64];
            assert(bigsizes(a) + none =~= bigsizes(a));
            assert(bigsizes(b) + none =~= bigsizes(b));
            lemma_bigsizes_prefix(a, none, b, none);
            assert(a[0] == b[0] && a[1] == b[1] && a[2] == b[2]);
            pool.lemma_is_over();
            pool2.lemma_is_over();
        },
        _ => {},
    }
}

impl AmmOutputOutcome {
    /// The consensus encoding: nothing.
    pub open spec fn encoded(self) -> Seq<u8> {
        Seq::empty()
    }

    /// The consensus encoding.
    pub fn encode(&self) -> (r: Vec<u8>)
        ensures
            r@ == self.encoded(),
    {
        Vec::new()
    }

    /// Reads a consensus encoding.
    pub fn decode(bytes: &[u8]) -> (r: Option<AmmOutputOutcome>)
        ensures
            r == (if bytes@ == AmmOutputOutcome.encoded() {
                Some(AmmOutputOutcome)
            } else {
                None::<AmmOutputOutcome>
            }),
    {
        if bytes.len() == 0 {
            assert(bytes@ =~= Seq::<u8>::empty());
            Some(AmmOutputOutcome)
        } else {
            None
        }
    }
}

} // verus!
