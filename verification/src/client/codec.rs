//! The consensus encodings of operations in progress, by which they survive a
//! restart.

use vstd::prelude::*;
use vstd::string::*;
use vstd::utf8::encode_utf8;

use crate::bytes::append_bytes;
use crate::client::db::{OperationId, TransactionId};
use crate::client::single_tx::{
    DepositCommon, DepositState, DepositStateMachine, WithdrawCommon, WithdrawState,
    WithdrawStateMachine,
};
use crate::client::swap::{SwapCommon, SwapState, SwapStateMachine};
use crate::codec::{encode_variant, lemma_variant_unique};
use crate::crypto::{is_public_key, public_key_of, Keypair, PublicKey};
use crate::encoding::{
    append_text, bigsize, byte_string, encode_u64, lemma_bigsize_prefix, lemma_block_prefix,
    lemma_byte_string_prefix, lemma_text_prefix, text_bytes, Reader,
};
use crate::pool_id::{law_pool_encoding_is_unambiguous, PoolId};
use crate::units::AmountUnit;

verus! {

impl SwapState {
    /// The number of the state's kind.
    pub open spec fn variant_number(self) -> u64 {
        match self {
            SwapState::Tx1Submitted { .. } => 0,
            SwapState::Tx1Rejected(_) => 1,
            SwapState::Tx1Accepted { .. } => 2,
            SwapState::Tx2Failed { .. } => 3,
            SwapState::Tx2Submitted { .. } => 4,
            SwapState::Done => 5,
        }
    }

    /// The state's fields, encoded in order.
    pub open spec fn content(self) -> Seq<u8> {
        match self {
            SwapState::Tx1Submitted { txid } => txid.bytes@,
            SwapState::Tx1Rejected(error) => text_bytes(error@),
            SwapState::Tx1Accepted { attempts } => bigsize(attempts as u64),
            SwapState::Tx2Failed { attempts, error } => bigsize(attempts as u64) + text_bytes(
                error@,
            ),
            SwapState::Tx2Submitted { txid, attempts } => txid.bytes@ + bigsize(attempts as u64),
            SwapState::Done => Seq::empty(),
        }
    }

    /// Whether the texts in it can be encoded.
    pub open spec fn encodable(self) -> bool {
        match self {
            SwapState::Tx1Rejected(error) => encode_utf8(error@).len() <= u64::MAX,
            SwapState::Tx2Failed { attempts, error } => encode_utf8(error@).len() <= u64::MAX,
            _ => true,
        }
    }

    /// The same state, texts compared by their characters.
    pub open spec fn same(self, other: SwapState) -> bool {
        match (self, other) {
            (SwapState::Tx1Rejected(a), SwapState::Tx1Rejected(b)) => a@ == b@,
            (
                SwapState::Tx2Failed { attempts: m, error: a },
                SwapState::Tx2Failed { attempts: n, error: b },
            ) => m == n && a@ == b@,
            _ => self == other,
        }
    }

    /// A state is determined by its kind and its fields.
    proof fn lemma_unique(self, other: SwapState)
        requires
            self.encodable(),
            other.encodable(),
            self.variant_number() == other.variant_number(),
            self.content() == other.content(),
        ensures
            self.same(other),
    {
        let none = Seq::<u8>::empty();
        match (self, other) {
            (SwapState::Tx1Submitted { txid: a }, SwapState::Tx1Submitted { txid: b }) => {
                assert(a.bytes =~= b.bytes);
            },
            (SwapState::Tx1Rejected(a), SwapState::Tx1Rejected(b)) => {
                assert(text_bytes(a@) + none =~= text_bytes(a@));
                assert(text_bytes(b@) + none =~= text_bytes(b@));
                lemma_text_prefix(a@, none, b@, none);
            },
            (SwapState::Tx1Accepted { attempts: m }, SwapState::Tx1Accepted { attempts: n }) => {
                assert(bigsize(m as u64) + none =~= bigsize(m as u64));
                assert(bigsize(n as u64) + none =~= bigsize(n as u64));
                lemma_bigsize_prefix(m as u64, none, n as u64, none);
            },
            (
                SwapState::Tx2Failed { attempts: m, error: a },
                SwapState::Tx2Failed { attempts: n, error: b },
            ) => {
                lemma_bigsize_prefix(m as u64, text_bytes(a@), n as u64, text_bytes(b@));
                assert(text_bytes(a@) + none =~= text_bytes(a@));
                assert(text_bytes(b@) + none =~= text_bytes(b@));
                lemma_text_prefix(a@, none, b@, none);
            },
            (
                SwapState::Tx2Submitted { txid: a, attempts: m },
                SwapState::Tx2Submitted { txid: b, attempts: n },
            ) => {
                lemma_block_prefix(a.bytes@, bigsize(m as u64), b.bytes@, bigsize(n as u64));
                assert(bigsize(m as u64) + none =~= bigsize(m as u64));
                assert(bigsize(n as u64) + none =~= bigsize(n as u64));
                lemma_bigsize_prefix(m as u64, none, n as u64, none);
                assert(a.bytes =~= b.bytes);
            },
            _ => {},
        }
    }

    fn encode(&self) -> (r: (u64, Vec<u8>))
        ensures
            r.0 == self.variant_number(),
            r.1@ == self.content(),
    {
        let mut out: Vec<u8> = Vec::new();
        let number: u64 = match self {
            SwapState::Tx1Submitted { txid } => {
                append_bytes(&mut out, txid.bytes.as_slice());
                0
            },
            SwapState::Tx1Rejected(error) => {
                append_text(&mut out, error.as_str());
                1
            },
            SwapState::Tx1Accepted { attempts } => {
                append_bytes(&mut out, encode_u64(*attempts as u64).as_slice());
                2
            },
            SwapState::Tx2Failed { attempts, error } => {
                append_bytes(&mut out, encode_u64(*attempts as u64).as_slice());
                append_text(&mut out, error.as_str());
                3
            },
            SwapState::Tx2Submitted { txid, attempts } => {
                append_bytes(&mut out, txid.bytes.as_slice());
                append_bytes(&mut out, encode_u64(*attempts as u64).as_slice());
                4
            },
            SwapState::Done => 5,
        };
        assert(out@ =~= self.content());
        (number, out)
    }

    fn decode(number: u64, content: &[u8]) -> (r: Option<SwapState>)
        ensures
            match r {
                Some(x) => x.encodable() && x.variant_number() == number && x.content() == content@,
                None => forall|x: SwapState|
                    x.encodable() && x.variant_number() == number ==> #[trigger] x.content()
                        != content@,
            },
    {
        if number == 0 || number == 4 {
            SwapState::decode_submitted(number, content)
        } else if number == 1 || number == 3 {
            SwapState::decode_failed(number, content)
        } else if number == 2 {
            SwapState::decode_accepted(content)
        } else if number == 5 && content.len() == 0 {
            let x = SwapState::Done;
            assert(x.content() =~= content@);
            Some(x)
        } else {
            None
        }
    }

    fn decode_submitted(number: u64, content: &[u8]) -> (r: Option<SwapState>)
        requires
            number == 0 || number == 4,
        ensures
            match r {
                Some(x) => x.encodable() && x.variant_number() == number && x.content() == content@,
                None => forall|x: SwapState|
                    x.variant_number() == number ==> #[trigger] x.content() != content@,
            },
    {
        let mut reader = Reader::new(content);
        let ghost none = Seq::<u8>::empty();
        let txid: Option<[u8; 32]> = reader.read_array::<32>();
        let ghost rest1 = reader.rest();
        let attempts: Option<u64> = if number == 4 && txid.is_some() {
            reader.read_u64()
        } else {
            None
        };
        let ghost rest2 = reader.rest();
        let done = reader.is_done();
        proof {
            assert forall|x: SwapState|
                x.variant_number() == number && #[trigger] x.content() == content@ implies txid
                is Some && done && (number == 4 ==> attempts is Some && attempts->0
                <= u32::MAX) by {
                match x {
                    SwapState::Tx1Submitted { txid: t } => {
                        assert(t.bytes@ + none =~= t.bytes@);
                        lemma_block_prefix((txid->0)@, rest1, t.bytes@, none);
                    },
                    SwapState::Tx2Submitted { txid: t, attempts: m } => {
                        lemma_block_prefix((txid->0)@, rest1, t.bytes@, bigsize(m as u64));
                        assert(bigsize(m as u64) + none =~= bigsize(m as u64));
                        lemma_bigsize_prefix(attempts->0, rest2, m as u64, none);
                    },
                    _ => {},
                }
            }
        }
        match (txid, attempts) {
            (Some(bytes), None) if done && number == 0 => {
                let x = SwapState::Tx1Submitted { txid: TransactionId { bytes } };
                assert(x.content() =~= content@);
                Some(x)
            },
            (Some(bytes), Some(attempts)) if done && attempts <= u32::MAX as u64 => {
                let x = SwapState::Tx2Submitted {
                    txid: TransactionId { bytes },
                    attempts: attempts as u32,
                };
                assert(x.content() =~= content@);
                Some(x)
            },
            _ => None,
        }
    }

    fn decode_failed(number: u64, content: &[u8]) -> (r: Option<SwapState>)
        requires
            number == 1 || number == 3,
        ensures
            match r {
                Some(x) => x.encodable() && x.variant_number() == number && x.content() == content@,
                None => forall|x: SwapState|
                    x.encodable() && x.variant_number() == number ==> #[trigger] x.content()
                        != content@,
            },
    {
        let mut reader = Reader::new(content);
        let ghost none = Seq::<u8>::empty();
        let attempts: Option<u64> = if number == 3 {
            reader.read_u64()
        } else {
            None
        };
        let ghost rest1 = reader.rest();
        let error: Option<String> = if number == 1 || attempts.is_some() {
            reader.read_text()
        } else {
            None
        };
        let ghost rest2 = reader.rest();
        let done = reader.is_done();
        proof {
            assert forall|x: SwapState|
                x.encodable() && x.variant_number() == number && #[trigger] x.content()
                    == content@ implies error is Some && done && (number == 3 ==> attempts is Some
                && attempts->0 <= u32::MAX) by {
                match x {
                    SwapState::Tx1Rejected(e) => {
                        assert(text_bytes(e@) + none =~= text_bytes(e@));
                        lemma_text_prefix((error->0)@, rest2, e@, none);
                    },
                    SwapState::Tx2Failed { attempts: m, error: e } => {
                        lemma_bigsize_prefix(attempts->0, rest1, m as u64, text_bytes(e@));
                        assert(text_bytes(e@) + none =~= text_bytes(e@));
                        lemma_text_prefix((error->0)@, rest2, e@, none);
                    },
                    _ => {},
                }
            }
        }
        match (attempts, error) {
            (None, Some(error)) if done && number == 1 => {
                let x = SwapState::Tx1Rejected(error);
                assert(x.content() =~= content@);
                Some(x)
            },
            (Some(attempts), Some(error)) if done && attempts <= u32::MAX as u64 => {
                let x = SwapState::Tx2Failed { attempts: attempts as u32, error };
                assert(x.content() =~= content@);
                Some(x)
            },
            _ => None,
        }
    }

    fn decode_accepted(content: &[u8]) -> (r: Option<SwapState>)
        ensures
            match r {
                Some(x) => x.encodable() && x.variant_number() == 2 && x.content() == content@,
                None => forall|x: SwapState|
                    x.variant_number() == 2 ==> #[trigger] x.content() != content@,
            },
    {
        let mut reader = Reader::new(content);
        let ghost none = Seq::<u8>::empty();
        let attempts: Option<u64> = reader.read_u64();
        let ghost rest1 = reader.rest();
        let done = reader.is_done();
        proof {
            assert forall|x: SwapState|
                x.variant_number() == 2 && #[trigger] x.content() == content@ implies attempts
                is Some && done && attempts->0 <= u32::MAX by {
                if let SwapState::Tx1Accepted { attempts: m } = x {
                    assert(bigsize(m as u64) + none =~= bigsize(m as u64));
                    lemma_bigsize_prefix(attempts->0, rest1, m as u64, none);
                }
            }
        }
        match attempts {
            Some(attempts) if done && attempts <= u32::MAX as u64 => {
                let x = SwapState::Tx1Accepted { attempts: attempts as u32 };
                assert(x.content() =~= content@);
                Some(x)
            },
            _ => None,
        }
    }
}

impl SwapCommon {
    /// The fields, encoded in order.
    pub open spec fn encoded(self) -> Seq<u8> {
        self.operation_id.bytes@ + bigsize(self.unit_out.id) + self.recipient_keypair.secret_bytes()
    }
}

impl SwapStateMachine {
    /// The consensus encoding: what stays the same, then the state.
    pub open spec fn encoded(self) -> Seq<u8> {
        self.common.encoded() + (bigsize(self.state.variant_number()) + byte_string(
            self.state.content(),
        ))
    }

    /// Whether the encoding reads back as this machine.
    pub open spec fn decodable(self) -> bool {
        &&& self.common.recipient_keypair.genuine()
        &&& self.state.encodable()
        &&& self.state.content().len() <= u64::MAX
    }

    /// The same machine, texts compared by their characters.
    pub open spec fn same(self, other: SwapStateMachine) -> bool {
        self.common == other.common && self.state.same(other.state)
    }

    /// The consensus encoding.
    pub fn encode(&self) -> (r: Vec<u8>)
        ensures
            r@ == self.encoded(),
    {
        let mut out: Vec<u8> = Vec::new();
        append_bytes(&mut out, self.common.operation_id.bytes.as_slice());
        append_bytes(&mut out, encode_u64(self.common.unit_out.id).as_slice());
        let secret = self.common.recipient_keypair.secret();
        append_bytes(&mut out, secret.as_slice());
        assert(out@ =~= self.common.encoded());
        let (number, content) = self.state.encode();
        append_bytes(&mut out, encode_variant(number, content.as_slice()).as_slice());
        out
    }

    /// Reads a consensus encoding. Exactly the encodings of decodable machines
    /// are accepted, with nothing left over.
    pub fn decode(bytes: &[u8]) -> (r: Option<SwapStateMachine>)
        ensures
            match r {
                Some(x) => x.decodable() && x.encoded() == bytes@,
                None => forall|x: SwapStateMachine|
                    x.decodable() ==> #[trigger] x.encoded() != bytes@,
            },
    {
        let mut reader = Reader::new(bytes);
        let common: Option<SwapCommon> = SwapCommon::read(&mut reader);
        let ghost rest0 = reader.rest();
        let number: Option<u64> = if common.is_some() {
            reader.read_u64()
        } else {
            None
        };
        let ghost rest1 = reader.rest();
        let content: Option<Vec<u8>> = if number.is_some() {
            reader.read_byte_string()
        } else {
            None
        };
        let ghost rest2 = reader.rest();
        let done = reader.is_done();
        let state: Option<SwapState> = match (number, &content) {
            (Some(number), Some(content)) => SwapState::decode(number, content.as_slice()),
            _ => None,
        };
        proof {
            assert forall|x: SwapStateMachine|
                x.decodable() && #[trigger] x.encoded() == bytes@ implies common is Some && state
                is Some && done by {
                let none = Seq::<u8>::empty();
                let n = x.state.variant_number();
                let c = x.state.content();
                let behind = bigsize(n) + byte_string(c);
                SwapCommon::lemma_prefix(common->0, rest0, x.common, behind);
                lemma_bigsize_prefix(number->0, rest1, n, byte_string(c));
                assert(byte_string(c) + none =~= byte_string(c));
                if content is Some {
                    lemma_byte_string_prefix((content->0)@, rest2, c, none);
                }
            }
        }
        match (common, state) {
            (Some(common), Some(state)) if done => {
                let x = SwapStateMachine { common, state };
                proof {
                    let c = (content->0)@;
                    assert(byte_string(c) + rest2 =~= byte_string(c));
                    assert(x.encoded() =~= bytes@);
                }
                Some(x)
            },
            _ => None,
        }
    }
}

impl SwapCommon {
    /// Reads the fields off the front of a byte string.
    fn read(reader: &mut Reader) -> (r: Option<SwapCommon>)
        requires
            old(reader).wf(),
        ensures
            final(reader).wf(),
            match r {
                Some(x) => x.recipient_keypair.genuine() && old(reader).rest() == x.encoded() + final(reader).rest(),
                None => forall|x: SwapCommon, rest: Seq<u8>|
                    x.recipient_keypair.genuine() ==> old(reader).rest() != #[trigger] (x.encoded() + rest),
            },
    {
        let op: Option<[u8; 32]> = reader.read_array::<32>();
        let ghost rest1 = reader.rest();
        let unit: Option<u64> = if op.is_some() {
            reader.read_u64()
        } else {
            None
        };
        let ghost rest2 = reader.rest();
        let secret: Option<[u8; 32]> = if unit.is_some() {
            reader.read_array::<32>()
        } else {
            None
        };
        let ghost rest3 = reader.rest();
        proof {
            assert forall|x: SwapCommon, rest: Seq<u8>|
                x.recipient_keypair.genuine() && old(reader).rest() == #[trigger] (x.encoded()
                    + rest) implies secret is Some && public_key_of((secret->0)@) is Some by {
                let key = x.recipient_keypair.secret_bytes();
                let number = bigsize(x.unit_out.id);
                assert(key.len() == 32) by {
                    x.recipient_keypair.lemma_secret_len();
                }
                assert(x.encoded() + rest =~= x.operation_id.bytes@ + (number + (key + rest)));
                lemma_block_prefix((op->0)@, rest1, x.operation_id.bytes@, number + (key + rest));
                lemma_bigsize_prefix(unit->0, rest2, x.unit_out.id, key + rest);
                lemma_block_prefix((secret->0)@, rest3, key, rest);
            }
        }
        match (op, unit, secret) {
            (Some(bytes), Some(id), Some(secret)) => {
                match Keypair::from_secret(secret) {
                    Some(recipient_keypair) => {
                        let x = SwapCommon {
                            operation_id: OperationId { bytes },
                            unit_out: AmountUnit { id },
                            recipient_keypair,
                        };
                        assert(old(reader).rest() =~= x.encoded() + reader.rest());
                        Some(x)
                    },
                    None => None,
                }
            },
            _ => None,
        }
    }

    /// The fields, whatever stands behind them, are determined by their encoding.
    proof fn lemma_prefix(a: SwapCommon, x: Seq<u8>, b: SwapCommon, y: Seq<u8>)
        requires
            a.recipient_keypair.genuine(),
            b.recipient_keypair.genuine(),
            a.encoded() + x == b.encoded() + y,
        ensures
            a == b,
            x == y,
    {
        let p = a.recipient_keypair.secret_bytes();
        let q = b.recipient_keypair.secret_bytes();
        a.recipient_keypair.lemma_secret_len();
        b.recipient_keypair.lemma_secret_len();
        let m = bigsize(a.unit_out.id);
        let n = bigsize(b.unit_out.id);
        assert(a.encoded() + x =~= a.operation_id.bytes@ + (m + (p + x)));
        assert(b.encoded() + y =~= b.operation_id.bytes@ + (n + (q + y)));
        lemma_block_prefix(
            a.operation_id.bytes@,
            m + (p + x),
            b.operation_id.bytes@,
            n + (q + y),
        );
        lemma_bigsize_prefix(a.unit_out.id, p + x, b.unit_out.id, q + y);
        lemma_block_prefix(p, x, q, y);
        assert(a.operation_id.bytes =~= b.operation_id.bytes);
        a.recipient_keypair.lemma_determined(b.recipient_keypair);
    }
}

/// Reading the encoding of a swap gives it back: whatever decodes from the
/// same bytes is the same swap.
pub proof fn law_swap_machine_encoding_is_unambiguous(
    x: SwapStateMachine,
    y: SwapStateMachine,
)
    requires
        x.decodable(),
        y.decodable(),
        x.encoded() == y.encoded(),
    ensures
        x.same(y),
{
    let a = bigsize(x.state.variant_number()) + byte_string(x.state.content());
    let b = bigsize(y.state.variant_number()) + byte_string(y.state.content());
    SwapCommon::lemma_prefix(x.common, a, y.common, b);
    lemma_variant_unique(
        x.state.variant_number(),
        x.state.content(),
        y.state.variant_number(),
        y.state.content(),
    );
    x.state.lemma_unique(y.state);
}

impl DepositState {
    /// The number of the state's kind.
    pub open spec fn variant_number(self) -> u64 {
        match self {
            DepositState::Submitted { .. } => 0,
            DepositState::Accepted => 1,
            DepositState::Rejected(_) => 2,
        }
    }

    /// The state's fields, encoded in order.
    pub open spec fn content(self) -> Seq<u8> {
        match self {
            DepositState::Submitted { txid } => txid.bytes@,
            DepositState::Accepted => Seq::empty(),
            DepositState::Rejected(error) => text_bytes(error@),
        }
    }

    /// Whether the texts in it can be encoded.
    pub open spec fn encodable(self) -> bool {
        self matches DepositState::Rejected(error) ==> encode_utf8(error@).len() <= u64::MAX
    }

    /// The same state, texts compared by their characters.
    pub open spec fn same(self, other: DepositState) -> bool {
        match (self, other) {
            (DepositState::Rejected(a), DepositState::Rejected(b)) => a@ == b@,
            _ => self == other,
        }
    }

    /// A state is determined by its kind and its fields.
    proof fn lemma_unique(self, other: DepositState)
        requires
            self.encodable(),
            other.encodable(),
            self.variant_number() == other.variant_number(),
            self.content() == other.content(),
        ensures
            self.same(other),
    {
        let none = Seq::<u8>::empty();
        match (self, other) {
            (DepositState::Submitted { txid: a }, DepositState::Submitted { txid: b }) => {
                assert(a.bytes =~= b.bytes);
            },
            (DepositState::Rejected(a), DepositState::Rejected(b)) => {
                assert(text_bytes(a@) + none =~= text_bytes(a@));
                assert(text_bytes(b@) + none =~= text_bytes(b@));
                lemma_text_prefix(a@, none, b@, none);
            },
            _ => {},
        }
    }

    fn encode(&self) -> (r: (u64, Vec<u8>))
        ensures
            r.0 == self.variant_number(),
            r.1@ == self.content(),
    {
        let mut out: Vec<u8> = Vec::new();
        let number: u64 = match self {
            DepositState::Submitted { txid } => {
                append_bytes(&mut out, txid.bytes.as_slice());
                0
            },
            DepositState::Accepted => 1,
            DepositState::Rejected(error) => {
                append_text(&mut out, error.as_str());
                2
            },
        };
        assert(out@ =~= self.content());
        (number, out)
    }

    fn decode(number: u64, content: &[u8]) -> (r: Option<DepositState>)
        ensures
            match r {
                Some(x) => x.encodable() && x.variant_number() == number && x.content() == content@,
                None => forall|x: DepositState|
                    x.encodable() && x.variant_number() == number ==> #[trigger] x.content()
                        != content@,
            },
    {
        let mut reader = Reader::new(content);
        let ghost none = Seq::<u8>::empty();
        if number == 0 {
            let txid: Option<[u8; 32]> = reader.read_array::<32>();
            let ghost tail = reader.rest();
            let done = reader.is_done();
            proof {
                assert forall|x: DepositState|
                    x.variant_number() == 0 && #[trigger] x.content() == content@ implies txid
                    is Some && done by {
                    if let DepositState::Submitted { txid: t } = x {
                        assert(t.bytes@ + none =~= t.bytes@);
                        lemma_block_prefix((txid->0)@, tail, t.bytes@, none);
                    }
                }
            }
            match txid {
                Some(bytes) if done => {
                    let x = DepositState::Submitted { txid: TransactionId { bytes } };
                    assert(x.content() =~= content@);
                    Some(x)
                },
                _ => None,
            }
        } else if number == 1 {
            if reader.is_done() {
                let x = DepositState::Accepted;
                assert(x.content() =~= content@);
                Some(x)
            } else {
                None
            }
        } else if number == 2 {
            let error: Option<String> = reader.read_text();
            let ghost tail = reader.rest();
            let done = reader.is_done();
            proof {
                assert forall|x: DepositState|
                    x.encodable() && x.variant_number() == 2 && #[trigger] x.content()
                        == content@ implies error is Some && done by {
                    if let DepositState::Rejected(e) = x {
                        assert(text_bytes(e@) + none =~= text_bytes(e@));
                        lemma_text_prefix((error->0)@, tail, e@, none);
                    }
                }
            }
            match error {
                Some(error) if done => {
                    let x = DepositState::Rejected(error);
                    assert(x.content() =~= content@);
                    Some(x)
                },
                _ => None,
            }
        } else {
            None
        }
    }
}

impl DepositCommon {
    /// The fields, encoded in order.
    pub open spec fn encoded(self) -> Seq<u8> {
        self.operation_id.bytes@ + self.pool.encoded() + self.owner_pk.bytes@ + self.tweak@ + bigsize(
            self.expected_shares,
        )
    }
}

impl DepositStateMachine {
    /// The consensus encoding: what stays the same, then the state.
    pub open spec fn encoded(self) -> Seq<u8> {
        self.common.encoded() + (bigsize(self.state.variant_number()) + byte_string(
            self.state.content(),
        ))
    }

    /// Whether the encoding reads back as this machine.
    pub open spec fn decodable(self) -> bool {
        &&& self.common.pool.canonical() && self.common.owner_pk.valid()
        &&& self.state.encodable()
        &&& self.state.content().len() <= u64::MAX
    }

    /// The same machine, texts compared by their characters.
    pub open spec fn same(self, other: DepositStateMachine) -> bool {
        self.common == other.common && self.state.same(other.state)
    }

    /// The consensus encoding.
    pub fn encode(&self) -> (r: Vec<u8>)
        ensures
            r@ == self.encoded(),
    {
        let mut out: Vec<u8> = Vec::new();
        append_bytes(&mut out, self.common.operation_id.bytes.as_slice());
        self.common.pool.encode(&mut out);
        append_bytes(&mut out, self.common.owner_pk.bytes.as_slice());
        append_bytes(&mut out, self.common.tweak.as_slice());
        append_bytes(&mut out, encode_u64(self.common.expected_shares).as_slice());
        assert(out@ =~= self.common.encoded());
        let (number, content) = self.state.encode();
        append_bytes(&mut out, encode_variant(number, content.as_slice()).as_slice());
        out
    }

    /// Reads a consensus encoding. Exactly the encodings of decodable machines
    /// are accepted, with nothing left over.
    pub fn decode(bytes: &[u8]) -> (r: Option<DepositStateMachine>)
        ensures
            match r {
                Some(x) => x.decodable() && x.encoded() == bytes@,
                None => forall|x: DepositStateMachine|
                    x.decodable() ==> #[trigger] x.encoded() != bytes@,
            },
    {
        let mut reader = Reader::new(bytes);
        let common: Option<DepositCommon> = DepositCommon::read(&mut reader);
        let ghost rest0 = reader.rest();
        let number: Option<u64> = if common.is_some() {
            reader.read_u64()
        } else {
            None
        };
        let ghost rest1 = reader.rest();
        let content: Option<Vec<u8>> = if number.is_some() {
            reader.read_byte_string()
        } else {
            None
        };
        let ghost rest2 = reader.rest();
        let done = reader.is_done();
        let state: Option<DepositState> = match (number, &content) {
            (Some(number), Some(content)) => DepositState::decode(number, content.as_slice()),
            _ => None,
        };
        proof {
            assert forall|x: DepositStateMachine|
                x.decodable() && #[trigger] x.encoded() == bytes@ implies common is Some && state
                is Some && done by {
                let none = Seq::<u8>::empty();
                let n = x.state.variant_number();
                let c = x.state.content();
                let behind = bigsize(n) + byte_string(c);
                DepositCommon::lemma_prefix(common->0, rest0, x.common, behind);
                lemma_bigsize_prefix(number->0, rest1, n, byte_string(c));
                assert(byte_string(c) + none =~= byte_string(c));
                if content is Some {
                    lemma_byte_string_prefix((content->0)@, rest2, c, none);
                }
            }
        }
        match (common, state) {
            (Some(common), Some(state)) if done => {
                let x = DepositStateMachine { common, state };
                proof {
                    let c = (content->0)@;
                    assert(byte_string(c) + rest2 =~= byte_string(c));
                    assert(x.encoded() =~= bytes@);
                }
                Some(x)
            },
            _ => None,
        }
    }
}

impl DepositCommon {
    /// Reads the fields off the front of a byte string.
    fn read(reader: &mut Reader) -> (r: Option<DepositCommon>)
        requires
            old(reader).wf(),
        ensures
            final(reader).wf(),
            match r {
                Some(x) => x.pool.canonical() && x.owner_pk.valid() && old(reader).rest() == x.encoded() + final(reader).rest(),
                None => forall|x: DepositCommon, rest: Seq<u8>|
                    x.pool.canonical() && x.owner_pk.valid() ==> old(reader).rest() != #[trigger] (x.encoded() + rest),
            },
    {
        let op: Option<[u8; 32]> = reader.read_array::<32>();
        let ghost rest1 = reader.rest();
        let pool: Option<PoolId> = if op.is_some() {
            PoolId::decode(reader)
        } else {
            None
        };
        let ghost rest2 = reader.rest();
        let key: Option<[u8; 33]> = if pool.is_some() {
            reader.read_array::<33>()
        } else {
            None
        };
        let ghost rest3 = reader.rest();
        let tweak: Option<[u8; 16]> = if key.is_some() {
            reader.read_array::<16>()
        } else {
            None
        };
        let ghost rest4 = reader.rest();
        let shares: Option<u64> = if tweak.is_some() {
            reader.read_u64()
        } else {
            None
        };
        let ghost rest5 = reader.rest();
        proof {
            assert forall|x: DepositCommon, rest: Seq<u8>|
                x.pool.canonical() && x.owner_pk.valid() && old(reader).rest() == #[trigger] (
                x.encoded() + rest) implies shares is Some && is_public_key((key->0)@) by {
                let k = x.owner_pk.bytes@;
                let t = x.tweak@;
                let n = bigsize(x.expected_shares);
                assert(x.encoded() + rest =~= x.operation_id.bytes@ + (x.pool.encoded() + (k + (t
                    + (n + rest)))));
                lemma_block_prefix(
                    (op->0)@,
                    rest1,
                    x.operation_id.bytes@,
                    x.pool.encoded() + (k + (t + (n + rest))),
                );
                assert(rest1 == x.pool.encoded() + (k + (t + (n + rest))));
                if pool is Some {
                    law_pool_encoding_is_unambiguous(
                        pool->0,
                        rest2,
                        x.pool,
                        k + (t + (n + rest)),
                    );
                }
                lemma_block_prefix((key->0)@, rest3, k, t + (n + rest));
                lemma_block_prefix((tweak->0)@, rest4, t, n + rest);
                lemma_bigsize_prefix(shares->0, rest5, x.expected_shares, rest);
            }
        }
        match (op, pool, key, tweak, shares) {
            (Some(bytes), Some(pool), Some(key), Some(tweak), Some(expected_shares)) => {
                match PublicKey::from_bytes(key) {
                    Some(owner_pk) => {
                        let x = DepositCommon {
                            operation_id: OperationId { bytes },
                            pool,
                            owner_pk,
                            tweak,
                            expected_shares,
                        };
                        assert(old(reader).rest() =~= x.encoded() + reader.rest());
                        Some(x)
                    },
                    None => None,
                }
            },
            _ => None,
        }
    }

    /// The fields, whatever stands behind them, are determined by their encoding.
    proof fn lemma_prefix(a: DepositCommon, x: Seq<u8>, b: DepositCommon, y: Seq<u8>)
        requires
            a.pool.canonical() && a.owner_pk.valid(),
            b.pool.canonical() && b.owner_pk.valid(),
            a.encoded() + x == b.encoded() + y,
        ensures
            a == b,
            x == y,
    {
        let p = a.owner_pk.bytes@;
        let q = b.owner_pk.bytes@;
        let s = a.tweak@;
        let t = b.tweak@;
        let m = bigsize(a.expected_shares);
        let n = bigsize(b.expected_shares);
        assert(a.encoded() + x =~= a.operation_id.bytes@ + (a.pool.encoded() + (p + (s + (m + x)))));
        assert(b.encoded() + y =~= b.operation_id.bytes@ + (b.pool.encoded() + (q + (t + (n + y)))));
        lemma_block_prefix(
            a.operation_id.bytes@,
            a.pool.encoded() + (p + (s + (m + x))),
            b.operation_id.bytes@,
            b.pool.encoded() + (q + (t + (n + y))),
        );
        law_pool_encoding_is_unambiguous(a.pool, p + (s + (m + x)), b.pool, q + (t + (n + y)));
        lemma_block_prefix(p, s + (m + x), q, t + (n + y));
        lemma_block_prefix(s, m + x, t, n + y);
        lemma_bigsize_prefix(a.expected_shares, x, b.expected_shares, y);
        assert(a.operation_id.bytes =~= b.operation_id.bytes);
        assert(a.owner_pk.bytes =~= b.owner_pk.bytes);
        assert(a.tweak =~= b.tweak);
    }
}

/// Reading the encoding of a deposit gives it back: whatever decodes from the
/// same bytes is the same deposit.
pub proof fn law_deposit_machine_encoding_is_unambiguous(
    x: DepositStateMachine,
    y: DepositStateMachine,
)
    requires
        x.decodable(),
        y.decodable(),
        x.encoded() == y.encoded(),
    ensures
        x.same(y),
{
    let a = bigsize(x.state.variant_number()) + byte_string(x.state.content());
    let b = bigsize(y.state.variant_number()) + byte_string(y.state.content());
    DepositCommon::lemma_prefix(x.common, a, y.common, b);
    lemma_variant_unique(
        x.state.variant_number(),
        x.state.content(),
        y.state.variant_number(),
        y.state.content(),
    );
    x.state.lemma_unique(y.state);
}

impl WithdrawState {
    /// The number of the state's kind.
    pub open spec fn variant_number(self) -> u64 {
        match self {
            WithdrawState::Submitted { .. } => 0,
            WithdrawState::Accepted => 1,
            WithdrawState::Rejected(_) => 2,
        }
    }

    /// The state's fields, encoded in order.
    pub open spec fn content(self) -> Seq<u8> {
        match self {
            WithdrawState::Submitted { txid } => txid.bytes@,
            WithdrawState::Accepted => Seq::empty(),
            WithdrawState::Rejected(error) => text_bytes(error@),
        }
    }

    /// Whether the texts in it can be encoded.
    pub open spec fn encodable(self) -> bool {
        self matches WithdrawState::Rejected(error) ==> encode_utf8(error@).len() <= u64::MAX
    }

    /// The same state, texts compared by their characters.
    pub open spec fn same(self, other: WithdrawState) -> bool {
        match (self, other) {
            (WithdrawState::Rejected(a), WithdrawState::Rejected(b)) => a@ == b@,
            _ => self == other,
        }
    }

    /// A state is determined by its kind and its fields.
    proof fn lemma_unique(self, other: WithdrawState)
        requires
            self.encodable(),
            other.encodable(),
            self.variant_number() == other.variant_number(),
            self.content() == other.content(),
        ensures
            self.same(other),
    {
        let none = Seq::<u8>::empty();
        match (self, other) {
            (WithdrawState::Submitted { txid: a }, WithdrawState::Submitted { txid: b }) => {
                assert(a.bytes =~= b.bytes);
            },
            (WithdrawState::Rejected(a), WithdrawState::Rejected(b)) => {
                assert(text_bytes(a@) + none =~= text_bytes(a@));
                assert(text_bytes(b@) + none =~= text_bytes(b@));
                lemma_text_prefix(a@, none, b@, none);
            },
            _ => {},
        }
    }

    fn encode(&self) -> (r: (u64, Vec<u8>))
        ensures
            r.0 == self.variant_number(),
            r.1@ == self.content(),
    {
        let mut out: Vec<u8> = Vec::new();
        let number: u64 = match self {
            WithdrawState::Submitted { txid } => {
                append_bytes(&mut out, txid.bytes.as_slice());
                0
            },
            WithdrawState::Accepted => 1,
            WithdrawState::Rejected(error) => {
                append_text(&mut out, error.as_str());
                2
            },
        };
        assert(out@ =~= self.content());
        (number, out)
    }

    fn decode(number: u64, content: &[u8]) -> (r: Option<WithdrawState>)
        ensures
            match r {
                Some(x) => x.encodable() && x.variant_number() == number && x.content() == content@,
                None => forall|x: WithdrawState|
                    x.encodable() && x.variant_number() == number ==> #[trigger] x.content()
                        != content@,
            },
    {
        let mut reader = Reader::new(content);
        let ghost none = Seq::<u8>::empty();
        if number == 0 {
            let txid: Option<[u8; 32]> = reader.read_array::<32>();
            let ghost tail = reader.rest();
            let done = reader.is_done();
            proof {
                assert forall|x: WithdrawState|
                    x.variant_number() == 0 && #[trigger] x.content() == content@ implies txid
                    is Some && done by {
                    if let WithdrawState::Submitted { txid: t } = x {
                        assert(t.bytes@ + none =~= t.bytes@);
                        lemma_block_prefix((txid->0)@, tail, t.bytes@, none);
                    }
                }
            }
            match txid {
                Some(bytes) if done => {
                    let x = WithdrawState::Submitted { txid: TransactionId { bytes } };
                    assert(x.content() =~= content@);
                    Some(x)
                },
                _ => None,
            }
        } else if number == 1 {
            if reader.is_done() {
                let x = WithdrawState::Accepted;
                assert(x.content() =~= content@);
                Some(x)
            } else {
                None
            }
        } else if number == 2 {
            let error: Option<String> = reader.read_text();
            let ghost tail = reader.rest();
            let done = reader.is_done();
            proof {
                assert forall|x: WithdrawState|
                    x.encodable() && x.variant_number() == 2 && #[trigger] x.content()
                        == content@ implies error is Some && done by {
                    if let WithdrawState::Rejected(e) = x {
                        assert(text_bytes(e@) + none =~= text_bytes(e@));
                        lemma_text_prefix((error->0)@, tail, e@, none);
                    }
                }
            }
            match error {
                Some(error) if done => {
                    let x = WithdrawState::Rejected(error);
                    assert(x.content() =~= content@);
                    Some(x)
                },
                _ => None,
            }
        } else {
            None
        }
    }
}

impl WithdrawCommon {
    /// The fields, encoded in order.
    pub open spec fn encoded(self) -> Seq<u8> {
        self.operation_id.bytes@ + self.pool.encoded() + self.owner_pk.bytes@ + bigsize(self.shares)
    }
}

impl WithdrawStateMachine {
    /// The consensus encoding: what stays the same, then the state.
    pub open spec fn encoded(self) -> Seq<u8> {
        self.common.encoded() + (bigsize(self.state.variant_number()) + byte_string(
            self.state.content(),
        ))
    }

    /// Whether the encoding reads back as this machine.
    pub open spec fn decodable(self) -> bool {
        &&& self.common.pool.canonical() && self.common.owner_pk.valid()
        &&& self.state.encodable()
        &&& self.state.content().len() <= u64::MAX
    }

    /// The same machine, texts compared by their characters.
    pub open spec fn same(self, other: WithdrawStateMachine) -> bool {
        self.common == other.common && self.state.same(other.state)
    }

    /// The consensus encoding.
    pub fn encode(&self) -> (r: Vec<u8>)
        ensures
            r@ == self.encoded(),
    {
        let mut out: Vec<u8> = Vec::new();
        append_bytes(&mut out, self.common.operation_id.bytes.as_slice());
        self.common.pool.encode(&mut out);
        append_bytes(&mut out, self.common.owner_pk.bytes.as_slice());
        append_bytes(&mut out, encode_u64(self.common.shares).as_slice());
        assert(out@ =~= self.common.encoded());
        let (number, content) = self.state.encode();
        append_bytes(&mut out, encode_variant(number, content.as_slice()).as_slice());
        out
    }

    /// Reads a consensus encoding. Exactly the encodings of decodable machines
    /// are accepted, with nothing left over.
    pub fn decode(bytes: &[u8]) -> (r: Option<WithdrawStateMachine>)
        ensures
            match r {
                Some(x) => x.decodable() && x.encoded() == bytes@,
                None => forall|x: WithdrawStateMachine|
                    x.decodable() ==> #[trigger] x.encoded() != bytes@,
            },
    {
        let mut reader = Reader::new(bytes);
        let common: Option<WithdrawCommon> = WithdrawCommon::read(&mut reader);
        let ghost rest0 = reader.rest();
        let number: Option<u64> = if common.is_some() {
            reader.read_u64()
        } else {
            None
        };
        let ghost rest1 = reader.rest();
        let content: Option<Vec<u8>> = if number.is_some() {
            reader.read_byte_string()
        } else {
            None
        };
        let ghost rest2 = reader.rest();
        let done = reader.is_done();
        let state: Option<WithdrawState> = match (number, &content) {
            (Some(number), Some(content)) => WithdrawState::decode(number, content.as_slice()),
            _ => None,
        };
        proof {
            assert forall|x: WithdrawStateMachine|
                x.decodable() && #[trigger] x.encoded() == bytes@ implies common is Some && state
                is Some && done by {
                let none = Seq::<u8>::empty();
                let n = x.state.variant_number();
                let c = x.state.content();
                let behind = bigsize(n) + byte_string(c);
                WithdrawCommon::lemma_prefix(common->0, rest0, x.common, behind);
                lemma_bigsize_prefix(number->0, rest1, n, byte_string(c));
                assert(byte_string(c) + none =~= byte_string(c));
                if content is Some {
                    lemma_byte_string_prefix((content->0)@, rest2, c, none);
                }
            }
        }
        match (common, state) {
            (Some(common), Some(state)) if done => {
                let x = WithdrawStateMachine { common, state };
                proof {
                    let c = (content->0)@;
                    assert(byte_string(c) + rest2 =~= byte_string(c));
                    assert(x.encoded() =~= bytes@);
                }
                Some(x)
            },
            _ => None,
        }
    }
}

impl WithdrawCommon {
    /// Reads the fields off the front of a byte string.
    fn read(reader: &mut Reader) -> (r: Option<WithdrawCommon>)
        requires
            old(reader).wf(),
        ensures
            final(reader).wf(),
            match r {
                Some(x) => x.pool.canonical() && x.owner_pk.valid() && old(reader).rest() == x.encoded() + final(reader).rest(),
                None => forall|x: WithdrawCommon, rest: Seq<u8>|
                    x.pool.canonical() && x.owner_pk.valid() ==> old(reader).rest() != #[trigger] (x.encoded() + rest),
            },
    {
        let op: Option<[u8; 32]> = reader.read_array::<32>();
        let ghost rest1 = reader.rest();
        let pool: Option<PoolId> = if op.is_some() {
            PoolId::decode(reader)
        } else {
            None
        };
        let ghost rest2 = reader.rest();
        let key: Option<[u8; 33]> = if pool.is_some() {
            reader.read_array::<33>()
        } else {
            None
        };
        let ghost rest3 = reader.rest();
        let shares: Option<u64> = if key.is_some() {
            reader.read_u64()
        } else {
            None
        };
        let ghost rest4 = reader.rest();
        proof {
            assert forall|x: WithdrawCommon, rest: Seq<u8>|
                x.pool.canonical() && x.owner_pk.valid() && old(reader).rest() == #[trigger] (
                x.encoded() + rest) implies shares is Some && is_public_key((key->0)@) by {
                let k = x.owner_pk.bytes@;
                let n = bigsize(x.shares);
                assert(x.encoded() + rest =~= x.operation_id.bytes@ + (x.pool.encoded() + (k + (n
                    + rest))));
                lemma_block_prefix(
                    (op->0)@,
                    rest1,
                    x.operation_id.bytes@,
                    x.pool.encoded() + (k + (n + rest)),
                );
                assert(rest1 == x.pool.encoded() + (k + (n + rest)));
                if pool is Some {
                    law_pool_encoding_is_unambiguous(pool->0, rest2, x.pool, k + (n + rest));
                }
                lemma_block_prefix((key->0)@, rest3, k, n + rest);
                lemma_bigsize_prefix(shares->0, rest4, x.shares, rest);
            }
        }
        match (op, pool, key, shares) {
            (Some(bytes), Some(pool), Some(key), Some(shares)) => {
                match PublicKey::from_bytes(key) {
                    Some(owner_pk) => {
                        let x = WithdrawCommon {
                            operation_id: OperationId { bytes },
                            pool,
                            owner_pk,
                            shares,
                        };
                        assert(old(reader).rest() =~= x.encoded() + reader.rest());
                        Some(x)
                    },
                    None => None,
                }
            },
            _ => None,
        }
    }

    /// The fields, whatever stands behind them, are determined by their encoding.
    proof fn lemma_prefix(a: WithdrawCommon, x: Seq<u8>, b: WithdrawCommon, y: Seq<u8>)
        requires
            a.pool.canonical() && a.owner_pk.valid(),
            b.pool.canonical() && b.owner_pk.valid(),
            a.encoded() + x == b.encoded() + y,
        ensures
            a == b,
            x == y,
    {
        let p = a.owner_pk.bytes@;
        let q = b.owner_pk.bytes@;
        let m = bigsize(a.shares);
        let n = bigsize(b.shares);
        assert(a.encoded() + x =~= a.operation_id.bytes@ + (a.pool.encoded() + (p + (m + x))));
        assert(b.encoded() + y =~= b.operation_id.bytes@ + (b.pool.encoded() + (q + (n + y))));
        lemma_block_prefix(
            a.operation_id.bytes@,
            a.pool.encoded() + (p + (m + x)),
            b.operation_id.bytes@,
            b.pool.encoded() + (q + (n + y)),
        );
        law_pool_encoding_is_unambiguous(a.pool, p + (m + x), b.pool, q + (n + y));
        lemma_block_prefix(p, m + x, q, n + y);
        lemma_bigsize_prefix(a.shares, x, b.shares, y);
        assert(a.operation_id.bytes =~= b.operation_id.bytes);
        assert(a.owner_pk.bytes =~= b.owner_pk.bytes);
    }
}

/// Reading the encoding of a withdrawal gives it back: whatever decodes from the
/// same bytes is the same withdrawal.
pub proof fn law_withdraw_machine_encoding_is_unambiguous(
    x: WithdrawStateMachine,
    y: WithdrawStateMachine,
)
    requires
        x.decodable(),
        y.decodable(),
        x.encoded() == y.encoded(),
    ensures
        x.same(y),
{
    let a = bigsize(x.state.variant_number()) + byte_string(x.state.content());
    let b = bigsize(y.state.variant_number()) + byte_string(y.state.content());
    WithdrawCommon::lemma_prefix(x.common, a, y.common, b);
    lemma_variant_unique(
        x.state.variant_number(),
        x.state.content(),
        y.state.variant_number(),
        y.state.content(),
    );
    x.state.lemma_unique(y.state);
}

} // verus!
