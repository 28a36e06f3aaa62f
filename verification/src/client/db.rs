//! What a client keeps: its positions, balances still to be claimed, and what
//! its swaps came to.

use vstd::prelude::*;

use crate::bytes::append_bytes;
use crate::crypto::{is_public_key, PublicKey};
use crate::encoding::{bigsize, encode_u64, lemma_bigsize_prefix, lemma_block_prefix, Reader};
use crate::pool_id::{law_pool_encoding_is_unambiguous, PoolId};
use crate::table::{Table, TableKey};
use crate::text::{is_selected, selects};
use crate::units::{Amount, AmountUnit};

verus! {

/// A table of the client, or a range that is reserved for others.
#[derive(Debug, Clone, Copy, PartialEq, Eq, Structural)]
pub enum DbKeyPrefix {
    LpPosition,
    RecoveredBalance,
    SwapOutcome,
    /// From here to the next, keys belong to whoever embeds the client.
    ExternalReservedStart,
    /// From here to the last, keys belong to the client framework.
    CoreInternalReservedStart,
    CoreInternalReservedEnd,
}

impl DbKeyPrefix {
    /// The byte that the keys start with.
    pub open spec fn byte(self) -> u8 {
        match self {
            DbKeyPrefix::LpPosition => 0x01,
            DbKeyPrefix::RecoveredBalance => 0x02,
            DbKeyPrefix::SwapOutcome => 0x03,
            DbKeyPrefix::ExternalReservedStart => 0xb0,
            DbKeyPrefix::CoreInternalReservedStart => 0xd0,
            DbKeyPrefix::CoreInternalReservedEnd => 0xff,
        }
    }

    /// The byte that the keys start with.
    pub fn as_byte(self) -> (r: u8)
        ensures
            r == self.byte(),
    {
        match self {
            DbKeyPrefix::LpPosition => 0x01,
            DbKeyPrefix::RecoveredBalance => 0x02,
            DbKeyPrefix::SwapOutcome => 0x03,
            DbKeyPrefix::ExternalReservedStart => 0xb0,
            DbKeyPrefix::CoreInternalReservedStart => 0xd0,
            DbKeyPrefix::CoreInternalReservedEnd => 0xff,
        }
    }
}

/// The name that selects a table for dumping; a reserved range has none.
pub open spec fn dump_name(table: DbKeyPrefix) -> Option<Seq<char>> {
    match table {
        DbKeyPrefix::LpPosition => Some("lpposition"@),
        DbKeyPrefix::RecoveredBalance => Some("recoveredbalance"@),
        DbKeyPrefix::SwapOutcome => Some("swapoutcome"@),
        _ => None,
    }
}

/// Whether a table is to be dumped, given the names that were asked for: without
/// any name, every table is. A reserved range never is.
pub fn dump_selects(names: &Vec<String>, table: DbKeyPrefix) -> (r: bool)
    ensures
        r == (dump_name(table) matches Some(name) && is_selected(names@, name)),
{
    let name: String = match table {
        DbKeyPrefix::LpPosition => "lpposition".to_owned(),
        DbKeyPrefix::RecoveredBalance => "recoveredbalance".to_owned(),
        DbKeyPrefix::SwapOutcome => "swapoutcome".to_owned(),
        _ => return false,
    };
    selects(names, &name)
}

/// An operation that the client started.
#[derive(Debug, Clone, Copy, PartialEq, Eq, Hash)]
pub struct OperationId {
    pub bytes: [u8; 32],
}

/// A transaction, by its digest.
#[derive(Debug, Clone, Copy, PartialEq, Eq, Hash)]
pub struct TransactionId {
    pub bytes: [u8; 32],
}

/// The key of one of the client's positions.
#[derive(Debug, Clone, Copy, PartialEq, Eq, Hash)]
pub struct LpPositionKey {
    pub pool: PoolId,
    pub owner_pk: PublicKey,
}

/// Every position.
#[derive(Debug, Clone, Copy, PartialEq, Eq, Hash, Structural)]
pub struct LpPositionPrefixAll;

/// What the client remembers of a position.
#[derive(Debug, Clone, Copy, PartialEq, Eq, Hash)]
pub struct LpPositionRecord {
    /// What the owner key is derived from.
    pub tweak: [u8; 16],
    /// The shares as last seen. The guardians alone know what is really held.
    pub shares: u64,
}

/// The key of a balance that was found but not claimed yet.
#[derive(Debug, Clone, Copy, PartialEq, Eq, Hash)]
pub struct RecoveredBalanceKey {
    pub pubkey: PublicKey,
    pub unit: AmountUnit,
}

/// Every balance still to be claimed.
#[derive(Debug, Clone, Copy, PartialEq, Eq, Hash, Structural)]
pub struct RecoveredBalancePrefixAll;

/// What is needed to claim a balance. The amount is read again when it is
/// claimed.
#[derive(Debug, Clone, Copy, PartialEq, Eq, Hash)]
pub struct RecoveredBalanceRecord {
    pub tweak: [u8; 16],
}

/// The operation that an outcome belongs to.
#[derive(Debug, Clone, Copy, PartialEq, Eq, Hash)]
pub struct SwapOutcomeKey(pub OperationId);

/// Every outcome.
#[derive(Debug, Clone, Copy, PartialEq, Eq, Hash, Structural)]
pub struct SwapOutcomePrefixAll;

/// What a swap did with the funds it took in.
#[derive(Debug, Clone, PartialEq, Eq, Hash)]
pub enum SwapOutcome {
    /// The swap was refused: nothing was spent and nothing is paid.
    Tx1Rejected(String),
    /// The swap pays `amount_out`.
    Settled { amount_out: Amount },
}

/// What the client keeps.
#[derive(Debug)]
pub struct ClientDb {
    pub positions: Table<LpPositionKey, LpPositionRecord>,
    pub recovered: Table<RecoveredBalanceKey, RecoveredBalanceRecord>,
    pub outcomes: Table<SwapOutcomeKey, SwapOutcome>,
}

impl ClientDb {
    /// Every table is a table.
    pub open spec fn wf(self) -> bool {
        self.positions.wf() && self.recovered.wf() && self.outcomes.wf()
    }

    /// A client that keeps nothing yet.
    pub fn new() -> (r: ClientDb)
        ensures
            r.wf(),
            r.positions.view() == Map::<LpPositionKey, LpPositionRecord>::empty(),
            r.recovered.view() == Map::<RecoveredBalanceKey, RecoveredBalanceRecord>::empty(),
            r.outcomes.view() == Map::<SwapOutcomeKey, SwapOutcome>::empty(),
    {
        ClientDb { positions: Table::new(), recovered: Table::new(), outcomes: Table::new() }
    }
}

impl TableKey for LpPositionKey {
    open spec fn key_bytes(self) -> Seq<u8> {
        seq![DbKeyPrefix::LpPosition.byte()] + self.pool.encoded() + self.owner_pk.bytes@
    }

    open spec fn key_valid(self) -> bool {
        self.pool.canonical() && self.owner_pk.valid()
    }

    fn to_bytes(&self) -> (r: Vec<u8>) {
        let mut out = vec![DbKeyPrefix::LpPosition.as_byte()];
        self.pool.encode(&mut out);
        append_bytes(&mut out, self.owner_pk.bytes.as_slice());
        assert(out@ =~= self.key_bytes());
        out
    }

    fn from_bytes(bytes: &[u8]) -> (r: Option<Self>) {
        let mut reader = Reader::new(bytes);
        let named = reader.read_marker(DbKeyPrefix::LpPosition.as_byte());
        let ghost rest0 = reader.rest();
        let pool: Option<PoolId> = if named {
            PoolId::decode(&mut reader)
        } else {
            None
        };
        let ghost rest1 = reader.rest();
        let key: Option<[u8; 33]> = if pool.is_some() {
            reader.read_array::<33>()
        } else {
            None
        };
        let ghost rest2 = reader.rest();
        let done = reader.is_done();
        proof {
            assert forall|k: LpPositionKey|
                k.key_valid() && #[trigger] k.key_bytes() == bytes@ implies named && pool is Some
                && key is Some && done && is_public_key((key->0)@) by {
                let prefix = seq![DbKeyPrefix::LpPosition.byte()];
                let none = Seq::<u8>::empty();
                let owner = k.owner_pk.bytes@;
                assert(bytes@ =~= prefix + (k.pool.encoded() + owner));
                lemma_block_prefix(prefix, rest0, prefix, k.pool.encoded() + owner);
                law_pool_encoding_is_unambiguous(pool->0, rest1, k.pool, owner);
                assert(owner + none =~= owner);
                lemma_block_prefix((key->0)@, rest2, owner, none);
            }
        }
        match (pool, key) {
            (Some(pool), Some(key)) if done => {
                match PublicKey::from_bytes(key) {
                    Some(owner_pk) => {
                        let k = LpPositionKey { pool, owner_pk };
                        assert(k.key_bytes() =~= bytes@);
                        Some(k)
                    },
                    None => None,
                }
            },
            _ => None,
        }
    }

    proof fn lemma_key_injective(a: Self, b: Self) {
        let prefix = seq![DbKeyPrefix::LpPosition.byte()];
        let x = a.owner_pk.bytes@;
        let y = b.owner_pk.bytes@;
        assert(a.key_bytes() =~= prefix + (a.pool.encoded() + x));
        assert(b.key_bytes() =~= prefix + (b.pool.encoded() + y));
        lemma_block_prefix(prefix, a.pool.encoded() + x, prefix, b.pool.encoded() + y);
        law_pool_encoding_is_unambiguous(a.pool, x, b.pool, y);
        assert(a.owner_pk.bytes =~= b.owner_pk.bytes);
    }
}

impl TableKey for RecoveredBalanceKey {
    open spec fn key_bytes(self) -> Seq<u8> {
        seq![DbKeyPrefix::RecoveredBalance.byte()] + self.pubkey.bytes@ + bigsize(self.unit.id)
    }

    open spec fn key_valid(self) -> bool {
        self.pubkey.valid()
    }

    fn to_bytes(&self) -> (r: Vec<u8>) {
        let mut out = vec![DbKeyPrefix::RecoveredBalance.as_byte()];
        append_bytes(&mut out, self.pubkey.bytes.as_slice());
        append_bytes(&mut out, encode_u64(self.unit.id).as_slice());
        assert(out@ =~= self.key_bytes());
        out
    }

    fn from_bytes(bytes: &[u8]) -> (r: Option<Self>) {
        let mut reader = Reader::new(bytes);
        let named = reader.read_marker(DbKeyPrefix::RecoveredBalance.as_byte());
        let ghost rest0 = reader.rest();
        let key: Option<[u8; 33]> = if named {
            reader.read_array::<33>()
        } else {
            None
        };
        let ghost rest1 = reader.rest();
        let unit: Option<u64> = if key.is_some() {
            reader.read_u64()
        } else {
            None
        };
        let ghost rest2 = reader.rest();
        let done = reader.is_done();
        proof {
            assert forall|k: RecoveredBalanceKey|
                k.key_valid() && #[trigger] k.key_bytes() == bytes@ implies named && key is Some
                && unit is Some && done && is_public_key((key->0)@) by {
                let prefix = seq![DbKeyPrefix::RecoveredBalance.byte()];
                let none = Seq::<u8>::empty();
                let owner = k.pubkey.bytes@;
                let number = bigsize(k.unit.id);
                assert(bytes@ =~= prefix + (owner + number));
                lemma_block_prefix(prefix, rest0, prefix, owner + number);
                lemma_block_prefix((key->0)@, rest1, owner, number);
                assert(number + none =~= number);
                lemma_bigsize_prefix(unit->0, rest2, k.unit.id, none);
            }
        }
        match (key, unit) {
            (Some(key), Some(unit)) if done => {
                match PublicKey::from_bytes(key) {
                    Some(pubkey) => {
                        let k = RecoveredBalanceKey { pubkey, unit: AmountUnit { id: unit } };
                        assert(k.key_bytes() =~= bytes@);
                        Some(k)
                    },
                    None => None,
                }
            },
            _ => None,
        }
    }

    proof fn lemma_key_injective(a: Self, b: Self) {
        let prefix = seq![DbKeyPrefix::RecoveredBalance.byte()];
        let none = Seq::<u8>::empty();
        let x = bigsize(a.unit.id);
        let y = bigsize(b.unit.id);
        assert(a.key_bytes() =~= prefix + (a.pubkey.bytes@ + x));
        assert(b.key_bytes() =~= prefix + (b.pubkey.bytes@ + y));
        lemma_block_prefix(prefix, a.pubkey.bytes@ + x, prefix, b.pubkey.bytes@ + y);
        lemma_block_prefix(a.pubkey.bytes@, x, b.pubkey.bytes@, y);
        assert(x + none =~= x);
        assert(y + none =~= y);
        lemma_bigsize_prefix(a.unit.id, none, b.unit.id, none);
        assert(a.pubkey.bytes =~= b.pubkey.bytes);
    }
}

impl TableKey for SwapOutcomeKey {
    open spec fn key_bytes(self) -> Seq<u8> {
        seq![DbKeyPrefix::SwapOutcome.byte()] + self.0.bytes@
    }

    open spec fn key_valid(self) -> bool {
        true
    }

    fn to_bytes(&self) -> (r: Vec<u8>) {
        let mut out = vec![DbKeyPrefix::SwapOutcome.as_byte()];
        append_bytes(&mut out, self.0.bytes.as_slice());
        assert(out@ =~= self.key_bytes());
        out
    }

    fn from_bytes(bytes: &[u8]) -> (r: Option<Self>) {
        let mut reader = Reader::new(bytes);
        let named = reader.read_marker(DbKeyPrefix::SwapOutcome.as_byte());
        let ghost rest0 = reader.rest();
        let id: Option<[u8; 32]> = if named {
            reader.read_array::<32>()
        } else {
            None
        };
        let ghost rest1 = reader.rest();
        let done = reader.is_done();
        proof {
            assert forall|k: SwapOutcomeKey| #[trigger]
                k.key_bytes() == bytes@ implies named && id is Some && done by {
                let prefix = seq![DbKeyPrefix::SwapOutcome.byte()];
                let none = Seq::<u8>::empty();
                lemma_block_prefix(prefix, rest0, prefix, k.0.bytes@);
                assert(k.0.bytes@ + none =~= k.0.bytes@);
                lemma_block_prefix((id->0)@, rest1, k.0.bytes@, none);
            }
        }
        match id {
            Some(id) if done => {
                let k = SwapOutcomeKey(OperationId { bytes: id });
                assert(k.key_bytes() =~= bytes@);
                Some(k)
            },
            _ => None,
        }
    }

    proof fn lemma_key_injective(a: Self, b: Self) {
        let prefix = seq![DbKeyPrefix::SwapOutcome.byte()];
        lemma_block_prefix(prefix, a.0.bytes@, prefix, b.0.bytes@);
        assert(a.0.bytes =~= b.0.bytes);
    }
}

/// The client's tables do not overlap, and lie outside the reserved ranges.
pub proof fn law_client_tables_do_not_overlap(
    position: LpPositionKey,
    recovered: RecoveredBalanceKey,
    outcome: SwapOutcomeKey,
)
    ensures
        position.key_bytes()[0] == DbKeyPrefix::LpPosition.byte(),
        recovered.key_bytes()[0] == DbKeyPrefix::RecoveredBalance.byte(),
        outcome.key_bytes()[0] == DbKeyPrefix::SwapOutcome.byte(),
        position.key_bytes()[0] < DbKeyPrefix::ExternalReservedStart.byte(),
        recovered.key_bytes()[0] < DbKeyPrefix::ExternalReservedStart.byte(),
        outcome.key_bytes()[0] < DbKeyPrefix::ExternalReservedStart.byte(),
{
}

impl LpPositionPrefixAll {
    /// The bytes that the keys it selects start with.
    pub fn to_bytes(&self) -> (r: Vec<u8>)
        ensures
            r@ == seq![DbKeyPrefix::LpPosition.byte()],
    {
        vec![DbKeyPrefix::LpPosition.as_byte()]
    }
}

impl RecoveredBalancePrefixAll {
    /// The bytes that the keys it selects start with.
    pub fn to_bytes(&self) -> (r: Vec<u8>)
        ensures
            r@ == seq![DbKeyPrefix::RecoveredBalance.byte()],
    {
        vec![DbKeyPrefix::RecoveredBalance.as_byte()]
    }
}

impl SwapOutcomePrefixAll {
    /// The bytes that the keys it selects start with.
    pub fn to_bytes(&self) -> (r: Vec<u8>)
        ensures
            r@ == seq![DbKeyPrefix::SwapOutcome.byte()],
    {
        vec![DbKeyPrefix::SwapOutcome.as_byte()]
    }
}

} // verus!
