//! The tables of the ledger: their keys, in the byte form that orders them, and
//! their rows.

use vstd::prelude::*;

use crate::bytes::append_bytes;
use crate::crypto::{is_public_key, PublicKey};
use crate::encoding::{
    bigsize, lemma_bigsize_len, lemma_bigsize_prefix, lemma_block_prefix, Reader,
};
use crate::pool_id::{law_pool_encoding_is_unambiguous, PoolId};
use crate::table::TableKey;
use crate::units::{Amount, AmountUnit};

verus! {

/// A table of the ledger.
#[derive(Debug, Clone, Copy, PartialEq, Eq, Structural)]
pub enum DbKeyPrefix {
    Pool,
    LpPosition,
    Balance,
    /// One row per pool and guardian that has voted.
    FeeVote,
    /// This guardian's own intent, not shared with the others.
    DesiredFee,
}

impl DbKeyPrefix {
    /// The byte that every key of the table starts with.
    pub open spec fn byte(self) -> u8 {
        match self {
            DbKeyPrefix::Pool => 1,
            DbKeyPrefix::LpPosition => 2,
            DbKeyPrefix::Balance => 3,
            DbKeyPrefix::FeeVote => 4,
            DbKeyPrefix::DesiredFee => 5,
        }
    }

    /// The byte that every key of the table starts with.
    pub fn as_byte(self) -> (r: u8)
        ensures
            r == self.byte(),
    {
        match self {
            DbKeyPrefix::Pool => 1,
            DbKeyPrefix::LpPosition => 2,
            DbKeyPrefix::Balance => 3,
            DbKeyPrefix::FeeVote => 4,
            DbKeyPrefix::DesiredFee => 5,
        }
    }

    /// The table's name.
    pub fn name(self) -> (r: &'static str)
        ensures
            r@ == (match self {
                DbKeyPrefix::Pool => "Pool"@,
                DbKeyPrefix::LpPosition => "LpPosition"@,
                DbKeyPrefix::Balance => "Balance"@,
                DbKeyPrefix::FeeVote => "FeeVote"@,
                DbKeyPrefix::DesiredFee => "DesiredFee"@,
            }),
    {
        match self {
            DbKeyPrefix::Pool => "Pool",
            DbKeyPrefix::LpPosition => "LpPosition",
            DbKeyPrefix::Balance => "Balance",
            DbKeyPrefix::FeeVote => "FeeVote",
            DbKeyPrefix::DesiredFee => "DesiredFee",
        }
    }
}

/// The key of a pool.
#[derive(Debug, Clone, Copy, PartialEq, Eq, Hash, Structural)]
pub struct PoolKey(pub PoolId);

/// Every pool.
#[derive(Debug, Clone, Copy, PartialEq, Eq, Hash, Structural)]
pub struct PoolPrefix;

/// A pool's reserves and shares.
#[derive(Debug, Clone, Copy, PartialEq, Eq, Structural)]
pub struct Pool {
    pub reserve_lo: Amount,
    pub reserve_hi: Amount,
    /// Includes the shares that were set aside for nobody.
    pub total_shares: u64,
}

/// The key of one owner's shares in one pool.
#[derive(Debug, Clone, Copy, PartialEq, Eq, Hash)]
pub struct LpPositionKey {
    pub pool: PoolId,
    pub owner: PublicKey,
}

/// Every position.
#[derive(Debug, Clone, Copy, PartialEq, Eq, Hash, Structural)]
pub struct LpPositionPrefix;

/// One owner's shares in one pool.
#[derive(Debug, Clone, Copy, PartialEq, Eq)]
pub struct LpPosition {
    pub shares: u64,
    /// What the owner finds the position again by.
    pub tweak: [u8; 16],
}

/// The key of one owner's balance in one unit.
#[derive(Debug, Clone, Copy, PartialEq, Eq, Hash)]
pub struct BalanceKey {
    pub owner: PublicKey,
    pub unit: AmountUnit,
}

/// Every balance.
#[derive(Debug, Clone, Copy, PartialEq, Eq, Hash, Structural)]
pub struct BalancePrefix;

/// What an owner can claim in one unit.
#[derive(Debug, Clone, Copy, PartialEq, Eq)]
pub struct BalanceEntry {
    pub amount: Amount,
    /// What the owner finds the balance again by.
    pub tweak: [u8; 16],
}

/// A guardian, by its number.
#[derive(Debug, Clone, Copy, PartialEq, Eq, PartialOrd, Ord, Hash, Structural)]
pub struct PeerId {
    pub id: u16,
}

/// The key of one guardian's vote for one pool's fee. The pool comes first, so
/// that one pool's votes lie together.
#[derive(Debug, Clone, Copy, PartialEq, Eq, Hash, Structural)]
pub struct FeeVoteKey {
    pub pool: PoolId,
    pub peer: PeerId,
}

/// Every vote.
#[derive(Debug, Clone, Copy, PartialEq, Eq, Hash, Structural)]
pub struct FeeVotePrefix;

/// Every vote for one pool.
#[derive(Debug, Clone, Copy, PartialEq, Eq, Hash, Structural)]
pub struct FeeVotesByPoolPrefix(pub PoolId);

/// The key of this guardian's intent for one pool's fee.
#[derive(Debug, Clone, Copy, PartialEq, Eq, Hash, Structural)]
pub struct DesiredFeeKey(pub PoolId);

/// Every intent.
#[derive(Debug, Clone, Copy, PartialEq, Eq, Hash, Structural)]
pub struct DesiredFeePrefix;

/// Whether `bytes` starts with `prefix`.
pub open spec fn starts_with(bytes: Seq<u8>, prefix: Seq<u8>) -> bool {
    prefix.len() <= bytes.len() && bytes.take(prefix.len() as int) == prefix
}

impl PoolPrefix {
    /// The bytes that the keys it selects start with.
    pub fn to_bytes(&self) -> (r: Vec<u8>)
        ensures
            r@ == seq![DbKeyPrefix::Pool.byte()],
    {
        vec![DbKeyPrefix::Pool.as_byte()]
    }
}

impl LpPositionPrefix {
    /// The bytes that the keys it selects start with.
    pub fn to_bytes(&self) -> (r: Vec<u8>)
        ensures
            r@ == seq![DbKeyPrefix::LpPosition.byte()],
    {
        vec![DbKeyPrefix::LpPosition.as_byte()]
    }
}

impl BalancePrefix {
    /// The bytes that the keys it selects start with.
    pub fn to_bytes(&self) -> (r: Vec<u8>)
        ensures
            r@ == seq![DbKeyPrefix::Balance.byte()],
    {
        vec![DbKeyPrefix::Balance.as_byte()]
    }
}

impl FeeVotePrefix {
    /// The bytes that the keys it selects start with.
    pub fn to_bytes(&self) -> (r: Vec<u8>)
        ensures
            r@ == seq![DbKeyPrefix::FeeVote.byte()],
    {
        vec![DbKeyPrefix::FeeVote.as_byte()]
    }
}

impl FeeVotesByPoolPrefix {
    /// The bytes that the keys it selects start with.
    pub open spec fn prefix_bytes(self) -> Seq<u8> {
        seq![DbKeyPrefix::FeeVote.byte()] + self.0.encoded()
    }

    /// The bytes that the keys it selects start with.
    pub fn to_bytes(&self) -> (r: Vec<u8>)
        ensures
            r@ == self.prefix_bytes(),
    {
        let mut out = vec![DbKeyPrefix::FeeVote.as_byte()];
        self.0.encode(&mut out);
        assert(out@ =~= self.prefix_bytes());
        out
    }
}

impl DesiredFeePrefix {
    /// The bytes that the keys it selects start with.
    pub fn to_bytes(&self) -> (r: Vec<u8>)
        ensures
            r@ == seq![DbKeyPrefix::DesiredFee.byte()],
    {
        vec![DbKeyPrefix::DesiredFee.as_byte()]
    }
}

/// The key of a table that is keyed by a pool alone.
fn pool_key_bytes(prefix: u8, pool: &PoolId) -> (r: Vec<u8>)
    ensures
        r@ == seq![prefix] + pool.encoded(),
{
    let mut out = vec![prefix];
    pool.encode(&mut out);
    assert(out@ =~= seq![prefix] + pool.encoded());
    out
}

/// Reads the key of a table that is keyed by a pool alone.
fn pool_from_key_bytes(prefix: u8, bytes: &[u8]) -> (r: Option<PoolId>)
    ensures
        match r {
            Some(p) => p.canonical() && bytes@ == seq![prefix] + p.encoded(),
            None => forall|p: PoolId|
                p.canonical() ==> bytes@ != seq![prefix] + #[trigger] p.encoded(),
        },
{
    let mut reader = Reader::new(bytes);
    if !reader.read_marker(prefix) {
        return None;
    }
    let ghost behind = reader.rest();
    let pool = PoolId::decode(&mut reader);
    let ghost tail = reader.rest();
    let done = reader.is_done();
    proof {
        assert forall|p: PoolId|
            p.canonical() && bytes@ == seq![prefix] + #[trigger] p.encoded() implies pool is Some
            && done by {
            lemma_block_prefix(seq![prefix], behind, seq![prefix], p.encoded());
            let none = Seq::<u8>::empty();
            assert(p.encoded() + none =~= p.encoded());
            if pool is Some {
                law_pool_encoding_is_unambiguous(pool->0, tail, p, none);
            }
        }
    }
    match pool {
        Some(p) if done => {
            assert(p.encoded() + tail =~= p.encoded());
            Some(p)
        },
        _ => None,
    }
}

proof fn lemma_pool_key_injective(prefix: u8, a: PoolId, b: PoolId)
    requires
        seq![prefix] + a.encoded() == seq![prefix] + b.encoded(),
    ensures
        a == b,
{
    lemma_block_prefix(seq![prefix], a.encoded(), seq![prefix], b.encoded());
    let none = Seq::<u8>::empty();
    assert(a.encoded() + none =~= a.encoded());
    assert(b.encoded() + none =~= b.encoded());
    law_pool_encoding_is_unambiguous(a, none, b, none);
}

impl TableKey for PoolKey {
    open spec fn key_bytes(self) -> Seq<u8> {
        seq![DbKeyPrefix::Pool.byte()] + self.0.encoded()
    }

    open spec fn key_valid(self) -> bool {
        self.0.canonical()
    }

    fn to_bytes(&self) -> (r: Vec<u8>) {
        pool_key_bytes(DbKeyPrefix::Pool.as_byte(), &self.0)
    }

    fn from_bytes(bytes: &[u8]) -> (r: Option<Self>) {
        let pool = pool_from_key_bytes(DbKeyPrefix::Pool.as_byte(), bytes);
        proof {
            assert forall|k: PoolKey| k.key_valid() && pool is None implies #[trigger] k.key_bytes()
                != bytes@ by {
                let encoded = k.0.encoded();
            }
        }
        match pool {
            Some(p) => Some(PoolKey(p)),
            None => None,
        }
    }

    proof fn lemma_key_injective(a: Self, b: Self) {
        lemma_pool_key_injective(DbKeyPrefix::Pool.byte(), a.0, b.0);
    }
}

impl TableKey for DesiredFeeKey {
    open spec fn key_bytes(self) -> Seq<u8> {
        seq![DbKeyPrefix::DesiredFee.byte()] + self.0.encoded()
    }

    open spec fn key_valid(self) -> bool {
        self.0.canonical()
    }

    fn to_bytes(&self) -> (r: Vec<u8>) {
        pool_key_bytes(DbKeyPrefix::DesiredFee.as_byte(), &self.0)
    }

    fn from_bytes(bytes: &[u8]) -> (r: Option<Self>) {
        let pool = pool_from_key_bytes(DbKeyPrefix::DesiredFee.as_byte(), bytes);
        proof {
            assert forall|k: DesiredFeeKey|
                k.key_valid() && pool is None implies #[trigger] k.key_bytes() != bytes@ by {
                let encoded = k.0.encoded();
            }
        }
        match pool {
            Some(p) => Some(DesiredFeeKey(p)),
            None => None,
        }
    }

    proof fn lemma_key_injective(a: Self, b: Self) {
        lemma_pool_key_injective(DbKeyPrefix::DesiredFee.byte(), a.0, b.0);
    }
}

impl TableKey for LpPositionKey {
    open spec fn key_bytes(self) -> Seq<u8> {
        seq![DbKeyPrefix::LpPosition.byte()] + self.pool.encoded() + self.owner.bytes@
    }

    open spec fn key_valid(self) -> bool {
        self.pool.canonical() && self.owner.valid()
    }

    fn to_bytes(&self) -> (r: Vec<u8>) {
        let mut out = vec![DbKeyPrefix::LpPosition.as_byte()];
        self.pool.encode(&mut out);
        append_bytes(&mut out, self.owner.bytes.as_slice());
        assert(out@ =~= self.key_bytes());
        out
    }

    fn from_bytes(bytes: &[u8]) -> (r: Option<Self>) {
        let mut reader = Reader::new(bytes);
        let named = reader.read_marker(DbKeyPrefix::LpPosition.as_byte());
        let ghost rest0 = reader.rest();
        let pool: Option<PoolId> = if named {
            PoolId::decode(&mut reader)
        } else {
            None
        };
        let ghost rest1 = reader.rest();
        let key: Option<[u8; 33]> = if pool.is_some() {
            reader.read_array::<33>()
        } else {
            None
        };
        let ghost rest2 = reader.rest();
        let done = reader.is_done();
        proof {
            assert forall|k: LpPositionKey|
                k.key_valid() && #[trigger] k.key_bytes() == bytes@ implies named && pool is Some
                && key is Some && done && is_public_key((key->0)@) by {
                let prefix = seq![DbKeyPrefix::LpPosition.byte()];
                let none = Seq::<u8>::empty();
                let owner = k.owner.bytes@;
                assert(bytes@ =~= prefix + (k.pool.encoded() + owner));
                lemma_block_prefix(prefix, rest0, prefix, k.pool.encoded() + owner);
                law_pool_encoding_is_unambiguous(pool->0, rest1, k.pool, owner);
                assert(owner + none =~= owner);
                lemma_block_prefix((key->0)@, rest2, owner, none);
            }
        }
        match (pool, key) {
            (Some(pool), Some(key)) if done => {
                match PublicKey::from_bytes(key) {
                    Some(owner) => {
                        let k = LpPositionKey { pool, owner };
                        assert(k.key_bytes() =~= bytes@);
                        Some(k)
                    },
                    None => None,
                }
            },
            _ => None,
        }
    }

    proof fn lemma_key_injective(a: Self, b: Self) {
        let prefix = seq![DbKeyPrefix::LpPosition.byte()];
        assert(a.key_bytes() =~= prefix + (a.pool.encoded() + a.owner.bytes@));
        assert(b.key_bytes() =~= prefix + (b.pool.encoded() + b.owner.bytes@));
        lemma_block_prefix(
            prefix,
            a.pool.encoded() + a.owner.bytes@,
            prefix,
            b.pool.encoded() + b.owner.bytes@,
        );
        law_pool_encoding_is_unambiguous(a.pool, a.owner.bytes@, b.pool, b.owner.bytes@);
        assert(a.owner.bytes =~= b.owner.bytes);
    }
}

impl TableKey for BalanceKey {
    open spec fn key_bytes(self) -> Seq<u8> {
        seq![DbKeyPrefix::Balance.byte()] + self.owner.bytes@ + bigsize(self.unit.id)
    }

    open spec fn key_valid(self) -> bool {
        self.owner.valid()
    }

    fn to_bytes(&self) -> (r: Vec<u8>) {
        let mut out = vec![DbKeyPrefix::Balance.as_byte()];
        append_bytes(&mut out, self.owner.bytes.as_slice());
        append_bytes(&mut out, crate::encoding::encode_u64(self.unit.id).as_slice());
        assert(out@ =~= self.key_bytes());
        out
    }

    fn from_bytes(bytes: &[u8]) -> (r: Option<Self>) {
        let mut reader = Reader::new(bytes);
        let named = reader.read_marker(DbKeyPrefix::Balance.as_byte());
        let ghost rest0 = reader.rest();
        let key: Option<[u8; 33]> = if named {
            reader.read_array::<33>()
        } else {
            None
        };
        let ghost rest1 = reader.rest();
        let unit: Option<u64> = if key.is_some() {
            reader.read_u64()
        } else {
            None
        };
        let ghost rest2 = reader.rest();
        let done = reader.is_done();
        proof {
            assert forall|k: BalanceKey|
                k.key_valid() && #[trigger] k.key_bytes() == bytes@ implies named && key is Some
                && unit is Some && done && is_public_key((key->0)@) by {
                let prefix = seq![DbKeyPrefix::Balance.byte()];
                let none = Seq::<u8>::empty();
                let owner = k.owner.bytes@;
                let number = bigsize(k.unit.id);
                assert(bytes@ =~= prefix + (owner + number));
                lemma_block_prefix(prefix, rest0, prefix, owner + number);
                lemma_block_prefix((key->0)@, rest1, owner, number);
                assert(number + none =~= number);
                lemma_bigsize_prefix(unit->0, rest2, k.unit.id, none);
            }
        }
        match (key, unit) {
            (Some(key), Some(unit)) if done => {
                match PublicKey::from_bytes(key) {
                    Some(owner) => {
                        let k = BalanceKey { owner, unit: AmountUnit { id: unit } };
                        assert(k.key_bytes() =~= bytes@);
                        Some(k)
                    },
                    None => None,
                }
            },
            _ => None,
        }
    }

    proof fn lemma_key_injective(a: Self, b: Self) {
        let prefix = seq![DbKeyPrefix::Balance.byte()];
        let none = Seq::<u8>::empty();
        let x = bigsize(a.unit.id);
        let y = bigsize(b.unit.id);
        assert(a.key_bytes() =~= prefix + (a.owner.bytes@ + x));
        assert(b.key_bytes() =~= prefix + (b.owner.bytes@ + y));
        lemma_block_prefix(prefix, a.owner.bytes@ + x, prefix, b.owner.bytes@ + y);
        lemma_block_prefix(a.owner.bytes@, x, b.owner.bytes@, y);
        assert(x + none =~= x);
        assert(y + none =~= y);
        lemma_bigsize_prefix(a.unit.id, none, b.unit.id, none);
        assert(a.owner.bytes =~= b.owner.bytes);
    }
}

impl TableKey for FeeVoteKey {
    open spec fn key_bytes(self) -> Seq<u8> {
        seq![DbKeyPrefix::FeeVote.byte()] + self.pool.encoded() + bigsize(self.peer.id as u64)
    }

    open spec fn key_valid(self) -> bool {
        self.pool.canonical()
    }

    fn to_bytes(&self) -> (r: Vec<u8>) {
        let mut out = vec![DbKeyPrefix::FeeVote.as_byte()];
        self.pool.encode(&mut out);
        append_bytes(&mut out, crate::encoding::encode_u64(self.peer.id as u64).as_slice());
        assert(out@ =~= self.key_bytes());
        out
    }

    fn from_bytes(bytes: &[u8]) -> (r: Option<Self>) {
        let mut reader = Reader::new(bytes);
        let named = reader.read_marker(DbKeyPrefix::FeeVote.as_byte());
        let ghost rest0 = reader.rest();
        let pool: Option<PoolId> = if named {
            PoolId::decode(&mut reader)
        } else {
            None
        };
        let ghost rest1 = reader.rest();
        let peer: Option<u64> = if pool.is_some() {
            reader.read_u64()
        } else {
            None
        };
        let ghost rest2 = reader.rest();
        let done = reader.is_done();
        proof {
            assert forall|k: FeeVoteKey|
                k.key_valid() && #[trigger] k.key_bytes() == bytes@ implies named && pool is Some
                && peer is Some && done && peer->0 <= u16::MAX by {
                let prefix = seq![DbKeyPrefix::FeeVote.byte()];
                let none = Seq::<u8>::empty();
                let number = bigsize(k.peer.id as u64);
                assert(bytes@ =~= prefix + (k.pool.encoded() + number));
                lemma_block_prefix(prefix, rest0, prefix, k.pool.encoded() + number);
                law_pool_encoding_is_unambiguous(pool->0, rest1, k.pool, number);
                assert(number + none =~= number);
                lemma_bigsize_prefix(peer->0, rest2, k.peer.id as u64, none);
            }
        }
        match (pool, peer) {
            (Some(pool), Some(peer)) if done && peer <= u16::MAX as u64 => {
                let k = FeeVoteKey { pool, peer: PeerId { id: peer as u16 } };
                assert(k.key_bytes() =~= bytes@);
                Some(k)
            },
            _ => None,
        }
    }

    proof fn lemma_key_injective(a: Self, b: Self) {
        let prefix = seq![DbKeyPrefix::FeeVote.byte()];
        let none = Seq::<u8>::empty();
        let x = bigsize(a.peer.id as u64);
        let y = bigsize(b.peer.id as u64);
        assert(a.key_bytes() =~= prefix + (a.pool.encoded() + x));
        assert(b.key_bytes() =~= prefix + (b.pool.encoded() + y));
        lemma_block_prefix(prefix, a.pool.encoded() + x, prefix, b.pool.encoded() + y);
        law_pool_encoding_is_unambiguous(a.pool, x, b.pool, y);
        assert(x + none =~= x);
        assert(y + none =~= y);
        lemma_bigsize_prefix(a.peer.id as u64, none, b.peer.id as u64, none);
    }
}

/// The byte form of a balance's key is short.
pub proof fn lemma_balance_key_len(key: BalanceKey)
    ensures
        key.key_bytes().len() <= 43,
{
    lemma_bigsize_len(key.unit.id);
}

/// The byte form of a position's key is short.
pub proof fn lemma_position_key_len(key: LpPositionKey)
    ensures
        key.key_bytes().len() <= 52,
{
    lemma_bigsize_len(key.pool.low().id);
    lemma_bigsize_len(key.pool.high().id);
}

/// Every key of a table starts with the byte of that table, and with no other.
pub proof fn law_tables_do_not_overlap(
    pool: PoolKey,
    position: LpPositionKey,
    balance: BalanceKey,
    vote: FeeVoteKey,
    desired: DesiredFeeKey,
)
    ensures
        pool.key_bytes()[0] == DbKeyPrefix::Pool.byte(),
        position.key_bytes()[0] == DbKeyPrefix::LpPosition.byte(),
        balance.key_bytes()[0] == DbKeyPrefix::Balance.byte(),
        vote.key_bytes()[0] == DbKeyPrefix::FeeVote.byte(),
        desired.key_bytes()[0] == DbKeyPrefix::DesiredFee.byte(),
{
}

/// A scan for one pool's votes selects that pool's votes and nothing else.
pub proof fn law_votes_of_one_pool_lie_together(pool: PoolId, key: FeeVoteKey)
    ensures
        starts_with(key.key_bytes(), FeeVotesByPoolPrefix(pool).prefix_bytes()) <==> key.pool
            == pool,
{
    let prefix = FeeVotesByPoolPrefix(pool).prefix_bytes();
    let bytes = key.key_bytes();
    let n = prefix.len() as int;
    let number = bigsize(key.peer.id as u64);
    if starts_with(bytes, prefix) {
        let tail = bytes.skip(n);
        assert(bytes =~= prefix + tail);
        assert(bytes =~= seq![DbKeyPrefix::FeeVote.byte()] + (pool.encoded() + tail));
        assert(bytes =~= seq![DbKeyPrefix::FeeVote.byte()] + (key.pool.encoded() + number));
        lemma_block_prefix(
            seq![DbKeyPrefix::FeeVote.byte()],
            pool.encoded() + tail,
            seq![DbKeyPrefix::FeeVote.byte()],
            key.pool.encoded() + number,
        );
        law_pool_encoding_is_unambiguous(pool, tail, key.pool, number);
    } else if key.pool == pool {
        assert(bytes.take(n) =~= prefix);
    }
}

} // verus!
