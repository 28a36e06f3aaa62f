//! Keys that can be found again from the seed alone.
//!
//! A fresh key is derived from the module's secret and a random tweak. The
//! tweak is published beside the key; it is drawn until a filter that only the
//! holder of the secret can compute accepts it, so that the holder recognises
//! its own tweaks cheaply among many.

use fedimint_core::secp256k1;
use fedimint_derive_secret::{ChildId, DerivableSecret};
use vstd::prelude::*;

use crate::bytes::append_bytes;
use crate::crypto::{public_key_of, sha256, sha256_digest, Keypair, PublicKey};

verus! {

/// The keys that own what swaps pay out.
pub const CHILD_SWAP: u64 = 0;

/// The keys that own positions.
pub const CHILD_LP: u64 = 1;

/// The secret that everything of this module is derived from.
#[derive(Debug, Clone)]
pub struct ModuleSecret {
    pub root_key: Vec<u8>,
    pub salt: Vec<u8>,
}

/// The filter that belongs to a secret.
pub uninterp spec fn filter_of(root_key: Seq<u8>, salt: Seq<u8>) -> Seq<u8>;

/// The secret key at a path of child numbers below a secret.
pub uninterp spec fn secret_key_of(
    root_key: Seq<u8>,
    salt: Seq<u8>,
    path: Seq<u64>,
) -> Seq<u8>;

/// `DerivableSecret::to_random_bytes` of the root secret: 32 bytes that are a
/// function of the secret alone.
#[verifier::external_body]
fn derive_filter(root_key: &[u8], salt: &[u8]) -> (r: [u8; 32])
    ensures
        r@ == filter_of(root_key@, salt@),
{
    DerivableSecret::new_root(root_key, salt).to_random_bytes()
}

/// `DerivableSecret::child_key` three times and `DerivableSecret::to_secp_key`:
/// a secret key that is a function of the secret and the three child numbers
/// alone, and that has a public key.
#[verifier::external_body]
fn derive_secret_key(
    root_key: &[u8],
    salt: &[u8],
    child: u64,
    high: u64,
    low: u64,
) -> (r: [u8; 32])
    ensures
        r@ == secret_key_of(root_key@, salt@, seq![child, high, low]),
        public_key_of(r@) is Some,
{
    DerivableSecret::new_root(root_key, salt)
        .child_key(ChildId(child))
        .child_key(ChildId(high))
        .child_key(ChildId(low))
        .to_secp_key(secp256k1::SECP256K1)
        .secret_bytes()
}

/// `rand::random`: sixteen random bytes.
#[verifier::external_body]
fn random_tweak() -> (r: [u8; 16]) {
    rand::random::<u128>().to_be_bytes()
}

/// The number that bytes stand for, the most significant first.
pub open spec fn big_endian_value(bytes: Seq<u8>) -> int
    decreases bytes.len(),
{
    if bytes.len() == 0 {
        0
    } else {
        big_endian_value(bytes.drop_last()) * 256 + bytes.last()
    }
}

/// The number that eight bytes of a tweak stand for.
fn half(tweak: &[u8; 16], from: usize) -> (r: u64)
    requires
        from <= 8,
    ensures
        r == big_endian_value(tweak@.subrange(from as int, from + 8)),
{
    let ghost bytes = tweak@.subrange(from as int, from + 8);
    let mut value: u64 = 0;
    let mut bound: Ghost<int> = Ghost(1);
    let mut i: usize = 0;
    while i < 8
        invariant
            from <= 8,
            i <= 8,
            bytes == tweak@.subrange(from as int, from + 8),
            value == big_endian_value(bytes.take(i as int)),
            value < bound@,
            i == 0 ==> bound@ == 1,
            i == 1 ==> bound@ == 0x100,
            i == 2 ==> bound@ == 0x1_0000,
            i == 3 ==> bound@ == 0x100_0000,
            i == 4 ==> bound@ == 0x1_0000_0000,
            i == 5 ==> bound@ == 0x100_0000_0000,
            i == 6 ==> bound@ == 0x1_0000_0000_0000,
            i == 7 ==> bound@ == 0x100_0000_0000_0000,
            i == 8 ==> bound@ == 0x1_0000_0000_0000_0000,
        decreases 8 - i,
    {
        let b: u8 = tweak[from + i];
        assert(bytes[i as int] == b);
        assert(bytes.take(i as int + 1).drop_last() =~= bytes.take(i as int));
        value = value * 256 + b as u64;
        bound = Ghost(bound@ * 256);
        i = i + 1;
    }
    assert(bytes.take(8) =~= bytes);
    value
}

/// The path of the key of a tweak: the kind of key, then the two halves of the
/// tweak.
pub open spec fn tweak_path(child: u64, tweak: [u8; 16]) -> Seq<u64> {
    seq![
        child,
        big_endian_value(tweak@.subrange(0, 8)) as u64,
        big_endian_value(tweak@.subrange(8, 16)) as u64,
    ]
}

impl ModuleSecret {
    /// The filter that recognises this secret's tweaks.
    pub open spec fn filter(self) -> Seq<u8> {
        filter_of(self.root_key@, self.salt@)
    }

    /// The secret key of a tweak.
    pub open spec fn secret_key(self, child: u64, tweak: [u8; 16]) -> Seq<u8> {
        secret_key_of(self.root_key@, self.salt@, tweak_path(child, tweak))
    }

    /// The public key of a tweak.
    pub open spec fn public_key(self, child: u64, tweak: [u8; 16]) -> Option<Seq<u8>> {
        public_key_of(self.secret_key(child, tweak))
    }
}

/// The filter that recognises the tweaks of `root`. Only the holder of the
/// secret can compute it.
pub fn tweak_filter(root: &ModuleSecret) -> (r: [u8; 32])
    ensures
        r@ == root.filter(),
{
    derive_filter(root.root_key.as_slice(), root.salt.as_slice())
}

/// Whether a filter accepts a tweak: the digest of both starts with two zero
/// bytes.
pub open spec fn passes_filter(tweak: Seq<u8>, filter: Seq<u8>) -> bool {
    let digest = sha256_digest(tweak + filter);
    digest[0] == 0 && digest[1] == 0
}

/// Whether a filter accepts a tweak, as about one in 65536 is.
pub fn check_tweak(tweak: [u8; 16], filter: [u8; 32]) -> (r: bool)
    ensures
        r == passes_filter(tweak@, filter@),
{
    let mut payload: Vec<u8> = Vec::with_capacity(48);
    append_bytes(&mut payload, tweak.as_slice());
    append_bytes(&mut payload, filter.as_slice());
    assert(payload@ =~= tweak@ + filter@);
    let digest = sha256(payload.as_slice());
    digest[0] == 0 && digest[1] == 0
}

/// Whether a filter accepts every tweak there is, so that whichever is drawn
/// passes.
pub open spec fn accepts_every_tweak(filter: Seq<u8>) -> bool {
    forall|tweak: [u8; 16]| #[trigger] passes_filter(tweak@, filter)
}

/// Draws random tweaks until one passes the filter of `root`; nothing only
/// where none of as many draws as a `u64` counts did.
///
/// Which tweak comes back, and how many draws it takes, is up to chance: what
/// comes back passes the filter, and nothing comes back only where the filter
/// refuses what was drawn. [`check_tweak`] says of each draw whether it is kept.
pub fn grind_tweak(root: &ModuleSecret) -> (r: Option<[u8; 16]>)
    ensures
        r matches Some(tweak) ==> passes_filter(tweak@, root.filter()),
        accepts_every_tweak(root.filter()) ==> r is Some,
{
    let filter = tweak_filter(root);
    let mut left: u64 = u64::MAX;
    while left > 0
        invariant
            filter@ == root.filter(),
            left < u64::MAX ==> !accepts_every_tweak(root.filter()),
        decreases left,
    {
        let tweak = random_tweak();
        if check_tweak(tweak, filter) {
            return Some(tweak);
        }
        left = left - 1;
    }
    None
}

/// The keypair of a tweak: the same secret, kind and tweak always give the same
/// one.
pub fn derive_keypair(root: &ModuleSecret, child: u64, tweak: [u8; 16]) -> (r: Keypair)
    ensures
        r.secret_bytes() == root.secret_key(child, tweak),
        Some(r.public().bytes@) == root.public_key(child, tweak),
{
    let high: u64 = half(&tweak, 0);
    let low: u64 = half(&tweak, 8);
    let secret = derive_secret_key(
        root.root_key.as_slice(),
        root.salt.as_slice(),
        child,
        high,
        low,
    );
    assert(seq![child, high, low] =~= tweak_path(child, tweak));
    Keypair::from_secret(secret).unwrap()
}

/// Whether a record is this secret's own: its tweak passes the filter, and the
/// key of that tweak is the key it names. A tweak that passes by chance, or
/// that someone else attached to a key of ours, is told apart by the second
/// test.
pub fn matches_own_key(
    root: &ModuleSecret,
    filter: [u8; 32],
    child: u64,
    tweak: [u8; 16],
    pubkey: PublicKey,
) -> (r: bool)
    ensures
        r == (passes_filter(tweak@, filter@) && root.public_key(child, tweak) == Some(
            pubkey.bytes@,
        )),
{
    if !check_tweak(tweak, filter) {
        return false;
    }
    let own = derive_keypair(root, child, tweak).public_key();
    let same = own.same(&pubkey);
    proof {
        if own.bytes@ == pubkey.bytes@ {
            assert(own.bytes =~= pubkey.bytes);
        }
    }
    same
}

/// A record made from a tweak that was drawn for this secret is recognised as
/// its own.
pub proof fn law_own_records_are_recognised(
    root: ModuleSecret,
    child: u64,
    tweak: [u8; 16],
    pubkey: PublicKey,
)
    requires
        passes_filter(tweak@, root.filter()),
        root.public_key(child, tweak) == Some(pubkey.bytes@),
    ensures
        is_own(root, child, tweak, pubkey),
{
}

/// Whether a record is this secret's own.
pub open spec fn is_own(root: ModuleSecret, child: u64, tweak: [u8; 16], pubkey: PublicKey) -> bool {
    passes_filter(tweak@, root.filter()) && root.public_key(child, tweak) == Some(pubkey.bytes@)
}

/// Tweaks are told apart by their paths: no two of them share one.
pub proof fn law_tweak_paths_are_distinct(
    child: u64,
    tweak: [u8; 16],
    child2: u64,
    tweak2: [u8; 16],
)
    requires
        tweak_path(child, tweak) == tweak_path(child2, tweak2),
    ensures
        child == child2,
        tweak == tweak2,
{
    let p = tweak_path(child, tweak);
    let q = tweak_path(child2, tweak2);
    assert(p[0] == q[0] && p[1] == q[1] && p[2] == q[2]);
    lemma_value_in_range(tweak@.subrange(0, 8));
    lemma_value_in_range(tweak2@.subrange(0, 8));
    lemma_value_in_range(tweak@.subrange(8, 16));
    lemma_value_in_range(tweak2@.subrange(8, 16));
    lemma_value_injective(tweak@.subrange(0, 8), tweak2@.subrange(0, 8));
    lemma_value_injective(tweak@.subrange(8, 16), tweak2@.subrange(8, 16));
    assert forall|i: int| 0 <= i < 16 implies tweak@[i] == tweak2@[i] by {
        if i < 8 {
            assert(tweak@.subrange(0, 8)[i] == tweak2@.subrange(0, 8)[i]);
        } else {
            assert(tweak@.subrange(8, 16)[i - 8] == tweak2@.subrange(8, 16)[i - 8]);
        }
    }
    assert(tweak@ =~= tweak2@);
    assert(tweak =~= tweak2);
}

proof fn lemma_value_in_range(bytes: Seq<u8>)
    requires
        bytes.len() == 8,
    ensures
        0 <= big_endian_value(bytes) <= u64::MAX,
{
    reveal_with_fuel(big_endian_value, 9);
}

proof fn lemma_value_injective(a: Seq<u8>, b: Seq<u8>)
    requires
        a.len() == b.len(),
        big_endian_value(a) == big_endian_value(b),
    ensures
        a == b,
    decreases a.len(),
{
    if a.len() == 0 {
        assert(a =~= b);
    } else {
        lemma_value_injective(a.drop_last(), b.drop_last());
        assert(a =~= a.drop_last().push(a.last()));
        assert(b =~= b.drop_last().push(b.last()));
    }
}

/// The path of a tweak spells it out: the kind of key, then the tweak's sixteen
/// bytes as one number, its upper half before its lower.
pub proof fn law_a_path_spells_its_tweak(child: u64, tweak: [u8; 16])
    ensures
        tweak_path(child, tweak).len() == 3,
        tweak_path(child, tweak)[0] == child,
        tweak_path(child, tweak)[1] * 0x1_0000_0000_0000_0000int + tweak_path(child, tweak)[2]
            == big_endian_value(tweak@),
{
    let b = tweak@;
    let hi = b.subrange(0, 8);
    let lo = b.subrange(8, 16);
    reveal_with_fuel(big_endian_value, 17);
    lemma_eight_bytes(hi);
    lemma_eight_bytes(lo);
    lemma_value_splits(hi, lo);
    assert(hi + lo =~= b);
    assert(0x1_0000_0000_0000_0000int == 256int * 256 * 256 * 256 * 256 * 256 * 256 * 256);
}

/// What eight bytes stand for fits into a `u64`.
proof fn lemma_eight_bytes(bytes: Seq<u8>)
    requires
        bytes.len() == 8,
    ensures
        0 <= big_endian_value(bytes) <= u64::MAX,
{
    reveal_with_fuel(big_endian_value, 9);
}

/// Bytes in front of eight others count two to the sixty-fourth each.
proof fn lemma_value_splits(front: Seq<u8>, back: Seq<u8>)
    requires
        back.len() == 8,
    ensures
        big_endian_value(front + back) == big_endian_value(front) * 0x1_0000_0000_0000_0000
            + big_endian_value(back),
{
    lemma_value_push(front, back, 8);
    assert(front + back.take(8) =~= front + back);
    assert(back.take(8) =~= back);
}

/// What bytes stand for, with the first `n` of others behind them.
proof fn lemma_value_push(front: Seq<u8>, back: Seq<u8>, n: nat)
    requires
        n <= back.len(),
    ensures
        big_endian_value(front + back.take(n as int)) == big_endian_value(front) * places(n)
            + big_endian_value(back.take(n as int)),
        n == 8 ==> places(n) == 0x1_0000_0000_0000_0000,
    decreases n,
{
    reveal_with_fuel(places, 9);
    let all = front + back.take(n as int);
    if n == 0 {
        assert(all =~= front);
    } else {
        let m = (n - 1) as nat;
        lemma_value_push(front, back, m);
        assert(all.drop_last() =~= front + back.take(m as int));
        assert(back.take(n as int).drop_last() =~= back.take(m as int));
        let f = big_endian_value(front);
        let p = places(m);
        assert((f * p) * 256 == f * (p * 256)) by (nonlinear_arith);
    }
}

/// What a byte counts with `n` bytes behind it.
spec fn places(n: nat) -> int
    decreases n,
{
    if n == 0 {
        1
    } else {
        places((n - 1) as nat) * 256
    }
}

/// A filter accepts a tweak exactly when the first sixteen bits of the digest of
/// both are zero. A record is the secret's own exactly when its filter accepts the
/// tweak and the tweak leads to the record's key.
pub proof fn law_own_records_pass_the_filter(
    root: ModuleSecret,
    child: u64,
    tweak: [u8; 16],
    pubkey: PublicKey,
)
    ensures
        ({
            let digest = sha256_digest(tweak@ + root.filter());
            &&& passes_filter(tweak@, root.filter()) <==> digest[0] * 256 + digest[1] == 0
            &&& is_own(root, child, tweak, pubkey) <==> digest[0] * 256 + digest[1] == 0 && (
            root.public_key(child, tweak) matches Some(key) && key == pubkey.bytes@)
        }),
{
}

} // verus!
