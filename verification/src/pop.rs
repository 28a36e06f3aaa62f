//! What a proof of possession commits to.
//!
//! A transaction output names the key that will own the record it creates. The
//! submitter proves that it holds that key by signing the digest of every other
//! field of the output, behind a byte that keeps the kinds of output apart.

use vstd::prelude::*;

use crate::bytes::append_bytes;
use crate::crypto::{
    schnorr_signature, schnorr_verifies, sha256, sha256_digest, Keypair, PublicKey,
};
use crate::encoding::{append_u64s, bigsizes, lemma_bigsizes_prefix, lemma_block_prefix};
use crate::pool_id::PoolId;
use crate::units::{Amount, AmountUnit};

verus! {

/// The leading byte of a swap's payload.
pub const DOMAIN_SWAP: u8 = 0;

/// The leading byte of a deposit's payload.
pub const DOMAIN_DEPOSIT: u8 = 1;

/// The fields of a swap that its proof covers, encoded in order.
pub open spec fn swap_fields(
    unit_in: AmountUnit,
    unit_out: AmountUnit,
    amount_in: Amount,
    min_out: Amount,
    recipient_pk: PublicKey,
    tweak: [u8; 16],
) -> Seq<u8> {
    bigsizes(seq![unit_in.id, unit_out.id, amount_in.msats, min_out.msats])
        + recipient_pk.bytes@ + tweak@
}

/// The fields of a deposit that its proof covers, encoded in order.
pub open spec fn deposit_fields(
    pool: PoolId,
    amount_lo: Amount,
    amount_hi: Amount,
    min_shares: u64,
    owner_pk: PublicKey,
    tweak: [u8; 16],
) -> Seq<u8> {
    bigsizes(seq![pool.low().id, pool.high().id, amount_lo.msats, amount_hi.msats, min_shares])
        + owner_pk.bytes@ + tweak@
}

/// The bytes that a swap's proof commits to.
pub open spec fn swap_payload(
    unit_in: AmountUnit,
    unit_out: AmountUnit,
    amount_in: Amount,
    min_out: Amount,
    recipient_pk: PublicKey,
    tweak: [u8; 16],
) -> Seq<u8> {
    seq![DOMAIN_SWAP] + swap_fields(unit_in, unit_out, amount_in, min_out, recipient_pk, tweak)
}

/// The bytes that a deposit's proof commits to.
pub open spec fn deposit_payload(
    pool: PoolId,
    amount_lo: Amount,
    amount_hi: Amount,
    min_shares: u64,
    owner_pk: PublicKey,
    tweak: [u8; 16],
) -> Seq<u8> {
    seq![DOMAIN_DEPOSIT] + deposit_fields(pool, amount_lo, amount_hi, min_shares, owner_pk, tweak)
}

/// Appends the covered fields of a swap.
pub fn append_swap_fields(
    out: &mut Vec<u8>,
    unit_in: AmountUnit,
    unit_out: AmountUnit,
    amount_in: Amount,
    min_out: Amount,
    recipient_pk: PublicKey,
    tweak: [u8; 16],
)
    ensures
        final(out)@ == old(out)@ + swap_fields(
            unit_in,
            unit_out,
            amount_in,
            min_out,
            recipient_pk,
            tweak,
        ),
{
    let numbers: [u64; 4] = [unit_in.id, unit_out.id, amount_in.msats, min_out.msats];
    append_u64s(out, numbers.as_slice());
    append_bytes(out, recipient_pk.bytes.as_slice());
    append_bytes(out, tweak.as_slice());
    proof {
        assert(numbers@ =~= seq![unit_in.id, unit_out.id, amount_in.msats, min_out.msats]);
        assert(out@ =~= old(out)@ + swap_fields(
            unit_in,
            unit_out,
            amount_in,
            min_out,
            recipient_pk,
            tweak,
        ));
    }
}

/// Appends the covered fields of a deposit.
pub fn append_deposit_fields(
    out: &mut Vec<u8>,
    pool: PoolId,
    amount_lo: Amount,
    amount_hi: Amount,
    min_shares: u64,
    owner_pk: PublicKey,
    tweak: [u8; 16],
)
    ensures
        final(out)@ == old(out)@ + deposit_fields(
            pool,
            amount_lo,
            amount_hi,
            min_shares,
            owner_pk,
            tweak,
        ),
{
    let numbers: [u64; 5] = [
        pool.lo().id,
        pool.hi().id,
        amount_lo.msats,
        amount_hi.msats,
        min_shares,
    ];
    append_u64s(out, numbers.as_slice());
    append_bytes(out, owner_pk.bytes.as_slice());
    append_bytes(out, tweak.as_slice());
    proof {
        assert(numbers@ =~= seq![
            pool.low().id,
            pool.high().id,
            amount_lo.msats,
            amount_hi.msats,
            min_shares,
        ]);
        assert(out@ =~= old(out)@ + deposit_fields(
            pool,
            amount_lo,
            amount_hi,
            min_shares,
            owner_pk,
            tweak,
        ));
    }
}

/// The message that a swap's proof signs.
pub fn swap_pop_message(
    unit_in: AmountUnit,
    unit_out: AmountUnit,
    amount_in: Amount,
    min_out: Amount,
    recipient_pk: PublicKey,
    tweak: [u8; 16],
) -> (r: [u8; 32])
    ensures
        r@ == sha256_digest(
            swap_payload(unit_in, unit_out, amount_in, min_out, recipient_pk, tweak),
        ),
{
    let mut payload: Vec<u8> = Vec::new();
    payload.push(DOMAIN_SWAP);
    append_swap_fields(&mut payload, unit_in, unit_out, amount_in, min_out, recipient_pk, tweak);
    assert(payload@ =~= swap_payload(unit_in, unit_out, amount_in, min_out, recipient_pk, tweak));
    sha256(payload.as_slice())
}

/// The message that a deposit's proof signs.
pub fn deposit_pop_message(
    pool: PoolId,
    amount_lo: Amount,
    amount_hi: Amount,
    min_shares: u64,
    owner_pk: PublicKey,
    tweak: [u8; 16],
) -> (r: [u8; 32])
    ensures
        r@ == sha256_digest(
            deposit_payload(pool, amount_lo, amount_hi, min_shares, owner_pk, tweak),
        ),
{
    let mut payload: Vec<u8> = Vec::new();
    payload.push(DOMAIN_DEPOSIT);
    append_deposit_fields(&mut payload, pool, amount_lo, amount_hi, min_shares, owner_pk, tweak);
    assert(payload@ =~= deposit_payload(
        pool,
        amount_lo,
        amount_hi,
        min_shares,
        owner_pk,
        tweak,
    ));
    sha256(payload.as_slice())
}

/// Signs a proof-of-possession message. The same key and message always give
/// the same signature, and it verifies under the keypair's public key.
pub fn sign_pop(keypair: &Keypair, message: &[u8; 32]) -> (r: [u8; 64])
    ensures
        r@ == schnorr_signature(keypair.secret_bytes(), message@),
        keypair.public().valid(),
        schnorr_verifies(r@, message@, keypair.public().bytes@),
{
    keypair.sign(message)
}

/// Verifies a proof of possession against the key it claims to prove.
pub fn verify_pop(signature: &[u8; 64], message: &[u8; 32], pubkey: &PublicKey) -> (r: bool)
    ensures
        r == (pubkey.valid() && schnorr_verifies(signature@, message@, pubkey.bytes@)),
{
    pubkey.verifies(signature, message)
}

/// The covered fields of a swap, whatever stands behind them, are determined by
/// their encoding.
pub proof fn lemma_swap_fields_prefix(
    unit_in: AmountUnit,
    unit_out: AmountUnit,
    amount_in: Amount,
    min_out: Amount,
    recipient_pk: PublicKey,
    tweak: [u8; 16],
    x: Seq<u8>,
    unit_in2: AmountUnit,
    unit_out2: AmountUnit,
    amount_in2: Amount,
    min_out2: Amount,
    recipient_pk2: PublicKey,
    tweak2: [u8; 16],
    y: Seq<u8>,
)
    requires
        swap_fields(unit_in, unit_out, amount_in, min_out, recipient_pk, tweak) + x
            == swap_fields(unit_in2, unit_out2, amount_in2, min_out2, recipient_pk2, tweak2) + y,
    ensures
        unit_in == unit_in2,
        unit_out == unit_out2,
        amount_in == amount_in2,
        min_out == min_out2,
        recipient_pk == recipient_pk2,
        tweak == tweak2,
        x == y,
{
    let a = seq![unit_in.id, unit_out.id, amount_in.msats, min_out.msats];
    let b = seq![unit_in2.id, unit_out2.id, amount_in2.msats, min_out2.msats];
    let p = recipient_pk.bytes@;
    let q = recipient_pk2.bytes@;
    assert(bigsizes(a) + (p + (tweak@ + x)) =~= swap_fields(
        unit_in,
        unit_out,
        amount_in,
        min_out,
        recipient_pk,
        tweak,
    ) + x);
    assert(bigsizes(b) + (q + (tweak2@ + y)) =~= swap_fields(
        unit_in2,
        unit_out2,
        amount_in2,
        min_out2,
        recipient_pk2,
        tweak2,
    ) + y);
    lemma_bigsizes_prefix(a, p + (tweak@ + x), b, q + (tweak2@ + y));
    lemma_block_prefix(p, tweak@ + x, q, tweak2@ + y);
    lemma_block_prefix(tweak@, x, tweak2@, y);
    assert(a[0] == b[0] && a[1] == b[1] && a[2] == b[2] && a[3] == b[3]);
    assert(recipient_pk.bytes =~= recipient_pk2.bytes);
    assert(tweak =~= tweak2);
}

/// The covered fields of a deposit, whatever stands behind them, are determined
/// by their encoding.
pub proof fn lemma_deposit_fields_prefix(
    pool: PoolId,
    amount_lo: Amount,
    amount_hi: Amount,
    min_shares: u64,
    owner_pk: PublicKey,
    tweak: [u8; 16],
    x: Seq<u8>,
    pool2: PoolId,
    amount_lo2: Amount,
    amount_hi2: Amount,
    min_shares2: u64,
    owner_pk2: PublicKey,
    tweak2: [u8; 16],
    y: Seq<u8>,
)
    requires
        deposit_fields(pool, amount_lo, amount_hi, min_shares, owner_pk, tweak) + x
            == deposit_fields(pool2, amount_lo2, amount_hi2, min_shares2, owner_pk2, tweak2) + y,
    ensures
        pool == pool2,
        amount_lo == amount_lo2,
        amount_hi == amount_hi2,
        min_shares == min_shares2,
        owner_pk == owner_pk2,
        tweak == tweak2,
        x == y,
{
    let a = seq![pool.low().id, pool.high().id, amount_lo.msats, amount_hi.msats, min_shares];
    let b = seq![pool2.low().id, pool2.high().id, amount_lo2.msats, amount_hi2.msats, min_shares2];
    let p = owner_pk.bytes@;
    let q = owner_pk2.bytes@;
    assert(bigsizes(a) + (p + (tweak@ + x)) =~= deposit_fields(
        pool,
        amount_lo,
        amount_hi,
        min_shares,
        owner_pk,
        tweak,
    ) + x);
    assert(bigsizes(b) + (q + (tweak2@ + y)) =~= deposit_fields(
        pool2,
        amount_lo2,
        amount_hi2,
        min_shares2,
        owner_pk2,
        tweak2,
    ) + y);
    lemma_bigsizes_prefix(a, p + (tweak@ + x), b, q + (tweak2@ + y));
    lemma_block_prefix(p, tweak@ + x, q, tweak2@ + y);
    lemma_block_prefix(tweak@, x, tweak2@, y);
    assert(a[0] == b[0] && a[1] == b[1] && a[2] == b[2] && a[3] == b[3] && a[4] == b[4]);
    assert(owner_pk.bytes =~= owner_pk2.bytes);
    assert(tweak =~= tweak2);
    pool.lemma_is_over();
    pool2.lemma_is_over();
}

/// Every covered field of a swap changes what its proof commits to: two swaps
/// with the same payload agree in every field.
pub proof fn law_swap_payload_covers_every_field(
    unit_in: AmountUnit,
    unit_out: AmountUnit,
    amount_in: Amount,
    min_out: Amount,
    recipient_pk: PublicKey,
    tweak: [u8; 16],
    unit_in2: AmountUnit,
    unit_out2: AmountUnit,
    amount_in2: Amount,
    min_out2: Amount,
    recipient_pk2: PublicKey,
    tweak2: [u8; 16],
)
    requires
        swap_payload(unit_in, unit_out, amount_in, min_out, recipient_pk, tweak) == swap_payload(
            unit_in2,
            unit_out2,
            amount_in2,
            min_out2,
            recipient_pk2,
            tweak2,
        ),
    ensures
        unit_in == unit_in2,
        unit_out == unit_out2,
        amount_in == amount_in2,
        min_out == min_out2,
        recipient_pk == recipient_pk2,
        tweak == tweak2,
{
    let a = swap_fields(unit_in, unit_out, amount_in, min_out, recipient_pk, tweak);
    let b = swap_fields(unit_in2, unit_out2, amount_in2, min_out2, recipient_pk2, tweak2);
    lemma_block_prefix(seq![DOMAIN_SWAP], a, seq![DOMAIN_SWAP], b);
    let none = Seq::<u8>::empty();
    assert(a + none =~= a);
    assert(b + none =~= b);
    lemma_swap_fields_prefix(
        unit_in,
        unit_out,
        amount_in,
        min_out,
        recipient_pk,
        tweak,
        none,
        unit_in2,
        unit_out2,
        amount_in2,
        min_out2,
        recipient_pk2,
        tweak2,
        none,
    );
}

/// Every covered field of a deposit changes what its proof commits to.
pub proof fn law_deposit_payload_covers_every_field(
    pool: PoolId,
    amount_lo: Amount,
    amount_hi: Amount,
    min_shares: u64,
    owner_pk: PublicKey,
    tweak: [u8; 16],
    pool2: PoolId,
    amount_lo2: Amount,
    amount_hi2: Amount,
    min_shares2: u64,
    owner_pk2: PublicKey,
    tweak2: [u8; 16],
)
    requires
        deposit_payload(pool, amount_lo, amount_hi, min_shares, owner_pk, tweak)
            == deposit_payload(pool2, amount_lo2, amount_hi2, min_shares2, owner_pk2, tweak2),
    ensures
        pool == pool2,
        amount_lo == amount_lo2,
        amount_hi == amount_hi2,
        min_shares == min_shares2,
        owner_pk == owner_pk2,
        tweak == tweak2,
{
    let a = deposit_fields(pool, amount_lo, amount_hi, min_shares, owner_pk, tweak);
    let b = deposit_fields(pool2, amount_lo2, amount_hi2, min_shares2, owner_pk2, tweak2);
    lemma_block_prefix(seq![DOMAIN_DEPOSIT], a, seq![DOMAIN_DEPOSIT], b);
    let none = Seq::<u8>::empty();
    assert(a + none =~= a);
    assert(b + none =~= b);
    lemma_deposit_fields_prefix(
        pool,
        amount_lo,
        amount_hi,
        min_shares,
        owner_pk,
        tweak,
        none,
        pool2,
        amount_lo2,
        amount_hi2,
        min_shares2,
        owner_pk2,
        tweak2,
        none,
    );
}

/// No swap and no deposit ever share a payload, so a proof made for the one
/// never commits to the other.
pub proof fn law_swap_and_deposit_domains_are_separated(
    unit_in: AmountUnit,
    unit_out: AmountUnit,
    amount_in: Amount,
    min_out: Amount,
    recipient_pk: PublicKey,
    tweak: [u8; 16],
    pool: PoolId,
    amount_lo: Amount,
    amount_hi: Amount,
    min_shares: u64,
    owner_pk: PublicKey,
    tweak2: [u8; 16],
)
    ensures
        swap_payload(unit_in, unit_out, amount_in, min_out, recipient_pk, tweak)
            != deposit_payload(pool, amount_lo, amount_hi, min_shares, owner_pk, tweak2),
{
    assert(swap_payload(unit_in, unit_out, amount_in, min_out, recipient_pk, tweak)[0]
        == DOMAIN_SWAP);
    assert(deposit_payload(pool, amount_lo, amount_hi, min_shares, owner_pk, tweak2)[0]
        == DOMAIN_DEPOSIT);
}

} // verus!
