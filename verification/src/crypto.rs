//! Keys, digests and signatures.

use fedimint_core::secp256k1;
use vstd::prelude::*;

verus! {

/// Whether 33 bytes are a public key in compressed form.
pub uninterp spec fn is_public_key(bytes: Seq<u8>) -> bool;

/// The compressed public key that belongs to a secret, where the secret is one.
pub uninterp spec fn public_key_of(secret: Seq<u8>) -> Option<Seq<u8>>;

/// The SHA-256 digest of a byte string.
pub uninterp spec fn sha256_digest(bytes: Seq<u8>) -> Seq<u8>;

/// The signature over a 32-byte message that a secret makes without auxiliary
/// randomness.
pub uninterp spec fn schnorr_signature(secret: Seq<u8>, message: Seq<u8>) -> Seq<u8>;

/// Whether a signature over a 32-byte message verifies under a public key, of
/// which only the x coordinate counts.
pub uninterp spec fn schnorr_verifies(
    signature: Seq<u8>,
    message: Seq<u8>,
    public_key: Seq<u8>,
) -> bool;

/// `secp256k1::PublicKey::from_slice`: whether it accepts the bytes.
#[verifier::external_body]
fn accepts_public_key(bytes: &[u8; 33]) -> (r: bool)
    ensures
        r == is_public_key(bytes@),
{
    secp256k1::PublicKey::from_slice(bytes).is_ok()
}

/// `secp256k1::Keypair::from_seckey_slice` and `Keypair::public_key`: the
/// public key of a secret in compressed form, which
/// `secp256k1::PublicKey::from_slice` accepts; nothing where the secret is not
/// a secret key.
#[verifier::external_body]
fn derive_public_key(secret: &[u8; 32]) -> (r: Option<[u8; 33]>)
    ensures
        match r {
            Some(key) => public_key_of(secret@) == Some(key@) && is_public_key(key@),
            None => public_key_of(secret@) is None,
        },
{
    match secp256k1::Keypair::from_seckey_slice(secp256k1::SECP256K1, secret) {
        Ok(keypair) => Some(keypair.public_key().serialize()),
        Err(_) => None,
    }
}

/// `bitcoin_hashes::sha256::Hash::hash`: the digest of the bytes.
#[verifier::external_body]
pub(crate) fn sha256(bytes: &[u8]) -> (r: [u8; 32])
    ensures
        r@ == sha256_digest(bytes@),
{
    let digest: bitcoin_hashes::sha256::Hash = bitcoin_hashes::Hash::hash(bytes);
    bitcoin_hashes::Hash::to_byte_array(digest)
}

/// `Secp256k1::sign_schnorr_no_aux_rand` with the keypair of the secret: the
/// signature over the message, which verifies under the secret's own public
/// key.
#[verifier::external_body]
fn sign_schnorr(secret: &[u8; 32], message: &[u8; 32]) -> (r: [u8; 64])
    requires
        public_key_of(secret@) is Some,
    ensures
        r@ == schnorr_signature(secret@, message@),
        schnorr_verifies(r@, message@, public_key_of(secret@)->0),
{
    let keypair = secp256k1::Keypair::from_seckey_slice(secp256k1::SECP256K1, secret)
        .expect("the secret is a secret key");
    let message = secp256k1::Message::from_digest(*message);
    *secp256k1::SECP256K1.sign_schnorr_no_aux_rand(&message, &keypair).as_ref()
}

/// `Secp256k1::verify_schnorr` under the x-only form of the public key: whether
/// the signature over the message is accepted. Bytes that are not a public key
/// verify nothing.
#[verifier::external_body]
fn verify_schnorr(signature: &[u8; 64], message: &[u8; 32], public_key: &[u8; 33]) -> (r: bool)
    ensures
        r == (is_public_key(public_key@) && schnorr_verifies(signature@, message@, public_key@)),
{
    let message = secp256k1::Message::from_digest(*message);
    match (
        secp256k1::PublicKey::from_slice(public_key),
        secp256k1::schnorr::Signature::from_slice(signature),
    ) {
        (Ok(key), Ok(sig)) => secp256k1::SECP256K1
            .verify_schnorr(&sig, &message, &key.x_only_public_key().0)
            .is_ok(),
        _ => false,
    }
}

/// `Debug` of `secp256k1::PublicKey`: a text that shows the key, for bytes that
/// are one. It shows how the key lies in memory, which may differ from machine to
/// machine, so of the text itself nothing is claimed.
#[verifier::external_body]
fn debug_public_key(bytes: &[u8; 33]) -> (r: Option<String>)
    ensures
        r is Some == is_public_key(bytes@),
{
    secp256k1::PublicKey::from_slice(bytes).ok().map(|key| format!("{key:?}"))
}

/// A public key in compressed form.
#[derive(Debug, Clone, Copy, PartialEq, Eq, PartialOrd, Ord, Hash)]
pub struct PublicKey {
    pub bytes: [u8; 33],
}

impl PublicKey {
    /// Whether the bytes are a point on the curve.
    pub open spec fn valid(self) -> bool {
        is_public_key(self.bytes@)
    }

    /// The public key with these bytes, where they are one.
    pub fn from_bytes(bytes: [u8; 33]) -> (r: Option<PublicKey>)
        ensures
            r == (if is_public_key(bytes@) {
                Some(PublicKey { bytes })
            } else {
                None::<PublicKey>
            }),
    {
        if accepts_public_key(&bytes) {
            Some(PublicKey { bytes })
        } else {
            None
        }
    }

    /// Whether the signature over a 32-byte message is this key's.
    pub fn verifies(&self, signature: &[u8; 64], message: &[u8; 32]) -> (r: bool)
        ensures
            r == (self.valid() && schnorr_verifies(signature@, message@, self.bytes@)),
    {
        verify_schnorr(signature, message, &self.bytes)
    }

    /// The key for a log line; nothing where it is no point of the curve.
    pub fn shown(&self) -> (r: Option<String>)
        ensures
            r is Some == self.valid(),
    {
        debug_public_key(&self.bytes)
    }

    /// Whether two keys are the same.
    pub fn same(&self, other: &PublicKey) -> (r: bool)
        ensures
            r == (*self == *other),
    {
        let r = crate::bytes::bytes_eq(self.bytes.as_slice(), other.bytes.as_slice());
        proof {
            if r {
                assert(self.bytes =~= other.bytes);
            }
        }
        r
    }
}

/// A secret key and the public key that belongs to it.
#[derive(Debug, Clone, Copy, PartialEq, Eq)]
pub struct Keypair {
    secret: [u8; 32],
    public: PublicKey,
}

impl Keypair {
    /// The public key belongs to the secret.
    #[verifier::type_invariant]
    spec fn matches(self) -> bool {
        &&& public_key_of(self.secret@) == Some(self.public.bytes@)
        &&& is_public_key(self.public.bytes@)
    }

    /// Whether the public key belongs to the secret.
    pub open spec fn genuine(self) -> bool {
        &&& public_key_of(self.secret_bytes()) == Some(self.public().bytes@)
        &&& self.public().valid()
    }

    /// A genuine keypair is determined by its secret.
    pub proof fn lemma_determined(self, other: Keypair)
        requires
            self.genuine(),
            other.genuine(),
            self.secret_bytes() == other.secret_bytes(),
        ensures
            self == other,
    {
        assert(self.secret =~= other.secret);
        assert(self.public.bytes =~= other.public.bytes);
    }

    /// A secret has 32 bytes.
    pub proof fn lemma_secret_len(self)
        ensures
            self.secret_bytes().len() == 32,
    {
    }

    /// The secret's bytes.
    pub closed spec fn secret_bytes(self) -> Seq<u8> {
        self.secret@
    }

    /// The public half.
    pub closed spec fn public(self) -> PublicKey {
        self.public
    }

    /// The keypair of a secret, where the secret is one.
    pub fn from_secret(secret: [u8; 32]) -> (r: Option<Keypair>)
        ensures
            match r {
                Some(k) => {
                    &&& k.secret_bytes() == secret@
                    &&& k.genuine()
                },
                None => public_key_of(secret@) is None,
            },
    {
        match derive_public_key(&secret) {
            Some(bytes) => Some(Keypair { secret, public: PublicKey { bytes } }),
            None => None,
        }
    }

    /// The public key.
    pub fn public_key(&self) -> (r: PublicKey)
        ensures
            r == self.public(),
            self.genuine(),
    {
        proof {
            use_type_invariant(self);
        }
        self.public
    }

    /// Signs a 32-byte message. The same key and message always give the same
    /// signature, and it verifies under the keypair's public key.
    pub fn sign(&self, message: &[u8; 32]) -> (r: [u8; 64])
        ensures
            r@ == schnorr_signature(self.secret_bytes(), message@),
            schnorr_verifies(r@, message@, self.public().bytes@),
            self.public().valid(),
    {
        proof {
            use_type_invariant(self);
        }
        sign_schnorr(&self.secret, message)
    }

    /// The secret, for storage.
    pub fn secret(&self) -> (r: [u8; 32])
        ensures
            r@ == self.secret_bytes(),
            self.genuine(),
    {
        proof {
            use_type_invariant(self);
        }
        self.secret
    }
}

} // verus!
