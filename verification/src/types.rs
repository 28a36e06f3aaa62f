//! Transaction items, consensus items and the errors that processing them gives.
//!
//! Outputs create records and so consume value; inputs destroy records and so
//! provide value.

use vstd::prelude::*;
use vstd::string::*;

use crate::crypto::{schnorr_signature, schnorr_verifies, sha256_digest, Keypair, PublicKey};
use crate::pool_id::PoolId;
use crate::pop::{
    deposit_payload, deposit_pop_message, law_deposit_payload_covers_every_field,
    law_swap_payload_covers_every_field, sign_pop, swap_payload, swap_pop_message, verify_pop,
};
use crate::units::{Amount, AmountUnit};

verus! {

/// An output of a transaction.
#[derive(Debug, Clone, PartialEq, Eq, Hash)]
pub enum AmmOutput {
    /// Sell `amount_in` of `unit_in` into the pool, and credit the proceeds as a
    /// balance that `recipient_pk` can claim.
    SwapV0 {
        unit_in: AmountUnit,
        unit_out: AmountUnit,
        amount_in: Amount,
        /// The least the swap may pay.
        min_out: Amount,
        recipient_pk: PublicKey,
        /// Stored with the balance, so that its owner can find it again.
        tweak: [u8; 16],
        /// Proof that the submitter holds `recipient_pk`, over every field
        /// above.
        pop: [u8; 64],
    },
    /// Add liquidity; create the pool where there is none.
    DepositV0 {
        pool: PoolId,
        amount_lo: Amount,
        amount_hi: Amount,
        /// The least the deposit may mint.
        min_shares: u64,
        owner_pk: PublicKey,
        tweak: [u8; 16],
        /// Proof that the submitter holds `owner_pk`, over every field above.
        pop: [u8; 64],
    },
    /// A kind of output that this version does not know.
    Default { variant: u64, bytes: Vec<u8> },
}

/// An input of a transaction.
#[derive(Debug, Clone, PartialEq, Eq, Hash)]
pub enum AmmInput {
    /// Claims the whole balance.
    ClaimBalanceV0 { pubkey: PublicKey, unit: AmountUnit },
    /// Burns shares and withdraws both sides pro rata, within the bounds.
    WithdrawV0 {
        pool: PoolId,
        owner_pk: PublicKey,
        shares: u64,
        min_lo: Amount,
        min_hi: Amount,
        max_lo: Amount,
        max_hi: Amount,
    },
    /// A kind of input that this version does not know.
    Default { variant: u64, bytes: Vec<u8> },
}

/// What a processed output leaves for its submitter: nothing beyond that it was
/// accepted.
#[derive(Debug, Clone, Copy, PartialEq, Eq, Hash, Structural)]
pub struct AmmOutputOutcome;

/// An item that a guardian proposes to the others.
#[derive(Debug, Clone, PartialEq, Eq, Hash)]
pub enum AmmConsensusItem {
    /// The proposing guardian's vote for a pool's fee.
    FeeVoteV0 { pool: PoolId, fee_per_mille: u16 },
    /// A kind of item that this version does not know.
    Default { variant: u64, bytes: Vec<u8> },
}

/// Why an input is refused.
#[derive(Debug, Clone, PartialEq, Eq, Hash)]
pub enum AmmInputError {
    UnknownVariant,
    NoSuchBalance,
    NoSuchPool,
    NoSuchPosition,
    InsufficientShares,
    SlippageExceeded,
    Curve(String),
}

/// Why an output is refused.
#[derive(Debug, Clone, PartialEq, Eq, Hash)]
pub enum AmmOutputError {
    UnknownVariant,
    /// The proof of possession is not a valid signature by the key it names.
    InvalidProofOfPossession,
    IdenticalUnits,
    UnknownUnit,
    NoSuchPool,
    BelowMinSwapIn,
    SlippageExceeded,
    ReserveCapExceeded,
    KInvariantViolated,
    Curve(String),
}

/// An input error as contracts speak of it.
pub enum AmmInputErrorView {
    UnknownVariant,
    NoSuchBalance,
    NoSuchPool,
    NoSuchPosition,
    InsufficientShares,
    SlippageExceeded,
    Curve(Seq<char>),
}

/// An output error as contracts speak of it.
pub enum AmmOutputErrorView {
    UnknownVariant,
    InvalidProofOfPossession,
    IdenticalUnits,
    UnknownUnit,
    NoSuchPool,
    BelowMinSwapIn,
    SlippageExceeded,
    ReserveCapExceeded,
    KInvariantViolated,
    Curve(Seq<char>),
}

impl View for AmmInputError {
    type V = AmmInputErrorView;

    open spec fn view(&self) -> AmmInputErrorView {
        match self {
            AmmInputError::UnknownVariant => AmmInputErrorView::UnknownVariant,
            AmmInputError::NoSuchBalance => AmmInputErrorView::NoSuchBalance,
            AmmInputError::NoSuchPool => AmmInputErrorView::NoSuchPool,
            AmmInputError::NoSuchPosition => AmmInputErrorView::NoSuchPosition,
            AmmInputError::InsufficientShares => AmmInputErrorView::InsufficientShares,
            AmmInputError::SlippageExceeded => AmmInputErrorView::SlippageExceeded,
            AmmInputError::Curve(reason) => AmmInputErrorView::Curve(reason@),
        }
    }
}

impl View for AmmOutputError {
    type V = AmmOutputErrorView;

    open spec fn view(&self) -> AmmOutputErrorView {
        match self {
            AmmOutputError::UnknownVariant => AmmOutputErrorView::UnknownVariant,
            AmmOutputError::InvalidProofOfPossession =>
                AmmOutputErrorView::InvalidProofOfPossession,
            AmmOutputError::IdenticalUnits => AmmOutputErrorView::IdenticalUnits,
            AmmOutputError::UnknownUnit => AmmOutputErrorView::UnknownUnit,
            AmmOutputError::NoSuchPool => AmmOutputErrorView::NoSuchPool,
            AmmOutputError::BelowMinSwapIn => AmmOutputErrorView::BelowMinSwapIn,
            AmmOutputError::SlippageExceeded => AmmOutputErrorView::SlippageExceeded,
            AmmOutputError::ReserveCapExceeded => AmmOutputErrorView::ReserveCapExceeded,
            AmmOutputError::KInvariantViolated => AmmOutputErrorView::KInvariantViolated,
            AmmOutputError::Curve(reason) => AmmOutputErrorView::Curve(reason@),
        }
    }
}

impl AmmInputErrorView {
    /// The text shown for each error.
    pub open spec fn text(self) -> Seq<char> {
        match self {
            AmmInputErrorView::UnknownVariant => "unknown input variant"@,
            AmmInputErrorView::NoSuchBalance => "no balance for this key and unit"@,
            AmmInputErrorView::NoSuchPool => "no such pool"@,
            AmmInputErrorView::NoSuchPosition => "no LP position for this key"@,
            AmmInputErrorView::InsufficientShares => "not enough shares"@,
            AmmInputErrorView::SlippageExceeded => "payout below min_lo/min_hi"@,
            AmmInputErrorView::Curve(reason) => "arithmetic error: "@ + reason,
        }
    }
}

impl AmmInputError {
    /// The error as a human-readable line.
    pub fn message(&self) -> (r: String)
        ensures
            r@ == self@.text(),
    {
        match self {
            AmmInputError::UnknownVariant => "unknown input variant".to_owned(),
            AmmInputError::NoSuchBalance => "no balance for this key and unit".to_owned(),
            AmmInputError::NoSuchPool => "no such pool".to_owned(),
            AmmInputError::NoSuchPosition => "no LP position for this key".to_owned(),
            AmmInputError::InsufficientShares => "not enough shares".to_owned(),
            AmmInputError::SlippageExceeded => "payout below min_lo/min_hi".to_owned(),
            AmmInputError::Curve(reason) => {
                let mut s: String = "arithmetic error: ".to_owned();
                s.append(reason.as_str());
                s
            },
        }
    }
}

impl AmmOutputErrorView {
    /// The text shown for each error.
    pub open spec fn text(self) -> Seq<char> {
        match self {
            AmmOutputErrorView::UnknownVariant => "unknown output variant"@,
            AmmOutputErrorView::InvalidProofOfPossession =>
                "invalid proof of possession for the named key"@,
            AmmOutputErrorView::IdenticalUnits => "unit_in and unit_out must differ"@,
            AmmOutputErrorView::UnknownUnit => "unit not in the federation's allowlist"@,
            AmmOutputErrorView::NoSuchPool => "no such pool"@,
            AmmOutputErrorView::BelowMinSwapIn => "amount_in below the unit's min_swap_in"@,
            AmmOutputErrorView::SlippageExceeded =>
                "output below min_out, or shares below min_shares"@,
            AmmOutputErrorView::ReserveCapExceeded => "would exceed MAX_RESERVE"@,
            AmmOutputErrorView::KInvariantViolated => "k invariant violated"@,
            AmmOutputErrorView::Curve(reason) => "arithmetic error: "@ + reason,
        }
    }
}

impl AmmOutputError {
    /// The error as a human-readable line.
    pub fn message(&self) -> (r: String)
        ensures
            r@ == self@.text(),
    {
        match self {
            AmmOutputError::UnknownVariant => "unknown output variant".to_owned(),
            AmmOutputError::InvalidProofOfPossession =>
                "invalid proof of possession for the named key".to_owned(),
            AmmOutputError::IdenticalUnits => "unit_in and unit_out must differ".to_owned(),
            AmmOutputError::UnknownUnit => "unit not in the federation's allowlist".to_owned(),
            AmmOutputError::NoSuchPool => "no such pool".to_owned(),
            AmmOutputError::BelowMinSwapIn =>
                "amount_in below the unit's min_swap_in".to_owned(),
            AmmOutputError::SlippageExceeded =>
                "output below min_out, or shares below min_shares".to_owned(),
            AmmOutputError::ReserveCapExceeded => "would exceed MAX_RESERVE".to_owned(),
            AmmOutputError::KInvariantViolated => "k invariant violated".to_owned(),
            AmmOutputError::Curve(reason) => {
                let mut s: String = "arithmetic error: ".to_owned();
                s.append(reason.as_str());
                s
            },
        }
    }
}

impl AmmOutput {
    /// The message that the output's proof has to sign, and the key and the
    /// signature that it names; none for an unknown kind.
    pub open spec fn proof_of_possession(self) -> Option<(Seq<u8>, PublicKey, Seq<u8>)> {
        match self {
            AmmOutput::SwapV0 {
                unit_in,
                unit_out,
                amount_in,
                min_out,
                recipient_pk,
                tweak,
                pop,
            } => Some(
                (
                    sha256_digest(
                        swap_payload(unit_in, unit_out, amount_in, min_out, recipient_pk, tweak),
                    ),
                    recipient_pk,
                    pop@,
                ),
            ),
            AmmOutput::DepositV0 {
                pool,
                amount_lo,
                amount_hi,
                min_shares,
                owner_pk,
                tweak,
                pop,
            } => Some(
                (
                    sha256_digest(
                        deposit_payload(pool, amount_lo, amount_hi, min_shares, owner_pk, tweak),
                    ),
                    owner_pk,
                    pop@,
                ),
            ),
            AmmOutput::Default { variant, bytes } => None,
        }
    }

    /// Whether the output proves possession of the key it names.
    pub open spec fn pop_valid(self) -> bool {
        match self.proof_of_possession() {
            Some((message, key, signature)) => key.valid() && schnorr_verifies(
                signature,
                message,
                key.bytes@,
            ),
            None => false,
        }
    }

    /// A swap that proves possession of its own recipient key.
    pub fn new_swap_v0(
        keypair: &Keypair,
        unit_in: AmountUnit,
        unit_out: AmountUnit,
        amount_in: Amount,
        min_out: Amount,
        tweak: [u8; 16],
    ) -> (r: AmmOutput)
        ensures
            r matches AmmOutput::SwapV0 {
                unit_in: u,
                unit_out: v,
                amount_in: a,
                min_out: m,
                recipient_pk: k,
                tweak: t,
                pop: p,
            } && u == unit_in && v == unit_out && a == amount_in && m == min_out && k
                == keypair.public() && t == tweak && p@ == schnorr_signature(
                keypair.secret_bytes(),
                sha256_digest(swap_payload(unit_in, unit_out, amount_in, min_out, k, tweak)),
            ),
            r.pop_valid(),
            r.decodable(),
    {
        let recipient_pk = keypair.public_key();
        let message = swap_pop_message(unit_in, unit_out, amount_in, min_out, recipient_pk, tweak);
        let pop = sign_pop(keypair, &message);
        AmmOutput::SwapV0 { unit_in, unit_out, amount_in, min_out, recipient_pk, tweak, pop }
    }

    /// A deposit that proves possession of its own owner key.
    pub fn new_deposit_v0(
        keypair: &Keypair,
        pool: PoolId,
        amount_lo: Amount,
        amount_hi: Amount,
        min_shares: u64,
        tweak: [u8; 16],
    ) -> (r: AmmOutput)
        ensures
            r matches AmmOutput::DepositV0 {
                pool: q,
                amount_lo: a,
                amount_hi: b,
                min_shares: m,
                owner_pk: k,
                tweak: t,
                pop: p,
            } && q == pool && a == amount_lo && b == amount_hi && m == min_shares && k
                == keypair.public() && t == tweak && p@ == schnorr_signature(
                keypair.secret_bytes(),
                sha256_digest(deposit_payload(pool, amount_lo, amount_hi, min_shares, k, tweak)),
            ),
            r.pop_valid(),
            r.decodable(),
    {
        let owner_pk = keypair.public_key();
        let message = deposit_pop_message(pool, amount_lo, amount_hi, min_shares, owner_pk, tweak);
        let pop = sign_pop(keypair, &message);
        proof {
            use_type_invariant(&pool);
        }
        AmmOutput::DepositV0 { pool, amount_lo, amount_hi, min_shares, owner_pk, tweak, pop }
    }

    /// Verifies the output's proof of possession against the key it names. An
    /// unknown kind of output has no key to prove and verifies nothing.
    pub fn verify_pop(&self) -> (r: bool)
        ensures
            r == self.pop_valid(),
    {
        match self {
            AmmOutput::SwapV0 {
                unit_in,
                unit_out,
                amount_in,
                min_out,
                recipient_pk,
                tweak,
                pop,
            } => {
                let message = swap_pop_message(
                    *unit_in,
                    *unit_out,
                    *amount_in,
                    *min_out,
                    *recipient_pk,
                    *tweak,
                );
                verify_pop(pop, &message, recipient_pk)
            },
            AmmOutput::DepositV0 {
                pool,
                amount_lo,
                amount_hi,
                min_shares,
                owner_pk,
                tweak,
                pop,
            } => {
                let message = deposit_pop_message(
                    *pool,
                    *amount_lo,
                    *amount_hi,
                    *min_shares,
                    *owner_pk,
                    *tweak,
                );
                verify_pop(pop, &message, owner_pk)
            },
            AmmOutput::Default { .. } => false,
        }
    }
}

impl AmmOutput {
    /// The bytes that the output's proof commits to.
    pub open spec fn payload(self) -> Option<Seq<u8>> {
        match self {
            AmmOutput::SwapV0 {
                unit_in,
                unit_out,
                amount_in,
                min_out,
                recipient_pk,
                tweak,
                pop,
            } => Some(swap_payload(unit_in, unit_out, amount_in, min_out, recipient_pk, tweak)),
            AmmOutput::DepositV0 {
                pool,
                amount_lo,
                amount_hi,
                min_shares,
                owner_pk,
                tweak,
                pop,
            } => Some(deposit_payload(pool, amount_lo, amount_hi, min_shares, owner_pk, tweak)),
            AmmOutput::Default { variant, bytes } => None,
        }
    }
}

/// An output that carries the proof of another one, whatever field of it was
/// changed and even if a swap became a deposit, commits to another payload. So
/// unless the two payloads share a digest, it needs a signature over another
/// message than the one that was signed. That nobody can make one without the
/// secret is up to the signature scheme, and not claimed here.
pub proof fn law_a_changed_output_commits_to_another_payload(
    output: AmmOutput,
    changed: AmmOutput,
)
    requires
        output.proof_of_possession() matches Some((_, _, signature)) && (
        changed.proof_of_possession() matches Some((_, _, other)) && signature == other),
        changed != output,
    ensures
        output.payload() is Some,
        changed.payload() is Some,
        changed.payload() != output.payload(),
        ({
            let (now, _, _) = changed.proof_of_possession()->0;
            let (was, _, _) = output.proof_of_possession()->0;
            now == was ==> sha256_digest(changed.payload()->0) == sha256_digest(
                output.payload()->0,
            )
        }),
{
    if changed.payload() == output.payload() {
        match (output, changed) {
            (
                AmmOutput::SwapV0 {
                    unit_in,
                    unit_out,
                    amount_in,
                    min_out,
                    recipient_pk,
                    tweak,
                    pop,
                },
                AmmOutput::SwapV0 {
                    unit_in: unit_in2,
                    unit_out: unit_out2,
                    amount_in: amount_in2,
                    min_out: min_out2,
                    recipient_pk: recipient_pk2,
                    tweak: tweak2,
                    pop: pop2,
                },
            ) => {
                law_swap_payload_covers_every_field(
                    unit_in,
                    unit_out,
                    amount_in,
                    min_out,
                    recipient_pk,
                    tweak,
                    unit_in2,
                    unit_out2,
                    amount_in2,
                    min_out2,
                    recipient_pk2,
                    tweak2,
                );
                assert(pop =~= pop2);
            },
            (
                AmmOutput::DepositV0 {
                    pool,
                    amount_lo,
                    amount_hi,
                    min_shares,
                    owner_pk,
                    tweak,
                    pop,
                },
                AmmOutput::DepositV0 {
                    pool: pool2,
                    amount_lo: amount_lo2,
                    amount_hi: amount_hi2,
                    min_shares: min_shares2,
                    owner_pk: owner_pk2,
                    tweak: tweak2,
                    pop: pop2,
                },
            ) => {
                law_deposit_payload_covers_every_field(
                    pool,
                    amount_lo,
                    amount_hi,
                    min_shares,
                    owner_pk,
                    tweak,
                    pool2,
                    amount_lo2,
                    amount_hi2,
                    min_shares2,
                    owner_pk2,
                    tweak2,
                );
                assert(pop =~= pop2);
            },
            _ => {
                let p = output.payload()->0;
                let q = changed.payload()->0;
                assert(p[0] != q[0]);
            },
        }
    }
}

} // verus!
