//! The public endpoints: their names, and what goes in and comes out.

use vstd::prelude::*;

use crate::crypto::PublicKey;
use crate::pool_id::PoolId;
use crate::server::db::PeerId;
use crate::units::{Amount, AmountUnit};

verus! {

/// Every pool with its reserves, its shares and the fee in force.
pub const POOLS_ENDPOINT: &'static str = "amm_pools";

/// What a swap would pay.
pub const QUOTE_ENDPOINT: &'static str = "amm_quote";

/// What one key can claim in one unit.
pub const BALANCE_ENDPOINT: &'static str = "amm_balance";

/// Every stored balance, a page at a time.
pub const BALANCE_RECOVERY_ENDPOINT: &'static str = "amm_balance_recovery";

/// Every stored position, a page at a time.
pub const LP_RECOVERY_ENDPOINT: &'static str = "amm_lp_recovery";

/// Sets a guardian's own intent for a pool's fee.
pub const FEE_VOTE_SUBMIT_ENDPOINT: &'static str = "amm_fee_vote_submit";

/// The votes for a pool's fee, and what they come to.
pub const FEE_VOTES_ENDPOINT: &'static str = "amm_fee_votes";

/// The most rows that one recovery page holds.
pub const MAX_RECOVERY_PAGE_SIZE: u32 = 500;

#[derive(Debug, Clone, Copy, PartialEq, Eq, Structural)]
pub struct PoolSummary {
    pub pool: PoolId,
    pub reserve_lo: Amount,
    pub reserve_hi: Amount,
    pub total_shares: u64,
    pub fee_per_mille: u16,
}

#[derive(Debug, Clone, Copy, PartialEq, Eq, Structural)]
pub struct QuoteRequest {
    pub unit_in: AmountUnit,
    pub unit_out: AmountUnit,
    pub amount_in: Amount,
}

#[derive(Debug, Clone, Copy, PartialEq, Eq, Structural)]
pub struct QuoteResponse {
    pub amount_out: Amount,
    /// How much worse the swap's own price is than the pool's, in per mille.
    pub price_impact_per_mille: u64,
}

#[derive(Debug, Clone, Copy, PartialEq, Eq)]
pub struct BalanceRequest {
    pub pubkey: PublicKey,
    pub unit: AmountUnit,
}

/// Asks for the page behind a cursor; none asks for the first page.
#[derive(Debug, Clone, PartialEq, Eq)]
pub struct RecoveryPageRequest {
    pub cursor: Option<Vec<u8>>,
    pub limit: Option<u32>,
}

#[derive(Debug, Clone, Copy, PartialEq, Eq)]
pub struct BalanceRecoveryEntry {
    pub tweak: [u8; 16],
    pub pubkey: PublicKey,
    pub unit: AmountUnit,
    pub amount: Amount,
}

#[derive(Debug, Clone, PartialEq, Eq)]
pub struct BalanceRecoveryResponse {
    pub entries: Vec<BalanceRecoveryEntry>,
    /// Where the next page starts; none behind the last page.
    pub next_cursor: Option<Vec<u8>>,
}

#[derive(Debug, Clone, Copy, PartialEq, Eq)]
pub struct LpRecoveryEntry {
    pub tweak: [u8; 16],
    pub pool: PoolId,
    pub pubkey: PublicKey,
    pub shares: u64,
}

#[derive(Debug, Clone, PartialEq, Eq)]
pub struct LpRecoveryResponse {
    pub entries: Vec<LpRecoveryEntry>,
    /// Where the next page starts; none behind the last page.
    pub next_cursor: Option<Vec<u8>>,
}

#[derive(Debug, Clone, Copy, PartialEq, Eq, Structural)]
pub struct FeeVoteSubmitRequest {
    pub pool: PoolId,
    pub fee_per_mille: u16,
}

#[derive(Debug, Clone, Copy, PartialEq, Eq, Structural)]
pub struct FeeVotesRequest {
    pub pool: PoolId,
}

#[derive(Debug, Clone, PartialEq, Eq)]
pub struct FeeVotesResponse {
    /// Each guardian that has voted, with its vote, in ascending order.
    pub votes: Vec<(PeerId, u16)>,
    pub effective_fee_per_mille: u16,
    pub min_fee_per_mille: u16,
    pub max_fee_per_mille: u16,
}

/// Why a request is refused: a code, and a line for people to read.
#[derive(Debug, Clone, PartialEq, Eq)]
pub struct ApiError {
    pub code: i32,
    pub message: String,
}

impl ApiError {
    /// The error with this code and this text.
    pub open spec fn says(self, code: int, text: Seq<char>) -> bool {
        self.code == code && self.message@ == text
    }

    /// The request makes no sense.
    pub fn bad_request(message: String) -> (r: ApiError)
        ensures
            r.says(400, message@),
    {
        ApiError { code: 400, message }
    }

    /// The caller is not who it has to be.
    pub fn unauthorized() -> (r: ApiError)
        ensures
            r.says(401, "Invalid authorization"@),
    {
        ApiError { code: 401, message: "Invalid authorization".to_owned() }
    }

    /// There is no such thing.
    pub fn not_found(message: String) -> (r: ApiError)
        ensures
            r.says(404, message@),
    {
        ApiError { code: 404, message }
    }
}

} // verus!
