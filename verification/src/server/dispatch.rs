//! Which endpoint answers which request.

use vstd::prelude::*;

use crate::endpoints::{
    ApiError, BalanceRecoveryResponse, BalanceRequest, FeeVoteSubmitRequest, FeeVotesRequest,
    FeeVotesResponse, LpRecoveryResponse, PoolSummary, QuoteRequest, QuoteResponse,
    RecoveryPageRequest, BALANCE_ENDPOINT, BALANCE_RECOVERY_ENDPOINT, FEE_VOTES_ENDPOINT,
    FEE_VOTE_SUBMIT_ENDPOINT, LP_RECOVERY_ENDPOINT, POOLS_ENDPOINT, QUOTE_ENDPOINT,
};
use crate::server::api::{
    balance_answer, balance_recovery_answer, fee_vote_submit_answer, fee_votes_answer,
    lp_recovery_answer, pools_answer, quote_answer,
};
use crate::server::ledger::{Amm, Ledger};
use crate::units::Amount;

verus! {

/// What a caller sends to an endpoint.
#[derive(Debug, Clone, PartialEq, Eq)]
pub enum ApiParams {
    Nothing,
    Quote(QuoteRequest),
    Balance(BalanceRequest),
    RecoveryPage(RecoveryPageRequest),
    FeeVoteSubmit(FeeVoteSubmitRequest),
    FeeVotes(FeeVotesRequest),
}

/// What an endpoint sends back.
#[derive(Debug, Clone, PartialEq, Eq)]
pub enum ApiResponse {
    Pools(Vec<PoolSummary>),
    Quote(QuoteResponse),
    Balance(Option<Amount>),
    BalanceRecovery(BalanceRecoveryResponse),
    LpRecovery(LpRecoveryResponse),
    FeeVoteSubmit,
    FeeVotes(FeeVotesResponse),
}

/// Whether an endpoint takes this kind of request under this name.
pub open spec fn is_served(path: Seq<char>, params: ApiParams) -> bool {
    match params {
        ApiParams::Nothing => path == POOLS_ENDPOINT@,
        ApiParams::Quote(_) => path == QUOTE_ENDPOINT@,
        ApiParams::Balance(_) => path == BALANCE_ENDPOINT@,
        ApiParams::RecoveryPage(_) => path == BALANCE_RECOVERY_ENDPOINT@ || path
            == LP_RECOVERY_ENDPOINT@,
        ApiParams::FeeVoteSubmit(_) => path == FEE_VOTE_SUBMIT_ENDPOINT@,
        ApiParams::FeeVotes(_) => path == FEE_VOTES_ENDPOINT@,
    }
}

/// Whether `r` is what the endpoint of that name answers, and `after` what is
/// left of the ledger. Only a guardian's own vote changes anything.
pub open spec fn is_answer(
    amm: Amm,
    before: Ledger,
    after: Ledger,
    path: Seq<char>,
    authenticated: bool,
    params: ApiParams,
    r: Result<ApiResponse, ApiError>,
) -> bool {
    match params {
        ApiParams::Nothing => {
            &&& after == before
            &&& r matches Ok(ApiResponse::Pools(pools)) && pools_answer(amm, before, pools)
        },
        ApiParams::Quote(request) => {
            &&& after == before
            &&& match r {
                Ok(ApiResponse::Quote(quote)) => quote_answer(amm, before, request, Ok(quote)),
                Ok(_) => false,
                Err(e) => quote_answer(amm, before, request, Err(e)),
            }
        },
        ApiParams::Balance(request) => {
            &&& after == before
            &&& r == Ok::<ApiResponse, ApiError>(
                ApiResponse::Balance(balance_answer(before, request)),
            )
        },
        ApiParams::RecoveryPage(request) => {
            &&& after == before
            &&& match r {
                Ok(ApiResponse::BalanceRecovery(page)) => path == BALANCE_RECOVERY_ENDPOINT@
                    && balance_recovery_answer(before, request, Ok(page)),
                Ok(ApiResponse::LpRecovery(page)) => path == LP_RECOVERY_ENDPOINT@
                    && lp_recovery_answer(before, request, Ok(page)),
                Ok(_) => false,
                Err(e) => if path == BALANCE_RECOVERY_ENDPOINT@ {
                    balance_recovery_answer(before, request, Err(e))
                } else {
                    lp_recovery_answer(before, request, Err(e))
                },
            }
        },
        ApiParams::FeeVoteSubmit(request) => match r {
            Ok(ApiResponse::FeeVoteSubmit) => fee_vote_submit_answer(
                amm,
                before,
                after,
                authenticated,
                request,
                Ok(()),
            ),
            Ok(_) => false,
            Err(e) => fee_vote_submit_answer(
                amm,
                before,
                after,
                authenticated,
                request,
                Err(e),
            ),
        },
        ApiParams::FeeVotes(request) => {
            &&& after == before
            &&& r matches Ok(ApiResponse::FeeVotes(votes)) && fee_votes_answer(
                amm,
                before,
                request,
                votes,
            )
        },
    }
}

impl Amm {
    /// Answers a request under the name of an endpoint; nothing where no endpoint
    /// of that name takes such a request.
    pub fn answer(
        &self,
        ledger: &mut Ledger,
        path: &String,
        authenticated: bool,
        params: ApiParams,
    ) -> (r: Option<Result<ApiResponse, ApiError>>)
        requires
            self.wf(),
            old(ledger).wf(),
        ensures
            final(ledger).wf(),
            old(ledger).keys_valid() ==> final(ledger).keys_valid(),
            match r {
                Some(answer) => is_served(path@, params) && is_answer(
                    *self,
                    *old(ledger),
                    *final(ledger),
                    path@,
                    authenticated,
                    params,
                    answer,
                ),
                None => !is_served(path@, params) && *final(ledger) == *old(ledger),
            },
    {
        match params {
            ApiParams::Nothing => {
                if *path != POOLS_ENDPOINT.to_owned() {
                    return None;
                }
                Some(Ok(ApiResponse::Pools(self.pools(ledger))))
            },
            ApiParams::Quote(request) => {
                if *path != QUOTE_ENDPOINT.to_owned() {
                    return None;
                }
                match self.quote(ledger, request) {
                    Ok(quote) => Some(Ok(ApiResponse::Quote(quote))),
                    Err(e) => Some(Err(e)),
                }
            },
            ApiParams::Balance(request) => {
                if *path != BALANCE_ENDPOINT.to_owned() {
                    return None;
                }
                Some(Ok(ApiResponse::Balance(self.balance(ledger, request))))
            },
            ApiParams::RecoveryPage(request) => {
                if *path == BALANCE_RECOVERY_ENDPOINT.to_owned() {
                    match self.balance_recovery(ledger, &request) {
                        Ok(page) => Some(Ok(ApiResponse::BalanceRecovery(page))),
                        Err(e) => Some(Err(e)),
                    }
                } else if *path == LP_RECOVERY_ENDPOINT.to_owned() {
                    match self.lp_recovery(ledger, &request) {
                        Ok(page) => Some(Ok(ApiResponse::LpRecovery(page))),
                        Err(e) => Some(Err(e)),
                    }
                } else {
                    None
                }
            },
            ApiParams::FeeVoteSubmit(request) => {
                if *path != FEE_VOTE_SUBMIT_ENDPOINT.to_owned() {
                    return None;
                }
                match self.fee_vote_submit(ledger, authenticated, request) {
                    Ok(()) => Some(Ok(ApiResponse::FeeVoteSubmit)),
                    Err(e) => Some(Err(e)),
                }
            },
            ApiParams::FeeVotes(request) => {
                if *path != FEE_VOTES_ENDPOINT.to_owned() {
                    return None;
                }
                Some(Ok(ApiResponse::FeeVotes(self.fee_votes(ledger, request))))
            },
        }
    }
}

/// The names of the endpoints, in the order in which they are listed.
pub open spec fn endpoint_names() -> Seq<Seq<char>> {
    seq![
        POOLS_ENDPOINT@,
        QUOTE_ENDPOINT@,
        BALANCE_ENDPOINT@,
        BALANCE_RECOVERY_ENDPOINT@,
        LP_RECOVERY_ENDPOINT@,
        FEE_VOTE_SUBMIT_ENDPOINT@,
        FEE_VOTES_ENDPOINT@,
    ]
}

/// No two endpoints share a name.
pub proof fn law_endpoint_names_are_distinct()
    ensures
        endpoint_names().no_duplicates(),
{
    reveal_strlit("amm_pools");
    reveal_strlit("amm_quote");
    reveal_strlit("amm_balance");
    reveal_strlit("amm_balance_recovery");
    reveal_strlit("amm_lp_recovery");
    reveal_strlit("amm_fee_vote_submit");
    reveal_strlit("amm_fee_votes");
    assert(POOLS_ENDPOINT@[4] == 'p');
    assert(QUOTE_ENDPOINT@[4] == 'q');
    assert(BALANCE_ENDPOINT@.len() == 11);
    assert(BALANCE_RECOVERY_ENDPOINT@.len() == 20);
    assert(LP_RECOVERY_ENDPOINT@.len() == 15);
    assert(FEE_VOTE_SUBMIT_ENDPOINT@.len() == 19);
    assert(FEE_VOTES_ENDPOINT@.len() == 13);
}

/// Every endpoint takes some request under its name, and nothing else is served.
pub proof fn law_exactly_the_listed_names_are_served(path: Seq<char>)
    ensures
        endpoint_names().contains(path) <==> exists|params: ApiParams| is_served(path, params),
{
    let names = endpoint_names();
    if exists|params: ApiParams| is_served(path, params) {
        let params = choose|params: ApiParams| is_served(path, params);
        let i: int = match params {
            ApiParams::Nothing => 0,
            ApiParams::Quote(_) => 1,
            ApiParams::Balance(_) => 2,
            ApiParams::RecoveryPage(_) => if path == BALANCE_RECOVERY_ENDPOINT@ {
                3
            } else {
                4
            },
            ApiParams::FeeVoteSubmit(_) => 5,
            ApiParams::FeeVotes(_) => 6,
        };
        assert(names[i] == path);
    }
    if names.contains(path) {
        let i = choose|i: int| 0 <= i < names.len() && names[i] == path;
        let params = if i == 0 {
            ApiParams::Nothing
        } else if i == 1 {
            ApiParams::Quote(arbitrary())
        } else if i == 2 {
            ApiParams::Balance(arbitrary())
        } else if i == 3 || i == 4 {
            ApiParams::RecoveryPage(arbitrary())
        } else if i == 5 {
            ApiParams::FeeVoteSubmit(arbitrary())
        } else {
            ApiParams::FeeVotes(arbitrary())
        };
        assert(is_served(path, params));
    }
}

} // verus!
