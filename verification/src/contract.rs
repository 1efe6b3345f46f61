//! The operations of the ledger: initialisation, the owner-gated write, and
//! the two reads.
//!
//! The host judges identity strings before it calls: where an operation
//! names a holder, `entry_addr` is the validator's verdict on that name,
//! the validated identity or the validator's failure.

use vstd::prelude::*;
use crate::error::ContractError;
use crate::error::Missing;
use crate::error::StdError;
use crate::msg::ExecuteMsg;
use crate::msg::InstantiateMsg;
use crate::msg::MessageInfo;
use crate::msg::OwnerResponse;
use crate::msg::QueryMsg;
use crate::msg::QueryResponse;
use crate::msg::Response;
use crate::msg::ScoreResponse;
use crate::state::Ledger;
use crate::state::LedgerView;
use crate::state::State;
use crate::store::read_score;
use crate::store::ScoreKey;
use crate::store::ScoreStore;

verus! {

/// One `SetScore` call as contracts see it.
pub struct SetScoreCall {
    pub sender: Seq<char>,
    pub entry_addr: Result<String, StdError>,
    pub token: Seq<char>,
    pub score: i32,
}

/// The slot that `call` writes on a ledger owned by `owner`, or the failure
/// that it ends in: without an owner record nothing is found; a sender other
/// than the owner is refused; a rejected identity is passed on.
pub open spec fn set_score_target<S: ScoreStore>(
    owner: Option<Seq<char>>,
    call: SetScoreCall,
) -> Result<ScoreKey, ContractError> {
    match owner {
        None => Err(ContractError::Std(StdError::NotFound { kind: Missing::State })),
        Some(o) => if call.sender != o {
            Err(ContractError::Unauthorized {  })
        } else {
            match call.entry_addr {
                Err(e) => Err(ContractError::Std(e)),
                Ok(a) => Ok(S::slot(a@, call.token)),
            }
        },
    }
}

/// The ledger that `call` leaves of `pre`: one slot written, or nothing
/// changed.
pub open spec fn after_set_score<S: ScoreStore>(pre: LedgerView, call: SetScoreCall) -> LedgerView {
    match set_score_target::<S>(pre.owner, call) {
        Ok(key) => LedgerView {
            owner: pre.owner,
            scores: pre.scores.insert(key, call.score),
            on_missing: pre.on_missing,
        },
        Err(_) => pre,
    }
}

/// The answer to `GetScore` on `ledger`, given the verdict on the holder.
pub open spec fn score_answer<S: ScoreStore>(
    ledger: LedgerView,
    entry_addr: Result<String, StdError>,
    token: Seq<char>,
) -> Result<ScoreResponse, StdError> {
    match entry_addr {
        Err(e) => Err(e),
        Ok(a) => match read_score(ledger.scores, S::slot(a@, token), ledger.on_missing) {
            Ok(v) => Ok(ScoreResponse { score: v }),
            Err(e) => Err(e),
        },
    }
}

/// `r` is the answer to `GetOwner` on a ledger owned by `owner`.
pub open spec fn is_owner_answer(owner: Option<Seq<char>>, r: Result<OwnerResponse, StdError>) -> bool {
    match owner {
        Some(o) => r matches Ok(resp) && resp.owner@ == o,
        None => r == Err::<OwnerResponse, StdError>(StdError::NotFound { kind: Missing::State }),
    }
}

/// The authorization gate: lets the owner pass and nobody else.
pub fn authorize(caller: &String, owner: &String) -> (r: Result<(), ContractError>)
    ensures
        r == (if caller@ == owner@ {
            Ok::<(), ContractError>(())
        } else {
            Err::<(), ContractError>(ContractError::Unauthorized {  })
        }),
{
    if *caller == *owner {
        Ok(())
    } else {
        Err(ContractError::Unauthorized {  })
    }
}

/// Makes the sender the owner, whatever the ledger held, and leaves the
/// scores alone.
pub fn instantiate<S: ScoreStore>(
    deps: &mut Ledger<S>,
    info: MessageInfo,
    _msg: InstantiateMsg,
) -> (r: Result<Response, ContractError>)
    ensures
        r matches Ok(resp) && resp.messages@.len() == 0 && resp.reported() == seq![
            ("method"@, "instantiate"@),
            ("owner"@, info.sender@),
        ],
        final(deps)@.owner == Some(info.sender@),
        final(deps).scores == old(deps).scores,
{
    let state = State { owner: info.sender.clone() };
    deps.state = Some(state);
    Ok(
        Response::new().add_attribute("method".to_owned(), "instantiate".to_owned()).add_attribute(
            "owner".to_owned(),
            info.sender,
        ),
    )
}

/// Carries out a mutating operation.
pub fn execute<S: ScoreStore>(
    deps: &mut Ledger<S>,
    info: MessageInfo,
    msg: ExecuteMsg,
    entry_addr: Result<String, StdError>,
) -> (r: Result<Response, ContractError>)
    requires
        old(deps).wf(),
    ensures
        final(deps).wf(),
        final(deps).state == old(deps).state,
        msg matches ExecuteMsg::SetScore { entering_token, score, .. } && {
            let call = SetScoreCall {
                sender: info.sender@,
                entry_addr: entry_addr,
                token: entering_token@,
                score: score,
            };
            &&& final(deps)@ == after_set_score::<S>(old(deps)@, call)
            &&& match set_score_target::<S>(old(deps)@.owner, call) {
                Ok(_) => r matches Ok(resp) && resp.messages@.len() == 0 && resp.reported() == seq![
                    ("method"@, "set_score"@),
                ],
                Err(e) => r == Err::<Response, ContractError>(e) && *final(deps) == *old(deps),
            }
        },
{
    match msg {
        ExecuteMsg::SetScore { entering_addr: _, entering_token, score } => try_set_score(
            deps,
            info,
            entry_addr,
            entering_token,
            score,
        ),
    }
}

/// Writes `score` to the slot of the validated holder and `entering_token`,
/// if the sender is the owner. On a failure the ledger stays as it was.
pub fn try_set_score<S: ScoreStore>(
    deps: &mut Ledger<S>,
    info: MessageInfo,
    entry_addr: Result<String, StdError>,
    entering_token: String,
    score: i32,
) -> (r: Result<Response, ContractError>)
    requires
        old(deps).wf(),
    ensures
        final(deps).wf(),
        final(deps).state == old(deps).state,
        ({
            let call = SetScoreCall {
                sender: info.sender@,
                entry_addr: entry_addr,
                token: entering_token@,
                score: score,
            };
            &&& final(deps)@ == after_set_score::<S>(old(deps)@, call)
            &&& match set_score_target::<S>(old(deps)@.owner, call) {
                Ok(_) => r matches Ok(resp) && resp.messages@.len() == 0 && resp.reported() == seq![
                    ("method"@, "set_score"@),
                ],
                Err(e) => r == Err::<Response, ContractError>(e) && *final(deps) == *old(deps),
            }
        }),
        old(deps)@.owner matches Some(o) && info.sender@ != o ==> r == Err::<Response, ContractError>(
            ContractError::Unauthorized {  },
        ) && *final(deps) == *old(deps),
{
    match &deps.state {
        None => {
            return Err(ContractError::Std(StdError::NotFound { kind: Missing::State }));
        },
        Some(state) => {
            match authorize(&info.sender, &state.owner) {
                Err(e) => {
                    return Err(e);
                },
                Ok(()) => {},
            }
        },
    }
    let holder = match entry_addr {
        Err(e) => {
            return Err(ContractError::Std(e));
        },
        Ok(a) => a,
    };
    deps.scores.set(holder, entering_token, score);
    Ok(Response::new().add_attribute("method".to_owned(), "set_score".to_owned()))
}

/// Answers a reading operation.
pub fn query<S: ScoreStore>(
    deps: &Ledger<S>,
    msg: QueryMsg,
    entry_addr: Result<String, StdError>,
) -> (r: Result<QueryResponse, StdError>)
    requires
        deps.wf(),
    ensures
        match msg {
            QueryMsg::GetOwner {  } => match deps@.owner {
                Some(o) => r matches Ok(QueryResponse::Owner(resp)) && resp.owner@ == o,
                None => r == Err::<QueryResponse, StdError>(
                    StdError::NotFound { kind: Missing::State },
                ),
            },
            QueryMsg::GetScore { entering_token, .. } => r == match score_answer::<S>(
                deps@,
                entry_addr,
                entering_token@,
            ) {
                Ok(resp) => Ok::<QueryResponse, StdError>(QueryResponse::Score(resp)),
                Err(e) => Err::<QueryResponse, StdError>(e),
            },
        },
{
    match msg {
        QueryMsg::GetOwner {  } => match query_owner(deps) {
            Ok(resp) => Ok(QueryResponse::Owner(resp)),
            Err(e) => Err(e),
        },
        QueryMsg::GetScore { entering_addr: _, entering_token } => match query_score(
            deps,
            entry_addr,
            entering_token,
        ) {
            Ok(resp) => Ok(QueryResponse::Score(resp)),
            Err(e) => Err(e),
        },
    }
}

/// Tells who the owner is, once there is one.
pub fn query_owner<S: ScoreStore>(deps: &Ledger<S>) -> (r: Result<OwnerResponse, StdError>)
    ensures
        is_owner_answer(deps@.owner, r),
{
    match &deps.state {
        Some(state) => Ok(OwnerResponse { owner: state.owner.clone() }),
        None => Err(StdError::NotFound { kind: Missing::State }),
    }
}

/// Reads the score in the slot of the validated holder and
/// `entering_token`; a rejected identity is passed on.
pub fn query_score<S: ScoreStore>(
    deps: &Ledger<S>,
    entry_addr: Result<String, StdError>,
    entering_token: String,
) -> (r: Result<ScoreResponse, StdError>)
    requires
        deps.wf(),
    ensures
        r == score_answer::<S>(deps@, entry_addr, entering_token@),
{
    let holder = match entry_addr {
        Err(e) => {
            return Err(e);
        },
        Ok(a) => a,
    };
    match deps.scores.get(&holder, &entering_token) {
        Ok(score) => Ok(ScoreResponse { score }),
        Err(e) => Err(e),
    }
}

} // verus!
