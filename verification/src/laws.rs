//! What holds of the ledger over any run of `SetScore` calls.

use vstd::prelude::*;
use crate::contract::after_set_score;
use crate::contract::set_score_target;
use crate::contract::SetScoreCall;
use crate::error::ContractError;
use crate::error::Missing;
use crate::error::StdError;
use crate::state::LedgerView;
use crate::store::read_score;
use crate::store::OnMissing;
use crate::store::ScoreKey;
use crate::store::ScoreStore;

verus! {

/// The ledger that `calls`, made in order, leave of `pre`.
pub open spec fn after_calls<S: ScoreStore>(pre: LedgerView, calls: Seq<SetScoreCall>) -> LedgerView
    decreases calls.len(),
{
    if calls.len() == 0 {
        pre
    } else {
        after_set_score::<S>(after_calls::<S>(pre, calls.drop_last()), calls.last())
    }
}

/// The answer that `policy` gives for a slot without a score.
pub open spec fn missing_answer(policy: OnMissing) -> Result<i32, StdError> {
    match policy {
        OnMissing::Zero => Ok(0i32),
        OnMissing::Fail => Err(StdError::NotFound { kind: Missing::Score }),
    }
}

/// The owner stays who it is, whatever `SetScore` calls follow.
pub proof fn law_owner_is_kept<S: ScoreStore>(pre: LedgerView, calls: Seq<SetScoreCall>)
    ensures
        after_calls::<S>(pre, calls).owner == pre.owner,
    decreases calls.len(),
{
    if calls.len() > 0 {
        law_owner_is_kept::<S>(pre, calls.drop_last());
    }
}

/// A call by anybody but the owner is refused as unauthorized, and leaves
/// the ledger as it was.
pub proof fn law_stranger_is_refused<S: ScoreStore>(pre: LedgerView, call: SetScoreCall)
    requires
        pre.owner matches Some(o) && call.sender != o,
    ensures
        set_score_target::<S>(pre.owner, call) == Err::<ScoreKey, ContractError>(
            ContractError::Unauthorized {  },
        ),
        after_set_score::<S>(pre, call) == pre,
{
}

/// A write to one slot changes the answer for no other.
pub proof fn law_write_is_isolated<S: ScoreStore>(pre: LedgerView, call: SetScoreCall, other: ScoreKey)
    requires
        set_score_target::<S>(pre.owner, call) != Ok::<ScoreKey, ContractError>(other),
    ensures
        forall|policy: OnMissing|
            read_score(after_set_score::<S>(pre, call).scores, other, policy) == read_score(
                pre.scores,
                other,
                policy,
            ),
{
}

/// A slot that held no score and that no call wrote reads as the strategy
/// says of a missing score: zero, or the failure `NotFound`.
pub proof fn law_unwritten_reads_missing<S: ScoreStore>(
    pre: LedgerView,
    calls: Seq<SetScoreCall>,
    key: ScoreKey,
)
    requires
        !pre.scores.contains_key(key),
        forall|i: int|
            0 <= i < calls.len() ==> set_score_target::<S>(pre.owner, #[trigger] calls[i]) != Ok::<
                ScoreKey,
                ContractError,
            >(key),
    ensures
        after_calls::<S>(pre, calls).on_missing == pre.on_missing,
        read_score(after_calls::<S>(pre, calls).scores, key, pre.on_missing) == missing_answer(
            pre.on_missing,
        ),
    decreases calls.len(),
{
    if calls.len() > 0 {
        let front = calls.drop_last();
        assert forall|i: int| 0 <= i < front.len() implies set_score_target::<S>(
            pre.owner,
            #[trigger] front[i],
        ) != Ok::<ScoreKey, ContractError>(key) by {
            assert(front[i] == calls[i]);
        }
        law_unwritten_reads_missing::<S>(pre, front, key);
        law_owner_is_kept::<S>(pre, front);
        assert(calls.last() == calls[calls.len() - 1]);
    }
}

/// A read answers with the score of the last call that wrote the slot,
/// whatever was written elsewhere since.
pub proof fn law_read_sees_last_write<S: ScoreStore>(
    pre: LedgerView,
    calls: Seq<SetScoreCall>,
    i: int,
    key: ScoreKey,
)
    requires
        0 <= i < calls.len(),
        set_score_target::<S>(pre.owner, calls[i]) == Ok::<ScoreKey, ContractError>(key),
        forall|j: int|
            i < j < calls.len() ==> set_score_target::<S>(pre.owner, #[trigger] calls[j]) != Ok::<
                ScoreKey,
                ContractError,
            >(key),
    ensures
        read_score(after_calls::<S>(pre, calls).scores, key, pre.on_missing) == Ok::<i32, StdError>(
            calls[i].score,
        ),
    decreases calls.len(),
{
    let front = calls.drop_last();
    law_owner_is_kept::<S>(pre, front);
    assert(calls.last() == calls[calls.len() - 1]);
    if i < calls.len() - 1 {
        assert(front[i] == calls[i]);
        assert forall|j: int| i < j < front.len() implies set_score_target::<S>(
            pre.owner,
            #[trigger] front[j],
        ) != Ok::<ScoreKey, ContractError>(key) by {
            assert(front[j] == calls[j]);
        }
        law_read_sees_last_write::<S>(pre, front, i, key);
    }
}

} // verus!
