//! The ledger's state: the owner record, and the ledger that holds it
//! beside the scores.

use vstd::prelude::*;
use crate::store::OnMissing;
use crate::store::ScoreKey;
use crate::store::ScoreStore;

verus! {

/// The owner record. It is written at initialisation and by nothing else.
#[derive(Debug, PartialEq, Eq)]
pub struct State {
    pub owner: String,
}

/// All that the ledger keeps between calls. The host makes an empty one,
/// hands it to every operation, and saves what the operation leaves.
#[derive(Debug)]
pub struct Ledger<S: ScoreStore> {
    /// The owner record; `None` until the ledger is initialised.
    pub state: Option<State>,
    /// The score store.
    pub scores: S,
}

/// A ledger as contracts see it.
pub struct LedgerView {
    /// The owner, once there is one.
    pub owner: Option<Seq<char>>,
    /// The score of every slot that has been written.
    pub scores: Map<ScoreKey, i32>,
    /// The answer to a read of a slot without a score.
    pub on_missing: OnMissing,
}

impl<S: ScoreStore> View for Ledger<S> {
    type V = LedgerView;

    open spec fn view(&self) -> LedgerView {
        LedgerView {
            owner: match self.state {
                Some(s) => Some(s.owner@),
                None => None,
            },
            scores: self.scores.scores(),
            on_missing: self.scores.on_missing(),
        }
    }
}

impl<S: ScoreStore> Ledger<S> {
    /// The store is consistent.
    pub open spec fn wf(&self) -> bool {
        self.scores.wf()
    }

    /// A ledger without owner and without scores, which answers a missing
    /// score as its strategy does.
    pub fn new() -> (l: Ledger<S>)
        ensures
            l.wf(),
            l@ == (LedgerView {
                owner: None,
                scores: Map::empty(),
                on_missing: S::default_policy(),
            }),
    {
        Ledger { state: None, scores: S::new() }
    }
}

} // verus!
