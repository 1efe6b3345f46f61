//! The score store: what it holds, and the two ways of keeping it.

use vstd::prelude::*;
use crate::error::Missing;
use crate::error::StdError;

pub mod indexed;
pub mod key;
pub mod linear;

verus! {

/// A key of the store as contracts see it: a holder identity and a token label.
pub type ScoreKey = (Seq<char>, Seq<char>);

/// What a read answers for a key that holds no score.
#[derive(Debug, Clone, Copy, PartialEq, Eq)]
pub enum OnMissing {
    /// The score zero.
    Zero,
    /// The failure `NotFound`.
    Fail,
}

/// The answer to a read of `key` from `scores` under `policy`.
pub open spec fn read_score(scores: Map<ScoreKey, i32>, key: ScoreKey, policy: OnMissing) -> Result<
    i32,
    StdError,
> {
    if scores.contains_key(key) {
        Ok(scores[key])
    } else {
        match policy {
            OnMissing::Zero => Ok(0i32),
            OnMissing::Fail => Err(StdError::NotFound { kind: Missing::Score }),
        }
    }
}

/// One written score, as a store hands it out and takes it back.
#[derive(Debug, PartialEq, Eq)]
pub struct ScoreEntry {
    pub holder: String,
    pub token: String,
    pub score: i32,
}

/// A store of scores. Its strategies differ in the slot that a holder and a
/// token share, and in the answer that they give for a slot without a score
/// unless they are told another.
pub trait ScoreStore: Sized {
    /// The representation is consistent.
    spec fn wf(&self) -> bool;

    /// The score of every slot that has been written.
    spec fn scores(&self) -> Map<ScoreKey, i32>;

    /// The slot in which the score of `holder` under `token` is kept.
    spec fn slot(holder: Seq<char>, token: Seq<char>) -> ScoreKey;

    /// The answer of this store for a slot that holds no score.
    spec fn on_missing(&self) -> OnMissing;

    /// The answer of the strategy where no other is asked for.
    spec fn default_policy() -> OnMissing;

    /// A store without any score, with the strategy's own answer for a
    /// missing one.
    fn new() -> (s: Self)
        ensures
            s.wf(),
            s.scores() == Map::<ScoreKey, i32>::empty(),
            s.on_missing() == Self::default_policy(),
    ;

    /// A store without any score that answers a missing one by `policy`.
    fn with_policy(policy: OnMissing) -> (s: Self)
        ensures
            s.wf(),
            s.scores() == Map::<ScoreKey, i32>::empty(),
            s.on_missing() == policy,
    ;

    /// The answer of this store for a slot that holds no score.
    fn policy(&self) -> (p: OnMissing)
        ensures
            p == self.on_missing(),
    ;

    /// Writes `score` to the slot of `holder` and `token`, whether or not it
    /// held one; every other slot keeps what it had.
    fn set(&mut self, holder: String, token: String, score: i32)
        requires
            old(self).wf(),
        ensures
            final(self).wf(),
            final(self).scores() == old(self).scores().insert(Self::slot(holder@, token@), score),
            final(self).on_missing() == old(self).on_missing(),
    ;

    /// Reads the slot of `holder` and `token`.
    fn get(&self, holder: &String, token: &String) -> (r: Result<i32, StdError>)
        requires
            self.wf(),
        ensures
            r == read_score(self.scores(), Self::slot(holder@, token@), self.on_missing()),
    ;
}

/// The writes that `entries` stand for in store `S`: each entry's slot there,
/// and its score.
pub open spec fn writes_of<S: ScoreStore>(entries: Seq<ScoreEntry>) -> Seq<(ScoreKey, i32)> {
    Seq::new(
        entries.len(),
        |i: int| (S::slot(entries[i].holder@, entries[i].token@), entries[i].score),
    )
}

/// The scores after `writes`, made in order on an empty store: a later write
/// to a slot replaces an earlier one.
pub open spec fn replayed(writes: Seq<(ScoreKey, i32)>) -> Map<ScoreKey, i32>
    decreases writes.len(),
{
    if writes.len() == 0 {
        Map::empty()
    } else {
        replayed(writes.drop_last()).insert(writes.last().0, writes.last().1)
    }
}

/// Only written slots hold a score.
pub proof fn lemma_replayed_dom(writes: Seq<(ScoreKey, i32)>, key: ScoreKey)
    ensures
        replayed(writes).contains_key(key) <==> exists|i: int|
            0 <= i < writes.len() && (#[trigger] writes[i]).0 == key,
    decreases writes.len(),
{
    if writes.len() > 0 {
        let front = writes.drop_last();
        lemma_replayed_dom(front, key);
        if replayed(writes).contains_key(key) {
            if writes.last().0 == key {
                assert(writes[writes.len() - 1].0 == key);
            } else {
                let i = choose|i: int| 0 <= i < front.len() && (#[trigger] front[i]).0 == key;
                assert(writes[i].0 == key);
            }
        }
        if exists|i: int| 0 <= i < writes.len() && (#[trigger] writes[i]).0 == key {
            let i = choose|i: int| 0 <= i < writes.len() && (#[trigger] writes[i]).0 == key;
            if i < front.len() {
                assert(front[i].0 == key);
            }
        }
    }
}

/// A slot holds the score of the last write that went to it.
pub proof fn lemma_replayed_last(writes: Seq<(ScoreKey, i32)>, i: int)
    requires
        0 <= i < writes.len(),
        forall|j: int| i < j < writes.len() ==> (#[trigger] writes[j]).0 != writes[i].0,
    ensures
        replayed(writes).contains_key(writes[i].0),
        replayed(writes)[writes[i].0] == writes[i].1,
    decreases writes.len(),
{
    if i < writes.len() - 1 {
        let front = writes.drop_last();
        assert(front[i] == writes[i]);
        assert forall|j: int| i < j < front.len() implies (#[trigger] front[j]).0 != front[i].0 by {
            assert(front[j] == writes[j]);
        }
        lemma_replayed_last(front, i);
        assert(writes.last() == writes[writes.len() - 1]);
    }
}

/// Builds the store that the writes `entries` leave, made in order on an
/// empty one that answers a missing score by `policy`.
pub fn from_entries<S: ScoreStore>(entries: &Vec<ScoreEntry>, policy: OnMissing) -> (s: S)
    ensures
        s.wf(),
        s.scores() == replayed(writes_of::<S>(entries@)),
        s.on_missing() == policy,
{
    let mut s = S::with_policy(policy);
    let mut i: usize = 0;
    while i < entries.len()
        invariant
            i <= entries.len(),
            s.wf(),
            s.scores() == replayed(writes_of::<S>(entries@.take(i as int))),
            s.on_missing() == policy,
        decreases entries.len() - i,
    {
        let e = &entries[i];
        s.set(e.holder.clone(), e.token.clone(), e.score);
        proof {
            let written = entries@[i as int];
            let now = writes_of::<S>(entries@.take(i + 1));
            assert(now.drop_last() =~= writes_of::<S>(entries@.take(i as int)));
            assert(now.last() == (S::slot(written.holder@, written.token@), written.score));
        }
        i = i + 1;
    }
    assert(entries@.take(i as int) =~= entries@);
    s
}

} // verus!
