//! The linear-scan strategy: holders and their scores in two aligned
//! sequences, searched from the front.

use vstd::prelude::*;
use crate::error::Missing;
use crate::error::StdError;
use crate::store::OnMissing;
use crate::store::ScoreKey;
use crate::store::ScoreStore;

verus! {

/// `i` is the first position at which `holder` stands in `holders`.
pub open spec fn is_first_match(holders: Seq<Seq<char>>, holder: Seq<char>, i: int) -> bool {
    &&& 0 <= i < holders.len()
    &&& holders[i] == holder
    &&& forall|j: int| 0 <= j < i ==> holders[j] != holder
}

/// The first position of `holder` in `holders`, where it stands there at all.
pub open spec fn first_match(holders: Seq<Seq<char>>, holder: Seq<char>) -> Option<int> {
    if holders.contains(holder) {
        Some(choose|i: int| is_first_match(holders, holder, i))
    } else {
        None
    }
}

/// The scores that a scan from the front finds: one slot per holder that
/// occurs, with the score aligned to the holder's first position.
pub open spec fn scanned(holders: Seq<Seq<char>>, values: Seq<i32>) -> Map<ScoreKey, i32> {
    Map::new(
        |k: ScoreKey| k.1 == Seq::<char>::empty() && holders.contains(k.0),
        |k: ScoreKey| values[first_match(holders, k.0).unwrap()],
    )
}

/// The sequences that a write of `score` for `holder` leaves.
pub open spec fn written(
    holders: Seq<Seq<char>>,
    values: Seq<i32>,
    holder: Seq<char>,
    score: i32,
) -> (Seq<Seq<char>>, Seq<i32>) {
    match first_match(holders, holder) {
        Some(i) => (holders, values.update(i, score)),
        None => (holders.push(holder), values.push(score)),
    }
}

/// A holder that occurs has a first position.
proof fn lemma_some_first(holders: Seq<Seq<char>>, holder: Seq<char>, n: int)
    requires
        0 <= n < holders.len(),
        holders[n] == holder,
    ensures
        exists|i: int| is_first_match(holders, holder, i),
    decreases n,
{
    if forall|j: int| 0 <= j < n ==> holders[j] != holder {
        assert(is_first_match(holders, holder, n));
    } else {
        let j = choose|j: int| 0 <= j < n && holders[j] == holder;
        lemma_some_first(holders, holder, j);
    }
}

/// `first_match` answers with the one first position, or with `None` for a
/// holder that does not occur.
pub proof fn lemma_first_match(holders: Seq<Seq<char>>, holder: Seq<char>)
    ensures
        match first_match(holders, holder) {
            Some(i) => is_first_match(holders, holder, i),
            None => !holders.contains(holder),
        },
        forall|i: int| is_first_match(holders, holder, i) ==> first_match(holders, holder) == Some(i),
{
    if holders.contains(holder) {
        let n = choose|n: int| 0 <= n < holders.len() && holders[n] == holder;
        lemma_some_first(holders, holder, n);
    }
    assert forall|i: int| is_first_match(holders, holder, i) implies first_match(holders, holder)
        == Some(i) by {
        assert(holders.contains(holder));
        let c = choose|c: int| is_first_match(holders, holder, c);
        assert(is_first_match(holders, holder, c));
        if c < i {
        } else if i < c {
        }
    }
}

/// The identities that `addrs` spell.
pub open spec fn names(addrs: Seq<String>) -> Seq<Seq<char>> {
    Seq::new(addrs.len(), |i: int| addrs[i]@)
}

/// Scores kept per holder; the token label plays no part.
pub struct LinearScores {
    addrs: Vec<String>,
    scores: Vec<i32>,
    on_missing: OnMissing,
}

impl LinearScores {
    /// The holder identities, in the order of their first write.
    pub closed spec fn holders(&self) -> Seq<Seq<char>> {
        names(self.addrs@)
    }

    /// The scores, each at the position of its holder.
    pub closed spec fn values(&self) -> Seq<i32> {
        self.scores@
    }

    /// The store of the given sequences, if they are aligned.
    pub fn from_parts(addrs: Vec<String>, scores: Vec<i32>, policy: OnMissing) -> (r: Option<
        LinearScores,
    >)
        ensures
            match r {
                Some(s) => {
                    &&& addrs@.len() == scores@.len()
                    &&& s.wf()
                    &&& s.holders() == names(addrs@)
                    &&& s.values() == scores@
                    &&& s.on_missing() == policy
                },
                None => addrs@.len() != scores@.len(),
            },
    {
        if addrs.len() == scores.len() {
            Some(LinearScores { addrs, scores, on_missing: policy })
        } else {
            None
        }
    }

    /// The two sequences, for the host to save.
    pub fn into_parts(self) -> (r: (Vec<String>, Vec<i32>))
        ensures
            names(r.0@) == self.holders(),
            r.1@ == self.values(),
    {
        (self.addrs, self.scores)
    }

    /// The number of holders with a score.
    pub fn len(&self) -> (n: usize)
        ensures
            n == self.holders().len(),
    {
        self.addrs.len()
    }

    /// Position of the first entry for `holder`.
    pub fn find(&self, holder: &String) -> (r: Option<usize>)
        ensures
            match r {
                Some(i) => i < self.holders().len() && first_match(self.holders(), holder@) == Some(
                    i as int,
                ),
                None => first_match(self.holders(), holder@).is_none(),
            },
    {
        let mut i: usize = 0;
        while i < self.addrs.len()
            invariant
                i <= self.addrs.len(),
                forall|j: int| 0 <= j < i ==> self.holders()[j] != holder@,
            decreases self.addrs.len() - i,
        {
            if self.addrs[i] == *holder {
                proof {
                    assert(is_first_match(self.holders(), holder@, i as int));
                    lemma_first_match(self.holders(), holder@);
                }
                return Some(i);
            }
            i = i + 1;
        }
        proof {
            lemma_first_match(self.holders(), holder@);
        }
        None
    }
}

impl ScoreStore for LinearScores {
    closed spec fn wf(&self) -> bool {
        self.addrs@.len() == self.scores@.len()
    }

    open spec fn scores(&self) -> Map<ScoreKey, i32> {
        scanned(self.holders(), self.values())
    }

    open spec fn slot(holder: Seq<char>, token: Seq<char>) -> ScoreKey {
        (holder, Seq::<char>::empty())
    }

    closed spec fn on_missing(&self) -> OnMissing {
        self.on_missing
    }

    open spec fn default_policy() -> OnMissing {
        OnMissing::Zero
    }

    fn new() -> (s: Self)
        ensures
            s.holders() == Seq::<Seq<char>>::empty(),
            s.values() == Seq::<i32>::empty(),
    {
        Self::with_policy(OnMissing::Zero)
    }

    fn with_policy(policy: OnMissing) -> (s: Self)
        ensures
            s.holders() == Seq::<Seq<char>>::empty(),
            s.values() == Seq::<i32>::empty(),
    {
        let s = LinearScores { addrs: Vec::new(), scores: Vec::new(), on_missing: policy };
        assert(s.holders() =~= Seq::<Seq<char>>::empty());
        assert(s.scores() =~= Map::<ScoreKey, i32>::empty());
        s
    }

    fn policy(&self) -> (p: OnMissing) {
        self.on_missing
    }

    fn set(&mut self, holder: String, token: String, score: i32)
        ensures
            (final(self).holders(), final(self).values()) == written(
                old(self).holders(),
                old(self).values(),
                holder@,
                score,
            ),
            old(self).holders().no_duplicates() ==> final(self).holders().no_duplicates(),
    {
        let ghost before_holders = self.holders();
        let ghost before_values = self.values();
        match self.find(&holder) {
            Some(i) => {
                self.scores.set(i, score);
                assert(self.holders() =~= before_holders);
            },
            None => {
                self.addrs.push(holder);
                self.scores.push(score);
                assert(self.holders() =~= before_holders.push(holder@));
            },
        }
        proof {
            lemma_first_match(before_holders, holder@);
            lemma_scanned_after_write(before_holders, before_values, holder@, score);
        }
    }

    fn get(&self, holder: &String, token: &String) -> (r: Result<i32, StdError>) {
        proof {
            lemma_first_match(self.holders(), holder@);
        }
        match self.find(holder) {
            Some(i) => Ok(self.scores[i]),
            None => match self.on_missing {
                OnMissing::Zero => Ok(0),
                OnMissing::Fail => Err(StdError::NotFound { kind: Missing::Score }),
            },
        }
    }
}

/// A write changes the scanned scores at the holder's slot and nowhere else.
pub proof fn lemma_scanned_after_write(
    holders: Seq<Seq<char>>,
    values: Seq<i32>,
    holder: Seq<char>,
    score: i32,
)
    requires
        holders.len() == values.len(),
    ensures
        scanned(written(holders, values, holder, score).0, written(holders, values, holder, score).1)
            == scanned(holders, values).insert((holder, Seq::<char>::empty()), score),
{
    let after = written(holders, values, holder, score);
    let key = (holder, Seq::<char>::empty());
    lemma_first_match(holders, holder);
    lemma_first_match(after.0, holder);
    assert forall|k: ScoreKey| #[trigger] scanned(after.0, after.1).contains_key(k) <==> scanned(holders, values).insert(key, score).contains_key(k) by {
        if k.1 == Seq::<char>::empty() {
            if holders.contains(k.0) {
                let i = choose|i: int| 0 <= i < holders.len() && holders[i] == k.0;
                assert(after.0[i] == k.0);
            }
            if after.0.contains(k.0) {
                let i = choose|i: int| 0 <= i < after.0.len() && after.0[i] == k.0;
                if i < holders.len() {
                    assert(holders[i] == k.0);
                } else {
                    assert(k.0 == holder);
                    assert(k =~= key);
                }
            }
            if k == key {
                match first_match(holders, holder) {
                    Some(i) => {
                        assert(after.0[i] == holder);
                    },
                    None => {
                        assert(after.0[holders.len() as int] == holder);
                    },
                }
            }
        }
    }
    assert forall|k: ScoreKey| #[trigger] scanned(after.0, after.1).contains_key(k) implies scanned(after.0, after.1)[k] == scanned(holders, values).insert(key, score)[k] by {
        lemma_first_match(after.0, k.0);
        lemma_first_match(holders, k.0);
        let i = first_match(after.0, k.0).unwrap();
        if k.0 == holder {
            assert(k =~= key);
            match first_match(holders, holder) {
                Some(m) => {
                    assert(is_first_match(after.0, holder, m));
                },
                None => {
                    assert(is_first_match(after.0, holder, holders.len() as int));
                },
            }
        } else {
            assert(i < holders.len());
            assert(after.0[i] == holders[i]);
            assert forall|j: int| 0 <= j < i implies holders[j] != k.0 by {
                assert(after.0[j] == holders[j]);
            }
            assert(is_first_match(holders, k.0, i));
        }
    }
    assert(scanned(after.0, after.1) =~= scanned(holders, values).insert(key, score));
}

} // verus!
