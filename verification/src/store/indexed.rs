//! The indexed-map strategy: the written scores in the order of their first
//! write, and a hash index from a key's code to its position.

use vstd::prelude::*;
use vstd::hash_map::StringHashMap;
use crate::error::Missing;
use crate::error::StdError;
use crate::store::key::encode_key;
use crate::store::key::key_code;
use crate::store::key::lemma_key_code_injective;
use crate::store::lemma_replayed_dom;
use crate::store::lemma_replayed_last;
use crate::store::replayed;
use crate::store::writes_of;
use crate::store::OnMissing;
use crate::store::ScoreEntry;
use crate::store::ScoreKey;
use crate::store::ScoreStore;

verus! {

/// The code under which the index files `entry`.
pub open spec fn entry_code(entry: ScoreEntry) -> Seq<char> {
    key_code(entry.holder@, entry.token@)
}

/// Each entry as a write: its holder and token as they are, and its score.
pub open spec fn keyed(entries: Seq<ScoreEntry>) -> Seq<(ScoreKey, i32)> {
    Seq::new(entries.len(), |i: int| ((entries[i].holder@, entries[i].token@), entries[i].score))
}

/// `index` knows the position of each of `entries`, and nothing else.
pub open spec fn consistent(entries: Seq<ScoreEntry>, index: Map<Seq<char>, usize>) -> bool {
    &&& forall|i: int|
        0 <= i < entries.len() ==> {
            &&& index.contains_key(#[trigger] entry_code(entries[i]))
            &&& index[entry_code(entries[i])] == i
        }
    &&& forall|c: Seq<char>| #[trigger]
        index.contains_key(c) ==> {
            &&& index[c] < entries.len()
            &&& entry_code(entries[index[c] as int]) == c
        }
}

/// Indexed entries list no key twice.
pub proof fn lemma_listed_once(entries: Seq<ScoreEntry>, index: Map<Seq<char>, usize>)
    requires
        consistent(entries, index),
    ensures
        forall|i: int, j: int|
            0 <= i < entries.len() && 0 <= j < entries.len() && i != j ==> (#[trigger] keyed(
                entries,
            )[i]).0 != (#[trigger] keyed(entries)[j]).0,
{
    assert forall|i: int, j: int|
        0 <= i < entries.len() && 0 <= j < entries.len() && i != j implies (#[trigger] keyed(
        entries,
    )[i]).0 != (#[trigger] keyed(entries)[j]).0 by {
        let a = entries[i];
        let b = entries[j];
        if keyed(entries)[i].0 == keyed(entries)[j].0 {
            assert(entry_code(a) == entry_code(b));
            assert(index[entry_code(a)] == i);
            assert(index[entry_code(b)] == j);
        }
    }
}

/// Scores kept per holder and token.
pub struct IndexedScores {
    entries: Vec<ScoreEntry>,
    index: StringHashMap<usize>,
    on_missing: OnMissing,
}

impl IndexedScores {
    /// The written scores, one entry per key, in the order of first writes.
    pub closed spec fn listed(&self) -> Seq<ScoreEntry> {
        self.entries@
    }

    /// The index knows each entry's position, and nothing else.
    pub closed spec fn indexed(&self) -> bool {
        consistent(self.entries@, self.index@)
    }

    /// The written scores, for the host to save.
    pub fn entries(&self) -> (r: &Vec<ScoreEntry>)
        ensures
            r@ == self.listed(),
    {
        &self.entries
    }

    /// Position of the entry for the key with code `code`.
    fn position(&self, code: &String) -> (r: Option<usize>)
        requires
            self.indexed(),
        ensures
            match r {
                Some(i) => i < self.entries@.len() && entry_code(self.entries@[i as int]) == code@,
                None => forall|i: int|
                    0 <= i < self.entries@.len() ==> entry_code(#[trigger] self.entries@[i])
                        != code@,
            },
    {
        match self.index.get(code.as_str()) {
            Some(i) => Some(*i),
            None => None,
        }
    }

    /// Replaces the entry at `i` by one for the same key.
    fn overwrite(&mut self, i: usize, holder: String, token: String, score: i32)
        requires
            old(self).indexed(),
            i < old(self).listed().len(),
            old(self).listed()[i as int].holder@ == holder@,
            old(self).listed()[i as int].token@ == token@,
        ensures
            final(self).indexed(),
            final(self).on_missing == old(self).on_missing,
            replayed(keyed(final(self).listed())) == replayed(keyed(old(self).listed())).insert(
                (holder@, token@),
                score,
            ),
    {
        let ghost before = self.entries@;
        let ghost key = (holder@, token@);
        self.entries.set(i, ScoreEntry { holder, token, score });
        let ghost after = self.entries@;
        assert(consistent(after, self.index@)) by {
            assert forall|j: int| 0 <= j < after.len() implies entry_code(after[j]) == entry_code(
                before[j],
            ) by {}
        }
        proof {
            lemma_listed_once(before, self.index@);
            lemma_listed_once(after, self.index@);
            let old_writes = keyed(before);
            let new_writes = keyed(after);
            assert forall|j: int| 0 <= j < after.len() implies (#[trigger] new_writes[j]).0
                == old_writes[j].0 by {}
            assert forall|k: ScoreKey|
                replayed(new_writes).contains_key(k) <==> replayed(old_writes).insert(
                    key,
                    score,
                ).contains_key(k) by {
                lemma_replayed_dom(new_writes, k);
                lemma_replayed_dom(old_writes, k);
                if exists|j: int| 0 <= j < new_writes.len() && (#[trigger] new_writes[j]).0 == k {
                    let j = choose|j: int|
                        0 <= j < new_writes.len() && (#[trigger] new_writes[j]).0 == k;
                    assert(old_writes[j].0 == k);
                }
                if exists|j: int| 0 <= j < old_writes.len() && (#[trigger] old_writes[j]).0 == k {
                    let j = choose|j: int|
                        0 <= j < old_writes.len() && (#[trigger] old_writes[j]).0 == k;
                    assert(new_writes[j].0 == k);
                }
                if k == key {
                    assert(new_writes[i as int].0 == k);
                }
            }
            assert forall|k: ScoreKey| #[trigger]
                replayed(new_writes).contains_key(k) implies replayed(new_writes)[k] == replayed(
                old_writes,
            ).insert(key, score)[k] by {
                lemma_replayed_dom(new_writes, k);
                let j = choose|j: int|
                    0 <= j < new_writes.len() && (#[trigger] new_writes[j]).0 == k;
                lemma_replayed_last(new_writes, j);
                assert(old_writes[i as int].0 == key);
                assert(new_writes[i as int] == (key, score));
                if j != i {
                    assert(old_writes[j].0 == k);
                    assert(after[j] == before[j]);
                    assert(old_writes[j] == new_writes[j]);
                    lemma_replayed_last(old_writes, j);
                    assert(k != key);
                } else {
                    assert(k == key);
                }
            }
            assert(replayed(new_writes) =~= replayed(old_writes).insert(key, score));
        }
    }

    /// Lists a key that no entry has yet.
    fn append(&mut self, code: String, holder: String, token: String, score: i32)
        requires
            old(self).indexed(),
            code@ == key_code(holder@, token@),
            forall|i: int|
                0 <= i < old(self).listed().len() ==> entry_code(#[trigger] old(self).listed()[i])
                    != code@,
        ensures
            final(self).indexed(),
            final(self).on_missing == old(self).on_missing,
            replayed(keyed(final(self).listed())) == replayed(keyed(old(self).listed())).insert(
                (holder@, token@),
                score,
            ),
    {
        let ghost before = self.entries@;
        let ghost old_index = self.index@;
        let ghost filed = code@;
        assert(before == old(self).listed());
        assert forall|j: int| 0 <= j < before.len() implies entry_code(before[j]) != filed by {
            assert(entry_code(old(self).listed()[j]) != filed);
        }
        let n: usize = self.entries.len();
        self.index.insert(code, n);
        self.entries.push(ScoreEntry { holder, token, score });
        let ghost after = self.entries@;
        let ghost new_index = self.index@;
        assert(keyed(after).drop_last() =~= keyed(before));
        assert(keyed(after).last() == ((holder@, token@), score));
        assert(consistent(after, new_index)) by {
            assert(new_index == old_index.insert(filed, n));
            assert(after[n as int].holder@ == holder@ && after[n as int].token@ == token@);
            assert forall|j: int| 0 <= j < after.len() implies {
                &&& new_index.contains_key(#[trigger] entry_code(after[j]))
                &&& new_index[entry_code(after[j])] == j
            } by {
                if j < n {
                    assert(after[j] == before[j]);
                    assert(entry_code(before[j]) != filed);
                    assert(old_index.contains_key(entry_code(before[j])));
                } else {
                    assert(entry_code(after[j]) == filed);
                }
            }
            assert forall|c: Seq<char>| #[trigger] new_index.contains_key(c) implies {
                &&& new_index[c] < after.len()
                &&& entry_code(after[new_index[c] as int]) == c
            } by {
                if c != filed {
                    assert(old_index.contains_key(c));
                    let p = old_index[c] as int;
                    assert(after[p] == before[p]);
                }
            }
        }
    }

    /// The score listed for a key, if any.
    fn lookup(&self, holder: &String, token: &String) -> (r: Option<i32>)
        requires
            self.indexed(),
        ensures
            match r {
                Some(v) => replayed(keyed(self.listed())).contains_key((holder@, token@))
                    && replayed(keyed(self.listed()))[(holder@, token@)] == v,
                None => !replayed(keyed(self.listed())).contains_key((holder@, token@)),
            },
    {
        let ghost key = (holder@, token@);
        let ghost writes = keyed(self.entries@);
        proof {
            lemma_listed_once(self.entries@, self.index@);
            lemma_replayed_dom(writes, key);
        }
        let code = encode_key(holder, token);
        match self.position(&code) {
            Some(i) => {
                proof {
                    let e = self.entries@[i as int];
                    lemma_key_code_injective(e.holder@, e.token@, holder@, token@);
                    assert(writes[i as int].0 == key);
                    lemma_replayed_last(writes, i as int);
                }
                Some(self.entries[i].score)
            },
            None => {
                proof {
                    if exists|j: int| 0 <= j < writes.len() && (#[trigger] writes[j]).0 == key {
                        let j = choose|j: int|
                            0 <= j < writes.len() && (#[trigger] writes[j]).0 == key;
                        assert(entry_code(self.entries@[j]) == code@);
                    }
                }
                None
            },
        }
    }
}

impl ScoreStore for IndexedScores {
    closed spec fn wf(&self) -> bool {
        self.indexed()
    }

    open spec fn scores(&self) -> Map<ScoreKey, i32> {
        replayed(keyed(self.listed()))
    }

    open spec fn slot(holder: Seq<char>, token: Seq<char>) -> ScoreKey {
        (holder, token)
    }

    closed spec fn on_missing(&self) -> OnMissing {
        self.on_missing
    }

    open spec fn default_policy() -> OnMissing {
        OnMissing::Fail
    }

    fn new() -> (s: Self)
        ensures
            s.listed() == Seq::<ScoreEntry>::empty(),
    {
        Self::with_policy(OnMissing::Fail)
    }

    fn with_policy(policy: OnMissing) -> (s: Self)
        ensures
            s.listed() == Seq::<ScoreEntry>::empty(),
    {
        let s = IndexedScores {
            entries: Vec::new(),
            index: StringHashMap::new(),
            on_missing: policy,
        };
        assert(keyed(s.listed()) =~= Seq::<(ScoreKey, i32)>::empty());
        s
    }

    fn policy(&self) -> (p: OnMissing) {
        self.on_missing
    }

    fn set(&mut self, holder: String, token: String, score: i32) {
        let code = encode_key(&holder, &token);
        match self.position(&code) {
            Some(i) => {
                proof {
                    let e = self.entries@[i as int];
                    lemma_key_code_injective(e.holder@, e.token@, holder@, token@);
                }
                self.overwrite(i, holder, token, score);
            },
            None => {
                self.append(code, holder, token, score);
            },
        }
    }

    fn get(&self, holder: &String, token: &String) -> (r: Result<i32, StdError>) {
        match self.lookup(holder, token) {
            Some(v) => Ok(v),
            None => match self.on_missing {
                OnMissing::Zero => Ok(0),
                OnMissing::Fail => Err(StdError::NotFound { kind: Missing::Score }),
            },
        }
    }
}

/// A consistent store lists no key twice.
pub proof fn law_one_entry_per_key(store: IndexedScores)
    requires
        store.wf(),
    ensures
        forall|i: int, j: int|
            0 <= i < store.listed().len() && 0 <= j < store.listed().len() && i != j ==> (
            #[trigger] keyed(store.listed())[i]).0 != (#[trigger] keyed(store.listed())[j]).0,
{
    lemma_listed_once(store.entries@, store.index@);
}

/// A store rebuilt from the entries that `store` hands out holds the scores
/// of `store`.
pub proof fn law_entries_restore_scores(store: IndexedScores)
    ensures
        replayed(writes_of::<IndexedScores>(store.listed())) == store.scores(),
{
    assert(writes_of::<IndexedScores>(store.listed()) =~= keyed(store.listed()));
}

} // verus!
