use score_ledger::contract::authorize;
use score_ledger::error::{ContractError, Missing, StdError};
use score_ledger::store::from_entries;
use score_ledger::store::indexed::IndexedScores;
use score_ledger::store::key::encode_key;
use score_ledger::store::linear::LinearScores;
use score_ledger::store::{OnMissing, ScoreEntry, ScoreStore};

fn entry(holder: &str, token: &str, score: i32) -> ScoreEntry {
    ScoreEntry { holder: holder.to_string(), token: token.to_string(), score }
}

fn s(text: &str) -> String {
    text.to_string()
}

#[test]
fn gate_lets_only_the_owner_pass() {
    assert_eq!(authorize(&s("creator"), &s("creator")), Ok(()));
    assert_eq!(authorize(&s("anyone"), &s("creator")), Err(ContractError::Unauthorized {}));
    assert_eq!(authorize(&s("creator "), &s("creator")), Err(ContractError::Unauthorized {}));
    assert_eq!(authorize(&s(""), &s("creator")), Err(ContractError::Unauthorized {}));
    assert_eq!(authorize(&s(""), &s("")), Ok(()));
}

#[test]
fn key_code_is_length_colon_holder_token() {
    assert_eq!(encode_key(&s("anyone"), &s("Mirror")), "6:anyoneMirror");
    assert_eq!(encode_key(&s(""), &s("")), "0:");
    assert_eq!(encode_key(&s(""), &s("Mirror")), "0:Mirror");
    assert_eq!(encode_key(&s("anyone"), &s("")), "6:anyone");
    assert_eq!(encode_key(&s("abcdefghij"), &s("t")), "10:abcdefghijt");
    assert_eq!(encode_key(&s("0123456789012345678901234"), &s("9")), "25:01234567890123456789012349");
    let long = "x".repeat(1203);
    assert_eq!(encode_key(&long, &s("t")), format!("1203:{}t", long));
}

#[test]
fn key_code_counts_characters() {
    assert_eq!(encode_key(&s("añb"), &s("ü")), "3:añbü");
}

#[test]
fn key_codes_tell_keys_apart() {
    let pairs = [
        ("ab", "c"),
        ("a", "bc"),
        ("", "abc"),
        ("abc", ""),
        ("1", "1:a"),
        ("1:a", "1"),
        ("a:", "b"),
        ("a", ":b"),
    ];
    for (i, a) in pairs.iter().enumerate() {
        for (j, b) in pairs.iter().enumerate() {
            let same = encode_key(&s(a.0), &s(a.1)) == encode_key(&s(b.0), &s(b.1));
            assert_eq!(same, i == j);
        }
    }
}

#[test]
fn indexed_store_keeps_keys_apart() {
    let mut store = IndexedScores::new();
    store.set(s("ab"), s("c"), 1);
    store.set(s("a"), s("bc"), 2);
    store.set(s(""), s("abc"), 3);
    assert_eq!(store.get(&s("ab"), &s("c")), Ok(1));
    assert_eq!(store.get(&s("a"), &s("bc")), Ok(2));
    assert_eq!(store.get(&s(""), &s("abc")), Ok(3));
    assert_eq!(store.get(&s("abc"), &s("")), Err(StdError::NotFound { kind: Missing::Score }));
    assert_eq!(store.entries().len(), 3);
}

#[test]
fn indexed_store_overwrites_in_place() {
    let mut store = IndexedScores::new();
    store.set(s("anyone"), s("Mirror"), 3);
    store.set(s("anyone2"), s("Mirror"), 13);
    store.set(s("anyone"), s("Mirror"), 25);
    assert_eq!(
        store.entries(),
        &vec![entry("anyone", "Mirror", 25), entry("anyone2", "Mirror", 13)]
    );
}

#[test]
fn empty_stores_hold_nothing() {
    let indexed = IndexedScores::new();
    assert_eq!(indexed.entries().len(), 0);
    assert_eq!(indexed.get(&s(""), &s("")), Err(StdError::NotFound { kind: Missing::Score }));
    let linear = LinearScores::new();
    assert_eq!(linear.len(), 0);
    assert_eq!(linear.find(&s("")), None);
    assert_eq!(linear.get(&s(""), &s("")), Ok(0));
}

#[test]
fn store_rebuilt_from_entries_reads_the_same() {
    let mut store = IndexedScores::new();
    store.set(s("anyone"), s("Mirror"), 3);
    store.set(s("anyone2"), s("Mirror"), 13);
    store.set(s("anyone"), s("TerraUST"), 57);
    store.set(s("anyone"), s("Mirror"), 25);
    let again: IndexedScores = from_entries(store.entries(), store.policy());
    assert_eq!(again.entries(), store.entries());
    assert_eq!(again.get(&s("anyone"), &s("Mirror")), Ok(25));
    assert_eq!(again.get(&s("anyone2"), &s("Mirror")), Ok(13));
    assert_eq!(again.get(&s("anyone"), &s("TerraUST")), Ok(57));
}

#[test]
fn later_entry_wins_when_rebuilding() {
    let entries = vec![entry("a", "t", 1), entry("b", "t", 2), entry("a", "t", 3)];
    let indexed: IndexedScores = from_entries(&entries, OnMissing::Fail);
    assert_eq!(indexed.get(&s("a"), &s("t")), Ok(3));
    assert_eq!(indexed.entries().len(), 2);
    let linear: LinearScores = from_entries(&entries, OnMissing::Zero);
    assert_eq!(linear.get(&s("a"), &s("other")), Ok(3));
    assert_eq!(linear.get(&s("b"), &s("t")), Ok(2));
    assert_eq!(linear.len(), 2);
}

#[test]
fn linear_store_appends_in_order_of_first_writes() {
    let mut store = LinearScores::new();
    store.set(s("c"), s(""), 1);
    store.set(s("a"), s(""), 2);
    store.set(s("b"), s(""), 3);
    store.set(s("a"), s(""), 4);
    assert_eq!(store.find(&s("c")), Some(0));
    assert_eq!(store.find(&s("a")), Some(1));
    assert_eq!(store.find(&s("b")), Some(2));
    assert_eq!(store.find(&s("d")), None);
    let (addrs, scores) = store.into_parts();
    assert_eq!(addrs, vec![s("c"), s("a"), s("b")]);
    assert_eq!(scores, vec![1, 4, 3]);
}

#[test]
fn linear_store_reads_the_first_of_two_equal_holders() {
    let store =
        LinearScores::from_parts(vec![s("a"), s("b"), s("a")], vec![1, 2, 3], OnMissing::Zero)
            .unwrap();
    assert_eq!(store.find(&s("a")), Some(0));
    assert_eq!(store.get(&s("a"), &s("")), Ok(1));

    let mut store = store;
    store.set(s("a"), s(""), 9);
    let (addrs, scores) = store.into_parts();
    assert_eq!(addrs, vec![s("a"), s("b"), s("a")]);
    assert_eq!(scores, vec![9, 2, 3]);
}

#[test]
fn linear_store_refuses_misaligned_parts() {
    assert!(LinearScores::from_parts(vec![s("a")], vec![], OnMissing::Zero).is_none());
    assert!(LinearScores::from_parts(vec![], vec![1], OnMissing::Zero).is_none());
    assert!(LinearScores::from_parts(vec![], vec![], OnMissing::Zero).is_some());
}

#[test]
fn each_strategy_has_its_own_answer_for_a_missing_score() {
    assert_eq!(IndexedScores::new().policy(), OnMissing::Fail);
    assert_eq!(LinearScores::new().policy(), OnMissing::Zero);
}

#[test]
fn the_answer_for_a_missing_score_can_be_chosen() {
    let mut indexed = IndexedScores::with_policy(OnMissing::Zero);
    assert_eq!(indexed.policy(), OnMissing::Zero);
    assert_eq!(indexed.get(&s("anyone"), &s("Mirror")), Ok(0));
    indexed.set(s("anyone"), s("Mirror"), 3);
    assert_eq!(indexed.policy(), OnMissing::Zero);
    assert_eq!(indexed.get(&s("anyone"), &s("Mirror")), Ok(3));
    assert_eq!(indexed.get(&s("anyone"), &s("TerraUST")), Ok(0));

    let mut linear = LinearScores::with_policy(OnMissing::Fail);
    let missing = Err(StdError::NotFound { kind: Missing::Score });
    assert_eq!(linear.get(&s("anyone"), &s("")), missing);
    linear.set(s("anyone"), s(""), 3);
    assert_eq!(linear.get(&s("anyone"), &s("")), Ok(3));
    assert_eq!(linear.get(&s("anyone2"), &s("")), missing);

    let rebuilt: LinearScores = from_entries(&vec![entry("a", "", 1)], OnMissing::Fail);
    assert_eq!(rebuilt.policy(), OnMissing::Fail);
    assert_eq!(rebuilt.get(&s("b"), &s("")), missing);
}

#[test]
fn a_written_zero_is_not_a_missing_score() {
    let mut indexed = IndexedScores::new();
    indexed.set(s("anyone"), s("Mirror"), 0);
    assert_eq!(indexed.get(&s("anyone"), &s("Mirror")), Ok(0));
    assert_eq!(indexed.entries().len(), 1);
}
