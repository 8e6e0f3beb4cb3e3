//! Tests of the score ledger and its weights.

use vocajeux::item::VocaItem;
use vocajeux::score::VocaScore;

fn item(word: &str) -> VocaItem {
    VocaItem {
        word: word.to_string(),
        transcription: String::new(),
        translation: String::new(),
        example: String::new(),
        comment: String::new(),
        tags: Vec::new(),
    }
}

#[test]
fn fresh_ledger_weighs_one() {
    let ledger = VocaScore::new();
    let (num, den) = ledger.score(item("cat").id());
    assert_eq!((num, den), (1, 1));
}

#[test]
fn default_ledger_is_empty() {
    let ledger: VocaScore = Default::default();
    let (num, den) = ledger.score(item("anything").id());
    assert_eq!((num, den), (1, 1));
}

#[test]
fn record_outcome_twice_adds_exactly_two() {
    let mut ledger = VocaScore::new();
    let cat = item("cat");
    let (num0, den0) = ledger.score(cat.id());
    ledger.record_outcome_at(&cat, true, 10);
    ledger.record_outcome_at(&cat, true, 20);
    let (num, den) = ledger.score(cat.id());
    assert_eq!(num, num0);
    assert_eq!(den, den0 + 2);
}

#[test]
fn record_outcome_touches_one_counter() {
    let mut ledger = VocaScore::new();
    let cat = item("cat");
    let dog = item("dog");
    ledger.record_outcome_at(&cat, false, 5);
    let (num, den) = ledger.score(cat.id());
    assert_eq!((num, den), (2, 1));
    let (num, den) = ledger.score(dog.id());
    assert_eq!((num, den), (1, 1));
}

#[test]
fn addscore_uses_the_clock() {
    let mut ledger = VocaScore::new();
    let cat = item("cat");
    ledger.addscore(&cat, true);
    ledger.addscore(&cat, false);
    let (num, den) = ledger.score(cat.id());
    assert_eq!((num, den), (2, 2));
}

#[test]
fn weight_monotone_in_outcomes() {
    // weight never rises with correct answers, never falls with incorrect
    // ones: compare the exact rationals by cross-multiplication.
    let cat = item("cat");
    let mut ledger = VocaScore::new();
    let mut last = (1u64, 1u64);
    for t in 0..50u64 {
        ledger.record_outcome_at(&cat, true, t);
        let now = ledger.score(cat.id());
        assert!(now.0 * last.1 <= last.0 * now.1, "weight rose: {:?} -> {:?}", last, now);
        assert!(now.0 > 0 && now.1 > 0);
        last = now;
    }
    for t in 0..50u64 {
        ledger.record_outcome_at(&cat, false, t);
        let now = ledger.score(cat.id());
        assert!(now.0 * last.1 >= last.0 * now.1, "weight fell: {:?} -> {:?}", last, now);
        assert!(now.0 > 0 && now.1 > 0);
        last = now;
    }
}

#[test]
fn same_word_shares_history() {
    // identity is the hash of the word text alone, so two entries with the
    // same word silently merge their score history
    let mut ledger = VocaScore::new();
    let a = VocaItem {
        word: "cat".to_string(),
        transcription: String::new(),
        translation: "chat".to_string(),
        example: String::new(),
        comment: String::new(),
        tags: Vec::new(),
    };
    let b = VocaItem {
        word: "cat".to_string(),
        transcription: String::new(),
        translation: "Katze".to_string(),
        example: String::new(),
        comment: String::new(),
        tags: Vec::new(),
    };
    ledger.record_outcome_at(&a, true, 1);
    ledger.record_outcome_at(&b, true, 2);
    let (_, den) = ledger.score(a.id());
    assert_eq!(den, 3);
}

#[test]
fn counters_saturate_at_the_ceiling() {
    let mut ledger = VocaScore::new();
    let cat = item("cat");
    ledger.set_correct_count(cat.id(), u32::MAX);
    ledger.record_outcome_at(&cat, true, 1);
    let (_, den) = ledger.score(cat.id());
    assert_eq!(den, u32::MAX as u64 + 1);
}

#[test]
fn entries_report_the_recorded_history() {
    let mut ledger = VocaScore::new();
    let cat = item("cat");
    let dog = item("dog");
    ledger.record_outcome_at(&cat, true, 7);
    ledger.record_outcome_at(&cat, true, 9);
    ledger.record_outcome_at(&dog, false, 11);
    let correct = ledger.correct_entries();
    assert_eq!(correct, vec![(cat.id(), 2)]);
    let incorrect = ledger.incorrect_entries();
    assert_eq!(incorrect, vec![(dog.id(), 1)]);
    let mut lastseen = ledger.lastseen_entries();
    lastseen.sort();
    let mut expected = vec![(cat.id(), 9), (dog.id(), 11)];
    expected.sort();
    assert_eq!(lastseen, expected);
}

#[test]
fn set_counts_rebuild_a_ledger() {
    // loading a persisted ledger sets counters outright
    let mut ledger = VocaScore::new();
    let cat = item("cat");
    ledger.set_correct_count(cat.id(), 9);
    ledger.set_incorrect_count(cat.id(), 0);
    ledger.set_lastseen(cat.id(), 123);
    let (num, den) = ledger.score(cat.id());
    assert_eq!((num, den), (1, 10));
    assert_eq!(ledger.lastseen_entries(), vec![(cat.id(), 123)]);
}
