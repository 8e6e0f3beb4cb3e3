//! Tests of the cache manager: lazy install, first-loader-wins, stamping,
//! the sweep, and the cached request operations.

use vocajeux::cache::{Cache, CacheError, LoadError, DEFAULT_EXPIRATION};
use vocajeux::item::VocaItem;
use vocajeux::list::VocaList;
use vocajeux::score::VocaScore;

fn item(word: &str, translation: &str) -> VocaItem {
    VocaItem {
        word: word.to_string(),
        transcription: String::new(),
        translation: translation.to_string(),
        example: String::new(),
        comment: String::new(),
        tags: Vec::new(),
    }
}

fn small_list(first_translation: &str) -> VocaList {
    VocaList { items: vec![item("cat", first_translation), item("dog", "chien")] }
}

#[test]
fn install_makes_data_visible() {
    let mut cache = Cache::new();
    assert!(!cache.contains_data("french"));
    assert!(cache.get_data("french").is_none());
    cache.install_data("french", small_list("chat"), 100);
    assert!(cache.contains_data("french"));
    let list = cache.get_data("french").unwrap();
    assert_eq!(list.items.len(), 2);
    assert!(!cache.contains_data("german"));
}

#[test]
fn racing_installs_keep_the_first_value() {
    // two loaders racing on the same unseen key: exactly one entry remains
    // and it holds the first value installed
    let mut cache = Cache::new();
    cache.install_data("french", small_list("first"), 100);
    cache.install_data("french", small_list("second"), 200);
    let list = cache.get_data("french").unwrap();
    assert_eq!(list.items[0].translation, "first");
}

#[test]
fn install_score_keeps_the_first_ledger() {
    let mut cache = Cache::new();
    let mut ledger = VocaScore::new();
    ledger.record_outcome_at(&item("cat", "chat"), true, 1);
    cache.install_score("french", "alice", ledger, 100);
    cache.install_score("french", "alice", VocaScore::new(), 200);
    let kept = cache.get_score("french", "alice").unwrap();
    let (_, den) = kept.score(item("cat", "chat").id());
    assert_eq!(den, 2);
    assert!(cache.get_score("french", "bob").is_none());
    assert!(cache.get_score("german", "alice").is_none());
}

#[test]
fn sweep_evicts_idle_keys_and_keeps_fresh_ones() {
    let mut cache = Cache::new();
    cache.install_data("old", small_list("chat"), 0);
    cache.install_data("fresh", small_list("chat"), 200);
    cache.install_score("old", "alice", VocaScore::new(), 0);
    cache.install_score("fresh", "alice", VocaScore::new(), 200);
    // at time 1000 with a 900 second threshold, the keys stamped at 0 are
    // idle; those stamped at 200 are only 800 seconds old
    cache.sweep(1000, DEFAULT_EXPIRATION);
    assert!(!cache.contains_data("old"));
    assert!(cache.contains_data("fresh"));
    assert!(!cache.contains_score("old", "alice"));
    assert!(cache.contains_score("fresh", "alice"));
}

#[test]
fn sweep_at_exact_threshold_evicts() {
    let mut cache = Cache::new();
    cache.install_data("edge", small_list("chat"), 100);
    cache.sweep(1000, 900);
    assert!(!cache.contains_data("edge"));
}

#[test]
fn access_re_stamps_and_saves_from_eviction() {
    let mut cache = Cache::new();
    cache.install_data("french", small_list("chat"), 0);
    // a later request re-installs, which re-stamps the key
    cache.install_data("french", small_list("ignored"), 500);
    cache.sweep(1000, 900);
    assert!(cache.contains_data("french"));
    // and the value is still the one the first loader put there
    assert_eq!(cache.get_data("french").unwrap().items[0].translation, "chat");
}

#[test]
fn evicted_key_reloads_as_absent() {
    let mut cache = Cache::new();
    cache.install_data("french", small_list("chat"), 0);
    cache.sweep(1000, 900);
    assert!(!cache.contains_data("french"));
    // the next request finds the key absent and installs anew
    cache.install_data("french", small_list("rechargé"), 1000);
    assert_eq!(cache.get_data("french").unwrap().items[0].translation, "rechargé");
}

#[test]
fn pick_cached_needs_an_installed_dataset() {
    let cache = Cache::new();
    assert_eq!(
        cache.pick_cached("french", None, None).unwrap_err(),
        CacheError::DatasetNotLoaded
    );
}

#[test]
fn pick_cached_serves_items() {
    let mut cache = Cache::new();
    cache.install_data("french", small_list("chat"), 0);
    for _ in 0..20 {
        let picked = cache.pick_cached("french", None, None).unwrap();
        assert!(picked.word == "cat" || picked.word == "dog");
    }
}

#[test]
fn pick_cached_with_empty_filter_match_fails() {
    let mut cache = Cache::new();
    cache.install_data("french", small_list("chat"), 0);
    let filter = vec!["minerals"];
    assert_eq!(
        cache.pick_cached("french", None, Some(&filter)).unwrap_err(),
        CacheError::EmptyResult
    );
}

#[test]
fn record_outcome_updates_the_session_ledger() {
    let mut cache = Cache::new();
    cache.install_data("french", small_list("chat"), 0);
    cache.install_score("french", "alice", VocaScore::new(), 0);
    cache.record_outcome("french", "alice", "cat", true, 50).unwrap();
    cache.record_outcome("french", "alice", "cat", true, 60).unwrap();
    cache.record_outcome("french", "alice", "dog", false, 70).unwrap();
    let ledger = cache.get_score("french", "alice").unwrap();
    let (num, den) = ledger.score(item("cat", "chat").id());
    assert_eq!((num, den), (1, 3));
    let (num, den) = ledger.score(item("dog", "chien").id());
    assert_eq!((num, den), (2, 1));
}

#[test]
fn record_outcome_error_cases() {
    let mut cache = Cache::new();
    assert_eq!(
        cache.record_outcome("french", "alice", "cat", true, 1).unwrap_err(),
        CacheError::DatasetNotLoaded
    );
    cache.install_data("french", small_list("chat"), 0);
    assert_eq!(
        cache.record_outcome("french", "alice", "cat", true, 1).unwrap_err(),
        CacheError::ScoreNotLoaded
    );
    cache.install_score("french", "alice", VocaScore::new(), 0);
    assert_eq!(
        cache.record_outcome("french", "alice", "unicorn", true, 1).unwrap_err(),
        CacheError::WordNotFound
    );
}

#[test]
fn load_error_messages() {
    assert_eq!(LoadError::NotFound.message(), "not found");
    assert_eq!(LoadError::Unreadable.message(), "unreadable");
    assert_eq!(LoadError::Malformed.message(), "malformed");
    assert_ne!(LoadError::NotFound, LoadError::Malformed);
}

#[test]
fn cache_error_messages() {
    assert_eq!(CacheError::DatasetNotLoaded.message(), "vocabulary list not loaded");
    assert_eq!(CacheError::ScoreNotLoaded.message(), "no session loaded");
    assert_eq!(CacheError::WordNotFound.message(), "word not found");
    assert_eq!(CacheError::EmptyResult.message(), "no item matches the filter");
}
