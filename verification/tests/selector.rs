//! Tests of items, identities, weights and the selector.

use vocajeux::item::VocaItem;
use vocajeux::list::VocaList;
use vocajeux::score::VocaScore;
use vocajeux::select::SelectError;

fn item(word: &str, translation: &str, tags: &[&str]) -> VocaItem {
    VocaItem {
        word: word.to_string(),
        transcription: String::new(),
        translation: translation.to_string(),
        example: String::new(),
        comment: String::new(),
        tags: tags.iter().map(|t| t.to_string()).collect(),
    }
}

fn animals() -> VocaList {
    VocaList {
        items: vec![
            item("cat", "chat", &["animals"]),
            item("dog", "chien", &["animals"]),
            item("bird", "oiseau", &["animals"]),
        ],
    }
}

#[test]
fn id_as_string_is_md5_hex() {
    assert_eq!(item("cat", "", &[]).id_as_string(), "d077f244def8a70e5ea758bd8352fcd8");
    assert_eq!(item("dog", "", &[]).id_as_string(), "06d80eb0c50b49a509b49f2424e8c805");
    assert_eq!(item("hello", "", &[]).id_as_string(), "5d41402abc4b2a76b9719d911017c592");
}

#[test]
fn id_string_round_trips() {
    for w in ["cat", "dog", "bird", "hello", ""] {
        let it = item(w, "", &[]);
        assert_eq!(vocajeux::item::parse_hex_key(&it.id_as_string()), Some(it.id()));
    }
    assert_eq!(vocajeux::item::parse_hex_key("zz"), None);
    assert_eq!(vocajeux::item::parse_hex_key(""), None);
    assert_eq!(vocajeux::item::parse_hex_key("d077f244def8a70e5ea758bd8352fcd"), None);
    assert_eq!(
        vocajeux::item::parse_hex_key("D077F244DEF8A70E5EA758BD8352FCD8"),
        None
    );
    assert_eq!(
        vocajeux::item::parse_hex_key("00000000000000000000000000000000"),
        Some(0)
    );
}

#[test]
fn id_depends_only_on_word() {
    let a = item("cat", "chat", &["animals"]);
    let b = item("cat", "Katze", &["pets", "mammals"]);
    assert_eq!(a.id(), b.id());
    assert_eq!(a.id_as_string(), b.id_as_string());
    let c = item("cats", "chats", &["animals"]);
    assert_ne!(a.id(), c.id());
}

#[test]
fn filter_absent_or_empty_passes() {
    let it = item("cat", "chat", &["animals"]);
    assert!(it.filter(None));
    let empty: Vec<&str> = Vec::new();
    assert!(it.filter(Some(&empty)));
    let untagged = item("dog", "chien", &[]);
    assert!(untagged.filter(None));
}

#[test]
fn filter_matches_on_intersection() {
    let it = item("cat", "chat", &["animals", "pets"]);
    let yes = vec!["plants", "pets"];
    assert!(it.filter(Some(&yes)));
    let no = vec!["plants", "minerals"];
    assert!(!it.filter(Some(&no)));
    let untagged = item("dog", "chien", &[]);
    assert!(!untagged.filter(Some(&yes)));
}

#[test]
fn pick_uniform_frequencies() {
    // Item Store with three items, no Score Ledger, no tag filter: each item
    // should come up roughly a third of the time.
    let list = animals();
    let trials = 6000;
    let mut counts = [0usize; 3];
    for _ in 0..trials {
        let picked = list.pick(None, None).unwrap();
        match picked.word.as_str() {
            "cat" => counts[0] += 1,
            "dog" => counts[1] += 1,
            "bird" => counts[2] += 1,
            w => panic!("picked a word not in the store: {}", w),
        }
    }
    for &c in counts.iter() {
        assert!(c > 1500 && c < 2500, "far from uniform: {:?}", counts);
    }
}

#[test]
fn pick_biased_by_ledger() {
    // correct["cat"] = 9 gives cat weight 1/10 and dog weight 1: dog should
    // be drawn roughly ten times as often as cat.
    let list = VocaList { items: vec![item("cat", "chat", &[]), item("dog", "chien", &[])] };
    let cat = item("cat", "chat", &[]);
    let mut ledger = VocaScore::new();
    for _ in 0..9 {
        ledger.record_outcome_at(&cat, true, 1);
    }
    let (num, den) = ledger.score(cat.id());
    assert_eq!((num, den), (1, 10));
    assert!((num as f64 / den as f64 - 0.1).abs() < 1e-12);
    let dog = item("dog", "chien", &[]);
    let (num, den) = ledger.score(dog.id());
    assert_eq!((num, den), (1, 1));
    assert!((num as f64 / den as f64 - 1.0).abs() < 1e-12);

    let trials = 11000;
    let mut cat_count = 0usize;
    for _ in 0..trials {
        let picked = list.pick(Some(&ledger), None).unwrap();
        if picked.word.as_str() == "cat" {
            cat_count += 1;
        }
    }
    // expected cat share is 1/11 of the draws, about 1000
    assert!(cat_count > 400 && cat_count < 1800, "cat drawn {} times", cat_count);
}

#[test]
fn pick_respects_tag_filter() {
    let list = VocaList {
        items: vec![
            item("cat", "chat", &["animals"]),
            item("tree", "arbre", &["plants"]),
            item("rock", "pierre", &[]),
        ],
    };
    let filter = vec!["animals"];
    for _ in 0..50 {
        let picked = list.pick(None, Some(&filter)).unwrap();
        assert_eq!(picked.word, "cat");
    }
}

#[test]
fn pick_empty_filter_match_is_an_error() {
    let list = animals();
    let filter = vec!["minerals"];
    assert_eq!(list.pick(None, Some(&filter)).unwrap_err(), SelectError::EmptyResult);
}

#[test]
fn pick_on_empty_store_is_an_error() {
    let list = VocaList { items: Vec::new() };
    assert_eq!(list.pick(None, None).unwrap_err(), SelectError::EmptyResult);
}

#[test]
fn pick_at_is_deterministic_in_the_draw() {
    let list = animals();
    let a = list.pick_at(None, None, 7).unwrap().word.clone();
    let b = list.pick_at(None, None, 7).unwrap().word.clone();
    assert_eq!(a, b);
    // draw 0 falls inside the first item's weight span
    assert_eq!(list.pick_at(None, None, 0).unwrap().word, "cat");
}

#[test]
fn find_returns_first_exact_match() {
    let list = animals();
    assert_eq!(list.find("dog").unwrap().translation, "chien");
    assert!(list.find("Dog").is_none());
    assert!(list.find("fish").is_none());
    let twice = VocaList {
        items: vec![item("cat", "first", &[]), item("cat", "second", &[])],
    };
    assert_eq!(twice.find("cat").unwrap().translation, "first");
}

#[test]
fn append_builds_the_item() {
    let mut list = VocaList { items: Vec::new() };
    let tags = vec!["animals", "pets"];
    list.append(
        "cat".to_string(),
        Some("chat"),
        Some("ka"),
        Some("le chat dort"),
        None,
        Some(&tags),
    );
    assert_eq!(list.items.len(), 1);
    let it = &list.items[0];
    assert_eq!(it.word, "cat");
    assert_eq!(it.translation, "chat");
    assert_eq!(it.transcription, "ka");
    assert_eq!(it.example, "le chat dort");
    assert_eq!(it.comment, "");
    assert_eq!(it.tags, vec!["animals".to_string(), "pets".to_string()]);
}

#[test]
fn distractors_too_small_pool_is_an_error() {
    // a store of exactly 2 items cannot serve count = 4
    let list = VocaList { items: vec![item("cat", "chat", &[]), item("dog", "chien", &[])] };
    let correct = list.items[0].clone();
    assert_eq!(
        list.distractors(&correct, 4, None).unwrap_err(),
        SelectError::InsufficientCandidates
    );
}

#[test]
fn distractors_places_correct_item() {
    let list = VocaList {
        items: vec![
            item("cat", "chat", &[]),
            item("dog", "chien", &[]),
            item("bird", "oiseau", &[]),
            item("fish", "poisson", &[]),
        ],
    };
    let correct = list.items[1].clone();
    let (options, pos) = list.distractors(&correct, 3, None).unwrap();
    assert_eq!(options.len(), 3);
    assert!(pos < 3);
    assert_eq!(options[pos].word, "dog");
    for (i, o) in options.iter().enumerate() {
        if i != pos {
            assert_ne!(o.word, "dog");
            assert!(["cat", "bird", "fish"].contains(&o.word.as_str()));
        }
    }
}

#[test]
fn distractors_single_slot_needs_no_candidates() {
    let list = VocaList { items: vec![item("cat", "chat", &[])] };
    let correct = list.items[0].clone();
    let (options, pos) = list.distractors(&correct, 1, None).unwrap();
    assert_eq!(options.len(), 1);
    assert_eq!(pos, 0);
    assert_eq!(options[0].word, "cat");
}

#[test]
fn distractors_respect_tag_filter() {
    let list = VocaList {
        items: vec![
            item("cat", "chat", &["animals"]),
            item("dog", "chien", &["animals"]),
            item("tree", "arbre", &["plants"]),
        ],
    };
    let correct = list.items[0].clone();
    let filter = vec!["animals"];
    let (options, pos) = list.distractors(&correct, 2, Some(&filter)).unwrap();
    for (i, o) in options.iter().enumerate() {
        if i != pos {
            assert_eq!(o.word, "dog");
        }
    }
    // only "dog" is eligible, so three slots cannot be distinct-backed
    assert_eq!(
        list.distractors(&correct, 3, Some(&filter)).unwrap_err(),
        SelectError::InsufficientCandidates
    );
}

#[test]
fn select_error_messages() {
    assert_eq!(SelectError::EmptyResult.message(), "no item matches the filter");
    assert_eq!(
        SelectError::InsufficientCandidates.message(),
        "not enough distinct candidate items"
    );
}
