//! Tests of file-name construction and tag-filter parsing.

use vocajeux::paths::{getdatafile, getscorefile, parse_tag_filter};

#[test]
fn data_file_name() {
    assert_eq!(getdatafile("french", "/home/u/.config/vocajeux/data"),
        "/home/u/.config/vocajeux/data/french.json");
    assert_eq!(getdatafile("", "d"), "d/.json");
}

#[test]
fn score_file_name_strips_json_suffix() {
    assert_eq!(getscorefile("french.json", "/scores", None), "/scores/french.score.json");
    assert_eq!(getscorefile("french", "/scores", None), "/scores/french.score.json");
    assert_eq!(getscorefile("fr.jsonx", "/scores", None), "/scores/fr.jsonx.score.json");
    assert_eq!(getscorefile("js", "/scores", None), "/scores/js.score.json");
}

#[test]
fn score_file_name_with_access_key() {
    assert_eq!(
        getscorefile("french.json", "/scores", Some("alice")),
        "/scores/french.alice.score.json"
    );
    assert_eq!(getscorefile("french", "/scores", Some("k1")), "/scores/french.k1.score.json");
}

#[test]
fn tag_filter_splits_on_commas() {
    assert_eq!(parse_tag_filter("animals,plants"), vec!["animals", "plants"]);
    assert_eq!(parse_tag_filter("animals"), vec!["animals"]);
    let none: Vec<String> = Vec::new();
    assert_eq!(parse_tag_filter(""), none);
    assert_eq!(parse_tag_filter(",,"), none);
    assert_eq!(parse_tag_filter("a,,b,"), vec!["a", "b"]);
    assert_eq!(parse_tag_filter(",x"), vec!["x"]);
}
