//! The vocabulary list: an ordered store of items. The order is the
//! declaration order of the backing file; it matters for listing and lookup,
//! not for selection.

use vstd::prelude::*;

use crate::item::{ItemView, VocaItem};

verus! {

/// An ordered store of vocabulary items.
pub struct VocaList {
    pub items: Vec<VocaItem>,
}

impl View for VocaList {
    type V = Seq<ItemView>;

    open spec fn view(&self) -> Seq<ItemView> {
        self.items.deep_view()
    }
}

/// The characters of an optional string, or the empty sequence when absent.
pub open spec fn opt_str_view(s: Option<&str>) -> Seq<char> {
    match s {
        None => Seq::empty(),
        Some(t) => t@,
    }
}

/// The tag sequence that `append` builds from an optional tag list.
pub open spec fn opt_tags_view(tags: Option<&Vec<&str>>) -> Seq<Seq<char>> {
    match tags {
        None => Seq::empty(),
        Some(v) => v.deep_view(),
    }
}

/// The walk of a word lookup: from index `i` on, the first index whose item
/// has the word, or the store's length when none has.
pub open spec fn find_from(items: Seq<ItemView>, word: Seq<char>, i: int) -> int
    decreases items.len() - i,
{
    if i < 0 || i >= items.len() {
        i
    } else if items[i].word == word {
        i
    } else {
        find_from(items, word, i + 1)
    }
}

/// The position of the first item carrying the word, or the store's length.
pub open spec fn spec_find_index(items: Seq<ItemView>, word: Seq<char>) -> int {
    find_from(items, word, 0)
}

impl VocaList {
    /// An empty list.
    pub fn new() -> (r: VocaList)
        ensures
            r@ == Seq::<ItemView>::empty(),
    {
        let r = VocaList { items: Vec::new() };
        proof {
            assert(r@ =~= Seq::<ItemView>::empty());
        }
        r
    }

    /// Add a new item at the end of the list; absent optional fields become
    /// empty strings and an absent tag list becomes no tags.
    pub fn append(
        &mut self,
        word: String,
        translation: Option<&str>,
        transcription: Option<&str>,
        example: Option<&str>,
        comment: Option<&str>,
        tags: Option<&Vec<&str>>,
    )
        ensures
            final(self)@ == old(self)@.push(
                ItemView {
                    word: word@,
                    translation: opt_str_view(translation),
                    transcription: opt_str_view(transcription),
                    example: opt_str_view(example),
                    comment: opt_str_view(comment),
                    tags: opt_tags_view(tags),
                },
            ),
    {
        let tags_owned: Vec<String> = match tags {
            Some(ts) => {
                let mut owned: Vec<String> = Vec::new();
                let mut i: usize = 0;
                while i < ts.len()
                    invariant
                        i <= ts.len(),
                        owned@.len() == i,
                        forall|j: int| 0 <= j < i ==> owned@[j]@ == ts@[j]@,
                    decreases ts.len() - i,
                {
                    owned.push(ts[i].to_owned());
                    i = i + 1;
                }
                owned
            },
            None => Vec::new(),
        };
        let item = VocaItem {
            word,
            translation: match translation {
                Some(s) => s.to_owned(),
                None => String::new(),
            },
            transcription: match transcription {
                Some(s) => s.to_owned(),
                None => String::new(),
            },
            example: match example {
                Some(s) => s.to_owned(),
                None => String::new(),
            },
            comment: match comment {
                Some(s) => s.to_owned(),
                None => String::new(),
            },
            tags: tags_owned,
        };
        proof {
            assert(item@.tags =~= opt_tags_view(tags));
        }
        self.items.push(item);
        proof {
            assert(final(self)@ =~= old(self)@.push(item@));
        }
    }

    /// Look a word up by exact, case-sensitive match: the first item in
    /// store order whose `word` equals the query, or nothing when no item
    /// matches.
    pub fn find(&self, word: &str) -> (r: Option<&VocaItem>)
        ensures
            ({
                let fi = spec_find_index(self@, word@);
                match r {
                    Some(item) => 0 <= fi < self@.len() && *item == self.items@[fi]
                        && self@[fi].word == word@,
                    None => fi == self@.len(),
                }
            }),
    {
        let mut i: usize = 0;
        while i < self.items.len()
            invariant
                i <= self.items.len(),
                self@.len() == self.items.len(),
                spec_find_index(self@, word@) == find_from(self@, word@, i as int),
            decreases self.items.len() - i,
        {
            if crate::item::str_equal(self.items[i].word.as_str(), word) {
                assert(self@[i as int].word == word@);
                return Some(&self.items[i]);
            }
            i = i + 1;
        }
        None
    }
}

} // verus!
