//! Naming of dataset and score files, and the wire encoding of tag filters.
//!
//! The library only builds the names; whether a file exists and what it
//! holds is the caller's business.

use vstd::prelude::*;
use vstd::string::StrSliceExecFns;
use vstd::string::StringExecFns;

verus! {

/// `name` with a trailing `.json` removed, when it carries one.
pub open spec fn strip_json_suffix(name: Seq<char>) -> Seq<char> {
    if name.len() >= 5 && name.subrange(name.len() - 5, name.len() as int) == ".json"@ {
        name.subrange(0, name.len() - 5)
    } else {
        name
    }
}

/// The full name of the score file for a dataset: the dataset name without
/// its `.json` suffix, then the access key when one is given, then
/// `.score.json`, all under the score directory.
pub open spec fn spec_score_file(
    name: Seq<char>,
    scorepath: Seq<char>,
    accesskey: Option<Seq<char>>,
) -> Seq<char> {
    let base = strip_json_suffix(name);
    let with_key = match accesskey {
        None => base,
        Some(k) => base + "."@ + k,
    };
    scorepath + "/"@ + with_key + ".score.json"@
}

/// The path of the data file a dataset name denotes: `name.json` under the
/// data directory.
pub fn getdatafile(name: &str, datapath: &str) -> (r: String)
    ensures
        r@ == datapath@ + "/"@ + name@ + ".json"@,
{
    let mut r = datapath.to_owned();
    r.append("/");
    r.append(name);
    r.append(".json");
    proof {
        assert(r@ =~= datapath@ + "/"@ + name@ + ".json"@);
    }
    r
}

/// The path of the score file for a dataset name, score directory and
/// optional access key.
pub fn getscorefile(name: &str, scorepath: &str, accesskey: Option<&str>) -> (r: String)
    ensures
        r@ == spec_score_file(
            name@,
            scorepath@,
            match accesskey {
                None => None,
                Some(k) => Some(k@),
            },
        ),
{
    let n = name.unicode_len();
    let base: String = if n >= 5 {
        let tail = name.substring_char(n - 5, n);
        if crate::item::str_equal(tail, ".json") {
            name.substring_char(0, n - 5).to_owned()
        } else {
            name.to_owned()
        }
    } else {
        name.to_owned()
    };
    proof {
        assert(base@ == strip_json_suffix(name@));
    }
    let mut r = scorepath.to_owned();
    r.append("/");
    r.append(base.as_str());
    if let Some(k) = accesskey {
        r.append(".");
        r.append(k);
    }
    r.append(".score.json");
    proof {
        assert(r@ =~= spec_score_file(
            name@,
            scorepath@,
            match accesskey {
                None => None,
                Some(k) => Some(k@),
            },
        ));
    }
    r
}

/// The tokens that splitting at `i` has produced so far: `acc` plus the
/// partial token `cur`, extended over the rest of `s`; a comma closes the
/// current token and empty tokens are dropped.
pub open spec fn split_acc(
    s: Seq<char>,
    i: int,
    cur: Seq<char>,
    acc: Seq<Seq<char>>,
) -> Seq<Seq<char>>
    decreases s.len() - i,
{
    if i < 0 || i >= s.len() {
        if cur.len() == 0 {
            acc
        } else {
            acc.push(cur)
        }
    } else if s[i] == ',' {
        split_acc(
            s,
            i + 1,
            Seq::empty(),
            if cur.len() == 0 {
                acc
            } else {
                acc.push(cur)
            },
        )
    } else {
        split_acc(s, i + 1, cur.push(s[i]), acc)
    }
}

/// The non-empty comma-separated tokens of a tag filter string, in order.
pub open spec fn spec_split_tags(s: Seq<char>) -> Seq<Seq<char>> {
    split_acc(s, 0, Seq::empty(), Seq::empty())
}

/// Split a comma-separated tag filter string into its non-empty tokens.
pub fn parse_tag_filter(s: &str) -> (r: Vec<String>)
    ensures
        r.deep_view() == spec_split_tags(s@),
{
    let n = s.unicode_len();
    let mut acc: Vec<String> = Vec::new();
    let mut cur = String::new();
    let mut i: usize = 0;
    proof {
        assert(acc.deep_view() =~= Seq::<Seq<char>>::empty());
    }
    while i < n
        invariant
            i <= n,
            n == s@.len(),
            cur@.len() <= i,
            spec_split_tags(s@) == split_acc(s@, i as int, cur@, acc.deep_view()),
        decreases n - i,
    {
        let ghost prev_acc = acc.deep_view();
        let c = s.get_char(i);
        if c == ',' {
            if cur.unicode_len() > 0 {
                acc.push(cur);
                proof {
                    assert(acc.deep_view() =~= prev_acc.push(cur@));
                }
            }
            cur = String::new();
        } else {
            crate::item::push_char(&mut cur, c);
        }
        i = i + 1;
    }
    if cur.unicode_len() > 0 {
        let ghost prev_acc = acc.deep_view();
        acc.push(cur);
        proof {
            assert(acc.deep_view() =~= prev_acc.push(cur@));
        }
    }
    acc
}

} // verus!
