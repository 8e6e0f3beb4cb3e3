//! The server-side cache: two value tables (dataset name to item store,
//! (dataset, session) to score ledger) each with its own last-used stamp
//! table, lazily populated and swept of idle entries.
//!
//! Loading a backing file is the caller's business: the caller checks
//! `contains_data` / `contains_score`, loads outside, and hands the value to
//! `install_data` / `install_score`, which keeps the first installed value
//! for a key (a racing second loader never clobbers the first) and re-stamps
//! the key's last-used time. The periodic sweep removes every key whose
//! stamp is at least the idle threshold old from both the value table and
//! the stamp table; other keys keep their values untouched.

use vstd::prelude::*;

use crate::assoc::{is_expired, AssocMap, SessionKey};
use crate::item::{filter_view, spec_passes, word_key, VocaItem};
use crate::list::{spec_find_index, VocaList};
use crate::score::{spec_record, ScoreView, VocaScore};
use crate::select::{score_opt_view, spec_pick_index, total_weight};

verus! {

/// The default idle threshold of the sweep: a quarter hour, in seconds.
pub const DEFAULT_EXPIRATION: u64 = 900;

/// Why loading a backing file failed. The caller's loader reports these;
/// a failed load is never cached, so the next request simply retries it.
#[derive(Clone, Copy, Debug, PartialEq, Eq, Structural)]
pub enum LoadError {
    /// The backing file does not exist.
    NotFound,
    /// The backing file exists but could not be read.
    Unreadable,
    /// The backing file's contents could not be parsed.
    Malformed,
}

impl LoadError {
    /// A short description of the error.
    pub fn message(&self) -> &str {
        match self {
            LoadError::NotFound => "not found",
            LoadError::Unreadable => "unreadable",
            LoadError::Malformed => "malformed",
        }
    }
}

/// Why a cached request could not be served.
#[derive(Clone, Copy, Debug, PartialEq, Eq, Structural)]
pub enum CacheError {
    /// The dataset is not in the cache; it must be installed first.
    DatasetNotLoaded,
    /// No score ledger is cached for the session.
    ScoreNotLoaded,
    /// The word is not in the dataset.
    WordNotFound,
    /// No item passes the tag filter.
    EmptyResult,
}

impl CacheError {
    /// A short description of the error.
    pub fn message(&self) -> &str {
        match self {
            CacheError::DatasetNotLoaded => "vocabulary list not loaded",
            CacheError::ScoreNotLoaded => "no session loaded",
            CacheError::WordNotFound => "word not found",
            CacheError::EmptyResult => "no item matches the filter",
        }
    }
}

/// The cache of loaded vocabulary data and per-session score ledgers.
pub struct Cache {
    data: AssocMap<String, VocaList>,
    data_lastused: AssocMap<String, u64>,
    scores: AssocMap<SessionKey, VocaScore>,
    scores_lastused: AssocMap<SessionKey, u64>,
}

/// The mathematical content of the cache: its four tables as maps.
pub struct CacheView {
    pub data: Map<Seq<char>, VocaList>,
    pub data_lastused: Map<Seq<char>, u64>,
    pub scores: Map<(Seq<char>, Seq<char>), VocaScore>,
    pub scores_lastused: Map<(Seq<char>, Seq<char>), u64>,
}

impl View for Cache {
    type V = CacheView;

    closed spec fn view(&self) -> CacheView {
        CacheView {
            data: self.data@,
            data_lastused: self.data_lastused@,
            scores: self.scores@,
            scores_lastused: self.scores_lastused@,
        }
    }
}

/// The cache after a dataset install: the value enters only when the key was
/// absent (the first loader wins), and the key is stamped as used `now`.
pub open spec fn spec_install_data(c: CacheView, name: Seq<char>, list: VocaList, now: u64) -> CacheView {
    CacheView {
        data: if c.data.contains_key(name) {
            c.data
        } else {
            c.data.insert(name, list)
        },
        data_lastused: c.data_lastused.insert(name, now),
        scores: c.scores,
        scores_lastused: c.scores_lastused,
    }
}

/// The cache after a score-ledger install, the same way.
pub open spec fn spec_install_score(
    c: CacheView,
    key: (Seq<char>, Seq<char>),
    ledger: VocaScore,
    now: u64,
) -> CacheView {
    CacheView {
        data: c.data,
        data_lastused: c.data_lastused,
        scores: if c.scores.contains_key(key) {
            c.scores
        } else {
            c.scores.insert(key, ledger)
        },
        scores_lastused: c.scores_lastused.insert(key, now),
    }
}

/// The keys of a stamp table that are expired against `now` and `threshold`.
pub open spec fn expired_set<X>(lu: Map<X, u64>, now: u64, threshold: u64) -> Set<X> {
    Set::new(|k: X| lu.contains_key(k) && is_expired(lu[k], now, threshold))
}

/// The cache after a sweep: each keyspace loses exactly its expired keys,
/// from the value table and the stamp table alike.
pub open spec fn spec_sweep(c: CacheView, now: u64, threshold: u64) -> CacheView {
    CacheView {
        data: c.data.remove_keys(expired_set(c.data_lastused, now, threshold)),
        data_lastused: c.data_lastused.remove_keys(expired_set(c.data_lastused, now, threshold)),
        scores: c.scores.remove_keys(expired_set(c.scores_lastused, now, threshold)),
        scores_lastused: c.scores_lastused.remove_keys(
            expired_set(c.scores_lastused, now, threshold),
        ),
    }
}

/// The ledger view a cached pick uses: the session's cached ledger, or none
/// when no session is named or none is cached.
pub open spec fn spec_session_ledger(
    c: CacheView,
    dataset: Seq<char>,
    session: Option<&str>,
) -> Option<ScoreView> {
    match session {
        None => None,
        Some(sk) => if c.scores.contains_key((dataset, sk@)) {
            Some(c.scores[(dataset, sk@)]@)
        } else {
            None
        },
    }
}

impl Cache {
    /// All four tables are consistent.
    pub closed spec fn wf(&self) -> bool {
        self.data.wf() && self.data_lastused.wf() && self.scores.wf()
            && self.scores_lastused.wf()
    }

    /// An empty cache.
    pub fn new() -> (r: Cache)
        ensures
            r.wf(),
            r@.data == Map::<Seq<char>, VocaList>::empty(),
            r@.data_lastused == Map::<Seq<char>, u64>::empty(),
            r@.scores == Map::<(Seq<char>, Seq<char>), VocaScore>::empty(),
            r@.scores_lastused == Map::<(Seq<char>, Seq<char>), u64>::empty(),
    {
        Cache {
            data: AssocMap::new(),
            data_lastused: AssocMap::new(),
            scores: AssocMap::new(),
            scores_lastused: AssocMap::new(),
        }
    }

    /// Whether a dataset is cached. A fresh lookup after an eviction sees
    /// the key absent again and must re-install.
    pub fn contains_data(&self, name: &str) -> (r: bool)
        requires
            self.wf(),
        ensures
            r == self@.data.contains_key(name@),
    {
        self.data.contains(&name.to_owned())
    }

    /// Whether a session's score ledger is cached.
    pub fn contains_score(&self, dataset: &str, session: &str) -> (r: bool)
        requires
            self.wf(),
        ensures
            r == self@.scores.contains_key((dataset@, session@)),
    {
        self.scores.contains(
            &SessionKey { dataset: dataset.to_owned(), session: session.to_owned() },
        )
    }

    /// Install a loaded dataset: keep the first value installed for the key
    /// and stamp the key as used `now`.
    pub fn install_data(&mut self, name: &str, list: VocaList, now: u64)
        requires
            old(self).wf(),
        ensures
            final(self).wf(),
            final(self)@ == spec_install_data(old(self)@, name@, list, now),
    {
        if !self.data.contains(&name.to_owned()) {
            self.data.insert(name.to_owned(), list);
        }
        self.data_lastused.insert(name.to_owned(), now);
    }

    /// Install a loaded (or fresh) score ledger, the same way.
    pub fn install_score(&mut self, dataset: &str, session: &str, ledger: VocaScore, now: u64)
        requires
            old(self).wf(),
        ensures
            final(self).wf(),
            final(self)@ == spec_install_score(old(self)@, (dataset@, session@), ledger, now),
    {
        let key = SessionKey { dataset: dataset.to_owned(), session: session.to_owned() };
        if !self.scores.contains(&key) {
            let key2 = SessionKey {
                dataset: key.dataset.clone(),
                session: key.session.clone(),
            };
            self.scores.insert(key2, ledger);
        }
        self.scores_lastused.insert(key, now);
    }

    /// The cached item store of a dataset.
    pub fn get_data(&self, name: &str) -> (r: Option<&VocaList>)
        requires
            self.wf(),
        ensures
            match r {
                Some(list) => self@.data.contains_key(name@) && *list == self@.data[name@],
                None => !self@.data.contains_key(name@),
            },
    {
        self.data.get(&name.to_owned())
    }

    /// The cached score ledger of a session.
    pub fn get_score(&self, dataset: &str, session: &str) -> (r: Option<&VocaScore>)
        requires
            self.wf(),
        ensures
            match r {
                Some(ledger) => self@.scores.contains_key((dataset@, session@)) && *ledger
                    == self@.scores[(dataset@, session@)],
                None => !self@.scores.contains_key((dataset@, session@)),
            },
    {
        self.scores.get(
            &SessionKey { dataset: dataset.to_owned(), session: session.to_owned() },
        )
    }

    /// Evict every idle entry: a key whose last-used stamp is `threshold`
    /// seconds or more before `now` leaves both its value table and its
    /// stamp table; every other key keeps its value.
    pub fn sweep(&mut self, now: u64, threshold: u64)
        requires
            old(self).wf(),
        ensures
            final(self).wf(),
            final(self)@ == spec_sweep(old(self)@, now, threshold),
    {
        let expired_data = self.data_lastused.expired_keys(now, threshold);
        let ghost lu0 = self.data_lastused@;
        let ghost d0 = self.data@;
        let mut i: usize = 0;
        while i < expired_data.len()
            invariant
                self.wf(),
                self.data_lastused@ == lu0.remove_keys(keys_upto(expired_data@, i as int)),
                self.data@ == d0.remove_keys(keys_upto(expired_data@, i as int)),
                self.scores@ == old(self).scores@,
                self.scores_lastused@ == old(self).scores_lastused@,
            decreases expired_data@.len() - i,
        {
            let ghost sofar = keys_upto(expired_data@, i as int);
            let k = &expired_data[i];
            self.data_lastused.remove(k);
            self.data.remove(k);
            proof {
                assert(keys_upto(expired_data@, i as int + 1) =~= sofar.insert(k@));
                assert(self.data_lastused@ =~= lu0.remove_keys(sofar.insert(k@)));
                assert(self.data@ =~= d0.remove_keys(sofar.insert(k@)));
            }
            i = i + 1;
        }
        proof {
            lemma_expired_cover(lu0, expired_data@, now, threshold);
            assert(self.data_lastused@ =~= lu0.remove_keys(expired_set(lu0, now, threshold)));
            assert(self.data@ =~= d0.remove_keys(expired_set(lu0, now, threshold)));
        }
        let expired_scores = self.scores_lastused.expired_keys(now, threshold);
        let ghost slu0 = self.scores_lastused@;
        let ghost s0 = self.scores@;
        let mut j: usize = 0;
        while j < expired_scores.len()
            invariant
                self.wf(),
                self.scores_lastused@ == slu0.remove_keys(keys_upto(expired_scores@, j as int)),
                self.scores@ == s0.remove_keys(keys_upto(expired_scores@, j as int)),
                self.data@ == d0.remove_keys(expired_set(lu0, now, threshold)),
                self.data_lastused@ == lu0.remove_keys(expired_set(lu0, now, threshold)),
            decreases expired_scores@.len() - j,
        {
            let ghost sofar = keys_upto(expired_scores@, j as int);
            let k = &expired_scores[j];
            self.scores_lastused.remove(k);
            self.scores.remove(k);
            proof {
                assert(keys_upto(expired_scores@, j as int + 1) =~= sofar.insert(k@));
                assert(self.scores_lastused@ =~= slu0.remove_keys(sofar.insert(k@)));
                assert(self.scores@ =~= s0.remove_keys(sofar.insert(k@)));
            }
            j = j + 1;
        }
        proof {
            lemma_expired_cover(slu0, expired_scores@, now, threshold);
            assert(self.scores_lastused@ =~= slu0.remove_keys(expired_set(slu0, now, threshold)));
            assert(self.scores@ =~= s0.remove_keys(expired_set(slu0, now, threshold)));
        }
    }
}

/// The contents of the first `n` collected keys, as a set.
pub open spec fn keys_upto<K: crate::assoc::MapKey>(keys: Seq<K>, n: int) -> Set<<K as View>::V> {
    Set::new(|k: <K as View>::V| exists|m: int| 0 <= m < n && m < keys.len() && keys[m]@ == k)
}

/// A collected expired-key list covers the expired set exactly.
proof fn lemma_expired_cover<K: crate::assoc::MapKey>(
    lu: Map<<K as View>::V, u64>,
    keys: Seq<K>,
    now: u64,
    threshold: u64,
)
    requires
        forall|m: int|
            0 <= m < keys.len() ==> lu.contains_key(#[trigger] keys[m]@) && is_expired(
                lu[keys[m]@],
                now,
                threshold,
            ),
        forall|k: <K as View>::V|
            lu.contains_key(k) && is_expired(#[trigger] lu[k], now, threshold) ==> exists|m: int|
                0 <= m < keys.len() && keys[m]@ == k,
    ensures
        keys_upto(keys, keys.len() as int) =~= expired_set(lu, now, threshold),
{
}

impl Cache {
    /// Serve a pick request from the cache: select a weighted random item
    /// from the named dataset's store, biased by the session's cached ledger
    /// when a session is named. The dataset must have been installed.
    pub fn pick_cached(
        &self,
        dataset: &str,
        session: Option<&str>,
        filtertags: Option<&Vec<&str>>,
    ) -> (r: Result<VocaItem, CacheError>)
        requires
            self.wf(),
        ensures
            ({
                let f = filter_view(filtertags);
                let s = spec_session_ledger(self@, dataset@, session);
                match r {
                    Ok(item) => self@.data.contains_key(dataset@) && {
                        let list = self@.data[dataset@];
                        &&& total_weight(list@, s, f) > 0
                        &&& spec_passes(item@.tags, f)
                        &&& exists|d: nat|
                            d < total_weight(list@, s, f) && item@ == list@[spec_pick_index(
                                list@,
                                s,
                                f,
                                d,
                            )]
                    },
                    Err(e) => match e {
                        CacheError::DatasetNotLoaded => !self@.data.contains_key(dataset@),
                        CacheError::EmptyResult => self@.data.contains_key(dataset@)
                            && total_weight(self@.data[dataset@]@, s, f) == 0 && (forall|i: int|
                            0 <= i < self@.data[dataset@]@.len() ==> !spec_passes(
                                #[trigger] self@.data[dataset@]@[i].tags,
                                f,
                            )),
                        _ => false,
                    },
                }
            }),
    {
        let list = match self.get_data(dataset) {
            Some(list) => list,
            None => {
                return Err(CacheError::DatasetNotLoaded);
            },
        };
        let ledger: Option<&VocaScore> = match session {
            None => None,
            Some(sk) => self.get_score(dataset, sk),
        };
        proof {
            assert(score_opt_view(ledger) == spec_session_ledger(self@, dataset@, session));
        }
        match list.pick(ledger, filtertags) {
            Ok(item) => {
                let it = item.clone();
                proof {
                    let f = filter_view(filtertags);
                    let s = spec_session_ledger(self@, dataset@, session);
                    let d0 = choose|d: nat|
                        {
                            let idx = #[trigger] spec_pick_index(list@, s, f, d);
                            d < total_weight(list@, s, f) && 0 <= idx < list@.len() && *item
                                == list.items@[idx]
                        };
                    let idx = spec_pick_index(list@, s, f, d0);
                    assert(it@ == list@[idx]);
                    assert(d0 < total_weight(list@, s, f) && it@ == list@[spec_pick_index(
                        list@,
                        s,
                        f,
                        d0,
                    )]);
                }
                Ok(it)
            },
            Err(_) => Err(CacheError::EmptyResult),
        }
    }

    /// Serve a score request from the cache: look the word up in the named
    /// dataset's store and record the outcome, as of `now`, in the session's
    /// cached ledger. The tables of other keys, both stamp tables, and the
    /// store itself are untouched.
    pub fn record_outcome(
        &mut self,
        dataset: &str,
        session: &str,
        word: &str,
        correct: bool,
        now: u64,
    ) -> (r: Result<(), CacheError>)
        requires
            old(self).wf(),
        ensures
            final(self).wf(),
            final(self)@.data == old(self)@.data,
            final(self)@.data_lastused == old(self)@.data_lastused,
            final(self)@.scores_lastused == old(self)@.scores_lastused,
            ({
                let key = (dataset@, session@);
                let c = old(self)@;
                match r {
                    Ok(()) => c.data.contains_key(dataset@) && c.scores.contains_key(key) && {
                        let list = c.data[dataset@];
                        let fi = spec_find_index(list@, word@);
                        &&& fi < list@.len()
                        &&& exists|vs: VocaScore|
                            final(self)@.scores == c.scores.insert(key, vs) && (#[trigger] vs@)
                                == spec_record(
                                c.scores[key]@,
                                word_key(list@[fi].word),
                                correct,
                                now,
                            )
                    },
                    Err(e) => final(self)@.scores == c.scores && match e {
                        CacheError::DatasetNotLoaded => !c.data.contains_key(dataset@),
                        CacheError::ScoreNotLoaded => c.data.contains_key(dataset@)
                            && !c.scores.contains_key(key),
                        CacheError::WordNotFound => c.data.contains_key(dataset@)
                            && c.scores.contains_key(key) && spec_find_index(
                            c.data[dataset@]@,
                            word@,
                        ) == c.data[dataset@]@.len(),
                        _ => false,
                    },
                }
            }),
    {
        if !self.data.contains(&dataset.to_owned()) {
            return Err(CacheError::DatasetNotLoaded);
        }
        let skey = SessionKey { dataset: dataset.to_owned(), session: session.to_owned() };
        let mut ledger = match self.scores.remove(&skey) {
            Some(ledger) => ledger,
            None => {
                return Err(CacheError::ScoreNotLoaded);
            },
        };
        let ghost key = (dataset@, session@);
        let ghost scores0 = old(self)@.scores;
        let ghost ledger0 = ledger;
        let found: bool;
        match self.data.get(&dataset.to_owned()) {
            Some(list) => {
                proof {
                    assert(*list == old(self)@.data[dataset@]);
                }
                match list.find(word) {
                    Some(item) => {
                        proof {
                            let fi = spec_find_index(list@, word@);
                            assert(item@ == list@[fi]);
                        }
                        ledger.record_outcome_at(item, correct, now);
                        found = true;
                    },
                    None => {
                        found = false;
                    },
                }
            },
            None => {
                proof {
                    assert(false);
                }
                found = false;
            },
        };
        let skey2 = SessionKey { dataset: dataset.to_owned(), session: session.to_owned() };
        self.scores.insert(skey2, ledger);
        if found {
            proof {
                let list = old(self)@.data[dataset@];
                let fi = spec_find_index(list@, word@);
                let vs = final(self)@.scores[key];
                assert(vs@ == spec_record(scores0[key]@, word_key(list@[fi].word), correct, now));
                assert(final(self)@.scores =~= scores0.insert(key, vs));
            }
            Ok(())
        } else {
            proof {
                assert(ledger0 == scores0[key]);
                assert(final(self)@.scores =~= scores0);
            }
            Err(CacheError::WordNotFound)
        }
    }
}

} // verus!
