//! The per-learner score ledger: correct/incorrect counters and a last-seen
//! timestamp, keyed by the 128-bit item identity, together with the selection
//! weight that the ledger assigns to an item.
//!
//! The weight of an item is the exact rational
//! `(incorrect + 1) / (correct + 1)`; an item with no history weighs 1.
//! For the weighted draw the rational is carried as the integer
//! `floor(weight * WEIGHT_SCALE)`, which is never zero.

use std::collections::HashMap;
use vstd::std_specs::hash::spec_hash_map_iter;
use vstd::std_specs::iter::IteratorSpec;
use vstd::prelude::*;

use crate::item::{word_key, VocaItem};

verus! {

/// The fixed-point scale of the integer selection weights: an item of
/// weight 1 counts this much in a draw.
pub const WEIGHT_SCALE: u128 = 0x1_0000_0000;

/// A per-learner record of outcomes, keyed by item identity.
pub struct VocaScore {
    correct: HashMap<u128, u32>,
    incorrect: HashMap<u128, u32>,
    lastseen: HashMap<u128, u64>,
}

/// The mathematical content of a `VocaScore`: three finite maps from item
/// identity to counter or timestamp. An identity absent from a map counts
/// as zero: never seen.
pub struct ScoreView {
    pub correct: Map<u128, u32>,
    pub incorrect: Map<u128, u32>,
    pub lastseen: Map<u128, u64>,
}

impl View for VocaScore {
    type V = ScoreView;

    closed spec fn view(&self) -> ScoreView {
        ScoreView { correct: self.correct@, incorrect: self.incorrect@, lastseen: self.lastseen@ }
    }
}

/// The counter a map records for an identity; zero when absent.
pub open spec fn count_of(m: Map<u128, u32>, id: u128) -> u32 {
    if m.contains_key(id) {
        m[id]
    } else {
        0
    }
}

/// A counter increment that stops at the counter's ceiling instead of
/// overflowing.
pub open spec fn sat_inc(c: u32) -> u32 {
    if c < u32::MAX {
        (c + 1) as u32
    } else {
        c
    }
}

/// The numerator of an item's weight: its incorrect count plus one, or one
/// when no ledger is supplied.
pub open spec fn weight_num(s: Option<ScoreView>, id: u128) -> nat {
    match s {
        None => 1,
        Some(sv) => count_of(sv.incorrect, id) as nat + 1,
    }
}

/// The denominator of an item's weight: its correct count plus one, or one
/// when no ledger is supplied.
pub open spec fn weight_den(s: Option<ScoreView>, id: u128) -> nat {
    match s {
        None => 1,
        Some(sv) => count_of(sv.correct, id) as nat + 1,
    }
}

/// The integer form of an item's weight: the rational
/// `weight_num / weight_den`, scaled by `WEIGHT_SCALE` and rounded down.
pub open spec fn scaled_weight(s: Option<ScoreView>, id: u128) -> nat {
    (weight_num(s, id) * (WEIGHT_SCALE as nat)) / weight_den(s, id)
}

/// The ledger after one recorded outcome: the matching counter is bumped
/// (saturating at its ceiling) and the identity is stamped as seen `now`.
pub open spec fn spec_record(s: ScoreView, id: u128, correct: bool, now: u64) -> ScoreView {
    ScoreView {
        correct: if correct {
            s.correct.insert(id, sat_inc(count_of(s.correct, id)))
        } else {
            s.correct
        },
        incorrect: if !correct {
            s.incorrect.insert(id, sat_inc(count_of(s.incorrect, id)))
        } else {
            s.incorrect
        },
        lastseen: s.lastseen.insert(id, now),
    }
}

/// Relies on std::time::SystemTime::now: seconds since the Unix epoch.
/// The value depends on the clock, so nothing is promised of it.
#[verifier::external_body]
fn now_secs() -> u64 {
    std::time::SystemTime::now()
        .duration_since(std::time::UNIX_EPOCH)
        .expect("Unable to get time")
        .as_secs()
}

/// All pairs a ledger map records, in arbitrary order: each returned pair
/// is in the map, and every key of the map appears among them.
fn hash_entries<V: Copy>(m: &HashMap<u128, V>) -> (r: Vec<(u128, V)>)
    ensures
        forall|j: int|
            0 <= j < r@.len() ==> m@.contains_key(#[trigger] r@[j].0) && m@[r@[j].0] == r@[j].1,
        forall|k: u128| #[trigger] m@.contains_key(k) ==> exists|j: int|
            0 <= j < r@.len() && r@[j].0 == k,
{
    let mut r: Vec<(u128, V)> = Vec::new();
    for pair in it: m.iter()
        invariant
            r@.len() == it.index(),
            forall|j: int|
                0 <= j < r@.len() ==> #[trigger] r@[j] == (*it.seq()[j].0, *it.seq()[j].1),
    {
        r.push((*pair.0, *pair.1));
    }
    proof {
        assert forall|k: u128| #[trigger] m@.contains_key(k) implies exists|j: int|
            0 <= j < r@.len() && r@[j].0 == k by {
            let v = spec_hash_map_iter(m).remaining();
            assert(v.contains((&k, &m@[k])));
            let j = choose|j: int| 0 <= j < v.len() && v[j] == (&k, &m@[k]);
            assert(r@[j].0 == k);
        }
    }
    r
}

impl VocaScore {
    /// An empty ledger: nothing has been seen.
    pub fn new() -> (r: VocaScore)
        ensures
            r@.correct == Map::<u128, u32>::empty(),
            r@.incorrect == Map::<u128, u32>::empty(),
            r@.lastseen == Map::<u128, u64>::empty(),
    {
        VocaScore { correct: HashMap::new(), incorrect: HashMap::new(), lastseen: HashMap::new() }
    }

    /// The exact weight of an identity under this ledger, as the pair
    /// (numerator, denominator) = (incorrect + 1, correct + 1). The lower
    /// the weight, the better the word is known.
    pub fn score(&self, id: u128) -> (r: (u64, u64))
        ensures
            r.0 == weight_num(Some(self@), id),
            r.1 == weight_den(Some(self@), id),
    {
        let inc: u32 = match self.incorrect.get(&id) {
            Some(c) => *c,
            None => 0,
        };
        let cor: u32 = match self.correct.get(&id) {
            Some(c) => *c,
            None => 0,
        };
        (inc as u64 + 1, cor as u64 + 1)
    }

    /// The recorded correct counters: every pair is in the ledger and every
    /// counted identity appears. The order means nothing.
    pub fn correct_entries(&self) -> (r: Vec<(u128, u32)>)
        ensures
            forall|j: int|
                0 <= j < r@.len() ==> self@.correct.contains_key(#[trigger] r@[j].0)
                    && self@.correct[r@[j].0] == r@[j].1,
            forall|k: u128| #[trigger] self@.correct.contains_key(k) ==> exists|j: int|
                0 <= j < r@.len() && r@[j].0 == k,
    {
        hash_entries(&self.correct)
    }

    /// The recorded incorrect counters, the same way.
    pub fn incorrect_entries(&self) -> (r: Vec<(u128, u32)>)
        ensures
            forall|j: int|
                0 <= j < r@.len() ==> self@.incorrect.contains_key(#[trigger] r@[j].0)
                    && self@.incorrect[r@[j].0] == r@[j].1,
            forall|k: u128| #[trigger] self@.incorrect.contains_key(k) ==> exists|j: int|
                0 <= j < r@.len() && r@[j].0 == k,
    {
        hash_entries(&self.incorrect)
    }

    /// The recorded last-seen stamps, the same way.
    pub fn lastseen_entries(&self) -> (r: Vec<(u128, u64)>)
        ensures
            forall|j: int|
                0 <= j < r@.len() ==> self@.lastseen.contains_key(#[trigger] r@[j].0)
                    && self@.lastseen[r@[j].0] == r@[j].1,
            forall|k: u128| #[trigger] self@.lastseen.contains_key(k) ==> exists|j: int|
                0 <= j < r@.len() && r@[j].0 == k,
    {
        hash_entries(&self.lastseen)
    }

    /// Set an identity's correct counter outright, as loading a persisted
    /// ledger does.
    pub fn set_correct_count(&mut self, id: u128, n: u32)
        ensures
            final(self)@.correct == old(self)@.correct.insert(id, n),
            final(self)@.incorrect == old(self)@.incorrect,
            final(self)@.lastseen == old(self)@.lastseen,
    {
        self.correct.insert(id, n);
    }

    /// Set an identity's incorrect counter outright.
    pub fn set_incorrect_count(&mut self, id: u128, n: u32)
        ensures
            final(self)@.incorrect == old(self)@.incorrect.insert(id, n),
            final(self)@.correct == old(self)@.correct,
            final(self)@.lastseen == old(self)@.lastseen,
    {
        self.incorrect.insert(id, n);
    }

    /// Set an identity's last-seen stamp outright.
    pub fn set_lastseen(&mut self, id: u128, t: u64)
        ensures
            final(self)@.lastseen == old(self)@.lastseen.insert(id, t),
            final(self)@.correct == old(self)@.correct,
            final(self)@.incorrect == old(self)@.incorrect,
    {
        self.lastseen.insert(id, t);
    }

    /// Record one outcome as of the given time: bump the matching counter
    /// and stamp the item as seen `now`.
    pub fn record_outcome_at(&mut self, item: &VocaItem, correct: bool, now: u64)
        ensures
            final(self)@ == spec_record(old(self)@, word_key(item@.word), correct, now),
    {
        let id = item.id();
        self.lastseen.insert(id, now);
        if correct {
            let c: u32 = match self.correct.get(&id) {
                Some(c) => *c,
                None => 0,
            };
            self.correct.insert(id, if c < u32::MAX {
                c + 1
            } else {
                c
            });
        } else {
            let c: u32 = match self.incorrect.get(&id) {
                Some(c) => *c,
                None => 0,
            };
            self.incorrect.insert(id, if c < u32::MAX {
                c + 1
            } else {
                c
            });
        }
    }

    /// Record one outcome as of the current clock time. The counters change
    /// exactly as in `spec_record`; the timestamp is whatever the clock gave.
    pub fn addscore(&mut self, item: &VocaItem, correct: bool)
        ensures
            exists|t: u64|
                final(self)@ == spec_record(old(self)@, word_key(item@.word), correct, t),
            final(self)@.correct == spec_record(old(self)@, word_key(item@.word), correct, 0).correct,
            final(self)@.incorrect == spec_record(
                old(self)@,
                word_key(item@.word),
                correct,
                0,
            ).incorrect,
    {
        let now = now_secs();
        self.record_outcome_at(item, correct, now);
    }
}

impl Default for VocaScore {
    /// The default ledger is empty.
    fn default() -> (r: VocaScore)
        ensures
            r@.correct == Map::<u128, u32>::empty(),
            r@.incorrect == Map::<u128, u32>::empty(),
            r@.lastseen == Map::<u128, u64>::empty(),
    {
        VocaScore::new()
    }
}

} // verus!
