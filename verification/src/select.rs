//! The selector: a weighted random pick over a vocabulary list, and
//! distractor generation for multiple-choice quizzes.
//!
//! Every item that passes the tag filter gets the integer weight
//! `floor((incorrect + 1) / (correct + 1) * WEIGHT_SCALE)`, never zero;
//! items failing the filter weigh zero. A draw below the total weight is
//! taken, the items are walked in store order accumulating weight, and the
//! first item whose cumulative weight exceeds the draw is returned. With an
//! integer draw the strict comparison gives each item exactly its weight's
//! share of the draws and never lands on a weightless item. Which index a
//! given draw selects is fixed by `spec_pick_index`; only the draw itself is
//! random.

use std::collections::HashSet;
use vstd::prelude::*;

use crate::item::{filter_view, spec_passes, word_key, ItemView, VocaItem};
use crate::list::VocaList;
use crate::score::{scaled_weight, weight_den, weight_num, ScoreView, VocaScore, WEIGHT_SCALE};

verus! {

/// The largest weight one item can carry: the largest numerator times the
/// scale, over a denominator of one.
pub const MAX_ITEM_WEIGHT: u128 = 0x1_0000_0000_0000_0000;

/// Why a selection could not produce an item.
#[derive(Clone, Copy, Debug, PartialEq, Eq, Structural)]
pub enum SelectError {
    /// No item passes the tag filter: the filtered total weight is zero.
    EmptyResult,
    /// The distractor candidate pool is too small for the requested count.
    InsufficientCandidates,
}

impl SelectError {
    /// A short description of the error.
    pub fn message(&self) -> &str {
        match self {
            SelectError::EmptyResult => "no item matches the filter",
            SelectError::InsufficientCandidates => "not enough distinct candidate items",
        }
    }
}

/// Relies on rand::random: a fresh value from the thread-local generator.
/// The value depends on the generator's state, so nothing is promised of it.
#[verifier::external_body]
fn random_u128() -> u128 {
    rand::random::<u128>()
}

/// The ledger view carried by an optional ledger reference.
pub open spec fn score_opt_view(s: Option<&VocaScore>) -> Option<ScoreView> {
    match s {
        None => None,
        Some(sc) => Some(sc@),
    }
}

/// The selection weight of one item under a ledger and a tag filter: the
/// scaled weight when the item passes the filter, zero otherwise.
pub open spec fn one_weight(item: ItemView, s: Option<ScoreView>, f: Option<Seq<Seq<char>>>) -> nat {
    if spec_passes(item.tags, f) {
        scaled_weight(s, word_key(item.word))
    } else {
        0
    }
}

/// The summed weights of the first `n` items of a store.
pub open spec fn prefix_weight(
    items: Seq<ItemView>,
    s: Option<ScoreView>,
    f: Option<Seq<Seq<char>>>,
    n: int,
) -> nat
    decreases n,
{
    if n <= 0 {
        0
    } else {
        prefix_weight(items, s, f, n - 1) + one_weight(items[n - 1], s, f)
    }
}

/// The total weight of a store under a ledger and a tag filter.
pub open spec fn total_weight(
    items: Seq<ItemView>,
    s: Option<ScoreView>,
    f: Option<Seq<Seq<char>>>,
) -> nat {
    prefix_weight(items, s, f, items.len() as int)
}

/// The index the cumulative walk reaches: starting at item `i` with `draw`
/// still to cover, the first index whose weight exceeds what remains.
pub open spec fn spec_pick_from(
    items: Seq<ItemView>,
    s: Option<ScoreView>,
    f: Option<Seq<Seq<char>>>,
    draw: int,
    i: int,
) -> int
    decreases items.len() - i,
{
    if i < 0 || i >= items.len() {
        i
    } else if one_weight(items[i], s, f) > draw {
        i
    } else {
        spec_pick_from(items, s, f, draw - one_weight(items[i], s, f), i + 1)
    }
}

/// The index a draw below the total weight selects: the first index whose
/// cumulative weight exceeds the draw.
pub open spec fn spec_pick_index(
    items: Seq<ItemView>,
    s: Option<ScoreView>,
    f: Option<Seq<Seq<char>>>,
    draw: nat,
) -> int {
    spec_pick_from(items, s, f, draw as int, 0)
}


/// The summed prefix weights never shrink as the prefix grows.
pub proof fn lemma_prefix_weight_monotone(
    items: Seq<ItemView>,
    s: Option<ScoreView>,
    f: Option<Seq<Seq<char>>>,
    a: int,
    b: int,
)
    requires
        a <= b,
    ensures
        prefix_weight(items, s, f, a) <= prefix_weight(items, s, f, b),
    decreases b - a,
{
    if a < b {
        lemma_prefix_weight_monotone(items, s, f, a, b - 1);
    }
}

proof fn lemma_pick_from_bounds(
    items: Seq<ItemView>,
    s: Option<ScoreView>,
    f: Option<Seq<Seq<char>>>,
    d: int,
    i: int,
)
    requires
        0 <= i <= items.len(),
        0 <= d,
        d + prefix_weight(items, s, f, i) < total_weight(items, s, f),
    ensures
        ({
            let idx = spec_pick_from(items, s, f, d, i);
            &&& i <= idx < items.len()
            &&& prefix_weight(items, s, f, idx) - prefix_weight(items, s, f, i) <= d
            &&& d < prefix_weight(items, s, f, idx + 1) - prefix_weight(items, s, f, i)
        }),
    decreases items.len() - i,
{
    if i == items.len() {
        assert(false);
    } else {
        let w = one_weight(items[i], s, f);
        if w > d {
        } else {
            lemma_pick_from_bounds(items, s, f, d - w, i + 1);
        }
    }
}

/// The index a draw selects is exactly the first one whose cumulative
/// weight exceeds the draw: the weights before it sum to no more than the
/// draw, and with it they pass the draw. Every index before it therefore
/// leaves the draw uncovered, and none after it is the first to cover it.
pub proof fn lemma_pick_index_characterization(
    items: Seq<ItemView>,
    s: Option<ScoreView>,
    f: Option<Seq<Seq<char>>>,
    draw: nat,
)
    requires
        draw < total_weight(items, s, f),
    ensures
        ({
            let idx = spec_pick_index(items, s, f, draw);
            &&& 0 <= idx < items.len()
            &&& prefix_weight(items, s, f, idx) <= draw
            &&& draw < prefix_weight(items, s, f, idx + 1)
        }),
{
    lemma_pick_from_bounds(items, s, f, draw as int, 0);
}

/// An item's scaled weight is at least one and at most `MAX_ITEM_WEIGHT`.
pub proof fn lemma_scaled_weight_bounds(s: Option<ScoreView>, id: u128)
    ensures
        1 <= scaled_weight(s, id) <= MAX_ITEM_WEIGHT,
{
    let num = weight_num(s, id);
    let den = weight_den(s, id);
    assert(1 <= num <= 0x1_0000_0000);
    assert(1 <= den <= 0x1_0000_0000);
    assert(num * (WEIGHT_SCALE as nat) >= den) by (nonlinear_arith)
        requires
            num >= 1,
            den <= 0x1_0000_0000,
            WEIGHT_SCALE == 0x1_0000_0000,
    ;
    vstd::arithmetic::div_mod::lemma_div_is_ordered(
        den as int,
        (num * (WEIGHT_SCALE as nat)) as int,
        den as int,
    );
    vstd::arithmetic::div_mod::lemma_div_by_self(den as int);
    assert(num * (WEIGHT_SCALE as nat) <= MAX_ITEM_WEIGHT) by (nonlinear_arith)
        requires
            num <= 0x1_0000_0000,
            WEIGHT_SCALE == 0x1_0000_0000,
            MAX_ITEM_WEIGHT == 0x1_0000_0000_0000_0000,
    ;
    vstd::arithmetic::div_mod::lemma_div_nonincreasing(
        (num * (WEIGHT_SCALE as nat)) as int,
        den as int,
    );
}

/// An item weighs something exactly when it passes the filter.
pub proof fn lemma_one_weight_positive_iff(
    item: ItemView,
    s: Option<ScoreView>,
    f: Option<Seq<Seq<char>>>,
)
    ensures
        one_weight(item, s, f) > 0 <==> spec_passes(item.tags, f),
        one_weight(item, s, f) <= MAX_ITEM_WEIGHT,
{
    lemma_scaled_weight_bounds(s, word_key(item.word));
}

proof fn lemma_prefix_weight_bound(
    items: Seq<ItemView>,
    s: Option<ScoreView>,
    f: Option<Seq<Seq<char>>>,
    n: int,
)
    requires
        0 <= n <= items.len(),
    ensures
        prefix_weight(items, s, f, n) <= n * (MAX_ITEM_WEIGHT as nat),
    decreases n,
{
    if n > 0 {
        lemma_prefix_weight_bound(items, s, f, n - 1);
        lemma_one_weight_positive_iff(items[n - 1], s, f);
        assert((n - 1) * (MAX_ITEM_WEIGHT as nat) + MAX_ITEM_WEIGHT as nat == n * (
        MAX_ITEM_WEIGHT as nat)) by (nonlinear_arith);
    }
}

/// A store's total filtered weight is zero exactly when no item passes the
/// filter.
pub proof fn lemma_total_zero_iff_none_pass(
    items: Seq<ItemView>,
    s: Option<ScoreView>,
    f: Option<Seq<Seq<char>>>,
)
    ensures
        total_weight(items, s, f) == 0 <==> (forall|i: int|
            0 <= i < items.len() ==> !spec_passes(items[i].tags, f)),
{
    lemma_prefix_zero_iff_none_pass(items, s, f, items.len() as int);
}

proof fn lemma_prefix_zero_iff_none_pass(
    items: Seq<ItemView>,
    s: Option<ScoreView>,
    f: Option<Seq<Seq<char>>>,
    n: int,
)
    requires
        0 <= n <= items.len(),
    ensures
        prefix_weight(items, s, f, n) == 0 <==> (forall|i: int|
            0 <= i < n ==> !spec_passes(items[i].tags, f)),
    decreases n,
{
    if n > 0 {
        lemma_prefix_zero_iff_none_pass(items, s, f, n - 1);
        lemma_one_weight_positive_iff(items[n - 1], s, f);
    }
}

impl VocaList {
    /// The selection weight of one item under a ledger and a tag filter.
    fn exec_one_weight(
        item: &VocaItem,
        optscoredata: Option<&VocaScore>,
        filtertags: Option<&Vec<&str>>,
    ) -> (w: u128)
        ensures
            w as nat == one_weight(item@, score_opt_view(optscoredata), filter_view(filtertags)),
    {
        if item.filter(filtertags) {
            match optscoredata {
                None => {
                    proof {
                        vstd::arithmetic::div_mod::lemma_div_by_self(1);
                        assert(scaled_weight(None, word_key(item@.word)) == (WEIGHT_SCALE as nat)
                            / 1);
                    }
                    WEIGHT_SCALE
                },
                Some(sc) => {
                    let (num, den) = sc.score(item.id());
                    proof {
                        assert((num as nat) * (WEIGHT_SCALE as nat) <= MAX_ITEM_WEIGHT) by (
                        nonlinear_arith)
                            requires
                                num <= 0x1_0000_0000,
                                WEIGHT_SCALE == 0x1_0000_0000,
                                MAX_ITEM_WEIGHT == 0x1_0000_0000_0000_0000,
                        ;
                    }
                    (num as u128 * WEIGHT_SCALE) / (den as u128)
                },
            }
        } else {
            0
        }
    }

    /// The total weight of the store under a ledger and a tag filter.
    fn exec_total_weight(
        &self,
        optscoredata: Option<&VocaScore>,
        filtertags: Option<&Vec<&str>>,
    ) -> (t: u128)
        ensures
            t as nat == total_weight(self@, score_opt_view(optscoredata), filter_view(filtertags)),
    {
        let ghost s = score_opt_view(optscoredata);
        let ghost f = filter_view(filtertags);
        let mut acc: u128 = 0;
        let mut i: usize = 0;
        while i < self.items.len()
            invariant
                i <= self.items.len(),
                self@.len() == self.items.len(),
                s == score_opt_view(optscoredata),
                f == filter_view(filtertags),
                acc as nat == prefix_weight(self@, s, f, i as int),
            decreases self.items.len() - i,
        {
            let w = Self::exec_one_weight(&self.items[i], optscoredata, filtertags);
            proof {
                lemma_one_weight_positive_iff(self@[i as int], s, f);
                lemma_prefix_weight_bound(self@, s, f, i as int);
                assert((i as nat) * (MAX_ITEM_WEIGHT as nat) + MAX_ITEM_WEIGHT as nat <= (
                0xffff_ffff_ffff_ffff_ffff_ffff_ffff_ffffu128 as nat)) by (nonlinear_arith)
                    requires
                        0 <= i <= 0xffff_ffff_ffff_fffe,
                        MAX_ITEM_WEIGHT == 0x1_0000_0000_0000_0000,
                ;
            }
            acc = acc + w;
            i = i + 1;
        }
        acc
    }

    /// Select an item deterministically from a draw: reduce the draw below
    /// the total filtered weight and walk the store in order, returning the
    /// first item whose cumulative weight exceeds it. Fails exactly when no
    /// item passes the filter.
    pub fn pick_at(
        &self,
        optscoredata: Option<&VocaScore>,
        filtertags: Option<&Vec<&str>>,
        draw: u128,
    ) -> (r: Result<&VocaItem, SelectError>)
        ensures
            ({
                let s = score_opt_view(optscoredata);
                let f = filter_view(filtertags);
                match r {
                    Ok(item) => {
                        let idx = spec_pick_index(
                            self@,
                            s,
                            f,
                            (draw as nat) % total_weight(self@, s, f),
                        );
                        &&& total_weight(self@, s, f) > 0
                        &&& 0 <= idx < self@.len()
                        &&& *item == self.items@[idx]
                        &&& spec_passes(item@.tags, f)
                    },
                    Err(e) => e == SelectError::EmptyResult && total_weight(self@, s, f) == 0
                        && (forall|i: int|
                        0 <= i < self@.len() ==> !spec_passes(#[trigger] self@[i].tags, f)),
                }
            }),
    {
        let ghost s = score_opt_view(optscoredata);
        let ghost f = filter_view(filtertags);
        let total = self.exec_total_weight(optscoredata, filtertags);
        if total == 0 {
            proof {
                lemma_total_zero_iff_none_pass(self@, s, f);
            }
            return Err(SelectError::EmptyResult);
        }
        let mut rem: u128 = draw % total;
        let ghost gdraw = rem as nat;
        let mut i: usize = 0;
        while i < self.items.len()
            invariant
                0 <= i <= self.items.len(),
                self@.len() == self.items.len(),
                s == score_opt_view(optscoredata),
                f == filter_view(filtertags),
                total as nat == total_weight(self@, s, f),
                gdraw == (draw as nat) % total_weight(self@, s, f),
                gdraw < total as nat,
                rem as int == gdraw - prefix_weight(self@, s, f, i as int),
                spec_pick_from(self@, s, f, gdraw as int, 0) == spec_pick_from(
                    self@,
                    s,
                    f,
                    rem as int,
                    i as int,
                ),
            decreases self.items.len() - i,
        {
            let w = Self::exec_one_weight(&self.items[i], optscoredata, filtertags);
            if w > rem {
                proof {
                    lemma_one_weight_positive_iff(self@[i as int], s, f);
                    assert(spec_pick_from(self@, s, f, rem as int, i as int) == i);
                    assert(spec_pick_index(self@, s, f, gdraw) == i);
                    assert(gdraw == (draw as nat) % total_weight(self@, s, f));
                }
                return Ok(&self.items[i]);
            }
            rem = rem - w;
            i = i + 1;
        }
        proof {
            assert(prefix_weight(self@, s, f, i as int) == total_weight(self@, s, f));
            assert(false);
        }
        vstd::pervasive::unreached()
    }

    /// Select a weighted random item: draw a random value, reduce it below
    /// the total filtered weight, and walk the store in order. Fails exactly
    /// when no item passes the filter.
    pub fn pick(
        &self,
        optscoredata: Option<&VocaScore>,
        filtertags: Option<&Vec<&str>>,
    ) -> (r: Result<&VocaItem, SelectError>)
        ensures
            ({
                let s = score_opt_view(optscoredata);
                let f = filter_view(filtertags);
                match r {
                    Ok(item) => {
                        &&& total_weight(self@, s, f) > 0
                        &&& spec_passes(item@.tags, f)
                        &&& exists|d: nat|
                            {
                                let idx = #[trigger] spec_pick_index(self@, s, f, d);
                                d < total_weight(self@, s, f) && 0 <= idx < self@.len() && *item
                                    == self.items@[idx]
                            }
                    },
                    Err(e) => e == SelectError::EmptyResult && total_weight(self@, s, f) == 0
                        && (forall|i: int|
                        0 <= i < self@.len() ==> !spec_passes(#[trigger] self@[i].tags, f)),
                }
            }),
    {
        let draw = random_u128();
        let r = self.pick_at(optscoredata, filtertags, draw);
        proof {
            let s = score_opt_view(optscoredata);
            let f = filter_view(filtertags);
            if r is Ok {
                let d = (draw as nat) % total_weight(self@, s, f);
                let idx = spec_pick_index(self@, s, f, d);
                assert(d < total_weight(self@, s, f) && 0 <= idx < self@.len() && *r.unwrap()
                    == self.items@[idx]);
            }
        }
        r
    }
}

/// Whether the item at index `i` is a distractor candidate: it passes the
/// filter and its identity differs from the correct item's.
pub open spec fn spec_eligible(
    items: Seq<ItemView>,
    key: u128,
    f: Option<Seq<Seq<char>>>,
    i: int,
) -> bool {
    spec_passes(items[i].tags, f) && word_key(items[i].word) != key
}

/// The distinct identities of the candidates among the first `n` items.
pub open spec fn eligible_keys_upto(
    items: Seq<ItemView>,
    key: u128,
    f: Option<Seq<Seq<char>>>,
    n: int,
) -> Set<u128> {
    Set::new(
        |k: u128|
            exists|i: int|
                0 <= i < n && spec_eligible(items, key, f, i) && word_key(items[i].word) == k,
    )
}

/// The distinct identities of the whole distractor candidate pool.
pub open spec fn eligible_keys(items: Seq<ItemView>, key: u128, f: Option<Seq<Seq<char>>>) -> Set<
    u128,
> {
    eligible_keys_upto(items, key, f, items.len() as int)
}

/// Whether an item value occurs in the store as a distractor candidate.
pub open spec fn is_candidate(
    items: Seq<ItemView>,
    key: u128,
    f: Option<Seq<Seq<char>>>,
    it: ItemView,
) -> bool {
    exists|i: int| 0 <= i < items.len() && spec_eligible(items, key, f, i) && items[i] == it
}

impl VocaList {
    /// Produce `count` items for a multiple-choice round: the correct item at
    /// a randomly chosen position, every other slot filled by an unweighted
    /// draw from the items that pass the filter and are not the correct item
    /// (repeats are allowed). Fails exactly when that pool holds fewer than
    /// `count - 1` distinct identities, rather than drawing forever.
    pub fn distractors(
        &self,
        correctitem: &VocaItem,
        count: usize,
        filtertags: Option<&Vec<&str>>,
    ) -> (r: Result<(Vec<VocaItem>, usize), SelectError>)
        requires
            count >= 1,
        ensures
            ({
                let f = filter_view(filtertags);
                let key = word_key(correctitem@.word);
                match r {
                    Ok((options, pos)) => {
                        &&& eligible_keys(self@, key, f).len() >= count - 1
                        &&& options@.len() == count
                        &&& pos < count
                        &&& options@[pos as int]@ == correctitem@
                        &&& forall|m: int|
                            0 <= m < count && m != pos ==> is_candidate(
                                self@,
                                key,
                                f,
                                #[trigger] options@[m]@,
                            )
                    },
                    Err(e) => e == SelectError::InsufficientCandidates && eligible_keys(
                        self@,
                        key,
                        f,
                    ).len() < count - 1,
                }
            }),
    {
        let ghost f = filter_view(filtertags);
        let key = correctitem.id();
        let mut pool: Vec<usize> = Vec::new();
        let mut seen: HashSet<u128> = HashSet::new();
        let mut i: usize = 0;
        while i < self.items.len()
            invariant
                i <= self.items.len(),
                self@.len() == self.items.len(),
                f == filter_view(filtertags),
                key == word_key(correctitem@.word),
                seen@ == eligible_keys_upto(self@, key, f, i as int),
                seen@.finite(),
                seen@.len() <= pool@.len(),
                forall|m: int|
                    0 <= m < pool@.len() ==> pool@[m] < self@.len() && spec_eligible(
                        self@,
                        key,
                        f,
                        pool@[m] as int,
                    ),
            decreases self.items.len() - i,
        {
            let item = &self.items[i];
            let id = item.id();
            if item.filter(filtertags) && id != key {
                pool.push(i);
                seen.insert(id);
                proof {
                    assert(spec_eligible(self@, key, f, i as int));
                    assert(seen@ =~= eligible_keys_upto(self@, key, f, i as int + 1));
                }
            } else {
                proof {
                    assert(seen@ =~= eligible_keys_upto(self@, key, f, i as int + 1));
                }
            }
            i = i + 1;
        }
        proof {
            assert(seen@ =~= eligible_keys(self@, key, f));
        }
        if seen.len() < count - 1 {
            return Err(SelectError::InsufficientCandidates);
        }
        let pos_draw = random_u128();
        let pos = (pos_draw % (count as u128)) as usize;
        let mut options: Vec<VocaItem> = Vec::new();
        let mut j: usize = 0;
        while j < count
            invariant
                j <= count,
                pos < count,
                count >= 1,
                self@.len() == self.items.len(),
                f == filter_view(filtertags),
                key == word_key(correctitem@.word),
                options@.len() == j,
                pool@.len() >= count - 1,
                forall|m: int|
                    0 <= m < pool@.len() ==> pool@[m] < self@.len() && spec_eligible(
                        self@,
                        key,
                        f,
                        pool@[m] as int,
                    ),
                forall|m: int| 0 <= m < j && m == pos ==> #[trigger] options@[m]@ == correctitem@,
                forall|m: int|
                    0 <= m < j && m != pos ==> is_candidate(self@, key, f, #[trigger] options@[m]@),
            decreases count - j,
        {
            let ghost prev = options@;
            if j == pos {
                options.push(correctitem.clone());
            } else {
                let d = random_u128();
                let k = (d % (pool.len() as u128)) as usize;
                let idx = pool[k];
                options.push(self.items[idx].clone());
                proof {
                    assert(spec_eligible(self@, key, f, idx as int) && self@[idx as int]
                        == options@[j as int]@);
                    assert(is_candidate(self@, key, f, options@[j as int]@));
                }
            }
            proof {
                assert forall|m: int| 0 <= m < j + 1 && m != pos implies is_candidate(
                    self@,
                    key,
                    f,
                    #[trigger] options@[m]@,
                ) by {
                    if m < j {
                        assert(options@[m] == prev[m]);
                        assert(is_candidate(self@, key, f, prev[m]@));
                    }
                }
                assert forall|m: int| 0 <= m < j + 1 && m == pos implies #[trigger] options@[m]@
                    == correctitem@ by {
                    if m < j {
                        assert(options@[m] == prev[m]);
                    }
                }
            }
            j = j + 1;
        }
        Ok((options, pos))
    }
}

} // verus!
