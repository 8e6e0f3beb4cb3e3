//! The library's laws: general properties of the weight formula, of outcome
//! recording, of cache installation and of the sweep, each proved once and
//! for all inputs.

use vstd::prelude::*;

use crate::assoc::is_expired;
use crate::cache::{expired_set, spec_install_data, spec_install_score, spec_sweep, CacheView};
use crate::item::{spec_passes, ItemView};
use crate::list::VocaList;
use crate::score::{
    count_of, scaled_weight, spec_record, weight_den, weight_num, ScoreView, VocaScore,
    WEIGHT_SCALE,
};
use crate::select::one_weight;

verus! {

/// Law: every weight is strictly positive, whatever the ledger holds: the
/// exact rational is at least `1 / (u32::MAX + 1)` and even its scaled
/// integer form never rounds down to zero.
pub proof fn law_weight_positive(s: Option<ScoreView>, id: u128)
    ensures
        weight_num(s, id) >= 1,
        weight_den(s, id) >= 1,
        scaled_weight(s, id) >= 1,
{
    crate::select::lemma_scaled_weight_bounds(s, id);
}

/// Law: the weight is monotonically non-increasing in the correct count:
/// with the same incorrect count, more correct answers never raise the
/// weight, neither as the exact rational (compared by cross-multiplication)
/// nor in its scaled integer form.
pub proof fn law_weight_nonincreasing_in_correct(s1: ScoreView, s2: ScoreView, id: u128)
    requires
        count_of(s2.correct, id) >= count_of(s1.correct, id),
        count_of(s2.incorrect, id) == count_of(s1.incorrect, id),
    ensures
        weight_num(Some(s2), id) * weight_den(Some(s1), id) <= weight_num(Some(s1), id)
            * weight_den(Some(s2), id),
        scaled_weight(Some(s2), id) <= scaled_weight(Some(s1), id),
{
    let num = weight_num(Some(s1), id);
    let den1 = weight_den(Some(s1), id);
    let den2 = weight_den(Some(s2), id);
    assert(num * den1 <= num * den2) by (nonlinear_arith)
        requires
            den1 <= den2,
            num >= 0,
    ;
    vstd::arithmetic::div_mod::lemma_div_is_ordered_by_denominator(
        (num * (WEIGHT_SCALE as nat)) as int,
        den1 as int,
        den2 as int,
    );
}

/// Law: the weight is monotonically non-decreasing in the incorrect count:
/// with the same correct count, more incorrect answers never lower the
/// weight, neither as the exact rational nor in its scaled integer form.
pub proof fn law_weight_nondecreasing_in_incorrect(s1: ScoreView, s2: ScoreView, id: u128)
    requires
        count_of(s2.incorrect, id) >= count_of(s1.incorrect, id),
        count_of(s2.correct, id) == count_of(s1.correct, id),
    ensures
        weight_num(Some(s1), id) * weight_den(Some(s2), id) <= weight_num(Some(s2), id)
            * weight_den(Some(s1), id),
        scaled_weight(Some(s1), id) <= scaled_weight(Some(s2), id),
{
    let num1 = weight_num(Some(s1), id);
    let num2 = weight_num(Some(s2), id);
    let den = weight_den(Some(s1), id);
    assert(num1 * den <= num2 * den) by (nonlinear_arith)
        requires
            num1 <= num2,
            den >= 0,
    ;
    assert(num1 * (WEIGHT_SCALE as nat) <= num2 * (WEIGHT_SCALE as nat)) by (nonlinear_arith)
        requires
            num1 <= num2,
            WEIGHT_SCALE >= 0,
    ;
    vstd::arithmetic::div_mod::lemma_div_is_ordered(
        (num1 * (WEIGHT_SCALE as nat)) as int,
        (num2 * (WEIGHT_SCALE as nat)) as int,
        den as int,
    );
}

/// Law: recording a correct outcome for an item never raises that item's
/// weight, and recording an incorrect outcome never lowers it, whenever the
/// outcome is recorded and at whatever time.
pub proof fn law_outcome_moves_weight_the_right_way(s: ScoreView, id: u128, t: u64)
    ensures
        scaled_weight(Some(spec_record(s, id, true, t)), id) <= scaled_weight(Some(s), id),
        scaled_weight(Some(spec_record(s, id, false, t)), id) >= scaled_weight(Some(s), id),
{
    law_weight_nonincreasing_in_correct(s, spec_record(s, id, true, t), id);
    law_weight_nondecreasing_in_incorrect(s, spec_record(s, id, false, t), id);
}

/// Law: without a ledger every item that passes the filter carries one and
/// the same weight, so the draw over them is uniform; a filtered-out item
/// carries none.
pub proof fn law_uniform_weight_without_ledger(item: ItemView, f: Option<Seq<Seq<char>>>)
    ensures
        one_weight(item, None, f) == if spec_passes(item.tags, f) {
            WEIGHT_SCALE as nat
        } else {
            0
        },
{
    vstd::arithmetic::div_mod::lemma_div_by_self(1);
}

/// Law: recording outcomes is strictly additive. Recording a correct outcome
/// twice leaves the correct count exactly two higher, the incorrect counts
/// untouched, every other identity untouched, and the last-seen stamp at the
/// later time. (Recording is always safe to repeat; a counter at its
/// `u32::MAX` ceiling stops there, so exactness is stated below it.)
pub proof fn law_record_outcome_additive(s: ScoreView, id: u128, t1: u64, t2: u64)
    requires
        count_of(s.correct, id) + 2 <= u32::MAX,
    ensures
        ({
            let s2 = spec_record(spec_record(s, id, true, t1), id, true, t2);
            &&& count_of(s2.correct, id) == count_of(s.correct, id) + 2
            &&& s2.incorrect == s.incorrect
            &&& s2.lastseen == s.lastseen.insert(id, t2)
            &&& forall|id2: u128|
                id2 != id ==> count_of(#[trigger] s2.correct, id2) == count_of(s.correct, id2)
        }),
{
    let s1 = spec_record(s, id, true, t1);
    let s2 = spec_record(s1, id, true, t2);
    assert(s2.lastseen =~= s.lastseen.insert(id, t2));
    assert(forall|id2: u128|
        id2 != id ==> count_of(#[trigger] s2.correct, id2) == count_of(s.correct, id2));
}

/// Law: installing a dataset twice under one key leaves exactly the table
/// that the first install left: the key is present, it maps to the first
/// value installed, and the racing second loader changed no entry.
pub proof fn law_install_data_first_wins(
    c: CacheView,
    name: Seq<char>,
    l1: VocaList,
    l2: VocaList,
    t1: u64,
    t2: u64,
)
    ensures
        ({
            let c1 = spec_install_data(c, name, l1, t1);
            let c2 = spec_install_data(c1, name, l2, t2);
            &&& c1.data.contains_key(name)
            &&& c2.data == c1.data
            &&& c2.data[name] == (if c.data.contains_key(name) {
                c.data[name]
            } else {
                l1
            })
        }),
{
}

/// Law: the sweep evicts exactly the idle keys. A key whose last-used stamp
/// lies at least `threshold` before `now` is afterwards absent from the
/// value table and the stamp table alike; a key stamped more recently keeps
/// its value and its stamp.
pub proof fn law_sweep_evicts_exactly_idle(
    c: CacheView,
    now: u64,
    threshold: u64,
    k: Seq<char>,
)
    ensures
        ({
            let c2 = spec_sweep(c, now, threshold);
            &&& (c.data_lastused.contains_key(k) && is_expired(c.data_lastused[k], now, threshold)
                ==> !c2.data.contains_key(k) && !c2.data_lastused.contains_key(k))
            &&& (c.data.contains_key(k) && c.data_lastused.contains_key(k) && !is_expired(
                c.data_lastused[k],
                now,
                threshold,
            ) ==> c2.data.contains_key(k) && c2.data[k] == c.data[k]
                && c2.data_lastused[k] == c.data_lastused[k])
        }),
{
    assert(expired_set(c.data_lastused, now, threshold).contains(k) == (
    c.data_lastused.contains_key(k) && is_expired(c.data_lastused[k], now, threshold)));
}

/// Law: installing a session's score ledger twice under one key keeps the
/// first ledger, exactly as a dataset install does.
pub proof fn law_install_score_first_wins(
    c: CacheView,
    key: (Seq<char>, Seq<char>),
    g1: VocaScore,
    g2: VocaScore,
    t1: u64,
    t2: u64,
)
    ensures
        ({
            let c1 = spec_install_score(c, key, g1, t1);
            let c2 = spec_install_score(c1, key, g2, t2);
            &&& c1.scores.contains_key(key)
            &&& c2.scores == c1.scores
            &&& c2.scores[key] == (if c.scores.contains_key(key) {
                c.scores[key]
            } else {
                g1
            })
        }),
{
}

/// Law: the sweep treats the per-session ledgers exactly as it treats the
/// datasets: an idle session leaves both of its tables, a fresh one keeps
/// its ledger and its stamp.
pub proof fn law_sweep_evicts_exactly_idle_sessions(
    c: CacheView,
    now: u64,
    threshold: u64,
    k: (Seq<char>, Seq<char>),
)
    ensures
        ({
            let c2 = spec_sweep(c, now, threshold);
            &&& (c.scores_lastused.contains_key(k) && is_expired(
                c.scores_lastused[k],
                now,
                threshold,
            ) ==> !c2.scores.contains_key(k) && !c2.scores_lastused.contains_key(k))
            &&& (c.scores.contains_key(k) && c.scores_lastused.contains_key(k) && !is_expired(
                c.scores_lastused[k],
                now,
                threshold,
            ) ==> c2.scores.contains_key(k) && c2.scores[k] == c.scores[k]
                && c2.scores_lastused[k] == c.scores_lastused[k])
        }),
{
    assert(expired_set(c.scores_lastused, now, threshold).contains(k) == (
    c.scores_lastused.contains_key(k) && is_expired(c.scores_lastused[k], now, threshold)));
}

} // verus!
