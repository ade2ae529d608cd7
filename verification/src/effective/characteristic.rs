//! Characteristic scoring: the limits Virtues shift, the creation points they
//! grant, Size, flat score deltas, and the scores after aging.
use vstd::prelude::*;
use crate::catalog::{char_entry, char_get};
use crate::effective::{clamp_i32, effect_selections, fold_effects, fold_sels, sat_add_i32, selections_for_effects, step_fn, EffectStep};
use crate::effective::warping::{aging_drops, aging_drops_spec, bought_characteristic};
use crate::entity::Entity;
use crate::ruleset::Ruleset;
use crate::types::{all_characteristics, characteristic_from_id, characteristic_from_id_spec, lookup, Characteristic, Effect, Selection, SelectionView};

verus! {

// --- limits -----------------------------------------------------------------

/// One step of the limit-shift fold: a [`Effect::CharacteristicLimit`] in the
/// requested direction (raising when `raising`) aimed at `c` adds its amount.
pub open spec fn limit_step(c: Characteristic, raising: bool, acc: i32, s: SelectionView, e: Effect) -> i32 {
    match e {
        Effect::CharacteristicLimit { param, amount } => {
            if amount != 0 && (amount > 0) == raising {
                match lookup(s.params, param@) {
                    Some(target) => if characteristic_from_id_spec(target) == Some(c) { clamp_i32(acc + amount) } else { acc },
                    None => acc,
                }
            } else {
                acc
            }
        },
        _ => acc,
    }
}

/// [`limit_step`] as a fold function.
pub open spec fn limit_fn(c: Characteristic, raising: bool) -> spec_fn(i32, SelectionView, Effect) -> i32 {
    |a: i32, s: SelectionView, e: Effect| limit_step(c, raising, a, s, e)
}

/// Sums the limit shifts aimed at one Characteristic in one direction.
pub struct LimitShift {
    pub characteristic: Characteristic,
    pub raising: bool,
}

impl EffectStep<i32> for LimitShift {
    open spec fn step_spec(&self, acc: i32, s: SelectionView, e: Effect) -> i32 {
        limit_step(self.characteristic, self.raising, acc, s, e)
    }

    fn step(&self, acc: i32, s: &Selection, e: &Effect) -> (r: i32) {
        match e {
            Effect::CharacteristicLimit { param, amount } => {
                if *amount != 0 && (*amount > 0) == self.raising {
                    match s.param(param.as_str()) {
                        Some(target) => {
                            if characteristic_from_id(target.as_str()) == Some(self.characteristic) {
                                sat_add_i32(acc, *amount as i32)
                            } else {
                                acc
                            }
                        },
                        None => acc,
                    }
                } else {
                    acc
                }
            },
            _ => acc,
        }
    }
}

/// The summed limit shift on `c` in one direction (saturating).
pub open spec fn limit_shift_spec(entity: &Entity, ruleset: &Ruleset, c: Characteristic, raising: bool) -> i32 {
    fold_sels(0i32, effect_selections(entity, ruleset), ruleset, limit_fn(c, raising))
}

fn characteristic_limit_shift(entity: &Entity, ruleset: &Ruleset, c: Characteristic, raising: bool) -> (r: i32)
    ensures
        r == limit_shift_spec(entity, ruleset, c, raising),
{
    let sels = selections_for_effects(entity, ruleset);
    let step = LimitShift { characteristic: c, raising };
    let r = fold_effects(&sels, ruleset, 0i32, &step);
    proof {
        assert(step_fn(step) =~= limit_fn(c, raising));
    }
    r
}

/// The creation cap on `c`: the base maximum raised by the Virtues that lift
/// it, never above the effective maximum; 0 without Characteristic rules.
pub open spec fn cap_spec(entity: &Entity, ruleset: &Ruleset, c: Characteristic) -> i32 {
    match ruleset.characteristic_rules {
        None => 0,
        Some(rules) => {
            let raised = rules.base_max + limit_shift_spec(entity, ruleset, c, true);
            if raised < rules.effective_max { raised as i32 } else { rules.effective_max as i32 }
        },
    }
}

/// The creation floor on `c`: the base minimum lowered by the Flaws that sink
/// it, never below the effective minimum; 0 without Characteristic rules.
pub open spec fn floor_spec(entity: &Entity, ruleset: &Ruleset, c: Characteristic) -> i32 {
    match ruleset.characteristic_rules {
        None => 0,
        Some(rules) => {
            let lowered = rules.base_min + limit_shift_spec(entity, ruleset, c, false);
            if lowered > rules.effective_min { lowered as i32 } else { rules.effective_min as i32 }
        },
    }
}

/// A raising shift never goes below zero and a lowering one never above it.
proof fn lemma_limit_shift_sign(entity: &Entity, ruleset: &Ruleset, c: Characteristic)
    ensures
        limit_shift_spec(entity, ruleset, c, true) >= 0,
        limit_shift_spec(entity, ruleset, c, false) <= 0,
{
    let up = |a: i32| a >= 0;
    let down = |a: i32| a <= 0;
    assert forall|a: i32, x: SelectionView, e: Effect| up(a) implies #[trigger] up(limit_fn(c, true)(a, x, e)) by {}
    assert forall|a: i32, x: SelectionView, e: Effect| down(a) implies #[trigger] down(limit_fn(c, false)(a, x, e)) by {}
    crate::effective::lemma_fold_sels_keeps(0i32, effect_selections(entity, ruleset), ruleset, limit_fn(c, true), up);
    crate::effective::lemma_fold_sels_keeps(0i32, effect_selections(entity, ruleset), ruleset, limit_fn(c, false), down);
}

/// Limit shifts only widen the creation range: for rules whose base range
/// lies inside their effective range, the floor on every Characteristic lies
/// between the effective and the base minimum, and the cap between the base
/// and the effective maximum.
pub proof fn law_limit_shifts_only_widen_the_range(entity: &Entity, ruleset: &Ruleset, c: Characteristic)
    requires
        ruleset.characteristic_rules matches Some(rules) && rules.effective_min <= rules.base_min
            && rules.base_min <= rules.base_max && rules.base_max <= rules.effective_max,
    ensures
        ruleset.characteristic_rules matches Some(rules) && {
            &&& rules.effective_min <= floor_spec(entity, ruleset, c) <= rules.base_min
            &&& rules.base_max <= cap_spec(entity, ruleset, c) <= rules.effective_max
        },
{
    lemma_limit_shift_sign(entity, ruleset, c);
}

/// The highest score `c` may be bought at.
pub fn characteristic_cap(entity: &Entity, ruleset: &Ruleset, c: Characteristic) -> (r: i32)
    ensures
        r == cap_spec(entity, ruleset, c),
{
    match ruleset.characteristic_rules {
        None => 0,
        Some(rules) => {
            let shift = characteristic_limit_shift(entity, ruleset, c, true) as i64;
            let raised: i64 = rules.base_max as i64 + shift;
            if raised < rules.effective_max as i64 { raised as i32 } else { rules.effective_max as i32 }
        },
    }
}

/// The lowest score `c` may be bought at.
pub fn characteristic_floor(entity: &Entity, ruleset: &Ruleset, c: Characteristic) -> (r: i32)
    ensures
        r == floor_spec(entity, ruleset, c),
{
    match ruleset.characteristic_rules {
        None => 0,
        Some(rules) => {
            let shift = characteristic_limit_shift(entity, ruleset, c, false) as i64;
            let lowered: i64 = rules.base_min as i64 + shift;
            if lowered > rules.effective_min as i64 { lowered as i32 } else { rules.effective_min as i32 }
        },
    }
}

/// The caps of every Characteristic, in canonical order.
pub fn characteristic_caps(entity: &Entity, ruleset: &Ruleset) -> (r: Vec<(Characteristic, i32)>)
    ensures
        r@.len() == 8,
        forall|i: int| 0 <= i < 8 ==> #[trigger] r@[i] == (all_characteristics()[i], cap_spec(entity, ruleset, all_characteristics()[i])),
{
    let all = Characteristic::all();
    let mut out: Vec<(Characteristic, i32)> = Vec::new();
    let mut i: usize = 0;
    while i < all.len()
        invariant
            all@ == all_characteristics(),
            i <= all@.len(),
            out@.len() == i,
            forall|k: int| 0 <= k < i ==> #[trigger] out@[k] == (all_characteristics()[k], cap_spec(entity, ruleset, all_characteristics()[k])),
        decreases all.len() - i,
    {
        let c = all[i];
        out.push((c, characteristic_cap(entity, ruleset, c)));
        i += 1;
    }
    out
}

/// The floors of every Characteristic, in canonical order.
pub fn characteristic_floors(entity: &Entity, ruleset: &Ruleset) -> (r: Vec<(Characteristic, i32)>)
    ensures
        r@.len() == 8,
        forall|i: int| 0 <= i < 8 ==> #[trigger] r@[i] == (all_characteristics()[i], floor_spec(entity, ruleset, all_characteristics()[i])),
{
    let all = Characteristic::all();
    let mut out: Vec<(Characteristic, i32)> = Vec::new();
    let mut i: usize = 0;
    while i < all.len()
        invariant
            all@ == all_characteristics(),
            i <= all@.len(),
            out@.len() == i,
            forall|k: int| 0 <= k < i ==> #[trigger] out@[k] == (all_characteristics()[k], floor_spec(entity, ruleset, all_characteristics()[k])),
        decreases all.len() - i,
    {
        let c = all[i];
        out.push((c, characteristic_floor(entity, ruleset, c)));
        i += 1;
    }
    out
}

// --- points, Size, deltas ------------------------------------------------------

/// One step of the creation-points fold.
pub open spec fn points_step(acc: i32, s: SelectionView, e: Effect) -> i32 {
    match e {
        Effect::CharacteristicPoints { amount } => clamp_i32(acc + amount),
        _ => acc,
    }
}

/// Sums [`Effect::CharacteristicPoints`].
pub struct PointsStep;

impl EffectStep<i32> for PointsStep {
    open spec fn step_spec(&self, acc: i32, s: SelectionView, e: Effect) -> i32 {
        points_step(acc, s, e)
    }

    fn step(&self, acc: i32, s: &Selection, e: &Effect) -> (r: i32) {
        match e {
            Effect::CharacteristicPoints { amount } => sat_add_i32(acc, *amount as i32),
            _ => acc,
        }
    }
}

/// The extra creation points the entity's Virtues and Flaws grant.
pub open spec fn points_granted_spec(entity: &Entity, ruleset: &Ruleset) -> i32 {
    fold_sels(0i32, effect_selections(entity, ruleset), ruleset, |a: i32, s: SelectionView, e: Effect| points_step(a, s, e))
}

/// The extra Characteristic creation points granted (saturating).
pub fn characteristic_points_granted(entity: &Entity, ruleset: &Ruleset) -> (r: i32)
    ensures
        r == points_granted_spec(entity, ruleset),
{
    let sels = selections_for_effects(entity, ruleset);
    let step = PointsStep;
    let r = fold_effects(&sels, ruleset, 0i32, &step);
    proof {
        assert(step_fn(step) =~= (|a: i32, s: SelectionView, e: Effect| points_step(a, s, e)));
    }
    r
}

/// One step of the Size fold.
pub open spec fn size_step(acc: i32, s: SelectionView, e: Effect) -> i32 {
    match e {
        Effect::SizeDelta { amount } => clamp_i32(acc + amount),
        _ => acc,
    }
}

/// Sums [`Effect::SizeDelta`].
pub struct SizeStep;

impl EffectStep<i32> for SizeStep {
    open spec fn step_spec(&self, acc: i32, s: SelectionView, e: Effect) -> i32 {
        size_step(acc, s, e)
    }

    fn step(&self, acc: i32, s: &Selection, e: &Effect) -> (r: i32) {
        match e {
            Effect::SizeDelta { amount } => sat_add_i32(acc, *amount as i32),
            _ => acc,
        }
    }
}

/// The entity's Size: 0 for a human, shifted by Giant Blood and the like.
pub open spec fn size_spec(entity: &Entity, ruleset: &Ruleset) -> i32 {
    fold_sels(0i32, effect_selections(entity, ruleset), ruleset, |a: i32, s: SelectionView, e: Effect| size_step(a, s, e))
}

/// The entity's Size (saturating sum of its Size deltas).
pub fn size(entity: &Entity, ruleset: &Ruleset) -> (r: i32)
    ensures
        r == size_spec(entity, ruleset),
{
    let sels = selections_for_effects(entity, ruleset);
    let step = SizeStep;
    let r = fold_effects(&sels, ruleset, 0i32, &step);
    proof {
        assert(step_fn(step) =~= (|a: i32, s: SelectionView, e: Effect| size_step(a, s, e)));
    }
    r
}

/// One step of the score-delta fold for `c`.
pub open spec fn delta_step(c: Characteristic, acc: i32, s: SelectionView, e: Effect) -> i32 {
    match e {
        Effect::CharacteristicScoreDelta { characteristic, amount } => {
            if characteristic_from_id_spec(characteristic@) == Some(c) { clamp_i32(acc + amount) } else { acc }
        },
        _ => acc,
    }
}

/// [`delta_step`] as a fold function.
pub open spec fn delta_fn(c: Characteristic) -> spec_fn(i32, SelectionView, Effect) -> i32 {
    |a: i32, s: SelectionView, e: Effect| delta_step(c, a, s, e)
}

/// Sums the score deltas aimed at one Characteristic.
pub struct DeltaStep {
    pub characteristic: Characteristic,
}

impl EffectStep<i32> for DeltaStep {
    open spec fn step_spec(&self, acc: i32, s: SelectionView, e: Effect) -> i32 {
        delta_step(self.characteristic, acc, s, e)
    }

    fn step(&self, acc: i32, s: &Selection, e: &Effect) -> (r: i32) {
        match e {
            Effect::CharacteristicScoreDelta { characteristic, amount } => {
                if characteristic_from_id(characteristic.as_str()) == Some(self.characteristic) {
                    sat_add_i32(acc, *amount as i32)
                } else {
                    acc
                }
            },
            _ => acc,
        }
    }
}

/// The summed flat score deltas on `c` (Giant Blood +1 Strength).
pub open spec fn score_bonus_spec(entity: &Entity, ruleset: &Ruleset, c: Characteristic) -> i32 {
    fold_sels(0i32, effect_selections(entity, ruleset), ruleset, delta_fn(c))
}

/// The flat score delta the entity's Virtues apply to `c` (saturating).
pub fn characteristic_score_bonus(entity: &Entity, ruleset: &Ruleset, c: Characteristic) -> (r: i32)
    ensures
        r == score_bonus_spec(entity, ruleset, c),
{
    let sels = selections_for_effects(entity, ruleset);
    let step = DeltaStep { characteristic: c };
    let r = fold_effects(&sels, ruleset, 0i32, &step);
    proof {
        assert(step_fn(step) =~= delta_fn(c));
    }
    r
}

fn bought_score(entity: &Entity, c: Characteristic) -> (r: i32)
    ensures
        r == bought_characteristic(entity, c),
        -128 <= r <= 127,
{
    match char_get(&entity.characteristics, c) {
        Some(v) => v as i32,
        None => 0,
    }
}

/// The bought score of `c` plus its flat deltas, before aging.
pub open spec fn effective_char_spec(entity: &Entity, ruleset: &Ruleset, c: Characteristic) -> i32 {
    clamp_i32(bought_characteristic(entity, c) + score_bonus_spec(entity, ruleset, c))
}

/// The effective score of `c`: bought plus flat deltas (saturating).
pub fn effective_characteristic_score(entity: &Entity, ruleset: &Ruleset, c: Characteristic) -> (r: i32)
    ensures
        r == effective_char_spec(entity, ruleset, c),
{
    sat_add_i32(bought_score(entity, c), characteristic_score_bonus(entity, ruleset, c))
}

/// A non-zero flat delta on one Characteristic.
#[derive(Debug, Clone, Copy, PartialEq, Eq)]
pub struct CharacteristicBonus {
    pub characteristic: Characteristic,
    pub bonus: i32,
}

/// The Characteristics among the first `n` of the canonical order that `keep`
/// selects, in that order.
pub open spec fn kept_characteristics(keep: spec_fn(Characteristic) -> bool, n: int) -> Seq<Characteristic>
    decreases n,
{
    if n <= 0 {
        Seq::empty()
    } else {
        let before = kept_characteristics(keep, n - 1);
        if keep(all_characteristics()[n - 1]) { before.push(all_characteristics()[n - 1]) } else { before }
    }
}

/// Whether a Characteristic carries a non-zero flat delta.
pub open spec fn has_delta(entity: &Entity, ruleset: &Ruleset) -> spec_fn(Characteristic) -> bool {
    |c: Characteristic| score_bonus_spec(entity, ruleset, c) != 0
}

/// Every Characteristic with a non-zero flat delta, in canonical order.
pub fn characteristic_bonuses(entity: &Entity, ruleset: &Ruleset) -> (r: Vec<CharacteristicBonus>)
    ensures
        r@.len() == kept_characteristics(has_delta(entity, ruleset), 8).len(),
        forall|k: int| 0 <= k < r@.len() ==> {
            let c = #[trigger] kept_characteristics(has_delta(entity, ruleset), 8)[k];
            r@[k].characteristic == c && r@[k].bonus == score_bonus_spec(entity, ruleset, c)
        },
{
    let ghost keep = has_delta(entity, ruleset);
    let all = Characteristic::all();
    let mut out: Vec<CharacteristicBonus> = Vec::new();
    let mut i: usize = 0;
    while i < all.len()
        invariant
            all@ == all_characteristics(),
            i <= all@.len(),
            keep == (has_delta(entity, ruleset)),
            out@.len() == kept_characteristics(keep, i as int).len(),
            forall|k: int| 0 <= k < out@.len() ==> {
                let c = #[trigger] kept_characteristics(keep, i as int)[k];
                out@[k].characteristic == c && out@[k].bonus == score_bonus_spec(entity, ruleset, c)
            },
        decreases all.len() - i,
    {
        let c = all[i];
        let bonus = characteristic_score_bonus(entity, ruleset, c);
        if bonus != 0 {
            out.push(CharacteristicBonus { characteristic: c, bonus });
        }
        i += 1;
        proof {
            assert forall|k: int| 0 <= k < out@.len() implies {
                let c = #[trigger] kept_characteristics(keep, i as int)[k];
                out@[k].characteristic == c && out@[k].bonus == score_bonus_spec(entity, ruleset, c)
            } by {
                if k < kept_characteristics(keep, i - 1).len() {
                    assert(kept_characteristics(keep, i as int)[k] == kept_characteristics(keep, i - 1)[k]);
                }
            }
        }
    }
    out
}

// --- aging ----------------------------------------------------------------------

/// The score of `c` after aging: the bought score less its aging drops (never
/// below the effective minimum, when the rules set one), plus its flat deltas.
pub open spec fn after_aging_spec(entity: &Entity, ruleset: &Ruleset, c: Characteristic) -> i32 {
    let dropped = bought_characteristic(entity, c) - aging_drops_spec(entity, ruleset, c);
    let aged = match ruleset.characteristic_rules {
        Some(rules) => if dropped > rules.effective_min { dropped } else { rules.effective_min as int },
        None => dropped,
    };
    clamp_i32(aged + score_bonus_spec(entity, ruleset, c))
}

/// Aging only ever lowers a Characteristic, and never below the rules'
/// effective minimum: for a bought score at or above that minimum, the aged
/// score (deltas included) lies between the minimum plus the deltas and the
/// unaged effective score, and equals the unaged score while no drop is owed.
pub proof fn law_aging_only_lowers(entity: &Entity, ruleset: &Ruleset, c: Characteristic)
    requires
        ruleset.characteristic_rules matches Some(rules) && bought_characteristic(entity, c) >= rules.effective_min,
    ensures
        ruleset.characteristic_rules matches Some(rules) && {
            &&& clamp_i32(rules.effective_min + score_bonus_spec(entity, ruleset, c)) <= after_aging_spec(entity, ruleset, c)
            &&& after_aging_spec(entity, ruleset, c) <= effective_char_spec(entity, ruleset, c)
            &&& aging_drops_spec(entity, ruleset, c) == 0 ==> after_aging_spec(entity, ruleset, c) == effective_char_spec(entity, ruleset, c)
        },
{
}

/// The score every derived total reads: the aged score plus the flat deltas.
pub fn effective_characteristic_after_aging(entity: &Entity, ruleset: &Ruleset, c: Characteristic) -> (r: i32)
    ensures
        r == after_aging_spec(entity, ruleset, c),
{
    let bought = bought_score(entity, c) as i64;
    let drops = aging_drops(entity, ruleset, c) as i64;
    let dropped: i64 = bought - drops;
    let aged: i64 = match ruleset.characteristic_rules {
        Some(rules) => if dropped > rules.effective_min as i64 { dropped } else { rules.effective_min as i64 },
        None => dropped,
    };
    let sum: i64 = aged + characteristic_score_bonus(entity, ruleset, c) as i64;
    if sum > i32::MAX as i64 {
        i32::MAX
    } else if sum < i32::MIN as i64 {
        i32::MIN
    } else {
        sum as i32
    }
}

/// Whether aging or a delta moves `c` away from its bought score.
pub open spec fn moved(entity: &Entity, ruleset: &Ruleset, c: Characteristic) -> bool {
    after_aging_spec(entity, ruleset, c) != bought_characteristic(entity, c)
}

/// [`moved`] as a predicate.
pub open spec fn moved_fn(entity: &Entity, ruleset: &Ruleset) -> spec_fn(Characteristic) -> bool {
    |c: Characteristic| moved(entity, ruleset, c)
}

/// Whether aging has dropped a Characteristic.
pub open spec fn has_drops(entity: &Entity, ruleset: &Ruleset) -> spec_fn(Characteristic) -> bool {
    |c: Characteristic| aging_drops_spec(entity, ruleset, c) != 0
}

/// Every Characteristic whose aged effective score differs from the bought
/// one, with that score, in canonical order.
pub fn effective_characteristics(entity: &Entity, ruleset: &Ruleset) -> (r: Vec<(Characteristic, i32)>)
    ensures
        r@.len() == kept_characteristics(moved_fn(entity, ruleset), 8).len(),
        forall|k: int| 0 <= k < r@.len() ==> {
            let c = #[trigger] kept_characteristics(moved_fn(entity, ruleset), 8)[k];
            r@[k] == (c, after_aging_spec(entity, ruleset, c))
        },
{
    let ghost keep = moved_fn(entity, ruleset);
    let all = Characteristic::all();
    let mut out: Vec<(Characteristic, i32)> = Vec::new();
    let mut i: usize = 0;
    while i < all.len()
        invariant
            all@ == all_characteristics(),
            i <= all@.len(),
            keep == (moved_fn(entity, ruleset)),
            out@.len() == kept_characteristics(keep, i as int).len(),
            forall|k: int| 0 <= k < out@.len() ==> {
                let c = #[trigger] kept_characteristics(keep, i as int)[k];
                out@[k] == (c, after_aging_spec(entity, ruleset, c))
            },
        decreases all.len() - i,
    {
        let c = all[i];
        let bought = bought_score(entity, c);
        let effective = effective_characteristic_after_aging(entity, ruleset, c);
        if effective != bought {
            out.push((c, effective));
        }
        i += 1;
        proof {
            assert forall|k: int| 0 <= k < out@.len() implies {
                let c = #[trigger] kept_characteristics(keep, i as int)[k];
                out@[k] == (c, after_aging_spec(entity, ruleset, c))
            } by {
                if k < kept_characteristics(keep, i - 1).len() {
                    assert(kept_characteristics(keep, i as int)[k] == kept_characteristics(keep, i - 1)[k]);
                }
            }
        }
    }
    out
}

/// Every Characteristic that aging has dropped, with its number of drops, in
/// canonical order.
pub fn characteristic_aging_drops(entity: &Entity, ruleset: &Ruleset) -> (r: Vec<(Characteristic, u32)>)
    ensures
        r@.len() == kept_characteristics(has_drops(entity, ruleset), 8).len(),
        forall|k: int| 0 <= k < r@.len() ==> {
            let c = #[trigger] kept_characteristics(has_drops(entity, ruleset), 8)[k];
            r@[k].0 == c && r@[k].1 == aging_drops_spec(entity, ruleset, c)
        },
{
    let ghost keep = has_drops(entity, ruleset);
    let all = Characteristic::all();
    let mut out: Vec<(Characteristic, u32)> = Vec::new();
    let mut i: usize = 0;
    while i < all.len()
        invariant
            all@ == all_characteristics(),
            i <= all@.len(),
            keep == (has_drops(entity, ruleset)),
            out@.len() == kept_characteristics(keep, i as int).len(),
            forall|k: int| 0 <= k < out@.len() ==> {
                let c = #[trigger] kept_characteristics(keep, i as int)[k];
                out@[k].0 == c && out@[k].1 == aging_drops_spec(entity, ruleset, c)
            },
        decreases all.len() - i,
    {
        let c = all[i];
        let drops = aging_drops(entity, ruleset, c);
        if drops != 0 {
            out.push((c, drops));
        }
        i += 1;
        proof {
            assert forall|k: int| 0 <= k < out@.len() implies {
                let c = #[trigger] kept_characteristics(keep, i as int)[k];
                out@[k].0 == c && out@[k].1 == aging_drops_spec(entity, ruleset, c)
            } by {
                if k < kept_characteristics(keep, i - 1).len() {
                    assert(kept_characteristics(keep, i as int)[k] == kept_characteristics(keep, i - 1)[k]);
                }
            }
        }
    }
    out
}

} // verus!
