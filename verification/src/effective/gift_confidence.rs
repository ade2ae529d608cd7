//! The Gift, Confidence, and the level budgets of enchanted devices and
//! supernatural powers.
use vstd::prelude::*;
use crate::catalog::{contains_str, find, has_str};
use crate::effective::{clamp_u32, effect_selections, fold_effects, fold_sels, selections_for_effects, step_fn, EffectStep};
use crate::entity::{EnchantedDevice, Entity, SupernaturalPower};
use crate::ruleset::{EntityTypeProfile, Ruleset};
use crate::text::str_eq;
use crate::types::{Effect, Selection, SelectionView};

verus! {

/// Whether one bought selection is the Gift under `profile`: the profile's
/// Gift item itself, or an item of one of its Gift categories.
pub open spec fn is_gift(rs: &Ruleset, profile: &EntityTypeProfile, s: Selection) -> bool {
    ||| (match profile.gift_id {
            Some(gid) => s.item_ref@ == gid@,
            None => false,
        })
    ||| (profile.gift_categories@.len() > 0 && match find(rs.point_items@, s.item_ref@) {
            Some(item) => contains_str(profile.gift_categories@, item.category@),
            None => false,
        })
}

/// Whether the entity holds the Gift, as its type profile defines it.
pub open spec fn has_gift_spec(entity: &Entity, rs: &Ruleset, profile: &EntityTypeProfile) -> bool {
    exists|i: int| 0 <= i < entity.selections@.len() && is_gift(rs, profile, #[trigger] entity.selections@[i])
}

/// Whether the entity's bought selections include the Gift: the profile's Gift
/// item, or (when the profile names Gift categories) any item of one of them.
pub fn has_the_gift(entity: &Entity, ruleset: &Ruleset, profile: &EntityTypeProfile) -> (r: bool)
    ensures
        r == has_gift_spec(entity, ruleset, profile),
{
    let mut i: usize = 0;
    while i < entity.selections.len()
        invariant
            i <= entity.selections@.len(),
            forall|j: int| 0 <= j < i ==> !is_gift(ruleset, profile, #[trigger] entity.selections@[j]),
        decreases entity.selections.len() - i,
    {
        let s = &entity.selections[i];
        let by_id = match &profile.gift_id {
            Some(gid) => str_eq(s.item_ref.as_str(), gid.as_str()),
            None => false,
        };
        let by_category = profile.gift_categories.len() > 0 && match ruleset.item(s.item_ref.as_str()) {
            Some(item) => has_str(&profile.gift_categories, item.category.as_str()),
            None => false,
        };
        if by_id || by_category {
            assert(is_gift(ruleset, profile, entity.selections@[i as int]));
            return true;
        }
        i += 1;
    }
    false
}

/// A Confidence Score and its Confidence Points.
#[derive(Debug, Clone, Copy, PartialEq, Eq)]
pub struct Confidence {
    pub score: u8,
    pub points: u8,
}

/// One step of the Confidence fold: a [`Effect::ConfidenceBonus`] adds to both
/// running totals.
pub open spec fn confidence_step(acc: (i64, i64), s: SelectionView, e: Effect) -> (i64, i64) {
    match e {
        Effect::ConfidenceBonus { score, points } => {
            (crate::effective::clamp_i64(acc.0 + score), crate::effective::clamp_i64(acc.1 + points))
        },
        _ => acc,
    }
}

/// Sums [`Effect::ConfidenceBonus`].
pub struct ConfidenceStep;

impl EffectStep<(i64, i64)> for ConfidenceStep {
    open spec fn step_spec(&self, acc: (i64, i64), s: SelectionView, e: Effect) -> (i64, i64) {
        confidence_step(acc, s, e)
    }

    fn step(&self, acc: (i64, i64), s: &Selection, e: &Effect) -> (r: (i64, i64)) {
        match e {
            Effect::ConfidenceBonus { score, points } => {
                (crate::effective::sat_add_i64(acc.0, *score as i64), crate::effective::sat_add_i64(acc.1, *points as i64))
            },
            _ => acc,
        }
    }
}

/// The running Confidence totals from the base score and points.
pub open spec fn confidence_totals(base_score: u8, base_points: u8, entity: &Entity, ruleset: &Ruleset) -> (i64, i64) {
    fold_sels((base_score as i64, base_points as i64), effect_selections(entity, ruleset), ruleset,
        |a: (i64, i64), s: SelectionView, e: Effect| confidence_step(a, s, e))
}

/// A total clamped into `0..=255`.
pub open spec fn clamp_byte(n: i64) -> u8 {
    crate::effective::clamp_u8(n as int)
}

fn clamp_to_byte(n: i64) -> (r: u8)
    ensures
        r == clamp_byte(n),
{
    if n < 0 { 0 } else if n > 255 { 255 } else { n as u8 }
}

/// The entity's Confidence: the type's base Score and Points adjusted by every
/// [`Effect::ConfidenceBonus`] (Self-Confident, Low Self-Esteem), each clamped
/// into `0..=255`.
pub fn confidence(base_score: u8, base_points: u8, entity: &Entity, ruleset: &Ruleset) -> (r: Confidence)
    ensures
        r.score == clamp_byte(confidence_totals(base_score, base_points, entity, ruleset).0),
        r.points == clamp_byte(confidence_totals(base_score, base_points, entity, ruleset).1),
{
    let sels = selections_for_effects(entity, ruleset);
    let step = ConfidenceStep;
    let totals = fold_effects(&sels, ruleset, (base_score as i64, base_points as i64), &step);
    proof {
        assert(step_fn(step) =~= (|a: (i64, i64), s: SelectionView, e: Effect| confidence_step(a, s, e)));
    }
    Confidence { score: clamp_to_byte(totals.0), points: clamp_to_byte(totals.1) }
}

/// One step of a `u32` budget fold reading [`Effect::ItemLevelBudget`]
/// (when `devices`) or [`Effect::PowerLevels`].
pub open spec fn budget_step(devices: bool, acc: u32, s: SelectionView, e: Effect) -> u32 {
    match e {
        Effect::ItemLevelBudget { amount } => if devices { crate::effective::clamp_u32(acc + amount) } else { acc },
        Effect::PowerLevels { amount } => if !devices { crate::effective::clamp_u32(acc + amount) } else { acc },
        _ => acc,
    }
}

/// [`budget_step`] as a fold function.
pub open spec fn budget_fn(devices: bool) -> spec_fn(u32, SelectionView, Effect) -> u32 {
    |a: u32, s: SelectionView, e: Effect| budget_step(devices, a, s, e)
}

/// Sums the device-level or power-level budget effects.
pub struct BudgetStep {
    pub devices: bool,
}

impl EffectStep<u32> for BudgetStep {
    open spec fn step_spec(&self, acc: u32, s: SelectionView, e: Effect) -> u32 {
        budget_step(self.devices, acc, s, e)
    }

    fn step(&self, acc: u32, s: &Selection, e: &Effect) -> (r: u32) {
        match e {
            Effect::ItemLevelBudget { amount } => if self.devices { acc.saturating_add(*amount as u32) } else { acc },
            Effect::PowerLevels { amount } => if !self.devices { acc.saturating_add(*amount as u32) } else { acc },
            _ => acc,
        }
    }
}

/// The budget fold over the entity's selections.
pub open spec fn budget_spec(entity: &Entity, ruleset: &Ruleset, devices: bool) -> u32 {
    fold_sels(0u32, effect_selections(entity, ruleset), ruleset, budget_fn(devices))
}

/// The enchanted-device levels the entity's Virtues allow (Enchanted Items).
pub fn item_level_budget(entity: &Entity, ruleset: &Ruleset) -> (r: u32)
    ensures
        r == budget_spec(entity, ruleset, true),
{
    let sels = selections_for_effects(entity, ruleset);
    let step = BudgetStep { devices: true };
    let r = fold_effects(&sels, ruleset, 0u32, &step);
    proof {
        assert(step_fn(step) =~= budget_fn(true));
    }
    r
}

/// The supernatural-power levels the entity's Virtues allow.
pub fn power_levels_budget(entity: &Entity, ruleset: &Ruleset) -> (r: u32)
    ensures
        r == budget_spec(entity, ruleset, false),
{
    let sels = selections_for_effects(entity, ruleset);
    let step = BudgetStep { devices: false };
    let r = fold_effects(&sels, ruleset, 0u32, &step);
    proof {
        assert(step_fn(step) =~= budget_fn(false));
    }
    r
}

/// The summed levels of the devices (saturating at `u32::MAX`).
pub open spec fn device_levels(ds: Seq<EnchantedDevice>) -> u32
    decreases ds.len(),
{
    if ds.len() == 0 { 0 } else { clamp_u32(device_levels(ds.drop_last()) + ds.last().level) }
}

/// The summed levels of the powers (saturating at `u32::MAX`).
pub open spec fn power_levels(ps: Seq<SupernaturalPower>) -> u32
    decreases ps.len(),
{
    if ps.len() == 0 { 0 } else { clamp_u32(power_levels(ps.drop_last()) + ps.last().level) }
}

/// The device levels the entity has spent: the sum of its devices' levels
/// (saturating at `u32::MAX`).
pub fn item_level_used(entity: &Entity) -> (r: u32)
    ensures
        r == device_levels(entity.devices@),
{
    let mut total: u32 = 0;
    let mut i: usize = 0;
    while i < entity.devices.len()
        invariant
            i <= entity.devices@.len(),
            total == device_levels(entity.devices@.take(i as int)),
        decreases entity.devices.len() - i,
    {
        proof {
            assert(entity.devices@.take(i + 1).drop_last() =~= entity.devices@.take(i as int));
        }
        total = total.saturating_add(entity.devices[i].level as u32);
        i += 1;
    }
    assert(entity.devices@.take(entity.devices.len() as int) =~= entity.devices@);
    total
}

/// The power levels the entity has spent: the sum of its powers' levels
/// (saturating at `u32::MAX`).
pub fn powers_used(entity: &Entity) -> (r: u32)
    ensures
        r == power_levels(entity.powers@),
{
    let mut total: u32 = 0;
    let mut i: usize = 0;
    while i < entity.powers.len()
        invariant
            i <= entity.powers@.len(),
            total == power_levels(entity.powers@.take(i as int)),
        decreases entity.powers.len() - i,
    {
        proof {
            assert(entity.powers@.take(i + 1).drop_last() =~= entity.powers@.take(i as int));
        }
        total = total.saturating_add(entity.powers[i].level as u32);
        i += 1;
    }
    assert(entity.powers@.take(entity.powers.len() as int) =~= entity.powers@);
    total
}

} // verus!
