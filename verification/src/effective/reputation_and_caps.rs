//! Reputations granted by Virtues, the free Supernatural Ability slot, and
//! the age caps on Ability scores.
use vstd::prelude::*;
use crate::catalog::find;
use crate::effective::ability::{ability_score_floors, floors_spec};
use crate::effective::gift_confidence::{has_gift_spec, has_the_gift};
use crate::effective::{effect_selections, fold_effects, fold_effects_mut, fold_sels, selections_for_effects, step_fn, view_step_fn, EffectStep, EffectStepMut};
use crate::entity::{AbilityScore, Entity};
use crate::ruleset::{AgeAbilityCap, EntityTypeProfile, Ruleset};
use crate::text::str_eq;
use crate::types::{AbilityCategory, Effect, ReputationType, Selection, SelectionView};

verus! {

/// A starting Reputation a Virtue grants.
#[derive(Debug, Clone, Copy, PartialEq, Eq, Structural)]
pub struct ReputationGrant {
    pub reputation_type: Option<ReputationType>,
    pub score: u8,
}

/// One step of the reputation fold: each [`Effect::GrantsReputation`] is
/// recorded in order.
pub open spec fn reputation_step(acc: Seq<ReputationGrant>, s: SelectionView, e: Effect) -> Seq<ReputationGrant> {
    match e {
        Effect::GrantsReputation { kind, score } => acc.push(ReputationGrant { reputation_type: kind, score }),
        _ => acc,
    }
}

/// Collects the reputation grants.
pub struct ReputationStep;

impl EffectStepMut<Vec<ReputationGrant>> for ReputationStep {
    open spec fn step_view(&self, acc: Seq<ReputationGrant>, s: SelectionView, e: Effect) -> Seq<ReputationGrant> {
        reputation_step(acc, s, e)
    }

    fn step_mut(&self, acc: &mut Vec<ReputationGrant>, s: &Selection, e: &Effect) {
        match e {
            Effect::GrantsReputation { kind, score } => acc.push(ReputationGrant { reputation_type: *kind, score: *score }),
            _ => {},
        }
    }
}

/// The Reputations the entity's Virtues grant, in selection order.
pub open spec fn reputation_grants_spec(entity: &Entity, ruleset: &Ruleset) -> Seq<ReputationGrant> {
    fold_sels(Seq::empty(), effect_selections(entity, ruleset), ruleset, |a: Seq<ReputationGrant>, s: SelectionView, e: Effect| reputation_step(a, s, e))
}

/// Every Reputation the entity's Virtues grant.
pub fn reputation_grants(entity: &Entity, ruleset: &Ruleset) -> (r: Vec<ReputationGrant>)
    ensures
        r@ == reputation_grants_spec(entity, ruleset),
{
    let sels = selections_for_effects(entity, ruleset);
    let mut out: Vec<ReputationGrant> = Vec::new();
    let step = ReputationStep;
    fold_effects_mut(&sels, ruleset, &mut out, &step);
    proof {
        assert(view_step_fn::<Vec<ReputationGrant>, ReputationStep>(step) =~= (|a: Seq<ReputationGrant>, s: SelectionView, e: Effect| reputation_step(a, s, e)));
    }
    out
}

/// The free Supernatural Ability slot of a Gifted non-magus, and how many
/// Supernatural Abilities the entity bought without a Virtue granting them.
#[derive(Debug, Clone, Copy, PartialEq, Eq)]
pub struct SupernaturalFreeSlots {
    pub total: u8,
    pub used: u8,
}

/// Whether a bought row is a Supernatural Ability no Virtue grants.
pub open spec fn unseeded_supernatural(entity: &Entity, ruleset: &Ruleset, row: AbilityScore) -> bool {
    &&& (match find(ruleset.abilities@, row.ability@) {
        Some(def) => def.category == AbilityCategory::Supernatural,
        None => false,
    })
    &&& !(exists|k: int| 0 <= k < floors_spec(entity, ruleset).len() && #[trigger] floors_spec(entity, ruleset)[k].0 == row.ability@)
}

/// How many of the first rows are unseeded Supernatural Abilities.
pub open spec fn unseeded_count(entity: &Entity, ruleset: &Ruleset, rows: Seq<AbilityScore>) -> nat
    decreases rows.len(),
{
    if rows.len() == 0 {
        0
    } else {
        unseeded_count(entity, ruleset, rows.drop_last()) + if unseeded_supernatural(entity, ruleset, rows.last()) { 1nat } else { 0nat }
    }
}

proof fn lemma_unseeded_bound(entity: &Entity, ruleset: &Ruleset, rows: Seq<AbilityScore>)
    ensures
        unseeded_count(entity, ruleset, rows) <= rows.len(),
    decreases rows.len(),
{
    if rows.len() > 0 {
        lemma_unseeded_bound(entity, ruleset, rows.drop_last());
    }
}

/// The free Supernatural slot (one for a Gifted companion or grog, none for
/// a magus or the ungifted) and the Supernatural Abilities bought without a
/// granting Virtue (capped at 255).
pub fn supernatural_free_slots(entity: &Entity, ruleset: &Ruleset, profile: &EntityTypeProfile) -> (r: SupernaturalFreeSlots)
    ensures
        r.total == (if has_gift_spec(entity, ruleset, profile) && !profile.is_magus { 1u8 } else { 0u8 }),
        r.used == crate::effective::clamp_u8(unseeded_count(entity, ruleset, entity.ability_scores@) as int),
{
    let total: u8 = if has_the_gift(entity, ruleset, profile) && !profile.is_magus { 1 } else { 0 };
    let floors = ability_score_floors(entity, ruleset);
    let ghost fv = floors@.map_values(|f: crate::effective::ability::AbilityFloor| (f.ability@, f.floor));
    let mut used: usize = 0;
    let mut i: usize = 0;
    while i < entity.ability_scores.len()
        invariant
            i <= entity.ability_scores@.len(),
            fv == floors_spec(entity, ruleset),
            fv == floors@.map_values(|f: crate::effective::ability::AbilityFloor| (f.ability@, f.floor)),
            used == unseeded_count(entity, ruleset, entity.ability_scores@.take(i as int)),
            used <= i,
        decreases entity.ability_scores.len() - i,
    {
        proof {
            assert(entity.ability_scores@.take(i + 1).drop_last() =~= entity.ability_scores@.take(i as int));
        }
        let row = &entity.ability_scores[i];
        let supernatural = match ruleset.ability(row.ability.as_str()) {
            Some(def) => def.category == AbilityCategory::Supernatural,
            None => false,
        };
        let mut covered = false;
        let mut k: usize = 0;
        while k < floors.len()
            invariant
                k <= floors@.len(),
                fv == floors@.map_values(|f: crate::effective::ability::AbilityFloor| (f.ability@, f.floor)),
                covered == exists|j: int| 0 <= j < k && #[trigger] fv[j].0 == row.ability@,
            decreases floors.len() - k,
        {
            proof {
                assert(fv[k as int].0 == floors@[k as int].ability@);
            }
            if str_eq(floors[k].ability.as_str(), row.ability.as_str()) {
                covered = true;
            }
            k += 1;
        }
        if supernatural && !covered {
            used += 1;
        }
        i += 1;
    }
    assert(entity.ability_scores@.take(entity.ability_scores.len() as int) =~= entity.ability_scores@);
    SupernaturalFreeSlots { total, used: if used > 255 { 255 } else { used as u8 } }
}

/// The highest Ability score the age caps allow at `age`: the first cap (in
/// table order) that reaches `age`, or that has no upper age; `None` when no
/// cap applies.
pub open spec fn age_cap_spec(caps: Seq<AgeAbilityCap>, age: u32) -> Option<u8>
    decreases caps.len(),
{
    if caps.len() == 0 {
        None
    } else {
        match caps[0].up_to_age {
            None => Some(caps[0].max_score),
            Some(limit) => if age <= limit { Some(caps[0].max_score) } else { age_cap_spec(caps.drop_first(), age) },
        }
    }
}

/// The highest Ability score a character of `age` may start with.
pub fn age_max_ability_score(ruleset: &Ruleset, age: u32) -> (r: Option<u8>)
    ensures
        r == age_cap_spec(ruleset.age_ability_caps@, age),
{
    let caps = &ruleset.age_ability_caps;
    let mut i: usize = 0;
    proof {
        assert(caps@.skip(0) =~= caps@);
    }
    while i < caps.len()
        invariant
            i <= caps@.len(),
            caps@ == ruleset.age_ability_caps@,
            age_cap_spec(caps@, age) == age_cap_spec(caps@.skip(i as int), age),
        decreases caps.len() - i,
    {
        proof {
            assert(caps@.skip(i as int)[0] == caps@[i as int]);
            assert(caps@.skip(i as int).drop_first() =~= caps@.skip(i + 1));
        }
        let cap = caps[i];
        proof {
            assert(age_cap_spec(caps@.skip(i as int), age) == match cap.up_to_age {
                None => Some(cap.max_score),
                Some(limit) => if age <= limit { Some(cap.max_score) } else { age_cap_spec(caps@.skip(i + 1), age) },
            });
        }
        match cap.up_to_age {
            None => return Some(cap.max_score),
            Some(limit) => {
                if age <= limit {
                    return Some(cap.max_score);
                }
            },
        }
        i += 1;
    }
    proof {
        assert(caps@.skip(i as int) =~= Seq::<AgeAbilityCap>::empty());
    }
    None
}

/// The age cap of the entity, when its age is known.
pub open spec fn entity_age_cap_spec(entity: &Entity, ruleset: &Ruleset) -> Option<u8> {
    match entity.age {
        Some(age) => age_cap_spec(ruleset.age_ability_caps@, age),
        None => None,
    }
}

/// The highest score the entity's age allows any Ability.
pub fn age_ability_cap(entity: &Entity, ruleset: &Ruleset) -> (r: Option<u8>)
    ensures
        r == entity_age_cap_spec(entity, ruleset),
{
    match entity.age {
        Some(age) => age_max_ability_score(ruleset, age),
        None => None,
    }
}

/// `ceil(base * num / den)` when it fits a byte, else `base`.
pub open spec fn fractioned(base: u8, num: u8, den: u8) -> u8 {
    let q = (base * num + den - 1) / (den as int);
    if q <= 255 { q as u8 } else { base }
}

/// One step of the locality fold: a [`Effect::LocalityAbilityCapFraction`]
/// with a non-zero denominator lowers the cap to its fraction of the base.
pub open spec fn locality_step(base: u8, acc: u8, s: SelectionView, e: Effect) -> u8 {
    match e {
        Effect::LocalityAbilityCapFraction { num, den } => {
            if den > 0 {
                let f = fractioned(base, num, den);
                if f < acc { f } else { acc }
            } else {
                acc
            }
        },
        _ => acc,
    }
}

/// Lowers a locality-dependent cap.
pub struct LocalityStep {
    pub base: u8,
}

impl EffectStep<u8> for LocalityStep {
    open spec fn step_spec(&self, acc: u8, s: SelectionView, e: Effect) -> u8 {
        locality_step(self.base, acc, s, e)
    }

    fn step(&self, acc: u8, s: &Selection, e: &Effect) -> (r: u8) {
        match e {
            Effect::LocalityAbilityCapFraction { num, den } => {
                if *den > 0 {
                    assert(self.base as int * *num as int <= 255 * 255) by (nonlinear_arith)
                        requires
                            self.base <= 255u8,
                            *num <= 255u8,
                    ;
                    let numerator: u32 = self.base as u32 * *num as u32 + *den as u32 - 1;
                    let q = numerator / (*den as u32);
                    let f: u8 = if q <= 255 { q as u8 } else { self.base };
                    if f < acc { f } else { acc }
                } else {
                    acc
                }
            },
            _ => acc,
        }
    }
}

/// The age cap of one Ability: the entity's age cap, lowered for a
/// locality-dependent Ability by the fractions its Virtues and Flaws apply.
pub open spec fn ability_age_cap_spec(entity: &Entity, ruleset: &Ruleset, ability: Seq<char>) -> Option<u8> {
    match entity_age_cap_spec(entity, ruleset) {
        None => None,
        Some(base) => {
            let local = match find(ruleset.abilities@, ability) {
                Some(def) => def.locality_dependent,
                None => false,
            };
            if !local {
                Some(base)
            } else {
                Some(fold_sels(base, effect_selections(entity, ruleset), ruleset, |a: u8, s: SelectionView, e: Effect| locality_step(base, a, s, e)))
            }
        },
    }
}

/// The age cap of one Ability for the entity.
pub fn ability_age_cap(entity: &Entity, ruleset: &Ruleset, ability: &str) -> (r: Option<u8>)
    ensures
        r == ability_age_cap_spec(entity, ruleset, ability@),
{
    let base = match age_ability_cap(entity, ruleset) {
        Some(b) => b,
        None => return None,
    };
    let local = match ruleset.ability(ability) {
        Some(def) => def.locality_dependent,
        None => false,
    };
    if !local {
        return Some(base);
    }
    let sels = selections_for_effects(entity, ruleset);
    let step = LocalityStep { base };
    let r = fold_effects(&sels, ruleset, base, &step);
    proof {
        assert(step_fn(step) =~= (|a: u8, s: SelectionView, e: Effect| locality_step(base, a, s, e)));
    }
    Some(r)
}

} // verus!
