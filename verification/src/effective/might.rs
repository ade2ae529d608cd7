//! Might and True Faith granted by Virtues.
use vstd::prelude::*;
use crate::effective::{clamp_u32, clamp_u8, effect_selections, fold_effects, fold_sels, selections_for_effects, step_fn, EffectStep};
use crate::entity::Entity;
use crate::ruleset::Ruleset;
use crate::types::{Effect, MightScore, Realm, Selection, SelectionView};

verus! {

/// One step of the first-grant fold: the Realm of the first
/// [`Effect::MightGrant`] met.
pub open spec fn first_realm_step(acc: Option<Realm>, s: SelectionView, e: Effect) -> Option<Realm> {
    match acc {
        Some(r) => Some(r),
        None => match e {
            Effect::MightGrant { realm, score } => Some(realm),
            _ => None,
        },
    }
}

/// Finds the Realm of the first Might grant.
pub struct FirstRealm;

impl EffectStep<Option<Realm>> for FirstRealm {
    open spec fn step_spec(&self, acc: Option<Realm>, s: SelectionView, e: Effect) -> Option<Realm> {
        first_realm_step(acc, s, e)
    }

    fn step(&self, acc: Option<Realm>, s: &Selection, e: &Effect) -> (r: Option<Realm>) {
        match acc {
            Some(r) => Some(r),
            None => match e {
                Effect::MightGrant { realm, score } => Some(*realm),
                _ => None,
            },
        }
    }
}

/// One step of the granted-Might fold: a grant in `realm` adds its score.
pub open spec fn granted_might_step(realm: Realm, acc: u32, s: SelectionView, e: Effect) -> u32 {
    match e {
        Effect::MightGrant { realm: r, score } => if r == realm { clamp_u32(acc + score) } else { acc },
        _ => acc,
    }
}

/// [`granted_might_step`] as a fold function.
pub open spec fn granted_might_fn(realm: Realm) -> spec_fn(u32, SelectionView, Effect) -> u32 {
    |a: u32, s: SelectionView, e: Effect| granted_might_step(realm, a, s, e)
}

/// Sums the Might grants in one Realm.
pub struct GrantedMight {
    pub realm: Realm,
}

impl EffectStep<u32> for GrantedMight {
    open spec fn step_spec(&self, acc: u32, s: SelectionView, e: Effect) -> u32 {
        granted_might_step(self.realm, acc, s, e)
    }

    fn step(&self, acc: u32, s: &Selection, e: &Effect) -> (r: u32) {
        match e {
            Effect::MightGrant { realm, score } => if *realm == self.realm { acc.saturating_add(*score as u32) } else { acc },
            _ => acc,
        }
    }
}

/// The Realm of the first Might grant among the entity's selections.
pub open spec fn first_realm_spec(entity: &Entity, ruleset: &Ruleset) -> Option<Realm> {
    fold_sels(None, effect_selections(entity, ruleset), ruleset, |a: Option<Realm>, s: SelectionView, e: Effect| first_realm_step(a, s, e))
}

/// The entity's effective Might: its own Might Score (or, lacking one, the
/// Realm of its first Might grant) raised by every grant in that Realm,
/// capped at 255; `None` when it has neither.
pub open spec fn effective_might_spec(entity: &Entity, ruleset: &Ruleset) -> Option<MightScore> {
    let realm = match entity.might {
        Some(m) => Some(m.realm),
        None => first_realm_spec(entity, ruleset),
    };
    match realm {
        None => None,
        Some(realm) => {
            let base: int = match entity.might { Some(m) => m.score as int, None => 0 };
            let granted = fold_sels(0u32, effect_selections(entity, ruleset), ruleset, granted_might_fn(realm));
            Some(MightScore { realm, score: clamp_u8(base + granted) })
        },
    }
}

/// The entity's effective Might Score, if it has a Realm at all.
pub fn effective_might(entity: &Entity, ruleset: &Ruleset) -> (r: Option<MightScore>)
    ensures
        r == effective_might_spec(entity, ruleset),
{
    let sels = selections_for_effects(entity, ruleset);
    let realm = match entity.might {
        Some(m) => m.realm,
        None => {
            let step = FirstRealm;
            let first = fold_effects(&sels, ruleset, None, &step);
            proof {
                assert(step_fn(step) =~= (|a: Option<Realm>, s: SelectionView, e: Effect| first_realm_step(a, s, e)));
            }
            match first {
                Some(r) => r,
                None => return None,
            }
        },
    };
    let base: u64 = match entity.might { Some(m) => m.score as u64, None => 0 };
    let step = GrantedMight { realm };
    let granted = fold_effects(&sels, ruleset, 0u32, &step);
    proof {
        assert(step_fn(step) =~= granted_might_fn(realm));
    }
    let total: u64 = base + granted as u64;
    let score: u8 = if total > 255 { 255 } else { total as u8 };
    Some(MightScore { realm, score })
}

/// One step of the True Faith fold.
pub open spec fn faith_step(acc: u32, s: SelectionView, e: Effect) -> u32 {
    match e {
        Effect::TrueFaithGrant { score } => clamp_u32(acc + score),
        _ => acc,
    }
}

/// Sums [`Effect::TrueFaithGrant`].
pub struct FaithStep;

impl EffectStep<u32> for FaithStep {
    open spec fn step_spec(&self, acc: u32, s: SelectionView, e: Effect) -> u32 {
        faith_step(acc, s, e)
    }

    fn step(&self, acc: u32, s: &Selection, e: &Effect) -> (r: u32) {
        match e {
            Effect::TrueFaithGrant { score } => acc.saturating_add(*score as u32),
            _ => acc,
        }
    }
}

/// The entity's True Faith: the sum of its True Faith grants, capped at 255.
pub open spec fn true_faith_spec(entity: &Entity, ruleset: &Ruleset) -> u8 {
    clamp_u8(fold_sels(0u32, effect_selections(entity, ruleset), ruleset, |a: u32, s: SelectionView, e: Effect| faith_step(a, s, e)) as int)
}

/// The entity's True Faith Score.
pub fn true_faith(entity: &Entity, ruleset: &Ruleset) -> (r: u8)
    ensures
        r == true_faith_spec(entity, ruleset),
{
    let sels = selections_for_effects(entity, ruleset);
    let step = FaithStep;
    let total = fold_effects(&sels, ruleset, 0u32, &step);
    proof {
        assert(step_fn(step) =~= (|a: u32, s: SelectionView, e: Effect| faith_step(a, s, e)));
    }
    if total > 255 { 255 } else { total as u8 }
}

} // verus!
