//! Effective scores and score limits, derived from the entity's choices and
//! the effects its Virtues and Flaws declare.
//!
//! Every effect fold reads the same selection list: the entity's bought
//! selections followed by every free selection its profiles grant (House,
//! Mythic Companion type, Virtues that grant Virtues, the Virtues/Flaws owed
//! from Warping).
use vstd::prelude::*;
use crate::catalog::{find, Keyed};
use crate::entity::Entity;
use crate::house::house_granted_spec;
use crate::mythic_companion::mythic_granted_spec;
use crate::ruleset::{PointItem, Ruleset};
use crate::types::{copy_selections, lemma_selection_views_push, lemma_selection_views_take, selection_views, Effect, Selection, SelectionView};

pub mod ability;
pub mod art;
pub mod characteristic;
pub mod cut;
pub mod flow;
pub mod gift_confidence;
pub mod might;
pub mod reputation_and_caps;
pub mod spell;
pub mod warping;
pub mod xp;

use crate::effective::warping::{warping_granted_selections, warping_granted_spec};

verus! {

// --- the generic effect fold -----------------------------------------------

/// One step of an effect fold: how an accumulator absorbs one effect of one
/// selection's item.
pub trait EffectStep<A> {
    spec fn step_spec(&self, acc: A, s: SelectionView, e: Effect) -> A;

    fn step(&self, acc: A, s: &Selection, e: &Effect) -> (r: A)
        ensures
            r == self.step_spec(acc, s@, *e);
}

/// The fold function a step computes.
pub open spec fn step_fn<A, T: EffectStep<A>>(t: T) -> spec_fn(A, SelectionView, Effect) -> A {
    |a: A, s: SelectionView, e: Effect| t.step_spec(a, s, e)
}

/// Folds `f` over the effects of one item, in declaration order.
pub open spec fn fold_item<A>(acc: A, s: SelectionView, effects: Seq<Effect>, f: spec_fn(A, SelectionView, Effect) -> A) -> A
    decreases effects.len(),
{
    if effects.len() == 0 {
        acc
    } else {
        f(fold_item(acc, s, effects.drop_last(), f), s, effects.last())
    }
}

/// Folds `f` over every effect of every selection's catalogue item, in
/// selection order; a selection whose item the catalogue lacks contributes
/// nothing.
pub open spec fn fold_sels<A>(acc: A, sels: Seq<SelectionView>, rs: &Ruleset, f: spec_fn(A, SelectionView, Effect) -> A) -> A
    decreases sels.len(),
{
    if sels.len() == 0 {
        acc
    } else {
        let before = fold_sels(acc, sels.drop_last(), rs, f);
        match find(rs.point_items@, sels.last().item_ref) {
            Some(item) => fold_item(before, sels.last(), item.effects@, f),
            None => before,
        }
    }
}

/// Folding over two lists in turn is folding over their concatenation.
pub proof fn lemma_fold_sels_append<A>(acc: A, s: Seq<SelectionView>, t: Seq<SelectionView>, rs: &Ruleset, f: spec_fn(A, SelectionView, Effect) -> A)
    ensures
        fold_sels(acc, s + t, rs, f) == fold_sels(fold_sels(acc, s, rs, f), t, rs, f),
    decreases t.len(),
{
    if t.len() == 0 {
        assert(s + t =~= s);
    } else {
        lemma_fold_sels_append(acc, s, t.drop_last(), rs, f);
        assert((s + t).drop_last() =~= s + t.drop_last());
        assert((s + t).last() == t.last());
    }
}

/// A property that every step keeps holds of the fold's result when it holds
/// of the starting accumulator.
pub proof fn lemma_fold_sels_keeps<A>(acc: A, sels: Seq<SelectionView>, rs: &Ruleset, f: spec_fn(A, SelectionView, Effect) -> A, inv: spec_fn(A) -> bool)
    requires
        inv(acc),
        forall|a: A, x: SelectionView, e: Effect| inv(a) ==> #[trigger] inv(f(a, x, e)),
    ensures
        inv(fold_sels(acc, sels, rs, f)),
    decreases sels.len(),
{
    if sels.len() > 0 {
        lemma_fold_sels_keeps(acc, sels.drop_last(), rs, f, inv);
        match find(rs.point_items@, sels.last().item_ref) {
            Some(item) => lemma_fold_item_keeps(fold_sels(acc, sels.drop_last(), rs, f), sels.last(), item.effects@, f, inv),
            None => {},
        }
    }
}

/// The per-item half of [`lemma_fold_sels_keeps`].
pub proof fn lemma_fold_item_keeps<A>(acc: A, x: SelectionView, effects: Seq<Effect>, f: spec_fn(A, SelectionView, Effect) -> A, inv: spec_fn(A) -> bool)
    requires
        inv(acc),
        forall|a: A, y: SelectionView, e: Effect| inv(a) ==> #[trigger] inv(f(a, y, e)),
    ensures
        inv(fold_item(acc, x, effects, f)),
    decreases effects.len(),
{
    if effects.len() > 0 {
        lemma_fold_item_keeps(acc, x, effects.drop_last(), f, inv);
    }
}

/// Runs `t` over every effect of every selection's catalogue item.
pub fn fold_effects<A, T: EffectStep<A>>(sels: &Vec<Selection>, rs: &Ruleset, init: A, t: &T) -> (r: A)
    ensures
        r == fold_sels(init, selection_views(sels@), rs, step_fn(*t)),
{
    let mut acc = init;
    let mut i: usize = 0;
    while i < sels.len()
        invariant
            i <= sels.len(),
            acc == fold_sels(init, selection_views(sels@.take(i as int)), rs, step_fn(*t)),
        decreases sels.len() - i,
    {
        proof {
            assert(selection_views(sels@.take(i + 1)).drop_last() =~= selection_views(sels@.take(i as int)));
            assert(selection_views(sels@.take(i + 1)).last() == sels@[i as int]@);
        }
        let sel = &sels[i];
        match rs.item(sel.item_ref.as_str()) {
            Some(item) => {
                let ghost before = acc;
                let mut j: usize = 0;
                while j < item.effects.len()
                    invariant
                        j <= item.effects.len(),
                        acc == fold_item(before, sel@, item.effects@.take(j as int), step_fn(*t)),
                    decreases item.effects.len() - j,
                {
                    proof {
                        assert(item.effects@.take(j + 1).drop_last() =~= item.effects@.take(j as int));
                    }
                    acc = t.step(acc, sel, &item.effects[j]);
                    j += 1;
                }
                assert(item.effects@.take(item.effects.len() as int) =~= item.effects@);
            },
            None => {},
        }
        i += 1;
    }
    assert(sels@.take(sels.len() as int) =~= sels@);
    acc
}

/// One step of an effect fold that grows its accumulator in place, specified
/// over the accumulator's view.
pub trait EffectStepMut<A: View> {
    spec fn step_view(&self, acc: A::V, s: SelectionView, e: Effect) -> A::V;

    fn step_mut(&self, acc: &mut A, s: &Selection, e: &Effect)
        ensures
            final(acc)@ == self.step_view(old(acc)@, s@, *e);
}

/// The fold function a growing step computes.
pub open spec fn view_step_fn<A: View, T: EffectStepMut<A>>(t: T) -> spec_fn(A::V, SelectionView, Effect) -> A::V {
    |a: A::V, s: SelectionView, e: Effect| t.step_view(a, s, e)
}

/// Runs `t` over every effect of every selection's catalogue item, growing
/// `acc` in place.
pub fn fold_effects_mut<A: View, T: EffectStepMut<A>>(sels: &Vec<Selection>, rs: &Ruleset, acc: &mut A, t: &T)
    ensures
        final(acc)@ == fold_sels(old(acc)@, selection_views(sels@), rs, view_step_fn(*t)),
{
    let ghost init = acc@;
    let mut i: usize = 0;
    while i < sels.len()
        invariant
            i <= sels.len(),
            init == old(acc)@,
            acc@ == fold_sels(init, selection_views(sels@.take(i as int)), rs, view_step_fn(*t)),
        decreases sels.len() - i,
    {
        proof {
            assert(selection_views(sels@.take(i + 1)).drop_last() =~= selection_views(sels@.take(i as int)));
            assert(selection_views(sels@.take(i + 1)).last() == sels@[i as int]@);
        }
        let sel = &sels[i];
        match rs.item(sel.item_ref.as_str()) {
            Some(item) => {
                let ghost before = acc@;
                let mut j: usize = 0;
                while j < item.effects.len()
                    invariant
                        j <= item.effects.len(),
                        acc@ == fold_item(before, sel@, item.effects@.take(j as int), view_step_fn(*t)),
                    decreases item.effects.len() - j,
                {
                    proof {
                        assert(item.effects@.take(j + 1).drop_last() =~= item.effects@.take(j as int));
                    }
                    t.step_mut(acc, sel, &item.effects[j]);
                    j += 1;
                }
                assert(item.effects@.take(item.effects.len() as int) =~= item.effects@);
            },
            None => {},
        }
        i += 1;
    }
    assert(sels@.take(sels.len() as int) =~= sels@);
}

// --- the selection list every fold reads -----------------------------------

/// A parameterless selection view of an item id.
pub open spec fn plain_view(id: Seq<char>) -> SelectionView {
    SelectionView { item_ref: id, params: Seq::empty() }
}

/// The selections one effect grants (Templar Commander grants
/// Brother-Knight).
pub open spec fn effect_grants(e: Effect) -> Seq<SelectionView> {
    match e {
        Effect::GrantsSelection { items } => items@.map_values(|id: String| plain_view(id@)),
        _ => Seq::empty(),
    }
}

/// Collects every [`Effect::GrantsSelection`] on a bought selection's item.
pub struct VfGrants;

impl VfGrants {
    pub open spec fn step_spec(&self, acc: Seq<SelectionView>, e: Effect) -> Seq<SelectionView> {
        acc + effect_grants(e)
    }
}

/// Folds [`VfGrants`] over the effects of one item.
pub open spec fn vf_item(acc: Seq<SelectionView>, effects: Seq<Effect>) -> Seq<SelectionView>
    decreases effects.len(),
{
    if effects.len() == 0 {
        acc
    } else {
        vf_item(acc, effects.drop_last()) + effect_grants(effects.last())
    }
}

/// Folds [`VfGrants`] over every bought selection's item.
pub open spec fn vf_sels(sels: Seq<SelectionView>, rs: &Ruleset) -> Seq<SelectionView>
    decreases sels.len(),
{
    if sels.len() == 0 {
        Seq::empty()
    } else {
        let before = vf_sels(sels.drop_last(), rs);
        match find(rs.point_items@, sels.last().item_ref) {
            Some(item) => vf_item(before, item.effects@),
            None => before,
        }
    }
}

/// The free selections granted by a bought selection's own
/// [`Effect::GrantsSelection`] — one level deep: only bought selections are
/// scanned.
pub open spec fn vf_granted_spec(entity: &Entity, ruleset: &Ruleset) -> Seq<SelectionView> {
    vf_sels(selection_views(entity.selections@), ruleset)
}

/// The grants that decide the Warping Score owed Virtues/Flaws are counted
/// from: House, Mythic Companion type and Virtue-granted selections — never
/// the owed fills themselves.
pub open spec fn grants_base_spec(entity: &Entity, ruleset: &Ruleset) -> Seq<SelectionView> {
    house_granted_spec(entity, ruleset) + mythic_granted_spec(entity, ruleset) + vf_granted_spec(entity, ruleset)
}

/// Every free selection the entity's profiles grant: the base grants, then
/// the chosen owed-Warping fills.
pub open spec fn entity_grants_spec(entity: &Entity, ruleset: &Ruleset) -> Seq<SelectionView> {
    grants_base_spec(entity, ruleset) + warping_granted_spec(entity, ruleset)
}

/// The selection list every effect fold reads: bought, then granted.
pub open spec fn effect_selections(entity: &Entity, ruleset: &Ruleset) -> Seq<SelectionView> {
    selection_views(entity.selections@) + entity_grants_spec(entity, ruleset)
}

/// Appends a copy of `more` to `out`.
pub fn append_selections(out: &mut Vec<Selection>, more: &Vec<Selection>)
    ensures
        selection_views(final(out)@) == selection_views(old(out)@) + selection_views(more@),
{
    let ghost start = selection_views(out@);
    let mut i: usize = 0;
    while i < more.len()
        invariant
            i <= more.len(),
            selection_views(out@) =~= start + selection_views(more@.take(i as int)),
        decreases more.len() - i,
    {
        let c = more[i].copy();
        let ghost old_out = out@;
        out.push(c);
        proof {
            lemma_selection_views_push(old_out, c);
            lemma_selection_views_take(more@, i as int);
        }
        i += 1;
        assert(selection_views(out@) =~= start + selection_views(more@.take(i as int)));
    }
    assert(more@.take(more.len() as int) =~= more@);
}

/// Free selections granted by an [`Effect::GrantsSelection`] on a bought
/// selection. Only bought selections are scanned, so a granted item's own
/// grants are not applied recursively.
pub fn vf_granted_selections(entity: &Entity, ruleset: &Ruleset) -> (r: Vec<Selection>)
    ensures
        selection_views(r@) == vf_granted_spec(entity, ruleset),
{
    let mut out: Vec<Selection> = Vec::new();
    let mut i: usize = 0;
    while i < entity.selections.len()
        invariant
            i <= entity.selections.len(),
            selection_views(out@) == vf_sels(selection_views(entity.selections@.take(i as int)), ruleset),
        decreases entity.selections.len() - i,
    {
        proof {
            assert(selection_views(entity.selections@.take(i + 1)).drop_last() =~= selection_views(entity.selections@.take(i as int)));
            assert(selection_views(entity.selections@.take(i + 1)).last() == entity.selections@[i as int]@);
        }
        let sel = &entity.selections[i];
        match ruleset.item(sel.item_ref.as_str()) {
            Some(item) => {
                let ghost before = selection_views(out@);
                let mut j: usize = 0;
                while j < item.effects.len()
                    invariant
                        j <= item.effects.len(),
                        selection_views(out@) == vf_item(before, item.effects@.take(j as int)),
                    decreases item.effects.len() - j,
                {
                    proof {
                        assert(item.effects@.take(j + 1).drop_last() =~= item.effects@.take(j as int));
                    }
                    match &item.effects[j] {
                        Effect::GrantsSelection { items } => {
                            let ghost mid = selection_views(out@);
                            let mut k: usize = 0;
                            while k < items.len()
                                invariant
                                    k <= items.len(),
                                    selection_views(out@) =~= mid + items@.take(k as int).map_values(|id: String| plain_view(id@)),
                                decreases items.len() - k,
                            {
                                let ns = Selection::new(items[k].clone());
                                let ghost old_out = out@;
                                out.push(ns);
                                proof {
                                    lemma_selection_views_push(old_out, ns);
                                    assert(ns@ == plain_view(items@[k as int]@));
                                    assert(items@.take(k + 1).map_values(|id: String| plain_view(id@))
                                        =~= items@.take(k as int).map_values(|id: String| plain_view(id@)).push(plain_view(items@[k as int]@)));
                                }
                                k += 1;
                                assert(selection_views(out@) =~= mid + items@.take(k as int).map_values(|id: String| plain_view(id@)));
                            }
                            assert(items@.take(items.len() as int) =~= items@);
                        },
                        _ => {
                            assert(effect_grants(item.effects@[j as int]) =~= Seq::<SelectionView>::empty());
                        },
                    }
                    j += 1;
                }
                assert(item.effects@.take(item.effects.len() as int) =~= item.effects@);
            },
            None => {},
        }
        i += 1;
    }
    assert(entity.selections@.take(entity.selections.len() as int) =~= entity.selections@);
    out
}

/// The base grants: House, then Mythic Companion type, then Virtue-granted
/// selections.
pub fn entity_grants_base(entity: &Entity, ruleset: &Ruleset) -> (r: Vec<Selection>)
    ensures
        selection_views(r@) == grants_base_spec(entity, ruleset),
{
    let mut out = crate::house::granted_selections(entity, ruleset);
    let mythic = crate::mythic_companion::granted_selections(entity, ruleset);
    append_selections(&mut out, &mythic);
    let vf = vf_granted_selections(entity, ruleset);
    append_selections(&mut out, &vf);
    out
}

/// Every free selection the entity's type-linked profiles grant: its House,
/// its Mythic Companion type, the Virtues its Virtues grant, and the chosen
/// owed-Warping fills, in that order.
pub fn entity_grants(entity: &Entity, ruleset: &Ruleset) -> (r: Vec<Selection>)
    ensures
        selection_views(r@) == entity_grants_spec(entity, ruleset),
{
    let mut out = entity_grants_base(entity, ruleset);
    let warped = warping_granted_selections(entity, ruleset);
    append_selections(&mut out, &warped);
    out
}

/// The selection list every effect computation iterates: the bought
/// selections followed by every granted one.
pub fn selections_for_effects(entity: &Entity, ruleset: &Ruleset) -> (r: Vec<Selection>)
    ensures
        selection_views(r@) == effect_selections(entity, ruleset),
{
    let mut out = copy_selections(&entity.selections);
    let granted = entity_grants(entity, ruleset);
    append_selections(&mut out, &granted);
    out
}

// --- arithmetic helpers ----------------------------------------------------

/// `x` clamped into `i64`.
pub open spec fn clamp_i64(x: int) -> i64 {
    if x < i64::MIN { i64::MIN } else if x > i64::MAX { i64::MAX } else { x as i64 }
}

/// `x` clamped into `i32`.
pub open spec fn clamp_i32(x: int) -> i32 {
    if x < i32::MIN { i32::MIN } else if x > i32::MAX { i32::MAX } else { x as i32 }
}

/// `x` clamped into `u32` (negative to 0).
pub open spec fn clamp_u32(x: int) -> u32 {
    if x < 0 { 0 } else if x > u32::MAX { u32::MAX } else { x as u32 }
}

/// `x` clamped into `u8` (negative to 0).
pub open spec fn clamp_u8(x: int) -> u8 {
    if x < 0 { 0 } else if x > u8::MAX { u8::MAX } else { x as u8 }
}

/// Saturating signed addition.
pub fn sat_add_i64(a: i64, b: i64) -> (r: i64)
    ensures
        r == clamp_i64(a + b),
{
    match a.checked_add(b) {
        Some(s) => s,
        None => if b > 0 { i64::MAX } else { i64::MIN },
    }
}

/// Saturating signed addition.
pub fn sat_add_i32(a: i32, b: i32) -> (r: i32)
    ensures
        r == clamp_i32(a + b),
{
    let s = a as i64 + b as i64;
    if s > i32::MAX as i64 {
        i32::MAX
    } else if s < i32::MIN as i64 {
        i32::MIN
    } else {
        s as i32
    }
}

} // verus!
