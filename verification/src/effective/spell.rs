//! Spells: the spell-level budget, the casting-level cap of each Technique
//! and Form pair, resolved spell levels, and Spell Mastery.
use vstd::prelude::*;
use crate::catalog::{char_get, find};
use crate::effective::ability::{effective_ability_score, effective_ability_spec};
use crate::effective::art::{effective_art_score, effective_art_spec};
use crate::effective::xp::pick_affinity;
use crate::effective::{clamp_i64, clamp_u32, effect_selections, fold_effects, fold_item, fold_sels, sat_add_i64, selections_for_effects, step_fn, EffectStep};
use crate::entity::{Entity, SpellSelection};
use crate::ruleset::{magic_theory_id, EntityTypeProfile, Ruleset};
use crate::types::{ArtType, Characteristic, Effect, Id, Selection, SelectionView};

verus! {

/// One step of a signed sum over [`Effect::SpellLevels`] (when `levels`) or
/// [`Effect::GeneralXp`].
pub open spec fn signed_step(levels: bool, acc: i64, s: SelectionView, e: Effect) -> i64 {
    match e {
        Effect::SpellLevels { amount } => if levels { clamp_i64(acc + amount) } else { acc },
        Effect::GeneralXp { amount } => if !levels { clamp_i64(acc + amount) } else { acc },
        _ => acc,
    }
}

/// [`signed_step`] as a fold function.
pub open spec fn signed_fn(levels: bool) -> spec_fn(i64, SelectionView, Effect) -> i64 {
    |a: i64, s: SelectionView, e: Effect| signed_step(levels, a, s, e)
}

/// Sums the spell-level or general-experience grants.
pub struct SignedSum {
    pub levels: bool,
}

impl EffectStep<i64> for SignedSum {
    open spec fn step_spec(&self, acc: i64, s: SelectionView, e: Effect) -> i64 {
        signed_step(self.levels, acc, s, e)
    }

    fn step(&self, acc: i64, s: &Selection, e: &Effect) -> (r: i64) {
        match e {
            Effect::SpellLevels { amount } => if self.levels { sat_add_i64(acc, *amount as i64) } else { acc },
            Effect::GeneralXp { amount } => if !self.levels { sat_add_i64(acc, *amount as i64) } else { acc },
            _ => acc,
        }
    }
}

/// The signed sum over the entity's selections.
pub open spec fn signed_spec(entity: &Entity, ruleset: &Ruleset, levels: bool) -> i64 {
    fold_sels(0i64, effect_selections(entity, ruleset), ruleset, signed_fn(levels))
}

fn signed_sum(entity: &Entity, ruleset: &Ruleset, levels: bool) -> (r: i64)
    ensures
        r == signed_spec(entity, ruleset, levels),
{
    let sels = selections_for_effects(entity, ruleset);
    let step = SignedSum { levels };
    let r = fold_effects(&sels, ruleset, 0i64, &step);
    proof {
        assert(step_fn(step) =~= signed_fn(levels));
    }
    r
}

/// The signed spell-level adjustment of the entity's Virtues and Flaws.
pub fn spell_levels_bonus(entity: &Entity, ruleset: &Ruleset) -> (r: i64)
    ensures
        r == signed_spec(entity, ruleset, true),
{
    signed_sum(entity, ruleset, true)
}

/// The signed general-experience adjustment (Skilled Parens +60).
pub fn general_xp_bonus(entity: &Entity, ruleset: &Ruleset) -> (r: i64)
    ensures
        r == signed_spec(entity, ruleset, false),
{
    signed_sum(entity, ruleset, false)
}

/// The base spell-level budget: the entity's override, else its profile's.
pub open spec fn spell_levels_base_spec(entity: &Entity, profile: Option<&EntityTypeProfile>) -> u32 {
    match entity.spell_levels_override {
        Some(v) => v,
        None => match profile {
            Some(p) => p.spell_levels,
            None => 0,
        },
    }
}

/// The base spell-level budget before adjustments.
pub fn spell_levels_base(entity: &Entity, profile: Option<&EntityTypeProfile>) -> (r: u32)
    ensures
        r == spell_levels_base_spec(entity, profile),
{
    match entity.spell_levels_override {
        Some(v) => v,
        None => match profile {
            Some(p) => p.spell_levels,
            None => 0,
        },
    }
}

/// The spell levels a life-stage plan banks after the Gauntlet.
pub open spec fn life_stage_spell_levels_spec(entity: &Entity, ruleset: &Ruleset) -> u32 {
    match ruleset.life_stages {
        Some(rules) => match rules.budget_spec(entity, ruleset) {
            Some(b) => b.post_gauntlet_spell_levels,
            None => 0,
        },
        None => 0,
    }
}

/// The post-Gauntlet spell levels of the entity's life-stage plan (0 without
/// one).
pub fn life_stage_spell_levels(entity: &Entity, ruleset: &Ruleset) -> (r: u32)
    ensures
        r == life_stage_spell_levels_spec(entity, ruleset),
{
    match &ruleset.life_stages {
        Some(rules) => match rules.budget(entity, ruleset) {
            Some(b) => b.post_gauntlet_spell_levels,
            None => 0,
        },
        None => 0,
    }
}

/// The spell-level budget: base plus adjustments plus life-stage levels,
/// clamped into `u32`.
pub open spec fn spell_levels_budget_spec(base: u32, entity: &Entity, ruleset: &Ruleset) -> u32 {
    clamp_u32(base + signed_spec(entity, ruleset, true) + life_stage_spell_levels_spec(entity, ruleset))
}

/// The total spell levels the entity may know.
pub fn spell_levels_budget(base: u32, entity: &Entity, ruleset: &Ruleset) -> (r: u32)
    ensures
        r == spell_levels_budget_spec(base, entity, ruleset),
{
    let bonus = spell_levels_bonus(entity, ruleset) as i128;
    let sum: i128 = base as i128 + bonus + life_stage_spell_levels(entity, ruleset) as i128;
    if sum < 0 { 0 } else if sum > u32::MAX as i128 { u32::MAX } else { sum as u32 }
}

/// The highest level the entity can invent in a Technique and Form:
/// Technique + Form + Intelligence + Magic Theory + 3.
pub open spec fn spell_level_cap_spec(entity: &Entity, ruleset: &Ruleset, technique: Seq<char>, form: Seq<char>) -> int {
    let int_score: int = match crate::catalog::char_entry(entity.characteristics@, Characteristic::Int) { Some(v) => v as int, None => 0 };
    effective_art_spec(entity, ruleset, technique) + effective_art_spec(entity, ruleset, form) + int_score
        + effective_ability_spec(entity, ruleset, magic_theory_id(), None) + 3
}

/// The cap is the effective Technique, the effective Form, Intelligence,
/// the effective Magic Theory and 3, added.
pub proof fn law_the_cap_adds_arts_intelligence_and_magic_theory(entity: &Entity, ruleset: &Ruleset, technique: Seq<char>, form: Seq<char>)
    ensures
        spell_level_cap_spec(entity, ruleset, technique, form)
            == effective_art_spec(entity, ruleset, technique) + effective_art_spec(entity, ruleset, form)
                + (match crate::catalog::char_entry(entity.characteristics@, Characteristic::Int) { Some(v) => v as int, None => 0 })
                + effective_ability_spec(entity, ruleset, "ability.magic_theory"@, None) + 3,
{
    assert(magic_theory_id() == "ability.magic_theory"@);
}

/// Two entities alike in their effective Technique and Form and in
/// Intelligence have caps that differ by exactly what their effective Magic
/// Theory does: each point of Magic Theory raises the cap by one.
pub proof fn law_each_magic_theory_point_raises_the_cap(e1: &Entity, e2: &Entity, ruleset: &Ruleset, technique: Seq<char>, form: Seq<char>)
    requires
        effective_art_spec(e1, ruleset, technique) == effective_art_spec(e2, ruleset, technique),
        effective_art_spec(e1, ruleset, form) == effective_art_spec(e2, ruleset, form),
        crate::catalog::char_entry(e1.characteristics@, Characteristic::Int) == crate::catalog::char_entry(e2.characteristics@, Characteristic::Int),
    ensures
        spell_level_cap_spec(e2, ruleset, technique, form) - spell_level_cap_spec(e1, ruleset, technique, form)
            == effective_ability_spec(e2, ruleset, "ability.magic_theory"@, None) - effective_ability_spec(e1, ruleset, "ability.magic_theory"@, None),
{
    law_the_cap_adds_arts_intelligence_and_magic_theory(e1, ruleset, technique, form);
    law_the_cap_adds_arts_intelligence_and_magic_theory(e2, ruleset, technique, form);
}

/// The inventable-level cap of one Technique and Form pair.
pub fn spell_level_cap(entity: &Entity, ruleset: &Ruleset, technique: &str, form: &str) -> (r: i64)
    ensures
        r == spell_level_cap_spec(entity, ruleset, technique@, form@),
{
    let tech = effective_art_score(entity, ruleset, technique) as i64;
    let frm = effective_art_score(entity, ruleset, form) as i64;
    let int_score: i64 = match char_get(&entity.characteristics, Characteristic::Int) {
        Some(v) => v as i64,
        None => 0,
    };
    let mt = effective_ability_score(entity, ruleset, "ability.magic_theory", None) as i64;
    proof {
        reveal_strlit("ability.magic_theory");
    }
    tech + frm + int_score + mt + 3
}

/// The cap of one Technique and Form pair.
#[derive(Debug, PartialEq, Eq)]
pub struct SpellLevelCap {
    pub technique: Id,
    pub form: Id,
    pub cap: i64,
}

/// The ids of the catalogue Arts of one class, in catalogue order.
pub open spec fn arts_of(rs: &Ruleset, art_type: ArtType) -> Seq<Id> {
    rs.arts@.filter(|a: crate::ruleset::ArtDef| a.art_type == art_type).map_values(|a: crate::ruleset::ArtDef| a.id)
}

/// The ids of the catalogue Arts of one class, in catalogue order.
pub fn art_ids_of(rs: &Ruleset, art_type: ArtType) -> (r: Vec<Id>)
    ensures
        r@.len() == arts_of(rs, art_type).len(),
        forall|k: int| 0 <= k < r@.len() ==> #[trigger] r@[k]@ == arts_of(rs, art_type)[k]@,
{
    let ghost keep = |a: crate::ruleset::ArtDef| a.art_type == art_type;
    let mut out: Vec<Id> = Vec::new();
    let mut i: usize = 0;
    while i < rs.arts.len()
        invariant
            i <= rs.arts@.len(),
            keep == (|a: crate::ruleset::ArtDef| a.art_type == art_type),
            out@.len() == rs.arts@.take(i as int).filter(keep).len(),
            forall|k: int| 0 <= k < out@.len() ==> #[trigger] out@[k]@ == rs.arts@.take(i as int).filter(keep)[k].id@,
        decreases rs.arts.len() - i,
    {
        proof {
            assert(rs.arts@.take(i + 1).drop_last() =~= rs.arts@.take(i as int));
            reveal(Seq::filter);
        }
        if rs.arts[i].art_type == art_type {
            out.push(rs.arts[i].id.clone());
        }
        i += 1;
    }
    assert(rs.arts@.take(rs.arts.len() as int) =~= rs.arts@);
    out
}

/// The cap of every Technique and Form pair, Techniques outermost, each in
/// catalogue order.
pub fn spell_level_caps(entity: &Entity, ruleset: &Ruleset) -> (r: Vec<SpellLevelCap>)
    ensures
        r@.len() == arts_of(ruleset, ArtType::Technique).len() * arts_of(ruleset, ArtType::Form).len(),
        forall|t: int, f: int| 0 <= t < arts_of(ruleset, ArtType::Technique).len() && 0 <= f < arts_of(ruleset, ArtType::Form).len() ==> {
            let c = #[trigger] r@[t * arts_of(ruleset, ArtType::Form).len() + f];
            &&& c.technique@ == arts_of(ruleset, ArtType::Technique)[t]@
            &&& c.form@ == arts_of(ruleset, ArtType::Form)[f]@
            &&& c.cap == spell_level_cap_spec(entity, ruleset, c.technique@, c.form@)
        },
{
    let techniques = art_ids_of(ruleset, ArtType::Technique);
    let forms = art_ids_of(ruleset, ArtType::Form);
    let ghost nf = forms@.len();
    let mut caps: Vec<SpellLevelCap> = Vec::new();
    let mut t: usize = 0;
    while t < techniques.len()
        invariant
            t <= techniques@.len(),
            nf == forms@.len(),
            caps@.len() == t * nf,
            forall|a: int, f: int| 0 <= a < t && 0 <= f < nf ==> {
                let c = #[trigger] caps@[a * nf + f];
                &&& c.technique@ == techniques@[a]@
                &&& c.form@ == forms@[f]@
                &&& c.cap == spell_level_cap_spec(entity, ruleset, c.technique@, c.form@)
            },
        decreases techniques.len() - t,
    {
        let mut f: usize = 0;
        while f < forms.len()
            invariant
                t < techniques@.len(),
                f <= forms@.len(),
                nf == forms@.len(),
                caps@.len() == t * nf + f,
                forall|a: int, g: int| 0 <= a < t && 0 <= g < nf ==> {
                    let c = #[trigger] caps@[a * nf + g];
                    &&& c.technique@ == techniques@[a]@
                    &&& c.form@ == forms@[g]@
                    &&& c.cap == spell_level_cap_spec(entity, ruleset, c.technique@, c.form@)
                },
                forall|g: int| 0 <= g < f ==> {
                    let c = #[trigger] caps@[t * nf + g];
                    &&& c.technique@ == techniques@[t as int]@
                    &&& c.form@ == forms@[g]@
                    &&& c.cap == spell_level_cap_spec(entity, ruleset, c.technique@, c.form@)
                },
            decreases forms.len() - f,
        {
            let cap = spell_level_cap(entity, ruleset, techniques[t].as_str(), forms[f].as_str());
            caps.push(SpellLevelCap { technique: techniques[t].clone(), form: forms[f].clone(), cap });
            proof {
                assert forall|a: int, g: int| 0 <= a < t && 0 <= g < nf implies {
                    let c = #[trigger] caps@[a * nf + g];
                    &&& c.technique@ == techniques@[a]@
                    &&& c.form@ == forms@[g]@
                    &&& c.cap == spell_level_cap_spec(entity, ruleset, c.technique@, c.form@)
                } by {
                    assert(a * nf + g < t * nf) by (nonlinear_arith)
                        requires
                            0 <= a < t,
                            0 <= g < nf,
                    ;
                }
                assert(caps@[t * nf + f as int] == caps@.last());
            }
            f += 1;
        }
        proof {
            assert((t + 1) * nf == t * nf + nf) by (nonlinear_arith);
            assert forall|a: int, g: int| 0 <= a < t + 1 && 0 <= g < nf implies {
                let c = #[trigger] caps@[a * nf + g];
                &&& c.technique@ == techniques@[a]@
                &&& c.form@ == forms@[g]@
                &&& c.cap == spell_level_cap_spec(entity, ruleset, c.technique@, c.form@)
            } by {
                if a == t {
                    assert(caps@[t * nf + g] == caps@[a * nf + g]);
                }
            }
        }
        t += 1;
    }
    caps
}

/// The level a known spell is cast at: the catalogue's fixed level, else the
/// level the character chose for a General spell; `None` for a spell no
/// catalogue holds or a General spell with no level chosen.
pub open spec fn resolved_level_spec(sel: &SpellSelection, ruleset: &Ruleset) -> Option<u32> {
    match find(ruleset.spells@, sel.spell@) {
        None => None,
        Some(spell) => match spell.level {
            Some(fixed) => Some(fixed as u32),
            None => match sel.level {
                Some(l) => Some(l as u32),
                None => None,
            },
        },
    }
}

/// The resolved level of a known spell.
pub fn resolved_spell_level(sel: &SpellSelection, ruleset: &Ruleset) -> (r: Option<u32>)
    ensures
        r == resolved_level_spec(sel, ruleset),
{
    let spell = match ruleset.spell(sel.spell.as_str()) {
        Some(s) => s,
        None => return None,
    };
    match spell.level {
        Some(fixed) => Some(fixed as u32),
        None => match sel.level {
            Some(l) => Some(l as u32),
            None => None,
        },
    }
}

/// One step of the mastery-experience fold.
pub open spec fn mastery_xp_step(acc: u32, s: SelectionView, e: Effect) -> u32 {
    match e {
        Effect::SpellMasteryXp { amount } => clamp_u32(acc + amount),
        _ => acc,
    }
}

/// Sums [`Effect::SpellMasteryXp`].
pub struct MasteryXp;

impl EffectStep<u32> for MasteryXp {
    open spec fn step_spec(&self, acc: u32, s: SelectionView, e: Effect) -> u32 {
        mastery_xp_step(acc, s, e)
    }

    fn step(&self, acc: u32, s: &Selection, e: &Effect) -> (r: u32) {
        match e {
            Effect::SpellMasteryXp { amount } => acc.saturating_add(*amount as u32),
            _ => acc,
        }
    }
}

/// The experience earmarked for Spell Mastery (Mastered Spells).
pub open spec fn mastery_xp_spec(entity: &Entity, ruleset: &Ruleset) -> u32 {
    fold_sels(0u32, effect_selections(entity, ruleset), ruleset, |a: u32, s: SelectionView, e: Effect| mastery_xp_step(a, s, e))
}

/// The experience the entity's Virtues earmark for Spell Mastery.
pub fn spell_mastery_xp(entity: &Entity, ruleset: &Ruleset) -> (r: u32)
    ensures
        r == mastery_xp_spec(entity, ruleset),
{
    let sels = selections_for_effects(entity, ruleset);
    let step = MasteryXp;
    let r = fold_effects(&sels, ruleset, 0u32, &step);
    proof {
        assert(step_fn(step) =~= (|a: u32, s: SelectionView, e: Effect| mastery_xp_step(a, s, e)));
    }
    r
}

/// One step of the mastery-floor fold: the highest granted mastery score.
pub open spec fn mastery_floor_step(acc: u8, s: SelectionView, e: Effect) -> u8 {
    match e {
        Effect::GrantsSpellMastery { score, advancement_num, advancement_den } => if score > acc { score } else { acc },
        _ => acc,
    }
}

/// Takes the highest [`Effect::GrantsSpellMastery`] score.
pub struct MasteryFloor;

impl EffectStep<u8> for MasteryFloor {
    open spec fn step_spec(&self, acc: u8, s: SelectionView, e: Effect) -> u8 {
        mastery_floor_step(acc, s, e)
    }

    fn step(&self, acc: u8, s: &Selection, e: &Effect) -> (r: u8) {
        match e {
            Effect::GrantsSpellMastery { score, advancement_num, advancement_den } => if *score > acc { *score } else { acc },
            _ => acc,
        }
    }
}

/// The free Spell Mastery every spell starts at (Flawless Magic).
pub open spec fn mastery_floor_spec(entity: &Entity, ruleset: &Ruleset) -> u8 {
    fold_sels(0u8, effect_selections(entity, ruleset), ruleset, |a: u8, s: SelectionView, e: Effect| mastery_floor_step(a, s, e))
}

/// The free mastery score every known spell holds.
pub fn spell_mastery_floor(entity: &Entity, ruleset: &Ruleset) -> (r: u8)
    ensures
        r == mastery_floor_spec(entity, ruleset),
{
    let sels = selections_for_effects(entity, ruleset);
    let step = MasteryFloor;
    let r = fold_effects(&sels, ruleset, 0u8, &step);
    proof {
        assert(step_fn(step) =~= (|a: u8, s: SelectionView, e: Effect| mastery_floor_step(a, s, e)));
    }
    r
}

/// One step of the mastery-Affinity fold: a mastery grant that multiplies
/// Advancement Totals (`num > den`) is an Affinity candidate.
pub open spec fn mastery_affinity_step(acc: Option<(u8, u8)>, s: SelectionView, e: Effect) -> Option<(u8, u8)> {
    match e {
        Effect::GrantsSpellMastery { score, advancement_num, advancement_den } => {
            if advancement_num > advancement_den { pick_affinity(acc, (advancement_num, advancement_den)) } else { acc }
        },
        _ => acc,
    }
}

/// Picks the most generous mastery Affinity.
pub struct MasteryAffinity;

impl EffectStep<Option<(u8, u8)>> for MasteryAffinity {
    open spec fn step_spec(&self, acc: Option<(u8, u8)>, s: SelectionView, e: Effect) -> Option<(u8, u8)> {
        mastery_affinity_step(acc, s, e)
    }

    fn step(&self, acc: Option<(u8, u8)>, s: &Selection, e: &Effect) -> (r: Option<(u8, u8)>) {
        match e {
            Effect::GrantsSpellMastery { score, advancement_num, advancement_den } => {
                if *advancement_num > *advancement_den {
                    crate::effective::xp::pick_best(acc, (*advancement_num, *advancement_den))
                } else {
                    acc
                }
            },
            _ => acc,
        }
    }
}

/// The most generous mastery Affinity.
pub open spec fn mastery_affinity_spec(entity: &Entity, ruleset: &Ruleset) -> Option<(u8, u8)> {
    fold_sels(None, effect_selections(entity, ruleset), ruleset, |a: Option<(u8, u8)>, s: SelectionView, e: Effect| mastery_affinity_step(a, s, e))
}

/// The Affinity that reduces every Spell Mastery purchase, if any.
pub fn spell_mastery_advancement_affinity(entity: &Entity, ruleset: &Ruleset) -> (r: Option<(u8, u8)>)
    ensures
        r == mastery_affinity_spec(entity, ruleset),
{
    let sels = selections_for_effects(entity, ruleset);
    let step = MasteryAffinity;
    let r = fold_effects(&sels, ruleset, None, &step);
    proof {
        assert(step_fn(step) =~= (|a: Option<(u8, u8)>, s: SelectionView, e: Effect| mastery_affinity_step(a, s, e)));
    }
    r
}

/// The best Affinity among `cands`, folded in order onto `acc`.
pub open spec fn affinity_fold(acc: Option<(u8, u8)>, cands: Seq<(u8, u8)>) -> Option<(u8, u8)>
    decreases cands.len(),
{
    if cands.len() == 0 { acc } else { pick_affinity(affinity_fold(acc, cands.drop_last()), cands.last()) }
}

/// The mastery Affinity candidates among `effects`, in order.
pub open spec fn item_mastery_candidates(effects: Seq<Effect>) -> Seq<(u8, u8)>
    decreases effects.len(),
{
    if effects.len() == 0 {
        Seq::empty()
    } else {
        item_mastery_candidates(effects.drop_last()) + effect_candidate(effects.last())
    }
}

/// The mastery Affinity candidates of the selections `sels`, in order.
pub open spec fn mastery_candidates_of(sels: Seq<SelectionView>, rs: &Ruleset) -> Seq<(u8, u8)>
    decreases sels.len(),
{
    if sels.len() == 0 {
        Seq::empty()
    } else {
        mastery_candidates_of(sels.drop_last(), rs) + match find(rs.point_items@, sels.last().item_ref) {
            Some(item) => item_mastery_candidates(item.effects@),
            None => Seq::empty(),
        }
    }
}

/// Every Spell Mastery grant that multiplies Advancement Totals, in the order
/// the entity's selections and their effects give them.
pub open spec fn mastery_candidates(entity: &Entity, ruleset: &Ruleset) -> Seq<(u8, u8)> {
    mastery_candidates_of(effect_selections(entity, ruleset), ruleset)
}

proof fn lemma_affinity_fold_append(acc: Option<(u8, u8)>, a: Seq<(u8, u8)>, b: Seq<(u8, u8)>)
    ensures
        affinity_fold(acc, a + b) == affinity_fold(affinity_fold(acc, a), b),
    decreases b.len(),
{
    if b.len() == 0 {
        assert(a + b =~= a);
    } else {
        lemma_affinity_fold_append(acc, a, b.drop_last());
        assert((a + b).drop_last() =~= a + b.drop_last());
        assert((a + b).last() == b.last());
    }
}

/// One mastery candidate of the last effect, if it is one.
pub open spec fn effect_candidate(e: Effect) -> Seq<(u8, u8)> {
    match e {
        Effect::GrantsSpellMastery { score, advancement_num, advancement_den } =>
            if advancement_num > advancement_den { seq![(advancement_num, advancement_den)] } else { Seq::empty() },
        _ => Seq::empty(),
    }
}

proof fn lemma_item_fold(acc: Option<(u8, u8)>, s: SelectionView, effects: Seq<Effect>, f: spec_fn(Option<(u8, u8)>, SelectionView, Effect) -> Option<(u8, u8)>)
    requires
        forall|a: Option<(u8, u8)>, x: SelectionView, e: Effect| #[trigger] f(a, x, e) == mastery_affinity_step(a, x, e),
    ensures
        fold_item(acc, s, effects, f) == affinity_fold(acc, item_mastery_candidates(effects)),
    decreases effects.len(),
{
    if effects.len() > 0 {
        lemma_item_fold(acc, s, effects.drop_last(), f);
        let prev = item_mastery_candidates(effects.drop_last());
        let tail = effect_candidate(effects.last());
        assert(item_mastery_candidates(effects) == prev + tail);
        lemma_affinity_fold_append(acc, prev, tail);
        let x = fold_item(acc, s, effects.drop_last(), f);
        assert(fold_item(acc, s, effects, f) == f(x, s, effects.last()));
        assert(x == affinity_fold(acc, prev));
        if tail.len() == 1 {
            assert(tail.drop_last() =~= Seq::<(u8, u8)>::empty());
            assert(affinity_fold(x, tail.drop_last()) == x);
            assert(tail.last() == tail[0]);
            assert(affinity_fold(x, tail) == pick_affinity(x, tail[0]));
        } else {
            assert(tail =~= Seq::<(u8, u8)>::empty());
            assert(affinity_fold(x, tail) == x);
        }
    }
}

proof fn lemma_sels_fold(acc: Option<(u8, u8)>, sels: Seq<SelectionView>, rs: &Ruleset, f: spec_fn(Option<(u8, u8)>, SelectionView, Effect) -> Option<(u8, u8)>)
    requires
        forall|a: Option<(u8, u8)>, x: SelectionView, e: Effect| #[trigger] f(a, x, e) == mastery_affinity_step(a, x, e),
    ensures
        fold_sels(acc, sels, rs, f) == affinity_fold(acc, mastery_candidates_of(sels, rs)),
    decreases sels.len(),
{
    if sels.len() > 0 {
        lemma_sels_fold(acc, sels.drop_last(), rs, f);
        let prev = mastery_candidates_of(sels.drop_last(), rs);
        match find(rs.point_items@, sels.last().item_ref) {
            Some(item) => {
                let before = fold_sels(acc, sels.drop_last(), rs, f);
                lemma_item_fold(before, sels.last(), item.effects@, f);
                lemma_affinity_fold_append(acc, prev, item_mastery_candidates(item.effects@));
            },
            None => {
                assert(mastery_candidates_of(sels, rs) =~= prev);
            },
        }
    }
}

proof fn lemma_at_least_trans(x: (u8, u8), y: (u8, u8), z: (u8, u8))
    requires
        x.0 > 0,
        y.0 > 0,
        z.0 > 0,
        x.0 * y.1 >= y.0 * x.1,
        y.0 * z.1 >= z.0 * y.1,
    ensures
        x.0 * z.1 >= z.0 * x.1,
{
    if y.1 == 0 {
        assert(x.1 == 0) by (nonlinear_arith)
            requires
                x.0 * y.1 >= y.0 * x.1,
                y.1 == 0,
                y.0 > 0,
        ;
    } else {
        assert(x.0 * z.1 >= z.0 * x.1) by (nonlinear_arith)
            requires
                x.0 * y.1 >= y.0 * x.1,
                y.0 * z.1 >= z.0 * y.1,
                y.1 > 0,
        ;
    }
}

proof fn lemma_beats_trans(x: (u8, u8), y: (u8, u8), z: (u8, u8))
    requires
        x.0 > 0,
        y.0 > 0,
        z.0 > 0,
        x.0 * y.1 > y.0 * x.1,
        y.0 * z.1 >= z.0 * y.1,
    ensures
        x.0 * z.1 > z.0 * x.1,
{
    assert(y.1 > 0);
    if z.1 == 0 {
        assert(y.1 == 0) by (nonlinear_arith)
            requires
                y.0 * z.1 >= z.0 * y.1,
                z.1 == 0,
                z.0 > 0,
        ;
    } else {
        assert(x.0 * z.1 > z.0 * x.1) by (nonlinear_arith)
            requires
                x.0 * y.1 > y.0 * x.1,
                y.0 * z.1 >= z.0 * y.1,
                y.1 > 0,
                z.1 > 0,
        ;
    }
}

/// Folding Affinities keeps the most generous candidate (`num/den` compared
/// by cross-multiplying), the earliest among equals: nothing when there is
/// no candidate.
pub proof fn law_the_fold_keeps_the_earliest_most_generous(cands: Seq<(u8, u8)>)
    requires
        forall|k: int| 0 <= k < cands.len() ==> #[trigger] cands[k].0 > 0,
    ensures
        (affinity_fold(None, cands) is None) == (cands.len() == 0),
        cands.len() > 0 ==> exists|j: int| 0 <= j < cands.len() && affinity_fold(None, cands) == Some(cands[j])
            && (forall|k: int| 0 <= k < cands.len() ==> cands[j].0 * (#[trigger] cands[k]).1 >= cands[k].0 * cands[j].1)
            && (forall|k: int| 0 <= k < j ==> cands[j].0 * (#[trigger] cands[k]).1 > cands[k].0 * cands[j].1),
    decreases cands.len(),
{
    if cands.len() > 0 {
        let prev = cands.drop_last();
        let c = cands.last();
        law_the_fold_keeps_the_earliest_most_generous(prev);
        if prev.len() == 0 {
            assert(cands[0] == c);
        } else {
            let j = choose|j: int| 0 <= j < prev.len() && affinity_fold(None, prev) == Some(prev[j])
                && (forall|k: int| 0 <= k < prev.len() ==> prev[j].0 * (#[trigger] prev[k]).1 >= prev[k].0 * prev[j].1)
                && (forall|k: int| 0 <= k < j ==> prev[j].0 * (#[trigger] prev[k]).1 > prev[k].0 * prev[j].1);
            let held = prev[j];
            assert(held == cands[j]);
            if held.0 * c.1 >= c.0 * held.1 {
                assert(affinity_fold(None, cands) == Some(cands[j]));
                assert forall|k: int| 0 <= k < cands.len() implies cands[j].0 * (#[trigger] cands[k]).1 >= cands[k].0 * cands[j].1 by {
                    if k < prev.len() {
                        assert(cands[k] == prev[k]);
                    }
                }
                assert forall|k: int| 0 <= k < j implies cands[j].0 * (#[trigger] cands[k]).1 > cands[k].0 * cands[j].1 by {
                    assert(cands[k] == prev[k]);
                }
            } else {
                let l = cands.len() - 1;
                assert(affinity_fold(None, cands) == Some(cands[l]));
                assert(c.0 * held.1 > held.0 * c.1);
                assert forall|k: int| 0 <= k < cands.len() implies cands[l].0 * (#[trigger] cands[k]).1 >= cands[k].0 * cands[l].1 by {
                    if k < prev.len() {
                        assert(cands[k] == prev[k]);
                        assert(prev[k].0 > 0);
                        lemma_beats_trans(c, held, prev[k]);
                    }
                }
                assert forall|k: int| 0 <= k < l implies cands[l].0 * (#[trigger] cands[k]).1 > cands[k].0 * cands[l].1 by {
                    assert(cands[k] == prev[k]);
                    assert(prev[k].0 > 0);
                    lemma_beats_trans(c, held, prev[k]);
                }
            }
        }
    }
}

proof fn lemma_candidates_positive(sels: Seq<SelectionView>, rs: &Ruleset)
    ensures
        forall|k: int| 0 <= k < mastery_candidates_of(sels, rs).len() ==> #[trigger] mastery_candidates_of(sels, rs)[k].0 > 0,
    decreases sels.len(),
{
    if sels.len() > 0 {
        lemma_candidates_positive(sels.drop_last(), rs);
        let prev = mastery_candidates_of(sels.drop_last(), rs);
        match find(rs.point_items@, sels.last().item_ref) {
            Some(item) => {
                lemma_item_candidates_positive(item.effects@);
                let t = item_mastery_candidates(item.effects@);
                assert forall|k: int| 0 <= k < mastery_candidates_of(sels, rs).len() implies #[trigger] mastery_candidates_of(sels, rs)[k].0 > 0 by {
                    if k < prev.len() {
                        assert(mastery_candidates_of(sels, rs)[k] == prev[k]);
                    } else {
                        assert(mastery_candidates_of(sels, rs)[k] == t[k - prev.len()]);
                    }
                }
            },
            None => {
                assert(mastery_candidates_of(sels, rs) =~= prev);
            },
        }
    }
}

proof fn lemma_item_candidates_positive(effects: Seq<Effect>)
    ensures
        forall|k: int| 0 <= k < item_mastery_candidates(effects).len() ==> #[trigger] item_mastery_candidates(effects)[k].0 > 0,
    decreases effects.len(),
{
    if effects.len() > 0 {
        lemma_item_candidates_positive(effects.drop_last());
        let prev = item_mastery_candidates(effects.drop_last());
        let tail = effect_candidate(effects.last());
        assert(item_mastery_candidates(effects) == prev + tail);
        assert forall|k: int| 0 <= k < item_mastery_candidates(effects).len() implies #[trigger] item_mastery_candidates(effects)[k].0 > 0 by {
            if k < prev.len() {
                assert(item_mastery_candidates(effects)[k] == prev[k]);
            } else {
                assert(item_mastery_candidates(effects)[k] == tail[k - prev.len()]);
            }
        }
    }
}

/// Spell Mastery Affinities do not stack: the one that reduces mastery
/// purchases is the most generous of the entity's mastery grants that
/// multiply Advancement Totals, the earliest among equals, and there is
/// none without such a grant.
pub proof fn law_mastery_affinity_is_the_most_generous(entity: &Entity, ruleset: &Ruleset)
    ensures
        mastery_affinity_spec(entity, ruleset) == affinity_fold(None, mastery_candidates(entity, ruleset)),
        (mastery_affinity_spec(entity, ruleset) is None) == (mastery_candidates(entity, ruleset).len() == 0),
        mastery_candidates(entity, ruleset).len() > 0 ==> exists|j: int| 0 <= j < mastery_candidates(entity, ruleset).len()
            && mastery_affinity_spec(entity, ruleset) == Some(mastery_candidates(entity, ruleset)[j])
            && (forall|k: int| 0 <= k < mastery_candidates(entity, ruleset).len() ==>
                mastery_candidates(entity, ruleset)[j].0 * (#[trigger] mastery_candidates(entity, ruleset)[k]).1
                    >= mastery_candidates(entity, ruleset)[k].0 * mastery_candidates(entity, ruleset)[j].1)
            && (forall|k: int| 0 <= k < j ==>
                mastery_candidates(entity, ruleset)[j].0 * (#[trigger] mastery_candidates(entity, ruleset)[k]).1
                    > mastery_candidates(entity, ruleset)[k].0 * mastery_candidates(entity, ruleset)[j].1),
{
    let f = |a: Option<(u8, u8)>, x: SelectionView, e: Effect| mastery_affinity_step(a, x, e);
    assert(mastery_affinity_spec(entity, ruleset) == fold_sels(None, effect_selections(entity, ruleset), ruleset, f));
    lemma_sels_fold(None, effect_selections(entity, ruleset), ruleset, f);
    lemma_candidates_positive(effect_selections(entity, ruleset), ruleset);
    law_the_fold_keeps_the_earliest_most_generous(mastery_candidates(entity, ruleset));
}

/// A spell's mastery: the bought score, never below the free floor.
pub open spec fn effective_mastery_spec(sel: &SpellSelection, entity: &Entity, ruleset: &Ruleset) -> u8 {
    let bought: u8 = match sel.mastery { Some(m) => m, None => 0 };
    let floor = mastery_floor_spec(entity, ruleset);
    if bought > floor { bought } else { floor }
}

/// The effective Spell Mastery of one known spell.
pub fn effective_spell_mastery(sel: &SpellSelection, entity: &Entity, ruleset: &Ruleset) -> (r: u8)
    ensures
        r == effective_mastery_spec(sel, entity, ruleset),
{
    let bought: u8 = match sel.mastery { Some(m) => m, None => 0 };
    let floor = spell_mastery_floor(entity, ruleset);
    if bought > floor { bought } else { floor }
}

/// The summed resolved levels of the first known spells (unresolved ones
/// count nothing), saturating at `u32::MAX`.
pub open spec fn levels_used(spells: Seq<SpellSelection>, ruleset: &Ruleset) -> u32
    decreases spells.len(),
{
    if spells.len() == 0 {
        0
    } else {
        let before = levels_used(spells.drop_last(), ruleset);
        match resolved_level_spec(&spells.last(), ruleset) {
            Some(l) => clamp_u32(before + l),
            None => before,
        }
    }
}

/// The spell levels the entity's known spells spend.
pub fn spell_levels_used(entity: &Entity, ruleset: &Ruleset) -> (r: u32)
    ensures
        r == levels_used(entity.spells@, ruleset),
{
    let mut total: u32 = 0;
    let mut i: usize = 0;
    while i < entity.spells.len()
        invariant
            i <= entity.spells@.len(),
            total == levels_used(entity.spells@.take(i as int), ruleset),
        decreases entity.spells.len() - i,
    {
        proof {
            assert(entity.spells@.take(i + 1).drop_last() =~= entity.spells@.take(i as int));
        }
        match resolved_spell_level(&entity.spells[i], ruleset) {
            Some(l) => { total = total.saturating_add(l); },
            None => {},
        }
        i += 1;
    }
    assert(entity.spells@.take(entity.spells.len() as int) =~= entity.spells@);
    total
}

} // verus!
