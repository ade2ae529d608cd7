//! Hermetic Art scoring: flat bonuses (Puissant Art) and the Elemental Magic
//! experience share between the four elemental Forms.
use vstd::prelude::*;
use crate::catalog::find;
use crate::effective::{clamp_i32, clamp_u32, effect_selections, fold_effects, fold_sels, sat_add_i32, selections_for_effects, step_fn, EffectStep};
use crate::entity::{ArtScore, Entity};
use crate::ruleset::{AdvancementTable, Ruleset};
use crate::text::str_eq;
use crate::types::{lookup, Effect, Id, Selection, SelectionView};

verus! {

/// One step of the art-bonus fold: an [`Effect::ArtBonus`] whose selection
/// names `art` adds its amount.
pub open spec fn art_bonus_step(art: Seq<char>, acc: i32, s: SelectionView, e: Effect) -> i32 {
    match e {
        Effect::ArtBonus { param, amount } => {
            if lookup(s.params, param@) == Some(art) { clamp_i32(acc + amount) } else { acc }
        },
        _ => acc,
    }
}

/// [`art_bonus_step`] as a fold function.
pub open spec fn art_bonus_fn(art: Seq<char>) -> spec_fn(i32, SelectionView, Effect) -> i32 {
    |a: i32, s: SelectionView, e: Effect| art_bonus_step(art, a, s, e)
}

/// Adds the [`Effect::ArtBonus`] amounts aimed at one Art.
pub struct ArtBonusStep<'a> {
    pub art: &'a str,
}

impl<'a> EffectStep<i32> for ArtBonusStep<'a> {
    open spec fn step_spec(&self, acc: i32, s: SelectionView, e: Effect) -> i32 {
        art_bonus_step(self.art@, acc, s, e)
    }

    fn step(&self, acc: i32, s: &Selection, e: &Effect) -> (r: i32) {
        match e {
            Effect::ArtBonus { param, amount } => {
                let aimed = match s.param(param.as_str()) {
                    Some(v) => str_eq(v.as_str(), self.art),
                    None => false,
                };
                if aimed { sat_add_i32(acc, *amount as i32) } else { acc }
            },
            _ => acc,
        }
    }
}

/// The summed art-bonus effects aimed at `art` (saturating).
pub open spec fn art_bonus_spec(entity: &Entity, ruleset: &Ruleset, art: Seq<char>) -> i32 {
    fold_sels(0i32, effect_selections(entity, ruleset), ruleset, art_bonus_fn(art))
}

/// The flat bonus the entity's Virtues add to one Art (Puissant Art +3).
pub fn art_bonus(entity: &Entity, ruleset: &Ruleset, art: &str) -> (r: i32)
    ensures
        r == art_bonus_spec(entity, ruleset, art@),
{
    let sels = selections_for_effects(entity, ruleset);
    let step = ArtBonusStep { art };
    let r = fold_effects(&sels, ruleset, 0i32, &step);
    proof {
        assert(step_fn(step) =~= art_bonus_fn(art@));
    }
    r
}

/// The best bought score of `art` among the first rows (0 when none).
pub open spec fn bought_art(rows: Seq<ArtScore>, art: Seq<char>) -> u8
    decreases rows.len(),
{
    if rows.len() == 0 {
        0
    } else {
        let before = bought_art(rows.drop_last(), art);
        if rows.last().art@ == art && rows.last().score > before { rows.last().score } else { before }
    }
}

/// The highest bought score of `art` (0 when unbought).
pub fn bought_art_score(entity: &Entity, art: &str) -> (r: u8)
    ensures
        r == bought_art(entity.art_scores@, art@),
{
    let mut best: u8 = 0;
    let mut i: usize = 0;
    while i < entity.art_scores.len()
        invariant
            i <= entity.art_scores.len(),
            best == bought_art(entity.art_scores@.take(i as int), art@),
        decreases entity.art_scores.len() - i,
    {
        proof {
            assert(entity.art_scores@.take(i + 1).drop_last() =~= entity.art_scores@.take(i as int));
        }
        let row = &entity.art_scores[i];
        if str_eq(row.art.as_str(), art) && row.score > best {
            best = row.score;
        }
        i += 1;
    }
    assert(entity.art_scores@.take(entity.art_scores.len() as int) =~= entity.art_scores@);
    best
}

/// The Forms named by the first [`Effect::ElementalMagic`] among one item's
/// first `k` effects.
pub open spec fn elemental_in_item(effects: Seq<Effect>) -> Option<Seq<Id>>
    decreases effects.len(),
{
    if effects.len() == 0 {
        None
    } else {
        match elemental_in_item(effects.drop_last()) {
            Some(f) => Some(f),
            None => match effects.last() {
                Effect::ElementalMagic { forms } => Some(forms@),
                _ => None,
            },
        }
    }
}

/// The Forms named by the first [`Effect::ElementalMagic`] among the
/// selections' items, in selection order.
pub open spec fn elemental_in_sels(sels: Seq<SelectionView>, rs: &Ruleset) -> Option<Seq<Id>>
    decreases sels.len(),
{
    if sels.len() == 0 {
        None
    } else {
        match elemental_in_sels(sels.drop_last(), rs) {
            Some(f) => Some(f),
            None => match find(rs.point_items@, sels.last().item_ref) {
                Some(item) => elemental_in_item(item.effects@),
                None => None,
            },
        }
    }
}

/// The elemental Forms of the entity's Elemental Magic, if it has it.
pub open spec fn elemental_forms_spec(entity: &Entity, ruleset: &Ruleset) -> Option<Seq<Id>> {
    elemental_in_sels(effect_selections(entity, ruleset), ruleset)
}

#[verifier::loop_isolation(false)]
fn elemental_magic_forms<'a>(sels: &'a Vec<Selection>, ruleset: &'a Ruleset) -> (r: Option<&'a Vec<Id>>)
    ensures
        match r {
            Some(v) => elemental_in_sels(crate::types::selection_views(sels@), ruleset) == Some(v@),
            None => elemental_in_sels(crate::types::selection_views(sels@), ruleset) is None,
        },
{
    let mut i: usize = 0;
    while i < sels.len()
        invariant
            i <= sels.len(),
            elemental_in_sels(crate::types::selection_views(sels@.take(i as int)), ruleset) is None,
        decreases sels.len() - i,
    {
        proof {
            assert(crate::types::selection_views(sels@.take(i + 1)).drop_last() =~= crate::types::selection_views(sels@.take(i as int)));
            assert(crate::types::selection_views(sels@.take(i + 1)).last() == sels@[i as int]@);
        }
        match ruleset.item(sels[i].item_ref.as_str()) {
            Some(item) => {
                let mut j: usize = 0;
                while j < item.effects.len()
                    invariant
                        j <= item.effects.len(),
                        elemental_in_item(item.effects@.take(j as int)) is None,
                    decreases item.effects.len() - j,
                {
                    proof {
                        assert(item.effects@.take(j + 1).drop_last() =~= item.effects@.take(j as int));
                    }
                    match &item.effects[j] {
                        Effect::ElementalMagic { forms } => {
                            proof {
                                lemma_elemental_in_item_prefix(item.effects@, j + 1);
                                assert(crate::types::selection_views(sels@).take(i + 1) =~= crate::types::selection_views(sels@.take(i + 1)));
                                lemma_elemental_in_sels_prefix(crate::types::selection_views(sels@), ruleset, i + 1);
                            }
                            return Some(forms);
                        },
                        _ => {},
                    }
                    j += 1;
                }
                assert(item.effects@.take(item.effects.len() as int) =~= item.effects@);
            },
            None => {},
        }
        i += 1;
    }
    assert(sels@.take(sels.len() as int) =~= sels@);
    None
}

proof fn lemma_elemental_in_item_prefix(effects: Seq<Effect>, k: int)
    requires
        0 <= k <= effects.len(),
        elemental_in_item(effects.take(k)) is Some,
    ensures
        elemental_in_item(effects) == elemental_in_item(effects.take(k)),
    decreases effects.len(),
{
    if k < effects.len() {
        assert(effects.drop_last().take(k) =~= effects.take(k));
        lemma_elemental_in_item_prefix(effects.drop_last(), k);
    } else {
        assert(effects.take(k) =~= effects);
    }
}

proof fn lemma_elemental_in_sels_prefix(sels: Seq<SelectionView>, rs: &Ruleset, k: int)
    requires
        0 <= k <= sels.len(),
        elemental_in_sels(sels.take(k), rs) is Some,
    ensures
        elemental_in_sels(sels, rs) == elemental_in_sels(sels.take(k), rs),
    decreases sels.len(),
{
    if k < sels.len() {
        assert(sels.drop_last().take(k) =~= sels.take(k));
        lemma_elemental_in_sels_prefix(sels.drop_last(), rs, k);
    } else {
        assert(sels.take(k) =~= sels);
    }
}

/// Whether `forms[i]` is the first occurrence of its id.
pub open spec fn first_occurrence(forms: Seq<Id>, i: int) -> bool {
    forall|j: int| 0 <= j < i ==> #[trigger] forms[j]@ != forms[i]@
}

/// The experience of an Art's bought score on the table (0 when unpriced).
pub open spec fn art_xp(table: AdvancementTable, entity: &Entity, art: Seq<char>) -> u32 {
    match table.xp_for_score_spec(bought_art(entity.art_scores@, art)) {
        Some(x) => x,
        None => 0,
    }
}

/// The experience the other elemental Forms lend `art`: half of each other
/// Form's experience (rounded up), each distinct Form counted once, summed
/// saturating.
pub open spec fn lent_xp(table: AdvancementTable, entity: &Entity, forms: Seq<Id>, art: Seq<char>) -> u32
    decreases forms.len(),
{
    if forms.len() == 0 {
        0
    } else {
        let before = lent_xp(table, entity, forms.drop_last(), art);
        let last = forms.len() - 1;
        if forms[last]@ != art && first_occurrence(forms, last) {
            let x = art_xp(table, entity, forms[last]@);
            clamp_u32(before + (x + 1) / 2)
        } else {
            before
        }
    }
}

/// The score Elemental Magic adds to `art`: the score its own experience plus
/// the lent experience reaches, less its bought score; 0 when the entity lacks
/// Elemental Magic or `art` is not one of its Forms.
pub open spec fn elemental_bonus_spec(entity: &Entity, ruleset: &Ruleset, art: Seq<char>) -> i32 {
    match elemental_forms_spec(entity, ruleset) {
        None => 0,
        Some(forms) => {
            if exists|i: int| 0 <= i < forms.len() && #[trigger] forms[i]@ == art {
                let table = ruleset.art_advancement;
                let own = art_xp(table, entity, art);
                let boosted = table.score_for_xp_spec(clamp_u32(own + lent_xp(table, entity, forms, art)));
                (boosted - bought_art(entity.art_scores@, art)) as i32
            } else {
                0
            }
        },
    }
}

fn contains_id(v: &Vec<Id>, upto: usize, key: &str) -> (r: bool)
    requires
        upto <= v@.len(),
    ensures
        r == exists|j: int| 0 <= j < upto && #[trigger] v@[j]@ == key@,
{
    let mut i: usize = 0;
    while i < upto
        invariant
            i <= upto <= v@.len(),
            forall|j: int| 0 <= j < i ==> #[trigger] v@[j]@ != key@,
        decreases upto - i,
    {
        if str_eq(v[i].as_str(), key) {
            return true;
        }
        i += 1;
    }
    false
}

fn elemental_form_bonus(entity: &Entity, ruleset: &Ruleset, art: &str) -> (r: i32)
    ensures
        r == elemental_bonus_spec(entity, ruleset, art@),
{
    let sels = selections_for_effects(entity, ruleset);
    let forms = match elemental_magic_forms(&sels, ruleset) {
        Some(f) => f,
        None => return 0,
    };
    if !contains_id(forms, forms.len(), art) {
        return 0;
    }
    let table = &ruleset.art_advancement;
    let own_score = bought_art_score(entity, art);
    let own_xp = match table.xp_for_score(own_score) {
        Some(x) => x,
        None => 0,
    };
    let mut bonus_xp: u32 = 0;
    let mut i: usize = 0;
    while i < forms.len()
        invariant
            i <= forms@.len(),
            bonus_xp == lent_xp(*table, entity, forms@.take(i as int), art@),
            table == &ruleset.art_advancement,
        decreases forms.len() - i,
    {
        proof {
            assert(forms@.take(i + 1).drop_last() =~= forms@.take(i as int));
            assert(forms@.take(i + 1)[i as int] == forms@[i as int]);
        }
        let other = &forms[i];
        let seen = contains_id(forms, i, other.as_str());
        proof {
            assert(first_occurrence(forms@.take(i + 1), i as int) == !seen) by {
                if seen {
                    let j = choose|j: int| 0 <= j < i && #[trigger] forms@[j]@ == other@;
                    assert(forms@.take(i + 1)[j] == forms@[j]);
                } else {
                    assert forall|j: int| 0 <= j < i implies #[trigger] forms@.take(i + 1)[j]@ != forms@.take(i + 1)[i as int]@ by {
                        assert(forms@.take(i + 1)[j] == forms@[j]);
                    }
                }
            }
        }
        if !str_eq(other.as_str(), art) && !seen {
            let other_xp = match table.xp_for_score(bought_art_score(entity, other.as_str())) {
                Some(x) => x,
                None => 0,
            };
            let half: u32 = other_xp / 2 + other_xp % 2;
            assert(half == (other_xp + 1) / 2);
            bonus_xp = bonus_xp.saturating_add(half);
        }
        i += 1;
    }
    assert(forms@.take(forms.len() as int) =~= forms@);
    let total = own_xp.saturating_add(bonus_xp);
    assert(total == clamp_u32(own_xp + bonus_xp));
    assert(elemental_forms_spec(entity, ruleset) == Some(forms@));
    assert(own_xp == art_xp(*table, entity, art@));
    let boosted = table.score_for_xp(total);
    boosted as i32 - own_score as i32
}

/// The effective score of an Art: its bought score plus its flat bonus plus
/// the Elemental Magic share (saturating).
pub open spec fn effective_art_spec(entity: &Entity, ruleset: &Ruleset, art: Seq<char>) -> i32 {
    clamp_i32(bought_art(entity.art_scores@, art) + art_bonus_spec(entity, ruleset, art) + elemental_bonus_spec(entity, ruleset, art))
}

/// The effective score of `art` (an unbought Art counts as 0).
pub fn effective_art_score(entity: &Entity, ruleset: &Ruleset, art: &str) -> (r: i32)
    ensures
        r == effective_art_spec(entity, ruleset, art@),
{
    let bought = bought_art_score(entity, art) as i32;
    let bonus = art_bonus(entity, ruleset, art);
    let elemental = elemental_form_bonus(entity, ruleset, art);
    let sum: i64 = bought as i64 + bonus as i64 + elemental as i64;
    if sum > i32::MAX as i64 {
        i32::MAX
    } else if sum < i32::MIN as i64 {
        i32::MIN
    } else {
        sum as i32
    }
}

/// A non-zero bonus aimed at one catalogue Art.
#[derive(Debug, PartialEq, Eq)]
pub struct ArtBonus {
    pub art: Id,
    pub bonus: i32,
}

/// The difference between the effective and bought score of the `i`-th
/// catalogue Art.
pub open spec fn art_row_bonus(entity: &Entity, ruleset: &Ruleset, i: int) -> int {
    let art = ruleset.arts@[i].id@;
    effective_art_spec(entity, ruleset, art) - bought_art(entity.art_scores@, art)
}

/// The catalogue Arts (by index) whose effective score differs from the bought
/// score, among the first `n`.
pub open spec fn art_bonus_rows(entity: &Entity, ruleset: &Ruleset, n: int) -> Seq<int>
    decreases n,
{
    if n <= 0 {
        Seq::empty()
    } else {
        let before = art_bonus_rows(entity, ruleset, n - 1);
        if art_row_bonus(entity, ruleset, n - 1) != 0 { before.push(n - 1) } else { before }
    }
}

/// Every catalogue Art whose effective score differs from its bought score,
/// with the difference, in catalogue order.
pub fn art_bonuses(entity: &Entity, ruleset: &Ruleset) -> (r: Vec<ArtBonus>)
    ensures
        r@.len() == art_bonus_rows(entity, ruleset, ruleset.arts@.len() as int).len(),
        forall|k: int| 0 <= k < r@.len() ==> {
            let i = #[trigger] art_bonus_rows(entity, ruleset, ruleset.arts@.len() as int)[k];
            &&& r@[k].art@ == ruleset.arts@[i].id@
            &&& r@[k].bonus == clamp_i32(art_row_bonus(entity, ruleset, i))
        },
{
    let mut out: Vec<ArtBonus> = Vec::new();
    let mut i: usize = 0;
    while i < ruleset.arts.len()
        invariant
            i <= ruleset.arts.len(),
            out@.len() == art_bonus_rows(entity, ruleset, i as int).len(),
            forall|k: int| 0 <= k < out@.len() ==> {
                let j = #[trigger] art_bonus_rows(entity, ruleset, i as int)[k];
                &&& 0 <= j < i
                &&& out@[k].art@ == ruleset.arts@[j].id@
                &&& out@[k].bonus == clamp_i32(art_row_bonus(entity, ruleset, j))
            },
        decreases ruleset.arts.len() - i,
    {
        let id = &ruleset.arts[i].id;
        let effective = effective_art_score(entity, ruleset, id.as_str());
        let bought = bought_art_score(entity, id.as_str());
        let bonus: i64 = effective as i64 - bought as i64;
        if bonus != 0 {
            let clamped: i32 = if bonus < i32::MIN as i64 { i32::MIN } else { bonus as i32 };
            out.push(ArtBonus { art: id.clone(), bonus: clamped });
        }
        i += 1;
        proof {
            assert forall|k: int| 0 <= k < out@.len() implies {
                let j = #[trigger] art_bonus_rows(entity, ruleset, i as int)[k];
                &&& 0 <= j < i
                &&& out@[k].art@ == ruleset.arts@[j].id@
                &&& out@[k].bonus == clamp_i32(art_row_bonus(entity, ruleset, j))
            } by {
                if k < art_bonus_rows(entity, ruleset, i - 1).len() {
                    assert(art_bonus_rows(entity, ruleset, i as int)[k] == art_bonus_rows(entity, ruleset, i - 1)[k]);
                }
            }
        }
    }
    out
}

} // verus!
