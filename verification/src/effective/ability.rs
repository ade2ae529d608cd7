//! Ability scoring: flat bonuses (Puissant Ability) and free starting-score
//! floors (Ability Score Grant).
use vstd::prelude::*;
use crate::catalog::{find, Keyed};
use crate::effective::{clamp_i32, effect_selections, fold_effects, fold_effects_mut, fold_item, fold_sels, sat_add_i32, selections_for_effects, step_fn, view_step_fn, EffectStep, EffectStepMut};
use crate::entity::{AbilityScore, Entity};
use crate::ruleset::Ruleset;
use crate::text::{seq_lt, str_eq, str_lt};
use crate::types::{lookup, Effect, Id, Selection, SelectionView};

verus! {

/// The view of an optional string slice.
pub open spec fn opt_view(p: Option<&str>) -> Option<Seq<char>> {
    match p {
        Some(s) => Some(s@),
        None => None,
    }
}

/// The view of an optional string.
pub open spec fn opt_string_view(p: Option<String>) -> Option<Seq<char>> {
    match p {
        Some(s) => Some(s@),
        None => None,
    }
}

/// The slice of an optional string.
pub fn opt_str(p: &Option<String>) -> (r: Option<&str>)
    ensures
        opt_view(r) == opt_string_view(*p),
{
    match p {
        Some(s) => Some(s.as_str()),
        None => None,
    }
}

/// Whether two optional strings are equal.
pub fn opt_eq(a: Option<&str>, b: Option<&str>) -> (r: bool)
    ensures
        r == (opt_view(a) == opt_view(b)),
{
    match (a, b) {
        (Some(x), Some(y)) => str_eq(x, y),
        (None, None) => true,
        _ => false,
    }
}

/// The instance discriminator key of the Ability `ability`, when it is a
/// parameterized Ability.
pub open spec fn instance_key_spec(rs: &Ruleset, ability: Seq<char>) -> Option<Seq<char>> {
    match find(rs.abilities@, ability) {
        Some(def) => opt_string_view(def.parameter),
        None => None,
    }
}

/// Whether a selection targets the `(ability, parameter)` instance: a plain
/// Ability by id alone; a parameterized one only when the selection names the
/// same instance under the Ability's own key.
pub open spec fn targets_instance(s: SelectionView, instance_key: Option<Seq<char>>, parameter: Option<Seq<char>>) -> bool {
    match instance_key {
        None => true,
        Some(key) => match lookup(s.params, key) {
            Some(named) => parameter == Some(named),
            None => false,
        },
    }
}

/// One step of the ability-bonus fold: an [`Effect::AbilityBonus`] whose
/// selection names `ability` (and, for a parameterized Ability, the same
/// instance) adds its amount.
pub open spec fn ability_bonus_step(ability: Seq<char>, parameter: Option<Seq<char>>, key: Option<Seq<char>>, acc: i32, s: SelectionView, e: Effect) -> i32 {
    match e {
        Effect::AbilityBonus { param, amount } => {
            if lookup(s.params, param@) == Some(ability) && targets_instance(s, key, parameter) {
                clamp_i32(acc + amount)
            } else {
                acc
            }
        },
        _ => acc,
    }
}

/// [`ability_bonus_step`] as a fold function.
pub open spec fn ability_bonus_fn(ability: Seq<char>, parameter: Option<Seq<char>>, key: Option<Seq<char>>) -> spec_fn(i32, SelectionView, Effect) -> i32 {
    |a: i32, s: SelectionView, e: Effect| ability_bonus_step(ability, parameter, key, a, s, e)
}

/// Adds the [`Effect::AbilityBonus`] amounts aimed at one Ability instance.
pub struct AbilityBonusStep<'a> {
    pub ability: &'a str,
    pub parameter: Option<&'a str>,
    pub instance_key: Option<&'a str>,
}

impl<'a> EffectStep<i32> for AbilityBonusStep<'a> {
    open spec fn step_spec(&self, acc: i32, s: SelectionView, e: Effect) -> i32 {
        ability_bonus_step(self.ability@, opt_view(self.parameter), opt_view(self.instance_key), acc, s, e)
    }

    fn step(&self, acc: i32, s: &Selection, e: &Effect) -> (r: i32) {
        match e {
            Effect::AbilityBonus { param, amount } => {
                let aimed = match s.param(param.as_str()) {
                    Some(v) => str_eq(v.as_str(), self.ability),
                    None => false,
                };
                if !aimed {
                    return acc;
                }
                let matches = match self.instance_key {
                    None => true,
                    Some(key) => match s.param(key) {
                        Some(named) => opt_eq(self.parameter, Some(named.as_str())),
                        None => false,
                    },
                };
                if matches { sat_add_i32(acc, *amount as i32) } else { acc }
            },
            _ => acc,
        }
    }
}

/// The summed ability-bonus effects aimed at the `(ability, parameter)`
/// instance (saturating).
pub open spec fn ability_bonus_spec(entity: &Entity, ruleset: &Ruleset, ability: Seq<char>, parameter: Option<Seq<char>>) -> i32 {
    fold_sels(0i32, effect_selections(entity, ruleset), ruleset, ability_bonus_fn(ability, parameter, instance_key_spec(ruleset, ability)))
}

/// The instance key of `ability`'s catalogue entry.
fn instance_key<'a>(ruleset: &'a Ruleset, ability: &str) -> (r: Option<&'a str>)
    ensures
        opt_view(r) == instance_key_spec(ruleset, ability@),
{
    match ruleset.ability(ability) {
        Some(def) => opt_str(&def.parameter),
        None => None,
    }
}

/// Sum of all ability-bonus effects (Puissant Ability) aimed at one Ability
/// instance. A parameterized Ability ((Area) Lore) needs the selection to name
/// the same instance under the Ability's own key; a plain Ability matches by
/// id. Bonuses stack.
pub fn ability_bonus(entity: &Entity, ruleset: &Ruleset, ability: &str, parameter: Option<&str>) -> (r: i32)
    ensures
        r == ability_bonus_spec(entity, ruleset, ability@, opt_view(parameter)),
{
    let key = instance_key(ruleset, ability);
    let sels = selections_for_effects(entity, ruleset);
    let step = AbilityBonusStep { ability, parameter, instance_key: key };
    let r = fold_effects(&sels, ruleset, 0i32, &step);
    proof {
        assert(step_fn(step) =~= ability_bonus_fn(ability@, opt_view(parameter), instance_key_spec(ruleset, ability@)));
    }
    r
}

/// The highest bought score for the `(ability, parameter)` instance (0 when
/// none is bought).
pub open spec fn bought_ability(rows: Seq<AbilityScore>, ability: Seq<char>, parameter: Option<Seq<char>>) -> int
    decreases rows.len(),
{
    if rows.len() == 0 {
        0
    } else {
        let before = bought_ability(rows.drop_last(), ability, parameter);
        let last = rows.last();
        if last.ability@ == ability && opt_string_view(last.parameter) == parameter && last.score > before {
            last.score as int
        } else {
            before
        }
    }
}

/// The highest bought score the entity holds for the instance.
pub fn bought_ability_score(entity: &Entity, ability: &str, parameter: Option<&str>) -> (r: i32)
    ensures
        r == bought_ability(entity.ability_scores@, ability@, opt_view(parameter)),
        0 <= r <= 255,
{
    let mut best: i32 = 0;
    let mut i: usize = 0;
    while i < entity.ability_scores.len()
        invariant
            i <= entity.ability_scores.len(),
            best == bought_ability(entity.ability_scores@.take(i as int), ability@, opt_view(parameter)),
            0 <= best <= 255,
        decreases entity.ability_scores.len() - i,
    {
        proof {
            assert(entity.ability_scores@.take(i + 1).drop_last() =~= entity.ability_scores@.take(i as int));
        }
        let row = &entity.ability_scores[i];
        if str_eq(row.ability.as_str(), ability) && opt_eq(opt_str(&row.parameter), parameter) && row.score as i32 > best {
            best = row.score as i32;
        }
        i += 1;
    }
    assert(entity.ability_scores@.take(entity.ability_scores.len() as int) =~= entity.ability_scores@);
    best
}

/// One step of the granted-floor fold: the highest [`Effect::AbilityScoreGrant`]
/// to `ability`.
pub open spec fn floor_step(ability: Seq<char>, acc: i32, s: SelectionView, e: Effect) -> i32 {
    match e {
        Effect::AbilityScoreGrant { ability: granted, amount } => {
            if granted@ == ability && amount > acc { amount as i32 } else { acc }
        },
        _ => acc,
    }
}

/// [`floor_step`] as a fold function.
pub open spec fn floor_fn(ability: Seq<char>) -> spec_fn(i32, SelectionView, Effect) -> i32 {
    |a: i32, s: SelectionView, e: Effect| floor_step(ability, a, s, e)
}

/// Keeps the highest [`Effect::AbilityScoreGrant`] to one Ability.
pub struct FloorStep<'a> {
    pub ability: &'a str,
}

impl<'a> EffectStep<i32> for FloorStep<'a> {
    open spec fn step_spec(&self, acc: i32, s: SelectionView, e: Effect) -> i32 {
        floor_step(self.ability@, acc, s, e)
    }

    fn step(&self, acc: i32, s: &Selection, e: &Effect) -> (r: i32) {
        match e {
            Effect::AbilityScoreGrant { ability: granted, amount } => {
                if str_eq(granted.as_str(), self.ability) && (*amount as i32) > acc { *amount as i32 } else { acc }
            },
            _ => acc,
        }
    }
}

/// The free starting score granted to the instance: the highest grant to the
/// Ability for its parameterless instance, 0 for any other instance.
pub open spec fn granted_floor_spec(entity: &Entity, ruleset: &Ruleset, ability: Seq<char>, parameter: Option<Seq<char>>) -> i32 {
    if parameter is Some {
        0
    } else {
        fold_sels(0i32, effect_selections(entity, ruleset), ruleset, floor_fn(ability))
    }
}

pub proof fn lemma_floor_item_bounds(acc: i32, s: SelectionView, effects: Seq<Effect>, ability: Seq<char>)
    requires
        0 <= acc <= 255,
    ensures
        0 <= fold_item(acc, s, effects, floor_fn(ability)) <= 255,
    decreases effects.len(),
{
    if effects.len() > 0 {
        lemma_floor_item_bounds(acc, s, effects.drop_last(), ability);
    }
}

pub proof fn lemma_floor_bounds(sels: Seq<SelectionView>, rs: &Ruleset, ability: Seq<char>)
    ensures
        0 <= fold_sels(0i32, sels, rs, floor_fn(ability)) <= 255,
    decreases sels.len(),
{
    if sels.len() > 0 {
        lemma_floor_bounds(sels.drop_last(), rs, ability);
        match find(rs.point_items@, sels.last().item_ref) {
            Some(item) => lemma_floor_item_bounds(fold_sels(0i32, sels.drop_last(), rs, floor_fn(ability)), sels.last(), item.effects@, ability),
            None => {},
        }
    }
}

/// The highest free starting score granted to `ability` by an
/// [`Effect::AbilityScoreGrant`] (Second Sight seeding Second Sight 1). Grants
/// reach only the parameterless instance and do not stack: the highest wins.
pub fn granted_ability_floor(entity: &Entity, ruleset: &Ruleset, ability: &str, parameter: Option<&str>) -> (r: i32)
    ensures
        r == granted_floor_spec(entity, ruleset, ability@, opt_view(parameter)),
        0 <= r <= 255,
{
    if parameter.is_some() {
        return 0;
    }
    let sels = selections_for_effects(entity, ruleset);
    let step = FloorStep { ability };
    let r = fold_effects(&sels, ruleset, 0i32, &step);
    proof {
        assert(step_fn(step) =~= floor_fn(ability@));
        lemma_floor_bounds(effect_selections(entity, ruleset), ruleset, ability@);
    }
    r
}

/// The effective score of the instance: the higher of its bought score and
/// its granted floor, plus its bonus (saturating).
pub open spec fn effective_ability_spec(entity: &Entity, ruleset: &Ruleset, ability: Seq<char>, parameter: Option<Seq<char>>) -> i32 {
    let bought = bought_ability(entity.ability_scores@, ability, parameter);
    let floor = granted_floor_spec(entity, ruleset, ability, parameter) as int;
    let base = if bought > floor { bought } else { floor };
    clamp_i32(base + ability_bonus_spec(entity, ruleset, ability, parameter))
}

/// The effective score of the `(ability, parameter)` instance: the higher of
/// the best bought score and the granted floor, plus its bonus. An instance
/// the entity has not bought counts as 0.
pub fn effective_ability_score(entity: &Entity, ruleset: &Ruleset, ability: &str, parameter: Option<&str>) -> (r: i32)
    ensures
        r == effective_ability_spec(entity, ruleset, ability@, opt_view(parameter)),
{
    let bought = bought_ability_score(entity, ability, parameter);
    let floor = granted_ability_floor(entity, ruleset, ability, parameter);
    let base = if bought > floor { bought } else { floor };
    sat_add_i32(base, ability_bonus(entity, ruleset, ability, parameter))
}

/// A granted floor never lowers a score: the effective score of an instance
/// is at least its best bought score plus its bonus, and at least its floor
/// plus its bonus.
pub proof fn law_granted_floor_never_lowers_a_score(entity: &Entity, ruleset: &Ruleset, ability: Seq<char>, parameter: Option<Seq<char>>)
    ensures
        effective_ability_spec(entity, ruleset, ability, parameter)
            >= clamp_i32(bought_ability(entity.ability_scores@, ability, parameter) + ability_bonus_spec(entity, ruleset, ability, parameter)),
        effective_ability_spec(entity, ruleset, ability, parameter)
            >= clamp_i32(granted_floor_spec(entity, ruleset, ability, parameter) + ability_bonus_spec(entity, ruleset, ability, parameter)),
{
}

/// A non-zero bonus aimed at one bought Ability instance.
#[derive(Debug, PartialEq, Eq)]
pub struct AbilityBonus {
    pub ability: Id,
    pub parameter: Option<String>,
    pub bonus: i32,
}

/// The bonus of the `i`-th bought instance.
pub open spec fn row_bonus(entity: &Entity, ruleset: &Ruleset, i: int) -> i32 {
    ability_bonus_spec(entity, ruleset, entity.ability_scores@[i].ability@, opt_string_view(entity.ability_scores@[i].parameter))
}

/// The bought rows whose bonus is non-zero, as `(row index)` list.
pub open spec fn bonus_rows(entity: &Entity, ruleset: &Ruleset, n: int) -> Seq<int>
    decreases n,
{
    if n <= 0 {
        Seq::empty()
    } else {
        let before = bonus_rows(entity, ruleset, n - 1);
        if row_bonus(entity, ruleset, n - 1) != 0 { before.push(n - 1) } else { before }
    }
}

/// Non-zero ability bonuses, one per bought Ability instance, in bought order;
/// instances with no bonus are omitted.
pub fn ability_bonuses(entity: &Entity, ruleset: &Ruleset) -> (r: Vec<AbilityBonus>)
    ensures
        r@.len() == bonus_rows(entity, ruleset, entity.ability_scores@.len() as int).len(),
        forall|k: int| 0 <= k < r@.len() ==> {
            let i = #[trigger] bonus_rows(entity, ruleset, entity.ability_scores@.len() as int)[k];
            &&& r@[k].ability@ == entity.ability_scores@[i].ability@
            &&& opt_string_view(r@[k].parameter) == opt_string_view(entity.ability_scores@[i].parameter)
            &&& r@[k].bonus == row_bonus(entity, ruleset, i)
        },
{
    let mut out: Vec<AbilityBonus> = Vec::new();
    let mut i: usize = 0;
    while i < entity.ability_scores.len()
        invariant
            i <= entity.ability_scores.len(),
            out@.len() == bonus_rows(entity, ruleset, i as int).len(),
            forall|k: int| 0 <= k < out@.len() ==> {
                let j = #[trigger] bonus_rows(entity, ruleset, i as int)[k];
                &&& 0 <= j < i
                &&& out@[k].ability@ == entity.ability_scores@[j].ability@
                &&& opt_string_view(out@[k].parameter) == opt_string_view(entity.ability_scores@[j].parameter)
                &&& out@[k].bonus == row_bonus(entity, ruleset, j)
            },
        decreases entity.ability_scores.len() - i,
    {
        let row = &entity.ability_scores[i];
        let bonus = ability_bonus(entity, ruleset, row.ability.as_str(), opt_str(&row.parameter));
        if bonus != 0 {
            let parameter = match &row.parameter {
                Some(p) => Some(p.clone()),
                None => None,
            };
            out.push(AbilityBonus { ability: row.ability.clone(), parameter, bonus });
        }
        i += 1;
        proof {
            assert forall|k: int| 0 <= k < out@.len() implies {
                let j = #[trigger] bonus_rows(entity, ruleset, i as int)[k];
                &&& 0 <= j < i
                &&& out@[k].ability@ == entity.ability_scores@[j].ability@
                &&& opt_string_view(out@[k].parameter) == opt_string_view(entity.ability_scores@[j].parameter)
                &&& out@[k].bonus == row_bonus(entity, ruleset, j)
            } by {
                if k < bonus_rows(entity, ruleset, i - 1).len() {
                    assert(bonus_rows(entity, ruleset, i as int)[k] == bonus_rows(entity, ruleset, i - 1)[k]);
                }
            }
        }
    }
    out
}

/// A free starting-score floor a virtue grants to one Ability.
#[derive(Debug, PartialEq, Eq)]
pub struct AbilityFloor {
    pub ability: Id,
    pub floor: i32,
}

/// `acc` (kept in ascending id order) with a grant of `amount` to `id`
/// merged in: an id already present keeps the higher floor; a new one is
/// inserted in order.
pub open spec fn merge_floor(acc: Seq<(Seq<char>, i32)>, id: Seq<char>, amount: i32) -> Seq<(Seq<char>, i32)>
    decreases acc.len(),
{
    if acc.len() == 0 {
        seq![(id, amount)]
    } else if acc[0].0 == id {
        seq![(id, if acc[0].1 > amount { acc[0].1 } else { amount })] + acc.drop_first()
    } else if seq_lt(acc[0].0, id) {
        seq![acc[0]] + merge_floor(acc.drop_first(), id, amount)
    } else {
        seq![(id, amount)] + acc
    }
}

/// One step of the floors fold: an [`Effect::AbilityScoreGrant`] merges its
/// floor in.
pub open spec fn floors_step(acc: Seq<(Seq<char>, i32)>, s: SelectionView, e: Effect) -> Seq<(Seq<char>, i32)> {
    match e {
        Effect::AbilityScoreGrant { ability, amount } => merge_floor(acc, ability@, amount as i32),
        _ => acc,
    }
}

/// The floors gathered so far, viewed as `(id, floor)` pairs.
pub struct FloorList {
    pub rows: Vec<AbilityFloor>,
}

impl View for FloorList {
    type V = Seq<(Seq<char>, i32)>;

    open spec fn view(&self) -> Seq<(Seq<char>, i32)> {
        self.rows@.map_values(|f: AbilityFloor| (f.ability@, f.floor))
    }
}

fn merge_into(list: &mut FloorList, id: &Id, amount: i32)
    ensures
        final(list)@ == merge_floor(old(list)@, id@, amount),
{
    let ghost start = list@;
    let mut old_rows: Vec<AbilityFloor> = Vec::new();
    std::mem::swap(&mut old_rows, &mut list.rows);
    let ghost rows_view = old_rows@.map_values(|f: AbilityFloor| (f.ability@, f.floor));
    assert(rows_view == start);
    let mut out: Vec<AbilityFloor> = Vec::new();
    let mut i: usize = 0;
    let len = old_rows.len();
    proof {
        assert(rows_view.skip(0) =~= rows_view);
        assert(out@.map_values(|f: AbilityFloor| (f.ability@, f.floor)) =~= Seq::<(Seq<char>, i32)>::empty());
        assert(Seq::<(Seq<char>, i32)>::empty() + merge_floor(rows_view, id@, amount) =~= merge_floor(rows_view, id@, amount));
    }
    while i < len && str_lt(old_rows[i].ability.as_str(), id.as_str())
        invariant
            len == old_rows@.len(),
            i <= len,
            rows_view == old_rows@.map_values(|f: AbilityFloor| (f.ability@, f.floor)),
            out@.map_values(|f: AbilityFloor| (f.ability@, f.floor)) + merge_floor(rows_view.skip(i as int), id@, amount) == merge_floor(start, id@, amount),
            start == rows_view,
        decreases len - i,
    {
        proof {
            assert(rows_view.skip(i as int)[0] == rows_view[i as int]);
            assert(rows_view.skip(i as int).drop_first() =~= rows_view.skip(i + 1));
            if rows_view[i as int].0 == id@ {
                assert(!seq_lt(id@, id@)) by { lemma_seq_lt_irreflexive(id@); }
            }
        }
        let ghost before = out@;
        out.push(AbilityFloor { ability: old_rows[i].ability.clone(), floor: old_rows[i].floor });
        proof {
            assert(out@.map_values(|f: AbilityFloor| (f.ability@, f.floor)) =~= before.map_values(|f: AbilityFloor| (f.ability@, f.floor)).push(rows_view[i as int]));
            assert(seq![rows_view[i as int]] + merge_floor(rows_view.skip(i + 1), id@, amount) =~= merge_floor(rows_view.skip(i as int), id@, amount));
            assert(out@.map_values(|f: AbilityFloor| (f.ability@, f.floor)) + merge_floor(rows_view.skip(i + 1), id@, amount)
                =~= before.map_values(|f: AbilityFloor| (f.ability@, f.floor)) + merge_floor(rows_view.skip(i as int), id@, amount));
        }
        i += 1;
    }
    let mut rest = i;
    if i < len && str_eq(old_rows[i].ability.as_str(), id.as_str()) {
        let current = old_rows[i].floor;
        let ghost before = out@;
        out.push(AbilityFloor { ability: id.clone(), floor: if current > amount { current } else { amount } });
        proof {
            assert(rows_view.skip(i as int)[0] == rows_view[i as int]);
            assert(out@.map_values(|f: AbilityFloor| (f.ability@, f.floor)) =~= before.map_values(|f: AbilityFloor| (f.ability@, f.floor)).push((id@, if current > amount { current } else { amount })));
            assert(rows_view.skip(i as int).drop_first() =~= rows_view.skip(i + 1));
        }
        rest = i + 1;
    } else {
        let ghost before = out@;
        out.push(AbilityFloor { ability: id.clone(), floor: amount });
        proof {
            if i < len {
                assert(rows_view.skip(i as int)[0] == rows_view[i as int]);
            } else {
                assert(rows_view.skip(i as int) =~= Seq::<(Seq<char>, i32)>::empty());
            }
            assert(out@.map_values(|f: AbilityFloor| (f.ability@, f.floor)) =~= before.map_values(|f: AbilityFloor| (f.ability@, f.floor)).push((id@, amount)));
        }
    }
    proof {
        assert(out@.map_values(|f: AbilityFloor| (f.ability@, f.floor)) + rows_view.skip(rest as int) =~= merge_floor(start, id@, amount));
    }
    let mut k = rest;
    while k < len
        invariant
            len == old_rows@.len(),
            rest <= k <= len,
            rows_view == old_rows@.map_values(|f: AbilityFloor| (f.ability@, f.floor)),
            out@.map_values(|f: AbilityFloor| (f.ability@, f.floor)) + rows_view.skip(k as int) == merge_floor(start, id@, amount),
        decreases len - k,
    {
        let ghost before = out@;
        out.push(AbilityFloor { ability: old_rows[k].ability.clone(), floor: old_rows[k].floor });
        proof {
            assert(out@.map_values(|f: AbilityFloor| (f.ability@, f.floor)) =~= before.map_values(|f: AbilityFloor| (f.ability@, f.floor)).push(rows_view[k as int]));
            assert(before.map_values(|f: AbilityFloor| (f.ability@, f.floor)) + rows_view.skip(k as int)
                =~= out@.map_values(|f: AbilityFloor| (f.ability@, f.floor)) + rows_view.skip(k + 1));
        }
        k += 1;
    }
    proof {
        assert(rows_view.skip(len as int) =~= Seq::<(Seq<char>, i32)>::empty());
        assert(out@.map_values(|f: AbilityFloor| (f.ability@, f.floor)) =~= merge_floor(start, id@, amount));
    }
    list.rows = out;
}

/// No id sorts before itself.
pub proof fn lemma_seq_lt_irreflexive(a: Seq<char>)
    ensures
        !seq_lt(a, a),
    decreases a.len(),
{
    if a.len() > 0 {
        lemma_seq_lt_irreflexive(a.drop_first());
    }
}

/// Merges the floors of the [`Effect::AbilityScoreGrant`] effects.
pub struct FloorsStep;

impl EffectStepMut<FloorList> for FloorsStep {
    open spec fn step_view(&self, acc: Seq<(Seq<char>, i32)>, s: SelectionView, e: Effect) -> Seq<(Seq<char>, i32)> {
        floors_step(acc, s, e)
    }

    fn step_mut(&self, acc: &mut FloorList, s: &Selection, e: &Effect) {
        match e {
            Effect::AbilityScoreGrant { ability, amount } => merge_into(acc, ability, *amount as i32),
            _ => {},
        }
    }
}

/// The floors of every Ability a Virtue grants a free score in, in ascending
/// id order, each once with the highest grant.
pub open spec fn floors_spec(entity: &Entity, ruleset: &Ruleset) -> Seq<(Seq<char>, i32)> {
    fold_sels(Seq::empty(), effect_selections(entity, ruleset), ruleset, |a: Seq<(Seq<char>, i32)>, s: SelectionView, e: Effect| floors_step(a, s, e))
}

/// Every Ability granted a free starting score, with its floor (the highest
/// grant), in ascending id order.
pub fn ability_score_floors(entity: &Entity, ruleset: &Ruleset) -> (r: Vec<AbilityFloor>)
    ensures
        r@.map_values(|f: AbilityFloor| (f.ability@, f.floor)) == floors_spec(entity, ruleset),
{
    let sels = selections_for_effects(entity, ruleset);
    let mut list = FloorList { rows: Vec::new() };
    proof {
        assert(list@ =~= Seq::<(Seq<char>, i32)>::empty());
    }
    let step = FloorsStep;
    fold_effects_mut(&sels, ruleset, &mut list, &step);
    proof {
        assert(view_step_fn::<FloorList, FloorsStep>(step) =~= (|a: Seq<(Seq<char>, i32)>, s: SelectionView, e: Effect| floors_step(a, s, e)));
    }
    list.rows
}

} // verus!
