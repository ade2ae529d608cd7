//! Life-stage experience: the blocks of experience a character accumulates
//! before play (childhood, later life, apprenticeship, the years after the
//! Gauntlet).
use vstd::prelude::*;
use crate::effective::ability::opt_string_view;
use crate::effective::{effect_selections, fold_effects, fold_sels, selections_for_effects, step_fn, EffectStep};
use crate::entity::{AbilityScore, Entity};
use crate::ruleset::Ruleset;
use crate::text::str_eq;
use crate::types::{Effect, Id, Selection, SelectionView};

verus! {

/// The life-stage experience rules.
#[derive(Debug)]
pub struct LifeStageRules {
    pub apprenticeship: Option<ApprenticeshipRules>,
    pub childhood: ChildhoodRules,
    pub later_life: LaterLifeRules,
    pub post_apprenticeship: Option<PostApprenticeshipRules>,
}

/// Apprenticeship: its years, its experience, and the Abilities the Order
/// demands and recommends at its end.
#[derive(Debug)]
pub struct ApprenticeshipRules {
    pub minimum_abilities: Vec<AbilityRequirement>,
    pub recommended_abilities: Vec<AbilityRequirement>,
    pub recommended_xp: u32,
    pub xp: u32,
    pub years: u32,
}

/// Life as a magus after the Gauntlet.
#[derive(Debug, Clone, Copy)]
pub struct PostApprenticeshipRules {
    pub lab_season_cost: u32,
    pub max_charged_lab_seasons_per_year: u32,
    pub points_per_year: u32,
}

/// An Ability score some rule demands.
#[derive(Debug)]
pub struct AbilityRequirement {
    pub ability: Id,
    pub min_score: u8,
    pub parameter: Option<String>,
}

/// Early childhood: its years, the native-language experience, and the
/// restricted spread.
#[derive(Debug)]
pub struct ChildhoodRules {
    pub years: u32,
    pub native_language_ability: Id,
    pub native_language_xp: u32,
    pub spread_xp: u32,
    /// The Abilities the spread experience may buy, read as a set: the
    /// childhood-spread pool lists them in ascending order, each once.
    pub spread_abilities: Vec<Id>,
}

/// Later life: experience per year.
#[derive(Debug, Clone, Copy)]
pub struct LaterLifeRules {
    pub xp_per_year: u32,
}

/// Required or merely recommended.
#[derive(Debug, Clone, Copy, PartialEq, Eq, Structural)]
pub enum AbilityRequirementKind {
    Required,
    Recommended,
}

/// One row of the Hermetic-minimums checklist.
#[derive(Debug)]
pub struct MagusMinimumAbility {
    pub ability: Id,
    pub parameter: Option<String>,
    pub min_score: u8,
    pub score: u8,
    pub met: bool,
    pub requirement: AbilityRequirementKind,
}

/// A character's life-stage choices.
#[derive(Debug)]
pub struct LifeStagePlan {
    pub native_language: Option<String>,
    pub childhood_package: Option<Id>,
    pub gauntlet_age: Option<u32>,
    pub post_gauntlet_lab_seasons: u32,
    pub post_gauntlet_spell_levels: u32,
}

/// The experience a life-stage plan earns, by block.
#[derive(Debug, Clone, Copy, PartialEq, Eq, Structural)]
pub struct LifeStageBudget {
    pub childhood_native_xp: u32,
    pub childhood_spread_xp: u32,
    pub later_life_years: u32,
    pub later_life_rate: u32,
    pub later_life_xp: u32,
    pub apprenticeship_years: u32,
    pub apprenticeship_xp: u32,
    pub gauntlet_age: u32,
    pub post_gauntlet_years: u32,
    pub post_gauntlet_points: u32,
    pub post_gauntlet_spell_levels: u32,
    pub post_gauntlet_xp: u32,
}

/// `a - b`, floored at 0.
pub open spec fn sat_sub(a: u32, b: u32) -> u32 {
    if a > b { (a - b) as u32 } else { 0 }
}

/// `a + b`, capped at `u32::MAX`.
pub open spec fn sat_add(a: u32, b: u32) -> u32 {
    if a + b > u32::MAX { u32::MAX } else { (a + b) as u32 }
}

/// `a * b`, capped at `u32::MAX`.
pub open spec fn sat_mul(a: u32, b: u32) -> u32 {
    if a * b > u32::MAX { u32::MAX } else { (a * b) as u32 }
}

fn mul_sat(a: u32, b: u32) -> (r: u32)
    ensures
        r == sat_mul(a, b),
{
    assert(a as int * b as int <= 0xFFFF_FFFE_0000_0001int) by (nonlinear_arith)
        requires
            a <= 0xFFFF_FFFFu32,
            b <= 0xFFFF_FFFFu32,
    ;
    let p: u64 = a as u64 * b as u64;
    if p > u32::MAX as u64 { u32::MAX } else { p as u32 }
}

impl LifeStageBudget {
    /// The experience every block together earns (saturating).
    pub open spec fn total_spec(self) -> u32 {
        sat_add(sat_add(sat_add(sat_add(self.childhood_native_xp, self.childhood_spread_xp), self.later_life_xp), self.apprenticeship_xp), self.post_gauntlet_xp)
    }

    /// The total experience across every block, saturating at `u32::MAX`.
    pub fn total(&self) -> (r: u32)
        ensures
            r == self.total_spec(),
    {
        self.childhood_native_xp
            .saturating_add(self.childhood_spread_xp)
            .saturating_add(self.later_life_xp)
            .saturating_add(self.apprenticeship_xp)
            .saturating_add(self.post_gauntlet_xp)
    }
}

/// One step of the later-life rate fold: the lowest
/// [`Effect::LaterLifeXpRate`] named so far.
pub open spec fn rate_step(acc: Option<u32>, s: SelectionView, e: Effect) -> Option<u32> {
    match e {
        Effect::LaterLifeXpRate { amount } => match acc {
            Some(current) => Some(if amount < current { amount } else { current }),
            None => Some(amount),
        },
        _ => acc,
    }
}

/// Finds the lowest later-life rate a selection names.
pub struct RateStep;

impl EffectStep<Option<u32>> for RateStep {
    open spec fn step_spec(&self, acc: Option<u32>, s: SelectionView, e: Effect) -> Option<u32> {
        rate_step(acc, s, e)
    }

    fn step(&self, acc: Option<u32>, s: &Selection, e: &Effect) -> (r: Option<u32>) {
        match e {
            Effect::LaterLifeXpRate { amount } => match acc {
                Some(current) => Some(if *amount < current { *amount } else { current }),
                None => Some(*amount),
            },
            _ => acc,
        }
    }
}

/// Whether the entity's type serves an apprenticeship.
pub open spec fn serves_apprenticeship(entity: &Entity, ruleset: &Ruleset) -> bool {
    ruleset.is_magus_spec(entity.type_id@)
}

impl LifeStageRules {
    /// The later-life rate: the lowest rate a Virtue or Flaw names (Wealthy 20,
    /// Poor 10), else the rules' default.
    pub open spec fn later_life_rate_spec(&self, entity: &Entity, ruleset: &Ruleset) -> u32 {
        match fold_sels(None, effect_selections(entity, ruleset), ruleset, |a: Option<u32>, s: SelectionView, e: Effect| rate_step(a, s, e)) {
            Some(r) => r,
            None => self.later_life.xp_per_year,
        }
    }

    /// The experience per year of later life for this entity.
    pub fn later_life_rate(&self, entity: &Entity, ruleset: &Ruleset) -> (r: u32)
        ensures
            r == self.later_life_rate_spec(entity, ruleset),
    {
        let sels = selections_for_effects(entity, ruleset);
        let step = RateStep;
        let named = fold_effects(&sels, ruleset, None, &step);
        proof {
            assert(step_fn(step) =~= (|a: Option<u32>, s: SelectionView, e: Effect| rate_step(a, s, e)));
        }
        match named {
            Some(r) => r,
            None => self.later_life.xp_per_year,
        }
    }

    /// The years of later life before `stop_age`: what is left after childhood
    /// and `apprenticeship_years`, never negative.
    pub open spec fn later_life_years_spec(&self, stop_age: u32, apprenticeship_years: u32) -> u32 {
        sat_sub(stop_age, sat_add(self.childhood.years, apprenticeship_years))
    }

    /// The years of later life before `stop_age`.
    pub fn later_life_years(&self, stop_age: u32, apprenticeship_years: u32) -> (r: u32)
        ensures
            r == self.later_life_years_spec(stop_age, apprenticeship_years),
    {
        stop_age.saturating_sub(self.childhood.years.saturating_add(apprenticeship_years))
    }

    /// The youngest age at which a Gauntlet can be passed: childhood plus
    /// apprenticeship.
    pub open spec fn minimum_gauntlet_age_spec(&self) -> u32 {
        sat_add(self.childhood.years, match self.apprenticeship { Some(a) => a.years, None => 0 })
    }

    /// The youngest Gauntlet age the rules allow.
    pub fn minimum_gauntlet_age(&self) -> (r: u32)
        ensures
            r == self.minimum_gauntlet_age_spec(),
    {
        let years = match &self.apprenticeship {
            Some(a) => a.years,
            None => 0,
        };
        self.childhood.years.saturating_add(years)
    }

    /// The apprenticeship block that applies to the entity: the rules' one for
    /// a magus, none for anyone else.
    pub open spec fn apprenticeship_spec(&self, entity: &Entity, ruleset: &Ruleset) -> Option<ApprenticeshipRules> {
        if serves_apprenticeship(entity, ruleset) { self.apprenticeship } else { None }
    }

    /// The apprenticeship block the entity serves, if any.
    pub fn apprenticeship_of<'a>(&'a self, entity: &Entity, ruleset: &Ruleset) -> (r: Option<&'a ApprenticeshipRules>)
        ensures
            match r {
                Some(a) => self.apprenticeship_spec(entity, ruleset) == Some(*a),
                None => self.apprenticeship_spec(entity, ruleset) is None,
            },
    {
        if !ruleset.is_magus(entity.type_id.as_str()) {
            return None;
        }
        match &self.apprenticeship {
            Some(a) => Some(a),
            None => None,
        }
    }

    /// The points a magus earns after the Gauntlet: `points_per_year` for each
    /// year, less the cost of the charged lab seasons (no more than the yearly
    /// maximum allows).
    pub open spec fn post_gauntlet_points_spec(&self, plan: &LifeStagePlan, years: u32) -> u32 {
        match self.post_apprenticeship {
            None => 0,
            Some(rules) => {
                let allowed = sat_mul(rules.max_charged_lab_seasons_per_year, years);
                let charged = if plan.post_gauntlet_lab_seasons < allowed { plan.post_gauntlet_lab_seasons } else { allowed };
                sat_sub(sat_mul(years, rules.points_per_year), sat_mul(charged, rules.lab_season_cost))
            },
        }
    }

    fn post_gauntlet_points(&self, plan: &LifeStagePlan, years: u32) -> (r: u32)
        ensures
            r == self.post_gauntlet_points_spec(plan, years),
    {
        match self.post_apprenticeship {
            None => 0,
            Some(rules) => {
                let allowed = mul_sat(rules.max_charged_lab_seasons_per_year, years);
                let charged = if plan.post_gauntlet_lab_seasons < allowed { plan.post_gauntlet_lab_seasons } else { allowed };
                mul_sat(years, rules.points_per_year).saturating_sub(mul_sat(charged, rules.lab_season_cost))
            },
        }
    }

    /// The budget of a planned entity, block by block; `None` without a plan.
    pub open spec fn budget_spec(&self, entity: &Entity, ruleset: &Ruleset) -> Option<LifeStageBudget> {
        match entity.life_stages {
            None => None,
            Some(plan) => {
                let apprenticeship = self.apprenticeship_spec(entity, ruleset);
                let apprenticeship_years: u32 = match apprenticeship { Some(a) => a.years, None => 0 };
                let gauntlet_age: u32 = match entity.age {
                    None => 0,
                    Some(age) => match (apprenticeship, plan.gauntlet_age) {
                        (Some(_), Some(g)) => if g < age { g } else { age },
                        _ => age,
                    },
                };
                let later_life_years = self.later_life_years_spec(gauntlet_age, apprenticeship_years);
                let later_life_rate = self.later_life_rate_spec(entity, ruleset);
                let post_gauntlet_years = sat_sub(match entity.age { Some(a) => a, None => 0 }, gauntlet_age);
                let post_gauntlet_points = self.post_gauntlet_points_spec(&plan, post_gauntlet_years);
                let post_gauntlet_spell_levels: u32 = if plan.post_gauntlet_spell_levels < post_gauntlet_points { plan.post_gauntlet_spell_levels } else { post_gauntlet_points };
                Some(LifeStageBudget {
                    childhood_native_xp: self.childhood.native_language_xp,
                    childhood_spread_xp: self.childhood.spread_xp,
                    later_life_years,
                    later_life_rate,
                    later_life_xp: sat_mul(later_life_years, later_life_rate),
                    apprenticeship_years,
                    apprenticeship_xp: match apprenticeship { Some(a) => a.xp, None => 0 },
                    gauntlet_age,
                    post_gauntlet_years,
                    post_gauntlet_points,
                    post_gauntlet_spell_levels,
                    post_gauntlet_xp: sat_sub(post_gauntlet_points, post_gauntlet_spell_levels),
                })
            },
        }
    }

    /// A planned budget accounts for every year and point: the Gauntlet age
    /// and the years after it add up to a known age, the post-Gauntlet points
    /// split exactly into spell levels and experience, and an entity that
    /// serves no apprenticeship earns neither apprenticeship experience nor
    /// anything after a Gauntlet.
    pub proof fn law_budget_accounts_for_every_year(&self, entity: &Entity, ruleset: &Ruleset)
        requires
            entity.life_stages is Some,
        ensures
            self.budget_spec(entity, ruleset) matches Some(b) && {
                &&& b.post_gauntlet_spell_levels + b.post_gauntlet_xp == b.post_gauntlet_points
                &&& (entity.age matches Some(age) ==> b.gauntlet_age + b.post_gauntlet_years == age)
                &&& (!serves_apprenticeship(entity, ruleset) ==> {
                    &&& b.apprenticeship_xp == 0
                    &&& b.post_gauntlet_years == 0
                    &&& b.post_gauntlet_points == 0
                    &&& b.post_gauntlet_spell_levels == 0
                    &&& b.post_gauntlet_xp == 0
                })
            },
    {
    }

    /// The experience each life stage grants the entity under its plan, or
    /// `None` when the entity was not built through its life stages.
    pub fn budget(&self, entity: &Entity, ruleset: &Ruleset) -> (r: Option<LifeStageBudget>)
        ensures
            r == self.budget_spec(entity, ruleset),
    {
        let plan = match &entity.life_stages {
            Some(p) => p,
            None => return None,
        };
        let apprenticeship = self.apprenticeship_of(entity, ruleset);
        let apprenticeship_years: u32 = match apprenticeship { Some(a) => a.years, None => 0 };
        let gauntlet_age: u32 = match entity.age {
            None => 0,
            Some(age) => match (apprenticeship, plan.gauntlet_age) {
                (Some(_), Some(g)) => if g < age { g } else { age },
                _ => age,
            },
        };
        let later_life_years = self.later_life_years(gauntlet_age, apprenticeship_years);
        let later_life_rate = self.later_life_rate(entity, ruleset);
        let age: u32 = match entity.age { Some(a) => a, None => 0 };
        let post_gauntlet_years = age.saturating_sub(gauntlet_age);
        let post_gauntlet_points = self.post_gauntlet_points(plan, post_gauntlet_years);
        let post_gauntlet_spell_levels: u32 = if plan.post_gauntlet_spell_levels < post_gauntlet_points { plan.post_gauntlet_spell_levels } else { post_gauntlet_points };
        Some(LifeStageBudget {
            childhood_native_xp: self.childhood.native_language_xp,
            childhood_spread_xp: self.childhood.spread_xp,
            later_life_years,
            later_life_rate,
            later_life_xp: mul_sat(later_life_years, later_life_rate),
            apprenticeship_years,
            apprenticeship_xp: match apprenticeship { Some(a) => a.xp, None => 0 },
            gauntlet_age,
            post_gauntlet_years,
            post_gauntlet_points,
            post_gauntlet_spell_levels,
            post_gauntlet_xp: post_gauntlet_points.saturating_sub(post_gauntlet_spell_levels),
        })
    }
}

/// Whether a bought row counts toward a requirement: the same Ability and,
/// when the requirement names an instance, that instance.
pub open spec fn counts_toward(req: AbilityRequirement, bought: AbilityScore) -> bool {
    bought.ability@ == req.ability@ && match req.parameter {
        None => true,
        Some(wanted) => opt_string_view(bought.parameter) == Some(wanted@),
    }
}

/// The best bought score counting toward `req` among the rows (0 when none).
pub open spec fn best_toward(rows: Seq<AbilityScore>, req: AbilityRequirement) -> u8
    decreases rows.len(),
{
    if rows.len() == 0 {
        0
    } else {
        let before = best_toward(rows.drop_last(), req);
        if counts_toward(req, rows.last()) && rows.last().score > before { rows.last().score } else { before }
    }
}

/// The checklist credits the best bought instance: no bought row counting
/// toward the requirement scores higher than the reported score, and a
/// non-zero reported score is some counting row's score.
pub proof fn law_checklist_credits_the_best_bought_instance(rows: Seq<AbilityScore>, req: AbilityRequirement)
    ensures
        forall|i: int| 0 <= i < rows.len() && counts_toward(req, #[trigger] rows[i]) ==> rows[i].score <= best_toward(rows, req),
        best_toward(rows, req) != 0 ==> exists|i: int| 0 <= i < rows.len() && counts_toward(req, #[trigger] rows[i])
            && rows[i].score == best_toward(rows, req),
    decreases rows.len(),
{
    if rows.len() > 0 {
        let rest = rows.drop_last();
        law_checklist_credits_the_best_bought_instance(rest, req);
        assert forall|i: int| 0 <= i < rows.len() && counts_toward(req, #[trigger] rows[i]) implies rows[i].score <= best_toward(rows, req) by {
            if i < rest.len() {
                assert(rows[i] == rest[i]);
            }
        }
        if best_toward(rows, req) != 0 {
            if counts_toward(req, rows.last()) && rows.last().score > best_toward(rest, req) {
                assert(rows[rows.len() - 1] == rows.last());
            } else {
                let i = choose|i: int| 0 <= i < rest.len() && counts_toward(req, #[trigger] rest[i]) && rest[i].score == best_toward(rest, req);
                assert(rows[i] == rest[i]);
            }
        }
    }
}

/// The checklist row a requirement yields against the entity's bought scores.
pub open spec fn checklist_row(entity: &Entity, req: AbilityRequirement, kind: AbilityRequirementKind, row: MagusMinimumAbility) -> bool {
    let score = best_toward(entity.ability_scores@, req);
    &&& row.ability@ == req.ability@
    &&& opt_string_view(row.parameter) == opt_string_view(req.parameter)
    &&& row.min_score == req.min_score
    &&& row.score == score
    &&& row.met == (score >= req.min_score)
    &&& row.requirement == kind
}

fn best_bought_toward(entity: &Entity, req: &AbilityRequirement) -> (r: u8)
    ensures
        r == best_toward(entity.ability_scores@, *req),
{
    let mut best: u8 = 0;
    let mut i: usize = 0;
    while i < entity.ability_scores.len()
        invariant
            i <= entity.ability_scores@.len(),
            best == best_toward(entity.ability_scores@.take(i as int), *req),
        decreases entity.ability_scores.len() - i,
    {
        proof {
            assert(entity.ability_scores@.take(i + 1).drop_last() =~= entity.ability_scores@.take(i as int));
        }
        let row = &entity.ability_scores[i];
        let counts = str_eq(row.ability.as_str(), req.ability.as_str()) && match &req.parameter {
            None => true,
            Some(wanted) => match &row.parameter {
                Some(p) => str_eq(p.as_str(), wanted.as_str()),
                None => false,
            },
        };
        if counts && row.score > best {
            best = row.score;
        }
        i += 1;
    }
    assert(entity.ability_scores@.take(entity.ability_scores.len() as int) =~= entity.ability_scores@);
    best
}

fn push_checklist(out: &mut Vec<MagusMinimumAbility>, entity: &Entity, reqs: &Vec<AbilityRequirement>, kind: AbilityRequirementKind)
    ensures
        final(out)@.len() == old(out)@.len() + reqs@.len(),
        forall|k: int| 0 <= k < old(out)@.len() ==> #[trigger] final(out)@[k] == old(out)@[k],
        forall|k: int| 0 <= k < reqs@.len() ==> checklist_row(entity, reqs@[k], kind, #[trigger] final(out)@[old(out)@.len() + k]),
{
    let ghost start = out@.len();
    let mut i: usize = 0;
    while i < reqs.len()
        invariant
            i <= reqs@.len(),
            start == old(out)@.len(),
            out@.len() == start + i,
            forall|k: int| 0 <= k < start ==> #[trigger] out@[k] == old(out)@[k],
            forall|k: int| 0 <= k < i ==> checklist_row(entity, reqs@[k], kind, #[trigger] out@[start + k]),
        decreases reqs.len() - i,
    {
        let req = &reqs[i];
        let score = best_bought_toward(entity, req);
        let parameter = match &req.parameter {
            Some(p) => Some(p.clone()),
            None => None,
        };
        out.push(MagusMinimumAbility {
            ability: req.ability.clone(),
            parameter,
            min_score: req.min_score,
            score,
            met: score >= req.min_score,
            requirement: kind,
        });
        proof {
            assert(out@[start + i] == out@.last());
        }
        i += 1;
    }
}

/// The Hermetic-minimums checklist of a magus: one row per required Ability,
/// then one per recommended Ability, each with the best bought score counting
/// toward it and whether that score meets the minimum; empty for anyone who
/// serves no apprenticeship or when the rules declare none.
pub fn magus_minimum_abilities(entity: &Entity, ruleset: &Ruleset) -> (r: Vec<MagusMinimumAbility>)
    ensures
        match ruleset.life_stages {
            Some(rules) => match rules.apprenticeship_spec(entity, ruleset) {
                Some(a) => {
                    &&& r@.len() == a.minimum_abilities@.len() + a.recommended_abilities@.len()
                    &&& forall|k: int| 0 <= k < a.minimum_abilities@.len() ==> checklist_row(entity, a.minimum_abilities@[k], AbilityRequirementKind::Required, #[trigger] r@[k])
                    &&& forall|k: int| 0 <= k < a.recommended_abilities@.len() ==> checklist_row(entity, a.recommended_abilities@[k], AbilityRequirementKind::Recommended, #[trigger] r@[a.minimum_abilities@.len() + k])
                },
                None => r@.len() == 0,
            },
            None => r@.len() == 0,
        },
{
    let rules = match &ruleset.life_stages {
        Some(rules) => rules,
        None => return Vec::new(),
    };
    let apprenticeship = match rules.apprenticeship_of(entity, ruleset) {
        Some(a) => a,
        None => return Vec::new(),
    };
    let mut rows: Vec<MagusMinimumAbility> = Vec::new();
    push_checklist(&mut rows, entity, &apprenticeship.minimum_abilities, AbilityRequirementKind::Required);
    let ghost first = rows@;
    push_checklist(&mut rows, entity, &apprenticeship.recommended_abilities, AbilityRequirementKind::Recommended);
    proof {
        assert forall|k: int| 0 <= k < apprenticeship.minimum_abilities@.len() implies checklist_row(entity, apprenticeship.minimum_abilities@[k], AbilityRequirementKind::Required, #[trigger] rows@[k]) by {
            assert(rows@[k] == first[k]);
            assert(checklist_row(entity, apprenticeship.minimum_abilities@[k], AbilityRequirementKind::Required, first[0 + k]));
        }
    }
    rows
}

} // verus!
