//! Experience allocation: Affinity cost reduction, restricted experience
//! pools, and the maximum-flow solve that funds Ability, Art and Spell
//! Mastery purchases across the general pool and every restricted pool.
use vstd::prelude::*;
use crate::catalog::find;
use crate::effective::ability::{granted_ability_floor, granted_floor_spec, instance_key_spec, opt_str, opt_string_view, opt_view, targets_instance};
use crate::effective::art::bought_art;
use crate::effective::cut::{cut_capacity, flow_value, is_cut, is_flow, is_max_flow_value, law_flow_within_cut_and_edge, law_max_flow_value_is_unique, residual_flow, lemma_crossing_within, lemma_net_flow_crosses_every_cut, lemma_residual_certifies_max};
use crate::effective::flow::{capped, cell, edmonds_karp, col_sum, lemma_index, lemma_row_zero_stretch, lemma_sums_update, max_flow, pairs_fit, pairs_kept, row_sum, rows_kept, separates, MAX_NODES};
use crate::effective::{clamp_u32, effect_selections, fold_effects, fold_effects_mut, fold_sels, selections_for_effects, step_fn, view_step_fn, EffectStep, EffectStepMut};
use crate::effective::spell::{general_xp_bonus, mastery_affinity_spec, mastery_floor_spec, mastery_xp_spec, signed_spec, spell_mastery_advancement_affinity, spell_mastery_floor, spell_mastery_xp};
use crate::entity::{AbilityScore, ArtScore, SpellSelection};
use crate::life_stage::{sat_sub, LifeStageBudget, LifeStageRules};
use crate::entity::Entity;
use crate::ruleset::Ruleset;
use crate::text::str_eq;
use crate::export::resolve::{insert_key, insert_sorted};
use crate::export::strings_view;
use crate::types::{all_ability_categories, lookup, AbilityCategory, Effect, Id, Selection, SelectionView};

verus! {

// --- Affinity ---------------------------------------------------------------

/// The experience charged for a score whose table cost is `table_xp` under an
/// optional Affinity "counts as `num/den`": the least charge that counts as
/// the table cost, `ceil(table_xp * den / num)` (the product capped at
/// `u32::MAX`). No Affinity, or a zero numerator, charges the table cost.
pub open spec fn charged_cost_spec(table_xp: u32, affinity: Option<(u8, u8)>) -> u32 {
    match affinity {
        Some((num, den)) => if num != 0 {
            let scaled = clamp_u32(table_xp * den);
            ((scaled + num - 1) / (num as int)) as u32
        } else {
            table_xp
        },
        None => table_xp,
    }
}

/// The experience charged for a score under an optional Affinity.
pub fn charged_cost(table_xp: u32, affinity: Option<(u8, u8)>) -> (r: u32)
    ensures
        r == charged_cost_spec(table_xp, affinity),
{
    match affinity {
        Some((num, den)) => {
            if num == 0 {
                return table_xp;
            }
            assert(table_xp as int * den as int <= 0xFFFF_FFFF * 255) by (nonlinear_arith)
                requires
                    table_xp <= 0xFFFF_FFFFu32,
                    den <= 255u8,
            ;
            let product: u64 = table_xp as u64 * den as u64;
            let scaled: u64 = if product > u32::MAX as u64 { u32::MAX as u64 } else { product };
            let top: u64 = scaled + num as u64 - 1;
            let q: u64 = top / (num as u64);
            assert(q <= scaled) by (nonlinear_arith)
                requires
                    q == top as int / num as int,
                    top == scaled + num - 1,
                    num >= 1,
                    scaled >= 0,
            ;
            q as u32
        },
        None => table_xp,
    }
}

/// An Affinity charges the least experience that counts as the table cost:
/// the charge, scaled by `num/den`, reaches the table cost, one point less
/// would not, and an Affinity that counts for at least its own value never
/// charges more than the table (for costs whose scaling fits in `u32`).
pub proof fn law_affinity_charges_the_least_that_counts(table_xp: u32, num: u8, den: u8)
    requires
        num >= 1,
        table_xp * den <= u32::MAX,
    ensures
        charged_cost_spec(table_xp, Some((num, den))) * num >= table_xp * den,
        charged_cost_spec(table_xp, Some((num, den))) == 0
            || (charged_cost_spec(table_xp, Some((num, den))) - 1) * num < table_xp * den,
        num >= den ==> charged_cost_spec(table_xp, Some((num, den))) <= table_xp,
{
    let t = table_xp as int;
    let n = num as int;
    let d = den as int;
    let q = charged_cost_spec(table_xp, Some((num, den))) as int;
    assert(clamp_u32(t * d) == t * d);
    let raw = (t * d + n - 1) / n;
    assert(0 <= raw <= t * d) by (nonlinear_arith)
        requires
            n >= 1,
            t * d >= 0,
            raw == (t * d + n - 1) / n,
    ;
    assert(q == raw);
    assert(q * n >= t * d && (q == 0 || (q - 1) * n < t * d)) by (nonlinear_arith)
        requires
            n >= 1,
            t * d >= 0,
            q == (t * d + n - 1) / n,
    ;
    if n >= d {
        assert(q <= t) by (nonlinear_arith)
            requires
                n >= 1,
                n >= d,
                d >= 0,
                t >= 0,
                q == (t * d + n - 1) / n,
        ;
    }
}

/// The more generous of two Affinities (`num/den` compared by
/// cross-multiplying); on a tie the one already held stays.
pub open spec fn better_affinity(held: (u8, u8), other: (u8, u8)) -> (u8, u8) {
    if held.0 * other.1 >= other.0 * held.1 { held } else { other }
}

/// Affinities do not stack: of two, the one kept is one of them and counts
/// for at least as much as either (`num/den` compared by cross-multiplying).
pub proof fn law_the_kept_affinity_is_the_most_generous(held: (u8, u8), other: (u8, u8))
    ensures
        better_affinity(held, other) == held || better_affinity(held, other) == other,
        better_affinity(held, other).0 * held.1 >= held.0 * better_affinity(held, other).1,
        better_affinity(held, other).0 * other.1 >= other.0 * better_affinity(held, other).1,
{
}

/// Folds one more Affinity candidate into the best so far.
pub open spec fn pick_affinity(acc: Option<(u8, u8)>, candidate: (u8, u8)) -> Option<(u8, u8)> {
    match acc {
        None => Some(candidate),
        Some(held) => Some(better_affinity(held, candidate)),
    }
}

/// The best Affinity among the one held so far and `candidate`.
pub fn pick_best(acc: Option<(u8, u8)>, candidate: (u8, u8)) -> (r: Option<(u8, u8)>)
    ensures
        r == pick_affinity(acc, candidate),
{
    match acc {
        None => Some(candidate),
        Some(held) => {
            assert(held.0 as int * candidate.1 as int <= 255 * 255) by (nonlinear_arith)
                requires
                    held.0 <= 255u8,
                    candidate.1 <= 255u8,
            ;
            assert(candidate.0 as int * held.1 as int <= 255 * 255) by (nonlinear_arith)
                requires
                    candidate.0 <= 255u8,
                    held.1 <= 255u8,
            ;
            let lhs: u32 = held.0 as u32 * candidate.1 as u32;
            let rhs: u32 = candidate.0 as u32 * held.1 as u32;
            if lhs >= rhs { Some(held) } else { Some(candidate) }
        },
    }
}

/// One step of the ability-Affinity fold: an Affinity aimed at the instance
/// (by parameter and instance), or a group Affinity listing the Ability.
pub open spec fn ability_affinity_step(ability: Seq<char>, parameter: Option<Seq<char>>, key: Option<Seq<char>>, acc: Option<(u8, u8)>, s: SelectionView, e: Effect) -> Option<(u8, u8)> {
    match e {
        Effect::AffinityAbilityCost { param, counts_as_num, counts_as_den } => {
            if lookup(s.params, param@) == Some(ability) && targets_instance(s, key, parameter) {
                pick_affinity(acc, (counts_as_num, counts_as_den))
            } else {
                acc
            }
        },
        Effect::GroupAffinityCost { abilities, counts_as_num, counts_as_den } => {
            if exists|j: int| 0 <= j < abilities@.len() && #[trigger] abilities@[j]@ == ability {
                pick_affinity(acc, (counts_as_num, counts_as_den))
            } else {
                acc
            }
        },
        _ => acc,
    }
}

/// [`ability_affinity_step`] as a fold function.
pub open spec fn ability_affinity_fn(ability: Seq<char>, parameter: Option<Seq<char>>, key: Option<Seq<char>>) -> spec_fn(Option<(u8, u8)>, SelectionView, Effect) -> Option<(u8, u8)> {
    |a: Option<(u8, u8)>, s: SelectionView, e: Effect| ability_affinity_step(ability, parameter, key, a, s, e)
}

fn contains_id(v: &Vec<Id>, key: &str) -> (r: bool)
    ensures
        r == exists|j: int| 0 <= j < v@.len() && #[trigger] v@[j]@ == key@,
{
    let mut i: usize = 0;
    while i < v.len()
        invariant
            i <= v@.len(),
            forall|j: int| 0 <= j < i ==> #[trigger] v@[j]@ != key@,
        decreases v.len() - i,
    {
        if str_eq(v[i].as_str(), key) {
            return true;
        }
        i += 1;
    }
    false
}

/// Picks the most generous Affinity aimed at one Ability instance.
pub struct AbilityAffinityStep<'a> {
    pub ability: &'a str,
    pub parameter: Option<&'a str>,
    pub instance_key: Option<&'a str>,
}

impl<'a> EffectStep<Option<(u8, u8)>> for AbilityAffinityStep<'a> {
    open spec fn step_spec(&self, acc: Option<(u8, u8)>, s: SelectionView, e: Effect) -> Option<(u8, u8)> {
        ability_affinity_step(self.ability@, opt_view(self.parameter), opt_view(self.instance_key), acc, s, e)
    }

    fn step(&self, acc: Option<(u8, u8)>, s: &Selection, e: &Effect) -> (r: Option<(u8, u8)>) {
        match e {
            Effect::AffinityAbilityCost { param, counts_as_num, counts_as_den } => {
                let aimed = match s.param(param.as_str()) {
                    Some(v) => str_eq(v.as_str(), self.ability),
                    None => false,
                };
                if !aimed {
                    return acc;
                }
                let matches = match self.instance_key {
                    None => true,
                    Some(key) => match s.param(key) {
                        Some(named) => crate::effective::ability::opt_eq(self.parameter, Some(named.as_str())),
                        None => false,
                    },
                };
                if matches { pick_best(acc, (*counts_as_num, *counts_as_den)) } else { acc }
            },
            Effect::GroupAffinityCost { abilities, counts_as_num, counts_as_den } => {
                if contains_id(abilities, self.ability) { pick_best(acc, (*counts_as_num, *counts_as_den)) } else { acc }
            },
            _ => acc,
        }
    }
}

/// The most generous Affinity on the `(ability, parameter)` instance.
pub open spec fn ability_affinity_spec(entity: &Entity, ruleset: &Ruleset, ability: Seq<char>, parameter: Option<Seq<char>>) -> Option<(u8, u8)> {
    fold_sels(None, effect_selections(entity, ruleset), ruleset, ability_affinity_fn(ability, parameter, instance_key_spec(ruleset, ability)))
}

/// The Affinity that applies to one Ability instance, if any: of several, the
/// most generous (Affinities do not stack).
pub fn ability_affinity(entity: &Entity, ruleset: &Ruleset, ability: &str, parameter: Option<&str>) -> (r: Option<(u8, u8)>)
    ensures
        r == ability_affinity_spec(entity, ruleset, ability@, opt_view(parameter)),
{
    let key: Option<&str> = match ruleset.ability(ability) {
        Some(def) => opt_str(&def.parameter),
        None => None,
    };
    let sels = selections_for_effects(entity, ruleset);
    let step = AbilityAffinityStep { ability, parameter, instance_key: key };
    let r = fold_effects(&sels, ruleset, None, &step);
    proof {
        assert(step_fn(step) =~= ability_affinity_fn(ability@, opt_view(parameter), instance_key_spec(ruleset, ability@)));
    }
    r
}

/// One step of the Art-Affinity fold.
pub open spec fn art_affinity_step(art: Seq<char>, acc: Option<(u8, u8)>, s: SelectionView, e: Effect) -> Option<(u8, u8)> {
    match e {
        Effect::AffinityArtCost { param, counts_as_num, counts_as_den } => {
            if lookup(s.params, param@) == Some(art) { pick_affinity(acc, (counts_as_num, counts_as_den)) } else { acc }
        },
        _ => acc,
    }
}

/// [`art_affinity_step`] as a fold function.
pub open spec fn art_affinity_fn(art: Seq<char>) -> spec_fn(Option<(u8, u8)>, SelectionView, Effect) -> Option<(u8, u8)> {
    |a: Option<(u8, u8)>, s: SelectionView, e: Effect| art_affinity_step(art, a, s, e)
}

/// Picks the most generous Affinity aimed at one Art.
pub struct ArtAffinityStep<'a> {
    pub art: &'a str,
}

impl<'a> EffectStep<Option<(u8, u8)>> for ArtAffinityStep<'a> {
    open spec fn step_spec(&self, acc: Option<(u8, u8)>, s: SelectionView, e: Effect) -> Option<(u8, u8)> {
        art_affinity_step(self.art@, acc, s, e)
    }

    fn step(&self, acc: Option<(u8, u8)>, s: &Selection, e: &Effect) -> (r: Option<(u8, u8)>) {
        match e {
            Effect::AffinityArtCost { param, counts_as_num, counts_as_den } => {
                let aimed = match s.param(param.as_str()) {
                    Some(v) => str_eq(v.as_str(), self.art),
                    None => false,
                };
                if aimed { pick_best(acc, (*counts_as_num, *counts_as_den)) } else { acc }
            },
            _ => acc,
        }
    }
}

/// The most generous Affinity on `art`.
pub open spec fn art_affinity_spec(entity: &Entity, ruleset: &Ruleset, art: Seq<char>) -> Option<(u8, u8)> {
    fold_sels(None, effect_selections(entity, ruleset), ruleset, art_affinity_fn(art))
}

fn art_affinity(entity: &Entity, ruleset: &Ruleset, art: &str) -> (r: Option<(u8, u8)>)
    ensures
        r == art_affinity_spec(entity, ruleset, art@),
{
    let sels = selections_for_effects(entity, ruleset);
    let step = ArtAffinityStep { art };
    let r = fold_effects(&sels, ruleset, None, &step);
    proof {
        assert(step_fn(step) =~= art_affinity_fn(art@));
    }
    r
}


// --- pools -------------------------------------------------------------------

/// A block of life-stage experience that funds purchases on its own terms.
#[derive(Debug, Clone, Copy, PartialEq, Eq, Structural)]
pub enum LifeStageBlock {
    /// Childhood's native-language experience.
    ChildhoodNativeLanguage,
    /// Childhood's restricted spread.
    ChildhoodSpread,
    /// A magus's later life, before apprenticeship.
    LaterLife,
}

impl LifeStageBlock {
    /// The block's stable slug.
    pub open spec fn slug_spec(self) -> Seq<char> {
        match self {
            LifeStageBlock::ChildhoodNativeLanguage => "childhood_native_language"@,
            LifeStageBlock::ChildhoodSpread => "childhood_spread"@,
            LifeStageBlock::LaterLife => "later_life"@,
        }
    }

    /// The block's stable slug.
    pub fn slug(&self) -> (r: &'static str)
        ensures
            r@ == self.slug_spec(),
    {
        match self {
            LifeStageBlock::ChildhoodNativeLanguage => "childhood_native_language",
            LifeStageBlock::ChildhoodSpread => "childhood_spread",
            LifeStageBlock::LaterLife => "later_life",
        }
    }

    /// Every block, in canonical order.
    pub fn all() -> (v: Vec<LifeStageBlock>)
        ensures
            v@ == seq![LifeStageBlock::ChildhoodNativeLanguage, LifeStageBlock::ChildhoodSpread, LifeStageBlock::LaterLife],
    {
        let v = vec![LifeStageBlock::ChildhoodNativeLanguage, LifeStageBlock::ChildhoodSpread, LifeStageBlock::LaterLife];
        assert(v@ =~= seq![LifeStageBlock::ChildhoodNativeLanguage, LifeStageBlock::ChildhoodSpread, LifeStageBlock::LaterLife]);
        v
    }
}

/// Where a restricted pool came from.
#[derive(Debug, PartialEq, Eq)]
pub enum XpPoolOrigin {
    /// A Virtue/Flaw grant, named by the item.
    Item { item: Id },
    /// A block of life-stage experience.
    LifeStage { block: LifeStageBlock },
}

/// The view of a pool's origin.
pub enum OriginShape {
    Item(Seq<char>),
    Block(LifeStageBlock),
}

/// The view of a pool origin.
pub open spec fn origin_shape(o: XpPoolOrigin) -> OriginShape {
    match o {
        XpPoolOrigin::Item { item } => OriginShape::Item(item@),
        XpPoolOrigin::LifeStage { block } => OriginShape::Block(block),
    }
}

/// A restricted experience pool with how much of it the allocation draws.
#[derive(Debug, PartialEq, Eq)]
pub struct RestrictedXpPool {
    pub amount: u32,
    pub used: u32,
    pub abilities: Vec<Id>,
    pub categories: Vec<AbilityCategory>,
    pub origin: XpPoolOrigin,
}

/// What a pool is, apart from how much of it is drawn.
pub struct PoolShape {
    pub amount: u32,
    pub abilities: Seq<Seq<char>>,
    pub categories: Seq<AbilityCategory>,
    pub origin: OriginShape,
}

/// The view of an Ability instance: its id and, when it names one, its
/// parameter.
pub open spec fn instance_view(i: AbilityInstanceRef) -> (Seq<char>, Option<Seq<char>>) {
    (i.ability@, opt_string_view(i.parameter))
}

/// Whether the instance view `i` names the bought instance
/// `(ability, parameter)`: a view without a parameter names every instance.
pub open spec fn instance_names(i: (Seq<char>, Option<Seq<char>>), ability: Seq<char>, parameter: Option<Seq<char>>) -> bool {
    i.0 == ability && (i.1 is None || i.1 == parameter)
}

/// A restricted pool as the allocation graph sees it: its shape, the
/// instances it is limited to (when it lists any) and those it never funds.
pub struct FlowPoolView {
    pub shape: PoolShape,
    pub instances: Seq<(Seq<char>, Option<Seq<char>>)>,
    pub exclude: Seq<(Seq<char>, Option<Seq<char>>)>,
}

/// The views of a list of ids.
pub open spec fn ids_view(v: Seq<Id>) -> Seq<Seq<char>> {
    v.map_values(|x: Id| x@)
}

/// The shape of a surfaced pool.
pub open spec fn pool_shape(p: RestrictedXpPool) -> PoolShape {
    PoolShape { amount: p.amount, abilities: ids_view(p.abilities@), categories: p.categories@, origin: origin_shape(p.origin) }
}

/// One instance of an Ability: the id and, for a parameterized Ability, the
/// instance value (`None` matches every instance).
#[derive(Debug)]
pub struct AbilityInstanceRef {
    pub ability: Id,
    pub parameter: Option<String>,
}

impl AbilityInstanceRef {
    /// Whether this ref names the bought instance `(ability, parameter)`.
    pub open spec fn matches_spec(&self, ability: Seq<char>, parameter: Option<Seq<char>>) -> bool {
        self.ability@ == ability && (self.parameter is None || opt_string_view(self.parameter) == parameter)
    }

    /// Whether this ref names the bought instance `(ability, parameter)`.
    pub fn matches(&self, ability: &str, parameter: Option<&str>) -> (r: bool)
        ensures
            r == self.matches_spec(ability@, opt_view(parameter)),
    {
        str_eq(self.ability.as_str(), ability) && match &self.parameter {
            None => true,
            Some(p) => match parameter {
                Some(q) => str_eq(p.as_str(), q),
                None => false,
            },
        }
    }
}

/// The allocation of the entity's purchases across its pools.
#[derive(Debug, PartialEq, Eq)]
pub struct XpAllocation {
    /// The summed charge of every purchase (after Affinity).
    pub total_demand: u32,
    /// How much of the demand the pools can fund.
    pub max_flow: u32,
    /// The general pool: its base plus the general adjustment.
    pub general_pool: u32,
    /// The signed general adjustment folded into the general pool.
    pub general_bonus: i64,
    /// What the allocation draws from the general pool.
    pub general_used: u32,
    /// The restricted Ability pools with what each funds.
    pub restricted: Vec<RestrictedXpPool>,
}

/// Why the flow solve refused to run: the entity's purchases and pools would
/// need more nodes than the solver accepts.
#[derive(Debug, Clone, Copy)]
pub struct XpSolveBoundExceeded {
    pub nodes: usize,
    pub limit: usize,
    pub spends: usize,
    pub flow_pools: usize,
}

/// The largest flow graph the allocation builds.
pub const MAX_XP_SOLVE_NODES: usize = 2048;

/// The counts behind the flow graph's size.
#[derive(Debug, Clone, Copy)]
pub struct XpSolveScale {
    pub spends: usize,
    pub flow_pools: usize,
}

impl XpSolveScale {
    /// The node count: source, sink, the general pool, one per pool and one per
    /// purchase (saturating).
    pub fn nodes(&self) -> (r: usize)
        ensures
            r == (if 3 + self.flow_pools + self.spends > usize::MAX { usize::MAX as int } else { 3 + self.flow_pools + self.spends }),
    {
        3usize.saturating_add(self.flow_pools).saturating_add(self.spends)
    }
}

// --- authorizations ------------------------------------------------------------

/// `acc` with `x` appended unless already present.
pub open spec fn add_new<T>(acc: Seq<T>, x: T) -> Seq<T> {
    if acc.contains(x) { acc } else { acc.push(x) }
}

/// `acc` with each of `xs` appended unless already present.
pub open spec fn add_all<T>(acc: Seq<T>, xs: Seq<T>) -> Seq<T>
    decreases xs.len(),
{
    if xs.len() == 0 { acc } else { add_new(add_all(acc, xs.drop_last()), xs.last()) }
}

/// One step of the authorization fold: an experience grant or an explicit
/// authorization permits its Abilities and categories; a free score permits
/// its Ability.
pub open spec fn auth_step(acc: (Seq<Seq<char>>, Seq<AbilityCategory>), s: SelectionView, e: Effect) -> (Seq<Seq<char>>, Seq<AbilityCategory>) {
    match e {
        Effect::RestrictedAbilityXp { amount, abilities, categories } => (add_all(acc.0, ids_view(abilities@)), add_all(acc.1, categories@)),
        Effect::AbilityAuthorization { abilities, categories } => (add_all(acc.0, ids_view(abilities@)), add_all(acc.1, categories@)),
        Effect::AbilityScoreGrant { ability, amount } => (add_new(acc.0, ability@), acc.1),
        _ => acc,
    }
}

/// The Abilities and categories the entity's selections permit, each once, in
/// first-permitted order.
#[derive(Debug)]
pub struct Authorizations {
    pub abilities: Vec<Id>,
    pub categories: Vec<AbilityCategory>,
}

impl View for Authorizations {
    type V = (Seq<Seq<char>>, Seq<AbilityCategory>);

    open spec fn view(&self) -> (Seq<Seq<char>>, Seq<AbilityCategory>) {
        (ids_view(self.abilities@), self.categories@)
    }
}

fn push_new_id(v: &mut Vec<Id>, id: &Id)
    ensures
        ids_view(final(v)@) == add_new(ids_view(old(v)@), id@),
{
    let mut i: usize = 0;
    while i < v.len()
        invariant
            i <= v@.len(),
            forall|j: int| 0 <= j < i ==> #[trigger] v@[j]@ != id@,
        decreases v.len() - i,
    {
        if str_eq(v[i].as_str(), id.as_str()) {
            proof {
                assert(ids_view(v@)[i as int] == id@);
                assert(ids_view(v@).contains(id@));
            }
            return;
        }
        i += 1;
    }
    proof {
        assert(!ids_view(v@).contains(id@)) by {
            if ids_view(v@).contains(id@) {
                let j = choose|j: int| 0 <= j < ids_view(v@).len() && ids_view(v@)[j] == id@;
                assert(v@[j]@ == id@);
            }
        }
    }
    v.push(id.clone());
    proof {
        assert(ids_view(v@) =~= ids_view(old(v)@).push(id@));
    }
}

fn push_new_category(v: &mut Vec<AbilityCategory>, c: AbilityCategory)
    ensures
        final(v)@ == add_new(old(v)@, c),
{
    let mut i: usize = 0;
    while i < v.len()
        invariant
            i <= v@.len(),
            forall|j: int| 0 <= j < i ==> #[trigger] v@[j] != c,
        decreases v.len() - i,
    {
        if v[i] == c {
            proof {
                assert(v@.contains(c));
            }
            return;
        }
        i += 1;
    }
    v.push(c);
}

fn push_all_ids(v: &mut Vec<Id>, ids: &Vec<Id>)
    ensures
        ids_view(final(v)@) == add_all(ids_view(old(v)@), ids_view(ids@)),
{
    let mut i: usize = 0;
    while i < ids.len()
        invariant
            i <= ids@.len(),
            ids_view(v@) == add_all(ids_view(old(v)@), ids_view(ids@.take(i as int))),
        decreases ids.len() - i,
    {
        proof {
            assert(ids_view(ids@.take(i + 1)).drop_last() =~= ids_view(ids@.take(i as int)));
            assert(ids_view(ids@.take(i + 1)).last() == ids@[i as int]@);
        }
        push_new_id(v, &ids[i]);
        i += 1;
    }
    assert(ids@.take(ids.len() as int) =~= ids@);
}

fn push_all_categories(v: &mut Vec<AbilityCategory>, cs: &Vec<AbilityCategory>)
    ensures
        final(v)@ == add_all(old(v)@, cs@),
{
    let mut i: usize = 0;
    while i < cs.len()
        invariant
            i <= cs@.len(),
            v@ == add_all(old(v)@, cs@.take(i as int)),
        decreases cs.len() - i,
    {
        proof {
            assert(cs@.take(i + 1).drop_last() =~= cs@.take(i as int));
        }
        push_new_category(v, cs[i]);
        i += 1;
    }
    assert(cs@.take(cs.len() as int) =~= cs@);
}

/// Grows the authorization lists.
pub struct AuthStep;

impl EffectStepMut<Authorizations> for AuthStep {
    open spec fn step_view(&self, acc: (Seq<Seq<char>>, Seq<AbilityCategory>), s: SelectionView, e: Effect) -> (Seq<Seq<char>>, Seq<AbilityCategory>) {
        auth_step(acc, s, e)
    }

    fn step_mut(&self, acc: &mut Authorizations, s: &Selection, e: &Effect) {
        match e {
            Effect::RestrictedAbilityXp { amount, abilities, categories } => {
                push_all_ids(&mut acc.abilities, abilities);
                push_all_categories(&mut acc.categories, categories);
            },
            Effect::AbilityAuthorization { abilities, categories } => {
                push_all_ids(&mut acc.abilities, abilities);
                push_all_categories(&mut acc.categories, categories);
            },
            Effect::AbilityScoreGrant { ability, amount } => {
                push_new_id(&mut acc.abilities, ability);
            },
            _ => {},
        }
    }
}

/// The Abilities and categories the entity's selections permit.
pub open spec fn authorizations_spec(entity: &Entity, ruleset: &Ruleset) -> (Seq<Seq<char>>, Seq<AbilityCategory>) {
    fold_sels((Seq::empty(), Seq::empty()), effect_selections(entity, ruleset), ruleset,
        |a: (Seq<Seq<char>>, Seq<AbilityCategory>), s: SelectionView, e: Effect| auth_step(a, s, e))
}

/// The Abilities and categories the entity's Virtues permit it to learn: an
/// experience grant earmarked for them, an explicit authorization, or a free
/// score in an Ability.
pub fn ability_authorizations(entity: &Entity, ruleset: &Ruleset) -> (r: Authorizations)
    ensures
        r@ == authorizations_spec(entity, ruleset),
{
    let sels = selections_for_effects(entity, ruleset);
    let mut acc = Authorizations { abilities: Vec::new(), categories: Vec::new() };
    proof {
        assert(acc@ =~= (Seq::<Seq<char>>::empty(), Seq::<AbilityCategory>::empty()));
    }
    let step = AuthStep;
    fold_effects_mut(&sels, ruleset, &mut acc, &step);
    proof {
        assert(view_step_fn::<Authorizations, AuthStep>(step) =~= (|a: (Seq<Seq<char>>, Seq<AbilityCategory>), s: SelectionView, e: Effect| auth_step(a, s, e)));
    }
    acc
}


// --- purchases -----------------------------------------------------------------

/// What a purchase buys: an Ability (eligible for the Ability pools), an Art
/// or an uncatalogued Ability (general pool only), or a Spell Mastery (the
/// mastery pool and the general pool).
enum SpendKind {
    Ability { ability: Id, category: AbilityCategory, parameter: Option<String> },
    Art,
    Mastery,
}

/// One purchase's charge and what it buys.
struct Spend {
    cost: u32,
    kind: SpendKind,
}

/// What a purchase buys, as the allocation graph sees it.
pub enum SpendKindView {
    Ability { ability: Seq<char>, category: AbilityCategory, parameter: Option<Seq<char>> },
    Art,
    Mastery,
}

/// One purchase of the allocation graph: its charge and what it buys.
pub struct SpendView {
    pub cost: u32,
    pub kind: SpendKindView,
}

spec fn spend_view(s: Spend) -> SpendView {
    SpendView {
        cost: s.cost,
        kind: match s.kind {
            SpendKind::Ability { ability, category, parameter } => SpendKindView::Ability { ability: ability@, category, parameter: opt_string_view(parameter) },
            SpendKind::Art => SpendKindView::Art,
            SpendKind::Mastery => SpendKindView::Mastery,
        },
    }
}

/// The table cost of a free floor score (0 when there is no floor).
pub open spec fn floor_table(rs: &Ruleset, floor: i32) -> u32 {
    if 0 < floor <= 255 {
        match rs.advancement.xp_for_score_spec(floor as u8) {
            Some(x) => x,
            None => 0,
        }
    } else {
        0
    }
}

/// The charge of one bought Ability row: its table cost less its free floor's,
/// under its Affinity; `None` when the table cannot price the score.
pub open spec fn ability_charge(entity: &Entity, rs: &Ruleset, row: AbilityScore) -> Option<u32> {
    match rs.advancement.xp_for_score_spec(row.score) {
        None => None,
        Some(table) => {
            let p = opt_string_view(row.parameter);
            let ft = floor_table(rs, granted_floor_spec(entity, rs, row.ability@, p));
            Some(charged_cost_spec(sat_sub(table, ft), ability_affinity_spec(entity, rs, row.ability@, p)))
        },
    }
}

/// The charge of one bought Art row under its Affinity.
pub open spec fn art_charge(entity: &Entity, rs: &Ruleset, row: ArtScore) -> Option<u32> {
    match rs.art_advancement.xp_for_score_spec(row.score) {
        None => None,
        Some(table) => Some(charged_cost_spec(table, art_affinity_spec(entity, rs, row.art@))),
    }
}

/// The table cost of the free Spell Mastery floor.
pub open spec fn mastery_floor_table(entity: &Entity, rs: &Ruleset) -> u32 {
    let f = mastery_floor_spec(entity, rs);
    if f > 0 {
        match rs.advancement.xp_for_score_spec(f) {
            Some(x) => x,
            None => 0,
        }
    } else {
        0
    }
}

/// The charge of one known spell's bought Mastery above the free floor;
/// `None` when nothing is charged.
pub open spec fn mastery_charge(entity: &Entity, rs: &Ruleset, sp: SpellSelection) -> Option<u32> {
    let bought: u8 = match sp.mastery { Some(m) => m, None => 0 };
    if bought == 0 {
        None
    } else {
        match rs.advancement.xp_for_score_spec(bought) {
            None => None,
            Some(table) => {
                let c = charged_cost_spec(sat_sub(table, mastery_floor_table(entity, rs)), mastery_affinity_spec(entity, rs));
                if c == 0 { None } else { Some(c) }
            },
        }
    }
}

/// The summed charges of the rows.
pub open spec fn charge_sum<T>(rows: Seq<T>, f: spec_fn(T) -> Option<u32>) -> int
    decreases rows.len(),
{
    if rows.len() == 0 {
        0
    } else {
        charge_sum(rows.drop_last(), f) + match f(rows.last()) { Some(c) => c as int, None => 0 }
    }
}

/// How many rows are charged.
pub open spec fn charge_count<T>(rows: Seq<T>, f: spec_fn(T) -> Option<u32>) -> int
    decreases rows.len(),
{
    if rows.len() == 0 {
        0
    } else {
        charge_count(rows.drop_last(), f) + if f(rows.last()) is Some { 1int } else { 0 }
    }
}

/// The Ability charge as a function of the row.
pub open spec fn ability_charge_fn(entity: &Entity, rs: &Ruleset) -> spec_fn(AbilityScore) -> Option<u32> {
    |row: AbilityScore| ability_charge(entity, rs, row)
}

/// The Art charge as a function of the row.
pub open spec fn art_charge_fn(entity: &Entity, rs: &Ruleset) -> spec_fn(ArtScore) -> Option<u32> {
    |row: ArtScore| art_charge(entity, rs, row)
}

/// The Mastery charge as a function of the spell.
pub open spec fn mastery_charge_fn(entity: &Entity, rs: &Ruleset) -> spec_fn(SpellSelection) -> Option<u32> {
    |sp: SpellSelection| mastery_charge(entity, rs, sp)
}

/// The entity's total demand: every charged Ability, Art and Mastery.
pub open spec fn demand_spec(entity: &Entity, rs: &Ruleset) -> int {
    charge_sum(entity.ability_scores@, ability_charge_fn(entity, rs))
        + charge_sum(entity.art_scores@, art_charge_fn(entity, rs))
        + charge_sum(entity.spells@, mastery_charge_fn(entity, rs))
}

/// How many purchases the entity makes.
pub open spec fn spend_count_spec(entity: &Entity, rs: &Ruleset) -> int {
    charge_count(entity.ability_scores@, ability_charge_fn(entity, rs))
        + charge_count(entity.art_scores@, art_charge_fn(entity, rs))
        + charge_count(entity.spells@, mastery_charge_fn(entity, rs))
}

/// What a bought Ability row buys: a catalogued Ability is eligible for the
/// Ability pools; an uncatalogued one draws on the general pool only.
pub open spec fn ability_spend_kind(rs: &Ruleset, row: AbilityScore) -> SpendKindView {
    match find(rs.abilities@, row.ability@) {
        Some(def) => SpendKindView::Ability { ability: row.ability@, category: def.category, parameter: opt_string_view(row.parameter) },
        None => SpendKindView::Art,
    }
}

/// The purchases of `rows`, in order: one for each row that `charge` prices.
pub open spec fn charged_spends<T>(rows: Seq<T>, charge: spec_fn(T) -> Option<u32>, kind: spec_fn(T) -> SpendKindView) -> Seq<SpendView>
    decreases rows.len(),
{
    if rows.len() == 0 {
        Seq::empty()
    } else {
        let rest = charged_spends(rows.drop_last(), charge, kind);
        match charge(rows.last()) {
            Some(c) => rest.push(SpendView { cost: c, kind: kind(rows.last()) }),
            None => rest,
        }
    }
}

/// The Ability purchase kinds as a function of the row.
pub open spec fn ability_kind_fn(rs: &Ruleset) -> spec_fn(AbilityScore) -> SpendKindView {
    |row: AbilityScore| ability_spend_kind(rs, row)
}

/// Every purchase the entity makes, in order: its charged Abilities, its
/// Arts, and the Mastery of its spells.
pub open spec fn spends_spec(entity: &Entity, rs: &Ruleset) -> Seq<SpendView> {
    charged_spends(entity.ability_scores@, ability_charge_fn(entity, rs), ability_kind_fn(rs))
        + charged_spends(entity.art_scores@, art_charge_fn(entity, rs), |row: ArtScore| SpendKindView::Art)
        + charged_spends(entity.spells@, mastery_charge_fn(entity, rs), |sp: SpellSelection| SpendKindView::Mastery)
}

/// The views of a list of purchases.
spec fn spends_view(s: Seq<Spend>) -> Seq<SpendView> {
    s.map_values(|x: Spend| spend_view(x))
}

/// The summed costs of the purchases.
spec fn cost_sum(s: Seq<Spend>) -> int
    decreases s.len(),
{
    if s.len() == 0 { 0 } else { cost_sum(s.drop_last()) + s.last().cost }
}

proof fn lemma_charge_bounds<T>(rows: Seq<T>, f: spec_fn(T) -> Option<u32>)
    ensures
        0 <= charge_count(rows, f) <= rows.len(),
        0 <= charge_sum(rows, f),
    decreases rows.len(),
{
    if rows.len() > 0 {
        lemma_charge_bounds(rows.drop_last(), f);
    }
}

fn push_ability_spends(entity: &Entity, ruleset: &Ruleset, out: &mut Vec<Spend>)
    ensures
        cost_sum(final(out)@) == cost_sum(old(out)@) + charge_sum(entity.ability_scores@, ability_charge_fn(entity, ruleset)),
        final(out)@.len() == old(out)@.len() + charge_count(entity.ability_scores@, ability_charge_fn(entity, ruleset)),
        spends_view(final(out)@) == spends_view(old(out)@) + charged_spends(entity.ability_scores@, ability_charge_fn(entity, ruleset), ability_kind_fn(ruleset)),
{
    let ghost f = ability_charge_fn(entity, ruleset);
    let ghost kf = ability_kind_fn(ruleset);
    let mut i: usize = 0;
    while i < entity.ability_scores.len()
        invariant
            i <= entity.ability_scores@.len(),
            f == ability_charge_fn(entity, ruleset),
            kf == ability_kind_fn(ruleset),
            spends_view(out@) == spends_view(old(out)@) + charged_spends(entity.ability_scores@.take(i as int), f, kf),
            cost_sum(out@) == cost_sum(old(out)@) + charge_sum(entity.ability_scores@.take(i as int), f),
            out@.len() == old(out)@.len() + charge_count(entity.ability_scores@.take(i as int), f),
        decreases entity.ability_scores.len() - i,
    {
        proof {
            assert(entity.ability_scores@.take(i + 1).drop_last() =~= entity.ability_scores@.take(i as int));
        }
        let a = &entity.ability_scores[i];
        let parameter = opt_str(&a.parameter);
        match ruleset.advancement.xp_for_score(a.score) {
            None => {},
            Some(table) => {
                let floor = granted_ability_floor(entity, ruleset, a.ability.as_str(), parameter);
                let floor_xp: u32 = if floor > 0 && floor <= 255 {
                    match ruleset.advancement.xp_for_score(floor as u8) {
                        Some(x) => x,
                        None => 0,
                    }
                } else {
                    0
                };
                let payable = table.saturating_sub(floor_xp);
                let affinity = ability_affinity(entity, ruleset, a.ability.as_str(), parameter);
                let cost = charged_cost(payable, affinity);
                let kind = match ruleset.ability(a.ability.as_str()) {
                    Some(def) => SpendKind::Ability {
                        ability: a.ability.clone(),
                        category: def.category,
                        parameter: match &a.parameter {
                            Some(p) => Some(p.clone()),
                            None => None,
                        },
                    },
                    None => SpendKind::Art,
                };
                let ghost before = out@;
                out.push(Spend { cost, kind });
                proof {
                    assert(out@.drop_last() =~= before);
                    assert(spend_view(Spend { cost, kind }).kind == ability_spend_kind(ruleset, entity.ability_scores@[i as int]));
                    assert(spends_view(out@) =~= spends_view(before).push(spend_view(Spend { cost, kind })));
                }
            },
        }
        i += 1;
    }
    assert(entity.ability_scores@.take(entity.ability_scores.len() as int) =~= entity.ability_scores@);
}

fn push_art_spends(entity: &Entity, ruleset: &Ruleset, out: &mut Vec<Spend>)
    ensures
        cost_sum(final(out)@) == cost_sum(old(out)@) + charge_sum(entity.art_scores@, art_charge_fn(entity, ruleset)),
        final(out)@.len() == old(out)@.len() + charge_count(entity.art_scores@, art_charge_fn(entity, ruleset)),
        spends_view(final(out)@) == spends_view(old(out)@) + charged_spends(entity.art_scores@, art_charge_fn(entity, ruleset), |row: ArtScore| SpendKindView::Art),
{
    let ghost f = art_charge_fn(entity, ruleset);
    let ghost kf = |row: ArtScore| SpendKindView::Art;
    let mut i: usize = 0;
    while i < entity.art_scores.len()
        invariant
            i <= entity.art_scores@.len(),
            f == art_charge_fn(entity, ruleset),
            kf == (|row: ArtScore| SpendKindView::Art),
            spends_view(out@) == spends_view(old(out)@) + charged_spends(entity.art_scores@.take(i as int), f, kf),
            cost_sum(out@) == cost_sum(old(out)@) + charge_sum(entity.art_scores@.take(i as int), f),
            out@.len() == old(out)@.len() + charge_count(entity.art_scores@.take(i as int), f),
        decreases entity.art_scores.len() - i,
    {
        proof {
            assert(entity.art_scores@.take(i + 1).drop_last() =~= entity.art_scores@.take(i as int));
        }
        let a = &entity.art_scores[i];
        match ruleset.art_advancement.xp_for_score(a.score) {
            None => {},
            Some(table) => {
                let cost = charged_cost(table, art_affinity(entity, ruleset, a.art.as_str()));
                let ghost before = out@;
                out.push(Spend { cost, kind: SpendKind::Art });
                proof {
                    assert(out@.drop_last() =~= before);
                    assert(spends_view(out@) =~= spends_view(before).push(spend_view(Spend { cost, kind: SpendKind::Art })));
                }
            },
        }
        i += 1;
    }
    assert(entity.art_scores@.take(entity.art_scores.len() as int) =~= entity.art_scores@);
}

fn push_mastery_spends(entity: &Entity, ruleset: &Ruleset, out: &mut Vec<Spend>)
    ensures
        cost_sum(final(out)@) == cost_sum(old(out)@) + charge_sum(entity.spells@, mastery_charge_fn(entity, ruleset)),
        final(out)@.len() == old(out)@.len() + charge_count(entity.spells@, mastery_charge_fn(entity, ruleset)),
        spends_view(final(out)@) == spends_view(old(out)@) + charged_spends(entity.spells@, mastery_charge_fn(entity, ruleset), |sp: SpellSelection| SpendKindView::Mastery),
{
    let ghost f = mastery_charge_fn(entity, ruleset);
    let ghost kf = |sp: SpellSelection| SpendKindView::Mastery;
    let mastery_floor = spell_mastery_floor(entity, ruleset);
    let floor_xp: u32 = if mastery_floor > 0 {
        match ruleset.advancement.xp_for_score(mastery_floor) {
            Some(x) => x,
            None => 0,
        }
    } else {
        0
    };
    let affinity = spell_mastery_advancement_affinity(entity, ruleset);
    let mut i: usize = 0;
    while i < entity.spells.len()
        invariant
            i <= entity.spells@.len(),
            f == mastery_charge_fn(entity, ruleset),
            floor_xp == mastery_floor_table(entity, ruleset),
            affinity == mastery_affinity_spec(entity, ruleset),
            kf == (|sp: SpellSelection| SpendKindView::Mastery),
            spends_view(out@) == spends_view(old(out)@) + charged_spends(entity.spells@.take(i as int), f, kf),
            cost_sum(out@) == cost_sum(old(out)@) + charge_sum(entity.spells@.take(i as int), f),
            out@.len() == old(out)@.len() + charge_count(entity.spells@.take(i as int), f),
        decreases entity.spells.len() - i,
    {
        proof {
            assert(entity.spells@.take(i + 1).drop_last() =~= entity.spells@.take(i as int));
        }
        let bought: u8 = match entity.spells[i].mastery {
            Some(m) => m,
            None => 0,
        };
        if bought != 0 {
            match ruleset.advancement.xp_for_score(bought) {
                None => {},
                Some(table) => {
                    let cost = charged_cost(table.saturating_sub(floor_xp), affinity);
                    if cost != 0 {
                        let ghost before = out@;
                        out.push(Spend { cost, kind: SpendKind::Mastery });
                        proof {
                            assert(out@.drop_last() =~= before);
                            assert(spends_view(out@) =~= spends_view(before).push(spend_view(Spend { cost, kind: SpendKind::Mastery })));
                        }
                    }
                },
            }
        }
        i += 1;
    }
    assert(entity.spells@.take(entity.spells.len() as int) =~= entity.spells@);
}

/// Every purchase the entity makes: its bought Abilities (net of free floors,
/// under Affinity), its Arts, and the Mastery of its spells above the free
/// floor; rows the tables cannot price are skipped.
fn build_spends(entity: &Entity, ruleset: &Ruleset) -> (r: Vec<Spend>)
    ensures
        cost_sum(r@) == demand_spec(entity, ruleset),
        r@.len() == spend_count_spec(entity, ruleset),
        spends_view(r@) == spends_spec(entity, ruleset),
{
    let mut out: Vec<Spend> = Vec::new();
    proof {
        assert(spends_view(out@) =~= Seq::empty());
    }
    push_ability_spends(entity, ruleset, &mut out);
    push_art_spends(entity, ruleset, &mut out);
    push_mastery_spends(entity, ruleset, &mut out);
    proof {
        assert(spends_view(out@) =~= spends_spec(entity, ruleset));
    }
    out
}


// --- the pools the flow graph draws from ------------------------------------

/// A restricted pool in the flow graph: its capacity, which Abilities it may
/// fund (by id or category, or exactly the listed instances when any are
/// listed, never the excluded ones), and where it came from.
struct FlowPool {
    amount: u32,
    abilities: Vec<Id>,
    categories: Vec<AbilityCategory>,
    instances: Vec<AbilityInstanceRef>,
    exclude: Vec<AbilityInstanceRef>,
    origin: XpPoolOrigin,
}

/// The shape of a flow pool.
spec fn flow_shape(p: FlowPool) -> PoolShape {
    PoolShape { amount: p.amount, abilities: ids_view(p.abilities@), categories: p.categories@, origin: origin_shape(p.origin) }
}

/// The full view of a flow pool.
spec fn flow_view(p: FlowPool) -> FlowPoolView {
    FlowPoolView {
        shape: flow_shape(p),
        instances: p.instances@.map_values(|i: AbilityInstanceRef| instance_view(i)),
        exclude: p.exclude@.map_values(|i: AbilityInstanceRef| instance_view(i)),
    }
}

/// A list of flow pools.
struct PoolList {
    pools: Vec<FlowPool>,
}

impl View for PoolList {
    type V = Seq<FlowPoolView>;

    closed spec fn view(&self) -> Seq<FlowPoolView> {
        self.pools@.map_values(|p: FlowPool| flow_view(p))
    }
}

/// One step of the item-pool fold: each [`Effect::RestrictedAbilityXp`] is a
/// pool of its own, named by the granting item.
pub open spec fn item_pool_step(acc: Seq<FlowPoolView>, s: SelectionView, e: Effect) -> Seq<FlowPoolView> {
    match e {
        Effect::RestrictedAbilityXp { amount, abilities, categories } => acc.push(FlowPoolView {
            shape: PoolShape {
                amount,
                abilities: ids_view(abilities@),
                categories: categories@,
                origin: OriginShape::Item(s.item_ref),
            },
            instances: Seq::empty(),
            exclude: Seq::empty(),
        }),
        _ => acc,
    }
}

fn copy_ids(v: &Vec<Id>) -> (r: Vec<Id>)
    ensures
        ids_view(r@) == ids_view(v@),
{
    let mut out: Vec<Id> = Vec::new();
    let mut i: usize = 0;
    while i < v.len()
        invariant
            i <= v@.len(),
            ids_view(out@) == ids_view(v@.take(i as int)),
        decreases v.len() - i,
    {
        proof {
            assert(ids_view(v@.take(i + 1)) =~= ids_view(v@.take(i as int)).push(v@[i as int]@));
        }
        let ghost before = out@;
        out.push(v[i].clone());
        proof {
            assert(ids_view(out@) =~= ids_view(before).push(v@[i as int]@));
        }
        i += 1;
    }
    assert(v@.take(v.len() as int) =~= v@);
    out
}

/// The ids of `ids` in ascending order, each once: a set of ids.
pub open spec fn sorted_ids(ids: Seq<Seq<char>>) -> Seq<Seq<char>>
    decreases ids.len(),
{
    if ids.len() == 0 {
        Seq::empty()
    } else {
        insert_key(sorted_ids(ids.drop_last()), ids.last())
    }
}

/// The ids of `v` in ascending order, each once.
fn sort_ids(v: &Vec<Id>) -> (r: Vec<Id>)
    ensures
        ids_view(r@) == sorted_ids(ids_view(v@)),
{
    let mut out: Vec<Id> = Vec::new();
    let mut i: usize = 0;
    proof {
        assert(ids_view(v@).take(0) =~= Seq::<Seq<char>>::empty());
        assert(strings_view(out@) =~= Seq::<Seq<char>>::empty());
    }
    while i < v.len()
        invariant
            i <= v@.len(),
            strings_view(out@) == sorted_ids(ids_view(v@).take(i as int)),
        decreases v.len() - i,
    {
        proof {
            assert(ids_view(v@).take(i + 1).drop_last() =~= ids_view(v@).take(i as int));
            assert(ids_view(v@).take(i + 1).last() == v@[i as int]@);
        }
        insert_sorted(&mut out, v[i].clone());
        i += 1;
    }
    assert(ids_view(v@).take(v.len() as int) =~= ids_view(v@));
    assert(ids_view(out@) =~= strings_view(out@));
    out
}

fn copy_categories(v: &Vec<AbilityCategory>) -> (r: Vec<AbilityCategory>)
    ensures
        r@ == v@,
{
    let mut out: Vec<AbilityCategory> = Vec::new();
    let mut i: usize = 0;
    while i < v.len()
        invariant
            i <= v@.len(),
            out@ == v@.take(i as int),
        decreases v.len() - i,
    {
        proof {
            assert(v@.take(i + 1) =~= v@.take(i as int).push(v@[i as int]));
        }
        out.push(v[i]);
        i += 1;
    }
    assert(v@.take(v.len() as int) =~= v@);
    out
}

/// Collects the item pools.
struct ItemPools;

impl EffectStepMut<PoolList> for ItemPools {
    open spec fn step_view(&self, acc: Seq<FlowPoolView>, s: SelectionView, e: Effect) -> Seq<FlowPoolView> {
        item_pool_step(acc, s, e)
    }

    fn step_mut(&self, acc: &mut PoolList, s: &Selection, e: &Effect) {
        match e {
            Effect::RestrictedAbilityXp { amount, abilities, categories } => {
                let pool = FlowPool {
                    amount: *amount,
                    abilities: copy_ids(abilities),
                    categories: copy_categories(categories),
                    instances: Vec::new(),
                    exclude: Vec::new(),
                    origin: XpPoolOrigin::Item { item: s.item_ref.clone() },
                };
                let ghost before = acc.pools@;
                acc.pools.push(pool);
                proof {
                    assert(pool.instances@.map_values(|i: AbilityInstanceRef| instance_view(i)) =~= Seq::empty());
                    assert(pool.exclude@.map_values(|i: AbilityInstanceRef| instance_view(i)) =~= Seq::empty());
                    assert(acc.pools@.map_values(|p: FlowPool| flow_view(p)) =~= before.map_values(|p: FlowPool| flow_view(p)).push(flow_view(pool)));
                }
            },
            _ => {},
        }
    }
}

/// The pools the entity's Virtues and Flaws grant, in selection order.
pub open spec fn item_pools_spec(entity: &Entity, ruleset: &Ruleset) -> Seq<FlowPoolView> {
    fold_sels(Seq::empty(), effect_selections(entity, ruleset), ruleset, |a: Seq<FlowPoolView>, s: SelectionView, e: Effect| item_pool_step(a, s, e))
}

/// Whether the entity's plan names a native language.
pub open spec fn has_native_language(entity: &Entity) -> bool {
    match entity.life_stages {
        Some(plan) => plan.native_language is Some,
        None => false,
    }
}

/// The categories a magus's later life may fund: every category that needs no
/// Virtue, and those its Virtues authorize.
pub open spec fn later_life_categories(entity: &Entity, ruleset: &Ruleset) -> Seq<AbilityCategory> {
    all_ability_categories().filter(|c: AbilityCategory|
        !ruleset.categories_requiring_virtue@.contains(c) || authorizations_spec(entity, ruleset).1.contains(c))
}

/// The life-stage pools of a planned entity: the native-language block (when
/// a language is chosen), the childhood spread, and a magus's later life
/// (when it earns anything).
pub open spec fn life_pools_spec(entity: &Entity, ruleset: &Ruleset) -> Seq<FlowPoolView> {
    match ruleset.life_stages {
        None => Seq::empty(),
        Some(rules) => match rules.budget_spec(entity, ruleset) {
            None => Seq::empty(),
            Some(b) => {
                let native_instance = (rules.childhood.native_language_ability@, Some(native_language_spec(entity)));
                let native = if has_native_language(entity) {
                    seq![FlowPoolView {
                        shape: PoolShape { amount: b.childhood_native_xp, abilities: Seq::empty(), categories: Seq::empty(), origin: OriginShape::Block(LifeStageBlock::ChildhoodNativeLanguage) },
                        instances: seq![native_instance],
                        exclude: Seq::empty(),
                    }]
                } else {
                    Seq::empty()
                };
                let spread = FlowPoolView {
                    shape: PoolShape {
                        amount: b.childhood_spread_xp,
                        abilities: sorted_ids(ids_view(rules.childhood.spread_abilities@)),
                        categories: Seq::empty(),
                        origin: OriginShape::Block(LifeStageBlock::ChildhoodSpread),
                    },
                    instances: Seq::empty(),
                    exclude: if has_native_language(entity) { seq![native_instance] } else { Seq::empty() },
                };
                let later = if ruleset.is_magus_spec(entity.type_id@) && b.later_life_xp > 0 {
                    seq![FlowPoolView {
                        shape: PoolShape {
                            amount: b.later_life_xp,
                            abilities: authorizations_spec(entity, ruleset).0,
                            categories: later_life_categories(entity, ruleset),
                            origin: OriginShape::Block(LifeStageBlock::LaterLife),
                        },
                        instances: Seq::empty(),
                        exclude: Seq::empty(),
                    }]
                } else {
                    Seq::empty()
                };
                native.push(spread) + later
            },
        },
    }
}

/// The native language the entity's plan names (meaningful only when it
/// names one).
pub open spec fn native_language_spec(entity: &Entity) -> Seq<char> {
    match entity.life_stages {
        Some(plan) => match plan.native_language {
            Some(language) => language@,
            None => Seq::empty(),
        },
        None => Seq::empty(),
    }
}

/// Every restricted Ability pool the entity holds, in order, as the
/// allocation graph sees it: the item pools, then the life-stage pools. The
/// native-language pool funds only the native language, and the childhood
/// spread never funds it.
pub open spec fn flow_pools_spec(entity: &Entity, ruleset: &Ruleset) -> Seq<FlowPoolView> {
    item_pools_spec(entity, ruleset) + life_pools_spec(entity, ruleset)
}

/// Every restricted Ability pool the entity holds, in order: the item pools,
/// then the life-stage pools.
pub open spec fn surfaced_pools_spec(entity: &Entity, ruleset: &Ruleset) -> Seq<PoolShape> {
    flow_pools_spec(entity, ruleset).map_values(|p: FlowPoolView| p.shape)
}

fn push_pool(list: &mut PoolList, pool: FlowPool)
    ensures
        final(list)@ == old(list)@.push(flow_view(pool)),
{
    let ghost before = list.pools@;
    list.pools.push(pool);
    proof {
        assert(list.pools@.map_values(|p: FlowPool| flow_view(p)) =~= before.map_values(|p: FlowPool| flow_view(p)).push(flow_view(pool)));
    }
}

fn later_categories(entity: &Entity, ruleset: &Ruleset, authorized: &Vec<AbilityCategory>) -> (r: Vec<AbilityCategory>)
    requires
        authorized@ == authorizations_spec(entity, ruleset).1,
    ensures
        r@ == later_life_categories(entity, ruleset),
{
    let all = AbilityCategory::all();
    let ghost keep = |c: AbilityCategory| !ruleset.categories_requiring_virtue@.contains(c) || authorizations_spec(entity, ruleset).1.contains(c);
    let mut out: Vec<AbilityCategory> = Vec::new();
    let mut i: usize = 0;
    while i < all.len()
        invariant
            all@ == all_ability_categories(),
            i <= all@.len(),
            authorized@ == authorizations_spec(entity, ruleset).1,
            keep == (|c: AbilityCategory| !ruleset.categories_requiring_virtue@.contains(c) || authorizations_spec(entity, ruleset).1.contains(c)),
            out@ == all@.take(i as int).filter(keep),
        decreases all.len() - i,
    {
        proof {
            assert(all@.take(i + 1).drop_last() =~= all@.take(i as int));
            reveal(Seq::filter);
        }
        let c = all[i];
        let gated = contains_category(&ruleset.categories_requiring_virtue, c);
        let allowed = contains_category(authorized, c);
        if !gated || allowed {
            out.push(c);
        }
        i += 1;
    }
    assert(all@.take(all.len() as int) =~= all@);
    out
}

fn contains_category(v: &Vec<AbilityCategory>, c: AbilityCategory) -> (r: bool)
    ensures
        r == v@.contains(c),
{
    let mut i: usize = 0;
    while i < v.len()
        invariant
            i <= v@.len(),
            forall|j: int| 0 <= j < i ==> #[trigger] v@[j] != c,
        decreases v.len() - i,
    {
        if v[i] == c {
            return true;
        }
        i += 1;
    }
    false
}

/// Every restricted Ability pool of the entity, as flow pools.
fn build_flow_pools(entity: &Entity, ruleset: &Ruleset) -> (r: PoolList)
    ensures
        r@ == flow_pools_spec(entity, ruleset),
        r@.map_values(|p: FlowPoolView| p.shape) == surfaced_pools_spec(entity, ruleset),
{
    let sels = selections_for_effects(entity, ruleset);
    let mut list = PoolList { pools: Vec::new() };
    proof {
        assert(list@ =~= Seq::<FlowPoolView>::empty());
    }
    let step = ItemPools;
    fold_effects_mut(&sels, ruleset, &mut list, &step);
    proof {
        assert(view_step_fn::<PoolList, ItemPools>(step) =~= (|a: Seq<FlowPoolView>, s: SelectionView, e: Effect| item_pool_step(a, s, e)));
    }
    let ghost items = list@;
    let rules = match &ruleset.life_stages {
        Some(rules) => rules,
        None => {
            assert(list@ =~= flow_pools_spec(entity, ruleset));
            return list;
        },
    };
    let budget = match rules.budget(entity, ruleset) {
        Some(b) => b,
        None => {
            assert(list@ =~= flow_pools_spec(entity, ruleset));
            return list;
        },
    };
    let native: Option<AbilityInstanceRef> = match &entity.life_stages {
        Some(plan) => match &plan.native_language {
            Some(language) => Some(AbilityInstanceRef { ability: rules.childhood.native_language_ability.clone(), parameter: Some(language.clone()) }),
            None => None,
        },
        None => None,
    };
    let ghost native_instance = (rules.childhood.native_language_ability@, Some(native_language_spec(entity)));
    proof {
        assert(native is Some <==> has_native_language(entity));
        assert(native is Some ==> instance_view(native.unwrap()) == native_instance);
    }
    let mut exclude: Vec<AbilityInstanceRef> = Vec::new();
    match native {
        Some(instance) => {
            let copy = AbilityInstanceRef {
                ability: instance.ability.clone(),
                parameter: match &instance.parameter {
                    Some(p) => Some(p.clone()),
                    None => None,
                },
            };
            exclude.push(copy);
            let mut instances: Vec<AbilityInstanceRef> = Vec::new();
            instances.push(instance);
            push_pool(&mut list, FlowPool {
                amount: budget.childhood_native_xp,
                abilities: Vec::new(),
                categories: Vec::new(),
                instances,
                exclude: Vec::new(),
                origin: XpPoolOrigin::LifeStage { block: LifeStageBlock::ChildhoodNativeLanguage },
            });
            proof {
                assert(has_native_language(entity));
                assert(ids_view(Seq::<Id>::empty()) =~= Seq::<Seq<char>>::empty());
                assert(instance_view(copy) == native_instance);
                assert(exclude@.map_values(|i: AbilityInstanceRef| instance_view(i)) =~= seq![native_instance]);
                assert(seq![instance].map_values(|i: AbilityInstanceRef| instance_view(i)) =~= seq![native_instance]);
                assert(Seq::<AbilityInstanceRef>::empty().map_values(|i: AbilityInstanceRef| instance_view(i)) =~= Seq::empty());
            }
        },
        None => {
            assert(!has_native_language(entity));
            assert(exclude@.map_values(|i: AbilityInstanceRef| instance_view(i)) =~= Seq::empty());
        },
    }
    let ghost after_native = list@;
    proof {
        assert(Seq::<AbilityInstanceRef>::empty().map_values(|i: AbilityInstanceRef| instance_view(i)) =~= Seq::empty());
    }
    push_pool(&mut list, FlowPool {
        amount: budget.childhood_spread_xp,
        abilities: sort_ids(&rules.childhood.spread_abilities),
        categories: Vec::new(),
        instances: Vec::new(),
        exclude,
        origin: XpPoolOrigin::LifeStage { block: LifeStageBlock::ChildhoodSpread },
    });
    if ruleset.is_magus(entity.type_id.as_str()) && budget.later_life_xp > 0 {
        let auth = ability_authorizations(entity, ruleset);
        let categories = later_categories(entity, ruleset, &auth.categories);
        push_pool(&mut list, FlowPool {
            amount: budget.later_life_xp,
            abilities: auth.abilities,
            categories,
            instances: Vec::new(),
            exclude: Vec::new(),
            origin: XpPoolOrigin::LifeStage { block: LifeStageBlock::LaterLife },
        });
    }
    proof {
        let b = rules.budget_spec(entity, ruleset).unwrap();
        assert(b == budget);
        let native_part = if has_native_language(entity) {
            seq![FlowPoolView {
                shape: PoolShape { amount: b.childhood_native_xp, abilities: Seq::empty(), categories: Seq::empty(), origin: OriginShape::Block(LifeStageBlock::ChildhoodNativeLanguage) },
                instances: seq![native_instance],
                exclude: Seq::empty(),
            }]
        } else {
            Seq::empty()
        };
        assert(after_native =~= items + native_part);
        assert(life_pools_spec(entity, ruleset) =~= list@.subrange(items.len() as int, list@.len() as int));
        assert(list@ =~= flow_pools_spec(entity, ruleset));
    }
    list
}

/// Whether a pool may fund a purchase: only Ability purchases, never an
/// excluded instance; exactly the listed instances when it lists any, else the
/// listed Abilities and categories.
pub open spec fn covers_spec(p: FlowPoolView, k: SpendKindView) -> bool {
    match k {
        SpendKindView::Ability { ability, category, parameter } => {
            &&& !(exists|j: int| 0 <= j < p.exclude.len() && instance_names(#[trigger] p.exclude[j], ability, parameter))
            &&& if p.instances.len() > 0 {
                exists|j: int| 0 <= j < p.instances.len() && instance_names(#[trigger] p.instances[j], ability, parameter)
            } else {
                p.shape.abilities.contains(ability) || p.shape.categories.contains(category)
            }
        },
        _ => false,
    }
}

fn pool_covers(pool: &FlowPool, spend: &Spend) -> (r: bool)
    ensures
        r == covers_spec(flow_view(*pool), spend_view(*spend).kind),
{
    let ghost fp = flow_view(*pool);
    match &spend.kind {
        SpendKind::Ability { ability, category, parameter } => {
            let p = opt_str(parameter);
            let ghost pv = opt_string_view(*parameter);
            let ghost kv = spend_view(*spend).kind;
            assert(kv == SpendKindView::Ability { ability: ability@, category: *category, parameter: pv });
            let mut i: usize = 0;
            while i < pool.exclude.len()
                invariant
                    i <= pool.exclude@.len(),
                    fp == flow_view(*pool),
                    opt_view(p) == pv,
                    kv == spend_view(*spend).kind,
                    kv == (SpendKindView::Ability { ability: ability@, category: *category, parameter: pv }),
                    forall|j: int| 0 <= j < i ==> !instance_names(#[trigger] fp.exclude[j], ability@, pv),
                decreases pool.exclude.len() - i,
            {
                if pool.exclude[i].matches(ability.as_str(), p) {
                    assert(instance_names(fp.exclude[i as int], ability@, pv));
                    return false;
                }
                i += 1;
            }
            if pool.instances.len() > 0 {
                let mut k: usize = 0;
                while k < pool.instances.len()
                    invariant
                        k <= pool.instances@.len(),
                        fp == flow_view(*pool),
                        opt_view(p) == pv,
                        kv == spend_view(*spend).kind,
                        kv == (SpendKindView::Ability { ability: ability@, category: *category, parameter: pv }),
                        forall|j: int| 0 <= j < pool.exclude@.len() ==> !instance_names(#[trigger] fp.exclude[j], ability@, pv),
                        forall|j: int| 0 <= j < k ==> !instance_names(#[trigger] fp.instances[j], ability@, pv),
                    decreases pool.instances.len() - k,
                {
                    if pool.instances[k].matches(ability.as_str(), p) {
                        assert(instance_names(fp.instances[k as int], ability@, pv));
                        return true;
                    }
                    k += 1;
                }
                return false;
            }
            let by_id = contains_id(&pool.abilities, ability.as_str());
            let by_category = contains_category(&pool.categories, *category);
            proof {
                if by_id {
                    let j = choose|j: int| 0 <= j < pool.abilities@.len() && #[trigger] pool.abilities@[j]@ == ability@;
                    assert(fp.shape.abilities[j] == ability@);
                } else {
                    assert forall|j: int| 0 <= j < fp.shape.abilities.len() implies #[trigger] fp.shape.abilities[j] != ability@ by {
                        assert(pool.abilities@[j]@ != ability@);
                    }
                }
            }
            by_id || by_category
        },
        SpendKind::Art => false,
        SpendKind::Mastery => false,
    }
}


// --- the allocation ----------------------------------------------------------

/// How many restricted pools the flow graph holds: the surfaced Ability
/// pools, and the Spell Mastery pool when there is mastery experience.
pub open spec fn pool_count_spec(entity: &Entity, ruleset: &Ruleset) -> int {
    surfaced_pools_spec(entity, ruleset).len() + if mastery_xp_spec(entity, ruleset) > 0 { 1int } else { 0 }
}

/// The flow graph's node count: source, sink, the general pool, each pool and
/// each purchase.
pub open spec fn nodes_spec(entity: &Entity, ruleset: &Ruleset) -> int {
    3 + pool_count_spec(entity, ruleset) + spend_count_spec(entity, ruleset)
}

/// The base of the general pool: for a planned magus, apprenticeship plus the
/// years past the Gauntlet; for anyone else planned, later life; otherwise
/// the typed pool.
pub open spec fn base_general_spec(entity: &Entity, ruleset: &Ruleset) -> u32 {
    match ruleset.life_stages {
        Some(rules) => match rules.budget_spec(entity, ruleset) {
            Some(b) => if ruleset.is_magus_spec(entity.type_id@) {
                crate::life_stage::sat_add(b.apprenticeship_xp, b.post_gauntlet_xp)
            } else {
                b.later_life_xp
            },
            None => entity.xp_pool,
        },
        None => entity.xp_pool,
    }
}

/// How many nodes the graph over `pools` and `spends` has: the source, the
/// sink, the general pool, each pool (and the Spell Mastery pool when
/// `mastery` is positive), and each purchase.
pub open spec fn graph_nodes(pools: Seq<FlowPoolView>, spends: Seq<SpendView>, mastery: u32) -> int {
    3 + pools.len() + (if mastery > 0 { 1int } else { 0 }) + spends.len()
}

/// The capacity of the allocation graph's edge from node `a` to node `b`.
/// Node 0 is the source and node 1 the sink; node 2 is the general pool;
/// the restricted pools follow, the Spell Mastery pool last when `mastery`
/// is positive; then the purchases. The source feeds the general pool
/// `general` and each pool its amount; each purchase drains its charge into
/// the sink; the general pool may fund every purchase up to its charge, a
/// restricted pool each purchase it covers, the Spell Mastery pool each
/// Mastery purchase. There are no other edges.
pub open spec fn graph_edge(pools: Seq<FlowPoolView>, spends: Seq<SpendView>, mastery: u32, general: u32, a: int, b: int) -> u32 {
    let np = pools.len() as int;
    let first = 3 + np + (if mastery > 0 { 1int } else { 0 });
    let s = spends.len() as int;
    if a == 0 {
        if b == 2 {
            general
        } else if 3 <= b < 3 + np {
            pools[b - 3].shape.amount
        } else if mastery > 0 && b == 3 + np {
            mastery
        } else {
            0
        }
    } else if first <= a < first + s && b == 1 {
        spends[a - first].cost
    } else if first <= b < first + s {
        if a == 2 {
            spends[b - first].cost
        } else if 3 <= a < 3 + np {
            if covers_spec(pools[a - 3], spends[b - first].kind) { spends[b - first].cost } else { 0 }
        } else if mastery > 0 && a == 3 + np {
            if spends[b - first].kind is Mastery { spends[b - first].cost } else { 0 }
        } else {
            0
        }
    } else {
        0
    }
}

/// The allocation graph as a row-major capacity matrix.
pub open spec fn graph_matrix(pools: Seq<FlowPoolView>, spends: Seq<SpendView>, mastery: u32, general: u32) -> Seq<u32> {
    let n = graph_nodes(pools, spends, mastery);
    Seq::new((n * n) as nat, |i: int| graph_edge(pools, spends, mastery, general, i / n, i % n))
}

/// The general pool: its base plus the signed general adjustment, within
/// `u32`.
pub open spec fn general_pool_spec(entity: &Entity, ruleset: &Ruleset) -> u32 {
    clamp_u32(base_general_spec(entity, ruleset) + signed_spec(entity, ruleset, false))
}

/// The entity's allocation graph: its pools, its purchases, its Spell
/// Mastery pool and its general pool.
pub open spec fn xp_graph(entity: &Entity, ruleset: &Ruleset) -> Seq<u32> {
    graph_matrix(flow_pools_spec(entity, ruleset), spends_spec(entity, ruleset), mastery_xp_spec(entity, ruleset), general_pool_spec(entity, ruleset))
}

/// The entity's allocation graph with the general pool's edge closed: what
/// the restricted pools (the Spell Mastery pool among them) can fund alone.
pub open spec fn xp_graph_closed(entity: &Entity, ruleset: &Ruleset) -> Seq<u32> {
    graph_matrix(flow_pools_spec(entity, ruleset), spends_spec(entity, ruleset), mastery_xp_spec(entity, ruleset), 0)
}

/// The cell `(i / n, i % n)` is the `i`-th entry of an `n`-column matrix.
proof fn lemma_cell_of_index(n: int, i: int)
    requires
        0 < n,
        0 <= i < n * n,
    ensures
        0 <= i / n < n,
        0 <= i % n < n,
        (i / n) * n + i % n == i,
{
    vstd::arithmetic::div_mod::lemma_fundamental_div_mod(i, n);
    vstd::arithmetic::div_mod::lemma_div_pos_is_pos(i, n);
    vstd::arithmetic::div_mod::lemma_div_by_multiple_is_strongly_ordered(i, n * n, n, n);
    vstd::arithmetic::div_mod::lemma_div_by_multiple(n, n);
    vstd::arithmetic::div_mod::lemma_mod_pos_bound(i, n);
    assert((i / n) * n == n * (i / n)) by (nonlinear_arith);
}

/// What an allocation of the entity's purchases states: the total demand and
/// the general pool as the rules compute them; the restricted pools the
/// entity holds, in order, each drawn no further than its amount; no more
/// drawn from the general pool than it holds; no more funded than demanded;
/// and every funded point drawn from some pool: the funded total is the
/// general draw plus every restricted draw plus a draw on the Spell Mastery
/// pool no larger than that pool (capped at `u32::MAX`); the funded total is
/// the maximum flow of the entity's allocation graph (capped at `u32::MAX`):
/// no way of funding the purchases from the pools funds more; and the
/// general pool is drawn only for what the restricted pools cannot fund: its
/// draw is that maximum less the most the restricted pools fund alone.
pub open spec fn allocation_ok(entity: &Entity, ruleset: &Ruleset, a: XpAllocation) -> bool {
    &&& a.total_demand == clamp_u32(demand_spec(entity, ruleset))
    &&& a.general_bonus == signed_spec(entity, ruleset, false)
    &&& a.general_pool == clamp_u32(base_general_spec(entity, ruleset) + a.general_bonus)
    &&& a.general_used <= a.general_pool
    &&& a.max_flow <= a.total_demand
    &&& a.restricted@.len() == surfaced_pools_spec(entity, ruleset).len()
    &&& forall|i: int| 0 <= i < a.restricted@.len() ==> {
        &&& pool_shape(#[trigger] a.restricted@[i]) == surfaced_pools_spec(entity, ruleset)[i]
        &&& a.restricted@[i].used <= a.restricted@[i].amount
    }
    &&& exists|m: int| 0 <= m <= mastery_xp_spec(entity, ruleset)
        && #[trigger] capped(a.general_used + used_sum(a.restricted@) + m) == a.max_flow
    &&& exists|v: int, vr: int| #[trigger] draws_ok(entity, ruleset, a, v, vr)
    &&& a.general_used == drawn_at(entity, ruleset, 2)
    &&& forall|i: int| 0 <= i < a.restricted@.len() ==> #[trigger] a.restricted@[i].used == drawn_at(entity, ruleset, 3 + i)
}

/// The residuals the two-phase solve leaves: Edmonds-Karp on the allocation
/// graph with the general pool's edge closed, then, on those residuals with
/// the general pool's edge opened, Edmonds-Karp again.
pub open spec fn xp_residual(entity: &Entity, ruleset: &Ruleset) -> Seq<u32> {
    let n = nodes_spec(entity, ruleset);
    let first = edmonds_karp(xp_graph_closed(entity, ruleset), n, 0, 1).0;
    edmonds_karp(first.update(0 * n + 2, general_pool_spec(entity, ruleset)), n, 0, 1).0
}

/// What the solve draws from the source's edge to node `c`: the edge's
/// capacity less what is left of it.
pub open spec fn drawn_at(entity: &Entity, ruleset: &Ruleset, c: int) -> int {
    let n = nodes_spec(entity, ruleset);
    cell(xp_graph(entity, ruleset), n, 0, c) - cell(xp_residual(entity, ruleset), n, 0, c)
}

/// The draws of an allocation against the allocation graph's maximum flow
/// `v` and the restricted pools' own maximum `vr`: the funded total is `v`
/// (capped), the general draw is `v - vr`, some maximum flow draws exactly
/// the reported amounts from each pool, and a cut that leaves the general
/// pool out carries `vr` in the graph with the general pool closed.
pub open spec fn draws_ok(entity: &Entity, ruleset: &Ruleset, a: XpAllocation, v: int, vr: int) -> bool {
    &&& is_max_flow_value(xp_graph(entity, ruleset), nodes_spec(entity, ruleset), 0, 1, v)
    &&& is_max_flow_value(xp_graph_closed(entity, ruleset), nodes_spec(entity, ruleset), 0, 1, vr)
    &&& a.max_flow == capped(v)
    &&& a.general_used == v - vr
    &&& graph_nodes(flow_pools_spec(entity, ruleset), spends_spec(entity, ruleset), mastery_xp_spec(entity, ruleset)) == nodes_spec(entity, ruleset)
    &&& exists|f: spec_fn(int, int) -> int| #[trigger] is_flow(xp_graph(entity, ruleset), nodes_spec(entity, ruleset), 0, 1, f)
        && flow_value(f, nodes_spec(entity, ruleset), 0) == v
        && f(0, 2) == a.general_used
        && (forall|i: int| 0 <= i < a.restricted@.len() ==> f(0, 3 + i) == #[trigger] a.restricted@[i].used)
        && (mastery_xp_spec(entity, ruleset) > 0 ==> capped(a.general_used + used_sum(a.restricted@) + f(0, 3 + a.restricted@.len() as int)) == a.max_flow)
    &&& exists|side: Seq<bool>| #[trigger] is_cut(nodes_spec(entity, ruleset), 0, 1, side) && !side[2]
        && cut_capacity(xp_graph_closed(entity, ruleset), nodes_spec(entity, ruleset), side) == vr
}

/// The allocation is a function of the entity and the ruleset: two
/// allocations that both meet the contract agree on every total and on each
/// restricted pool, what it is and what is drawn of it.
pub proof fn law_the_allocation_is_determined(entity: &Entity, ruleset: &Ruleset, a1: XpAllocation, a2: XpAllocation)
    requires
        allocation_ok(entity, ruleset, a1),
        allocation_ok(entity, ruleset, a2),
    ensures
        a1.total_demand == a2.total_demand,
        a1.max_flow == a2.max_flow,
        a1.general_pool == a2.general_pool,
        a1.general_bonus == a2.general_bonus,
        a1.general_used == a2.general_used,
        a1.restricted@.len() == a2.restricted@.len(),
        forall|i: int| 0 <= i < a1.restricted@.len() ==> pool_shape(#[trigger] a1.restricted@[i]) == pool_shape(a2.restricted@[i])
            && a1.restricted@[i].used == a2.restricted@[i].used,
{
    let n = nodes_spec(entity, ruleset);
    let (v1, r1) = choose|v: int, vr: int| #[trigger] draws_ok(entity, ruleset, a1, v, vr);
    let (v2, r2) = choose|v: int, vr: int| #[trigger] draws_ok(entity, ruleset, a2, v, vr);
    law_max_flow_value_is_unique(xp_graph(entity, ruleset), n, 0, 1, v1, v2);
    assert forall|i: int| 0 <= i < a1.restricted@.len() implies pool_shape(#[trigger] a1.restricted@[i]) == pool_shape(a2.restricted@[i])
        && a1.restricted@[i].used == a2.restricted@[i].used by {
        assert(a1.restricted@[i].used == drawn_at(entity, ruleset, 3 + i));
        assert(a2.restricted@[i].used == drawn_at(entity, ruleset, 3 + i));
    }
}

/// The general pool is drawn only for what the restricted pools cannot
/// fund: every maximum funding of the purchases draws at least the
/// allocation's general draw from it.
pub proof fn law_general_draw_is_least(entity: &Entity, ruleset: &Ruleset, a: XpAllocation, f: spec_fn(int, int) -> int)
    requires
        allocation_ok(entity, ruleset, a),
        is_flow(xp_graph(entity, ruleset), nodes_spec(entity, ruleset), 0, 1, f),
        is_max_flow_value(xp_graph(entity, ruleset), nodes_spec(entity, ruleset), 0, 1, flow_value(f, nodes_spec(entity, ruleset), 0)),
    ensures
        f(0, 2) >= a.general_used,
{
    let n = nodes_spec(entity, ruleset);
    let g = xp_graph(entity, ruleset);
    let c = xp_graph_closed(entity, ruleset);
    let (v, vr) = choose|v: int, vr: int| #[trigger] draws_ok(entity, ruleset, a, v, vr);
    law_max_flow_value_is_unique(g, n, 0, 1, flow_value(f, n, 0), v);
    let side = choose|side: Seq<bool>| #[trigger] is_cut(n, 0, 1, side) && !side[2] && cut_capacity(c, n, side) == vr;
    assert(n >= 3);
    assert(g.len() == n * n && c.len() == n * n);
    assert forall|u: int, w: int| 0 <= u < n && 0 <= w < n implies
        #[trigger] cell(g, n, u, w) == graph_edge(flow_pools_spec(entity, ruleset), spends_spec(entity, ruleset), mastery_xp_spec(entity, ruleset), general_pool_spec(entity, ruleset), u, w)
        && cell(c, n, u, w) == graph_edge(flow_pools_spec(entity, ruleset), spends_spec(entity, ruleset), mastery_xp_spec(entity, ruleset), 0, u, w) by {
        lemma_index(n, u, w, u, w);
        let i = u * n + w;
        lemma_cell_of_index(n, i);
        lemma_index(n, i / n, i % n, u, w);
    }
    assert(cell(c, n, 0, 2) == 0);
    law_flow_within_cut_and_edge(g, c, n, 0, 1, f, side, 0, 2);
}

/// What the restricted pools draw, together.
pub open spec fn used_sum(pools: Seq<RestrictedXpPool>) -> int
    decreases pools.len(),
{
    if pools.len() == 0 { 0 } else { used_sum(pools.drop_last()) + pools.last().used }
}

fn zeros(len: usize) -> (r: Vec<u32>)
    ensures
        r@.len() == len,
        forall|k: int| 0 <= k < len ==> #[trigger] r@[k] == 0,
{
    let mut v: Vec<u32> = Vec::new();
    let mut i: usize = 0;
    while i < len
        invariant
            i <= len,
            v@.len() == i,
            forall|k: int| 0 <= k < i ==> #[trigger] v@[k] == 0,
        decreases len - i,
    {
        v.push(0);
        i += 1;
    }
    v
}

proof fn lemma_zero_col(m: Seq<u32>, n: int, c: int, k: int)
    requires
        0 <= c < n,
        0 <= k <= n,
        m.len() == n * n,
        forall|x: int| 0 <= x < k ==> #[trigger] cell(m, n, x, c) == 0,
    ensures
        col_sum(m, n, c, k) == 0,
    decreases k,
{
    if k > 0 {
        lemma_zero_col(m, n, c, k - 1);
        assert(cell(m, n, k - 1, c) == 0);
    }
}

/// The layer of a node of the allocation graph: the source, the general
/// pool, the restricted pools (`r` of them), the purchases, the sink.
pub open spec fn layer(x: int, r: int) -> int {
    if x == 0 { 0 } else if x == 2 { 1 } else if 3 <= x < 3 + r { 2 } else if x == 1 { 4 } else { 3 }
}

/// Every positive capacity leads to a later layer.
pub open spec fn layered(m: Seq<u32>, n: int, r: int) -> bool {
    forall|a: int, b: int| 0 <= a < n && 0 <= b < n && #[trigger] cell(m, n, a, b) > 0 ==> layer(a, r) < layer(b, r)
}

proof fn lemma_set_keeps_layered(m: Seq<u32>, n: int, r: int, x: int, y: int, val: u32)
    requires
        m.len() == n * n,
        0 <= x < n,
        0 <= y < n,
        layered(m, n, r),
        layer(x, r) < layer(y, r),
    ensures
        layered(m.update(x * n + y, val), n, r),
{
    lemma_index(n, x, y, x, y);
    let m2 = m.update(x * n + y, val);
    assert forall|a: int, b: int| 0 <= a < n && 0 <= b < n && #[trigger] cell(m2, n, a, b) > 0 implies layer(a, r) < layer(b, r) by {
        lemma_index(n, a, b, x, y);
        if !(a == x && b == y) {
            assert(cell(m2, n, a, b) == cell(m, n, a, b));
        }
    }
}

/// In a layered graph no two opposite capacities are both positive.
proof fn lemma_layered_fits(m: Seq<u32>, n: int, r: int)
    requires
        layered(m, n, r),
    ensures
        pairs_fit(m, n),
{
    assert forall|u: int, v: int| 0 <= u < n && 0 <= v < n implies #[trigger] cell(m, n, u, v) + cell(m, n, v, u) <= u32::MAX by {
        if cell(m, n, u, v) > 0 {
            assert(cell(m, n, v, u) == 0);
        }
    }
}

/// Opening the general pool's edge after the first phase keeps every pair of
/// opposite residuals within `u32`: neither direction of that edge carried
/// anything before.
proof fn lemma_open_general_fits(m1: Seq<u32>, m0: Seq<u32>, n: int, g: u32)
    requires
        3 <= n,
        m1.len() == n * n,
        pairs_kept(m1, m0, n),
        pairs_fit(m0, n),
        cell(m0, n, 0, 2) == 0,
        cell(m0, n, 2, 0) == 0,
    ensures
        pairs_fit(m1.update(0 * n + 2, g), n),
{
    let m2 = m1.update(0 * n + 2, g);
    lemma_index(n, 0, 2, 2, 0);
    lemma_index(n, 2, 0, 0, 2);
    assert(cell(m1, n, 0, 2) + cell(m1, n, 2, 0) == 0);
    assert forall|u: int, v: int| 0 <= u < n && 0 <= v < n implies #[trigger] cell(m2, n, u, v) + cell(m2, n, v, u) <= u32::MAX by {
        lemma_index(n, u, v, 0, 2);
        lemma_index(n, v, u, 0, 2);
        assert(cell(m1, n, u, v) + cell(m1, n, v, u) == cell(m0, n, u, v) + cell(m0, n, v, u));
        assert(cell(m0, n, u, v) + cell(m0, n, v, u) <= u32::MAX);
    }
}

/// Opening the general pool's edge after the first phase: measured against
/// the network with that edge open from the start, the residuals still keep
/// every opposite pair's sum and every other node's outgoing total.
proof fn lemma_open_general_keeps(m1: Seq<u32>, m0: Seq<u32>, n: int, g: u32)
    requires
        3 <= n,
        m0.len() == n * n,
        m1.len() == n * n,
        pairs_kept(m1, m0, n),
        rows_kept(m1, m0, n, 0, 1),
        cell(m0, n, 0, 2) == 0,
        cell(m0, n, 2, 0) == 0,
    ensures
        pairs_kept(m1.update(0 * n + 2, g), m0.update(0 * n + 2, g), n),
        rows_kept(m1.update(0 * n + 2, g), m0.update(0 * n + 2, g), n, 0, 1),
{
    let m1b = m1.update(0 * n + 2, g);
    let m0b = m0.update(0 * n + 2, g);
    lemma_index(n, 0, 2, 2, 0);
    lemma_index(n, 2, 0, 0, 2);
    assert(cell(m1, n, 0, 2) + cell(m1, n, 2, 0) == 0);
    assert forall|u: int, v: int| 0 <= u < n && 0 <= v < n implies #[trigger] cell(m1b, n, u, v) + cell(m1b, n, v, u) == cell(m0b, n, u, v) + cell(m0b, n, v, u) by {
        lemma_index(n, u, v, 0, 2);
        lemma_index(n, v, u, 0, 2);
        assert(cell(m1, n, u, v) + cell(m1, n, v, u) == cell(m0, n, u, v) + cell(m0, n, v, u));
    }
    assert forall|u: int| 0 <= u < n && u != 0 && u != 1 implies #[trigger] row_sum(m1b, n, u, n) == row_sum(m0b, n, u, n) by {
        lemma_sums_update(m1, n as int, 0, 2, g, u, n);
        lemma_sums_update(m0, n as int, 0, 2, g, u, n);
        assert(row_sum(m1, n, u, n) == row_sum(m0, n, u, n));
    }
}

/// A row no larger cell by cell sums to no more.
proof fn lemma_row_le(m1: Seq<u32>, m0: Seq<u32>, n: int, r: int, k: int)
    requires
        forall|c: int| 0 <= c < k ==> #[trigger] m1[r * n + c] <= m0[r * n + c],
    ensures
        row_sum(m1, n, r, k) <= row_sum(m0, n, r, k),
    decreases k,
{
    if k > 0 {
        lemma_row_le(m1, m0, n, r, k - 1);
    }
}

/// A row no larger cell by cell and with the same sum is the same cell by
/// cell.
proof fn lemma_row_le_eq(m1: Seq<u32>, m0: Seq<u32>, n: int, r: int, k: int)
    requires
        forall|c: int| 0 <= c < k ==> #[trigger] m1[r * n + c] <= m0[r * n + c],
        row_sum(m1, n, r, k) == row_sum(m0, n, r, k),
    ensures
        forall|c: int| 0 <= c < k ==> #[trigger] m1[r * n + c] == m0[r * n + c],
    decreases k,
{
    if k > 0 {
        lemma_row_le(m1, m0, n, r, k - 1);
        lemma_row_le_eq(m1, m0, n, r, k - 1);
    }
}

/// With the general pool's edge closed, the first phase sends nothing
/// through the general pool: nothing enters it, so no residual into it
/// appears.
proof fn lemma_general_untouched(cap0: Seq<u32>, cap1: Seq<u32>, n: int)
    requires
        3 <= n,
        cap0.len() == n * n,
        cap1.len() == n * n,
        pairs_kept(cap1, cap0, n),
        rows_kept(cap1, cap0, n, 0, 1),
        forall|a: int| 0 <= a < n ==> #[trigger] cell(cap0, n, a, 2) == 0,
    ensures
        forall|a: int| 0 <= a < n ==> #[trigger] cell(cap1, n, a, 2) == 0,
{
    assert forall|c: int| 0 <= c < n implies #[trigger] cap1[2 * n + c] <= cap0[2 * n + c] by {
        assert(cell(cap1, n, 2, c) + cell(cap1, n, c, 2) == cell(cap0, n, 2, c) + cell(cap0, n, c, 2));
    }
    assert(row_sum(cap1, n, 2, n) == row_sum(cap0, n, 2, n));
    lemma_row_le_eq(cap1, cap0, n, 2, n);
    assert forall|a: int| 0 <= a < n implies #[trigger] cell(cap1, n, a, 2) == 0 by {
        assert(cap1[2 * n + a] == cap0[2 * n + a]);
        assert(cell(cap1, n, 2, a) + cell(cap1, n, a, 2) == cell(cap0, n, 2, a) + cell(cap0, n, a, 2));
    }
}

/// Writes one cell of the residual matrix.
fn set_cell(cap: &mut Vec<u32>, n: usize, x: usize, y: usize, val: u32)
    requires
        old(cap)@.len() == n * n,
        n <= MAX_NODES,
        x < n,
        y < n,
    ensures
        final(cap)@.len() == n * n,
        final(cap)@ == old(cap)@.update(x * n + y, val),
        cell(final(cap)@, n as int, x as int, y as int) == val,
        forall|a: int, b: int| 0 <= a < n && 0 <= b < n && !(a == x && b == y) ==> #[trigger] cell(final(cap)@, n as int, a, b) == cell(old(cap)@, n as int, a, b),
        forall|c: int| 0 <= c < n ==> #[trigger] col_sum(final(cap)@, n as int, c, n as int) == col_sum(old(cap)@, n as int, c, n as int) + (if y == c { val - old(cap)@[x * n + y] } else { 0 }),
{
    let idx = crate::effective::flow::at_cell(n, x, y);
    let ghost m = cap@;
    cap.set(idx, val);
    proof {
        lemma_index(n as int, x as int, y as int, x as int, y as int);
        assert forall|a: int, b: int| 0 <= a < n && 0 <= b < n && !(a == x && b == y) implies #[trigger] cell(cap@, n as int, a, b) == cell(m, n as int, a, b) by {
            lemma_index(n as int, a, b, x as int, y as int);
        }
        assert forall|c: int| 0 <= c < n implies #[trigger] col_sum(cap@, n as int, c, n as int) == col_sum(m, n as int, c, n as int) + (if y == c { val - m[x * n + y] } else { 0 }) by {
            crate::effective::flow::lemma_sums_update(m, n as int, x as int, y as int, val, c, n as int);
        }
    }
}

fn copy_origin(o: &XpPoolOrigin) -> (r: XpPoolOrigin)
    ensures
        origin_shape(r) == origin_shape(*o),
{
    match o {
        XpPoolOrigin::Item { item } => XpPoolOrigin::Item { item: item.clone() },
        XpPoolOrigin::LifeStage { block } => XpPoolOrigin::LifeStage { block: *block },
    }
}

/// Allocates the entity's purchases across the general pool and every
/// restricted pool by maximum flow: restricted pools first (so earmarked
/// experience is spent before the general pool is touched), then the
/// general pool.
#[verifier::rlimit(100)]
#[verifier::spinoff_prover]
pub fn xp_allocation(entity: &Entity, ruleset: &Ruleset) -> (r: XpAllocation)
    requires
        nodes_spec(entity, ruleset) <= MAX_XP_SOLVE_NODES,
    ensures
        allocation_ok(entity, ruleset, r),
{
    let spends = build_spends(entity, ruleset);
    let list = build_flow_pools(entity, ruleset);
    let mastery_pool = spell_mastery_xp(entity, ruleset);
    let np = list.pools.len();
    proof {
        assert(list@.len() == np);
    }
    let r = if mastery_pool > 0 { np + 1 } else { np };
    let s = spends.len();
    let n = 3 + r + s;
    // The demand.
    let mut total_demand: u32 = 0;
    let mut j: usize = 0;
    while j < s
        invariant
            j <= s,
            s == spends@.len(),
            total_demand == clamp_u32(cost_sum(spends@.take(j as int))),
        decreases s - j,
    {
        proof {
            assert(spends@.take(j + 1).drop_last() =~= spends@.take(j as int));
            lemma_cost_sum_nonneg(spends@.take(j as int));
        }
        total_demand = total_demand.saturating_add(spends[j].cost);
        j += 1;
    }
    assert(spends@.take(s as int) =~= spends@);
    // The general pool.
    let general_bonus = general_xp_bonus(entity, ruleset);
    let base_general: u32 = match &ruleset.life_stages {
        Some(rules) => match rules.budget(entity, ruleset) {
            Some(b) => if ruleset.is_magus(entity.type_id.as_str()) {
                b.apprenticeship_xp.saturating_add(b.post_gauntlet_xp)
            } else {
                b.later_life_xp
            },
            None => entity.xp_pool,
        },
        None => entity.xp_pool,
    };
    let wide: i128 = base_general as i128 + general_bonus as i128;
    let general_pool: u32 = if wide < 0 { 0 } else if wide > u32::MAX as i128 { u32::MAX } else { wide as u32 };
    // The residual matrix: source 0, sink 1, general pool 2, then the pools,
    // then the purchases.
    proof {
        assert(n * n <= 2048 * 2048) by (nonlinear_arith)
            requires
                n <= 2048,
        ;
    }
    let mut cap = zeros(n * n);
    let ghost sv = spends_view(spends@);
    proof {
        assert(sv.len() == s);
        assert(list@.len() == np);
        assert forall|a: int, b: int| 0 <= a < n && 0 <= b < n implies #[trigger] cell(cap@, n as int, a, b) == 0 by {
            lemma_index(n as int, a, b, a, b);
        }
        assert forall|a: int, b: int| 0 <= a < n && 0 <= b < n && #[trigger] cell(cap@, n as int, a, b) > 0 implies layer(a, r as int) < layer(b, r as int) by {
            lemma_index(n as int, a, b, a, b);
        }
        assert forall|c: int| 0 <= c < n implies #[trigger] cell(cap@, n as int, 0, c) == 0 by {
            lemma_index(n as int, 0, c, 0, c);
        }
        assert forall|x: int| 0 <= x < n implies #[trigger] cell(cap@, n as int, x, 1) == 0 by {
            lemma_index(n as int, x, 1, x, 1);
        }
        lemma_zero_col(cap@, n as int, 1, n as int);
    }
    let mut i: usize = 0;
    while i < np
        invariant
            n <= MAX_NODES,
            n == 3 + r + s,
            r >= np,
            np == list.pools@.len(),
            i <= np,
            cap@.len() == n * n,
            forall|k: int| 0 <= k < i ==> #[trigger] cell(cap@, n as int, 0, 3 + k) == list.pools@[k].amount,
            forall|c: int| 0 <= c < n && !(3 <= c < 3 + i) ==> #[trigger] cell(cap@, n as int, 0, c) == 0,
            forall|x: int| 0 <= x < n ==> #[trigger] cell(cap@, n as int, x, 1) == 0,
            col_sum(cap@, n as int, 1, n as int) == 0,
            layered(cap@, n as int, r as int),
            list@.len() == np,
            sv == spends_view(spends@),
            sv.len() == spends@.len(),
            r == (if mastery_pool > 0 { np + 1 } else { np as int }),
            forall|a: int, b: int| 0 <= a < n && 0 <= b < n ==> #[trigger] cell(cap@, n as int, a, b)
                == (if a == 0 && 3 <= b < 3 + i { graph_edge(list@, sv, mastery_pool, 0, a, b) } else { 0 }),
        decreases np - i,
    {
        let ghost pre = cap@;
        set_cell(&mut cap, n, 0, 3 + i, list.pools[i].amount);
        proof {
            assert(list@[i as int] == flow_view(list.pools@[i as int]));
            assert(graph_edge(list@, sv, mastery_pool, 0, 0, 3 + i) == list.pools@[i as int].amount);
            assert forall|a: int, b: int| 0 <= a < n && 0 <= b < n implies #[trigger] cell(cap@, n as int, a, b)
                == (if a == 0 && 3 <= b < 3 + i + 1 { graph_edge(list@, sv, mastery_pool, 0, a, b) } else { 0 }) by {
                if !(a == 0 && b == 3 + i) {
                    assert(cell(cap@, n as int, a, b) == cell(pre, n as int, a, b));
                }
            }
            lemma_set_keeps_layered(pre, n as int, r as int, 0, 3 + i, list.pools@[i as int].amount);
            assert forall|k: int| 0 <= k < i + 1 implies #[trigger] cell(cap@, n as int, 0, 3 + k) == list.pools@[k].amount by {
                if k < i {
                    assert(cell(cap@, n as int, 0, 3 + k) == list.pools@[k].amount);
                }
            }
            assert forall|x: int| 0 <= x < n implies #[trigger] cell(cap@, n as int, x, 1) == 0 by {
                assert(cell(cap@, n as int, x, 1) == 0);
            }
        }
        i += 1;
    }
    proof {
        assert(r == (if mastery_pool > 0 { np + 1 } else { np as int }));
    }
    if mastery_pool > 0 {
        let ghost pre = cap@;
        set_cell(&mut cap, n, 0, 3 + np, mastery_pool);
        proof {
            assert forall|a: int, b: int| 0 <= a < n && 0 <= b < n implies #[trigger] cell(cap@, n as int, a, b)
                == (if a == 0 { graph_edge(list@, sv, mastery_pool, 0, a, b) } else { 0 }) by {
                if !(a == 0 && b == 3 + np) {
                    assert(cell(cap@, n as int, a, b) == cell(pre, n as int, a, b));
                }
            }
            lemma_set_keeps_layered(pre, n as int, r as int, 0, 3 + np, mastery_pool);
            assert forall|k: int| 0 <= k < np implies #[trigger] cell(cap@, n as int, 0, 3 + k) == list.pools@[k].amount by {
                assert(cell(cap@, n as int, 0, 3 + k) == list.pools@[k].amount);
            }
            assert forall|x: int| 0 <= x < n implies #[trigger] cell(cap@, n as int, x, 1) == 0 by {
                assert(cell(cap@, n as int, x, 1) == 0);
            }
        }
    }
    proof {
        assert forall|c: int| 0 <= c < n && !(3 <= c < 3 + r) implies #[trigger] cell(cap@, n as int, 0, c) == 0 by {}
        assert forall|a: int, b: int| 0 <= a < n && 0 <= b < n implies #[trigger] cell(cap@, n as int, a, b)
            == (if a == 0 { graph_edge(list@, sv, mastery_pool, 0, a, b) } else { 0 }) by {
            assert(cell(cap@, n as int, a, b) == (if a == 0 { graph_edge(list@, sv, mastery_pool, 0, a, b) } else { 0 }));
        }
    }
    let mut j: usize = 0;
    while j < s
        invariant
            n <= MAX_NODES,
            n == 3 + r + s,
            r == (if mastery_pool > 0 { np + 1 } else { np as int }),
            np == list.pools@.len(),
            s == spends@.len(),
            j <= s,
            cap@.len() == n * n,
            forall|k: int| 0 <= k < np ==> #[trigger] cell(cap@, n as int, 0, 3 + k) == list.pools@[k].amount,
            forall|c: int| 0 <= c < n && !(3 <= c < 3 + r) ==> #[trigger] cell(cap@, n as int, 0, c) == 0,
            mastery_pool > 0 ==> cell(cap@, n as int, 0, 3 + np) == mastery_pool,
            forall|x: int| 3 + r + j <= x < n ==> #[trigger] cell(cap@, n as int, x, 1) == 0,
            col_sum(cap@, n as int, 1, n as int) == cost_sum(spends@.take(j as int)),
            layered(cap@, n as int, r as int),
            list@.len() == np,
            sv == spends_view(spends@),
            sv.len() == s,
            forall|a: int, b: int| 0 <= a < n && 0 <= b < n ==> #[trigger] cell(cap@, n as int, a, b)
                == (if a != 0 && ((3 + r + j <= b) || (b == 1 && 3 + r + j <= a)) { 0 } else { graph_edge(list@, sv, mastery_pool, 0, a, b) }),
        decreases s - j,
    {
        proof {
            assert(spends@.take(j + 1).drop_last() =~= spends@.take(j as int));
        }
        let node = 3 + r + j;
        let cost = spends[j].cost;
        proof {
            assert(cell(cap@, n as int, node as int, 1) == 0);
        }
        let ghost pre1 = cap@;
        set_cell(&mut cap, n, node, 1, cost);
        proof {
            assert(col_sum(cap@, n as int, 1, n as int) == cost_sum(spends@.take(j as int)) + cost);
            lemma_set_keeps_layered(pre1, n as int, r as int, node as int, 1, cost);
        }
        let ghost pre2 = cap@;
        set_cell(&mut cap, n, 2, node, cost);
        proof {
            assert(sv[j as int] == spend_view(spends@[j as int]));
            assert(graph_edge(list@, sv, mastery_pool, 0, node as int, 1) == cost);
            assert(graph_edge(list@, sv, mastery_pool, 0, 2, node as int) == cost);
            assert forall|a: int, b: int| 0 <= a < n && 0 <= b < n implies #[trigger] cell(cap@, n as int, a, b)
                == (if a != 0 && ((3 + r + j + 1 <= b) || (b == 1 && 3 + r + j + 1 <= a) || (b == node && 3 <= a)) { 0 } else { graph_edge(list@, sv, mastery_pool, 0, a, b) }) by {
                if !(a == 2 && b == node) && !(a == node && b == 1) {
                    assert(cell(cap@, n as int, a, b) == cell(pre1, n as int, a, b));
                }
            }
            lemma_set_keeps_layered(pre2, n as int, r as int, 2, node as int, cost);
            assert(spends@.take(j + 1).last() == spends@[j as int]);
            assert(cost_sum(spends@.take(j + 1)) == cost_sum(spends@.take(j as int)) + cost);
            assert(col_sum(cap@, n as int, 1, n as int) == cost_sum(spends@.take(j + 1)));
        }
        let mut i: usize = 0;
        while i < np
            invariant
                n <= MAX_NODES,
                n == 3 + r + s,
                r >= np,
                node == 3 + r + j,
                j < s,
                s == spends@.len(),
                np == list.pools@.len(),
                i <= np,
                cap@.len() == n * n,
                forall|k: int| 0 <= k < np ==> #[trigger] cell(cap@, n as int, 0, 3 + k) == list.pools@[k].amount,
                forall|c: int| 0 <= c < n && !(3 <= c < 3 + r) ==> #[trigger] cell(cap@, n as int, 0, c) == 0,
                mastery_pool > 0 ==> cell(cap@, n as int, 0, 3 + np) == mastery_pool,
                r == (if mastery_pool > 0 { np + 1 } else { np as int }),
                forall|x: int| 3 + r + j + 1 <= x < n ==> #[trigger] cell(cap@, n as int, x, 1) == 0,
                col_sum(cap@, n as int, 1, n as int) == cost_sum(spends@.take(j + 1)),
                layered(cap@, n as int, r as int),
                list@.len() == np,
                sv == spends_view(spends@),
                sv.len() == s,
                cost == spends@[j as int].cost,
                forall|a: int, b: int| 0 <= a < n && 0 <= b < n ==> #[trigger] cell(cap@, n as int, a, b)
                    == (if a != 0 && ((3 + r + j + 1 <= b) || (b == 1 && 3 + r + j + 1 <= a) || (b == node && 3 + i <= a)) { 0 } else { graph_edge(list@, sv, mastery_pool, 0, a, b) }),
            decreases np - i,
        {
            let covered = pool_covers(&list.pools[i], &spends[j]);
            proof {
                assert(list@[i as int] == flow_view(list.pools@[i as int]));
                assert(sv[j as int] == spend_view(spends@[j as int]));
                assert(graph_edge(list@, sv, mastery_pool, 0, 3 + i, node as int) == (if covered { cost } else { 0 }));
            }
            let ghost pre0 = cap@;
            if covered {
                let ghost pre = cap@;
                set_cell(&mut cap, n, 3 + i, node, cost);
                proof {
                    lemma_set_keeps_layered(pre, n as int, r as int, 3 + i, node as int, cost);
                    assert forall|k: int| 0 <= k < np implies #[trigger] cell(cap@, n as int, 0, 3 + k) == list.pools@[k].amount by {
                        assert(cell(cap@, n as int, 0, 3 + k) == list.pools@[k].amount);
                    }
                    assert forall|x: int| 3 + r + j + 1 <= x < n implies #[trigger] cell(cap@, n as int, x, 1) == 0 by {
                        assert(cell(cap@, n as int, x, 1) == 0);
                    }
                }
            }
            proof {
                assert forall|a: int, b: int| 0 <= a < n && 0 <= b < n implies #[trigger] cell(cap@, n as int, a, b)
                    == (if a != 0 && ((3 + r + j + 1 <= b) || (b == 1 && 3 + r + j + 1 <= a) || (b == node && 3 + i + 1 <= a)) { 0 } else { graph_edge(list@, sv, mastery_pool, 0, a, b) }) by {
                    if !(a == 3 + i && b == node) {
                        assert(cell(cap@, n as int, a, b) == cell(pre0, n as int, a, b));
                    }
                }
            }
            i += 1;
        }
        let is_mastery = match spends[j].kind {
            SpendKind::Mastery => true,
            _ => false,
        };
        proof {
            assert(sv[j as int] == spend_view(spends@[j as int]));
            assert(is_mastery == sv[j as int].kind is Mastery);
            assert(graph_edge(list@, sv, mastery_pool, 0, 3 + np, node as int) == (if mastery_pool > 0 && is_mastery { cost } else { 0 }));
        }
        let ghost pre_m = cap@;
        if mastery_pool > 0 && is_mastery {
            let ghost pre = cap@;
            set_cell(&mut cap, n, 3 + np, node, cost);
            proof {
                lemma_set_keeps_layered(pre, n as int, r as int, 3 + np, node as int, cost);
                assert forall|k: int| 0 <= k < np implies #[trigger] cell(cap@, n as int, 0, 3 + k) == list.pools@[k].amount by {
                    assert(cell(cap@, n as int, 0, 3 + k) == list.pools@[k].amount);
                }
                assert forall|x: int| 3 + r + j + 1 <= x < n implies #[trigger] cell(cap@, n as int, x, 1) == 0 by {
                    assert(cell(cap@, n as int, x, 1) == 0);
                }
            }
        }
        proof {
            assert forall|a: int, b: int| 0 <= a < n && 0 <= b < n implies #[trigger] cell(cap@, n as int, a, b)
                == (if a != 0 && ((3 + r + j + 1 <= b) || (b == 1 && 3 + r + j + 1 <= a)) { 0 } else { graph_edge(list@, sv, mastery_pool, 0, a, b) }) by {
                if !(a == 3 + np && b == node) {
                    assert(cell(cap@, n as int, a, b) == cell(pre_m, n as int, a, b));
                }
            }
        }
        j += 1;
    }
    assert(spends@.take(s as int) =~= spends@);
    // Phase 1: the restricted pools alone (the general pool's edge is closed).
    let ghost cap0 = cap@;
    proof {
        lemma_layered_fits(cap0, n as int, r as int);
    }
    let restricted_flow = max_flow(n, 0, 1, &mut cap);
    let ghost cap1 = cap@;
    proof {
        assert(cell(cap1, n as int, 0, 2) <= cell(cap0, n as int, 0, 2));
        lemma_sums_update(cap1, n as int, 0, 2, general_pool, 0, n as int);
        assert(cell(cap0, n as int, 0, 2) == 0);
        if cell(cap0, n as int, 2, 0) > 0 {
            assert(layer(2, r as int) < layer(0, r as int));
        }
        lemma_open_general_fits(cap1, cap0, n as int, general_pool);
    }
    // The first phase's cut, taken without the general pool: no residual
    // leads into the general pool, so leaving it out keeps the cut closed.
    let ghost reach1 = choose|reach: Seq<bool>| separates(cap1, n as int, 0, 1, reach);
    let ghost side = reach1.update(2, false);
    let ghost restricted_max = row_sum(cap0, n as int, 0, n as int) - row_sum(cap1, n as int, 0, n as int);
    proof {
        assert forall|a: int| 0 <= a < n implies #[trigger] cell(cap0, n as int, a, 2) == 0 by {
            assert(cell(cap0, n as int, a, 2) == graph_edge(list@, sv, mastery_pool, 0, a, 2));
        }
        lemma_general_untouched(cap0, cap1, n as int);
        assert(separates(cap1, n as int, 0, 1, side)) by {
            assert forall|u: int, v: int| 0 <= u < n && 0 <= v < n && side[u] && #[trigger] cell(cap1, n as int, u, v) > 0 implies side[v] by {
                assert(reach1[u]);
                assert(reach1[v]);
                if v == 2 {
                    assert(cell(cap1, n as int, u, 2) == 0);
                }
            }
        }
        lemma_residual_certifies_max(cap0, cap1, n as int, 0, 1, side);
    }
    // Phase 2: open the general pool and continue on the same residuals.
    set_cell(&mut cap, n, 0, 2, general_pool);
    let ghost cap1b = cap@;
    let general_flow = max_flow(n, 0, 1, &mut cap);
    let ghost graph = cap0.update(0 * n + 2, general_pool);
    proof {
        lemma_open_general_keeps(cap1, cap0, n as int, general_pool);
        lemma_index(n as int, 0, 2, 0, 2);
        let fin = cap@;
        assert(pairs_kept(fin, graph, n as int)) by {
            assert forall|u: int, v: int| 0 <= u < n && 0 <= v < n implies #[trigger] cell(fin, n as int, u, v) + cell(fin, n as int, v, u) == cell(graph, n as int, u, v) + cell(graph, n as int, v, u) by {
                assert(cell(fin, n as int, u, v) + cell(fin, n as int, v, u) == cell(cap1b, n as int, u, v) + cell(cap1b, n as int, v, u));
                assert(cell(cap1b, n as int, u, v) + cell(cap1b, n as int, v, u) == cell(graph, n as int, u, v) + cell(graph, n as int, v, u));
            }
        }
        assert(rows_kept(fin, graph, n as int, 0, 1)) by {
            assert forall|u: int| 0 <= u < n && u != 0 && u != 1 implies #[trigger] row_sum(fin, n as int, u, n as int) == row_sum(graph, n as int, u, n as int) by {
                assert(row_sum(fin, n as int, u, n as int) == row_sum(cap1b, n as int, u, n as int));
            }
        }
        let reach = choose|reach: Seq<bool>| separates(fin, n as int, 0, 1, reach);
        lemma_residual_certifies_max(graph, fin, n as int, 0, 1, reach);
        lemma_sums_update(cap0, n as int, 0, 2, general_pool, 0, n as int);
        assert(row_sum(graph, n as int, 0, n as int) == row_sum(cap0, n as int, 0, n as int) + general_pool);
    }
    proof {
        crate::effective::flow::lemma_row_sum_bounds(cap@, n as int, 1, n as int);
        assert(col_sum(cap1b, n as int, 1, n as int) == col_sum(cap1, n as int, 1, n as int));
        lemma_cost_sum_nonneg(spends@);
        assert(row_sum(cap1b, n as int, 0, n as int) == row_sum(cap1, n as int, 0, n as int) + general_pool);
    }
    let max_flow_total = restricted_flow.saturating_add(general_flow);
    let ghost drawn = row_sum(cap0, n as int, 0, n as int) + general_pool - row_sum(cap@, n as int, 0, n as int);
    assert(max_flow_total == capped(drawn));
    assert(is_max_flow_value(graph, n as int, 0, 1, drawn));
    proof {
        // The matrix the solver ran on is the entity's allocation graph.
        let g = graph_matrix(list@, sv, mastery_pool, general_pool);
        assert(graph_nodes(list@, sv, mastery_pool) == n);
        assert forall|i: int| 0 <= i < n * n implies #[trigger] graph[i] == g[i] by {
            lemma_cell_of_index(n as int, i);
            let a = i / (n as int);
            let b = i % (n as int);
            lemma_index(n as int, a, b, 0, 2);
            assert(cell(cap0, n as int, a, b) == graph_edge(list@, sv, mastery_pool, 0, a, b));
        }
        assert(graph =~= g);
        assert(list@ == flow_pools_spec(entity, ruleset));
        assert(sv == spends_spec(entity, ruleset));
        assert(general_pool == general_pool_spec(entity, ruleset));
        assert(g == xp_graph(entity, ruleset));
        assert(n == nodes_spec(entity, ruleset));
        // And the first phase ran on the same graph with the general pool's
        // edge closed.
        let g0 = graph_matrix(list@, sv, mastery_pool, 0);
        assert forall|i: int| 0 <= i < n * n implies #[trigger] cap0[i] == g0[i] by {
            lemma_cell_of_index(n as int, i);
            let a = i / (n as int);
            let b = i % (n as int);
            assert(cell(cap0, n as int, a, b) == graph_edge(list@, sv, mastery_pool, 0, a, b));
        }
        assert(cap0 =~= g0);
        assert(g0 == xp_graph_closed(entity, ruleset));
    }
    let general_idx = crate::effective::flow::at_cell(n, 0, 2);
    proof {
        assert(cell(cap@, n as int, 0, 2) <= cell(cap1b, n as int, 0, 2));
    }
    let general_used = general_pool - cap[general_idx];
    let ghost fin = cap@;
    proof {
        // Every cell of the source's row only shrank, phase by phase.
        assert forall|c: int| 0 <= c < n && c != 2 implies #[trigger] cell(fin, n as int, 0, c) <= cell(cap0, n as int, 0, c) by {
            assert(cell(fin, n as int, 0, c) <= cell(cap1b, n as int, 0, c));
            assert(cell(cap1b, n as int, 0, c) == cell(cap1, n as int, 0, c));
            assert(cell(cap1, n as int, 0, c) <= cell(cap0, n as int, 0, c));
        }
    }
    let mut restricted: Vec<RestrictedXpPool> = Vec::new();
    let mut i: usize = 0;
    while i < np
        invariant
            n <= MAX_NODES,
            n == 3 + r + s,
            r >= np,
            np == list.pools@.len(),
            list@.map_values(|p: FlowPoolView| p.shape) == surfaced_pools_spec(entity, ruleset),
            i <= np,
            cap@.len() == n * n,
            cap@ == fin,
            forall|k: int| 0 <= k < np ==> #[trigger] cell(cap0, n as int, 0, 3 + k) == list.pools@[k].amount,
            forall|c: int| 0 <= c < n && c != 2 ==> #[trigger] cell(fin, n as int, 0, c) <= cell(cap0, n as int, 0, c),
            restricted@.len() == i,
            forall|k: int| 0 <= k < i ==> {
                &&& pool_shape(#[trigger] restricted@[k]) == surfaced_pools_spec(entity, ruleset)[k]
                &&& restricted@[k].used <= restricted@[k].amount
            },
            used_sum(restricted@) == (row_sum(cap0, n as int, 0, 3 + i) - row_sum(cap0, n as int, 0, 3))
                - (row_sum(fin, n as int, 0, 3 + i) - row_sum(fin, n as int, 0, 3)),
            forall|k: int| 0 <= k < i ==> #[trigger] restricted@[k].used == cell(cap0, n as int, 0, 3 + k) - cell(fin, n as int, 0, 3 + k),
        decreases np - i,
    {
        let pool = &list.pools[i];
        let idx = crate::effective::flow::at_cell(n, 0, 3 + i);
        assert(cell(cap0, n as int, 0, 3 + i) == list.pools@[i as int].amount);
        assert(cell(cap@, n as int, 0, 3 + i) <= list.pools@[i as int].amount);
        let used = pool.amount - cap[idx];
        let ghost before = restricted@;
        restricted.push(RestrictedXpPool {
            amount: pool.amount,
            used,
            abilities: copy_ids(&pool.abilities),
            categories: copy_categories(&pool.categories),
            origin: copy_origin(&pool.origin),
        });
        proof {
            assert(list@[i as int] == flow_view(list.pools@[i as int]));
            assert(surfaced_pools_spec(entity, ruleset)[i as int] == list@[i as int].shape);
            assert(restricted@.drop_last() =~= before);
            assert forall|k: int| 0 <= k < i + 1 implies #[trigger] restricted@[k].used == cell(cap0, n as int, 0, 3 + k) - cell(fin, n as int, 0, 3 + k) by {
                if k < i {
                    assert(restricted@[k] == before[k]);
                }
            }
            assert(row_sum(cap0, n as int, 0, 3 + i + 1) == row_sum(cap0, n as int, 0, 3 + i) + cap0[0 * n + (3 + i)]);
            assert(row_sum(fin, n as int, 0, 3 + i + 1) == row_sum(fin, n as int, 0, 3 + i) + fin[0 * n + (3 + i)]);
        }
        i += 1;
    }
    let a = XpAllocation {
        total_demand,
        max_flow: max_flow_total,
        general_pool,
        general_bonus,
        general_used,
        restricted,
    };
    proof {
        lemma_allocation_drawn(cap0, fin, n as int, np as int, r as int, mastery_pool, general_pool, used_sum(a.restricted@));
        let m = row_sum(cap0, n as int, 0, 3 + r) - row_sum(cap0, n as int, 0, 3 + np)
            - (row_sum(fin, n as int, 0, 3 + r) - row_sum(fin, n as int, 0, 3 + np));
        assert(0 <= m <= mastery_xp_spec(entity, ruleset));
        assert(general_used == general_pool - cell(fin, n as int, 0, 2));
        assert(capped(a.general_used + used_sum(a.restricted@) + m) == a.max_flow);
        // The general pool is drawn only for what the restricted pools cannot
        // fund: across the first phase's cut, the flow is at most the general
        // draw plus that cut's capacity, the restricted pools' maximum.
        lemma_net_flow_crosses_every_cut(graph, fin, n as int, 0, 1, side);
        let gflow = |u: int, v: int| cell(graph, n as int, u, v) - cell(fin, n as int, u, v);
        assert forall|u: int, v: int| 0 <= u < n && 0 <= v < n && !(u == 0 && v == 2)
            implies #[trigger] gflow(u, v) <= cell(cap0, n as int, u, v) by {
            lemma_index(n as int, u, v, 0, 2);
        }
        lemma_crossing_within(gflow, cap0, n as int, side, 0, 2);
        lemma_index(n as int, 0, 2, 0, 2);
        assert(drawn <= general_used + restricted_max);
        // And the restricted pools gave at least their first-phase draw.
        let f0 = fin.update(0 * n + 2, 0u32);
        lemma_sums_update(fin, n as int, 0, 2, 0u32, 0, n as int);
        assert forall|c: int| 0 <= c < n implies #[trigger] f0[0 * n + c] <= cap1[0 * n + c] by {
            lemma_index(n as int, 0, c, 0, 2);
            if c != 2 {
                assert(cell(fin, n as int, 0, c) <= cell(cap1b, n as int, 0, c));
                assert(cell(cap1b, n as int, 0, c) == cell(cap1, n as int, 0, c));
            }
        }
        lemma_row_le(f0, cap1, n as int, 0, n as int);
        assert(cell(cap1, n as int, 0, 2) == 0);
        assert(used_sum(a.restricted@) + m == restricted_max);
        assert(a.general_used == drawn - restricted_max);
        // The flow the solve left behind draws from each pool what the
        // allocation reports.
        lemma_source_draws(graph, cap0, fin, n as int, np as int, r as int, mastery_pool, general_pool);
        let f = residual_flow(graph, fin, n as int);
        assert(is_flow(graph, n as int, 0, 1, f) && flow_value(f, n as int, 0) == drawn);
        assert(f(0, 2) == a.general_used);
        assert forall|k: int| 0 <= k < a.restricted@.len() implies f(0, 3 + k) == #[trigger] a.restricted@[k].used by {
            assert(a.restricted@[k].used == cell(cap0, n as int, 0, 3 + k) - cell(fin, n as int, 0, 3 + k));
        }
        assert(mastery_pool > 0 ==> f(0, 3 + a.restricted@.len() as int) == m);
        // The first phase's cut, which leaves the general pool out.
        assert(is_cut(n as int, 0, 1, side));
        assert(draws_ok(entity, ruleset, a, drawn, restricted_max));
        // The residuals are those of the two-phase Edmonds-Karp, so every
        // draw is the one the solve determines.
        assert(cap1b == cap1.update(0 * n + 2, general_pool));
        assert(fin == xp_residual(entity, ruleset));
        assert(graph == xp_graph(entity, ruleset));
        assert(a.general_used == drawn_at(entity, ruleset, 2));
        assert forall|i: int| 0 <= i < a.restricted@.len() implies #[trigger] a.restricted@[i].used == drawn_at(entity, ruleset, 3 + i) by {
            lemma_index(n as int, 0, 3 + i, 0, 2);
            assert(cell(graph, n as int, 0, 3 + i) == cell(cap0, n as int, 0, 3 + i));
            assert(a.restricted@[i].used == cell(cap0, n as int, 0, 3 + i) - cell(fin, n as int, 0, 3 + i));
        }
    }
    a
}

/// What the residual flow draws over each of the source's edges: the
/// general pool's draw, and each pool's own amount less what it has left.
proof fn lemma_source_draws(graph: Seq<u32>, cap0: Seq<u32>, fin: Seq<u32>, n: int, np: int, r: int, mastery: u32, general: u32)
    requires
        3 + r <= n,
        0 <= np <= r,
        cap0.len() == n * n,
        fin.len() == n * n,
        graph == cap0.update(0 * n + 2, general),
        r == (if mastery > 0 { np + 1 } else { np }),
        forall|c: int| 0 <= c < n && c != 2 ==> #[trigger] cell(fin, n, 0, c) <= cell(cap0, n, 0, c),
        cell(fin, n, 0, 2) <= general,
    ensures
        residual_flow(graph, fin, n)(0, 2) == general - cell(fin, n, 0, 2),
        forall|k: int| #![trigger cell(fin, n, 0, 3 + k)] 0 <= k < r ==> residual_flow(graph, fin, n)(0, 3 + k) == cell(cap0, n, 0, 3 + k) - cell(fin, n, 0, 3 + k),
        mastery > 0 ==> row_sum(cap0, n, 0, 3 + r) - row_sum(cap0, n, 0, 3 + np)
            - (row_sum(fin, n, 0, 3 + r) - row_sum(fin, n, 0, 3 + np)) == residual_flow(graph, fin, n)(0, 3 + np),
{
    lemma_index(n, 0, 2, 0, 2);
    assert forall|k: int| #![trigger cell(fin, n, 0, 3 + k)] 0 <= k < r implies residual_flow(graph, fin, n)(0, 3 + k) == cell(cap0, n, 0, 3 + k) - cell(fin, n, 0, 3 + k) by {
        lemma_index(n, 0, 3 + k, 0, 2);
        assert(cell(graph, n, 0, 3 + k) == cell(cap0, n, 0, 3 + k));
        assert(cell(fin, n, 0, 3 + k) <= cell(cap0, n, 0, 3 + k));
    }
    if mastery > 0 {
        assert(row_sum(cap0, n, 0, 3 + np + 1) == row_sum(cap0, n, 0, 3 + np) + cap0[0 * n + (3 + np)]);
        assert(row_sum(fin, n, 0, 3 + np + 1) == row_sum(fin, n, 0, 3 + np) + fin[0 * n + (3 + np)]);
        assert(cell(fin, n, 0, 3 + np) == fin[0 * n + (3 + np)]);
    }
}

/// The bookkeeping behind the allocation's conservation: what the flow drew
/// from the source's row is the general draw, the restricted draws and the
/// Spell Mastery draw.
proof fn lemma_allocation_drawn(cap0: Seq<u32>, fin: Seq<u32>, n: int, np: int, r: int, mastery: u32, general: u32, used: int)
    requires
        3 + r <= n,
        0 <= np <= r,
        cap0.len() == n * n,
        fin.len() == n * n,
        r == (if mastery > 0 { np + 1 } else { np }),
        forall|c: int| 0 <= c < n && !(3 <= c < 3 + r) ==> #[trigger] cell(cap0, n, 0, c) == 0,
        mastery > 0 ==> cell(cap0, n, 0, 3 + np) == mastery,
        forall|c: int| 0 <= c < n && c != 2 ==> #[trigger] cell(fin, n, 0, c) <= cell(cap0, n, 0, c),
        cell(fin, n, 0, 2) <= general,
        used == (row_sum(cap0, n, 0, 3 + np) - row_sum(cap0, n, 0, 3)) - (row_sum(fin, n, 0, 3 + np) - row_sum(fin, n, 0, 3)),
    ensures
        ({
            let m = row_sum(cap0, n, 0, 3 + r) - row_sum(cap0, n, 0, 3 + np)
                - (row_sum(fin, n, 0, 3 + r) - row_sum(fin, n, 0, 3 + np));
            &&& 0 <= m <= mastery
            &&& row_sum(cap0, n, 0, n) + general - row_sum(fin, n, 0, n) == (general - cell(fin, n, 0, 2)) + used + m
        }),
{
    assert forall|c: int| 0 <= c < 2 implies #[trigger] cap0[0 * n + c] == 0 by {
        assert(cell(cap0, n, 0, c) == 0);
    }
    assert forall|c: int| 0 <= c < 2 implies #[trigger] fin[0 * n + c] == 0 by {
        assert(cell(fin, n, 0, c) <= cell(cap0, n, 0, c));
    }
    lemma_row_zero_stretch(cap0, n, 0, 0, 2);
    lemma_row_zero_stretch(fin, n, 0, 0, 2);
    assert(cell(cap0, n, 0, 2) == 0);
    assert(row_sum(cap0, n, 0, 3) == row_sum(cap0, n, 0, 2) + cap0[0 * n + 2]);
    assert(row_sum(fin, n, 0, 3) == row_sum(fin, n, 0, 2) + fin[0 * n + 2]);
    assert forall|c: int| 3 + r <= c < n implies #[trigger] cap0[0 * n + c] == 0 by {
        assert(cell(cap0, n, 0, c) == 0);
    }
    assert forall|c: int| 3 + r <= c < n implies #[trigger] fin[0 * n + c] == 0 by {
        assert(cell(fin, n, 0, c) <= cell(cap0, n, 0, c));
    }
    lemma_row_zero_stretch(cap0, n, 0, 3 + r, n);
    lemma_row_zero_stretch(fin, n, 0, 3 + r, n);
    if mastery > 0 {
        assert(row_sum(cap0, n, 0, 3 + np + 1) == row_sum(cap0, n, 0, 3 + np) + cap0[0 * n + (3 + np)]);
        assert(row_sum(fin, n, 0, 3 + np + 1) == row_sum(fin, n, 0, 3 + np) + fin[0 * n + (3 + np)]);
        assert(cell(fin, n, 0, 3 + np) <= cell(cap0, n, 0, 3 + np));
    }
}

proof fn lemma_cost_sum_nonneg(s: Seq<Spend>)
    ensures
        cost_sum(s) >= 0,
    decreases s.len(),
{
    if s.len() > 0 {
        lemma_cost_sum_nonneg(s.drop_last());
    }
}


/// `x` capped at `usize::MAX`.
pub open spec fn clamp_usize(x: int) -> usize {
    if x > usize::MAX { usize::MAX } else { x as usize }
}

/// The counts behind the entity's flow graph, without building it.
pub fn xp_solve_scale(entity: &Entity, ruleset: &Ruleset) -> (r: XpSolveScale)
    ensures
        r.spends == spend_count_spec(entity, ruleset),
        r.flow_pools == clamp_usize(pool_count_spec(entity, ruleset)),
{
    let spends = build_spends(entity, ruleset);
    let list = build_flow_pools(entity, ruleset);
    let mastery_pool = spell_mastery_xp(entity, ruleset);
    proof {
        assert(list@.len() == list.pools@.len());
    }
    let np = list.pools.len();
    let flow_pools = if mastery_pool > 0 { np.saturating_add(1) } else { np };
    XpSolveScale { spends: spends.len(), flow_pools }
}

/// The allocation of the entity's purchases, or — when its purchases and
/// pools would need more flow-graph nodes than [`MAX_XP_SOLVE_NODES`] — the
/// counts that exceeded the bound, without building the graph.
pub fn checked_xp_allocation(entity: &Entity, ruleset: &Ruleset) -> (r: Result<XpAllocation, XpSolveBoundExceeded>)
    ensures
        match r {
            Ok(a) => nodes_spec(entity, ruleset) <= MAX_XP_SOLVE_NODES && allocation_ok(entity, ruleset, a),
            Err(e) => {
                &&& nodes_spec(entity, ruleset) > MAX_XP_SOLVE_NODES
                &&& e.nodes == clamp_usize(nodes_spec(entity, ruleset))
                &&& e.limit == MAX_XP_SOLVE_NODES
                &&& e.spends == spend_count_spec(entity, ruleset)
                &&& e.flow_pools == clamp_usize(pool_count_spec(entity, ruleset))
            },
        },
{
    let scale = xp_solve_scale(entity, ruleset);
    let nodes = scale.nodes();
    if nodes > MAX_XP_SOLVE_NODES {
        return Err(XpSolveBoundExceeded {
            nodes,
            limit: MAX_XP_SOLVE_NODES,
            spends: scale.spends,
            flow_pools: scale.flow_pools,
        });
    }
    Ok(xp_allocation(entity, ruleset))
}

/// The restricted pools the entity holds with what each funds; empty when the
/// entity is over the solve bound.
pub fn restricted_xp_pools(entity: &Entity, ruleset: &Ruleset) -> (r: Vec<RestrictedXpPool>)
    ensures
        nodes_spec(entity, ruleset) > MAX_XP_SOLVE_NODES ==> r@.len() == 0,
        nodes_spec(entity, ruleset) <= MAX_XP_SOLVE_NODES ==> {
            &&& r@.len() == surfaced_pools_spec(entity, ruleset).len()
            &&& forall|i: int| 0 <= i < r@.len() ==> {
                &&& pool_shape(#[trigger] r@[i]) == surfaced_pools_spec(entity, ruleset)[i]
                &&& r@[i].used <= r@[i].amount
                &&& r@[i].used == drawn_at(entity, ruleset, 3 + i)
            }
            &&& exists|a: XpAllocation| #[trigger] allocation_ok(entity, ruleset, a) && a.restricted@ == r@
        },
{
    match checked_xp_allocation(entity, ruleset) {
        Ok(a) => a.restricted,
        Err(_) => Vec::new(),
    }
}

} // verus!
