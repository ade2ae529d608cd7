//! Warping (points, score, the owed Virtues/Flaws and their chosen fills) and
//! Decrepitude (aging points, score, the Characteristic drops they force).
use vstd::prelude::*;
use crate::catalog::find;
use crate::entity::Entity;
use crate::grant::{grant_views, resolve_grants, resolve_grants_spec, string_views, ConstraintView, Grant, GrantConstraint, GrantView};
use crate::ruleset::Ruleset;
use crate::text::{decimal_nat, push_decimal};
use crate::types::{copy_selections, selection_views, AgingEffect, Characteristic, Effect, ItemKind, Magnitude, Selection, SelectionView};
use crate::effective::{step_fn, EffectStep, append_selections, clamp_u32, effect_selections, entity_grants_base, fold_effects, fold_item, fold_sels, grants_base_spec, selections_for_effects};

verus! {

/// Adds one [`Effect::WarpingGrant`]'s points (saturating).
pub open spec fn warping_points_step(acc: u32, s: SelectionView, e: Effect) -> u32 {
    match e {
        Effect::WarpingGrant { points, .. } => clamp_u32(acc + points),
        _ => acc,
    }
}

/// Sums [`Effect::WarpingGrant`] points.
pub struct WarpingPoints;

impl EffectStep<u32> for WarpingPoints {
    open spec fn step_spec(&self, acc: u32, s: SelectionView, e: Effect) -> u32 {
        warping_points_step(acc, s, e)
    }

    fn step(&self, acc: u32, s: &Selection, e: &Effect) -> (r: u32) {
        match e {
            Effect::WarpingGrant { points, .. } => acc.saturating_add(*points as u32),
            _ => acc,
        }
    }
}

/// The Warping Points the grants in `sels` confer.
pub open spec fn grant_points_spec(sels: Seq<SelectionView>, rs: &Ruleset) -> u32 {
    fold_sels(0u32, sels, rs, step_fn(WarpingPoints))
}

/// Sums the Warping Points the [`Effect::WarpingGrant`]s on `sels` confer
/// (the grant's declared score is not read: the score is derived from points).
pub fn warping_grant_points_in(sels: &Vec<Selection>, ruleset: &Ruleset) -> (r: u32)
    ensures
        r == grant_points_spec(selection_views(sels@), ruleset),
{
    fold_effects(sels, ruleset, 0u32, &WarpingPoints)
}

/// The character's total Warping Points: stored points plus every
/// grant-derived point across the full effect selection list (saturating).
pub open spec fn warping_points_total_spec(entity: &Entity, ruleset: &Ruleset) -> u32 {
    clamp_u32(entity.warping_points + grant_points_spec(effect_selections(entity, ruleset), ruleset))
}

/// The character's total Warping Points.
pub fn warping_points_total(entity: &Entity, ruleset: &Ruleset) -> (r: u32)
    ensures
        r == warping_points_total_spec(entity, ruleset),
{
    let sels = selections_for_effects(entity, ruleset);
    entity.warping_points.saturating_add(warping_grant_points_in(&sels, ruleset))
}

/// The Warping Points that decide the owed Virtues/Flaws: stored points plus
/// the grants of bought selections and base grants only — never the owed fills.
pub open spec fn warping_points_for_owed_spec(entity: &Entity, ruleset: &Ruleset) -> u32 {
    clamp_u32(entity.warping_points + grant_points_spec(
        selection_views(entity.selections@) + grants_base_spec(entity, ruleset),
        ruleset,
    ))
}

fn warping_points_for_owed(entity: &Entity, ruleset: &Ruleset) -> (r: u32)
    ensures
        r == warping_points_for_owed_spec(entity, ruleset),
{
    let mut base = copy_selections(&entity.selections);
    let granted = entity_grants_base(entity, ruleset);
    append_selections(&mut base, &granted);
    entity.warping_points.saturating_add(warping_grant_points_in(&base, ruleset))
}

/// The Warping Score the owed Virtues/Flaws are decided by.
pub open spec fn warping_score_for_owed_spec(entity: &Entity, ruleset: &Ruleset) -> u8 {
    ruleset.advancement.score_for_xp_spec(warping_points_for_owed_spec(entity, ruleset))
}

/// The character's Warping Score: the total points inverted through the
/// advancement table.
pub open spec fn warping_score_spec(entity: &Entity, ruleset: &Ruleset) -> u8 {
    ruleset.advancement.score_for_xp_spec(warping_points_total_spec(entity, ruleset))
}

/// The character's Warping Score (15 points reach Score 2 on the
/// 5/15/30/50/75 table).
pub fn warping_score(entity: &Entity, ruleset: &Ruleset) -> (r: u8)
    ensures
        r == warping_score_spec(entity, ruleset),
{
    ruleset.advancement.score_for_xp(warping_points_total(entity, ruleset))
}

/// A character's derived Warping: score and points.
#[derive(Debug, Clone, Copy, PartialEq, Eq, Structural)]
pub struct Warping {
    pub score: u8,
    pub points: u32,
}

/// The character's Warping score and the points it is derived from.
pub fn warping(entity: &Entity, ruleset: &Ruleset) -> (r: Warping)
    ensures
        r.score == warping_score_spec(entity, ruleset),
        r.points == warping_points_total_spec(entity, ruleset),
{
    Warping { score: warping_score(entity, ruleset), points: warping_points_total(entity, ruleset) }
}

/// The Virtues/Flaws owed from Warping.
#[derive(Debug, Clone, Copy, PartialEq, Eq, Structural)]
pub struct WarpingOwed {
    pub minor_flaws: u8,
    pub minor_supernatural_virtues: u8,
    pub major_flaws: u8,
}

/// The owed Virtues/Flaws at Warping Score `score`: a Minor Flaw at 1, a second
/// at 3, a supernatural Minor Virtue at 5, a Major Flaw at 6 and one more per
/// point after.
pub open spec fn owed_from_score(score: u8) -> WarpingOwed {
    WarpingOwed {
        minor_flaws: if score >= 3 { 2 } else if score >= 1 { 1 } else { 0 },
        minor_supernatural_virtues: if score >= 5 { 1 } else { 0 },
        major_flaws: if score >= 5 { (score - 5) as u8 } else { 0 },
    }
}

impl WarpingOwed {
    /// The owed Virtues/Flaws for a non-magus at Warping Score `score`.
    pub fn from_score(score: u8) -> (r: WarpingOwed)
        ensures
            r == owed_from_score(score),
    {
        WarpingOwed {
            minor_flaws: if score >= 3 { 2 } else if score >= 1 { 1 } else { 0 },
            minor_supernatural_virtues: if score >= 5 { 1 } else { 0 },
            major_flaws: score.saturating_sub(5),
        }
    }

    /// Nothing owed.
    pub fn none() -> (r: WarpingOwed)
        ensures
            r == owed_from_score(0),
    {
        WarpingOwed { minor_flaws: 0, minor_supernatural_virtues: 0, major_flaws: 0 }
    }
}

/// What `entity` owes from Warping: nothing for a magus (Warping brings
/// Twilight instead), otherwise the curve at the owed-deciding score.
pub open spec fn warping_owed_spec(entity: &Entity, ruleset: &Ruleset) -> WarpingOwed {
    if ruleset.is_magus_spec(entity.type_id@) {
        owed_from_score(0)
    } else {
        owed_from_score(warping_score_for_owed_spec(entity, ruleset))
    }
}

/// The Virtues/Flaws `entity` owes from Warping.
pub fn warping_owed(entity: &Entity, ruleset: &Ruleset) -> (r: WarpingOwed)
    ensures
        r == warping_owed_spec(entity, ruleset),
{
    if ruleset.is_magus(entity.type_id.as_str()) {
        return WarpingOwed::none();
    }
    WarpingOwed::from_score(ruleset.advancement.score_for_xp(warping_points_for_owed(entity, ruleset)))
}

/// The choice-key prefix of each owed Minor Flaw slot.
pub open spec fn minor_flaw_key() -> Seq<char> { "warping.minor_flaw."@ }
/// The choice-key prefix of the owed supernatural Minor Virtue slot.
pub open spec fn supernatural_virtue_key() -> Seq<char> { "warping.supernatural_virtue."@ }
/// The choice-key prefix of each owed Major Flaw slot.
pub open spec fn major_flaw_key() -> Seq<char> { "warping.major_flaw."@ }

/// One owed slot as an open grant: key `prefix` + index, and the kind and
/// magnitude its fill must have (a supernatural category for the Virtue).
pub open spec fn owed_grant_view(prefix: Seq<char>, i: int, kind: ItemKind, magnitude: Magnitude, supernatural: bool) -> GrantView {
    GrantView::Open {
        choice_key: prefix + decimal_nat(i as nat),
        constraint: ConstraintView {
            kind: kind,
            magnitude: Some(magnitude),
            require_categories: if supernatural { seq!["supernatural"@] } else { Seq::empty() },
            forbid_categories: Seq::empty(),
        },
    }
}

/// The owed slots, Minor Flaws first, then the supernatural Minor Virtue,
/// then the Major Flaws.
pub open spec fn owed_grants_spec(owed: WarpingOwed) -> Seq<GrantView> {
    Seq::new(owed.minor_flaws as nat, |i: int| owed_grant_view(minor_flaw_key(), i, ItemKind::Flaw, Magnitude::Minor, false))
        + Seq::new(owed.minor_supernatural_virtues as nat, |i: int| owed_grant_view(supernatural_virtue_key(), i, ItemKind::Virtue, Magnitude::Minor, true))
        + Seq::new(owed.major_flaws as nat, |i: int| owed_grant_view(major_flaw_key(), i, ItemKind::Flaw, Magnitude::Major, false))
}

fn owed_key(prefix: &str, i: u8) -> (r: String)
    ensures
        r@ == prefix@ + decimal_nat(i as nat),
{
    let mut s = crate::text::owned(prefix);
    push_decimal(&mut s, i as u64);
    s
}

fn warping_open_grant(choice_key: String, kind: ItemKind, magnitude: Magnitude, supernatural: bool) -> (g: Grant)
    ensures
        g@ == (GrantView::Open {
            choice_key: choice_key@,
            constraint: ConstraintView {
                kind: kind,
                magnitude: Some(magnitude),
                require_categories: if supernatural { seq!["supernatural"@] } else { Seq::empty() },
                forbid_categories: Seq::empty(),
            },
        }),
{
    let mut require: Vec<String> = Vec::new();
    if supernatural {
        require.push(crate::text::owned("supernatural"));
    }
    let forbid: Vec<String> = Vec::new();
    let g = Grant::Open {
        choice_key,
        constraint: GrantConstraint { kind, magnitude: Some(magnitude), require_categories: require, forbid_categories: forbid },
    };
    proof {
        if supernatural {
            assert(string_views(require@) =~= seq!["supernatural"@]);
        } else {
            assert(string_views(require@) =~= Seq::<Seq<char>>::empty());
        }
        assert(string_views(forbid@) =~= Seq::<Seq<char>>::empty());
    }
    g
}

fn push_owed(out: &mut Vec<Grant>, count: u8, prefix: &str, kind: ItemKind, magnitude: Magnitude, supernatural: bool)
    ensures
        grant_views(final(out)@) == grant_views(old(out)@)
            + Seq::new(count as nat, |i: int| owed_grant_view(prefix@, i, kind, magnitude, supernatural)),
{
    let ghost start = grant_views(out@);
    let mut i: u8 = 0;
    while i < count
        invariant
            i <= count,
            grant_views(out@) =~= start + Seq::new(i as nat, |k: int| owed_grant_view(prefix@, k, kind, magnitude, supernatural)),
        decreases count - i,
    {
        let key = owed_key(prefix, i);
        let g = warping_open_grant(key, kind, magnitude, supernatural);
        let ghost old_out = out@;
        out.push(g);
        proof {
            assert(grant_views(out@) =~= grant_views(old_out).push(g@));
            assert(Seq::new((i + 1) as nat, |k: int| owed_grant_view(prefix@, k, kind, magnitude, supernatural))
                =~= Seq::new(i as nat, |k: int| owed_grant_view(prefix@, k, kind, magnitude, supernatural)).push(owed_grant_view(prefix@, i as int, kind, magnitude, supernatural)));
        }
        i += 1;
        assert(grant_views(out@) =~= start + Seq::new(i as nat, |k: int| owed_grant_view(prefix@, k, kind, magnitude, supernatural)));
    }
}

/// The owed Warping Virtues/Flaws as open grants, one per owed slot, each
/// with a stable choice key and the constraint its fill must satisfy.
pub fn warping_owed_grants(entity: &Entity, ruleset: &Ruleset) -> (r: Vec<Grant>)
    ensures
        grant_views(r@) == owed_grants_spec(warping_owed_spec(entity, ruleset)),
{
    let owed = warping_owed(entity, ruleset);
    let mut grants: Vec<Grant> = Vec::new();
    assert(grant_views(grants@) =~= Seq::<GrantView>::empty());
    push_owed(&mut grants, owed.minor_flaws, "warping.minor_flaw.", ItemKind::Flaw, Magnitude::Minor, false);
    push_owed(&mut grants, owed.minor_supernatural_virtues, "warping.supernatural_virtue.", ItemKind::Virtue, Magnitude::Minor, true);
    push_owed(&mut grants, owed.major_flaws, "warping.major_flaw.", ItemKind::Flaw, Magnitude::Major, false);
    assert(grant_views(grants@) =~= owed_grants_spec(owed));
    grants
}

/// Whether the catalogue item `id` carries an [`Effect::WarpingGrant`]; such
/// an item is never eligible as an owed Warping fill.
pub open spec fn carries_warping_grant_spec(rs: &Ruleset, id: Seq<char>) -> bool {
    match find(rs.point_items@, id) {
        Some(item) => exists|j: int| 0 <= j < item.effects@.len() && (#[trigger] item.effects@[j]) is WarpingGrant,
        None => false,
    }
}

/// Whether the catalogue item `id` carries an [`Effect::WarpingGrant`].
#[verifier::loop_isolation(false)]
pub fn item_carries_warping_grant(id: &str, ruleset: &Ruleset) -> (r: bool)
    ensures
        r == carries_warping_grant_spec(ruleset, id@),
{
    match ruleset.item(id) {
        None => false,
        Some(item) => {
            let mut j: usize = 0;
            while j < item.effects.len()
                invariant
                    j <= item.effects.len(),
                    forall|k: int| 0 <= k < j ==> !((#[trigger] item.effects@[k]) is WarpingGrant),
                decreases item.effects.len() - j,
            {
                if let Effect::WarpingGrant { .. } = &item.effects[j] {
                    assert(item.effects@[j as int] is WarpingGrant);
                    return true;
                }
                j += 1;
            }
            false
        },
    }
}

/// `sels` without the selections whose item carries a Warping grant.
pub open spec fn without_warping_carriers(sels: Seq<SelectionView>, rs: &Ruleset) -> Seq<SelectionView>
    decreases sels.len(),
{
    if sels.len() == 0 {
        Seq::empty()
    } else {
        let before = without_warping_carriers(sels.drop_last(), rs);
        if carries_warping_grant_spec(rs, sels.last().item_ref) { before } else { before.push(sels.last()) }
    }
}

/// The chosen owed-Warping fills, resolved; a pick carrying a Warping grant
/// is dropped, so a fill can never feed Warping Points back into the count.
pub open spec fn warping_granted_spec(entity: &Entity, ruleset: &Ruleset) -> Seq<SelectionView> {
    without_warping_carriers(
        resolve_grants_spec(owed_grants_spec(warping_owed_spec(entity, ruleset)), entity.warping_choices@),
        ruleset,
    )
}

/// The chosen owed-Warping fills, resolved to selections.
pub fn warping_granted_selections(entity: &Entity, ruleset: &Ruleset) -> (r: Vec<Selection>)
    ensures
        selection_views(r@) == warping_granted_spec(entity, ruleset),
{
    let grants = warping_owed_grants(entity, ruleset);
    let resolved = resolve_grants(&grants, &entity.warping_choices);
    let ghost all = selection_views(resolved@);
    let mut out: Vec<Selection> = Vec::new();
    let mut i: usize = 0;
    while i < resolved.len()
        invariant
            i <= resolved.len(),
            all == selection_views(resolved@),
            selection_views(out@) == without_warping_carriers(all.take(i as int), ruleset),
        decreases resolved.len() - i,
    {
        proof {
            assert(all.take(i + 1).drop_last() =~= all.take(i as int));
        }
        if !item_carries_warping_grant(resolved[i].item_ref.as_str(), ruleset) {
            let ghost before = out@;
            out.push(resolved[i].copy());
            assert(selection_views(out@) =~= selection_views(before).push(all[i as int]));
        }
        i += 1;
    }
    assert(all.take(resolved.len() as int) =~= all);
    out
}

// --- the recursion guard ---------------------------------------------------

/// `entity` with its owed-Warping fills replaced by `fills`.
pub open spec fn with_warping_fills(entity: Entity, fills: Vec<(String, Selection)>) -> Entity {
    Entity { warping_choices: fills, ..entity }
}

/// Dropping the Warping-carrying selections leaves none behind.
proof fn lemma_no_carrier_survives(sels: Seq<SelectionView>, rs: &Ruleset)
    ensures
        forall|i: int| 0 <= i < without_warping_carriers(sels, rs).len()
            ==> !carries_warping_grant_spec(rs, (#[trigger] without_warping_carriers(sels, rs)[i]).item_ref),
    decreases sels.len(),
{
    if sels.len() > 0 {
        lemma_no_carrier_survives(sels.drop_last(), rs);
        let before = without_warping_carriers(sels.drop_last(), rs);
        let out = without_warping_carriers(sels, rs);
        assert forall|i: int| 0 <= i < out.len() implies !carries_warping_grant_spec(rs, (#[trigger] out[i]).item_ref) by {
            if i < before.len() {
                assert(out[i] == before[i]);
            }
        }
    }
}

/// An item with no Warping grant adds no Warping Points.
proof fn lemma_points_skip_item(acc: u32, x: SelectionView, effects: Seq<Effect>)
    requires
        forall|j: int| 0 <= j < effects.len() ==> !((#[trigger] effects[j]) is WarpingGrant),
    ensures
        fold_item(acc, x, effects, step_fn(WarpingPoints)) == acc,
    decreases effects.len(),
{
    if effects.len() > 0 {
        lemma_points_skip_item(acc, x, effects.drop_last());
        assert(!(effects[effects.len() - 1] is WarpingGrant));
    }
}

/// Selections whose items carry no Warping grant add no Warping Points.
proof fn lemma_points_skip(acc: u32, t: Seq<SelectionView>, rs: &Ruleset)
    requires
        forall|i: int| 0 <= i < t.len() ==> !carries_warping_grant_spec(rs, (#[trigger] t[i]).item_ref),
    ensures
        fold_sels(acc, t, rs, step_fn(WarpingPoints)) == acc,
    decreases t.len(),
{
    if t.len() > 0 {
        lemma_points_skip(acc, t.drop_last(), rs);
        assert(!carries_warping_grant_spec(rs, t[t.len() - 1].item_ref));
        match find(rs.point_items@, t.last().item_ref) {
            Some(item) => {
                assert forall|j: int| 0 <= j < item.effects@.len() implies !((#[trigger] item.effects@[j]) is WarpingGrant) by {}
                lemma_points_skip_item(acc, t.last(), item.effects@);
            },
            None => {},
        }
    }
}

/// No chosen owed-Warping fill carries a Warping grant: the recursion guard
/// drops every such pick, whatever the player stored.
pub proof fn law_owed_fills_never_carry_warping(entity: &Entity, ruleset: &Ruleset)
    ensures
        forall|i: int| 0 <= i < warping_granted_spec(entity, ruleset).len()
            ==> !carries_warping_grant_spec(ruleset, (#[trigger] warping_granted_spec(entity, ruleset)[i]).item_ref),
{
    lemma_no_carrier_survives(
        resolve_grants_spec(owed_grants_spec(warping_owed_spec(entity, ruleset)), entity.warping_choices@),
        ruleset,
    );
}

/// The Warping Points every fold counts, split into the part the fills cannot
/// touch.
proof fn lemma_total_ignores_fills(entity: &Entity, ruleset: &Ruleset)
    ensures
        warping_points_total_spec(entity, ruleset) == clamp_u32(entity.warping_points + fold_sels(
            0u32,
            selection_views(entity.selections@) + grants_base_spec(entity, ruleset),
            ruleset,
            step_fn(WarpingPoints),
        )),
{
    let bought = selection_views(entity.selections@);
    let base = grants_base_spec(entity, ruleset);
    let fills = warping_granted_spec(entity, ruleset);
    assert(effect_selections(entity, ruleset) =~= (bought + base) + fills);
    crate::effective::lemma_fold_sels_append(0u32, bought + base, fills, ruleset, step_fn(WarpingPoints));
    law_owed_fills_never_carry_warping(entity, ruleset);
    lemma_points_skip(fold_sels(0u32, bought + base, ruleset, step_fn(WarpingPoints)), fills, ruleset);
}

/// The owed-Warping fills never feed back into Warping: whatever fills are
/// stored, the Virtues/Flaws owed, the Warping Points and the Warping Score
/// are those of the same character with any other fills.
pub proof fn law_owed_fills_do_not_feed_warping(entity: Entity, ruleset: &Ruleset, fills: Vec<(String, Selection)>)
    ensures
        warping_owed_spec(&with_warping_fills(entity, fills), ruleset) == warping_owed_spec(&entity, ruleset),
        warping_points_total_spec(&with_warping_fills(entity, fills), ruleset) == warping_points_total_spec(&entity, ruleset),
        warping_score_spec(&with_warping_fills(entity, fills), ruleset) == warping_score_spec(&entity, ruleset),
{
    let other = with_warping_fills(entity, fills);
    assert(grants_base_spec(&other, ruleset) == grants_base_spec(&entity, ruleset));
    assert(selection_views(other.selections@) == selection_views(entity.selections@));
    lemma_total_ignores_fills(&entity, ruleset);
    lemma_total_ignores_fills(&other, ruleset);
}

// --- Decrepitude and the aging drops --------------------------------------

/// The sum of the aging points in a per-Characteristic list.
pub open spec fn aging_points_sum(s: Seq<(Characteristic, u8)>) -> nat
    decreases s.len(),
{
    if s.len() == 0 { 0 } else { aging_points_sum(s.drop_last()) + (s.last().1 as nat) }
}

/// The character's accrued aging points across every Characteristic: its
/// Decrepitude experience.
pub fn decrepitude_points_total(entity: &Entity) -> (r: u32)
    ensures
        r == clamp_u32(aging_points_sum(entity.aging_points@) as int),
{
    let mut total: u32 = 0;
    let mut i: usize = 0;
    while i < entity.aging_points.len()
        invariant
            i <= entity.aging_points.len(),
            total == clamp_u32(aging_points_sum(entity.aging_points@.take(i as int)) as int),
        decreases entity.aging_points.len() - i,
    {
        proof {
            assert(entity.aging_points@.take(i + 1).drop_last() =~= entity.aging_points@.take(i as int));
        }
        total = total.saturating_add(entity.aging_points[i].1 as u32);
        i += 1;
    }
    assert(entity.aging_points@.take(entity.aging_points.len() as int) =~= entity.aging_points@);
    total
}

/// The character's Decrepitude Score: the aging points inverted through the
/// advancement table.
pub fn decrepitude_score(entity: &Entity, ruleset: &Ruleset) -> (r: u8)
    ensures
        r == ruleset.advancement.score_for_xp_spec(clamp_u32(aging_points_sum(entity.aging_points@) as int)),
{
    ruleset.advancement.score_for_xp(decrepitude_points_total(entity))
}

/// The drops `remaining` aging points force on a score currently at `aged`:
/// each drop needs more points than the score's absolute value, consumes
/// `|aged| + 1` of them and lowers the score by one.
pub open spec fn drops_from(aged: int, remaining: int) -> nat
    decreases remaining,
{
    let threshold = if aged < 0 { -aged } else { aged };
    if remaining > threshold && remaining > 0 {
        1 + drops_from(aged - 1, remaining - threshold - 1)
    } else {
        0
    }
}

/// Marks an [`AgingEffect::NoAging`] modifier.
pub open spec fn no_aging_step(acc: bool, s: SelectionView, e: Effect) -> bool {
    acc || (match e {
        Effect::AgingMod { kind, .. } => kind == AgingEffect::NoAging,
        _ => false,
    })
}

/// Detects an [`AgingEffect::NoAging`] modifier.
pub struct NoAging;

impl EffectStep<bool> for NoAging {
    open spec fn step_spec(&self, acc: bool, s: SelectionView, e: Effect) -> bool {
        no_aging_step(acc, s, e)
    }

    fn step(&self, acc: bool, s: &Selection, e: &Effect) -> (r: bool) {
        acc || match e {
            Effect::AgingMod { kind, .. } => *kind == AgingEffect::NoAging,
            _ => false,
        }
    }
}

/// Whether the character's Characteristics are exempt from aging drops.
pub open spec fn suppresses_aging_spec(entity: &Entity, ruleset: &Ruleset) -> bool {
    fold_sels(false, effect_selections(entity, ruleset), ruleset, step_fn(NoAging))
}

fn suppresses_characteristic_aging(entity: &Entity, ruleset: &Ruleset) -> (r: bool)
    ensures
        r == suppresses_aging_spec(entity, ruleset),
{
    let sels = selections_for_effects(entity, ruleset);
    fold_effects(&sels, ruleset, false, &NoAging)
}

/// The bought score of `c` (0 when unrecorded).
pub open spec fn bought_characteristic(entity: &Entity, c: Characteristic) -> int {
    match crate::catalog::char_entry(entity.characteristics@, c) {
        Some(v) => v as int,
        None => 0,
    }
}

/// The aging points accrued on `c` (0 when unrecorded).
pub open spec fn aging_points_of(entity: &Entity, c: Characteristic) -> int {
    match crate::catalog::char_entry(entity.aging_points@, c) {
        Some(v) => v as int,
        None => 0,
    }
}

/// The Characteristic drops the accrued aging points force on `c`: none for
/// a character exempt from aging, else the drops simulated from the bought
/// score over the accrued points.
pub open spec fn aging_drops_spec(entity: &Entity, ruleset: &Ruleset, c: Characteristic) -> nat {
    if suppresses_aging_spec(entity, ruleset) {
        0
    } else {
        drops_from(bought_characteristic(entity, c), aging_points_of(entity, c))
    }
}

/// The drops simulated over `remaining` points number at most `remaining`.
pub proof fn lemma_drops_bounded(aged: int, remaining: int)
    ensures
        drops_from(aged, remaining) <= if remaining < 0 { 0 } else { remaining },
    decreases remaining,
{
    let threshold = if aged < 0 { -aged } else { aged };
    if remaining > threshold && remaining > 0 {
        lemma_drops_bounded(aged - 1, remaining - threshold - 1);
    }
}

/// Aging never forces more drops on a Characteristic than it has accrued
/// aging points.
pub proof fn law_aging_drops_never_exceed_the_points(entity: &Entity, ruleset: &Ruleset, c: Characteristic)
    ensures
        aging_drops_spec(entity, ruleset, c) <= aging_points_of(entity, c),
{
    lemma_drops_bounded(bought_characteristic(entity, c), aging_points_of(entity, c));
}

/// The number of Characteristic drops `c`'s accrued aging points force (a
/// Communication of +2 drops on its 3rd point, a Stamina of −3 on its 4th).
#[verifier::loop_isolation(false)]
pub fn aging_drops(entity: &Entity, ruleset: &Ruleset, c: Characteristic) -> (r: u32)
    ensures
        r == aging_drops_spec(entity, ruleset, c),
{
    if suppresses_characteristic_aging(entity, ruleset) {
        return 0;
    }
    let bought: i64 = match crate::catalog::char_get(&entity.characteristics, c) {
        Some(v) => v as i64,
        None => 0,
    };
    let mut remaining: i64 = match crate::catalog::char_get(&entity.aging_points, c) {
        Some(v) => v as i64,
        None => 0,
    };
    let ghost total_points = remaining as int;
    let mut drops: u32 = 0;
    proof {
        lemma_drops_bounded(bought as int, remaining as int);
    }
    loop
        invariant
            0 <= remaining <= 255,
            drops <= 255 - remaining,
            bought == bought_characteristic(entity, c),
            total_points == aging_points_of(entity, c),
            drops + drops_from(bought - drops, remaining as int) == drops_from(bought as int, total_points),
            -128 <= bought <= 127,
        decreases remaining,
    {
        let aged: i64 = bought - drops as i64;
        let threshold: i64 = if aged < 0 { -aged } else { aged };
        if remaining > threshold && remaining > 0 {
            proof {
                assert(drops_from(aged as int, remaining as int) == 1 + drops_from(aged - 1, remaining - threshold - 1));
                lemma_drops_bounded(aged - 1, remaining - threshold - 1);
            }
            remaining = remaining - threshold - 1;
            drops += 1;
        } else {
            assert(drops_from(aged as int, remaining as int) == 0);
            return drops;
        }
    }
}

} // verus!
