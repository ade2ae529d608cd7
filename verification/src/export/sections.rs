//! The core character-sheet sections: title, identity, Characteristics,
//! Virtues and Flaws, Abilities, Arts, spells, equipment, combat, Soak,
//! Encumbrance, and the Fatigue and Wound tracks.
use vstd::prelude::*;
use crate::derived::{
    addends_total, combat_lines_spec, combat_totals, encumbrance, encumbrance_total, fatigue_levels, fatigue_track, line_shape, load_spec, soak,
    soak_addends_spec, triangle, wound_ranges, wound_track, wound_unit, CombatLine, Encumbrance, FatigueLevel, LineShape, SoakSource, WoundBand,
};
use crate::effective::clamp_i64;
use crate::entity::EquipmentSlot;
use crate::effective::ability::{ability_score_floors, effective_ability_score, effective_ability_spec, floors_spec, opt_str, opt_string_view, AbilityFloor};
use crate::effective::art::{effective_art_score, effective_art_spec};
use crate::effective::characteristic::{after_aging_spec, effective_characteristic_after_aging};
use crate::effective::{entity_grants, entity_grants_spec};
use crate::effective::spell::{art_ids_of, arts_of, effective_mastery_spec, effective_spell_mastery, resolved_level_spec, resolved_spell_level};
use crate::effective::xp::{allocation_ok, checked_xp_allocation, law_the_allocation_is_determined, pool_shape, nodes_spec, RestrictedXpPool, XpAllocation, XpPoolOrigin, MAX_XP_SOLVE_NODES};
use crate::catalog::{char_entry, find};
use crate::entity::{AbilityScore, ArtScore, Entity, SpellSelection};
use crate::export::resolve::{art_code_reads, art_code_text, display_values, filled_template, name_reads, param_text, params_reads};
use crate::ruleset::{display_name_spec, LocalizedRuleset, PointItem, Ruleset};
use crate::validation::{balance_spec, ceilings_spec};
use vstd::seq_lib::lemma_concat_associative;
use crate::text::{decimal_int, signed_spec};
use crate::types::Id;
use crate::export::{blank, bullet, id_read, key_read, escape_cell, escape_spec, field, hashes, heading, heading_text, is_blank, join, join_spec, label_text, num, pair, rows_view, strings_view, table, table_spec, title_line, Doc};
use crate::text::{owned, push_char, signed, str_eq};
use crate::types::{all_characteristics, selection_views, AbilityCategory, ArtType, Characteristic, EntityKind, ItemKind, Selection, SelectionView, pairs_view};

verus! {

/// Which catalogue a carried id belongs to.
#[derive(Clone, Copy, PartialEq, Eq, Structural)]
pub enum Carried {
    Weapon,
    Shield,
    Armor,
}

/// `a / b`.
pub open spec fn ratio_text(a: u32, b: u32) -> Seq<char> {
    decimal_int(a as int) + " / "@ + decimal_int(b as int)
}

/// `a / b`.
fn ratio(a: u32, b: u32) -> (r: String)
    ensures
        r@ == ratio_text(a, b),
{
    let mut s = num(a as i64);
    s.append(" / ");
    let t = num(b as i64);
    s.append(t.as_str());
    s
}

fn optional(value: Option<i64>) -> (r: String)
    ensures
        r@ == optional_text(match value {
            Some(x) => Some(x as int),
            None => None,
        }),
{
    match value {
        Some(v) => num(v),
        None => String::new(),
    }
}

/// The text a catalogue id the entity holds shows: its display name, or
/// the id itself when the i18n lacks it.
pub open spec fn name_text(lrs: &LocalizedRuleset, id: Seq<char>) -> Seq<char> {
    match display_name_spec(lrs, id) {
        Some(n) => n,
        None => id,
    }
}

/// The score of the first stored row for `art` (0 when there is none).
pub open spec fn first_art_score(rows: Seq<ArtScore>, art: Seq<char>) -> int
    decreases rows.len(),
{
    if rows.len() == 0 {
        0
    } else if rows[0].art@ == art {
        rows[0].score as int
    } else {
        first_art_score(rows.drop_first(), art)
    }
}

/// One Art's row: its name, its stored score, and its effective score when
/// that differs.
pub open spec fn art_row(e: &Entity, lrs: &LocalizedRuleset, art: Seq<char>) -> Seq<Seq<char>> {
    let score = first_art_score(e.art_scores@, art);
    let effective = effective_art_spec(e, &lrs.ruleset, art) as int;
    seq![
        escape_spec(name_text(lrs, art)),
        decimal_int(score),
        if effective == score { Seq::empty() } else { decimal_int(effective) },
    ]
}

/// The rows of the Arts `ids`, in order.
pub open spec fn art_rows(e: &Entity, lrs: &LocalizedRuleset, ids: Seq<Id>) -> Seq<Seq<Seq<char>>> {
    ids.map_values(|id: Id| art_row(e, lrs, id@))
}

/// One class of Arts: its heading and table, or nothing when the catalogue
/// holds no Art of the class.
pub open spec fn art_type_block(e: &Entity, lrs: &LocalizedRuleset, labels: Seq<(String, String)>, art_type: ArtType) -> Seq<char> {
    let ids = arts_of(&lrs.ruleset, art_type);
    if ids.len() == 0 {
        Seq::empty()
    } else {
        hashes(3) + " "@ + label_text(labels, "art-type-"@ + art_type.slug_spec()) + "\n\n"@
            + table_spec(
                seq![label_text(labels, "identity-name"@), label_text(labels, "ability-score-label"@), label_text(labels, "export-col-effective"@)],
                art_rows(e, lrs, ids),
            )
    }
}

/// The Arts section: a level-two heading, then the Techniques and the Forms;
/// nothing unless the entity scores an Art the catalogue holds.
pub open spec fn arts_section(e: &Entity, lrs: &LocalizedRuleset, labels: Seq<(String, String)>) -> Seq<char> {
    if exists|k: int| 0 <= k < e.art_scores@.len() && #[trigger] find(lrs.ruleset.arts@, e.art_scores@[k].art@) is Some {
        hashes(2) + " "@ + label_text(labels, "tab-arts"@) + "\n\n"@
            + art_type_block(e, lrs, labels, ArtType::Technique)
            + art_type_block(e, lrs, labels, ArtType::Form)
    } else {
        Seq::empty()
    }
}


/// The key a bought Ability's instance value fills in its name: the
/// catalogue's discriminator, or `parameter`.
pub open spec fn ability_param_key(rs: &Ruleset, ability: Seq<char>) -> Seq<char> {
    match find(rs.abilities@, ability) {
        Some(def) => match def.parameter {
            Some(k) => k@,
            None => "parameter"@,
        },
        None => "parameter"@,
    }
}


/// The row of a bought Ability: its name with its instance folded in, its
/// specialty, its bought score, and its effective score when that differs.
pub open spec fn bought_ability_row(e: &Entity, lrs: &LocalizedRuleset, labels: Seq<(String, String)>, row: AbilityScore) -> Seq<Seq<char>> {
    let values = match row.parameter {
        Some(p) => seq![(ability_param_key(&lrs.ruleset, row.ability@), param_text(lrs, p@))],
        None => Seq::empty(),
    };
    let score = row.score as int;
    let effective = effective_ability_spec(e, &lrs.ruleset, row.ability@, opt_string_view(row.parameter)) as int;
    seq![
        filled_template(name_text(lrs, row.ability@), values, labels),
        match row.specialty {
            Some(s) => escape_spec(s@),
            None => Seq::empty(),
        },
        decimal_int(score),
        if effective == score { Seq::empty() } else { decimal_int(effective) },
    ]
}

/// The rows of the bought Abilities, in order.
pub open spec fn bought_ability_rows(e: &Entity, lrs: &LocalizedRuleset, labels: Seq<(String, String)>, rows: Seq<AbilityScore>) -> Seq<Seq<Seq<char>>> {
    rows.map_values(|row: AbilityScore| bought_ability_row(e, lrs, labels, row))
}

/// Whether the entity bought the parameterless instance of `ability`.
pub open spec fn bought_plain(e: &Entity, ability: Seq<char>) -> bool {
    exists|j: int| 0 <= j < e.ability_scores@.len() && #[trigger] e.ability_scores@[j].ability@ == ability && e.ability_scores@[j].parameter is None
}

/// The row of an Ability a Virtue seeded for free: its name, no specialty, a
/// bought score of 0, and its effective score when that is not 0.
pub open spec fn granted_ability_row(e: &Entity, lrs: &LocalizedRuleset, labels: Seq<(String, String)>, ability: Seq<char>) -> Seq<Seq<char>> {
    let effective = effective_ability_spec(e, &lrs.ruleset, ability, None) as int;
    seq![
        filled_template(name_text(lrs, ability), Seq::empty(), labels),
        Seq::empty(),
        "0"@,
        if effective == 0 { Seq::empty() } else { decimal_int(effective) },
    ]
}

/// The rows of the seeded Abilities the entity did not also buy, in order.
pub open spec fn granted_ability_rows(e: &Entity, lrs: &LocalizedRuleset, labels: Seq<(String, String)>, floors: Seq<(Seq<char>, i32)>) -> Seq<Seq<Seq<char>>>
    decreases floors.len(),
{
    if floors.len() == 0 {
        Seq::empty()
    } else {
        granted_ability_rows(e, lrs, labels, floors.drop_last()) + if bought_plain(e, floors.last().0) {
            Seq::empty()
        } else {
            seq![granted_ability_row(e, lrs, labels, floors.last().0)]
        }
    }
}

/// What a restricted pool may buy, as the document lists it: its Abilities,
/// then its categories.
pub open spec fn pool_eligibility(lrs: &LocalizedRuleset, labels: Seq<(String, String)>, pool: RestrictedXpPool) -> Seq<Seq<char>> {
    pool.abilities@.map_values(|a: Id| filled_template(name_text(lrs, a@), Seq::empty(), labels))
        + pool.categories@.map_values(|c: AbilityCategory| label_text(labels, "ability-category-"@ + c.slug_spec()))
}

/// What the document calls a restricted pool: a life-stage block by its
/// label, a Virtue's grant by what it may buy.
pub open spec fn pool_label(lrs: &LocalizedRuleset, labels: Seq<(String, String)>, pool: RestrictedXpPool) -> Seq<char> {
    match pool.origin {
        XpPoolOrigin::LifeStage { block } => label_text(labels, "xp-pool-"@ + block.slug_spec()),
        XpPoolOrigin::Item { .. } => join_spec(
            pool_eligibility(lrs, labels, pool),
            label_text(labels, "restricted-xp-list-separator"@) + " "@,
        ),
    }
}

/// One bullet per restricted pool: its label and what is drawn of it.
pub open spec fn pool_lines(lrs: &LocalizedRuleset, labels: Seq<(String, String)>, pools: Seq<RestrictedXpPool>) -> Seq<char>
    decreases pools.len(),
{
    if pools.len() == 0 {
        Seq::empty()
    } else {
        pool_lines(lrs, labels, pools.drop_last()) + "- **"@ + pool_label(lrs, labels, pools.last()) + "**: "@
            + ratio_text(pools.last().used, pools.last().amount) + "\n"@
    }
}

/// The experience the document shows: the allocation's general pool, its
/// draw and its restricted pools, or nothing at all for an entity over the
/// solve bound.
pub open spec fn xp_shown(e: &Entity, rs: &Ruleset, general: u32, used: u32, pools: Seq<RestrictedXpPool>) -> bool {
    if nodes_spec(e, rs) <= MAX_XP_SOLVE_NODES {
        exists|a: XpAllocation| #[trigger] allocation_ok(e, rs, a) && a.general_pool == general && a.general_used == used && a.restricted@ == pools
    } else {
        general == 0 && used == 0 && pools.len() == 0
    }
}

proof fn lemma_triangle_grows(x: int, y: int)
    requires
        0 <= x <= y,
    ensures
        triangle(x) <= triangle(y),
{
    assert(x * (x + 1) <= y * (y + 1)) by (nonlinear_arith)
        requires
            0 <= x <= y,
    ;
    vstd::arithmetic::div_mod::lemma_div_is_ordered(x * (x + 1), y * (y + 1), 2);
}

/// What the document shows of the experience and of Encumbrance is a
/// function of the entity and the ruleset: two choices that both fit agree
/// on the general pool, its draw, and each restricted pool (what it is and
/// what is drawn of it), and on the Encumbrance.
pub proof fn law_the_shown_values_are_determined(
    e: &Entity,
    rs: &Ruleset,
    g1: u32,
    u1: u32,
    p1: Seq<RestrictedXpPool>,
    g2: u32,
    u2: u32,
    p2: Seq<RestrictedXpPool>,
    enc1: Encumbrance,
    enc2: Encumbrance,
)
    requires
        xp_shown(e, rs, g1, u1, p1),
        xp_shown(e, rs, g2, u2, p2),
        encumbrance_fits(e, rs, enc1),
        encumbrance_fits(e, rs, enc2),
    ensures
        g1 == g2,
        u1 == u2,
        p1.len() == p2.len(),
        forall|i: int| 0 <= i < p1.len() ==> pool_shape(#[trigger] p1[i]) == pool_shape(p2[i]) && p1[i].used == p2[i].used,
        enc1 == enc2,
{
    if nodes_spec(e, rs) <= MAX_XP_SOLVE_NODES {
        let a1 = choose|a: XpAllocation| #[trigger] allocation_ok(e, rs, a) && a.general_pool == g1 && a.general_used == u1 && a.restricted@ == p1;
        let a2 = choose|a: XpAllocation| #[trigger] allocation_ok(e, rs, a) && a.general_pool == g2 && a.general_used == u2 && a.restricted@ == p2;
        law_the_allocation_is_determined(e, rs, a1, a2);
    }
    if enc1.burden < enc2.burden {
        lemma_triangle_grows(enc1.burden + 1, enc2.burden as int);
    } else if enc2.burden < enc1.burden {
        lemma_triangle_grows(enc2.burden + 1, enc1.burden as int);
    }
}

/// The Abilities section: the table of bought then seeded Abilities, the
/// general pool's draw, and the restricted pools' draws; nothing when there
/// is no row and no experience to show.
pub open spec fn abilities_section(e: &Entity, lrs: &LocalizedRuleset, labels: Seq<(String, String)>, general: u32, used: u32, pools: Seq<RestrictedXpPool>) -> Seq<char> {
    let rows = bought_ability_rows(e, lrs, labels, e.ability_scores@)
        + granted_ability_rows(e, lrs, labels, floors_spec(e, &lrs.ruleset));
    if rows.len() == 0 && !(general > 0 || used > 0 || pools.len() > 0) {
        Seq::empty()
    } else {
        hashes(2) + " "@ + label_text(labels, "abilities-title"@) + "\n\n"@
            + table_spec(
                seq![
                    label_text(labels, "identity-name"@),
                    label_text(labels, "ability-specialty-label"@),
                    label_text(labels, "ability-score-label"@),
                    label_text(labels, "export-col-effective"@),
                ],
                rows,
            )
            + xp_draws(lrs, labels, general, used, pools)
    }
}

/// The values a bought Ability's instance fills in its name.
pub open spec fn bought_values(lrs: &LocalizedRuleset, row: AbilityScore) -> Seq<(Seq<char>, Seq<char>)> {
    match row.parameter {
        Some(p) => seq![(ability_param_key(&lrs.ruleset, row.ability@), param_text(lrs, p@))],
        None => Seq::empty(),
    }
}

/// The labels the rows of the bought Abilities `rows` read.
pub open spec fn bought_rows_reads(lrs: &LocalizedRuleset, rows: Seq<AbilityScore>) -> Set<(bool, Seq<char>)>
    decreases rows.len(),
{
    if rows.len() == 0 {
        Set::empty()
    } else {
        bought_rows_reads(lrs, rows.drop_last()) + name_reads(lrs, rows.last().ability@, bought_values(lrs, rows.last()))
    }
}

/// The labels the rows of the seeded Abilities read.
pub open spec fn granted_rows_reads(e: &Entity, lrs: &LocalizedRuleset, floors: Seq<(Seq<char>, i32)>) -> Set<(bool, Seq<char>)>
    decreases floors.len(),
{
    if floors.len() == 0 {
        Set::empty()
    } else {
        granted_rows_reads(e, lrs, floors.drop_last())
            + if bought_plain(e, floors.last().0) { Set::empty() } else { name_reads(lrs, floors.last().0, Seq::empty()) }
    }
}

/// The labels naming the Abilities `ids` read.
pub open spec fn ability_names_reads(lrs: &LocalizedRuleset, ids: Seq<Id>) -> Set<(bool, Seq<char>)>
    decreases ids.len(),
{
    if ids.len() == 0 {
        Set::empty()
    } else {
        ability_names_reads(lrs, ids.drop_last()) + name_reads(lrs, ids.last()@, Seq::empty())
    }
}

/// The chrome keys naming the categories `cats`.
pub open spec fn category_keys(cats: Seq<AbilityCategory>) -> Seq<Seq<char>> {
    cats.map_values(|c: AbilityCategory| "ability-category-"@ + c.slug_spec())
}

/// The labels a restricted pool's name reads.
pub open spec fn pool_label_reads(lrs: &LocalizedRuleset, pool: RestrictedXpPool) -> Set<(bool, Seq<char>)> {
    match pool.origin {
        XpPoolOrigin::LifeStage { block } => key_read("xp-pool-"@ + block.slug_spec()),
        XpPoolOrigin::Item { .. } => ability_names_reads(lrs, pool.abilities@) + keys_of(category_keys(pool.categories@))
            + key_read("restricted-xp-list-separator"@),
    }
}

/// The labels the restricted pools' lines read.
pub open spec fn pool_lines_reads(lrs: &LocalizedRuleset, pools: Seq<RestrictedXpPool>) -> Set<(bool, Seq<char>)>
    decreases pools.len(),
{
    if pools.len() == 0 {
        Set::empty()
    } else {
        pool_lines_reads(lrs, pools.drop_last()) + pool_label_reads(lrs, pools.last())
    }
}

/// The labels the experience lines read.
pub open spec fn xp_draws_reads(lrs: &LocalizedRuleset, general: u32, used: u32, pools: Seq<RestrictedXpPool>) -> Set<(bool, Seq<char>)> {
    (if general > 0 || used > 0 { key_read("xp-pool"@) } else { Set::empty() })
        + if pools.len() == 0 { Set::empty() } else { key_read("export-xp-restricted"@) + pool_lines_reads(lrs, pools) }
}

/// The labels the Abilities section reads.
pub open spec fn abilities_reads(e: &Entity, lrs: &LocalizedRuleset, labels: Seq<(String, String)>, general: u32, used: u32, pools: Seq<RestrictedXpPool>) -> Set<(bool, Seq<char>)> {
    let rows = bought_ability_rows(e, lrs, labels, e.ability_scores@)
        + granted_ability_rows(e, lrs, labels, floors_spec(e, &lrs.ruleset));
    bought_rows_reads(lrs, e.ability_scores@) + granted_rows_reads(e, lrs, floors_spec(e, &lrs.ruleset))
        + if rows.len() == 0 && !(general > 0 || used > 0 || pools.len() > 0) {
            Set::empty()
        } else {
            key_read("abilities-title"@) + key_read("identity-name"@) + key_read("ability-specialty-label"@)
                + key_read("ability-score-label"@) + key_read("export-col-effective"@) + xp_draws_reads(lrs, general, used, pools)
        }
}

/// The experience lines under the Abilities table: the general pool's draw
/// (when it holds or draws anything), then the restricted pools under their
/// own heading (when there are any).
pub open spec fn xp_draws(lrs: &LocalizedRuleset, labels: Seq<(String, String)>, general: u32, used: u32, pools: Seq<RestrictedXpPool>) -> Seq<char> {
    (if general > 0 || used > 0 {
        "- **"@ + label_text(labels, "xp-pool"@) + "**: "@ + ratio_text(used, general) + "\n"@ + "\n"@
    } else {
        Seq::empty()
    }) + (if pools.len() == 0 {
        Seq::empty()
    } else {
        hashes(3) + " "@ + label_text(labels, "export-xp-restricted"@) + "\n\n"@ + pool_lines(lrs, labels, pools) + "\n"@
    })
}


/// The row of a chosen Virtue or Flaw: its name with its parameters folded
/// in, its category and its magnitude.
pub open spec fn item_row(lrs: &LocalizedRuleset, labels: Seq<(String, String)>, s: SelectionView, item: PointItem) -> Seq<Seq<char>> {
    seq![
        filled_template(name_text(lrs, s.item_ref), display_values(lrs, labels, s.params), labels),
        label_text(labels, "category-"@ + item.category@),
        label_text(labels, "magnitude-"@ + item.magnitude.slug_spec()),
    ]
}

/// The rows of the selections of catalogue items of `kind`, in order.
pub open spec fn item_rows_spec(lrs: &LocalizedRuleset, labels: Seq<(String, String)>, sels: Seq<SelectionView>, kind: ItemKind) -> Seq<Seq<Seq<char>>>
    decreases sels.len(),
{
    if sels.len() == 0 {
        Seq::empty()
    } else {
        item_rows_spec(lrs, labels, sels.drop_last(), kind) + match find(lrs.ruleset.point_items@, sels.last().item_ref) {
            Some(item) => if item.kind == kind { seq![item_row(lrs, labels, sels.last(), item)] } else { Seq::empty() },
            None => Seq::empty(),
        }
    }
}

/// The headers of the Virtue and Flaw tables.
pub open spec fn item_headers(labels: Seq<(String, String)>) -> Seq<Seq<char>> {
    seq![label_text(labels, "identity-name"@), label_text(labels, "export-col-type"@), label_text(labels, "export-col-magnitude"@)]
}

/// One kind of Virtue or Flaw under its heading: the bought ones, then the
/// granted ones under their own marked heading; nothing when there is none
/// of either.
pub open spec fn item_kind_block(e: &Entity, lrs: &LocalizedRuleset, labels: Seq<(String, String)>, granted: Seq<SelectionView>, kind: ItemKind, key: Seq<char>) -> Seq<char> {
    let bought = item_rows_spec(lrs, labels, selection_views(e.selections@), kind);
    let given = item_rows_spec(lrs, labels, granted, kind);
    if bought.len() > 0 || given.len() > 0 {
        heading_text(labels, 3, key) + table_spec(item_headers(labels), bought)
            + if given.len() > 0 {
                heading_text(labels, 4, "export-granted"@) + table_spec(item_headers(labels), given)
            } else {
                Seq::empty()
            }
    } else {
        Seq::empty()
    }
}

/// The labels one Virtue or Flaw row reads: its parameters' display values,
/// its name and template, its category and its magnitude.
pub open spec fn item_reads(lrs: &LocalizedRuleset, labels: Seq<(String, String)>, s: SelectionView, item: PointItem) -> Set<(bool, Seq<char>)> {
    params_reads(lrs, s.params) + name_reads(lrs, s.item_ref, display_values(lrs, labels, s.params))
        + key_read("category-"@ + item.category@) + key_read("magnitude-"@ + item.magnitude.slug_spec())
}

/// The labels the rows of the selections of `kind` read.
pub open spec fn item_rows_reads(lrs: &LocalizedRuleset, labels: Seq<(String, String)>, sels: Seq<SelectionView>, kind: ItemKind) -> Set<(bool, Seq<char>)>
    decreases sels.len(),
{
    if sels.len() == 0 {
        Set::empty()
    } else {
        item_rows_reads(lrs, labels, sels.drop_last(), kind) + match find(lrs.ruleset.point_items@, sels.last().item_ref) {
            Some(item) => if item.kind == kind { item_reads(lrs, labels, sels.last(), item) } else { Set::empty() },
            None => Set::empty(),
        }
    }
}

/// The labels one kind's block reads.
pub open spec fn item_kind_reads(e: &Entity, lrs: &LocalizedRuleset, labels: Seq<(String, String)>, granted: Seq<SelectionView>, kind: ItemKind, key: Seq<char>) -> Set<(bool, Seq<char>)> {
    let bought = item_rows_spec(lrs, labels, selection_views(e.selections@), kind);
    let given = item_rows_spec(lrs, labels, granted, kind);
    item_rows_reads(lrs, labels, selection_views(e.selections@), kind) + item_rows_reads(lrs, labels, granted, kind)
        + if bought.len() > 0 || given.len() > 0 {
            key_read(key) + key_read("identity-name"@) + key_read("export-col-type"@) + key_read("export-col-magnitude"@)
                + if given.len() > 0 { key_read("export-granted"@) } else { Set::empty() }
        } else {
            Set::empty()
        }
}

/// The labels the Virtues and Flaws section reads.
pub open spec fn virtues_flaws_reads(e: &Entity, lrs: &LocalizedRuleset, labels: Seq<(String, String)>) -> Set<(bool, Seq<char>)> {
    let granted = entity_grants_spec(e, &lrs.ruleset);
    let body = item_kind_block(e, lrs, labels, granted, ItemKind::Virtue, "items-virtues-title"@)
        + item_kind_block(e, lrs, labels, granted, ItemKind::Flaw, "items-flaws-title"@)
        + item_kind_block(e, lrs, labels, granted, ItemKind::Boon, "export-items-boons"@)
        + item_kind_block(e, lrs, labels, granted, ItemKind::Hook, "export-items-hooks"@);
    item_kind_reads(e, lrs, labels, granted, ItemKind::Virtue, "items-virtues-title"@)
        + item_kind_reads(e, lrs, labels, granted, ItemKind::Flaw, "items-flaws-title"@)
        + item_kind_reads(e, lrs, labels, granted, ItemKind::Boon, "export-items-boons"@)
        + item_kind_reads(e, lrs, labels, granted, ItemKind::Hook, "export-items-hooks"@)
        + if body.len() == 0 {
            Set::empty()
        } else {
            key_read("tab-virtues-flaws"@) + key_read("items-virtues-title"@) + key_read("items-flaws-title"@)
        }
}

/// A point total against its ceiling when the type has one.
pub open spec fn points_text(points: u32, ceiling: Option<u32>) -> Seq<char> {
    match ceiling {
        Some(c) => ratio_text(points, c),
        None => decimal_int(points as int),
    }
}

/// The Virtues and Flaws section: Virtues, Flaws, Boons, Hooks, then the
/// point balance of the bought ones against the type's ceilings; nothing
/// when no kind has a row.
pub open spec fn virtues_flaws_section(e: &Entity, lrs: &LocalizedRuleset, labels: Seq<(String, String)>) -> Seq<char> {
    let granted = entity_grants_spec(e, &lrs.ruleset);
    let body = item_kind_block(e, lrs, labels, granted, ItemKind::Virtue, "items-virtues-title"@)
        + item_kind_block(e, lrs, labels, granted, ItemKind::Flaw, "items-flaws-title"@)
        + item_kind_block(e, lrs, labels, granted, ItemKind::Boon, "export-items-boons"@)
        + item_kind_block(e, lrs, labels, granted, ItemKind::Hook, "export-items-hooks"@);
    let balance = balance_spec(&lrs.ruleset, e.selections@);
    let ceilings = ceilings_spec(e, &lrs.ruleset);
    if body.len() == 0 {
        Seq::empty()
    } else {
        heading_text(labels, 2, "tab-virtues-flaws"@) + body
            + bullet(label_text(labels, "items-virtues-title"@), points_text(balance.virtue_points, match ceilings { Some(c) => Some(c.virtue_ceiling), None => None }))
            + bullet(label_text(labels, "items-flaws-title"@), points_text(balance.flaw_points, match ceilings { Some(c) => Some(c.flaw_ceiling), None => None }))
            + "\n"@
    }
}


/// The key a chosen spell's instance value fills in its name: the
/// catalogue's first parameter, or `parameter`.
pub open spec fn spell_param_key(rs: &Ruleset, spell: Seq<char>) -> Seq<char> {
    match find(rs.spells@, spell) {
        Some(sp) => if sp.parameters@.len() > 0 { sp.parameters@[0].key@ } else { "parameter"@ },
        None => "parameter"@,
    }
}

/// A spell's code: its Technique and Form codes and its resolved level, or
/// the General marker a space apart; empty for a spell no catalogue holds.
pub open spec fn spell_code_text(lrs: &LocalizedRuleset, labels: Seq<(String, String)>, chosen: SpellSelection) -> Seq<char> {
    match find(lrs.ruleset.spells@, chosen.spell@) {
        None => Seq::empty(),
        Some(sp) => art_code_text(lrs, sp.technique@) + art_code_text(lrs, sp.form@) + match resolved_level_spec(&chosen, &lrs.ruleset) {
            Some(l) => decimal_int(l as int),
            None => " "@ + label_text(labels, "spell-level-general"@),
        },
    }
}

/// A known spell's row: its name with its instance folded in, its code, its
/// Mastery (when any) and its mastery Abilities.
pub open spec fn spell_row(e: &Entity, lrs: &LocalizedRuleset, labels: Seq<(String, String)>, chosen: SpellSelection) -> Seq<Seq<char>> {
    let values = match chosen.parameter {
        Some(p) => seq![(spell_param_key(&lrs.ruleset, chosen.spell@), param_text(lrs, p@))],
        None => Seq::empty(),
    };
    let mastery = effective_mastery_spec(&chosen, e, &lrs.ruleset);
    seq![
        filled_template(name_text(lrs, chosen.spell@), values, labels),
        spell_code_text(lrs, labels, chosen),
        if mastery == 0 { Seq::empty() } else { decimal_int(mastery as int) },
        join_spec(
            chosen.mastery_abilities@.map_values(|id: Id| escape_spec(name_text(lrs, id@))),
            label_text(labels, "restricted-xp-list-separator"@) + " "@,
        ),
    ]
}

/// The texts of the ids `ids`.
pub open spec fn id_texts(ids: Seq<Id>) -> Seq<Seq<char>> {
    ids.map_values(|i: Id| i@)
}

/// The labels one class of Arts reads: every Art's name, and the class's
/// heading and headers when it holds any.
pub open spec fn art_type_reads(lrs: &LocalizedRuleset, art_type: ArtType) -> Set<(bool, Seq<char>)> {
    let ids = arts_of(&lrs.ruleset, art_type);
    ids_of(id_texts(ids)) + if ids.len() == 0 {
        Set::empty()
    } else {
        key_read("art-type-"@ + art_type.slug_spec()) + key_read("identity-name"@) + key_read("ability-score-label"@) + key_read("export-col-effective"@)
    }
}

/// The labels the Arts section reads.
pub open spec fn arts_reads(e: &Entity, lrs: &LocalizedRuleset) -> Set<(bool, Seq<char>)> {
    if exists|k: int| 0 <= k < e.art_scores@.len() && #[trigger] find(lrs.ruleset.arts@, e.art_scores@[k].art@) is Some {
        key_read("tab-arts"@) + art_type_reads(lrs, ArtType::Technique) + art_type_reads(lrs, ArtType::Form)
    } else {
        Set::empty()
    }
}

/// The values a known spell's instance fills in its name.
pub open spec fn spell_values(lrs: &LocalizedRuleset, chosen: SpellSelection) -> Seq<(Seq<char>, Seq<char>)> {
    match chosen.parameter {
        Some(p) => seq![(spell_param_key(&lrs.ruleset, chosen.spell@), param_text(lrs, p@))],
        None => Seq::empty(),
    }
}

/// The labels a spell's code reads.
pub open spec fn spell_code_reads(lrs: &LocalizedRuleset, chosen: SpellSelection) -> Set<(bool, Seq<char>)> {
    match find(lrs.ruleset.spells@, chosen.spell@) {
        None => Set::empty(),
        Some(sp) => (if resolved_level_spec(&chosen, &lrs.ruleset) is None { key_read("spell-level-general"@) } else { Set::empty() })
            + art_code_reads(lrs, sp.technique@) + art_code_reads(lrs, sp.form@),
    }
}

/// The labels a known spell's row reads.
pub open spec fn spell_row_reads(lrs: &LocalizedRuleset, chosen: SpellSelection) -> Set<(bool, Seq<char>)> {
    ids_of(id_texts(chosen.mastery_abilities@)) + name_reads(lrs, chosen.spell@, spell_values(lrs, chosen))
        + spell_code_reads(lrs, chosen) + key_read("restricted-xp-list-separator"@)
}

/// The labels the rows of the known spells `spells` read.
pub open spec fn spell_rows_reads(lrs: &LocalizedRuleset, spells: Seq<SpellSelection>) -> Set<(bool, Seq<char>)>
    decreases spells.len(),
{
    if spells.len() == 0 {
        Set::empty()
    } else {
        spell_rows_reads(lrs, spells.drop_last()) + spell_row_reads(lrs, spells.last())
    }
}

/// The labels the spells section reads.
pub open spec fn spells_reads(e: &Entity, lrs: &LocalizedRuleset) -> Set<(bool, Seq<char>)> {
    spell_rows_reads(lrs, e.spells@) + if e.spells@.len() == 0 {
        Set::empty()
    } else {
        key_read("tab-spells"@) + key_read("identity-name"@) + key_read("export-col-spell-code"@)
            + key_read("spell-mastery-label"@) + key_read("spell-mastery-abilities-label"@)
    }
}

/// The spells section: a row per known spell; nothing when it knows none.
pub open spec fn spells_section(e: &Entity, lrs: &LocalizedRuleset, labels: Seq<(String, String)>) -> Seq<char> {
    if e.spells@.len() == 0 {
        Seq::empty()
    } else {
        heading_text(labels, 2, "tab-spells"@) + table_spec(
            seq![
                label_text(labels, "identity-name"@),
                label_text(labels, "export-col-spell-code"@),
                label_text(labels, "spell-mastery-label"@),
                label_text(labels, "spell-mastery-abilities-label"@),
            ],
            e.spells@.map_values(|c: SpellSelection| spell_row(e, lrs, labels, c)),
        )
    }
}


/// One Characteristic's row: its name, its bought score, its effective score
/// after aging when that differs, and its description.
pub open spec fn characteristic_row(e: &Entity, lrs: &LocalizedRuleset, labels: Seq<(String, String)>, c: Characteristic) -> Seq<Seq<char>> {
    let bought: int = match char_entry(e.characteristics@, c) {
        Some(v) => v as int,
        None => 0,
    };
    let effective = after_aging_spec(e, &lrs.ruleset, c) as int;
    seq![
        label_text(labels, "characteristic-"@ + c.slug_spec()),
        signed_spec(bought),
        if effective == bought { Seq::empty() } else { signed_spec(effective) },
        match char_entry(e.characteristic_descriptions@, c) {
            Some(d) => escape_spec(d@),
            None => Seq::empty(),
        },
    ]
}

/// The Characteristics section: a row for each of the eight; nothing when
/// the entity records no score and describes none.
pub open spec fn characteristics_section(e: &Entity, lrs: &LocalizedRuleset, labels: Seq<(String, String)>) -> Seq<char> {
    let described = exists|k: int| 0 <= k < e.characteristic_descriptions@.len() && !blank(#[trigger] e.characteristic_descriptions@[k].1@);
    if e.characteristics@.len() == 0 && !described {
        Seq::empty()
    } else {
        heading_text(labels, 2, "characteristics-title"@) + table_spec(
            seq![
                label_text(labels, "identity-name"@),
                label_text(labels, "ability-score-label"@),
                label_text(labels, "export-col-effective"@),
                label_text(labels, "characteristic-description-label"@),
            ],
            all_characteristics().map_values(|c: Characteristic| characteristic_row(e, lrs, labels, c)),
        )
    }
}


/// One bullet per Soak addend, in order.
pub open spec fn soak_lines(labels: Seq<(String, String)>, adds: Seq<(SoakSource, int)>) -> Seq<char>
    decreases adds.len(),
{
    if adds.len() == 0 {
        Seq::empty()
    } else {
        soak_lines(labels, adds.drop_last())
            + bullet(label_text(labels, "derived-addend-"@ + adds.last().0.slug_spec()), signed_spec(adds.last().1))
    }
}

/// The Soak section: each addend, then the total; nothing when the total
/// and every addend are zero.
pub open spec fn soak_section(e: &Entity, rs: &Ruleset, labels: Seq<(String, String)>) -> Seq<char> {
    let adds = soak_addends_spec(e, rs);
    let total = clamp_i64(addends_total(adds));
    if total == 0 && forall|i: int| 0 <= i < adds.len() ==> #[trigger] adds[i].1 == 0 {
        Seq::empty()
    } else {
        heading_text(labels, 2, "derived-section-soak"@) + soak_lines(labels, adds)
            + bullet(label_text(labels, "export-col-total"@), signed_spec(total as int)) + "\n"@
    }
}

/// What Encumbrance computes for the entity: its Load, the Burden that Load
/// falls in, and the penalty.
pub open spec fn encumbrance_fits(e: &Entity, rs: &Ruleset, enc: Encumbrance) -> bool {
    &&& enc.load == load_spec(rs, e.equipment@)
    &&& triangle(enc.burden as int) <= enc.load < triangle(enc.burden + 1)
    &&& enc.total == encumbrance_total(enc.burden as int, after_aging_spec(e, rs, Characteristic::Str) as int)
}

/// The Encumbrance section: Load, Burden, penalty; nothing when all three
/// are zero.
pub open spec fn encumbrance_section(labels: Seq<(String, String)>, enc: Encumbrance) -> Seq<char> {
    if enc.load == 0 && enc.burden == 0 && enc.total == 0 {
        Seq::empty()
    } else {
        heading_text(labels, 2, "derived-section-encumbrance"@)
            + bullet(label_text(labels, "derived-load"@), decimal_int(enc.load as int))
            + bullet(label_text(labels, "derived-burden"@), decimal_int(enc.burden as int))
            + bullet(label_text(labels, "export-col-total"@), decimal_int(enc.total as int))
            + "\n"@
    }
}

/// A Fatigue level's row.
pub open spec fn fatigue_row(labels: Seq<(String, String)>, l: FatigueLevel) -> Seq<Seq<char>> {
    seq![label_text(labels, "derived-fatigue-"@ + l.level.slug_spec()), decimal_int(l.penalty as int)]
}

/// A Wound level's row: its name, its damage span, its penalty.
pub open spec fn wound_row(labels: Seq<(String, String)>, b: WoundBand) -> Seq<Seq<char>> {
    seq![
        label_text(labels, "derived-wound-"@ + b.level.slug_spec()),
        decimal_int(b.min as int) + match b.max {
            Some(m) => "–"@ + decimal_int(m as int),
            None => "+"@,
        },
        match b.penalty {
            Some(p) => decimal_int(p as int),
            None => Seq::empty(),
        },
    ]
}

/// The Fatigue and Wound tracks, for a character only.
pub open spec fn health_section(e: &Entity, rs: &Ruleset, labels: Seq<(String, String)>) -> Seq<char> {
    match e.entity_kind {
        EntityKind::Covenant => Seq::empty(),
        EntityKind::Character => heading_text(labels, 2, "derived-section-fatigue"@)
            + table_spec(
                seq![label_text(labels, "identity-name"@), label_text(labels, "export-col-penalty"@)],
                fatigue_track().map_values(|l: FatigueLevel| fatigue_row(labels, l)),
            )
            + heading_text(labels, 2, "derived-section-wounds"@)
            + table_spec(
                seq![label_text(labels, "identity-name"@), label_text(labels, "derived-range"@), label_text(labels, "export-col-penalty"@)],
                wound_track(wound_unit(e, rs)).map_values(|b: WoundBand| wound_row(labels, b)),
            ),
    }
}

/// Which catalogue holds `id`: weapons, then shields, then armor.
pub open spec fn carried_class_spec(rs: &Ruleset, id: Seq<char>) -> Option<Carried> {
    if find(rs.weapons@, id) is Some {
        Some(Carried::Weapon)
    } else if find(rs.shields@, id) is Some {
        Some(Carried::Shield)
    } else if find(rs.armor@, id) is Some {
        Some(Carried::Armor)
    } else {
        None
    }
}

/// The rows of the carried items of one class, in order: name and whether
/// it is equipped.
pub open spec fn carried_rows(lrs: &LocalizedRuleset, labels: Seq<(String, String)>, slots: Seq<EquipmentSlot>, class: Carried) -> Seq<Seq<Seq<char>>>
    decreases slots.len(),
{
    if slots.len() == 0 {
        Seq::empty()
    } else {
        carried_rows(lrs, labels, slots.drop_last(), class) + if carried_class_spec(&lrs.ruleset, slots.last().item@) == Some(class) {
            seq![seq![
                escape_spec(name_text(lrs, slots.last().item@)),
                label_text(labels, if slots.last().equipped { "export-yes"@ } else { "export-no"@ }),
            ]]
        } else {
            Seq::empty()
        }
    }
}

/// One class of carried items under its heading; nothing when none is
/// carried.
pub open spec fn carried_block(lrs: &LocalizedRuleset, labels: Seq<(String, String)>, slots: Seq<EquipmentSlot>, class: Carried, key: Seq<char>) -> Seq<char> {
    let rows = carried_rows(lrs, labels, slots, class);
    if rows.len() == 0 {
        Seq::empty()
    } else {
        heading_text(labels, 3, key) + table_spec(seq![label_text(labels, "identity-name"@), label_text(labels, "equipment-equipped-label"@)], rows)
    }
}

/// The equipment section: weapons, shields, armor; nothing when no carried
/// item is catalogued.
pub open spec fn equipment_section(e: &Entity, lrs: &LocalizedRuleset, labels: Seq<(String, String)>) -> Seq<char> {
    let body = carried_block(lrs, labels, e.equipment@, Carried::Weapon, "equipment-group-weapons"@)
        + carried_block(lrs, labels, e.equipment@, Carried::Shield, "equipment-group-shields"@)
        + carried_block(lrs, labels, e.equipment@, Carried::Armor, "equipment-group-armor"@);
    if body.len() == 0 {
        Seq::empty()
    } else {
        heading_text(labels, 2, "tab-equipment"@) + body
    }
}

/// A combat line's name: the weapon, joined to each shield it folds in.
pub open spec fn line_name(lrs: &LocalizedRuleset, labels: Seq<(String, String)>, l: LineShape) -> Seq<char> {
    if l.shields.len() == 0 {
        name_text(lrs, l.weapon)
    } else {
        join_spec(
            seq![name_text(lrs, l.weapon)] + l.shields.map_values(|x: Seq<char>| name_text(lrs, x)),
            " "@ + label_text(labels, "derived-combat-shield-joiner"@) + " "@,
        )
    }
}

/// An optional number, or nothing.
pub open spec fn optional_text(v: Option<int>) -> Seq<char> {
    match v {
        Some(x) => decimal_int(x),
        None => Seq::empty(),
    }
}

/// A combat line's row.
pub open spec fn combat_row(lrs: &LocalizedRuleset, labels: Seq<(String, String)>, l: LineShape) -> Seq<Seq<char>> {
    seq![
        escape_spec(line_name(lrs, labels, l)),
        escape_spec(name_text(lrs, l.ability)),
        decimal_int(l.initiative),
        optional_text(l.attack),
        decimal_int(l.defense),
        optional_text(l.damage),
        match l.range {
            Some(r) => decimal_int(r as int),
            None => Seq::empty(),
        },
    ]
}

/// The combat section: a row per combat line; nothing when there is none.
pub open spec fn combat_section(e: &Entity, lrs: &LocalizedRuleset, labels: Seq<(String, String)>) -> Seq<char> {
    let lines = combat_lines_spec(e, &lrs.ruleset);
    if lines.len() == 0 {
        Seq::empty()
    } else {
        heading_text(labels, 2, "derived-section-combat"@) + table_spec(
            seq![
                label_text(labels, "identity-name"@),
                label_text(labels, "param-label-ability"@),
                label_text(labels, "derived-combat-init"@),
                label_text(labels, "derived-combat-attack"@),
                label_text(labels, "derived-combat-defense"@),
                label_text(labels, "derived-combat-damage"@),
                label_text(labels, "derived-range"@),
            ],
            lines.map_values(|l: LineShape| combat_row(lrs, labels, l)),
        )
    }
}


/// The labels the rows of one class of carried items read.
pub open spec fn carried_reads(lrs: &LocalizedRuleset, slots: Seq<EquipmentSlot>, class: Carried) -> Set<(bool, Seq<char>)>
    decreases slots.len(),
{
    if slots.len() == 0 {
        Set::empty()
    } else {
        carried_reads(lrs, slots.drop_last(), class) + if carried_class_spec(&lrs.ruleset, slots.last().item@) == Some(class) {
            id_read(slots.last().item@) + key_read(if slots.last().equipped { "export-yes"@ } else { "export-no"@ })
        } else {
            Set::empty()
        }
    }
}

/// The labels one class of carried items reads.
pub open spec fn carried_block_reads(lrs: &LocalizedRuleset, labels: Seq<(String, String)>, slots: Seq<EquipmentSlot>, class: Carried, key: Seq<char>) -> Set<(bool, Seq<char>)> {
    carried_reads(lrs, slots, class) + if carried_rows(lrs, labels, slots, class).len() == 0 {
        Set::empty()
    } else {
        key_read(key) + key_read("identity-name"@) + key_read("equipment-equipped-label"@)
    }
}

/// The labels the equipment section reads.
pub open spec fn equipment_reads(e: &Entity, lrs: &LocalizedRuleset, labels: Seq<(String, String)>) -> Set<(bool, Seq<char>)> {
    carried_block_reads(lrs, labels, e.equipment@, Carried::Weapon, "equipment-group-weapons"@)
        + carried_block_reads(lrs, labels, e.equipment@, Carried::Shield, "equipment-group-shields"@)
        + carried_block_reads(lrs, labels, e.equipment@, Carried::Armor, "equipment-group-armor"@)
        + if equipment_section(e, lrs, labels).len() == 0 { Set::empty() } else { key_read("tab-equipment"@) }
}

/// The labels a combat line's name reads.
pub open spec fn line_name_reads(l: LineShape) -> Set<(bool, Seq<char>)> {
    if l.shields.len() == 0 {
        id_read(l.weapon)
    } else {
        key_read("derived-combat-shield-joiner"@) + id_read(l.weapon) + ids_of(l.shields)
    }
}

/// The labels the rows of the combat lines `lines` read.
pub open spec fn combat_rows_reads(lines: Seq<LineShape>) -> Set<(bool, Seq<char>)>
    decreases lines.len(),
{
    if lines.len() == 0 {
        Set::empty()
    } else {
        combat_rows_reads(lines.drop_last()) + line_name_reads(lines.last()) + id_read(lines.last().ability)
    }
}

/// The labels the combat section reads.
pub open spec fn combat_reads(e: &Entity, lrs: &LocalizedRuleset) -> Set<(bool, Seq<char>)> {
    let lines = combat_lines_spec(e, &lrs.ruleset);
    if lines.len() == 0 {
        Set::empty()
    } else {
        combat_rows_reads(lines) + key_read("derived-section-combat"@) + key_read("identity-name"@) + key_read("param-label-ability"@)
            + key_read("derived-combat-init"@) + key_read("derived-combat-attack"@) + key_read("derived-combat-defense"@)
            + key_read("derived-combat-damage"@) + key_read("derived-range"@)
    }
}

/// The chrome keys of the Soak addends `adds`.
pub open spec fn soak_keys(adds: Seq<(SoakSource, int)>) -> Seq<Seq<char>> {
    adds.map_values(|a: (SoakSource, int)| "derived-addend-"@ + a.0.slug_spec())
}

/// The labels the Soak section reads.
pub open spec fn soak_reads(e: &Entity, rs: &Ruleset) -> Set<(bool, Seq<char>)> {
    let adds = soak_addends_spec(e, rs);
    let total = clamp_i64(addends_total(adds));
    if total == 0 && forall|i: int| 0 <= i < adds.len() ==> #[trigger] adds[i].1 == 0 {
        Set::empty()
    } else {
        key_read("derived-section-soak"@) + keys_of(soak_keys(adds)) + key_read("export-col-total"@)
    }
}

/// The labels the Encumbrance section reads.
pub open spec fn encumbrance_reads(enc: Encumbrance) -> Set<(bool, Seq<char>)> {
    if enc.load == 0 && enc.burden == 0 && enc.total == 0 {
        Set::empty()
    } else {
        key_read("derived-section-encumbrance"@) + key_read("derived-load"@) + key_read("derived-burden"@) + key_read("export-col-total"@)
    }
}

/// The chrome keys of the Fatigue levels.
pub open spec fn fatigue_keys(levels: Seq<FatigueLevel>) -> Seq<Seq<char>> {
    levels.map_values(|l: FatigueLevel| "derived-fatigue-"@ + l.level.slug_spec())
}

/// The chrome keys of the Wound levels.
pub open spec fn wound_keys(bands: Seq<WoundBand>) -> Seq<Seq<char>> {
    bands.map_values(|b: WoundBand| "derived-wound-"@ + b.level.slug_spec())
}

/// The labels the health section reads.
pub open spec fn health_reads(e: &Entity, rs: &Ruleset) -> Set<(bool, Seq<char>)> {
    match e.entity_kind {
        EntityKind::Covenant => Set::empty(),
        EntityKind::Character => keys_of(fatigue_keys(fatigue_track())) + key_read("derived-section-fatigue"@)
            + key_read("identity-name"@) + key_read("export-col-penalty"@)
            + keys_of(wound_keys(wound_track(wound_unit(e, rs)))) + key_read("derived-section-wounds"@)
            + key_read("derived-range"@),
    }
}

/// The subtitle's parts: the character type, then the House, the age and
/// the apparent age when recorded.
pub open spec fn subtitle_parts(e: &Entity, lrs: &LocalizedRuleset, labels: Seq<(String, String)>) -> Seq<Seq<char>> {
    seq![label_text(labels, "type-"@ + e.type_id@)]
        + (match e.house {
            Some(h) => seq![label_text(labels, "house-label"@) + ": "@ + name_text(lrs, h@)],
            None => Seq::empty(),
        })
        + (match e.age {
            Some(a) => seq![label_text(labels, "age-label"@) + ": "@ + decimal_int(a as int)],
            None => Seq::empty(),
        })
        + (match e.apparent_age {
            Some(a) => seq![label_text(labels, "apparent-age-label"@) + ": "@ + decimal_int(a as int)],
            None => Seq::empty(),
        })
}

/// The document's head: the title line, then the italic subtitle and a
/// blank line.
pub open spec fn title_section(e: &Entity, lrs: &LocalizedRuleset, labels: Seq<(String, String)>) -> Seq<char> {
    title_line(e, labels) + "*"@ + join_spec(subtitle_parts(e, lrs, labels), " · "@) + "*\n\n"@
}

/// One identity field: a bullet for the escaped value, or nothing when the
/// value is blank.
pub open spec fn identity_bullet(labels: Seq<(String, String)>, key: Seq<char>, value: Seq<char>) -> Seq<char> {
    if blank(value) { Seq::empty() } else { bullet(label_text(labels, key), escape_spec(value)) }
}

/// The identity fields, each omitted when empty.
pub open spec fn identity_body(e: &Entity, labels: Seq<(String, String)>) -> Seq<char> {
    identity_bullet(labels, "identity-description"@, e.description@)
        + identity_bullet(labels, "identity-concept"@, e.concept@)
        + identity_bullet(labels, "identity-gender"@, e.gender@)
        + identity_bullet(labels, "identity-sigil"@, e.sigil@)
        + identity_bullet(labels, "identity-covenant"@, e.covenant_name@)
        + identity_bullet(labels, "identity-parens"@, e.parens@)
        + match e.birth_year {
            Some(y) => bullet(label_text(labels, "identity-birth-year"@), decimal_int(y as int)),
            None => Seq::empty(),
        }
}

/// The identity section; nothing when every field is empty.
pub open spec fn identity_section(e: &Entity, labels: Seq<(String, String)>) -> Seq<char> {
    let body = identity_body(e, labels);
    if body.len() == 0 {
        Seq::empty()
    } else {
        heading_text(labels, 2, "identity-label"@) + body + "\n"@
    }
}

/// The chrome keys among `ks`.
pub open spec fn keys_of(ks: Seq<Seq<char>>) -> Set<(bool, Seq<char>)> {
    Set::new(|v: (bool, Seq<char>)| !v.0 && ks.contains(v.1))
}

/// The catalogue ids among `ids`.
pub open spec fn ids_of(ids: Seq<Seq<char>>) -> Set<(bool, Seq<char>)> {
    Set::new(|v: (bool, Seq<char>)| v.0 && ids.contains(v.1))
}

/// One more element of a list read as chrome keys or as catalogue ids.
pub proof fn lemma_keys_of_step(ks: Seq<Seq<char>>, k: int)
    requires
        0 <= k < ks.len(),
    ensures
        keys_of(ks.take(k + 1)) == keys_of(ks.take(k)) + key_read(ks[k]),
        ids_of(ks.take(k + 1)) == ids_of(ks.take(k)) + id_read(ks[k]),
{
    assert(ks.take(k + 1) =~= ks.take(k).push(ks[k]));
    assert forall|x: Seq<char>| #[trigger] ks.take(k + 1).contains(x) <==> (ks.take(k).contains(x) || x == ks[k]) by {
        if ks.take(k + 1).contains(x) {
            let j = choose|j: int| 0 <= j < k + 1 && #[trigger] ks.take(k + 1)[j] == x;
            if j < k {
                assert(ks.take(k)[j] == x);
            }
        }
        if ks.take(k).contains(x) {
            let j = choose|j: int| 0 <= j < k && #[trigger] ks.take(k)[j] == x;
            assert(ks.take(k + 1)[j] == x);
        }
        if x == ks[k] {
            assert(ks.take(k + 1)[k] == x);
        }
    }
    assert(keys_of(ks.take(k + 1)) =~= keys_of(ks.take(k)) + key_read(ks[k]));
    assert(ids_of(ks.take(k + 1)) =~= ids_of(ks.take(k)) + id_read(ks[k]));
}

proof fn lemma_bullet_nonempty(l: Seq<char>, v: Seq<char>)
    ensures
        bullet(l, v).len() > 0,
{
    reveal_strlit("- **");
}

/// The labels the title reads.
pub open spec fn title_reads(e: &Entity) -> Set<(bool, Seq<char>)> {
    (if blank(e.name@) { key_read("export-untitled"@) } else { Set::empty() })
        + key_read("type-"@ + e.type_id@)
        + (match e.house {
            Some(h) => key_read("house-label"@) + id_read(h@),
            None => Set::empty(),
        })
        + (if e.age is Some { key_read("age-label"@) } else { Set::empty() })
        + (if e.apparent_age is Some { key_read("apparent-age-label"@) } else { Set::empty() })
}

/// The labels one identity field reads.
pub open spec fn identity_field_reads(key: Seq<char>, value: Seq<char>) -> Set<(bool, Seq<char>)> {
    if blank(value) { Set::empty() } else { key_read(key) }
}

/// Whether the identity section has a field to show.
pub open spec fn identity_shown(e: &Entity) -> bool {
    !blank(e.description@) || !blank(e.concept@) || !blank(e.gender@) || !blank(e.sigil@)
        || !blank(e.covenant_name@) || !blank(e.parens@) || e.birth_year is Some
}

/// The labels the identity section reads.
pub open spec fn identity_reads(e: &Entity) -> Set<(bool, Seq<char>)> {
    identity_field_reads("identity-description"@, e.description@)
        + identity_field_reads("identity-concept"@, e.concept@)
        + identity_field_reads("identity-gender"@, e.gender@)
        + identity_field_reads("identity-sigil"@, e.sigil@)
        + identity_field_reads("identity-covenant"@, e.covenant_name@)
        + identity_field_reads("identity-parens"@, e.parens@)
        + (if e.birth_year is Some { key_read("identity-birth-year"@) } else { Set::empty() })
        + (if identity_shown(e) { key_read("identity-label"@) } else { Set::empty() })
}

/// The Characteristics' chrome keys, in order.
pub open spec fn characteristic_keys() -> Seq<Seq<char>> {
    all_characteristics().map_values(|c: Characteristic| "characteristic-"@ + c.slug_spec())
}

/// Whether the Characteristics section is shown.
pub open spec fn characteristics_shown(e: &Entity) -> bool {
    let described = exists|k: int| 0 <= k < e.characteristic_descriptions@.len() && !blank(#[trigger] e.characteristic_descriptions@[k].1@);
    !(e.characteristics@.len() == 0 && !described)
}

/// The labels the Characteristics section reads.
pub open spec fn characteristics_reads(e: &Entity) -> Set<(bool, Seq<char>)> {
    if characteristics_shown(e) {
        keys_of(characteristic_keys()) + key_read("characteristics-title"@) + key_read("identity-name"@)
            + key_read("ability-score-label"@) + key_read("export-col-effective"@) + key_read("characteristic-description-label"@)
    } else {
        Set::empty()
    }
}

impl<'a> Doc<'a> {
    /// The `# ` title and the subtitle line (character type, House, ages).
    pub fn write_title(&mut self, out: &mut String)
        requires
            old(self).wf(),
        ensures
            final(self).wf(),
            final(self).same_inputs(old(self)),
            final(out)@ == old(out)@ + title_section(old(self).entity, old(self).ruleset, old(self).labels@),
            final(self).read@ == old(self).read@ + title_reads(old(self).entity),
    {
        let e = self.entity;
        let ghost lrs = self.ruleset;
        let ghost labels = self.labels@;
        let ghost start = out@;
        let title = if is_blank(e.name.as_str()) { self.label("export-untitled") } else { escape_cell(e.name.as_str()) };
        out.append("# ");
        out.append(title.as_str());
        out.append("\n\n");
        let ghost head = out@;
        assert(head =~= start + title_line(old(self).entity, old(self).labels@));
        let mut parts: Vec<String> = Vec::new();
        let t = self.label2("type-", e.type_id.as_str());
        parts.push(t);
        let ghost p0 = strings_view(parts@);
        assert(p0 =~= seq![label_text(labels, "type-"@ + e.type_id@)]);
        match &e.house {
            Some(house) => {
                let l = self.label("house-label");
                let n = self.name(house.as_str());
                parts.push(pair(l.as_str(), n.as_str()));
            },
            None => {},
        }
        let ghost p1 = strings_view(parts@);
        assert(p1 =~= p0 + match e.house {
            Some(h) => seq![label_text(labels, "house-label"@) + ": "@ + name_text(lrs, h@)],
            None => Seq::empty(),
        });
        match e.age {
            Some(age) => {
                let l = self.label("age-label");
                let n = num(age as i64);
                parts.push(pair(l.as_str(), n.as_str()));
            },
            None => {},
        }
        let ghost p2 = strings_view(parts@);
        assert(p2 =~= p1 + match e.age {
            Some(a) => seq![label_text(labels, "age-label"@) + ": "@ + decimal_int(a as int)],
            None => Seq::empty(),
        });
        match e.apparent_age {
            Some(age) => {
                let l = self.label("apparent-age-label");
                let n = num(age as i64);
                parts.push(pair(l.as_str(), n.as_str()));
            },
            None => {},
        }
        assert(strings_view(parts@) =~= subtitle_parts(e, lrs, labels));
        out.append("*");
        let joined = join(&parts, " · ");
        out.append(joined.as_str());
        out.append("*\n\n");
        assert(out@ =~= start + title_section(e, lrs, labels));
        assert(self.read@ =~= old(self).read@ + title_reads(e));
    }

    /// The free-text identity fields, each omitted when empty.
    pub fn write_identity(&mut self, out: &mut String)
        requires
            old(self).wf(),
        ensures
            final(self).wf(),
            final(self).same_inputs(old(self)),
            final(out)@ == old(out)@ + identity_section(old(self).entity, old(self).labels@),
            final(self).read@ == old(self).read@ + identity_reads(old(self).entity),
    {
        let e = self.entity;
        let ghost labels = self.labels@;
        let mut body = String::new();
        self.identity_field(&mut body, "identity-description", e.description.as_str());
        assert(body@ =~= identity_bullet(labels, "identity-description"@, e.description@));
        self.identity_field(&mut body, "identity-concept", e.concept.as_str());
        self.identity_field(&mut body, "identity-gender", e.gender.as_str());
        self.identity_field(&mut body, "identity-sigil", e.sigil.as_str());
        self.identity_field(&mut body, "identity-covenant", e.covenant_name.as_str());
        self.identity_field(&mut body, "identity-parens", e.parens.as_str());
        let ghost before_year = body@;
        match e.birth_year {
            Some(year) => {
                let n = num(year as i64);
                self.labelled(&mut body, "identity-birth-year", n.as_str());
            },
            None => {
                assert(body@ =~= before_year + Seq::<char>::empty());
            },
        }
        assert(body@ == identity_body(e, labels));
        proof {
            if !blank(e.description@) { lemma_bullet_nonempty(label_text(labels, "identity-description"@), escape_spec(e.description@)); }
            if !blank(e.concept@) { lemma_bullet_nonempty(label_text(labels, "identity-concept"@), escape_spec(e.concept@)); }
            if !blank(e.gender@) { lemma_bullet_nonempty(label_text(labels, "identity-gender"@), escape_spec(e.gender@)); }
            if !blank(e.sigil@) { lemma_bullet_nonempty(label_text(labels, "identity-sigil"@), escape_spec(e.sigil@)); }
            if !blank(e.covenant_name@) { lemma_bullet_nonempty(label_text(labels, "identity-covenant"@), escape_spec(e.covenant_name@)); }
            if !blank(e.parens@) { lemma_bullet_nonempty(label_text(labels, "identity-parens"@), escape_spec(e.parens@)); }
            if let Some(y) = e.birth_year { lemma_bullet_nonempty(label_text(labels, "identity-birth-year"@), decimal_int(y as int)); }
            assert(identity_shown(e) <==> identity_body(e, labels).len() > 0);
        }
        if body.as_str().is_empty() {
            assert(self.read@ =~= old(self).read@ + identity_reads(e));
            return;
        }
        self.section(out, 2, "identity-label");
        out.append(body.as_str());
        out.append("\n");
        proof {
            let h = heading_text(labels, 2, "identity-label"@);
            lemma_concat_associative(old(out)@, h, body@);
            lemma_concat_associative(old(out)@, h + body@, "\n"@);
        }
        assert(self.read@ =~= old(self).read@ + identity_reads(e));
    }

    fn identity_field(&mut self, body: &mut String, key: &str, value: &str)
        requires
            old(self).wf(),
        ensures
            final(self).wf(),
            final(self).same_inputs(old(self)),
            final(body)@ == old(body)@ + identity_bullet(old(self).labels@, key@, value@),
            final(self).read@ == old(self).read@ + identity_field_reads(key@, value@),
    {
        if !is_blank(value) {
            let v = escape_cell(value);
            self.labelled(body, key, v.as_str());
        } else {
            assert(self.read@ =~= old(self).read@ + identity_field_reads(key@, value@));
            assert(body@ =~= old(body)@ + identity_bullet(old(self).labels@, key@, value@));
        }
    }

    /// The bought Characteristic scores, their effective values where aging or
    /// a Virtue moves them, and the sheet's descriptions; every Characteristic
    /// gets a row once the section exists.
    pub fn write_characteristics(&mut self, out: &mut String)
        requires
            old(self).wf(),
        ensures
            final(self).wf(),
            final(self).same_inputs(old(self)),
            final(out)@ == old(out)@ + characteristics_section(old(self).entity, old(self).ruleset, old(self).labels@),
            final(self).read@ == old(self).read@ + characteristics_reads(old(self).entity),
    {
        let e = self.entity;
        let ghost lrs = self.ruleset;
        let ghost labels = self.labels@;
        let mut described = false;
        let mut i: usize = 0;
        while i < e.characteristic_descriptions.len()
            invariant
                i <= e.characteristic_descriptions@.len(),
                described == exists|k: int| 0 <= k < i && !blank(#[trigger] e.characteristic_descriptions@[k].1@),
            decreases e.characteristic_descriptions.len() - i,
        {
            if !is_blank(e.characteristic_descriptions[i].1.as_str()) {
                described = true;
            }
            i += 1;
        }
        if e.characteristics.len() == 0 && !described {
            assert(self.read@ =~= old(self).read@ + characteristics_reads(e));
            return;
        }
        let all = Characteristic::all();
        proof {
            assert(keys_of(characteristic_keys().take(0)) =~= Set::<(bool, Seq<char>)>::empty());
            assert(self.read@ =~= old(self).read@ + keys_of(characteristic_keys().take(0)));
        }
        let mut rows: Vec<Vec<String>> = Vec::new();
        let mut k: usize = 0;
        while k < all.len()
            invariant
                self.wf(),
                self.same_inputs(old(self)),
                e == self.entity,
                lrs == self.ruleset,
                labels == self.labels@,
                all@ == all_characteristics(),
                k <= all@.len(),
                rows_view(rows@) == all@.take(k as int).map_values(|c: Characteristic| characteristic_row(e, lrs, labels, c)),
                self.read@ == old(self).read@ + keys_of(characteristic_keys().take(k as int)),
            decreases all.len() - k,
        {
            let c = all[k];
            let description = match crate::catalog::char_text(&e.characteristic_descriptions, c) {
                Some(d) => escape_cell(d.as_str()),
                None => String::new(),
            };
            let bought: i64 = match crate::catalog::char_get(&e.characteristics, c) {
                Some(v) => v as i64,
                None => 0,
            };
            let effective = effective_characteristic_after_aging(e, self.rules(), c) as i64;
            let mut row: Vec<String> = Vec::new();
            proof {
                lemma_keys_of_step(characteristic_keys(), k as int);
                assert(characteristic_keys()[k as int] == "characteristic-"@ + c.slug_spec());
            }
            row.push(self.label2("characteristic-", c.slug()));
            row.push(signed(bought));
            row.push(if effective == bought { String::new() } else { signed(effective) });
            row.push(description);
            let ghost before = rows_view(rows@);
            rows.push(row);
            proof {
                assert(strings_view(row@) =~= characteristic_row(e, lrs, labels, c));
                assert(self.read@ =~= old(self).read@ + keys_of(characteristic_keys().take(k + 1)));
                assert(rows_view(rows@) =~= before.push(strings_view(row@)));
                assert(all@.take(k + 1).map_values(|c: Characteristic| characteristic_row(e, lrs, labels, c))
                    =~= all@.take(k as int).map_values(|c: Characteristic| characteristic_row(e, lrs, labels, c)).push(characteristic_row(e, lrs, labels, c)));
            }
            k += 1;
        }
        proof {
            assert(all@.take(all@.len() as int) =~= all@);
            assert(characteristic_keys().take(all@.len() as int) =~= characteristic_keys());
        }
        self.section(out, 2, "characteristics-title");
        let mut headers: Vec<String> = Vec::new();
        headers.push(self.label("identity-name"));
        headers.push(self.label("ability-score-label"));
        headers.push(self.label("export-col-effective"));
        headers.push(self.label("characteristic-description-label"));
        proof {
            assert(strings_view(headers@) =~= seq![
                label_text(labels, "identity-name"@),
                label_text(labels, "ability-score-label"@),
                label_text(labels, "export-col-effective"@),
                label_text(labels, "characteristic-description-label"@),
            ]);
        }
        table(out, &headers, &rows);
        proof {
            lemma_concat_associative(old(out)@, heading_text(labels, 2, "characteristics-title"@), table_spec(strings_view(headers@), rows_view(rows@)));
        }
        assert(self.read@ =~= old(self).read@ + characteristics_reads(e));
    }

    /// The name, type and magnitude rows of the selections whose item is of
    /// `kind`, in list order; an uncatalogued item is not printed.
    fn item_rows(&mut self, selections: &Vec<Selection>, kind: ItemKind) -> (r: Vec<Vec<String>>)
        requires
            old(self).wf(),
        ensures
            final(self).wf(),
            final(self).same_inputs(old(self)),
            rows_view(r@) == item_rows_spec(old(self).ruleset, old(self).labels@, selection_views(selections@), kind),
            final(self).read@ == old(self).read@ + item_rows_reads(old(self).ruleset, old(self).labels@, selection_views(selections@), kind),
    {
        let ghost lrs = self.ruleset;
        let ghost labels = self.labels@;
        let ghost sels = selection_views(selections@);
        let mut rows: Vec<Vec<String>> = Vec::new();
        let mut i: usize = 0;
        assert(self.read@ =~= old(self).read@ + item_rows_reads(lrs, labels, sels.take(0), kind));
        while i < selections.len()
            invariant
                self.wf(),
                self.same_inputs(old(self)),
                lrs == self.ruleset,
                labels == self.labels@,
                sels == selection_views(selections@),
                i <= selections@.len(),
                rows_view(rows@) == item_rows_spec(lrs, labels, sels.take(i as int), kind),
                self.read@ == old(self).read@ + item_rows_reads(lrs, labels, sels.take(i as int), kind),
            decreases selections.len() - i,
        {
            proof {
                assert(sels.take(i + 1).drop_last() =~= sels.take(i as int));
                assert(sels.take(i + 1).last() == selections@[i as int]@);
            }
            let ghost before = rows_view(rows@);
            let ghost read0 = self.read@;
            let s = &selections[i];
            match self.rules().item(s.item_ref.as_str()) {
                Some(item) => {
                    if item.kind == kind {
                        let values = self.param_display_values(&s.params);
                        let mut row: Vec<String> = Vec::new();
                        row.push(self.parameterized_name(s.item_ref.as_str(), &values));
                        row.push(self.label2("category-", item.category.as_str()));
                        row.push(self.label2("magnitude-", item.magnitude.slug()));
                        rows.push(row);
                        proof {
                            assert(strings_view(row@) =~= item_row(lrs, labels, s@, *item));
                            assert(rows_view(rows@) =~= before.push(strings_view(row@)));
                            assert(self.read@ =~= read0 + item_reads(lrs, labels, s@, *item));
                        }
                    }
                },
                None => {},
            }
            assert(self.read@ =~= old(self).read@ + item_rows_reads(lrs, labels, sels.take(i + 1), kind));
            i += 1;
        }
        proof {
            assert(sels.take(selections@.len() as int) =~= sels);
        }
        rows
    }

    fn three_headers(&mut self, a: &str, b: &str, c: &str) -> (r: Vec<String>)
        requires
            old(self).wf(),
        ensures
            final(self).wf(),
            final(self).same_inputs(old(self)),
            strings_view(r@) == seq![label_text(old(self).labels@, a@), label_text(old(self).labels@, b@), label_text(old(self).labels@, c@)],
            final(self).read@ == old(self).read@ + key_read(a@) + key_read(b@) + key_read(c@),
    {
        let mut headers: Vec<String> = Vec::new();
        headers.push(self.label(a));
        headers.push(self.label(b));
        headers.push(self.label(c));
        assert(strings_view(headers@) =~= seq![label_text(old(self).labels@, a@), label_text(old(self).labels@, b@), label_text(old(self).labels@, c@)]);
        assert(self.read@ =~= old(self).read@ + key_read(a@) + key_read(b@) + key_read(c@));
        headers
    }

    fn two_headers(&mut self, a: &str, b: &str) -> (r: Vec<String>)
        requires
            old(self).wf(),
        ensures
            final(self).wf(),
            final(self).same_inputs(old(self)),
            strings_view(r@) == seq![label_text(old(self).labels@, a@), label_text(old(self).labels@, b@)],
            final(self).read@ == old(self).read@ + key_read(a@) + key_read(b@),
    {
        let mut headers: Vec<String> = Vec::new();
        headers.push(self.label(a));
        headers.push(self.label(b));
        assert(strings_view(headers@) =~= seq![label_text(old(self).labels@, a@), label_text(old(self).labels@, b@)]);
        assert(self.read@ =~= old(self).read@ + key_read(a@) + key_read(b@));
        headers
    }

    /// The Virtues and Flaws (Boons and Hooks for a covenant) by kind, the
    /// bought ones first and the granted ones in a marked sub-table, then the
    /// point balance of the bought ones against the type's ceilings.
    pub fn write_virtues_flaws(&mut self, out: &mut String)
        requires
            old(self).wf(),
        ensures
            final(self).wf(),
            final(self).same_inputs(old(self)),
            final(out)@ == old(out)@ + virtues_flaws_section(old(self).entity, old(self).ruleset, old(self).labels@),
            final(self).read@ == old(self).read@ + virtues_flaws_reads(old(self).entity, old(self).ruleset, old(self).labels@),
    {
        let e = self.entity;
        let ghost lrs = self.ruleset;
        let ghost labels = self.labels@;
        let granted = entity_grants(e, self.rules());
        let mut body = String::new();
        self.write_item_kind(&mut body, &granted, ItemKind::Virtue, "items-virtues-title");
        assert(body@ =~= item_kind_block(e, lrs, labels, selection_views(granted@), ItemKind::Virtue, "items-virtues-title"@));
        self.write_item_kind(&mut body, &granted, ItemKind::Flaw, "items-flaws-title");
        self.write_item_kind(&mut body, &granted, ItemKind::Boon, "export-items-boons");
        self.write_item_kind(&mut body, &granted, ItemKind::Hook, "export-items-hooks");
        if body.as_str().is_empty() {
            assert(self.read@ =~= old(self).read@ + virtues_flaws_reads(e, lrs, labels));
            return;
        }
        let ghost start = out@;
        self.section(out, 2, "tab-virtues-flaws");
        out.append(body.as_str());
        let ghost mut acc = heading_text(labels, 2, "tab-virtues-flaws"@) + body@;
        proof {
            lemma_concat_associative(start, heading_text(labels, 2, "tab-virtues-flaws"@), body@);
        }
        let balance = crate::validation::compute_balance(e, self.rules());
        let ceilings = crate::validation::effective_point_ceilings(e, self.rules());
        let virtues = match ceilings {
            Some(c) => ratio(balance.virtue_points, c.virtue_ceiling),
            None => num(balance.virtue_points as i64),
        };
        self.labelled(out, "items-virtues-title", virtues.as_str());
        proof {
            let piece = bullet(label_text(labels, "items-virtues-title"@), virtues@);
            lemma_concat_associative(start, acc, piece);
            acc = acc + piece;
        }
        let flaws = match ceilings {
            Some(c) => ratio(balance.flaw_points, c.flaw_ceiling),
            None => num(balance.flaw_points as i64),
        };
        self.labelled(out, "items-flaws-title", flaws.as_str());
        proof {
            let piece = bullet(label_text(labels, "items-flaws-title"@), flaws@);
            lemma_concat_associative(start, acc, piece);
            acc = acc + piece;
        }
        out.append("\n");
        proof {
            lemma_concat_associative(start, acc, "\n"@);
        }
        assert(self.read@ =~= old(self).read@ + virtues_flaws_reads(e, lrs, labels));
    }

    /// One kind of Virtue or Flaw: the bought ones, then the granted ones in
    /// a marked sub-table.
    fn write_item_kind(&mut self, out: &mut String, granted: &Vec<Selection>, kind: ItemKind, heading_key: &str)
        requires
            old(self).wf(),
            selection_views(granted@) == entity_grants_spec(old(self).entity, &old(self).ruleset.ruleset),
        ensures
            final(self).wf(),
            final(self).same_inputs(old(self)),
            final(out)@ == old(out)@ + item_kind_block(old(self).entity, old(self).ruleset, old(self).labels@, selection_views(granted@), kind, heading_key@),
            final(self).read@ == old(self).read@ + item_kind_reads(old(self).entity, old(self).ruleset, old(self).labels@, selection_views(granted@), kind, heading_key@),
    {
        let e = self.entity;
        let ghost lrs = self.ruleset;
        let ghost labels = self.labels@;
        let bought = self.item_rows(&e.selections, kind);
        let granted_rows = self.item_rows(granted, kind);
        if bought.len() > 0 || granted_rows.len() > 0 {
            let ghost start = out@;
            self.section(out, 3, heading_key);
            let headers = self.three_headers("identity-name", "export-col-type", "export-col-magnitude");
            table(out, &headers, &bought);
            proof {
                lemma_concat_associative(start, heading_text(labels, 3, heading_key@), table_spec(item_headers(labels), rows_view(bought@)));
            }
            let ghost mid = out@;
            if granted_rows.len() > 0 {
                self.section(out, 4, "export-granted");
                table(out, &headers, &granted_rows);
                proof {
                    lemma_concat_associative(mid, heading_text(labels, 4, "export-granted"@), table_spec(item_headers(labels), rows_view(granted_rows@)));
                }
            }
            proof {
                let head = heading_text(labels, 3, heading_key@) + table_spec(item_headers(labels), rows_view(bought@));
                let tail = if granted_rows@.len() > 0 {
                    heading_text(labels, 4, "export-granted"@) + table_spec(item_headers(labels), rows_view(granted_rows@))
                } else {
                    Seq::empty()
                };
                assert(out@ =~= mid + tail);
                lemma_concat_associative(start, head, tail);
            }
            assert(rows_view(bought@).len() == bought@.len() && rows_view(granted_rows@).len() == granted_rows@.len());
            assert(self.read@ =~= old(self).read@ + item_kind_reads(e, lrs, labels, selection_views(granted@), kind, heading_key@));
        } else {
            assert(out@ =~= old(out)@ + item_kind_block(e, lrs, labels, selection_views(granted@), kind, heading_key@));
            assert(rows_view(bought@).len() == bought@.len() && rows_view(granted_rows@).len() == granted_rows@.len());
            assert(self.read@ =~= old(self).read@ + item_kind_reads(e, lrs, labels, selection_views(granted@), kind, heading_key@));
        }
    }

    /// The bought Abilities, then those a Virtue granted without purchase,
    /// then the experience pools that funded them.
    #[verifier::rlimit(100)]
    #[verifier::spinoff_prover]
    pub fn write_abilities(&mut self, out: &mut String)
        requires
            old(self).wf(),
        ensures
            final(self).wf(),
            final(self).same_inputs(old(self)),
            exists|general: u32, used: u32, pools: Seq<RestrictedXpPool>|
                #[trigger] xp_shown(old(self).entity, &old(self).ruleset.ruleset, general, used, pools)
                && final(out)@ == old(out)@ + abilities_section(old(self).entity, old(self).ruleset, old(self).labels@, general, used, pools)
                && final(self).read@ == old(self).read@ + abilities_reads(old(self).entity, old(self).ruleset, old(self).labels@, general, used, pools),
    {
        let e = self.entity;
        let ghost lrs = self.ruleset;
        let ghost labels = self.labels@;
        let mut rows: Vec<Vec<String>> = Vec::new();
        self.bought_ability_rows(&mut rows);
        self.granted_ability_rows(&mut rows);
        let (general_pool, general_used, restricted) = match checked_xp_allocation(e, self.rules()) {
            Ok(a) => (a.general_pool, a.general_used, a.restricted),
            Err(_) => (0u32, 0u32, Vec::new()),
        };
        assert(xp_shown(e, &lrs.ruleset, general_pool, general_used, restricted@));
        let ghost start = out@;
        let has_xp = general_pool > 0 || general_used > 0 || restricted.len() > 0;
        if rows.len() == 0 && !has_xp {
            assert(out@ == start + abilities_section(e, lrs, labels, general_pool, general_used, restricted@));
            assert(self.read@ =~= old(self).read@ + abilities_reads(e, lrs, labels, general_pool, general_used, restricted@));
            return;
        }
        self.section(out, 2, "abilities-title");
        let mut headers: Vec<String> = Vec::new();
        headers.push(self.label("identity-name"));
        headers.push(self.label("ability-specialty-label"));
        headers.push(self.label("ability-score-label"));
        headers.push(self.label("export-col-effective"));
        proof {
            assert(strings_view(headers@) =~= seq![
                label_text(labels, "identity-name"@),
                label_text(labels, "ability-specialty-label"@),
                label_text(labels, "ability-score-label"@),
                label_text(labels, "export-col-effective"@),
            ]);
        }
        table(out, &headers, &rows);
        self.write_xp_draws(out, general_pool, general_used, &restricted);
        assert(out@ =~= start + abilities_section(e, lrs, labels, general_pool, general_used, restricted@));
        assert(self.read@ =~= old(self).read@ + abilities_reads(e, lrs, labels, general_pool, general_used, restricted@));
    }

    /// A row for every bought Ability, in order.
    fn bought_ability_rows(&mut self, rows: &mut Vec<Vec<String>>)
        requires
            old(self).wf(),
        ensures
            final(self).wf(),
            final(self).same_inputs(old(self)),
            rows_view(final(rows)@) == rows_view(old(rows)@)
                + bought_ability_rows(old(self).entity, old(self).ruleset, old(self).labels@, old(self).entity.ability_scores@),
            final(self).read@ == old(self).read@ + bought_rows_reads(old(self).ruleset, old(self).entity.ability_scores@),
    {
        let e = self.entity;
        let ghost lrs = self.ruleset;
        let ghost labels = self.labels@;
        let ghost start = rows_view(rows@);
        let mut i: usize = 0;
        proof {
            assert(e.ability_scores@.take(0) =~= Seq::<AbilityScore>::empty());
            assert(self.read@ =~= old(self).read@ + bought_rows_reads(lrs, e.ability_scores@.take(0)));
        }
        while i < e.ability_scores.len()
            invariant
                self.wf(),
                self.same_inputs(old(self)),
                e == self.entity,
                lrs == self.ruleset,
                labels == self.labels@,
                i <= e.ability_scores@.len(),
                rows_view(rows@) == start + bought_ability_rows(e, lrs, labels, e.ability_scores@.take(i as int)),
                self.read@ == old(self).read@ + bought_rows_reads(lrs, e.ability_scores@.take(i as int)),
            decreases e.ability_scores.len() - i,
        {
            let bought = &e.ability_scores[i];
            let mut values: Vec<(String, String)> = Vec::new();
            match &bought.parameter {
                Some(parameter) => {
                    let key = match self.rules().ability(bought.ability.as_str()) {
                        Some(def) => match &def.parameter {
                            Some(k) => k.clone(),
                            None => owned("parameter"),
                        },
                        None => owned("parameter"),
                    };
                    values.push((key, self.param_value(parameter.as_str())));
                    proof {
                        assert(pairs_view(values@) =~= seq![(ability_param_key(&lrs.ruleset, bought.ability@), param_text(lrs, parameter@))]);
                    }
                },
                None => {
                    proof {
                        assert(pairs_view(values@) =~= Seq::<(Seq<char>, Seq<char>)>::empty());
                    }
                },
            }
            let score = bought.score as i64;
            let effective = effective_ability_score(e, self.rules(), bought.ability.as_str(), opt_str(&bought.parameter)) as i64;
            let mut row: Vec<String> = Vec::new();
            proof {
                assert(pairs_view(values@) == bought_values(lrs, *bought));
                assert(e.ability_scores@.take(i + 1).drop_last() =~= e.ability_scores@.take(i as int));
            }
            row.push(self.parameterized_name(bought.ability.as_str(), &values));
            assert(self.read@ =~= old(self).read@ + bought_rows_reads(lrs, e.ability_scores@.take(i + 1)));
            row.push(match &bought.specialty {
                Some(s) => escape_cell(s.as_str()),
                None => String::new(),
            });
            row.push(num(score));
            row.push(if effective == score { String::new() } else { num(effective) });
            let ghost before = rows_view(rows@);
            rows.push(row);
            proof {
                assert(strings_view(row@) =~= bought_ability_row(e, lrs, labels, e.ability_scores@[i as int]));
                assert(e.ability_scores@.take(i + 1) =~= e.ability_scores@.take(i as int).push(e.ability_scores@[i as int]));
                assert(rows_view(rows@) =~= before.push(strings_view(row@)));
                assert(bought_ability_rows(e, lrs, labels, e.ability_scores@.take(i + 1))
                    =~= bought_ability_rows(e, lrs, labels, e.ability_scores@.take(i as int)).push(bought_ability_row(e, lrs, labels, e.ability_scores@[i as int])));
            }
            i += 1;
        }
        proof {
            assert(e.ability_scores@.take(e.ability_scores@.len() as int) =~= e.ability_scores@);
        }
        proof {
            assert(e.ability_scores@.take(e.ability_scores@.len() as int) =~= e.ability_scores@);
        }
    }

    /// The general pool's draw and the restricted pools' draws.
    fn write_xp_draws(&mut self, out: &mut String, general: u32, used: u32, pools: &Vec<RestrictedXpPool>)
        requires
            old(self).wf(),
        ensures
            final(self).wf(),
            final(self).same_inputs(old(self)),
            final(out)@ == old(out)@ + xp_draws(old(self).ruleset, old(self).labels@, general, used, pools@),
            final(self).read@ == old(self).read@ + xp_draws_reads(old(self).ruleset, general, used, pools@),
    {
        let ghost lrs = self.ruleset;
        let ghost labels = self.labels@;
        let ghost start = out@;
        let ghost general_part = if general > 0 || used > 0 {
            "- **"@ + label_text(labels, "xp-pool"@) + "**: "@ + ratio_text(used, general) + "\n"@ + "\n"@
        } else {
            Seq::empty()
        };
        if general > 0 || used > 0 {
            let spent = ratio(used, general);
            self.labelled(out, "xp-pool", spent.as_str());
            out.append("\n");
            assert(out@ =~= start + general_part);
        } else {
            assert(out@ =~= start + general_part);
        }
        let ghost after_general = out@;
        if pools.len() == 0 {
            assert(out@ =~= start + xp_draws(lrs, labels, general, used, pools@));
            assert(self.read@ =~= old(self).read@ + xp_draws_reads(lrs, general, used, pools@));
            return;
        }
        let ghost read_g = self.read@;
        self.section(out, 3, "export-xp-restricted");
        let ghost head = out@;
        assert(head == after_general + hashes(3) + " "@ + label_text(labels, "export-xp-restricted"@) + "\n\n"@);
        assert(pools@.take(0) =~= Seq::<RestrictedXpPool>::empty());
        assert(self.read@ =~= read_g + key_read("export-xp-restricted"@) + pool_lines_reads(lrs, pools@.take(0)));
        let mut k: usize = 0;
        while k < pools.len()
            invariant
                self.wf(),
                self.same_inputs(old(self)),
                lrs == self.ruleset,
                labels == self.labels@,
                k <= pools@.len(),
                out@ == head + pool_lines(lrs, labels, pools@.take(k as int)),
                self.read@ == read_g + key_read("export-xp-restricted"@) + pool_lines_reads(lrs, pools@.take(k as int)),
            decreases pools.len() - k,
        {
            proof {
                assert(pools@.take(k + 1).drop_last() =~= pools@.take(k as int));
            }
            let pool = &pools[k];
            let drawn = ratio(pool.used, pool.amount);
            let label = self.restricted_pool_label(pool);
            field(out, label.as_str(), drawn.as_str());
            assert(self.read@ =~= read_g + key_read("export-xp-restricted"@) + pool_lines_reads(lrs, pools@.take(k + 1)));
            k += 1;
        }
        proof {
            assert(pools@.take(pools@.len() as int) =~= pools@);
        }
        let ghost lines = out@;
        out.append("\n");
        proof {
            let restricted_part = hashes(3) + " "@ + label_text(labels, "export-xp-restricted"@) + "\n\n"@ + pool_lines(lrs, labels, pools@) + "\n"@;
            assert(out@ =~= after_general + restricted_part);
            assert(xp_draws(lrs, labels, general, used, pools@) == general_part + restricted_part);
            assert(out@ =~= start + xp_draws(lrs, labels, general, used, pools@));
            assert(self.read@ =~= old(self).read@ + xp_draws_reads(lrs, general, used, pools@));
        }
    }

    /// What to call a restricted pool: a life-stage block by where its
    /// experience came from, a Virtue's grant by what it may buy.
    fn restricted_pool_label(&mut self, pool: &RestrictedXpPool) -> (r: String)
        requires
            old(self).wf(),
        ensures
            final(self).wf(),
            final(self).same_inputs(old(self)),
            r@ == pool_label(old(self).ruleset, old(self).labels@, *pool),
            final(self).read@ == old(self).read@ + pool_label_reads(old(self).ruleset, *pool),
    {
        let ghost lrs = self.ruleset;
        let ghost labels = self.labels@;
        match &pool.origin {
            XpPoolOrigin::LifeStage { block } => {
                let r = self.label2("xp-pool-", block.slug());
                assert(self.read@ =~= old(self).read@ + pool_label_reads(lrs, *pool));
                return r;
            },
            XpPoolOrigin::Item { item } => {},
        }
        let mut eligibility: Vec<String> = Vec::new();
        let none: Vec<(String, String)> = Vec::new();
        proof {
            assert(pairs_view(none@) =~= Seq::<(Seq<char>, Seq<char>)>::empty());
            assert(pool.abilities@.take(0) =~= Seq::<Id>::empty());
            assert(self.read@ =~= old(self).read@ + ability_names_reads(lrs, pool.abilities@.take(0)));
        }
        let mut i: usize = 0;
        while i < pool.abilities.len()
            invariant
                self.wf(),
                self.same_inputs(old(self)),
                lrs == self.ruleset,
                labels == self.labels@,
                none@.len() == 0,
                pairs_view(none@) == Seq::<(Seq<char>, Seq<char>)>::empty(),
                i <= pool.abilities@.len(),
                strings_view(eligibility@) == pool.abilities@.take(i as int).map_values(|a: Id| filled_template(name_text(lrs, a@), Seq::empty(), labels)),
                self.read@ == old(self).read@ + ability_names_reads(lrs, pool.abilities@.take(i as int)),
            decreases pool.abilities.len() - i,
        {
            let ghost before = eligibility@;
            eligibility.push(self.parameterized_name(pool.abilities[i].as_str(), &none));
            proof {
                assert(strings_view(eligibility@) =~= strings_view(before).push(filled_template(name_text(lrs, pool.abilities@[i as int]@), Seq::empty(), labels)));
                assert(pool.abilities@.take(i + 1).map_values(|a: Id| filled_template(name_text(lrs, a@), Seq::empty(), labels))
                    =~= pool.abilities@.take(i as int).map_values(|a: Id| filled_template(name_text(lrs, a@), Seq::empty(), labels)).push(filled_template(name_text(lrs, pool.abilities@[i as int]@), Seq::empty(), labels)));
                assert(pool.abilities@.take(i + 1).drop_last() =~= pool.abilities@.take(i as int));
                assert(self.read@ =~= old(self).read@ + ability_names_reads(lrs, pool.abilities@.take(i + 1)));
            }
            i += 1;
        }
        let ghost names = strings_view(eligibility@);
        proof {
            assert(pool.abilities@.take(pool.abilities@.len() as int) =~= pool.abilities@);
            assert(category_keys(pool.categories@).take(0) =~= Seq::<Seq<char>>::empty());
            assert(keys_of(category_keys(pool.categories@).take(0)) =~= Set::<(bool, Seq<char>)>::empty());
            assert(self.read@ =~= old(self).read@ + ability_names_reads(lrs, pool.abilities@) + keys_of(category_keys(pool.categories@).take(0)));
        }
        let mut j: usize = 0;
        while j < pool.categories.len()
            invariant
                self.wf(),
                self.same_inputs(old(self)),
                lrs == self.ruleset,
                labels == self.labels@,
                j <= pool.categories@.len(),
                strings_view(eligibility@) == names + pool.categories@.take(j as int).map_values(|c: AbilityCategory| label_text(labels, "ability-category-"@ + c.slug_spec())),
                self.read@ == old(self).read@ + ability_names_reads(lrs, pool.abilities@) + keys_of(category_keys(pool.categories@).take(j as int)),
            decreases pool.categories.len() - j,
        {
            let ghost before = eligibility@;
            eligibility.push(self.label2("ability-category-", pool.categories[j].slug()));
            proof {
                assert(strings_view(eligibility@) =~= strings_view(before).push(label_text(labels, "ability-category-"@ + pool.categories@[j as int].slug_spec())));
                assert(pool.categories@.take(j + 1).map_values(|c: AbilityCategory| label_text(labels, "ability-category-"@ + c.slug_spec()))
                    =~= pool.categories@.take(j as int).map_values(|c: AbilityCategory| label_text(labels, "ability-category-"@ + c.slug_spec())).push(label_text(labels, "ability-category-"@ + pool.categories@[j as int].slug_spec())));
                lemma_keys_of_step(category_keys(pool.categories@), j as int);
                assert(category_keys(pool.categories@)[j as int] == "ability-category-"@ + pool.categories@[j as int].slug_spec());
                assert(self.read@ =~= old(self).read@ + ability_names_reads(lrs, pool.abilities@) + keys_of(category_keys(pool.categories@).take(j + 1)));
            }
            j += 1;
        }
        proof {
            assert(pool.categories@.take(pool.categories@.len() as int) =~= pool.categories@);
            assert(strings_view(eligibility@) =~= pool_eligibility(lrs, labels, *pool));
        }
        let sep = self.list_separator();
        proof {
            assert(category_keys(pool.categories@).take(pool.categories@.len() as int) =~= category_keys(pool.categories@));
            assert(self.read@ =~= old(self).read@ + pool_label_reads(lrs, *pool));
        }
        join(&eligibility, sep.as_str())
    }

    /// A row for every Ability a Virtue seeded with a free score that the
    /// entity has not also bought (as the parameterless instance), in id
    /// order.
    fn granted_ability_rows(&mut self, rows: &mut Vec<Vec<String>>)
        requires
            old(self).wf(),
        ensures
            final(self).wf(),
            final(self).same_inputs(old(self)),
            rows_view(final(rows)@) == rows_view(old(rows)@)
                + granted_ability_rows(old(self).entity, old(self).ruleset, old(self).labels@, floors_spec(old(self).entity, &old(self).ruleset.ruleset)),
            final(self).read@ == old(self).read@ + granted_rows_reads(old(self).entity, old(self).ruleset, floors_spec(old(self).entity, &old(self).ruleset.ruleset)),
    {
        let e = self.entity;
        let ghost lrs = self.ruleset;
        let ghost labels = self.labels@;
        let ghost start = rows_view(rows@);
        let floors = ability_score_floors(e, self.rules());
        let ghost fs = floors_spec(e, &lrs.ruleset);
        let none: Vec<(String, String)> = Vec::new();
        proof {
            assert(pairs_view(none@) =~= Seq::<(Seq<char>, Seq<char>)>::empty());
            assert(fs.len() == floors@.len());
            assert(fs.take(0) =~= Seq::<(Seq<char>, i32)>::empty());
            assert(self.read@ =~= old(self).read@ + granted_rows_reads(e, lrs, fs.take(0)));
            assert forall|h: int| 0 <= h < floors@.len() implies #[trigger] floors@[h].ability@ == fs[h].0 by {
                assert(floors@.map_values(|f: AbilityFloor| (f.ability@, f.floor))[h] == (floors@[h].ability@, floors@[h].floor));
            }
        }
        let mut i: usize = 0;
        while i < floors.len()
            invariant
                self.wf(),
                self.same_inputs(old(self)),
                e == self.entity,
                lrs == self.ruleset,
                labels == self.labels@,
                pairs_view(none@) == Seq::<(Seq<char>, Seq<char>)>::empty(),
                fs.len() == floors@.len(),
                forall|h: int| 0 <= h < floors@.len() ==> #[trigger] floors@[h].ability@ == fs[h].0,
                i <= floors@.len(),
                rows_view(rows@) == start + granted_ability_rows(e, lrs, labels, fs.take(i as int)),
                self.read@ == old(self).read@ + granted_rows_reads(e, lrs, fs.take(i as int)),
            decreases floors.len() - i,
        {
            proof {
                assert(fs.take(i + 1).drop_last() =~= fs.take(i as int));
            }
            let floor = &floors[i];
            let mut bought_too = false;
            let mut j: usize = 0;
            while j < e.ability_scores.len()
                invariant
                    j <= e.ability_scores@.len(),
                    bought_too == exists|k: int| 0 <= k < j && #[trigger] e.ability_scores@[k].ability@ == floor.ability@ && e.ability_scores@[k].parameter is None,
                decreases e.ability_scores.len() - j,
            {
                let b = &e.ability_scores[j];
                if str_eq(b.ability.as_str(), floor.ability.as_str()) && b.parameter.is_none() {
                    bought_too = true;
                }
                j += 1;
            }
            let ghost before = rows_view(rows@);
            if !bought_too {
                let effective = effective_ability_score(e, self.rules(), floor.ability.as_str(), None) as i64;
                let mut row: Vec<String> = Vec::new();
                row.push(self.parameterized_name(floor.ability.as_str(), &none));
                row.push(String::new());
                row.push(owned("0"));
                row.push(if effective == 0 { String::new() } else { num(effective) });
                rows.push(row);
                proof {
                    assert(strings_view(row@) =~= granted_ability_row(e, lrs, labels, fs[i as int].0));
                    assert(rows_view(rows@) =~= before.push(strings_view(row@)));
                }
            }
            assert(self.read@ =~= old(self).read@ + granted_rows_reads(e, lrs, fs.take(i + 1)));
            i += 1;
        }
        proof {
            assert(fs.take(floors@.len() as int) =~= fs);
        }
    }

    /// The Hermetic Arts, Techniques then Forms, every catalogue Art a row,
    /// once the entity scores an Art the catalogue holds.
    pub fn write_arts(&mut self, out: &mut String)
        requires
            old(self).wf(),
        ensures
            final(self).wf(),
            final(self).same_inputs(old(self)),
            final(out)@ == old(out)@ + arts_section(old(self).entity, old(self).ruleset, old(self).labels@),
            final(self).read@ == old(self).read@ + arts_reads(old(self).entity, old(self).ruleset),
    {
        let e = self.entity;
        let mut known = false;
        let mut i: usize = 0;
        while i < e.art_scores.len()
            invariant
                i <= e.art_scores@.len(),
                e == self.entity,
                known == exists|k: int| 0 <= k < i && #[trigger] find(self.ruleset.ruleset.arts@, e.art_scores@[k].art@) is Some,
            decreases e.art_scores.len() - i,
        {
            if self.rules().art(e.art_scores[i].art.as_str()).is_some() {
                known = true;
            }
            i += 1;
        }
        if !known {
            assert(self.read@ =~= old(self).read@ + arts_reads(e, self.ruleset));
            return;
        }
        self.section(out, 2, "tab-arts");
        self.write_art_type(out, ArtType::Technique);
        self.write_art_type(out, ArtType::Form);
        assert(self.read@ =~= old(self).read@ + arts_reads(e, self.ruleset));
    }

    /// The table of one class of Arts under its heading; nothing when the
    /// catalogue holds none of that class.
    fn write_art_type(&mut self, out: &mut String, art_type: ArtType)
        requires
            old(self).wf(),
        ensures
            final(self).wf(),
            final(self).same_inputs(old(self)),
            final(out)@ == old(out)@ + art_type_block(old(self).entity, old(self).ruleset, old(self).labels@, art_type),
            final(self).read@ == old(self).read@ + art_type_reads(old(self).ruleset, art_type),
    {
        let e = self.entity;
        let ghost lrs = self.ruleset;
        let ghost labels = self.labels@;
        let ids = art_ids_of(self.rules(), art_type);
        let ghost spec_ids = arts_of(&lrs.ruleset, art_type);
        let mut rows: Vec<Vec<String>> = Vec::new();
        proof {
            assert(id_texts(spec_ids).take(0) =~= Seq::<Seq<char>>::empty());
            assert(self.read@ =~= old(self).read@ + ids_of(id_texts(spec_ids).take(0)));
        }
        let mut k: usize = 0;
        while k < ids.len()
            invariant
                self.wf(),
                self.same_inputs(old(self)),
                e == self.entity,
                lrs == self.ruleset,
                k <= ids@.len(),
                ids@.len() == spec_ids.len(),
                forall|h: int| 0 <= h < ids@.len() ==> #[trigger] ids@[h]@ == spec_ids[h]@,
                rows_view(rows@) == art_rows(e, lrs, spec_ids.take(k as int)),
                self.read@ == old(self).read@ + ids_of(id_texts(spec_ids).take(k as int)),
            decreases ids.len() - k,
        {
            let art = ids[k].as_str();
            let mut score: i64 = 0;
            let mut j: usize = 0;
            let mut found = false;
            proof {
                assert(e.art_scores@.skip(0) =~= e.art_scores@);
            }
            while j < e.art_scores.len()
                invariant
                    j <= e.art_scores@.len(),
                    !found ==> score == 0,
                    (if found { score as int } else { first_art_score(e.art_scores@.skip(j as int), art@) }) == first_art_score(e.art_scores@, art@),
                decreases e.art_scores.len() - j,
            {
                proof {
                    assert(e.art_scores@.skip(j as int).drop_first() =~= e.art_scores@.skip(j + 1));
                }
                if !found && str_eq(e.art_scores[j].art.as_str(), art) {
                    score = e.art_scores[j].score as i64;
                    found = true;
                }
                j += 1;
            }
            proof {
                assert(e.art_scores@.skip(j as int) =~= Seq::<crate::entity::ArtScore>::empty());
            }
            let effective = effective_art_score(e, self.rules(), art) as i64;
            let n = self.name(art);
            let mut row: Vec<String> = Vec::new();
            row.push(escape_cell(n.as_str()));
            row.push(num(score));
            row.push(if effective == score { String::new() } else { num(effective) });
            let ghost before = rows@;
            rows.push(row);
            proof {
                assert(art@ == spec_ids[k as int]@);
                assert(score == first_art_score(e.art_scores@, art@));
                assert(n@ == name_text(lrs, art@));
                assert(effective == effective_art_spec(e, &lrs.ruleset, art@) as int);
                assert(strings_view(row@) =~= art_row(e, lrs, spec_ids[k as int]@));
                assert(spec_ids.take(k + 1) =~= spec_ids.take(k as int).push(spec_ids[k as int]));
                assert(rows_view(rows@) =~= rows_view(before).push(strings_view(row@)));
                assert(art_rows(e, lrs, spec_ids.take(k + 1)) =~= art_rows(e, lrs, spec_ids.take(k as int)).push(art_row(e, lrs, spec_ids[k as int]@)));
                lemma_keys_of_step(id_texts(spec_ids), k as int);
                assert(self.read@ =~= old(self).read@ + ids_of(id_texts(spec_ids).take(k + 1)));
            }
            k += 1;
        }
        proof {
            assert(spec_ids.take(ids@.len() as int) =~= spec_ids);
        }
        proof {
            assert(id_texts(spec_ids).take(spec_ids.len() as int) =~= id_texts(spec_ids));
            assert(rows_view(rows@).len() == rows@.len());
        }
        if rows.len() > 0 {
            let key = crate::text::concat("art-type-", art_type.slug());
            self.section(out, 3, key.as_str());
            let headers = self.three_headers("identity-name", "ability-score-label", "export-col-effective");
            table(out, &headers, &rows);
        }
        assert(self.read@ =~= old(self).read@ + art_type_reads(lrs, art_type));
    }

    /// The spells the entity knows, each with its Art-and-level code, its
    /// Mastery and its mastery Abilities.
    pub fn write_spells(&mut self, out: &mut String)
        requires
            old(self).wf(),
        ensures
            final(self).wf(),
            final(self).same_inputs(old(self)),
            final(out)@ == old(out)@ + spells_section(old(self).entity, old(self).ruleset, old(self).labels@),
            final(self).read@ == old(self).read@ + spells_reads(old(self).entity, old(self).ruleset),
    {
        let e = self.entity;
        let ghost lrs = self.ruleset;
        let ghost labels = self.labels@;
        let mut rows: Vec<Vec<String>> = Vec::new();
        let mut i: usize = 0;
        proof {
            assert(e.spells@.take(0) =~= Seq::<SpellSelection>::empty());
            assert(self.read@ =~= old(self).read@ + spell_rows_reads(lrs, e.spells@.take(0)));
        }
        while i < e.spells.len()
            invariant
                self.wf(),
                self.same_inputs(old(self)),
                e == self.entity,
                lrs == self.ruleset,
                labels == self.labels@,
                i <= e.spells@.len(),
                rows_view(rows@) == e.spells@.take(i as int).map_values(|c: SpellSelection| spell_row(e, lrs, labels, c)),
                self.read@ == old(self).read@ + spell_rows_reads(lrs, e.spells@.take(i as int)),
            decreases e.spells.len() - i,
        {
            let chosen = &e.spells[i];
            let row = self.spell_row(chosen);
            let ghost before = rows_view(rows@);
            rows.push(row);
            proof {
                assert(rows_view(rows@) =~= before.push(spell_row(e, lrs, labels, *chosen)));
                assert(e.spells@.take(i + 1).map_values(|c: SpellSelection| spell_row(e, lrs, labels, c))
                    =~= e.spells@.take(i as int).map_values(|c: SpellSelection| spell_row(e, lrs, labels, c)).push(spell_row(e, lrs, labels, *chosen)));
                assert(e.spells@.take(i + 1).drop_last() =~= e.spells@.take(i as int));
                assert(self.read@ =~= old(self).read@ + spell_rows_reads(lrs, e.spells@.take(i + 1)));
            }
            i += 1;
        }
        proof {
            assert(e.spells@.take(e.spells@.len() as int) =~= e.spells@);
        }
        if rows.len() == 0 {
            assert(self.read@ =~= old(self).read@ + spells_reads(e, lrs));
            return;
        }
        self.section(out, 2, "tab-spells");
        let mut headers: Vec<String> = Vec::new();
        headers.push(self.label("identity-name"));
        headers.push(self.label("export-col-spell-code"));
        headers.push(self.label("spell-mastery-label"));
        headers.push(self.label("spell-mastery-abilities-label"));
        proof {
            assert(strings_view(headers@) =~= seq![
                label_text(labels, "identity-name"@),
                label_text(labels, "export-col-spell-code"@),
                label_text(labels, "spell-mastery-label"@),
                label_text(labels, "spell-mastery-abilities-label"@),
            ]);
        }
        table(out, &headers, &rows);
        proof {
            lemma_concat_associative(old(out)@, heading_text(labels, 2, "tab-spells"@), table_spec(strings_view(headers@), rows_view(rows@)));
        }
        assert(self.read@ =~= old(self).read@ + spells_reads(e, lrs));
    }

    /// A known spell's row.
    fn spell_row(&mut self, chosen: &SpellSelection) -> (r: Vec<String>)
        requires
            old(self).wf(),
        ensures
            final(self).wf(),
            final(self).same_inputs(old(self)),
            strings_view(r@) == spell_row(old(self).entity, old(self).ruleset, old(self).labels@, *chosen),
            final(self).read@ == old(self).read@ + spell_row_reads(old(self).ruleset, *chosen),
    {
        let e = self.entity;
        let ghost lrs = self.ruleset;
        let ghost labels = self.labels@;
        let mut values: Vec<(String, String)> = Vec::new();
        match &chosen.parameter {
            Some(parameter) => {
                let key = match self.rules().spell(chosen.spell.as_str()) {
                    Some(s) => if s.parameters.len() > 0 { s.parameters[0].key.clone() } else { owned("parameter") },
                    None => owned("parameter"),
                };
                values.push((key, self.param_value(parameter.as_str())));
                proof {
                    assert(pairs_view(values@) =~= seq![(spell_param_key(&lrs.ruleset, chosen.spell@), param_text(lrs, parameter@))]);
                }
            },
            None => {
                proof {
                    assert(pairs_view(values@) =~= Seq::<(Seq<char>, Seq<char>)>::empty());
                }
            },
        }
        let mastery = effective_spell_mastery(chosen, e, self.rules());
        let mut abilities: Vec<String> = Vec::new();
        proof {
            assert(id_texts(chosen.mastery_abilities@).take(0) =~= Seq::<Seq<char>>::empty());
            assert(self.read@ =~= old(self).read@ + ids_of(id_texts(chosen.mastery_abilities@).take(0)));
        }
        let mut k: usize = 0;
        while k < chosen.mastery_abilities.len()
            invariant
                self.wf(),
                self.same_inputs(old(self)),
                lrs == self.ruleset,
                k <= chosen.mastery_abilities@.len(),
                strings_view(abilities@) == chosen.mastery_abilities@.take(k as int).map_values(|id: Id| escape_spec(name_text(lrs, id@))),
                self.read@ == old(self).read@ + ids_of(id_texts(chosen.mastery_abilities@).take(k as int)),
            decreases chosen.mastery_abilities.len() - k,
        {
            let ghost before = abilities@;
            let n = self.name(chosen.mastery_abilities[k].as_str());
            abilities.push(escape_cell(n.as_str()));
            proof {
                let x = escape_spec(name_text(lrs, chosen.mastery_abilities@[k as int]@));
                assert(strings_view(abilities@) =~= strings_view(before).push(x));
                assert(chosen.mastery_abilities@.take(k + 1).map_values(|id: Id| escape_spec(name_text(lrs, id@)))
                    =~= chosen.mastery_abilities@.take(k as int).map_values(|id: Id| escape_spec(name_text(lrs, id@))).push(x));
                lemma_keys_of_step(id_texts(chosen.mastery_abilities@), k as int);
                assert(self.read@ =~= old(self).read@ + ids_of(id_texts(chosen.mastery_abilities@).take(k + 1)));
            }
            k += 1;
        }
        proof {
            assert(chosen.mastery_abilities@.take(chosen.mastery_abilities@.len() as int) =~= chosen.mastery_abilities@);
            assert(id_texts(chosen.mastery_abilities@).take(chosen.mastery_abilities@.len() as int) =~= id_texts(chosen.mastery_abilities@));
            assert(pairs_view(values@) == spell_values(lrs, *chosen));
        }
        let mut row: Vec<String> = Vec::new();
        row.push(self.parameterized_name(chosen.spell.as_str(), &values));
        row.push(self.spell_code(chosen));
        row.push(if mastery == 0 { String::new() } else { num(mastery as i64) });
        let sep = self.list_separator();
        row.push(join(&abilities, sep.as_str()));
        assert(strings_view(row@) =~= spell_row(e, lrs, labels, *chosen));
        assert(self.read@ =~= old(self).read@ + spell_row_reads(lrs, *chosen));
        row
    }

    /// A spell's Technique and Form abbreviations and its resolved level
    /// (`CrIg20`); an unresolved General level shows its marker a space apart;
    /// a spell no catalogue holds has an empty code.
    fn spell_code(&mut self, chosen: &SpellSelection) -> (r: String)
        requires
            old(self).wf(),
        ensures
            final(self).wf(),
            final(self).same_inputs(old(self)),
            r@ == spell_code_text(old(self).ruleset, old(self).labels@, *chosen),
            final(self).read@ == old(self).read@ + spell_code_reads(old(self).ruleset, *chosen),
    {
        let spell = match self.rules().spell(chosen.spell.as_str()) {
            Some(s) => s,
            None => {
                assert(self.read@ =~= old(self).read@ + spell_code_reads(self.ruleset, *chosen));
                return String::new();
            },
        };
        let level = match resolved_spell_level(chosen, self.rules()) {
            Some(l) => num(l as i64),
            None => {
                let mut s = owned(" ");
                let g = self.label("spell-level-general");
                s.append(g.as_str());
                s
            },
        };
        let mut code = self.art_code(spell.technique.as_str());
        let f = self.art_code(spell.form.as_str());
        code.append(f.as_str());
        code.append(level.as_str());
        assert(self.read@ =~= old(self).read@ + spell_code_reads(self.ruleset, *chosen));
        code
    }

    /// Which catalogue holds `id`: weapons, then shields, then armor.
    fn carried_class(&self, id: &str) -> (r: Option<Carried>)
        ensures
            r == carried_class_spec(&self.ruleset.ruleset, id@),
    {
        if self.rules().weapon(id).is_some() {
            Some(Carried::Weapon)
        } else if self.rules().shield(id).is_some() {
            Some(Carried::Shield)
        } else if self.rules().armor_item(id).is_some() {
            Some(Carried::Armor)
        } else {
            None
        }
    }

    /// The carried equipment, grouped weapons, shields, armor, with the
    /// equipped marker; an uncatalogued id is not printed.
    pub fn write_equipment(&mut self, out: &mut String)
        requires
            old(self).wf(),
        ensures
            final(self).wf(),
            final(self).same_inputs(old(self)),
            final(out)@ == old(out)@ + equipment_section(old(self).entity, old(self).ruleset, old(self).labels@),
            final(self).read@ == old(self).read@ + equipment_reads(old(self).entity, old(self).ruleset, old(self).labels@),
    {
        let e = self.entity;
        let ghost lrs = self.ruleset;
        let ghost labels = self.labels@;
        let mut body = String::new();
        self.write_carried(&mut body, Carried::Weapon, "equipment-group-weapons");
        assert(body@ =~= carried_block(lrs, labels, e.equipment@, Carried::Weapon, "equipment-group-weapons"@));
        self.write_carried(&mut body, Carried::Shield, "equipment-group-shields");
        self.write_carried(&mut body, Carried::Armor, "equipment-group-armor");
        if body.as_str().is_empty() {
            assert(equipment_section(e, lrs, labels).len() == 0);
            assert(self.read@ =~= old(self).read@ + equipment_reads(e, lrs, labels));
            return;
        }
        self.section(out, 2, "tab-equipment");
        out.append(body.as_str());
        proof {
            lemma_concat_associative(old(out)@, heading_text(labels, 2, "tab-equipment"@), body@);
        }
        assert(self.read@ =~= old(self).read@ + equipment_reads(e, lrs, labels));
    }

    /// The carried items of one class under its heading.
    fn write_carried(&mut self, out: &mut String, class: Carried, key: &str)
        requires
            old(self).wf(),
        ensures
            final(self).wf(),
            final(self).same_inputs(old(self)),
            final(out)@ == old(out)@ + carried_block(old(self).ruleset, old(self).labels@, old(self).entity.equipment@, class, key@),
            final(self).read@ == old(self).read@ + carried_block_reads(old(self).ruleset, old(self).labels@, old(self).entity.equipment@, class, key@),
    {
        let e = self.entity;
        let ghost lrs = self.ruleset;
        let ghost labels = self.labels@;
        let mut rows: Vec<Vec<String>> = Vec::new();
        let mut i: usize = 0;
        proof {
            assert(e.equipment@.take(0) =~= Seq::<EquipmentSlot>::empty());
            assert(self.read@ =~= old(self).read@ + carried_reads(lrs, e.equipment@.take(0), class));
        }
        while i < e.equipment.len()
            invariant
                self.wf(),
                self.same_inputs(old(self)),
                e == self.entity,
                lrs == self.ruleset,
                labels == self.labels@,
                i <= e.equipment@.len(),
                rows_view(rows@) == carried_rows(lrs, labels, e.equipment@.take(i as int), class),
                self.read@ == old(self).read@ + carried_reads(lrs, e.equipment@.take(i as int), class),
            decreases e.equipment.len() - i,
        {
            proof {
                assert(e.equipment@.take(i + 1).drop_last() =~= e.equipment@.take(i as int));
            }
            let slot = &e.equipment[i];
            let matches = match self.carried_class(slot.item.as_str()) {
                Some(c2) => c2 == class,
                None => false,
            };
            let ghost before = rows_view(rows@);
            if matches {
                let n = self.name(slot.item.as_str());
                let mut row: Vec<String> = Vec::new();
                row.push(escape_cell(n.as_str()));
                row.push(self.label(if slot.equipped { "export-yes" } else { "export-no" }));
                rows.push(row);
                proof {
                    assert(strings_view(row@) =~= seq![
                        escape_spec(name_text(lrs, slot.item@)),
                        label_text(labels, if slot.equipped { "export-yes"@ } else { "export-no"@ }),
                    ]);
                    assert(rows_view(rows@) =~= before.push(strings_view(row@)));
                }
            }
            assert(self.read@ =~= old(self).read@ + carried_reads(lrs, e.equipment@.take(i + 1), class));
            i += 1;
        }
        proof {
            assert(e.equipment@.take(e.equipment@.len() as int) =~= e.equipment@);
        }
        if rows.len() > 0 {
            self.section(out, 3, key);
            let headers = self.two_headers("identity-name", "equipment-equipped-label");
            table(out, &headers, &rows);
            proof {
                lemma_concat_associative(old(out)@, heading_text(labels, 3, key@), table_spec(strings_view(headers@), rows_view(rows@)));
            }
        }
        assert(rows_view(rows@).len() == rows@.len());
        assert(self.read@ =~= old(self).read@ + carried_block_reads(lrs, labels, e.equipment@, class, key@));
    }

    /// A combat line's name: the weapon, joined to each shield it folds in.
    fn combat_line_name(&mut self, line: &CombatLine) -> (r: String)
        requires
            old(self).wf(),
        ensures
            final(self).wf(),
            final(self).same_inputs(old(self)),
            r@ == line_name(old(self).ruleset, old(self).labels@, line_shape(*line)),
            final(self).read@ == old(self).read@ + line_name_reads(line_shape(*line)),
    {
        let ghost lrs = self.ruleset;
        let ghost labels = self.labels@;
        let ghost shape = line_shape(*line);
        if line.shields.len() == 0 {
            let r = self.name(line.weapon.as_str());
            assert(self.read@ =~= old(self).read@ + line_name_reads(shape));
            return r;
        }
        let mut joiner = owned(" ");
        let j = self.label("derived-combat-shield-joiner");
        joiner.append(j.as_str());
        joiner.append(" ");
        let mut parts: Vec<String> = Vec::new();
        parts.push(self.name(line.weapon.as_str()));
        proof {
            assert(strings_view(parts@) =~= seq![name_text(lrs, line.weapon@)] + shape.shields.take(0).map_values(|x: Seq<char>| name_text(lrs, x)));
            assert(shape.shields.take(0) =~= Seq::<Seq<char>>::empty());
            assert(self.read@ =~= old(self).read@ + key_read("derived-combat-shield-joiner"@) + id_read(line.weapon@) + ids_of(shape.shields.take(0)));
        }
        let mut i: usize = 0;
        while i < line.shields.len()
            invariant
                self.wf(),
                self.same_inputs(old(self)),
                lrs == self.ruleset,
                shape == line_shape(*line),
                i <= line.shields@.len(),
                strings_view(parts@) == seq![name_text(lrs, line.weapon@)] + shape.shields.take(i as int).map_values(|x: Seq<char>| name_text(lrs, x)),
                self.read@ == old(self).read@ + key_read("derived-combat-shield-joiner"@) + id_read(line.weapon@) + ids_of(shape.shields.take(i as int)),
            decreases line.shields.len() - i,
        {
            let ghost before = strings_view(parts@);
            parts.push(self.name(line.shields[i].as_str()));
            proof {
                let x = name_text(lrs, line.shields@[i as int]@);
                assert(shape.shields[i as int] == line.shields@[i as int]@);
                lemma_keys_of_step(shape.shields, i as int);
                assert(self.read@ =~= old(self).read@ + key_read("derived-combat-shield-joiner"@) + id_read(line.weapon@) + ids_of(shape.shields.take(i + 1)));
                assert(strings_view(parts@) =~= before.push(x));
                assert(shape.shields.take(i + 1).map_values(|y: Seq<char>| name_text(lrs, y))
                    =~= shape.shields.take(i as int).map_values(|y: Seq<char>| name_text(lrs, y)).push(x));
            }
            i += 1;
        }
        proof {
            assert(shape.shields.take(line.shields@.len() as int) =~= shape.shields);
        }
        assert(shape.shields.take(shape.shields.len() as int) =~= shape.shields);
        assert(self.read@ =~= old(self).read@ + line_name_reads(shape));
        join(&parts, joiner.as_str())
    }

    /// One or two combat lines per equipped weapon.
    pub fn write_combat(&mut self, out: &mut String)
        requires
            old(self).wf(),
        ensures
            final(self).wf(),
            final(self).same_inputs(old(self)),
            final(out)@ == old(out)@ + combat_section(old(self).entity, old(self).ruleset, old(self).labels@),
            final(self).read@ == old(self).read@ + combat_reads(old(self).entity, old(self).ruleset),
    {
        let ghost lrs = self.ruleset;
        let ghost labels = self.labels@;
        let lines = combat_totals(self.entity, self.rules());
        let ghost shapes = lines@.map_values(|l: CombatLine| line_shape(l));
        if lines.len() == 0 {
            assert(self.read@ =~= old(self).read@ + combat_reads(self.entity, lrs));
            return;
        }
        let mut rows: Vec<Vec<String>> = Vec::new();
        let mut i: usize = 0;
        proof {
            assert(shapes.take(0) =~= Seq::<LineShape>::empty());
            assert(self.read@ =~= old(self).read@ + combat_rows_reads(shapes.take(0)));
        }
        while i < lines.len()
            invariant
                self.wf(),
                self.same_inputs(old(self)),
                lrs == self.ruleset,
                labels == self.labels@,
                shapes == lines@.map_values(|l: CombatLine| line_shape(l)),
                i <= lines@.len(),
                rows_view(rows@) == shapes.take(i as int).map_values(|l: LineShape| combat_row(lrs, labels, l)),
                self.read@ == old(self).read@ + combat_rows_reads(shapes.take(i as int)),
            decreases lines.len() - i,
        {
            let line = &lines[i];
            let name = self.combat_line_name(line);
            let ability = self.name(line.ability.as_str());
            let mut row: Vec<String> = Vec::new();
            row.push(escape_cell(name.as_str()));
            row.push(escape_cell(ability.as_str()));
            row.push(num(line.initiative));
            row.push(optional(line.attack));
            row.push(num(line.defense));
            row.push(optional(line.damage));
            row.push(match line.range {
                Some(r) => num(r as i64),
                None => String::new(),
            });
            let ghost before = rows_view(rows@);
            rows.push(row);
            proof {
                assert(shapes[i as int] == line_shape(*line));
                assert(strings_view(row@) =~= combat_row(lrs, labels, line_shape(*line)));
                assert(rows_view(rows@) =~= before.push(strings_view(row@)));
                assert(shapes.take(i + 1).map_values(|l: LineShape| combat_row(lrs, labels, l))
                    =~= shapes.take(i as int).map_values(|l: LineShape| combat_row(lrs, labels, l)).push(combat_row(lrs, labels, shapes[i as int])));
                assert(shapes.take(i + 1).drop_last() =~= shapes.take(i as int));
                assert(self.read@ =~= old(self).read@ + combat_rows_reads(shapes.take(i + 1)));
            }
            i += 1;
        }
        proof {
            assert(shapes.take(lines@.len() as int) =~= shapes);
        }
        self.section(out, 2, "derived-section-combat");
        let mut headers: Vec<String> = Vec::new();
        headers.push(self.label("identity-name"));
        headers.push(self.label("param-label-ability"));
        headers.push(self.label("derived-combat-init"));
        headers.push(self.label("derived-combat-attack"));
        headers.push(self.label("derived-combat-defense"));
        headers.push(self.label("derived-combat-damage"));
        headers.push(self.label("derived-range"));
        proof {
            assert(strings_view(headers@) =~= seq![
                label_text(labels, "identity-name"@),
                label_text(labels, "param-label-ability"@),
                label_text(labels, "derived-combat-init"@),
                label_text(labels, "derived-combat-attack"@),
                label_text(labels, "derived-combat-defense"@),
                label_text(labels, "derived-combat-damage"@),
                label_text(labels, "derived-range"@),
            ]);
        }
        table(out, &headers, &rows);
        proof {
            lemma_concat_associative(old(out)@, heading_text(labels, 2, "derived-section-combat"@), table_spec(strings_view(headers@), rows_view(rows@)));
        }
        assert(shapes == combat_lines_spec(self.entity, &lrs.ruleset));
        assert(self.read@ =~= old(self).read@ + combat_reads(self.entity, lrs));
    }

    /// The Soak breakdown: each labelled addend, then the total.
    pub fn write_soak(&mut self, out: &mut String)
        requires
            old(self).wf(),
        ensures
            final(self).wf(),
            final(self).same_inputs(old(self)),
            final(out)@ == old(out)@ + soak_section(old(self).entity, &old(self).ruleset.ruleset, old(self).labels@),
            final(self).read@ == old(self).read@ + soak_reads(old(self).entity, &old(self).ruleset.ruleset),
    {
        let ghost labels = self.labels@;
        let ghost adds = soak_addends_spec(self.entity, &self.ruleset.ruleset);
        let total = soak(self.entity, self.rules());
        let mut all_zero = true;
        let mut i: usize = 0;
        while i < total.addends.len()
            invariant
                i <= total.addends@.len(),
                total.addends@.len() == adds.len(),
                forall|h: int| 0 <= h < total.addends@.len() ==> (#[trigger] total.addends@[h]).value == adds[h].1 && total.addends@[h].label == adds[h].0,
                all_zero == forall|h: int| 0 <= h < i ==> #[trigger] adds[h].1 == 0,
            decreases total.addends.len() - i,
        {
            if total.addends[i].value != 0 {
                all_zero = false;
            }
            i += 1;
        }
        if total.total == 0 && all_zero {
            assert(self.read@ =~= old(self).read@ + soak_reads(self.entity, &self.ruleset.ruleset));
            return;
        }
        let ghost start = out@;
        self.section(out, 2, "derived-section-soak");
        let ghost head = out@;
        let ghost read_h = self.read@;
        proof {
            assert(soak_keys(adds).take(0) =~= Seq::<Seq<char>>::empty());
            assert(self.read@ =~= read_h + keys_of(soak_keys(adds).take(0)));
        }
        let mut k: usize = 0;
        while k < total.addends.len()
            invariant
                self.wf(),
                self.same_inputs(old(self)),
                labels == self.labels@,
                total.addends@.len() == adds.len(),
                forall|h: int| 0 <= h < total.addends@.len() ==> (#[trigger] total.addends@[h]).value == adds[h].1 && total.addends@[h].label == adds[h].0,
                k <= adds.len(),
                out@ == head + soak_lines(labels, adds.take(k as int)),
                self.read@ == read_h + keys_of(soak_keys(adds).take(k as int)),
            decreases total.addends.len() - k,
        {
            proof {
                assert(adds.take(k + 1).drop_last() =~= adds.take(k as int));
            }
            let addend = total.addends[k];
            let key = crate::text::concat("derived-addend-", addend.label.slug());
            let v = signed(addend.value);
            self.labelled(out, key.as_str(), v.as_str());
            proof {
                let piece = bullet(label_text(labels, "derived-addend-"@ + adds[k as int].0.slug_spec()), signed_spec(adds[k as int].1));
                lemma_concat_associative(head, soak_lines(labels, adds.take(k as int)), piece);
                lemma_keys_of_step(soak_keys(adds), k as int);
                assert(soak_keys(adds)[k as int] == "derived-addend-"@ + adds[k as int].0.slug_spec());
                assert(self.read@ =~= read_h + keys_of(soak_keys(adds).take(k + 1)));
            }
            k += 1;
        }
        proof {
            assert(adds.take(adds.len() as int) =~= adds);
        }
        let t = signed(total.total);
        self.labelled(out, "export-col-total", t.as_str());
        out.append("\n");
        proof {
            let h = heading_text(labels, 2, "derived-section-soak"@);
            let lines = soak_lines(labels, adds);
            let tb = bullet(label_text(labels, "export-col-total"@), signed_spec(total.total as int));
            lemma_concat_associative(start, h, lines);
            lemma_concat_associative(start, h + lines, tb);
            lemma_concat_associative(start, h + lines + tb, "\n"@);
            assert(soak_keys(adds).take(adds.len() as int) =~= soak_keys(adds));
        }
        assert(self.read@ =~= old(self).read@ + soak_reads(self.entity, &self.ruleset.ruleset));
    }

    /// Carried Load, the Burden it produces, and the Encumbrance penalty.
    pub fn write_encumbrance(&mut self, out: &mut String)
        requires
            old(self).wf(),
        ensures
            final(self).wf(),
            final(self).same_inputs(old(self)),
            exists|enc: Encumbrance| #[trigger] encumbrance_fits(old(self).entity, &old(self).ruleset.ruleset, enc)
                && final(out)@ == old(out)@ + encumbrance_section(old(self).labels@, enc)
                && final(self).read@ == old(self).read@ + encumbrance_reads(enc),
    {
        let ghost labels = self.labels@;
        let enc = encumbrance(self.entity, self.rules());
        assert(encumbrance_fits(self.entity, &self.ruleset.ruleset, enc));
        if enc.load == 0 && enc.burden == 0 && enc.total == 0 {
            assert(out@ =~= old(out)@ + encumbrance_section(labels, enc));
            assert(self.read@ =~= old(self).read@ + encumbrance_reads(enc));
            return;
        }
        let ghost start = out@;
        self.section(out, 2, "derived-section-encumbrance");
        let ghost mut acc = heading_text(labels, 2, "derived-section-encumbrance"@);
        let l = num(enc.load as i64);
        self.labelled(out, "derived-load", l.as_str());
        proof {
            let piece = bullet(label_text(labels, "derived-load"@), decimal_int(enc.load as int));
            lemma_concat_associative(start, acc, piece);
            acc = acc + piece;
        }
        let b = num(enc.burden as i64);
        self.labelled(out, "derived-burden", b.as_str());
        proof {
            let piece = bullet(label_text(labels, "derived-burden"@), decimal_int(enc.burden as int));
            lemma_concat_associative(start, acc, piece);
            acc = acc + piece;
        }
        let t = num(enc.total);
        self.labelled(out, "export-col-total", t.as_str());
        proof {
            let piece = bullet(label_text(labels, "export-col-total"@), decimal_int(enc.total as int));
            lemma_concat_associative(start, acc, piece);
            acc = acc + piece;
        }
        out.append("\n");
        proof {
            lemma_concat_associative(start, acc, "\n"@);
        }
        assert(self.read@ =~= old(self).read@ + encumbrance_reads(enc));
    }

    /// The Fatigue and Wound tracks, for a character only.
    pub fn write_health_tracks(&mut self, out: &mut String)
        requires
            old(self).wf(),
        ensures
            final(self).wf(),
            final(self).same_inputs(old(self)),
            final(out)@ == old(out)@ + health_section(old(self).entity, &old(self).ruleset.ruleset, old(self).labels@),
            final(self).read@ == old(self).read@ + health_reads(old(self).entity, &old(self).ruleset.ruleset),
    {
        let ghost labels = self.labels@;
        match self.entity.entity_kind {
            EntityKind::Character => {},
            EntityKind::Covenant => {
                assert(self.read@ =~= old(self).read@ + health_reads(self.entity, &self.ruleset.ruleset));
                return;
            },
        }
        let ghost start = out@;
        let fatigue = fatigue_levels(self.entity, self.rules());
        let mut rows: Vec<Vec<String>> = Vec::new();
        proof {
            assert(fatigue_keys(fatigue@).take(0) =~= Seq::<Seq<char>>::empty());
            assert(self.read@ =~= old(self).read@ + keys_of(fatigue_keys(fatigue@).take(0)));
        }
        let mut i: usize = 0;
        while i < fatigue.len()
            invariant
                self.wf(),
                self.same_inputs(old(self)),
                labels == self.labels@,
                i <= fatigue@.len(),
                rows_view(rows@) == fatigue@.take(i as int).map_values(|l: FatigueLevel| fatigue_row(labels, l)),
                self.read@ == old(self).read@ + keys_of(fatigue_keys(fatigue@).take(i as int)),
            decreases fatigue.len() - i,
        {
            let level = fatigue[i];
            let mut row: Vec<String> = Vec::new();
            row.push(self.label2("derived-fatigue-", level.level.slug()));
            row.push(num(level.penalty as i64));
            let ghost before = rows_view(rows@);
            rows.push(row);
            proof {
                assert(strings_view(row@) =~= fatigue_row(labels, level));
                lemma_keys_of_step(fatigue_keys(fatigue@), i as int);
                assert(fatigue_keys(fatigue@)[i as int] == "derived-fatigue-"@ + level.level.slug_spec());
                assert(self.read@ =~= old(self).read@ + keys_of(fatigue_keys(fatigue@).take(i + 1)));
                assert(rows_view(rows@) =~= before.push(strings_view(row@)));
                assert(fatigue@.take(i + 1).map_values(|l: FatigueLevel| fatigue_row(labels, l))
                    =~= fatigue@.take(i as int).map_values(|l: FatigueLevel| fatigue_row(labels, l)).push(fatigue_row(labels, level)));
            }
            i += 1;
        }
        proof {
            assert(fatigue@.take(fatigue@.len() as int) =~= fatigue@);
            assert(fatigue_keys(fatigue@).take(fatigue@.len() as int) =~= fatigue_keys(fatigue@));
        }
        self.section(out, 2, "derived-section-fatigue");
        let headers = self.two_headers("identity-name", "export-col-penalty");
        table(out, &headers, &rows);
        let ghost after_fatigue = out@;
        let wounds = wound_ranges(self.entity, self.rules());
        let mut wrows: Vec<Vec<String>> = Vec::new();
        let ghost read_f = self.read@;
        proof {
            assert(wound_keys(wounds@).take(0) =~= Seq::<Seq<char>>::empty());
            assert(self.read@ =~= read_f + keys_of(wound_keys(wounds@).take(0)));
        }
        let mut k: usize = 0;
        while k < wounds.len()
            invariant
                self.wf(),
                self.same_inputs(old(self)),
                labels == self.labels@,
                k <= wounds@.len(),
                rows_view(wrows@) == wounds@.take(k as int).map_values(|b: WoundBand| wound_row(labels, b)),
                self.read@ == read_f + keys_of(wound_keys(wounds@).take(k as int)),
            decreases wounds.len() - k,
        {
            let band = wounds[k];
            let mut span = num(band.min);
            match band.max {
                Some(max) => {
                    span.append("–");
                    let m = num(max);
                    span.append(m.as_str());
                    assert(span@ =~= decimal_int(band.min as int) + ("–"@ + decimal_int(max as int)));
                },
                None => {
                    span.append("+");
                },
            }
            assert(span@ == wound_row(labels, band)[1]);
            let mut row: Vec<String> = Vec::new();
            row.push(self.label2("derived-wound-", band.level.slug()));
            row.push(span);
            row.push(match band.penalty {
                Some(p) => num(p as i64),
                None => String::new(),
            });
            let ghost before = rows_view(wrows@);
            wrows.push(row);
            proof {
                assert(strings_view(row@) =~= wound_row(labels, band));
                lemma_keys_of_step(wound_keys(wounds@), k as int);
                assert(wound_keys(wounds@)[k as int] == "derived-wound-"@ + band.level.slug_spec());
                assert(self.read@ =~= read_f + keys_of(wound_keys(wounds@).take(k + 1)));
                assert(rows_view(wrows@) =~= before.push(strings_view(row@)));
                assert(wounds@.take(k + 1).map_values(|b: WoundBand| wound_row(labels, b))
                    =~= wounds@.take(k as int).map_values(|b: WoundBand| wound_row(labels, b)).push(wound_row(labels, band)));
            }
            k += 1;
        }
        proof {
            assert(wounds@.take(wounds@.len() as int) =~= wounds@);
            assert(wound_keys(wounds@).take(wounds@.len() as int) =~= wound_keys(wounds@));
        }
        self.section(out, 2, "derived-section-wounds");
        let wheaders = self.three_headers("identity-name", "derived-range", "export-col-penalty");
        table(out, &wheaders, &wrows);
        proof {
            let f = heading_text(labels, 2, "derived-section-fatigue"@) + table_spec(strings_view(headers@), rows_view(rows@));
            let w = heading_text(labels, 2, "derived-section-wounds"@) + table_spec(strings_view(wheaders@), rows_view(wrows@));
            lemma_concat_associative(start, heading_text(labels, 2, "derived-section-fatigue"@), table_spec(strings_view(headers@), rows_view(rows@)));
            lemma_concat_associative(after_fatigue, heading_text(labels, 2, "derived-section-wounds"@), table_spec(strings_view(wheaders@), rows_view(wrows@)));
            lemma_concat_associative(start, f, heading_text(labels, 2, "derived-section-wounds"@));
            lemma_concat_associative(start, f + heading_text(labels, 2, "derived-section-wounds"@), table_spec(strings_view(wheaders@), rows_view(wrows@)));
        }
        assert(self.read@ =~= old(self).read@ + health_reads(self.entity, &self.ruleset.ruleset));
    }
}

} // verus!
