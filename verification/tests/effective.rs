use arm_rules::effective::ability::{
    ability_bonus, ability_bonuses, ability_score_floors, effective_ability_score, AbilityBonus, AbilityFloor,
};
use arm_rules::effective::art::{art_bonus, art_bonuses, effective_art_score, ArtBonus};
use arm_rules::effective::characteristic::{
    characteristic_aging_drops, characteristic_bonuses, characteristic_cap, characteristic_caps,
    characteristic_floor, characteristic_floors, characteristic_points_granted, characteristic_score_bonus,
    effective_characteristic_after_aging, effective_characteristic_score, effective_characteristics, size,
    CharacteristicBonus,
};
use arm_rules::effective::gift_confidence::{item_level_budget, item_level_used, power_levels_budget, powers_used};
use arm_rules::effective::reputation_and_caps::{
    ability_age_cap, age_ability_cap, age_max_ability_score, reputation_grants, supernatural_free_slots,
    ReputationGrant,
};
use arm_rules::effective::might::{effective_might, true_faith};
use arm_rules::effective::spell::{
    effective_spell_mastery, life_stage_spell_levels, resolved_spell_level, spell_level_caps, spell_levels_base,
    spell_levels_bonus, spell_levels_budget, spell_levels_used, spell_mastery_advancement_affinity, spell_mastery_floor,
    spell_mastery_xp,
};
use arm_rules::effective::warping::{
    aging_drops, decrepitude_points_total, decrepitude_score, warping, warping_granted_selections, warping_owed,
    warping_points_total, warping_score, Warping, WarpingOwed,
};
use arm_rules::effective::xp::{
    ability_affinity, charged_cost, pick_best, xp_allocation, xp_solve_scale, LifeStageBlock, RestrictedXpPool,
    XpAllocation, XpPoolOrigin, MAX_XP_SOLVE_NODES,
};
use arm_rules::effective::{entity_grants, selections_for_effects};
use arm_rules::entity::{AbilityScore, ArtScore, EnchantedDevice, Entity, SpellSelection, SupernaturalPower};
use arm_rules::grant::Grant;
use arm_rules::house::{House, LineageType};
use arm_rules::life_stage::{
    ApprenticeshipRules, ChildhoodRules, LaterLifeRules, LifeStagePlan, LifeStageRules, PostApprenticeshipRules,
};
use arm_rules::ruleset::{
    AbilityDef, AdvancementRow, AdvancementTable, AgeAbilityCap, ArtDef, CharacteristicRules, EntityTypeProfile,
    ParameterDef, PointItem, Ruleset, SpellDef,
};
use arm_rules::types::{
    AbilityCategory, ArtType, Characteristic, Effect, EntityKind, ItemKind, Magnitude, MightScore, Realm,
    ReputationType, Selection,
};

// --- fixture helpers --------------------------------------------------------------

fn s(x: &str) -> String {
    x.to_string()
}

fn sel(id: &str) -> Selection {
    Selection::new(s(id))
}

fn sel_param(id: &str, key: &str, value: &str) -> Selection {
    Selection::with_params(s(id), vec![(s(key), s(value))])
}

fn item(id: &str, kind: ItemKind, magnitude: Magnitude, category: &str, params: &[&str], effects: Vec<Effect>) -> PointItem {
    PointItem {
        id: s(id),
        kind,
        magnitude,
        category: s(category),
        extra_categories: Vec::new(),
        parameters: params.iter().map(|k| ParameterDef { key: s(k) }).collect(),
        effects,
        required_house: None,
    }
}

fn profile(id: &str, is_magus: bool, spell_levels: u32, gift: Option<&str>) -> EntityTypeProfile {
    EntityTypeProfile {
        id: s(id),
        is_magus,
        virtue_points: 10,
        flaw_points: 10,
        confidence_score: 0,
        confidence_points: 0,
        gift_id: gift.map(s),
        gift_categories: Vec::new(),
        spell_levels,
    }
}

fn ability(id: &str, category: AbilityCategory, parameter: Option<&str>) -> AbilityDef {
    AbilityDef {
        id: s(id),
        category,
        parameter: parameter.map(s),
        locality_dependent: false,
        combat_ability: false,
    }
}

fn art(id: &str, art_type: ArtType) -> ArtDef {
    ArtDef { id: s(id), art_type }
}

fn table(rows: &[(u8, u32)]) -> AdvancementTable {
    AdvancementTable { rows: rows.iter().map(|(score, xp)| AdvancementRow { score: *score, total_xp: *xp }).collect() }
}

fn ability_table() -> AdvancementTable {
    table(&[(1, 5), (2, 15), (3, 30), (4, 50), (5, 75)])
}

fn art_table() -> AdvancementTable {
    table(&[(1, 1), (2, 3), (3, 6), (4, 10), (5, 15)])
}

fn characteristic_rules() -> Option<CharacteristicRules> {
    Some(CharacteristicRules { base_max: 3, base_min: -3, effective_max: 5, effective_min: -5 })
}

fn plain(ability: &str, score: u8) -> AbilityScore {
    AbilityScore { ability: s(ability), score, specialty: None, parameter: None }
}

fn art_row(art: &str, score: u8) -> ArtScore {
    ArtScore { art: s(art), score }
}

fn set<V: Copy>(map: &mut Vec<(Characteristic, V)>, c: Characteristic, v: V) {
    map.retain(|(k, _)| *k != c);
    map.push((c, v));
    map.sort_by_key(|(k, _)| Characteristic::all().iter().position(|x| x == k));
}

fn get<V: Copy>(map: &[(Characteristic, V)], c: Characteristic) -> Option<V> {
    map.iter().find(|(k, _)| *k == c).map(|(_, v)| *v)
}

fn characteristic_id(c: Characteristic) -> String {
    format!("characteristic.{}", c.slug())
}

// --- the basic ruleset -----------------------------------------------------------

/// Puissant Ability (+2), Great/Poor Characteristic (limit shifts), Puissant Art
/// (+3), Skilled/Weak Parens, and Characteristic limits ±3 (effective ±5).
fn ruleset() -> Ruleset {
    let mut rs = Ruleset::empty();
    rs.point_items = vec![
        item("virtue.the_gift", ItemKind::Virtue, Magnitude::Free, "special", &[], Vec::new()),
        item("virtue.puissant_ability", ItemKind::Virtue, Magnitude::Minor, "general", &["ability"],
            vec![Effect::AbilityBonus { param: s("ability"), amount: 2 }]),
        item("virtue.great_characteristic", ItemKind::Virtue, Magnitude::Minor, "general", &["characteristic"],
            vec![Effect::CharacteristicLimit { param: s("characteristic"), amount: 1 }]),
        item("flaw.poor_characteristic", ItemKind::Flaw, Magnitude::Minor, "general", &["characteristic"],
            vec![Effect::CharacteristicLimit { param: s("characteristic"), amount: -1 }]),
        item("virtue.puissant_art", ItemKind::Virtue, Magnitude::Minor, "general", &["art"],
            vec![Effect::ArtBonus { param: s("art"), amount: 3 }]),
        item("virtue.skilled_parens", ItemKind::Virtue, Magnitude::Minor, "general", &[],
            vec![Effect::SpellLevels { amount: 30 }, Effect::GeneralXp { amount: 60 }]),
        item("flaw.weak_parens", ItemKind::Flaw, Magnitude::Minor, "general", &[],
            vec![Effect::SpellLevels { amount: -30 }, Effect::GeneralXp { amount: -60 }]),
        item("flaw.optimistic", ItemKind::Flaw, Magnitude::Major, "personality", &[], Vec::new()),
    ];
    rs.type_profiles = vec![profile("companion", false, 120, Some("virtue.the_gift"))];
    rs.abilities = vec![
        ability("ability.awareness", AbilityCategory::General, None),
        ability("ability.stealth", AbilityCategory::General, None),
        ability("ability.area_lore", AbilityCategory::General, Some("area")),
    ];
    rs.art_advancement = art_table();
    rs.arts = vec![art("art.creo", ArtType::Technique), art("art.ignem", ArtType::Form)];
    rs.characteristic_rules = characteristic_rules();
    rs
}

fn entity(selections: Vec<Selection>) -> Entity {
    let mut e = Entity::new(EntityKind::Character, s("companion"));
    e.selections = selections;
    e
}

fn puissant(ability: &str) -> Selection {
    sel_param("virtue.puissant_ability", "ability", ability)
}

/// Puissant targeting one instance of a parameterized ability: the ability id
/// plus the instance under the ability's own param key.
fn puissant_instance(ability: &str, key: &str, value: &str) -> Selection {
    let mut params = vec![(s("ability"), s(ability)), (s(key), s(value))];
    params.sort();
    Selection::with_params(s("virtue.puissant_ability"), params)
}

fn lore(area: &str, score: u8) -> AbilityScore {
    AbilityScore { ability: s("ability.area_lore"), score, specialty: None, parameter: Some(s(area)) }
}

fn great(c: Characteristic) -> Selection {
    sel_param("virtue.great_characteristic", "characteristic", &characteristic_id(c))
}

fn poor(c: Characteristic) -> Selection {
    sel_param("flaw.poor_characteristic", "characteristic", &characteristic_id(c))
}

fn puissant_art(art: &str) -> Selection {
    sel_param("virtue.puissant_art", "art", art)
}

#[test]
fn skilled_parens_raises_general_xp_pool() {
    let rs = ruleset();
    let mut e = entity(vec![sel("virtue.skilled_parens")]);
    e.xp_pool = 30;
    assert_eq!(xp_allocation(&e, &rs).general_pool, 90);
}

#[test]
fn negative_general_xp_clamps_at_zero() {
    let rs = ruleset();
    let mut e = entity(vec![sel("flaw.weak_parens")]);
    e.xp_pool = 10;
    assert_eq!(xp_allocation(&e, &rs).general_pool, 0);
}

#[test]
fn puissant_ability_adds_two_to_its_target() {
    let rs = ruleset();
    let mut e = entity(vec![puissant("ability.awareness")]);
    e.ability_scores = vec![plain("ability.awareness", 3)];
    assert_eq!(ability_bonus(&e, &rs, "ability.awareness", None), 2);
    assert_eq!(effective_ability_score(&e, &rs, "ability.awareness", None), 5);
}

#[test]
fn ability_bonus_zero_for_non_targeted_ability() {
    let rs = ruleset();
    let e = entity(vec![puissant("ability.awareness")]);
    assert_eq!(ability_bonus(&e, &rs, "ability.stealth", None), 0);
    // No bought score and no matching bonus => effective 0.
    assert_eq!(effective_ability_score(&e, &rs, "ability.stealth", None), 0);
}

#[test]
fn puissant_for_two_abilities_each_applies_independently() {
    let rs = ruleset();
    let e = entity(vec![puissant("ability.awareness"), puissant("ability.stealth")]);
    assert_eq!(ability_bonus(&e, &rs, "ability.awareness", None), 2);
    assert_eq!(ability_bonus(&e, &rs, "ability.stealth", None), 2);
}

#[test]
fn puissant_targets_one_lore_instance_only() {
    let rs = ruleset();
    let e = entity(vec![puissant_instance("ability.area_lore", "area", "Brandenburg")]);
    // Only the named instance is boosted; other areas are untouched.
    assert_eq!(ability_bonus(&e, &rs, "ability.area_lore", Some("Brandenburg")), 2);
    assert_eq!(ability_bonus(&e, &rs, "ability.area_lore", Some("Berlin")), 0);
}

#[test]
fn puissant_without_instance_key_matches_no_parameterized_instance() {
    let rs = ruleset();
    // A Puissant on a parameterized ability that names no instance boosts nothing.
    let e = entity(vec![puissant("ability.area_lore")]);
    assert_eq!(ability_bonus(&e, &rs, "ability.area_lore", Some("Brandenburg")), 0);
    assert_eq!(ability_bonus(&e, &rs, "ability.area_lore", None), 0);
}

#[test]
fn ability_bonuses_returns_one_entry_per_targeted_instance() {
    let rs = ruleset();
    let mut e = entity(vec![
        puissant_instance("ability.area_lore", "area", "Brandenburg"),
        puissant_instance("ability.area_lore", "area", "Bavaria"),
    ]);
    e.ability_scores = vec![lore("Brandenburg", 3), lore("Berlin", 2), lore("Bavaria", 1)];
    // Two targeted instances get +2; the untargeted Berlin row is omitted.
    assert_eq!(
        ability_bonuses(&e, &rs),
        vec![
            AbilityBonus { ability: s("ability.area_lore"), parameter: Some(s("Brandenburg")), bonus: 2 },
            AbilityBonus { ability: s("ability.area_lore"), parameter: Some(s("Bavaria")), bonus: 2 },
        ]
    );
    assert_eq!(effective_ability_score(&e, &rs, "ability.area_lore", Some("Brandenburg")), 5);
    assert_eq!(effective_ability_score(&e, &rs, "ability.area_lore", Some("Berlin")), 2);
}

#[test]
fn default_cap_and_floor_are_the_base_limits() {
    let rs = ruleset();
    let e = entity(vec![]);
    assert_eq!(characteristic_cap(&e, &rs, Characteristic::Str), 3);
    assert_eq!(characteristic_floor(&e, &rs, Characteristic::Str), -3);
}

#[test]
fn great_characteristic_raises_the_cap_without_touching_the_score() {
    let rs = ruleset();
    let mut e = entity(vec![great(Characteristic::Str)]);
    set(&mut e.characteristics, Characteristic::Str, 3);
    // The cap opens to +4; the bought score is unchanged (no free point).
    assert_eq!(characteristic_cap(&e, &rs, Characteristic::Str), 4);
    assert_eq!(get(&e.characteristics, Characteristic::Str), Some(3));
    // The floor is untouched.
    assert_eq!(characteristic_floor(&e, &rs, Characteristic::Str), -3);
}

#[test]
fn great_characteristic_twice_raises_the_cap_to_five() {
    let rs = ruleset();
    let e = entity(vec![great(Characteristic::Str), great(Characteristic::Str)]);
    assert_eq!(characteristic_cap(&e, &rs, Characteristic::Str), 5);
}

#[test]
fn cap_is_clamped_at_the_effective_ceiling() {
    let rs = ruleset();
    let e = entity(vec![great(Characteristic::Str), great(Characteristic::Str), great(Characteristic::Str)]);
    assert_eq!(characteristic_cap(&e, &rs, Characteristic::Str), 5);
}

#[test]
fn poor_characteristic_lowers_the_floor_without_touching_the_score() {
    let rs = ruleset();
    let mut e = entity(vec![poor(Characteristic::Str)]);
    set(&mut e.characteristics, Characteristic::Str, -3);
    assert_eq!(characteristic_floor(&e, &rs, Characteristic::Str), -4);
    assert_eq!(get(&e.characteristics, Characteristic::Str), Some(-3));
    // The cap is untouched.
    assert_eq!(characteristic_cap(&e, &rs, Characteristic::Str), 3);
}

#[test]
fn poor_characteristic_twice_lowers_the_floor_to_minus_five() {
    let rs = ruleset();
    let e = entity(vec![poor(Characteristic::Str), poor(Characteristic::Str)]);
    assert_eq!(characteristic_floor(&e, &rs, Characteristic::Str), -5);
}

#[test]
fn floor_is_clamped_at_the_effective_floor() {
    let rs = ruleset();
    let e = entity(vec![poor(Characteristic::Str), poor(Characteristic::Str), poor(Characteristic::Str)]);
    assert_eq!(characteristic_floor(&e, &rs, Characteristic::Str), -5);
}

#[test]
fn limit_shift_targets_only_the_named_characteristic() {
    let rs = ruleset();
    let e = entity(vec![great(Characteristic::Str), poor(Characteristic::Qik)]);
    assert_eq!(characteristic_cap(&e, &rs, Characteristic::Str), 4);
    assert_eq!(characteristic_cap(&e, &rs, Characteristic::Qik), 3);
    assert_eq!(characteristic_floor(&e, &rs, Characteristic::Qik), -4);
    assert_eq!(characteristic_floor(&e, &rs, Characteristic::Str), -3);
}

#[test]
fn cap_and_floor_maps_cover_all_eight_characteristics() {
    let rs = ruleset();
    let e = entity(vec![great(Characteristic::Str), poor(Characteristic::Qik)]);
    let caps = characteristic_caps(&e, &rs);
    let floors = characteristic_floors(&e, &rs);
    assert_eq!(caps.len(), Characteristic::all().len());
    assert_eq!(floors.len(), Characteristic::all().len());
    assert_eq!(get(&caps, Characteristic::Str), Some(4));
    assert_eq!(get(&caps, Characteristic::Int), Some(3));
    assert_eq!(get(&floors, Characteristic::Qik), Some(-4));
    assert_eq!(get(&floors, Characteristic::Int), Some(-3));
}

#[test]
fn cap_and_floor_default_to_zero_without_characteristic_rules() {
    let rs = Ruleset::empty();
    let e = entity(vec![]);
    assert_eq!(characteristic_cap(&e, &rs, Characteristic::Str), 0);
    assert_eq!(characteristic_floor(&e, &rs, Characteristic::Str), 0);
}

#[test]
fn puissant_art_adds_three_to_its_target() {
    let rs = ruleset();
    let mut e = entity(vec![puissant_art("art.ignem")]);
    e.art_scores = vec![art_row("art.ignem", 5)];
    assert_eq!(art_bonus(&e, &rs, "art.ignem"), 3);
    assert_eq!(effective_art_score(&e, &rs, "art.ignem"), 8);
}

#[test]
fn art_bonus_zero_for_non_targeted_art() {
    let rs = ruleset();
    let e = entity(vec![puissant_art("art.ignem")]);
    assert_eq!(art_bonus(&e, &rs, "art.creo"), 0);
    assert_eq!(effective_art_score(&e, &rs, "art.creo"), 0);
}

#[test]
fn puissant_art_twice_for_one_art_stacks() {
    let rs = ruleset();
    let e = entity(vec![puissant_art("art.ignem"), puissant_art("art.ignem")]);
    assert_eq!(art_bonus(&e, &rs, "art.ignem"), 6);
}

#[test]
fn art_bonuses_returns_one_entry_per_boosted_art() {
    let rs = ruleset();
    let mut e = entity(vec![puissant_art("art.ignem")]);
    e.art_scores = vec![art_row("art.creo", 3), art_row("art.ignem", 2)];
    assert_eq!(art_bonuses(&e, &rs), vec![ArtBonus { art: s("art.ignem"), bonus: 3 }]);
    assert_eq!(effective_art_score(&e, &rs, "art.ignem"), 5);
    assert_eq!(effective_art_score(&e, &rs, "art.creo"), 3);
}

#[test]
fn art_bonuses_include_puissant_art_at_bought_zero() {
    let rs = ruleset();
    let e = entity(vec![puissant_art("art.ignem")]);
    assert!(e.art_scores.is_empty());
    assert_eq!(art_bonuses(&e, &rs), vec![ArtBonus { art: s("art.ignem"), bonus: 3 }]);
}

#[test]
fn ability_bonuses_still_omit_zero_entries() {
    let rs = ruleset();
    let mut e = entity(vec![puissant("ability.awareness")]);
    e.ability_scores = vec![plain("ability.awareness", 2), plain("ability.stealth", 1)];
    assert_eq!(
        ability_bonuses(&e, &rs),
        vec![AbilityBonus { ability: s("ability.awareness"), parameter: None, bonus: 2 }]
    );
}

#[test]
fn affinity_charged_cost_matches_perdo_example() {
    assert_eq!(charged_cost(55, Some((3, 2))), 37); // Affinity with Art
    assert_eq!(charged_cost(55, None), 55); // no affinity: full price
    assert_eq!(charged_cost(275, Some((3, 2))), 184); // ceil(275·2/3)
    assert_eq!(charged_cost(0, Some((3, 2))), 0);
}

#[test]
fn spell_level_caps_expose_te_fo_int_mt_plus_three() {
    let rs = ruleset();
    let mut e = entity(vec![]);
    e.art_scores = vec![art_row("art.creo", 2), art_row("art.ignem", 3)];
    set(&mut e.characteristics, Characteristic::Int, 1);
    let caps = spell_level_caps(&e, &rs);
    assert_eq!(caps.len(), 1);
    assert_eq!(caps[0].technique, "art.creo");
    assert_eq!(caps[0].form, "art.ignem");
    // 2 (Creo) + 3 (Ignem) + 1 (Int) + 0 (no Magic Theory) + 3 = 9.
    assert_eq!(caps[0].cap, 9);
}

#[test]
fn spell_levels_base_without_override_uses_profile() {
    let rs = ruleset();
    let profile = rs.profile("companion");
    let e = entity(vec![]);
    assert_eq!(e.spell_levels_override, None);
    assert_eq!(spell_levels_base(&e, profile), 120);
    let base = spell_levels_base(&e, profile);
    assert_eq!(spell_levels_budget(base, &e, &rs), 120);
}

#[test]
fn spell_levels_override_replaces_profile_base() {
    let rs = ruleset();
    let profile = rs.profile("companion");
    let mut e = entity(vec![sel("virtue.skilled_parens")]);
    e.spell_levels_override = Some(80);
    assert_eq!(spell_levels_base(&e, profile), 80);
    let base = spell_levels_base(&e, profile);
    assert_eq!(spell_levels_budget(base, &e, &rs), 110);
}

#[test]
fn spell_levels_bonus_is_reported_separately_from_the_base() {
    let rs = ruleset();
    assert_eq!(spell_levels_bonus(&entity(vec![]), &rs), 0);
    let e = entity(vec![sel("virtue.skilled_parens")]);
    assert_eq!(spell_levels_bonus(&e, &rs), 30);
}

#[test]
fn the_general_xp_bonus_is_reported_beside_the_pool_it_raises() {
    let rs = ruleset();
    let mut plain_entity = entity(vec![]);
    plain_entity.xp_pool = 240;
    let allocation = xp_allocation(&plain_entity, &rs);
    assert_eq!(allocation.general_bonus, 0);
    assert_eq!(allocation.general_pool, 240);

    let mut skilled = entity(vec![sel("virtue.skilled_parens")]);
    skilled.xp_pool = 240;
    let allocation = xp_allocation(&skilled, &rs);
    assert_eq!(allocation.general_bonus, 60);
    // The identity the bar's split closes against: pool = typed + bonus.
    assert_eq!(allocation.general_pool, 300);
}

// --- the experience ruleset -----------------------------------------------------------

/// Priced Ability (5×-triangular) and Art (triangular) tables, categorized
/// Abilities, and the Virtues/Flaws the pools and grants read.
fn xp_ruleset() -> Ruleset {
    let mut rs = Ruleset::empty();
    rs.point_items = vec![
        item("virtue.the_gift", ItemKind::Virtue, Magnitude::Free, "special", &[], Vec::new()),
        item("virtue.affinity_ability", ItemKind::Virtue, Magnitude::Minor, "general", &["ability"],
            vec![Effect::AffinityAbilityCost { param: s("ability"), counts_as_num: 3, counts_as_den: 2 }]),
        item("virtue.affinity_art", ItemKind::Virtue, Magnitude::Minor, "hermetic", &["art"],
            vec![Effect::AffinityArtCost { param: s("art"), counts_as_num: 3, counts_as_den: 2 }]),
        item("virtue.educated", ItemKind::Virtue, Magnitude::Minor, "general", &[],
            vec![Effect::RestrictedAbilityXp {
                amount: 50,
                abilities: vec![s("ability.latin"), s("ability.artes_liberales")],
                categories: Vec::new(),
            }]),
        item("virtue.warrior", ItemKind::Virtue, Magnitude::Minor, "general", &[],
            vec![Effect::RestrictedAbilityXp { amount: 50, abilities: Vec::new(), categories: vec![AbilityCategory::Martial] }]),
        item("virtue.privileged_upbringing", ItemKind::Virtue, Magnitude::Minor, "general", &[],
            vec![Effect::RestrictedAbilityXp {
                amount: 50,
                abilities: Vec::new(),
                categories: vec![AbilityCategory::General, AbilityCategory::Academic, AbilityCategory::Martial],
            }]),
        item("virtue.improved_characteristics", ItemKind::Virtue, Magnitude::Minor, "general", &[],
            vec![Effect::CharacteristicPoints { amount: 3 }]),
        item("flaw.weak_characteristics", ItemKind::Flaw, Magnitude::Minor, "general", &[],
            vec![Effect::CharacteristicPoints { amount: -3 }]),
        item("virtue.second_sight", ItemKind::Virtue, Magnitude::Minor, "supernatural", &[],
            vec![Effect::AbilityScoreGrant { ability: s("ability.second_sight"), amount: 1 }]),
        item("virtue.giant_blood", ItemKind::Virtue, Magnitude::Major, "general", &[],
            vec![
                Effect::SizeDelta { amount: 2 },
                Effect::CharacteristicScoreDelta { characteristic: s("characteristic.str"), amount: 1 },
                Effect::CharacteristicScoreDelta { characteristic: s("characteristic.sta"), amount: 1 },
            ]),
        item("flaw.dwarf", ItemKind::Flaw, Magnitude::Major, "general", &[],
            vec![
                Effect::SizeDelta { amount: -2 },
                Effect::CharacteristicScoreDelta { characteristic: s("characteristic.str"), amount: -1 },
                Effect::CharacteristicScoreDelta { characteristic: s("characteristic.sta"), amount: -1 },
            ]),
        item("flaw.warped_by_magic", ItemKind::Flaw, Magnitude::Minor, "supernatural", &[],
            vec![Effect::WarpingGrant { score: 1, points: 5 }]),
        item("virtue.true_faith", ItemKind::Virtue, Magnitude::Major, "general", &[],
            vec![Effect::TrueFaithGrant { score: 1 }]),
        item("virtue.magic_items", ItemKind::Virtue, Magnitude::Minor, "general", &[],
            vec![Effect::ItemLevelBudget { amount: 25 }]),
        item("virtue.granter", ItemKind::Virtue, Magnitude::Minor, "general", &[],
            vec![Effect::GrantsSelection { items: vec![s("virtue.second_sight")] }]),
        item("virtue.mastered_spells", ItemKind::Virtue, Magnitude::Minor, "hermetic", &[],
            vec![Effect::SpellMasteryXp { amount: 50 }]),
        item("virtue.flawless_magic", ItemKind::Virtue, Magnitude::Major, "hermetic", &[],
            vec![Effect::GrantsSpellMastery { score: 1, advancement_num: 2, advancement_den: 1 }]),
        item("virtue.linguist", ItemKind::Virtue, Magnitude::Minor, "general", &[],
            vec![Effect::GroupAffinityCost {
                abilities: vec![s("ability.living_language")],
                counts_as_num: 5,
                counts_as_den: 4,
            }]),
        item("virtue.demonic_blood", ItemKind::Virtue, Magnitude::Major, "supernatural", &[],
            vec![Effect::MightGrant { realm: Realm::Infernal, score: 5 }, Effect::PowerLevels { amount: 30 }]),
        item("virtue.demonic_might", ItemKind::Virtue, Magnitude::Minor, "supernatural", &[],
            vec![Effect::MightGrant { realm: Realm::Infernal, score: 2 }]),
        item("virtue.demonic_powers", ItemKind::Virtue, Magnitude::Minor, "supernatural", &[],
            vec![Effect::PowerLevels { amount: 20 }]),
        item("flaw.optimistic", ItemKind::Flaw, Magnitude::Major, "personality", &[], Vec::new()),
    ];
    rs.type_profiles = vec![profile("companion", false, 0, Some("virtue.the_gift"))];
    rs.advancement = ability_table();
    rs.abilities = vec![
        ability("ability.latin", AbilityCategory::Academic, None),
        ability("ability.artes_liberales", AbilityCategory::Academic, None),
        ability("ability.single_weapon", AbilityCategory::Martial, None),
        ability("ability.awareness", AbilityCategory::General, None),
        ability("ability.living_language", AbilityCategory::General, Some("language")),
        ability("ability.second_sight", AbilityCategory::Supernatural, None),
    ];
    rs.art_advancement = art_table();
    rs.arts = vec![art("art.creo", ArtType::Technique), art("art.ignem", ArtType::Form)];
    rs.characteristic_rules = characteristic_rules();
    rs
}

fn xp_entity(selections: Vec<Selection>) -> Entity {
    entity(selections)
}

fn mastered(spell: &str, score: u8) -> SpellSelection {
    SpellSelection { spell: s(spell), level: None, mastery: Some(score), parameter: None, mastery_abilities: Vec::new() }
}

#[test]
fn the_most_generous_mastery_affinity_wins_and_the_earliest_on_a_tie() {
    let mut rs = xp_ruleset();
    rs.point_items.push(item("virtue.mastery_three_halves", ItemKind::Virtue, Magnitude::Minor, "hermetic", &[],
        vec![Effect::GrantsSpellMastery { score: 1, advancement_num: 3, advancement_den: 2 }]));
    rs.point_items.push(item("virtue.mastery_six_fourths", ItemKind::Virtue, Magnitude::Minor, "hermetic", &[],
        vec![Effect::GrantsSpellMastery { score: 1, advancement_num: 6, advancement_den: 4 }]));
    let tie = xp_entity(vec![sel("virtue.mastery_three_halves"), sel("virtue.mastery_six_fourths")]);
    assert_eq!(spell_mastery_advancement_affinity(&tie, &rs), Some((3, 2)));
    let better = xp_entity(vec![sel("virtue.mastery_three_halves"), sel("virtue.flawless_magic")]);
    assert_eq!(spell_mastery_advancement_affinity(&better, &rs), Some((2, 1)));
    assert_eq!(spell_mastery_advancement_affinity(&xp_entity(Vec::new()), &rs), None);
}

#[test]
fn two_allocations_of_the_same_entity_agree() {
    let rs = xp_ruleset();
    let mut e = xp_entity(vec![sel_param("virtue.affinity_art", "art", "art.creo")]);
    e.art_scores = vec![art_row("art.creo", 5)];
    assert_eq!(xp_allocation(&e, &rs), xp_allocation(&e, &rs));
}

#[test]
fn affinity_with_art_reduces_charged_xp() {
    let rs = xp_ruleset();
    let mut e = xp_entity(vec![sel_param("virtue.affinity_art", "art", "art.creo")]);
    e.art_scores = vec![art_row("art.creo", 5)]; // table 15
    // ceil(15·2/3) = 10, not 15.
    assert_eq!(xp_allocation(&e, &rs).total_demand, 10);
}

#[test]
fn affinity_with_ability_reduces_charged_xp_on_the_5x_table() {
    let rs = xp_ruleset();
    let mut e = xp_entity(vec![sel_param("virtue.affinity_ability", "ability", "ability.awareness")]);
    e.ability_scores = vec![plain("ability.awareness", 5)]; // table 75
    assert_eq!(xp_allocation(&e, &rs).total_demand, 50); // ceil(75·2/3) = 50
}

#[test]
fn a_pathological_number_of_spends_is_refused_before_the_solve() {
    // The unchecked solve demands a bounded graph; the checked entry point is the
    // one a pathological entity goes through, and it refuses rather than building.
    let rs = xp_ruleset();
    let mut e = xp_entity(vec![]);
    e.ability_scores = (0..3000).map(|_| plain("ability.awareness", 1)).collect();
    assert!(xp_solve_scale(&e, &rs).nodes() > MAX_XP_SOLVE_NODES);
    assert!(arm_rules::effective::xp::checked_xp_allocation(&e, &rs).is_err());
}

#[test]
fn best_affinity_keeps_the_most_generous_multiplier() {
    // Affinities do not stack; the single most generous wins, in any order.
    let best = |ratios: &[(u8, u8)]| ratios.iter().fold(None, |acc, r| pick_best(acc, *r));
    assert_eq!(best(&[(3, 2), (2, 1)]), Some((2, 1)));
    assert_eq!(best(&[(2, 1), (3, 2)]), Some((2, 1)));
    assert_eq!(charged_cost(15, Some((2, 1))), 8); // ceil(15·1/2)
    assert_eq!(charged_cost(15, Some((3, 2))), 10); // ceil(15·2/3)
}

#[test]
fn educated_pool_funds_only_its_two_abilities() {
    let rs = xp_ruleset();
    let mut e = xp_entity(vec![sel("virtue.educated")]);
    e.xp_pool = 0;
    e.ability_scores = vec![plain("ability.latin", 2), plain("ability.artes_liberales", 2)];
    let alloc = xp_allocation(&e, &rs);
    assert_eq!(alloc.total_demand, 30);
    assert_eq!(alloc.max_flow, 30);
    assert_eq!(alloc.restricted[0].used, 30);
}

#[test]
fn granted_supernatural_first_point_is_free_second_costs_ten() {
    let rs = xp_ruleset();
    let mut e = xp_entity(vec![sel("virtue.second_sight")]);
    e.ability_scores = vec![plain("ability.second_sight", 1)];
    let alloc = xp_allocation(&e, &rs);
    assert_eq!(alloc.total_demand, 0, "first granted point is free");
    assert_eq!(effective_ability_score(&e, &rs, "ability.second_sight", None), 1);

    e.ability_scores = vec![plain("ability.second_sight", 2)];
    let alloc = xp_allocation(&e, &rs);
    assert_eq!(alloc.total_demand, 10, "score 2 costs the 1→2 step only");
    assert_eq!(effective_ability_score(&e, &rs, "ability.second_sight", None), 2);
}

#[test]
fn ungranted_supernatural_ability_still_costs_full_table() {
    let rs = xp_ruleset();
    let mut e = xp_entity(vec![]);
    e.ability_scores = vec![plain("ability.second_sight", 1)];
    assert_eq!(xp_allocation(&e, &rs).total_demand, 5);
}

#[test]
fn restricted_pool_is_spent_before_general_when_both_can_cover() {
    let rs = xp_ruleset();
    let mut e = xp_entity(vec![sel("virtue.educated")]);
    e.xp_pool = 100;
    e.ability_scores = vec![plain("ability.artes_liberales", 4)]; // 50 XP
    let alloc = xp_allocation(&e, &rs);
    assert_eq!(alloc.total_demand, 50);
    assert_eq!(alloc.max_flow, 50);
    assert_eq!(alloc.general_used, 0, "general pool untouched");
    assert_eq!(alloc.restricted[0].used, 50, "restricted pool fully spent");
}

#[test]
fn general_pool_covers_the_overflow_beyond_the_restricted_pool() {
    let rs = xp_ruleset();
    let mut e = xp_entity(vec![sel("virtue.educated")]);
    e.xp_pool = 100;
    e.ability_scores = vec![plain("ability.artes_liberales", 5)]; // 75 XP
    let alloc = xp_allocation(&e, &rs);
    assert_eq!(alloc.total_demand, 75);
    assert_eq!(alloc.max_flow, 75);
    assert_eq!(alloc.restricted[0].used, 50, "restricted maxed out");
    assert_eq!(alloc.general_used, 25, "general covers only the overflow");
}

#[test]
fn total_demand_exceeds_general_used_when_a_restricted_pool_contributes() {
    let rs = xp_ruleset();
    let mut e = xp_entity(vec![sel("virtue.educated")]);
    e.xp_pool = 100;
    e.ability_scores = vec![plain("ability.artes_liberales", 5)]; // 75 XP
    let alloc = xp_allocation(&e, &rs);
    let restricted_used: u32 = alloc.restricted.iter().map(|p| p.used).sum();
    assert!(alloc.general_used < alloc.total_demand);
    assert_eq!(alloc.total_demand, alloc.general_used + restricted_used);
}

#[test]
fn total_demand_equals_general_used_without_restricted_pools() {
    let rs = xp_ruleset();
    let mut e = xp_entity(vec![]);
    e.xp_pool = 100;
    e.ability_scores = vec![plain("ability.awareness", 4)]; // 50 XP, general only
    let alloc = xp_allocation(&e, &rs);
    assert!(alloc.restricted.is_empty());
    assert_eq!(alloc.general_used, alloc.total_demand);
}

#[test]
fn educated_pool_cannot_fund_an_ineligible_ability() {
    let rs = xp_ruleset();
    let mut e = xp_entity(vec![sel("virtue.educated")]);
    e.xp_pool = 0;
    e.ability_scores = vec![plain("ability.single_weapon", 2)];
    let alloc = xp_allocation(&e, &rs);
    assert_eq!(alloc.total_demand, 15);
    assert_eq!(alloc.max_flow, 0); // Educated can't pay, general pool empty
}

#[test]
fn overlapping_pools_resolved_globally_not_greedily() {
    let rs = xp_ruleset();
    let mut e = xp_entity(vec![sel("virtue.educated"), sel("virtue.privileged_upbringing")]);
    e.xp_pool = 0;
    e.ability_scores = vec![plain("ability.latin", 4), plain("ability.awareness", 4)];
    let alloc = xp_allocation(&e, &rs);
    assert_eq!(alloc.total_demand, 100);
    assert_eq!(alloc.max_flow, 100);
    let educated = alloc.restricted.iter().find(|p| p.abilities.contains(&s("ability.latin"))).unwrap();
    let privileged = alloc.restricted.iter().find(|p| p.categories.contains(&AbilityCategory::General)).unwrap();
    assert_eq!(educated.used, 50);
    assert_eq!(privileged.used, 50);
}

#[test]
fn improved_characteristics_grants_three_points_stacking() {
    let rs = xp_ruleset();
    let e = xp_entity(vec![sel("virtue.improved_characteristics"), sel("virtue.improved_characteristics")]);
    assert_eq!(characteristic_points_granted(&e, &rs), 6);
}

#[test]
fn linguist_group_affinity_applies_to_every_language_instance() {
    let rs = xp_ruleset();
    let e = xp_entity(vec![sel("virtue.linguist")]);
    assert_eq!(ability_affinity(&e, &rs, "ability.living_language", Some("German")), Some((5, 4)));
    assert_eq!(ability_affinity(&e, &rs, "ability.living_language", Some("Gaelic")), Some((5, 4)));
    assert_eq!(ability_affinity(&e, &rs, "ability.awareness", None), None);
}

#[test]
fn spell_mastery_pool_and_floor() {
    let rs = xp_ruleset();
    let masters = xp_entity(vec![sel("virtue.mastered_spells"), sel("virtue.mastered_spells")]);
    assert_eq!(spell_mastery_xp(&masters, &rs), 100);
    assert_eq!(spell_mastery_floor(&masters, &rs), 0);

    let flawless = xp_entity(vec![sel("virtue.flawless_magic")]);
    assert_eq!(spell_mastery_floor(&flawless, &rs), 1);
    let unbought = SpellSelection { spell: s("spell.x"), level: None, mastery: None, parameter: None, mastery_abilities: Vec::new() };
    assert_eq!(effective_spell_mastery(&unbought, &flawless, &rs), 1);
    let bought = mastered("spell.x", 3);
    assert_eq!(effective_spell_mastery(&bought, &flawless, &rs), 3);
}

#[test]
fn bought_mastery_is_charged_from_the_general_pool() {
    let rs = xp_ruleset();
    let mut e = xp_entity(vec![]);
    e.xp_pool = 20;
    e.spells = vec![mastered("spell.pilum", 2)]; // table(2) = 15
    let alloc = xp_allocation(&e, &rs);
    assert_eq!(alloc.total_demand, 15);
    assert_eq!(alloc.max_flow, 15, "funded from the 20-pt general pool");
    assert_eq!(alloc.general_used, 15);

    e.xp_pool = 10;
    let alloc = xp_allocation(&e, &rs);
    assert_eq!(alloc.total_demand, 15);
    assert_eq!(alloc.max_flow, 10);
}

#[test]
fn mastered_spells_pool_funds_mastery_but_not_abilities() {
    let rs = xp_ruleset();
    let mut e = xp_entity(vec![sel("virtue.mastered_spells")]);
    e.xp_pool = 0;
    e.spells = vec![mastered("spell.pilum", 3)]; // table(3) = 30
    e.ability_scores = vec![plain("ability.awareness", 2)]; // table(2) = 15
    let alloc = xp_allocation(&e, &rs);
    assert_eq!(alloc.total_demand, 45);
    assert_eq!(alloc.max_flow, 30);
    assert_eq!(alloc.general_used, 0);
}

#[test]
fn restricted_ability_pool_does_not_fund_mastery() {
    let rs = xp_ruleset();
    let mut e = xp_entity(vec![sel("virtue.educated")]);
    e.xp_pool = 0;
    e.spells = vec![mastered("spell.pilum", 2)];
    let alloc = xp_allocation(&e, &rs);
    assert_eq!(alloc.total_demand, 15);
    assert_eq!(alloc.max_flow, 0, "Educated cannot fund mastery");
    assert_eq!(alloc.restricted[0].used, 0);
}

#[test]
fn flawless_magic_floors_first_mastery_free_and_halves_the_rest() {
    let rs = xp_ruleset();
    let mut e = xp_entity(vec![sel("virtue.flawless_magic")]);
    e.xp_pool = 100;
    e.spells = vec![mastered("spell.a", 1), mastered("spell.b", 3)];
    assert_eq!(xp_allocation(&e, &rs).total_demand, 13);
}

#[test]
fn grants_selection_folds_free_items_into_grants() {
    let rs = xp_ruleset();
    let e = xp_entity(vec![sel("virtue.granter")]);
    let grants = entity_grants(&e, &rs);
    assert!(grants.iter().any(|g| g.item_ref == "virtue.second_sight"), "{grants:?}");
    assert_eq!(effective_ability_score(&e, &rs, "ability.second_sight", None), 1);
}

#[test]
fn item_level_budget_sums_grants() {
    let rs = xp_ruleset();
    assert_eq!(item_level_budget(&xp_entity(vec![]), &rs), 0);
    assert_eq!(item_level_budget(&xp_entity(vec![sel("virtue.magic_items"), sel("virtue.magic_items")]), &rs), 50);
}

#[test]
fn demonic_blood_grants_infernal_might_5_and_30_power_levels() {
    let rs = xp_ruleset();
    let e = xp_entity(vec![sel("virtue.demonic_blood")]);
    let might = effective_might(&e, &rs).expect("a Demonic-Blooded being has Might");
    assert_eq!(might.realm, Realm::Infernal);
    assert_eq!(might.score, 5);
    assert_eq!(power_levels_budget(&e, &rs), 30);
}

#[test]
fn demonic_might_adds_two_and_powers_add_twenty() {
    let rs = xp_ruleset();
    let e = xp_entity(vec![sel("virtue.demonic_blood"), sel("virtue.demonic_might"), sel("virtue.demonic_powers")]);
    assert_eq!(effective_might(&e, &rs).unwrap().score, 7);
    assert_eq!(power_levels_budget(&e, &rs), 50);
}

#[test]
fn effective_might_adds_grants_to_user_entered_base() {
    let rs = xp_ruleset();
    let mut e = xp_entity(vec![sel("virtue.demonic_might")]);
    e.might = Some(MightScore { realm: Realm::Infernal, score: 4 });
    e.powers = vec![SupernaturalPower { name: s("P"), level: 12 }];
    assert_eq!(effective_might(&e, &rs).unwrap().score, 6); // 4 base + 2 grant
    assert_eq!(powers_used(&e), 12);
    assert!(effective_might(&xp_entity(vec![]), &rs).is_none());
}

#[test]
fn true_faith_grant_sums_score() {
    let rs = xp_ruleset();
    assert_eq!(true_faith(&xp_entity(vec![]), &rs), 0);
    assert_eq!(true_faith(&xp_entity(vec![sel("virtue.true_faith")]), &rs), 1);
}

#[test]
fn warping_grant_sums_score_and_points() {
    let rs = xp_ruleset();
    assert_eq!(warping(&xp_entity(vec![]), &rs), Warping { score: 0, points: 0 });
    assert_eq!(warping(&xp_entity(vec![sel("flaw.warped_by_magic")]), &rs), Warping { score: 1, points: 5 });
}

#[test]
fn warping_sums_stored_and_granted_points_then_inverts() {
    let rs = xp_ruleset();
    let mut e = xp_entity(vec![sel("flaw.warped_by_magic")]);
    e.warping_points = 10;
    assert_eq!(warping_points_total(&e, &rs), 15);
    assert_eq!(warping_score(&e, &rs), 2);
    assert_eq!(warping(&e, &rs), Warping { score: 2, points: 15 });

    let mut only_stored = xp_entity(vec![]);
    only_stored.warping_points = 15;
    assert_eq!(warping_score(&only_stored, &rs), 2);
}

#[test]
fn warping_owed_thresholds_follow_the_score_curve() {
    let owed = WarpingOwed::from_score;
    assert_eq!(owed(0), WarpingOwed::none());
    assert_eq!(owed(1), WarpingOwed { minor_flaws: 1, minor_supernatural_virtues: 0, major_flaws: 0 });
    assert_eq!(owed(3), WarpingOwed { minor_flaws: 2, minor_supernatural_virtues: 0, major_flaws: 0 });
    assert_eq!(owed(5), WarpingOwed { minor_flaws: 2, minor_supernatural_virtues: 1, major_flaws: 0 });
    assert_eq!(owed(6), WarpingOwed { minor_flaws: 2, minor_supernatural_virtues: 1, major_flaws: 1 });
    assert_eq!(owed(7), WarpingOwed { minor_flaws: 2, minor_supernatural_virtues: 1, major_flaws: 2 });
}

/// A non-magus and a magus profile plus an advancement curve.
fn magus_owed_ruleset() -> Ruleset {
    let mut rs = Ruleset::empty();
    rs.point_items = vec![
        item("virtue.the_gift", ItemKind::Virtue, Magnitude::Free, "special", &[], Vec::new()),
        item("flaw.optimistic", ItemKind::Flaw, Magnitude::Major, "personality", &[], Vec::new()),
    ];
    rs.type_profiles = vec![profile("companion", false, 0, None), profile("magus", true, 0, None)];
    rs.advancement = table(&[(1, 5), (2, 15), (3, 30)]);
    rs.characteristic_rules = characteristic_rules();
    rs
}

#[test]
fn magus_is_exempt_from_owed_warping_vf() {
    let rs = magus_owed_ruleset();
    let mut mundane = Entity::new(EntityKind::Character, s("companion"));
    mundane.warping_points = 15;
    assert_eq!(warping_owed(&mundane, &rs), WarpingOwed { minor_flaws: 1, minor_supernatural_virtues: 0, major_flaws: 0 });

    let mut magus = Entity::new(EntityKind::Character, s("magus"));
    magus.warping_points = 15;
    assert_eq!(warping_owed(&magus, &rs), WarpingOwed::none());
}

#[test]
fn owed_warping_fill_folds_off_budget() {
    let rs = xp_ruleset();
    let mut e = xp_entity(vec![]);
    e.warping_points = 5; // owes one Minor Flaw
    e.warping_choices.push((s("warping.minor_flaw.0"), sel("flaw.weak_characteristics")));
    assert!(
        entity_grants(&e, &rs).contains(&sel("flaw.weak_characteristics")),
        "a chosen owed fill should fold into entity_grants"
    );
    assert!(e.selections.is_empty());
}

#[test]
fn warping_grant_fill_does_not_amplify_score_or_owed() {
    let rs = xp_ruleset();
    let mut e = xp_entity(vec![]);
    e.warping_points = 5; // Warping Score 1 → owes exactly one Minor Flaw.
    let baseline_score = warping_score(&e, &rs);
    let baseline_owed = warping_owed(&e, &rs);
    assert_eq!(baseline_owed.minor_flaws, 1);

    e.warping_choices.push((s("warping.minor_flaw.0"), sel("flaw.warped_by_magic")));
    assert_eq!(warping_owed(&e, &rs), baseline_owed);
    assert_eq!(warping_score(&e, &rs), baseline_score);
    assert!(!warping_granted_selections(&e, &rs).contains(&sel("flaw.warped_by_magic")));
}

#[test]
fn an_owed_fill_is_resolved_verbatim_and_judged_elsewhere() {
    let rs = xp_ruleset();
    let mut e = xp_entity(vec![]);
    e.warping_points = 5;
    // The resolver does not judge the pick against the slot's constraint; only a
    // Warping-carrying pick is dropped.
    e.warping_choices.push((s("warping.minor_flaw.0"), sel("virtue.improved_characteristics")));
    assert_eq!(warping_granted_selections(&e, &rs), vec![sel("virtue.improved_characteristics")]);
    // Without Warping Points nothing is owed, so the same pick resolves to nothing.
    e.warping_points = 0;
    assert!(warping_granted_selections(&e, &rs).is_empty());
}

#[test]
fn decrepitude_score_sums_aging_points_and_inverts() {
    let rs = xp_ruleset();
    let mut e = xp_entity(vec![]);
    assert_eq!(decrepitude_score(&e, &rs), 0);
    set(&mut e.aging_points, Characteristic::Str, 10);
    set(&mut e.aging_points, Characteristic::Qik, 7);
    assert_eq!(decrepitude_points_total(&e), 17);
    assert_eq!(decrepitude_score(&e, &rs), 2);
}

#[test]
fn aging_points_derive_the_drop_but_not_creation() {
    let rs = xp_ruleset();
    let mut e = xp_entity(vec![]);
    set(&mut e.characteristics, Characteristic::Str, 3);
    // Minimal points that force two drops on a +3 score: (|3|+1)+(|2|+1) = 7.
    set(&mut e.aging_points, Characteristic::Str, 7);
    assert_eq!(aging_drops(&e, &rs, Characteristic::Str), 2);
    // Derived (aged-down) value is bought − derived drops.
    assert_eq!(effective_characteristic_after_aging(&e, &rs, Characteristic::Str), 1);
    // The bought score creation-legality reads is untouched.
    assert_eq!(get(&e.characteristics, Characteristic::Str), Some(3));
    // The floor clamps at the rules effective minimum (−5), never below.
    set(&mut e.aging_points, Characteristic::Str, 200);
    assert_eq!(effective_characteristic_after_aging(&e, &rs, Characteristic::Str), -5);
}

#[test]
fn aging_drops_match_the_worked_examples() {
    let rs = xp_ruleset();
    let mut com = xp_entity(vec![]);
    set(&mut com.characteristics, Characteristic::Com, 2);
    set(&mut com.aging_points, Characteristic::Com, 2); // ≤ |2|, no drop yet
    assert_eq!(aging_drops(&com, &rs, Characteristic::Com), 0);
    assert_eq!(effective_characteristic_after_aging(&com, &rs, Characteristic::Com), 2);
    set(&mut com.aging_points, Characteristic::Com, 3); // the third point drops it
    assert_eq!(aging_drops(&com, &rs, Characteristic::Com), 1);
    assert_eq!(effective_characteristic_after_aging(&com, &rs, Characteristic::Com), 1);

    let mut sta = xp_entity(vec![]);
    set(&mut sta.characteristics, Characteristic::Sta, -3);
    set(&mut sta.aging_points, Characteristic::Sta, 3); // ≤ |−3|, no drop yet
    assert_eq!(aging_drops(&sta, &rs, Characteristic::Sta), 0);
    set(&mut sta.aging_points, Characteristic::Sta, 4); // the fourth point drops it
    assert_eq!(aging_drops(&sta, &rs, Characteristic::Sta), 1);
    assert_eq!(effective_characteristic_after_aging(&sta, &rs, Characteristic::Sta), -4);
}

#[test]
fn aging_drop_applies_to_bought_score_then_free_delta_stacks_on_top() {
    let rs = xp_ruleset();
    let mut e = xp_entity(vec![sel("virtue.giant_blood")]);
    set(&mut e.characteristics, Characteristic::Str, 5); // bought 5, +1 delta = 6
    assert_eq!(effective_characteristic_after_aging(&e, &rs, Characteristic::Str), 6);
    set(&mut e.aging_points, Characteristic::Str, 6); // |5| = 5, sixth point drops
    assert_eq!(aging_drops(&e, &rs, Characteristic::Str), 1);
    assert_eq!(effective_characteristic_after_aging(&e, &rs, Characteristic::Str), 5);
}

#[test]
fn effective_summary_maps_report_aged_value_and_drops() {
    let rs = xp_ruleset();
    let mut e = xp_entity(vec![]);
    set(&mut e.characteristics, Characteristic::Com, 2);
    set(&mut e.aging_points, Characteristic::Com, 3);

    let effective = effective_characteristics(&e, &rs);
    assert_eq!(get(&effective, Characteristic::Com), Some(1));
    assert_eq!(get(&effective, Characteristic::Str), None);

    let drops = characteristic_aging_drops(&e, &rs);
    assert_eq!(get(&drops, Characteristic::Com), Some(1));
    assert_eq!(get(&drops, Characteristic::Str), None);
}

#[test]
fn effective_summary_map_includes_free_delta_without_aging() {
    let rs = xp_ruleset();
    let mut e = xp_entity(vec![sel("virtue.giant_blood")]);
    set(&mut e.characteristics, Characteristic::Str, 3);
    let effective = effective_characteristics(&e, &rs);
    assert_eq!(get(&effective, Characteristic::Str), Some(4));
    assert!(characteristic_aging_drops(&e, &rs).is_empty());
}

#[test]
fn size_delta_sums_from_virtues_and_flaws() {
    let rs = xp_ruleset();
    assert_eq!(size(&xp_entity(vec![]), &rs), 0);
    assert_eq!(size(&xp_entity(vec![sel("virtue.giant_blood")]), &rs), 2);
    assert_eq!(size(&xp_entity(vec![sel("flaw.dwarf")]), &rs), -2);
}

#[test]
fn giant_blood_grants_free_characteristic_bonus_reaching_six() {
    let rs = xp_ruleset();
    let mut e = xp_entity(vec![sel("virtue.giant_blood")]);
    e.characteristics = vec![(Characteristic::Str, 5)];
    assert_eq!(characteristic_score_bonus(&e, &rs, Characteristic::Str), 1);
    assert_eq!(characteristic_score_bonus(&e, &rs, Characteristic::Qik), 0);
    assert_eq!(effective_characteristic_score(&e, &rs, Characteristic::Str), 6);
}

#[test]
fn characteristic_bonuses_lists_each_nonzero_free_delta_in_canonical_order() {
    let rs = xp_ruleset();
    let e = xp_entity(vec![sel("virtue.giant_blood")]);
    assert_eq!(
        characteristic_bonuses(&e, &rs),
        vec![
            CharacteristicBonus { characteristic: Characteristic::Str, bonus: 1 },
            CharacteristicBonus { characteristic: Characteristic::Sta, bonus: 1 },
        ]
    );
    assert!(characteristic_bonuses(&xp_entity(vec![]), &rs).is_empty());
}

#[test]
fn weak_characteristics_grants_negative_points_and_nets_with_improved() {
    let rs = xp_ruleset();
    let weak = xp_entity(vec![sel("flaw.weak_characteristics")]);
    assert_eq!(characteristic_points_granted(&weak, &rs), -3);
    let netted = xp_entity(vec![sel("virtue.improved_characteristics"), sel("flaw.weak_characteristics")]);
    assert_eq!(characteristic_points_granted(&netted, &rs), 0);
}

#[test]
fn ability_score_grant_is_a_free_floor() {
    let rs = xp_ruleset();
    let e = xp_entity(vec![sel("virtue.second_sight")]);
    assert_eq!(effective_ability_score(&e, &rs, "ability.second_sight", None), 1);
    assert_eq!(xp_allocation(&e, &rs).total_demand, 0);
}

#[test]
fn ability_score_floors_lists_each_granted_ability_once_at_its_max() {
    let rs = xp_ruleset();
    let e = xp_entity(vec![sel("virtue.second_sight")]);
    assert_eq!(ability_score_floors(&e, &rs), vec![AbilityFloor { ability: s("ability.second_sight"), floor: 1 }]);
    assert_eq!(ability_score_floors(&xp_entity(vec![]), &rs), vec![]);
}

#[test]
fn ability_score_grant_floor_does_not_lower_a_higher_bought_score() {
    let rs = xp_ruleset();
    let mut e = xp_entity(vec![sel("virtue.second_sight")]);
    e.ability_scores = vec![plain("ability.second_sight", 3)];
    assert_eq!(effective_ability_score(&e, &rs, "ability.second_sight", None), 3);
}

// --- House-granted Virtues feed the effect scanners ---------------------------------

fn house_ruleset() -> Ruleset {
    let mut rs = Ruleset::empty();
    rs.point_items = vec![
        item("virtue.the_gift", ItemKind::Virtue, Magnitude::Free, "special", &[], Vec::new()),
        item("virtue.heartbeast", ItemKind::Virtue, Magnitude::Major, "hermetic", &[],
            vec![Effect::AbilityScoreGrant { ability: s("ability.heartbeast"), amount: 1 }]),
        item("virtue.puissant_art", ItemKind::Virtue, Magnitude::Minor, "hermetic", &["art"],
            vec![Effect::ArtBonus { param: s("art"), amount: 3 }]),
        item("flaw.optimistic", ItemKind::Flaw, Magnitude::Major, "personality", &[], Vec::new()),
    ];
    rs.abilities = vec![ability("ability.heartbeast", AbilityCategory::Supernatural, None)];
    rs.art_advancement = art_table();
    rs.arts = vec![
        art("art.creo", ArtType::Technique),
        art("art.perdo", ArtType::Technique),
        art("art.ignem", ArtType::Form),
    ];
    rs.houses = vec![
        House {
            id: s("house.bjornaer"),
            lineage_type: LineageType::MysteryCult,
            grants: vec![Grant::Fixed { item: s("virtue.heartbeast"), params: Vec::new() }],
        },
        House {
            id: s("house.flambeau"),
            lineage_type: LineageType::Societas,
            grants: vec![Grant::Choice {
                choice_key: s("flambeau_puissant"),
                options: vec![puissant_art("art.perdo"), puissant_art("art.ignem")],
            }],
        },
    ];
    rs
}

fn magus_in_house(house: &str) -> Entity {
    let mut e = Entity::new(EntityKind::Character, s("magus"));
    e.house = Some(s(house));
    e
}

#[test]
fn selections_for_effects_borrows_without_grants_and_combines_with_them() {
    let rs = house_ruleset();
    let mut e = magus_in_house("house.bjornaer");
    e.house = None;
    e.selections = vec![sel("virtue.the_gift")];
    assert_eq!(selections_for_effects(&e, &rs).len(), 1);
    let g = magus_in_house("house.bjornaer");
    let combined = selections_for_effects(&g, &rs);
    assert_eq!(combined.len(), 1);
    assert_eq!(combined[0].item_ref, "virtue.heartbeast");
}

#[test]
fn house_grant_seeds_a_mystery_ability_floor() {
    let rs = house_ruleset();
    let e = magus_in_house("house.bjornaer");
    assert_eq!(effective_ability_score(&e, &rs, "ability.heartbeast", None), 1);
    assert_eq!(xp_allocation(&e, &rs).total_demand, 0);
}

#[test]
fn granted_puissant_art_adds_to_effective_art_score() {
    let rs = house_ruleset();
    let mut e = magus_in_house("house.flambeau");
    e.house_choices.push((s("flambeau_puissant"), puissant_art("art.ignem")));
    e.art_scores = vec![art_row("art.ignem", 2)];
    assert_eq!(effective_art_score(&e, &rs, "art.ignem"), 5);
    assert_eq!(art_bonus(&e, &rs, "art.perdo"), 0);
}

// --- Elemental Magic -------------------------------------------------------------------

fn elemental_ruleset() -> Ruleset {
    let mut rs = Ruleset::empty();
    rs.point_items = vec![
        item("virtue.elemental_magic", ItemKind::Virtue, Magnitude::Major, "hermetic", &[],
            vec![Effect::ElementalMagic {
                forms: vec![s("art.aquam"), s("art.auram"), s("art.ignem"), s("art.terram")],
            }]),
        item("virtue.puissant_art", ItemKind::Virtue, Magnitude::Minor, "general", &["art"],
            vec![Effect::ArtBonus { param: s("art"), amount: 3 }]),
        item("flaw.optimistic", ItemKind::Flaw, Magnitude::Major, "personality", &[], Vec::new()),
    ];
    rs.type_profiles = vec![profile("companion", false, 0, None)];
    rs.abilities = vec![ability("ability.awareness", AbilityCategory::General, None)];
    rs.art_advancement =
        table(&[(1, 1), (2, 3), (3, 6), (4, 10), (5, 15), (6, 21), (7, 28), (8, 36), (9, 45), (10, 55)]);
    rs.arts = vec![
        art("art.creo", ArtType::Technique),
        art("art.aquam", ArtType::Form),
        art("art.auram", ArtType::Form),
        art("art.corpus", ArtType::Form),
        art("art.ignem", ArtType::Form),
        art("art.terram", ArtType::Form),
    ];
    rs.characteristic_rules = characteristic_rules();
    rs
}

#[test]
fn elemental_magic_redistributes_art_xp_rounded_up() {
    let rs = elemental_ruleset();
    let mut e = entity(vec![sel("virtue.elemental_magic")]);
    e.art_scores = vec![art_row("art.aquam", 6), art_row("art.auram", 6), art_row("art.ignem", 6), art_row("art.terram", 4)];
    assert_eq!(effective_art_score(&e, &rs, "art.aquam"), 9);
    assert_eq!(effective_art_score(&e, &rs, "art.auram"), 9);
    assert_eq!(effective_art_score(&e, &rs, "art.ignem"), 9);
    assert_eq!(effective_art_score(&e, &rs, "art.terram"), 8);
    let bonuses = art_bonuses(&e, &rs);
    let bonus = |a: &str| bonuses.iter().find(|b| b.art == a).map(|b| b.bonus);
    assert_eq!(bonus("art.aquam"), Some(3));
    assert_eq!(bonus("art.terram"), Some(4));
}

#[test]
fn art_bonuses_include_elemental_boost_at_bought_zero() {
    let rs = elemental_ruleset();
    let mut e = entity(vec![sel("virtue.elemental_magic")]);
    e.art_scores = vec![art_row("art.aquam", 6), art_row("art.auram", 6), art_row("art.ignem", 6)];
    assert_eq!(effective_art_score(&e, &rs, "art.terram"), 7);
    let bonuses = art_bonuses(&e, &rs);
    assert_eq!(bonuses.iter().find(|b| b.art == "art.terram").map(|b| b.bonus), Some(7));
}

#[test]
fn non_elemental_magus_unaffected_by_redistribution() {
    let rs = elemental_ruleset();
    let mut e = entity(vec![]);
    e.art_scores = vec![art_row("art.aquam", 6), art_row("art.ignem", 6), art_row("art.terram", 4)];
    assert_eq!(effective_art_score(&e, &rs, "art.aquam"), 6);
    assert_eq!(effective_art_score(&e, &rs, "art.ignem"), 6);
    assert_eq!(effective_art_score(&e, &rs, "art.terram"), 4);
    assert!(art_bonuses(&e, &rs).is_empty());
}

#[test]
fn elemental_magic_scoped_to_the_four_forms() {
    let rs = elemental_ruleset();
    let mut e = entity(vec![sel("virtue.elemental_magic")]);
    e.art_scores = vec![
        art_row("art.aquam", 6),
        art_row("art.auram", 6),
        art_row("art.ignem", 6),
        art_row("art.terram", 6),
        art_row("art.corpus", 6),
        art_row("art.creo", 6),
    ];
    assert_eq!(effective_art_score(&e, &rs, "art.corpus"), 6);
    assert_eq!(effective_art_score(&e, &rs, "art.creo"), 6);
}

#[test]
fn elemental_boost_and_puissant_stack() {
    let rs = elemental_ruleset();
    let mut e = entity(vec![sel("virtue.elemental_magic"), puissant_art("art.ignem")]);
    e.art_scores = vec![art_row("art.aquam", 6), art_row("art.auram", 6), art_row("art.ignem", 6), art_row("art.terram", 4)];
    assert_eq!(effective_art_score(&e, &rs, "art.ignem"), 12);
}

#[test]
fn elemental_magic_does_not_perturb_xp_pool_spend() {
    let rs = elemental_ruleset();
    let scores = || vec![art_row("art.aquam", 6), art_row("art.auram", 6), art_row("art.ignem", 6), art_row("art.terram", 4)];
    let mut with = entity(vec![sel("virtue.elemental_magic")]);
    with.art_scores = scores();
    let mut without = entity(vec![]);
    without.art_scores = scores();
    assert_eq!(xp_allocation(&with, &rs).total_demand, 73);
    assert_eq!(xp_allocation(&with, &rs).total_demand, xp_allocation(&without, &rs).total_demand);
}

// --- life-stage pools ---------------------------------------------------------------

fn life_stage_ruleset() -> Ruleset {
    let mut rs = Ruleset::empty();
    rs.point_items = vec![
        item("flaw.optimistic", ItemKind::Flaw, Magnitude::Minor, "personality", &[], Vec::new()),
        item("virtue.affinity_with_ability", ItemKind::Virtue, Magnitude::Minor, "general", &["ability"],
            vec![Effect::AffinityAbilityCost { param: s("ability"), counts_as_num: 3, counts_as_den: 2 }]),
        item("virtue.puissant_ability", ItemKind::Virtue, Magnitude::Minor, "general", &["ability"],
            vec![Effect::AbilityBonus { param: s("ability"), amount: 2 }]),
        item("virtue.skilled_parens", ItemKind::Virtue, Magnitude::Minor, "hermetic", &[],
            vec![Effect::GeneralXp { amount: 60 }]),
        item("flaw.covenant_upbringing", ItemKind::Flaw, Magnitude::Minor, "general", &[],
            vec![Effect::AbilityAuthorization { abilities: vec![s("ability.dead_language")], categories: Vec::new() }]),
    ];
    rs.type_profiles = vec![profile("companion", false, 0, None), profile("magus", true, 120, None)];
    rs.advancement = ability_table();
    rs.categories_requiring_virtue = vec![AbilityCategory::Academic, AbilityCategory::Arcane, AbilityCategory::Martial];
    rs.abilities = vec![
        ability("ability.artes_liberales", AbilityCategory::Academic, None),
        ability("ability.concentration", AbilityCategory::General, None),
        ability("ability.dead_language", AbilityCategory::Academic, Some("language")),
        ability("ability.living_language", AbilityCategory::General, Some("language")),
        ability("ability.magic_theory", AbilityCategory::Arcane, None),
        ability("ability.parma_magica", AbilityCategory::Arcane, None),
        ability("ability.penetration", AbilityCategory::Arcane, None),
        ability("ability.philosophiae", AbilityCategory::Academic, None),
        ability("ability.swim", AbilityCategory::General, None),
    ];
    rs.art_advancement = table(&[
        (1, 1), (2, 3), (3, 6), (4, 10), (5, 15), (6, 21), (7, 28), (8, 36), (9, 45), (10, 55),
        (11, 66), (12, 78), (13, 91), (14, 105), (15, 120), (16, 136), (17, 153), (18, 171), (19, 190), (20, 210),
    ]);
    rs.arts = vec![art("art.corpus", ArtType::Form), art("art.creo", ArtType::Technique), art("art.ignem", ArtType::Form)];
    rs.life_stages = Some(LifeStageRules {
        apprenticeship: Some(ApprenticeshipRules {
            minimum_abilities: Vec::new(),
            recommended_abilities: Vec::new(),
            recommended_xp: 0,
            xp: 240,
            years: 15,
        }),
        childhood: ChildhoodRules {
            years: 5,
            native_language_ability: s("ability.living_language"),
            native_language_xp: 75,
            spread_xp: 45,
            spread_abilities: vec![s("ability.living_language"), s("ability.swim")],
        },
        later_life: LaterLifeRules { xp_per_year: 15 },
        post_apprenticeship: Some(PostApprenticeshipRules {
            lab_season_cost: 10,
            max_charged_lab_seasons_per_year: 3,
            points_per_year: 30,
        }),
    });
    rs
}

fn plan(gauntlet_age: Option<u32>, lab_seasons: u32, spell_levels: u32) -> LifeStagePlan {
    LifeStagePlan {
        native_language: Some(s("German")),
        childhood_package: None,
        gauntlet_age,
        post_gauntlet_lab_seasons: lab_seasons,
        post_gauntlet_spell_levels: spell_levels,
    }
}

/// A 25-year-old companion whose childhood bought Native Language (German) 5.
fn planned_companion() -> Entity {
    let mut entity = Entity::new(EntityKind::Character, s("companion"));
    entity.age = Some(25);
    entity.life_stages = Some(plan(None, 0, 0));
    entity.ability_scores =
        vec![AbilityScore { ability: s("ability.living_language"), parameter: Some(s("German")), score: 5, specialty: None }];
    entity
}

/// The same, as a magus standing at its Gauntlet.
fn planned_magus() -> Entity {
    let mut entity = planned_companion();
    entity.type_id = s("magus");
    entity
}

/// A magus gauntleted at 25 and now 60.
fn experienced_magus() -> Entity {
    let mut magus = planned_magus();
    magus.age = Some(60);
    magus.life_stages = Some(plan(Some(25), 0, 0));
    magus
}

fn later_life_pool(allocation: &XpAllocation) -> Option<&RestrictedXpPool> {
    allocation
        .restricted
        .iter()
        .find(|pool| pool.origin == XpPoolOrigin::LifeStage { block: LifeStageBlock::LaterLife })
}

#[test]
fn life_stage_pools_carry_their_origin() {
    let rs = life_stage_ruleset();
    let allocation = xp_allocation(&planned_companion(), &rs);
    let origins: Vec<&XpPoolOrigin> = allocation.restricted.iter().map(|p| &p.origin).collect();
    assert!(
        origins.contains(&&XpPoolOrigin::LifeStage { block: LifeStageBlock::ChildhoodNativeLanguage }),
        "origins: {origins:?}"
    );
    assert!(
        origins.contains(&&XpPoolOrigin::LifeStage { block: LifeStageBlock::ChildhoodSpread }),
        "origins: {origins:?}"
    );
}

#[test]
fn childhood_spread_pool_lists_its_abilities_as_a_set() {
    let mut rs = life_stage_ruleset();
    if let Some(rules) = rs.life_stages.as_mut() {
        rules.childhood.spread_abilities = vec![s("ability.swim"), s("ability.living_language"), s("ability.swim")];
    }
    let allocation = xp_allocation(&planned_companion(), &rs);
    let spread = allocation
        .restricted
        .iter()
        .find(|pool| pool.origin == XpPoolOrigin::LifeStage { block: LifeStageBlock::ChildhoodSpread })
        .expect("a childhood spread pool");
    assert_eq!(spread.abilities, vec![s("ability.living_language"), s("ability.swim")]);
}

#[test]
fn life_stage_blocks_include_later_life() {
    assert_eq!(LifeStageBlock::all().len(), 3);
    assert!(LifeStageBlock::all().contains(&LifeStageBlock::LaterLife));
    assert_eq!(LifeStageBlock::LaterLife.slug(), "later_life");
}

#[test]
fn the_general_pool_of_a_guided_magus_is_its_apprenticeship() {
    let rs = life_stage_ruleset();
    assert_eq!(xp_allocation(&planned_magus(), &rs).general_pool, 240);
    let mut magus = planned_magus();
    magus.selections = vec![sel("virtue.skilled_parens")];
    assert_eq!(xp_allocation(&magus, &rs).general_pool, 300);
    assert_eq!(xp_allocation(&planned_companion(), &rs).general_pool, 300);
}

#[test]
fn the_native_language_block_pays_for_the_native_language() {
    let rs = life_stage_ruleset();
    let allocation = xp_allocation(&planned_companion(), &rs);
    assert_eq!(allocation.total_demand, 75);
    assert_eq!(allocation.max_flow, 75, "the spend is fully funded");
    assert_eq!(allocation.general_used, 0, "later life pays none of it");
    assert_eq!(allocation.general_pool, 300, "20 years at 15 a year");
}

#[test]
fn the_spread_block_pays_for_a_childhood_ability() {
    let rs = life_stage_ruleset();
    let mut entity = planned_companion();
    entity.ability_scores.push(plain("ability.swim", 2));
    let allocation = xp_allocation(&entity, &rs);
    assert_eq!(allocation.total_demand, 90, "75 + 15");
    assert_eq!(allocation.max_flow, 90);
    assert_eq!(allocation.general_used, 0, "childhood covers both");
}

#[test]
fn an_ability_off_the_childhood_list_falls_to_later_life() {
    let rs = life_stage_ruleset();
    let mut entity = planned_companion();
    entity.ability_scores.push(plain("ability.concentration", 2));
    let allocation = xp_allocation(&entity, &rs);
    assert_eq!(allocation.max_flow, 90, "fully funded");
    assert_eq!(allocation.general_used, 15, "later life pays the 15");
}

#[test]
fn a_second_living_language_draws_the_spread_not_the_native_block() {
    let rs = life_stage_ruleset();
    let mut entity = planned_companion();
    entity.ability_scores.push(AbilityScore {
        ability: s("ability.living_language"),
        parameter: Some(s("French")),
        score: 3,
        specialty: None,
    });
    let allocation = xp_allocation(&entity, &rs);
    assert_eq!(allocation.total_demand, 105, "75 + 30");
    assert_eq!(allocation.max_flow, 105);
    assert_eq!(allocation.general_used, 0);

    entity.ability_scores[1].score = 5; // 75 xp
    let allocation = xp_allocation(&entity, &rs);
    assert_eq!(allocation.total_demand, 150);
    assert_eq!(allocation.max_flow, 150);
    assert_eq!(allocation.general_used, 30, "75 − 45 comes from later life");
}

#[test]
fn affinity_still_discounts_a_childhood_funded_ability() {
    let rs = life_stage_ruleset();
    let mut entity = planned_companion();
    entity.selections = vec![sel_param("virtue.affinity_with_ability", "ability", "ability.swim")];
    entity.ability_scores.push(plain("ability.swim", 2));
    assert_eq!(xp_allocation(&entity, &rs).total_demand, 85, "75 + ceil(15 * 2/3) = 75 + 10");
}

#[test]
fn puissant_costs_no_life_stage_experience() {
    let rs = life_stage_ruleset();
    let mut entity = planned_companion();
    entity.selections = vec![sel_param("virtue.puissant_ability", "ability", "ability.swim")];
    assert_eq!(xp_allocation(&entity, &rs).total_demand, 75, "only the native language is charged");
}

#[test]
fn direct_entry_allocation_is_unchanged() {
    let rs = life_stage_ruleset();
    let mut entity = planned_companion();
    entity.life_stages = None;
    entity.xp_pool = 120;
    let allocation = xp_allocation(&entity, &rs);
    assert_eq!(allocation.general_pool, 120);
    assert_eq!(allocation.general_used, 75);
    assert!(allocation.restricted.is_empty(), "no life-stage pools: {:?}", allocation.restricted);
}

#[test]
fn pre_apprenticeship_experience_cannot_buy_a_gated_ability() {
    let rs = life_stage_ruleset();
    let mut magus = planned_magus();
    magus.ability_scores.push(plain("ability.concentration", 3));
    let allocation = xp_allocation(&magus, &rs);
    let pool = later_life_pool(&allocation).expect("a guided magus has a later-life pool");
    assert_eq!(pool.amount, 75, "five years at 15 a year");
    assert_eq!(pool.used, 30, "later life buys the General Ability");
    assert_eq!(allocation.general_used, 0, "apprenticeship pays none of it");

    magus.ability_scores.pop();
    magus.ability_scores.push(plain("ability.artes_liberales", 3));
    let allocation = xp_allocation(&magus, &rs);
    assert_eq!(later_life_pool(&allocation).expect("still there").used, 0);
    assert_eq!(allocation.general_used, 30, "apprenticeship funds it");

    assert!(later_life_pool(&xp_allocation(&planned_companion(), &rs)).is_none());
}

#[test]
fn an_authorizing_virtue_lets_pre_apprenticeship_experience_buy_a_gated_ability() {
    let rs = life_stage_ruleset();
    let mut magus = planned_magus();
    magus.ability_scores.push(AbilityScore {
        ability: s("ability.dead_language"),
        parameter: Some(s("Latin")),
        score: 3,
        specialty: None,
    });
    let allocation = xp_allocation(&magus, &rs);
    assert_eq!(later_life_pool(&allocation).expect("a pool").used, 0);
    assert_eq!(allocation.general_used, 30);

    magus.selections = vec![sel("flaw.covenant_upbringing")];
    let allocation = xp_allocation(&magus, &rs);
    assert_eq!(later_life_pool(&allocation).expect("a pool").used, 30);
    assert_eq!(allocation.general_used, 0);

    magus.ability_scores.pop();
    magus.ability_scores.push(plain("ability.artes_liberales", 3));
    let allocation = xp_allocation(&magus, &rs);
    assert_eq!(later_life_pool(&allocation).expect("a pool").used, 0);
    assert_eq!(allocation.general_used, 30);
}

#[test]
fn post_gauntlet_experience_buys_arts_from_the_general_pool() {
    let rs = life_stage_ruleset();
    let mut magus = experienced_magus();
    magus.art_scores = vec![art_row("art.creo", 20), art_row("art.ignem", 20)];
    let allocation = xp_allocation(&magus, &rs);
    assert_eq!(allocation.general_pool, 1290, "240 apprenticeship + 35 years at 30 a year");
    assert_eq!(allocation.total_demand, 495, "75 native language + 420 Arts");
    assert_eq!(allocation.max_flow, 495, "fully funded");
    assert_eq!(allocation.general_used, 420, "the general pool pays the Arts");
}

#[test]
fn post_gauntlet_years_leave_later_life_restricted() {
    let rs = life_stage_ruleset();
    let mut magus = experienced_magus();
    magus.art_scores = vec![art_row("art.creo", 5)];
    magus.ability_scores.push(plain("ability.artes_liberales", 3));
    let allocation = xp_allocation(&magus, &rs);
    let pool = later_life_pool(&allocation).expect("an experienced magus still has one");
    assert_eq!(pool.amount, 75, "five years at 15 a year, unchanged");
    assert_eq!(pool.used, 0, "later life buys neither the Art nor the Academic Ability");
    assert_eq!(allocation.general_used, 45, "15 for the Art + 30 for Latin");
}

#[test]
fn a_companion_allocation_ignores_post_gauntlet_fields() {
    let rs = life_stage_ruleset();
    let plain_companion = planned_companion();
    let mut annotated = planned_companion();
    annotated.life_stages = Some(plan(Some(20), 4, 100));
    assert_eq!(xp_allocation(&annotated, &rs), xp_allocation(&plain_companion, &rs));
}

#[test]
fn a_magus_at_its_gauntlet_has_only_its_apprenticeship() {
    let rs = life_stage_ruleset();
    let mut magus = planned_magus();
    magus.life_stages = Some(plan(None, 4, 100));
    assert_eq!(xp_allocation(&magus, &rs).general_pool, 240);
}

#[test]
fn post_gauntlet_spell_levels_add_to_the_profile_budget() {
    let rs = life_stage_ruleset();
    let profile = rs.profile("magus");
    let mut magus = experienced_magus();
    magus.life_stages = Some(plan(Some(25), 0, 300));
    assert_eq!(life_stage_spell_levels(&magus, &rs), 300);
    let base = spell_levels_base(&magus, profile);
    assert_eq!(base, 120, "the profile's apprenticeship levels, untouched");
    assert_eq!(spell_levels_budget(base, &magus, &rs), 420, "120 + 300");
}

#[test]
fn a_magus_at_its_gauntlet_keeps_the_profile_spell_budget() {
    let rs = life_stage_ruleset();
    let profile = rs.profile("magus");
    let magus = planned_magus();
    assert_eq!(life_stage_spell_levels(&magus, &rs), 0);
    let base = spell_levels_base(&magus, profile);
    assert_eq!(spell_levels_budget(base, &magus, &rs), 120);
}

#[test]
fn an_override_replaces_the_base_not_the_post_gauntlet_levels() {
    let rs = life_stage_ruleset();
    let profile = rs.profile("magus");
    let mut magus = experienced_magus();
    magus.life_stages = Some(plan(Some(25), 0, 300));
    magus.spell_levels_override = Some(80);
    let base = spell_levels_base(&magus, profile);
    assert_eq!(base, 80, "the override replaces the profile's 120");
    assert_eq!(spell_levels_budget(base, &magus, &rs), 380, "80 + 300");
}

#[test]
fn a_non_magus_gets_no_post_gauntlet_spell_levels() {
    let rs = life_stage_ruleset();
    let mut companion = planned_companion();
    companion.life_stages = Some(plan(Some(20), 0, 100));
    assert_eq!(life_stage_spell_levels(&companion, &rs), 0);

    let mut direct = planned_magus();
    direct.life_stages = None;
    assert_eq!(life_stage_spell_levels(&direct, &rs), 0);
}

#[test]
fn the_allocation_never_draws_more_than_is_demanded_or_held() {
    let rs = life_stage_ruleset();
    let mut companion = planned_companion();
    companion.ability_scores.push(plain("ability.concentration", 2));
    let allocation = xp_allocation(&companion, &rs);
    assert!(allocation.max_flow <= allocation.total_demand);
    assert!(allocation.general_used <= allocation.general_pool);
    let drawn: u32 = allocation.restricted.iter().map(|p| p.used).sum();
    for pool in &allocation.restricted {
        assert!(pool.used <= pool.amount);
    }
    // Every funded point was drawn from a pool (no Spell Mastery pool here).
    assert_eq!(allocation.max_flow, allocation.general_used + drawn);
}

// --- reputations, the free Supernatural slot, age caps, spent levels -------------------

#[test]
fn reputation_grants_are_listed_in_selection_order() {
    let mut rs = xp_ruleset();
    rs.point_items.push(item("virtue.famous", ItemKind::Virtue, Magnitude::Minor, "general", &[],
        vec![Effect::GrantsReputation { kind: Some(ReputationType::Local), score: 2 }]));
    rs.point_items.push(item("flaw.infamous", ItemKind::Flaw, Magnitude::Minor, "general", &[],
        vec![Effect::GrantsReputation { kind: None, score: 1 }]));
    assert!(reputation_grants(&xp_entity(vec![]), &rs).is_empty());
    let e = xp_entity(vec![sel("flaw.infamous"), sel("virtue.famous")]);
    assert_eq!(
        reputation_grants(&e, &rs),
        vec![
            ReputationGrant { reputation_type: None, score: 1 },
            ReputationGrant { reputation_type: Some(ReputationType::Local), score: 2 },
        ]
    );
}

#[test]
fn a_gifted_companion_has_one_free_supernatural_slot() {
    let rs = xp_ruleset();
    let companion_profile = rs.profile("companion").unwrap();
    let mut e = xp_entity(vec![sel("virtue.the_gift")]);
    e.ability_scores = vec![plain("ability.second_sight", 1), plain("ability.awareness", 2)];
    let slots = supernatural_free_slots(&e, &rs, companion_profile);
    assert_eq!(slots.total, 1);
    assert_eq!(slots.used, 1, "Second Sight is Supernatural and no Virtue grants it");

    // A granting Virtue seeds the Ability, so it takes no free slot.
    e.selections.push(sel("virtue.second_sight"));
    assert_eq!(supernatural_free_slots(&e, &rs, companion_profile).used, 0);

    // Without the Gift there is no free slot.
    let ungifted = xp_entity(vec![]);
    assert_eq!(supernatural_free_slots(&ungifted, &rs, companion_profile).total, 0);
}

fn age_cap_ruleset() -> Ruleset {
    let mut rs = xp_ruleset();
    rs.age_ability_caps = vec![
        AgeAbilityCap { up_to_age: Some(20), max_score: 5 },
        AgeAbilityCap { up_to_age: Some(40), max_score: 7 },
        AgeAbilityCap { up_to_age: None, max_score: 9 },
    ];
    rs.abilities.push(AbilityDef {
        id: s("ability.area_lore"),
        category: AbilityCategory::General,
        parameter: Some(s("area")),
        locality_dependent: true,
        combat_ability: false,
    });
    rs.point_items.push(item("flaw.outsider", ItemKind::Flaw, Magnitude::Minor, "general", &[],
        vec![Effect::LocalityAbilityCapFraction { num: 1, den: 2 }]));
    rs
}

#[test]
fn the_age_caps_read_the_first_band_that_reaches_the_age() {
    let rs = age_cap_ruleset();
    assert_eq!(age_max_ability_score(&rs, 15), Some(5));
    assert_eq!(age_max_ability_score(&rs, 20), Some(5));
    assert_eq!(age_max_ability_score(&rs, 21), Some(7));
    assert_eq!(age_max_ability_score(&rs, 90), Some(9));
    assert_eq!(age_max_ability_score(&Ruleset::empty(), 90), None);

    let mut e = xp_entity(vec![]);
    assert_eq!(age_ability_cap(&e, &rs), None, "no age, no cap");
    e.age = Some(30);
    assert_eq!(age_ability_cap(&e, &rs), Some(7));
}

#[test]
fn a_locality_fraction_lowers_only_locality_dependent_abilities() {
    let rs = age_cap_ruleset();
    let mut e = xp_entity(vec![sel("flaw.outsider")]);
    e.age = Some(30);
    // ceil(7 / 2) = 4 for the locality-dependent Lore; Awareness keeps 7.
    assert_eq!(ability_age_cap(&e, &rs, "ability.area_lore"), Some(4));
    assert_eq!(ability_age_cap(&e, &rs, "ability.awareness"), Some(7));
    let plain_entity = { let mut p = xp_entity(vec![]); p.age = Some(30); p };
    assert_eq!(ability_age_cap(&plain_entity, &rs, "ability.area_lore"), Some(7));
}

#[test]
fn devices_and_spells_report_the_levels_they_spend() {
    let mut rs = xp_ruleset();
    rs.spells = vec![
        SpellDef { id: s("spell.pilum"), technique: s("art.creo"), form: s("art.ignem"), level: Some(20), parameters: Vec::new() },
        SpellDef { id: s("spell.boost"), technique: s("art.creo"), form: s("art.ignem"), level: None, parameters: Vec::new() },
    ];
    let mut e = xp_entity(vec![]);
    e.devices = vec![EnchantedDevice { name: s("Ring"), level: 15 }, EnchantedDevice { name: s("Staff"), level: 10 }];
    assert_eq!(item_level_used(&e), 25);

    let general = SpellSelection { spell: s("spell.boost"), level: Some(35), mastery: None, parameter: None, mastery_abilities: Vec::new() };
    let unknown = SpellSelection { spell: s("spell.unknown"), level: Some(5), mastery: None, parameter: None, mastery_abilities: Vec::new() };
    assert_eq!(resolved_spell_level(&mastered("spell.pilum", 0), &rs), Some(20));
    assert_eq!(resolved_spell_level(&general, &rs), Some(35));
    assert_eq!(resolved_spell_level(&unknown, &rs), None);
    e.spells = vec![mastered("spell.pilum", 0), general, unknown];
    assert_eq!(spell_levels_used(&e, &rs), 55);
}
