use std::collections::{BTreeMap, BTreeSet};

use arm_rules::derived::{fatigue_levels, soak, wound_ranges};
use arm_rules::effective::xp::LifeStageBlock;
use arm_rules::entity::{
    AbilityScore, AgingLogEntry, ArtScore, EnchantedDevice, Entity, EquipmentSlot, Familiar, LongevityRitual,
    PersonalityTrait, Reputation, SpellSelection, SupernaturalPower, Talisman, TalismanAttunement, TalismanEffect,
    TwilightScar,
};
use arm_rules::equipment::{Armor, Shield, Weapon, WeaponKind};
use arm_rules::export::{character_markdown as render, escape_cell, label_keys, MissingLabel};
use arm_rules::grant::Grant;
use arm_rules::house::{House, LineageType};
use arm_rules::life_stage::{
    AbilityRequirement, ApprenticeshipRules, ChildhoodRules, LaterLifeRules, LifeStagePlan, LifeStageRules,
    PostApprenticeshipRules,
};
use arm_rules::ruleset::{
    AbilityDef, AdvancementRow, AdvancementTable, ArtDef, EntityTypeProfile, I18nEntry, LocalizedRuleset, ParameterDef,
    PointItem, Ruleset, SpellDef,
};
use arm_rules::text::signed;
use arm_rules::types::{
    AbilityCategory, ArtType, Characteristic, CrisisSeverity, Effect, EntityKind, ItemKind, LongevitySource, Magnitude,
    MightScore, Realm, ReputationType, Selection,
};

// --- fixture ------------------------------------------------------------------

fn s(x: &str) -> String {
    x.to_string()
}

fn item(id: &str, kind: ItemKind, magnitude: Magnitude, category: &str, params: &[&str], effects: Vec<Effect>) -> PointItem {
    PointItem {
        id: s(id),
        kind,
        magnitude,
        category: s(category),
        extra_categories: Vec::new(),
        parameters: params.iter().map(|k| ParameterDef { key: s(k) }).collect(),
        effects,
        required_house: None,
    }
}

fn ability(id: &str, category: AbilityCategory, parameter: Option<&str>, combat: bool) -> AbilityDef {
    AbilityDef {
        id: s(id),
        category,
        parameter: parameter.map(s),
        locality_dependent: false,
        combat_ability: combat,
    }
}

fn profile(id: &str, is_magus: bool, confidence: (u8, u8)) -> EntityTypeProfile {
    EntityTypeProfile {
        id: s(id),
        is_magus,
        virtue_points: 10,
        flaw_points: 10,
        confidence_score: confidence.0,
        confidence_points: confidence.1,
        gift_id: None,
        gift_categories: Vec::new(),
        spell_levels: 0,
    }
}

fn table(rows: &[(u8, u32)]) -> AdvancementTable {
    AdvancementTable {
        rows: rows.iter().map(|(score, xp)| AdvancementRow { score: *score, total_xp: *xp }).collect(),
    }
}

fn sel(id: &str) -> Selection {
    Selection::new(s(id))
}

fn sel_with(id: &str, params: &[(&str, &str)]) -> Selection {
    let map: BTreeMap<String, String> = params.iter().map(|(k, v)| (s(k), s(v))).collect();
    Selection::with_params(s(id), map.into_iter().collect())
}

fn name(id: &str, text: &str) -> I18nEntry {
    I18nEntry { id: s(id), name: s(text), abbreviation: None }
}

fn art_name(id: &str, text: &str, abbreviation: &str) -> I18nEntry {
    I18nEntry { id: s(id), name: s(text), abbreviation: Some(s(abbreviation)) }
}

/// A small magus-capable ruleset with one Characteristic-moving Virtue.
fn ruleset() -> LocalizedRuleset {
    let point_items = vec![
        item("virtue.giant_blood", ItemKind::Virtue, Magnitude::Major, "general", &[],
            vec![Effect::CharacteristicScoreDelta { characteristic: s("characteristic.str"), amount: 1 }]),
        item("boon.rich_vis_source", ItemKind::Boon, Magnitude::Minor, "general", &[], Vec::new()),
        item("flaw.optimistic", ItemKind::Flaw, Magnitude::Minor, "personality", &[], Vec::new()),
        item("virtue.puissant_ability", ItemKind::Virtue, Magnitude::Minor, "general", &["ability"],
            vec![Effect::AbilityBonus { param: s("ability"), amount: 2 }]),
        item("virtue.puissant_art", ItemKind::Virtue, Magnitude::Minor, "hermetic", &["art"],
            vec![Effect::ArtBonus { param: s("art"), amount: 3 }]),
        item("virtue.minor_magical_focus", ItemKind::Virtue, Magnitude::Minor, "hermetic", &["focus"],
            vec![Effect::MagicalFocus { param: s("focus"), major: false }]),
        item("virtue.warrior", ItemKind::Virtue, Magnitude::Minor, "general", &[],
            vec![Effect::RestrictedAbilityXp { amount: 50, abilities: Vec::new(), categories: vec![AbilityCategory::Martial] }]),
        item("virtue.second_sight", ItemKind::Virtue, Magnitude::Minor, "supernatural", &[],
            vec![Effect::AbilityScoreGrant { ability: s("ability.second_sight"), amount: 1 }]),
        item("virtue.educated", ItemKind::Virtue, Magnitude::Minor, "general", &[],
            vec![Effect::RestrictedAbilityXp {
                amount: 50,
                abilities: vec![s("ability.artes_liberales"), s("ability.dead_language")],
                categories: Vec::new(),
            }]),
        item("virtue.malformed_name", ItemKind::Virtue, Magnitude::Free, "general", &[], Vec::new()),
    ];
    let abilities = vec![
        ability("ability.awareness", AbilityCategory::General, None, false),
        ability("ability.artes_liberales", AbilityCategory::Academic, None, false),
        ability("ability.magic_theory", AbilityCategory::Arcane, None, false),
        ability("ability.parma_magica", AbilityCategory::Arcane, None, false),
        ability("ability.penetration", AbilityCategory::Arcane, None, false),
        ability("ability.philosophiae", AbilityCategory::Academic, None, false),
        ability("ability.area_lore", AbilityCategory::General, Some("area"), false),
        ability("ability.dead_language", AbilityCategory::Academic, Some("language"), false),
        ability("ability.second_sight", AbilityCategory::Supernatural, None, false),
        ability("ability.single_weapon", AbilityCategory::Martial, None, false),
        ability("ability.living_language", AbilityCategory::General, Some("language"), false),
        ability("ability.brawl", AbilityCategory::General, None, true),
    ];
    let life_stages = LifeStageRules {
        apprenticeship: Some(ApprenticeshipRules {
            minimum_abilities: vec![AbilityRequirement { ability: s("ability.parma_magica"), min_score: 1, parameter: None }],
            recommended_abilities: Vec::new(),
            recommended_xp: 0,
            xp: 240,
            years: 15,
        }),
        childhood: ChildhoodRules {
            years: 5,
            native_language_ability: s("ability.living_language"),
            native_language_xp: 75,
            spread_xp: 45,
            spread_abilities: vec![s("ability.awareness"), s("ability.brawl")],
        },
        later_life: LaterLifeRules { xp_per_year: 15 },
        post_apprenticeship: Some(PostApprenticeshipRules {
            lab_season_cost: 10,
            max_charged_lab_seasons_per_year: 3,
            points_per_year: 30,
        }),
    };
    let houses = vec![
        House {
            id: s("house.bonisagus"),
            lineage_type: LineageType::TrueLineage,
            grants: vec![Grant::Choice {
                choice_key: s("bonisagus_puissant"),
                options: vec![
                    sel_with("virtue.puissant_ability", &[("ability", "ability.awareness")]),
                    sel_with("virtue.puissant_ability", &[("ability", "ability.single_weapon")]),
                ],
            }],
        },
        House {
            id: s("house.ex_miscellanea"),
            lineage_type: LineageType::Societas,
            grants: vec![Grant::Fixed { item: s("flaw.optimistic"), params: Vec::new() }],
        },
    ];
    let rs = Ruleset {
        point_items,
        type_profiles: vec![profile("magus", true, (1, 3)), profile("covenant", false, (0, 0))],
        abilities,
        advancement: table(&[(1, 5), (2, 15), (3, 30), (4, 50), (5, 75)]),
        art_advancement: table(&[(1, 1), (5, 15), (8, 36), (10, 55)]),
        arts: vec![
            ArtDef { id: s("art.creo"), art_type: ArtType::Technique },
            ArtDef { id: s("art.muto"), art_type: ArtType::Technique },
            ArtDef { id: s("art.corpus"), art_type: ArtType::Form },
            ArtDef { id: s("art.ignem"), art_type: ArtType::Form },
            ArtDef { id: s("art.vim"), art_type: ArtType::Form },
        ],
        houses,
        mythic_types: Vec::new(),
        spells: vec![
            SpellDef { id: s("spell.pilum_of_fire"), technique: s("art.creo"), form: s("art.ignem"), level: Some(20), parameters: Vec::new() },
            SpellDef {
                id: s("spell.wizards_boost_form"),
                technique: s("art.muto"),
                form: s("art.vim"),
                level: None,
                parameters: vec![ParameterDef { key: s("form") }],
            },
        ],
        weapons: vec![
            Weapon {
                id: s("weapon.long_sword"), kind: WeaponKind::Melee, init_mod: 2, attack_mod: Some(4), defense_mod: 1,
                damage_mod: Some(6), min_strength: Some(0), load: 1, range: None, ability: s("ability.single_weapon"),
            },
            Weapon {
                id: s("weapon.sling"), kind: WeaponKind::Missile, init_mod: 0, attack_mod: Some(2), defense_mod: 0,
                damage_mod: Some(3), min_strength: Some(-1), load: 0, range: Some(30), ability: s("ability.single_weapon"),
            },
            Weapon {
                id: s("weapon.dodge"), kind: WeaponKind::Melee, init_mod: 0, attack_mod: None, defense_mod: 0,
                damage_mod: None, min_strength: None, load: 0, range: None, ability: s("ability.brawl"),
            },
        ],
        shields: vec![Shield { id: s("shield.round"), init_mod: 0, attack_mod: 0, defense_mod: 2, load: 1, min_strength: 0 }],
        armor: vec![Armor { id: s("armor.leather_scale"), protection: 3, load: 1 }],
        characteristic_rules: None,
        life_stages: Some(life_stages),
        age_ability_caps: Vec::new(),
        categories_requiring_virtue: Vec::new(),
    };
    let i18n = vec![
        name("virtue.giant_blood", "Giant Blood"),
        name("virtue.puissant_ability", "Puissant {ability}"),
        name("virtue.puissant_art", "Puissant {art}"),
        name("virtue.minor_magical_focus", "Minor Magical Focus"),
        name("virtue.warrior", "Warrior"),
        name("virtue.second_sight", "Second Sight"),
        name("virtue.educated", "Educated"),
        name("virtue.malformed_name", "Malformed {template"),
        name("flaw.optimistic", "Optimistic"),
        name("boon.rich_vis_source", "Rich Vis Source"),
        name("ability.awareness", "Awareness"),
        name("ability.area_lore", "{area} Lore"),
        name("ability.artes_liberales", "Artes Liberales"),
        name("ability.dead_language", "{language} (Dead Language)"),
        name("ability.second_sight", "Second Sight"),
        name("ability.single_weapon", "Single Weapon"),
        name("ability.magic_theory", "Magic Theory"),
        name("ability.parma_magica", "Parma Magica"),
        name("ability.brawl", "Brawl"),
        name("weapon.dodge", "Dodge"),
        art_name("art.creo", "Creo", "Cr"),
        art_name("art.muto", "Muto", "Mu"),
        art_name("art.corpus", "Corpus", "Co"),
        art_name("art.ignem", "Ignem", "Ig"),
        art_name("art.vim", "Vim", "Vi"),
        name("spell.pilum_of_fire", "Pilum of Fire"),
        name("spell.wizards_boost_form", "Wizard's Boost of {form}"),
        name("spell_mastery_ability.penetration", "Penetration"),
        name("weapon.long_sword", "Long Sword"),
        name("weapon.sling", "Sling"),
        name("shield.round", "Round Shield"),
        name("armor.leather_scale", "Leather Scale"),
        name("house.bonisagus", "Bonisagus"),
        name("house.ex_miscellanea", "Ex Miscellanea"),
        name("living_condition.leper", "Leper"),
        name("living_condition.work_in_a_mine", "Work in a mine"),
        name("crisis.minor_illness", "Minor illness"),
    ];
    LocalizedRuleset { ruleset: rs, i18n }
}

/// Every key the formatter can request against the fixture, resolved to itself.
fn full_label_baseline() -> BTreeMap<String, String> {
    let rs = ruleset();
    let mut keys: BTreeSet<String> = label_keys().iter().map(|k| k.to_string()).collect();
    for p in &rs.ruleset.type_profiles {
        keys.insert(format!("type-{}", p.id));
    }
    for it in &rs.ruleset.point_items {
        keys.insert(format!("category-{}", it.category));
        for param in &it.parameters {
            keys.insert(format!("param-label-{}", param.key));
        }
    }
    for a in &rs.ruleset.abilities {
        if let Some(p) = &a.parameter {
            keys.insert(format!("param-label-{p}"));
        }
    }
    for sp in &rs.ruleset.spells {
        for param in &sp.parameters {
            keys.insert(format!("param-label-{}", param.key));
        }
    }
    keys.into_iter().map(|k| (k.clone(), k)).collect()
}

fn to_vec(map: BTreeMap<String, String>) -> Vec<(String, String)> {
    map.into_iter().collect()
}

fn labels(pairs: &[(&str, &str)]) -> Vec<(String, String)> {
    let mut map = full_label_baseline();
    for (k, v) in pairs {
        map.insert(k.to_string(), v.to_string());
    }
    to_vec(map)
}

fn no_labels() -> Vec<(String, String)> {
    labels(&[])
}

fn character_markdown(entity: &Entity, ruleset: &LocalizedRuleset, labels: &Vec<(String, String)>) -> String {
    match render(entity, ruleset, labels) {
        Ok(doc) => doc,
        Err(e) => panic!("{}", e.message()),
    }
}

fn magus() -> Entity {
    Entity::new(EntityKind::Character, s("magus"))
}

fn covenant() -> Entity {
    Entity::new(EntityKind::Covenant, s("covenant"))
}

fn set<V>(map: &mut Vec<(Characteristic, V)>, c: Characteristic, v: V) {
    map.retain(|(k, _)| *k != c);
    map.push((c, v));
    map.sort_by_key(|(k, _)| char_rank(*k));
}

fn char_rank(c: Characteristic) -> u8 {
    match c {
        Characteristic::Int => 0,
        Characteristic::Per => 1,
        Characteristic::Str => 2,
        Characteristic::Sta => 3,
        Characteristic::Pre => 4,
        Characteristic::Com => 5,
        Characteristic::Dex => 6,
        Characteristic::Qik => 7,
    }
}

fn log_entry() -> AgingLogEntry {
    AgingLogEntry {
        year: None,
        age: None,
        effect: String::new(),
        die: None,
        total: None,
        crisis: false,
        crisis_die: None,
        crisis_total: None,
        crisis_row: None,
        crisis_severity: None,
    }
}

fn bare_familiar() -> Familiar {
    Familiar {
        name: String::new(),
        animal: String::new(),
        might: None,
        characteristics: Vec::new(),
        size: 0,
        personality_traits: Vec::new(),
        cord_gold: 0,
        cord_silver: 0,
        cord_bronze: 0,
        powers: Vec::new(),
    }
}

fn ability_score(id: &str, score: u8, specialty: Option<&str>, parameter: Option<&str>) -> AbilityScore {
    AbilityScore { ability: s(id), score, specialty: specialty.map(s), parameter: parameter.map(s) }
}

fn slot(id: &str, equipped: bool) -> EquipmentSlot {
    EquipmentSlot { item: s(id), equipped, specialization_applies: false }
}

/// A magus with every export-visible surface filled in.
fn fully_populated_magus() -> Entity {
    let mut e = magus();
    e.name = s("Marcus of Bonisagus");
    e.description = s("A bookish theorist");
    e.concept = s("Seeker after lost Hermetic lore");
    e.gender = s("male");
    e.birth_year = Some(1194);
    e.sigil = s("the smell of old parchment");
    e.covenant_name = s("Semita Errabunda");
    e.parens = s("Vittoria of Bonisagus");
    e.house = Some(s("house.bonisagus"));
    e.age = Some(35);
    e.apparent_age = Some(30);
    e.aura = 3;
    for (c, score) in [
        (Characteristic::Int, 3),
        (Characteristic::Per, 1),
        (Characteristic::Str, 1),
        (Characteristic::Sta, 2),
        (Characteristic::Pre, -1),
        (Characteristic::Com, 1),
        (Characteristic::Dex, 1),
        (Characteristic::Qik, 1),
    ] {
        set(&mut e.characteristics, c, score);
    }
    set(&mut e.characteristic_descriptions, Characteristic::Int, s("quick-witted"));
    e.selections = vec![
        sel_with("virtue.puissant_ability", &[("ability", "ability.awareness")]),
        sel_with("virtue.puissant_art", &[("art", "art.creo")]),
        sel_with("virtue.minor_magical_focus", &[("focus", "fire")]),
        sel("virtue.warrior"),
        sel("flaw.optimistic"),
    ];
    e.xp_pool = 240;
    e.ability_scores = vec![
        ability_score("ability.awareness", 3, Some("searching"), None),
        ability_score("ability.area_lore", 2, Some("legends"), Some("Provence")),
        ability_score("ability.magic_theory", 4, None, None),
        ability_score("ability.parma_magica", 3, None, None),
        ability_score("ability.single_weapon", 4, Some("long sword"), None),
    ];
    e.art_scores = vec![
        ArtScore { art: s("art.creo"), score: 10 },
        ArtScore { art: s("art.muto"), score: 5 },
        ArtScore { art: s("art.corpus"), score: 5 },
        ArtScore { art: s("art.ignem"), score: 8 },
        ArtScore { art: s("art.vim"), score: 5 },
    ];
    e.spells = vec![
        SpellSelection {
            spell: s("spell.pilum_of_fire"),
            level: None,
            mastery: Some(2),
            parameter: None,
            mastery_abilities: vec![s("spell_mastery_ability.penetration")],
        },
        SpellSelection {
            spell: s("spell.wizards_boost_form"),
            level: Some(15),
            mastery: None,
            parameter: Some(s("art.ignem")),
            mastery_abilities: Vec::new(),
        },
    ];
    e.equipment = vec![slot("weapon.long_sword", true), slot("weapon.sling", true), slot("armor.leather_scale", true)];
    e.personality_traits = vec![
        PersonalityTrait { name: s("Curious"), value: 3 },
        PersonalityTrait { name: s("Brash"), value: -2 },
    ];
    e.reputations = vec![Reputation { kind: ReputationType::Hermetic, score: 2, content: s("a promising theoretician") }];
    e.devices = vec![EnchantedDevice { name: s("Ring of Seeing"), level: 15 }];
    e.talisman = Some(Talisman {
        description: s("an ash staff shod with silver"),
        attunements: vec![TalismanAttunement { description: s("to ward off flame"), bonus: 3 }],
        effects: vec![TalismanEffect { name: s("Lamp Without Flame"), level: 10 }],
    });
    e.longevity_ritual = Some(LongevityRitual {
        source: LongevitySource::SelfMade,
        bonus: Some(7),
        focus: s("a draught of gold and silver"),
    });
    e.familiar = Some(Familiar {
        name: s("Corvus"),
        animal: s("a raven"),
        might: Some(MightScore { realm: Realm::Magic, score: 10 }),
        characteristics: vec![(Characteristic::Int, 2), (Characteristic::Qik, 4)],
        size: -4,
        personality_traits: vec![PersonalityTrait { name: s("Loyal"), value: 3 }],
        cord_gold: 2,
        cord_silver: 1,
        cord_bronze: 0,
        powers: vec![SupernaturalPower { name: s("Wings of the Storm"), level: 20 }],
    });
    e.warping_points = 6;
    e.warping_effect = s("his shadow lags a heartbeat behind");
    e.twilight_scars = vec![TwilightScar { description: s("his eyes reflect no candlelight") }];
    e.aging_points = vec![(Characteristic::Pre, 5)];
    e.decrepitude_effect = s("a persistent cough each winter");
    e.living_conditions = vec![s("living_condition.work_in_a_mine")];
    let mut entry = log_entry();
    entry.year = Some(1220);
    entry.effect = s("an apparent aging crisis, weathered");
    e.aging_log = vec![entry];
    e
}

// --- title, identity, characteristics -------------------------------------------

#[test]
fn the_title_is_the_entity_name() {
    let mut e = magus();
    e.name = s("Marcus of Bonisagus");
    let doc = character_markdown(&e, &ruleset(), &no_labels());
    assert!(doc.starts_with("# Marcus of Bonisagus\n"), "unexpected title: {doc}");
}

#[test]
fn an_unnamed_entity_uses_the_untitled_label_rather_than_a_bare_hash() {
    let doc = character_markdown(&magus(), &ruleset(), &labels(&[("export-untitled", "Untitled character")]));
    assert!(doc.starts_with("# Untitled character\n"), "unexpected title: {doc}");
}

#[test]
fn the_subtitle_names_the_character_type_the_house_and_both_ages() {
    let mut e = magus();
    e.house = Some(s("house.bonisagus"));
    e.age = Some(35);
    e.apparent_age = Some(30);
    let doc = character_markdown(
        &e,
        &ruleset(),
        &labels(&[
            ("type-magus", "Magus"),
            ("house-label", "House"),
            ("age-label", "Age"),
            ("apparent-age-label", "Apparent age"),
        ]),
    );
    assert!(doc.contains("*Magus · House: Bonisagus · Age: 35 · Apparent age: 30*"), "unexpected subtitle: {doc}");
}

#[test]
fn an_unknown_house_id_fails_the_export_naming_it() {
    let mut e = magus();
    e.house = Some(s("house.diedne"));
    let err = render(&e, &ruleset(), &no_labels()).expect_err("an unknown House fails the export");
    assert_eq!(err.missing.len(), 1);
    assert!(matches!(&err.missing[0], MissingLabel::CatalogueId(id) if id == "house.diedne"));
}

#[test]
fn the_identity_section_lists_only_the_filled_fields() {
    let mut e = magus();
    e.concept = s("A bookish theorist");
    e.birth_year = Some(1194);
    let doc = character_markdown(
        &e,
        &ruleset(),
        &labels(&[
            ("identity-label", "Identity"),
            ("identity-concept", "Concept"),
            ("identity-birth-year", "Birth year"),
            ("identity-gender", "Gender"),
        ]),
    );
    assert!(doc.contains("## Identity\n"), "missing section: {doc}");
    assert!(doc.contains("- **Concept**: A bookish theorist\n"), "{doc}");
    assert!(doc.contains("- **Birth year**: 1194\n"), "{doc}");
    assert!(!doc.contains("Gender"), "an empty field is omitted: {doc}");
}

#[test]
fn the_identity_section_is_omitted_when_every_field_is_empty() {
    let doc = character_markdown(&magus(), &ruleset(), &labels(&[("identity-label", "Identity")]));
    assert!(!doc.contains("## Identity"), "stray heading: {doc}");
}

#[test]
fn free_text_identity_is_escaped() {
    let mut e = magus();
    e.description = s("Knight | Crusader");
    let doc = character_markdown(&e, &ruleset(), &labels(&[("identity-description", "Short description")]));
    assert!(doc.contains("Knight \\| Crusader"), "{doc}");
}

#[test]
fn the_characteristics_table_lists_bought_scores_and_descriptions() {
    let mut e = magus();
    set(&mut e.characteristics, Characteristic::Int, 3);
    set(&mut e.characteristic_descriptions, Characteristic::Int, s("quick-witted"));
    let doc = character_markdown(
        &e,
        &ruleset(),
        &labels(&[("characteristics-title", "Characteristics"), ("characteristic-int", "Intelligence")]),
    );
    assert!(doc.contains("## Characteristics\n"), "{doc}");
    assert!(doc.contains("| Intelligence | +3 |  | quick-witted |"), "unexpected row: {doc}");
}

#[test]
fn the_effective_column_is_filled_only_when_a_virtue_moves_the_score() {
    let mut e = magus();
    set(&mut e.characteristics, Characteristic::Str, 2);
    e.selections = vec![sel("virtue.giant_blood")];
    let doc = character_markdown(&e, &ruleset(), &labels(&[("characteristic-str", "Strength")]));
    assert!(doc.contains("| Strength | +2 | +3 |  |"), "unexpected row: {doc}");
}

#[test]
fn the_effective_column_reflects_aging_drops() {
    let mut e = magus();
    set(&mut e.characteristics, Characteristic::Com, 2);
    e.aging_points = vec![(Characteristic::Com, 3)];
    let doc = character_markdown(&e, &ruleset(), &labels(&[("characteristic-com", "Communication")]));
    assert!(doc.contains("| Communication | +2 | +1 |  |"), "unexpected row: {doc}");
}

#[test]
fn the_effective_column_combines_an_aging_drop_with_a_virtue_delta() {
    let mut e = magus();
    set(&mut e.characteristics, Characteristic::Str, 2);
    e.selections = vec![sel("virtue.giant_blood")];
    e.aging_points = vec![(Characteristic::Str, 5)];
    let doc = character_markdown(&e, &ruleset(), &labels(&[("characteristic-str", "Strength")]));
    assert!(doc.contains("| Strength | +2 | +1 |  |"), "unexpected row: {doc}");
}

#[test]
fn a_described_characteristic_with_no_bought_score_still_gets_a_row() {
    let mut e = magus();
    set(&mut e.characteristic_descriptions, Characteristic::Pre, s("unremarkable"));
    let doc = character_markdown(&e, &ruleset(), &labels(&[("characteristic-pre", "Presence")]));
    assert!(doc.contains("| Presence | 0 |  | unremarkable |"), "{doc}");
}

#[test]
fn every_characteristic_gets_a_row_once_the_section_exists() {
    let mut e = magus();
    set(&mut e.characteristics, Characteristic::Int, 3);
    set(&mut e.characteristics, Characteristic::Pre, -1);
    let doc = character_markdown(
        &e,
        &ruleset(),
        &labels(&[
            ("characteristic-int", "Intelligence"),
            ("characteristic-per", "Perception"),
            ("characteristic-str", "Strength"),
            ("characteristic-sta", "Stamina"),
            ("characteristic-pre", "Presence"),
            ("characteristic-com", "Communication"),
            ("characteristic-dex", "Dexterity"),
            ("characteristic-qik", "Quickness"),
        ]),
    );
    assert!(doc.contains("| Intelligence | +3 |  |  |"), "{doc}");
    assert!(doc.contains("| Presence | -1 |  |  |"), "{doc}");
    for untouched in ["Perception", "Strength", "Stamina", "Communication", "Dexterity", "Quickness"] {
        assert!(doc.contains(&format!("| {untouched} | 0 |  |  |")), "{doc}");
    }
    let rows = doc.lines().filter(|line| line.starts_with("| ") && line.ends_with(" |  |  |")).count();
    assert_eq!(rows, 8, "{doc}");
}

#[test]
fn the_characteristics_section_is_omitted_when_nothing_is_entered() {
    let doc = character_markdown(&magus(), &ruleset(), &labels(&[("characteristics-title", "Characteristics")]));
    assert!(!doc.contains("## Characteristics"), "stray heading: {doc}");
}

#[test]
fn an_empty_entity_renders_a_minimal_document() {
    let doc = character_markdown(&magus(), &ruleset(), &no_labels());
    assert!(doc.starts_with("# export-untitled\n"), "{doc}");
    let sections: Vec<&str> = doc.lines().filter(|l| l.starts_with("## ")).collect();
    assert_eq!(
        sections,
        vec!["## derived-section-fatigue", "## derived-section-wounds", "## confidence-label"],
        "{doc}"
    );
    let separators = doc.lines().filter(|l| l.starts_with("| --- ")).count();
    assert_eq!(separators, 2, "no bodyless tables: {doc}");
}

#[test]
fn an_empty_covenant_renders_only_its_title() {
    let doc = character_markdown(&covenant(), &ruleset(), &no_labels());
    assert!(doc.starts_with("# export-untitled\n"), "{doc}");
    assert!(!doc.contains("## "), "no section at all: {doc}");
}

#[test]
fn a_covenant_omits_the_character_only_sections() {
    let mut e = covenant();
    e.name = s("Semita Errabunda");
    e.description = s("A covenant in the Rhine");
    let doc = character_markdown(
        &e,
        &ruleset(),
        &labels(&[
            ("identity-label", "Identity"),
            ("identity-description", "Short description"),
            ("characteristics-title", "Characteristics"),
        ]),
    );
    assert!(doc.contains("# Semita Errabunda\n"), "{doc}");
    assert!(doc.contains("## Identity\n"), "{doc}");
    assert!(!doc.contains("## Characteristics"), "{doc}");
}

// --- virtues & flaws ------------------------------------------------------------------

#[test]
fn virtues_and_flaws_are_split_by_kind_with_their_magnitude() {
    let mut e = magus();
    e.selections = vec![sel("virtue.giant_blood"), sel("flaw.optimistic")];
    let doc = character_markdown(
        &e,
        &ruleset(),
        &labels(&[
            ("tab-virtues-flaws", "Virtues & Flaws"),
            ("items-virtues-title", "Virtues"),
            ("items-flaws-title", "Flaws"),
            ("category-general", "General"),
            ("category-personality", "Personality"),
            ("magnitude-major", "Major"),
            ("magnitude-minor", "Minor"),
        ]),
    );
    assert!(doc.contains("## Virtues & Flaws\n"), "{doc}");
    assert!(doc.contains("### Virtues\n"), "{doc}");
    assert!(doc.contains("| Giant Blood | General | Major |"), "{doc}");
    assert!(doc.contains("### Flaws\n"), "{doc}");
    assert!(doc.contains("| Optimistic | Personality | Minor |"), "{doc}");
}

#[test]
fn a_virtue_row_reports_its_type_beside_its_magnitude() {
    let mut e = magus();
    e.selections = vec![sel_with("virtue.puissant_art", &[("art", "art.creo")])];
    let doc = character_markdown(
        &e,
        &ruleset(),
        &labels(&[
            ("identity-name", "Name"),
            ("items-virtues-title", "Virtues"),
            ("export-col-type", "Type"),
            ("export-col-magnitude", "Magnitude"),
            ("category-hermetic", "Hermetic"),
            ("magnitude-minor", "Minor"),
        ]),
    );
    assert!(doc.contains("| Name | Type | Magnitude |\n"), "{doc}");
    assert!(doc.contains("| Puissant Creo | Hermetic | Minor |"), "{doc}");
}

#[test]
fn a_covenants_boons_are_not_filed_under_virtues() {
    let mut e = covenant();
    e.selections = vec![sel("boon.rich_vis_source")];
    let doc = character_markdown(
        &e,
        &ruleset(),
        &labels(&[("items-virtues-title", "Virtues"), ("export-items-boons", "Boons")]),
    );
    assert!(doc.contains("### Boons\n"), "{doc}");
    assert!(!doc.contains("### Virtues"), "{doc}");
    assert!(doc.contains("| Rich Vis Source |"), "{doc}");
}

#[test]
fn a_parameterized_virtue_names_its_chosen_target() {
    let mut e = magus();
    e.selections = vec![sel_with("virtue.puissant_ability", &[("ability", "ability.awareness")])];
    let doc = character_markdown(&e, &ruleset(), &no_labels());
    assert!(doc.contains("| Puissant Awareness |"), "{doc}");
}

#[test]
fn a_parameter_the_name_template_ignores_is_appended_rather_than_dropped() {
    let mut e = magus();
    e.selections = vec![sel_with("virtue.minor_magical_focus", &[("focus", "fire")])];
    let doc = character_markdown(&e, &ruleset(), &no_labels());
    assert!(doc.contains("| Minor Magical Focus (fire) |"), "{doc}");
}

#[test]
fn a_virtue_targeting_a_parameterized_ability_names_the_whole_instance() {
    let mut e = magus();
    e.selections = vec![sel_with("virtue.puissant_ability", &[("ability", "ability.area_lore"), ("area", "Provence")])];
    let doc = character_markdown(&e, &ruleset(), &no_labels());
    assert!(doc.contains("| Puissant Provence Lore |"), "{doc}");
    assert!(!doc.contains("{area}"), "no raw placeholder: {doc}");
}

#[test]
fn a_virtue_targeting_a_parameterized_ability_shows_the_instance_slot_label() {
    let mut e = magus();
    e.selections = vec![sel_with("virtue.puissant_ability", &[("ability", "ability.area_lore")])];
    let doc = character_markdown(&e, &ruleset(), &labels(&[("param-label-area", "Area")]));
    assert!(doc.contains("| Puissant (Area) Lore |"), "{doc}");
}

#[test]
fn an_unfilled_parameter_shows_its_localized_slot_label() {
    let mut e = magus();
    e.selections = vec![sel("virtue.puissant_ability")];
    let doc = character_markdown(&e, &ruleset(), &labels(&[("param-label-ability", "Ability")]));
    assert!(doc.contains("| Puissant (Ability) |"), "{doc}");
}

#[test]
fn the_point_balance_reports_used_points_against_the_type_ceiling() {
    let mut e = magus();
    e.selections = vec![sel("virtue.giant_blood"), sel("flaw.optimistic")];
    let doc = character_markdown(
        &e,
        &ruleset(),
        &labels(&[("items-virtues-title", "Virtues"), ("items-flaws-title", "Flaws")]),
    );
    assert!(doc.contains("- **Virtues**: 3 / 10\n"), "{doc}");
    assert!(doc.contains("- **Flaws**: 1 / 10\n"), "{doc}");
}

#[test]
fn the_virtues_and_flaws_section_is_omitted_when_nothing_is_selected() {
    let doc = character_markdown(&magus(), &ruleset(), &labels(&[("tab-virtues-flaws", "Virtues & Flaws")]));
    assert!(!doc.contains("Virtues & Flaws"), "stray heading: {doc}");
}

fn bonisagus_with_granted_puissant() -> Entity {
    let mut e = magus();
    e.house = Some(s("house.bonisagus"));
    e.house_choices = vec![(s("bonisagus_puissant"), sel_with("virtue.puissant_ability", &[("ability", "ability.awareness")]))];
    e.selections = vec![sel("virtue.giant_blood")];
    e
}

#[test]
fn a_house_granted_virtue_is_listed_under_virtues_marked_as_granted() {
    let doc = character_markdown(
        &bonisagus_with_granted_puissant(),
        &ruleset(),
        &labels(&[
            ("items-virtues-title", "Virtues"),
            ("export-granted", "Granted"),
            ("category-general", "General"),
            ("magnitude-major", "Major"),
            ("magnitude-minor", "Minor"),
        ]),
    );
    assert!(doc.contains("### Virtues\n"), "{doc}");
    assert!(doc.contains("| Giant Blood | General | Major |"), "{doc}");
    assert!(doc.contains("#### Granted\n"), "{doc}");
    assert!(doc.contains("| Puissant Awareness | General | Minor |"), "{doc}");
}

#[test]
fn a_granted_virtue_does_not_enter_the_point_balance() {
    let rs = ruleset();
    let names = labels(&[("items-virtues-title", "Virtues"), ("export-granted", "Granted")]);
    let granted = bonisagus_with_granted_puissant();
    let mut ungranted = bonisagus_with_granted_puissant();
    ungranted.house_choices.clear();
    let with_grant = character_markdown(&granted, &rs, &names);
    let without_grant = character_markdown(&ungranted, &rs, &names);
    assert!(with_grant.contains("- **Virtues**: 3 / 10\n"), "{with_grant}");
    assert!(without_grant.contains("- **Virtues**: 3 / 10\n"), "{without_grant}");
    assert!(with_grant.contains("#### Granted\n"), "{with_grant}");
    assert!(!without_grant.contains("Granted"), "an unpicked choice grants nothing: {without_grant}");
}

#[test]
fn a_granted_flaw_is_filed_under_flaws_not_virtues() {
    let mut e = magus();
    e.house = Some(s("house.ex_miscellanea"));
    e.selections = vec![sel("virtue.giant_blood")];
    let doc = character_markdown(
        &e,
        &ruleset(),
        &labels(&[
            ("items-virtues-title", "Virtues"),
            ("items-flaws-title", "Flaws"),
            ("export-granted", "Granted"),
            ("category-personality", "Personality"),
            ("magnitude-minor", "Minor"),
        ]),
    );
    assert!(doc.contains("### Flaws\n\n#### Granted\n"), "{doc}");
    assert!(doc.contains("| Optimistic | Personality | Minor |"), "{doc}");
    assert_eq!(doc.matches("#### Granted").count(), 1, "{doc}");
    assert!(doc.contains("- **Flaws**: 0 / 10\n"), "{doc}");
}

#[test]
fn no_granted_sub_table_appears_when_nothing_is_granted() {
    let mut e = magus();
    e.selections = vec![sel("virtue.giant_blood")];
    let doc = character_markdown(&e, &ruleset(), &no_labels());
    assert!(!doc.contains("export-granted"), "phantom heading: {doc}");
}

// --- abilities -----------------------------------------------------------------------

#[test]
fn abilities_list_specialty_bought_and_effective_scores() {
    let mut e = magus();
    e.ability_scores = vec![ability_score("ability.awareness", 3, Some("searching"), None)];
    e.selections = vec![sel_with("virtue.puissant_ability", &[("ability", "ability.awareness")])];
    let doc = character_markdown(
        &e,
        &ruleset(),
        &labels(&[("abilities-title", "Abilities"), ("ability-specialty-label", "Specialty")]),
    );
    assert!(doc.contains("## Abilities\n"), "{doc}");
    assert!(doc.contains("| Awareness | searching | 3 | 5 |"), "{doc}");
}

#[test]
fn two_instances_of_one_ability_stay_separate_rows() {
    let mut e = magus();
    e.ability_scores = vec![
        ability_score("ability.area_lore", 2, None, Some("Provence")),
        ability_score("ability.area_lore", 1, Some("legends"), Some("the Rhine")),
    ];
    let doc = character_markdown(&e, &ruleset(), &no_labels());
    assert!(doc.contains("| Provence Lore |  | 2 |"), "{doc}");
    assert!(doc.contains("| the Rhine Lore | legends | 1 |"), "{doc}");
}

#[test]
fn the_xp_pool_reports_the_general_draw_and_each_restricted_pool() {
    let mut e = magus();
    e.xp_pool = 60;
    e.ability_scores = vec![ability_score("ability.awareness", 3, None, None)];
    e.selections = vec![sel("virtue.warrior")];
    let doc = character_markdown(
        &e,
        &ruleset(),
        &labels(&[
            ("xp-pool", "XP pool"),
            ("export-xp-restricted", "Restricted experience"),
            ("ability-category-martial", "Martial"),
        ]),
    );
    assert!(doc.contains("- **XP pool**: 30 / 60\n"), "{doc}");
    assert!(doc.contains("### Restricted experience\n"), "{doc}");
    assert!(doc.contains("- **Martial**: 0 / 50\n"), "{doc}");
}

#[test]
fn a_granted_but_unbought_ability_gets_its_own_row() {
    let mut e = magus();
    e.selections = vec![sel("virtue.second_sight")];
    let doc = character_markdown(&e, &ruleset(), &labels(&[("abilities-title", "Abilities")]));
    assert!(doc.contains("## Abilities\n"), "{doc}");
    assert!(doc.contains("| Second Sight |  | 0 | 1 |"), "{doc}");
}

#[test]
fn a_granted_ability_the_character_bought_too_gets_no_second_row() {
    let mut e = magus();
    e.selections = vec![sel("virtue.second_sight")];
    e.ability_scores = vec![ability_score("ability.second_sight", 3, Some("visions"), None)];
    let doc = character_markdown(&e, &ruleset(), &no_labels());
    assert_eq!(doc.matches("| Second Sight | visions |").count(), 1, "{doc}");
    assert!(doc.contains("| Second Sight | visions | 3 |  |"), "{doc}");
}

#[test]
fn granted_ability_rows_follow_the_bought_ones() {
    let mut e = magus();
    e.selections = vec![sel("virtue.second_sight")];
    e.ability_scores = vec![ability_score("ability.awareness", 2, None, None)];
    let doc = character_markdown(&e, &ruleset(), &no_labels());
    let abilities = &doc[doc.find("## abilities-title").expect("the abilities section")..];
    let bought = abilities.find("| Awareness |").expect("the bought row");
    let granted = abilities.find("| Second Sight |").expect("the granted row");
    assert!(bought < granted, "unexpected row order: {doc}");
}

#[test]
fn pool_eligibility_renders_parameterized_names_with_hints() {
    let mut e = magus();
    e.selections = vec![sel("virtue.educated")];
    let doc = character_markdown(
        &e,
        &ruleset(),
        &labels(&[
            ("export-xp-restricted", "Restricted experience"),
            ("restricted-xp-list-separator", ","),
            ("param-label-language", "Language"),
        ]),
    );
    assert!(doc.contains("- **Artes Liberales, (Language) (Dead Language)**: 0 / 50\n"), "{doc}");
    assert!(!doc.contains("{language}"), "no raw placeholder: {doc}");
}

#[test]
fn a_life_stage_pool_is_labelled_by_its_origin_not_its_eligibility() {
    let mut e = magus();
    e.age = Some(25);
    e.life_stages = Some(LifeStagePlan {
        native_language: Some(s("German")),
        childhood_package: None,
        gauntlet_age: None,
        post_gauntlet_lab_seasons: 0,
        post_gauntlet_spell_levels: 0,
    });
    let doc = character_markdown(
        &e,
        &ruleset(),
        &labels(&[
            ("export-xp-restricted", "Restricted experience"),
            ("restricted-xp-list-separator", ","),
            ("xp-pool-childhood_native_language", "Native language"),
            ("xp-pool-childhood_spread", "Early childhood"),
            ("xp-pool-later_life", "Later life"),
        ]),
    );
    assert!(doc.contains("- **Native language**: 0 / 75\n"), "{doc}");
    assert!(doc.contains("- **Early childhood**: 0 / 45\n"), "{doc}");
    assert!(doc.contains("- **Later life**: 0 / 75\n"), "{doc}");
    assert!(!doc.contains("Awareness, Brawl"), "{doc}");
}

#[test]
fn a_virtue_granted_pool_still_names_what_it_may_buy() {
    let mut e = magus();
    e.selections = vec![sel("virtue.warrior")];
    let doc = character_markdown(
        &e,
        &ruleset(),
        &labels(&[("export-xp-restricted", "Restricted experience"), ("ability-category-martial", "Martial")]),
    );
    assert!(doc.contains("- **Martial**: 0 / 50\n"), "{doc}");
}

#[test]
fn the_abilities_section_is_omitted_when_nothing_is_bought_and_no_xp_is_banked() {
    let doc = character_markdown(&magus(), &ruleset(), &labels(&[("abilities-title", "Abilities")]));
    assert!(!doc.contains("## Abilities"), "stray heading: {doc}");
}

// --- arts and spells -----------------------------------------------------------------

#[test]
fn arts_are_split_into_techniques_and_forms() {
    let mut e = magus();
    e.art_scores = vec![ArtScore { art: s("art.creo"), score: 10 }, ArtScore { art: s("art.ignem"), score: 8 }];
    let doc = character_markdown(
        &e,
        &ruleset(),
        &labels(&[("tab-arts", "Arts"), ("art-type-technique", "Techniques"), ("art-type-form", "Forms")]),
    );
    let techniques = doc.find("### Techniques").expect("techniques heading");
    let forms = doc.find("### Forms").expect("forms heading");
    assert!(techniques < forms, "Techniques come first: {doc}");
    assert!(doc.contains("| Creo | 10 |"), "{doc}");
    assert!(doc.contains("| Ignem | 8 |"), "{doc}");
}

#[test]
fn an_art_bonus_fills_the_effective_column() {
    let mut e = magus();
    e.art_scores = vec![ArtScore { art: s("art.creo"), score: 10 }];
    e.selections = vec![sel_with("virtue.puissant_art", &[("art", "art.creo")])];
    let doc = character_markdown(&e, &ruleset(), &no_labels());
    assert!(doc.contains("| Creo | 10 | 13 |"), "{doc}");
}

#[test]
fn every_catalogue_art_gets_a_row_once_any_art_is_scored() {
    let mut e = magus();
    e.art_scores = vec![ArtScore { art: s("art.ignem"), score: 8 }];
    let doc = character_markdown(
        &e,
        &ruleset(),
        &labels(&[("tab-arts", "Arts"), ("art-type-technique", "Techniques"), ("art-type-form", "Forms")]),
    );
    assert!(doc.contains("### Techniques\n"), "{doc}");
    assert!(doc.contains("| Creo | 0 |  |"), "{doc}");
    assert!(doc.contains("| Muto | 0 |  |"), "{doc}");
    assert!(doc.contains("### Forms\n"), "{doc}");
    assert!(doc.contains("| Ignem | 8 |  |"), "{doc}");
    assert!(doc.contains("| Vim | 0 |  |"), "{doc}");
    let creo = doc.find("| Creo |").expect("a Creo row");
    let muto = doc.find("| Muto |").expect("a Muto row");
    let corpus = doc.find("| Corpus |").expect("a Corpus row");
    let ignem = doc.find("| Ignem |").expect("an Ignem row");
    assert!(creo < muto && corpus < ignem, "Arts run in id order: {doc}");
}

#[test]
fn the_arts_section_is_omitted_when_no_art_is_bought() {
    let doc = character_markdown(&magus(), &ruleset(), &labels(&[("tab-arts", "Arts")]));
    assert!(!doc.contains("## Arts"), "stray heading: {doc}");
}

#[test]
fn spells_list_their_art_code_and_mastery() {
    let mut e = magus();
    e.spells = vec![SpellSelection {
        spell: s("spell.pilum_of_fire"),
        level: None,
        mastery: Some(2),
        parameter: None,
        mastery_abilities: vec![s("spell_mastery_ability.penetration")],
    }];
    let doc = character_markdown(
        &e,
        &ruleset(),
        &labels(&[
            ("identity-name", "Name"),
            ("tab-spells", "Spells"),
            ("export-col-spell-code", "TeFo/Level"),
            ("spell-mastery-label", "Mastery"),
            ("spell-mastery-abilities-label", "Mastery abilities"),
        ]),
    );
    assert!(doc.contains("## Spells\n"), "{doc}");
    assert!(doc.contains("| Name | TeFo/Level | Mastery | Mastery abilities |\n"), "{doc}");
    assert!(doc.contains("| Pilum of Fire | CrIg20 | 2 | Penetration |"), "{doc}");
}

#[test]
fn a_general_spell_with_no_chosen_level_shows_the_general_marker() {
    let mut e = magus();
    e.spells = vec![SpellSelection {
        spell: s("spell.wizards_boost_form"),
        level: None,
        mastery: None,
        parameter: Some(s("art.ignem")),
        mastery_abilities: Vec::new(),
    }];
    let doc = character_markdown(&e, &ruleset(), &labels(&[("spell-level-general", "Gen")]));
    assert!(doc.contains("| Wizard's Boost of Ignem |"), "{doc}");
    assert!(doc.contains("| MuVi Gen |"), "{doc}");
}

#[test]
fn the_spells_section_is_omitted_when_no_spell_is_known() {
    let doc = character_markdown(&magus(), &ruleset(), &labels(&[("tab-spells", "Spells")]));
    assert!(!doc.contains("## Spells"), "stray heading: {doc}");
}

// --- equipment and combat ----------------------------------------------------------

#[test]
fn equipment_is_grouped_by_catalogue_kind_with_the_equipped_marker() {
    let mut e = magus();
    e.equipment = vec![slot("weapon.long_sword", true), slot("shield.round", false), slot("armor.leather_scale", true)];
    let doc = character_markdown(
        &e,
        &ruleset(),
        &labels(&[
            ("tab-equipment", "Equipment"),
            ("equipment-group-weapons", "Weapons"),
            ("equipment-group-shields", "Shields"),
            ("equipment-group-armor", "Armor"),
            ("export-yes", "Yes"),
            ("export-no", "No"),
        ]),
    );
    assert!(doc.contains("## Equipment\n"), "{doc}");
    assert!(doc.contains("### Weapons\n"), "{doc}");
    assert!(doc.contains("| Long Sword | Yes |"), "{doc}");
    assert!(doc.contains("### Shields\n"), "{doc}");
    assert!(doc.contains("| Round Shield | No |"), "{doc}");
    assert!(doc.contains("### Armor\n"), "{doc}");
    assert!(doc.contains("| Leather Scale | Yes |"), "{doc}");
}

#[test]
fn the_equipment_section_is_omitted_when_nothing_is_carried() {
    let doc = character_markdown(&magus(), &ruleset(), &labels(&[("tab-equipment", "Equipment")]));
    assert!(!doc.contains("## Equipment"), "stray heading: {doc}");
}

#[test]
fn combat_lists_one_row_per_equipped_weapon() {
    let doc = character_markdown(
        &fully_populated_magus(),
        &ruleset(),
        &labels(&[("derived-section-combat", "Combat"), ("derived-combat-init", "Init"), ("derived-range", "Range")]),
    );
    assert!(doc.contains("## Combat\n"), "{doc}");
    assert!(doc.contains("| Long Sword | Single Weapon | 3 |"), "{doc}");
    assert!(doc.contains("| Sling | Single Weapon |"), "{doc}");
    assert!(doc.contains("| 30 |"), "the missile range: {doc}");
}

#[test]
fn combat_with_a_shield_emits_with_shield_then_bare_rows() {
    let mut e = fully_populated_magus();
    e.equipment.push(slot("shield.round", true));
    let doc = character_markdown(
        &e,
        &ruleset(),
        &labels(&[("derived-section-combat", "Combat"), ("derived-combat-shield-joiner", "&")]),
    );
    let with_shield = doc.find("| Long Sword & Round Shield | Single Weapon | 2 | 9 | 8 | 7 |");
    let bare = doc.find("| Long Sword | Single Weapon | 2 | 9 | 6 | 7 |");
    assert!(with_shield.is_some(), "no with-shield row: {doc}");
    assert!(bare.is_some(), "no bare row: {doc}");
    assert!(with_shield < bare, "the with-shield row must come first: {doc}");
}

#[test]
fn the_combat_section_is_omitted_when_no_weapon_is_equipped() {
    let doc = character_markdown(&magus(), &ruleset(), &labels(&[("derived-section-combat", "Combat")]));
    assert!(!doc.contains("## Combat"), "stray heading: {doc}");
}

#[test]
fn soak_lists_every_addend_and_the_total() {
    let doc = character_markdown(
        &fully_populated_magus(),
        &ruleset(),
        &labels(&[
            ("derived-section-soak", "Soak"),
            ("derived-addend-stamina", "Stamina"),
            ("derived-addend-armor", "Armor"),
            ("export-col-total", "Total"),
        ]),
    );
    assert!(doc.contains("## Soak\n"), "{doc}");
    assert!(doc.contains("- **Stamina**: +2\n"), "{doc}");
    assert!(doc.contains("- **Armor**: +3\n"), "{doc}");
    assert!(doc.contains("- **Total**: +5\n"), "{doc}");
}

#[test]
fn the_soak_section_is_omitted_when_every_addend_is_zero() {
    let doc = character_markdown(&magus(), &ruleset(), &labels(&[("derived-section-soak", "Soak")]));
    assert!(!doc.contains("## Soak"), "stray heading: {doc}");
}

#[test]
fn encumbrance_reports_load_burden_and_the_penalty() {
    let doc = character_markdown(
        &fully_populated_magus(),
        &ruleset(),
        &labels(&[
            ("derived-section-encumbrance", "Encumbrance"),
            ("derived-load", "Load"),
            ("derived-burden", "Burden"),
            ("export-col-total", "Total"),
        ]),
    );
    assert!(doc.contains("## Encumbrance\n"), "{doc}");
    assert!(doc.contains("- **Load**: 2\n"), "{doc}");
    assert!(doc.contains("- **Burden**: 1\n"), "{doc}");
    assert!(doc.contains("- **Total**: 0\n"), "{doc}");
}

#[test]
fn the_encumbrance_section_is_omitted_when_nothing_is_carried() {
    let doc = character_markdown(&magus(), &ruleset(), &labels(&[("derived-section-encumbrance", "Encumbrance")]));
    assert!(!doc.contains("## Encumbrance"), "stray heading: {doc}");
}

#[test]
fn the_fatigue_and_wound_tracks_are_printed_for_a_character() {
    let doc = character_markdown(
        &fully_populated_magus(),
        &ruleset(),
        &labels(&[
            ("derived-section-fatigue", "Fatigue"),
            ("derived-fatigue-weary", "Weary"),
            ("derived-section-wounds", "Wounds"),
            ("derived-wound-light", "Light"),
            ("derived-wound-dead", "Dead"),
            ("export-col-penalty", "Penalty"),
        ]),
    );
    assert!(doc.contains("## Fatigue\n"), "{doc}");
    assert!(doc.contains("| Weary | -1 |"), "{doc}");
    assert!(doc.contains("## Wounds\n"), "{doc}");
    assert!(doc.contains("| Light | 1–5 | -1 |"), "{doc}");
    assert!(doc.contains("| Dead | 21+ |  |"), "{doc}");
}

#[test]
fn a_covenant_has_no_fatigue_or_wound_track() {
    let mut e = covenant();
    e.name = s("Semita Errabunda");
    let doc = character_markdown(
        &e,
        &ruleset(),
        &labels(&[("derived-section-fatigue", "Fatigue"), ("derived-section-wounds", "Wounds")]),
    );
    assert!(!doc.contains("Fatigue"), "{doc}");
    assert!(!doc.contains("Wounds"), "{doc}");
}

// --- traits, reputations, confidence -----------------------------------------------

#[test]
fn personality_traits_and_reputations_are_listed_with_signed_values() {
    let doc = character_markdown(
        &fully_populated_magus(),
        &ruleset(),
        &labels(&[
            ("personality-label", "Personality Traits"),
            ("reputations-label", "Reputations"),
            ("reputation-type-hermetic", "Hermetic"),
        ]),
    );
    assert!(doc.contains("## Personality Traits\n"), "{doc}");
    assert!(doc.contains("- **Brash**: -2\n"), "{doc}");
    assert!(doc.contains("- **Curious**: +3\n"), "{doc}");
    assert!(doc.contains("## Reputations\n"), "{doc}");
    assert!(doc.contains("- **Hermetic 2**: a promising theoretician\n"), "{doc}");
}

#[test]
fn confidence_reports_the_derived_score_and_points() {
    let doc = character_markdown(
        &fully_populated_magus(),
        &ruleset(),
        &labels(&[("confidence-label", "Confidence"), ("ability-score-label", "Score"), ("export-col-points", "Points")]),
    );
    assert!(doc.contains("## Confidence\n"), "{doc}");
    assert!(doc.contains("- **Score**: 1\n"), "{doc}");
    assert!(doc.contains("- **Points**: 3\n"), "{doc}");
}

#[test]
fn the_traits_sections_are_omitted_when_empty() {
    let doc = character_markdown(
        &magus(),
        &ruleset(),
        &labels(&[("personality-label", "Personality Traits"), ("reputations-label", "Reputations")]),
    );
    assert!(!doc.contains("Personality Traits"), "{doc}");
    assert!(!doc.contains("Reputations"), "{doc}");
}

// --- magic --------------------------------------------------------------------------

#[test]
fn the_magic_items_block_covers_aura_devices_longevity_and_the_talisman() {
    let doc = character_markdown(
        &fully_populated_magus(),
        &ruleset(),
        &labels(&[
            ("tab-possessions", "Magic Items"),
            ("aura-label", "Aura"),
            ("possessions-devices-label", "Enchanted Devices"),
            ("longevity-label", "Longevity Ritual"),
            ("longevity-source-label", "Source"),
            ("longevity-source-self_made", "Self-made"),
            ("longevity-bonus-label", "Aging bonus"),
            ("longevity-focus-label", "Focus"),
            ("talisman-label", "Talisman"),
            ("talisman-description-label", "Shape and material"),
            ("talisman-attunements-label", "Talisman Attunements"),
            ("talisman-effects-label", "Instilled Effects"),
        ]),
    );
    assert!(doc.contains("## Magic Items\n"), "{doc}");
    assert!(doc.contains("- **Aura**: +3\n"), "{doc}");
    assert!(doc.contains("### Enchanted Devices\n"), "{doc}");
    assert!(doc.contains("| Ring of Seeing | 15 |"), "{doc}");
    assert!(doc.contains("### Longevity Ritual\n"), "{doc}");
    assert!(doc.contains("- **Source**: Self-made\n"), "{doc}");
    assert!(doc.contains("- **Aging bonus**: +7\n"), "{doc}");
    assert!(doc.contains("- **Focus**: a draught of gold and silver\n"), "{doc}");
    assert!(doc.contains("### Talisman\n"), "{doc}");
    assert!(doc.contains("- **Shape and material**: an ash staff shod with silver\n"), "{doc}");
    assert!(doc.contains("#### Talisman Attunements\n"), "{doc}");
    assert!(doc.contains("| to ward off flame | +3 |"), "{doc}");
    assert!(doc.contains("#### Instilled Effects\n"), "{doc}");
    assert!(doc.contains("| Lamp Without Flame | 10 |"), "{doc}");
}

#[test]
fn an_unentered_longevity_bonus_says_so_rather_than_claiming_zero() {
    let mut e = magus();
    e.longevity_ritual = Some(LongevityRitual { source: LongevitySource::External, bonus: None, focus: String::new() });
    let doc = character_markdown(
        &e,
        &ruleset(),
        &labels(&[
            ("longevity-bonus-label", "Aging bonus"),
            ("longevity-not-entered", "Not entered"),
            ("longevity-source-external", "External"),
        ]),
    );
    assert!(doc.contains("- **Aging bonus**: Not entered\n"), "{doc}");
    assert!(!doc.contains("longevity-focus-label"), "no empty focus: {doc}");
}

#[test]
fn the_familiar_statblock_lists_the_beasts_own_scores_cords_and_powers() {
    let doc = character_markdown(
        &fully_populated_magus(),
        &ruleset(),
        &labels(&[
            ("familiar-label", "Familiar"),
            ("identity-name", "Name"),
            ("familiar-animal-label", "Animal"),
            ("familiar-might-label", "Magic Might"),
            ("realm-magic", "Magic"),
            ("familiar-size-label", "Size"),
            ("familiar-cord-gold", "Gold cord"),
            ("familiar-cord-silver", "Silver cord"),
            ("familiar-cord-bronze", "Bronze cord"),
            ("characteristics-title", "Characteristics"),
            ("characteristic-qik", "Quickness"),
            ("personality-label", "Personality Traits"),
            ("familiar-powers-label", "Invested Powers"),
        ]),
    );
    assert!(doc.contains("### Familiar\n"), "{doc}");
    assert!(doc.contains("- **Name**: Corvus\n"), "{doc}");
    assert!(doc.contains("- **Animal**: a raven\n"), "{doc}");
    assert!(doc.contains("- **Magic Might**: Magic 10\n"), "{doc}");
    assert!(doc.contains("- **Size**: -4\n"), "{doc}");
    assert!(doc.contains("- **Gold cord**: +2\n"), "{doc}");
    assert!(!doc.contains("Bronze cord"), "a zero cord is omitted: {doc}");
    assert!(doc.contains("#### Characteristics\n"), "{doc}");
    assert!(doc.contains("| Quickness | +4 |"), "{doc}");
    assert!(doc.contains("#### Personality Traits\n"), "{doc}");
    assert!(doc.contains("- **Loyal**: +3\n"), "{doc}");
    assert!(doc.contains("#### Invested Powers\n"), "{doc}");
    assert!(doc.contains("| Wings of the Storm | 20 |"), "{doc}");
}

#[test]
fn a_might_being_reports_its_effective_might_and_powers() {
    let mut e = magus();
    e.might = Some(MightScore { realm: Realm::Faerie, score: 15 });
    e.powers = vec![SupernaturalPower { name: s("Glamour"), level: 25 }];
    let doc = character_markdown(
        &e,
        &ruleset(),
        &labels(&[
            ("tab-supernatural", "Supernatural"),
            ("supernatural-might-label", "Might Score"),
            ("realm-faerie", "Faerie"),
            ("supernatural-powers-label", "Supernatural Powers"),
        ]),
    );
    assert!(doc.contains("## Supernatural\n"), "{doc}");
    assert!(doc.contains("- **Might Score**: Faerie 15\n"), "{doc}");
    assert!(doc.contains("### Supernatural Powers\n"), "{doc}");
    assert!(doc.contains("| Glamour | 25 |"), "{doc}");
}

#[test]
fn the_magic_blocks_are_omitted_for_a_magus_with_no_possessions() {
    let doc = character_markdown(
        &magus(),
        &ruleset(),
        &labels(&[("tab-possessions", "Magic Items"), ("tab-supernatural", "Supernatural")]),
    );
    assert!(!doc.contains("Magic Items"), "{doc}");
    assert!(!doc.contains("Supernatural"), "{doc}");
}

// --- annotations --------------------------------------------------------------------

#[test]
fn the_annotation_block_records_warping_twilight_decrepitude_and_aging() {
    let doc = character_markdown(
        &fully_populated_magus(),
        &ruleset(),
        &labels(&[
            ("aging-label", "Aging"),
            ("warping-label", "Warping"),
            ("ability-score-label", "Score"),
            ("warping-points-label", "Warping points"),
            ("warping-effect-label", "Warping effect"),
            ("twilight-scars-label", "Twilight Scars"),
            ("decrepitude-label", "Decrepitude"),
            ("decrepitude-effect-label", "Decrepitude effect"),
            ("aging-log-heading", "Aging log"),
        ]),
    );
    assert!(doc.contains("## Aging\n"), "{doc}");
    assert!(doc.contains("### Warping\n"), "{doc}");
    assert!(doc.contains("- **Warping points**: 6\n"), "{doc}");
    assert!(doc.contains("- **Warping effect**: his shadow lags a heartbeat behind\n"), "{doc}");
    assert!(doc.contains("### Twilight Scars\n"), "{doc}");
    assert!(doc.contains("- his eyes reflect no candlelight\n"), "{doc}");
    assert!(doc.contains("### Decrepitude\n"), "{doc}");
    assert!(doc.contains("- **Decrepitude effect**: a persistent cough each winter\n"), "{doc}");
    assert!(doc.contains("### Aging log\n"), "{doc}");
    assert!(doc.contains("- **1220**: an apparent aging crisis, weathered\n"), "{doc}");
}

#[test]
fn aging_points_per_characteristic_are_listed_in_the_aging_block() {
    let mut e = magus();
    e.aging_points = vec![(Characteristic::Sta, 0), (Characteristic::Pre, 2)];
    let doc = character_markdown(
        &e,
        &ruleset(),
        &labels(&[
            ("aging-label", "Aging"),
            ("aging-points-heading", "Aging points per Characteristic"),
            ("characteristic-pre", "Presence"),
            ("characteristic-sta", "Stamina"),
        ]),
    );
    assert!(doc.contains("## Aging\n"), "{doc}");
    assert!(doc.contains("### Aging points per Characteristic\n"), "{doc}");
    assert!(doc.contains("- **Presence**: 2\n"), "{doc}");
    assert!(!doc.contains("Stamina"), "a zero entry carries no information: {doc}");
}

#[test]
fn the_aging_points_precede_the_aging_log() {
    let doc = character_markdown(
        &fully_populated_magus(),
        &ruleset(),
        &labels(&[("aging-points-heading", "Aging points"), ("aging-log-heading", "Aging log")]),
    );
    let points = doc.find("### Aging points").expect("an aging-points heading");
    let log = doc.find("### Aging log").expect("an aging-log heading");
    assert!(points < log, "unexpected order: {doc}");
}

#[test]
fn the_aging_block_names_the_living_conditions_and_each_years_die_and_total() {
    let mut e = fully_populated_magus();
    e.living_conditions = vec![s("living_condition.leper"), s("living_condition.work_in_a_mine")];
    let mut entry = log_entry();
    entry.year = Some(1220);
    entry.age = Some(40);
    entry.effect = s("an apparent aging crisis, weathered");
    entry.die = Some(9);
    entry.total = Some(13);
    e.aging_log = vec![entry];
    let doc = character_markdown(
        &e,
        &ruleset(),
        &labels(&[
            ("aging-label", "Aging"),
            ("living-conditions-label", "Living Conditions"),
            ("restricted-xp-list-separator", ","),
            ("aging-log-heading", "Aging log"),
            ("aging-die-label", "Stress die"),
            ("export-col-total", "Total"),
        ]),
    );
    assert!(doc.contains("- **Living Conditions**: Leper, Work in a mine\n"), "{doc}");
    assert!(doc.contains("- **1220**: an apparent aging crisis, weathered · Stress die: 9 · Total: 13\n"), "{doc}");
    assert!(!doc.contains("living_condition."), "a raw slug reached the sheet: {doc}");
}

#[test]
fn a_logged_crisis_prints_its_row_its_severity_and_the_die_that_found_it() {
    let mut e = fully_populated_magus();
    let mut entry = log_entry();
    entry.year = Some(1220);
    entry.age = Some(40);
    entry.die = Some(9);
    entry.total = Some(13);
    entry.crisis = true;
    entry.crisis_die = Some(10);
    entry.crisis_total = Some(15);
    entry.crisis_row = Some(s("crisis.minor_illness"));
    entry.crisis_severity = Some(CrisisSeverity::Minor);
    e.aging_log = vec![entry];
    let doc = character_markdown(
        &e,
        &ruleset(),
        &labels(&[
            ("aging-log-heading", "Aging log"),
            ("aging-die-label", "Stress die"),
            ("export-col-total", "Total"),
            ("crisis-label", "Crisis"),
            ("crisis-die-label", "Simple die"),
            ("crisis-total-label", "Crisis total"),
            ("crisis-severity-minor", "Minor"),
        ]),
    );
    assert!(
        doc.contains(
            "- **1220**: Stress die: 9 · Total: 13 · Crisis: Minor illness (Minor) · Simple die: 10 · Crisis total: 15\n"
        ),
        "{doc}"
    );
    assert!(doc.contains("Minor illness"), "the row is named: {doc}");
    assert!(!doc.contains("crisis.minor_illness"), "a raw slug reached the sheet: {doc}");
}

#[test]
fn a_crisis_nobody_has_rolled_says_so_rather_than_printing_nothing() {
    let mut e = fully_populated_magus();
    let mut entry = log_entry();
    entry.year = Some(1220);
    entry.age = Some(40);
    entry.die = Some(9);
    entry.total = Some(13);
    entry.crisis = true;
    e.aging_log = vec![entry];
    let doc = character_markdown(
        &e,
        &ruleset(),
        &labels(&[
            ("aging-log-heading", "Aging log"),
            ("aging-die-label", "Stress die"),
            ("export-col-total", "Total"),
            ("aging-log-crisis-unrolled", "Crisis owed, not yet rolled"),
        ]),
    );
    assert!(doc.contains("· Crisis owed, not yet rolled\n"), "{doc}");
}

#[test]
fn an_undated_aging_log_entry_prints_its_effect_without_a_year_label() {
    let mut e = fully_populated_magus();
    let mut entry = log_entry();
    entry.effect = s("an apparent aging crisis, weathered");
    e.aging_log = vec![entry];
    let doc = character_markdown(&e, &ruleset(), &labels(&[("aging-log-heading", "Aging log")]));
    assert!(doc.contains("- an apparent aging crisis, weathered\n"), "{doc}");
    assert!(!doc.contains("None"), "{doc}");
    assert!(!doc.contains("- ****"), "{doc}");
}

#[test]
fn the_annotation_block_is_omitted_for_an_unwarped_unaged_character() {
    let doc = character_markdown(&magus(), &ruleset(), &labels(&[("aging-label", "Aging")]));
    assert!(!doc.contains("## Aging"), "stray heading: {doc}");
}

#[test]
fn an_all_zero_aging_point_map_leaves_the_annotation_block_out() {
    let mut e = magus();
    e.aging_points = vec![(Characteristic::Pre, 0)];
    let doc = character_markdown(
        &e,
        &ruleset(),
        &labels(&[("aging-label", "Aging"), ("aging-points-heading", "Aging points")]),
    );
    assert!(!doc.contains("## Aging"), "stray heading: {doc}");
}

// --- catalogue gaps and empty shapes -----------------------------------------------

#[test]
fn an_unterminated_brace_in_a_name_template_is_literal_text() {
    let mut e = magus();
    e.selections = vec![sel("virtue.malformed_name")];
    let doc = character_markdown(&e, &ruleset(), &no_labels());
    assert!(doc.contains("| Malformed {template |"), "{doc}");
}

#[test]
fn entries_absent_from_the_catalogue_are_not_printed() {
    let mut e = magus();
    e.selections = vec![sel("virtue.from_another_ruleset")];
    e.art_scores = vec![ArtScore { art: s("art.imaginem"), score: 4 }];
    e.equipment = vec![slot("weapon.trebuchet", true)];
    let doc = character_markdown(
        &e,
        &ruleset(),
        &labels(&[("tab-virtues-flaws", "Virtues & Flaws"), ("tab-arts", "Arts"), ("tab-equipment", "Equipment")]),
    );
    assert!(!doc.contains("Virtues & Flaws"), "{doc}");
    assert!(!doc.contains("## Arts"), "{doc}");
    assert!(!doc.contains("## Equipment"), "{doc}");
}

#[test]
fn an_unknown_type_profile_omits_confidence_and_the_point_ceilings() {
    let mut e = Entity::new(EntityKind::Character, s("hedge_wizard"));
    e.selections = vec![sel("flaw.optimistic")];
    let doc = character_markdown(
        &e,
        &ruleset(),
        &labels(&[
            ("items-flaws-title", "Flaws"),
            ("confidence-label", "Confidence"),
            ("type-hedge_wizard", "Hedge Wizard"),
        ]),
    );
    assert!(doc.contains("- **Flaws**: 1\n"), "no ceiling: {doc}");
    assert!(!doc.contains("## Confidence"), "{doc}");
}

#[test]
fn an_empty_talisman_is_not_printed() {
    let mut e = magus();
    e.talisman = Some(Talisman { description: String::new(), attunements: Vec::new(), effects: Vec::new() });
    let doc = character_markdown(
        &e,
        &ruleset(),
        &labels(&[("tab-possessions", "Magic Items"), ("talisman-label", "Talisman")]),
    );
    assert!(!doc.contains("Talisman"), "{doc}");
    assert!(!doc.contains("Magic Items"), "{doc}");
}

#[test]
fn a_bare_familiar_prints_only_what_was_entered() {
    let mut e = magus();
    let mut familiar = bare_familiar();
    familiar.powers = vec![SupernaturalPower { name: s("Ghostly Whispers"), level: 5 }];
    e.familiar = Some(familiar);
    let doc = character_markdown(
        &e,
        &ruleset(),
        &labels(&[
            ("familiar-label", "Familiar"),
            ("familiar-powers-label", "Invested Powers"),
            ("identity-name", "Name"),
            ("familiar-animal-label", "Animal"),
        ]),
    );
    assert!(doc.contains("### Familiar\n"), "{doc}");
    assert!(doc.contains("| Ghostly Whispers | 5 |"), "{doc}");
    assert!(!doc.contains("- **Name**"), "{doc}");
    assert!(!doc.contains("Animal"), "{doc}");
}

#[test]
fn powers_without_a_might_score_still_render() {
    let mut e = magus();
    e.powers = vec![SupernaturalPower { name: s("Second Sight"), level: 10 }];
    let doc = character_markdown(
        &e,
        &ruleset(),
        &labels(&[
            ("tab-supernatural", "Supernatural"),
            ("supernatural-might-label", "Might Score"),
            ("supernatural-powers-label", "Supernatural Powers"),
        ]),
    );
    assert!(doc.contains("## Supernatural\n"), "{doc}");
    assert!(!doc.contains("Might Score"), "{doc}");
    assert!(doc.contains("| Second Sight | 10 |"), "{doc}");
}

#[test]
fn a_weapon_without_attack_or_damage_leaves_those_cells_blank() {
    let mut e = magus();
    e.equipment = vec![slot("weapon.dodge", true)];
    let doc = character_markdown(&e, &ruleset(), &no_labels());
    assert!(doc.contains("| Dodge | Brawl | 0 |  | 0 |  |  |"), "{doc}");
}

// --- contract tests -------------------------------------------------------------------

const EXCLUDED_READOUT_KEYS: &[&str] = &[
    "derived-section-lab",
    "derived-section-casting",
    "derived-section-lab-casting",
    "derived-section-penetration",
    "derived-section-magic-resistance",
    "derived-section-masterpiece",
    "derived-section-familiar",
    "derived-section-surfaced",
    "derived-lab-total",
    "derived-masterpiece-cap",
    "derived-familiar-binding-level",
    "derived-familiar-cord-points",
    "derived-familiar-invested-levels",
    "derived-longevity-aging-modifier",
    "derived-longevity-suggested",
    "talisman-capacity",
    "talisman-capacity-note",
];

#[test]
fn the_document_excludes_the_per_line_derived_readouts() {
    let mut excluded = full_label_baseline();
    for (i, key) in EXCLUDED_READOUT_KEYS.iter().enumerate() {
        excluded.insert((*key).to_string(), format!("EXCLUDEDMARKER{i}"));
    }
    let doc = character_markdown(&fully_populated_magus(), &ruleset(), &to_vec(excluded));
    assert!(!doc.contains("EXCLUDEDMARKER"), "an excluded read-out leaked into the document: {doc}");
    for key in EXCLUDED_READOUT_KEYS {
        assert!(!doc.contains(key), "the excluded key '{key}' leaked: {doc}");
    }
}

fn assert_declared(key: &str) {
    assert!(label_keys().contains(&key), "the label keys lack '{key}'");
}

#[test]
fn every_taxonomy_derived_label_key_is_declared() {
    let rs = ruleset();
    let e = fully_populated_magus();
    for c in Characteristic::all() {
        assert_declared(&format!("characteristic-{}", c.slug()));
    }
    for m in [Magnitude::Free, Magnitude::Minor, Magnitude::Major] {
        assert_declared(&format!("magnitude-{}", m.slug()));
    }
    for c in AbilityCategory::all() {
        assert_declared(&format!("ability-category-{}", c.slug()));
    }
    for t in [ArtType::Technique, ArtType::Form] {
        assert_declared(&format!("art-type-{}", t.slug()));
    }
    for key in ["items-virtues-title", "items-flaws-title", "export-items-boons", "export-items-hooks"] {
        assert_declared(key);
    }
    for addend in soak(&e, &rs.ruleset).addends {
        assert_declared(&format!("derived-addend-{}", addend.label.slug()));
    }
    for level in fatigue_levels(&e, &rs.ruleset) {
        assert_declared(&format!("derived-fatigue-{}", level.level.slug()));
    }
    for band in wound_ranges(&e, &rs.ruleset) {
        assert_declared(&format!("derived-wound-{}", band.level.slug()));
    }
    for kind in [ReputationType::Local, ReputationType::Ecclesiastical, ReputationType::Hermetic, ReputationType::Academic] {
        assert_declared(&format!("reputation-type-{}", kind.slug()));
    }
    for realm in [Realm::Magic, Realm::Faerie, Realm::Divine, Realm::Infernal] {
        assert_declared(&format!("realm-{}", realm.slug()));
    }
    for source in [LongevitySource::SelfMade, LongevitySource::External] {
        assert_declared(&format!("longevity-source-{}", source.slug()));
    }
    for severity in [
        CrisisSeverity::Minor,
        CrisisSeverity::Serious,
        CrisisSeverity::Major,
        CrisisSeverity::Critical,
        CrisisSeverity::Terminal,
    ] {
        assert_declared(&format!("crisis-severity-{}", severity.slug()));
    }
    for block in LifeStageBlock::all() {
        assert_declared(&format!("xp-pool-{}", block.slug()));
    }
}

#[test]
fn no_undeclared_label_key_reaches_the_document() {
    let e = fully_populated_magus();
    let mut resolved: BTreeMap<String, String> =
        label_keys().iter().map(|key| ((*key).to_string(), "RESOLVED".to_string())).collect();
    resolved.insert(format!("type-{}", e.type_id), "RESOLVED".to_string());
    for key in [
        "param-label-ability",
        "param-label-art",
        "param-label-focus",
        "category-general",
        "category-hermetic",
        "category-personality",
    ] {
        resolved.insert(key.to_string(), "RESOLVED".to_string());
    }
    let doc = character_markdown(&e, &ruleset(), &to_vec(resolved));
    for family in [
        "export-", "derived-", "characteristic-", "magnitude-", "ability-category-", "art-type-", "category-",
        "param-label-", "identity-", "spell-", "equipment-", "items-", "tab-", "realm-", "reputation-type-",
        "longevity-", "familiar-", "talisman-", "warping-", "aging-", "living-conditions-", "confidence-",
        "decrepitude-", "supernatural-", "possessions-", "personality-", "twilight-", "power-level-",
        "device-level-", "aura-", "house-", "age-", "apparent-age-", "xp-pool", "restricted-xp-",
    ] {
        assert!(!doc.contains(family), "an undeclared '{family}*' key reached the document: {doc}");
    }
}

// --- primitives ---------------------------------------------------------------------

#[test]
fn escape_cell_escapes_a_pipe_so_it_cannot_end_a_table_cell() {
    assert_eq!(escape_cell("a | b"), "a \\| b");
}

#[test]
fn escape_cell_flattens_newlines_so_they_cannot_end_a_row() {
    assert_eq!(escape_cell("first\nsecond\r\nthird"), "first second  third");
}

#[test]
fn escape_cell_escapes_a_leading_hash_so_it_cannot_inject_a_heading() {
    assert_eq!(escape_cell("# Not a heading"), "\\# Not a heading");
}

#[test]
fn escape_cell_escapes_a_backslash_before_adding_its_own() {
    assert_eq!(escape_cell("back\\slash"), "back\\\\slash");
}

#[test]
fn escape_cell_trims_surrounding_whitespace() {
    assert_eq!(escape_cell("  padded  "), "padded");
}

#[test]
fn escape_cell_leaves_ordinary_text_alone() {
    assert_eq!(escape_cell("Bjornaer of Crintera"), "Bjornaer of Crintera");
}

#[test]
fn escaped_text_never_breaks_the_document() {
    for raw in ["|", "\\|", " \n# x | y\r\n", "##", " \\\\| ", "a||b"] {
        let out = escape_cell(raw);
        assert!(!out.contains('\n') && !out.contains('\r'), "{out:?}");
        assert!(!out.starts_with('#'), "{out:?}");
        let chars: Vec<char> = out.chars().collect();
        for (i, c) in chars.iter().enumerate() {
            if *c == '|' {
                assert!(i > 0 && chars[i - 1] == '\\', "{out:?}");
            }
        }
    }
}

#[test]
fn signed_prefixes_a_plus_for_a_positive_value() {
    assert_eq!(signed(3), "+3");
}

#[test]
fn signed_leaves_zero_unsigned() {
    assert_eq!(signed(0), "0");
}

#[test]
fn signed_uses_an_ascii_hyphen_for_a_negative_value() {
    assert_eq!(signed(-2), "-2");
    assert!(!signed(-2).contains('\u{2212}'), "no mathematical minus");
}

fn labels_without(keys: &[&str]) -> Vec<(String, String)> {
    let mut map = full_label_baseline();
    for k in keys {
        map.remove(*k);
    }
    to_vec(map)
}

#[test]
fn a_missing_label_key_fails_the_export_naming_the_key() {
    let mut e = magus();
    e.name = s("Marcus");
    let err = render(&e, &ruleset(), &labels_without(&["type-magus"]))
        .expect_err("a missing chrome key must fail the export, not degrade to it");
    assert_eq!(err.missing, vec![MissingLabel::Key(s("type-magus"))]);
}

#[test]
fn an_export_collects_every_missing_key_in_one_pass() {
    let mut e = magus();
    e.house = Some(s("house.diedne"));
    let err = render(&e, &ruleset(), &labels_without(&["type-magus", "house-label"]))
        .expect_err("multiple omissions must still fail the export");
    assert_eq!(
        err.missing,
        vec![
            MissingLabel::Key(s("house-label")),
            MissingLabel::Key(s("type-magus")),
            MissingLabel::CatalogueId(s("house.diedne")),
        ]
    );
}

#[test]
fn label_keys_are_sorted_and_free_of_duplicates() {
    let keys = label_keys();
    let mut sorted = keys.clone();
    sorted.sort_unstable();
    sorted.dedup();
    assert_eq!(sorted, keys, "label keys must be sorted and duplicate-free (canonical order)");
}

#[test]
fn an_unknown_spell_fails_the_export_naming_it() {
    let mut e = magus();
    e.spells = vec![SpellSelection {
        spell: s("spell.from_another_ruleset"),
        level: None,
        mastery: None,
        parameter: Some(s("free text")),
        mastery_abilities: Vec::new(),
    }];
    let err = render(&e, &ruleset(), &labels(&[("spell-level-general", "Gen")]))
        .expect_err("a spell id the ruleset has no name for must fail the export");
    assert_eq!(err.missing, vec![MissingLabel::CatalogueId(s("spell.from_another_ruleset"))]);
}

#[test]
fn an_export_collects_every_missing_key_in_order_once() {
    let mut e = magus();
    e.house = Some(s("house.diedne"));
    e.spells = vec![SpellSelection {
        spell: s("spell.unknown"),
        level: None,
        mastery: None,
        parameter: None,
        mastery_abilities: Vec::new(),
    }];
    let mut map = full_label_baseline();
    map.remove("type-magus");
    map.remove("identity-name");
    let err = render(&e, &ruleset(), &to_vec(map)).expect_err("missing labels fail the export");
    let names: Vec<String> = err
        .missing
        .iter()
        .map(|m| match m {
            MissingLabel::Key(k) => format!("key:{k}"),
            MissingLabel::CatalogueId(id) => format!("id:{id}"),
        })
        .collect();
    assert_eq!(names, vec!["key:identity-name", "key:type-magus", "id:house.diedne", "id:spell.unknown"]);
}

#[test]
fn two_renders_of_the_same_entity_are_byte_identical() {
    let mut e = magus();
    e.name = s("Marcus");
    set(&mut e.characteristics, Characteristic::Int, 3);
    set(&mut e.characteristics, Characteristic::Str, -1);
    let rs = ruleset();
    assert_eq!(character_markdown(&e, &rs, &no_labels()), character_markdown(&e, &rs, &no_labels()));
}
