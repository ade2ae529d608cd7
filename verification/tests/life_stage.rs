use arm_rules::effective::ability::effective_ability_score;
use arm_rules::entity::{AbilityScore, Entity};
use arm_rules::life_stage::{
    magus_minimum_abilities, AbilityRequirement, AbilityRequirementKind, ApprenticeshipRules, ChildhoodRules,
    LaterLifeRules, LifeStagePlan, LifeStageRules, PostApprenticeshipRules,
};
use arm_rules::ruleset::{AbilityDef, AdvancementRow, AdvancementTable, EntityTypeProfile, ParameterDef, PointItem, Ruleset};
use arm_rules::life_stage::AbilityRequirementKind::{Recommended, Required};
use arm_rules::types::{AbilityCategory, Effect, EntityKind, ItemKind, Magnitude, Selection};

fn s(x: &str) -> String {
    x.to_string()
}

fn item(id: &str, kind: ItemKind, magnitude: Magnitude, category: &str, params: &[&str], effects: Vec<Effect>) -> PointItem {
    PointItem {
        id: s(id),
        kind,
        magnitude,
        category: s(category),
        extra_categories: Vec::new(),
        parameters: params.iter().map(|k| ParameterDef { key: s(k) }).collect(),
        effects,
        required_house: None,
    }
}

fn profile(id: &str, is_magus: bool) -> EntityTypeProfile {
    EntityTypeProfile {
        id: s(id),
        is_magus,
        virtue_points: 10,
        flaw_points: 10,
        confidence_score: 0,
        confidence_points: 0,
        gift_id: None,
        gift_categories: Vec::new(),
        spell_levels: 0,
    }
}

fn ability(id: &str, category: AbilityCategory, parameter: Option<&str>) -> AbilityDef {
    AbilityDef {
        id: s(id),
        category,
        parameter: parameter.map(s),
        locality_dependent: false,
        combat_ability: false,
    }
}

fn requirement(ability: &str, min_score: u8) -> AbilityRequirement {
    AbilityRequirement { ability: s(ability), min_score, parameter: None }
}

/// The shipped life stages with the magus's apprenticeship and post-Gauntlet
/// blocks declared.
fn shipped_with_apprenticeship() -> LifeStageRules {
    LifeStageRules {
        apprenticeship: Some(ApprenticeshipRules {
            minimum_abilities: vec![
                requirement("ability.dead_language", 1),
                requirement("ability.magic_theory", 1),
                requirement("ability.parma_magica", 1),
            ],
            recommended_abilities: vec![
                requirement("ability.artes_liberales", 1),
                requirement("ability.dead_language", 4),
                requirement("ability.magic_theory", 3),
                requirement("ability.parma_magica", 1),
            ],
            recommended_xp: 90,
            xp: 240,
            years: 15,
        }),
        childhood: ChildhoodRules {
            years: 5,
            native_language_ability: s("ability.living_language"),
            native_language_xp: 75,
            spread_xp: 45,
            spread_abilities: vec![s("ability.athletics"), s("ability.swim")],
        },
        later_life: LaterLifeRules { xp_per_year: 15 },
        post_apprenticeship: Some(PostApprenticeshipRules {
            lab_season_cost: 10,
            max_charged_lab_seasons_per_year: 3,
            points_per_year: 30,
        }),
    }
}

/// A ruleset whose life stages carry the shipped apprenticeship requirements.
fn minimum_ruleset() -> Ruleset {
    let mut rs = Ruleset::empty();
    rs.point_items = vec![
        item("flaw.optimistic", ItemKind::Flaw, Magnitude::Minor, "personality", &[], Vec::new()),
        item("virtue.puissant_ability", ItemKind::Virtue, Magnitude::Minor, "general", &["ability"],
            vec![Effect::AbilityBonus { param: s("ability"), amount: 2 }]),
    ];
    rs.type_profiles = vec![profile("companion", false), profile("magus", true)];
    rs.advancement = AdvancementTable {
        rows: vec![
            AdvancementRow { score: 1, total_xp: 5 },
            AdvancementRow { score: 3, total_xp: 30 },
            AdvancementRow { score: 4, total_xp: 50 },
        ],
    };
    rs.abilities = vec![
        ability("ability.artes_liberales", AbilityCategory::Academic, None),
        ability("ability.athletics", AbilityCategory::General, None),
        ability("ability.dead_language", AbilityCategory::Academic, Some("language")),
        ability("ability.living_language", AbilityCategory::General, Some("language")),
        ability("ability.magic_theory", AbilityCategory::Arcane, None),
        ability("ability.parma_magica", AbilityCategory::Arcane, None),
        ability("ability.penetration", AbilityCategory::Arcane, None),
        ability("ability.philosophiae", AbilityCategory::Academic, None),
        ability("ability.swim", AbilityCategory::General, None),
    ];
    rs.life_stages = Some(shipped_with_apprenticeship());
    rs
}

/// A ruleset carrying the two rate-bearing items and no life stages.
fn rate_ruleset() -> Ruleset {
    let mut rs = Ruleset::empty();
    rs.point_items = vec![
        item("virtue.wealthy", ItemKind::Virtue, Magnitude::Major, "general", &[],
            vec![Effect::LaterLifeXpRate { amount: 20 }]),
        item("flaw.poor", ItemKind::Flaw, Magnitude::Major, "general", &[], vec![Effect::LaterLifeXpRate { amount: 10 }]),
        item("flaw.optimistic", ItemKind::Flaw, Magnitude::Minor, "personality", &[], Vec::new()),
    ];
    rs.type_profiles = vec![profile("companion", false), profile("magus", true)];
    rs
}

fn companion() -> Entity {
    Entity::new(EntityKind::Character, s("companion"))
}

fn magus(scores: Vec<(&str, Option<&str>, u8)>) -> Entity {
    let mut entity = companion();
    entity.type_id = s("magus");
    entity.ability_scores = scores
        .into_iter()
        .map(|(ability, parameter, score)| AbilityScore {
            ability: s(ability),
            parameter: parameter.map(str::to_string),
            score,
            specialty: None,
        })
        .collect();
    entity
}

#[test]
fn the_magus_minimum_checklist_reports_met_and_unmet() {
    let rs = minimum_ruleset();

    // A magus with nothing bought: seven rows, all unmet, minimums first.
    let checklist = magus_minimum_abilities(&magus(vec![]), &rs);
    let rows: Vec<(&str, u8, u8, bool, AbilityRequirementKind)> = checklist
        .iter()
        .map(|row| (row.ability.as_str(), row.min_score, row.score, row.met, row.requirement))
        .collect();
    assert_eq!(
        rows,
        vec![
            ("ability.dead_language", 1, 0, false, Required),
            ("ability.magic_theory", 1, 0, false, Required),
            ("ability.parma_magica", 1, 0, false, Required),
            ("ability.artes_liberales", 1, 0, false, Recommended),
            ("ability.dead_language", 4, 0, false, Recommended),
            ("ability.magic_theory", 3, 0, false, Recommended),
            ("ability.parma_magica", 1, 0, false, Recommended),
        ]
    );

    // The Darius package: Latin 4, Magic Theory 4, Artes Liberales 3, Parma 1
    // meets every row.
    let darius = magus(vec![
        ("ability.dead_language", Some("Latin"), 4),
        ("ability.magic_theory", None, 4),
        ("ability.artes_liberales", None, 3),
        ("ability.parma_magica", None, 1),
    ]);
    assert!(
        magus_minimum_abilities(&darius, &rs).iter().all(|row| row.met),
        "{:?}",
        magus_minimum_abilities(&darius, &rs)
    );

    // The score reported is the highest bought instance of the id, so a magus
    // with Greek 1 and Latin 4 is credited with 4.
    let polyglot = magus(vec![
        ("ability.dead_language", Some("Greek"), 1),
        ("ability.dead_language", Some("Latin"), 4),
    ]);
    let rows = magus_minimum_abilities(&polyglot, &rs);
    assert_eq!(
        rows.iter()
            .filter(|row| row.ability == "ability.dead_language")
            .map(|row| (row.min_score, row.score, row.met))
            .collect::<Vec<_>>(),
        vec![(1, 4, true), (4, 4, true)]
    );

    // Nothing is demanded of a companion, and nothing at all when the ruleset
    // ships no apprenticeship block.
    assert!(magus_minimum_abilities(&companion(), &rs).is_empty());
    assert!(magus_minimum_abilities(&magus(vec![]), &rate_ruleset()).is_empty());
}

#[test]
fn latin_is_matched_by_ability_id_not_by_instance() {
    let rs = minimum_ruleset();
    let greek = magus(vec![("ability.dead_language", Some("Greek"), 1)]);
    let row = magus_minimum_abilities(&greek, &rs)
        .into_iter()
        .find(|row| row.ability == "ability.dead_language" && row.requirement == AbilityRequirementKind::Required)
        .expect("the Latin minimum is on the checklist");
    assert!(row.met, "any dead language satisfies it: {row:?}");
    assert!(row.parameter.is_none(), "the shipped requirement names no instance: {row:?}");
}

#[test]
fn puissant_parma_magica_does_not_admit_a_magus_to_the_order() {
    let rs = minimum_ruleset();
    let mut entity = magus(vec![]);
    entity.selections = vec![Selection::with_params(
        s("virtue.puissant_ability"),
        vec![(s("ability"), s("ability.parma_magica"))],
    )];

    // The effective score is 2 …
    assert_eq!(effective_ability_score(&entity, &rs, "ability.parma_magica", None), 2);
    // … and the Order is unimpressed.
    let row = magus_minimum_abilities(&entity, &rs)
        .into_iter()
        .find(|row| row.ability == "ability.parma_magica" && row.requirement == AbilityRequirementKind::Required)
        .expect("the Parma minimum is on the checklist");
    assert_eq!(row.score, 0);
    assert!(!row.met, "{row:?}");
}

#[test]
fn a_parameter_on_the_requirement_narrows_the_match_to_that_instance() {
    let mut rs = minimum_ruleset();
    if let Some(stages) = rs.life_stages.as_mut() {
        if let Some(app) = stages.apprenticeship.as_mut() {
            app.minimum_abilities = vec![AbilityRequirement {
                ability: s("ability.dead_language"),
                min_score: 1,
                parameter: Some(s("Latin")),
            }];
            app.recommended_abilities = Vec::new();
        }
    }
    let greek = magus(vec![("ability.dead_language", Some("Greek"), 3)]);
    let rows = magus_minimum_abilities(&greek, &rs);
    assert_eq!(rows.len(), 1);
    assert_eq!(rows[0].score, 0);
    assert!(!rows[0].met);
    let latin = magus(vec![("ability.dead_language", Some("Latin"), 2)]);
    let rows = magus_minimum_abilities(&latin, &rs);
    assert_eq!(rows[0].score, 2);
    assert!(rows[0].met);
}

// --- the life-stage budget ----------------------------------------------------------

/// The shipped rules without the magus-only blocks.
fn rules() -> LifeStageRules {
    let mut rules = shipped_with_apprenticeship();
    rules.apprenticeship = None;
    rules.post_apprenticeship = None;
    rules
}

fn rules_with_apprenticeship() -> LifeStageRules {
    shipped_with_apprenticeship()
}

fn companion_with(selections: Vec<&str>) -> Entity {
    let mut entity = companion();
    entity.selections = selections.into_iter().map(|r| Selection::new(s(r))).collect();
    entity
}

fn default_plan() -> LifeStagePlan {
    LifeStagePlan {
        native_language: None,
        childhood_package: None,
        gauntlet_age: None,
        post_gauntlet_lab_seasons: 0,
        post_gauntlet_spell_levels: 0,
    }
}

/// A magus of `age`, built through its life stages.
fn planned_magus(age: u32) -> Entity {
    let mut entity = companion();
    entity.type_id = s("magus");
    entity.age = Some(age);
    entity.life_stages = Some(default_plan());
    entity
}

fn magus_out_of_apprenticeship(age: u32, gauntlet_age: u32, lab_seasons: u32, spell_levels: u32) -> Entity {
    let mut entity = planned_magus(age);
    entity.life_stages = Some(LifeStagePlan {
        gauntlet_age: Some(gauntlet_age),
        post_gauntlet_lab_seasons: lab_seasons,
        post_gauntlet_spell_levels: spell_levels,
        ..default_plan()
    });
    entity
}

#[test]
fn later_life_years_start_after_childhood() {
    let rules = rules();
    assert_eq!(rules.later_life_years(25, 0), 20);
    assert_eq!(rules.later_life_years(5, 0), 0);
}

#[test]
fn an_age_inside_childhood_earns_no_later_life_years() {
    assert_eq!(rules().later_life_years(3, 0), 0);
}

#[test]
fn wealthy_and_poor_replace_the_yearly_rate() {
    let rs = rate_ruleset();
    let rules = rules();
    assert_eq!(rules.later_life_rate(&companion_with(vec![]), &rs), 15);
    assert_eq!(rules.later_life_rate(&companion_with(vec!["virtue.wealthy"]), &rs), 20);
    assert_eq!(rules.later_life_rate(&companion_with(vec!["flaw.poor"]), &rs), 10);
}

#[test]
fn conflicting_rates_resolve_to_the_lowest() {
    let rs = rate_ruleset();
    assert_eq!(rules().later_life_rate(&companion_with(vec!["virtue.wealthy", "flaw.poor"]), &rs), 10);
}

#[test]
fn a_magus_later_life_stops_at_the_gauntlet() {
    let rules = rules();
    assert_eq!(rules.later_life_years(25, 15), 5);
    assert_eq!(rules.later_life_years(25, 0), 20);
    assert_eq!(rules.later_life_years(19, 15), 0);

    let rs = rate_ruleset();
    let rules = rules_with_apprenticeship();
    let budget = rules.budget(&planned_magus(25), &rs).expect("a magus with a plan");
    assert_eq!(budget.later_life_years, 5);
    assert_eq!(budget.later_life_xp, 75);

    let mut entity = companion();
    entity.age = Some(25);
    entity.life_stages = Some(default_plan());
    let budget = rules.budget(&entity, &rs).expect("a companion with a plan");
    assert_eq!(budget.later_life_years, 20);
    assert_eq!(budget.later_life_xp, 300);
}

#[test]
fn the_budget_is_the_childhood_blocks_plus_the_yearly_ones() {
    let rs = rate_ruleset();
    let mut entity = companion();
    entity.age = Some(25);
    entity.life_stages = Some(LifeStagePlan { native_language: Some(s("German")), ..default_plan() });
    let budget = rules().budget(&entity, &rs).expect("a character with a plan and an age has a budget");
    assert_eq!(budget.childhood_native_xp, 75);
    assert_eq!(budget.childhood_spread_xp, 45);
    assert_eq!(budget.later_life_years, 20);
    assert_eq!(budget.later_life_rate, 15);
    assert_eq!(budget.later_life_xp, 300);
    assert_eq!(budget.total(), 420);
}

#[test]
fn the_budget_of_a_guided_magus_adds_its_apprenticeship() {
    let rs = rate_ruleset();
    let rules = rules_with_apprenticeship();
    let budget = rules.budget(&planned_magus(25), &rs).expect("a magus with a plan");
    assert_eq!(budget.apprenticeship_years, 15);
    assert_eq!(budget.apprenticeship_xp, 240);
    assert_eq!(budget.later_life_xp, 75);
    assert_eq!(budget.total(), 435);

    let mut entity = companion();
    entity.age = Some(25);
    entity.life_stages = Some(default_plan());
    let budget = rules.budget(&entity, &rs).expect("a companion with a plan");
    assert_eq!(budget.apprenticeship_years, 0);
    assert_eq!(budget.apprenticeship_xp, 0);
    assert_eq!(budget.total(), 420);
}

#[test]
fn an_unset_age_still_earns_the_apprenticeship_block() {
    let rs = rate_ruleset();
    let mut magus = planned_magus(25);
    magus.age = None;
    let budget = rules_with_apprenticeship().budget(&magus, &rs).expect("apprenticeship does not depend on an age");
    assert_eq!(budget.apprenticeship_years, 15);
    assert_eq!(budget.apprenticeship_xp, 240);
    assert_eq!(budget.later_life_years, 0);
    assert_eq!(budget.later_life_xp, 0);
    assert_eq!(budget.total(), 360);
}

#[test]
fn a_magus_with_no_stored_gauntlet_age_stands_at_its_gauntlet() {
    let budget = rules_with_apprenticeship().budget(&planned_magus(25), &rate_ruleset()).expect("a magus with a plan");
    assert_eq!(budget.gauntlet_age, 25);
    assert_eq!(budget.later_life_years, 5);
    assert_eq!(budget.apprenticeship_xp, 240);
    assert_eq!(budget.post_gauntlet_years, 0);
    assert_eq!(budget.post_gauntlet_points, 0);
    assert_eq!(budget.post_gauntlet_xp, 0);
    assert_eq!(budget.total(), 435);
}

#[test]
fn the_years_after_the_gauntlet_earn_thirty_points_each() {
    let budget = rules_with_apprenticeship()
        .budget(&magus_out_of_apprenticeship(60, 25, 0, 0), &rate_ruleset())
        .expect("a magus with a plan");
    assert_eq!(budget.gauntlet_age, 25);
    assert_eq!(budget.post_gauntlet_years, 35);
    assert_eq!(budget.post_gauntlet_points, 1050);
    assert_eq!(budget.post_gauntlet_xp, 1050);
    assert_eq!(budget.later_life_years, 5);
    assert_eq!(budget.later_life_xp, 75);
    assert_eq!(budget.apprenticeship_years, 15);
    assert_eq!(budget.total(), 435 + 1050);
}

#[test]
fn each_charged_lab_season_costs_ten_points() {
    let budget = rules_with_apprenticeship()
        .budget(&magus_out_of_apprenticeship(60, 25, 10, 0), &rate_ruleset())
        .expect("a magus with a plan");
    assert_eq!(budget.post_gauntlet_points, 950);
    assert_eq!(budget.post_gauntlet_xp, 950);
}

#[test]
fn a_fourth_lab_season_in_a_year_costs_nothing() {
    let rules = rules_with_apprenticeship();
    let rs = rate_ruleset();
    let three = rules.budget(&magus_out_of_apprenticeship(26, 25, 3, 0), &rs).expect("a magus with a plan");
    assert_eq!(three.post_gauntlet_years, 1);
    assert_eq!(three.post_gauntlet_points, 0);

    let four = rules.budget(&magus_out_of_apprenticeship(26, 25, 4, 0), &rs).expect("a magus with a plan");
    assert_eq!(four.post_gauntlet_points, 0);

    let all_lab = rules.budget(&magus_out_of_apprenticeship(60, 25, 200, 0), &rs).expect("a magus with a plan");
    assert_eq!(all_lab.post_gauntlet_points, 0);
    assert_eq!(all_lab.post_gauntlet_xp, 0);
}

#[test]
fn points_taken_as_spell_levels_are_not_experience() {
    let budget = rules_with_apprenticeship()
        .budget(&magus_out_of_apprenticeship(60, 25, 10, 300), &rate_ruleset())
        .expect("a magus with a plan");
    assert_eq!(budget.post_gauntlet_points, 950);
    assert_eq!(budget.post_gauntlet_spell_levels, 300);
    assert_eq!(budget.post_gauntlet_xp, 650);
    assert_eq!(budget.total(), 435 + 650);

    let greedy = rules_with_apprenticeship()
        .budget(&magus_out_of_apprenticeship(60, 25, 10, 5_000), &rate_ruleset())
        .expect("a magus with a plan");
    assert_eq!(greedy.post_gauntlet_spell_levels, 950);
    assert_eq!(greedy.post_gauntlet_xp, 0);
}

#[test]
fn a_gauntlet_age_above_the_characters_age_is_clamped_to_it() {
    let budget = rules_with_apprenticeship()
        .budget(&magus_out_of_apprenticeship(25, 40, 0, 0), &rate_ruleset())
        .expect("a magus with a plan");
    assert_eq!(budget.gauntlet_age, 25);
    assert_eq!(budget.later_life_years, 5);
    assert_eq!(budget.post_gauntlet_years, 0);
    assert_eq!(budget.post_gauntlet_points, 0);
}

#[test]
fn a_companion_ignores_a_stored_gauntlet_age() {
    let rules = rules_with_apprenticeship();
    let rs = rate_ruleset();
    let mut plain = companion();
    plain.age = Some(60);
    plain.life_stages = Some(default_plan());

    let mut edited = companion();
    edited.age = Some(60);
    edited.life_stages = Some(LifeStagePlan {
        gauntlet_age: Some(25),
        post_gauntlet_lab_seasons: 4,
        post_gauntlet_spell_levels: 300,
        ..default_plan()
    });

    assert_eq!(
        rules.budget(&edited, &rs).expect("a companion with a plan"),
        rules.budget(&plain, &rs).expect("a companion with a plan")
    );
    let budget = rules.budget(&edited, &rs).expect("a companion with a plan");
    assert_eq!(budget.later_life_years, 55);
    assert_eq!(budget.post_gauntlet_years, 0);
}

#[test]
fn an_unset_age_earns_no_post_gauntlet_year() {
    let mut magus = magus_out_of_apprenticeship(60, 25, 4, 100);
    magus.age = None;
    let budget = rules_with_apprenticeship().budget(&magus, &rate_ruleset()).expect("a magus with a plan");
    assert_eq!(budget.post_gauntlet_years, 0);
    assert_eq!(budget.post_gauntlet_points, 0);
    assert_eq!(budget.post_gauntlet_spell_levels, 0);
    assert_eq!(budget.post_gauntlet_xp, 0);
    assert_eq!(budget.later_life_years, 0);
    assert_eq!(budget.total(), 360);
}

#[test]
fn without_a_post_apprenticeship_block_the_years_after_the_gauntlet_grant_nothing() {
    let mut rules = rules_with_apprenticeship();
    rules.post_apprenticeship = None;
    let budget = rules.budget(&magus_out_of_apprenticeship(60, 25, 0, 0), &rate_ruleset()).expect("a magus with a plan");
    assert_eq!(budget.post_gauntlet_years, 35);
    assert_eq!(budget.post_gauntlet_points, 0);
    assert_eq!(budget.post_gauntlet_spell_levels, 0);
    assert_eq!(budget.post_gauntlet_xp, 0);
}

#[test]
fn a_raised_rate_applies_to_every_later_life_year() {
    let rs = rate_ruleset();
    let mut entity = companion_with(vec!["virtue.wealthy"]);
    entity.age = Some(25);
    entity.life_stages = Some(default_plan());
    let budget = rules().budget(&entity, &rs).expect("budget");
    assert_eq!(budget.later_life_xp, 400);
    assert_eq!(budget.total(), 520);
}

#[test]
fn there_is_no_budget_without_a_plan() {
    let rs = rate_ruleset();
    let mut entity = companion();
    entity.age = Some(25);
    assert!(rules().budget(&entity, &rs).is_none(), "no plan");
}

#[test]
fn an_unset_age_still_earns_the_childhood_blocks() {
    let rs = rate_ruleset();
    let mut entity = companion();
    entity.life_stages = Some(default_plan());
    entity.age = None;
    let budget = rules().budget(&entity, &rs).expect("childhood does not depend on an age");
    assert_eq!(budget.childhood_native_xp, 75);
    assert_eq!(budget.childhood_spread_xp, 45);
    assert_eq!(budget.later_life_years, 0);
    assert_eq!(budget.later_life_rate, 15);
    assert_eq!(budget.later_life_xp, 0);
    assert_eq!(budget.total(), 120);
}

#[test]
fn the_minimum_gauntlet_age_is_childhood_plus_apprenticeship() {
    assert_eq!(rules_with_apprenticeship().minimum_gauntlet_age(), 20);
    assert_eq!(rules().minimum_gauntlet_age(), 5);
}
