use arm_rules::entity::Entity;
use arm_rules::equipment::WeaponKind;
use arm_rules::grant::{open_pick_satisfies, resolve_grants, Grant, GrantConstraint};
use arm_rules::ruleset::PointItem;
use arm_rules::house::{self, House, LineageType};
use arm_rules::mythic_companion::{self, MythicCompanionType, RequiredFlaw};
use arm_rules::ruleset::Ruleset;
use arm_rules::types::{EntityKind, ItemKind, Magnitude, Selection};

fn s(x: &str) -> String {
    x.to_string()
}

fn puissant_art(art: &str) -> Selection {
    Selection::with_params(s("virtue.puissant_art"), vec![(s("art"), s(art))])
}

fn sel(id: &str) -> Selection {
    Selection::new(s(id))
}

// --- Houses ---------------------------------------------------------------------

/// Houses exercising each grant kind: a fixed Virtue (Tytalus), a choice
/// between two Puissant Arts (Flambeau), and an open Minor Virtue (Jerbiton).
fn grant_ruleset() -> Ruleset {
    let mut rs = Ruleset::empty();
    rs.houses = vec![
        House {
            id: s("house.tytalus"),
            lineage_type: LineageType::Societas,
            grants: vec![Grant::Fixed { item: s("virtue.self_confident"), params: Vec::new() }],
        },
        House {
            id: s("house.flambeau"),
            lineage_type: LineageType::Societas,
            grants: vec![Grant::Choice {
                choice_key: s("flambeau_puissant"),
                options: vec![puissant_art("art.perdo"), puissant_art("art.ignem")],
            }],
        },
        House {
            id: s("house.jerbiton"),
            lineage_type: LineageType::Societas,
            grants: vec![Grant::Open {
                choice_key: s("jerbiton_virtue"),
                constraint: GrantConstraint {
                    kind: ItemKind::Virtue,
                    magnitude: Some(Magnitude::Minor),
                    require_categories: Vec::new(),
                    forbid_categories: Vec::new(),
                },
            }],
        },
    ];
    rs
}

fn magus_in(house: &str) -> Entity {
    let mut entity = Entity::new(EntityKind::Character, s("magus"));
    entity.house = Some(s(house));
    entity
}

#[test]
fn no_house_grants_nothing() {
    let rs = grant_ruleset();
    let mut entity = magus_in("house.tytalus");
    entity.house = None;
    assert!(house::granted_selections(&entity, &rs).is_empty());
}

#[test]
fn unknown_house_grants_nothing() {
    let rs = grant_ruleset();
    let entity = magus_in("house.does_not_exist");
    assert!(house::granted_selections(&entity, &rs).is_empty());
}

#[test]
fn fixed_grant_emits_the_item() {
    let rs = grant_ruleset();
    let entity = magus_in("house.tytalus");
    assert_eq!(house::granted_selections(&entity, &rs), vec![sel("virtue.self_confident")]);
}

#[test]
fn choice_grant_emits_the_pick_when_it_is_an_option() {
    let rs = grant_ruleset();
    let mut entity = magus_in("house.flambeau");
    entity.house_choices.push((s("flambeau_puissant"), puissant_art("art.ignem")));
    assert_eq!(house::granted_selections(&entity, &rs), vec![puissant_art("art.ignem")]);
}

#[test]
fn choice_grant_emits_nothing_when_pick_absent() {
    let rs = grant_ruleset();
    let entity = magus_in("house.flambeau");
    assert!(house::granted_selections(&entity, &rs).is_empty());
}

#[test]
fn choice_grant_emits_nothing_when_pick_not_an_option() {
    let rs = grant_ruleset();
    let mut entity = magus_in("house.flambeau");
    // Puissant Creo is not one of the offered options (Perdo / Ignem).
    entity.house_choices.push((s("flambeau_puissant"), puissant_art("art.creo")));
    assert!(house::granted_selections(&entity, &rs).is_empty());
}

#[test]
fn open_grant_emits_the_pick_verbatim() {
    let rs = grant_ruleset();
    let mut entity = magus_in("house.jerbiton");
    entity.house_choices.push((s("jerbiton_virtue"), sel("virtue.affinity_with_art")));
    assert_eq!(house::granted_selections(&entity, &rs), vec![sel("virtue.affinity_with_art")]);
}

#[test]
fn open_grant_emits_nothing_when_pick_absent() {
    let rs = grant_ruleset();
    let entity = magus_in("house.jerbiton");
    assert!(house::granted_selections(&entity, &rs).is_empty());
}

#[test]
fn house_lookup_finds_listed_houses_only() {
    let rs = grant_ruleset();
    assert_eq!(rs.house("house.flambeau").map(|h| h.id.as_str()), Some("house.flambeau"));
    assert!(rs.house("house.bonisagus").is_none());
}

// --- Mythic Companion types -------------------------------------------------------

fn mythic_ruleset() -> Ruleset {
    let mut rs = Ruleset::empty();
    rs.mythic_types = vec![MythicCompanionType {
        id: s("mythic_type.devil_child"),
        grants: vec![
            Grant::Fixed { item: s("virtue.devil_child"), params: Vec::new() },
            Grant::Choice {
                choice_key: s("devil_child_might"),
                options: vec![sel("virtue.demonic_might"), sel("virtue.demonic_powers")],
            },
        ],
        required_virtues: vec![sel("virtue.demonic_blood")],
        required_flaws: vec![RequiredFlaw {
            default: sel("flaw.tragic_life"),
            constraint: GrantConstraint {
                kind: ItemKind::Flaw,
                magnitude: Some(Magnitude::Major),
                require_categories: vec![s("supernatural")],
                forbid_categories: Vec::new(),
            },
        }],
        bonus_flaw_points: 7,
        bonus_free_virtue_points: 3,
    }];
    rs
}

fn devil_child() -> Entity {
    let mut e = Entity::new(EntityKind::Character, s("mythic_companion"));
    e.mythic_type = Some(s("mythic_type.devil_child"));
    e
}

#[test]
fn required_selections_flattens_virtues_and_flaw_defaults() {
    let rs = mythic_ruleset();
    let mtype = rs.mythic_type("mythic_type.devil_child").unwrap();
    assert_eq!(mtype.required_selections(), vec![sel("virtue.demonic_blood"), sel("flaw.tragic_life")]);
}

#[test]
fn no_type_grants_nothing() {
    let rs = mythic_ruleset();
    let mut e = devil_child();
    e.mythic_type = None;
    assert!(mythic_companion::granted_selections(&e, &rs).is_empty());
}

#[test]
fn unknown_type_grants_nothing() {
    let rs = mythic_ruleset();
    let mut e = devil_child();
    e.mythic_type = Some(s("mythic_type.does_not_exist"));
    assert!(rs.mythic_type("mythic_type.does_not_exist").is_none());
    assert!(mythic_companion::granted_selections(&e, &rs).is_empty());
}

#[test]
fn fixed_and_chosen_grants_resolve() {
    let rs = mythic_ruleset();
    let mut e = devil_child();
    e.mythic_choices.push((s("devil_child_might"), sel("virtue.demonic_powers")));
    assert_eq!(
        mythic_companion::granted_selections(&e, &rs),
        vec![sel("virtue.devil_child"), sel("virtue.demonic_powers")]
    );
}

// --- the shared resolver ----------------------------------------------------------

#[test]
fn resolve_grants_emits_fixed_and_valid_picks_only() {
    let grants = vec![
        Grant::Fixed { item: s("virtue.self_confident"), params: Vec::new() },
        Grant::Choice { choice_key: s("puissant"), options: vec![puissant_art("art.perdo"), puissant_art("art.ignem")] },
        Grant::Open {
            choice_key: s("open"),
            constraint: GrantConstraint {
                kind: ItemKind::Virtue,
                magnitude: None,
                require_categories: Vec::new(),
                forbid_categories: Vec::new(),
            },
        },
    ];
    let choices = vec![(s("open"), sel("virtue.affinity")), (s("puissant"), puissant_art("art.ignem"))];
    assert_eq!(
        resolve_grants(&grants, &choices),
        vec![sel("virtue.self_confident"), puissant_art("art.ignem"), sel("virtue.affinity")]
    );
}

#[test]
fn resolve_grants_drops_absent_and_off_menu_choice_picks() {
    let grants = vec![Grant::Choice {
        choice_key: s("puissant"),
        options: vec![puissant_art("art.perdo"), puissant_art("art.ignem")],
    }];
    // Absent pick → nothing.
    assert!(resolve_grants(&grants, &Vec::new()).is_empty());
    // Off-menu pick (Creo not offered) → nothing.
    let choices = vec![(s("puissant"), puissant_art("art.creo"))];
    assert!(resolve_grants(&grants, &choices).is_empty());
}

#[test]
fn fixed_grant_keeps_its_parameters() {
    let grants = vec![Grant::Fixed {
        item: s("virtue.minor_magical_focus"),
        params: vec![(s("focus"), s("certamen"))],
    }];
    let out = resolve_grants(&grants, &Vec::new());
    assert_eq!(out.len(), 1);
    assert_eq!(out[0].param("focus").map(|v| v.as_str()), Some("certamen"));
}

// --- stable slugs ------------------------------------------------------------------

#[test]
fn lineage_type_display_matches_serde_scalar() {
    let slugs: Vec<&str> = LineageType::all().iter().map(|t| t.slug()).collect();
    assert_eq!(slugs, vec!["true_lineage", "mystery_cult", "societas"]);
}

#[test]
fn lineage_type_all_is_canonical_order() {
    assert_eq!(LineageType::all(), vec![LineageType::TrueLineage, LineageType::MysteryCult, LineageType::Societas]);
    assert!(LineageType::TrueLineage < LineageType::Societas);
}

#[test]
fn weapon_kind_display_matches_serde_scalar() {
    let slugs: Vec<&str> = WeaponKind::all().iter().map(|k| k.slug()).collect();
    assert_eq!(slugs, vec!["melee", "missile", "thrown"]);
}

#[test]
fn free_minor_choice_omitted_until_picked() {
    let rs = mythic_ruleset();
    let e = devil_child();
    // Only the fixed status Virtue resolves; the Might/Powers choice is unset.
    assert_eq!(mythic_companion::granted_selections(&e, &rs), vec![sel("virtue.devil_child")]);
}

#[test]
fn constraint_shape_is_usable() {
    let c = GrantConstraint {
        kind: ItemKind::Flaw,
        magnitude: None,
        require_categories: vec![s("supernatural")],
        forbid_categories: Vec::new(),
    };
    let f = RequiredFlaw { default: sel("flaw.tragic_life"), constraint: c };
    assert_eq!(f.constraint.kind, ItemKind::Flaw);
}

// --- open picks -----------------------------------------------------------------------

fn pick_ruleset() -> Ruleset {
    let mut rs = Ruleset::empty();
    let item = |id: &str, kind: ItemKind, magnitude: Magnitude, category: &str, extra: &[&str], house: Option<&str>| PointItem {
        id: s(id),
        kind,
        magnitude,
        category: s(category),
        extra_categories: extra.iter().map(|c| s(c)).collect(),
        parameters: Vec::new(),
        effects: Vec::new(),
        required_house: house.map(s),
    };
    rs.point_items = vec![
        item("virtue.affinity_with_art", ItemKind::Virtue, Magnitude::Minor, "hermetic", &[], None),
        item("virtue.strong_faerie_blood", ItemKind::Virtue, Magnitude::Major, "supernatural", &[], None),
        item("virtue.heartbeast", ItemKind::Virtue, Magnitude::Major, "hermetic", &["supernatural"], Some("house.bjornaer")),
        item("flaw.blind", ItemKind::Flaw, Magnitude::Major, "general", &[], None),
    ];
    rs
}

fn constraint(kind: ItemKind, magnitude: Option<Magnitude>, require: &[&str], forbid: &[&str]) -> GrantConstraint {
    GrantConstraint {
        kind,
        magnitude,
        require_categories: require.iter().map(|c| s(c)).collect(),
        forbid_categories: forbid.iter().map(|c| s(c)).collect(),
    }
}

#[test]
fn an_open_pick_must_match_kind_magnitude_and_categories() {
    let rs = pick_ruleset();
    let minor_virtue = constraint(ItemKind::Virtue, Some(Magnitude::Minor), &[], &[]);
    assert!(open_pick_satisfies(&sel("virtue.affinity_with_art"), &minor_virtue, &rs, None));
    assert!(!open_pick_satisfies(&sel("virtue.strong_faerie_blood"), &minor_virtue, &rs, None), "wrong magnitude");
    assert!(!open_pick_satisfies(&sel("flaw.blind"), &minor_virtue, &rs, None), "wrong kind");
    assert!(!open_pick_satisfies(&sel("virtue.unknown"), &minor_virtue, &rs, None), "not catalogued");

    let major_non_hermetic = constraint(ItemKind::Virtue, Some(Magnitude::Major), &[], &["hermetic"]);
    assert!(open_pick_satisfies(&sel("virtue.strong_faerie_blood"), &major_non_hermetic, &rs, None));
    let supernatural = constraint(ItemKind::Virtue, None, &["supernatural"], &[]);
    assert!(open_pick_satisfies(&sel("virtue.strong_faerie_blood"), &supernatural, &rs, None));
    assert!(!open_pick_satisfies(&sel("virtue.affinity_with_art"), &supernatural, &rs, None));
}

#[test]
fn an_open_pick_reads_secondary_categories_and_the_house_prerequisite() {
    let rs = pick_ruleset();
    // Heartbeast is filed under Hermetic and, secondarily, Supernatural.
    let supernatural = constraint(ItemKind::Virtue, None, &["supernatural"], &[]);
    let no_hermetic = constraint(ItemKind::Virtue, None, &[], &["hermetic"]);
    assert!(open_pick_satisfies(&sel("virtue.heartbeast"), &supernatural, &rs, Some("house.bjornaer")));
    assert!(!open_pick_satisfies(&sel("virtue.heartbeast"), &no_hermetic, &rs, Some("house.bjornaer")));
    // It demands House Bjornaer: a Jerbiton magus, or no House, cannot take it.
    assert!(!open_pick_satisfies(&sel("virtue.heartbeast"), &supernatural, &rs, Some("house.jerbiton")));
    assert!(!open_pick_satisfies(&sel("virtue.heartbeast"), &supernatural, &rs, None));
}
