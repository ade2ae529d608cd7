use arm_rules::effective::xp::{
    checked_xp_allocation, restricted_xp_pools, xp_allocation, xp_solve_scale, MAX_XP_SOLVE_NODES,
};
use arm_rules::entity::{AbilityScore, Entity};
use arm_rules::ruleset::{AbilityDef, AdvancementRow, AdvancementTable, EntityTypeProfile, PointItem, Ruleset};
use arm_rules::types::{AbilityCategory, Effect, EntityKind, ItemKind, Magnitude, Selection};

fn s(x: &str) -> String {
    x.to_string()
}

fn item(id: &str, kind: ItemKind, magnitude: Magnitude, category: &str, effects: Vec<Effect>) -> PointItem {
    PointItem {
        id: s(id),
        kind,
        magnitude,
        category: s(category),
        extra_categories: Vec::new(),
        parameters: Vec::new(),
        effects,
        required_house: None,
    }
}

fn bound_ruleset(items: Vec<PointItem>) -> Ruleset {
    let mut rs = Ruleset::empty();
    rs.point_items = items;
    rs.type_profiles = vec![EntityTypeProfile {
        id: s("companion"),
        is_magus: false,
        virtue_points: 10,
        flaw_points: 10,
        confidence_score: 0,
        confidence_points: 0,
        gift_id: None,
        gift_categories: Vec::new(),
        spell_levels: 0,
    }];
    rs.advancement = AdvancementTable { rows: vec![AdvancementRow { score: 1, total_xp: 5 }] };
    rs.abilities = vec![AbilityDef {
        id: s("ability.artes_liberales"),
        category: AbilityCategory::General,
        parameter: None,
        locality_dependent: false,
        combat_ability: false,
    }];
    rs
}

fn rs() -> Ruleset {
    bound_ruleset(Vec::new())
}

fn companion_with_scores(count: usize) -> Entity {
    let mut e = Entity::new(EntityKind::Character, s("companion"));
    e.xp_pool = 1_000_000;
    e.ability_scores = (0..count)
        .map(|_| AbilityScore { ability: s("ability.artes_liberales"), parameter: None, score: 1, specialty: None })
        .collect();
    e
}

/// A ruleset carrying `pool_count` distinct restricted-XP-granting Virtues, all
/// eligible for the one real Ability the fixture's entities buy.
fn rs_with_dead_pools(pool_count: usize) -> Ruleset {
    let mut items = vec![item("flaw.filler", ItemKind::Flaw, Magnitude::Minor, "personality", Vec::new())];
    for i in 0..pool_count {
        items.push(item(
            &format!("virtue.dead_pool_{i}"),
            ItemKind::Virtue,
            Magnitude::Minor,
            "general",
            vec![Effect::RestrictedAbilityXp {
                amount: 10,
                abilities: vec![s("ability.artes_liberales")],
                categories: Vec::new(),
            }],
        ));
    }
    bound_ruleset(items)
}

fn companion_with_pools_and_scores(pool_count: usize, score_count: usize) -> Entity {
    let mut e = companion_with_scores(score_count);
    e.selections = (0..pool_count).map(|i| Selection::new(format!("virtue.dead_pool_{i}"))).collect();
    e
}

#[test]
fn checked_xp_allocation_computes_at_the_bound() {
    let pools = MAX_XP_SOLVE_NODES - 3 - 5;
    let rs = rs_with_dead_pools(pools);
    let at_bound = companion_with_pools_and_scores(pools, 5);
    assert_eq!(xp_solve_scale(&at_bound, &rs).nodes(), MAX_XP_SOLVE_NODES);

    let allocation = checked_xp_allocation(&at_bound, &rs).unwrap();
    assert_eq!(allocation, xp_allocation(&at_bound, &rs));
}

#[test]
fn checked_xp_allocation_refuses_one_past_the_bound() {
    let rs = rs();
    let past_bound = companion_with_scores(MAX_XP_SOLVE_NODES - 3 + 1);
    let err = checked_xp_allocation(&past_bound, &rs).unwrap_err();
    assert_eq!(err.nodes, MAX_XP_SOLVE_NODES + 1);
    assert_eq!(err.limit, MAX_XP_SOLVE_NODES);
    assert_eq!(err.spends, MAX_XP_SOLVE_NODES - 2);
    assert_eq!(err.flow_pools, 0);
}

#[test]
fn restricted_xp_pools_degrades_to_empty_over_the_solve_bound() {
    let rs = rs();
    let past_bound = companion_with_scores(MAX_XP_SOLVE_NODES - 3 + 1);
    assert_eq!(restricted_xp_pools(&past_bound, &rs), Vec::new());
}

#[test]
fn restricted_pools_fund_their_own_ability_first() {
    let rs = rs_with_dead_pools(2);
    let e = companion_with_pools_and_scores(2, 1);
    let allocation = checked_xp_allocation(&e, &rs).unwrap();
    // One score of 1 costs 5 XP, drawn from the restricted pools, not the general one.
    assert_eq!(allocation.total_demand, 5);
    assert_eq!(allocation.max_flow, 5);
    assert_eq!(allocation.general_used, 0);
    let drawn: u32 = allocation.restricted.iter().map(|p| p.used).sum();
    assert_eq!(drawn, 5);
    assert_eq!(restricted_xp_pools(&e, &rs).len(), 2);
}

#[test]
fn each_pool_draws_only_for_what_it_can_buy() {
    let items = vec![
        item(
            "virtue.latin_pool",
            ItemKind::Virtue,
            Magnitude::Minor,
            "general",
            vec![Effect::RestrictedAbilityXp { amount: 50, abilities: vec![s("ability.artes_liberales")], categories: Vec::new() }],
        ),
        item(
            "virtue.martial_pool",
            ItemKind::Virtue,
            Magnitude::Minor,
            "general",
            vec![Effect::RestrictedAbilityXp { amount: 50, abilities: vec![s("ability.brawl")], categories: Vec::new() }],
        ),
    ];
    let rs = bound_ruleset(items);
    let mut e = companion_with_scores(1);
    e.selections = vec![Selection::new(s("virtue.latin_pool")), Selection::new(s("virtue.martial_pool"))];
    let pools = restricted_xp_pools(&e, &rs);
    assert_eq!(pools.len(), 2);
    assert_eq!(pools[0].amount, 50);
    assert_eq!(pools[0].used, 5);
    assert_eq!(pools[1].amount, 50);
    assert_eq!(pools[1].used, 0);
    assert_eq!(checked_xp_allocation(&e, &rs).unwrap().general_used, 0);
}

fn network(n: usize, edges: &[(usize, usize, u32)]) -> Vec<u32> {
    let mut cap = vec![0u32; n * n];
    for &(u, v, c) in edges {
        cap[u * n + v] = c;
    }
    cap
}

#[test]
fn max_flow_fills_the_smallest_cut() {
    // Source 0, sink 1. Every cut separating them carries 5, so 5 is the most
    // any flow can move.
    let mut cap = network(4, &[(0, 2, 3), (0, 3, 2), (2, 3, 1), (2, 1, 2), (3, 1, 3)]);
    let total = arm_rules::effective::flow::max_flow(4, 0, 1, &mut cap);
    assert_eq!(total, 5);
    // Both edges out of the source are used up.
    assert_eq!(cap[0 * 4 + 2], 0);
    assert_eq!(cap[0 * 4 + 3], 0);
}

#[test]
fn max_flow_is_bounded_by_a_narrow_middle() {
    // Plenty leaves the source and plenty reaches the sink, but only 4 can
    // cross the middle edge.
    let mut cap = network(4, &[(0, 2, 9), (2, 3, 4), (3, 1, 9)]);
    let total = arm_rules::effective::flow::max_flow(4, 0, 1, &mut cap);
    assert_eq!(total, 4);
    assert_eq!(cap[2 * 4 + 3], 0);
    assert_eq!(cap[3 * 4 + 2], 4);
}

#[test]
fn max_flow_of_a_cut_off_sink_is_zero() {
    let mut cap = network(3, &[(0, 2, 7)]);
    let total = arm_rules::effective::flow::max_flow(3, 0, 1, &mut cap);
    assert_eq!(total, 0);
    assert_eq!(cap[0 * 3 + 2], 7);
}
