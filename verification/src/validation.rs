//! The Virtue and Flaw point balance and the ceilings it is held to.
use vstd::prelude::*;
use crate::catalog::{find, find_by_key};
use crate::entity::Entity;
use crate::life_stage::sat_add;
use crate::ruleset::Ruleset;
use crate::types::{ItemKind, Selection};

verus! {

/// The points the bought Virtues (or Boons) and Flaws (or Hooks) spend.
#[derive(Debug, Clone, Copy, PartialEq, Eq, Structural)]
pub struct Balance {
    pub virtue_points: u32,
    pub flaw_points: u32,
}

/// Whether an item kind spends Virtue points (Virtues, Boons) rather than
/// granting them (Flaws, Hooks).
pub open spec fn is_virtue_side(kind: ItemKind) -> bool {
    kind == ItemKind::Virtue || kind == ItemKind::Boon
}

/// The running balance over the first bought selections: each catalogued
/// item adds its magnitude's points (Major 3, Minor 1, Free 0) to its side;
/// an uncatalogued one adds nothing. Saturating.
pub open spec fn balance_spec(rs: &Ruleset, sels: Seq<Selection>) -> Balance
    decreases sels.len(),
{
    if sels.len() == 0 {
        Balance { virtue_points: 0, flaw_points: 0 }
    } else {
        let b = balance_spec(rs, sels.drop_last());
        match find(rs.point_items@, sels.last().item_ref@) {
            None => b,
            Some(item) => {
                let p = item.magnitude.points_spec() as u32;
                if is_virtue_side(item.kind) {
                    Balance { virtue_points: sat_add(b.virtue_points, p), flaw_points: b.flaw_points }
                } else {
                    Balance { virtue_points: b.virtue_points, flaw_points: sat_add(b.flaw_points, p) }
                }
            },
        }
    }
}

/// The Virtue and Flaw points the entity's bought selections spend. Granted
/// items are off-budget and are not counted.
pub fn compute_balance(entity: &Entity, ruleset: &Ruleset) -> (r: Balance)
    ensures
        r == balance_spec(ruleset, entity.selections@),
{
    let mut b = Balance { virtue_points: 0, flaw_points: 0 };
    let mut i: usize = 0;
    while i < entity.selections.len()
        invariant
            i <= entity.selections@.len(),
            b == balance_spec(ruleset, entity.selections@.take(i as int)),
        decreases entity.selections.len() - i,
    {
        proof {
            assert(entity.selections@.take(i + 1).drop_last() =~= entity.selections@.take(i as int));
        }
        match ruleset.item(entity.selections[i].item_ref.as_str()) {
            None => {},
            Some(item) => {
                let p = item.magnitude.points();
                if item.kind == ItemKind::Virtue || item.kind == ItemKind::Boon {
                    b = Balance { virtue_points: b.virtue_points.saturating_add(p), flaw_points: b.flaw_points };
                } else {
                    b = Balance { virtue_points: b.virtue_points, flaw_points: b.flaw_points.saturating_add(p) };
                }
            },
        }
        i += 1;
    }
    assert(entity.selections@.take(entity.selections.len() as int) =~= entity.selections@);
    b
}

/// Buying one more catalogued item charges its magnitude's points (Major 3,
/// Minor 1, Free 0) to exactly one side: a Virtue or a Boon to the Virtue
/// side, a Flaw or a Hook to the Flaw side, the other side unchanged
/// (saturating at `u32::MAX`). An uncatalogued one changes nothing.
pub proof fn law_each_bought_item_charges_its_own_side(rs: &Ruleset, sels: Seq<Selection>, s: Selection)
    ensures
        ({
            let before = balance_spec(rs, sels);
            let after = balance_spec(rs, sels.push(s));
            match find(rs.point_items@, s.item_ref@) {
                None => after == before,
                Some(item) => {
                    let p: int = match item.magnitude {
                        crate::types::Magnitude::Major => 3,
                        crate::types::Magnitude::Minor => 1,
                        crate::types::Magnitude::Free => 0,
                    };
                    if (item.kind matches ItemKind::Virtue) || (item.kind matches ItemKind::Boon) {
                        &&& after.flaw_points == before.flaw_points
                        &&& after.virtue_points == (if before.virtue_points + p > u32::MAX { u32::MAX as int } else { before.virtue_points + p })
                    } else {
                        &&& item.kind == ItemKind::Flaw || item.kind == ItemKind::Hook
                        &&& after.virtue_points == before.virtue_points
                        &&& after.flaw_points == (if before.flaw_points + p > u32::MAX { u32::MAX as int } else { before.flaw_points + p })
                    }
                },
            }
        }),
{
    assert(sels.push(s).drop_last() =~= sels);
}

/// An entity that buys nothing catalogued spends no points; one whose only
/// bought selection is a catalogued Boon (or Virtue) spends exactly its
/// points on the Virtue side and none on the Flaw side.
pub proof fn law_a_lone_virtue_side_item_spends_only_virtue_points(rs: &Ruleset, s: Selection)
    requires
        find(rs.point_items@, s.item_ref@) is Some,
        find(rs.point_items@, s.item_ref@).unwrap().kind == ItemKind::Virtue || find(rs.point_items@, s.item_ref@).unwrap().kind == ItemKind::Boon,
    ensures
        balance_spec(rs, seq![s]).flaw_points == 0,
        balance_spec(rs, seq![s]).virtue_points == find(rs.point_items@, s.item_ref@).unwrap().magnitude.points_spec(),
{
    law_each_bought_item_charges_its_own_side(rs, Seq::empty(), s);
    assert(Seq::<Selection>::empty().push(s) =~= seq![s]);
}

/// The most Virtue and Flaw points the entity may spend.
#[derive(Debug, Clone, Copy, PartialEq, Eq, Structural)]
pub struct PointCeilings {
    pub virtue_ceiling: u32,
    pub flaw_ceiling: u32,
}

/// The ceilings: the type profile's points, raised by the Mythic Companion
/// type's bonus points; `None` for a type the ruleset does not know.
pub open spec fn ceilings_spec(entity: &Entity, ruleset: &Ruleset) -> Option<PointCeilings> {
    match find(ruleset.type_profiles@, entity.type_id@) {
        None => None,
        Some(profile) => {
            let (bv, bf): (u32, u32) = match entity.mythic_type {
                Some(m) => match find(ruleset.mythic_types@, m@) {
                    Some(t) => (t.bonus_free_virtue_points as u32, t.bonus_flaw_points as u32),
                    None => (0, 0),
                },
                None => (0, 0),
            };
            Some(PointCeilings { virtue_ceiling: sat_add(profile.virtue_points, bv), flaw_ceiling: sat_add(profile.flaw_points, bf) })
        },
    }
}

/// The ceilings are the type profile's points, each raised by the Mythic
/// Companion type's bonus for that side: the Flaw ceiling by
/// `bonus_flaw_points`, the Virtue ceiling by `bonus_free_virtue_points`
/// (saturating), and by nothing without a known Mythic Companion type.
pub proof fn law_ceilings_add_the_mythic_bonuses(entity: &Entity, ruleset: &Ruleset)
    ensures
        match find(ruleset.type_profiles@, entity.type_id@) {
            None => ceilings_spec(entity, ruleset) is None,
            Some(profile) => {
                let bonus_v: int = match entity.mythic_type {
                    Some(m) => match find(ruleset.mythic_types@, m@) { Some(t) => t.bonus_free_virtue_points as int, None => 0 },
                    None => 0,
                };
                let bonus_f: int = match entity.mythic_type {
                    Some(m) => match find(ruleset.mythic_types@, m@) { Some(t) => t.bonus_flaw_points as int, None => 0 },
                    None => 0,
                };
                &&& ceilings_spec(entity, ruleset) is Some
                &&& ceilings_spec(entity, ruleset).unwrap().virtue_ceiling as int
                    == (if profile.virtue_points + bonus_v > u32::MAX { u32::MAX as int } else { profile.virtue_points + bonus_v })
                &&& ceilings_spec(entity, ruleset).unwrap().flaw_ceiling as int
                    == (if profile.flaw_points + bonus_f > u32::MAX { u32::MAX as int } else { profile.flaw_points + bonus_f })
            },
        },
{
}

/// The Virtue and Flaw point ceilings of the entity's type.
pub fn effective_point_ceilings(entity: &Entity, ruleset: &Ruleset) -> (r: Option<PointCeilings>)
    ensures
        r == ceilings_spec(entity, ruleset),
{
    let profile = match ruleset.profile(entity.type_id.as_str()) {
        Some(p) => p,
        None => return None,
    };
    let (bv, bf): (u32, u32) = match &entity.mythic_type {
        Some(m) => match find_by_key(&ruleset.mythic_types, m.as_str()) {
            Some(t) => (t.bonus_free_virtue_points as u32, t.bonus_flaw_points as u32),
            None => (0, 0),
        },
        None => (0, 0),
    };
    Some(PointCeilings {
        virtue_ceiling: profile.virtue_points.saturating_add(bv),
        flaw_ceiling: profile.flaw_points.saturating_add(bf),
    })
}

} // verus!
