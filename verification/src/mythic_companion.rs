//! Mythic Companion types: the supernatural kinds a Mythic Companion can be,
//! each with free grants, a required Virtue/Flaw package and budget bonuses.
use vstd::prelude::*;
use crate::catalog::{find, find_by_key, Keyed};
use crate::entity::Entity;
use crate::grant::{grant_views, resolve_grants, resolve_grants_spec, Grant, GrantConstraint};
use crate::ruleset::Ruleset;
use crate::types::{copy_selections, selection_views, Id, Selection, SelectionView};

verus! {

/// A required Flaw: the default the rules name, and what a substitute must
/// satisfy.
#[derive(Debug)]
pub struct RequiredFlaw {
    pub default: Selection,
    pub constraint: GrantConstraint,
}

/// A Mythic Companion type.
#[derive(Debug)]
pub struct MythicCompanionType {
    pub id: Id,
    pub grants: Vec<Grant>,
    pub required_virtues: Vec<Selection>,
    pub required_flaws: Vec<RequiredFlaw>,
    pub bonus_flaw_points: u8,
    pub bonus_free_virtue_points: u8,
}

impl Keyed for MythicCompanionType {
    open spec fn key_view(&self) -> Seq<char> { self.id@ }
    fn key(&self) -> (r: &str) { self.id.as_str() }
}

/// The required package: every required Virtue, then each required Flaw's
/// default.
pub open spec fn required_selections_spec(t: &MythicCompanionType) -> Seq<SelectionView> {
    selection_views(t.required_virtues@) + t.required_flaws@.map_values(|f: RequiredFlaw| f.default@)
}

impl MythicCompanionType {
    /// The full required package (Virtues, then each Flaw's default).
    pub fn required_selections(&self) -> (r: Vec<Selection>)
        ensures
            selection_views(r@) == required_selections_spec(self),
    {
        let mut out = copy_selections(&self.required_virtues);
        let ghost base = selection_views(out@);
        let mut i: usize = 0;
        while i < self.required_flaws.len()
            invariant
                i <= self.required_flaws.len(),
                base == selection_views(self.required_virtues@),
                selection_views(out@) =~= base + self.required_flaws@.take(i as int).map_values(|f: RequiredFlaw| f.default@),
            decreases self.required_flaws.len() - i,
        {
            let c = self.required_flaws[i].default.copy();
            let ghost old_out = out@;
            out.push(c);
            proof {
                crate::types::lemma_selection_views_push(old_out, c);
                assert(self.required_flaws@.take(i + 1).map_values(|f: RequiredFlaw| f.default@)
                    =~= self.required_flaws@.take(i as int).map_values(|f: RequiredFlaw| f.default@).push(self.required_flaws@[i as int].default@));
            }
            i += 1;
            assert(selection_views(out@) =~= base + self.required_flaws@.take(i as int).map_values(|f: RequiredFlaw| f.default@));
        }
        assert(self.required_flaws@.take(self.required_flaws.len() as int) =~= self.required_flaws@);
        out
    }
}

/// The selections an entity's Mythic Companion type grants.
pub open spec fn mythic_granted_spec(entity: &Entity, ruleset: &Ruleset) -> Seq<SelectionView> {
    match entity.mythic_type {
        None => Seq::empty(),
        Some(t) => match find(ruleset.mythic_types@, t@) {
            None => Seq::empty(),
            Some(mtype) => resolve_grants_spec(grant_views(mtype.grants@), entity.mythic_choices@),
        },
    }
}

/// The point-free selections the entity's Mythic Companion type grants.
pub fn granted_selections(entity: &Entity, ruleset: &Ruleset) -> (r: Vec<Selection>)
    ensures
        selection_views(r@) == mythic_granted_spec(entity, ruleset),
{
    match &entity.mythic_type {
        None => {
            let r: Vec<Selection> = Vec::new();
            assert(selection_views(r@) =~= Seq::<SelectionView>::empty());
            r
        },
        Some(t) => match find_by_key(&ruleset.mythic_types, t.as_str()) {
            None => {
                let r: Vec<Selection> = Vec::new();
                assert(selection_views(r@) =~= Seq::<SelectionView>::empty());
                r
            },
            Some(mtype) => resolve_grants(&mtype.grants, &entity.mythic_choices),
        },
    }
}

} // verus!
