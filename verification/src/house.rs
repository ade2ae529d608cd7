//! Hermetic Houses: the catalogue of the Houses of the Order and the free
//! Virtue(s) each grants a magus at character creation.
use vstd::prelude::*;
use crate::catalog::{find, find_by_key, Keyed};
use crate::entity::Entity;
use crate::grant::{grant_views, resolve_grants, resolve_grants_spec, Grant};
use crate::ruleset::Ruleset;
use crate::types::{selection_views, Id, Selection, SelectionView};

verus! {

/// The three structural classes of Hermetic House, in canonical order.
#[derive(Debug, Clone, Copy, PartialEq, Eq, PartialOrd, Ord, Structural)]
pub enum LineageType {
    TrueLineage,
    MysteryCult,
    Societas,
}

impl LineageType {
    /// The class's stable slug, as the House catalogue writes it.
    pub open spec fn slug_spec(self) -> Seq<char> {
        match self {
            LineageType::TrueLineage => "true_lineage"@,
            LineageType::MysteryCult => "mystery_cult"@,
            LineageType::Societas => "societas"@,
        }
    }

    /// The class's stable slug.
    pub fn slug(&self) -> (r: &'static str)
        ensures
            r@ == self.slug_spec(),
    {
        match self {
            LineageType::TrueLineage => "true_lineage",
            LineageType::MysteryCult => "mystery_cult",
            LineageType::Societas => "societas",
        }
    }

    /// All three classes in canonical order.
    pub fn all() -> (v: Vec<LineageType>)
        ensures
            v@ == seq![LineageType::TrueLineage, LineageType::MysteryCult, LineageType::Societas],
    {
        let v = vec![LineageType::TrueLineage, LineageType::MysteryCult, LineageType::Societas];
        assert(v@ =~= seq![LineageType::TrueLineage, LineageType::MysteryCult, LineageType::Societas]);
        v
    }
}

/// A House grant is the shared grant model.
pub type HouseGrant = Grant;

/// A House grant's open-pick constraint is the shared constraint model.
pub type GrantConstraint = crate::grant::GrantConstraint;

/// A single Hermetic House: its id, lineage class and creation grants.
#[derive(Debug)]
pub struct House {
    pub id: Id,
    pub lineage_type: LineageType,
    pub grants: Vec<HouseGrant>,
}

/// The House catalogue.
#[derive(Debug)]
pub struct HousesFile {
    pub houses: Vec<House>,
}

impl Keyed for House {
    open spec fn key_view(&self) -> Seq<char> { self.id@ }
    fn key(&self) -> (r: &str) { self.id.as_str() }
}

/// The selections an entity's House grants: nothing without a House or for a
/// House the ruleset does not hold, otherwise its grants resolved against the
/// entity's House picks.
pub open spec fn house_granted_spec(entity: &Entity, ruleset: &Ruleset) -> Seq<SelectionView> {
    match entity.house {
        None => Seq::empty(),
        Some(h) => match find(ruleset.houses@, h@) {
            None => Seq::empty(),
            Some(house) => resolve_grants_spec(grant_views(house.grants@), entity.house_choices@),
        },
    }
}

/// The free-Virtue selections the entity's House grants.
pub fn granted_selections(entity: &Entity, ruleset: &Ruleset) -> (r: Vec<Selection>)
    ensures
        selection_views(r@) == house_granted_spec(entity, ruleset),
{
    match &entity.house {
        None => {
            let r: Vec<Selection> = Vec::new();
            assert(selection_views(r@) =~= Seq::<SelectionView>::empty());
            r
        },
        Some(h) => match find_by_key(&ruleset.houses, h.as_str()) {
            None => {
                let r: Vec<Selection> = Vec::new();
                assert(selection_views(r@) =~= Seq::<SelectionView>::empty());
                r
            },
            Some(house) => resolve_grants(&house.grants, &entity.house_choices),
        },
    }
}

} // verus!
