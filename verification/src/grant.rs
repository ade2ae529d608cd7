//! Data-driven free-selection grants, shared by every profile that confers
//! Virtues/Flaws at creation (a Hermetic House, a Mythic Companion type, the
//! Virtues/Flaws owed from Warping).
use vstd::prelude::*;
use crate::catalog::{find, position, lemma_find_index_bounds, Keyed};
use crate::ruleset::{PointItem, Ruleset};
use crate::types::{copy_pairs, pairs_view, selection_views, Id, ItemKind, Magnitude, Selection, SelectionView};

verus! {

/// The view of a [`GrantConstraint`].
pub struct ConstraintView {
    pub kind: ItemKind,
    pub magnitude: Option<Magnitude>,
    pub require_categories: Seq<Seq<char>>,
    pub forbid_categories: Seq<Seq<char>>,
}

/// A constraint on a player-chosen open grant: the kind of item, an optional
/// magnitude, and category allow/deny lists.
#[derive(Debug)]
pub struct GrantConstraint {
    pub kind: ItemKind,
    pub magnitude: Option<Magnitude>,
    pub require_categories: Vec<String>,
    pub forbid_categories: Vec<String>,
}

/// The views of a list of strings.
pub open spec fn string_views(s: Seq<String>) -> Seq<Seq<char>> {
    s.map_values(|x: String| x@)
}

impl View for GrantConstraint {
    type V = ConstraintView;

    open spec fn view(&self) -> ConstraintView {
        ConstraintView {
            kind: self.kind,
            magnitude: self.magnitude,
            require_categories: string_views(self.require_categories@),
            forbid_categories: string_views(self.forbid_categories@),
        }
    }
}

/// The view of a [`Grant`].
pub enum GrantView {
    Fixed { item: SelectionView },
    Choice { choice_key: Seq<char>, options: Seq<SelectionView> },
    Open { choice_key: Seq<char>, constraint: ConstraintView },
}

/// One thing a profile grants at creation.
#[derive(Debug)]
pub enum Grant {
    /// A fixed free item, with the parameter values the grant fixes.
    Fixed { item: Id, params: Vec<(String, Id)> },
    /// A choice between fixed options; the pick is stored under `choice_key`.
    Choice { choice_key: String, options: Vec<Selection> },
    /// An open pick constrained by `constraint`, stored under `choice_key`.
    Open { choice_key: String, constraint: GrantConstraint },
}

impl View for Grant {
    type V = GrantView;

    open spec fn view(&self) -> GrantView {
        match self {
            Grant::Fixed { item, params } => GrantView::Fixed {
                item: SelectionView { item_ref: item@, params: pairs_view(params@) },
            },
            Grant::Choice { choice_key, options } => GrantView::Choice {
                choice_key: choice_key@,
                options: selection_views(options@),
            },
            Grant::Open { choice_key, constraint } => GrantView::Open {
                choice_key: choice_key@,
                constraint: constraint@,
            },
        }
    }
}

/// The views of a list of grants.
pub open spec fn grant_views(s: Seq<Grant>) -> Seq<GrantView> {
    s.map_values(|g: Grant| g@)
}

/// The selection a grant contributes, if any: a fixed grant its item; a choice
/// the stored pick when it is one of the options; an open grant the stored
/// pick verbatim.
pub open spec fn resolve_grant_spec(g: GrantView, choices: Seq<(String, Selection)>) -> Option<SelectionView> {
    match g {
        GrantView::Fixed { item } => Some(item),
        GrantView::Choice { choice_key, options } => match find(choices, choice_key) {
            Some(pick) => if options.contains(pick.1@) { Some(pick.1@) } else { None },
            None => None,
        },
        GrantView::Open { choice_key, .. } => match find(choices, choice_key) {
            Some(pick) => Some(pick.1@),
            None => None,
        },
    }
}

/// The selections a list of grants contributes, in grant order.
pub open spec fn resolve_grants_spec(gs: Seq<GrantView>, choices: Seq<(String, Selection)>) -> Seq<SelectionView>
    decreases gs.len(),
{
    if gs.len() == 0 {
        Seq::empty()
    } else {
        let before = resolve_grants_spec(gs.drop_last(), choices);
        match resolve_grant_spec(gs.last(), choices) {
            Some(s) => before.push(s),
            None => before,
        }
    }
}

/// Where a resolved selection comes from: a fixed grant's own item, an
/// offered option that was picked, or an open grant's stored pick.
pub open spec fn granted_by(g: GrantView, choices: Seq<(String, Selection)>, x: SelectionView) -> bool {
    match g {
        GrantView::Fixed { item } => item == x,
        GrantView::Choice { choice_key, options } => options.contains(x)
            && (find(choices, choice_key) matches Some(pick) && pick.1@ == x),
        GrantView::Open { choice_key, .. } => find(choices, choice_key) matches Some(pick) && pick.1@ == x,
    }
}

/// Grant resolution invents nothing and never takes an off-menu pick: it
/// yields at most one selection per grant, in grant order, and each is a
/// fixed grant's item, a stored pick among a choice grant's options, or an
/// open grant's stored pick.
pub proof fn law_resolved_grants_come_from_their_grants(gs: Seq<GrantView>, choices: Seq<(String, Selection)>)
    ensures
        resolve_grants_spec(gs, choices).len() <= gs.len(),
        forall|i: int| #![trigger resolve_grants_spec(gs, choices)[i]] 0 <= i < resolve_grants_spec(gs, choices).len()
            ==> exists|j: int| 0 <= j < gs.len() && granted_by(#[trigger] gs[j], choices, resolve_grants_spec(gs, choices)[i]),
    decreases gs.len(),
{
    if gs.len() > 0 {
        let rest = gs.drop_last();
        law_resolved_grants_come_from_their_grants(rest, choices);
        let before = resolve_grants_spec(rest, choices);
        let out = resolve_grants_spec(gs, choices);
        assert forall|i: int| #![trigger out[i]] 0 <= i < out.len() implies exists|j: int|
            0 <= j < gs.len() && granted_by(#[trigger] gs[j], choices, out[i]) by {
            if i < before.len() {
                assert(out[i] == before[i]);
                let j = choose|j: int| 0 <= j < rest.len() && granted_by(#[trigger] rest[j], choices, before[i]);
                assert(gs[j] == rest[j]);
            } else {
                let k = gs.len() - 1;
                assert(gs[k] == gs.last());
                assert(granted_by(gs[k], choices, out[i]));
            }
        }
    }
}

/// Resolves one grant against the stored picks.
#[verifier::loop_isolation(false)]
fn resolve_grant(grant: &Grant, choices: &Vec<(String, Selection)>) -> (r: Option<Selection>)
    ensures
        r matches Some(s) ==> resolve_grant_spec(grant@, choices@) == Some(s@),
        r is None ==> resolve_grant_spec(grant@, choices@) is None,
{
    proof {
        lemma_find_index_bounds(choices@, match grant@ {
            GrantView::Fixed { .. } => Seq::empty(),
            GrantView::Choice { choice_key, .. } => choice_key,
            GrantView::Open { choice_key, .. } => choice_key,
        });
    }
    match grant {
        Grant::Fixed { item, params } => {
            let s = Selection::with_params(item.clone(), copy_pairs(params));
            Some(s)
        },
        Grant::Choice { choice_key, options } => {
            match position(choices, choice_key.as_str()) {
                Some(i) => {
                    let pick = &choices[i].1;
                    let mut j: usize = 0;
                    while j < options.len()
                        invariant
                            j <= options.len(),
                            forall|k: int| 0 <= k < j ==> (#[trigger] options@[k])@ != pick@,
                        decreases options.len() - j,
                    {
                        if options[j].same_as(pick) {
                            assert(selection_views(options@)[j as int] == pick@);
                            assert(selection_views(options@).contains(pick@));
                            assert(choices@[i as int].1 == *pick);
                            return Some(pick.copy());
                        }
                        j += 1;
                    }
                    assert(!selection_views(options@).contains(pick@)) by {
                        if selection_views(options@).contains(pick@) {
                            let k = choose|k: int| 0 <= k < options@.len() && selection_views(options@)[k] == pick@;
                            assert(options@[k]@ == pick@);
                        }
                    }
                    None
                },
                None => None,
            }
        },
        Grant::Open { choice_key, .. } => {
            match position(choices, choice_key.as_str()) {
                Some(i) => Some(choices[i].1.copy()),
                None => None,
            }
        },
    }
}

/// Resolves a list of grants against the player's stored picks into the free
/// selections they contribute: a fixed grant its item; a choice the pick only
/// when it is one of the offered options; an open grant the pick verbatim. An
/// absent pick contributes nothing.
pub fn resolve_grants(grants: &Vec<Grant>, choices: &Vec<(String, Selection)>) -> (r: Vec<Selection>)
    ensures
        selection_views(r@) == resolve_grants_spec(grant_views(grants@), choices@),
{
    let mut out: Vec<Selection> = Vec::new();
    let mut i: usize = 0;
    while i < grants.len()
        invariant
            i <= grants.len(),
            selection_views(out@) == resolve_grants_spec(grant_views(grants@.take(i as int)), choices@),
        decreases grants.len() - i,
    {
        proof {
            assert(grant_views(grants@.take(i + 1)).drop_last() =~= grant_views(grants@.take(i as int)));
        }
        let ghost before = out@;
        match resolve_grant(&grants[i], choices) {
            Some(s) => {
                out.push(s);
                assert(selection_views(out@) =~= selection_views(before).push(s@));
            },
            None => {},
        }
        i += 1;
    }
    assert(grants@.take(grants.len() as int) =~= grants@);
    out
}


/// Whether an item is filed under one of `cats`: its category or any of its
/// extra categories.
pub open spec fn in_any_category(item: PointItem, cats: Seq<String>) -> bool {
    crate::catalog::contains_str(cats, item.category@)
        || exists|k: int| 0 <= k < item.extra_categories@.len() && crate::catalog::contains_str(cats, #[trigger] item.extra_categories@[k]@)
}

/// Whether an item's House prerequisite rules out the entity's House.
pub open spec fn house_conflict(item: PointItem, house: Option<Seq<char>>) -> bool {
    match item.required_house {
        Some(h) => house != Some(h@),
        None => false,
    }
}

/// Whether an open pick meets its grant's constraint: a catalogued item of
/// the required kind and magnitude, in a required category (when any are
/// required), in no forbidden category, and open to the entity's House.
pub open spec fn pick_satisfies_spec(pick: Selection, constraint: GrantConstraint, rs: &Ruleset, house: Option<Seq<char>>) -> bool {
    match find(rs.point_items@, pick.item_ref@) {
        None => false,
        Some(item) => {
            &&& item.kind == constraint.kind
            &&& (match constraint.magnitude { Some(m) => item.magnitude == m, None => true })
            &&& (constraint.require_categories@.len() == 0 || in_any_category(item, constraint.require_categories@))
            &&& !in_any_category(item, constraint.forbid_categories@)
            &&& !house_conflict(item, house)
        },
    }
}

fn any_category_in(item: &PointItem, cats: &Vec<String>) -> (r: bool)
    ensures
        r == in_any_category(*item, cats@),
{
    if crate::catalog::has_str(cats, item.category.as_str()) {
        return true;
    }
    let mut k: usize = 0;
    while k < item.extra_categories.len()
        invariant
            k <= item.extra_categories@.len(),
            forall|j: int| 0 <= j < k ==> !crate::catalog::contains_str(cats@, #[trigger] item.extra_categories@[j]@),
        decreases item.extra_categories.len() - k,
    {
        if crate::catalog::has_str(cats, item.extra_categories[k].as_str()) {
            return true;
        }
        k += 1;
    }
    false
}

/// Whether an open grant's pick meets its constraint.
pub fn open_pick_satisfies(pick: &Selection, constraint: &GrantConstraint, ruleset: &Ruleset, house: Option<&str>) -> (r: bool)
    ensures
        r == pick_satisfies_spec(*pick, *constraint, ruleset, crate::effective::ability::opt_view(house)),
{
    let item = match ruleset.item(pick.item_ref.as_str()) {
        Some(i) => i,
        None => return false,
    };
    if item.kind != constraint.kind {
        return false;
    }
    match constraint.magnitude {
        Some(m) => {
            if item.magnitude != m {
                return false;
            }
        },
        None => {},
    }
    if constraint.require_categories.len() > 0 && !any_category_in(item, &constraint.require_categories) {
        return false;
    }
    if any_category_in(item, &constraint.forbid_categories) {
        return false;
    }
    match &item.required_house {
        Some(h) => match house {
            Some(x) => str_eq_opt(h.as_str(), x),
            None => false,
        },
        None => true,
    }
}

fn str_eq_opt(a: &str, b: &str) -> (r: bool)
    ensures
        r == (a@ == b@),
{
    crate::text::str_eq(a, b)
}

} // verus!
