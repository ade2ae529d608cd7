//! The loaded ruleset: every catalogue the engine reads, and the localized
//! display names the export prints.
use vstd::prelude::*;
use crate::catalog::{find, find_by_key, Keyed};
use crate::equipment::{Armor, Shield, Weapon};
use crate::house::House;
use crate::life_stage::LifeStageRules;
use crate::mythic_companion::MythicCompanionType;
use crate::types::{AbilityCategory, ArtType, Effect, Id, ItemKind, Magnitude};

verus! {

/// The id of the Magic Theory Ability, which every spell-level cap reads.
pub open spec fn magic_theory_id() -> Seq<char> {
    "ability.magic_theory"@
}

/// A parameter a point item or spell takes (`ability`, `art`, `focus`, ...).
#[derive(Debug)]
pub struct ParameterDef {
    pub key: String,
}

/// A Virtue, Flaw, Boon or Hook in the catalogue.
#[derive(Debug)]
pub struct PointItem {
    pub id: Id,
    pub kind: ItemKind,
    pub magnitude: Magnitude,
    /// The primary category (`general`, `hermetic`, ...).
    pub category: String,
    /// Any secondary categories the item also carries.
    pub extra_categories: Vec<String>,
    pub parameters: Vec<ParameterDef>,
    pub effects: Vec<Effect>,
    /// A House the item's prerequisites demand, if any.
    pub required_house: Option<Id>,
}

impl Keyed for PointItem {
    open spec fn key_view(&self) -> Seq<char> { self.id@ }
    fn key(&self) -> (r: &str) { self.id.as_str() }
}

/// A character type's creation profile.
#[derive(Debug)]
pub struct EntityTypeProfile {
    pub id: Id,
    pub is_magus: bool,
    pub virtue_points: u32,
    pub flaw_points: u32,
    pub confidence_score: u8,
    pub confidence_points: u8,
    pub gift_id: Option<Id>,
    pub gift_categories: Vec<String>,
    pub spell_levels: u32,
}

impl Keyed for EntityTypeProfile {
    open spec fn key_view(&self) -> Seq<char> { self.id@ }
    fn key(&self) -> (r: &str) { self.id.as_str() }
}

/// An Ability in the catalogue.
#[derive(Debug)]
pub struct AbilityDef {
    pub id: Id,
    pub category: AbilityCategory,
    /// The instance discriminator key of a parameterized Ability (`area`).
    pub parameter: Option<String>,
    pub locality_dependent: bool,
    pub combat_ability: bool,
}

impl Keyed for AbilityDef {
    open spec fn key_view(&self) -> Seq<char> { self.id@ }
    fn key(&self) -> (r: &str) { self.id.as_str() }
}

/// A Hermetic Art in the catalogue.
#[derive(Debug)]
pub struct ArtDef {
    pub id: Id,
    pub art_type: ArtType,
}

impl Keyed for ArtDef {
    open spec fn key_view(&self) -> Seq<char> { self.id@ }
    fn key(&self) -> (r: &str) { self.id.as_str() }
}

/// A spell in the catalogue; a General spell has no fixed level.
#[derive(Debug)]
pub struct SpellDef {
    pub id: Id,
    pub technique: Id,
    pub form: Id,
    pub level: Option<u16>,
    pub parameters: Vec<ParameterDef>,
}

impl Keyed for SpellDef {
    open spec fn key_view(&self) -> Seq<char> { self.id@ }
    fn key(&self) -> (r: &str) { self.id.as_str() }
}

/// One row of an advancement table: the cumulative experience a score costs.
#[derive(Debug, Clone, Copy)]
pub struct AdvancementRow {
    pub score: u8,
    pub total_xp: u32,
}

/// The cumulative experience of the first row priced at `score`.
pub open spec fn row_xp(rows: Seq<AdvancementRow>, score: u8) -> Option<u32>
    decreases rows.len(),
{
    if rows.len() == 0 {
        None
    } else {
        match row_xp(rows.drop_last(), score) {
            Some(x) => Some(x),
            None => if rows.last().score == score { Some(rows.last().total_xp) } else { None },
        }
    }
}

/// The highest score the table reaches with `xp` experience (0 if none).
pub open spec fn best_score(rows: Seq<AdvancementRow>, xp: u32) -> u8
    decreases rows.len(),
{
    if rows.len() == 0 {
        0
    } else {
        let before = best_score(rows.drop_last(), xp);
        let last = rows.last();
        if last.total_xp <= xp && last.score > before { last.score } else { before }
    }
}

/// An advancement table (Abilities, Arts, Warping, Decrepitude).
#[derive(Debug)]
pub struct AdvancementTable {
    pub rows: Vec<AdvancementRow>,
}

impl AdvancementTable {
    /// The experience a score costs: 0 for score 0, else the table's price;
    /// `None` for a score the table does not price.
    pub open spec fn xp_for_score_spec(&self, score: u8) -> Option<u32> {
        if score == 0 { Some(0) } else { row_xp(self.rows@, score) }
    }

    /// The score `xp` experience reaches.
    pub open spec fn score_for_xp_spec(&self, xp: u32) -> u8 {
        best_score(self.rows@, xp)
    }

    /// The experience a score costs.
    #[verifier::loop_isolation(false)]
    pub fn xp_for_score(&self, score: u8) -> (r: Option<u32>)
        ensures
            r == self.xp_for_score_spec(score),
    {
        if score == 0 {
            return Some(0);
        }
        let mut i: usize = 0;
        while i < self.rows.len()
            invariant
                i <= self.rows.len(),
                row_xp(self.rows@.take(i as int), score) is None,
            decreases self.rows.len() - i,
        {
            proof {
                assert(self.rows@.take(i + 1).drop_last() =~= self.rows@.take(i as int));
            }
            if self.rows[i].score == score {
                proof {
                    assert(self.rows@.take(i + 1).last() == self.rows@[i as int]);
                    lemma_row_xp_prefix(self.rows@, i + 1, score);
                }
                return Some(self.rows[i].total_xp);
            }
            i += 1;
        }
        assert(self.rows@.take(self.rows.len() as int) =~= self.rows@);
        None
    }

    /// The highest score `xp` experience reaches.
    pub fn score_for_xp(&self, xp: u32) -> (r: u8)
        ensures
            r == self.score_for_xp_spec(xp),
    {
        let mut best: u8 = 0;
        let mut i: usize = 0;
        while i < self.rows.len()
            invariant
                i <= self.rows.len(),
                best == best_score(self.rows@.take(i as int), xp),
            decreases self.rows.len() - i,
        {
            proof {
                assert(self.rows@.take(i + 1).drop_last() =~= self.rows@.take(i as int));
            }
            let row = self.rows[i];
            if row.total_xp <= xp && row.score > best {
                best = row.score;
            }
            i += 1;
        }
        assert(self.rows@.take(self.rows.len() as int) =~= self.rows@);
        best
    }
}

pub proof fn lemma_row_xp_prefix(rows: Seq<AdvancementRow>, k: int, score: u8)
    requires
        0 <= k <= rows.len(),
        row_xp(rows.take(k), score) is Some,
    ensures
        row_xp(rows, score) == row_xp(rows.take(k), score),
    decreases rows.len(),
{
    if k < rows.len() {
        assert(rows.drop_last().take(k) =~= rows.take(k));
        lemma_row_xp_prefix(rows.drop_last(), k, score);
    } else {
        assert(rows.take(k) =~= rows);
    }
}

/// The Characteristic buy limits.
#[derive(Debug, Clone, Copy)]
pub struct CharacteristicRules {
    pub base_max: i8,
    pub base_min: i8,
    pub effective_max: i8,
    pub effective_min: i8,
}

/// One age band of the Ability-score cap table: ages up to `up_to_age`
/// (every age, when `None`) cap Abilities at `max_score`.
#[derive(Debug, Clone, Copy)]
pub struct AgeAbilityCap {
    pub up_to_age: Option<u32>,
    pub max_score: u8,
}

/// The localized text of one catalogue id.
#[derive(Debug)]
pub struct I18nEntry {
    pub id: Id,
    pub name: String,
    pub abbreviation: Option<String>,
}

impl Keyed for I18nEntry {
    open spec fn key_view(&self) -> Seq<char> { self.id@ }
    fn key(&self) -> (r: &str) { self.id.as_str() }
}

/// Every catalogue the engine reads.
#[derive(Debug)]
pub struct Ruleset {
    pub point_items: Vec<PointItem>,
    pub type_profiles: Vec<EntityTypeProfile>,
    pub abilities: Vec<AbilityDef>,
    /// The Ability advancement table (also Warping and Decrepitude).
    pub advancement: AdvancementTable,
    pub art_advancement: AdvancementTable,
    /// The Arts, in the catalogue's order; everything that lists the Arts
    /// follows it.
    pub arts: Vec<ArtDef>,
    pub houses: Vec<House>,
    pub mythic_types: Vec<MythicCompanionType>,
    pub spells: Vec<SpellDef>,
    pub weapons: Vec<Weapon>,
    pub shields: Vec<Shield>,
    pub armor: Vec<Armor>,
    pub characteristic_rules: Option<CharacteristicRules>,
    pub life_stages: Option<LifeStageRules>,
    pub age_ability_caps: Vec<AgeAbilityCap>,
    /// The Ability categories a character may only learn with a Virtue.
    pub categories_requiring_virtue: Vec<AbilityCategory>,
}

/// A ruleset with its display names.
#[derive(Debug)]
pub struct LocalizedRuleset {
    pub ruleset: Ruleset,
    pub i18n: Vec<I18nEntry>,
}

impl Ruleset {
    /// An empty ruleset: no catalogue entries, empty advancement tables.
    pub fn empty() -> (r: Ruleset)
        ensures
            r.point_items@.len() == 0,
            r.type_profiles@.len() == 0,
    {
        Ruleset {
            point_items: Vec::new(),
            type_profiles: Vec::new(),
            abilities: Vec::new(),
            advancement: AdvancementTable { rows: Vec::new() },
            art_advancement: AdvancementTable { rows: Vec::new() },
            arts: Vec::new(),
            houses: Vec::new(),
            mythic_types: Vec::new(),
            spells: Vec::new(),
            weapons: Vec::new(),
            shields: Vec::new(),
            armor: Vec::new(),
            characteristic_rules: None,
            life_stages: None,
            age_ability_caps: Vec::new(),
            categories_requiring_virtue: Vec::new(),
        }
    }

    /// The catalogue item `id`.
    pub fn item(&self, id: &str) -> (r: Option<&PointItem>)
        ensures
            r matches Some(x) ==> find(self.point_items@, id@) == Some(*x),
            r is None ==> find(self.point_items@, id@) is None,
    {
        find_by_key(&self.point_items, id)
    }

    /// The type profile `id`.
    pub fn profile(&self, id: &str) -> (r: Option<&EntityTypeProfile>)
        ensures
            r matches Some(x) ==> find(self.type_profiles@, id@) == Some(*x),
            r is None ==> find(self.type_profiles@, id@) is None,
    {
        find_by_key(&self.type_profiles, id)
    }

    /// The Ability `id`.
    pub fn ability(&self, id: &str) -> (r: Option<&AbilityDef>)
        ensures
            r matches Some(x) ==> find(self.abilities@, id@) == Some(*x),
            r is None ==> find(self.abilities@, id@) is None,
    {
        find_by_key(&self.abilities, id)
    }

    /// The Art `id`.
    pub fn art(&self, id: &str) -> (r: Option<&ArtDef>)
        ensures
            r matches Some(x) ==> find(self.arts@, id@) == Some(*x),
            r is None ==> find(self.arts@, id@) is None,
    {
        find_by_key(&self.arts, id)
    }

    /// The spell `id`.
    pub fn spell(&self, id: &str) -> (r: Option<&SpellDef>)
        ensures
            r matches Some(x) ==> find(self.spells@, id@) == Some(*x),
            r is None ==> find(self.spells@, id@) is None,
    {
        find_by_key(&self.spells, id)
    }

    /// The House `id`.
    pub fn house(&self, id: &str) -> (r: Option<&House>)
        ensures
            r matches Some(x) ==> find(self.houses@, id@) == Some(*x),
            r is None ==> find(self.houses@, id@) is None,
    {
        find_by_key(&self.houses, id)
    }

    /// The Mythic Companion type `id`.
    pub fn mythic_type(&self, id: &str) -> (r: Option<&MythicCompanionType>)
        ensures
            r matches Some(x) ==> find(self.mythic_types@, id@) == Some(*x),
            r is None ==> find(self.mythic_types@, id@) is None,
    {
        find_by_key(&self.mythic_types, id)
    }

    /// The weapon `id`.
    pub fn weapon(&self, id: &str) -> (r: Option<&Weapon>)
        ensures
            r matches Some(x) ==> find(self.weapons@, id@) == Some(*x),
            r is None ==> find(self.weapons@, id@) is None,
    {
        find_by_key(&self.weapons, id)
    }

    /// The shield `id`.
    pub fn shield(&self, id: &str) -> (r: Option<&Shield>)
        ensures
            r matches Some(x) ==> find(self.shields@, id@) == Some(*x),
            r is None ==> find(self.shields@, id@) is None,
    {
        find_by_key(&self.shields, id)
    }

    /// The armour `id`.
    pub fn armor_item(&self, id: &str) -> (r: Option<&Armor>)
        ensures
            r matches Some(x) ==> find(self.armor@, id@) == Some(*x),
            r is None ==> find(self.armor@, id@) is None,
    {
        find_by_key(&self.armor, id)
    }

    /// Whether the type profile `type_id` is a magus profile.
    pub open spec fn is_magus_spec(&self, type_id: Seq<char>) -> bool {
        match find(self.type_profiles@, type_id) {
            Some(p) => p.is_magus,
            None => false,
        }
    }

    /// Whether the type profile `type_id` is a magus profile.
    pub fn is_magus(&self, type_id: &str) -> (r: bool)
        ensures
            r == self.is_magus_spec(type_id@),
    {
        match self.profile(type_id) {
            Some(p) => p.is_magus,
            None => false,
        }
    }
}

/// The display name of `id`, if the i18n holds one.
pub open spec fn display_name_spec(rs: &LocalizedRuleset, id: Seq<char>) -> Option<Seq<char>> {
    match find(rs.i18n@, id) {
        Some(e) => Some(e.name@),
        None => None,
    }
}

/// The short abbreviation of `id`, if the i18n holds one.
pub open spec fn abbreviation_spec(rs: &LocalizedRuleset, id: Seq<char>) -> Option<Seq<char>> {
    match find(rs.i18n@, id) {
        Some(e) => match e.abbreviation {
            Some(a) => Some(a@),
            None => None,
        },
        None => None,
    }
}

impl LocalizedRuleset {
    /// The localized display name of a catalogue id.
    pub fn display_name(&self, id: &str) -> (r: Option<&String>)
        ensures
            r matches Some(n) ==> display_name_spec(self, id@) == Some(n@),
            r is None ==> display_name_spec(self, id@) is None,
    {
        match find_by_key(&self.i18n, id) {
            Some(e) => Some(&e.name),
            None => None,
        }
    }

    /// The localized abbreviation of a catalogue id.
    pub fn abbreviation(&self, id: &str) -> (r: Option<&String>)
        ensures
            r matches Some(n) ==> abbreviation_spec(self, id@) == Some(n@),
            r is None ==> abbreviation_spec(self, id@) is None,
    {
        match find_by_key(&self.i18n, id) {
            Some(e) => match &e.abbreviation {
                Some(a) => Some(a),
                None => None,
            },
            None => None,
        }
    }
}

} // verus!
