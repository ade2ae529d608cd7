//! The saved entity: a character's or covenant's recorded choices.
use vstd::prelude::*;
use crate::life_stage::LifeStagePlan;
use crate::types::{Characteristic, CrisisSeverity, EntityKind, Id, LongevitySource, MightScore, ReputationType, Selection};

verus! {

/// One bought Ability instance.
#[derive(Debug)]
pub struct AbilityScore {
    pub ability: Id,
    pub score: u8,
    pub specialty: Option<String>,
    /// The instance value of a parameterized Ability ("Provence").
    pub parameter: Option<String>,
}

/// One bought Art score.
#[derive(Debug)]
pub struct ArtScore {
    pub art: Id,
    pub score: u8,
}

/// One known spell.
#[derive(Debug)]
pub struct SpellSelection {
    pub spell: Id,
    /// The chosen level of a General spell.
    pub level: Option<u16>,
    pub mastery: Option<u8>,
    pub parameter: Option<String>,
    pub mastery_abilities: Vec<Id>,
}

/// One carried piece of equipment.
#[derive(Debug)]
pub struct EquipmentSlot {
    pub item: Id,
    pub equipped: bool,
    pub specialization_applies: bool,
}

/// A named Personality Trait.
#[derive(Debug)]
pub struct PersonalityTrait {
    pub name: String,
    pub value: i8,
}

/// A starting Reputation.
#[derive(Debug)]
pub struct Reputation {
    pub kind: ReputationType,
    pub score: u8,
    pub content: String,
}

/// An enchanted device and its level.
#[derive(Debug)]
pub struct EnchantedDevice {
    pub name: String,
    pub level: u16,
}

/// A supernatural power and its level.
#[derive(Debug)]
pub struct SupernaturalPower {
    pub name: String,
    pub level: u16,
}

/// One talisman attunement.
#[derive(Debug)]
pub struct TalismanAttunement {
    pub description: String,
    pub bonus: i8,
}

/// An effect instilled in a talisman.
#[derive(Debug)]
pub struct TalismanEffect {
    pub name: String,
    pub level: u16,
}

/// A magus's talisman.
#[derive(Debug)]
pub struct Talisman {
    pub description: String,
    pub attunements: Vec<TalismanAttunement>,
    pub effects: Vec<TalismanEffect>,
}

/// A stored Longevity Ritual.
#[derive(Debug)]
pub struct LongevityRitual {
    pub source: LongevitySource,
    pub bonus: Option<i8>,
    pub focus: String,
}

/// A familiar's own statblock.
#[derive(Debug)]
pub struct Familiar {
    pub name: String,
    pub animal: String,
    pub might: Option<MightScore>,
    pub characteristics: Vec<(Characteristic, i8)>,
    pub size: i8,
    pub personality_traits: Vec<PersonalityTrait>,
    pub cord_gold: i8,
    pub cord_silver: i8,
    pub cord_bronze: i8,
    pub powers: Vec<SupernaturalPower>,
}

/// A Twilight Scar.
#[derive(Debug)]
pub struct TwilightScar {
    pub description: String,
}

/// One logged aging year.
#[derive(Debug)]
pub struct AgingLogEntry {
    pub year: Option<i32>,
    pub age: Option<u32>,
    pub effect: String,
    pub die: Option<u8>,
    pub total: Option<i32>,
    pub crisis: bool,
    pub crisis_die: Option<u8>,
    pub crisis_total: Option<i32>,
    pub crisis_row: Option<Id>,
    pub crisis_severity: Option<CrisisSeverity>,
}

/// A character's or covenant's recorded choices. Maps are kept as lists in
/// key order; a later entry for a key already present is ignored.
#[derive(Debug)]
pub struct Entity {
    pub entity_kind: EntityKind,
    pub type_id: Id,
    pub name: String,
    pub description: String,
    pub concept: String,
    pub gender: String,
    pub sigil: String,
    pub covenant_name: String,
    pub parens: String,
    pub birth_year: Option<i32>,
    pub house: Option<Id>,
    pub house_choices: Vec<(String, Selection)>,
    pub mythic_type: Option<Id>,
    pub mythic_choices: Vec<(String, Selection)>,
    pub warping_choices: Vec<(String, Selection)>,
    pub age: Option<u32>,
    pub apparent_age: Option<u32>,
    pub aura: i8,
    pub characteristics: Vec<(Characteristic, i8)>,
    pub characteristic_descriptions: Vec<(Characteristic, String)>,
    pub selections: Vec<Selection>,
    pub xp_pool: u32,
    pub ability_scores: Vec<AbilityScore>,
    pub art_scores: Vec<ArtScore>,
    pub spells: Vec<SpellSelection>,
    pub equipment: Vec<EquipmentSlot>,
    pub personality_traits: Vec<PersonalityTrait>,
    pub reputations: Vec<Reputation>,
    pub devices: Vec<EnchantedDevice>,
    pub talisman: Option<Talisman>,
    pub longevity_ritual: Option<LongevityRitual>,
    pub familiar: Option<Familiar>,
    pub might: Option<MightScore>,
    pub powers: Vec<SupernaturalPower>,
    pub warping_points: u32,
    pub warping_effect: String,
    pub twilight_scars: Vec<TwilightScar>,
    pub aging_points: Vec<(Characteristic, u8)>,
    pub decrepitude_effect: String,
    pub living_conditions: Vec<Id>,
    pub aging_log: Vec<AgingLogEntry>,
    pub spell_levels_override: Option<u32>,
    pub life_stages: Option<LifeStagePlan>,
}

impl Entity {
    /// A blank entity of the given kind and type profile.
    pub fn new(entity_kind: EntityKind, type_id: Id) -> (e: Entity)
        ensures
            e.entity_kind == entity_kind,
            e.type_id@ == type_id@,
            e.selections@.len() == 0,
            e.house is None,
            e.mythic_type is None,
            e.warping_points == 0,
    {
        Entity {
            entity_kind,
            type_id,
            name: String::new(),
            description: String::new(),
            concept: String::new(),
            gender: String::new(),
            sigil: String::new(),
            covenant_name: String::new(),
            parens: String::new(),
            birth_year: None,
            house: None,
            house_choices: Vec::new(),
            mythic_type: None,
            mythic_choices: Vec::new(),
            warping_choices: Vec::new(),
            age: None,
            apparent_age: None,
            aura: 0,
            characteristics: Vec::new(),
            characteristic_descriptions: Vec::new(),
            selections: Vec::new(),
            xp_pool: 0,
            ability_scores: Vec::new(),
            art_scores: Vec::new(),
            spells: Vec::new(),
            equipment: Vec::new(),
            personality_traits: Vec::new(),
            reputations: Vec::new(),
            devices: Vec::new(),
            talisman: None,
            longevity_ritual: None,
            familiar: None,
            might: None,
            powers: Vec::new(),
            warping_points: 0,
            warping_effect: String::new(),
            twilight_scars: Vec::new(),
            aging_points: Vec::new(),
            decrepitude_effect: String::new(),
            living_conditions: Vec::new(),
            aging_log: Vec::new(),
            spell_levels_override: None,
            life_stages: None,
        }
    }
}

} // verus!
