//! Equipment: the catalogue of weapons, shields and armor a character may carry.
use vstd::prelude::*;
use crate::catalog::Keyed;
use crate::types::Id;

verus! {

/// Which weapon table a weapon comes from.
#[derive(Debug, Clone, Copy, PartialEq, Eq, Structural)]
pub enum WeaponKind {
    Melee,
    Missile,
    Thrown,
}

impl WeaponKind {
    /// The table's stable slug, as the equipment catalogue writes it.
    pub open spec fn slug_spec(self) -> Seq<char> {
        match self {
            WeaponKind::Melee => "melee"@,
            WeaponKind::Missile => "missile"@,
            WeaponKind::Thrown => "thrown"@,
        }
    }

    /// The table's stable slug.
    pub fn slug(&self) -> (r: &'static str)
        ensures
            r@ == self.slug_spec(),
    {
        match self {
            WeaponKind::Melee => "melee",
            WeaponKind::Missile => "missile",
            WeaponKind::Thrown => "thrown",
        }
    }

    /// Every weapon table in canonical order.
    pub fn all() -> (v: Vec<WeaponKind>)
        ensures
            v@ == seq![WeaponKind::Melee, WeaponKind::Missile, WeaponKind::Thrown],
    {
        let v = vec![WeaponKind::Melee, WeaponKind::Missile, WeaponKind::Thrown];
        assert(v@ =~= seq![WeaponKind::Melee, WeaponKind::Missile, WeaponKind::Thrown]);
        v
    }
}

/// A weapon: its combat modifiers (Attack and Damage absent for Dodge), its
/// minimum Strength, its Load, a Range for missiles, and the Ability it uses.
#[derive(Debug)]
pub struct Weapon {
    pub id: Id,
    pub kind: WeaponKind,
    pub init_mod: i8,
    pub attack_mod: Option<i8>,
    pub defense_mod: i8,
    pub damage_mod: Option<i8>,
    pub min_strength: Option<i8>,
    pub load: u8,
    pub range: Option<u16>,
    pub ability: Id,
}

/// A shield: its modifiers add to the wielded weapon's line.
#[derive(Debug)]
pub struct Shield {
    pub id: Id,
    pub init_mod: i8,
    pub attack_mod: i8,
    pub defense_mod: i8,
    pub load: u8,
    pub min_strength: i8,
}

/// A suit of armor: its Protection (Soak bonus) and Load.
#[derive(Debug)]
pub struct Armor {
    pub id: Id,
    pub protection: u8,
    pub load: u8,
}

impl Keyed for Weapon {
    open spec fn key_view(&self) -> Seq<char> { self.id@ }
    fn key(&self) -> (r: &str) { self.id.as_str() }
}

impl Keyed for Shield {
    open spec fn key_view(&self) -> Seq<char> { self.id@ }
    fn key(&self) -> (r: &str) { self.id.as_str() }
}

impl Keyed for Armor {
    open spec fn key_view(&self) -> Seq<char> { self.id@ }
    fn key(&self) -> (r: &str) { self.id.as_str() }
}

} // verus!
