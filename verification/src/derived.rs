//! Derived combat figures: Soak, Load and Encumbrance, the combat totals of
//! each equipped weapon, and the Fatigue and Wound tracks.
use vstd::prelude::*;
use crate::catalog::find;
use crate::effective::ability::{effective_ability_score, effective_ability_spec};
use crate::effective::characteristic::{after_aging_spec, effective_characteristic_after_aging, size, size_spec};
use crate::effective::{clamp_i64, clamp_u32, effect_selections, fold_effects, fold_sels, sat_add_i64, selections_for_effects, step_fn, EffectStep};
use crate::entity::{EquipmentSlot, Entity};
use crate::equipment::{Armor, Shield, Weapon, WeaponKind};
use crate::ruleset::Ruleset;
use crate::types::{Characteristic, Effect, Id, Selection, SelectionView};

verus! {

// --- Soak -------------------------------------------------------------------

/// What one Soak addend comes from.
#[derive(Debug, Clone, Copy, PartialEq, Eq, Structural)]
pub enum SoakSource {
    Stamina,
    Armor,
    SoakMod,
    BronzeCord,
}

impl SoakSource {
    /// The addend's stable slug.
    pub open spec fn slug_spec(self) -> Seq<char> {
        match self {
            SoakSource::Stamina => "stamina"@,
            SoakSource::Armor => "armor"@,
            SoakSource::SoakMod => "soak_mod"@,
            SoakSource::BronzeCord => "bronze_cord"@,
        }
    }

    /// The addend's stable slug.
    pub fn slug(&self) -> (r: &'static str)
        ensures
            r@ == self.slug_spec(),
    {
        match self {
            SoakSource::Stamina => "stamina",
            SoakSource::Armor => "armor",
            SoakSource::SoakMod => "soak_mod",
            SoakSource::BronzeCord => "bronze_cord",
        }
    }
}

/// One labelled term of the Soak total.
#[derive(Debug, Clone, Copy)]
pub struct SoakAddend {
    pub label: SoakSource,
    pub value: i64,
}

/// The Soak total with its addends.
#[derive(Debug)]
pub struct Soak {
    pub addends: Vec<SoakAddend>,
    pub total: i64,
}

/// The armor a slot holds, when it holds catalogue armor and no weapon or
/// shield shares its id.
pub open spec fn slot_armor(rs: &Ruleset, slot: EquipmentSlot) -> Option<Armor> {
    if find(rs.weapons@, slot.item@) is Some || find(rs.shields@, slot.item@) is Some {
        None
    } else {
        find(rs.armor@, slot.item@)
    }
}

/// The protection of the equipped armor among the slots (saturating at
/// `u32::MAX`).
pub open spec fn worn_protection(rs: &Ruleset, slots: Seq<EquipmentSlot>) -> u32
    decreases slots.len(),
{
    if slots.len() == 0 {
        0
    } else {
        let before = worn_protection(rs, slots.drop_last());
        if slots.last().equipped {
            match slot_armor(rs, slots.last()) {
                Some(a) => clamp_u32(before + a.protection),
                None => before,
            }
        } else {
            before
        }
    }
}

/// One step of the Soak-modifier fold.
pub open spec fn soak_mod_step(acc: i64, s: SelectionView, e: Effect) -> i64 {
    match e {
        Effect::SoakMod { amount } => clamp_i64(acc + amount),
        _ => acc,
    }
}

/// Sums [`Effect::SoakMod`].
pub struct SoakModStep;

impl EffectStep<i64> for SoakModStep {
    open spec fn step_spec(&self, acc: i64, s: SelectionView, e: Effect) -> i64 {
        soak_mod_step(acc, s, e)
    }

    fn step(&self, acc: i64, s: &Selection, e: &Effect) -> (r: i64) {
        match e {
            Effect::SoakMod { amount } => sat_add_i64(acc, *amount as i64),
            _ => acc,
        }
    }
}

/// The summed Soak modifiers of the entity's Virtues and Flaws.
pub open spec fn soak_mod_spec(entity: &Entity, ruleset: &Ruleset) -> i64 {
    fold_sels(0i64, effect_selections(entity, ruleset), ruleset, |a: i64, s: SelectionView, e: Effect| soak_mod_step(a, s, e))
}

/// The familiar's Bronze Cord (0 without a familiar).
pub open spec fn bronze_cord(entity: &Entity) -> int {
    match entity.familiar {
        Some(f) => f.cord_bronze as int,
        None => 0,
    }
}

/// The Soak addends: Stamina and armor always, the Soak modifiers and the
/// Bronze Cord when non-zero.
pub open spec fn soak_addends_spec(entity: &Entity, ruleset: &Ruleset) -> Seq<(SoakSource, int)> {
    let base = seq![
        (SoakSource::Stamina, after_aging_spec(entity, ruleset, Characteristic::Sta) as int),
        (SoakSource::Armor, worn_protection(ruleset, entity.equipment@) as int),
    ];
    let m = soak_mod_spec(entity, ruleset) as int;
    let with_mod = if m != 0 { base.push((SoakSource::SoakMod, m)) } else { base };
    let b = bronze_cord(entity);
    if b != 0 { with_mod.push((SoakSource::BronzeCord, b)) } else { with_mod }
}

/// The sum of the addends' values.
pub open spec fn addends_total(a: Seq<(SoakSource, int)>) -> int
    decreases a.len(),
{
    if a.len() == 0 { 0 } else { addends_total(a.drop_last()) + a.last().1 }
}

/// The Soak total is Stamina after aging, plus the protection of the worn
/// armor, plus the summed Soak modifiers of the entity's Virtues and Flaws,
/// plus the familiar's Bronze Cord; a non-zero Soak modifier sum is shown
/// as an addend of its own.
pub proof fn law_soak_adds_stamina_armor_modifiers_and_cord(entity: &Entity, ruleset: &Ruleset)
    ensures
        addends_total(soak_addends_spec(entity, ruleset))
            == after_aging_spec(entity, ruleset, Characteristic::Sta) + worn_protection(ruleset, entity.equipment@)
                + soak_mod_spec(entity, ruleset) + bronze_cord(entity),
        soak_mod_spec(entity, ruleset) != 0 ==> exists|i: int| 0 <= i < soak_addends_spec(entity, ruleset).len()
            && #[trigger] soak_addends_spec(entity, ruleset)[i] == (SoakSource::SoakMod, soak_mod_spec(entity, ruleset) as int),
        bronze_cord(entity) != 0 ==> exists|i: int| 0 <= i < soak_addends_spec(entity, ruleset).len()
            && #[trigger] soak_addends_spec(entity, ruleset)[i] == (SoakSource::BronzeCord, bronze_cord(entity)),
        soak_addends_spec(entity, ruleset).len() >= 2,
        soak_addends_spec(entity, ruleset)[0] == (SoakSource::Stamina, after_aging_spec(entity, ruleset, Characteristic::Sta) as int),
        soak_addends_spec(entity, ruleset)[1] == (SoakSource::Armor, worn_protection(ruleset, entity.equipment@) as int),
{
    let base = seq![
        (SoakSource::Stamina, after_aging_spec(entity, ruleset, Characteristic::Sta) as int),
        (SoakSource::Armor, worn_protection(ruleset, entity.equipment@) as int),
    ];
    let m = soak_mod_spec(entity, ruleset) as int;
    let with_mod = if m == 0 { base } else { base.push((SoakSource::SoakMod, m)) };
    let b = bronze_cord(entity);
    let b1 = base.drop_last();
    assert(b1.drop_last() =~= Seq::<(SoakSource, int)>::empty());
    assert(addends_total(b1.drop_last()) == 0);
    assert(b1.last() == base[0]);
    assert(addends_total(b1) == base[0].1);
    assert(addends_total(base) == base[0].1 + base[1].1);
    if m != 0 {
        assert(with_mod.drop_last() =~= base);
        assert(with_mod[2] == (SoakSource::SoakMod, m));
    }
    assert(addends_total(with_mod) == base[0].1 + base[1].1 + m);
    if b != 0 {
        assert(with_mod.push((SoakSource::BronzeCord, b)).drop_last() =~= with_mod);
        if m != 0 {
            assert(with_mod.push((SoakSource::BronzeCord, b))[2] == (SoakSource::SoakMod, m));
        }
    }
    assert(soak_addends_spec(entity, ruleset) == (if b != 0 { with_mod.push((SoakSource::BronzeCord, b)) } else { with_mod }));
    if m != 0 {
        assert(soak_addends_spec(entity, ruleset)[2] == (SoakSource::SoakMod, m));
    }
    if b != 0 {
        let last = soak_addends_spec(entity, ruleset).len() - 1;
        assert(soak_addends_spec(entity, ruleset)[last] == (SoakSource::BronzeCord, b));
    }
}

fn slot_armor_of<'a>(rs: &'a Ruleset, slot: &EquipmentSlot) -> (r: Option<&'a Armor>)
    ensures
        match r {
            Some(a) => slot_armor(rs, *slot) == Some(*a),
            None => slot_armor(rs, *slot) is None,
        },
{
    if rs.weapon(slot.item.as_str()).is_some() || rs.shield(slot.item.as_str()).is_some() {
        return None;
    }
    rs.armor_item(slot.item.as_str())
}

/// The entity's Soak: Stamina after aging, the protection of the armor it
/// wears, its Soak modifiers and its familiar's Bronze Cord.
pub fn soak(entity: &Entity, ruleset: &Ruleset) -> (r: Soak)
    ensures
        r.addends@.len() == soak_addends_spec(entity, ruleset).len(),
        forall|i: int| 0 <= i < r.addends@.len() ==> {
            &&& (#[trigger] r.addends@[i]).label == soak_addends_spec(entity, ruleset)[i].0
            &&& r.addends@[i].value == soak_addends_spec(entity, ruleset)[i].1
        },
        r.total == clamp_i64(addends_total(soak_addends_spec(entity, ruleset))),
{
    let stamina = effective_characteristic_after_aging(entity, ruleset, Characteristic::Sta) as i64;
    let mut protection: u32 = 0;
    let mut i: usize = 0;
    while i < entity.equipment.len()
        invariant
            i <= entity.equipment@.len(),
            protection == worn_protection(ruleset, entity.equipment@.take(i as int)),
        decreases entity.equipment.len() - i,
    {
        proof {
            assert(entity.equipment@.take(i + 1).drop_last() =~= entity.equipment@.take(i as int));
        }
        let slot = &entity.equipment[i];
        if slot.equipped {
            match slot_armor_of(ruleset, slot) {
                Some(a) => {
                    protection = protection.saturating_add(a.protection as u32);
                },
                None => {},
            }
        }
        i += 1;
    }
    let armor = protection as i64;
    assert(entity.equipment@.take(entity.equipment.len() as int) =~= entity.equipment@);
    let sels = selections_for_effects(entity, ruleset);
    let step = SoakModStep;
    let soak_mod = fold_effects(&sels, ruleset, 0i64, &step);
    proof {
        assert(step_fn(step) =~= (|a: i64, s: SelectionView, e: Effect| soak_mod_step(a, s, e)));
    }
    let bronze: i64 = match &entity.familiar {
        Some(f) => f.cord_bronze as i64,
        None => 0,
    };
    let mut addends: Vec<SoakAddend> = Vec::new();
    addends.push(SoakAddend { label: SoakSource::Stamina, value: stamina });
    addends.push(SoakAddend { label: SoakSource::Armor, value: armor });
    if soak_mod != 0 {
        addends.push(SoakAddend { label: SoakSource::SoakMod, value: soak_mod });
    }
    if bronze != 0 {
        addends.push(SoakAddend { label: SoakSource::BronzeCord, value: bronze });
    }
    let ghost spec_addends = soak_addends_spec(entity, ruleset);
    let mut total: i128 = 0;
    let mut k: usize = 0;
    while k < addends.len()
        invariant
            k <= addends@.len(),
            addends@.len() <= 4,
            addends@.len() == spec_addends.len(),
            spec_addends == soak_addends_spec(entity, ruleset),
            forall|j: int| 0 <= j < addends@.len() ==> {
                &&& (#[trigger] addends@[j]).label == spec_addends[j].0
                &&& addends@[j].value == spec_addends[j].1
            },
            total == addends_total(spec_addends.take(k as int)),
            -0x8000_0000_0000_0000 * 4 <= total <= 0x7FFF_FFFF_FFFF_FFFF * 4,
            -0x8000_0000_0000_0000 * k <= total <= 0x7FFF_FFFF_FFFF_FFFF * k,
        decreases addends.len() - k,
    {
        proof {
            assert(spec_addends.take(k + 1).drop_last() =~= spec_addends.take(k as int));
        }
        total = total + addends[k].value as i128;
        k += 1;
    }
    assert(spec_addends.take(addends.len() as int) =~= spec_addends);
    let clamped: i64 = if total > i64::MAX as i128 { i64::MAX } else if total < i64::MIN as i128 { i64::MIN } else { total as i64 };
    Soak { addends, total: clamped }
}


// --- Load and Encumbrance ----------------------------------------------------

/// Which catalogue a carried id belongs to: weapons are probed first, then
/// shields, then armor.
pub open spec fn slot_load(rs: &Ruleset, slot: EquipmentSlot) -> u32 {
    match find(rs.weapons@, slot.item@) {
        Some(w) => w.load as u32,
        None => match find(rs.shields@, slot.item@) {
            Some(sh) => sh.load as u32,
            None => match find(rs.armor@, slot.item@) {
                Some(a) => a.load as u32,
                None => 0,
            },
        },
    }
}

/// The summed Load of every carried item (saturating at `u32::MAX`).
pub open spec fn load_spec(rs: &Ruleset, slots: Seq<EquipmentSlot>) -> u32
    decreases slots.len(),
{
    if slots.len() == 0 { 0 } else { clamp_u32(load_spec(rs, slots.drop_last()) + slot_load(rs, slots.last())) }
}

/// The `b`-th triangular number.
pub open spec fn triangle(b: int) -> int {
    b * (b + 1) / 2
}

/// Load, the Burden it produces, and the Encumbrance penalty.
#[derive(Debug, Clone, Copy)]
pub struct Encumbrance {
    pub load: u32,
    pub burden: u32,
    pub total: i64,
}

/// The Encumbrance penalty: Burden less Strength (a negative Strength does
/// not add to it), never below zero.
pub open spec fn encumbrance_total(burden: int, strength: int) -> int {
    let s = if strength > 0 { strength } else { 0 };
    if burden > s { burden - s } else { 0 }
}

fn load_of(rs: &Ruleset, slot: &EquipmentSlot) -> (r: u32)
    ensures
        r == slot_load(rs, *slot),
{
    match rs.weapon(slot.item.as_str()) {
        Some(w) => w.load as u32,
        None => match rs.shield(slot.item.as_str()) {
            Some(sh) => sh.load as u32,
            None => match rs.armor_item(slot.item.as_str()) {
                Some(a) => a.load as u32,
                None => 0,
            },
        },
    }
}

/// The largest `b` with `b * (b + 1) / 2 <= load`.
fn burden_of(load: u32) -> (b: u32)
    ensures
        triangle(b as int) <= load < triangle(b + 1),
{
    let mut b: u64 = 0;
    let mut next: u64 = 1;
    while next <= load as u64
        invariant
            b <= 100_000,
            next == triangle(b + 1),
            triangle(b as int) <= load,
        decreases load - triangle(b as int),
    {
        assert(triangle(b + 1) > triangle(b as int)) by (nonlinear_arith)
            requires
                b >= 0,
        ;
        assert(b + 1 <= 100_000) by (nonlinear_arith)
            requires
                (b + 1) * (b + 2) / 2 <= 0xFFFF_FFFF,
                b >= 0,
        ;
        assert((b + 2) * (b + 3) <= 100_001 * 100_002) by (nonlinear_arith)
            requires
                b + 1 <= 100_000,
        ;
        b = b + 1;
        next = (b + 1) * (b + 2) / 2;
    }
    b as u32
}

/// The entity's Load, Burden and Encumbrance.
pub fn encumbrance(entity: &Entity, ruleset: &Ruleset) -> (r: Encumbrance)
    ensures
        r.load == load_spec(ruleset, entity.equipment@),
        triangle(r.burden as int) <= r.load < triangle(r.burden + 1),
        r.total == encumbrance_total(r.burden as int, after_aging_spec(entity, ruleset, Characteristic::Str) as int),
{
    let mut load: u32 = 0;
    let mut i: usize = 0;
    while i < entity.equipment.len()
        invariant
            i <= entity.equipment@.len(),
            load == load_spec(ruleset, entity.equipment@.take(i as int)),
        decreases entity.equipment.len() - i,
    {
        proof {
            assert(entity.equipment@.take(i + 1).drop_last() =~= entity.equipment@.take(i as int));
        }
        load = load.saturating_add(load_of(ruleset, &entity.equipment[i]));
        i += 1;
    }
    assert(entity.equipment@.take(entity.equipment.len() as int) =~= entity.equipment@);
    let burden = burden_of(load);
    let strength = effective_characteristic_after_aging(entity, ruleset, Characteristic::Str) as i64;
    let s: i64 = if strength > 0 { strength } else { 0 };
    let total: i64 = if burden as i64 > s { burden as i64 - s } else { 0 };
    Encumbrance { load, burden, total }
}

// --- combat ---------------------------------------------------------------------

/// One combat line: a weapon alone, or a melee weapon with every equipped
/// shield's modifiers folded in.
#[derive(Debug)]
pub struct CombatLine {
    pub weapon: Id,
    pub shields: Vec<Id>,
    pub ability: Id,
    pub initiative: i64,
    pub attack: Option<i64>,
    pub defense: i64,
    pub damage: Option<i64>,
    pub range: Option<u16>,
}

/// The view of a combat line.
pub struct LineShape {
    pub weapon: Seq<char>,
    pub shields: Seq<Seq<char>>,
    pub ability: Seq<char>,
    pub initiative: int,
    pub attack: Option<int>,
    pub defense: int,
    pub damage: Option<int>,
    pub range: Option<u16>,
}

/// The shape of a combat line.
pub open spec fn line_shape(l: CombatLine) -> LineShape {
    LineShape {
        weapon: l.weapon@,
        shields: l.shields@.map_values(|x: Id| x@),
        ability: l.ability@,
        initiative: l.initiative as int,
        attack: match l.attack { Some(a) => Some(a as int), None => None },
        defense: l.defense as int,
        damage: match l.damage { Some(d) => Some(d as int), None => None },
        range: l.range,
    }
}

/// The equipped shields among the slots (slots whose id no weapon takes).
pub open spec fn equipped_shields(rs: &Ruleset, slots: Seq<EquipmentSlot>) -> Seq<Shield>
    decreases slots.len(),
{
    if slots.len() == 0 {
        Seq::empty()
    } else {
        let before = equipped_shields(rs, slots.drop_last());
        let last = slots.last();
        if last.equipped && find(rs.weapons@, last.item@) is None {
            match find(rs.shields@, last.item@) {
                Some(sh) => before.push(sh),
                None => before,
            }
        } else {
            before
        }
    }
}

/// Summed shield modifiers: `(initiative, attack, defense)` (saturating).
pub open spec fn shield_sums(shields: Seq<Shield>) -> (i64, i64, i64)
    decreases shields.len(),
{
    if shields.len() == 0 {
        (0, 0, 0)
    } else {
        let b = shield_sums(shields.drop_last());
        let s = shields.last();
        (clamp_i64(b.0 + s.init_mod), clamp_i64(b.1 + s.attack_mod), clamp_i64(b.2 + s.defense_mod))
    }
}

/// The figures every line shares: Quickness, Dexterity and Strength after
/// aging, and the Encumbrance penalty.
pub struct CombatBase {
    pub qik: int,
    pub dex: int,
    pub str: int,
    pub enc: int,
}

/// The combat line of `w`, with the shields' modifiers when `with_shields`.
pub open spec fn line_spec(entity: &Entity, ruleset: &Ruleset, base: CombatBase, w: Weapon, shields: Seq<Shield>, with_shields: bool) -> LineShape {
    let ab = effective_ability_spec(entity, ruleset, w.ability@, None) as int;
    let sums: (i64, i64, i64) = if with_shields { shield_sums(shields) } else { (0, 0, 0) };
    LineShape {
        weapon: w.id@,
        shields: if with_shields { shields.map_values(|x: Shield| x.id@) } else { Seq::empty() },
        ability: w.ability@,
        initiative: clamp_i64(base.qik + w.init_mod + sums.0 - base.enc) as int,
        attack: match w.attack_mod { Some(a) => Some(clamp_i64(base.dex + ab + a + sums.1) as int), None => None },
        defense: clamp_i64(base.qik + ab + w.defense_mod + sums.2) as int,
        damage: match w.damage_mod { Some(d) => Some(base.str + d), None => None },
        range: w.range,
    }
}

/// The combat lines of the equipped weapons among the slots, in slot order:
/// a melee weapon with a shield equipped gives its with-shield line first,
/// then its bare line.
pub open spec fn lines_spec(entity: &Entity, ruleset: &Ruleset, base: CombatBase, shields: Seq<Shield>, slots: Seq<EquipmentSlot>) -> Seq<LineShape>
    decreases slots.len(),
{
    if slots.len() == 0 {
        Seq::empty()
    } else {
        let before = lines_spec(entity, ruleset, base, shields, slots.drop_last());
        let last = slots.last();
        if !last.equipped {
            before
        } else {
            match find(ruleset.weapons@, last.item@) {
                None => before,
                Some(w) => {
                    if w.kind == WeaponKind::Melee && shields.len() > 0 {
                        before.push(line_spec(entity, ruleset, base, w, shields, true)).push(line_spec(entity, ruleset, base, w, shields, false))
                    } else {
                        before.push(line_spec(entity, ruleset, base, w, shields, false))
                    }
                },
            }
        }
    }
}

/// The shared figures of the entity's combat lines.
pub open spec fn combat_base(entity: &Entity, ruleset: &Ruleset) -> CombatBase {
    let str_score = after_aging_spec(entity, ruleset, Characteristic::Str) as int;
    let load = load_spec(ruleset, entity.equipment@);
    let burden = choose|b: int| 0 <= b && #[trigger] triangle(b) <= load < triangle(b + 1);
    CombatBase {
        qik: after_aging_spec(entity, ruleset, Characteristic::Qik) as int,
        dex: after_aging_spec(entity, ruleset, Characteristic::Dex) as int,
        str: str_score,
        enc: encumbrance_total(burden, str_score),
    }
}

/// The entity's combat lines.
pub open spec fn combat_lines_spec(entity: &Entity, ruleset: &Ruleset) -> Seq<LineShape> {
    let shields = equipped_shields(ruleset, entity.equipment@);
    lines_spec(entity, ruleset, combat_base(entity, ruleset), shields, entity.equipment@)
}

proof fn lemma_burden_unique(load: int, a: int, b: int)
    requires
        0 <= a,
        0 <= b,
        triangle(a) <= load < triangle(a + 1),
        triangle(b) <= load < triangle(b + 1),
    ensures
        a == b,
{
    if a < b {
        lemma_triangle_mono(a + 1, b);
    } else if b < a {
        lemma_triangle_mono(b + 1, a);
    }
}

proof fn lemma_triangle_mono(a: int, b: int)
    requires
        0 <= a <= b,
    ensures
        triangle(a) <= triangle(b),
    decreases b - a,
{
    if a < b {
        lemma_triangle_mono(a, b - 1);
        assert(triangle(b - 1) <= triangle(b)) by (nonlinear_arith)
            requires
                b >= 1,
        ;
    }
}

fn ids_of_shields(shields: &Vec<&Shield>) -> (r: Vec<Id>)
    ensures
        r@.map_values(|x: Id| x@) == shields@.map_values(|x: &Shield| x.id@),
{
    let mut out: Vec<Id> = Vec::new();
    let mut i: usize = 0;
    while i < shields.len()
        invariant
            i <= shields@.len(),
            out@.map_values(|x: Id| x@) == shields@.take(i as int).map_values(|x: &Shield| x.id@),
        decreases shields.len() - i,
    {
        let ghost before = out@;
        out.push(shields[i].id.clone());
        proof {
            assert(out@.map_values(|x: Id| x@) =~= before.map_values(|x: Id| x@).push(shields@[i as int].id@));
            assert(shields@.take(i + 1).map_values(|x: &Shield| x.id@) =~= shields@.take(i as int).map_values(|x: &Shield| x.id@).push(shields@[i as int].id@));
        }
        i += 1;
    }
    assert(shields@.take(shields.len() as int) =~= shields@);
    out
}

/// The combat totals of every equipped weapon: Initiative (Quickness +
/// weapon + shields − Encumbrance), Attack (Dexterity + Ability + weapon +
/// shields; none for a weapon without one), Defense (Quickness + Ability +
/// weapon + shields), Damage (Strength + weapon; none without one) and Range.
#[verifier::rlimit(40)]
pub fn combat_totals(entity: &Entity, ruleset: &Ruleset) -> (r: Vec<CombatLine>)
    ensures
        r@.map_values(|l: CombatLine| line_shape(l)) == combat_lines_spec(entity, ruleset),
{
    let enc = encumbrance(entity, ruleset);
    let qik = effective_characteristic_after_aging(entity, ruleset, Characteristic::Qik) as i64;
    let dex = effective_characteristic_after_aging(entity, ruleset, Characteristic::Dex) as i64;
    let strength = effective_characteristic_after_aging(entity, ruleset, Characteristic::Str) as i64;
    let ghost base = combat_base(entity, ruleset);
    proof {
        let b = choose|b: int| 0 <= b && #[trigger] triangle(b) <= load_spec(ruleset, entity.equipment@) < triangle(b + 1);
        assert(0 <= enc.burden && triangle(enc.burden as int) <= load_spec(ruleset, entity.equipment@) < triangle(enc.burden + 1));
        lemma_burden_unique(load_spec(ruleset, entity.equipment@) as int, b, enc.burden as int);
        assert(base.enc == enc.total);
    }
    // The equipped shields and their summed modifiers.
    let mut shields: Vec<&Shield> = Vec::new();
    let mut s_init: i64 = 0;
    let mut s_atk: i64 = 0;
    let mut s_def: i64 = 0;
    let mut i: usize = 0;
    while i < entity.equipment.len()
        invariant
            i <= entity.equipment@.len(),
            shields@.map_values(|x: &Shield| *x) == equipped_shields(ruleset, entity.equipment@.take(i as int)),
            (s_init, s_atk, s_def) == shield_sums(equipped_shields(ruleset, entity.equipment@.take(i as int))),
        decreases entity.equipment.len() - i,
    {
        proof {
            assert(entity.equipment@.take(i + 1).drop_last() =~= entity.equipment@.take(i as int));
        }
        let slot = &entity.equipment[i];
        if slot.equipped && ruleset.weapon(slot.item.as_str()).is_none() {
            match ruleset.shield(slot.item.as_str()) {
                Some(sh) => {
                    let ghost before = shields@;
                    shields.push(sh);
                    proof {
                        assert(shields@.map_values(|x: &Shield| *x) =~= before.map_values(|x: &Shield| *x).push(*sh));
                    }
                    proof {
                        let es = equipped_shields(ruleset, entity.equipment@.take(i + 1));
                        assert(entity.equipment@.take(i + 1).last() == *slot);
                        assert(es == equipped_shields(ruleset, entity.equipment@.take(i as int)).push(*sh));
                        assert(es.drop_last() =~= equipped_shields(ruleset, entity.equipment@.take(i as int)));
                        assert(es.last() == *sh);
                    }
                    s_init = sat_add_i64(s_init, sh.init_mod as i64);
                    s_atk = sat_add_i64(s_atk, sh.attack_mod as i64);
                    s_def = sat_add_i64(s_def, sh.defense_mod as i64);
                },
                None => {},
            }
        }
        i += 1;
    }
    assert(entity.equipment@.take(entity.equipment.len() as int) =~= entity.equipment@);
    let ghost sh_spec = equipped_shields(ruleset, entity.equipment@);
    let shield_ids = ids_of_shields(&shields);
    proof {
        assert(shields@.map_values(|x: &Shield| x.id@) =~= sh_spec.map_values(|x: Shield| x.id@));
    }
    let mut out: Vec<CombatLine> = Vec::new();
    let mut i: usize = 0;
    while i < entity.equipment.len()
        invariant
            i <= entity.equipment@.len(),
            out@.map_values(|l: CombatLine| line_shape(l)) == lines_spec(entity, ruleset, base, sh_spec, entity.equipment@.take(i as int)),
            base == combat_base(entity, ruleset),
            base.qik == qik,
            base.dex == dex,
            base.str == strength,
            base.enc == enc.total,
            (s_init, s_atk, s_def) == shield_sums(sh_spec),
            shields@.len() == sh_spec.len(),
            shield_ids@.map_values(|x: Id| x@) == sh_spec.map_values(|x: Shield| x.id@),
            -2147483648 <= qik <= 2147483647,
            -2147483648 <= dex <= 2147483647,
            -2147483648 <= strength <= 2147483647,
            0 <= enc.total <= 0xFFFF_FFFF,
        decreases entity.equipment.len() - i,
    {
        proof {
            assert(entity.equipment@.take(i + 1).drop_last() =~= entity.equipment@.take(i as int));
        }
        let slot = &entity.equipment[i];
        if slot.equipped {
            match ruleset.weapon(slot.item.as_str()) {
                None => {},
                Some(w) => {
                    let ab = effective_ability_score(entity, ruleset, w.ability.as_str(), None) as i64;
                    if w.kind == WeaponKind::Melee && shields.len() > 0 {
                        let line = CombatLine {
                            weapon: w.id.clone(),
                            shields: copy_ids(&shield_ids),
                            ability: w.ability.clone(),
                            initiative: wide(qik as i128 + w.init_mod as i128 + s_init as i128 - enc.total as i128),
                            attack: match w.attack_mod { Some(a) => Some(wide(dex as i128 + ab as i128 + a as i128 + s_atk as i128)), None => None },
                            defense: wide(qik as i128 + ab as i128 + w.defense_mod as i128 + s_def as i128),
                            damage: match w.damage_mod { Some(d) => Some(strength + d as i64), None => None },
                            range: w.range,
                        };
                        let ghost before = out@;
                        out.push(line);
                        proof {
                            assert(out@.map_values(|l: CombatLine| line_shape(l)) =~= before.map_values(|l: CombatLine| line_shape(l)).push(line_shape(line)));
                            assert(line_shape(line) == line_spec(entity, ruleset, base, *w, sh_spec, true));
                        }
                    }
                    let line = CombatLine {
                        weapon: w.id.clone(),
                        shields: Vec::new(),
                        ability: w.ability.clone(),
                        initiative: wide(qik as i128 + w.init_mod as i128 - enc.total as i128),
                        attack: match w.attack_mod { Some(a) => Some(wide(dex as i128 + ab as i128 + a as i128)), None => None },
                        defense: wide(qik as i128 + ab as i128 + w.defense_mod as i128),
                        damage: match w.damage_mod { Some(d) => Some(strength + d as i64), None => None },
                        range: w.range,
                    };
                    let ghost before = out@;
                    out.push(line);
                    proof {
                        assert(out@.map_values(|l: CombatLine| line_shape(l)) =~= before.map_values(|l: CombatLine| line_shape(l)).push(line_shape(line)));
                        assert(line_shape(line).shields =~= Seq::<Seq<char>>::empty());
                        assert(line_shape(line) == line_spec(entity, ruleset, base, *w, sh_spec, false));
                    }
                },
            }
        }
        i += 1;
    }
    assert(entity.equipment@.take(entity.equipment.len() as int) =~= entity.equipment@);
    out
}

fn wide(x: i128) -> (r: i64)
    ensures
        r == clamp_i64(x as int),
{
    if x > i64::MAX as i128 { i64::MAX } else if x < i64::MIN as i128 { i64::MIN } else { x as i64 }
}

fn copy_ids(v: &Vec<Id>) -> (r: Vec<Id>)
    ensures
        r@.map_values(|x: Id| x@) == v@.map_values(|x: Id| x@),
{
    let mut out: Vec<Id> = Vec::new();
    let mut i: usize = 0;
    while i < v.len()
        invariant
            i <= v@.len(),
            out@.map_values(|x: Id| x@) == v@.take(i as int).map_values(|x: Id| x@),
        decreases v.len() - i,
    {
        let ghost before = out@;
        out.push(v[i].clone());
        proof {
            assert(out@.map_values(|x: Id| x@) =~= before.map_values(|x: Id| x@).push(v@[i as int]@));
            assert(v@.take(i + 1).map_values(|x: Id| x@) =~= v@.take(i as int).map_values(|x: Id| x@).push(v@[i as int]@));
        }
        i += 1;
    }
    assert(v@.take(v.len() as int) =~= v@);
    out
}


// --- Fatigue and Wounds ---------------------------------------------------------

/// A Fatigue level.
#[derive(Debug, Clone, Copy, PartialEq, Eq, Structural)]
pub enum FatigueKind {
    Fresh,
    Winded,
    Weary,
    Tired,
    Dazed,
}

impl FatigueKind {
    /// The level's stable slug.
    pub open spec fn slug_spec(self) -> Seq<char> {
        match self {
            FatigueKind::Fresh => "fresh"@,
            FatigueKind::Winded => "winded"@,
            FatigueKind::Weary => "weary"@,
            FatigueKind::Tired => "tired"@,
            FatigueKind::Dazed => "dazed"@,
        }
    }

    /// The level's stable slug.
    pub fn slug(&self) -> (r: &'static str)
        ensures
            r@ == self.slug_spec(),
    {
        match self {
            FatigueKind::Fresh => "fresh",
            FatigueKind::Winded => "winded",
            FatigueKind::Weary => "weary",
            FatigueKind::Tired => "tired",
            FatigueKind::Dazed => "dazed",
        }
    }
}

/// One Fatigue level and the penalty it imposes.
#[derive(Debug, Clone, Copy, PartialEq, Eq, Structural)]
pub struct FatigueLevel {
    pub level: FatigueKind,
    pub penalty: i32,
}

/// The Fatigue track: Fresh 0, Winded 0, Weary −1, Tired −3, Dazed −5.
pub open spec fn fatigue_track() -> Seq<FatigueLevel> {
    seq![
        FatigueLevel { level: FatigueKind::Fresh, penalty: 0 },
        FatigueLevel { level: FatigueKind::Winded, penalty: 0 },
        FatigueLevel { level: FatigueKind::Weary, penalty: -1i32 },
        FatigueLevel { level: FatigueKind::Tired, penalty: -3i32 },
        FatigueLevel { level: FatigueKind::Dazed, penalty: -5i32 },
    ]
}

/// The entity's Fatigue levels with their penalties.
pub fn fatigue_levels(entity: &Entity, ruleset: &Ruleset) -> (r: Vec<FatigueLevel>)
    ensures
        r@ == fatigue_track(),
{
    let v = vec![
        FatigueLevel { level: FatigueKind::Fresh, penalty: 0 },
        FatigueLevel { level: FatigueKind::Winded, penalty: 0 },
        FatigueLevel { level: FatigueKind::Weary, penalty: -1 },
        FatigueLevel { level: FatigueKind::Tired, penalty: -3 },
        FatigueLevel { level: FatigueKind::Dazed, penalty: -5 },
    ];
    assert(v@ =~= fatigue_track());
    v
}

/// A Wound level.
#[derive(Debug, Clone, Copy, PartialEq, Eq, Structural)]
pub enum WoundKind {
    Light,
    Medium,
    Heavy,
    Incapacitating,
    Dead,
}

impl WoundKind {
    /// The level's stable slug.
    pub open spec fn slug_spec(self) -> Seq<char> {
        match self {
            WoundKind::Light => "light"@,
            WoundKind::Medium => "medium"@,
            WoundKind::Heavy => "heavy"@,
            WoundKind::Incapacitating => "incapacitating"@,
            WoundKind::Dead => "dead"@,
        }
    }

    /// The level's stable slug.
    pub fn slug(&self) -> (r: &'static str)
        ensures
            r@ == self.slug_spec(),
    {
        match self {
            WoundKind::Light => "light",
            WoundKind::Medium => "medium",
            WoundKind::Heavy => "heavy",
            WoundKind::Incapacitating => "incapacitating",
            WoundKind::Dead => "dead",
        }
    }
}

/// One Wound level: the damage it spans (no upper end for Dead) and its
/// penalty (none once incapacitated).
#[derive(Debug, Clone, Copy, PartialEq, Eq, Structural)]
pub struct WoundBand {
    pub level: WoundKind,
    pub min: i64,
    pub max: Option<i64>,
    pub penalty: Option<i32>,
}

/// The damage span of one Wound level: `5 + Size` points (at least 1).
pub open spec fn wound_unit(entity: &Entity, ruleset: &Ruleset) -> int {
    let u = 5 + size_spec(entity, ruleset);
    if u < 1 { 1 } else { u }
}

/// The Wound bands for a span of `u`: Light 1–u (−1), Medium (−3), Heavy
/// (−5), Incapacitating, then Dead from `4u + 1`.
pub open spec fn wound_track(u: int) -> Seq<WoundBand> {
    seq![
        WoundBand { level: WoundKind::Light, min: 1i64, max: Some(u as i64), penalty: Some(-1i32) },
        WoundBand { level: WoundKind::Medium, min: (u + 1) as i64, max: Some((2 * u) as i64), penalty: Some(-3i32) },
        WoundBand { level: WoundKind::Heavy, min: (2 * u + 1) as i64, max: Some((3 * u) as i64), penalty: Some(-5i32) },
        WoundBand { level: WoundKind::Incapacitating, min: (3 * u + 1) as i64, max: Some((4 * u) as i64), penalty: None },
        WoundBand { level: WoundKind::Dead, min: (4 * u + 1) as i64, max: None, penalty: None },
    ]
}

/// The Wound track is cut in spans of `5 + Size` damage (at least 1): the
/// Light band runs from 1 to that unit, each band after it starts just past
/// the one before and spans the same unit, and Dead starts past four units.
pub proof fn law_wound_bands_span_five_plus_size(entity: &Entity, ruleset: &Ruleset)
    ensures
        ({
            let u: int = if 5 + size_spec(entity, ruleset) < 1 { 1 } else { 5 + size_spec(entity, ruleset) };
            let t = wound_track(wound_unit(entity, ruleset));
            &&& t.len() == 5
            &&& t[0].min == 1
            &&& t[0].max == Some(u as i64)
            &&& forall|k: int| 1 <= k < 4 ==> #[trigger] t[k].min == t[k - 1].max.unwrap() + 1
                && t[k].max.unwrap() - t[k].min + 1 == u
            &&& t[4].min == t[3].max.unwrap() + 1
            &&& t[4].max is None
            &&& t[4].min == 4 * u + 1
            &&& t[0].level == WoundKind::Light && t[0].penalty == Some(-1i32)
            &&& t[1].level == WoundKind::Medium && t[1].penalty == Some(-3i32)
            &&& t[2].level == WoundKind::Heavy && t[2].penalty == Some(-5i32)
            &&& t[3].level == WoundKind::Incapacitating && t[3].penalty is None
            &&& t[4].level == WoundKind::Dead && t[4].penalty is None
        }),
{
    let u: int = if 5 + size_spec(entity, ruleset) < 1 { 1 } else { 5 + size_spec(entity, ruleset) };
    assert(1 <= u <= 5 + 0x7fff_ffff);
    assert(wound_unit(entity, ruleset) == u);
}

/// The entity's Wound levels with their damage spans and penalties.
pub fn wound_ranges(entity: &Entity, ruleset: &Ruleset) -> (r: Vec<WoundBand>)
    ensures
        r@ == wound_track(wound_unit(entity, ruleset)),
{
    let sz = size(entity, ruleset) as i64;
    let u: i64 = if 5 + sz < 1 { 1 } else { 5 + sz };
    let v = vec![
        WoundBand { level: WoundKind::Light, min: 1, max: Some(u), penalty: Some(-1) },
        WoundBand { level: WoundKind::Medium, min: u + 1, max: Some(2 * u), penalty: Some(-3) },
        WoundBand { level: WoundKind::Heavy, min: 2 * u + 1, max: Some(3 * u), penalty: Some(-5) },
        WoundBand { level: WoundKind::Incapacitating, min: 3 * u + 1, max: Some(4 * u), penalty: None },
        WoundBand { level: WoundKind::Dead, min: 4 * u + 1, max: None, penalty: None },
    ];
    assert(v@ =~= wound_track(wound_unit(entity, ruleset)));
    v
}

} // verus!
