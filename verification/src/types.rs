//! The entity model: what a saved character or covenant records, and the
//! catalogue data shapes its choices refer to.
use vstd::prelude::*;

verus! {

/// A slug-style catalogue id (`virtue.puissant_ability`, `art.creo`).
pub type Id = String;

/// The eight Characteristics, in the rulebook's canonical order.
#[derive(Debug, Clone, Copy, PartialEq, Eq, Structural)]
pub enum Characteristic {
    Int,
    Per,
    Str,
    Sta,
    Pre,
    Com,
    Dex,
    Qik,
}

/// The canonical Characteristic order.
pub open spec fn all_characteristics() -> Seq<Characteristic> {
    seq![
        Characteristic::Int,
        Characteristic::Per,
        Characteristic::Str,
        Characteristic::Sta,
        Characteristic::Pre,
        Characteristic::Com,
        Characteristic::Dex,
        Characteristic::Qik,
    ]
}

impl Characteristic {
    /// Every Characteristic in canonical order.
    pub fn all() -> (v: Vec<Characteristic>)
        ensures
            v@ == all_characteristics(),
    {
        let v = vec![
            Characteristic::Int,
            Characteristic::Per,
            Characteristic::Str,
            Characteristic::Sta,
            Characteristic::Pre,
            Characteristic::Com,
            Characteristic::Dex,
            Characteristic::Qik,
        ];
        assert(v@ =~= all_characteristics());
        v
    }

    pub open spec fn slug_spec(self) -> Seq<char> {
        match self {
            Characteristic::Int => "int"@,
            Characteristic::Per => "per"@,
            Characteristic::Str => "str"@,
            Characteristic::Sta => "sta"@,
            Characteristic::Pre => "pre"@,
            Characteristic::Com => "com"@,
            Characteristic::Dex => "dex"@,
            Characteristic::Qik => "qik"@,
        }
    }

    /// The short slug (`int`, `str`, ...), used to compose label keys.
    pub fn slug(&self) -> (r: &'static str)
        ensures
            r@ == self.slug_spec(),
    {
        match self {
            Characteristic::Int => "int",
            Characteristic::Per => "per",
            Characteristic::Str => "str",
            Characteristic::Sta => "sta",
            Characteristic::Pre => "pre",
            Characteristic::Com => "com",
            Characteristic::Dex => "dex",
            Characteristic::Qik => "qik",
        }
    }

    /// The catalogue id naming this Characteristic: `characteristic.<slug>`.
    pub open spec fn id_spec(self) -> Seq<char> {
        "characteristic."@ + self.slug_spec()
    }
}

/// The Characteristic a catalogue id names, if any.
pub open spec fn characteristic_from_id_spec(id: Seq<char>) -> Option<Characteristic> {
    if id == Characteristic::Int.id_spec() { Some(Characteristic::Int) }
    else if id == Characteristic::Per.id_spec() { Some(Characteristic::Per) }
    else if id == Characteristic::Str.id_spec() { Some(Characteristic::Str) }
    else if id == Characteristic::Sta.id_spec() { Some(Characteristic::Sta) }
    else if id == Characteristic::Pre.id_spec() { Some(Characteristic::Pre) }
    else if id == Characteristic::Com.id_spec() { Some(Characteristic::Com) }
    else if id == Characteristic::Dex.id_spec() { Some(Characteristic::Dex) }
    else if id == Characteristic::Qik.id_spec() { Some(Characteristic::Qik) }
    else { None }
}

/// The Characteristic a catalogue id (`characteristic.str`) names, if any.
pub fn characteristic_from_id(id: &str) -> (r: Option<Characteristic>)
    ensures
        r == characteristic_from_id_spec(id@),
{
    let all = Characteristic::all();
    let mut i: usize = 0;
    while i < all.len()
        invariant
            all@ == all_characteristics(),
            i <= all.len(),
            forall|j: int| 0 <= j < i ==> id@ != (#[trigger] all@[j]).id_spec(),
        decreases all.len() - i,
    {
        let c = all[i];
        let candidate = crate::text::concat("characteristic.", c.slug());
        if crate::text::str_eq(id, candidate.as_str()) {
            return Some(c);
        }
        i += 1;
    }
    None
}

/// A Virtue/Flaw (or covenant Boon/Hook) kind.
#[derive(Debug, Clone, Copy, PartialEq, Eq, Structural)]
pub enum ItemKind {
    Virtue,
    Flaw,
    Boon,
    Hook,
}

/// A point item's magnitude.
#[derive(Debug, Clone, Copy, PartialEq, Eq, Structural)]
pub enum Magnitude {
    Free,
    Minor,
    Major,
}

impl Magnitude {
    pub open spec fn slug_spec(self) -> Seq<char> {
        match self {
            Magnitude::Free => "free"@,
            Magnitude::Minor => "minor"@,
            Magnitude::Major => "major"@,
        }
    }

    /// The slug used to compose the `magnitude-<slug>` label key.
    pub fn slug(&self) -> (r: &'static str)
        ensures
            r@ == self.slug_spec(),
    {
        match self {
            Magnitude::Free => "free",
            Magnitude::Minor => "minor",
            Magnitude::Major => "major",
        }
    }

    /// The point cost of the magnitude: a Major item is 3 points, a Minor one
    /// 1, a Free one 0.
    pub open spec fn points_spec(self) -> nat {
        match self {
            Magnitude::Free => 0,
            Magnitude::Minor => 1,
            Magnitude::Major => 3,
        }
    }

    /// The points a selection of this magnitude is worth.
    pub fn points(&self) -> (r: u32)
        ensures
            r == self.points_spec(),
    {
        match self {
            Magnitude::Free => 0,
            Magnitude::Minor => 1,
            Magnitude::Major => 3,
        }
    }
}

/// The categories an Ability is filed under.
#[derive(Debug, Clone, Copy, PartialEq, Eq, Structural)]
pub enum AbilityCategory {
    General,
    Academic,
    Arcane,
    Martial,
    Supernatural,
}

/// Every Ability category, in canonical order.
pub open spec fn all_ability_categories() -> Seq<AbilityCategory> {
    seq![
        AbilityCategory::General,
        AbilityCategory::Academic,
        AbilityCategory::Arcane,
        AbilityCategory::Martial,
        AbilityCategory::Supernatural,
    ]
}

impl AbilityCategory {
    /// Every Ability category, in canonical order.
    pub fn all() -> (v: Vec<AbilityCategory>)
        ensures
            v@ == all_ability_categories(),
    {
        let v = vec![
            AbilityCategory::General,
            AbilityCategory::Academic,
            AbilityCategory::Arcane,
            AbilityCategory::Martial,
            AbilityCategory::Supernatural,
        ];
        assert(v@ =~= all_ability_categories());
        v
    }

    pub open spec fn slug_spec(self) -> Seq<char> {
        match self {
            AbilityCategory::General => "general"@,
            AbilityCategory::Academic => "academic"@,
            AbilityCategory::Arcane => "arcane"@,
            AbilityCategory::Martial => "martial"@,
            AbilityCategory::Supernatural => "supernatural"@,
        }
    }

    /// The slug used to compose the `ability-category-<slug>` label key.
    pub fn slug(&self) -> (r: &'static str)
        ensures
            r@ == self.slug_spec(),
    {
        match self {
            AbilityCategory::General => "general",
            AbilityCategory::Academic => "academic",
            AbilityCategory::Arcane => "arcane",
            AbilityCategory::Martial => "martial",
            AbilityCategory::Supernatural => "supernatural",
        }
    }
}

/// Technique or Form.
#[derive(Debug, Clone, Copy, PartialEq, Eq, Structural)]
pub enum ArtType {
    Technique,
    Form,
}

impl ArtType {
    pub open spec fn slug_spec(self) -> Seq<char> {
        match self {
            ArtType::Technique => "technique"@,
            ArtType::Form => "form"@,
        }
    }

    /// The slug used to compose the `art-type-<slug>` label key.
    pub fn slug(&self) -> (r: &'static str)
        ensures
            r@ == self.slug_spec(),
    {
        match self {
            ArtType::Technique => "technique",
            ArtType::Form => "form",
        }
    }
}

/// A supernatural Realm.
#[derive(Debug, Clone, Copy, PartialEq, Eq, Structural)]
pub enum Realm {
    Magic,
    Faerie,
    Divine,
    Infernal,
}

impl Realm {
    pub open spec fn slug_spec(self) -> Seq<char> {
        match self {
            Realm::Magic => "magic"@,
            Realm::Faerie => "faerie"@,
            Realm::Divine => "divine"@,
            Realm::Infernal => "infernal"@,
        }
    }

    /// The slug used to compose the `realm-<slug>` label key.
    pub fn slug(&self) -> (r: &'static str)
        ensures
            r@ == self.slug_spec(),
    {
        match self {
            Realm::Magic => "magic",
            Realm::Faerie => "faerie",
            Realm::Divine => "divine",
            Realm::Infernal => "infernal",
        }
    }
}

/// The audience of a Reputation.
#[derive(Debug, Clone, Copy, PartialEq, Eq, Structural)]
pub enum ReputationType {
    Local,
    Ecclesiastical,
    Hermetic,
    Academic,
}

impl ReputationType {
    pub open spec fn slug_spec(self) -> Seq<char> {
        match self {
            ReputationType::Local => "local"@,
            ReputationType::Ecclesiastical => "ecclesiastical"@,
            ReputationType::Hermetic => "hermetic"@,
            ReputationType::Academic => "academic"@,
        }
    }

    /// The slug used to compose the `reputation-type-<slug>` label key.
    pub fn slug(&self) -> (r: &'static str)
        ensures
            r@ == self.slug_spec(),
    {
        match self {
            ReputationType::Local => "local",
            ReputationType::Ecclesiastical => "ecclesiastical",
            ReputationType::Hermetic => "hermetic",
            ReputationType::Academic => "academic",
        }
    }
}

/// Where a Longevity Ritual came from.
#[derive(Debug, Clone, Copy, PartialEq, Eq, Structural)]
pub enum LongevitySource {
    SelfMade,
    External,
}

impl LongevitySource {
    pub open spec fn slug_spec(self) -> Seq<char> {
        match self {
            LongevitySource::SelfMade => "self_made"@,
            LongevitySource::External => "external"@,
        }
    }

    /// The slug used to compose the `longevity-source-<slug>` label key.
    pub fn slug(&self) -> (r: &'static str)
        ensures
            r@ == self.slug_spec(),
    {
        match self {
            LongevitySource::SelfMade => "self_made",
            LongevitySource::External => "external",
        }
    }
}

/// How serious an aging Crisis is.
#[derive(Debug, Clone, Copy, PartialEq, Eq, Structural)]
pub enum CrisisSeverity {
    Minor,
    Serious,
    Major,
    Critical,
    Terminal,
}

impl CrisisSeverity {
    pub open spec fn slug_spec(self) -> Seq<char> {
        match self {
            CrisisSeverity::Minor => "minor"@,
            CrisisSeverity::Serious => "serious"@,
            CrisisSeverity::Major => "major"@,
            CrisisSeverity::Critical => "critical"@,
            CrisisSeverity::Terminal => "terminal"@,
        }
    }

    /// The slug used to compose the `crisis-severity-<slug>` label key.
    pub fn slug(&self) -> (r: &'static str)
        ensures
            r@ == self.slug_spec(),
    {
        match self {
            CrisisSeverity::Minor => "minor",
            CrisisSeverity::Serious => "serious",
            CrisisSeverity::Major => "major",
            CrisisSeverity::Critical => "critical",
            CrisisSeverity::Terminal => "terminal",
        }
    }
}

/// What an aging modifier does to the character.
#[derive(Debug, Clone, Copy, PartialEq, Eq, Structural)]
pub enum AgingEffect {
    /// Aging points do not lower Characteristics.
    NoAging,
    /// The character does not appear to age.
    NoApparentAging,
    /// A flat modifier to aging rolls.
    RollModifier,
}

/// Character or covenant.
#[derive(Debug, Clone, Copy, PartialEq, Eq, Structural)]
pub enum EntityKind {
    Character,
    Covenant,
}

/// The view of a selection: its item id and its parameter values.
pub struct SelectionView {
    pub item_ref: Seq<char>,
    pub params: Seq<(Seq<char>, Seq<char>)>,
}

/// One chosen Virtue/Flaw: the item id and its parameter values, kept in
/// parameter-key order.
#[derive(Debug, PartialEq, Eq)]
pub struct Selection {
    pub item_ref: Id,
    pub params: Vec<(String, Id)>,
}

/// The view of a list of `(key, value)` string pairs.
pub open spec fn pairs_view(ps: Seq<(String, String)>) -> Seq<(Seq<char>, Seq<char>)> {
    ps.map_values(|p: (String, String)| (p.0@, p.1@))
}

impl View for Selection {
    type V = SelectionView;

    open spec fn view(&self) -> SelectionView {
        SelectionView { item_ref: self.item_ref@, params: pairs_view(self.params@) }
    }
}

/// The views of a list of selections.
pub open spec fn selection_views(s: Seq<Selection>) -> Seq<SelectionView> {
    s.map_values(|x: Selection| x@)
}

/// The value of the first pair keyed `key`. Keyed lists (labels, selection
/// parameters, per-Characteristic values) are read first-match-wins: a key
/// listed twice is read at its first entry and the later ones are ignored.
pub open spec fn lookup(ps: Seq<(Seq<char>, Seq<char>)>, key: Seq<char>) -> Option<Seq<char>>
    decreases ps.len(),
{
    if ps.len() == 0 {
        None
    } else {
        match lookup(ps.drop_last(), key) {
            Some(v) => Some(v),
            None => if ps.last().0 == key { Some(ps.last().1) } else { None },
        }
    }
}

/// A lookup that succeeds on a prefix succeeds, with the same value, on the
/// whole list.
pub proof fn lemma_lookup_prefix(ps: Seq<(Seq<char>, Seq<char>)>, k: int, key: Seq<char>)
    requires
        0 <= k <= ps.len(),
        lookup(ps.take(k), key) is Some,
    ensures
        lookup(ps, key) == lookup(ps.take(k), key),
    decreases ps.len(),
{
    if k < ps.len() {
        assert(ps.drop_last().take(k) =~= ps.take(k));
        lemma_lookup_prefix(ps.drop_last(), k, key);
    } else {
        assert(ps.take(k) =~= ps);
    }
}

/// Looks up `key` in a list of string pairs; the first pair wins.
pub fn lookup_pair<'a>(ps: &'a Vec<(String, String)>, key: &str) -> (r: Option<&'a String>)
    ensures
        r matches Some(v) ==> lookup(pairs_view(ps@), key@) == Some(v@),
        r is None ==> lookup(pairs_view(ps@), key@) is None,
{
    let mut i: usize = 0;
    while i < ps.len()
        invariant
            i <= ps.len(),
            lookup(pairs_view(ps@.take(i as int)), key@) is None,
        decreases ps.len() - i,
    {
        proof {
            assert(pairs_view(ps@.take(i + 1)).drop_last() =~= pairs_view(ps@.take(i as int)));
        }
        if crate::text::str_eq(ps[i].0.as_str(), key) {
            proof {
                assert(pairs_view(ps@).take(i + 1) =~= pairs_view(ps@.take(i + 1)));
                lemma_lookup_prefix(pairs_view(ps@), i + 1, key@);
            }
            return Some(&ps[i].1);
        }
        i += 1;
    }
    assert(ps@.take(ps.len() as int) =~= ps@);
    None
}

/// Copies a list of string pairs.
pub fn copy_pairs(ps: &Vec<(String, String)>) -> (r: Vec<(String, String)>)
    ensures
        pairs_view(r@) == pairs_view(ps@),
{
    let mut r: Vec<(String, String)> = Vec::new();
    let mut i: usize = 0;
    while i < ps.len()
        invariant
            i <= ps.len(),
            r@.len() == i,
            pairs_view(r@) =~= pairs_view(ps@.take(i as int)),
        decreases ps.len() - i,
    {
        let k = ps[i].0.clone();
        let v = ps[i].1.clone();
        let ghost old_r = r@;
        r.push((k, v));
        proof {
            assert(r@ == old_r.push((k, v)));
            assert(k == ps@[i as int].0);
            assert(v == ps@[i as int].1);
            assert(pairs_view(r@)[i as int] == (k@, v@));
            assert(pairs_view(ps@.take(i + 1))[i as int] == (k@, v@));
            assert forall|j: int| 0 <= j < i + 1 implies #[trigger] pairs_view(r@)[j] == pairs_view(ps@.take(i + 1))[j] by {
                if j < i {
                    assert(pairs_view(old_r)[j] == pairs_view(ps@.take(i as int))[j]);
                }
            }
        }
        i += 1;
        assert(pairs_view(r@) =~= pairs_view(ps@.take(i as int)));
    }
    assert(ps@.take(ps.len() as int) =~= ps@);
    r
}

/// Whether two pair lists hold the same pairs in the same order.
pub fn same_pairs(a: &Vec<(String, String)>, b: &Vec<(String, String)>) -> (r: bool)
    ensures
        r == (pairs_view(a@) == pairs_view(b@)),
{
    if a.len() != b.len() {
        assert(pairs_view(a@).len() != pairs_view(b@).len());
        return false;
    }
    let mut i: usize = 0;
    while i < a.len()
        invariant
            a.len() == b.len(),
            i <= a.len(),
            forall|j: int| 0 <= j < i ==> pairs_view(a@)[j] == pairs_view(b@)[j],
        decreases a.len() - i,
    {
        let same = crate::text::str_eq(a[i].0.as_str(), b[i].0.as_str())
            && crate::text::str_eq(a[i].1.as_str(), b[i].1.as_str());
        if !same {
            assert(pairs_view(a@)[i as int] != pairs_view(b@)[i as int]);
            return false;
        }
        i += 1;
    }
    assert(pairs_view(a@) =~= pairs_view(b@));
    true
}

impl Selection {
    /// A parameterless selection of `item_ref`.
    pub fn new(item_ref: Id) -> (s: Selection)
        ensures
            s@.item_ref == item_ref@,
            s@.params == Seq::<(Seq<char>, Seq<char>)>::empty(),
    {
        let s = Selection { item_ref, params: Vec::new() };
        assert(s@.params =~= Seq::<(Seq<char>, Seq<char>)>::empty());
        s
    }

    /// A selection of `item_ref` with the given parameter values.
    pub fn with_params(item_ref: Id, params: Vec<(String, Id)>) -> (s: Selection)
        ensures
            s@.item_ref == item_ref@,
            s@.params == pairs_view(params@),
    {
        Selection { item_ref, params }
    }

    /// The value chosen for parameter `key`, if any.
    pub fn param(&self, key: &str) -> (r: Option<&Id>)
        ensures
            r matches Some(v) ==> lookup(self@.params, key@) == Some(v@),
            r is None ==> lookup(self@.params, key@) is None,
    {
        lookup_pair(&self.params, key)
    }

    /// A copy of this selection.
    pub fn copy(&self) -> (r: Selection)
        ensures
            r@ == self@,
    {
        Selection { item_ref: self.item_ref.clone(), params: copy_pairs(&self.params) }
    }

    /// Whether two selections name the same item with the same parameters.
    pub fn same_as(&self, other: &Selection) -> (r: bool)
        ensures
            r == (self@ == other@),
    {
        crate::text::str_eq(self.item_ref.as_str(), other.item_ref.as_str())
            && same_pairs(&self.params, &other.params)
    }
}

pub proof fn lemma_selection_views_push(s: Seq<Selection>, x: Selection)
    ensures
        selection_views(s.push(x)) == selection_views(s).push(x@),
{
    assert(selection_views(s.push(x)) =~= selection_views(s).push(x@));
}

pub proof fn lemma_selection_views_take(s: Seq<Selection>, i: int)
    requires
        0 <= i < s.len(),
    ensures
        selection_views(s.take(i + 1)) == selection_views(s.take(i)).push(s[i]@),
{
    assert(s.take(i + 1) =~= s.take(i).push(s[i]));
    lemma_selection_views_push(s.take(i), s[i]);
}

/// Copies a list of selections.
pub fn copy_selections(s: &Vec<Selection>) -> (r: Vec<Selection>)
    ensures
        selection_views(r@) == selection_views(s@),
{
    let mut r: Vec<Selection> = Vec::new();
    let mut i: usize = 0;
    while i < s.len()
        invariant
            i <= s.len(),
            r@.len() == i,
            selection_views(r@) =~= selection_views(s@.take(i as int)),
        decreases s.len() - i,
    {
        let c = s[i].copy();
        let ghost old_r = r@;
        r.push(c);
        proof {
            assert forall|j: int| 0 <= j < i + 1 implies #[trigger] selection_views(r@)[j] == selection_views(s@.take(i + 1))[j] by {
                if j < i {
                    assert(selection_views(old_r)[j] == selection_views(s@.take(i as int))[j]);
                }
            }
        }
        i += 1;
        assert(selection_views(r@) =~= selection_views(s@.take(i as int)));
    }
    assert(s@.take(s.len() as int) =~= s@);
    r
}

/// A Might Score: its Realm and score.
#[derive(Debug, Clone, Copy, PartialEq, Eq, Structural)]
pub struct MightScore {
    pub realm: Realm,
    pub score: u8,
}

/// A data-declared mechanical effect of a Virtue/Flaw.
#[derive(Debug)]
pub enum Effect {
    /// A flat bonus to the Ability named by the selection's `param`.
    AbilityBonus { param: String, amount: i16 },
    /// Raises (positive) or lowers (negative) a Characteristic's buy limit.
    CharacteristicLimit { param: String, amount: i16 },
    /// A flat bonus to the Art named by the selection's `param`.
    ArtBonus { param: String, amount: i16 },
    /// An Affinity with the Ability named by `param`.
    AffinityAbilityCost { param: String, counts_as_num: u8, counts_as_den: u8 },
    /// An Affinity with the Art named by `param`.
    AffinityArtCost { param: String, counts_as_num: u8, counts_as_den: u8 },
    /// A restricted experience pool for the listed Abilities or categories.
    RestrictedAbilityXp { amount: u32, abilities: Vec<Id>, categories: Vec<AbilityCategory> },
    /// Characteristic-buy points (may be negative).
    CharacteristicPoints { amount: i16 },
    /// A free starting score in a fixed Ability.
    AbilityScoreGrant { ability: Id, amount: u8 },
    /// Extra (or fewer) levels of spells.
    SpellLevels { amount: i16 },
    /// Extra (or fewer) general experience points.
    GeneralXp { amount: i16 },
    /// Replaces the later-life experience rate.
    LaterLifeXpRate { amount: u32 },
    /// Permission to learn the listed Abilities or categories.
    AbilityAuthorization { abilities: Vec<Id>, categories: Vec<AbilityCategory> },
    /// Narrows the age cap of locality-dependent Abilities to `num/den`.
    LocalityAbilityCapFraction { num: u8, den: u8 },
    /// Extra Confidence score and points.
    ConfidenceBonus { score: i8, points: i8 },
    /// A Spell Mastery experience pool.
    SpellMasteryXp { amount: u16 },
    /// A free mastery floor on every spell, and a mastery Affinity.
    GrantsSpellMastery { score: u8, advancement_num: u8, advancement_den: u8 },
    /// Free Virtues/Flaws granted by this one.
    GrantsSelection { items: Vec<Id> },
    /// Enchanted-device levels.
    ItemLevelBudget { amount: u16 },
    /// A masterpiece enchanted item.
    MasterpieceItem,
    /// True Faith.
    TrueFaithGrant { score: u8 },
    /// Warping Points (the declared score is informational).
    WarpingGrant { score: u8, points: u16 },
    /// A Size change.
    SizeDelta { amount: i8 },
    /// A free change to a Characteristic's effective score.
    CharacteristicScoreDelta { characteristic: Id, amount: i8 },
    /// An Affinity covering every instance of the listed Abilities.
    GroupAffinityCost { abilities: Vec<Id>, counts_as_num: u8, counts_as_den: u8 },
    /// A starting Reputation.
    GrantsReputation { kind: Option<ReputationType>, score: u8 },
    /// A Might Score.
    MightGrant { realm: Realm, score: u8 },
    /// Supernatural power levels.
    PowerLevels { amount: u16 },
    /// A Magical Focus in the field named by `param`.
    MagicalFocus { param: String, major: bool },
    /// A modifier to Casting Totals.
    CastingTotalMod { amount: i8 },
    /// A modifier to Lab Totals.
    LabTotalMod { amount: i8 },
    /// A Deficient Art.
    DeficientArt { param: String },
    /// Halves magic totals.
    MagicTotalHalving,
    /// A modifier to Soak.
    SoakMod { amount: i8 },
    /// A modifier to combat totals.
    CombatMod { amount: i8 },
    /// A modifier to wound and fatigue penalties.
    HealthMod { amount: i8 },
    /// A modifier to Magic Resistance.
    MagicResistanceMod { amount: i8 },
    /// An aging modifier.
    AgingMod { kind: AgingEffect, amount: i8 },
    /// A modifier to advancement totals.
    AdvancementMod { amount: i8 },
    /// A special casting mode.
    SpecialCastingMod { amount: i8 },
    /// A modifier to Ability rolls.
    AbilityRollMod { amount: i8 },
    /// Elemental Magic: XP redistributed between the listed Forms.
    ElementalMagic { forms: Vec<Id> },
}

} // verus!
