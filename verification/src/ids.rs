//! Official game identifiers.
//!
//! Every id here is the *in-game* id taken from the client localisation data;
//! player nicknames are never used as an identifier.

use vstd::prelude::*;
use crate::text::{normalize, normalized, spells};

verus! {

/// Identity id, e.g. `10110` (Lobotomy E.G.O::Solemn Lament Yi Sang).
#[derive(Clone, Debug, PartialEq, Eq, PartialOrd, Ord, Hash)]
pub struct IdentityId(pub String);

/// E.G.O id, e.g. `20109` (Solemn Lament Yi Sang).
#[derive(Clone, Debug, PartialEq, Eq, PartialOrd, Ord, Hash)]
pub struct EgoId(pub String);

/// Enemy id, e.g. `9567` (Butterfly of Entangled Lives::Imago).
#[derive(Clone, Debug, PartialEq, Eq, PartialOrd, Ord, Hash)]
pub struct EnemyId(pub String);

/// Skill id, e.g. `1011001`.
#[derive(Clone, Debug, PartialEq, Eq, PartialOrd, Ord, Hash)]
pub struct SkillId(pub String);

/// Runtime unit handle, stable within an encounter.
#[derive(Clone, Debug, PartialEq, Eq, PartialOrd, Ord, Hash)]
pub struct UnitId(pub String);

impl View for IdentityId {
    type V = Seq<char>;

    open spec fn view(&self) -> Seq<char> {
        self.0@
    }
}

impl View for EgoId {
    type V = Seq<char>;

    open spec fn view(&self) -> Seq<char> {
        self.0@
    }
}

impl View for EnemyId {
    type V = Seq<char>;

    open spec fn view(&self) -> Seq<char> {
        self.0@
    }
}

impl View for SkillId {
    type V = Seq<char>;

    open spec fn view(&self) -> Seq<char> {
        self.0@
    }
}

impl View for UnitId {
    type V = Seq<char>;

    open spec fn view(&self) -> Seq<char> {
        self.0@
    }
}

impl IdentityId {
    pub fn new(id: &str) -> (r: Self)
        ensures
            r@ == id@,
    {
        IdentityId(id.to_owned())
    }

    pub fn as_str(&self) -> (r: &str)
        ensures
            r@ == self@,
    {
        self.0.as_str()
    }

    /// Same id?
    pub fn same(&self, other: &Self) -> (b: bool)
        ensures
            b == (self@ == other@),
    {
        self.0 == other.0
    }
}

impl EgoId {
    pub fn new(id: &str) -> (r: Self)
        ensures
            r@ == id@,
    {
        EgoId(id.to_owned())
    }

    pub fn as_str(&self) -> (r: &str)
        ensures
            r@ == self@,
    {
        self.0.as_str()
    }

    /// Same id?
    pub fn same(&self, other: &Self) -> (b: bool)
        ensures
            b == (self@ == other@),
    {
        self.0 == other.0
    }
}

impl EnemyId {
    pub fn new(id: &str) -> (r: Self)
        ensures
            r@ == id@,
    {
        EnemyId(id.to_owned())
    }

    pub fn as_str(&self) -> (r: &str)
        ensures
            r@ == self@,
    {
        self.0.as_str()
    }

    /// Same id?
    pub fn same(&self, other: &Self) -> (b: bool)
        ensures
            b == (self@ == other@),
    {
        self.0 == other.0
    }
}

impl SkillId {
    pub fn new(id: &str) -> (r: Self)
        ensures
            r@ == id@,
    {
        SkillId(id.to_owned())
    }

    pub fn as_str(&self) -> (r: &str)
        ensures
            r@ == self@,
    {
        self.0.as_str()
    }

    /// Same id?
    pub fn same(&self, other: &Self) -> (b: bool)
        ensures
            b == (self@ == other@),
    {
        self.0 == other.0
    }

    /// Copy of the id (the view is kept).
    pub fn duplicate(&self) -> (r: Self)
        ensures
            r@ == self@,
    {
        SkillId(self.0.clone())
    }
}

impl UnitId {
    pub fn new(id: &str) -> (r: Self)
        ensures
            r@ == id@,
    {
        UnitId(id.to_owned())
    }

    pub fn as_str(&self) -> (r: &str)
        ensures
            r@ == self@,
    {
        self.0.as_str()
    }

    /// Same id?
    pub fn same(&self, other: &Self) -> (b: bool)
        ensures
            b == (self@ == other@),
    {
        self.0 == other.0
    }

    /// Copy of the id (the view is kept).
    pub fn duplicate(&self) -> (r: Self)
        ensures
            r@ == self@,
    {
        UnitId(self.0.clone())
    }
}

/// Sin affinity.  Order matches the in-game ordering and the data files.
#[derive(Clone, Copy, Debug, PartialEq, Eq, Structural, PartialOrd, Ord, Hash)]
pub enum Sin {
    Wrath,
    Lust,
    Sloth,
    Gluttony,
    Gloom,
    Pride,
    Envy,
}

/// Position of a sin in the in-game order.
pub open spec fn sin_index(s: Sin) -> int {
    match s {
        Sin::Wrath => 0,
        Sin::Lust => 1,
        Sin::Sloth => 2,
        Sin::Gluttony => 3,
        Sin::Gloom => 4,
        Sin::Pride => 5,
        Sin::Envy => 6,
    }
}

/// The sin a keyword of the data files names.
pub open spec fn sin_from_text(text: Seq<char>) -> Option<Sin> {
    let key = normalize(text);
    if key == "wrath"@ {
        Some(Sin::Wrath)
    } else if key == "lust"@ {
        Some(Sin::Lust)
    } else if key == "sloth"@ {
        Some(Sin::Sloth)
    } else if key == "gluttony"@ {
        Some(Sin::Gluttony)
    } else if key == "gloom"@ {
        Some(Sin::Gloom)
    } else if key == "pride"@ {
        Some(Sin::Pride)
    } else if key == "envy"@ {
        Some(Sin::Envy)
    } else {
        None
    }
}

impl Sin {
    pub const ALL: [Sin; 7] = [
        Sin::Wrath,
        Sin::Lust,
        Sin::Sloth,
        Sin::Gluttony,
        Sin::Gloom,
        Sin::Pride,
        Sin::Envy,
    ];

    pub fn index(self) -> (i: usize)
        ensures
            i == sin_index(self),
            i < 7,
    {
        match self {
            Sin::Wrath => 0,
            Sin::Lust => 1,
            Sin::Sloth => 2,
            Sin::Gluttony => 3,
            Sin::Gloom => 4,
            Sin::Pride => 5,
            Sin::Envy => 6,
        }
    }

    pub fn parse(text: &str) -> (r: Option<Sin>)
        ensures
            r == sin_from_text(text@),
    {
        let key = normalized(text);
        if spells(&key, "wrath") {
            Some(Sin::Wrath)
        } else if spells(&key, "lust") {
            Some(Sin::Lust)
        } else if spells(&key, "sloth") {
            Some(Sin::Sloth)
        } else if spells(&key, "gluttony") {
            Some(Sin::Gluttony)
        } else if spells(&key, "gloom") {
            Some(Sin::Gloom)
        } else if spells(&key, "pride") {
            Some(Sin::Pride)
        } else if spells(&key, "envy") {
            Some(Sin::Envy)
        } else {
            None
        }
    }
}

/// Physical damage type.
#[derive(Clone, Copy, Debug, PartialEq, Eq, Structural, PartialOrd, Ord, Hash)]
pub enum DamageType {
    Slash,
    Pierce,
    Blunt,
}

pub open spec fn damage_type_index(d: DamageType) -> int {
    match d {
        DamageType::Slash => 0,
        DamageType::Pierce => 1,
        DamageType::Blunt => 2,
    }
}

pub open spec fn damage_type_from_text(text: Seq<char>) -> Option<DamageType> {
    let key = normalize(text);
    if key == "slash"@ {
        Some(DamageType::Slash)
    } else if key == "pierce"@ {
        Some(DamageType::Pierce)
    } else if key == "blunt"@ {
        Some(DamageType::Blunt)
    } else {
        None
    }
}

impl DamageType {
    pub const ALL: [DamageType; 3] = [DamageType::Slash, DamageType::Pierce, DamageType::Blunt];

    pub fn index(self) -> (i: usize)
        ensures
            i == damage_type_index(self),
            i < 3,
    {
        match self {
            DamageType::Slash => 0,
            DamageType::Pierce => 1,
            DamageType::Blunt => 2,
        }
    }

    pub fn parse(text: &str) -> (r: Option<DamageType>)
        ensures
            r == damage_type_from_text(text@),
    {
        let key = normalized(text);
        if spells(&key, "slash") {
            Some(DamageType::Slash)
        } else if spells(&key, "pierce") {
            Some(DamageType::Pierce)
        } else if spells(&key, "blunt") {
            Some(DamageType::Blunt)
        } else {
            None
        }
    }
}

/// A skill's role, as listed in the skill slot.
#[derive(Clone, Copy, Debug, PartialEq, Eq, Structural)]
pub enum SkillSlot {
    Skill1,
    Skill2,
    Skill3,
    Defense,
}

pub open spec fn skill_slot_from_text(text: Seq<char>) -> Option<SkillSlot> {
    let key = normalize(text);
    if key == "skill1"@ {
        Some(SkillSlot::Skill1)
    } else if key == "skill2"@ {
        Some(SkillSlot::Skill2)
    } else if key == "skill3"@ {
        Some(SkillSlot::Skill3)
    } else if key == "defense"@ || key == "def"@ {
        Some(SkillSlot::Defense)
    } else {
        None
    }
}

impl SkillSlot {
    pub fn parse(text: &str) -> (r: Option<SkillSlot>)
        ensures
            r == skill_slot_from_text(text@),
    {
        let key = normalized(text);
        if spells(&key, "skill1") {
            Some(SkillSlot::Skill1)
        } else if spells(&key, "skill2") {
            Some(SkillSlot::Skill2)
        } else if spells(&key, "skill3") {
            Some(SkillSlot::Skill3)
        } else if spells(&key, "defense") || spells(&key, "def") {
            Some(SkillSlot::Defense)
        } else {
            None
        }
    }
}

/// Uptie tier (1..=4).  Uptie IV is the default used by high-end content.
#[derive(Clone, Copy, Debug, PartialEq, Eq, Structural, PartialOrd, Ord, Hash)]
pub struct Uptie(pub u8);

/// The tier clamped into 1..=4.
pub open spec fn uptie_tier(u: Uptie) -> int {
    if u.0 < 1 {
        1
    } else if u.0 > 4 {
        4
    } else {
        u.0 as int
    }
}

impl Uptie {
    /// Uptie IV.
    pub fn iv() -> (u: Uptie)
        ensures
            u.0 == 4,
    {
        Uptie(4)
    }

    /// Uptie III.
    pub fn iii() -> (u: Uptie)
        ensures
            u.0 == 3,
    {
        Uptie(3)
    }

    /// Zero-based index of the tier, out-of-range tiers clamped into 1..=4.
    pub fn index(self) -> (i: usize)
        ensures
            i == uptie_tier(self) - 1,
            i < 4,
    {
        let t: u8 = if self.0 < 1 {
            1
        } else if self.0 > 4 {
            4
        } else {
            self.0
        };
        (t - 1) as usize
    }
}

} // verus!
