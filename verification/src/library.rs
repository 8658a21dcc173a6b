//! Typed view over the generated data library (identities, E.G.O, enemies,
//! statuses).  Each record keeps its provenance in `sources` and lists anything
//! the pipeline could not read in `unparsed`, which strict mode refuses to run.

use vstd::prelude::*;
use crate::ids::{
    damage_type_from_text, sin_from_text, skill_slot_from_text, uptie_tier, DamageType, Sin,
    SkillSlot, Uptie,
};
use crate::keyed::StrMap;

verus! {

#[derive(Clone, Debug)]
pub struct SourceRecord {
    pub kind: String,
    pub url: Option<String>,
    pub language: Option<String>,
    pub id: Option<String>,
    pub verification: Option<String>,
}

#[derive(Clone, Debug)]
pub struct PassiveRecord {
    pub kind: String,
    pub uptie_from: u8,
    pub text: String,
    pub raw_key: Option<String>,
}

#[derive(Clone, Debug)]
pub struct SkillTier {
    pub base_power: Option<i32>,
    pub coin_power: Option<i32>,
    pub coins: Option<u32>,
    pub offense_level_mod: Option<i32>,
    pub attack_weight: Option<u32>,
    pub defense_level_mod: Option<i32>,
    pub sin_affinity: Option<String>,
    pub skill_amount: Option<u32>,
    pub on_use_text: String,
    pub coin_texts: Vec<String>,
    pub tags: Vec<String>,
}

#[derive(Clone, Debug)]
pub struct SkillRecord {
    pub id: String,
    pub slot: String,
    pub name: Option<String>,
    pub name_en: Option<String>,
    pub name_zh: Option<String>,
    /// The damage type (`type` in the data files).
    pub kind: Option<String>,
    pub rank: Option<u8>,
    /// Uptie tier ("1".."4") -> numbers of that tier.
    pub upties: StrMap<SkillTier>,
}

/// The key a tier is stored under: the clamped tier as a decimal digit.
pub open spec fn tier_key(u: Uptie) -> Seq<char> {
    seq![(('0' as int) + uptie_tier(u)) as char]
}

/// The sin named by an optional text.
pub open spec fn sin_of_text(t: Option<String>) -> Option<Sin> {
    match t {
        Some(s) => sin_from_text(s@),
        None => None,
    }
}

/// The damage type named by an optional text.
pub open spec fn damage_type_of_text(t: Option<String>) -> Option<DamageType> {
    match t {
        Some(s) => damage_type_from_text(s@),
        None => None,
    }
}

/// The first of the options that is present, else `fallback`.
pub open spec fn first_name(a: Option<String>, b: Option<String>, fallback: Seq<char>) -> Seq<char> {
    match a {
        Some(s) => s@,
        None => match b {
            Some(t) => t@,
            None => fallback,
        },
    }
}

fn tier_digit(uptie: Uptie) -> (s: &'static str)
    ensures
        s@ == tier_key(uptie),
{
    proof {
        reveal_strlit("1");
        reveal_strlit("2");
        reveal_strlit("3");
        reveal_strlit("4");
    }
    let t: u8 = if uptie.0 < 1 {
        1
    } else if uptie.0 > 4 {
        4
    } else {
        uptie.0
    };
    let s = if t == 1 {
        "1"
    } else if t == 2 {
        "2"
    } else if t == 3 {
        "3"
    } else {
        "4"
    };
    assert(s@ =~= tier_key(uptie));
    s
}

impl SkillRecord {
    /// The numbers of the tier `uptie` (clamped into 1..=4).
    pub fn tier(&self, uptie: Uptie) -> (r: Option<&SkillTier>)
        requires
            self.upties.wf(),
        ensures
            match r {
                Some(t) => self.upties@.contains_key(tier_key(uptie)) && *t
                    == self.upties@[tier_key(uptie)],
                None => !self.upties@.contains_key(tier_key(uptie)),
            },
    {
        self.upties.get(tier_digit(uptie))
    }

    /// Sin affinity of the tier `uptie`.
    pub fn sin(&self, uptie: Uptie) -> (r: Option<Sin>)
        requires
            self.upties.wf(),
        ensures
            r == (if self.upties@.contains_key(tier_key(uptie)) {
                sin_of_text(self.upties@[tier_key(uptie)].sin_affinity)
            } else {
                None
            }),
    {
        match self.tier(uptie) {
            Some(t) => match &t.sin_affinity {
                Some(s) => Sin::parse(s.as_str()),
                None => None,
            },
            None => None,
        }
    }

    /// Damage type of the skill (the same for every tier).
    pub fn damage_type(&self, _uptie: Uptie) -> (r: Option<DamageType>)
        ensures
            r == damage_type_of_text(self.kind),
    {
        match &self.kind {
            Some(s) => DamageType::parse(s.as_str()),
            None => None,
        }
    }

    pub fn slot(&self) -> (r: Option<SkillSlot>)
        ensures
            r == skill_slot_from_text(self.slot@),
    {
        SkillSlot::parse(self.slot.as_str())
    }

    /// English name, else the localised name, else the id.
    pub fn display_name(&self) -> (r: String)
        ensures
            r@ == first_name(self.name_en, self.name, self.id@),
    {
        match &self.name_en {
            Some(n) => n.clone(),
            None => match &self.name {
                Some(n) => n.clone(),
                None => self.id.clone(),
            },
        }
    }
}

#[derive(Clone, Debug)]
pub struct EgoSkill {
    pub name: Option<String>,
    pub sin: Option<String>,
    /// The damage type (`type` in the data files).
    pub kind: Option<String>,
    pub base_power: Option<i32>,
    pub coin_power: Option<i32>,
    pub coins: Option<u32>,
    pub attack_weight: Option<u32>,
    pub offense_level_mod: Option<i32>,
    pub on_use_text: String,
    pub coin_texts: Vec<String>,
    pub reuse: bool,
}

impl EgoSkill {
    /// Sin affinity of the E.G.O Skill.
    pub fn sin(&self) -> (r: Option<Sin>)
        ensures
            r == sin_of_text(self.sin),
    {
        match &self.sin {
            Some(s) => Sin::parse(s.as_str()),
            None => None,
        }
    }
}

#[derive(Clone, Debug)]
pub struct EgoRecord {
    pub id: String,
    pub name_en: Option<String>,
    pub name_zh: Option<String>,
    pub wiki_title: Option<String>,
    pub risk: Option<String>,
    pub sin_affinity: Option<String>,
    pub awakening_sp: Option<i32>,
    pub corrosion_sp: Option<i32>,
    /// Sin key -> resources the E.G.O costs.
    pub resource_cost: StrMap<i32>,
    pub awakening: Option<EgoSkill>,
    pub corrosion: Option<EgoSkill>,
    pub unparsed: Vec<String>,
    pub sources: Vec<SourceRecord>,
}

#[derive(Clone, Debug)]
pub struct EnemySkillRecord {
    pub id: Option<String>,
    pub name: Option<String>,
    pub hint: Option<i32>,
    pub level: Option<i32>,
    pub sin: Option<String>,
    pub rank: Option<i32>,
    /// The damage type (`type` in the data files).
    pub kind: Option<String>,
    pub base_power: Option<i32>,
    pub coin_power: Option<i32>,
    pub coins: Option<u32>,
    pub attack_weight: Option<u32>,
    pub offense_level_mod: Option<i32>,
    pub on_use_text: String,
    pub coin_texts: Vec<String>,
}

impl EnemySkillRecord {
    pub fn sin(&self) -> (r: Option<Sin>)
        ensures
            r == sin_of_text(self.sin),
    {
        match &self.sin {
            Some(s) => Sin::parse(s.as_str()),
            None => None,
        }
    }

    pub fn damage_type(&self) -> (r: Option<DamageType>)
        ensures
            r == damage_type_of_text(self.kind),
    {
        match &self.kind {
            Some(s) => DamageType::parse(s.as_str()),
            None => None,
        }
    }

    /// The name, or `?` for a record without one.
    pub fn display_name(&self) -> (r: String)
        ensures
            r@ == first_name(self.name, None, "?"@),
    {
        match &self.name {
            Some(n) => n.clone(),
            None => "?".to_owned(),
        }
    }

    /// Official skill id (falls back to the display name for records the
    /// pipeline could not match to an in-game id).
    pub fn skill_id(&self) -> (r: String)
        ensures
            r@ == first_name(self.id, self.name, "?"@),
    {
        match &self.id {
            Some(i) => i.clone(),
            None => self.display_name(),
        }
    }
}

#[derive(Clone, Debug)]
pub struct EnemyPassiveRecord {
    pub name: Option<String>,
    pub hint: Option<i32>,
    pub text: String,
}

#[derive(Clone, Debug)]
pub struct StatusRecord {
    pub key: String,
    pub name_en: Option<String>,
    pub name_zh: Option<String>,
    pub wiki_name: Option<String>,
    pub text_en: String,
    pub text_zh: String,
    pub source_kind: Option<String>,
    pub sources: Vec<SourceRecord>,
}

#[derive(Clone, Debug)]
pub enum LibraryError {
    Io(String),
    Parse(String),
}

impl LibraryError {
    /// The error as it is printed.
    pub fn to_string(&self) -> (m: String)
        ensures
            m@ == match self {
                LibraryError::Io(e) => "io error: "@ + e@,
                LibraryError::Parse(e) => "parse error: "@ + e@,
            },
    {
        match self {
            LibraryError::Io(e) => {
                let mut m = String::from_str("io error: ");
                m.append(e.as_str());
                m
            },
            LibraryError::Parse(e) => {
                let mut m = String::from_str("parse error: ");
                m.append(e.as_str());
                m
            },
        }
    }
}

} // verus!
