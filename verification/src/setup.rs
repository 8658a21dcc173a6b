//! Encounter construction helpers: the fixed content of the plan, resource
//! keys and the skill composition a deck is built from.

use vstd::prelude::*;
use crate::ids::{sin_index, EgoId, Sin, SkillId, SkillSlot, Uptie};
use crate::library::{tier_key, SkillRecord};
use crate::state::{entries_view, positive, SkillDeck};
use crate::text::same_text;

pub mod fixed;

verus! {

pub const TEAM_SIZE_CAP: usize = 6;

#[derive(Clone, Debug)]
pub enum SetupError {
    UnknownIdentity(String),
    UnknownEnemy(String),
    MissingSkill(String),
    MissingField(String),
}

impl SetupError {
    /// The error as it is printed.
    pub fn to_string(&self) -> (m: String)
        ensures
            m@ == match self {
                SetupError::UnknownIdentity(id) => "unknown identity id "@ + id@,
                SetupError::UnknownEnemy(id) => "unknown enemy id "@ + id@,
                SetupError::MissingSkill(id) => "identity "@ + id@ + " has no usable skills"@,
                SetupError::MissingField(what) => "missing library field: "@ + what@,
            },
    {
        match self {
            SetupError::UnknownIdentity(id) => {
                let mut m = String::from_str("unknown identity id ");
                m.append(id.as_str());
                m
            },
            SetupError::UnknownEnemy(id) => {
                let mut m = String::from_str("unknown enemy id ");
                m.append(id.as_str());
                m
            },
            SetupError::MissingSkill(id) => {
                let mut m = String::from_str("identity ");
                m.append(id.as_str());
                m.append(" has no usable skills");
                m
            },
            SetupError::MissingField(what) => {
                let mut m = String::from_str("missing library field: ");
                m.append(what.as_str());
                m
            },
        }
    }
}

/// Resource key of a sin.
pub open spec fn sin_key_of(sin: Sin) -> Seq<char> {
    match sin {
        Sin::Wrath => "wrath"@,
        Sin::Lust => "lust"@,
        Sin::Sloth => "sloth"@,
        Sin::Gluttony => "gluttony"@,
        Sin::Gloom => "gloom"@,
        Sin::Pride => "pride"@,
        Sin::Envy => "envy"@,
    }
}

pub fn sin_key(sin: Sin) -> (s: &'static str)
    ensures
        s@ == sin_key_of(sin),
        s@ == crate::battle::sin_key_at(sin_index(sin) as u32),
{
    match sin {
        Sin::Wrath => "wrath",
        Sin::Lust => "lust",
        Sin::Sloth => "sloth",
        Sin::Gluttony => "gluttony",
        Sin::Gloom => "gloom",
        Sin::Pride => "pride",
        Sin::Envy => "envy",
    }
}

/// The id of "no skill".
pub fn empty_skill() -> (s: SkillId)
    ensures
        s@ == Seq::<char>::empty(),
{
    proof {
        reveal_strlit("");
    }
    SkillId::new("")
}

/// The fixed E.G.O loadout: (identity, E.G.O) pairs, in order.
pub open spec fn loadout() -> Seq<(Seq<char>, Seq<char>)> {
    seq![
        ("10110"@, "20109"@),
        ("10110"@, "20106"@),
        ("11214"@, "21207"@),
        ("10813"@, "20807"@),
        ("10813"@, "20810"@),
        ("11004"@, "21009"@),
        ("10913"@, "20903"@),
    ]
}

/// The E.G.O of `identity` in loadout order.
pub open spec fn egos_of(table: Seq<(Seq<char>, Seq<char>)>, identity: Seq<char>) -> Seq<Seq<char>>
    decreases table.len(),
{
    if table.len() == 0 {
        Seq::empty()
    } else {
        egos_of(table.drop_last(), identity) + if table.last().0 == identity {
            seq![table.last().1]
        } else {
            Seq::empty()
        }
    }
}

fn loadout_entry(i: usize) -> (r: (&'static str, &'static str))
    requires
        i < 7,
    ensures
        r.0@ == loadout()[i as int].0,
        r.1@ == loadout()[i as int].1,
{
    match i {
        0 => ("10110", "20109"),
        1 => ("10110", "20106"),
        2 => ("11214", "21207"),
        3 => ("10813", "20807"),
        4 => ("10813", "20810"),
        5 => ("11004", "21009"),
        _ => ("10913", "20903"),
    }
}

/// E.G.O ids available to a given identity.
pub fn ego_for_identity(identity: &str) -> (r: Vec<EgoId>)
    ensures
        r@.map_values(|e: EgoId| e@) == egos_of(loadout(), identity@),
{
    let mut r: Vec<EgoId> = Vec::new();
    let mut i: usize = 0;
    while i < 7
        invariant
            i <= 7,
            loadout().len() == 7,
            r@.map_values(|e: EgoId| e@) == egos_of(loadout().subrange(0, i as int), identity@),
        decreases 7 - i,
    {
        let (owner, ego) = loadout_entry(i);
        proof {
            let next = loadout().subrange(0, i + 1);
            assert(next.drop_last() =~= loadout().subrange(0, i as int));
        }
        let ghost before = r@;
        if same_text(owner, identity) {
            r.push(EgoId::new(ego));
        }
        assert(r@.map_values(|e: EgoId| e@) =~= egos_of(loadout().subrange(0, i + 1), identity@));
        i = i + 1;
    }
    assert(loadout().subrange(0, 7) =~= loadout());
    r
}

/// The composition entry a skill record contributes: every non-defense skill
/// with a readable slot, `Skill Amount` copies (at least 1, 1 when unknown).
pub open spec fn deck_entry(skill: SkillRecord, uptie: Uptie) -> Option<(Seq<char>, u32)> {
    match crate::ids::skill_slot_from_text(skill.slot@) {
        None => None,
        Some(SkillSlot::Defense) => None,
        Some(_) => {
            let amount: u32 = if skill.upties@.contains_key(tier_key(uptie)) {
                match skill.upties@[tier_key(uptie)].skill_amount {
                    Some(a) => a,
                    None => 1,
                }
            } else {
                1
            };
            Some((skill.id@, if amount < 1 { 1 } else { amount }))
        },
    }
}

/// The composition of a kit, in skill order.
pub open spec fn deck_entries(skills: Seq<SkillRecord>, uptie: Uptie) -> Seq<(Seq<char>, u32)>
    decreases skills.len(),
{
    if skills.len() == 0 {
        Seq::empty()
    } else {
        deck_entries(skills.drop_last(), uptie) + match deck_entry(skills.last(), uptie) {
            Some(e) => seq![e],
            None => Seq::empty(),
        }
    }
}

/// Build the skill composition from the kit's `Skill Amount` (typically 3
/// copies of Skill 1, 2 of Skill 2 and 1 of Skill 3; wiki.gg `Battles`).
pub fn build_deck(skills: &Vec<SkillRecord>, uptie: Uptie) -> (d: SkillDeck)
    requires
        forall|i: int| 0 <= i < skills@.len() ==> (#[trigger] skills@[i]).upties.wf(),
    ensures
        entries_view(d.composition@) == positive(deck_entries(skills@, uptie)),
        entries_view(d.remaining@) == positive(deck_entries(skills@, uptie)),
        d.paneled@.len() == 0,
{
    let mut composition: Vec<(SkillId, u32)> = Vec::new();
    let mut i: usize = 0;
    while i < skills.len()
        invariant
            i <= skills@.len(),
            forall|k: int| 0 <= k < skills@.len() ==> (#[trigger] skills@[k]).upties.wf(),
            entries_view(composition@) == deck_entries(skills@.subrange(0, i as int), uptie),
        decreases skills.len() - i,
    {
        let skill = &skills[i];
        proof {
            let next = skills@.subrange(0, i + 1);
            assert(next.drop_last() =~= skills@.subrange(0, i as int));
        }
        let ghost before = composition@;
        match skill.slot() {
            None => {},
            Some(SkillSlot::Defense) => {},
            Some(_) => {
                let amount: u32 = match skill.tier(uptie) {
                    Some(t) => match t.skill_amount {
                        Some(a) => a,
                        None => 1,
                    },
                    None => 1,
                };
                let amount = if amount < 1 {
                    1
                } else {
                    amount
                };
                composition.push((SkillId::new(skill.id.as_str()), amount));
            },
        }
        assert(entries_view(composition@) =~= deck_entries(skills@.subrange(0, i + 1), uptie));
        i = i + 1;
    }
    assert(skills@.subrange(0, skills@.len() as int) =~= skills@);
    SkillDeck::new(composition)
}

} // verus!
