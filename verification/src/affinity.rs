//! The sin affinity of a submitted skill, looked up in the library: the
//! identities' kits first, then the enemies' skills, then the E.G.O.

use vstd::prelude::*;
use crate::choices::kit_skill_from;
use crate::ids::{Sin, SkillId, Uptie};
use crate::keyed::StrMap;
use crate::library::{first_name, sin_of_text, tier_key, EgoRecord, EgoSkill, EnemySkillRecord, SkillRecord};
use crate::text::{chars_of, same_text};

verus! {

/// The first identity (in id order) from index `i` on whose kit lists
/// `skill`, with the skill's place in the kit.
pub open spec fn kit_hit(kits: StrMap<Vec<SkillRecord>>, skill: Seq<char>, i: int) -> Option<(int, int)>
    decreases kits.count() - i,
{
    if i < 0 || i >= kits.count() {
        None
    } else {
        match kit_skill_from(kits.value_at(i)@, skill, 0) {
            Some(j) => Some((i, j)),
            None => kit_hit(kits, skill, i + 1),
        }
    }
}

/// An enemy skill is used under its id, or named by its display name.
pub open spec fn names_enemy_skill(s: EnemySkillRecord, skill: Seq<char>) -> bool {
    first_name(s.id, s.name, "?"@) == skill || first_name(s.name, None, "?"@) == skill
}

/// The first skill of a list from index `j` on that `skill` names.
pub open spec fn enemy_skill_from(list: Seq<EnemySkillRecord>, skill: Seq<char>, j: int) -> Option<int>
    decreases list.len() - j,
{
    if j < 0 || j >= list.len() {
        None
    } else if names_enemy_skill(list[j], skill) {
        Some(j)
    } else {
        enemy_skill_from(list, skill, j + 1)
    }
}

/// The first enemy (in id order) from index `i` on that has `skill`.
pub open spec fn enemy_hit(enemies: StrMap<Vec<EnemySkillRecord>>, skill: Seq<char>, i: int) -> Option<(int, int)>
    decreases enemies.count() - i,
{
    if i < 0 || i >= enemies.count() {
        None
    } else {
        match enemy_skill_from(enemies.value_at(i)@, skill, 0) {
            Some(j) => Some((i, j)),
            None => enemy_hit(enemies, skill, i + 1),
        }
    }
}

/// The Uptie IV sin of a kit skill.
pub open spec fn kit_sin(s: SkillRecord) -> Option<Sin> {
    if s.upties@.contains_key(tier_key(Uptie(4))) {
        sin_of_text(s.upties@[tier_key(Uptie(4))].sin_affinity)
    } else {
        None
    }
}

/// An E.G.O used under its bare id: its Awakening's sin, else its
/// Corrosion's (both share the affinity).
pub open spec fn bare_ego_part(e: EgoRecord) -> Option<EgoSkill> {
    match e.awakening {
        Some(p) => Some(p),
        None => e.corrosion,
    }
}

/// The first `.` of a text.
pub open spec fn first_dot(s: Seq<char>, i: int) -> Option<int>
    decreases s.len() - i,
{
    if i < 0 || i >= s.len() {
        None
    } else if s[i] == '.' {
        Some(i)
    } else {
        first_dot(s, i + 1)
    }
}

/// An E.G.O used as `<id>.corrosion` or `<id>.<anything else>` (its
/// Awakening): that part, if the E.G.O and the part exist.
pub open spec fn dotted_ego_part(egos: Map<Seq<char>, EgoRecord>, skill: Seq<char>) -> Option<EgoSkill> {
    match first_dot(skill, 0) {
        None => None,
        Some(d) => {
            let id = skill.subrange(0, d);
            let kind = skill.subrange(d + 1, skill.len() as int);
            if egos.contains_key(id) {
                if kind == "corrosion"@ {
                    egos[id].corrosion
                } else {
                    egos[id].awakening
                }
            } else {
                None
            }
        },
    }
}

/// The sin of a submitted skill: from the first identity whose kit lists it
/// (Uptie IV), else the first enemy that has it, else the E.G.O it names.
pub open spec fn sin_of_skill(
    kits: StrMap<Vec<SkillRecord>>,
    enemies: StrMap<Vec<EnemySkillRecord>>,
    egos: Map<Seq<char>, EgoRecord>,
    skill: Seq<char>,
) -> Option<Sin> {
    match kit_hit(kits, skill, 0) {
        Some((i, j)) => kit_sin(kits.value_at(i)@[j]),
        None => match enemy_hit(enemies, skill, 0) {
            Some((i, j)) => sin_of_text(enemies.value_at(i)@[j].sin),
            None => {
                let bare = if egos.contains_key(skill) {
                    bare_ego_part(egos[skill])
                } else {
                    None
                };
                match bare {
                    Some(p) => sin_of_text(p.sin),
                    None => match dotted_ego_part(egos, skill) {
                        Some(p) => sin_of_text(p.sin),
                        None => None,
                    },
                }
            },
        },
    }
}

fn find_in_kits(kits: &StrMap<Vec<SkillRecord>>, skill: &str) -> (r: Option<(usize, usize)>)
    ensures
        match r {
            Some((i, j)) => kit_hit(*kits, skill@, 0) == Some((i as int, j as int)) && i < kits.count() && j
                < kits.value_at(i as int)@.len(),
            None => kit_hit(*kits, skill@, 0) is None,
        },
{
    let mut i: usize = 0;
    while i < kits.entry_count()
        invariant
            i <= kits.count(),
            kit_hit(*kits, skill@, 0) == kit_hit(*kits, skill@, i as int),
        decreases kits.count() - i,
    {
        let (_, kit) = kits.entry_at(i);
        let mut j: usize = 0;
        while j < kit.len()
            invariant
                j <= kit@.len(),
                i < kits.count(),
                *kit == kits.value_at(i as int),
                kit_hit(*kits, skill@, 0) == kit_hit(*kits, skill@, i as int),
                kit_skill_from(kit@, skill@, 0) == kit_skill_from(kit@, skill@, j as int),
            decreases kit.len() - j,
        {
            if same_text(kit[j].id.as_str(), skill) {
                return Some((i, j));
            }
            j = j + 1;
        }
        i = i + 1;
    }
    None
}

fn find_in_enemies(enemies: &StrMap<Vec<EnemySkillRecord>>, skill: &str) -> (r: Option<(usize, usize)>)
    ensures
        match r {
            Some((i, j)) => enemy_hit(*enemies, skill@, 0) == Some((i as int, j as int)) && i < enemies.count()
                && j < enemies.value_at(i as int)@.len(),
            None => enemy_hit(*enemies, skill@, 0) is None,
        },
{
    let mut i: usize = 0;
    while i < enemies.entry_count()
        invariant
            i <= enemies.count(),
            enemy_hit(*enemies, skill@, 0) == enemy_hit(*enemies, skill@, i as int),
        decreases enemies.count() - i,
    {
        let (_, list) = enemies.entry_at(i);
        let mut j: usize = 0;
        while j < list.len()
            invariant
                j <= list@.len(),
                i < enemies.count(),
                *list == enemies.value_at(i as int),
                enemy_hit(*enemies, skill@, 0) == enemy_hit(*enemies, skill@, i as int),
                enemy_skill_from(list@, skill@, 0) == enemy_skill_from(list@, skill@, j as int),
            decreases list.len() - j,
        {
            let id = list[j].skill_id();
            let name = list[j].display_name();
            if same_text(id.as_str(), skill) || same_text(name.as_str(), skill) {
                return Some((i, j));
            }
            j = j + 1;
        }
        i = i + 1;
    }
    None
}

fn dotted_part<'a>(egos: &'a StrMap<EgoRecord>, skill: &str) -> (r: Option<&'a EgoSkill>)
    requires
        egos.wf(),
    ensures
        match r {
            Some(p) => dotted_ego_part(egos@, skill@) == Some(*p),
            None => dotted_ego_part(egos@, skill@) is None,
        },
{
    let cs = chars_of(skill);
    let mut d: usize = 0;
    while d < cs.len()
        invariant
            d <= cs@.len(),
            cs@ == skill@,
            first_dot(skill@, 0) == first_dot(skill@, d as int),
        ensures
            d <= cs@.len(),
            d < cs@.len() ==> first_dot(skill@, 0) == Some(d as int),
            d == cs@.len() ==> first_dot(skill@, 0) is None,
        decreases cs.len() - d,
    {
        if cs[d] == '.' {
            break;
        }
        d = d + 1;
    }
    if d == cs.len() {
        return None;
    }
    let id = skill.substring_char(0, d);
    let kind = skill.substring_char(d + 1, cs.len());
    proof {
        reveal_strlit("corrosion");
    }
    match egos.get(id) {
        Some(rec) => if same_text(kind, "corrosion") {
            match &rec.corrosion {
                Some(p) => Some(p),
                None => None,
            }
        } else {
            match &rec.awakening {
                Some(p) => Some(p),
                None => None,
            }
        },
        None => None,
    }
}

/// The sin of a submitted skill (see `sin_of_skill`): `kits` holds each
/// identity's skills, `enemies` each enemy's skills, `egos` the E.G.O.
pub fn sin_of(
    kits: &StrMap<Vec<SkillRecord>>,
    enemies: &StrMap<Vec<EnemySkillRecord>>,
    egos: &StrMap<EgoRecord>,
    skill: &SkillId,
) -> (r: Option<Sin>)
    requires
        egos.wf(),
        forall|i: int, j: int|
            0 <= i < kits.count() && 0 <= j < kits.value_at(i)@.len() ==> (#[trigger] kits.value_at(i)@[j]).upties.wf(),
    ensures
        r == sin_of_skill(*kits, *enemies, egos@, skill@),
{
    let text = skill.as_str();
    match find_in_kits(kits, text) {
        Some((i, j)) => {
            let (_, kit) = kits.entry_at(i);
            return kit[j].sin(Uptie(4));
        },
        None => {},
    }
    match find_in_enemies(enemies, text) {
        Some((i, j)) => {
            let (_, list) = enemies.entry_at(i);
            return list[j].sin();
        },
        None => {},
    }
    match egos.get(text) {
        Some(rec) => {
            match &rec.awakening {
                Some(p) => {
                    return p.sin();
                },
                None => match &rec.corrosion {
                    Some(p) => {
                        return p.sin();
                    },
                    None => {},
                },
            }
        },
        None => {},
    }
    match dotted_part(egos, text) {
        Some(p) => p.sin(),
        None => None,
    }
}

} // verus!
