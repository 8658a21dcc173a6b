//! Which skills an enemy uses this turn: its script's rotation when it has
//! one, otherwise its listed skills by the encounter's enemy policy.

use vstd::prelude::*;
use crate::effects::hp_percent_of;
use crate::ids::SkillId;
use crate::library::{first_name, EnemySkillRecord};
use crate::scripts::{rotation_turn_with_branch, Rotation, TimeState};
use crate::state::{EnemyPolicy, Unit, UnitKind};
use crate::units::{stack_in, time_after, update_time_state};
use crate::state::status_of;

verus! {

/// The id an enemy skill is used under.
pub open spec fn enemy_skill_id(s: EnemySkillRecord) -> Seq<char> {
    first_name(s.id, s.name, "?"@)
}

/// The unit's statuses, state of time and threshold flags after the time
/// bookkeeping of the turn (only a scripted enemy keeps time).
pub open spec fn timed(u: Unit, turn: u32, initial: TimeState, scripted: bool) -> (
    Map<Seq<char>, crate::state::StatusInstance>,
    Option<TimeState>,
    u8,
) {
    if scripted {
        time_after(u.statuses@, u.time_state, u.time_threshold_flags, hp_percent_of(u), turn, initial)
    } else {
        (u.statuses@, u.time_state, u.time_threshold_flags)
    }
}

/// The skills of the script's turn: the rotation at the unit's HP, its
/// state of time (the encounter's initial one without), its place in the
/// cycle and whether its barrier broke.
pub open spec fn scripted_turn(u: Unit, r: Rotation, ts: Option<TimeState>, initial: TimeState) -> Seq<String> {
    rotation_turn_with_branch(
        r,
        hp_percent_of(u) as i32,
        match ts {
            Some(t) => t,
            None => initial,
        },
        u.skill_cursor,
        u.barrier_broken,
    )
}

/// The cursor after a scripted turn: one step on, wrapping at the cycle.
pub open spec fn cursor_after_script(cursor: u32, r: Rotation) -> u32 {
    ((cursor + 1) % (if r.cycle_turns < 1 {
        1
    } else {
        r.cycle_turns
    }) as int) as u32
}

/// The texts of a list of strings.
pub open spec fn string_texts(s: Seq<String>) -> Seq<Seq<char>> {
    s.map_values(|x: String| x@)
}

/// The texts of a list of skill ids.
pub open spec fn id_texts_of(s: Seq<SkillId>) -> Seq<Seq<char>> {
    s.map_values(|x: SkillId| x@)
}

/// The skill a fallback turn uses, and the cursor after it: the first
/// listed skill, or (cycling) the one at the cursor, the cursor moving on.
pub open spec fn fallback_pick(listed: Seq<EnemySkillRecord>, cursor: u32, policy: EnemyPolicy) -> (int, u32) {
    match policy {
        EnemyPolicy::FirstListed => (0, cursor),
        EnemyPolicy::Cyclic => {
            let i = cursor as int % listed.len() as int;
            (i, ((i + 1) % listed.len() as int) as u32)
        },
    }
}

fn texts_to_ids(v: &Vec<String>) -> (r: Vec<SkillId>)
    ensures
        id_texts_of(r@) == string_texts(v@),
{
    let mut r: Vec<SkillId> = Vec::new();
    let mut i: usize = 0;
    while i < v.len()
        invariant
            i <= v@.len(),
            id_texts_of(r@) == string_texts(v@.take(i as int)),
        decreases v.len() - i,
    {
        let ghost before = r@;
        let id = SkillId::new(v[i].as_str());
        r.push(id);
        proof {
            assert(id_texts_of(r@) =~= id_texts_of(before).push(id@));
            assert(v@.take(i + 1) =~= v@.take(i as int).push(v@[i as int]));
            assert(string_texts(v@.take(i + 1)) =~= string_texts(v@.take(i as int)).push(v@[i as int]@));
        }
        i = i + 1;
    }
    assert(v@.take(v@.len() as int) =~= v@);
    r
}

/// The skills an enemy uses this turn.  A Sinner gets none and is left as
/// it is.  An enemy first keeps time (when it has a script; see
/// `update_time_state`), then plays its script's turn (see `scripted_turn`)
/// and moves its cursor along the cycle; when the script gives nothing (or
/// there is none) it uses one listed skill by `policy` (see
/// `fallback_pick`), or nothing without listed skills.
pub fn enemy_turn_skills(
    unit: &mut Unit,
    turn: u32,
    initial: TimeState,
    policy: EnemyPolicy,
    rotation: Option<&Rotation>,
    listed: Option<&Vec<EnemySkillRecord>>,
) -> (r: Vec<SkillId>)
    requires
        old(unit).statuses.wf(),
        rotation matches Some(rot) ==> rot.states.wf(),
        rotation is Some ==> old(unit).skill_cursor < u32::MAX,
        i32::MIN <= old(unit).hp * 100 <= i32::MAX,
        stack_in(old(unit).statuses@, TimeState::Past) >= 0,
        stack_in(old(unit).statuses@, TimeState::Present) >= 0,
        stack_in(old(unit).statuses@, TimeState::Future) >= 0,
        stack_in(old(unit).statuses@, TimeState::Past) <= i32::MAX - 20,
        stack_in(old(unit).statuses@, TimeState::Present) <= i32::MAX - 20,
        stack_in(old(unit).statuses@, TimeState::Future) <= i32::MAX - 20,
        status_of(old(unit).statuses@, "Temporal Disjunction"@).stack < i32::MAX,
    ensures
        old(unit).kind is Sinner ==> r@.len() == 0 && *final(unit) == *old(unit),
        old(unit).kind is Abnormality ==> {
            let (m, ts, flags) = timed(*old(unit), turn, initial, rotation is Some);
            let scripted = match rotation {
                Some(rot) => string_texts(scripted_turn(*old(unit), *rot, ts, initial)),
                None => Seq::empty(),
            };
            let cursor = match rotation {
                Some(rot) => cursor_after_script(old(unit).skill_cursor, *rot),
                None => old(unit).skill_cursor,
            };
            &&& final(unit).statuses.wf()
            &&& final(unit).statuses@ == m
            &&& *final(unit) == (Unit {
                statuses: final(unit).statuses,
                time_state: ts,
                time_threshold_flags: flags,
                skill_cursor: final(unit).skill_cursor,
                ..*old(unit)
            })
            &&& scripted.len() > 0 ==> id_texts_of(r@) == scripted && final(unit).skill_cursor == cursor
            &&& scripted.len() == 0 ==> match listed {
                Some(l) if l@.len() > 0 => {
                    let (i, next) = fallback_pick(l@, cursor, policy);
                    &&& id_texts_of(r@) == seq![enemy_skill_id(l@[i])]
                    &&& final(unit).skill_cursor == next
                },
                _ => r@.len() == 0 && final(unit).skill_cursor == cursor,
            }
        },
{
    match unit.kind {
        UnitKind::Abnormality { .. } => {},
        UnitKind::Sinner { .. } => {
            return Vec::new();
        },
    }
    let ghost u0 = *unit;
    update_time_state(unit, turn, initial, rotation.is_some());
    let ghost u1 = *unit;
    assert(u1.hp == u0.hp && u1.max_hp == u0.max_hp);
    match rotation {
        Some(rot) => {
            let hp_percent = unit.hp_percent();
            let time_state = match unit.time_state {
                Some(t) => t,
                None => initial,
            };
            let cycle = unit.skill_cursor;
            let branch_active = unit.barrier_broken;
            let skills = rot.turn_skills_with_branch(hp_percent, time_state, cycle, branch_active);
            let wrap: u32 = if rot.cycle_turns < 1 {
                1
            } else {
                rot.cycle_turns
            };
            unit.skill_cursor = (cycle + 1) % wrap;
            if skills.len() > 0 {
                return texts_to_ids(&skills);
            }
        },
        None => {},
    }
    let record = match listed {
        Some(l) => l,
        None => {
            return Vec::new();
        },
    };
    if record.len() == 0 {
        return Vec::new();
    }
    let index: usize = match policy {
        EnemyPolicy::FirstListed => 0,
        EnemyPolicy::Cyclic => {
            let cursor = unit.skill_cursor as usize % record.len();
            unit.skill_cursor = ((cursor + 1) % record.len()) as u32;
            cursor
        },
    };
    let id = record[index].skill_id();
    let r = vec![SkillId::new(id.as_str())];
    assert(id_texts_of(r@) =~= seq![enemy_skill_id(record@[index as int])]);
    r
}

} // verus!
