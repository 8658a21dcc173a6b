//! Questions about the units of a battle: who is still fighting, who may act,
//! whom a reused attack goes to.

use vstd::prelude::*;
use crate::ids::{SkillId, UnitId};
use crate::scripts::{stack_bonus_of, StackBonus, TimeState};
use crate::state::{max0, status_of, with_status, Phase, Sanity, StatusInstance, StatusSet, Unit, UnitKind, Winner};
use crate::text::same_text;

verus! {

/// The ids of the units from `units` that satisfy `keep`, in order.
pub open spec fn ids_where(units: Seq<Unit>, keep: spec_fn(Unit) -> bool) -> Seq<Seq<char>>
    decreases units.len(),
{
    if units.len() == 0 {
        Seq::empty()
    } else {
        let rest = ids_where(units.drop_last(), keep);
        if keep(units.last()) {
            rest.push(units.last().id@)
        } else {
            rest
        }
    }
}

/// A living Sinner.
pub open spec fn living_sinner(u: Unit) -> bool {
    u.alive && u.kind is Sinner
}

/// A living enemy.
pub open spec fn living_enemy(u: Unit) -> bool {
    u.alive && !(u.kind is Sinner)
}

/// The texts of a list of unit ids.
pub open spec fn id_texts(ids: Seq<UnitId>) -> Seq<Seq<char>> {
    ids.map_values(|x: UnitId| x@)
}

fn ids_of(units: &Vec<Unit>, sinners: bool) -> (r: Vec<UnitId>)
    ensures
        id_texts(r@) == ids_where(
            units@,
            if sinners {
                |u: Unit| living_sinner(u)
            } else {
                |u: Unit| living_enemy(u)
            },
        ),
{
    let ghost keep = if sinners {
        |u: Unit| living_sinner(u)
    } else {
        |u: Unit| living_enemy(u)
    };
    let mut r: Vec<UnitId> = Vec::new();
    let mut i: usize = 0;
    while i < units.len()
        invariant
            i <= units@.len(),
            keep == (if sinners {
                |u: Unit| living_sinner(u)
            } else {
                |u: Unit| living_enemy(u)
            }),
            id_texts(r@) == ids_where(units@.take(i as int), keep),
        decreases units.len() - i,
    {
        let u = &units[i];
        proof {
            assert(units@.take(i + 1).drop_last() =~= units@.take(i as int));
        }
        let wanted = if sinners {
            u.alive && u.kind.is_sinner()
        } else {
            u.alive && !u.kind.is_sinner()
        };
        let ghost before = r@;
        if wanted {
            r.push(u.id.duplicate());
            assert(id_texts(r@) =~= id_texts(before).push(u.id@));
        }
        i = i + 1;
    }
    assert(units@.take(units@.len() as int) =~= units@);
    r
}

/// The ids of the living Sinners, in deployment order.
pub fn living_sinners(units: &Vec<Unit>) -> (r: Vec<UnitId>)
    ensures
        id_texts(r@) == ids_where(units@, |u: Unit| living_sinner(u)),
{
    ids_of(units, true)
}

/// The ids of the living enemies, in deployment order.
pub fn living_enemies(units: &Vec<Unit>) -> (r: Vec<UnitId>)
    ensures
        id_texts(r@) == ids_where(units@, |u: Unit| living_enemy(u)),
{
    ids_of(units, false)
}

/// Can this unit still take the action it submitted this turn?  A unit that
/// died, got Staggered or Panicked earlier in the same turn drops the rest of
/// its action; some enemies act even while Staggered.
pub open spec fn may_act(u: Unit) -> bool {
    u.alive && !u.panicked && (u.stagger.turns_remaining == 0 || u.acts_while_staggered)
}

pub fn can_act_now(units: &Vec<Unit>, index: usize) -> (b: bool)
    requires
        index < units@.len(),
    ensures
        b == may_act(units@[index as int]),
{
    let unit = &units[index];
    if !unit.alive || unit.panicked {
        return false;
    }
    if unit.is_staggered() && !unit.acts_while_staggered {
        return false;
    }
    true
}

/// A unit a reused attack may go to: alive, neither the defender nor the
/// attacker, and on the defender's side (the side opposite the attacker).
pub open spec fn reuse_candidate(units: Seq<Unit>, defender: int, attacker: int, k: int) -> bool {
    &&& 0 <= k < units.len()
    &&& units[k].alive
    &&& k != defender
    &&& k != attacker
    &&& (units[k].kind is Sinner) != (units[attacker].kind is Sinner)
}

/// Among the candidates below `n`, the one with the most HP; of several with
/// the most HP, the last.
pub open spec fn best_reuse(units: Seq<Unit>, defender: int, attacker: int, n: int) -> Option<int>
    decreases n,
{
    if n <= 0 {
        None
    } else {
        let prev = best_reuse(units, defender, attacker, n - 1);
        if reuse_candidate(units, defender, attacker, n - 1) && (match prev {
            Some(p) => units[n - 1].hp >= units[p].hp,
            None => true,
        }) {
            Some(n - 1)
        } else {
            prev
        }
    }
}

/// The unit a reused attack goes to next: the living unit with the most HP
/// on the defender's side, other than the defender (the last of several).
pub fn next_reuse_target(units: &Vec<Unit>, defender_index: usize, attacker_index: usize) -> (r: Option<usize>)
    requires
        attacker_index < units@.len(),
    ensures
        r matches Some(k) ==> best_reuse(units@, defender_index as int, attacker_index as int, units@.len() as int)
            == Some(k as int),
        r is None ==> best_reuse(units@, defender_index as int, attacker_index as int, units@.len() as int)
            is None,
{
    let attacker_is_sinner = units[attacker_index].kind.is_sinner();
    let mut best: Option<usize> = None;
    let mut i: usize = 0;
    while i < units.len()
        invariant
            i <= units@.len(),
            attacker_index < units@.len(),
            attacker_is_sinner == (units@[attacker_index as int].kind is Sinner),
            best matches Some(k) ==> best_reuse(units@, defender_index as int, attacker_index as int, i as int)
                == Some(k as int) && k < i,
            best is None ==> best_reuse(units@, defender_index as int, attacker_index as int, i as int) is None,
        decreases units.len() - i,
    {
        let u = &units[i];
        let candidate = u.alive && i != defender_index && i != attacker_index && u.kind.is_sinner()
            != attacker_is_sinner;
        if candidate {
            match best {
                Some(b) => {
                    if u.hp >= units[b].hp {
                        best = Some(i);
                    }
                },
                None => {
                    best = Some(i);
                },
            }
        }
        i = i + 1;
    }
    best
}

/// Does the Attack End of `skill` end the encounter for this unit (the
/// Pupa's "The Quickening", "Eclosion")?
pub fn ends_encounter(unit: &Unit, skill: &SkillId) -> (b: bool)
    ensures
        b == exists|k: int|
            0 <= k < unit.ends_encounter_on@.len() && #[trigger] unit.ends_encounter_on@[k]@ == skill@,
{
    let mut k: usize = 0;
    while k < unit.ends_encounter_on.len()
        invariant
            k <= unit.ends_encounter_on@.len(),
            forall|t: int| 0 <= t < k ==> #[trigger] unit.ends_encounter_on@[t]@ != skill@,
        decreases unit.ends_encounter_on.len() - k,
    {
        if same_text(unit.ends_encounter_on[k].as_str(), skill.as_str()) {
            assert(unit.ends_encounter_on@[k as int]@ == skill@);
            return true;
        }
        k = k + 1;
    }
    false
}


/// The status holding a state of time's Stack.
pub open spec fn stack_key_of(t: TimeState) -> Seq<char> {
    match t {
        TimeState::Past => "In the Past"@,
        TimeState::Present => "In the Present"@,
        TimeState::Future => "In the Future"@,
    }
}

/// The Stack of state `t` in `m`.
pub open spec fn stack_in(m: Map<Seq<char>, StatusInstance>, t: TimeState) -> i32 {
    status_of(m, stack_key_of(t)).stack
}

/// Every state's Stack set to 10.
pub open spec fn stacks_set_to_ten(m: Map<Seq<char>, StatusInstance>) -> Map<Seq<char>, StatusInstance> {
    let m1 = with_status(m, stack_key_of(TimeState::Past), StatusInstance { stack: 10, ..status_of(m, stack_key_of(TimeState::Past)) });
    let m2 = with_status(m1, stack_key_of(TimeState::Present), StatusInstance { stack: 10, ..status_of(m1, stack_key_of(TimeState::Present)) });
    with_status(m2, stack_key_of(TimeState::Future), StatusInstance { stack: 10, ..status_of(m2, stack_key_of(TimeState::Future)) })
}

/// Every state's Stack raised by 10.
pub open spec fn stacks_plus_ten(m: Map<Seq<char>, StatusInstance>) -> Map<Seq<char>, StatusInstance> {
    let s0 = status_of(m, stack_key_of(TimeState::Past));
    let m1 = with_status(m, stack_key_of(TimeState::Past), StatusInstance { stack: max0(s0.stack + 10), ..s0 });
    let s1 = status_of(m1, stack_key_of(TimeState::Present));
    let m2 = with_status(m1, stack_key_of(TimeState::Present), StatusInstance { stack: max0(s1.stack + 10), ..s1 });
    let s2 = status_of(m2, stack_key_of(TimeState::Future));
    with_status(m2, stack_key_of(TimeState::Future), StatusInstance { stack: max0(s2.stack + 10), ..s2 })
}

/// The state with the highest Stack; of several, the last in the order Past,
/// Present, Future.
pub open spec fn highest_state(m: Map<Seq<char>, StatusInstance>) -> TimeState {
    let a = stack_in(m, TimeState::Past);
    let b = stack_in(m, TimeState::Present);
    let c = stack_in(m, TimeState::Future);
    if c >= a && c >= b {
        TimeState::Future
    } else if b >= a {
        TimeState::Present
    } else {
        TimeState::Past
    }
}

/// The statuses, active state and threshold flags after the Imago's time
/// bookkeeping at `hp_percent` HP on turn `turn`: at the encounter start 10
/// Stacks of each state and the configured state active; crossing 66% and
/// 33% HP grants 10 more Stacks of each state, once each; then the state with
/// the highest Stack becomes active when it beats the active one, and a
/// switch adds 1 Temporal Disjunction.
pub open spec fn time_after(
    m: Map<Seq<char>, StatusInstance>,
    ts: Option<TimeState>,
    flags: u8,
    hp_percent: int,
    turn: u32,
    initial: TimeState,
) -> (Map<Seq<char>, StatusInstance>, Option<TimeState>, u8) {
    let start = turn <= 1 && stack_in(m, TimeState::Past) == 0 && stack_in(m, TimeState::Present) == 0
        && stack_in(m, TimeState::Future) == 0;
    let m1 = if start {
        stacks_set_to_ten(m)
    } else {
        m
    };
    let ts1 = if start {
        Some(initial)
    } else {
        ts
    };
    let g66 = hp_percent <= 66 && flags & 1 == 0;
    let m2 = if g66 {
        stacks_plus_ten(m1)
    } else {
        m1
    };
    let f2 = if g66 {
        flags | 1
    } else {
        flags
    };
    let g33 = hp_percent <= 33 && flags & 2 == 0;
    let m3 = if g33 {
        stacks_plus_ten(m2)
    } else {
        m2
    };
    let f3 = if g33 {
        f2 | 2
    } else {
        f2
    };
    let best = highest_state(m3);
    let current: int = match ts1 {
        Some(t) => stack_in(m3, t) as int,
        None => -1,
    };
    if stack_in(m3, best) > current {
        let td = status_of(m3, "Temporal Disjunction"@);
        let m4 = if ts1 != Some(best) {
            with_status(m3, "Temporal Disjunction"@, StatusInstance { stack: max0(td.stack + 1), ..td })
        } else {
            m3
        };
        (m4, Some(best), f3)
    } else {
        (m3, ts1, f3)
    }
}

proof fn lemma_keys_distinct()
    ensures
        stack_key_of(TimeState::Past) != stack_key_of(TimeState::Present),
        stack_key_of(TimeState::Past) != stack_key_of(TimeState::Future),
        stack_key_of(TimeState::Present) != stack_key_of(TimeState::Future),
        stack_key_of(TimeState::Past) != "Temporal Disjunction"@,
        stack_key_of(TimeState::Present) != "Temporal Disjunction"@,
        stack_key_of(TimeState::Future) != "Temporal Disjunction"@,
{
    reveal_strlit("In the Past");
    reveal_strlit("In the Present");
    reveal_strlit("In the Future");
    reveal_strlit("Temporal Disjunction");
    assert(stack_key_of(TimeState::Past)[8] != stack_key_of(TimeState::Present)[8]);
    assert(stack_key_of(TimeState::Past)[7] != stack_key_of(TimeState::Future)[7]);
    assert(stack_key_of(TimeState::Present)[7] != stack_key_of(TimeState::Future)[7]);
    assert(stack_key_of(TimeState::Past)[0] != "Temporal Disjunction"@[0]);
    assert(stack_key_of(TimeState::Present)[0] != "Temporal Disjunction"@[0]);
    assert(stack_key_of(TimeState::Future)[0] != "Temporal Disjunction"@[0]);
}

fn set_stacks_to_ten(statuses: &mut StatusSet)
    requires
        old(statuses).wf(),
    ensures
        final(statuses).wf(),
        final(statuses)@ == stacks_set_to_ten(old(statuses)@),
{
    statuses.set_stack(TimeState::Past.stack_key(), 10);
    statuses.set_stack(TimeState::Present.stack_key(), 10);
    statuses.set_stack(TimeState::Future.stack_key(), 10);
}

fn add_ten_stacks(statuses: &mut StatusSet)
    requires
        old(statuses).wf(),
        stack_in(old(statuses)@, TimeState::Past) <= i32::MAX - 10,
        stack_in(old(statuses)@, TimeState::Present) <= i32::MAX - 10,
        stack_in(old(statuses)@, TimeState::Future) <= i32::MAX - 10,
    ensures
        final(statuses).wf(),
        final(statuses)@ == stacks_plus_ten(old(statuses)@),
{
    proof {
        lemma_keys_distinct();
    }
    statuses.add_stack(TimeState::Past.stack_key(), 10);
    statuses.add_stack(TimeState::Present.stack_key(), 10);
    statuses.add_stack(TimeState::Future.stack_key(), 10);
}

fn stack_of(statuses: &StatusSet, t: TimeState) -> (v: i32)
    requires
        statuses.wf(),
    ensures
        v == stack_in(statuses@, t),
{
    statuses.stack(t.stack_key())
}

proof fn lemma_set_ten_stacks(m: Map<Seq<char>, StatusInstance>)
    ensures
        stack_in(stacks_set_to_ten(m), TimeState::Past) == 10,
        stack_in(stacks_set_to_ten(m), TimeState::Present) == 10,
        stack_in(stacks_set_to_ten(m), TimeState::Future) == 10,
        status_of(stacks_set_to_ten(m), "Temporal Disjunction"@) == status_of(m, "Temporal Disjunction"@),
{
    lemma_keys_distinct();
}

proof fn lemma_plus_ten_stacks(m: Map<Seq<char>, StatusInstance>)
    requires
        stack_in(m, TimeState::Past) >= 0,
        stack_in(m, TimeState::Present) >= 0,
        stack_in(m, TimeState::Future) >= 0,
        stack_in(m, TimeState::Past) <= i32::MAX - 10,
        stack_in(m, TimeState::Present) <= i32::MAX - 10,
        stack_in(m, TimeState::Future) <= i32::MAX - 10,
    ensures
        stack_in(stacks_plus_ten(m), TimeState::Past) == stack_in(m, TimeState::Past) + 10,
        stack_in(stacks_plus_ten(m), TimeState::Present) == stack_in(m, TimeState::Present) + 10,
        stack_in(stacks_plus_ten(m), TimeState::Future) == stack_in(m, TimeState::Future) + 10,
        status_of(stacks_plus_ten(m), "Temporal Disjunction"@) == status_of(m, "Temporal Disjunction"@),
{
    lemma_keys_distinct();
}

/// The Imago's time bookkeeping at a turn's start (see [`time_after`]);
/// only a scripted Abnormality keeps time.  Stacks are never negative in
/// play; the bounds keep the grants within i32.
pub fn update_time_state(unit: &mut Unit, turn: u32, initial: TimeState, scripted: bool)
    requires
        old(unit).statuses.wf(),
        i32::MIN <= old(unit).hp * 100 <= i32::MAX,
        stack_in(old(unit).statuses@, TimeState::Past) >= 0,
        stack_in(old(unit).statuses@, TimeState::Present) >= 0,
        stack_in(old(unit).statuses@, TimeState::Future) >= 0,
        stack_in(old(unit).statuses@, TimeState::Past) <= i32::MAX - 20,
        stack_in(old(unit).statuses@, TimeState::Present) <= i32::MAX - 20,
        stack_in(old(unit).statuses@, TimeState::Future) <= i32::MAX - 20,
        status_of(old(unit).statuses@, "Temporal Disjunction"@).stack < i32::MAX,
    ensures
        final(unit).statuses.wf(),
        !(scripted && old(unit).kind is Abnormality) ==> final(unit).statuses@ == old(unit).statuses@
            && final(unit).time_state == old(unit).time_state && final(unit).time_threshold_flags == old(
            unit,
        ).time_threshold_flags,
        scripted && old(unit).kind is Abnormality ==> ({
            let hp = if old(unit).max_hp <= 0 {
                0
            } else {
                crate::state::trunc_div(old(unit).hp * 100, old(unit).max_hp as int)
            };
            let (m, ts, flags) = time_after(
                old(unit).statuses@,
                old(unit).time_state,
                old(unit).time_threshold_flags,
                hp,
                turn,
                initial,
            );
            &&& final(unit).statuses@ == m
            &&& final(unit).time_state == ts
            &&& final(unit).time_threshold_flags == flags
        }),
        *final(unit) == (Unit {
            statuses: final(unit).statuses,
            time_state: final(unit).time_state,
            time_threshold_flags: final(unit).time_threshold_flags,
            ..*old(unit)
        }),
{
    let is_enemy = match unit.kind {
        UnitKind::Abnormality { .. } => true,
        UnitKind::Sinner { .. } => false,
    };
    if !is_enemy || !scripted {
        return;
    }
    let hp_percent = unit.hp_percent();
    keep_time(&mut unit.statuses, &mut unit.time_state, &mut unit.time_threshold_flags, hp_percent, turn, initial);
}

fn keep_time(
    statuses: &mut StatusSet,
    time_state: &mut Option<TimeState>,
    flag_bits: &mut u8,
    hp_percent: i32,
    turn: u32,
    initial: TimeState,
)
    requires
        old(statuses).wf(),
        stack_in(old(statuses)@, TimeState::Past) >= 0,
        stack_in(old(statuses)@, TimeState::Present) >= 0,
        stack_in(old(statuses)@, TimeState::Future) >= 0,
        stack_in(old(statuses)@, TimeState::Past) <= i32::MAX - 20,
        stack_in(old(statuses)@, TimeState::Present) <= i32::MAX - 20,
        stack_in(old(statuses)@, TimeState::Future) <= i32::MAX - 20,
        status_of(old(statuses)@, "Temporal Disjunction"@).stack < i32::MAX,
    ensures
        final(statuses).wf(),
        (final(statuses)@, *final(time_state), *final(flag_bits)) == time_after(
            old(statuses)@,
            *old(time_state),
            *old(flag_bits),
            hp_percent as int,
            turn,
            initial,
        ),
{
    proof {
        lemma_keys_distinct();
    }
    let ghost m0 = statuses@;
    let start = turn <= 1 && stack_of(statuses, TimeState::Past) == 0 && stack_of(statuses, TimeState::Present) == 0
        && stack_of(statuses, TimeState::Future) == 0;
    if start {
        set_stacks_to_ten(statuses);
        *time_state = Some(initial);
        proof {
            lemma_set_ten_stacks(m0);
        }
    }
    let ghost m1 = statuses@;
    let flags = *flag_bits;
    if hp_percent <= 66 && flags & 1 == 0 {
        proof {
            lemma_plus_ten_stacks(m1);
        }
        add_ten_stacks(statuses);
        *flag_bits = *flag_bits | 1;
    }
    let ghost m2 = statuses@;
    if hp_percent <= 33 && flags & 2 == 0 {
        proof {
            if !(hp_percent <= 66 && flags & 1 == 0) {
                lemma_plus_ten_stacks(m1);
            }
            lemma_plus_ten_stacks(m2);
        }
        add_ten_stacks(statuses);
        *flag_bits = *flag_bits | 2;
    }
    let ghost m3 = statuses@;
    let a = stack_of(statuses, TimeState::Past);
    let b = stack_of(statuses, TimeState::Present);
    let c = stack_of(statuses, TimeState::Future);
    let best = if c >= a && c >= b {
        TimeState::Future
    } else if b >= a {
        TimeState::Present
    } else {
        TimeState::Past
    };
    let best_stack = if c >= a && c >= b {
        c
    } else if b >= a {
        b
    } else {
        a
    };
    let current: i64 = match *time_state {
        Some(t) => stack_of(statuses, t) as i64,
        None => -1,
    };
    if best_stack as i64 > current {
        if *time_state != Some(best) {
            proof {
                if start {
                    lemma_set_ten_stacks(m0);
                }
                if hp_percent <= 66 && flags & 1 == 0 {
                    lemma_plus_ten_stacks(m1);
                }
                if hp_percent <= 33 && flags & 2 == 0 {
                    lemma_plus_ten_stacks(m2);
                }
            }
            statuses.add_stack("Temporal Disjunction", 1);
        }
        *time_state = Some(best);
    }
}

/// The bonus of the unit's active state of time: the status it boosts, and
/// the bonus its Stack grants.
pub open spec fn time_bonus_of(u: Unit) -> Option<(Seq<char>, StackBonus)> {
    match u.time_state {
        Some(t) => Some(
            (
                match t {
                    TimeState::Past => "Burn"@,
                    TimeState::Present => "Poise"@,
                    TimeState::Future => "Bleed"@,
                },
                stack_bonus_of(stack_in(u.statuses@, t)),
            ),
        ),
        None => None,
    }
}

pub fn time_state_bonus(unit: &Unit) -> (r: Option<(&'static str, StackBonus)>)
    requires
        unit.statuses.wf(),
    ensures
        match r {
            Some((s, b)) => time_bonus_of(*unit) == Some((s@, b)),
            None => time_bonus_of(*unit) is None,
        },
{
    match unit.time_state {
        Some(t) => {
            let stack = stack_of(&unit.statuses, t);
            Some((t.boosted_status(), TimeState::stack_bonus(stack)))
        },
        None => None,
    }
}


/// After the time bookkeeping a state of time is active, and it holds the
/// highest Stack: a state only becomes active by beating the active one.
pub proof fn active_state_holds_highest_stack(
    m: Map<Seq<char>, StatusInstance>,
    ts: Option<TimeState>,
    flags: u8,
    hp_percent: int,
    turn: u32,
    initial: TimeState,
)
    requires
        stack_in(m, TimeState::Past) >= 0,
        stack_in(m, TimeState::Present) >= 0,
        stack_in(m, TimeState::Future) >= 0,
        stack_in(m, TimeState::Past) <= i32::MAX - 20,
        stack_in(m, TimeState::Present) <= i32::MAX - 20,
        stack_in(m, TimeState::Future) <= i32::MAX - 20,
    ensures
        ({
            let (m2, ts2, _) = time_after(m, ts, flags, hp_percent, turn, initial);
            ts2 matches Some(a) && forall|t: TimeState| #[trigger] stack_in(m2, t) <= stack_in(m2, a)
        }),
{
    lemma_keys_distinct();
    let start = turn <= 1 && stack_in(m, TimeState::Past) == 0 && stack_in(m, TimeState::Present) == 0
        && stack_in(m, TimeState::Future) == 0;
    let m1 = if start {
        stacks_set_to_ten(m)
    } else {
        m
    };
    if start {
        lemma_set_ten_stacks(m);
    }
    let g66 = hp_percent <= 66 && flags & 1 == 0;
    let m2 = if g66 {
        stacks_plus_ten(m1)
    } else {
        m1
    };
    if g66 {
        lemma_plus_ten_stacks(m1);
    }
    let g33 = hp_percent <= 33 && flags & 2 == 0;
    let m3 = if g33 {
        stacks_plus_ten(m2)
    } else {
        m2
    };
    if g33 {
        lemma_plus_ten_stacks(m2);
    }
    let td = status_of(m3, "Temporal Disjunction"@);
    let m4 = with_status(m3, "Temporal Disjunction"@, StatusInstance { stack: max0(td.stack + 1), ..td });
    assert(forall|t: TimeState| #[trigger] stack_in(m4, t) == stack_in(m3, t));
}


/// How a turn ends: the side that still has living units wins; with none on
/// either side it is a draw; otherwise the next turn starts.
pub open spec fn turn_outcome(units: Seq<Unit>) -> (Option<Winner>, Phase) {
    let sinners = ids_where(units, |u: Unit| living_sinner(u)).len();
    let enemies = ids_where(units, |u: Unit| living_enemy(u)).len();
    if enemies == 0 && sinners > 0 {
        (Some(Winner::Sinners), Phase::Finished)
    } else if sinners == 0 && enemies > 0 {
        (Some(Winner::Enemies), Phase::Finished)
    } else if sinners == 0 && enemies == 0 {
        (Some(Winner::Draw), Phase::Finished)
    } else {
        (None, Phase::TurnStart)
    }
}

/// The victory check at the end of a turn.
pub fn victory_check(units: &Vec<Unit>) -> (r: (Option<Winner>, Phase))
    ensures
        r == turn_outcome(units@),
{
    let sinners = living_sinners(units);
    let enemies = living_enemies(units);
    assert(id_texts(sinners@).len() == sinners@.len());
    assert(id_texts(enemies@).len() == enemies@.len());
    if enemies.len() == 0 && sinners.len() > 0 {
        (Some(Winner::Sinners), Phase::Finished)
    } else if sinners.len() == 0 && enemies.len() > 0 {
        (Some(Winner::Enemies), Phase::Finished)
    } else if sinners.len() == 0 && enemies.len() == 0 {
        (Some(Winner::Draw), Phase::Finished)
    } else {
        (None, Phase::TurnStart)
    }
}

proof fn lemma_ids_where_empty(units: Seq<Unit>, keep: spec_fn(Unit) -> bool)
    ensures
        (ids_where(units, keep).len() == 0) == (forall|i: int| 0 <= i < units.len() ==> !keep(#[trigger] units[i])),
    decreases units.len(),
{
    if units.len() > 0 {
        lemma_ids_where_empty(units.drop_last(), keep);
        let d = units.drop_last();
        assert forall|i: int| 0 <= i < d.len() implies #[trigger] d[i] == units[i] by {}
        if ids_where(units, keep).len() == 0 {
            assert forall|i: int| 0 <= i < units.len() implies !keep(#[trigger] units[i]) by {
                if i < units.len() - 1 {
                    assert(d[i] == units[i]);
                }
            }
        }
    }
}

/// The battle is over exactly when one side has no living unit left, and
/// the side that still has living units is the winner.
pub proof fn battle_ends_when_a_side_is_wiped(units: Seq<Unit>)
    ensures
        (turn_outcome(units).1 == Phase::Finished) == ((forall|i: int|
            0 <= i < units.len() ==> !living_sinner(#[trigger] units[i])) || (forall|i: int|
            0 <= i < units.len() ==> !living_enemy(#[trigger] units[i]))),
        turn_outcome(units).0 == Some(Winner::Sinners) ==> exists|i: int|
            0 <= i < units.len() && living_sinner(#[trigger] units[i]),
        turn_outcome(units).0 == Some(Winner::Enemies) ==> exists|i: int|
            0 <= i < units.len() && living_enemy(#[trigger] units[i]),
{
    lemma_ids_where_empty(units, |u: Unit| living_sinner(u));
    lemma_ids_where_empty(units, |u: Unit| living_enemy(u));
}

/// "[Attack End] For N turns, lose X SP at Combat End": the entries still
/// running after one more Combat End, each with one turn less.
pub open spec fn sp_losses_after(losses: Seq<(i32, i32)>) -> Seq<(i32, i32)>
    decreases losses.len(),
{
    if losses.len() == 0 {
        losses
    } else {
        let rest = sp_losses_after(losses.drop_last());
        let (amount, turns) = losses.last();
        if turns - 1 > 0 {
            rest.push((amount, (turns - 1) as i32))
        } else {
            rest
        }
    }
}

/// The SP lost at this Combat End: the sum of the running entries.
pub open spec fn sp_loss_total(losses: Seq<(i32, i32)>) -> int
    decreases losses.len(),
{
    if losses.len() == 0 {
        0
    } else {
        sp_loss_total(losses.drop_last()) + losses.last().0
    }
}

/// Apply the Combat End SP losses of a unit: lose their sum, then count each
/// entry down, dropping the finished ones.  A unit without any is unchanged.
pub fn combat_end_sp_loss(sanity: &mut Sanity, losses: &mut Vec<(i32, i32)>)
    requires
        forall|k: int| 0 <= k <= old(losses)@.len() ==> i32::MIN < #[trigger] sp_loss_total(old(losses)@.take(k)) <= i32::MAX,
        forall|k: int| 0 <= k < old(losses)@.len() ==> #[trigger] old(losses)@[k].1 > i32::MIN,
    ensures
        old(losses)@.len() == 0 ==> *final(sanity) == *old(sanity) && final(losses)@ == old(losses)@,
        old(losses)@.len() > 0 ==> *final(sanity) == old(sanity).moved(-sp_loss_total(old(losses)@))
            && final(losses)@ == sp_losses_after(old(losses)@),
{
    if losses.len() == 0 {
        return;
    }
    let ghost l0 = losses@;
    let mut total: i32 = 0;
    let mut i: usize = 0;
    while i < losses.len()
        invariant
            l0 == losses@,
            i <= l0.len(),
            forall|k: int| 0 <= k <= l0.len() ==> i32::MIN < #[trigger] sp_loss_total(l0.take(k)) <= i32::MAX,
            total == sp_loss_total(l0.take(i as int)),
        decreases losses.len() - i,
    {
        proof {
            assert(l0.take(i + 1).drop_last() =~= l0.take(i as int));
            assert(i32::MIN < sp_loss_total(l0.take(i + 1)) <= i32::MAX);
        }
        total = total + losses[i].0;
        i = i + 1;
    }
    assert(l0.take(l0.len() as int) =~= l0);
    *sanity = sanity.add(-total);
    let mut kept: Vec<(i32, i32)> = Vec::new();
    let mut j: usize = 0;
    while j < losses.len()
        invariant
            l0 == losses@,
            j <= l0.len(),
            forall|k: int| 0 <= k < l0.len() ==> #[trigger] l0[k].1 > i32::MIN,
            kept@ == sp_losses_after(l0.take(j as int)),
        decreases losses.len() - j,
    {
        proof {
            assert(l0.take(j + 1).drop_last() =~= l0.take(j as int));
        }
        let (amount, turns) = losses[j];
        if turns - 1 > 0 {
            kept.push((amount, turns - 1));
        }
        j = j + 1;
    }
    *losses = kept;
}


/// The SP a Sinner starts its turn with: 0 after a turn of Panic or
/// Corrosion, else its SP held within [-45, 45].
pub open spec fn turn_start_sp(u: Unit) -> int {
    if u.panic_recovering {
        0
    } else if u.sanity->sp < -45 {
        -45
    } else if u.sanity->sp > 45 {
        45
    } else {
        u.sanity->sp as int
    }
}

/// At Turn Start a Sinner with SP starts at `turn_start_sp`; at -45 it is
/// Corroded when it owns a Corrosion E.G.O and Panics otherwise, and it has
/// Low Morale exactly when its SP is above -45 and at most -30.  It is in at
/// most one of these states, and only Corrosion brings recovery next turn.
pub proof fn sanity_states_at_turn_start(u: Unit)
    requires
        u.kind is Sinner,
        u.sanity is Sane,
    ensures
        ({
            let (s, low, pan, cor, rec) = sanity_at_turn_start(u);
            let c = turn_start_sp(u);
            &&& s == (Sanity::Sane { sp: c as i32 })
            &&& low == (-45 < c && c <= -30)
            &&& pan == (c == -45 && u.corrosion_egos@.len() == 0)
            &&& cor == (c == -45 && u.corrosion_egos@.len() > 0)
            &&& rec == cor
            &&& !(low && pan) && !(low && cor) && !(pan && cor)
        }),
{
}

/// Sanity at a Turn Start (wiki.gg `Sanity`): every SP Unit's SP is held
/// within [-45, 45]; a Sinner that spent a turn Panicked or Corroded comes
/// back at 0 SP; then a Sinner at -45 SP is forced into E.G.O Corrosion when
/// it owns a Corrosion Skill (and recovers next turn) and Panics otherwise,
/// and one at -30 SP or less has Low Morale.  Dead units are left alone.
pub open spec fn sanity_at_turn_start(u: Unit) -> (Sanity, bool, bool, bool, bool) {
    let s1 = match u.sanity {
        Sanity::NoSanity => Sanity::NoSanity,
        Sanity::Sane { sp } => Sanity::Sane { sp: crate::state::clamp_sp(sp as int) },
    };
    if !(u.kind is Sinner) {
        (s1, u.low_morale, u.panicked, u.corroded, u.panic_recovering)
    } else {
        let s2 = if u.panic_recovering {
            match s1 {
                Sanity::NoSanity => Sanity::NoSanity,
                Sanity::Sane { .. } => Sanity::Sane { sp: 0 },
            }
        } else {
            s1
        };
        let sp = s2.sp_of();
        let at_limit = sp <= -45;
        let corroded = at_limit && u.corrosion_egos@.len() > 0;
        let panicked = at_limit && !corroded;
        let low_morale = !at_limit && sp <= -30;
        (s2, low_morale, panicked, corroded, corroded)
    }
}

/// The Sanity states of a living unit at Turn Start (see
/// [`sanity_at_turn_start`]); returns whether the unit's Panic (`true`) or
/// Low Morale effects now apply.  After a Panic's effects, the unit
/// recovers next turn ([`arm_panic_recovery`]).
pub fn sanity_turn_start(unit: &mut Unit) -> (panicked: Option<bool>)
    ensures
        !old(unit).alive ==> *final(unit) == *old(unit) && panicked is None,
        old(unit).alive ==> ({
            let (s, low, pan, cor, rec) = sanity_at_turn_start(*old(unit));
            &&& *final(unit) == Unit {
                sanity: s,
                low_morale: low,
                panicked: pan,
                corroded: cor,
                panic_recovering: rec,
                ..*old(unit)
            }
            &&& panicked == if !(old(unit).kind is Sinner) {
                None
            } else if pan {
                Some(true)
            } else if low {
                Some(false)
            } else {
                None
            }
        }),        old(unit).alive && old(unit).kind is Sinner && old(unit).sanity is Sane ==> ({
            let c = turn_start_sp(*old(unit));
            let out = c == -45 && old(unit).corrosion_egos@.len() == 0;
            &&& final(unit).low_morale == (-45 < c && c <= -30)
            &&& final(unit).panicked == out
            &&& final(unit).corroded == (c == -45 && old(unit).corrosion_egos@.len() > 0)
            &&& final(unit).sanity == (Sanity::Sane { sp: c as i32 })
            &&& panicked == if out {
                Some(true)
            } else if -45 < c && c <= -30 {
                Some(false)
            } else {
                None
            }
        }),
{
    proof {
        if old(unit).kind is Sinner && old(unit).sanity is Sane {
            sanity_states_at_turn_start(*old(unit));
        }
    }
    if !unit.alive {
        return None;
    }
    let s1 = match unit.sanity {
        Sanity::NoSanity => Sanity::NoSanity,
        Sanity::Sane { sp } => unit.sanity.set(sp),
    };
    unit.sanity = s1;
    if !unit.kind.is_sinner() {
        return None;
    }
    if unit.panic_recovering {
        unit.panic_recovering = false;
        unit.sanity = unit.sanity.set(0);
    }
    unit.low_morale = false;
    unit.panicked = false;
    unit.corroded = false;
    let sp = unit.sanity.sp();
    let at_limit = sp <= -45;
    let corroded = at_limit && unit.corrosion_egos.len() > 0;
    unit.corroded = corroded;
    let panicked = at_limit && !corroded;
    let low_morale = !at_limit && sp <= -30;
    if corroded {
        unit.panic_recovering = true;
        return None;
    }
    unit.low_morale = low_morale;
    unit.panicked = panicked;
    if panicked {
        Some(true)
    } else if low_morale {
        Some(false)
    } else {
        None
    }
}

/// After a Panic's effects: the unit recovers to 0 SP at the next Turn Start,
/// and its per-turn effect counters start over.
pub fn arm_panic_recovery(unit: &mut Unit)
    ensures
        final(unit).panic_recovering,
        final(unit).turn_effect_usage.wf(),
        final(unit).turn_effect_usage@ == Map::<Seq<char>, i32>::empty(),
        *final(unit) == (Unit { panic_recovering: true, turn_effect_usage: final(unit).turn_effect_usage, ..*old(unit) }),
{
    unit.panic_recovering = true;
    unit.turn_effect_usage = crate::keyed::StrMap::new();
}


/// A Sinner is in at most one of Low Morale, Panic and E.G.O Corrosion at a
/// Turn Start; Corrosion arms the recovery; and a Sinner that was recovering
/// starts the turn at 0 SP in none of the three.
pub proof fn sanity_states_are_exclusive(u: Unit)
    requires
        u.kind is Sinner,
    ensures
        ({
            let (s, low, pan, cor, rec) = sanity_at_turn_start(u);
            &&& !(pan && cor) && !(pan && low) && !(low && cor)
            &&& cor ==> rec
            &&& (u.panic_recovering && u.sanity is Sane) ==> s == Sanity::Sane { sp: 0 } && !low && !pan && !cor
        }),
{
}

} // verus!
