//! Submitting actions for the turn: which unit acts from which Dashboard slot,
//! with which Skill, against whom.

use vstd::prelude::*;
use crate::battle::{Action, EgoSkillKind};
use crate::ids::{EgoId, SkillId, UnitId};
use crate::state::{DashboardSlot, Phase, SlotView, SubmittedAction, Unit, UnitKind};
use crate::text::{chars_of, decimal, push_decimal, same_text};
use crate::keyed::{compare_chars, lemma_lex_asymmetric, lemma_lex_irreflexive, lemma_lex_total, lemma_lex_transitive, lex_lt};

verus! {

/// The first unit from index `i` on whose id is `id`.
pub open spec fn unit_from(units: Seq<Unit>, id: Seq<char>, i: int) -> Option<int>
    decreases units.len() - i,
{
    if i < 0 || i >= units.len() {
        None
    } else if units[i].id@ == id {
        Some(i)
    } else {
        unit_from(units, id, i + 1)
    }
}

/// The first unit whose id is `id`.
pub open spec fn unit_index(units: Seq<Unit>, id: Seq<char>) -> Option<int> {
    unit_from(units, id, 0)
}

/// The first enemy (a unit that is not a Sinner) from index `i` on.
pub open spec fn enemy_from(units: Seq<Unit>, i: int) -> Option<int>
    decreases units.len() - i,
{
    if i < 0 || i >= units.len() {
        None
    } else if !(units[i].kind is Sinner) {
        Some(i)
    } else {
        enemy_from(units, i + 1)
    }
}

/// The first slot from index `j` on whose number is `slot`.
pub open spec fn slot_from(dash: Seq<DashboardSlot>, slot: u32, j: int) -> Option<int>
    decreases dash.len() - j,
{
    if j < 0 || j >= dash.len() {
        None
    } else if dash[j].slot == slot {
        Some(j)
    } else {
        slot_from(dash, slot, j + 1)
    }
}

pub(crate) proof fn lemma_unit_from(units: Seq<Unit>, id: Seq<char>, i: int)
    requires
        0 <= i,
    ensures
        unit_from(units, id, i) matches Some(k) ==> i <= k < units.len() && units[k].id@ == id && forall|
            t: int,
        | i <= t < k ==> units[t].id@ != id,
        unit_from(units, id, i) is None ==> forall|t: int| i <= t < units.len() ==> units[t].id@ != id,
    decreases units.len() - i,
{
    if i < units.len() && units[i].id@ != id {
        lemma_unit_from(units, id, i + 1);
    }
}

proof fn lemma_enemy_from(units: Seq<Unit>, i: int)
    requires
        0 <= i,
    ensures
        enemy_from(units, i) matches Some(k) ==> i <= k < units.len() && !(units[k].kind is Sinner) && forall|
            t: int,
        | i <= t < k ==> units[t].kind is Sinner,
        enemy_from(units, i) is None ==> forall|t: int| i <= t < units.len() ==> units[t].kind is Sinner,
    decreases units.len() - i,
{
    if i < units.len() && units[i].kind is Sinner {
        lemma_enemy_from(units, i + 1);
    }
}

proof fn lemma_slot_from(dash: Seq<DashboardSlot>, slot: u32, j: int)
    requires
        0 <= j,
    ensures
        slot_from(dash, slot, j) matches Some(k) ==> j <= k < dash.len() && dash[k].slot == slot && forall|
            t: int,
        | j <= t < k ==> dash[t].slot != slot,
        slot_from(dash, slot, j) is None ==> forall|t: int| j <= t < dash.len() ==> dash[t].slot != slot,
    decreases dash.len() - j,
{
    if j < dash.len() && dash[j].slot != slot {
        lemma_slot_from(dash, slot, j + 1);
    }
}

/// Index of the first unit whose id is `id`.
pub fn index_of(units: &Vec<Unit>, id: &UnitId) -> (r: Option<usize>)
    ensures
        r matches Some(i) ==> unit_index(units@, id@) == Some(i as int),
        r is None ==> unit_index(units@, id@) is None,
{
    let mut i: usize = 0;
    while i < units.len()
        invariant
            i <= units@.len(),
            unit_index(units@, id@) == unit_from(units@, id@, i as int),
        decreases units.len() - i,
    {
        if units[i].id.same(id) {
            return Some(i);
        }
        i = i + 1;
    }
    None
}

fn first_enemy(units: &Vec<Unit>) -> (r: Option<usize>)
    ensures
        r matches Some(i) ==> enemy_from(units@, 0) == Some(i as int),
        r is None ==> enemy_from(units@, 0) is None,
{
    let mut i: usize = 0;
    while i < units.len()
        invariant
            i <= units@.len(),
            enemy_from(units@, 0) == enemy_from(units@, i as int),
        decreases units.len() - i,
    {
        if !units[i].kind.is_sinner() {
            return Some(i);
        }
        i = i + 1;
    }
    None
}

fn slot_index(dash: &Vec<DashboardSlot>, slot: u32) -> (r: Option<usize>)
    ensures
        r matches Some(j) ==> slot_from(dash@, slot, 0) == Some(j as int),
        r is None ==> slot_from(dash@, slot, 0) is None,
{
    let mut j: usize = 0;
    while j < dash.len()
        invariant
            j <= dash@.len(),
            slot_from(dash@, slot, 0) == slot_from(dash@, slot, j as int),
        decreases dash.len() - j,
    {
        if dash[j].slot == slot {
            return Some(j);
        }
        j = j + 1;
    }
    None
}

/// Submitting a Skill uses the top card when it names the top card but not
/// the bottom one.
pub open spec fn uses_top(e: SlotView, skill: Seq<char>) -> bool {
    e.next == skill && e.current != skill
}

/// A slot after a Skill was chosen on it against `target`.  Choosing either
/// visible card leaves the panel as it is (the chosen card is consumed when
/// the turn resolves); any other Skill (a defense Skill) replaces the bottom
/// card, which is remembered so that the rotation consumes it.
pub open spec fn chosen(e: SlotView, skill: Seq<char>, target: Seq<char>) -> SlotView {
    if e.current != skill && !uses_top(e, skill) {
        SlotView {
            slot: e.slot,
            current: skill,
            next: e.next,
            preview: e.preview,
            target: Some(target),
            converted: true,
            replaced: if e.replaced is Some {
                e.replaced
            } else {
                Some(e.current)
            },
        }
    } else {
        SlotView {
            slot: e.slot,
            current: e.current,
            next: e.next,
            preview: e.preview,
            target: Some(target),
            converted: e.converted,
            replaced: e.replaced,
        }
    }
}

/// The actions other than the one of `actor` on `slot`.
pub open spec fn others(actions: Seq<SubmittedAction>, actor: Seq<char>, slot: u32) -> Seq<SubmittedAction> {
    actions.filter(|a: SubmittedAction| !(a.actor@ == actor && a.slot == slot))
}

fn drop_slot_action(actions: &mut Vec<SubmittedAction>, actor: &UnitId, slot: u32)
    ensures
        final(actions)@ == others(old(actions)@, actor@, slot),
{
    let ghost a0 = actions@;
    let mut kept: Vec<SubmittedAction> = Vec::new();
    let mut rest: Vec<SubmittedAction> = Vec::new();
    std::mem::swap(&mut rest, actions);
    let ghost n = rest@.len();
    assert(rest@.len() == rest.len());
    let mut i: usize = 0;
    while rest.len() > 0
        invariant
            rest@ == a0.skip(i as int),
            i <= a0.len(),
            a0.len() <= usize::MAX,
            n == a0.len(),
            kept@ == others(a0.take(i as int), actor@, slot),
        decreases rest.len(),
    {
        let a = rest.remove(0);
        proof {
            assert(a0.take(i + 1).drop_last() =~= a0.take(i as int));
            assert(a0.take(i + 1).last() == a);
            reveal(Seq::filter);
            assert(others(a0.take(i + 1), actor@, slot) == if !(a.actor@ == actor@ && a.slot == slot) {
                others(a0.take(i as int), actor@, slot).push(a)
            } else {
                others(a0.take(i as int), actor@, slot)
            });
            assert(rest@ =~= a0.skip(i + 1));
        }
        if !(a.actor.same(actor) && a.slot == slot) {
            kept.push(a);
        }
        i = i + 1;
    }
    assert(a0.take(i as int) =~= a0);
    *actions = kept;
}


/// `after` is `before` with slot `j` of unit `i` chosen (see [`chosen`]);
/// every other unit and slot is left as it was.
pub open spec fn slot_chosen(
    before: Seq<Unit>,
    after: Seq<Unit>,
    i: int,
    j: int,
    skill: Seq<char>,
    target: Seq<char>,
) -> bool {
    &&& after.len() == before.len()
    &&& forall|k: int| 0 <= k < before.len() && k != i ==> after[k] == before[k]
    &&& after[i] == Unit { dashboard: after[i].dashboard, ..before[i] }
    &&& after[i].dashboard@.len() == before[i].dashboard@.len()
    &&& forall|t: int|
        0 <= t < before[i].dashboard@.len() && t != j ==> after[i].dashboard@[t] == before[i].dashboard@[t]
    &&& after[i].dashboard@[j]@ == chosen(before[i].dashboard@[j]@, skill, target)
}

fn choose_in(dash: &mut Vec<DashboardSlot>, j: usize, skill: &SkillId, target: &UnitId) -> (used_top: bool)
    requires
        j < old(dash)@.len(),
    ensures
        final(dash)@.len() == old(dash)@.len(),
        forall|t: int| 0 <= t < old(dash)@.len() && t != j ==> final(dash)@[t] == old(dash)@[t],
        final(dash)@[j as int]@ == chosen(old(dash)@[j as int]@, skill@, target@),
        used_top == uses_top(old(dash)@[j as int]@, skill@),
{
    let ghost d0 = dash@;
    let mut e = dash.remove(j);
    let used_top = e.next.same(skill) && !e.current.same(skill);
    e.target = Some(target.duplicate());
    if !e.current.same(skill) && !used_top {
        e.converted = true;
        if e.replaced.is_none() {
            e.replaced = Some(e.current.duplicate());
        }
        e.current = skill.duplicate();
    }
    assert(e@ == chosen(d0[j as int]@, skill@, target@));
    dash.insert(j, e);
    assert(dash@ =~= d0.update(j as int, e));
    used_top
}

fn choose_on_slot(units: &mut Vec<Unit>, i: usize, j: usize, skill: &SkillId, target: &UnitId) -> (used_top: bool)
    requires
        i < old(units)@.len(),
        j < old(units)@[i as int].dashboard@.len(),
    ensures
        slot_chosen(old(units)@, final(units)@, i as int, j as int, skill@, target@),
        used_top == uses_top(old(units)@[i as int].dashboard@[j as int]@, skill@),
{
    let ghost u0 = units@;
    let mut u = units.remove(i);
    let ghost before = u;
    let used_top = choose_in(&mut u.dashboard, j, skill, target);
    assert(u == Unit { dashboard: u.dashboard, ..before });
    units.insert(i, u);
    assert(units@ =~= u0.update(i as int, u));
    used_top
}

/// `r` is the error `message`.
pub open spec fn fails_with(r: Result<(), String>, message: Seq<char>) -> bool {
    r matches Err(m) && m@ == message
}

/// Does `actor` have E.G.O `ego` equipped?
pub open spec fn has_ego(u: Unit, ego: Seq<char>) -> bool {
    exists|k: int| 0 <= k < u.ego_slots@.len() && #[trigger] u.ego_slots@[k]@ == ego
}

/// The id of Gregor's `Dazzling Lamp` passive: "When chaining Skills, this
/// unit can redirect the Attack Skills' targeting to itself regardless of
/// Speed (Focused Encounters only)".
pub const REDIRECT_PASSIVE: &'static str = "1121402";

/// May the unit at `ui` chain to Skill Slot `enemy_slot` of the enemy at
/// `ei`?  When that Slot is already aimed at it, or, in a focused encounter,
/// when it is faster, or ignores Speed (its passive, or an enemy Skill that
/// "Can Clash with this Skill regardless of Speed").
pub open spec fn may_chain(
    units: Seq<Unit>,
    actions: Seq<SubmittedAction>,
    focused: bool,
    ui: int,
    enemy: int,
    ei: int,
    enemy_slot: u32,
) -> bool {
    let aimed_at_me = exists|k: int|
        0 <= k < actions.len() && #[trigger] actions[k].actor@ == units[enemy].id@ && actions[k].slot
            == enemy_slot && (actions[k].target matches Some(t) && t@ == units[ui].id@);
    let ignores_speed = (exists|k: int|
        0 <= k < units[ui].passive_ids@.len() && #[trigger] units[ui].passive_ids@[k]@
            == REDIRECT_PASSIVE@) || units[ei].clash_any_speed_slots@.contains(enemy_slot);
    let faster = units[ui].speed > units[ei].speed || ignores_speed;
    aimed_at_me || (focused && faster)
}

/// The refusal of a chain the unit may not make.
pub open spec fn chain_refusal(actor: Seq<char>, enemy_slot: u32, speed: i32, enemy_speed: i32) -> Seq<char> {
    actor + " cannot chain to enemy Slot "@ + decimal(enemy_slot as int) + " (Speed "@ + decimal(speed as int)
        + " vs "@ + decimal(enemy_speed as int) + ")"@
}

fn error_with(parts: (&str, &str)) -> (r: Result<(), String>)
    ensures
        fails_with(r, parts.0@ + parts.1@),
{
    let mut m = String::from_str(parts.0);
    m.append(parts.1);
    Err(m)
}

fn aimed_at(actions: &Vec<SubmittedAction>, enemy: &UnitId, enemy_slot: u32, me: &UnitId) -> (b: bool)
    ensures
        b == exists|k: int|
            0 <= k < actions@.len() && #[trigger] actions@[k].actor@ == enemy@ && actions@[k].slot == enemy_slot
                && (actions@[k].target matches Some(t) && t@ == me@),
{
    let mut k: usize = 0;
    while k < actions.len()
        invariant
            k <= actions@.len(),
            forall|t: int|
                0 <= t < k ==> !(#[trigger] actions@[t].actor@ == enemy@ && actions@[t].slot == enemy_slot
                    && (actions@[t].target matches Some(x) && x@ == me@)),
        decreases actions.len() - k,
    {
        let a = &actions[k];
        if a.actor.same(enemy) && a.slot == enemy_slot {
            match &a.target {
                Some(t) => {
                    if t.same(me) {
                        return true;
                    }
                },
                None => {},
            }
        }
        k = k + 1;
    }
    false
}

fn has_passive(ids: &Vec<String>, id: &str) -> (b: bool)
    ensures
        b == exists|k: int| 0 <= k < ids@.len() && #[trigger] ids@[k]@ == id@,
{
    let mut k: usize = 0;
    while k < ids.len()
        invariant
            k <= ids@.len(),
            forall|t: int| 0 <= t < k ==> #[trigger] ids@[t]@ != id@,
        decreases ids.len() - k,
    {
        if same_text(ids[k].as_str(), id) {
            return true;
        }
        k = k + 1;
    }
    false
}

fn contains_slot(slots: &Vec<u32>, slot: u32) -> (b: bool)
    ensures
        b == slots@.contains(slot),
{
    let mut k: usize = 0;
    while k < slots.len()
        invariant
            k <= slots@.len(),
            forall|t: int| 0 <= t < k ==> slots@[t] != slot,
        decreases slots.len() - k,
    {
        if slots[k] == slot {
            return true;
        }
        k = k + 1;
    }
    false
}

fn has_ego_of(u: &Unit, ego: &EgoId) -> (b: bool)
    ensures
        b == has_ego(*u, ego@),
{
    let mut k: usize = 0;
    while k < u.ego_slots.len()
        invariant
            k <= u.ego_slots@.len(),
            forall|t: int| 0 <= t < k ==> #[trigger] u.ego_slots@[t]@ != ego@,
        decreases u.ego_slots.len() - k,
    {
        if same_text(u.ego_slots[k].0.as_str(), ego.0.as_str()) {
            assert(u.ego_slots@[k as int]@ == ego@);
            return true;
        }
        k = k + 1;
    }
    false
}


/// The action recorded for a Skill chained to an enemy Skill Slot: like an
/// assignment, with the enemy as target and the Slot kept.
pub open spec fn engaged(
    acts2: Seq<SubmittedAction>,
    kept: Seq<SubmittedAction>,
    actor: UnitId,
    slot: u32,
    skill: SkillId,
    target: Seq<char>,
    enemy_slot: u32,
    used_top: bool,
) -> bool {
    &&& acts2.len() == kept.len() + 1
    &&& acts2.take(kept.len() as int) == kept
    &&& acts2.last().actor == actor
    &&& acts2.last().slot == slot
    &&& acts2.last().skill == skill
    &&& acts2.last().target matches Some(t) && t@ == target
    &&& !acts2.last().is_ego
    &&& acts2.last().enemy_slot == Some(enemy_slot)
    &&& acts2.last().used_top == used_top
    &&& acts2.last().ego is None
    &&& acts2.last().ego_kind is None
}

/// What `submit` does with `action`, from units `us` and actions `acts` to
/// units `us2`, actions `acts2` and phase `phase2`, answering `r`.
pub open spec fn submit_outcome(
    us: Seq<Unit>,
    acts: Seq<SubmittedAction>,
    focused: bool,
    action: Action,
    us2: Seq<Unit>,
    acts2: Seq<SubmittedAction>,
    phase2: Phase,
    r: Result<(), String>,
) -> bool {
    match action {
        Action::Assign { actor, slot, skill, target } => match unit_index(us, actor@) {
            None => fails_with(r, "unknown unit "@ + actor@),
            Some(i) => if !us[i].alive {
                fails_with(r, actor@ + " is not alive"@)
            } else {
                match slot_from(us[i].dashboard@, slot, 0) {
                    None => fails_with(r, actor@ + " has no slot "@ + decimal(slot as int)),
                    Some(j) => {
                        &&& r is Ok
                        &&& slot_chosen(us, us2, i, j, skill@, target@)
                        &&& acts2 == others(acts, actor@, slot).push(
                            SubmittedAction {
                                actor,
                                slot,
                                skill,
                                target: Some(target),
                                is_ego: false,
                                enemy_slot: None,
                                used_top: uses_top(us[i].dashboard@[j]@, skill@),
                                ego: None,
                                ego_kind: None,
                            },
                        )
                    },
                }
            },
        },
        Action::Engage { actor, slot, skill, enemy_slot } => match unit_index(us, actor@) {
            None => fails_with(r, "unknown unit "@ + actor@),
            Some(i) => if !us[i].alive {
                fails_with(r, actor@ + " is not alive"@)
            } else {
                match enemy_from(us, 0) {
                    None => fails_with(r, "no enemy"@),
                    Some(e) => {
                        let ei = match unit_index(us, us[e].id@) {
                            Some(x) => x,
                            None => 0,
                        };
                        if !may_chain(us, acts, focused, i, e, ei, enemy_slot) {
                            fails_with(r, chain_refusal(actor@, enemy_slot, us[i].speed, us[ei].speed))
                        } else {
                            match slot_from(us[i].dashboard@, slot, 0) {
                                None => fails_with(r, actor@ + " has no slot "@ + decimal(slot as int)),
                                Some(j) => {
                                    &&& r is Ok
                                    &&& slot_chosen(us, us2, i, j, skill@, us[e].id@)
                                    &&& engaged(
                                        acts2,
                                        others(acts, actor@, slot),
                                        actor,
                                        slot,
                                        skill,
                                        us[e].id@,
                                        enemy_slot,
                                        uses_top(us[i].dashboard@[j]@, skill@),
                                    )
                                },
                            }
                        }
                    },
                }
            },
        },
        Action::UseEgo { actor, slot, ego, kind, target } => match unit_index(us, actor@) {
            None => fails_with(r, "unknown unit "@ + actor@),
            Some(i) => if !us[i].alive {
                fails_with(r, actor@ + " is not alive"@)
            } else if !has_ego(us[i], ego@) {
                fails_with(r, actor@ + " does not have E.G.O "@ + ego@ + " equipped"@)
            } else {
                let kept = others(acts, actor@, slot);
                &&& r is Ok
                &&& us2 == us
                &&& acts2.len() == kept.len() + 1
                &&& acts2.take(kept.len() as int) == kept
                &&& acts2.last().actor == actor
                &&& acts2.last().slot == slot
                &&& acts2.last().skill@ == ego@
                &&& acts2.last().target == Some(target)
                &&& acts2.last().is_ego
                &&& acts2.last().enemy_slot is None
                &&& !acts2.last().used_top
                &&& acts2.last().ego == Some(ego)
                &&& acts2.last().ego_kind == Some(kind)
            },
        },
        Action::Commit => r is Ok && us2 == us && acts2 == acts && phase2 == Phase::Combat,
    }
}

fn no_slot(actor: &UnitId, slot: u32) -> (r: Result<(), String>)
    ensures
        fails_with(r, actor@ + " has no slot "@ + decimal(slot as int)),
{
    let mut m = String::from_str(actor.as_str());
    m.append(" has no slot ");
    push_decimal(&mut m, slot as i64);
    Err(m)
}

/// Submit one action for the turn.  An assignment or a chain picks a card of
/// the Slot (see [`chosen`]) and replaces whatever that Slot had submitted;
/// an E.G.O use is recorded as a Skill named by the E.G.O; `Commit` moves
/// the battle to Combat.  A refused action changes nothing.
pub fn submit(
    units: &mut Vec<Unit>,
    actions: &mut Vec<SubmittedAction>,
    phase: &mut Phase,
    focused_encounter: bool,
    action: Action,
) -> (r: Result<(), String>)
    ensures
        r is Err ==> final(units)@ == old(units)@ && final(actions)@ == old(actions)@ && *final(phase)
            == *old(phase),
        !(action is Commit) ==> *final(phase) == *old(phase),
        submit_outcome(
            old(units)@,
            old(actions)@,
            focused_encounter,
            action,
            final(units)@,
            final(actions)@,
            *final(phase),
            r,
        ),
{
    match action {
        Action::Assign { actor, slot, skill, target } => {
            let i = match index_of(units, &actor) {
                Some(i) => i,
                None => {
                    return error_with(("unknown unit ", actor.as_str()));
                },
            };
            proof {
                lemma_unit_from(units@, actor@, 0);
            }
            if !units[i].alive {
                return error_with((actor.as_str(), " is not alive"));
            }
            let j = match slot_index(&units[i].dashboard, slot) {
                Some(j) => j,
                None => {
                    return no_slot(&actor, slot);
                },
            };
            proof {
                lemma_slot_from(units@[i as int].dashboard@, slot, 0);
            }
            let used_top = choose_on_slot(units, i, j, &skill, &target);
            drop_slot_action(actions, &actor, slot);
            actions.push(
                SubmittedAction {
                    actor,
                    slot,
                    skill,
                    target: Some(target),
                    is_ego: false,
                    enemy_slot: None,
                    used_top,
                    ego: None,
                    ego_kind: None,
                },
            );
            Ok(())
        },
        Action::Engage { actor, slot, skill, enemy_slot } => {
            let i = match index_of(units, &actor) {
                Some(i) => i,
                None => {
                    return error_with(("unknown unit ", actor.as_str()));
                },
            };
            proof {
                lemma_unit_from(units@, actor@, 0);
            }
            if !units[i].alive {
                return error_with((actor.as_str(), " is not alive"));
            }
            let e = match first_enemy(units) {
                Some(e) => e,
                None => {
                    return Err(String::from_str("no enemy"));
                },
            };
            proof {
                lemma_enemy_from(units@, 0);
                lemma_unit_from(units@, units@[e as int].id@, 0);
            }
            let ei = match index_of(units, &units[e].id) {
                Some(x) => x,
                None => 0,
            };
            let aimed_at_me = aimed_at(actions, &units[e].id, enemy_slot, &actor);
            let ignores_speed = has_passive(&units[i].passive_ids, REDIRECT_PASSIVE)
                || contains_slot(&units[ei].clash_any_speed_slots, enemy_slot);
            let faster = units[i].speed > units[ei].speed || ignores_speed;
            if !(aimed_at_me || (focused_encounter && faster)) {
                let mut m = String::from_str(actor.as_str());
                m.append(" cannot chain to enemy Slot ");
                push_decimal(&mut m, enemy_slot as i64);
                m.append(" (Speed ");
                push_decimal(&mut m, units[i].speed as i64);
                m.append(" vs ");
                push_decimal(&mut m, units[ei].speed as i64);
                m.append(")");
                assert(m@ =~= chain_refusal(actor@, enemy_slot, units@[i as int].speed, units@[ei as int].speed));
                return Err(m);
            }
            let target = units[e].id.duplicate();
            let j = match slot_index(&units[i].dashboard, slot) {
                Some(j) => j,
                None => {
                    return no_slot(&actor, slot);
                },
            };
            proof {
                lemma_slot_from(units@[i as int].dashboard@, slot, 0);
            }
            let used_top = choose_on_slot(units, i, j, &skill, &target);
            drop_slot_action(actions, &actor, slot);
            let ghost kept = actions@;
            actions.push(
                SubmittedAction {
                    actor,
                    slot,
                    skill,
                    target: Some(target),
                    is_ego: false,
                    enemy_slot: Some(enemy_slot),
                    used_top,
                    ego: None,
                    ego_kind: None,
                },
            );
            assert(actions@.take(kept.len() as int) =~= kept);
            Ok(())
        },
        Action::UseEgo { actor, slot, ego, kind, target } => {
            let i = match index_of(units, &actor) {
                Some(i) => i,
                None => {
                    return error_with(("unknown unit ", actor.as_str()));
                },
            };
            proof {
                lemma_unit_from(units@, actor@, 0);
            }
            if !units[i].alive {
                return error_with((actor.as_str(), " is not alive"));
            }
            if !has_ego_of(&units[i], &ego) {
                let mut m = String::from_str(actor.as_str());
                m.append(" does not have E.G.O ");
                m.append(ego.0.as_str());
                m.append(" equipped");
                return Err(m);
            }
            drop_slot_action(actions, &actor, slot);
            let ghost kept = actions@;
            let skill = SkillId::new(ego.0.as_str());
            actions.push(
                SubmittedAction {
                    actor,
                    slot,
                    skill,
                    target: Some(target),
                    is_ego: true,
                    enemy_slot: None,
                    used_top: false,
                    ego: Some(ego),
                    ego_kind: Some(kind),
                },
            );
            assert(actions@.take(kept.len() as int) =~= kept);
            Ok(())
        },
        Action::Commit => {
            *phase = Phase::Combat;
            Ok(())
        },
    }
}


/// The texts of a list of skill ids.
pub open spec fn skill_texts(s: Seq<SkillId>) -> Seq<Seq<char>> {
    s.map_values(|x: SkillId| x@)
}

/// Strictly increasing in lexicographic order (sorted, each text once).
pub open spec fn strictly_sorted(s: Seq<Seq<char>>) -> bool {
    forall|i: int, j: int| 0 <= i < j < s.len() ==> lex_lt(#[trigger] s[i], #[trigger] s[j])
}

/// The texts of `set`, sorted, each once.
pub open spec fn sorted_set(set: Set<Seq<char>>) -> Seq<Seq<char>> {
    choose|s: Seq<Seq<char>>| strictly_sorted(s) && s.to_set() == set
}

/// Two sorted lists of the same texts are the same list.
proof fn lemma_sorted_unique(a: Seq<Seq<char>>, b: Seq<Seq<char>>)
    requires
        strictly_sorted(a),
        strictly_sorted(b),
        a.to_set() == b.to_set(),
    ensures
        a == b,
    decreases a.len(),
{
    if a.len() == 0 {
        if b.len() > 0 {
            assert(b.to_set().contains(b[0]));
        }
        assert(a =~= b);
    } else {
        assert(a.to_set().contains(a[0]));
        assert(b.len() > 0);
        assert(b.to_set().contains(b[0]));
        let k = choose|k: int| 0 <= k < b.len() && b[k] == a[0];
        let m = choose|m: int| 0 <= m < a.len() && a[m] == b[0];
        if k > 0 && m > 0 {
            assert(lex_lt(b[0], b[k]));
            assert(lex_lt(a[0], a[m]));
            lemma_lex_asymmetric(a[0], b[0]);
        }
        if k == 0 {
            assert(a[0] == b[0]);
        } else if m == 0 {
            assert(a[0] == b[0]);
        }
        let a1 = a.drop_first();
        let b1 = b.drop_first();
        assert forall|x: Seq<char>| a1.to_set().contains(x) == b1.to_set().contains(x) by {
            if a1.to_set().contains(x) {
                let i = choose|i: int| 0 <= i < a1.len() && a1[i] == x;
                assert(a[i + 1] == x);
                assert(lex_lt(a[0], a[i + 1]));
                lemma_lex_irreflexive(x);
                assert(a.to_set().contains(x));
                assert(b.to_set().contains(x));
                let j = choose|j: int| 0 <= j < b.len() && b[j] == x;
                assert(j != 0);
                assert(b1[j - 1] == x);
            }
            if b1.to_set().contains(x) {
                let i = choose|i: int| 0 <= i < b1.len() && b1[i] == x;
                assert(b[i + 1] == x);
                assert(lex_lt(b[0], b[i + 1]));
                lemma_lex_irreflexive(x);
                assert(b.to_set().contains(x));
                assert(a.to_set().contains(x));
                let j = choose|j: int| 0 <= j < a.len() && a[j] == x;
                assert(j != 0);
                assert(a1[j - 1] == x);
            }
        }
        assert(a1.to_set() =~= b1.to_set());
        assert forall|i: int, j: int| 0 <= i < j < a1.len() implies lex_lt(#[trigger] a1[i], #[trigger] a1[j]) by {
            assert(lex_lt(a[i + 1], a[j + 1]));
        }
        assert forall|i: int, j: int| 0 <= i < j < b1.len() implies lex_lt(#[trigger] b1[i], #[trigger] b1[j]) by {
            assert(lex_lt(b[i + 1], b[j + 1]));
        }
        lemma_sorted_unique(a1, b1);
        assert(a[0] == b[0]);
        assert(a.len() == b.len());
        assert forall|i: int| 0 <= i < a.len() implies a[i] == b[i] by {
            if i > 0 {
                assert(a[i] == a1[i - 1]);
                assert(b[i] == b1[i - 1]);
            }
        }
        assert(a =~= b);
    }
}

/// A sorted list of a set's texts is the list `sorted_set` names.
proof fn lemma_is_sorted_set(s: Seq<Seq<char>>)
    requires
        strictly_sorted(s),
    ensures
        sorted_set(s.to_set()) == s,
{
    let t = sorted_set(s.to_set());
    assert(strictly_sorted(t) && t.to_set() == s.to_set());
    lemma_sorted_unique(t, s);
}

/// Inserting a text anywhere in a list adds it to the list's set.
proof fn lemma_insert_to_set(s: Seq<Seq<char>>, j: int, x: Seq<char>)
    requires
        0 <= j <= s.len(),
    ensures
        s.insert(j, x).to_set() == s.to_set().insert(x),
{
    let t = s.insert(j, x);
    assert forall|y: Seq<char>| t.to_set().contains(y) == s.to_set().insert(x).contains(y) by {
        if t.contains(y) {
            let k = choose|k: int| 0 <= k < t.len() && t[k] == y;
            if k < j {
                assert(s[k] == y);
            } else if k > j {
                assert(s[k - 1] == y);
            }
        }
        if s.contains(y) {
            let k = choose|k: int| 0 <= k < s.len() && s[k] == y;
            if k < j {
                assert(t[k] == y);
            } else {
                assert(t[k + 1] == y);
            }
        }
        if y == x {
            assert(t[j] == x);
        }
    }
    assert(t.to_set() =~= s.to_set().insert(x));
}

/// The ids of `ids`, sorted and each once (`sort` then `dedup`).
pub fn sort_unique_ids(ids: &Vec<SkillId>) -> (r: Vec<SkillId>)
    ensures
        strictly_sorted(skill_texts(r@)),
        skill_texts(r@).to_set() == skill_texts(ids@).to_set(),
        skill_texts(r@) == sorted_set(skill_texts(ids@).to_set()),
{
    let mut r: Vec<SkillId> = Vec::new();
    let mut i: usize = 0;
    while i < ids.len()
        invariant
            i <= ids@.len(),
            strictly_sorted(skill_texts(r@)),
            skill_texts(r@).to_set() == skill_texts(ids@.take(i as int)).to_set(),
        decreases ids.len() - i,
    {
        let x = chars_of(ids[i].as_str());
        let ghost xs = x@;
        let ghost rv = skill_texts(r@);
        let mut j: usize = 0;
        let mut found = false;
        while j < r.len()
            invariant
                j <= r@.len(),
                rv == skill_texts(r@),
                xs == x@,
                strictly_sorted(rv),
                forall|t: int| 0 <= t < j ==> lex_lt(#[trigger] rv[t], xs),
                found ==> j < r@.len() && rv[j as int] == xs,
            ensures
                j <= r@.len(),
                forall|t: int| 0 <= t < j ==> lex_lt(#[trigger] rv[t], xs),
                found ==> j < r@.len() && rv[j as int] == xs,
                !found ==> j == r@.len() || lex_lt(xs, rv[j as int]),
            decreases r.len() - j,
        {
            let y = chars_of(r[j].as_str());
            let c = compare_chars(&y, &x);
            if c == 0 {
                found = true;
                break;
            }
            if c > 0 {
                break;
            }
            j = j + 1;
        }
        let ghost next = skill_texts(ids@.take(i + 1));
        proof {
            assert(ids@.take(i + 1) =~= ids@.take(i as int).push(ids@[i as int]));
            assert(next =~= skill_texts(ids@.take(i as int)).push(xs));
        }
        if !found {
            r.insert(j, ids[i].duplicate());
            proof {
                let nv = skill_texts(r@);
                assert(nv =~= rv.insert(j as int, xs));
                assert forall|a: int, b: int| 0 <= a < b < nv.len() implies lex_lt(#[trigger] nv[a], #[trigger] nv[b]) by {
                    if b < j {
                        assert(lex_lt(rv[a], rv[b]));
                    } else if b == j {
                        assert(lex_lt(rv[a], xs));
                    } else if a < j {
                        assert(lex_lt(rv[a], xs));
                        assert(lex_lt(xs, rv[j as int]));
                        if b - 1 > j {
                            assert(lex_lt(rv[j as int], rv[b - 1]));
                            lemma_lex_transitive(xs, rv[j as int], rv[b - 1]);
                        }
                        lemma_lex_transitive(rv[a], xs, rv[b - 1]);
                    } else if a == j {
                        assert(lex_lt(xs, rv[j as int]));
                        if b - 1 > j {
                            assert(lex_lt(rv[j as int], rv[b - 1]));
                            lemma_lex_transitive(xs, rv[j as int], rv[b - 1]);
                        }
                    } else {
                        assert(lex_lt(rv[a - 1], rv[b - 1]));
                    }
                }
                lemma_insert_to_set(rv, j as int, xs);
                skill_texts(ids@.take(i as int)).lemma_push_to_set_commute(xs);
                assert(nv.to_set() =~= next.to_set());
            }
        } else {
            proof {
                skill_texts(ids@.take(i as int)).lemma_push_to_set_commute(xs);
                assert(rv.to_set().contains(xs));
                assert(rv.to_set() =~= next.to_set());
            }
        }
        i = i + 1;
    }
    proof {
        assert(ids@.take(ids@.len() as int) =~= ids@);
        lemma_is_sorted_set(skill_texts(r@));
    }
    r
}

} // verus!
