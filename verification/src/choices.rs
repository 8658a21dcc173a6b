//! The action space of a turn: every action the player may submit, in the
//! order unit -> slot -> skill -> target, followed by `Commit`.

use vstd::prelude::*;
use crate::actions::{index_of, lemma_unit_from, skill_texts, sort_unique_ids, sorted_set, unit_index};
use crate::battle::{ego_affordable, ego_affordable_spec, Action, ActionView, DefenseKind, EgoSkillKind, EMPTY_SKILL};
use crate::text::same_text;
use crate::ids::{EgoId, SkillId, SkillSlot, UnitId, skill_slot_from_text};
use crate::keyed::StrMap;
use crate::library::{EgoRecord, SkillRecord};
use crate::state::{DashboardSlot, Phase, Sanity, SubmittedAction, Unit, UnitKind, Winner};
use crate::units::{id_texts, ids_where, living_enemies, living_enemy};

verus! {

/// The views of a list of actions.
pub open spec fn views(s: Seq<Action>) -> Seq<ActionView> {
    s.map_values(|a: Action| a@)
}

proof fn lemma_views_push(s: Seq<Action>, a: Action)
    ensures
        views(s.push(a)) == views(s).push(a@),
{
    assert(views(s.push(a)) =~= views(s).push(a@));
}

/// For one skill on one slot: chaining to each pullable enemy Skill Slot,
/// then aiming at each living enemy.
pub open spec fn skill_choices(
    actor: Seq<char>,
    slot: u32,
    skill: Seq<char>,
    pull: Seq<u32>,
    enemies: Seq<Seq<char>>,
) -> Seq<ActionView> {
    pull.map_values(|e: u32| ActionView::Engage { actor, slot, skill, enemy_slot: e })
        + enemies.map_values(|t: Seq<char>| ActionView::Assign { actor, slot, skill, target: t })
}

/// `skill_choices` for each skill in turn.
pub open spec fn skills_choices(
    actor: Seq<char>,
    slot: u32,
    skills: Seq<Seq<char>>,
    pull: Seq<u32>,
    enemies: Seq<Seq<char>>,
) -> Seq<ActionView>
    decreases skills.len(),
{
    if skills.len() == 0 {
        Seq::empty()
    } else {
        skills_choices(actor, slot, skills.drop_last(), pull, enemies)
            + skill_choices(actor, slot, skills.last(), pull, enemies)
    }
}

/// One E.G.O skill kind against each living enemy, when it can be paid for.
pub open spec fn kind_choices(
    actor: Seq<char>,
    slot: u32,
    ego: Seq<char>,
    kind: EgoSkillKind,
    payable: bool,
    enemies: Seq<Seq<char>>,
) -> Seq<ActionView> {
    if payable {
        enemies.map_values(|t: Seq<char>| ActionView::UseEgo { actor, slot, ego, kind, target: t })
    } else {
        Seq::empty()
    }
}

/// The E.G.O uses of one equipped E.G.O: Awakening, then Overclock (Corrosion
/// is never picked directly); nothing for an E.G.O the library lacks.
pub open spec fn ego_choices(
    actor: Seq<char>,
    slot: u32,
    ego: Seq<char>,
    egos: Map<Seq<char>, EgoRecord>,
    sanity: Sanity,
    resources: Map<Seq<char>, i32>,
    enemies: Seq<Seq<char>>,
) -> Seq<ActionView> {
    if egos.contains_key(ego) {
        let record = egos[ego];
        kind_choices(
            actor,
            slot,
            ego,
            EgoSkillKind::Awakening,
            ego_affordable_spec(sanity, resources, record, EgoSkillKind::Awakening),
            enemies,
        ) + kind_choices(
            actor,
            slot,
            ego,
            EgoSkillKind::Overclock,
            ego_affordable_spec(sanity, resources, record, EgoSkillKind::Overclock),
            enemies,
        )
    } else {
        Seq::empty()
    }
}

/// `ego_choices` for each equipped E.G.O in turn.
pub open spec fn egos_choices(
    actor: Seq<char>,
    slot: u32,
    equipped: Seq<Seq<char>>,
    egos: Map<Seq<char>, EgoRecord>,
    sanity: Sanity,
    resources: Map<Seq<char>, i32>,
    enemies: Seq<Seq<char>>,
) -> Seq<ActionView>
    decreases equipped.len(),
{
    if equipped.len() == 0 {
        Seq::empty()
    } else {
        egos_choices(actor, slot, equipped.drop_last(), egos, sanity, resources, enemies)
            + ego_choices(actor, slot, equipped.last(), egos, sanity, resources, enemies)
    }
}

/// The texts of a list of E.G.O ids.
pub open spec fn ego_texts(s: Seq<EgoId>) -> Seq<Seq<char>> {
    s.map_values(|x: EgoId| x@)
}

/// The choices of one unit, slot by slot: its skills, then its E.G.O.
pub open spec fn slots_choices(
    u: Unit,
    slots: Seq<DashboardSlot>,
    skills: Seq<Seq<char>>,
    pull: Seq<u32>,
    enemies: Seq<Seq<char>>,
    egos: Map<Seq<char>, EgoRecord>,
    resources: Map<Seq<char>, i32>,
) -> Seq<ActionView>
    decreases slots.len(),
{
    if slots.len() == 0 {
        Seq::empty()
    } else {
        let slot = slots.last().slot;
        slots_choices(u, slots.drop_last(), skills, pull, enemies, egos, resources)
            + skills_choices(u.id@, slot, skills, pull, enemies)
            + egos_choices(u.id@, slot, ego_texts(u.ego_slots@), egos, u.sanity, resources, enemies)
    }
}

/// The non-empty cards drawn on the slots, bottom then top, slot by slot.
pub open spec fn drawn_texts(dash: Seq<DashboardSlot>) -> Seq<Seq<char>>
    decreases dash.len(),
{
    if dash.len() == 0 {
        Seq::empty()
    } else {
        let s = dash.last();
        let rest = drawn_texts(dash.drop_last());
        let with_current = if s.current@ != EMPTY_SKILL@ {
            rest.push(s.current@)
        } else {
            rest
        };
        if s.next@ != EMPTY_SKILL@ {
            with_current.push(s.next@)
        } else {
            with_current
        }
    }
}

/// The ids of the defense skills of an identity's kit.
pub open spec fn defense_texts(kit: Seq<SkillRecord>) -> Seq<Seq<char>>
    decreases kit.len(),
{
    if kit.len() == 0 {
        Seq::empty()
    } else {
        let rest = defense_texts(kit.drop_last());
        if skill_slot_from_text(kit.last().slot@) == Some(SkillSlot::Defense) {
            rest.push(kit.last().id@)
        } else {
            rest
        }
    }
}

/// The skills a unit may pick on any of its slots: both drawn cards of every
/// slot, and the defense skills of its kit, sorted, each once.
pub open spec fn selectable_skills(dash: Seq<DashboardSlot>, kit: Seq<SkillRecord>) -> Seq<Seq<char>> {
    sorted_set((drawn_texts(dash) + defense_texts(kit)).to_set())
}

/// The enemy Skill Slots `me` may chain to in a focused encounter: those of
/// actions not submitted by a Sinner that aim at `me` or that `me` out-speeds
/// (an action of a unit that is gone counts as speed 0).
pub open spec fn pull_from(units: Seq<Unit>, actions: Seq<SubmittedAction>, me: Unit) -> Seq<u32>
    decreases actions.len(),
{
    if actions.len() == 0 {
        Seq::empty()
    } else {
        let a = actions.last();
        let rest = pull_from(units, actions.drop_last(), me);
        let owner = unit_index(units, a.actor@);
        let by_sinner = match owner {
            Some(i) => units[i].kind is Sinner,
            None => false,
        };
        let owner_speed = match owner {
            Some(i) => units[i].speed,
            None => 0,
        };
        let aimed_at_me = match a.target {
            Some(t) => t@ == me.id@,
            None => false,
        };
        if !by_sinner && (aimed_at_me || me.speed > owner_speed) {
            rest.push(a.slot)
        } else {
            rest
        }
    }
}

/// Appends `skill_choices` for one skill.
fn push_skill_choices(
    out: &mut Vec<Action>,
    actor: &UnitId,
    slot: u32,
    skill: &SkillId,
    pull: &Vec<u32>,
    enemies: &Vec<UnitId>,
)
    ensures
        views(final(out)@) == views(old(out)@) + skill_choices(actor@, slot, skill@, pull@, id_texts(enemies@)),
{
    let ghost start = views(out@);
    let ghost a = actor@;
    let ghost sk = skill@;
    let mut k: usize = 0;
    while k < pull.len()
        invariant
            k <= pull@.len(),
            a == actor@,
            sk == skill@,
            views(out@) == start + pull@.take(k as int).map_values(
                |e: u32| ActionView::Engage { actor: a, slot, skill: sk, enemy_slot: e },
            ),
        decreases pull.len() - k,
    {
        let act = Action::Engage { actor: actor.duplicate(), slot, skill: skill.duplicate(), enemy_slot: pull[k] };
        proof {
            lemma_views_push(out@, act);
            assert(pull@.take(k + 1) =~= pull@.take(k as int).push(pull@[k as int]));
        }
        out.push(act);
        k = k + 1;
        proof {
            assert(views(out@) =~= start + pull@.take(k as int).map_values(
                |e: u32| ActionView::Engage { actor: a, slot, skill: sk, enemy_slot: e },
            ));
        }
    }
    let ghost mid = views(out@);
    proof {
        assert(pull@.take(pull@.len() as int) =~= pull@);
    }
    let mut t: usize = 0;
    while t < enemies.len()
        invariant
            t <= enemies@.len(),
            a == actor@,
            sk == skill@,
            views(out@) == mid + id_texts(enemies@).take(t as int).map_values(
                |x: Seq<char>| ActionView::Assign { actor: a, slot, skill: sk, target: x },
            ),
        decreases enemies.len() - t,
    {
        let act = Action::Assign { actor: actor.duplicate(), slot, skill: skill.duplicate(), target: enemies[t].duplicate() };
        proof {
            lemma_views_push(out@, act);
            assert(id_texts(enemies@).take(t + 1) =~= id_texts(enemies@).take(t as int).push(enemies@[t as int]@));
        }
        out.push(act);
        t = t + 1;
        proof {
            assert(views(out@) =~= mid + id_texts(enemies@).take(t as int).map_values(
                |x: Seq<char>| ActionView::Assign { actor: a, slot, skill: sk, target: x },
            ));
        }
    }
    proof {
        assert(id_texts(enemies@).take(enemies@.len() as int) =~= id_texts(enemies@));
        assert(views(out@) =~= views(old(out)@) + skill_choices(actor@, slot, skill@, pull@, id_texts(enemies@)));
    }
}

/// Appends `kind_choices` for one E.G.O skill kind.
fn push_kind_choices(
    out: &mut Vec<Action>,
    actor: &UnitId,
    slot: u32,
    ego: &EgoId,
    kind: EgoSkillKind,
    payable: bool,
    enemies: &Vec<UnitId>,
)
    ensures
        views(final(out)@) == views(old(out)@) + kind_choices(actor@, slot, ego@, kind, payable, id_texts(enemies@)),
{
    if !payable {
        assert(views(out@) =~= views(out@) + Seq::<ActionView>::empty());
        return;
    }
    let ghost start = views(out@);
    let ghost a = actor@;
    let ghost e = ego@;
    let mut t: usize = 0;
    while t < enemies.len()
        invariant
            t <= enemies@.len(),
            a == actor@,
            e == ego@,
            views(out@) == start + id_texts(enemies@).take(t as int).map_values(
                |x: Seq<char>| ActionView::UseEgo { actor: a, slot, ego: e, kind, target: x },
            ),
        decreases enemies.len() - t,
    {
        let act = Action::UseEgo { actor: actor.duplicate(), slot, ego: EgoId::new(ego.as_str()), kind, target: enemies[t].duplicate() };
        proof {
            lemma_views_push(out@, act);
            assert(id_texts(enemies@).take(t + 1) =~= id_texts(enemies@).take(t as int).push(enemies@[t as int]@));
        }
        out.push(act);
        t = t + 1;
        proof {
            assert(views(out@) =~= start + id_texts(enemies@).take(t as int).map_values(
                |x: Seq<char>| ActionView::UseEgo { actor: a, slot, ego: e, kind, target: x },
            ));
        }
    }
    proof {
        assert(id_texts(enemies@).take(enemies@.len() as int) =~= id_texts(enemies@));
    }
}

/// Appends `skills_choices` for one slot.
fn push_skills_choices(
    out: &mut Vec<Action>,
    actor: &UnitId,
    slot: u32,
    skills: &Vec<SkillId>,
    pull: &Vec<u32>,
    enemies: &Vec<UnitId>,
)
    ensures
        views(final(out)@) == views(old(out)@) + skills_choices(
            actor@,
            slot,
            skill_texts(skills@),
            pull@,
            id_texts(enemies@),
        ),
{
    let ghost start = views(out@);
    let mut k: usize = 0;
    while k < skills.len()
        invariant
            k <= skills@.len(),
            views(out@) == start + skills_choices(
                actor@,
                slot,
                skill_texts(skills@).take(k as int),
                pull@,
                id_texts(enemies@),
            ),
        decreases skills.len() - k,
    {
        let ghost before = views(out@);
        push_skill_choices(out, actor, slot, &skills[k], pull, enemies);
        proof {
            let taken = skill_texts(skills@).take(k + 1);
            assert(taken.drop_last() =~= skill_texts(skills@).take(k as int));
            assert(taken.last() == skills@[k as int]@);
            assert(views(out@) =~= start + skills_choices(actor@, slot, taken, pull@, id_texts(enemies@)));
        }
        k = k + 1;
    }
    proof {
        assert(skill_texts(skills@).take(skills@.len() as int) =~= skill_texts(skills@));
    }
}

/// Appends `egos_choices` for one slot.
fn push_egos_choices(
    out: &mut Vec<Action>,
    actor: &UnitId,
    slot: u32,
    equipped: &Vec<EgoId>,
    egos: &StrMap<EgoRecord>,
    sanity: Sanity,
    resources: &StrMap<i32>,
    enemies: &Vec<UnitId>,
)
    requires
        egos.wf(),
        resources.wf(),
        forall|k: Seq<char>| #[trigger] egos@.contains_key(k) ==> egos@[k].resource_cost.wf(),
    ensures
        views(final(out)@) == views(old(out)@) + egos_choices(
            actor@,
            slot,
            ego_texts(equipped@),
            egos@,
            sanity,
            resources@,
            id_texts(enemies@),
        ),
{
    let ghost start = views(out@);
    let mut k: usize = 0;
    while k < equipped.len()
        invariant
            k <= equipped@.len(),
            egos.wf(),
            resources.wf(),
            forall|k: Seq<char>| #[trigger] egos@.contains_key(k) ==> egos@[k].resource_cost.wf(),
            views(out@) == start + egos_choices(
                actor@,
                slot,
                ego_texts(equipped@).take(k as int),
                egos@,
                sanity,
                resources@,
                id_texts(enemies@),
            ),
        decreases equipped.len() - k,
    {
        let ghost before = views(out@);
        let id = &equipped[k];
        match egos.get(id.as_str()) {
            Some(record) => {
                let awake = ego_affordable(sanity, resources, record, EgoSkillKind::Awakening);
                push_kind_choices(out, actor, slot, id, EgoSkillKind::Awakening, awake, enemies);
                let over = ego_affordable(sanity, resources, record, EgoSkillKind::Overclock);
                push_kind_choices(out, actor, slot, id, EgoSkillKind::Overclock, over, enemies);
            },
            None => {},
        }
        proof {
            let taken = ego_texts(equipped@).take(k + 1);
            assert(taken.drop_last() =~= ego_texts(equipped@).take(k as int));
            assert(taken.last() == equipped@[k as int]@);
            assert(views(out@) =~= start + egos_choices(
                actor@,
                slot,
                taken,
                egos@,
                sanity,
                resources@,
                id_texts(enemies@),
            ));
        }
        k = k + 1;
    }
    proof {
        assert(ego_texts(equipped@).take(equipped@.len() as int) =~= ego_texts(equipped@));
    }
}

/// Both drawn cards of every slot (empty cards left out), then the defense
/// skills of the kit.
fn skill_candidates(dash: &Vec<DashboardSlot>, kit: &Vec<SkillRecord>) -> (r: Vec<SkillId>)
    ensures
        skill_texts(r@) == drawn_texts(dash@) + defense_texts(kit@),
{
    let mut r: Vec<SkillId> = Vec::new();
    let mut j: usize = 0;
    while j < dash.len()
        invariant
            j <= dash@.len(),
            skill_texts(r@) == drawn_texts(dash@.take(j as int)),
        decreases dash.len() - j,
    {
        let s = &dash[j];
        proof {
            assert(dash@.take(j + 1).drop_last() =~= dash@.take(j as int));
            assert(dash@.take(j + 1).last() == dash@[j as int]);
            reveal_strlit("");
        }
        if !s.current.same(&SkillId::new(EMPTY_SKILL)) {
            let ghost before = r@;
            r.push(s.current.duplicate());
            assert(skill_texts(r@) =~= skill_texts(before).push(s.current@));
        }
        if !s.next.same(&SkillId::new(EMPTY_SKILL)) {
            let ghost before = r@;
            r.push(s.next.duplicate());
            assert(skill_texts(r@) =~= skill_texts(before).push(s.next@));
        }
        j = j + 1;
    }
    proof {
        assert(dash@.take(dash@.len() as int) =~= dash@);
    }
    let ghost drawn = skill_texts(r@);
    let mut k: usize = 0;
    while k < kit.len()
        invariant
            k <= kit@.len(),
            drawn == drawn_texts(dash@),
            skill_texts(r@) == drawn + defense_texts(kit@.take(k as int)),
        decreases kit.len() - k,
    {
        let skill = &kit[k];
        proof {
            assert(kit@.take(k + 1).drop_last() =~= kit@.take(k as int));
            assert(kit@.take(k + 1).last() == kit@[k as int]);
        }
        if skill.slot() == Some(SkillSlot::Defense) {
            let ghost before = r@;
            r.push(SkillId::new(skill.id.as_str()));
            assert(skill_texts(r@) =~= skill_texts(before).push(skill.id@));
        }
        k = k + 1;
        assert(skill_texts(r@) =~= drawn + defense_texts(kit@.take(k as int)));
    }
    proof {
        assert(kit@.take(kit@.len() as int) =~= kit@);
    }
    r
}

/// The enemy Skill Slots `me` may chain to (see `pull_from`).
fn pullable(units: &Vec<Unit>, actions: &Vec<SubmittedAction>, me: &Unit) -> (r: Vec<u32>)
    ensures
        r@ == pull_from(units@, actions@, *me),
{
    let mut r: Vec<u32> = Vec::new();
    let mut k: usize = 0;
    while k < actions.len()
        invariant
            k <= actions@.len(),
            r@ == pull_from(units@, actions@.take(k as int), *me),
        decreases actions.len() - k,
    {
        let a = &actions[k];
        proof {
            assert(actions@.take(k + 1).drop_last() =~= actions@.take(k as int));
            assert(actions@.take(k + 1).last() == actions@[k as int]);
        }
        let owner = index_of(units, &a.actor);
        proof {
            lemma_unit_from(units@, a.actor@, 0);
        }
        let by_sinner = match owner {
            Some(i) => units[i].kind.is_sinner(),
            None => false,
        };
        let owner_speed = match owner {
            Some(i) => units[i].speed,
            None => 0,
        };
        let aimed_at_me = match &a.target {
            Some(t) => t.same(&me.id),
            None => false,
        };
        if !by_sinner && (aimed_at_me || me.speed > owner_speed) {
            r.push(a.slot);
        }
        k = k + 1;
    }
    proof {
        assert(actions@.take(actions@.len() as int) =~= actions@);
    }
    r
}

/// What one unit may do: nothing unless it is a living Sinner that is not
/// Staggered and whose identity the library knows; otherwise, slot by slot,
/// each selectable skill (chained or aimed) and each payable E.G.O use.
pub open spec fn unit_choices(
    u: Unit,
    units: Seq<Unit>,
    actions: Seq<SubmittedAction>,
    focused: bool,
    kits: Map<Seq<char>, Vec<SkillRecord>>,
    egos: Map<Seq<char>, EgoRecord>,
    resources: Map<Seq<char>, i32>,
    enemies: Seq<Seq<char>>,
) -> Seq<ActionView> {
    match u.kind {
        UnitKind::Sinner { identity } => {
            if u.alive && !(u.stagger.turns_remaining > 0) && kits.contains_key(identity@) {
                let skills = selectable_skills(u.dashboard@, kits[identity@]@);
                let pull = if focused {
                    pull_from(units, actions, u)
                } else {
                    Seq::empty()
                };
                slots_choices(u, u.dashboard@, skills, pull, enemies, egos, resources)
            } else {
                Seq::empty()
            }
        },
        UnitKind::Abnormality { .. } => Seq::empty(),
    }
}

/// `unit_choices` for each of `us` in turn.
pub open spec fn units_choices(
    us: Seq<Unit>,
    units: Seq<Unit>,
    actions: Seq<SubmittedAction>,
    focused: bool,
    kits: Map<Seq<char>, Vec<SkillRecord>>,
    egos: Map<Seq<char>, EgoRecord>,
    resources: Map<Seq<char>, i32>,
    enemies: Seq<Seq<char>>,
) -> Seq<ActionView>
    decreases us.len(),
{
    if us.len() == 0 {
        Seq::empty()
    } else {
        units_choices(us.drop_last(), units, actions, focused, kits, egos, resources, enemies)
            + unit_choices(us.last(), units, actions, focused, kits, egos, resources, enemies)
    }
}

/// The legal actions of a turn: none outside the action phase or once the
/// battle is decided; otherwise every unit's choices, then `Commit`.
pub open spec fn legal_choices(
    units: Seq<Unit>,
    actions: Seq<SubmittedAction>,
    phase: Phase,
    winner: Option<Winner>,
    focused: bool,
    kits: Map<Seq<char>, Vec<SkillRecord>>,
    egos: Map<Seq<char>, EgoRecord>,
    resources: Map<Seq<char>, i32>,
) -> Seq<ActionView> {
    if phase != Phase::AwaitingActions || winner is Some {
        Seq::empty()
    } else {
        let enemies = ids_where(units, |u: Unit| living_enemy(u));
        units_choices(units, units, actions, focused, kits, egos, resources, enemies).push(ActionView::Commit)
    }
}

/// Appends `unit_choices` for one unit.
fn push_unit_choices(
    out: &mut Vec<Action>,
    u: &Unit,
    units: &Vec<Unit>,
    actions: &Vec<SubmittedAction>,
    focused: bool,
    kits: &StrMap<Vec<SkillRecord>>,
    egos: &StrMap<EgoRecord>,
    resources: &StrMap<i32>,
    enemies: &Vec<UnitId>,
)
    requires
        kits.wf(),
        egos.wf(),
        resources.wf(),
        forall|k: Seq<char>| #[trigger] egos@.contains_key(k) ==> egos@[k].resource_cost.wf(),
    ensures
        views(final(out)@) == views(old(out)@) + unit_choices(
            *u,
            units@,
            actions@,
            focused,
            kits@,
            egos@,
            resources@,
            id_texts(enemies@),
        ),
{
    let identity = match &u.kind {
        UnitKind::Sinner { identity } => identity,
        UnitKind::Abnormality { .. } => {
            assert(views(out@) =~= views(out@) + Seq::<ActionView>::empty());
            return;
        },
    };
    if !u.alive || u.is_staggered() {
        assert(views(out@) =~= views(out@) + Seq::<ActionView>::empty());
        return;
    }
    let kit = match kits.get(identity.as_str()) {
        Some(kit) => kit,
        None => {
            assert(views(out@) =~= views(out@) + Seq::<ActionView>::empty());
            return;
        },
    };
    let candidates = skill_candidates(&u.dashboard, kit);
    let skills = sort_unique_ids(&candidates);
    let pull = if focused {
        pullable(units, actions, u)
    } else {
        Vec::new()
    };
    let ghost start = views(out@);
    let ghost sk = skill_texts(skills@);
    let ghost en = id_texts(enemies@);
    let mut j: usize = 0;
    while j < u.dashboard.len()
        invariant
            j <= u.dashboard@.len(),
            egos.wf(),
            resources.wf(),
            forall|k: Seq<char>| #[trigger] egos@.contains_key(k) ==> egos@[k].resource_cost.wf(),
            sk == skill_texts(skills@),
            en == id_texts(enemies@),
            views(out@) == start + slots_choices(*u, u.dashboard@.take(j as int), sk, pull@, en, egos@, resources@),
        decreases u.dashboard.len() - j,
    {
        let slot = u.dashboard[j].slot;
        let ghost before = views(out@);
        push_skills_choices(out, &u.id, slot, &skills, &pull, enemies);
        let ghost mid = views(out@);
        push_egos_choices(out, &u.id, slot, &u.ego_slots, egos, u.sanity, resources, enemies);
        proof {
            let taken = u.dashboard@.take(j + 1);
            assert(taken.drop_last() =~= u.dashboard@.take(j as int));
            assert(taken.last() == u.dashboard@[j as int]);
            assert(views(out@) =~= start + slots_choices(*u, taken, sk, pull@, en, egos@, resources@));
        }
        j = j + 1;
    }
    proof {
        assert(u.dashboard@.take(u.dashboard@.len() as int) =~= u.dashboard@);
    }
}

/// Every action the player may submit now, in the order unit -> slot ->
/// skill -> target, followed by `Commit`; nothing outside the action phase
/// or once the battle is decided.  `kits` holds each identity's skills,
/// `egos` the E.G.O records, `resources` what the team holds.
pub fn legal_actions(
    units: &Vec<Unit>,
    actions: &Vec<SubmittedAction>,
    phase: Phase,
    winner: Option<Winner>,
    focused: bool,
    kits: &StrMap<Vec<SkillRecord>>,
    egos: &StrMap<EgoRecord>,
    resources: &StrMap<i32>,
) -> (r: Vec<Action>)
    requires
        kits.wf(),
        egos.wf(),
        resources.wf(),
        forall|k: Seq<char>| #[trigger] egos@.contains_key(k) ==> egos@[k].resource_cost.wf(),
    ensures
        views(r@) == legal_choices(units@, actions@, phase, winner, focused, kits@, egos@, resources@),
{
    let mut out: Vec<Action> = Vec::new();
    if phase != Phase::AwaitingActions || winner.is_some() {
        assert(views(out@) =~= Seq::<ActionView>::empty());
        return out;
    }
    let enemies = living_enemies(units);
    let ghost en = id_texts(enemies@);
    let mut i: usize = 0;
    while i < units.len()
        invariant
            i <= units@.len(),
            kits.wf(),
            egos.wf(),
            resources.wf(),
            forall|k: Seq<char>| #[trigger] egos@.contains_key(k) ==> egos@[k].resource_cost.wf(),
            en == id_texts(enemies@),
            views(out@) == units_choices(units@.take(i as int), units@, actions@, focused, kits@, egos@, resources@, en),
        decreases units.len() - i,
    {
        proof {
            assert(views(out@) =~= Seq::<ActionView>::empty() + views(out@));
        }
        push_unit_choices(&mut out, &units[i], units, actions, focused, kits, egos, resources, &enemies);
        proof {
            let taken = units@.take(i + 1);
            assert(taken.drop_last() =~= units@.take(i as int));
            assert(taken.last() == units@[i as int]);
        }
        i = i + 1;
    }
    proof {
        assert(units@.take(units@.len() as int) =~= units@);
        lemma_views_push(out@, Action::Commit);
    }
    out.push(Action::Commit);
    out
}

/// An E.G.O use by `who` that it and the team can pay for, and that is not a
/// Corrosion (any other action passes).
pub open spec fn paid_by(
    x: ActionView,
    who: Unit,
    egos: Map<Seq<char>, EgoRecord>,
    resources: Map<Seq<char>, i32>,
) -> bool {
    match x {
        ActionView::UseEgo { actor, ego, kind, .. } => {
            &&& actor == who.id@
            &&& kind != EgoSkillKind::Corrosion
            &&& egos.contains_key(ego)
            &&& ego_affordable_spec(who.sanity, resources, egos[ego], kind)
        },
        _ => true,
    }
}

/// Every action of `s` passes `paid_by` for `who`.
pub open spec fn all_paid_by(
    s: Seq<ActionView>,
    who: Unit,
    egos: Map<Seq<char>, EgoRecord>,
    resources: Map<Seq<char>, i32>,
) -> bool {
    forall|n: int| 0 <= n < s.len() ==> paid_by(#[trigger] s[n], who, egos, resources)
}

proof fn lemma_all_paid_concat(
    a: Seq<ActionView>,
    b: Seq<ActionView>,
    who: Unit,
    egos: Map<Seq<char>, EgoRecord>,
    resources: Map<Seq<char>, i32>,
)
    requires
        all_paid_by(a, who, egos, resources),
        all_paid_by(b, who, egos, resources),
    ensures
        all_paid_by(a + b, who, egos, resources),
{
    assert forall|n: int| 0 <= n < (a + b).len() implies paid_by(#[trigger] (a + b)[n], who, egos, resources) by {
        if n < a.len() {
            assert((a + b)[n] == a[n]);
        } else {
            assert((a + b)[n] == b[n - a.len()]);
        }
    }
}

proof fn lemma_skills_paid(
    who: Unit,
    slot: u32,
    skills: Seq<Seq<char>>,
    pull: Seq<u32>,
    enemies: Seq<Seq<char>>,
    egos: Map<Seq<char>, EgoRecord>,
    resources: Map<Seq<char>, i32>,
)
    ensures
        all_paid_by(skills_choices(who.id@, slot, skills, pull, enemies), who, egos, resources),
    decreases skills.len(),
{
    if skills.len() > 0 {
        lemma_skills_paid(who, slot, skills.drop_last(), pull, enemies, egos, resources);
        let one = skill_choices(who.id@, slot, skills.last(), pull, enemies);
        assert forall|n: int| 0 <= n < one.len() implies paid_by(#[trigger] one[n], who, egos, resources) by {
            if n < pull.len() {
                assert(one[n] is Engage);
            } else {
                assert(one[n] is Assign);
            }
        }
        lemma_all_paid_concat(
            skills_choices(who.id@, slot, skills.drop_last(), pull, enemies),
            one,
            who,
            egos,
            resources,
        );
    }
}

proof fn lemma_egos_paid(
    who: Unit,
    slot: u32,
    equipped: Seq<Seq<char>>,
    egos: Map<Seq<char>, EgoRecord>,
    resources: Map<Seq<char>, i32>,
    enemies: Seq<Seq<char>>,
)
    ensures
        all_paid_by(egos_choices(who.id@, slot, equipped, egos, who.sanity, resources, enemies), who, egos, resources),
    decreases equipped.len(),
{
    if equipped.len() > 0 {
        lemma_egos_paid(who, slot, equipped.drop_last(), egos, resources, enemies);
        let e = equipped.last();
        if egos.contains_key(e) {
            let rec = egos[e];
            let aw = kind_choices(
                who.id@,
                slot,
                e,
                EgoSkillKind::Awakening,
                ego_affordable_spec(who.sanity, resources, rec, EgoSkillKind::Awakening),
                enemies,
            );
            let oc = kind_choices(
                who.id@,
                slot,
                e,
                EgoSkillKind::Overclock,
                ego_affordable_spec(who.sanity, resources, rec, EgoSkillKind::Overclock),
                enemies,
            );
            assert(all_paid_by(aw, who, egos, resources));
            assert(all_paid_by(oc, who, egos, resources));
            lemma_all_paid_concat(aw, oc, who, egos, resources);
        } else {
            assert(all_paid_by(Seq::empty(), who, egos, resources));
        }
        lemma_all_paid_concat(
            egos_choices(who.id@, slot, equipped.drop_last(), egos, who.sanity, resources, enemies),
            ego_choices(who.id@, slot, e, egos, who.sanity, resources, enemies),
            who,
            egos,
            resources,
        );
    }
}

proof fn lemma_slots_paid(
    who: Unit,
    slots: Seq<DashboardSlot>,
    skills: Seq<Seq<char>>,
    pull: Seq<u32>,
    enemies: Seq<Seq<char>>,
    egos: Map<Seq<char>, EgoRecord>,
    resources: Map<Seq<char>, i32>,
)
    ensures
        all_paid_by(slots_choices(who, slots, skills, pull, enemies, egos, resources), who, egos, resources),
    decreases slots.len(),
{
    if slots.len() > 0 {
        let slot = slots.last().slot;
        lemma_slots_paid(who, slots.drop_last(), skills, pull, enemies, egos, resources);
        lemma_skills_paid(who, slot, skills, pull, enemies, egos, resources);
        lemma_egos_paid(who, slot, ego_texts(who.ego_slots@), egos, resources, enemies);
        lemma_all_paid_concat(
            slots_choices(who, slots.drop_last(), skills, pull, enemies, egos, resources),
            skills_choices(who.id@, slot, skills, pull, enemies),
            who,
            egos,
            resources,
        );
        lemma_all_paid_concat(
            slots_choices(who, slots.drop_last(), skills, pull, enemies, egos, resources) + skills_choices(
                who.id@,
                slot,
                skills,
                pull,
                enemies,
            ),
            egos_choices(who.id@, slot, ego_texts(who.ego_slots@), egos, who.sanity, resources, enemies),
            who,
            egos,
            resources,
        );
    }
}

proof fn lemma_units_paid(
    us: Seq<Unit>,
    units: Seq<Unit>,
    actions: Seq<SubmittedAction>,
    focused: bool,
    kits: Map<Seq<char>, Vec<SkillRecord>>,
    egos: Map<Seq<char>, EgoRecord>,
    resources: Map<Seq<char>, i32>,
    enemies: Seq<Seq<char>>,
)
    ensures
        forall|n: int|
            0 <= n < units_choices(us, units, actions, focused, kits, egos, resources, enemies).len()
                ==> exists|i: int|
                0 <= i < us.len() && paid_by(
                    #[trigger] units_choices(us, units, actions, focused, kits, egos, resources, enemies)[n],
                    us[i],
                    egos,
                    resources,
                ),
    decreases us.len(),
{
    if us.len() > 0 {
        let rest = units_choices(us.drop_last(), units, actions, focused, kits, egos, resources, enemies);
        let last = unit_choices(us.last(), units, actions, focused, kits, egos, resources, enemies);
        lemma_units_paid(us.drop_last(), units, actions, focused, kits, egos, resources, enemies);
        let u = us.last();
        match u.kind {
            UnitKind::Sinner { identity } => {
                if u.alive && !(u.stagger.turns_remaining > 0) && kits.contains_key(identity@) {
                    let skills = selectable_skills(u.dashboard@, kits[identity@]@);
                    let pull = if focused {
                        pull_from(units, actions, u)
                    } else {
                        Seq::empty()
                    };
                    lemma_slots_paid(u, u.dashboard@, skills, pull, enemies, egos, resources);
                }
            },
            UnitKind::Abnormality { .. } => {},
        }
        assert(all_paid_by(last, u, egos, resources));
        let all = rest + last;
        assert forall|n: int| 0 <= n < all.len() implies exists|i: int|
            0 <= i < us.len() && paid_by(#[trigger] all[n], us[i], egos, resources) by {
            if n < rest.len() {
                assert(all[n] == rest[n]);
                let i = choose|i: int| 0 <= i < us.drop_last().len() && paid_by(rest[n], us.drop_last()[i], egos, resources);
                assert(us[i] == us.drop_last()[i]);
            } else {
                assert(all[n] == last[n - rest.len()]);
                assert(paid_by(last[n - rest.len()], u, egos, resources));
                assert(us[us.len() - 1] == u);
            }
        }
    }
}

/// Every E.G.O use `legal_actions` lists belongs to one of the units, is an
/// Awakening or an Overclock (never a Corrosion), and is one that unit and
/// the team can pay for right now.
pub proof fn listed_ego_uses_are_affordable(
    units: Seq<Unit>,
    actions: Seq<SubmittedAction>,
    phase: Phase,
    winner: Option<Winner>,
    focused: bool,
    kits: Map<Seq<char>, Vec<SkillRecord>>,
    egos: Map<Seq<char>, EgoRecord>,
    resources: Map<Seq<char>, i32>,
    n: int,
)
    requires
        0 <= n < legal_choices(units, actions, phase, winner, focused, kits, egos, resources).len(),
        legal_choices(units, actions, phase, winner, focused, kits, egos, resources)[n] is UseEgo,
    ensures
        exists|i: int|
            0 <= i < units.len() && paid_by(
                legal_choices(units, actions, phase, winner, focused, kits, egos, resources)[n],
                units[i],
                egos,
                resources,
            ),
{
    let all = legal_choices(units, actions, phase, winner, focused, kits, egos, resources);
    if phase == Phase::AwaitingActions && winner is None {
        let enemies = ids_where(units, |u: Unit| living_enemy(u));
        let body = units_choices(units, units, actions, focused, kits, egos, resources, enemies);
        lemma_units_paid(units, units, actions, focused, kits, egos, resources, enemies);
        if n < body.len() {
            assert(all[n] == body[n]);
            let i = choose|i: int| 0 <= i < units.len() && paid_by(body[n], units[i], egos, resources);
            assert(paid_by(all[n], units[i], egos, resources));
        } else {
            assert(all[n] == ActionView::Commit);
        }
    }
}

/// In the action phase of an undecided battle the last legal action is
/// `Commit`, and it is listed once.
pub proof fn commit_closes_the_list(
    units: Seq<Unit>,
    actions: Seq<SubmittedAction>,
    focused: bool,
    kits: Map<Seq<char>, Vec<SkillRecord>>,
    egos: Map<Seq<char>, EgoRecord>,
    resources: Map<Seq<char>, i32>,
)
    ensures
        ({
            let all = legal_choices(units, actions, Phase::AwaitingActions, None, focused, kits, egos, resources);
            &&& all.len() > 0
            &&& all.last() == ActionView::Commit
            &&& forall|n: int| 0 <= n < all.len() - 1 ==> all[n] != ActionView::Commit
        }),
{
    let enemies = ids_where(units, |u: Unit| living_enemy(u));
    lemma_no_commit_in_units(units, units, actions, focused, kits, egos, resources, enemies);
}

proof fn lemma_no_commit_in_units(
    us: Seq<Unit>,
    units: Seq<Unit>,
    actions: Seq<SubmittedAction>,
    focused: bool,
    kits: Map<Seq<char>, Vec<SkillRecord>>,
    egos: Map<Seq<char>, EgoRecord>,
    resources: Map<Seq<char>, i32>,
    enemies: Seq<Seq<char>>,
)
    ensures
        forall|n: int|
            0 <= n < units_choices(us, units, actions, focused, kits, egos, resources, enemies).len()
                ==> #[trigger] units_choices(us, units, actions, focused, kits, egos, resources, enemies)[n]
                != ActionView::Commit,
    decreases us.len(),
{
    if us.len() > 0 {
        lemma_no_commit_in_units(us.drop_last(), units, actions, focused, kits, egos, resources, enemies);
        let rest = units_choices(us.drop_last(), units, actions, focused, kits, egos, resources, enemies);
        let last = unit_choices(us.last(), units, actions, focused, kits, egos, resources, enemies);
        let u = us.last();
        match u.kind {
            UnitKind::Sinner { identity } => {
                if u.alive && !(u.stagger.turns_remaining > 0) && kits.contains_key(identity@) {
                    let skills = selectable_skills(u.dashboard@, kits[identity@]@);
                    let pull = if focused {
                        pull_from(units, actions, u)
                    } else {
                        Seq::empty()
                    };
                    lemma_slots_no_commit(u, u.dashboard@, skills, pull, enemies, egos, resources);
                }
            },
            UnitKind::Abnormality { .. } => {},
        }
        let all = rest + last;
        assert forall|n: int| 0 <= n < all.len() implies #[trigger] all[n] != ActionView::Commit by {
            if n < rest.len() {
                assert(all[n] == rest[n]);
            } else {
                assert(all[n] == last[n - rest.len()]);
            }
        }
    }
}

proof fn lemma_slots_no_commit(
    who: Unit,
    slots: Seq<DashboardSlot>,
    skills: Seq<Seq<char>>,
    pull: Seq<u32>,
    enemies: Seq<Seq<char>>,
    egos: Map<Seq<char>, EgoRecord>,
    resources: Map<Seq<char>, i32>,
)
    ensures
        forall|n: int|
            0 <= n < slots_choices(who, slots, skills, pull, enemies, egos, resources).len()
                ==> #[trigger] slots_choices(who, slots, skills, pull, enemies, egos, resources)[n]
                != ActionView::Commit,
    decreases slots.len(),
{
    if slots.len() > 0 {
        let slot = slots.last().slot;
        lemma_slots_no_commit(who, slots.drop_last(), skills, pull, enemies, egos, resources);
        lemma_skills_paid(who, slot, skills, pull, enemies, egos, resources);
        lemma_egos_paid(who, slot, ego_texts(who.ego_slots@), egos, resources, enemies);
        lemma_skills_no_commit(who.id@, slot, skills, pull, enemies);
        lemma_egos_no_commit(who.id@, slot, ego_texts(who.ego_slots@), egos, who.sanity, resources, enemies);
        let a = slots_choices(who, slots.drop_last(), skills, pull, enemies, egos, resources);
        let b = skills_choices(who.id@, slot, skills, pull, enemies);
        let c = egos_choices(who.id@, slot, ego_texts(who.ego_slots@), egos, who.sanity, resources, enemies);
        let all = a + b + c;
        assert forall|n: int| 0 <= n < all.len() implies #[trigger] all[n] != ActionView::Commit by {
            if n < a.len() {
                assert(all[n] == a[n]);
            } else if n < a.len() + b.len() {
                assert(all[n] == b[n - a.len()]);
            } else {
                assert(all[n] == c[n - a.len() - b.len()]);
            }
        }
    }
}

proof fn lemma_skills_no_commit(
    actor: Seq<char>,
    slot: u32,
    skills: Seq<Seq<char>>,
    pull: Seq<u32>,
    enemies: Seq<Seq<char>>,
)
    ensures
        forall|n: int|
            0 <= n < skills_choices(actor, slot, skills, pull, enemies).len()
                ==> #[trigger] skills_choices(actor, slot, skills, pull, enemies)[n] != ActionView::Commit,
    decreases skills.len(),
{
    if skills.len() > 0 {
        lemma_skills_no_commit(actor, slot, skills.drop_last(), pull, enemies);
        let a = skills_choices(actor, slot, skills.drop_last(), pull, enemies);
        let b = skill_choices(actor, slot, skills.last(), pull, enemies);
        let all = a + b;
        assert forall|n: int| 0 <= n < all.len() implies #[trigger] all[n] != ActionView::Commit by {
            if n < a.len() {
                assert(all[n] == a[n]);
            } else {
                assert(all[n] == b[n - a.len()]);
                if n - a.len() < pull.len() {
                    assert(b[n - a.len()] is Engage);
                } else {
                    assert(b[n - a.len()] is Assign);
                }
            }
        }
    }
}

proof fn lemma_egos_no_commit(
    actor: Seq<char>,
    slot: u32,
    equipped: Seq<Seq<char>>,
    egos: Map<Seq<char>, EgoRecord>,
    sanity: Sanity,
    resources: Map<Seq<char>, i32>,
    enemies: Seq<Seq<char>>,
)
    ensures
        forall|n: int|
            0 <= n < egos_choices(actor, slot, equipped, egos, sanity, resources, enemies).len()
                ==> #[trigger] egos_choices(actor, slot, equipped, egos, sanity, resources, enemies)[n]
                != ActionView::Commit,
    decreases equipped.len(),
{
    if equipped.len() > 0 {
        lemma_egos_no_commit(actor, slot, equipped.drop_last(), egos, sanity, resources, enemies);
        let a = egos_choices(actor, slot, equipped.drop_last(), egos, sanity, resources, enemies);
        let b = ego_choices(actor, slot, equipped.last(), egos, sanity, resources, enemies);
        let all = a + b;
        assert forall|n: int| 0 <= n < all.len() implies #[trigger] all[n] != ActionView::Commit by {
            if n < a.len() {
                assert(all[n] == a[n]);
            } else {
                assert(all[n] == b[n - a.len()]);
                let e = equipped.last();
                if egos.contains_key(e) {
                    let rec = egos[e];
                    let aw = kind_choices(
                        actor,
                        slot,
                        e,
                        EgoSkillKind::Awakening,
                        ego_affordable_spec(sanity, resources, rec, EgoSkillKind::Awakening),
                        enemies,
                    );
                    let m = n - a.len();
                    if m < aw.len() {
                        assert(b[m] == aw[m]);
                    } else {
                        assert(b[m] is UseEgo);
                    }
                }
            }
        }
    }
}

/// The first skill of a kit from index `j` on whose id is `id`.
pub open spec fn kit_skill_from(kit: Seq<SkillRecord>, id: Seq<char>, j: int) -> Option<int>
    decreases kit.len() - j,
{
    if j < 0 || j >= kit.len() {
        None
    } else if kit[j].id@ == id {
        Some(j)
    } else {
        kit_skill_from(kit, id, j + 1)
    }
}

/// The defense family a skill's type names: "Guard", "Evade", otherwise a
/// Counter.
pub open spec fn family_of(kind: Option<String>) -> DefenseKind {
    match kind {
        Some(k) => if k@ == "Guard"@ {
            DefenseKind::Guard
        } else if k@ == "Evade"@ {
            DefenseKind::Evade
        } else {
            DefenseKind::Counter
        },
        None => DefenseKind::Counter,
    }
}

/// The defense family of a submitted action: only a Sinner's skill (not an
/// E.G.O) listed in its identity's kit with the Defense slot is one.
pub open spec fn defense_kind_of(
    units: Seq<Unit>,
    kits: Map<Seq<char>, Vec<SkillRecord>>,
    action: SubmittedAction,
) -> Option<DefenseKind> {
    if action.is_ego {
        None
    } else {
        match unit_index(units, action.actor@) {
            None => None,
            Some(i) => match units[i].kind {
                UnitKind::Sinner { identity } => if kits.contains_key(identity@) {
                    let kit = kits[identity@]@;
                    match kit_skill_from(kit, action.skill@, 0) {
                        Some(j) => if skill_slot_from_text(kit[j].slot@) == Some(SkillSlot::Defense) {
                            Some(family_of(kit[j].kind))
                        } else {
                            None
                        },
                        None => None,
                    }
                } else {
                    None
                },
                UnitKind::Abnormality { .. } => None,
            },
        }
    }
}

proof fn lemma_kit_skill_from(kit: Seq<SkillRecord>, id: Seq<char>, j: int)
    requires
        0 <= j,
    ensures
        kit_skill_from(kit, id, j) matches Some(k) ==> j <= k < kit.len(),
    decreases kit.len() - j,
{
    if j < kit.len() && kit[j].id@ != id {
        lemma_kit_skill_from(kit, id, j + 1);
    }
}

/// Classify a submitted action as a defense skill, if it is one (see
/// `defense_kind_of`).
pub fn action_defense_kind(
    units: &Vec<Unit>,
    kits: &StrMap<Vec<SkillRecord>>,
    action: &SubmittedAction,
) -> (r: Option<DefenseKind>)
    requires
        kits.wf(),
    ensures
        r == defense_kind_of(units@, kits@, *action),
{
    if action.is_ego {
        return None;
    }
    let i = match index_of(units, &action.actor) {
        Some(i) => i,
        None => return None,
    };
    proof {
        lemma_unit_from(units@, action.actor@, 0);
    }
    let identity = match &units[i].kind {
        UnitKind::Sinner { identity } => identity,
        UnitKind::Abnormality { .. } => return None,
    };
    let kit = match kits.get(identity.as_str()) {
        Some(k) => k,
        None => return None,
    };
    let mut j: usize = 0;
    while j < kit.len()
        invariant
            j <= kit@.len(),
            kit_skill_from(kit@, action.skill@, 0) == kit_skill_from(kit@, action.skill@, j as int),
        ensures
            j <= kit@.len(),
            j < kit@.len() ==> kit_skill_from(kit@, action.skill@, 0) == Some(j as int),
            j == kit@.len() ==> kit_skill_from(kit@, action.skill@, 0) is None,
        decreases kit.len() - j,
    {
        if same_text(kit[j].id.as_str(), action.skill.as_str()) {
            break;
        }
        j = j + 1;
    }
    if j == kit.len() {
        return None;
    }
    let skill = &kit[j];
    if skill.slot() != Some(SkillSlot::Defense) {
        return None;
    }
    match &skill.kind {
        Some(k) => if same_text(k.as_str(), "Guard") {
            Some(DefenseKind::Guard)
        } else if same_text(k.as_str(), "Evade") {
            Some(DefenseKind::Evade)
        } else {
            Some(DefenseKind::Counter)
        },
        None => Some(DefenseKind::Counter),
    }
}

} // verus!
