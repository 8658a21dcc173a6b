use lcb_core::allies::{ally_targets as targets_of, AllyClause};
use lcb_core::effects::EffectContext;
use lcb_core::ids::{EnemyId, IdentityId, SkillId, UnitId};
use lcb_core::keyed::StrMap;
use lcb_core::rng::Rng;

fn ally_targets(units: &Vec<Unit>, rng: &Rng, actor: usize, c: &AllyClause) -> Vec<usize> {
    let ctx = EffectContext {
        actor_index: actor,
        target_index: None,
        clash_count: 0,
        clash_lost: false,
        slot: 0,
        mechanics_note: Vec::new(),
    };
    targets_of(units, rng, &ctx, c)
}
use lcb_core::state::{
    DashboardSlot, Sanity, SkillDeck, StaggerState, StatusInstance, StatusSet, Unit, UnitKind,
};

fn unit(id: &str, sinner: bool) -> Unit {
    Unit {
        planned_targets: 1,
        id: UnitId::new(id),
        kind: if sinner {
            UnitKind::Sinner { identity: IdentityId::new("10110") }
        } else {
            UnitKind::Abnormality { enemy: EnemyId::new("9567"), part: None }
        },
        name: id.to_string(),
        level: 40,
        hp: 100,
        max_hp: 100,
        shield: 0,
        sanity: if sinner { Sanity::Sane { sp: 0 } } else { Sanity::NoSanity },
        speed: 5,
        speed_range: (3, 7),
        offense_level_mod: 0,
        defense_level_mod: 0,
        stagger: StaggerState::new(vec![]),
        statuses: StatusSet::new(),
        skill_kills: 0,
        suit: None,
        combat_end_sp_loss: Vec::new(),
        status_markers: Vec::new(),
        deck: SkillDeck::new(Vec::new()),
        dashboard: vec![DashboardSlot::new(0, SkillId::new("a"), SkillId::new("b"), SkillId::new("c"))],
        panic_type: None,
        low_morale: false,
        panicked: false,
        corroded: false,
        panic_recovering: false,
        passive_ids: Vec::new(),
        combat_start_statuses: StrMap::new(),
        follow_up_active: false,
        pending_suit_conversion: false,
        petals_gained: 0,
        clash_any_speed_slots: Vec::new(),
        identity_skills: Vec::new(),
        ego_slots: Vec::new(),
        corrosion_egos: Vec::new(),
        alive: true,
        skill_cursor: 0,
        time_state: None,
        time_threshold_flags: 0,
        enemy_slots: 1,
        acts_while_staggered: false,
        clash_count_swing: None,
        time_signature: Vec::new(),
        shield_flat: None,
        ends_encounter_unless_shield_broken: false,
        hp_floor_percent: None,
        barrier_broken: false,
        ends_encounter_on: Vec::new(),
        turn_effect_usage: StrMap::new(),
        pending_next_turn: Vec::new(),
        retaliate_on_hit: Vec::new(),
        segmentation: None,
        hits_taken: 0,
        segmentation_healed: Vec::new(),
        resonance_max: 0,
        resonance_of: StrMap::new(),
        a_reson_max: 0,
    }
}

fn clause(ally: Option<&str>) -> AllyClause {
    AllyClause {
        ally: ally.map(|s| s.to_string()),
        include_self: None,
        from_resonance: false,
        ally_count: None,
        value: None,
        max: None,
        ally_from_status: None,
        ally_from_divisor: None,
    }
}

/// s0 (actor), e1, s2, s3, s4 (dead), s5.
fn team() -> Vec<Unit> {
    let s0 = unit("s0", true);
    let e1 = unit("e1", false);
    let mut s2 = unit("s2", true);
    s2.hp = 40;
    s2.sanity = Sanity::Sane { sp: 10 };
    s2.speed = 3;
    let mut s3 = unit("s3", true);
    s3.hp = 70;
    s3.sanity = Sanity::Sane { sp: -5 };
    s3.speed = 8;
    let mut s4 = unit("s4", true);
    s4.alive = false;
    s4.hp = 1;
    let mut s5 = unit("s5", true);
    s5.hp = 40;
    s5.sanity = Sanity::Sane { sp: 10 };
    s5.speed = 3;
    vec![s0, e1, s2, s3, s4, s5]
}

#[test]
fn self_is_the_default() {
    let rng = Rng::from_seed(1);
    assert_eq!(ally_targets(&team(), &rng, 0, &clause(None)), vec![0]);
    assert_eq!(ally_targets(&team(), &rng, 0, &clause(Some("self"))), vec![0]);
    assert_eq!(ally_targets(&team(), &rng, 0, &clause(Some("nobody"))), vec![0]);
}

#[test]
fn all_allies_are_the_living_units_of_the_side() {
    let rng = Rng::from_seed(1);
    assert_eq!(ally_targets(&team(), &rng, 0, &clause(Some("all_allies"))), vec![2, 3, 5]);
    let mut c = clause(Some("all"));
    c.include_self = Some(true);
    assert_eq!(ally_targets(&team(), &rng, 0, &c), vec![0, 2, 3, 5]);
    assert_eq!(ally_targets(&team(), &rng, 1, &clause(Some("all"))), Vec::<usize>::new());
}

#[test]
fn lowest_and_slowest_allies_ties_in_unit_order() {
    let rng = Rng::from_seed(1);
    let mut c = clause(Some("lowest_hp"));
    c.ally_count = Some(2);
    assert_eq!(ally_targets(&team(), &rng, 0, &c), vec![2, 5]);
    let mut c = clause(Some("lowest_sp"));
    c.value = Some(1);
    assert_eq!(ally_targets(&team(), &rng, 0, &c), vec![3]);
    let mut c = clause(Some("slowest"));
    c.ally_count = Some(5);
    assert_eq!(ally_targets(&team(), &rng, 0, &c), vec![2, 5, 3]);
    let mut c = clause(Some("slowest"));
    c.ally_count = Some(2);
    c.include_self = Some(true);
    // "(including this unit)": the unit is one of the two.
    assert_eq!(ally_targets(&team(), &rng, 0, &c), vec![0, 2]);
}

#[test]
fn the_number_of_allies_can_come_from_resonance_or_a_status() {
    let rng = Rng::from_seed(1);
    let mut units = team();
    units[0].resonance_max = 2;
    let mut c = clause(Some("lowest_sp"));
    c.from_resonance = true;
    c.ally_count = Some(1);
    c.max = Some(2);
    // 1 + Resonance 2 = 3, capped at 2.
    assert_eq!(ally_targets(&units, &rng, 0, &c), vec![3, 2]);
    units[0].statuses.set("Bind", StatusInstance { potency: 0, count: 7, stack: 0 });
    let mut c = clause(Some("slowest"));
    c.ally_from_status = Some("Bind".to_string());
    c.ally_from_divisor = Some(3);
    assert_eq!(ally_targets(&units, &rng, 0, &c), vec![2, 5]);
}

#[test]
fn random_allies_are_distinct_and_repeatable() {
    let rng = Rng::from_seed(9);
    let mut c = clause(Some("random"));
    c.ally_count = Some(2);
    let a = ally_targets(&team(), &rng, 0, &c);
    assert_eq!(a, ally_targets(&team(), &rng, 0, &c));
    assert_eq!(a.len(), 2);
    assert_ne!(a[0], a[1]);
    for k in &a {
        assert!([2usize, 3, 5].contains(k));
    }
    c.ally_count = Some(10);
    c.include_self = Some(true);
    let all = ally_targets(&team(), &rng, 0, &c);
    assert_eq!(all.len(), 4);
    assert_eq!(all[0], 0);
}
