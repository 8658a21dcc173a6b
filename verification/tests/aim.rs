use lcb_core::aim::{enemy_targets, rank_targets};
use lcb_core::ids::{EnemyId, IdentityId, SkillId, UnitId};
use lcb_core::keyed::StrMap;
use lcb_core::rng::Rng;
use lcb_core::state::{
    DashboardSlot, Sanity, SkillDeck, StaggerState, StatusInstance, StatusSet, Unit, UnitKind,
};

fn unit(id: &str, sinner: bool) -> Unit {
    Unit {
        planned_targets: 1,
        id: UnitId::new(id),
        kind: if sinner {
            UnitKind::Sinner { identity: IdentityId::new("10110") }
        } else {
            UnitKind::Abnormality { enemy: EnemyId::new("9567"), part: None }
        },
        name: id.to_string(),
        level: 40,
        hp: 100,
        max_hp: 100,
        shield: 0,
        sanity: if sinner { Sanity::Sane { sp: 0 } } else { Sanity::NoSanity },
        speed: 5,
        speed_range: (3, 7),
        offense_level_mod: 0,
        defense_level_mod: 0,
        stagger: StaggerState::new(vec![]),
        statuses: StatusSet::new(),
        skill_kills: 0,
        suit: None,
        combat_end_sp_loss: Vec::new(),
        status_markers: Vec::new(),
        deck: SkillDeck::new(Vec::new()),
        dashboard: vec![DashboardSlot::new(0, SkillId::new("a"), SkillId::new("b"), SkillId::new("c"))],
        panic_type: None,
        low_morale: false,
        panicked: false,
        corroded: false,
        panic_recovering: false,
        passive_ids: Vec::new(),
        combat_start_statuses: StrMap::new(),
        follow_up_active: false,
        pending_suit_conversion: false,
        petals_gained: 0,
        clash_any_speed_slots: Vec::new(),
        identity_skills: Vec::new(),
        ego_slots: Vec::new(),
        corrosion_egos: Vec::new(),
        alive: true,
        skill_cursor: 0,
        time_state: None,
        time_threshold_flags: 0,
        enemy_slots: 1,
        acts_while_staggered: false,
        clash_count_swing: None,
        time_signature: Vec::new(),
        shield_flat: None,
        ends_encounter_unless_shield_broken: false,
        hp_floor_percent: None,
        barrier_broken: false,
        ends_encounter_on: Vec::new(),
        turn_effect_usage: StrMap::new(),
        pending_next_turn: Vec::new(),
        retaliate_on_hit: Vec::new(),
        segmentation: None,
        hits_taken: 0,
        segmentation_healed: Vec::new(),
        resonance_max: 0,
        resonance_of: StrMap::new(),
        a_reson_max: 0,
    }
}

fn set_status(u: &mut Unit, key: &str, potency: i32, count: i32, stack: i32) {
    u.statuses.set(key, StatusInstance { potency, count, stack });
}

/// s1 (speed 5), e1, s2 (speed 7), s3 (speed 5, Aggro), s4 dead.
fn field() -> Vec<Unit> {
    let s1 = unit("s1", true);
    let e1 = unit("e1", false);
    let mut s2 = unit("s2", true);
    s2.speed = 7;
    let mut s3 = unit("s3", true);
    set_status(&mut s3, "Aggro", 0, 1, 0);
    let mut s4 = unit("s4", true);
    s4.alive = false;
    s4.speed = 9;
    vec![s1, e1, s2, s3, s4]
}

fn tags(list: &[&str]) -> Option<Vec<String>> {
    Some(list.iter().map(|s| s.to_string()).collect())
}

fn ids(r: &[Option<UnitId>]) -> Vec<Option<String>> {
    r.iter().map(|o| o.as_ref().map(|id| id.0.clone())).collect()
}

#[test]
fn aggro_first_then_speed_then_unit_order() {
    assert_eq!(rank_targets(&field()), vec![3, 2, 0]);
    let mut units = field();
    set_status(&mut units[3], "Aggro", 0, 0, 0);
    assert_eq!(rank_targets(&units), vec![2, 0, 3]);
}

#[test]
fn untagged_slots_take_the_sinners_in_turn() {
    let rng = Rng::from_seed(1);
    let got = enemy_targets(&field(), &rng, &vec![None, None, None, None]);
    assert_eq!(
        ids(&got),
        vec![Some("s3".to_string()), Some("s2".to_string()), Some("s1".to_string()), Some("s3".to_string())]
    );
}

#[test]
fn most_hp_takes_the_last_of_the_healthiest() {
    let mut units = field();
    units[0].hp = 80;
    units[2].hp = 100;
    units[3].hp = 100;
    let rng = Rng::from_seed(1);
    let got = enemy_targets(&units, &rng, &vec![tags(&["targets_most_hp"])]);
    // s3 ranks before s2, so s2 is the last of the two with 100 HP.
    assert_eq!(ids(&got), vec![Some("s2".to_string())]);
}

#[test]
fn most_status_reads_potency_and_count() {
    let mut units = field();
    set_status(&mut units[0], "Bleed", 3, 2, 0);
    set_status(&mut units[2], "Bleed", 1, 1, 0);
    let rng = Rng::from_seed(1);
    let got = enemy_targets(&units, &rng, &vec![tags(&["other", "targets_most_status:Bleed"]), tags(&["other"])]);
    assert_eq!(ids(&got), vec![Some("s1".to_string()), Some("s2".to_string())]);
}

#[test]
fn random_targets_are_living_sinners_and_repeatable() {
    let units = field();
    let rng = Rng::from_seed(42);
    let sel = vec![tags(&["targets_random"]); 6];
    let first = enemy_targets(&units, &rng, &sel);
    let again = enemy_targets(&units, &rng, &sel);
    assert_eq!(first, again);
    assert_eq!(rng.draw_count(), 0);
    for t in ids(&first) {
        let t = t.unwrap();
        assert!(t == "s1" || t == "s2" || t == "s3");
    }
}

#[test]
fn no_living_sinner_means_no_target() {
    let mut units = field();
    for u in units.iter_mut() {
        if u.id.0.starts_with('s') {
            u.alive = false;
        }
    }
    let rng = Rng::from_seed(1);
    assert_eq!(enemy_targets(&units, &rng, &vec![None, tags(&["targets_random"])]), vec![None, None]);
}
