use lcb_core::ids::{EnemyId, IdentityId, SkillId, UnitId};
use lcb_core::keyed::StrMap;
use lcb_core::rng::Rng;
use lcb_core::scripts::TimeState;
use lcb_core::state::{DashboardSlot, PendingStatus, Sanity, SkillDeck, StaggerState, StatusSet, Unit, UnitKind};
use lcb_core::turn_open::{apply_queued, open_unit_turns, roll_speed, roll_speeds};

fn unit(id: &str, sinner: bool) -> Unit {
    Unit {
        planned_targets: 1,
        id: UnitId::new(id),
        kind: if sinner {
            UnitKind::Sinner { identity: IdentityId::new("10110") }
        } else {
            UnitKind::Abnormality { enemy: EnemyId::new("9567"), part: None }
        },
        name: id.to_string(),
        level: 40,
        hp: 100,
        max_hp: 100,
        shield: 0,
        sanity: if sinner { Sanity::Sane { sp: 0 } } else { Sanity::NoSanity },
        speed: 5,
        speed_range: (3, 7),
        offense_level_mod: 0,
        defense_level_mod: 0,
        stagger: StaggerState::new(vec![]),
        statuses: StatusSet::new(),
        skill_kills: 0,
        suit: None,
        combat_end_sp_loss: Vec::new(),
        status_markers: Vec::new(),
        deck: SkillDeck::new(Vec::new()),
        dashboard: vec![DashboardSlot::new(0, SkillId::new("a"), SkillId::new("b"), SkillId::new("c"))],
        panic_type: None,
        low_morale: false,
        panicked: false,
        corroded: false,
        panic_recovering: false,
        passive_ids: Vec::new(),
        combat_start_statuses: StrMap::new(),
        follow_up_active: false,
        pending_suit_conversion: false,
        petals_gained: 0,
        clash_any_speed_slots: Vec::new(),
        identity_skills: Vec::new(),
        ego_slots: Vec::new(),
        corrosion_egos: Vec::new(),
        alive: true,
        skill_cursor: 0,
        time_state: None,
        time_threshold_flags: 0,
        enemy_slots: 1,
        acts_while_staggered: false,
        clash_count_swing: None,
        time_signature: Vec::new(),
        shield_flat: None,
        ends_encounter_unless_shield_broken: false,
        hp_floor_percent: None,
        barrier_broken: false,
        ends_encounter_on: Vec::new(),
        turn_effect_usage: StrMap::new(),
        pending_next_turn: Vec::new(),
        retaliate_on_hit: Vec::new(),
        segmentation: None,
        hits_taken: 0,
        segmentation_healed: Vec::new(),
        resonance_max: 0,
        resonance_of: StrMap::new(),
        a_reson_max: 0,
    }
}

fn pending(status: &str, potency: i32, count: i32, stack: i32) -> PendingStatus {
    PendingStatus { status: status.to_string(), potency, count, stack }
}

#[test]
fn queued_statuses_arrive_at_turn_start() {
    let mut u = unit("s1", true);
    u.pending_next_turn.push(pending("Protection", 0, 2, 0));
    assert_eq!(u.statuses.count("Protection"), 0, "not yet");
    apply_queued(&mut u);
    assert_eq!(u.statuses.count("Protection"), 2);
    assert!(u.pending_next_turn.is_empty());
}

#[test]
fn queued_grants_add_up_and_shields_lapse() {
    let mut a = unit("s1", true);
    a.shield = 30;
    a.pending_next_turn.push(pending("Poise", 2, 1, 0));
    a.pending_next_turn.push(pending("Poise", 1, 1, 0));
    a.pending_next_turn.push(pending("In the Past", 0, 0, 3));
    let mut units = vec![a, unit("e1", false)];
    open_unit_turns(&mut units);
    assert_eq!(units[0].statuses.potency("Poise"), 3);
    assert_eq!(units[0].statuses.count("Poise"), 2);
    assert_eq!(units[0].statuses.stack("In the Past"), 3);
    assert_eq!((units[0].shield, units[1].shield), (0, 0));
}

#[test]
fn bind_slows_the_speed_roll() {
    let mut u = unit("s1", true);
    u.speed_range = (4, 4);
    u.statuses.add_count("Bind", 2);
    let mut rng = Rng::from_seed(1);
    roll_speed(&mut u, &mut rng);
    assert_eq!(u.speed, 2);
    // A single-value range draws nothing.
    assert_eq!(rng.draw_count(), 0);
    u.statuses.add_count("Haste", 1);
    u.statuses.add_count("Bind", 10);
    roll_speed(&mut u, &mut rng);
    assert_eq!(u.speed, 1, "Speed never drops below 1");
}

#[test]
fn living_units_roll_within_their_range() {
    let mut a = unit("s1", true);
    a.speed_range = (3, 7);
    let mut b = unit("e1", false);
    b.alive = false;
    b.speed = 9;
    let mut units = vec![a, b];
    let mut rng = Rng::from_seed(11);
    roll_speeds(&mut units, &mut rng);
    assert!((3..=7).contains(&units[0].speed));
    assert_eq!(units[1].speed, 9);
    assert_eq!(rng.draw_count(), 1);
}
