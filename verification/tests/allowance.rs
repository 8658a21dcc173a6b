use lcb_core::allowance::{clause_opens, spend_allowance, turn_bookkeeping, ClauseGate};
use lcb_core::dice::Dice;
use lcb_core::ids::{EnemyId, IdentityId, SkillId, UnitId};
use lcb_core::keyed::StrMap;
use lcb_core::rng::Rng;
use lcb_core::scripts::TimeState;
use lcb_core::state::{DashboardSlot, Sanity, SkillDeck, StaggerState, StatusSet, Unit, UnitKind};

fn unit(id: &str, sinner: bool) -> Unit {
    Unit {
        planned_targets: 1,
        id: UnitId::new(id),
        kind: if sinner {
            UnitKind::Sinner { identity: IdentityId::new("10110") }
        } else {
            UnitKind::Abnormality { enemy: EnemyId::new("9567"), part: None }
        },
        name: id.to_string(),
        level: 40,
        hp: 100,
        max_hp: 100,
        shield: 0,
        sanity: if sinner { Sanity::Sane { sp: 0 } } else { Sanity::NoSanity },
        speed: 5,
        speed_range: (3, 7),
        offense_level_mod: 0,
        defense_level_mod: 0,
        stagger: StaggerState::new(vec![]),
        statuses: StatusSet::new(),
        skill_kills: 0,
        suit: None,
        combat_end_sp_loss: Vec::new(),
        status_markers: Vec::new(),
        deck: SkillDeck::new(Vec::new()),
        dashboard: vec![DashboardSlot::new(0, SkillId::new("a"), SkillId::new("b"), SkillId::new("c"))],
        panic_type: None,
        low_morale: false,
        panicked: false,
        corroded: false,
        panic_recovering: false,
        passive_ids: Vec::new(),
        combat_start_statuses: StrMap::new(),
        follow_up_active: false,
        pending_suit_conversion: false,
        petals_gained: 0,
        clash_any_speed_slots: Vec::new(),
        identity_skills: Vec::new(),
        ego_slots: Vec::new(),
        corrosion_egos: Vec::new(),
        alive: true,
        skill_cursor: 0,
        time_state: None,
        time_threshold_flags: 0,
        enemy_slots: 1,
        acts_while_staggered: false,
        clash_count_swing: None,
        time_signature: Vec::new(),
        shield_flat: None,
        ends_encounter_unless_shield_broken: false,
        hp_floor_percent: None,
        barrier_broken: false,
        ends_encounter_on: Vec::new(),
        turn_effect_usage: StrMap::new(),
        pending_next_turn: Vec::new(),
        retaliate_on_hit: Vec::new(),
        segmentation: None,
        hits_taken: 0,
        segmentation_healed: Vec::new(),
        resonance_max: 0,
        resonance_of: StrMap::new(),
        a_reson_max: 0,
    }
}

fn gate(raw: Option<&str>) -> ClauseGate {
    ClauseGate {
        kind: "gain".to_string(),
        raw: raw.map(|r| r.to_string()),
        only_after_clash_lose: false,
        chance: None,
        per_encounter: None,
        per_turn: None,
        condition: None,
    }
}

/// Apply a "gain 1 Protection" clause the way an effect list does: decide,
/// apply, then spend what it granted.
fn try_gain(g: &ClauseGate, u: &mut Unit, dice: &mut Dice) -> bool {
    match clause_opens(g, &u.turn_effect_usage, false, dice, u, None, 0, 0) {
        Some(grants) => {
            u.statuses.add_count("Protection", 1);
            spend_allowance(&mut u.turn_effect_usage, &grants);
            true
        }
        None => false,
    }
}

#[test]
fn per_turn_limits_stop_a_clause() {
    let mut u = unit("s1", true);
    let mut g = gate(Some("test line"));
    g.per_turn = Some(2);
    let mut dice = Dice::new(Rng::from_seed(1), Vec::new());
    for _ in 0..3 {
        try_gain(&g, &mut u, &mut dice);
    }
    assert_eq!(u.statuses.count("Protection"), 2);
    // A new turn clears the limit.
    turn_bookkeeping(&mut u);
    try_gain(&g, &mut u, &mut dice);
    assert_eq!(u.statuses.count("Protection"), 3);
}

#[test]
fn per_encounter_limits_survive_the_turn_start() {
    let mut u = unit("s1", true);
    let mut g = gate(None);
    g.per_encounter = Some(1);
    let mut dice = Dice::new(Rng::from_seed(1), Vec::new());
    assert!(try_gain(&g, &mut u, &mut dice));
    assert_eq!(u.turn_effect_usage.get("encounter:gain"), Some(&1));
    turn_bookkeeping(&mut u);
    assert!(!try_gain(&g, &mut u, &mut dice));
    assert_eq!(u.statuses.count("Protection"), 1);
}

#[test]
fn both_limits_spend_their_own_counters() {
    let mut u = unit("s1", true);
    let mut g = gate(Some("line"));
    g.per_encounter = Some(5);
    g.per_turn = Some(1);
    let mut dice = Dice::new(Rng::from_seed(1), Vec::new());
    let grants = clause_opens(&g, &u.turn_effect_usage, false, &mut dice, &u, None, 0, 0).unwrap();
    assert_eq!(grants, vec!["encounter:line".to_string(), "line".to_string()]);
    spend_allowance(&mut u.turn_effect_usage, &grants);
    assert_eq!(u.turn_effect_usage.get("encounter:line"), Some(&1));
    assert_eq!(u.turn_effect_usage.get("line"), Some(&1));
    assert!(clause_opens(&g, &u.turn_effect_usage, false, &mut dice, &u, None, 0, 0).is_none());
    u.hits_taken = 4;
    u.petals_gained = 2;
    u.segmentation_healed.push("s2".to_string());
    turn_bookkeeping(&mut u);
    assert_eq!(u.turn_effect_usage.get("line"), None);
    assert_eq!(u.turn_effect_usage.get("encounter:line"), Some(&1));
    assert_eq!((u.hits_taken, u.petals_gained, u.segmentation_healed.len()), (0, 0, 0));
}

#[test]
fn clash_lose_clauses_wait_for_a_lost_clash() {
    let u = unit("s1", true);
    let mut g = gate(None);
    g.only_after_clash_lose = true;
    g.chance = Some(50);
    let mut dice = Dice::new(Rng::from_seed(1), vec![true]);
    assert!(clause_opens(&g, &u.turn_effect_usage, false, &mut dice, &u, None, 0, 0).is_none());
    // Nothing was flipped for the skipped clause.
    assert_eq!(dice.flip_cursor, 0);
    assert!(clause_opens(&g, &u.turn_effect_usage, true, &mut dice, &u, None, 0, 0).is_some());
    assert_eq!(dice.flip_cursor, 1);
}

#[test]
fn a_failed_chance_flip_skips_the_clause() {
    let u = unit("s1", true);
    let mut g = gate(None);
    g.chance = Some(150);
    let mut dice = Dice::new(Rng::from_seed(1), vec![false, true]);
    assert!(clause_opens(&g, &u.turn_effect_usage, false, &mut dice, &u, None, 0, 0).is_none());
    assert_eq!(clause_opens(&g, &u.turn_effect_usage, false, &mut dice, &u, None, 0, 0), Some(Vec::new()));
}
