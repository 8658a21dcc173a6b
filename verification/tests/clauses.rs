use lcb_core::effects::{
    coin_clause_applies, is_coin_damage_clause, is_target_facing_clause, measured_from_condition, Component,
    Condition,
};
use lcb_core::ids::{EnemyId, IdentityId, SkillId, UnitId};
use lcb_core::keyed::StrMap;
use lcb_core::state::{
    DashboardSlot, Sanity, SkillDeck, StaggerState, StatusInstance, StatusSet, Unit, UnitKind,
};

fn unit(id: &str, sinner: bool) -> Unit {
    Unit {
        planned_targets: 1,
        id: UnitId::new(id),
        kind: if sinner {
            UnitKind::Sinner { identity: IdentityId::new("10110") }
        } else {
            UnitKind::Abnormality { enemy: EnemyId::new("9567"), part: None }
        },
        name: id.to_string(),
        level: 40,
        hp: 100,
        max_hp: 100,
        shield: 0,
        sanity: if sinner { Sanity::Sane { sp: 0 } } else { Sanity::NoSanity },
        speed: 5,
        speed_range: (3, 7),
        offense_level_mod: 0,
        defense_level_mod: 0,
        stagger: StaggerState::new(vec![]),
        statuses: StatusSet::new(),
        skill_kills: 0,
        suit: None,
        combat_end_sp_loss: Vec::new(),
        status_markers: Vec::new(),
        deck: SkillDeck::new(Vec::new()),
        dashboard: vec![DashboardSlot::new(0, SkillId::new("a"), SkillId::new("b"), SkillId::new("c"))],
        panic_type: None,
        low_morale: false,
        panicked: false,
        corroded: false,
        panic_recovering: false,
        passive_ids: Vec::new(),
        combat_start_statuses: StrMap::new(),
        follow_up_active: false,
        pending_suit_conversion: false,
        petals_gained: 0,
        clash_any_speed_slots: Vec::new(),
        identity_skills: Vec::new(),
        ego_slots: Vec::new(),
        corrosion_egos: Vec::new(),
        alive: true,
        skill_cursor: 0,
        time_state: None,
        time_threshold_flags: 0,
        enemy_slots: 1,
        acts_while_staggered: false,
        clash_count_swing: None,
        time_signature: Vec::new(),
        shield_flat: None,
        ends_encounter_unless_shield_broken: false,
        hp_floor_percent: None,
        barrier_broken: false,
        ends_encounter_on: Vec::new(),
        turn_effect_usage: StrMap::new(),
        pending_next_turn: Vec::new(),
        retaliate_on_hit: Vec::new(),
        segmentation: None,
        hits_taken: 0,
        segmentation_healed: Vec::new(),
        resonance_max: 0,
        resonance_of: StrMap::new(),
        a_reson_max: 0,
    }
}

fn set(u: &mut Unit, key: &str, potency: i32, count: i32, stack: i32) {
    u.statuses.set(key, StatusInstance { potency, count, stack });
}

#[test]
fn measured_values_come_from_the_unit_the_condition_reads() {
    let mut actor = unit("s1", true);
    set(&mut actor, "Bleed", 3, 2, 0);
    let mut target = unit("e1", false);
    set(&mut target, "Bleed", 5, 1, 0);
    set(&mut target, "Burn", 2, 4, 0);
    assert_eq!(measured_from_condition(None, &actor, Some(&target)), 0);
    let mut c = Condition::default();
    c.status = Some("Bleed".to_string());
    assert_eq!(measured_from_condition(Some(&c), &actor, Some(&target)), 5);
    c.component = Some(Component::Count);
    assert_eq!(measured_from_condition(Some(&c), &actor, Some(&target)), 2);
    c.source = Some("target".to_string());
    assert_eq!(measured_from_condition(Some(&c), &actor, Some(&target)), 1);
    assert_eq!(measured_from_condition(Some(&c), &actor, None), 0);
    c.statuses = vec!["Bleed".to_string(), "Burn".to_string()];
    c.component = Some(Component::Potency);
    assert_eq!(measured_from_condition(Some(&c), &actor, Some(&target)), 7);
}

#[test]
fn coin_clauses_need_their_gates() {
    let mut attacker = unit("s1", true);
    set(&mut attacker, "Poise", 0, 3, 0);
    let defender = unit("e1", false);
    let units = vec![attacker, defender];
    assert!(coin_clause_applies(&units, 0, 1, false, false, false, false, None, 0, 0));
    assert!(!coin_clause_applies(&units, 0, 1, true, false, false, false, None, 0, 0));
    assert!(coin_clause_applies(&units, 0, 1, true, true, false, false, None, 0, 0));
    assert!(!coin_clause_applies(&units, 0, 1, false, false, true, true, None, 0, 0));
    let mut c = Condition::default();
    c.status = Some("Poise".to_string());
    c.gte = Some(3);
    assert!(coin_clause_applies(&units, 0, 1, false, false, false, false, Some(&c), 0, 0));
    c.gte = Some(4);
    assert!(!coin_clause_applies(&units, 0, 1, false, false, false, false, Some(&c), 0, 0));
}

#[test]
fn clause_kinds_are_classified() {
    assert!(is_target_facing_clause("inflict"));
    assert!(is_target_facing_clause("convert_status"));
    assert!(!is_target_facing_clause("damage_percent"));
    assert!(is_coin_damage_clause("damage_percent"));
    assert!(is_coin_damage_clause("damage_percent_per_coin_heads"));
    assert!(!is_coin_damage_clause("inflict"));
    assert!(!is_coin_damage_clause(""));
}
