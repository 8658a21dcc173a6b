use lcb_core::dice::Dice;
use lcb_core::ids::{EnemyId, IdentityId, SkillId, UnitId};
use lcb_core::keyed::StrMap;
use lcb_core::power::{clash_key, match_power, power_base};
use lcb_core::rng::Rng;
use lcb_core::scripts::{ClashCountSwing, TimeState};
use lcb_core::state::{
    DashboardSlot, Sanity, SkillDeck, StaggerState, StatusInstance, StatusSet, Unit, UnitKind,
};

fn unit(id: &str, sinner: bool) -> Unit {
    Unit {
        planned_targets: 1,
        id: UnitId::new(id),
        kind: if sinner {
            UnitKind::Sinner { identity: IdentityId::new("10110") }
        } else {
            UnitKind::Abnormality { enemy: EnemyId::new("9567"), part: None }
        },
        name: id.to_string(),
        level: 40,
        hp: 100,
        max_hp: 100,
        shield: 0,
        sanity: if sinner { Sanity::Sane { sp: 0 } } else { Sanity::NoSanity },
        speed: 5,
        speed_range: (3, 7),
        offense_level_mod: 0,
        defense_level_mod: 0,
        stagger: StaggerState::new(vec![]),
        statuses: StatusSet::new(),
        skill_kills: 0,
        suit: None,
        combat_end_sp_loss: Vec::new(),
        status_markers: Vec::new(),
        deck: SkillDeck::new(Vec::new()),
        dashboard: vec![DashboardSlot::new(0, SkillId::new("a"), SkillId::new("b"), SkillId::new("c"))],
        panic_type: None,
        low_morale: false,
        panicked: false,
        corroded: false,
        panic_recovering: false,
        passive_ids: Vec::new(),
        combat_start_statuses: StrMap::new(),
        follow_up_active: false,
        pending_suit_conversion: false,
        petals_gained: 0,
        clash_any_speed_slots: Vec::new(),
        identity_skills: Vec::new(),
        ego_slots: Vec::new(),
        corrosion_egos: Vec::new(),
        alive: true,
        skill_cursor: 0,
        time_state: None,
        time_threshold_flags: 0,
        enemy_slots: 1,
        acts_while_staggered: false,
        clash_count_swing: None,
        time_signature: Vec::new(),
        shield_flat: None,
        ends_encounter_unless_shield_broken: false,
        hp_floor_percent: None,
        barrier_broken: false,
        ends_encounter_on: Vec::new(),
        turn_effect_usage: StrMap::new(),
        pending_next_turn: Vec::new(),
        retaliate_on_hit: Vec::new(),
        segmentation: None,
        hits_taken: 0,
        segmentation_healed: Vec::new(),
        resonance_max: 0,
        resonance_of: StrMap::new(),
        a_reson_max: 0,
    }
}

fn set(u: &mut Unit, key: &str, potency: i32, count: i32, stack: i32) {
    u.statuses.set(key, StatusInstance { potency, count, stack });
}

#[test]
fn base_power_adds_bonuses_and_power_statuses() {
    let mut u = unit("s1", true);
    set(&mut u, "Power Up", 0, 2, 0);
    set(&mut u, "Attack Power Down", 1, 0, 0);
    set(&mut u, "Defense Power Up", 0, 3, 0);
    let units = vec![u];
    let skill = SkillId::new("x");
    // 4 + 1 bonus + 2 (Power Up) - 1 (Attack Power Down)
    assert_eq!(power_base(&units, 0, 4, 1, false, &skill), 6);
    // a defense skill reads Defense Power Up instead
    assert_eq!(power_base(&units, 0, 4, 1, true, &skill), 10);
}

#[test]
fn signature_skills_and_time_states_raise_base_power() {
    let mut u = unit("imago", false);
    u.time_state = Some(TimeState::Future);
    u.time_signature = vec![(TimeState::Future, "big".to_string())];
    set(&mut u, "In the Future", 0, 0, 25);
    let units = vec![u];
    // Stack above 20: Final Power +2; signature skill: +2.
    assert_eq!(power_base(&units, 0, 5, 0, false, &SkillId::new("big")), 9);
    assert_eq!(power_base(&units, 0, 5, 0, false, &SkillId::new("small")), 7);
}

#[test]
fn clash_keys_ignore_the_order_of_the_pair() {
    let units = vec![unit("b2", true), unit("a1", false)];
    assert_eq!(clash_key(&units, 0, 1), "a1|b2");
    assert_eq!(clash_key(&units, 1, 0), "a1|b2");
}

#[test]
fn match_power_adds_the_level_bonus_and_clash_power() {
    let mut me = unit("s1", true);
    me.level = 46;
    set(&mut me, "Clash Power Up", 0, 2, 0);
    let them = unit("e1", false);
    let units = vec![me, them];
    let mut dice = Dice::new(Rng::from_seed(1), Vec::new());
    // Levels 46 vs 40: +2; Clash Power Up +2; skill bonus +1.
    assert_eq!(match_power(&units, &mut dice, &StrMap::new(), 0, 1, 10, 0, 0, 1), 15);
    // The opponent's skill modifier narrows the gap: 46 vs 44, no bonus.
    assert_eq!(match_power(&units, &mut dice, &StrMap::new(), 0, 1, 10, 0, 4, 0), 12);
    assert_eq!(match_power(&units, &mut dice, &StrMap::new(), 1, 0, 10, 0, 0, 0), 10);
}

#[test]
fn many_clashes_swing_the_power_by_a_flip() {
    let mut me = unit("imago", false);
    me.clash_count_swing = Some(ClashCountSwing { threshold: 10, divisor: 4 });
    let them = unit("s1", true);
    let units = vec![me, them];
    let mut counts = StrMap::new();
    counts.insert("imago|s1", 13);
    let mut dice = Dice::new(Rng::from_seed(1), vec![true, false]);
    assert_eq!(match_power(&units, &mut dice, &counts, 0, 1, 10, 0, 0, 0), 13);
    assert_eq!(match_power(&units, &mut dice, &counts, 0, 1, 10, 0, 0, 0), 7);
    counts.insert("imago|s1", 9);
    let mut dice = Dice::new(Rng::from_seed(1), vec![true]);
    assert_eq!(match_power(&units, &mut dice, &counts, 0, 1, 10, 0, 0, 0), 10);
}
