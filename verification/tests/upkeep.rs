use lcb_core::ids::{EnemyId, IdentityId, SkillId, UnitId};
use lcb_core::keyed::StrMap;
use lcb_core::state::{
    DashboardSlot, Sanity, SkillDeck, StaggerState, StatusInstance, StatusSet, Unit, UnitKind,
};
use lcb_core::scripts::TimeState;
use lcb_core::upkeep::{apply_sinking, check_stagger, tick_bleed_with_floor, turn_end_upkeep, TickRule};

fn unit(id: &str, sinner: bool) -> Unit {
    Unit {
        planned_targets: 1,
        id: UnitId::new(id),
        kind: if sinner {
            UnitKind::Sinner { identity: IdentityId::new("10110") }
        } else {
            UnitKind::Abnormality { enemy: EnemyId::new("9567"), part: None }
        },
        name: id.to_string(),
        level: 40,
        hp: 100,
        max_hp: 100,
        shield: 0,
        sanity: if sinner { Sanity::Sane { sp: 0 } } else { Sanity::NoSanity },
        speed: 5,
        speed_range: (3, 7),
        offense_level_mod: 0,
        defense_level_mod: 0,
        stagger: StaggerState::new(vec![]),
        statuses: StatusSet::new(),
        skill_kills: 0,
        suit: None,
        combat_end_sp_loss: Vec::new(),
        status_markers: Vec::new(),
        deck: SkillDeck::new(Vec::new()),
        dashboard: vec![DashboardSlot::new(0, SkillId::new("a"), SkillId::new("b"), SkillId::new("c"))],
        panic_type: None,
        low_morale: false,
        panicked: false,
        corroded: false,
        panic_recovering: false,
        passive_ids: Vec::new(),
        combat_start_statuses: StrMap::new(),
        follow_up_active: false,
        pending_suit_conversion: false,
        petals_gained: 0,
        clash_any_speed_slots: Vec::new(),
        identity_skills: Vec::new(),
        ego_slots: Vec::new(),
        corrosion_egos: Vec::new(),
        alive: true,
        skill_cursor: 0,
        time_state: None,
        time_threshold_flags: 0,
        enemy_slots: 1,
        acts_while_staggered: false,
        clash_count_swing: None,
        time_signature: Vec::new(),
        shield_flat: None,
        ends_encounter_unless_shield_broken: false,
        hp_floor_percent: None,
        barrier_broken: false,
        ends_encounter_on: Vec::new(),
        turn_effect_usage: StrMap::new(),
        pending_next_turn: Vec::new(),
        retaliate_on_hit: Vec::new(),
        segmentation: None,
        hits_taken: 0,
        segmentation_healed: Vec::new(),
        resonance_max: 0,
        resonance_of: StrMap::new(),
        a_reson_max: 0,
    }
}

fn set(u: &mut Unit, key: &str, potency: i32, count: i32, stack: i32) {
    u.statuses.set(key, StatusInstance { potency, count, stack });
}

fn get(u: &Unit, key: &str) -> (i32, i32, i32) {
    let s = u.statuses.get(key);
    (s.potency, s.count, s.stack)
}

#[test]
fn burn_deals_its_potency_then_loses_a_count() {
    let mut u = unit("s1", true);
    set(&mut u, "Burn", 5, 2, 0);
    let rules = StrMap::new();
    turn_end_upkeep(&mut u, &rules);
    assert_eq!(u.hp, 95);
    assert_eq!(get(&u, "Burn"), (5, 1, 0));
    turn_end_upkeep(&mut u, &rules);
    assert_eq!(u.hp, 90);
    assert_eq!(get(&u, "Burn"), (0, 0, 0));
    turn_end_upkeep(&mut u, &rules);
    assert_eq!(u.hp, 90);
}

#[test]
fn burn_spends_the_shield_first_and_no_damage_taken_blocks_it() {
    let mut u = unit("s1", true);
    u.shield = 3;
    set(&mut u, "Burn", 5, 3, 0);
    let rules = StrMap::new();
    turn_end_upkeep(&mut u, &rules);
    assert_eq!((u.shield, u.hp), (0, 98));
    set(&mut u, "No Damage Taken", 0, 0, 1);
    turn_end_upkeep(&mut u, &rules);
    assert_eq!(u.hp, 98);
    assert_eq!(get(&u, "Burn"), (5, 1, 0));
}

#[test]
fn counted_statuses_tick_down_under_their_rules() {
    let mut u = unit("s1", true);
    set(&mut u, "Poise", 4, 2, 0);
    set(&mut u, "Tremor", 3, 1, 0);
    set(&mut u, "Charge", 0, 1, 0);
    let mut rules = StrMap::new();
    rules.insert(
        "Charge",
        TickRule { structure: Some("single".to_string()), primary: Some("count".to_string()), expiry: None },
    );
    rules.insert("Tremor", TickRule { structure: None, primary: None, expiry: Some("none".to_string()) });
    turn_end_upkeep(&mut u, &rules);
    assert_eq!(get(&u, "Poise"), (4, 1, 0));
    // Tremor never expires by itself here; Charge ends at 0 Count.
    assert_eq!(get(&u, "Tremor"), (3, 0, 0));
    assert_eq!(get(&u, "Charge"), (0, 0, 0));
}

#[test]
fn butterflies_turn_the_living_into_sinking() {
    let mut u = unit("s1", true);
    set(&mut u, "Butterfly", 3, 2, 0);
    set(&mut u, "Sinking", 1, 1, 0);
    turn_end_upkeep(&mut u, &StrMap::new());
    assert_eq!(get(&u, "Sinking"), (4, 1, 0));
    assert_eq!(get(&u, "Butterfly"), (0, 3, 0));
    turn_end_upkeep(&mut u, &StrMap::new());
    assert_eq!(get(&u, "Butterfly"), (0, 0, 0));
    assert_eq!(get(&u, "Sinking"), (4, 1, 0));
}

#[test]
fn stagger_wears_off() {
    let mut u = unit("s1", true);
    u.stagger.turns_remaining = 2;
    u.stagger.level = 2;
    turn_end_upkeep(&mut u, &StrMap::new());
    assert_eq!((u.stagger.turns_remaining, u.stagger.level), (1, 2));
    turn_end_upkeep(&mut u, &StrMap::new());
    assert_eq!((u.stagger.turns_remaining, u.stagger.level), (0, 0));
}

#[test]
fn sinking_costs_sp_and_feeds_the_flowers_on_the_other_side() {
    let mut target = unit("e1", false);
    target.sanity = Sanity::Sane { sp: 10 };
    set(&mut target, "Sinking", 4, 2, 0);
    let mut flower = unit("s1", true);
    flower.passive_ids = vec!["1041411".to_string()];
    let mut full = unit("s2", true);
    full.passive_ids = vec!["1041411".to_string()];
    full.petals_gained = 15;
    let mut ally = unit("e2", false);
    ally.passive_ids = vec!["1041411".to_string()];
    let mut units = vec![target, flower, full, ally];
    apply_sinking(&mut units, 0, &StrMap::new(), 0);
    assert_eq!(units[0].sanity, Sanity::Sane { sp: 6 });
    assert_eq!(get(&units[0], "Sinking"), (4, 1, 0));
    assert_eq!(get(&units[1], "Petals"), (0, 0, 1));
    assert_eq!(units[1].petals_gained, 1);
    assert_eq!(get(&units[2], "Petals"), (0, 0, 0));
    assert_eq!(get(&units[3], "Petals"), (0, 0, 0));
}

#[test]
fn sinking_damages_units_without_sanity_and_needs_potency() {
    let mut target = unit("e1", false);
    set(&mut target, "Sinking", 3, 1, 0);
    let mut units = vec![target];
    apply_sinking(&mut units, 0, &StrMap::new(), 5);
    assert_eq!(units[0].hp, 95);
    assert_eq!(get(&units[0], "Sinking"), (0, 0, 0));
    apply_sinking(&mut units, 0, &StrMap::new(), 5);
    assert_eq!(units[0].hp, 95);
}

#[test]
fn only_living_units_stagger() {
    let mut u = unit("e1", false);
    u.stagger = StaggerState::new(vec![50, 25]);
    u.stagger.bind_max_hp(100);
    u.hp = 40;
    assert!(check_stagger(&mut u));
    assert_eq!((u.stagger.level, u.stagger.turns_remaining), (1, 2));
    assert!(!check_stagger(&mut u));
    u.hp = 20;
    u.alive = false;
    assert!(!check_stagger(&mut u));
    assert_eq!(u.stagger.level, 1);
    u.alive = true;
    assert!(check_stagger(&mut u));
    assert_eq!((u.stagger.level, u.stagger.turns_remaining), (2, 2));
}

#[test]
fn bleed_hurts_and_feeds_the_future() {
    let mut victim = unit("s1", true);
    set(&mut victim, "Bleed", 6, 2, 0);
    let mut imago = unit("imago", false);
    imago.time_state = Some(TimeState::Future);
    imago.hp = 50;
    let mut units = vec![victim, imago];
    tick_bleed_with_floor(&mut units, 0, &StrMap::new(), false);
    assert_eq!(units[0].hp, 94);
    assert_eq!(get(&units[0], "Bleed"), (6, 1, 0));
    assert_eq!(units[1].hp, 56);
    // With the floor the last Count stays.
    tick_bleed_with_floor(&mut units, 0, &StrMap::new(), true);
    assert_eq!(get(&units[0], "Bleed"), (6, 1, 0));
    assert_eq!(units[0].hp, 88);
    tick_bleed_with_floor(&mut units, 0, &StrMap::new(), false);
    assert_eq!(get(&units[0], "Bleed"), (0, 0, 0));
    // The Future unit does not heal from its own Bleed.
    set(&mut units[1], "Bleed", 4, 1, 0);
    tick_bleed_with_floor(&mut units, 1, &StrMap::new(), false);
    assert_eq!(units[1].hp, 64);
}
