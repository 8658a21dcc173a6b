use lcb_core::actions::{index_of, submit};
use lcb_core::battle::{Action, EgoSkillKind};
use lcb_core::effects::{
    condition_holds, has_amplitude, has_named, sum_statuses, unit_status_value, Component, Condition,
};
use lcb_core::ids::{EgoId, EnemyId, IdentityId, SkillId, UnitId};
use lcb_core::keyed::StrMap;
use lcb_core::scripts::TimeState;
use lcb_core::state::{
    CampaignState, DashboardSlot, Phase, Sanity, SkillDeck, StaggerState, StatusSet, SubmittedAction, Unit,
    UnitKind,
};
use lcb_core::time_passives::{
    bleed_lifesteal_target, is_signature, keeps_poise_on_crit, on_hit_by_sinner, signature_final_power,
    signature_last_coin, turn_start,
};
use lcb_core::state::Winner;
use lcb_core::units::{
    arm_panic_recovery, can_act_now, combat_end_sp_loss, ends_encounter, living_enemies, living_sinners,
    next_reuse_target, sanity_turn_start, time_state_bonus, update_time_state, victory_check,
};

fn unit(id: &str, sinner: bool) -> Unit {
    Unit {
        planned_targets: 1,
        id: UnitId::new(id),
        kind: if sinner {
            UnitKind::Sinner { identity: IdentityId::new("10110") }
        } else {
            UnitKind::Abnormality { enemy: EnemyId::new("9567"), part: None }
        },
        name: id.to_string(),
        level: 40,
        hp: 100,
        max_hp: 100,
        shield: 0,
        sanity: if sinner { Sanity::Sane { sp: 0 } } else { Sanity::NoSanity },
        speed: 5,
        speed_range: (3, 7),
        offense_level_mod: 0,
        defense_level_mod: 0,
        stagger: StaggerState::new(vec![]),
        statuses: StatusSet::new(),
        skill_kills: 0,
        suit: None,
        combat_end_sp_loss: Vec::new(),
        status_markers: Vec::new(),
        deck: SkillDeck::new(Vec::new()),
        dashboard: vec![DashboardSlot::new(0, SkillId::new("a"), SkillId::new("b"), SkillId::new("c"))],
        panic_type: None,
        low_morale: false,
        panicked: false,
        corroded: false,
        panic_recovering: false,
        passive_ids: Vec::new(),
        combat_start_statuses: StrMap::new(),
        follow_up_active: false,
        pending_suit_conversion: false,
        petals_gained: 0,
        clash_any_speed_slots: Vec::new(),
        identity_skills: Vec::new(),
        ego_slots: Vec::new(),
        corrosion_egos: Vec::new(),
        alive: true,
        skill_cursor: 0,
        time_state: None,
        time_threshold_flags: 0,
        enemy_slots: 1,
        acts_while_staggered: false,
        clash_count_swing: None,
        time_signature: Vec::new(),
        shield_flat: None,
        ends_encounter_unless_shield_broken: false,
        hp_floor_percent: None,
        barrier_broken: false,
        ends_encounter_on: Vec::new(),
        turn_effect_usage: StrMap::new(),
        pending_next_turn: Vec::new(),
        retaliate_on_hit: Vec::new(),
        segmentation: None,
        hits_taken: 0,
        segmentation_healed: Vec::new(),
        resonance_max: 0,
        resonance_of: StrMap::new(),
        a_reson_max: 0,
    }
}

fn campaign(disabled: &[&str]) -> CampaignState {
    CampaignState {
        time_stacks: StrMap::new(),
        disabled_passives: disabled.iter().map(|s| s.to_string()).collect(),
        station: 5,
        pupa_hp: None,
    }
}

#[test]
fn shield_takes_damage_first_and_breaks() {
    let mut u = unit("s1", true);
    u.shield = 10;
    assert_eq!(u.take_damage(25), (10, 15));
    assert_eq!(u.shield, 0);
    assert!(u.barrier_broken);
    assert_eq!(u.hp, 85);
    assert!(u.alive);
}

#[test]
fn hp_floor_stops_damage() {
    let mut u = unit("pupa", false);
    u.hp_floor_percent = Some(90);
    assert_eq!(u.take_damage(50), (0, 10));
    assert_eq!(u.hp, 90);
    assert_eq!(u.take_damage(50), (0, 0));
}

#[test]
fn lethal_damage_kills_and_no_damage_taken_blocks() {
    let mut u = unit("s1", true);
    assert_eq!(u.take_damage(500), (0, 100));
    assert_eq!(u.hp, 0);
    assert!(!u.alive);
    let mut v = unit("s2", true);
    v.statuses.add_stack("No Damage Taken", 1);
    assert_eq!(v.take_damage(50), (0, 0));
    assert_eq!(v.hp, 100);
    assert_eq!(v.take_damage(-5), (0, 0));
}

#[test]
fn heal_is_capped_by_max_hp() {
    let mut u = unit("s1", true);
    u.hp = 40;
    u.heal(30);
    assert_eq!(u.hp, 70);
    u.heal(-10);
    assert_eq!(u.hp, 70);
    u.heal(50);
    assert_eq!(u.hp, 100);
    assert_eq!(u.hp_percent(), 100);
    u.hp = 33;
    u.max_hp = 70;
    assert_eq!(u.hp_percent(), 47);
    u.max_hp = 0;
    assert_eq!(u.hp_percent(), 0);
}

#[test]
fn levels_include_their_statuses() {
    let mut u = unit("s1", true);
    u.offense_level_mod = 2;
    u.statuses.add_potency("Offense Level Up", 3);
    u.statuses.add_potency("Defense Level Down", 50);
    assert_eq!(u.offense_level(), 45);
    assert_eq!(u.defense_level(), 1);
    u.add_poise(2, 3);
    assert_eq!(u.statuses.potency("Poise"), 2);
    assert_eq!(u.statuses.count("Poise"), 3);
    assert!(!u.is_staggered());
}

#[test]
fn status_values_and_markers() {
    let mut u = unit("s1", true);
    u.statuses.add_potency("Tremor", 2);
    u.statuses.add_count("Tremor", 3);
    u.statuses.add_stack("Charge", 4);
    assert_eq!(unit_status_value(&u, "Tremor", None), 5);
    assert_eq!(unit_status_value(&u, "Tremor", Some(Component::Count)), 3);
    assert_eq!(unit_status_value(&u, "Charge", Some(Component::Stack)), 4);
    assert!(has_named(&u, "Charge"));
    assert!(!has_named(&u, "Sinking"));
    assert!(!has_amplitude(&u));
    u.status_markers.push("Amplitude Conversion: Tremor - Decay".to_string());
    assert!(has_amplitude(&u));
    assert!(has_named(&u, "Amplitude Conversion"));
}

#[test]
fn a_status_listed_twice_counts_both_values_once() {
    let mut u = unit("s1", true);
    u.statuses.add_potency("Butterfly", 2);
    u.statuses.add_count("Butterfly", 5);
    u.statuses.add_potency("Sinking", 1);
    let both = vec!["Butterfly".to_string(), "Butterfly".to_string()];
    assert_eq!(sum_statuses(&u, &both, Some(Component::Potency)), 7);
    let mixed = vec!["Butterfly".to_string(), "Sinking".to_string()];
    assert_eq!(sum_statuses(&u, &mixed, Some(Component::Potency)), 3);
    assert_eq!(sum_statuses(&u, &Vec::new(), None), 0);
}

#[test]
fn status_threshold_conditions() {
    let mut actor = unit("s1", true);
    actor.statuses.add_potency("Sinking", 6);
    let cond = Condition { status: Some("Sinking".to_string()), gte: Some(5), ..Default::default() };
    assert!(condition_holds(&cond, &actor, None, 0, 0));
    let cond = Condition { status: Some("Sinking".to_string()), lte: Some(5), ..Default::default() };
    assert!(!condition_holds(&cond, &actor, None, 0, 0));
    // Reading the target without a target fails.
    let cond = Condition { source: Some("target".to_string()), ..Default::default() };
    assert!(!condition_holds(&cond, &actor, None, 0, 0));
}

#[test]
fn target_conditions_need_a_target() {
    let actor = unit("s1", true);
    let mut target = unit("e1", false);
    target.hp = 40;
    let cond = Condition { source: Some("target".to_string()), hp_below_percent: Some(50), ..Default::default() };
    assert!(condition_holds(&cond, &actor, Some(&target), 0, 0));
    let cond = Condition { hp_below_percent: Some(50), ..Default::default() };
    assert!(!condition_holds(&cond, &actor, Some(&target), 0, 0));
    let cond = Condition { target_is_non_sp_unit: true, ..Default::default() };
    assert!(condition_holds(&cond, &actor, Some(&target), 0, 0));
    assert!(!condition_holds(&cond, &actor, None, 0, 0));
    let cond = Condition { target_is_sp_unit: true, ..Default::default() };
    assert!(!condition_holds(&cond, &actor, Some(&target), 0, 0));
}

#[test]
fn alternatives_hold_when_any_holds() {
    let actor = unit("s1", true);
    let never = Condition { self_sp_at_least: Some(10), ..Default::default() };
    let always = Condition { clash_count_gte: Some(2), ..Default::default() };
    let cond = Condition { any_of: vec![never, always], ..Default::default() };
    assert!(condition_holds(&cond, &actor, None, 3, 0));
    assert!(!condition_holds(&cond, &actor, None, 1, 0));
}

#[test]
fn resonance_and_slot_conditions() {
    let mut actor = unit("s1", true);
    actor.resonance_of.insert("gloom", 3);
    actor.resonance_max = 4;
    let cond = Condition { resonance_gte: Some(3), resonance_of: Some("Gloom".to_string()), ..Default::default() };
    assert!(condition_holds(&cond, &actor, None, 0, 0));
    let cond = Condition { resonance_gte: Some(4), resonance_of: Some("Gloom".to_string()), ..Default::default() };
    assert!(!condition_holds(&cond, &actor, None, 0, 0));
    let cond = Condition { resonance_gte: Some(4), ..Default::default() };
    assert!(condition_holds(&cond, &actor, None, 0, 0));
    let cond = Condition { slot: Some("leftmost".to_string()), ..Default::default() };
    assert!(condition_holds(&cond, &actor, None, 0, 0));
    assert!(!condition_holds(&cond, &actor, None, 0, 2));
}

fn board() -> (Vec<Unit>, Vec<SubmittedAction>, Phase) {
    let mut s1 = unit("s1", true);
    s1.ego_slots.push(EgoId::new("20109"));
    s1.speed = 6;
    let mut e1 = unit("e1", false);
    e1.speed = 4;
    (vec![s1, e1], Vec::new(), Phase::AwaitingActions)
}

#[test]
fn assigning_the_bottom_card_keeps_the_panel() {
    let (mut units, mut actions, mut phase) = board();
    let act = Action::Assign { actor: UnitId::new("s1"), slot: 0, skill: SkillId::new("a"), target: UnitId::new("e1") };
    assert!(submit(&mut units, &mut actions, &mut phase, true, act).is_ok());
    assert_eq!(actions.len(), 1);
    assert!(!actions[0].used_top);
    assert_eq!(units[0].dashboard[0].current.as_str(), "a");
    assert_eq!(units[0].dashboard[0].target.as_ref().map(|t| t.as_str()), Some("e1"));
    assert!(!units[0].dashboard[0].converted);
}

#[test]
fn assigning_the_top_card_marks_it_used() {
    let (mut units, mut actions, mut phase) = board();
    let act = Action::Assign { actor: UnitId::new("s1"), slot: 0, skill: SkillId::new("b"), target: UnitId::new("e1") };
    submit(&mut units, &mut actions, &mut phase, true, act).unwrap();
    assert!(actions[0].used_top);
    assert_eq!(units[0].dashboard[0].current.as_str(), "a");
}

#[test]
fn a_defense_skill_replaces_the_bottom_card() {
    let (mut units, mut actions, mut phase) = board();
    let act = Action::Assign { actor: UnitId::new("s1"), slot: 0, skill: SkillId::new("guard"), target: UnitId::new("e1") };
    submit(&mut units, &mut actions, &mut phase, true, act).unwrap();
    let slot = &units[0].dashboard[0];
    assert_eq!(slot.current.as_str(), "guard");
    assert!(slot.converted);
    assert_eq!(slot.replaced.as_ref().map(|r| r.as_str()), Some("a"));
    // Resubmitting replaces the earlier action of the slot.
    let act = Action::Assign { actor: UnitId::new("s1"), slot: 0, skill: SkillId::new("b"), target: UnitId::new("e1") };
    submit(&mut units, &mut actions, &mut phase, true, act).unwrap();
    assert_eq!(actions.len(), 1);
    assert_eq!(actions[0].skill.as_str(), "b");
}

#[test]
fn refused_submissions_say_why() {
    let (mut units, mut actions, mut phase) = board();
    let act = Action::Assign { actor: UnitId::new("nobody"), slot: 0, skill: SkillId::new("a"), target: UnitId::new("e1") };
    assert_eq!(submit(&mut units, &mut actions, &mut phase, true, act), Err("unknown unit nobody".to_string()));
    let act = Action::Assign { actor: UnitId::new("s1"), slot: 7, skill: SkillId::new("a"), target: UnitId::new("e1") };
    assert_eq!(submit(&mut units, &mut actions, &mut phase, true, act), Err("s1 has no slot 7".to_string()));
    let act = Action::UseEgo {
        actor: UnitId::new("s1"),
        slot: 0,
        ego: EgoId::new("99999"),
        kind: EgoSkillKind::Awakening,
        target: UnitId::new("e1"),
    };
    assert_eq!(
        submit(&mut units, &mut actions, &mut phase, true, act),
        Err("s1 does not have E.G.O 99999 equipped".to_string())
    );
    units[0].alive = false;
    let act = Action::Assign { actor: UnitId::new("s1"), slot: 0, skill: SkillId::new("a"), target: UnitId::new("e1") };
    assert_eq!(submit(&mut units, &mut actions, &mut phase, true, act), Err("s1 is not alive".to_string()));
    assert!(actions.is_empty());
    assert_eq!(phase, Phase::AwaitingActions);
}

#[test]
fn chaining_needs_speed_in_a_focused_encounter() {
    let (mut units, mut actions, mut phase) = board();
    let act = Action::Engage { actor: UnitId::new("s1"), slot: 0, skill: SkillId::new("a"), enemy_slot: 2 };
    assert_eq!(
        submit(&mut units, &mut actions, &mut phase, false, act),
        Err("s1 cannot chain to enemy Slot 2 (Speed 6 vs 4)".to_string())
    );
    let act = Action::Engage { actor: UnitId::new("s1"), slot: 0, skill: SkillId::new("a"), enemy_slot: 2 };
    submit(&mut units, &mut actions, &mut phase, true, act).unwrap();
    assert_eq!(actions[0].enemy_slot, Some(2));
    assert_eq!(actions[0].target.as_ref().map(|t| t.as_str()), Some("e1"));
}

#[test]
fn an_ego_is_submitted_under_its_id_and_commit_starts_combat() {
    let (mut units, mut actions, mut phase) = board();
    let act = Action::UseEgo {
        actor: UnitId::new("s1"),
        slot: 0,
        ego: EgoId::new("20109"),
        kind: EgoSkillKind::Overclock,
        target: UnitId::new("e1"),
    };
    submit(&mut units, &mut actions, &mut phase, true, act).unwrap();
    assert!(actions[0].is_ego);
    assert_eq!(actions[0].skill.as_str(), "20109");
    assert_eq!(actions[0].ego_kind, Some(EgoSkillKind::Overclock));
    submit(&mut units, &mut actions, &mut phase, true, Action::Commit).unwrap();
    assert_eq!(phase, Phase::Combat);
}

#[test]
fn roster_queries() {
    let (mut units, _, _) = board();
    units.push(unit("s2", true));
    units[2].alive = false;
    assert_eq!(living_sinners(&units).iter().map(|u| u.as_str()).collect::<Vec<_>>(), vec!["s1"]);
    assert_eq!(living_enemies(&units).iter().map(|u| u.as_str()).collect::<Vec<_>>(), vec!["e1"]);
    assert_eq!(index_of(&units, &UnitId::new("s2")), Some(2));
    assert_eq!(index_of(&units, &UnitId::new("x")), None);
    assert!(can_act_now(&units, 0));
    assert!(!can_act_now(&units, 2));
    units[0].stagger.turns_remaining = 1;
    assert!(!can_act_now(&units, 0));
    units[0].acts_while_staggered = true;
    assert!(can_act_now(&units, 0));
}

#[test]
fn reused_attacks_go_to_the_healthiest_other_unit() {
    let mut units = vec![unit("e1", false), unit("s1", true), unit("s2", true), unit("s3", true)];
    units[1].hp = 50;
    units[2].hp = 80;
    units[3].hp = 80;
    // The enemy attacked s1: the next target is the last of the healthiest.
    assert_eq!(next_reuse_target(&units, 1, 0), Some(3));
    units[3].alive = false;
    assert_eq!(next_reuse_target(&units, 1, 0), Some(2));
    assert_eq!(next_reuse_target(&units, 0, 1), None);
}

#[test]
fn encounter_ending_skills() {
    let mut u = unit("pupa", false);
    u.ends_encounter_on.push("Eclosion".to_string());
    assert!(ends_encounter(&u, &SkillId::new("Eclosion")));
    assert!(!ends_encounter(&u, &SkillId::new("Quickening")));
}

#[test]
fn time_starts_with_ten_stacks_each() {
    let mut imago = unit("imago", false);
    update_time_state(&mut imago, 1, TimeState::Present, true);
    assert_eq!(imago.statuses.stack("In the Past"), 10);
    assert_eq!(imago.statuses.stack("In the Present"), 10);
    assert_eq!(imago.statuses.stack("In the Future"), 10);
    assert_eq!(imago.time_state, Some(TimeState::Present));
    assert_eq!(imago.statuses.stack("Temporal Disjunction"), 0);
    // Not scripted: nothing happens.
    let mut other = unit("other", false);
    update_time_state(&mut other, 1, TimeState::Past, false);
    assert_eq!(other.time_state, None);
}

#[test]
fn crossing_hp_thresholds_grants_stacks_once() {
    let mut imago = unit("imago", false);
    update_time_state(&mut imago, 1, TimeState::Present, true);
    imago.hp = 60;
    update_time_state(&mut imago, 2, TimeState::Present, true);
    assert_eq!(imago.statuses.stack("In the Past"), 20);
    assert_eq!(imago.time_threshold_flags, 1);
    update_time_state(&mut imago, 3, TimeState::Present, true);
    assert_eq!(imago.statuses.stack("In the Past"), 20);
    imago.hp = 30;
    update_time_state(&mut imago, 4, TimeState::Present, true);
    assert_eq!(imago.statuses.stack("In the Future"), 30);
    assert_eq!(imago.time_threshold_flags, 3);
}

#[test]
fn the_highest_stack_takes_over_and_adds_disjunction() {
    let mut imago = unit("imago", false);
    update_time_state(&mut imago, 1, TimeState::Past, true);
    imago.statuses.add_stack("In the Future", 2);
    update_time_state(&mut imago, 2, TimeState::Past, true);
    assert_eq!(imago.time_state, Some(TimeState::Future));
    assert_eq!(imago.statuses.stack("Temporal Disjunction"), 1);
    let (status, bonus) = time_state_bonus(&imago).unwrap();
    assert_eq!(status, "Bleed");
    assert_eq!(bonus.clash_power, 1);
}

#[test]
fn past_burns_attacking_sinners() {
    let mut units = vec![unit("imago", false), unit("s1", true)];
    units[0].time_state = Some(TimeState::Past);
    on_hit_by_sinner(&mut units, &campaign(&[]), 0, 1);
    assert_eq!(units[1].statuses.potency("Burn"), 1);
    assert_eq!(units[1].statuses.count("Burn"), 1);
    on_hit_by_sinner(&mut units, &campaign(&["past:burn_on_hit"]), 0, 1);
    assert_eq!(units[1].statuses.potency("Burn"), 1);
    units[0].time_state = Some(TimeState::Future);
    on_hit_by_sinner(&mut units, &campaign(&[]), 0, 1);
    assert_eq!(units[1].statuses.potency("Burn"), 1);
}

#[test]
fn turn_start_of_each_state() {
    let mut units = vec![unit("imago", false), unit("s1", true), unit("s2", true)];
    units[1].statuses.add_potency("Burn", 6);
    units[1].statuses.add_count("Burn", 4);
    units[0].time_state = Some(TimeState::Past);
    turn_start(&mut units, &campaign(&[]), 3, 0);
    assert_eq!(units[1].statuses.potency("HP Healing Down"), 5);
    assert_eq!(units[1].statuses.potency("Wrath Fragility"), 3);
    assert_eq!(units[2].statuses.potency("HP Healing Down"), 0);
    units[0].time_state = Some(TimeState::Present);
    turn_start(&mut units, &campaign(&[]), 3, 0);
    assert_eq!(units[0].statuses.potency("Poise"), 4);
    assert_eq!(units[0].statuses.count("Poise"), 4);
    units[0].time_state = Some(TimeState::Future);
    turn_start(&mut units, &campaign(&[]), 3, 0);
    assert_eq!(units[1].statuses.count("Bleed"), 5);
    assert_eq!(units[2].statuses.count("Bleed"), 5);
    assert_eq!(units[0].statuses.count("Bleed"), 0);
}

#[test]
fn signature_skills_and_their_last_coin() {
    let mut units = vec![unit("imago", false), unit("s1", true)];
    units[0].time_state = Some(TimeState::Future);
    units[0].time_signature.push((TimeState::Future, "Bloodflower".to_string()));
    units[0].statuses.add_stack("In the Future", 10);
    units[0].hp = 50;
    let skill = SkillId::new("Bloodflower");
    assert!(is_signature(&units, 0, &skill));
    assert_eq!(signature_final_power(&units, 0, &skill), 2);
    assert!(!keeps_poise_on_crit(&units, 0));
    assert_eq!(bleed_lifesteal_target(&units), Some(0));
    signature_last_coin(&mut units, &campaign(&[]), 0, &skill, 0, 2, 1);
    assert_eq!(units[0].hp, 50);
    signature_last_coin(&mut units, &campaign(&[]), 0, &skill, 1, 2, 1);
    assert_eq!(units[0].hp, 80);
}

#[test]
fn kalpagni_drains_half_the_stack_as_sp() {
    let mut units = vec![unit("imago", false), unit("s1", true)];
    units[0].time_state = Some(TimeState::Past);
    units[0].time_signature.push((TimeState::Past, "Kalpagni".to_string()));
    units[0].statuses.add_stack("In the Past", 15);
    let skill = SkillId::new("Kalpagni");
    signature_last_coin(&mut units, &campaign(&[]), 0, &skill, 0, 1, 1);
    assert_eq!(units[1].sanity.sp(), -7);
}

#[test]
fn a_wiped_side_loses() {
    let mut units = vec![unit("s1", true), unit("e1", false)];
    assert_eq!(victory_check(&units), (None, Phase::TurnStart));
    units[1].alive = false;
    assert_eq!(victory_check(&units), (Some(Winner::Sinners), Phase::Finished));
    units[0].alive = false;
    assert_eq!(victory_check(&units), (Some(Winner::Draw), Phase::Finished));
    units[1].alive = true;
    assert_eq!(victory_check(&units), (Some(Winner::Enemies), Phase::Finished));
}

#[test]
fn combat_end_sp_losses_count_down() {
    let mut sanity = Sanity::Sane { sp: 10 };
    let mut losses = vec![(3, 2), (4, 1)];
    combat_end_sp_loss(&mut sanity, &mut losses);
    assert_eq!(sanity.sp(), 3);
    assert_eq!(losses, vec![(3, 1)]);
    combat_end_sp_loss(&mut sanity, &mut losses);
    assert_eq!(sanity.sp(), 0);
    assert!(losses.is_empty());
    let mut out_of_range = Sanity::Sane { sp: 60 };
    combat_end_sp_loss(&mut out_of_range, &mut losses);
    assert_eq!(out_of_range.sp(), 60);
}

#[test]
fn panic_corrosion_and_low_morale_at_turn_start() {
    let mut s = unit("s1", true);
    s.sanity = Sanity::Sane { sp: -45 };
    assert_eq!(sanity_turn_start(&mut s), Some(true));
    assert!(s.panicked && !s.corroded && !s.low_morale);
    arm_panic_recovery(&mut s);
    assert!(s.panic_recovering);
    // The next Turn Start: back at 0 SP, calm.
    assert_eq!(sanity_turn_start(&mut s), None);
    assert_eq!(s.sanity.sp(), 0);
    assert!(!s.panicked && !s.panic_recovering);

    let mut c = unit("s2", true);
    c.sanity = Sanity::Sane { sp: -45 };
    c.corrosion_egos.push(EgoId::new("20109"));
    assert_eq!(sanity_turn_start(&mut c), None);
    assert!(c.corroded && c.panic_recovering && !c.panicked);

    let mut l = unit("s3", true);
    l.sanity = Sanity::Sane { sp: -30 };
    assert_eq!(sanity_turn_start(&mut l), Some(false));
    assert!(l.low_morale);

    let mut dead = unit("s4", true);
    dead.alive = false;
    dead.sanity = Sanity::Sane { sp: -45 };
    assert_eq!(sanity_turn_start(&mut dead), None);
    assert!(!dead.panicked);
}
