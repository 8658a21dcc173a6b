use lcb_core::enemy_turn::enemy_turn_skills;
use lcb_core::ids::{EnemyId, IdentityId, SkillId, UnitId};
use lcb_core::keyed::StrMap;
use lcb_core::library::EnemySkillRecord;
use lcb_core::scripts::{Rotation, ScriptBranch, TimeState};
use lcb_core::state::{
    DashboardSlot, EnemyPolicy, Sanity, SkillDeck, StaggerState, StatusSet, Unit, UnitKind,
};

fn unit(id: &str, sinner: bool) -> Unit {
    Unit {
        planned_targets: 1,
        id: UnitId::new(id),
        kind: if sinner {
            UnitKind::Sinner { identity: IdentityId::new("10110") }
        } else {
            UnitKind::Abnormality { enemy: EnemyId::new("9567"), part: None }
        },
        name: id.to_string(),
        level: 40,
        hp: 100,
        max_hp: 100,
        shield: 0,
        sanity: if sinner { Sanity::Sane { sp: 0 } } else { Sanity::NoSanity },
        speed: 5,
        speed_range: (3, 7),
        offense_level_mod: 0,
        defense_level_mod: 0,
        stagger: StaggerState::new(vec![]),
        statuses: StatusSet::new(),
        skill_kills: 0,
        suit: None,
        combat_end_sp_loss: Vec::new(),
        status_markers: Vec::new(),
        deck: SkillDeck::new(Vec::new()),
        dashboard: vec![DashboardSlot::new(0, SkillId::new("a"), SkillId::new("b"), SkillId::new("c"))],
        panic_type: None,
        low_morale: false,
        panicked: false,
        corroded: false,
        panic_recovering: false,
        passive_ids: Vec::new(),
        combat_start_statuses: StrMap::new(),
        follow_up_active: false,
        pending_suit_conversion: false,
        petals_gained: 0,
        clash_any_speed_slots: Vec::new(),
        identity_skills: Vec::new(),
        ego_slots: Vec::new(),
        corrosion_egos: Vec::new(),
        alive: true,
        skill_cursor: 0,
        time_state: None,
        time_threshold_flags: 0,
        enemy_slots: 1,
        acts_while_staggered: false,
        clash_count_swing: None,
        time_signature: Vec::new(),
        shield_flat: None,
        ends_encounter_unless_shield_broken: false,
        hp_floor_percent: None,
        barrier_broken: false,
        ends_encounter_on: Vec::new(),
        turn_effect_usage: StrMap::new(),
        pending_next_turn: Vec::new(),
        retaliate_on_hit: Vec::new(),
        segmentation: None,
        hits_taken: 0,
        segmentation_healed: Vec::new(),
        resonance_max: 0,
        resonance_of: StrMap::new(),
        a_reson_max: 0,
    }
}

fn listed(id: Option<&str>, name: &str) -> EnemySkillRecord {
    EnemySkillRecord {
        id: id.map(|s| s.to_string()),
        name: Some(name.to_string()),
        hint: None,
        level: None,
        sin: None,
        rank: None,
        kind: None,
        base_power: None,
        coin_power: None,
        coins: None,
        attack_weight: None,
        offense_level_mod: None,
        on_use_text: String::new(),
        coin_texts: Vec::new(),
    }
}

fn ids(v: &[SkillId]) -> Vec<String> {
    v.iter().map(|s| s.0.clone()).collect()
}

fn words(v: &[&str]) -> Vec<String> {
    v.iter().map(|s| s.to_string()).collect()
}

fn rotation() -> Rotation {
    Rotation {
        cycle_turns: 2,
        states: StrMap::new(),
        turns: vec![words(&["a", "b"]), words(&["c"])],
        branch: Some(ScriptBranch { when: "barrier_broken".to_string(), turns: vec![words(&["z"])] }),
    }
}

#[test]
fn sinners_have_no_enemy_turn() {
    let mut u = unit("s1", true);
    let r = enemy_turn_skills(&mut u, 1, TimeState::Past, EnemyPolicy::Cyclic, Some(&rotation()), None);
    assert!(r.is_empty());
    assert_eq!(u.skill_cursor, 0);
}

#[test]
fn a_script_plays_its_cycle() {
    let mut u = unit("e1", false);
    let rot = rotation();
    let r = enemy_turn_skills(&mut u, 3, TimeState::Past, EnemyPolicy::Cyclic, Some(&rot), None);
    assert_eq!(ids(&r), words(&["a", "b"]));
    assert_eq!(u.skill_cursor, 1);
    let r = enemy_turn_skills(&mut u, 4, TimeState::Past, EnemyPolicy::Cyclic, Some(&rot), None);
    assert_eq!(ids(&r), words(&["c"]));
    assert_eq!(u.skill_cursor, 0);
    u.barrier_broken = true;
    let r = enemy_turn_skills(&mut u, 5, TimeState::Past, EnemyPolicy::Cyclic, Some(&rot), None);
    assert_eq!(ids(&r), words(&["z"]));
}

#[test]
fn without_a_script_the_listed_skills_cycle_or_repeat() {
    let skills = vec![listed(Some("100"), "Slash"), listed(None, "Bite")];
    let mut u = unit("e1", false);
    let r = enemy_turn_skills(&mut u, 1, TimeState::Past, EnemyPolicy::Cyclic, None, Some(&skills));
    assert_eq!(ids(&r), words(&["100"]));
    let r = enemy_turn_skills(&mut u, 2, TimeState::Past, EnemyPolicy::Cyclic, None, Some(&skills));
    assert_eq!(ids(&r), words(&["Bite"]));
    assert_eq!(u.skill_cursor, 0);
    let r = enemy_turn_skills(&mut u, 3, TimeState::Past, EnemyPolicy::FirstListed, None, Some(&skills));
    assert_eq!(ids(&r), words(&["100"]));
    assert_eq!(u.skill_cursor, 0);
    assert!(enemy_turn_skills(&mut u, 4, TimeState::Past, EnemyPolicy::Cyclic, None, None).is_empty());
    assert!(enemy_turn_skills(&mut u, 4, TimeState::Past, EnemyPolicy::Cyclic, None, Some(&Vec::new())).is_empty());
}

#[test]
fn an_empty_script_turn_falls_back_to_the_listed_skills() {
    let skills = vec![listed(Some("100"), "Slash"), listed(Some("200"), "Bite")];
    let rot = Rotation { cycle_turns: 3, states: StrMap::new(), turns: vec![Vec::new()], branch: None };
    let mut u = unit("e1", false);
    let r = enemy_turn_skills(&mut u, 1, TimeState::Past, EnemyPolicy::Cyclic, Some(&rot), Some(&skills));
    // The script moved the cursor to 1 before the fallback read it.
    assert_eq!(ids(&r), words(&["200"]));
    assert_eq!(u.skill_cursor, 0);
}
