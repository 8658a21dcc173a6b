use lcb_core::battle::{Action, EgoSkillKind};
use lcb_core::battle::DefenseKind;
use lcb_core::choices::{action_defense_kind, legal_actions};
use lcb_core::ids::{EgoId, EnemyId, IdentityId, SkillId, UnitId};
use lcb_core::keyed::StrMap;
use lcb_core::library::{EgoRecord, SkillRecord};
use lcb_core::state::{
    DashboardSlot, Phase, Sanity, SkillDeck, StaggerState, StatusSet, SubmittedAction, Unit, UnitKind, Winner,
};

fn unit(id: &str, sinner: bool) -> Unit {
    Unit {
        planned_targets: 1,
        id: UnitId::new(id),
        kind: if sinner {
            UnitKind::Sinner { identity: IdentityId::new("10110") }
        } else {
            UnitKind::Abnormality { enemy: EnemyId::new("9567"), part: None }
        },
        name: id.to_string(),
        level: 40,
        hp: 100,
        max_hp: 100,
        shield: 0,
        sanity: if sinner { Sanity::Sane { sp: 0 } } else { Sanity::NoSanity },
        speed: 5,
        speed_range: (3, 7),
        offense_level_mod: 0,
        defense_level_mod: 0,
        stagger: StaggerState::new(vec![]),
        statuses: StatusSet::new(),
        skill_kills: 0,
        suit: None,
        combat_end_sp_loss: Vec::new(),
        status_markers: Vec::new(),
        deck: SkillDeck::new(Vec::new()),
        dashboard: vec![DashboardSlot::new(0, SkillId::new("a"), SkillId::new("b"), SkillId::new("c"))],
        panic_type: None,
        low_morale: false,
        panicked: false,
        corroded: false,
        panic_recovering: false,
        passive_ids: Vec::new(),
        combat_start_statuses: StrMap::new(),
        follow_up_active: false,
        pending_suit_conversion: false,
        petals_gained: 0,
        clash_any_speed_slots: Vec::new(),
        identity_skills: Vec::new(),
        ego_slots: Vec::new(),
        corrosion_egos: Vec::new(),
        alive: true,
        skill_cursor: 0,
        time_state: None,
        time_threshold_flags: 0,
        enemy_slots: 1,
        acts_while_staggered: false,
        clash_count_swing: None,
        time_signature: Vec::new(),
        shield_flat: None,
        ends_encounter_unless_shield_broken: false,
        hp_floor_percent: None,
        barrier_broken: false,
        ends_encounter_on: Vec::new(),
        turn_effect_usage: StrMap::new(),
        pending_next_turn: Vec::new(),
        retaliate_on_hit: Vec::new(),
        segmentation: None,
        hits_taken: 0,
        segmentation_healed: Vec::new(),
        resonance_max: 0,
        resonance_of: StrMap::new(),
        a_reson_max: 0,
    }
}

fn skill(id: &str, slot: &str) -> SkillRecord {
    SkillRecord {
        id: id.to_string(),
        slot: slot.to_string(),
        name: None,
        name_en: None,
        name_zh: None,
        kind: None,
        rank: None,
        upties: StrMap::new(),
    }
}

fn kits() -> StrMap<Vec<SkillRecord>> {
    let mut kits = StrMap::new();
    kits.insert("10110", vec![skill("a", "Skill 1"), skill("d", "Defense"), skill("b", "Skill 2")]);
    kits
}

fn egos() -> StrMap<EgoRecord> {
    let mut cost = StrMap::new();
    cost.insert("wrath", 1);
    let mut egos = StrMap::new();
    egos.insert(
        "20109",
        EgoRecord {
            id: "20109".to_string(),
            name_en: None,
            name_zh: None,
            wiki_title: None,
            risk: None,
            sin_affinity: None,
            awakening_sp: Some(10),
            corrosion_sp: Some(20),
            resource_cost: cost,
            awakening: None,
            corrosion: None,
            unparsed: Vec::new(),
            sources: Vec::new(),
        },
    );
    egos
}

fn assign(skill: &str, target: &str) -> Action {
    Action::Assign { actor: UnitId::new("s1"), slot: 0, skill: SkillId::new(skill), target: UnitId::new(target) }
}

fn roster() -> Vec<Unit> {
    let mut s1 = unit("s1", true);
    s1.ego_slots.push(EgoId::new("20109"));
    s1.speed = 6;
    let mut e1 = unit("e1", false);
    e1.speed = 4;
    vec![s1, e1]
}

#[test]
fn no_actions_outside_the_action_phase_or_after_the_end() {
    let units = roster();
    let none = StrMap::new();
    assert!(legal_actions(&units, &Vec::new(), Phase::Combat, None, false, &kits(), &egos(), &none).is_empty());
    assert!(legal_actions(&units, &Vec::new(), Phase::AwaitingActions, Some(Winner::Sinners), false, &kits(), &egos(), &none)
        .is_empty());
}

#[test]
fn drawn_and_defense_skills_against_each_enemy_then_commit() {
    let units = roster();
    let none = StrMap::new();
    let got = legal_actions(&units, &Vec::new(), Phase::AwaitingActions, None, false, &kits(), &egos(), &none);
    assert_eq!(got, vec![assign("a", "e1"), assign("b", "e1"), assign("d", "e1"), Action::Commit]);
}

#[test]
fn ego_uses_appear_once_the_team_can_pay() {
    let units = roster();
    let mut held = StrMap::new();
    held.insert("wrath", 1);
    let got = legal_actions(&units, &Vec::new(), Phase::AwaitingActions, None, false, &kits(), &egos(), &held);
    let uses: Vec<&Action> = got.iter().filter(|a| matches!(a, Action::UseEgo { .. })).collect();
    // One resource pays the Awakening; the Overclock needs 1.5x, rounded up.
    assert_eq!(
        uses,
        vec![&Action::UseEgo {
            actor: UnitId::new("s1"),
            slot: 0,
            ego: EgoId::new("20109"),
            kind: EgoSkillKind::Awakening,
            target: UnitId::new("e1"),
        }]
    );
    held.insert("wrath", 2);
    let got = legal_actions(&units, &Vec::new(), Phase::AwaitingActions, None, false, &kits(), &egos(), &held);
    let kinds: Vec<EgoSkillKind> = got
        .iter()
        .filter_map(|a| match a {
            Action::UseEgo { kind, .. } => Some(*kind),
            _ => None,
        })
        .collect();
    assert_eq!(kinds, vec![EgoSkillKind::Awakening, EgoSkillKind::Overclock]);
    assert_eq!(got.last(), Some(&Action::Commit));
}

#[test]
fn ego_uses_need_sp_headroom() {
    let mut units = roster();
    units[0].sanity = Sanity::Sane { sp: -40 };
    let mut held = StrMap::new();
    held.insert("wrath", 5);
    let got = legal_actions(&units, &Vec::new(), Phase::AwaitingActions, None, false, &kits(), &egos(), &held);
    assert!(!got.iter().any(|a| matches!(a, Action::UseEgo { .. })));
}

#[test]
fn focused_encounters_offer_chains_before_targets() {
    let units = roster();
    let aimed = SubmittedAction {
        actor: UnitId::new("e1"),
        slot: 3,
        skill: SkillId::new("x"),
        target: Some(UnitId::new("s1")),
        is_ego: false,
        enemy_slot: None,
        used_top: false,
        ego: None,
        ego_kind: None,
    };
    let none = StrMap::new();
    let got = legal_actions(&units, &vec![aimed], Phase::AwaitingActions, None, true, &kits(), &egos(), &none);
    assert_eq!(
        got[0],
        Action::Engage { actor: UnitId::new("s1"), slot: 0, skill: SkillId::new("a"), enemy_slot: 3 }
    );
    assert_eq!(got[1], assign("a", "e1"));
    assert_eq!(got.len(), 7);
    let unfocused = legal_actions(&units, &Vec::new(), Phase::AwaitingActions, None, false, &kits(), &egos(), &none);
    assert_eq!(unfocused.len(), 4);
}

#[test]
fn staggered_or_unknown_units_offer_nothing() {
    let mut units = roster();
    units[0].stagger.turns_remaining = 1;
    let none = StrMap::new();
    let got = legal_actions(&units, &Vec::new(), Phase::AwaitingActions, None, false, &kits(), &egos(), &none);
    assert_eq!(got, vec![Action::Commit]);
    let units = roster();
    let got = legal_actions(&units, &Vec::new(), Phase::AwaitingActions, None, false, &StrMap::new(), &egos(), &none);
    assert_eq!(got, vec![Action::Commit]);
}

fn submitted(actor: &str, skill: &str, is_ego: bool) -> SubmittedAction {
    SubmittedAction {
        actor: UnitId::new(actor),
        slot: 0,
        skill: SkillId::new(skill),
        target: None,
        is_ego,
        enemy_slot: None,
        used_top: false,
        ego: None,
        ego_kind: None,
    }
}

#[test]
fn defense_skills_are_classified_by_their_type() {
    let units = roster();
    let mut kit = vec![skill("a", "Skill 1"), skill("d", "Defense"), skill("g", "Defense"), skill("v", "Defense")];
    kit[2].kind = Some("Guard".to_string());
    kit[3].kind = Some("Evade".to_string());
    let mut kits = StrMap::new();
    kits.insert("10110", kit);
    assert_eq!(action_defense_kind(&units, &kits, &submitted("s1", "d", false)), Some(DefenseKind::Counter));
    assert_eq!(action_defense_kind(&units, &kits, &submitted("s1", "g", false)), Some(DefenseKind::Guard));
    assert_eq!(action_defense_kind(&units, &kits, &submitted("s1", "v", false)), Some(DefenseKind::Evade));
    assert_eq!(action_defense_kind(&units, &kits, &submitted("s1", "a", false)), None);
    assert_eq!(action_defense_kind(&units, &kits, &submitted("s1", "g", true)), None);
    assert_eq!(action_defense_kind(&units, &kits, &submitted("e1", "g", false)), None);
    assert_eq!(action_defense_kind(&units, &kits, &submitted("nobody", "g", false)), None);
}
