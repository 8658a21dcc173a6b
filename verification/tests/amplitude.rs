use lcb_core::effects::amplitude_of;
use lcb_core::ids::{EnemyId, IdentityId, SkillId, UnitId};
use lcb_core::keyed::StrMap;
use lcb_core::state::{DashboardSlot, Sanity, SkillDeck, StaggerState, StatusSet, Unit, UnitKind};

fn unit(id: &str, sinner: bool) -> Unit {
    Unit {
        planned_targets: 1,
        id: UnitId::new(id),
        kind: if sinner {
            UnitKind::Sinner { identity: IdentityId::new("10110") }
        } else {
            UnitKind::Abnormality { enemy: EnemyId::new("9567"), part: None }
        },
        name: id.to_string(),
        level: 40,
        hp: 100,
        max_hp: 100,
        shield: 0,
        sanity: if sinner { Sanity::Sane { sp: 0 } } else { Sanity::NoSanity },
        speed: 5,
        speed_range: (3, 7),
        offense_level_mod: 0,
        defense_level_mod: 0,
        stagger: StaggerState::new(vec![]),
        statuses: StatusSet::new(),
        skill_kills: 0,
        suit: None,
        combat_end_sp_loss: Vec::new(),
        status_markers: Vec::new(),
        deck: SkillDeck::new(Vec::new()),
        dashboard: vec![DashboardSlot::new(0, SkillId::new("a"), SkillId::new("b"), SkillId::new("c"))],
        panic_type: None,
        low_morale: false,
        panicked: false,
        corroded: false,
        panic_recovering: false,
        passive_ids: Vec::new(),
        combat_start_statuses: StrMap::new(),
        follow_up_active: false,
        pending_suit_conversion: false,
        petals_gained: 0,
        clash_any_speed_slots: Vec::new(),
        identity_skills: Vec::new(),
        ego_slots: Vec::new(),
        corrosion_egos: Vec::new(),
        alive: true,
        skill_cursor: 0,
        time_state: None,
        time_threshold_flags: 0,
        enemy_slots: 1,
        acts_while_staggered: false,
        clash_count_swing: None,
        time_signature: Vec::new(),
        shield_flat: None,
        ends_encounter_unless_shield_broken: false,
        hp_floor_percent: None,
        barrier_broken: false,
        ends_encounter_on: Vec::new(),
        turn_effect_usage: StrMap::new(),
        pending_next_turn: Vec::new(),
        retaliate_on_hit: Vec::new(),
        segmentation: None,
        hits_taken: 0,
        segmentation_healed: Vec::new(),
        resonance_max: 0,
        resonance_of: StrMap::new(),
        a_reson_max: 0,
    }
}

#[test]
fn the_first_conversion_marker_names_the_amplitude() {
    let mut u = unit("s1", true);
    assert_eq!(amplitude_of(&u), None);
    u.status_markers = vec![
        "Amplitude Entanglement: Tremor".to_string(),
        "Amplitude Conversion: Bleed ".to_string(),
        "Amplitude Conversion: Burn".to_string(),
    ];
    assert_eq!(amplitude_of(&u), Some("Bleed".to_string()));
    u.status_markers = vec!["Amplitude ConversionAmplitude Conversion:: \tSinking".to_string()];
    assert_eq!(amplitude_of(&u), Some("Sinking".to_string()));
    u.status_markers = vec!["Amplitude Conversion".to_string()];
    assert_eq!(amplitude_of(&u), Some(String::new()));
}
