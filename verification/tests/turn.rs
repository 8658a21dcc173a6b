use lcb_core::dice::Dice;
use lcb_core::ids::{EnemyId, IdentityId, SkillId, UnitId};
use lcb_core::keyed::StrMap;
use lcb_core::rng::Rng;
use lcb_core::scripts::{Segmentation, TimeState};
use lcb_core::state::{
    CampaignState, DashboardSlot, Phase, PendingStatus, Sanity, SkillDeck, StaggerState, StatusSet, Unit, UnitKind,
    Winner,
};
use lcb_core::turn::{begin_turn, end_turn, BattleState};

fn unit(id: &str, sinner: bool) -> Unit {
    Unit {
        planned_targets: 1,
        id: UnitId::new(id),
        kind: if sinner {
            UnitKind::Sinner { identity: IdentityId::new("10110") }
        } else {
            UnitKind::Abnormality { enemy: EnemyId::new("9567"), part: None }
        },
        name: id.to_string(),
        level: 40,
        hp: 100,
        max_hp: 100,
        shield: 0,
        sanity: if sinner { Sanity::Sane { sp: 0 } } else { Sanity::NoSanity },
        speed: 5,
        speed_range: (3, 7),
        offense_level_mod: 0,
        defense_level_mod: 0,
        stagger: StaggerState::new(vec![]),
        statuses: StatusSet::new(),
        skill_kills: 0,
        suit: None,
        combat_end_sp_loss: Vec::new(),
        status_markers: Vec::new(),
        deck: SkillDeck::new(Vec::new()),
        dashboard: vec![DashboardSlot::new(0, SkillId::new("a"), SkillId::new("b"), SkillId::new("c"))],
        panic_type: None,
        low_morale: false,
        panicked: false,
        corroded: false,
        panic_recovering: false,
        passive_ids: Vec::new(),
        combat_start_statuses: StrMap::new(),
        follow_up_active: false,
        pending_suit_conversion: false,
        petals_gained: 0,
        clash_any_speed_slots: Vec::new(),
        identity_skills: Vec::new(),
        ego_slots: Vec::new(),
        corrosion_egos: Vec::new(),
        alive: true,
        skill_cursor: 0,
        time_state: None,
        time_threshold_flags: 0,
        enemy_slots: 1,
        acts_while_staggered: false,
        clash_count_swing: None,
        time_signature: Vec::new(),
        shield_flat: None,
        ends_encounter_unless_shield_broken: false,
        hp_floor_percent: None,
        barrier_broken: false,
        ends_encounter_on: Vec::new(),
        turn_effect_usage: StrMap::new(),
        pending_next_turn: Vec::new(),
        retaliate_on_hit: Vec::new(),
        segmentation: None,
        hits_taken: 0,
        segmentation_healed: Vec::new(),
        resonance_max: 0,
        resonance_of: StrMap::new(),
        a_reson_max: 0,
    }
}

fn id(s: &str) -> SkillId {
    SkillId::new(s)
}

fn state(units: Vec<Unit>, turn: u32, slot_target: usize) -> BattleState {
    BattleState {
        seed: 3,
        dice: Dice::new(Rng::from_seed(3), Vec::new()),
        turn,
        phase: Phase::AwaitingActions,
        units,
        deployment: Vec::new(),
        actions: Vec::new(),
        defense_slots_used: vec![(0, 1)],
        ego_resources: StrMap::new(),
        clash_counts: StrMap::new(),
        warnings: Vec::new(),
        winner: None,
        encounter_ended: false,
        slot_target,
        campaign: CampaignState {
            time_stacks: StrMap::new(),
            disabled_passives: Vec::new(),
            station: 5,
            pupa_hp: None,
        },
    }
}

fn sinner_with_deck(name: &str) -> Unit {
    let mut u = unit(name, true);
    u.dashboard = vec![DashboardSlot::new(0, id("a"), id("b"), id("c"))];
    let mut deck = SkillDeck::new(vec![(id("x"), 5)]);
    deck.paneled = vec![(id("a"), 1), (id("b"), 1), (id("c"), 1)];
    u.deck = deck;
    u
}

#[test]
fn a_turn_opens_with_queued_statuses_speeds_and_a_new_slot() {
    let mut s1 = sinner_with_deck("s1");
    s1.shield = 12;
    s1.pending_next_turn.push(PendingStatus { status: "Haste".to_string(), potency: 0, count: 2, stack: 0 });
    s1.turn_effect_usage.insert("line", 1);
    s1.turn_effect_usage.insert("encounter:line", 1);
    s1.hits_taken = 3;
    let enemy = unit("e1", false);
    let mut st = state(vec![s1, enemy], 1, 2);
    begin_turn(&mut st);
    assert_eq!(st.turn, 2);
    assert_eq!(st.phase, Phase::TurnStart);
    assert!(st.defense_slots_used.is_empty());
    let s = &st.units[0];
    assert_eq!(s.statuses.count("Haste"), 2);
    assert!(s.pending_next_turn.is_empty());
    assert_eq!(s.shield, 0);
    // Range 3..=7 moved up by 2 Haste.
    assert!((5..=9).contains(&s.speed));
    // Turn 2 grants a second slot, filled from the deck.
    assert_eq!(s.dashboard.len(), 2);
    assert_eq!(s.dashboard[1].slot, 1);
    assert_eq!(
        (s.dashboard[1].current.0.as_str(), s.dashboard[1].next.0.as_str(), s.dashboard[1].preview.0.as_str()),
        ("x", "x", "x")
    );
    assert_eq!(s.turn_effect_usage.get("line"), None);
    assert_eq!(s.turn_effect_usage.get("encounter:line"), Some(&1));
    assert_eq!(s.hits_taken, 0);
    // Two speed rolls and three draws.
    assert_eq!(st.dice.rng.draw_count(), 5);
}

#[test]
fn the_first_turn_grants_no_slot_and_panic_is_decided() {
    let mut s1 = sinner_with_deck("s1");
    s1.sanity = Sanity::Sane { sp: -45 };
    let mut st = state(vec![s1, unit("e1", false)], 0, 5);
    begin_turn(&mut st);
    assert_eq!(st.turn, 1);
    assert_eq!(st.units[0].dashboard.len(), 1);
    assert!(st.units[0].panicked);
    assert!(st.units[0].panic_recovering);
}

#[test]
fn a_turn_ends_with_upkeep_and_the_victory_check() {
    let mut s1 = unit("s1", true);
    s1.statuses.add_potency("Burn", 5);
    s1.statuses.add_count("Burn", 2);
    s1.statuses.add_stack("No Damage Taken", 1);
    s1.combat_end_sp_loss = vec![(4, 2)];
    let mut e1 = unit("e1", false);
    e1.statuses.add_potency("Burn", 200);
    e1.statuses.add_count("Burn", 1);
    let mut butterfly = unit("e2", false);
    butterfly.alive = false;
    butterfly.segmentation = Some(Segmentation {
        stack_status: "In the Past".to_string(),
        stack_loss_per_hit: 1,
        gain_if_not_hit: 3,
        attacker_sp_heal: 0,
    });
    let mut st = state(vec![s1, e1, butterfly], 1, 2);
    end_turn(&mut st, &StrMap::new());
    // "No Damage Taken" lapses first, so the Burn lands.
    assert_eq!(st.units[0].hp, 95);
    assert_eq!(st.units[0].statuses.count("Burn"), 1);
    assert_eq!(st.units[0].sanity.sp(), -4);
    assert_eq!(st.units[0].combat_end_sp_loss, vec![(4, 1)]);
    assert!(!st.units[1].alive);
    assert_eq!(st.campaign.time_stacks.get("In the Past"), Some(&3));
    assert_eq!(st.winner, Some(Winner::Sinners));
    assert_eq!(st.phase, Phase::Finished);
}

#[test]
fn an_encounter_ended_by_a_skill_skips_the_upkeep() {
    let mut s1 = unit("s1", true);
    s1.statuses.add_potency("Burn", 5);
    s1.statuses.add_count("Burn", 2);
    let mut st = state(vec![s1, unit("e1", false)], 1, 2);
    st.encounter_ended = true;
    end_turn(&mut st, &StrMap::new());
    assert_eq!(st.units[0].hp, 100);
    assert_eq!(st.winner, Some(Winner::EncounterEnded));
    assert_eq!(st.phase, Phase::Finished);
}
