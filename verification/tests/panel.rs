use lcb_core::ids::{EnemyId, IdentityId, SkillId, UnitId};
use lcb_core::keyed::StrMap;
use lcb_core::panel::{discard_from_slot, discard_lowest_rank, refill_panel, rotate_slot, rotate_used_slots};
use lcb_core::rng::Rng;
use lcb_core::state::{
    DashboardSlot, Sanity, SkillDeck, StaggerState, StatusSet, SubmittedAction, Unit, UnitKind,
};

fn unit(id: &str, sinner: bool) -> Unit {
    Unit {
        planned_targets: 1,
        id: UnitId::new(id),
        kind: if sinner {
            UnitKind::Sinner { identity: IdentityId::new("10110") }
        } else {
            UnitKind::Abnormality { enemy: EnemyId::new("9567"), part: None }
        },
        name: id.to_string(),
        level: 40,
        hp: 100,
        max_hp: 100,
        shield: 0,
        sanity: if sinner { Sanity::Sane { sp: 0 } } else { Sanity::NoSanity },
        speed: 5,
        speed_range: (3, 7),
        offense_level_mod: 0,
        defense_level_mod: 0,
        stagger: StaggerState::new(vec![]),
        statuses: StatusSet::new(),
        skill_kills: 0,
        suit: None,
        combat_end_sp_loss: Vec::new(),
        status_markers: Vec::new(),
        deck: SkillDeck::new(Vec::new()),
        dashboard: vec![DashboardSlot::new(0, SkillId::new("a"), SkillId::new("b"), SkillId::new("c"))],
        panic_type: None,
        low_morale: false,
        panicked: false,
        corroded: false,
        panic_recovering: false,
        passive_ids: Vec::new(),
        combat_start_statuses: StrMap::new(),
        follow_up_active: false,
        pending_suit_conversion: false,
        petals_gained: 0,
        clash_any_speed_slots: Vec::new(),
        identity_skills: Vec::new(),
        ego_slots: Vec::new(),
        corrosion_egos: Vec::new(),
        alive: true,
        skill_cursor: 0,
        time_state: None,
        time_threshold_flags: 0,
        enemy_slots: 1,
        acts_while_staggered: false,
        clash_count_swing: None,
        time_signature: Vec::new(),
        shield_flat: None,
        ends_encounter_unless_shield_broken: false,
        hp_floor_percent: None,
        barrier_broken: false,
        ends_encounter_on: Vec::new(),
        turn_effect_usage: StrMap::new(),
        pending_next_turn: Vec::new(),
        retaliate_on_hit: Vec::new(),
        segmentation: None,
        hits_taken: 0,
        segmentation_healed: Vec::new(),
        resonance_max: 0,
        resonance_of: StrMap::new(),
        a_reson_max: 0,
    }
}

fn id(s: &str) -> SkillId {
    SkillId::new(s)
}

/// A unit with two slots (a/b/c and d/e/f) whose composition only holds `x`,
/// so every draw is `x` whatever the RNG says.
fn panel_unit() -> Unit {
    let mut u = unit("s1", true);
    u.dashboard = vec![
        DashboardSlot::new(1, id("a"), id("b"), id("c")),
        DashboardSlot::new(2, id("d"), id("e"), id("f")),
    ];
    let mut deck = SkillDeck::new(vec![(id("x"), 5)]);
    deck.paneled = vec![(id("a"), 1), (id("b"), 1), (id("c"), 1), (id("d"), 1), (id("e"), 1), (id("f"), 1)];
    u.deck = deck;
    u
}

fn cards(u: &Unit, k: usize) -> (String, String, String) {
    let s = &u.dashboard[k];
    (s.current.0.clone(), s.next.0.clone(), s.preview.0.clone())
}

fn triple(a: &str, b: &str, c: &str) -> (String, String, String) {
    (a.to_string(), b.to_string(), c.to_string())
}

#[test]
fn a_used_bottom_card_lets_the_top_card_slide_down() {
    let mut u = panel_unit();
    u.dashboard[0].target = Some(UnitId::new("e1"));
    let mut rng = Rng::from_seed(7);
    rotate_slot(&mut u, &mut rng, 1, false);
    assert_eq!(cards(&u, 0), triple("b", "c", "x"));
    assert_eq!(cards(&u, 1), triple("d", "e", "f"));
    assert!(u.dashboard[0].target.is_none());
    assert_eq!(u.deck.paneled_count(&id("a")), 0);
    assert_eq!(u.deck.paneled_count(&id("x")), 1);
    assert_eq!(rng.draw_count(), 1);
}

#[test]
fn a_used_top_card_keeps_the_bottom_card() {
    let mut u = panel_unit();
    let mut rng = Rng::from_seed(7);
    rotate_slot(&mut u, &mut rng, 1, true);
    assert_eq!(cards(&u, 0), triple("a", "c", "x"));
    assert_eq!(u.deck.paneled_count(&id("b")), 0);
    assert_eq!(u.deck.paneled_count(&id("a")), 1);
}

#[test]
fn a_replaced_card_is_the_one_consumed() {
    let mut u = panel_unit();
    u.dashboard[0].current = id("guard");
    u.dashboard[0].replaced = Some(id("a"));
    u.dashboard[0].converted = true;
    let mut rng = Rng::from_seed(7);
    rotate_slot(&mut u, &mut rng, 1, false);
    assert_eq!(cards(&u, 0), triple("b", "c", "x"));
    assert!(!u.dashboard[0].converted);
    assert!(u.dashboard[0].replaced.is_none());
    assert_eq!(u.deck.paneled_count(&id("a")), 0);
}

#[test]
fn rotating_a_missing_slot_changes_nothing() {
    let mut u = panel_unit();
    let mut rng = Rng::from_seed(7);
    rotate_slot(&mut u, &mut rng, 9, false);
    assert_eq!(cards(&u, 0), triple("a", "b", "c"));
    assert_eq!(rng.draw_count(), 0);
}

#[test]
fn an_empty_composition_draws_no_skill() {
    let mut u = panel_unit();
    u.deck.composition = Vec::new();
    u.deck.remaining = Vec::new();
    let mut rng = Rng::from_seed(7);
    rotate_slot(&mut u, &mut rng, 2, false);
    assert_eq!(cards(&u, 1), triple("e", "f", ""));
    assert_eq!(rng.draw_count(), 0);
}

#[test]
fn discarding_takes_the_top_card() {
    let mut u = panel_unit();
    let mut rng = Rng::from_seed(3);
    let gone = discard_from_slot(&mut u, &mut rng, 2, false);
    assert_eq!(gone, Some(id("e")));
    assert_eq!(cards(&u, 1), triple("d", "f", "x"));
    assert_eq!(u.deck.paneled_count(&id("e")), 0);
    u.dashboard[0].next = id("a");
    let kept = discard_from_slot(&mut u, &mut rng, 1, true);
    assert_eq!(kept, None);
    assert_eq!(cards(&u, 0), triple("a", "a", "c"));
    assert_eq!(discard_from_slot(&mut u, &mut rng, 9, false), None);
}

#[test]
fn discarding_by_rank_takes_the_first_slots() {
    let mut u = panel_unit();
    let mut rng = Rng::from_seed(3);
    discard_lowest_rank(&mut u, &mut rng, 1);
    assert_eq!(cards(&u, 0), triple("b", "c", "x"));
    assert_eq!(cards(&u, 1), triple("d", "e", "f"));
    discard_lowest_rank(&mut u, &mut rng, 0);
    discard_lowest_rank(&mut u, &mut rng, -2);
    assert_eq!(rng.draw_count(), 1);
    discard_lowest_rank(&mut u, &mut rng, 5);
    assert_eq!(cards(&u, 0), triple("c", "x", "x"));
    assert_eq!(cards(&u, 1), triple("e", "f", "x"));
    assert_eq!(rng.draw_count(), 3);
}

#[test]
fn used_slots_rotate_once_each_and_defense_marks_clear() {
    let mut units = vec![panel_unit()];
    let top = SubmittedAction {
        actor: UnitId::new("s1"),
        slot: 2,
        skill: id("e"),
        target: None,
        is_ego: false,
        enemy_slot: None,
        used_top: true,
        ego: None,
        ego_kind: None,
    };
    let mut rng = Rng::from_seed(11);
    let mut defense = vec![(0usize, 1u32), (0, 2), (0, 2)];
    rotate_used_slots(&mut units, &mut rng, &vec![top], &vec![(0, 1)], &mut defense);
    assert!(defense.is_empty());
    assert_eq!(cards(&units[0], 0), triple("b", "c", "x"));
    assert_eq!(cards(&units[0], 1), triple("d", "f", "x"));
    assert_eq!(rng.draw_count(), 2);
}

#[test]
fn turn_start_fills_only_the_empty_cards() {
    let mut u = panel_unit();
    u.dashboard[0].current = id("");
    u.dashboard[1].preview = id("");
    u.dashboard[1].next = id("");
    let mut rng = Rng::from_seed(7);
    refill_panel(&mut u, &mut rng);
    assert_eq!(cards(&u, 0), triple("x", "b", "c"));
    assert_eq!(cards(&u, 1), triple("d", "x", "x"));
    assert_eq!(u.deck.paneled_count(&id("x")), 3);
    assert_eq!(rng.draw_count(), 3);
    // A full panel draws nothing.
    refill_panel(&mut u, &mut rng);
    assert_eq!(rng.draw_count(), 3);
}
