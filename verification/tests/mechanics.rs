use lcb_core::battle::{self, final_power, CoinRuntime, CoinState, EgoSkillKind};
use lcb_core::dice::Dice;
use lcb_core::ids::{EnemyId, IdentityId, SkillId, UnitId};
use lcb_core::keyed::StrMap;
use lcb_core::library::EgoRecord;
use lcb_core::power::power_base;
use lcb_core::rng::Rng;
use lcb_core::scripts::TimeState;
use lcb_core::state::{DashboardSlot, Sanity, SkillDeck, StaggerState, StatusSet, Unit, UnitKind};
use lcb_core::toss::toss_all;
use lcb_core::upkeep::{apply_sinking, turn_end_upkeep};

fn unit(id: &str, sinner: bool) -> Unit {
    Unit {
        planned_targets: 1,
        id: UnitId::new(id),
        kind: if sinner {
            UnitKind::Sinner { identity: IdentityId::new("10110") }
        } else {
            UnitKind::Abnormality { enemy: EnemyId::new("9567"), part: None }
        },
        name: id.to_string(),
        level: 40,
        hp: 100,
        max_hp: 100,
        shield: 0,
        sanity: if sinner { Sanity::Sane { sp: 0 } } else { Sanity::NoSanity },
        speed: 5,
        speed_range: (3, 7),
        offense_level_mod: 0,
        defense_level_mod: 0,
        stagger: StaggerState::new(vec![]),
        statuses: StatusSet::new(),
        skill_kills: 0,
        suit: None,
        combat_end_sp_loss: Vec::new(),
        status_markers: Vec::new(),
        deck: SkillDeck::new(Vec::new()),
        dashboard: vec![DashboardSlot::new(0, SkillId::new("a"), SkillId::new("b"), SkillId::new("c"))],
        panic_type: None,
        low_morale: false,
        panicked: false,
        corroded: false,
        panic_recovering: false,
        passive_ids: Vec::new(),
        combat_start_statuses: StrMap::new(),
        follow_up_active: false,
        pending_suit_conversion: false,
        petals_gained: 0,
        clash_any_speed_slots: Vec::new(),
        identity_skills: Vec::new(),
        ego_slots: Vec::new(),
        corrosion_egos: Vec::new(),
        alive: true,
        skill_cursor: 0,
        time_state: None,
        time_threshold_flags: 0,
        enemy_slots: 1,
        acts_while_staggered: false,
        clash_count_swing: None,
        time_signature: Vec::new(),
        shield_flat: None,
        ends_encounter_unless_shield_broken: false,
        hp_floor_percent: None,
        barrier_broken: false,
        ends_encounter_on: Vec::new(),
        turn_effect_usage: StrMap::new(),
        pending_next_turn: Vec::new(),
        retaliate_on_hit: Vec::new(),
        segmentation: None,
        hits_taken: 0,
        segmentation_healed: Vec::new(),
        resonance_max: 0,
        resonance_of: StrMap::new(),
        a_reson_max: 0,
    }
}


#[test]
fn sanity_changes_coin_flip_odds() {
    assert_eq!(Sanity::Sane { sp: 0 }.heads_percent(), 50);
    assert_eq!(Sanity::Sane { sp: 45 }.heads_percent(), 95);
    assert_eq!(Sanity::Sane { sp: -45 }.heads_percent(), 5);
    assert_eq!(Sanity::NoSanity.heads_percent(), 50, "abnormalities flip at 50%");
    let over = Sanity::Sane { sp: 40 }.add(20);
    assert_eq!(over.sp(), 45);
    let under = Sanity::Sane { sp: -40 }.add(-20);
    assert_eq!(under.sp(), -45);
}

#[test]
fn unbreakable_coins_crack_instead_of_breaking() {
    let mut coin = battle::CoinRuntime::fresh(true);
    battle::break_coin_for_test(&mut coin);
    assert_eq!(coin.state, CoinState::Cracked);
    let mut normal = battle::CoinRuntime::fresh(false);
    battle::break_coin_for_test(&mut normal);
    assert_eq!(normal.state, CoinState::Destroyed);
}

#[test]
fn deck_draws_randomly_and_resets_after_full_placement() {
    let mut rng = Rng::from_seed(9);
    let mut deck = SkillDeck::new(vec![
        (SkillId::new("s1"), 3),
        (SkillId::new("s2"), 2),
        (SkillId::new("s3"), 1),
    ]);
    let mut drawn = Vec::new();
    for _ in 0..6 {
        drawn.push(deck.draw(&mut rng).unwrap().0);
    }
    assert!(deck.is_empty(), "all six copies have been placed");
    let mut counts = std::collections::BTreeMap::new();
    for id in &drawn {
        *counts.entry(id.clone()).or_insert(0) += 1;
    }
    assert_eq!(counts.get("s1"), Some(&3));
    assert_eq!(counts.get("s2"), Some(&2));
    assert_eq!(counts.get("s3"), Some(&1));
    // The composition resets and can be drawn again.
    assert_eq!(deck.draw(&mut rng).unwrap().0.len(), 2);
    assert_eq!(deck.len(), 5);
}

#[test]
fn time_state_stack_bonus_matches_game_text() {
    let low = TimeState::stack_bonus(5);
    assert_eq!((low.clash_power, low.final_power, low.potency, low.count), (0, 0, 1, 1));
    let mid = TimeState::stack_bonus(15);
    assert_eq!((mid.clash_power, mid.final_power, mid.potency, mid.count), (1, 0, 2, 1));
    let high = TimeState::stack_bonus(25);
    assert_eq!((high.clash_power, high.final_power, high.potency, high.count), (0, 2, 3, 2));
    assert_eq!(TimeState::Past.boosted_status(), "Burn");
    assert_eq!(TimeState::Present.boosted_status(), "Poise");
    assert_eq!(TimeState::Future.boosted_status(), "Bleed");
}

/// Clash power is Base Power once plus the Coin Power of every Heads coin:
/// a 4+4 three-coin skill ranges over 4..16.
#[test]
fn clash_power_sums_every_coin() {
    let mut units = vec![unit("s1", true)];
    let skill = SkillId::new("1011003");
    let mut coins = vec![CoinRuntime::fresh(false), CoinRuntime::fresh(false), CoinRuntime::fresh(false)];
    let mut dice = Dice::new(Rng::from_seed(3), vec![true, true, true]);
    toss_all(&mut units[0], &mut dice, &mut coins);
    let base = power_base(&units, 0, 4, 0, false, &skill);
    assert_eq!(final_power(base, &coins, 4, 0, 0, 0), 16);
    let mut coins = vec![CoinRuntime::fresh(false), CoinRuntime::fresh(false), CoinRuntime::fresh(false)];
    let mut dice = Dice::new(Rng::from_seed(3), vec![false, false, false]);
    toss_all(&mut units[0], &mut dice, &mut coins);
    assert_eq!(final_power(base, &coins, 4, 0, 0, 0), 4);
}

/// Power Up/Down act on every skill, Attack Power Up/Down on attacks only.
#[test]
fn power_statuses_change_final_power() {
    let mut units = vec![unit("s1", true)];
    let skill = SkillId::new("1011001");
    let mut coins = vec![CoinRuntime::fresh(false)];
    let mut dice = Dice::new(Rng::from_seed(3), vec![false; 16]);
    toss_all(&mut units[0], &mut dice, &mut coins);
    let base = power_base(&units, 0, 4, 0, false, &skill);
    assert_eq!(final_power(base, &coins, 0, 0, 0, 0), 4);
    units[0].statuses.add_count("Power Up", 3);
    units[0].statuses.add_count("Attack Power Up", 2);
    units[0].statuses.add_potency("Attack Power Down", 1);
    let base = power_base(&units, 0, 4, 0, false, &skill);
    assert_eq!(final_power(base, &coins, 0, 0, 0, 0), 4 + 3 + 2 - 1);
}

/// Burn ticks at Turn End by its Potency, then loses a Count.
#[test]
fn burn_ticks_at_turn_end() {
    let mut u = unit("e1", false);
    u.statuses.add_potency("Burn", 25);
    u.statuses.add_count("Burn", 3);
    let hp_before = u.hp;
    turn_end_upkeep(&mut u, &StrMap::new());
    assert_eq!(u.hp, hp_before - 25);
    assert_eq!(u.statuses.count("Burn"), 2);
}

/// Sinking costs a unit with Sanity SP and a unit without Sanity HP.
#[test]
fn sinking_damages_sp_or_gloom() {
    let mut sinner = unit("s1", true);
    sinner.sanity = Sanity::Sane { sp: 10 };
    sinner.statuses.add_potency("Sinking", 8);
    sinner.statuses.add_count("Sinking", 2);
    let mut enemy = unit("e1", false);
    enemy.statuses.add_potency("Sinking", 30);
    enemy.statuses.add_count("Sinking", 2);
    let hp_before = enemy.hp;
    let mut units = vec![sinner, enemy];
    apply_sinking(&mut units, 0, &StrMap::new(), 0);
    // The Gloom damage of 30 Sinking against a neutral resistance.
    apply_sinking(&mut units, 1, &StrMap::new(), 30);
    assert_eq!(units[0].sanity.sp(), 2, "8 Sinking potency -> 8 SP damage");
    assert!(units[1].hp < hp_before, "non-SP unit takes Gloom damage");
}

/// An Overclock costs 1.5 times the resources, rounded up.
#[test]
fn ego_costs_and_overclock_round_up() {
    let mut resource_cost = StrMap::new();
    resource_cost.insert("gloom", 3);
    let ego = EgoRecord {
        id: "20106".to_string(),
        name_en: None,
        name_zh: None,
        wiki_title: None,
        risk: None,
        sin_affinity: None,
        awakening_sp: None,
        corrosion_sp: None,
        resource_cost,
        awakening: None,
        corrosion: None,
        unparsed: Vec::new(),
        sources: Vec::new(),
    };
    assert_eq!(ego.resource_cost.get("gloom"), Some(&3));
    assert!(ego.resource_cost.get("Gloom").is_none());
    let mut resources = StrMap::new();
    resources.insert("gloom", 9);
    resources.insert("sloth", 9);
    let kind = EgoSkillKind::Overclock;
    let affordable = battle::ego_affordable(Sanity::Sane { sp: 45 }, &resources, &ego, kind);
    assert!(affordable, "9 resources are enough for ceil(4.5)=5");
    battle::pay_ego(&mut resources, &ego, kind);
    assert_eq!(resources.get("gloom"), Some(&4));
}

/// Bind lowers Speed for the turn by its Potency here; Haste is not involved.
#[test]
fn bind_lowers_speed() {
    let mut unit = unit("s1", true);
    unit.statuses.add_potency("Bind", 2);
    let bind = unit.statuses.potency("Bind");
    let haste = unit.statuses.count("Haste");
    assert_eq!(bind - haste, 2);
}

/// Stagger thresholds are percentages of max HP.  (The damage bonus of a
/// Stagger level is floating point and computed outside the library.)
#[test]
fn stagger_levels_match_source() {
    let stagger = StaggerState::new(vec![60, 30, 15]);
    assert_eq!(stagger.crossed_thresholds(100, 100), 0);
    assert_eq!(stagger.crossed_thresholds(59, 100), 1);
    assert_eq!(stagger.crossed_thresholds(29, 100), 2);
    assert_eq!(stagger.crossed_thresholds(14, 100), 3);
}
