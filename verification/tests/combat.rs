use lcb_core::battle::{
    self, amount, clash_round, clash_winner, compute_resonance, consume_status_amount, corrosion_chance_for_sp,
    current_coin, cracked_coins, destroy_first_coin, effective_coin_power, ego_affordable, ego_sp_cost,
    final_power, finish, has_fresh_coins, highest_resonance, overclock, pay_ego, petals_gain_cap,
    refund_overclock_surcharge, reload_solitude, remaining_coins, roll_living, scaled, sin_key_by_index,
    sin_name, sort_by_slot, spend_ammo, tick_status, ClashSide, CoinRuntime, CoinState, EgoSkillKind,
    AMMO_SOLEMN_LAMENT, AMMO_SOLITUDE, RELOAD_MARKER,
};
use lcb_core::dice::Dice;
use lcb_core::ids::Sin;
use lcb_core::keyed::StrMap;
use lcb_core::library::EgoRecord;
use lcb_core::rng::Rng;
use lcb_core::state::{Sanity, StatusSet};

fn ego(awakening_sp: Option<i32>, corrosion_sp: Option<i32>, cost: &[(&str, i32)]) -> EgoRecord {
    let mut resource_cost = StrMap::new();
    for (sin, n) in cost {
        resource_cost.insert(sin, *n);
    }
    EgoRecord {
        id: "20109".to_string(),
        name_en: None,
        name_zh: None,
        wiki_title: None,
        risk: None,
        sin_affinity: None,
        awakening_sp,
        corrosion_sp,
        resource_cost,
        awakening: None,
        corrosion: None,
        unparsed: Vec::new(),
        sources: Vec::new(),
    }
}

fn resources(items: &[(&str, i32)]) -> StrMap<i32> {
    let mut m = StrMap::new();
    for (k, v) in items {
        m.insert(k, *v);
    }
    m
}

fn heads(mut c: CoinRuntime, h: bool) -> CoinRuntime {
    c.heads = Some(h);
    c
}

#[test]
fn destroying_skips_coins_already_out_of_play() {
    let mut coins = vec![CoinRuntime::fresh(false), CoinRuntime::fresh(true), CoinRuntime::fresh(false)];
    destroy_first_coin(&mut coins, 0);
    assert_eq!(coins[0].state, CoinState::Destroyed);
    destroy_first_coin(&mut coins, 0);
    assert_eq!(coins[1].state, CoinState::Cracked);
    assert_eq!(current_coin(&coins), Some(2));
    assert!(has_fresh_coins(&coins));
    assert_eq!(cracked_coins(&coins), vec![1]);
    assert_eq!(remaining_coins(&coins), 2);
}

#[test]
fn clash_round_destroys_one_coin_of_the_lower_side() {
    let mut a = vec![CoinRuntime::fresh(false), CoinRuntime::fresh(false)];
    let mut b = vec![CoinRuntime::fresh(false)];
    clash_round(&mut a, &mut b, 10, 7);
    assert_eq!(b[0].state, CoinState::Destroyed);
    assert_eq!(a[0].state, CoinState::Fresh);
    assert_eq!(clash_winner(&a, &b), Some(ClashSide::First));
    // A tie destroys nothing.
    let mut c = vec![CoinRuntime::fresh(false)];
    let mut d = vec![CoinRuntime::fresh(false)];
    clash_round(&mut c, &mut d, 5, 5);
    assert_eq!(c[0].state, CoinState::Fresh);
    assert_eq!(d[0].state, CoinState::Fresh);
    assert_eq!(clash_winner(&c, &d), None);
}

#[test]
fn cracked_coin_power_is_one_plus_modifiers() {
    let mut coin = CoinRuntime::fresh(true);
    battle::break_coin(&mut coin, 0);
    assert_eq!(effective_coin_power(&coin, 4, 1, 0, 0), 2);
    let mut paralyzed = CoinRuntime::fresh(false);
    paralyzed.paralyzed = true;
    assert_eq!(effective_coin_power(&paralyzed, 4, 1, 0, 0), 0);
    assert_eq!(effective_coin_power(&CoinRuntime::fresh(false), 4, 1, 2, 9), 7);
    assert_eq!(effective_coin_power(&CoinRuntime::fresh(false), -3, 0, 9, 2), -5);
}

#[test]
fn final_power_adds_heads_coins_to_base() {
    // Base 4, Coin Power +4, heads/tails/heads: 4 + 4 + 4.
    let coins = vec![
        heads(CoinRuntime::fresh(false), true),
        heads(CoinRuntime::fresh(false), false),
        heads(CoinRuntime::fresh(false), true),
    ];
    assert_eq!(final_power(4, &coins, 4, 0, 0, 0), 12);
    // Minus coins never take Final Power below 0.
    let minus = vec![heads(CoinRuntime::fresh(false), true)];
    assert_eq!(final_power(2, &minus, -10, 0, 0, 0), 0);
}

#[test]
fn corrosion_table_follows_sp_bands() {
    assert_eq!(corrosion_chance_for_sp(-24), None);
    assert_eq!(corrosion_chance_for_sp(-25), Some(25));
    assert_eq!(corrosion_chance_for_sp(-35), Some(75));
    assert_eq!(corrosion_chance_for_sp(-45), Some(100));
}

#[test]
fn overclock_rounds_up() {
    assert_eq!(overclock(3), 5);
    assert_eq!(overclock(2), 3);
    assert_eq!(overclock(-3), -4);
    assert_eq!(overclock(i32::MAX), i32::MAX);
    let e = ego(Some(10), Some(15), &[]);
    assert_eq!(ego_sp_cost(&e, EgoSkillKind::Awakening), 10);
    assert_eq!(ego_sp_cost(&e, EgoSkillKind::Corrosion), 15);
    assert_eq!(ego_sp_cost(&e, EgoSkillKind::Overclock), 23);
}

#[test]
fn finish_puts_the_actor_first() {
    assert_eq!(finish(vec![3, 4, 5], 2, 0, true), vec![0, 3]);
    assert_eq!(finish(vec![3, 4, 5], 2, 0, false), vec![3, 4]);
    assert_eq!(finish(vec![3], 5, 0, false), vec![3]);
    assert_eq!(finish(vec![3], 0, 7, true), Vec::<usize>::new());
    assert_eq!(finish(vec![3], 1, 7, true), vec![7]);
}

#[test]
fn sin_names_and_keys() {
    assert_eq!(sin_name(Sin::Gloom), "Gloom");
    assert_eq!(sin_key_by_index(0), "wrath");
    assert_eq!(sin_key_by_index(4), "gloom");
    assert_eq!(sin_key_by_index(99), "envy");
}

#[test]
fn dice_use_presets_before_the_generator() {
    let mut dice = Dice::new(Rng::from_seed(1), vec![true, false]);
    assert!(dice.flip(0));
    assert!(!dice.flip(100));
    assert_eq!(dice.flip_cursor, 2);
    assert_eq!(dice.rng.draw_count(), 0);
    let mut rng = Rng::from_seed(1);
    assert_eq!(dice.flip(37), rng.flip_percent(37));
    assert_eq!(dice.rng.draw_count(), 1);
}

#[test]
fn preset_rolls_take_the_middle_of_the_range() {
    let mut dice = Dice::new(Rng::from_seed(3), vec![true]);
    assert_eq!(dice.roll_inclusive(0), 0);
    assert_eq!(dice.flip_cursor, 0);
    assert_eq!(dice.roll_inclusive(9), 4);
    let r = dice.roll_inclusive(6);
    assert!((0..=6).contains(&r));
}

#[test]
fn living_half_depends_on_sp() {
    let mut a = Dice::new(Rng::from_seed(8), vec![]);
    let mut rng = Rng::from_seed(8);
    assert_eq!(roll_living(&mut a, Sanity::Sane { sp: 0 }), rng.flip_percent(30));
    assert_eq!(roll_living(&mut a, Sanity::Sane { sp: -1 }), rng.flip_percent(70));
}

#[test]
fn single_value_ammo_spends_its_stack() {
    let mut dice = Dice::new(Rng::from_seed(1), vec![]);
    let mut st = StatusSet::new();
    st.add_stack(AMMO_SOLITUDE, 3);
    assert_eq!(spend_ammo(&mut dice, Sanity::Sane { sp: 0 }, &mut st, AMMO_SOLITUDE, 5), (3, None));
    assert_eq!(st.stack(AMMO_SOLITUDE), 0);
    assert!(st.is_empty());
    assert_eq!(spend_ammo(&mut dice, Sanity::Sane { sp: 0 }, &mut st, AMMO_SOLITUDE, 0), (0, None));
}

#[test]
fn lament_ammo_rolls_each_round() {
    // Rolls: Living, Departed, Living, Living: the pool holds 2 Living and 1
    // Departed, so the last round wants The Living but only The Departed
    // would be left - and it is empty too, so spending stops.
    let mut dice = Dice::new(Rng::from_seed(1), vec![true, false, true, true]);
    let mut st = StatusSet::new();
    st.add_potency(AMMO_SOLEMN_LAMENT, 2);
    st.add_count(AMMO_SOLEMN_LAMENT, 1);
    let r = spend_ammo(&mut dice, Sanity::Sane { sp: 0 }, &mut st, AMMO_SOLEMN_LAMENT, 4);
    assert_eq!(r, (3, Some(2)));
    assert_eq!(st.potency(AMMO_SOLEMN_LAMENT), 0);
    assert_eq!(st.count(AMMO_SOLEMN_LAMENT), 0);
    assert_eq!(dice.flip_cursor, 4);
}

#[test]
fn lament_takes_the_other_half_when_one_is_empty() {
    let mut dice = Dice::new(Rng::from_seed(1), vec![false, false]);
    let mut st = StatusSet::new();
    st.add_potency(AMMO_SOLEMN_LAMENT, 2);
    let r = spend_ammo(&mut dice, Sanity::Sane { sp: 0 }, &mut st, AMMO_SOLEMN_LAMENT, 2);
    assert_eq!(r, (2, Some(2)));
}

#[test]
fn reload_pays_sp_and_refills_twenty_rounds() {
    let mut dice = Dice::new(Rng::from_seed(1), vec![true; 20]);
    let mut sanity = Sanity::Sane { sp: 5 };
    let mut st = StatusSet::new();
    st.add_potency(AMMO_SOLEMN_LAMENT, 6);
    st.add_count(AMMO_SOLEMN_LAMENT, 4);
    let note = reload_solitude(&mut dice, &mut sanity, &mut st);
    assert_eq!(note, "Reloaded [The Living & The Departed] (SP -10)");
    assert_eq!(sanity.sp(), -5);
    // Twenty Living rolls are held to 19 so that each half keeps a round.
    assert_eq!(st.potency(AMMO_SOLEMN_LAMENT), 19);
    assert_eq!(st.count(AMMO_SOLEMN_LAMENT), 1);
    assert_eq!(st.potency(RELOAD_MARKER), 1);
}

#[test]
fn reload_of_a_full_pool_costs_nothing() {
    let mut dice = Dice::new(Rng::from_seed(1), vec![false; 20]);
    let mut sanity = Sanity::Sane { sp: 0 };
    let mut st = StatusSet::new();
    st.add_potency(AMMO_SOLEMN_LAMENT, 20);
    st.add_count(AMMO_SOLEMN_LAMENT, 15);
    let note = reload_solitude(&mut dice, &mut sanity, &mut st);
    assert_eq!(note, "Reloaded [The Living & The Departed] (SP -0)");
    assert_eq!(sanity.sp(), 0);
    assert_eq!(st.potency(AMMO_SOLEMN_LAMENT), 1);
    assert_eq!(st.count(AMMO_SOLEMN_LAMENT), 19);
}

#[test]
fn petals_cap_at_fifteen_per_turn() {
    assert_eq!(petals_gain_cap(0), 15);
    assert_eq!(petals_gain_cap(10), 5);
    assert_eq!(petals_gain_cap(20), 0);
}

#[test]
fn ego_needs_sp_and_resources() {
    let e = ego(Some(20), Some(30), &[("wrath", 3), ("lust", 2)]);
    let res = resources(&[("wrath", 3), ("lust", 2)]);
    assert!(ego_affordable(Sanity::Sane { sp: 0 }, &res, &e, EgoSkillKind::Awakening));
    // 1.5x resources for an Overclock: 5 Wrath needed.
    assert!(!ego_affordable(Sanity::Sane { sp: 45 }, &res, &e, EgoSkillKind::Overclock));
    // SP would drop below -45.
    assert!(!ego_affordable(Sanity::Sane { sp: -30 }, &res, &e, EgoSkillKind::Awakening));
    assert!(ego_affordable(Sanity::NoSanity, &res, &e, EgoSkillKind::Awakening));
    let poor = resources(&[("wrath", 3)]);
    assert!(!ego_affordable(Sanity::Sane { sp: 0 }, &poor, &e, EgoSkillKind::Awakening));
}

#[test]
fn paying_an_ego_lists_what_was_spent() {
    let e = ego(Some(20), Some(30), &[("wrath", 3), ("lust", 2)]);
    let mut res = resources(&[("wrath", 6), ("gloom", 1)]);
    let note = pay_ego(&mut res, &e, EgoSkillKind::Overclock);
    assert_eq!(note, "resources: 3 lust, 5 wrath");
    assert_eq!(res.get("wrath"), Some(&1));
    assert_eq!(res.get("lust"), Some(&-3));
    assert_eq!(res.get("gloom"), Some(&1));
    refund_overclock_surcharge(&mut res, &e);
    assert_eq!(res.get("wrath"), Some(&3));
    assert_eq!(res.get("lust"), Some(&-2));
}

#[test]
fn resonance_counts_and_chains_by_slot_order() {
    // Submitted out of slot order: slot 1 wrath, slot 0 wrath, slot 2 lust,
    // slot 3 wrath.
    let table = vec![(1, 0), (0, 0), (2, 1), (3, 0)];
    assert_eq!(sort_by_slot(&table), vec![(0, 0), (1, 0), (2, 1), (3, 0)]);
    let (counts, chains) = compute_resonance(&table);
    assert_eq!(counts.get("wrath"), Some(&3));
    assert_eq!(counts.get("lust"), Some(&1));
    assert_eq!(chains.get("wrath"), Some(&2));
    assert_eq!(chains.get("lust"), Some(&1));
    assert_eq!(counts.get("gloom"), None);
    assert_eq!(highest_resonance(&counts), 3);
    assert_eq!(highest_resonance(&chains), 2);
    assert_eq!(highest_resonance(&StrMap::new()), 0);
}

#[test]
fn sort_by_slot_is_stable() {
    let table = vec![(2, 5), (1, 4), (2, 3), (1, 2)];
    assert_eq!(sort_by_slot(&table), vec![(1, 4), (1, 2), (2, 5), (2, 3)]);
}

#[test]
fn scaled_values_add_steps_and_cap() {
    assert_eq!(scaled(Some(1), Some(3), Some(2), None, 10), 7);
    assert_eq!(scaled(Some(1), Some(3), Some(2), Some(4), 10), 4);
    assert_eq!(scaled(Some(5), None, Some(2), None, 10), 5);
    assert_eq!(scaled(Some(5), Some(0), Some(2), Some(3), 10), 3);
    assert_eq!(scaled(None, Some(2), None, None, -5), -2);
    assert_eq!(amount(2, Some(4), None, None, 9), 4);
    assert_eq!(amount(2, None, Some(3), Some(1), 9), 1);
}

#[test]
fn ticking_removes_an_expired_status() {
    let mut st = StatusSet::new();
    st.add_potency("Bleed", 3);
    st.add_count("Bleed", 1);
    tick_status(&mut st, "Bleed", 0, -1, None, None, None);
    assert_eq!(st.potency("Bleed"), 0);
    assert!(st.is_empty());
    st.add_potency("Butterfly", 2);
    st.add_count("Butterfly", 1);
    tick_status(&mut st, "Butterfly", 0, -1, None, None, Some("both_zero"));
    assert_eq!(st.potency("Butterfly"), 2);
    st.add_stack("Charge", 2);
    tick_status(&mut st, "Charge", 0, 0, Some("stack"), None, None);
    assert_eq!(st.stack("Charge"), 2);
}

#[test]
fn consuming_takes_potency_before_count() {
    let mut st = StatusSet::new();
    st.add_potency("Poise", 3);
    st.add_count("Poise", 5);
    let taken = consume_status_amount(&mut st, "Poise", 4, None, None, Some("none"));
    assert_eq!(taken, 4);
    assert_eq!(st.potency("Poise"), 0);
    assert_eq!(st.count("Poise"), 4);
    let taken = consume_status_amount(&mut st, "Poise", 10, None, None, Some("none"));
    assert_eq!(taken, 4);
    assert_eq!(consume_status_amount(&mut st, "Poise", -1, None, None, None), 0);
}
