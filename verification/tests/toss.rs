use lcb_core::battle::{CoinRuntime, CoinState};
use lcb_core::dice::Dice;
use lcb_core::ids::{EnemyId, IdentityId, SkillId, UnitId};
use lcb_core::keyed::StrMap;
use lcb_core::rng::Rng;
use lcb_core::state::{
    DashboardSlot, Sanity, SkillDeck, StaggerState, StatusInstance, StatusSet, Unit, UnitKind,
};
use lcb_core::toss::{toss_all, toss_single};

fn unit(id: &str, sinner: bool) -> Unit {
    Unit {
        planned_targets: 1,
        id: UnitId::new(id),
        kind: if sinner {
            UnitKind::Sinner { identity: IdentityId::new("10110") }
        } else {
            UnitKind::Abnormality { enemy: EnemyId::new("9567"), part: None }
        },
        name: id.to_string(),
        level: 40,
        hp: 100,
        max_hp: 100,
        shield: 0,
        sanity: if sinner { Sanity::Sane { sp: 0 } } else { Sanity::NoSanity },
        speed: 5,
        speed_range: (3, 7),
        offense_level_mod: 0,
        defense_level_mod: 0,
        stagger: StaggerState::new(vec![]),
        statuses: StatusSet::new(),
        skill_kills: 0,
        suit: None,
        combat_end_sp_loss: Vec::new(),
        status_markers: Vec::new(),
        deck: SkillDeck::new(Vec::new()),
        dashboard: vec![DashboardSlot::new(0, SkillId::new("a"), SkillId::new("b"), SkillId::new("c"))],
        panic_type: None,
        low_morale: false,
        panicked: false,
        corroded: false,
        panic_recovering: false,
        passive_ids: Vec::new(),
        combat_start_statuses: StrMap::new(),
        follow_up_active: false,
        pending_suit_conversion: false,
        petals_gained: 0,
        clash_any_speed_slots: Vec::new(),
        identity_skills: Vec::new(),
        ego_slots: Vec::new(),
        corrosion_egos: Vec::new(),
        alive: true,
        skill_cursor: 0,
        time_state: None,
        time_threshold_flags: 0,
        enemy_slots: 1,
        acts_while_staggered: false,
        clash_count_swing: None,
        time_signature: Vec::new(),
        shield_flat: None,
        ends_encounter_unless_shield_broken: false,
        hp_floor_percent: None,
        barrier_broken: false,
        ends_encounter_on: Vec::new(),
        turn_effect_usage: StrMap::new(),
        pending_next_turn: Vec::new(),
        retaliate_on_hit: Vec::new(),
        segmentation: None,
        hits_taken: 0,
        segmentation_healed: Vec::new(),
        resonance_max: 0,
        resonance_of: StrMap::new(),
        a_reson_max: 0,
    }
}

fn coins(n: usize) -> Vec<CoinRuntime> {
    (0..n).map(|_| CoinRuntime::fresh(false)).collect()
}

#[test]
fn preset_flips_land_on_fresh_coins_only() {
    let mut u = unit("s1", true);
    let mut cs = coins(3);
    cs[1].state = CoinState::Destroyed;
    let mut dice = Dice::new(Rng::from_seed(1), vec![true, false]);
    toss_all(&mut u, &mut dice, &mut cs);
    assert_eq!(cs[0].heads, Some(true));
    assert_eq!(cs[1].heads, None);
    assert_eq!(cs[2].heads, Some(false));
    assert!(cs.iter().all(|c| !c.paralyzed));
}

#[test]
fn paralyze_fixes_as_many_coins_as_its_potency() {
    let mut u = unit("s1", true);
    u.statuses.set("Paralyze", StatusInstance { potency: 2, count: 1, stack: 0 });
    let mut cs = coins(3);
    let mut dice = Dice::new(Rng::from_seed(1), vec![true, true, true]);
    toss_all(&mut u, &mut dice, &mut cs);
    assert_eq!(cs.iter().map(|c| c.paralyzed).collect::<Vec<_>>(), vec![true, true, false]);
    let p = u.statuses.get("Paralyze");
    assert_eq!((p.potency, p.count), (0, 1));
}

#[test]
fn sp_sets_the_heads_chance() {
    let mut sure = unit("s1", true);
    sure.sanity = Sanity::Sane { sp: 45 };
    let mut never = unit("s2", true);
    never.sanity = Sanity::Sane { sp: -45 };
    // 95% and 5%: over many tosses the first lands heads far more often.
    let mut dice = Dice::new(Rng::from_seed(5), Vec::new());
    let mut a = coins(40);
    toss_all(&mut sure, &mut dice, &mut a);
    let mut b = coins(40);
    toss_all(&mut never, &mut dice, &mut b);
    let heads = |v: &Vec<CoinRuntime>| v.iter().filter(|c| c.heads == Some(true)).count();
    assert!(heads(&a) > heads(&b));
    assert_eq!(dice.rng.draw_count(), 80);
}

#[test]
fn a_single_toss_ignores_the_coin_state() {
    let mut u = unit("s1", true);
    u.statuses.set("Paralyze", StatusInstance { potency: 1, count: 0, stack: 0 });
    let mut c = CoinRuntime::fresh(true);
    c.state = CoinState::Cracked;
    let mut dice = Dice::new(Rng::from_seed(1), vec![false]);
    toss_single(&mut u, &mut dice, &mut c);
    assert_eq!(c.heads, Some(false));
    assert!(c.paralyzed);
    assert_eq!(u.statuses.get("Paralyze").potency, 0);
}
