use lcb_core::allowance::ClauseGate;
use lcb_core::clauses::{apply_effects, Effect, UseContext};
use lcb_core::hit::{apply_hit, coin_reuse, next_target, ReuseSource};
use lcb_core::clash::{apply_attack_end, apply_clash_result};
use lcb_core::dice::Dice;
use lcb_core::effects::{Component, Condition, EffectContext};
use lcb_core::ids::{EnemyId, IdentityId, SkillId, UnitId};
use lcb_core::keyed::StrMap;
use lcb_core::rng::Rng;
use lcb_core::scripts::TimeState;
use lcb_core::state::{CampaignState, DashboardSlot, Phase, Sanity, SkillDeck, StaggerState, StatusSet, Unit, UnitKind};
use lcb_core::turn::{begin_turn, end_turn, BattleState};

fn unit(id: &str, sinner: bool) -> Unit {
    Unit {
        planned_targets: 1,
        id: UnitId::new(id),
        kind: if sinner {
            UnitKind::Sinner { identity: IdentityId::new("10110") }
        } else {
            UnitKind::Abnormality { enemy: EnemyId::new("9567"), part: None }
        },
        name: id.to_string(),
        level: 40,
        hp: 100,
        max_hp: 100,
        shield: 0,
        sanity: if sinner { Sanity::Sane { sp: 0 } } else { Sanity::NoSanity },
        speed: 5,
        speed_range: (3, 7),
        offense_level_mod: 0,
        defense_level_mod: 0,
        stagger: StaggerState::new(vec![]),
        statuses: StatusSet::new(),
        skill_kills: 0,
        suit: None,
        combat_end_sp_loss: Vec::new(),
        status_markers: Vec::new(),
        deck: SkillDeck::new(Vec::new()),
        dashboard: vec![DashboardSlot::new(0, SkillId::new("a"), SkillId::new("b"), SkillId::new("c"))],
        panic_type: None,
        low_morale: false,
        panicked: false,
        corroded: false,
        panic_recovering: false,
        passive_ids: Vec::new(),
        combat_start_statuses: StrMap::new(),
        follow_up_active: false,
        pending_suit_conversion: false,
        petals_gained: 0,
        clash_any_speed_slots: Vec::new(),
        identity_skills: Vec::new(),
        ego_slots: Vec::new(),
        corrosion_egos: Vec::new(),
        alive: true,
        skill_cursor: 0,
        time_state: None,
        time_threshold_flags: 0,
        enemy_slots: 1,
        acts_while_staggered: false,
        clash_count_swing: None,
        time_signature: Vec::new(),
        shield_flat: None,
        ends_encounter_unless_shield_broken: false,
        hp_floor_percent: None,
        barrier_broken: false,
        ends_encounter_on: Vec::new(),
        turn_effect_usage: StrMap::new(),
        pending_next_turn: Vec::new(),
        retaliate_on_hit: Vec::new(),
        segmentation: None,
        hits_taken: 0,
        segmentation_healed: Vec::new(),
        resonance_max: 0,
        resonance_of: StrMap::new(),
        a_reson_max: 0,
    }
}

fn state(units: Vec<Unit>, turn: u32, slot_target: usize) -> BattleState {
    BattleState {
        seed: 3,
        dice: Dice::new(Rng::from_seed(3), Vec::new()),
        turn,
        phase: Phase::AwaitingActions,
        units,
        deployment: Vec::new(),
        actions: Vec::new(),
        defense_slots_used: vec![(0, 1)],
        ego_resources: StrMap::new(),
        clash_counts: StrMap::new(),
        warnings: Vec::new(),
        winner: None,
        encounter_ended: false,
        slot_target,
        campaign: CampaignState {
            time_stacks: StrMap::new(),
            disabled_passives: Vec::new(),
            station: 5,
            pupa_hp: None,
        },
    }
}

fn effect(kind: &str) -> Effect {
    Effect {
        gate: ClauseGate {
            kind: kind.to_string(),
            raw: None,
            only_after_clash_lose: false,
            chance: None,
            per_encounter: None,
            per_turn: None,
            condition: None,
        },
        status: None,
        status2: None,
        potency: None,
        count: None,
        stack: None,
        value: None,
        per: None,
        step: None,
        max: None,
        source: None,
        component: None,
        coins: Vec::new(),
        next_turn: false,
        up_to: None,
        ally: None,
        range_min: None,
        range_max: None,
        per_sp: None,
        from_resonance: false,
        multiplier: None,
        butterfly_part: None,
        percent: None,
        flag: None,
        self_sp_damage: None,
        self_sp_damage_min: None,
        self_sp_damage_max: None,
    }
}

fn ctx(actor: usize, target: Option<usize>) -> EffectContext {
    EffectContext { actor_index: actor, target_index: target, clash_count: 0, clash_lost: false, slot: 0, mechanics_note: Vec::new() }
}

fn use_ctx() -> UseContext {
    UseContext {
        clash_power_bonus: 0,
        coin_power_bonus: 0,
        base_power_bonus: 0,
        damage_bonus_percent: 0,
        unbreakable_coins: Vec::new(),
        zero_damage: false,
        reuse_on_kill: false,
        attack_weight_bonus: 0,
        sub_target_damage_percent: 0,
        crit_damage_bonus_percent: 0,
        no_stagger_target: false,
        unbreakable_all: false,
    }
}

fn two_units() -> BattleState {
    state(vec![unit("s1", true), unit("e1", false)], 1, 1)
}

#[test]
fn per_turn_limits_are_enforced() {
    let mut st = two_units();
    let mut e = effect("gain");
    e.status = Some("Protection".to_string());
    e.count = Some(1);
    e.gate.per_turn = Some(2);
    e.gate.raw = Some("test line".to_string());
    for _ in 0..3 {
        let mut c = ctx(0, Some(1));
        apply_effects(&mut st, &vec![effect_copy(&e)], &mut c, &mut use_ctx());
    }
    assert_eq!(st.units[0].statuses.count("Protection"), 2);
    // A new turn clears the limit.
    st.units[0].turn_effect_usage = StrMap::new();
    let mut c = ctx(0, Some(1));
    apply_effects(&mut st, &vec![e], &mut c, &mut use_ctx());
    assert_eq!(st.units[0].statuses.count("Protection"), 3);
}

fn effect_copy(e: &Effect) -> Effect {
    let mut c = effect(&e.gate.kind);
    c.gate.raw = e.gate.raw.clone();
    c.gate.per_turn = e.gate.per_turn;
    c.gate.chance = e.gate.chance;
    c.status = e.status.clone();
    c.count = e.count;
    c
}

#[test]
fn next_turn_buffs_apply_at_turn_start() {
    let mut st = two_units();
    let mut e = effect("gain");
    e.status = Some("Protection".to_string());
    e.count = Some(2);
    e.next_turn = true;
    e.gate.raw = Some("Gain 2 [Protection] next turn".to_string());
    let mut c = ctx(0, Some(1));
    apply_effects(&mut st, &vec![e], &mut c, &mut use_ctx());
    assert_eq!(st.units[0].statuses.count("Protection"), 0, "not yet");
    assert_eq!(st.units[0].pending_next_turn.len(), 1);
    // Resolve the turn; the buff lands at the next Turn Start.
    end_turn(&mut st, &StrMap::new());
    begin_turn(&mut st);
    assert_eq!(st.units[0].statuses.count("Protection"), 2);
}

#[test]
fn inflict_lands_on_the_target_and_power_clauses_add_up() {
    let mut st = two_units();
    let mut burn = effect("inflict");
    burn.status = Some("Burn".to_string());
    burn.potency = Some(3);
    burn.count = Some(2);
    let mut power = effect("clash_power");
    power.value = Some(5);
    power.max = Some(4);
    let mut dmg = effect("damage_percent");
    dmg.value = Some(10);
    let mut coins = effect("unbreakable_coin");
    coins.coins = vec![1, 2];
    let mut c = ctx(0, Some(1));
    let mut u = use_ctx();
    apply_effects(&mut st, &vec![burn, power, dmg, coins, effect("zero_damage"), effect("noop")], &mut c, &mut u);
    assert_eq!((st.units[1].statuses.potency("Burn"), st.units[1].statuses.count("Burn")), (3, 2));
    assert_eq!(st.units[0].statuses.potency("Burn"), 0);
    assert_eq!((u.clash_power_bonus, u.damage_bonus_percent), (4, 10));
    assert_eq!(u.unbreakable_coins, vec![1, 2]);
    assert!(u.zero_damage);
    assert!(c.mechanics_note.is_empty());
}

#[test]
fn stack_clauses_stop_at_their_cap_and_sp_damage_lands() {
    let mut st = two_units();
    st.units[0].statuses.add_stack("Lamp", 6);
    let mut lamp = effect("gain");
    lamp.status = Some("Lamp".to_string());
    lamp.stack = Some(5);
    lamp.component = Some(Component::Stack);
    lamp.up_to = Some(8);
    let mut sp = effect("sp_damage");
    sp.value = Some(10);
    let mut c = ctx(0, Some(0));
    apply_effects(&mut st, &vec![lamp, sp], &mut c, &mut use_ctx());
    assert_eq!(st.units[0].statuses.stack("Lamp"), 8);
    assert_eq!(st.units[0].sanity, Sanity::Sane { sp: -10 });
}

#[test]
fn unmodelled_clauses_leave_a_note() {
    let mut st = two_units();
    let mut c = ctx(0, Some(1));
    apply_effects(&mut st, &vec![effect("tremor_burst"), effect("noop")], &mut c, &mut use_ctx());
    assert_eq!(c.mechanics_note, vec!["unhandled effect kind `tremor_burst`".to_string()]);
}

#[test]
fn a_failed_chance_skips_the_clause() {
    let mut st = two_units();
    st.dice = Dice::new(Rng::from_seed(1), vec![false, true]);
    let mut e = effect("gain");
    e.status = Some("Haste".to_string());
    e.count = Some(1);
    e.gate.chance = Some(50);
    let mut c = ctx(0, None);
    apply_effects(&mut st, &vec![effect_copy(&e), e], &mut c, &mut use_ctx());
    // The first flip fails, the second lands.
    assert_eq!(st.units[0].statuses.count("Haste"), 1);
}

#[test]
fn use_switches_and_self_costs_apply() {
    let mut st = two_units();
    st.units[0].statuses.add_stack("Lamp", 3);
    let mut weight = effect("attack_weight");
    weight.value = Some(2);
    let mut flag = effect("flag");
    flag.flag = Some("no_stagger_target".to_string());
    let mut sp = effect("self_sp_damage");
    sp.self_sp_damage = Some(5);
    let mut per_stack = effect("sp_damage_self_per_stack");
    per_stack.status = Some("Lamp".to_string());
    per_stack.step = Some(2);
    let mut convert = effect("convert_unbreakable_and_clash");
    convert.value = Some(3);
    let mut crit = effect("crit_damage_bonus");
    crit.percent = Some(20);
    let mut unknown_flag = effect("flag");
    unknown_flag.flag = Some("mystery".to_string());
    let mut c = ctx(0, Some(1));
    let mut u = use_ctx();
    apply_effects(&mut st, &vec![weight, flag, sp, per_stack, convert, crit, effect("tag"), unknown_flag], &mut c, &mut u);
    assert_eq!((u.attack_weight_bonus, u.clash_power_bonus, u.crit_damage_bonus_percent), (2, 3, 20));
    assert!(u.no_stagger_target && u.unbreakable_all);
    // 5 SP, then 2 per Lamp Stack (3).
    assert_eq!(st.units[0].sanity, Sanity::Sane { sp: -11 });
    assert_eq!(c.mechanics_note, vec!["unhandled effect kind `flag`".to_string()]);
}

#[test]
fn power_clauses_scale_with_what_their_condition_measures() {
    let mut st = two_units();
    st.units[0].statuses.add_potency("Poise", 7);
    let mut e = effect("base_power");
    e.value = Some(1);
    e.per = Some(2);
    e.step = Some(3);
    e.max = Some(9);
    e.gate.condition = Some(Condition { status: Some("Poise".to_string()), ..Default::default() });
    let mut c = ctx(0, Some(1));
    let mut u = use_ctx();
    apply_effects(&mut st, &vec![e], &mut c, &mut u);
    // 1 + (7 / 2) * 3 = 10, capped at 9.
    assert_eq!(u.base_power_bonus, 9);
}

#[test]
fn a_hit_lands_damage_rupture_clauses_and_stagger() {
    let mut st = two_units();
    st.units[1].stagger = StaggerState::new(vec![70]);
    st.units[1].stagger.bind_max_hp(100);
    st.units[1].statuses.add_potency("Rupture", 4);
    st.units[1].statuses.add_count("Rupture", 2);
    let mut inflict = effect("inflict");
    inflict.status = Some("Bleed".to_string());
    inflict.potency = Some(2);
    let rules = StrMap::new();
    let r = apply_hit(&mut st, 0, 1, 0, 9, true, true, 25, false, &use_ctx(), 0, false, 0, &vec![inflict], &Vec::new(), &rules);
    // 25 from the Coin, then 4 from Rupture.
    assert_eq!(st.units[1].hp, 71);
    assert_eq!(r.damage, 25);
    assert_eq!(st.units[1].statuses.potency("Rupture"), 4);
    assert_eq!(st.units[1].statuses.count("Rupture"), 1);
    assert_eq!(st.units[1].statuses.potency("Bleed"), 2);
    assert!(!r.staggered);
    assert!(!r.killed);
    assert!(r.critical && r.heads && r.power == 9 && r.coin_index == 0);
    // The next hit crosses the 70 HP line.
    let r2 = apply_hit(&mut st, 0, 1, 1, 5, false, false, 1, false, &use_ctx(), 0, false, 0, &Vec::new(), &Vec::new(), &rules);
    assert_eq!(st.units[1].hp, 66);
    assert!(r2.staggered);
    assert_eq!(st.units[1].stagger.level, 1);
}

#[test]
fn hits_on_sub_targets_and_dead_units() {
    let rules = StrMap::new();
    let mut st = two_units();
    let mut ctx = use_ctx();
    ctx.sub_target_damage_percent = -50;
    let r = apply_hit(&mut st, 0, 1, 0, 9, true, false, 25, true, &ctx, 0, false, 0, &Vec::new(), &Vec::new(), &rules);
    assert_eq!(r.damage, 12);
    assert_eq!(st.units[1].hp, 88);
    ctx.zero_damage = true;
    let r = apply_hit(&mut st, 0, 1, 0, 9, true, false, 25, false, &ctx, 0, false, 0, &Vec::new(), &Vec::new(), &rules);
    assert_eq!(r.damage, 0);
    assert_eq!(st.units[1].hp, 88);
    // A killing blow resolves the on-kill clauses; a dead target takes no more hits.
    let mut kill_clause = effect("base_power");
    kill_clause.value = Some(1);
    let r = apply_hit(&mut st, 0, 1, 0, 9, true, false, 200, false, &use_ctx(), 0, false, 0, &Vec::new(), &vec![kill_clause], &rules);
    assert!(r.killed);
    assert_eq!(r.damage, 88);
    assert!(!st.units[1].alive);
    let again = apply_hit(&mut st, 0, 1, 1, 9, true, true, 50, false, &use_ctx(), 0, false, 0, &Vec::new(), &Vec::new(), &rules);
    assert_eq!(again.damage, 0);
    assert!(!again.killed && !again.critical);
}

#[test]
fn coins_are_reused_under_their_cap_or_missing_hp_budget() {
    // First use of a Coin with one Reuse granted: used again from the cap.
    assert_eq!(coin_reuse(1, 1, None, 100, 0), Some(ReuseSource::Cap));
    // Used twice already with one Reuse: the cap is spent.
    assert_eq!(coin_reuse(2, 1, None, 100, 0), None);
    // "Reuse once for every 20% missing HP (max 3 times)" at 30% HP: 3 uses.
    assert_eq!(coin_reuse(2, 1, Some((20, 3)), 30, 0), Some(ReuseSource::MissingHp));
    assert_eq!(coin_reuse(2, 1, Some((20, 3)), 30, 2), Some(ReuseSource::MissingHp));
    assert_eq!(coin_reuse(2, 1, Some((20, 3)), 30, 3), None);
    // At 90% HP nothing is missing enough.
    assert_eq!(coin_reuse(1, 0, Some((20, 3)), 90, 0), None);
}

#[test]
fn a_reuse_moves_on_to_the_first_living_enemy() {
    let mut st = state(vec![unit("s1", true), unit("s2", true), unit("e1", false), unit("e2", false)], 1, 1);
    assert_eq!(next_target(&st.units, 0), Some(2));
    assert_eq!(next_target(&st.units, 2), Some(0));
    st.units[2].alive = false;
    assert_eq!(next_target(&st.units, 0), Some(3));
    st.units[3].alive = false;
    assert_eq!(next_target(&st.units, 1), None);
}

#[test]
fn a_clash_result_moves_sp_and_resolves_its_clauses() {
    let mut st = two_units();
    let mut ctx = use_ctx();
    let mut power = effect("clash_power");
    power.value = Some(2);
    let reuse = apply_clash_result(&mut st, 0, Some(1), 0, Some(10), &vec![power], &mut ctx);
    assert!(!reuse);
    assert_eq!(st.units[0].sanity, Sanity::Sane { sp: 10 });
    assert_eq!(ctx.clash_power_bonus, 2);
    // Without a configured SP change the warning is given once.
    let before = st.warnings.len();
    apply_clash_result(&mut st, 0, Some(1), 0, None, &Vec::new(), &mut ctx);
    apply_clash_result(&mut st, 0, Some(1), 0, None, &Vec::new(), &mut ctx);
    assert_eq!(st.warnings.len(), before + 1);
    assert_eq!(st.units[0].sanity, Sanity::Sane { sp: 10 });
}

#[test]
fn reuse_on_kill_comes_due_once_per_turn() {
    let mut st = two_units();
    st.units[1].alive = false;
    let mut ctx = use_ctx();
    ctx.reuse_on_kill = true;
    let noop = effect("noop");
    assert!(apply_clash_result(&mut st, 0, Some(1), 0, Some(0), &vec![effect_copy(&noop)], &mut ctx));
    assert_eq!(st.units[0].turn_effect_usage.get("reuse_on_kill"), Some(&1));
    assert!(!apply_clash_result(&mut st, 0, Some(1), 0, Some(0), &vec![effect_copy(&noop)], &mut ctx));
    // An empty clause list resolves nothing and brings no Reuse.
    let mut fresh = two_units();
    fresh.units[1].alive = false;
    assert!(!apply_clash_result(&mut fresh, 0, Some(1), 0, Some(0), &Vec::new(), &mut ctx));
}

#[test]
fn attack_end_records_kills_and_resolves_its_clauses() {
    let mut st = two_units();
    let mut ctx = use_ctx();
    let mut weight = effect("attack_weight");
    weight.value = Some(1);
    let reuse = apply_attack_end(&mut st, 0, Some(1), 0, 2, &vec![weight], &mut ctx);
    assert!(!reuse);
    assert_eq!(st.units[0].skill_kills, 2);
    assert_eq!(ctx.attack_weight_bonus, 1);
    // With the target dead and the Reuse clause met, the Reuse comes due once.
    st.units[1].alive = false;
    ctx.reuse_on_kill = true;
    let noop = effect("noop");
    assert!(apply_attack_end(&mut st, 0, Some(1), 0, 1, &vec![effect_copy(&noop)], &mut ctx));
    assert_eq!(st.units[0].skill_kills, 1);
    assert!(!apply_attack_end(&mut st, 0, Some(1), 0, 1, &vec![effect_copy(&noop)], &mut ctx));
}
