//! One Coin landing on its target: the damage it deals, the target's
//! Rupture, the Coin's "[On Hit]" clauses, the Stagger check and the
//! "[On Kill]" clauses.  The Coin's damage itself comes from the damage
//! formula, which works in floating point and is computed by the caller.

use vstd::prelude::*;
use crate::allowance::texts_of;
use crate::clauses::{apply_effects, effects_applied, units_ready, Effect, UseContext};
use crate::dice::can_draw;
use crate::effects::EffectContext;
use crate::keyed::StrMap;
use crate::state::{damage_fits, damaged, lemma_run_bound, stagger_checked, status_of, trunc_div, Unit};
use crate::turn::BattleState;
use crate::upkeep::{check_stagger, tick_by, tick_with_rules, TickRule};

verus! {

/// What one Coin's hit did.
#[derive(Clone, Copy, Debug, PartialEq, Eq, Structural)]
pub struct HitResult {
    pub coin_index: usize,
    pub heads: bool,
    pub power: i32,
    /// HP the target lost to the Coin's damage.
    pub damage: i32,
    pub critical: bool,
    pub staggered: bool,
    pub killed: bool,
}

/// The damage a Coin lands: none under "deal no damage"; against a
/// sub-target the Skill's sub-target percent applies ("Deal -50% damage
/// against sub-targets"), rounded toward zero.
pub open spec fn landed(final_damage: i32, zero_damage: bool, sub_target: bool, sub_percent: i32) -> int {
    if zero_damage {
        0
    } else if sub_target && sub_percent != 0 {
        trunc_div(final_damage * (100 + sub_percent), 100)
    } else {
        final_damage as int
    }
}

/// The arithmetic of `landed` stays within i32.
pub open spec fn landed_fits(final_damage: i32, zero_damage: bool, sub_target: bool, sub_percent: i32) -> bool {
    !zero_damage && sub_target && sub_percent != 0 ==> {
        &&& 100 + sub_percent <= i32::MAX
        &&& i32::MIN <= final_damage * (100 + sub_percent) <= i32::MAX
    }
}

/// A unit after `amount` of damage: nothing under `No Damage Taken`.
pub open spec fn hit_by(u: Unit, amount: i32) -> Unit {
    if status_of(u.statuses@, "No Damage Taken"@).stack > 0 {
        u
    } else {
        damaged(u, amount).0
    }
}

/// The HP a unit loses to `amount` of damage.
pub open spec fn hp_lost_to(u: Unit, amount: i32) -> int {
    if status_of(u.statuses@, "No Damage Taken"@).stack > 0 {
        0
    } else {
        damaged(u, amount).2
    }
}

/// Rupture on a unit that was hit: "When hit by an attack, take fixed damage
/// by the effect's Potency. Then, reduce its Count by 1."
pub open spec fn ruptured(before: Unit, after: Unit, rules: Map<Seq<char>, TickRule>) -> bool {
    let p = status_of(before.statuses@, "Rupture"@).potency;
    if p > 0 {
        &&& after == (Unit { statuses: after.statuses, ..hit_by(before, p) })
        &&& after.statuses.wf()
        &&& after.statuses@ == tick_by(rules, before.statuses@, "Rupture"@, 0, -1i32)
    } else {
        after == before
    }
}

/// Only unit `d` changed, from `before` to `after`.
pub open spec fn only_unit(s0: BattleState, s1: BattleState, d: int) -> bool {
    &&& s1 == (BattleState { units: s1.units, ..s0 })
    &&& s1.units@.len() == s0.units@.len()
    &&& forall|k: int| 0 <= k < s0.units@.len() && k != d ==> s1.units@[k] == s0.units@[k]
}

/// The state after the Coin's damage and the target's Rupture.
pub open spec fn struck(s0: BattleState, s1: BattleState, d: int, amount: i32, rules: Map<Seq<char>, TickRule>) -> bool {
    &&& only_unit(s0, s1, d)
    &&& ruptured(hit_by(s0.units@[d], amount), s1.units@[d], rules)
}

/// A fresh clause context: no bonus, no switch, no Unbreakable Coin.
pub open spec fn fresh_use(u: UseContext) -> bool {
    &&& u.clash_power_bonus == 0
    &&& u.coin_power_bonus == 0
    &&& u.base_power_bonus == 0
    &&& u.damage_bonus_percent == 0
    &&& u.unbreakable_coins@.len() == 0
    &&& !u.zero_damage
    &&& !u.reuse_on_kill
    &&& u.attack_weight_bonus == 0
    &&& u.sub_target_damage_percent == 0
    &&& u.crit_damage_bonus_percent == 0
    &&& !u.no_stagger_target
    &&& !u.unbreakable_all
}

/// `es` resolved with a fresh clause context by `actor` against `target`,
/// and the notes they left appended to the battle's warnings.
pub open spec fn clauses_resolved(
    es: Seq<Effect>,
    actor: usize,
    target: usize,
    clash_count: i32,
    clash_lost: bool,
    slot: u32,
    before: BattleState,
    after: BattleState,
) -> bool {
    exists|u0: UseContext, mid: BattleState, u1: UseContext, notes: Seq<Seq<char>>|
        #![trigger effects_applied(es, actor, Some(target), clash_count, clash_lost, slot, (before, u0, Seq::<Seq<char>>::empty()), (mid, u1, notes))]
        fresh_use(u0) && effects_applied(
            es,
            actor,
            Some(target),
            clash_count,
            clash_lost,
            slot,
            (before, u0, Seq::<Seq<char>>::empty()),
            (mid, u1, notes),
        ) && after == (BattleState { warnings: after.warnings, ..mid }) && texts_of(after.warnings@) == texts_of(
            mid.warnings@,
        ) + notes
}

/// Can the Stagger check count the lines still in play in a `u8`?
pub open spec fn lines_countable(u: Unit) -> bool {
    u.stagger.consumed >= u.stagger.thresholds_hp@.len() || u.stagger.thresholds_hp@.len() - u.stagger.consumed
        <= 255
}

/// The Stagger check on the target after the hit (none when the Skill keeps
/// its target from being Staggered).
pub open spec fn stagger_step(s0: BattleState, s1: BattleState, d: int, kept_upright: bool, staggered: bool) -> bool {
    let u = s0.units@[d];
    if !kept_upright && lines_countable(u) && u.alive {
        &&& only_unit(s0, s1, d)
        &&& s1.units@[d] == (Unit { stagger: s1.units@[d].stagger, ..u })
        &&& stagger_checked(u.stagger, s1.units@[d].stagger, u.hp, staggered)
    } else {
        s1 == s0 && !staggered
    }
}

fn fresh_context() -> (u: UseContext)
    ensures
        fresh_use(u),
{
    UseContext {
        clash_power_bonus: 0,
        coin_power_bonus: 0,
        base_power_bonus: 0,
        damage_bonus_percent: 0,
        unbreakable_coins: Vec::new(),
        zero_damage: false,
        reuse_on_kill: false,
        attack_weight_bonus: 0,
        sub_target_damage_percent: 0,
        crit_damage_bonus_percent: 0,
        no_stagger_target: false,
        unbreakable_all: false,
    }
}

/// Resolve `es` with a fresh clause context and keep the notes they leave
/// among the battle's warnings.
fn resolve_clauses(
    state: &mut BattleState,
    es: &Vec<Effect>,
    actor: usize,
    target: usize,
    clash_count: i32,
    clash_lost: bool,
    slot: u32,
)
    requires
        actor < old(state).units@.len(),
        target < old(state).units@.len(),
        units_ready(old(state).units@),
        can_draw(old(state).dice@, es@.len() as int),
    ensures
        clauses_resolved(es@, actor, target, clash_count, clash_lost, slot, *old(state), *final(state)),
        units_ready(final(state).units@),
        final(state).units@.len() == old(state).units@.len(),
{
    let ghost s0 = *state;
    let mut local = fresh_context();
    let ghost u0 = local;
    let mut ctx = EffectContext {
        actor_index: actor,
        target_index: Some(target),
        clash_count,
        clash_lost,
        slot,
        mechanics_note: Vec::new(),
    };
    assert(texts_of(ctx.mechanics_note@) =~= Seq::<Seq<char>>::empty());
    apply_effects(state, es, &mut ctx, &mut local);
    let ghost mid = *state;
    let ghost notes = texts_of(ctx.mechanics_note@);
    let ghost w0 = state.warnings@;
    let ghost n0 = ctx.mechanics_note@;
    state.warnings.append(&mut ctx.mechanics_note);
    assert(texts_of(state.warnings@) =~= texts_of(w0) + texts_of(n0));
    assert(*state == (BattleState { warnings: state.warnings, ..mid }));
    assert(effects_applied(
        es@,
        actor,
        Some(target),
        clash_count,
        clash_lost,
        slot,
        (s0, u0, Seq::<Seq<char>>::empty()),
        (mid, local, notes),
    ));
}

/// The Coin's `amount` of damage on unit `d`, then its Rupture; returns the
/// HP the Coin's damage took.
fn strike(state: &mut BattleState, d: usize, amount: i32, rules: &StrMap<TickRule>) -> (lost: i32)
    requires
        d < old(state).units@.len(),
        units_ready(old(state).units@),
        rules.wf(),
        damage_fits(old(state).units@[d as int], amount),
        damage_fits(
            hit_by(old(state).units@[d as int], amount),
            status_of(old(state).units@[d as int].statuses@, "Rupture"@).potency,
        ),
    ensures
        struck(*old(state), *final(state), d as int, amount, rules@),
        lost == hp_lost_to(old(state).units@[d as int], amount),
        units_ready(final(state).units@),
{
    let ghost s0 = *state;
    let mut u = state.units.remove(d);
    let ghost ud = u;
    assert(u == s0.units@[d as int]);
    assert(u.statuses.wf());
    let taken = u.take_damage(amount);
    assert(u == hit_by(ud, amount));
    let rupture = u.statuses.potency("Rupture");
    if rupture > 0 {
        u.take_damage(rupture);
        let ghost uh = u;
        tick_with_rules(&mut u.statuses, rules, "Rupture", 0, -1);
        assert(u == (Unit { statuses: u.statuses, ..uh }));
    }
    assert(ruptured(hit_by(ud, amount), u, rules@));
    state.units.insert(d, u);
    assert(state.units@ =~= s0.units@.update(d as int, u));
    assert(units_ready(state.units@)) by {
        assert forall|j: int| 0 <= j < state.units@.len() implies (#[trigger] state.units@[j]).statuses.wf()
            && state.units@[j].turn_effect_usage.wf() && state.units@[j].resonance_of.wf() by {
            if j != d as int {
                assert(state.units@[j] == s0.units@[j]);
            }
        }
    }
    taken.1
}

/// The Stagger check on unit `d` after a hit, unless the Skill keeps its
/// target upright; returns whether a line was crossed.
#[verifier::rlimit(80)]
fn stagger_after_hit(state: &mut BattleState, d: usize, kept_upright: bool) -> (staggered: bool)
    requires
        d < old(state).units@.len(),
        units_ready(old(state).units@),
    ensures
        stagger_step(*old(state), *final(state), d as int, kept_upright, staggered),
        units_ready(final(state).units@),
        final(state).units@.len() == old(state).units@.len(),
{
    if kept_upright {
        return false;
    }
    let lines = state.units[d].stagger.thresholds_hp.len();
    let consumed = state.units[d].stagger.consumed;
    if !((consumed >= lines || lines - consumed <= 255) && state.units[d].alive) {
        return false;
    }
    let ghost s0 = *state;
    let mut t = state.units.remove(d);
    let ghost ut = t;
    assert(ut == s0.units@[d as int]);
    proof {
        lemma_run_bound(ut.stagger.thresholds_hp@, ut.stagger.consumed as int, ut.hp);
    }
    let staggered = check_stagger(&mut t);
    assert(t == (Unit { stagger: t.stagger, ..ut }));
    assert(t.statuses == ut.statuses);
    state.units.insert(d, t);
    assert(state.units@ =~= s0.units@.update(d as int, t));
    assert(only_unit(s0, *state, d as int));
    assert(units_ready(state.units@)) by {
        assert forall|j: int| 0 <= j < state.units@.len() implies (#[trigger] state.units@[j]).statuses.wf()
            && state.units@[j].turn_effect_usage.wf() && state.units@[j].resonance_of.wf() by {
            if j != d as int {
                assert(state.units@[j] == s0.units@[j]);
            }
        }
    }
    staggered
}

/// One Coin's hit on `defender`: `final_damage` (from the damage formula)
/// is landed, the target's Rupture goes off, the Coin's `on_hit` clauses
/// (its "[On Hit]" and "[Heads Hit]" clauses other than the damage clauses
/// that fed the formula) resolve, the target is checked for Stagger and,
/// when the hit killed it, the Skill's `on_kill` clauses resolve.  Nothing
/// happens when either unit is already dead.  Statuses tick by `rules`.
///
/// The target's own "when hit" status clauses, Sinking and Butterfly,
/// damage adders, Counters and the Skill's bookkeeping of Ammo and Reuse are
/// not part of this step.  A Stagger check that would have to count more
/// than 255 lines still in play is skipped.
pub fn apply_hit(
    state: &mut BattleState,
    attacker: usize,
    defender: usize,
    coin_index: usize,
    power: i32,
    heads: bool,
    critical: bool,
    final_damage: i32,
    sub_target: bool,
    use_ctx: &UseContext,
    clash_count: i32,
    clash_lost: bool,
    slot: u32,
    on_hit: &Vec<Effect>,
    on_kill: &Vec<Effect>,
    rules: &StrMap<TickRule>,
) -> (r: HitResult)
    requires
        attacker < old(state).units@.len(),
        defender < old(state).units@.len(),
        units_ready(old(state).units@),
        rules.wf(),
        can_draw(old(state).dice@, on_hit@.len() as int),
        landed_fits(final_damage, use_ctx.zero_damage, sub_target, use_ctx.sub_target_damage_percent),
        ({
            let amount = landed(final_damage, use_ctx.zero_damage, sub_target, use_ctx.sub_target_damage_percent);
            let u = old(state).units@[defender as int];
            &&& damage_fits(u, amount as i32)
            &&& damage_fits(hit_by(u, amount as i32), status_of(u.statuses@, "Rupture"@).potency)
        }),
    ensures
        ({
            let s0 = *old(state);
            let amount = landed(final_damage, use_ctx.zero_damage, sub_target, use_ctx.sub_target_damage_percent) as i32;
            let a = s0.units@[attacker as int];
            let d = s0.units@[defender as int];
            if !a.alive || !d.alive {
                &&& *final(state) == s0
                &&& r == (HitResult {
                    coin_index,
                    heads,
                    power,
                    damage: 0,
                    critical: false,
                    staggered: false,
                    killed: false,
                })
            } else {
                exists|s1: BattleState, s2: BattleState, s3: BattleState|
                    #![trigger struck(s0, s1, defender as int, amount, rules@), stagger_step(s2, s3, defender as int, use_ctx.no_stagger_target, r.staggered)]
                    {
                        &&& struck(s0, s1, defender as int, amount, rules@)
                        &&& clauses_resolved(on_hit@, attacker, defender, clash_count, clash_lost, slot, s1, s2)
                        &&& stagger_step(s2, s3, defender as int, use_ctx.no_stagger_target, r.staggered)
                        &&& r.killed == !s3.units@[defender as int].alive
                        &&& if r.killed && on_kill@.len() > 0 && can_draw(s3.dice@, on_kill@.len() as int) {
                            clauses_resolved(on_kill@, attacker, defender, clash_count, clash_lost, slot, s3, *final(state))
                        } else {
                            *final(state) == s3
                        }
                        &&& r.coin_index == coin_index && r.heads == heads && r.power == power
                        &&& r.critical == critical
                        &&& r.damage == hp_lost_to(d, amount)
                    }
            }
        }),
        units_ready(final(state).units@),
        final(state).units@.len() == old(state).units@.len(),
{
    if !state.units[attacker].alive || !state.units[defender].alive {
        return HitResult {
            coin_index,
            heads,
            power,
            damage: 0,
            critical: false,
            staggered: false,
            killed: false,
        };
    }
    let ghost s0 = *state;
    let amount: i32 = if use_ctx.zero_damage {
        0
    } else if sub_target && use_ctx.sub_target_damage_percent != 0 {
        final_damage * (100 + use_ctx.sub_target_damage_percent) / 100
    } else {
        final_damage
    };
    assert(amount == landed(final_damage, use_ctx.zero_damage, sub_target, use_ctx.sub_target_damage_percent));
    // The Coin's damage, then the target's Rupture.
    let taken = strike(state, defender, amount, rules);
    let ghost s1 = *state;
    // The Coin's clauses.
    resolve_clauses(state, on_hit, attacker, defender, clash_count, clash_lost, slot);
    let ghost s2 = *state;
    // The Stagger check.
    let staggered = stagger_after_hit(state, defender, use_ctx.no_stagger_target);
    let ghost s3 = *state;
    let killed = !state.units[defender].alive;
    if killed && on_kill.len() > 0 {
        let draws = state.dice.rng.draw_count();
        if draws <= u64::MAX - on_kill.len() as u64 {
            resolve_clauses(state, on_kill, attacker, defender, clash_count, clash_lost, slot);
        }
    }
    let r = HitResult { coin_index, heads, power, damage: taken, critical, staggered, killed };
    assert(struck(s0, s1, defender as int, amount, rules@) && stagger_step(s2, s3, defender as int, use_ctx.no_stagger_target, r.staggered));
    r
}


/// Where a Coin's Reuse comes from.
#[derive(Clone, Copy, Debug, PartialEq, Eq, Structural)]
pub enum ReuseSource {
    /// "Then, Reuse this Coin (N times per Skill)": the Coin is under its cap.
    Cap,
    /// "Reuse this Coin once for every N% missing HP (max K times)".
    MissingHp,
}

/// The Reuse budget from missing HP that is left: one use per `per`% of
/// missing HP, at most `max`, less the uses already made; never below 0.
pub open spec fn hp_budget(reuse_hp: Option<(i32, i32)>, hp_percent: i32, used: i32) -> int {
    match reuse_hp {
        Some((per, max)) => {
            let q = trunc_div(100 - hp_percent, per as int);
            let c = if q < 0 {
                0
            } else if q > max {
                max as int
            } else {
                q
            };
            if c - used < 0 {
                0
            } else {
                c - used
            }
        },
        None => 0,
    }
}

/// Is a Coin used again after its hit, and from which budget?  It is while
/// it was used fewer times than its cap plus one; else while the missing-HP
/// budget has a use left.
pub open spec fn reuse_of(used_times: i32, cap: i32, reuse_hp: Option<(i32, i32)>, hp_percent: i32, used: i32) -> Option<
    ReuseSource,
> {
    if used_times - 1 < cap {
        Some(ReuseSource::Cap)
    } else if hp_budget(reuse_hp, hp_percent, used) > 0 {
        Some(ReuseSource::MissingHp)
    } else {
        None
    }
}

/// Whether the Coin just used is used again (see `reuse_of`).
/// `used_times` is how often it has hit in this Skill, `cap` the Reuse
/// its clauses granted, `reuse_hp` the missing-HP rule (`per`, `max`),
/// `hp_percent` the attacker's HP in percent and `used` the missing-HP
/// Reuses already made.
pub fn coin_reuse(used_times: i32, cap: i32, reuse_hp: Option<(i32, i32)>, hp_percent: i32, used: i32) -> (r: Option<
    ReuseSource,
>)
    requires
        used_times > i32::MIN,
        reuse_hp matches Some((per, max)) ==> per > 0 && max >= 0 && used >= 0,
        100 - hp_percent <= i32::MAX,
    ensures
        r == reuse_of(used_times, cap, reuse_hp, hp_percent, used),
{
    if used_times - 1 < cap {
        return Some(ReuseSource::Cap);
    }
    let budget: i32 = match reuse_hp {
        Some((per, max)) => {
            let q = (100 - hp_percent) / per;
            let c = if q < 0 {
                0
            } else if q > max {
                max
            } else {
                q
            };
            let left = c - used;
            if left < 0 {
                0
            } else {
                left
            }
        },
        None => 0,
    };
    if budget > 0 {
        Some(ReuseSource::MissingHp)
    } else {
        None
    }
}

/// The first living unit, other than the attacker, on the other side from
/// the attacker.
pub open spec fn next_enemy_from(us: Seq<Unit>, attacker: int, i: int) -> Option<int>
    decreases us.len() - i,
{
    if i < 0 || i >= us.len() {
        None
    } else if us[i].alive && i != attacker && (us[i].kind is Sinner) != (us[attacker].kind is Sinner) {
        Some(i)
    } else {
        next_enemy_from(us, attacker, i + 1)
    }
}

/// The target a Reuse moves on to once its target is gone: the first living
/// enemy of the attacker, if any.
pub fn next_target(units: &Vec<Unit>, attacker: usize) -> (r: Option<usize>)
    requires
        attacker < units@.len(),
    ensures
        r matches Some(k) ==> Some(k as int) == next_enemy_from(units@, attacker as int, 0),
        r is None ==> next_enemy_from(units@, attacker as int, 0) is None,
{
    let side = units[attacker].kind.is_sinner();
    let mut i: usize = 0;
    while i < units.len()
        invariant
            i <= units@.len(),
            attacker < units@.len(),
            side == (units@[attacker as int].kind is Sinner),
            next_enemy_from(units@, attacker as int, 0) == next_enemy_from(units@, attacker as int, i as int),
        decreases units.len() - i,
    {
        if units[i].alive && i != attacker && units[i].kind.is_sinner() != side {
            return Some(i);
        }
        i = i + 1;
    }
    None
}

} // verus!
