//! The clause engine: a list of a skill's (or a status's, or a passive's)
//! clauses applied in order to the battle.  Each clause first passes its
//! gate (`allowance::clause_opens`: "after Clash Lose", chance, per-turn and
//! per-Encounter limits, condition); an open clause then takes effect and
//! spends its limits.  A clause whose kind, or whose form, is not modelled
//! here is never dropped silently: it leaves a note.

use vstd::prelude::*;
use crate::allowance::{clause_opens, gate_outcome, grant_keys, spend_allowance, spent, texts_of, used_of, ClauseGate};
use crate::dice::{can_draw, uses_preset, DiceState};
use crate::effects::{measured_of, measured_wide, opt_unit, Component, EffectContext};
use crate::battle::{per_steps, scaled, scaled_value};
use crate::state::{max0, status_of, with_status, PendingStatus, StatusInstance, Unit};
use crate::turn::BattleState;
use crate::units::{time_bonus_of, time_state_bonus};

verus! {

/// One clause, as the mechanics data writes it: its gate, then what it does.
pub struct Effect {
    /// Kind, source text, "after Clash Lose", chance, limits and condition.
    pub gate: ClauseGate,
    pub status: Option<String>,
    /// The status that receives the Count, when it differs.
    pub status2: Option<String>,
    pub potency: Option<i32>,
    pub count: Option<i32>,
    pub stack: Option<i32>,
    pub value: Option<i32>,
    pub per: Option<i32>,
    pub step: Option<i32>,
    pub max: Option<i32>,
    /// `self` makes an `inflict` clause land on the actor.
    pub source: Option<String>,
    pub component: Option<Component>,
    pub coins: Vec<u32>,
    /// The clause is applied at the start of the next turn.
    pub next_turn: bool,
    /// "Gain [X] up to N Stack".
    pub up_to: Option<i32>,
    /// Which allies a clause reaches (`self` when absent).
    pub ally: Option<String>,
    /// A `[min ~ max]` random amount.
    pub range_min: Option<i32>,
    pub range_max: Option<i32>,
    /// A gain scaled by the actor's SP.
    pub per_sp: Option<i32>,
    /// A gain scaled by Sin Resonance.
    pub from_resonance: bool,
    pub multiplier: Option<i32>,
    /// Which half of [Butterfly] is inflicted.
    pub butterfly_part: Option<String>,
    pub percent: Option<i32>,
    /// The switch a `flag` clause turns on.
    pub flag: Option<String>,
    /// SP the actor loses ("[On Hit] Lose 15 SP"), or a random amount.
    pub self_sp_damage: Option<i32>,
    pub self_sp_damage_min: Option<i32>,
    pub self_sp_damage_max: Option<i32>,
}

/// What the clauses of one Skill use add up: power bonuses, damage bonus
/// in whole percent, Coins made Unbreakable, "deal no damage" and "Reuse on
/// kill".
pub struct UseContext {
    pub clash_power_bonus: i32,
    pub coin_power_bonus: i32,
    pub base_power_bonus: i32,
    /// Damage bonus in percent ("+10% damage" is 10).
    pub damage_bonus_percent: i32,
    pub unbreakable_coins: Vec<u32>,
    pub zero_damage: bool,
    pub reuse_on_kill: bool,
    pub attack_weight_bonus: i32,
    /// Damage dealt to the other targets, in percent.
    pub sub_target_damage_percent: i32,
    /// Critical damage bonus in percent.
    pub crit_damage_bonus_percent: i32,
    /// "Target cannot be Staggered until Attack End".
    pub no_stagger_target: bool,
    /// Every Coin of the Skill is Unbreakable.
    pub unbreakable_all: bool,
}

/// The note a clause that is not applied here leaves.
pub open spec fn unhandled_note(kind: Seq<char>) -> Seq<char> {
    "unhandled effect kind `"@ + kind + "`"@
}

/// A power clause's value: `value`, capped by `max`.
pub open spec fn plain_value(e: Effect) -> int {
    let v: int = match e.value {
        Some(x) => x as int,
        None => 0,
    };
    let m: int = match e.max {
        Some(x) => x as int,
        None => i32::MAX as int,
    };
    if v < m {
        v
    } else {
        m
    }
}

/// An amount of an `inflict` clause: its base (0 without one), capped by
/// `max`.
pub open spec fn plain_amount(base: Option<i32>, max: Option<i32>) -> int {
    match base {
        None => 0,
        Some(b) => {
            let m: int = match max {
                Some(x) => x as int,
                None => i32::MAX as int,
            };
            if b < m {
                b as int
            } else {
                m
            }
        },
    }
}

/// Does the clause scale with what its condition measures?
pub open spec fn scales(e: Effect) -> bool {
    e.per matches Some(p) && p > 0
}

/// An `inflict` / `gain` clause in the form modelled here: no ally
/// selection, no random range, no SP, Resonance or measured scaling, and
/// not the unique [Butterfly].
pub open spec fn plain_inflict(e: Effect) -> bool {
    &&& e.ally is None
    &&& !(e.range_min is Some && e.range_max is Some)
    &&& e.per_sp is None
    &&& !e.from_resonance
    &&& e.multiplier is None
    &&& e.butterfly_part is None
    &&& !scales(e)
    &&& e.status matches Some(s) && s@ != "Butterfly"@
}

/// The unit an `inflict` / `gain` clause lands on.
pub open spec fn inflict_index(e: Effect, actor: usize, target: Option<usize>) -> Option<usize> {
    if (e.source matches Some(s) && s@ == "self"@) || e.gate.kind@ == "gain"@ {
        Some(actor)
    } else {
        target
    }
}

pub open spec fn status_text(e: Effect) -> Seq<char> {
    match e.status {
        Some(s) => s@,
        None => Seq::empty(),
    }
}

pub open spec fn count_text(e: Effect) -> Seq<char> {
    match e.status2 {
        Some(s) => s@,
        None => status_text(e),
    }
}

/// The Stack a Stack-based clause adds to a unit holding `have`: the first
/// non-zero of Potency, Stack and Count, cut to what is left below
/// `up_to`.
pub open spec fn stack_gain(e: Effect, have: i32) -> int {
    let p = plain_amount(e.potency, e.max);
    let s = plain_amount(e.stack, e.max);
    let c = plain_amount(e.count, e.max);
    let a = if p != 0 {
        p
    } else if s != 0 {
        s
    } else {
        c
    };
    match e.up_to {
        Some(cap) => {
            let room = if cap - have < 0 {
                0
            } else {
                cap - have
            };
            if a < room {
                a
            } else {
                room
            }
        },
        None => a,
    }
}

/// Potency and Count a plain clause adds once the actor's state of time
/// boosted them (its status, or its Count status, is the boosted one).
pub open spec fn boosted_amounts(e: Effect, actor: Unit) -> (int, int) {
    let p = plain_amount(e.potency, e.max);
    let c = plain_amount(e.count, e.max);
    match time_bonus_of(actor) {
        Some((boosted, bonus)) => (
            if status_text(e) == boosted {
                p + bonus.potency
            } else {
                p
            },
            if status_text(e) == boosted || count_text(e) == boosted {
                c + bonus.count
            } else {
                c
            },
        ),
        None => (p, c),
    }
}

/// The statuses `m` after a plain, immediate clause of `actor` landed.
pub open spec fn inflicted(m: Map<Seq<char>, StatusInstance>, e: Effect, actor: Unit) -> Map<Seq<char>, StatusInstance> {
    let k = status_text(e);
    if e.component == Some(Component::Stack) {
        let s0 = status_of(m, k);
        with_status(m, k, StatusInstance { stack: max0(s0.stack + stack_gain(e, s0.stack)), ..s0 })
    } else {
        let (p, c) = boosted_amounts(e, actor);
        let s0 = status_of(m, k);
        let m1 = with_status(m, k, StatusInstance { potency: max0(s0.potency + p), ..s0 });
        let kc = count_text(e);
        let s1 = status_of(m1, kc);
        with_status(m1, kc, StatusInstance { count: max0(s1.count + c), ..s1 })
    }
}

/// The additions of `inflicted` stay within `i32`.
pub open spec fn inflict_fits(m: Map<Seq<char>, StatusInstance>, e: Effect, actor: Unit) -> bool {
    let k = status_text(e);
    if e.component == Some(Component::Stack) {
        let s0 = status_of(m, k);
        &&& i32::MIN <= s0.stack + stack_gain(e, s0.stack) <= i32::MAX
        &&& i32::MIN <= stack_gain(e, s0.stack) <= i32::MAX
    } else {
        let (p, c) = boosted_amounts(e, actor);
        let s0 = status_of(m, k);
        let m1 = with_status(m, k, StatusInstance { potency: max0(s0.potency + p), ..s0 });
        let s1 = status_of(m1, count_text(e));
        &&& i32::MIN <= p <= i32::MAX
        &&& i32::MIN <= c <= i32::MAX
        &&& s0.potency + p <= i32::MAX
        &&& s1.count + c <= i32::MAX
    }
}

/// `after` is `before` with only unit `k` changed to `u`.
pub open spec fn units_with(before: Seq<Unit>, k: int, u: Unit, after: Seq<Unit>) -> bool {
    &&& after.len() == before.len()
    &&& after[k] == u
    &&& forall|j: int| 0 <= j < before.len() && j != k ==> #[trigger] after[j] == before[j]
}

/// What a power clause scales with: its condition's measure when it has a
/// positive `per`, else 0.
pub open spec fn power_measured(e: Effect, actor: Unit, target: Option<Unit>) -> int {
    if scales(e) {
        measured_of(e.gate.condition, actor, target)
    } else {
        0
    }
}

/// The value a power clause adds: `value + (measured / per) * step`,
/// capped by `max` (see `battle::scaled_value`).
pub open spec fn power_value(e: Effect, actor: Unit, target: Option<Unit>) -> int {
    scaled_value(e.value, e.per, e.step, e.max, power_measured(e, actor, target) as i32)
}

pub open spec fn power_total(e: Effect, c0: UseContext, actor: Unit, target: Option<Unit>) -> int {
    let kind = e.gate.kind@;
    let v = power_value(e, actor, target);
    if kind == "clash_power"@ {
        c0.clash_power_bonus + v
    } else if kind == "coin_power"@ {
        c0.coin_power_bonus + v
    } else if kind == "base_power"@ {
        c0.base_power_bonus + v
    } else {
        c0.damage_bonus_percent + v
    }
}

/// A power clause (`clash_power`, `coin_power`, `base_power`,
/// `damage_percent`) adds its value to the Skill use's total.
pub open spec fn power_applied(e: Effect, c0: UseContext, actor: Unit, target: Option<Unit>, c1: UseContext) -> bool {
    let kind = e.gate.kind@;
    let total = power_total(e, c0, actor, target);
    c1 == (if kind == "clash_power"@ {
        UseContext { clash_power_bonus: total as i32, ..c0 }
    } else if kind == "coin_power"@ {
        UseContext { coin_power_bonus: total as i32, ..c0 }
    } else if kind == "base_power"@ {
        UseContext { base_power_bonus: total as i32, ..c0 }
    } else {
        UseContext { damage_bonus_percent: total as i32, ..c0 }
    })
}

/// Does a power clause stay within `i32` (its measure, its steps, its
/// value and the new total)?
pub open spec fn power_fits(e: Effect, c0: UseContext, actor: Unit, target: Option<Unit>) -> bool {
    let m = power_measured(e, actor, target);
    let step: i32 = match e.step {
        Some(s) => s,
        None => 1,
    };
    &&& i32::MIN <= m <= i32::MAX
    &&& match e.per {
        Some(p) => p > 0 ==> i32::MIN <= per_steps(m as i32, p, step) <= i32::MAX,
        None => true,
    }
    &&& i32::MIN <= scaled_value(e.value, e.per, e.step, None, m as i32) <= i32::MAX
    &&& i32::MIN <= power_total(e, c0, actor, target) <= i32::MAX
}

pub open spec fn is_power_kind(kind: Seq<char>) -> bool {
    kind == "clash_power"@ || kind == "coin_power"@ || kind == "base_power"@ || kind == "damage_percent"@
}

/// An `inflict` / `gain` clause, in the plain form, lands on unit `i`.
pub open spec fn inflict_applied(e: Effect, actor: usize, i: usize, u0: Seq<Unit>, u1: Seq<Unit>) -> bool {
    if e.next_turn {
        let q = u1[i as int].pending_next_turn@.last();
        &&& u1.len() == u0.len()
        &&& u1[i as int].pending_next_turn@ == u0[i as int].pending_next_turn@.push(q)
        &&& q.status@ == status_text(e)
        &&& q.potency == plain_amount(e.potency, e.max)
        &&& q.count == plain_amount(e.count, e.max)
        &&& q.stack == plain_amount(e.stack, e.max)
        &&& units_with(u0, i as int, Unit { pending_next_turn: u1[i as int].pending_next_turn, ..u0[i as int] }, u1)
    } else {
        &&& u1.len() == u0.len()
        &&& u1[i as int].statuses.wf()
        &&& u1[i as int].statuses@ == inflicted(u0[i as int].statuses@, e, u0[actor as int])
        &&& units_with(u0, i as int, Unit { statuses: u1[i as int].statuses, ..u0[i as int] }, u1)
    }
}

pub open spec fn is_extra_kind(kind: Seq<char>) -> bool {
    ||| kind == "tag"@
    ||| kind == "sub_target_damage"@
    ||| kind == "crit_damage_bonus"@
    ||| kind == "attack_weight"@
    ||| kind == "self_sp_damage"@
    ||| kind == "flag"@
    ||| kind == "convert_unbreakable_and_clash"@
    ||| kind == "sp_damage_self_per_stack"@
}

pub open spec fn value_or(o: Option<i32>, d: i32) -> i32 {
    match o {
        Some(x) => x,
        None => d,
    }
}

/// What the further kinds do: `tag` nothing; `sub_target_damage` sets the
/// damage to other targets; `crit_damage_bonus` adds to the critical
/// bonus; `attack_weight` (its plain form) adds Attack Weight;
/// `self_sp_damage` (a fixed amount) costs the actor SP; `flag`
/// `no_stagger_target` protects the target from Stagger;
/// `convert_unbreakable_and_clash` adds Clash Power and makes every Coin
/// Unbreakable; `sp_damage_self_per_stack` costs the actor SP per Stack of a
/// status.  A form not modelled, or an amount outside `i32`, leaves the note.
pub open spec fn extra_kind_applied(
    e: Effect,
    actor: usize,
    u0: Seq<Unit>,
    c0: UseContext,
    n0: Seq<Seq<char>>,
    u1: Seq<Unit>,
    c1: UseContext,
    n1: Seq<Seq<char>>,
) -> bool {
    let kind = e.gate.kind@;
    let unhandled = u1 == u0 && c1 == c0 && n1 == n0.push(unhandled_note(kind));
    let only_ctx = u1 == u0 && n1 == n0;
    if kind == "self_sp_damage"@ {
        let amount = value_or(e.self_sp_damage, 0);
        if e.self_sp_damage_min is Some && e.self_sp_damage_max is Some {
            unhandled
        } else if amount == 0 {
            u1 == u0 && c1 == c0 && n1 == n0
        } else if amount == i32::MIN {
            unhandled
        } else {
            &&& c1 == c0 && n1 == n0
            &&& units_with(u0, actor as int, Unit { sanity: u0[actor as int].sanity.moved(-amount), ..u0[actor as int] }, u1)
        }
    } else if kind == "sp_damage_self_per_stack"@ {
        match e.status {
            None => u1 == u0 && c1 == c0 && n1 == n0,
            Some(st) => {
                let stack = status_of(u0[actor as int].statuses@, st@).stack;
                let loss = value_or(e.step, 0) * stack;
                if !(i32::MIN < loss <= i32::MAX) {
                    unhandled
                } else {
                    &&& c1 == c0 && n1 == n0
                    &&& units_with(u0, actor as int, Unit { sanity: u0[actor as int].sanity.moved(-loss), ..u0[actor as int] }, u1)
                }
            },
        }
    } else if kind == "tag"@ {
        u1 == u0 && c1 == c0 && n1 == n0
    } else if kind == "sub_target_damage"@ {
        only_ctx && c1 == (UseContext { sub_target_damage_percent: value_or(e.percent, 0), ..c0 })
    } else if kind == "crit_damage_bonus"@ {
        let t = c0.crit_damage_bonus_percent + value_or(e.percent, 0);
        if i32::MIN <= t <= i32::MAX {
            only_ctx && c1 == (UseContext { crit_damage_bonus_percent: t as i32, ..c0 })
        } else {
            unhandled
        }
    } else if kind == "attack_weight"@ {
        let t = c0.attack_weight_bonus + value_or(e.value, 1);
        if e.from_resonance || e.per is Some || !(i32::MIN <= t <= i32::MAX) {
            unhandled
        } else {
            only_ctx && c1 == (UseContext { attack_weight_bonus: t as i32, ..c0 })
        }
    } else if kind == "flag"@ {
        if e.flag matches Some(f) && f@ == "no_stagger_target"@ {
            only_ctx && c1 == (UseContext { no_stagger_target: true, ..c0 })
        } else {
            unhandled
        }
    } else {
        let t = c0.clash_power_bonus + value_or(e.value, 0);
        if i32::MIN <= t <= i32::MAX {
            only_ctx && c1 == (UseContext { clash_power_bonus: t as i32, unbreakable_all: true, ..c0 })
        } else {
            unhandled
        }
    }
}

/// What an open clause does (before its limits are spent): the units, the
/// Skill use's totals and the notes before (`0`) and after (`1`).  A clause
/// not applied here leaves the note `unhandled_note` and changes nothing
/// else.
pub open spec fn kind_applied(
    e: Effect,
    actor: usize,
    target: Option<usize>,
    u0: Seq<Unit>,
    c0: UseContext,
    n0: Seq<Seq<char>>,
    u1: Seq<Unit>,
    c1: UseContext,
    n1: Seq<Seq<char>>,
) -> bool {
    let kind = e.gate.kind@;
    let unhandled = u1 == u0 && c1 == c0 && n1 == n0.push(unhandled_note(kind));
    let untouched = u1 == u0 && c1 == c0 && n1 == n0;
    if is_power_kind(kind) {
        if power_fits(e, c0, u0[actor as int], target_unit(u0, target)) {
            u1 == u0 && n1 == n0 && power_applied(e, c0, u0[actor as int], target_unit(u0, target), c1)
        } else {
            unhandled
        }
    } else if kind == "sp_damage"@ {
        match target {
            None => untouched,
            Some(t) => {
                let v: i32 = match e.value {
                    Some(x) => x,
                    None => 0,
                };
                if v == i32::MIN {
                    unhandled
                } else {
                    &&& c1 == c0 && n1 == n0
                    &&& units_with(u0, t as int, Unit { sanity: u0[t as int].sanity.moved(-v), ..u0[t as int] }, u1)
                }
            },
        }
    } else if kind == "unbreakable_coin"@ {
        &&& u1 == u0 && n1 == n0
        &&& c1.unbreakable_coins@ == c0.unbreakable_coins@ + e.coins@
        &&& c1 == (UseContext { unbreakable_coins: c1.unbreakable_coins, ..c0 })
    } else if kind == "zero_damage"@ {
        u1 == u0 && n1 == n0 && c1 == (UseContext { zero_damage: true, ..c0 })
    } else if kind == "reuse_on_kill"@ {
        u1 == u0 && n1 == n0 && c1 == (UseContext { reuse_on_kill: true, ..c0 })
    } else if kind == "no_damage_taken"@ {
        let a = u0[actor as int];
        let m = with_status(
            a.statuses@,
            "No Damage Taken"@,
            StatusInstance { stack: 1, ..status_of(a.statuses@, "No Damage Taken"@) },
        );
        &&& c1 == c0 && n1 == n0
        &&& u1.len() == u0.len() && u1[actor as int].statuses.wf() && u1[actor as int].statuses@ == m
        &&& units_with(u0, actor as int, Unit { statuses: u1[actor as int].statuses, ..a }, u1)
    } else if kind == "noop"@ {
        untouched
    } else if is_extra_kind(kind) {
        extra_kind_applied(e, actor, u0, c0, n0, u1, c1, n1)
    } else if kind == "inflict"@ || kind == "gain"@ {
        match inflict_index(e, actor, target) {
            None => untouched,
            Some(i) => if e.status is None {
                untouched
            } else if !plain_inflict(e) {
                unhandled
            } else if !e.next_turn && !inflict_fits(u0[i as int].statuses@, e, u0[actor as int]) {
                unhandled
            } else {
                c1 == c0 && n1 == n0 && inflict_applied(e, actor, i, u0, u1)
            },
        }
    } else {
        unhandled
    }
}

/// Every unit's tables are well formed.
pub open spec fn units_ready(us: Seq<Unit>) -> bool {
    forall|j: int|
        0 <= j < us.len() ==> (#[trigger] us[j]).statuses.wf() && us[j].turn_effect_usage.wf()
            && us[j].resonance_of.wf()
}

pub open spec fn target_unit(us: Seq<Unit>, target: Option<usize>) -> Option<Unit> {
    match target {
        Some(t) => Some(us[t as int]),
        None => None,
    }
}

/// Spending a clause's counters stays within `i32`.
pub open spec fn spend_fits(usage: Map<Seq<char>, i32>, g: ClauseGate) -> bool {
    forall|j: int|
        0 <= j < grant_keys(g).len() ==> used_of(usage, #[trigger] grant_keys(g)[j]) + grant_keys(g).len()
            <= i32::MAX
}

/// `s1.units@` is `um` with the actor's counters spent for `g`.
pub open spec fn usage_spent(um: Seq<Unit>, actor: usize, g: ClauseGate, after: Seq<Unit>) -> bool {
    &&& units_with(um, actor as int, Unit { turn_effect_usage: after[actor as int].turn_effect_usage, ..um[actor as int] }, after)
    &&& after[actor as int].turn_effect_usage.wf()
    &&& after[actor as int].turn_effect_usage@ == spent(um[actor as int].turn_effect_usage@, grant_keys(g))
}

/// One clause applied by `actor` (against `target`): the state, the Skill
/// use's sums and the notes before and after it.  Whether the clause opens
/// is decided first (see `allowance::gate_outcome`); a shut clause only moves
/// the dice.  An open clause takes effect (see `kind_applied`) and spends
/// its limits; one whose counters would leave `i32` is noted instead.
pub open spec fn clause_applied(
    e: Effect,
    actor: usize,
    target: Option<usize>,
    clash_count: i32,
    clash_lost: bool,
    slot: u32,
    s0: BattleState,
    c0: UseContext,
    n0: Seq<Seq<char>>,
    s1: BattleState,
    c1: UseContext,
    n1: Seq<Seq<char>>,
) -> bool {
    let a = s0.units@[actor as int];
    let (open, d1) = gate_outcome(
        e.gate,
        a.turn_effect_usage@,
        clash_lost,
        s0.dice@,
        a,
        target_unit(s0.units@, target),
        clash_count,
        slot,
    );
    &&& s1.dice@ == d1
    &&& s1 == (BattleState { units: s1.units, dice: s1.dice, ..s0 })
    &&& if !open {
        s1.units@ == s0.units@ && c1 == c0 && n1 == n0
    } else if !spend_fits(a.turn_effect_usage@, e.gate) {
        s1.units@ == s0.units@ && c1 == c0 && n1 == n0.push(unhandled_note(e.gate.kind@))
    } else {
        exists|um: Seq<Unit>|
            #[trigger] kind_applied(e, actor, target, s0.units@, c0, n0, um, c1, n1) && usage_spent(
                um,
                actor,
                e.gate,
                s1.units@,
            )
    }
}

/// One step of a run of clauses: the state, the Skill use's totals and the
/// notes.
pub type ClauseStage = (BattleState, UseContext, Seq<Seq<char>>);

/// `trace` runs the clauses `es` one by one (see `clause_applied`): it
/// starts at `start` and each stage follows from the one before it.
pub open spec fn clause_trace(
    es: Seq<Effect>,
    actor: usize,
    target: Option<usize>,
    clash_count: i32,
    clash_lost: bool,
    slot: u32,
    start: ClauseStage,
    trace: Seq<ClauseStage>,
) -> bool {
    &&& trace.len() == es.len() + 1
    &&& trace[0] == start
    &&& forall|k: int|
        0 <= k < es.len() ==> #[trigger] clause_applied(
            es[k],
            actor,
            target,
            clash_count,
            clash_lost,
            slot,
            trace[k].0,
            trace[k].1,
            trace[k].2,
            trace[k + 1].0,
            trace[k + 1].1,
            trace[k + 1].2,
        )
}

/// The clauses `es` applied in order take `start` to `end`.
pub open spec fn effects_applied(
    es: Seq<Effect>,
    actor: usize,
    target: Option<usize>,
    clash_count: i32,
    clash_lost: bool,
    slot: u32,
    start: ClauseStage,
    end: ClauseStage,
) -> bool {
    exists|trace: Seq<ClauseStage>|
        #[trigger] clause_trace(es, actor, target, clash_count, clash_lost, slot, start, trace) && trace.last() == end
}

fn note_unhandled(notes: &mut Vec<String>, kind: &str)
    ensures
        texts_of(final(notes)@) == texts_of(old(notes)@).push(unhandled_note(kind@)),
{
    let mut m = String::from_str("unhandled effect kind `");
    m.append(kind);
    m.append("`");
    proof {
        reveal_strlit("unhandled effect kind `");
        reveal_strlit("`");
    }
    assert(m@ =~= unhandled_note(kind@));
    notes.push(m);
    assert(texts_of(notes@) =~= texts_of(old(notes)@).push(unhandled_note(kind@)));
}

fn plain_amount_of(base: Option<i32>, max: Option<i32>) -> (r: i32)
    ensures
        r == plain_amount(base, max),
{
    match base {
        None => 0,
        Some(b) => {
            let m = match max {
                Some(x) => x,
                None => i32::MAX,
            };
            if b < m {
                b
            } else {
                m
            }
        },
    }
}

fn text_is(o: &Option<String>, word: &str) -> (b: bool)
    ensures
        b == (o matches Some(s) && s@ == word@),
{
    match o {
        Some(s) => crate::text::same_text(s.as_str(), word),
        None => false,
    }
}

/// A power clause (see `power_applied`); `false` when it does not fit.
fn apply_power(e: &Effect, use_ctx: &mut UseContext, actor: &Unit, target: Option<&Unit>) -> (applied: bool)
    requires
        is_power_kind(e.gate.kind@),
        actor.statuses.wf(),
        target matches Some(t) ==> t.statuses.wf(),
    ensures
        applied == power_fits(*e, *old(use_ctx), *actor, opt_unit(target)),
        applied ==> power_applied(*e, *old(use_ctx), *actor, opt_unit(target), *final(use_ctx)),
        !applied ==> *final(use_ctx) == *old(use_ctx),
{
    proof {
        reveal_strlit("clash_power");
        reveal_strlit("coin_power");
        reveal_strlit("base_power");
        reveal_strlit("damage_percent");
    }
    let kind = e.gate.kind.as_str();
    let scaling = match e.per {
        Some(p) => p > 0,
        None => false,
    };
    let cond: Option<&crate::effects::Condition> = match &e.gate.condition {
        Some(c) => Some(c),
        None => None,
    };
    let m: i128 = if scaling {
        measured_wide(cond, actor, target)
    } else {
        0
    };
    assert(m == power_measured(*e, *actor, opt_unit(target)));
    if m < i32::MIN as i128 || m > i32::MAX as i128 {
        return false;
    }
    let v0: i128 = e.value.unwrap_or(0) as i128;
    let st: i128 = e.step.unwrap_or(1) as i128;
    let steps: i128 = if scaling {
        let p: i128 = match e.per {
            Some(p) => p as i128,
            None => 1,
        };
        let q: i128 = m / p;
        assert(q == crate::state::trunc_div(m as int, p as int));
        assert(-0x8000_0000 <= q <= 0x8000_0000);
        assert(-0x8000_0000_0000_0000 <= q * st <= 0x8000_0000_0000_0000) by (nonlinear_arith)
            requires
                -0x8000_0000 <= q <= 0x8000_0000,
                -0x8000_0000 <= st <= 0x7fff_ffff,
        ;
        q * st
    } else {
        0
    };
    if steps < i32::MIN as i128 || steps > i32::MAX as i128 || v0 + steps < i32::MIN as i128 {
        return false;
    }
    let v = scaled(e.value, e.per, e.step, e.max, m as i32);
    let is_clash = crate::text::same_text(kind, "clash_power");
    let is_coin = crate::text::same_text(kind, "coin_power");
    let is_base = crate::text::same_text(kind, "base_power");
    let before: i64 = if is_clash {
        use_ctx.clash_power_bonus as i64
    } else if is_coin {
        use_ctx.coin_power_bonus as i64
    } else if is_base {
        use_ctx.base_power_bonus as i64
    } else {
        use_ctx.damage_bonus_percent as i64
    };
    let total = before + v as i64;
    if total < i32::MIN as i64 || total > i32::MAX as i64 {
        return false;
    }
    if is_clash {
        use_ctx.clash_power_bonus = total as i32;
    } else if is_coin {
        use_ctx.coin_power_bonus = total as i32;
    } else if is_base {
        use_ctx.base_power_bonus = total as i32;
    } else {
        use_ctx.damage_bonus_percent = total as i32;
    }
    true
}

/// A Stack-based plain clause on the statuses `st` (see `inflicted`).
fn stack_on(st: &mut crate::state::StatusSet, e: &Effect, Ghost(actor): Ghost<Unit>) -> (applied: bool)
    requires
        old(st).wf(),
        plain_inflict(*e),
        e.component == Some(Component::Stack),
    ensures
        final(st).wf(),
        applied == inflict_fits(old(st)@, *e, actor),
        applied ==> final(st)@ == inflicted(old(st)@, *e, actor),
        !applied ==> *final(st) == *old(st),
{
    let status = match &e.status {
        Some(x) => x,
        None => return false,
    };
    let potency = plain_amount_of(e.potency, e.max);
    let count = plain_amount_of(e.count, e.max);
    let stack = plain_amount_of(e.stack, e.max);
    let have = st.stack(status.as_str());
    let first: i64 = if potency != 0 {
        potency as i64
    } else if stack != 0 {
        stack as i64
    } else {
        count as i64
    };
    let gain: i64 = match e.up_to {
        Some(cap) => {
            let room: i64 = if (cap as i64) - (have as i64) < 0 {
                0
            } else {
                (cap as i64) - (have as i64)
            };
            if first < room {
                first
            } else {
                room
            }
        },
        None => first,
    };
    assert(gain == stack_gain(*e, have));
    if gain < i32::MIN as i64 || gain > i32::MAX as i64 || (have as i64) + gain > i32::MAX as i64 || (have as i64) + gain
        < i32::MIN as i64 {
        return false;
    }
    st.add_stack(status.as_str(), gain as i32);
    true
}

/// A Potency-and-Count plain clause on the statuses `st`, boosted by the
/// actor's state of time `bonus` (see `inflicted`).
fn potency_count_on(
    st: &mut crate::state::StatusSet,
    e: &Effect,
    bonus: Option<(&'static str, crate::scripts::StackBonus)>,
    Ghost(actor): Ghost<Unit>,
) -> (applied: bool)
    requires
        old(st).wf(),
        plain_inflict(*e),
        e.component != Some(Component::Stack),
        match bonus {
            Some((s, b)) => time_bonus_of(actor) == Some((s@, b)),
            None => time_bonus_of(actor) is None,
        },
    ensures
        final(st).wf(),
        applied == inflict_fits(old(st)@, *e, actor),
        applied ==> final(st)@ == inflicted(old(st)@, *e, actor),
        !applied ==> *final(st) == *old(st),
{
    let status = match &e.status {
        Some(x) => x,
        None => return false,
    };
    let count_status: &str = match &e.status2 {
        Some(s2) => s2.as_str(),
        None => status.as_str(),
    };
    let mut p: i64 = plain_amount_of(e.potency, e.max) as i64;
    let mut c: i64 = plain_amount_of(e.count, e.max) as i64;
    match bonus {
        Some((boosted, b)) => {
            if crate::text::same_text(status.as_str(), boosted) {
                p = p + b.potency as i64;
            }
            if crate::text::same_text(status.as_str(), boosted) || crate::text::same_text(count_status, boosted) {
                c = c + b.count as i64;
            }
        },
        None => {},
    }
    assert((p as int, c as int) == boosted_amounts(*e, actor));
    let have_p = st.potency(status.as_str());
    let have_c = st.count(count_status);
    let ghost m0 = st@;
    proof {
        let k = status@;
        let s0 = status_of(m0, k);
        let m1 = with_status(m0, k, StatusInstance { potency: max0(s0.potency + p), ..s0 });
        assert(status_of(m1, count_status@).count == status_of(m0, count_status@).count);
    }
    if p < i32::MIN as i64 || p > i32::MAX as i64 || c < i32::MIN as i64 || c > i32::MAX as i64 || have_p as i64 + p
        > i32::MAX as i64 || have_c as i64 + c > i32::MAX as i64 {
        return false;
    }
    st.add_potency(status.as_str(), p as i32);
    st.add_count(count_status, c as i32);
    true
}

/// A plain `inflict` / `gain` clause landing on unit `i` (see
/// `inflict_applied`); `false`, with the units unchanged, when it does not
/// fit.
fn apply_inflict(units: &mut Vec<Unit>, e: &Effect, actor: usize, i: usize) -> (applied: bool)
    requires
        actor < old(units)@.len(),
        i < old(units)@.len(),
        units_ready(old(units)@),
        plain_inflict(*e),
    ensures
        applied == (e.next_turn || inflict_fits(old(units)@[i as int].statuses@, *e, old(units)@[actor as int])),
        applied ==> inflict_applied(*e, actor, i, old(units)@, final(units)@),
        !applied ==> final(units)@ == old(units)@,
{
    let ghost u0 = units@;
    let ghost a = u0[actor as int];
    let status = match &e.status {
        Some(st) => st,
        None => return false,
    };
    if e.next_turn {
        let potency = plain_amount_of(e.potency, e.max);
        let count = plain_amount_of(e.count, e.max);
        let stack = plain_amount_of(e.stack, e.max);
        let mut u = units.remove(i);
        u.pending_next_turn.push(PendingStatus { status: status.clone(), potency, count, stack });
        units.insert(i, u);
        assert(units@ =~= u0.update(i as int, u));
        return true;
    }
    let bonus = time_state_bonus(&units[actor]);
    let mut u = units.remove(i);
    proof {
        assert(u == u0[i as int]);
        assert(units_ready(u0));
        assert(u0[i as int].statuses.wf());
    }
    let is_stack = match e.component {
        Some(Component::Stack) => true,
        _ => false,
    };
    let applied = if is_stack {
        stack_on(&mut u.statuses, e, Ghost(a))
    } else {
        potency_count_on(&mut u.statuses, e, bonus, Ghost(a))
    };
    units.insert(i, u);
    if applied {
        assert(units@ =~= u0.update(i as int, u));
    } else {
        assert(u.statuses@ == u0[i as int].statuses@);
        assert(units@ =~= u0.update(i as int, u));
    }
    applied
}

/// The further kinds that only touch the Skill use (see
/// `extra_kind_applied`).
fn apply_use_kind(e: &Effect, use_ctx: &mut UseContext, notes: &mut Vec<String>, Ghost(actor): Ghost<usize>, Ghost(u0): Ghost<Seq<Unit>>)
    requires
        is_extra_kind(e.gate.kind@),
        e.gate.kind@ != "self_sp_damage"@,
        e.gate.kind@ != "sp_damage_self_per_stack"@,
    ensures
        extra_kind_applied(*e, actor, u0, *old(use_ctx), texts_of(old(notes)@), u0, *final(use_ctx), texts_of(final(notes)@)),
{
    proof {
        reveal_strlit("tag");
        reveal_strlit("sub_target_damage");
        reveal_strlit("crit_damage_bonus");
        reveal_strlit("attack_weight");
        reveal_strlit("self_sp_damage");
        reveal_strlit("flag");
        reveal_strlit("convert_unbreakable_and_clash");
        reveal_strlit("sp_damage_self_per_stack");
        reveal_strlit("no_stagger_target");
    }
    let kind = e.gate.kind.as_str();
    if crate::text::same_text(kind, "tag") {
        return;
    }
    if crate::text::same_text(kind, "sub_target_damage") {
        use_ctx.sub_target_damage_percent = e.percent.unwrap_or(0);
        return;
    }
    if crate::text::same_text(kind, "crit_damage_bonus") {
        let t: i64 = use_ctx.crit_damage_bonus_percent as i64 + e.percent.unwrap_or(0) as i64;
        if t < i32::MIN as i64 || t > i32::MAX as i64 {
            note_unhandled(notes, kind);
            return;
        }
        use_ctx.crit_damage_bonus_percent = t as i32;
        return;
    }
    if crate::text::same_text(kind, "attack_weight") {
        let t: i64 = use_ctx.attack_weight_bonus as i64 + e.value.unwrap_or(1) as i64;
        if e.from_resonance || e.per.is_some() || t < i32::MIN as i64 || t > i32::MAX as i64 {
            note_unhandled(notes, kind);
            return;
        }
        use_ctx.attack_weight_bonus = t as i32;
        return;
    }
    if crate::text::same_text(kind, "flag") {
        if text_is(&e.flag, "no_stagger_target") {
            use_ctx.no_stagger_target = true;
        } else {
            note_unhandled(notes, kind);
        }
        return;
    }
    let t: i64 = use_ctx.clash_power_bonus as i64 + e.value.unwrap_or(0) as i64;
    if t < i32::MIN as i64 || t > i32::MAX as i64 {
        note_unhandled(notes, kind);
        return;
    }
    use_ctx.clash_power_bonus = t as i32;
    use_ctx.unbreakable_all = true;
}

/// The further kinds that cost the actor SP (see `extra_kind_applied`).
fn apply_sp_kind(units: &mut Vec<Unit>, e: &Effect, actor: usize, Ghost(c0): Ghost<UseContext>, Ghost(n0): Ghost<Seq<Seq<char>>>) -> (noted: bool)
    requires
        actor < old(units)@.len(),
        units_ready(old(units)@),
        e.gate.kind@ == "self_sp_damage"@ || e.gate.kind@ == "sp_damage_self_per_stack"@,
    ensures
        extra_kind_applied(*e, actor, old(units)@, c0, n0, final(units)@, c0, if noted {
            n0.push(unhandled_note(e.gate.kind@))
        } else {
            n0
        }),
        units_ready(final(units)@),
        final(units)@.len() == old(units)@.len(),
        final(units)@[actor as int].turn_effect_usage == old(units)@[actor as int].turn_effect_usage,
{
    proof {
        reveal_strlit("tag");
        reveal_strlit("sub_target_damage");
        reveal_strlit("crit_damage_bonus");
        reveal_strlit("attack_weight");
        reveal_strlit("self_sp_damage");
        reveal_strlit("flag");
        reveal_strlit("convert_unbreakable_and_clash");
        reveal_strlit("sp_damage_self_per_stack");
    }
    let ghost u0 = units@;
    let kind = e.gate.kind.as_str();
    if crate::text::same_text(kind, "self_sp_damage") {
        let amount = e.self_sp_damage.unwrap_or(0);
        if e.self_sp_damage_min.is_some() && e.self_sp_damage_max.is_some() {
            return true;
        }
        if amount == 0 {
            return false;
        }
        if amount == i32::MIN {
            return true;
        }
        let mut u = units.remove(actor);
        proof {
            assert(u == u0[actor as int]);
        }
        u.sanity = u.sanity.add(-amount);
        assert(u == (Unit { sanity: u0[actor as int].sanity.moved(-amount as int), ..u0[actor as int] }));
        units.insert(actor, u);
        assert(units@ =~= u0.update(actor as int, u));
        return false;
    }
    let status = match &e.status {
        Some(st) => st,
        None => return false,
    };
    proof {
        assert(u0[actor as int].statuses.wf());
    }
    let stack = units[actor].statuses.stack(status.as_str());
    let step: i64 = e.step.unwrap_or(0) as i64;
    let st: i64 = stack as i64;
    assert(-0x4000_0000_0000_0000 <= step * st <= 0x4000_0000_0000_0000) by (nonlinear_arith)
        requires
            -0x8000_0000 <= step <= 0x7fff_ffff,
            -0x8000_0000 <= st <= 0x7fff_ffff,
    ;
    let loss: i64 = step * st;
    if loss <= i32::MIN as i64 || loss > i32::MAX as i64 {
        return true;
    }
    let mut u = units.remove(actor);
    proof {
        assert(u == u0[actor as int]);
    }
    u.sanity = u.sanity.add(-(loss as i32));
    units.insert(actor, u);
    assert(units@ =~= u0.update(actor as int, u));
    false
}

/// Apply what the open clause `e` does (see `kind_applied`).
fn apply_kind(
    units: &mut Vec<Unit>,
    e: &Effect,
    actor: usize,
    target: Option<usize>,
    use_ctx: &mut UseContext,
    notes: &mut Vec<String>,
)
    requires
        actor < old(units)@.len(),
        target matches Some(t) ==> t < old(units)@.len(),
        units_ready(old(units)@),
    ensures
        kind_applied(
            *e,
            actor,
            target,
            old(units)@,
            *old(use_ctx),
            texts_of(old(notes)@),
            final(units)@,
            *final(use_ctx),
            texts_of(final(notes)@),
        ),
        units_ready(final(units)@),
        final(units)@.len() == old(units)@.len(),
        final(units)@[actor as int].turn_effect_usage == old(units)@[actor as int].turn_effect_usage,
{
    proof {
        reveal_strlit("clash_power");
        reveal_strlit("coin_power");
        reveal_strlit("base_power");
        reveal_strlit("damage_percent");
        reveal_strlit("sp_damage");
        reveal_strlit("unbreakable_coin");
        reveal_strlit("zero_damage");
        reveal_strlit("reuse_on_kill");
        reveal_strlit("no_damage_taken");
        reveal_strlit("noop");
        reveal_strlit("inflict");
        reveal_strlit("gain");
        reveal_strlit("self");
        reveal_strlit("Butterfly");
        reveal_strlit("No Damage Taken");
    }
    let ghost u0 = units@;
    let kind = e.gate.kind.as_str();
    let power = crate::text::same_text(kind, "clash_power") || crate::text::same_text(kind, "coin_power")
        || crate::text::same_text(kind, "base_power") || crate::text::same_text(kind, "damage_percent");
    if power {
        proof {
            assert(units_ready(u0));
            assert(u0[actor as int].statuses.wf());
        }
        let t = match target {
            Some(t) => Some(&units[t]),
            None => None,
        };
        assert(opt_unit(t) == target_unit(u0, target));
        if !apply_power(e, use_ctx, &units[actor], t) {
            note_unhandled(notes, kind);
        }
        return;
    }
    if crate::text::same_text(kind, "sp_damage") {
        match target {
            None => {},
            Some(t) => {
                let v = match e.value {
                    Some(x) => x,
                    None => 0,
                };
                if v == i32::MIN {
                    note_unhandled(notes, kind);
                    return;
                }
                let mut u = units.remove(t);
                u.sanity = u.sanity.add(-v);
                units.insert(t, u);
                assert(units@ =~= u0.update(t as int, u));
            },
        }
        return;
    }
    if crate::text::same_text(kind, "unbreakable_coin") {
        let mut k: usize = 0;
        let ghost start = use_ctx.unbreakable_coins@;
        while k < e.coins.len()
            invariant
                k <= e.coins@.len(),
                use_ctx.unbreakable_coins@ == start + e.coins@.take(k as int),
                *use_ctx == (UseContext { unbreakable_coins: use_ctx.unbreakable_coins, ..*old(use_ctx) }),
            decreases e.coins.len() - k,
        {
            use_ctx.unbreakable_coins.push(e.coins[k]);
            k = k + 1;
            assert(use_ctx.unbreakable_coins@ =~= start + e.coins@.take(k as int));
        }
        assert(e.coins@.take(e.coins@.len() as int) =~= e.coins@);
        return;
    }
    if crate::text::same_text(kind, "zero_damage") {
        use_ctx.zero_damage = true;
        return;
    }
    if crate::text::same_text(kind, "reuse_on_kill") {
        use_ctx.reuse_on_kill = true;
        return;
    }
    if crate::text::same_text(kind, "no_damage_taken") {
        let mut u = units.remove(actor);
        proof {
            assert(u == u0[actor as int]);
        }
        u.statuses.set_stack("No Damage Taken", 1);
        units.insert(actor, u);
        assert(units@ =~= u0.update(actor as int, u));
        return;
    }
    if crate::text::same_text(kind, "noop") {
        return;
    }
    let extra = crate::text::same_text(kind, "tag") || crate::text::same_text(kind, "sub_target_damage")
        || crate::text::same_text(kind, "crit_damage_bonus") || crate::text::same_text(kind, "attack_weight")
        || crate::text::same_text(kind, "self_sp_damage") || crate::text::same_text(kind, "flag")
        || crate::text::same_text(kind, "convert_unbreakable_and_clash") || crate::text::same_text(
        kind,
        "sp_damage_self_per_stack",
    );
    if extra {
        proof {
            reveal_strlit("tag");
            reveal_strlit("sub_target_damage");
            reveal_strlit("crit_damage_bonus");
            reveal_strlit("attack_weight");
            reveal_strlit("self_sp_damage");
            reveal_strlit("flag");
            reveal_strlit("convert_unbreakable_and_clash");
            reveal_strlit("sp_damage_self_per_stack");
        }
        if crate::text::same_text(kind, "self_sp_damage") || crate::text::same_text(kind, "sp_damage_self_per_stack") {
            if apply_sp_kind(units, e, actor, Ghost(*use_ctx), Ghost(texts_of(notes@))) {
                note_unhandled(notes, kind);
            }
        } else {
            apply_use_kind(e, use_ctx, notes, Ghost(actor), Ghost(u0));
        }
        return;
    }
    if crate::text::same_text(kind, "inflict") || crate::text::same_text(kind, "gain") {
        let index = if text_is(&e.source, "self") || crate::text::same_text(kind, "gain") {
            Some(actor)
        } else {
            target
        };
        let i = match index {
            Some(i) => i,
            None => return,
        };
        let named = match &e.status {
            Some(st) => st,
            None => return,
        };
        let plain = e.ally.is_none() && !(e.range_min.is_some() && e.range_max.is_some()) && e.per_sp.is_none()
            && !e.from_resonance && e.multiplier.is_none() && e.butterfly_part.is_none() && !(match e.per {
            Some(p) => p > 0,
            None => false,
        }) && !crate::text::same_text(named.as_str(), "Butterfly");
        if !plain {
            note_unhandled(notes, kind);
            return;
        }
        if !apply_inflict(units, e, actor, i) {
            note_unhandled(notes, kind);
        }
        return;
    }
    note_unhandled(notes, kind);
}

fn spend_ok(usage: &crate::keyed::StrMap<i32>, grants: &Vec<String>) -> (ok: bool)
    requires
        usage.wf(),
    ensures
        ok == forall|j: int|
            0 <= j < grants@.len() ==> used_of(usage@, #[trigger] grants@[j]@) + grants@.len() <= i32::MAX,
{
    let n = grants.len();
    let mut j: usize = 0;
    while j < n
        invariant
            j <= n,
            n == grants@.len(),
            usage.wf(),
            forall|k: int| 0 <= k < j ==> used_of(usage@, #[trigger] grants@[k]@) + n <= i32::MAX,
        decreases n - j,
    {
        let used: i128 = match usage.get(grants[j].as_str()) {
            Some(v) => *v as i128,
            None => 0,
        };
        if used + n as i128 > i32::MAX as i128 {
            return false;
        }
        j = j + 1;
    }
    true
}

/// Apply one clause (see `clause_applied`).
pub fn apply_clause(state: &mut BattleState, e: &Effect, ctx: &mut EffectContext, use_ctx: &mut UseContext)
    requires
        old(ctx).actor_index < old(state).units@.len(),
        old(ctx).target_index matches Some(t) ==> t < old(state).units@.len(),
        units_ready(old(state).units@),
        can_draw(old(state).dice@, 1),
    ensures
        clause_applied(
            *e,
            old(ctx).actor_index,
            old(ctx).target_index,
            old(ctx).clash_count,
            old(ctx).clash_lost,
            old(ctx).slot,
            *old(state),
            *old(use_ctx),
            texts_of(old(ctx).mechanics_note@),
            *final(state),
            *final(use_ctx),
            texts_of(final(ctx).mechanics_note@),
        ),
        *final(ctx) == (EffectContext { mechanics_note: final(ctx).mechanics_note, ..*old(ctx) }),
        units_ready(final(state).units@),
        final(state).units@.len() == old(state).units@.len(),
        final(state).dice@.draws <= old(state).dice@.draws + 1,
{
    let ghost s0 = *state;
    let actor = ctx.actor_index;
    let target = ctx.target_index;
    proof {
        assert(units_ready(s0.units@));
        assert(s0.units@[actor as int].statuses.wf());
    }
    let opened = {
        let units = &state.units;
        let a = &units[actor];
        let t = match target {
            Some(t) => Some(&units[t]),
            None => None,
        };
        proof {
            if target is Some {
                assert(units_ready(s0.units@));
            }
        }
        let r = clause_opens(&e.gate, &a.turn_effect_usage, ctx.clash_lost, &mut state.dice, a, t, ctx.clash_count, ctx.slot);
        proof {
            assert(opt_unit(t) == target_unit(s0.units@, target));
        }
        r
    };
    assert(state.units@ == s0.units@);
    if opened.is_none() {
        return;
    }
    let grants = opened.unwrap();
    proof {
        assert(texts_of(grants@) == grant_keys(e.gate));
        assert(grants@.len() == grant_keys(e.gate).len());
        assert forall|j: int| 0 <= j < grants@.len() implies #[trigger] grants@[j]@ == grant_keys(e.gate)[j] by {
            assert(texts_of(grants@)[j] == grants@[j]@);
        }
    }
    if !spend_ok(&state.units[actor].turn_effect_usage, &grants) {
        note_unhandled(&mut ctx.mechanics_note, e.gate.kind.as_str());
        return;
    }
    let ghost s_mid = *state;
    apply_kind(&mut state.units, e, actor, target, use_ctx, &mut ctx.mechanics_note);
    let ghost um = state.units@;
    let mut u = state.units.remove(actor);
    proof {
        assert(u == um[actor as int]);
        assert(units_ready(um));
    }
    spend_allowance(&mut u.turn_effect_usage, &grants);
    state.units.insert(actor, u);
    proof {
        assert(state.units@ =~= um.update(actor as int, u));
        assert(usage_spent(um, actor, e.gate, state.units@));
        assert(units_ready(state.units@));
    }
}

/// Apply the clauses `effects` of `ctx`'s actor, in order (see
/// `effects_applied`); notes go to `ctx.mechanics_note`.
pub fn apply_effects(state: &mut BattleState, effects: &Vec<Effect>, ctx: &mut EffectContext, use_ctx: &mut UseContext)
    requires
        old(ctx).actor_index < old(state).units@.len(),
        old(ctx).target_index matches Some(t) ==> t < old(state).units@.len(),
        units_ready(old(state).units@),
        can_draw(old(state).dice@, effects@.len() as int),
    ensures
        effects_applied(
            effects@,
            old(ctx).actor_index,
            old(ctx).target_index,
            old(ctx).clash_count,
            old(ctx).clash_lost,
            old(ctx).slot,
            (*old(state), *old(use_ctx), texts_of(old(ctx).mechanics_note@)),
            (*final(state), *final(use_ctx), texts_of(final(ctx).mechanics_note@)),
        ),
        *final(ctx) == (EffectContext { mechanics_note: final(ctx).mechanics_note, ..*old(ctx) }),
        units_ready(final(state).units@),
        final(state).units@.len() == old(state).units@.len(),
{
    let ghost x0 = *ctx;
    let ghost start: ClauseStage = (*state, *use_ctx, texts_of(ctx.mechanics_note@));
    let ghost mut trace: Seq<ClauseStage> = seq![start];
    let ghost d0 = state.dice@.draws;
    let mut i: usize = 0;
    while i < effects.len()
        invariant
            i <= effects@.len(),
            *ctx == (EffectContext { mechanics_note: ctx.mechanics_note, ..x0 }),
            x0.actor_index < state.units@.len(),
            x0.target_index matches Some(t) ==> t < state.units@.len(),
            units_ready(state.units@),
            state.units@.len() == start.0.units@.len(),
            state.dice@.draws <= d0 + i,
            d0 + effects@.len() <= u64::MAX,
            trace.len() == i + 1,
            trace[0] == start,
            trace[i as int] == (*state, *use_ctx, texts_of(ctx.mechanics_note@)),
            forall|k: int|
                0 <= k < i ==> #[trigger] clause_applied(
                    effects@[k],
                    x0.actor_index,
                    x0.target_index,
                    x0.clash_count,
                    x0.clash_lost,
                    x0.slot,
                    trace[k].0,
                    trace[k].1,
                    trace[k].2,
                    trace[k + 1].0,
                    trace[k + 1].1,
                    trace[k + 1].2,
                ),
        decreases effects.len() - i,
    {
        apply_clause(state, &effects[i], ctx, use_ctx);
        proof {
            let prev = trace;
            trace = trace.push((*state, *use_ctx, texts_of(ctx.mechanics_note@)));
            assert forall|k: int|
                0 <= k < i + 1 implies #[trigger] clause_applied(
                    effects@[k],
                    x0.actor_index,
                    x0.target_index,
                    x0.clash_count,
                    x0.clash_lost,
                    x0.slot,
                    trace[k].0,
                    trace[k].1,
                    trace[k].2,
                    trace[k + 1].0,
                    trace[k + 1].1,
                    trace[k + 1].2,
                ) by {
                if k < i {
                    assert(trace[k] == prev[k]);
                    assert(trace[k + 1] == prev[k + 1]);
                }
            }
        }
        i = i + 1;
    }
    assert(clause_trace(effects@, x0.actor_index, x0.target_index, x0.clash_count, x0.clash_lost, x0.slot, start, trace));
}

/// Every clause that opened and is not applied here leaves exactly one
/// note, and a clause never removes a note: no clause is dropped silently.
pub proof fn unmodelled_clauses_are_noted(
    e: Effect,
    actor: usize,
    target: Option<usize>,
    u0: Seq<Unit>,
    c0: UseContext,
    n0: Seq<Seq<char>>,
    u1: Seq<Unit>,
    c1: UseContext,
    n1: Seq<Seq<char>>,
)
    requires
        kind_applied(e, actor, target, u0, c0, n0, u1, c1, n1),
    ensures
        n1 == n0 || n1 == n0.push(unhandled_note(e.gate.kind@)),
        n1 == n0.push(unhandled_note(e.gate.kind@)) ==> u1 == u0 && c1 == c0,
{
    let n = unhandled_note(e.gate.kind@);
    assert(n0.push(n).len() == n0.len() + 1);
}

} // verus!
