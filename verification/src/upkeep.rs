//! Turn End upkeep of one unit: Burn burns, the counted statuses tick down,
//! Butterfly turns The Living into Sinking, and Stagger wears off.

use vstd::prelude::*;
use crate::battle::{tick_status, ticked};
use crate::keyed::StrMap;
use crate::battle::petals_gain_cap;
use crate::state::{run_from, stagger_checked, damage_fits, damaged, max0, status_of, with_status, Sanity, StaggerState, StatusInstance, StatusSet, Unit};
use crate::state::healed;
use crate::text::same_text;
use crate::time_passives::{bleed_lifesteal_target, future_from};

verus! {

/// How a status ticks and expires (its entry in the status book).
#[derive(Clone, Debug)]
pub struct TickRule {
    /// "potency_count" (default), "stack" or a single value.
    pub structure: Option<String>,
    /// The value of a single-value status: "potency" (default) or "count".
    pub primary: Option<String>,
    /// "either_zero" (default), "none", "both_zero", "count_zero",
    /// "potency_zero".
    pub expiry: Option<String>,
}

pub open spec fn text_of(o: Option<String>) -> Option<Seq<char>> {
    match o {
        Some(s) => Some(s@),
        None => None,
    }
}

/// `status` moved by the deltas under its rules from the book (the defaults
/// when the book has none).
pub open spec fn tick_by(
    rules: Map<Seq<char>, TickRule>,
    m: Map<Seq<char>, StatusInstance>,
    status: Seq<char>,
    potency_delta: i32,
    count_delta: i32,
) -> Map<Seq<char>, StatusInstance> {
    if rules.contains_key(status) {
        let r = rules[status];
        ticked(m, status, potency_delta, count_delta, text_of(r.structure), text_of(r.primary), text_of(r.expiry))
    } else {
        ticked(m, status, potency_delta, count_delta, None, None, None)
    }
}

/// One Count off `status` when it has any.
pub open spec fn count_down(
    rules: Map<Seq<char>, TickRule>,
    m: Map<Seq<char>, StatusInstance>,
    status: Seq<char>,
) -> Map<Seq<char>, StatusInstance> {
    if status_of(m, status).count > 0 {
        tick_by(rules, m, status, 0, -1i32)
    } else {
        m
    }
}

/// Butterfly at Turn End: "Reset The Departed of this effect to 0; then,
/// gain [Sinking] equal to The Living and convert The Living into The
/// Departed" (The Living is its Potency, The Departed its Count).
pub open spec fn butterfly_turn(m: Map<Seq<char>, StatusInstance>) -> Map<Seq<char>, StatusInstance> {
    let living = status_of(m, "Butterfly"@).potency;
    let departed = status_of(m, "Butterfly"@).count;
    if living > 0 || departed > 0 {
        let sunk = if living > 0 {
            let s = status_of(m, "Sinking"@);
            with_status(m, "Sinking"@, StatusInstance { potency: max0(s.potency + living), ..s })
        } else {
            m
        };
        with_status(sunk, "Butterfly"@, StatusInstance { potency: 0, count: living, stack: 0 })
    } else {
        m
    }
}

/// The statuses after the upkeep: Burn loses a Count after burning, Poise,
/// Tremor and Charge lose a Count, then Butterfly turns.
pub open spec fn upkept_statuses(m: Map<Seq<char>, StatusInstance>, rules: Map<Seq<char>, TickRule>) -> Map<
    Seq<char>,
    StatusInstance,
> {
    let burn = status_of(m, "Burn"@).potency;
    let m1 = if burn > 0 {
        tick_by(rules, m, "Burn"@, 0, -1i32)
    } else {
        m
    };
    let m2 = count_down(rules, m1, "Poise"@);
    let m3 = count_down(rules, m2, "Tremor"@);
    let m4 = count_down(rules, m3, "Charge"@);
    butterfly_turn(m4)
}

/// The unit after Burn: fixed damage equal to its Potency (nothing under
/// `No Damage Taken`).
pub open spec fn burnt(u: Unit) -> Unit {
    let burn = status_of(u.statuses@, "Burn"@).potency;
    if burn > 0 && status_of(u.statuses@, "No Damage Taken"@).stack <= 0 {
        damaged(u, burn).0
    } else {
        u
    }
}

/// A Stagger turn wears off; the Stagger level resets with the last one.
pub open spec fn recovered(s: StaggerState) -> StaggerState {
    if s.turns_remaining > 0 {
        StaggerState {
            turns_remaining: (s.turns_remaining - 1) as u8,
            level: if s.turns_remaining - 1 == 0 {
                0
            } else {
                s.level
            },
            ..s
        }
    } else {
        s
    }
}

proof fn lemma_tick_by_other(
    rules: Map<Seq<char>, TickRule>,
    m: Map<Seq<char>, StatusInstance>,
    status: Seq<char>,
    potency_delta: i32,
    count_delta: i32,
    k: Seq<char>,
)
    requires
        k != status,
    ensures
        status_of(tick_by(rules, m, status, potency_delta, count_delta), k) == status_of(m, k),
{
}

fn rule_str(o: &Option<String>) -> (r: Option<&str>)
    ensures
        crate::battle::rule_text(r) == text_of(*o),
{
    match o {
        Some(s) => Some(s.as_str()),
        None => None,
    }
}

/// `tick_status` under the rules the book gives `status`.
pub(crate) fn tick_with_rules(statuses: &mut StatusSet, rules: &StrMap<TickRule>, status: &str, potency_delta: i32, count_delta: i32)
    requires
        old(statuses).wf(),
        rules.wf(),
        status_of(old(statuses)@, status@).potency + potency_delta <= i32::MAX,
        status_of(old(statuses)@, status@).count + count_delta <= i32::MAX,
    ensures
        final(statuses).wf(),
        final(statuses)@ == tick_by(rules@, old(statuses)@, status@, potency_delta, count_delta),
{
    match rules.get(status) {
        Some(r) => {
            let structure = rule_str(&r.structure);
            let primary = rule_str(&r.primary);
            let expiry = rule_str(&r.expiry);
            tick_status(statuses, status, potency_delta, count_delta, structure, primary, expiry);
        },
        None => {
            tick_status(statuses, status, potency_delta, count_delta, None, None, None);
        },
    }
}

/// The status half of the upkeep (see `upkept_statuses`).
fn upkeep_statuses(statuses: &mut StatusSet, rules: &StrMap<TickRule>)
    requires
        old(statuses).wf(),
        rules.wf(),
        status_of(old(statuses)@, "Butterfly"@).potency > 0 ==> status_of(old(statuses)@, "Sinking"@).potency
            + status_of(old(statuses)@, "Butterfly"@).potency <= i32::MAX,
    ensures
        final(statuses).wf(),
        final(statuses)@ == upkept_statuses(old(statuses)@, rules@),
{
    proof {
        reveal_strlit("Burn");
        reveal_strlit("Poise");
        reveal_strlit("Tremor");
        reveal_strlit("Charge");
        reveal_strlit("Sinking");
        reveal_strlit("Butterfly");
        assert("Burn"@.len() == 4 && "Poise"@.len() == 5 && "Tremor"@.len() == 6 && "Charge"@.len() == 6);
        assert("Sinking"@.len() == 7 && "Butterfly"@.len() == 9);
    }
    let ghost m0 = statuses@;
    if statuses.potency("Burn") > 0 {
        tick_with_rules(statuses, rules, "Burn", 0, -1);
        proof {
            lemma_tick_by_other(rules@, m0, "Burn"@, 0, -1i32, "Sinking"@);
            lemma_tick_by_other(rules@, m0, "Burn"@, 0, -1i32, "Butterfly"@);
        }
    }
    let ghost m1 = statuses@;
    if statuses.count("Poise") > 0 {
        tick_with_rules(statuses, rules, "Poise", 0, -1);
        proof {
            lemma_tick_by_other(rules@, m1, "Poise"@, 0, -1i32, "Sinking"@);
            lemma_tick_by_other(rules@, m1, "Poise"@, 0, -1i32, "Butterfly"@);
        }
    }
    let ghost m2 = statuses@;
    if statuses.count("Tremor") > 0 {
        tick_with_rules(statuses, rules, "Tremor", 0, -1);
        proof {
            lemma_tick_by_other(rules@, m2, "Tremor"@, 0, -1i32, "Sinking"@);
            lemma_tick_by_other(rules@, m2, "Tremor"@, 0, -1i32, "Butterfly"@);
        }
    }
    let ghost m3 = statuses@;
    if statuses.count("Charge") > 0 {
        tick_with_rules(statuses, rules, "Charge", 0, -1);
        proof {
            lemma_tick_by_other(rules@, m3, "Charge"@, 0, -1i32, "Sinking"@);
            lemma_tick_by_other(rules@, m3, "Charge"@, 0, -1i32, "Butterfly"@);
        }
    }
    let living = statuses.potency("Butterfly");
    let departed = statuses.count("Butterfly");
    if living > 0 || departed > 0 {
        if living > 0 {
            statuses.add_potency("Sinking", living);
        }
        statuses.set("Butterfly", StatusInstance { potency: 0, count: living, stack: 0 });
    }
}

/// Turn End upkeep of one living unit: Burn deals its Potency as fixed
/// damage and loses a Count; Poise, Tremor and Charge lose a Count;
/// Butterfly turns The Living into Sinking and The Departed; a Stagger turn
/// wears off.  Every status ticks under its rules in `rules`.
pub fn turn_end_upkeep(unit: &mut Unit, rules: &StrMap<TickRule>)
    requires
        old(unit).statuses.wf(),
        rules.wf(),
        status_of(old(unit).statuses@, "Burn"@).potency > 0 ==> damage_fits(
            *old(unit),
            status_of(old(unit).statuses@, "Burn"@).potency,
        ),
        status_of(old(unit).statuses@, "Butterfly"@).potency > 0 ==> status_of(
            old(unit).statuses@,
            "Sinking"@,
        ).potency + status_of(old(unit).statuses@, "Butterfly"@).potency <= i32::MAX,
    ensures
        final(unit).statuses.wf(),
        final(unit).statuses@ == upkept_statuses(old(unit).statuses@, rules@),
        *final(unit) == (Unit { statuses: final(unit).statuses, stagger: recovered(old(unit).stagger), ..burnt(*old(unit)) }),
{
    let ghost u0 = *unit;
    let burn = unit.statuses.potency("Burn");
    if burn > 0 {
        unit.take_damage(burn);
    }
    assert(*unit == burnt(u0));
    let ghost u1 = *unit;
    upkeep_statuses(&mut unit.statuses, rules);
    assert(*unit == (Unit { statuses: unit.statuses, ..u1 }));
    recover(&mut unit.stagger);
}

fn recover(s: &mut StaggerState)
    ensures
        *final(s) == recovered(*old(s)),
{
    if s.turns_remaining > 0 {
        s.turns_remaining = s.turns_remaining - 1;
        if s.turns_remaining == 0 {
            s.level = 0;
        }
    }
}

/// The passive "Unwithering Flower": "Gain 1 [Petals] if the enemy takes
/// [Sinking] damage".
pub const UNWITHERING_FLOWER: &'static str = "1041411";

pub open spec fn holds_passive(u: Unit, id: Seq<char>) -> bool {
    exists|k: int| 0 <= k < u.passive_ids@.len() && #[trigger] u.passive_ids@[k]@ == id
}

/// Unit `k` holds the passive and stands on the other side of unit `i`.
pub open spec fn flower_against(units: Seq<Unit>, k: int, i: int) -> bool {
    &&& holds_passive(units[k], UNWITHERING_FLOWER@)
    &&& (units[k].kind is Sinner) != (units[i].kind is Sinner)
}

/// Unit `k` gains a Petal when unit `i` takes Sinking damage: it holds the
/// passive, stands on the other side, and has not gained its 15 Petals this
/// turn.
pub open spec fn gains_petal(units: Seq<Unit>, k: int, i: int) -> bool {
    flower_against(units, k, i) && units[k].petals_gained < 15
}

/// The unit after taking its Sinking: a unit with Sanity loses SP equal to
/// the Potency; one without takes `damage` (nothing under `No Damage
/// Taken`).
pub open spec fn sunk(u: Unit, damage: i32) -> Unit {
    let s = status_of(u.statuses@, "Sinking"@).potency;
    match u.sanity {
        Sanity::NoSanity => if status_of(u.statuses@, "No Damage Taken"@).stack > 0 {
            u
        } else {
            damaged(u, damage).0
        },
        Sanity::Sane { .. } => Unit { sanity: u.sanity.moved(-s), ..u },
    }
}

/// Unit `k` after one more Petal.
pub open spec fn with_petal(before: Unit, after: Unit) -> bool {
    let p = status_of(before.statuses@, "Petals"@);
    &&& after == (Unit { statuses: after.statuses, petals_gained: (before.petals_gained + 1) as i32, ..before })
    &&& after.statuses.wf()
    &&& after.statuses@ == with_status(before.statuses@, "Petals"@, StatusInstance { stack: max0(p.stack + 1), ..p })
}

fn holds_passive_exec(u: &Unit, id: &str) -> (b: bool)
    ensures
        b == holds_passive(*u, id@),
{
    let mut k: usize = 0;
    while k < u.passive_ids.len()
        invariant
            k <= u.passive_ids@.len(),
            forall|t: int| 0 <= t < k ==> #[trigger] u.passive_ids@[t]@ != id@,
        decreases u.passive_ids.len() - k,
    {
        if same_text(u.passive_ids[k].as_str(), id) {
            assert(u.passive_ids@[k as int]@ == id@);
            return true;
        }
        k = k + 1;
    }
    false
}

/// Sinking on unit `unit_index` at Turn End: nothing without Potency;
/// otherwise every Unwithering Flower on the other side gains a Petal, the
/// unit takes its Sinking (see `sunk`; `damage` is what a unit without
/// Sanity takes, worked out by the damage formula from its Gloom
/// resistance), and Sinking loses a Count.
pub fn apply_sinking(units: &mut Vec<Unit>, unit_index: usize, rules: &StrMap<TickRule>, damage: i32)
    requires
        unit_index < old(units)@.len(),
        rules.wf(),
        forall|k: int| 0 <= k < old(units)@.len() ==> (#[trigger] old(units)@[k]).statuses.wf(),
        forall|k: int|
            0 <= k < old(units)@.len() && gains_petal(old(units)@, k, unit_index as int) ==> status_of(
                (#[trigger] old(units)@[k]).statuses@,
                "Petals"@,
            ).stack < i32::MAX,
        forall|k: int|
            0 <= k < old(units)@.len() && flower_against(old(units)@, k, unit_index as int) ==> 15 - (
            #[trigger] old(units)@[k]).petals_gained <= i32::MAX,
        old(units)@[unit_index as int].sanity is NoSanity ==> damage_fits(old(units)@[unit_index as int], damage),
    ensures
        final(units)@.len() == old(units)@.len(),
        status_of(old(units)@[unit_index as int].statuses@, "Sinking"@).potency <= 0 ==> final(units)@ == old(units)@,
        status_of(old(units)@[unit_index as int].statuses@, "Sinking"@).potency > 0 ==> {
            &&& forall|k: int|
                0 <= k < old(units)@.len() && k != unit_index ==> if gains_petal(old(units)@, k, unit_index as int) {
                    with_petal(old(units)@[k], #[trigger] final(units)@[k])
                } else {
                    final(units)@[k] == old(units)@[k]
                }
            &&& final(units)@[unit_index as int] == (Unit {
                statuses: final(units)@[unit_index as int].statuses,
                ..sunk(old(units)@[unit_index as int], damage)
            })
            &&& final(units)@[unit_index as int].statuses.wf()
            &&& final(units)@[unit_index as int].statuses@ == tick_by(
                rules@,
                old(units)@[unit_index as int].statuses@,
                "Sinking"@,
                0,
                -1i32,
            )
        },
{
    let sinking = units[unit_index].statuses.potency("Sinking");
    if sinking <= 0 {
        return;
    }
    let ghost u0 = units@;
    let me_sinner = units[unit_index].kind.is_sinner();
    let mut k: usize = 0;
    while k < units.len()
        invariant
            k <= units@.len(),
            units@.len() == u0.len(),
            unit_index < u0.len(),
            me_sinner == (u0[unit_index as int].kind is Sinner),
            units@[unit_index as int] == u0[unit_index as int],
            forall|j: int| 0 <= j < u0.len() ==> (#[trigger] u0[j]).statuses.wf(),
            forall|j: int|
                0 <= j < u0.len() && gains_petal(u0, j, unit_index as int) ==> status_of(
                    (#[trigger] u0[j]).statuses@,
                    "Petals"@,
                ).stack < i32::MAX,
            forall|j: int|
                0 <= j < u0.len() && flower_against(u0, j, unit_index as int) ==> 15 - (
                #[trigger] u0[j]).petals_gained <= i32::MAX,
            forall|j: int|
                0 <= j < k && j != unit_index ==> if gains_petal(u0, j, unit_index as int) {
                    with_petal(u0[j], #[trigger] units@[j])
                } else {
                    units@[j] == u0[j]
                },
            forall|j: int| k <= j < u0.len() ==> #[trigger] units@[j] == u0[j],
        decreases units.len() - k,
    {
        let ghost prev = units@;
        let owner = holds_passive_exec(&units[k], UNWITHERING_FLOWER);
        let other_side = units[k].kind.is_sinner() != me_sinner;
        assert(units@[k as int] == u0[k as int]);
        if owner && other_side {
            let cap = petals_gain_cap(units[k].petals_gained);
            if cap > 0 {
                let ghost before = units@;
                let mut u = units.remove(k);
                assert(u == u0[k as int]);
                give_petal(&mut u);
                units.insert(k, u);
                proof {
                    assert(units@ =~= before.update(k as int, u));
                    assert(with_petal(u0[k as int], units@[k as int]));
                }
            } else {
                assert(!gains_petal(u0, k as int, unit_index as int));
            }
        }
        proof {
            assert forall|j: int|
                0 <= j < k + 1 && j != unit_index implies if gains_petal(u0, j, unit_index as int) {
                    with_petal(u0[j], #[trigger] units@[j])
                } else {
                    units@[j] == u0[j]
                } by {
                if j < k {
                    assert(units@[j] == prev[j]);
                } else {
                    assert(j == k);
                    if gains_petal(u0, j, unit_index as int) {
                        assert(owner && other_side);
                        assert(with_petal(u0[k as int], units@[k as int]));
                    } else {
                        assert(units@[j] == u0[j]);
                    }
                }
            }
        }
        k = k + 1;
    }
    let ghost before = units@;
    let mut u = units.remove(unit_index);
    sink_unit(&mut u, rules, damage);
    units.insert(unit_index, u);
    proof {
        assert(units@ =~= before.update(unit_index as int, u));
    }
}

fn give_petal(u: &mut Unit)
    requires
        old(u).statuses.wf(),
        status_of(old(u).statuses@, "Petals"@).stack < i32::MAX,
        old(u).petals_gained < 15,
    ensures
        with_petal(*old(u), *final(u)),
{
    u.statuses.add_stack("Petals", 1);
    u.petals_gained = u.petals_gained + 1;
}

fn sink_unit(u: &mut Unit, rules: &StrMap<TickRule>, damage: i32)
    requires
        old(u).statuses.wf(),
        rules.wf(),
        status_of(old(u).statuses@, "Sinking"@).potency > 0,
        old(u).sanity is NoSanity ==> damage_fits(*old(u), damage),
    ensures
        *final(u) == (Unit { statuses: final(u).statuses, ..sunk(*old(u), damage) }),
        final(u).statuses.wf(),
        final(u).statuses@ == tick_by(rules@, old(u).statuses@, "Sinking"@, 0, -1i32),
{
    let sinking = u.statuses.potency("Sinking");
    let ghost ub = *u;
    match u.sanity {
        Sanity::NoSanity => {
            u.take_damage(damage);
        },
        Sanity::Sane { .. } => {
            u.sanity = u.sanity.add(-sinking);
        },
    }
    assert(*u == sunk(ub, damage));
    let ghost us = *u;
    tick_with_rules(&mut u.statuses, rules, "Sinking", 0, -1);
    assert(*u == (Unit { statuses: u.statuses, ..us }));
}

/// The Stagger check after damage: a dead unit is not checked; a living one
/// crosses every line still in play it is now at or below (see
/// `StaggerState::check`).  Returns whether any line was crossed.
pub fn check_stagger(unit: &mut Unit) -> (crossed_any: bool)
    requires
        run_from(old(unit).stagger.thresholds_hp@, old(unit).stagger.consumed as int, old(unit).hp) <= 255,
    ensures
        !old(unit).alive ==> !crossed_any && *final(unit) == *old(unit),
        old(unit).alive ==> *final(unit) == (Unit { stagger: final(unit).stagger, ..*old(unit) })
            && stagger_checked(old(unit).stagger, final(unit).stagger, old(unit).hp, crossed_any),
{
    if !unit.alive {
        return false;
    }
    let hp = unit.hp;
    unit.stagger.check(hp)
}

/// The unit after Bleed's damage (its Potency; nothing under `No Damage
/// Taken`), and the HP it lost.
pub open spec fn bled(u: Unit) -> (Unit, int) {
    let p = status_of(u.statuses@, "Bleed"@).potency;
    if status_of(u.statuses@, "No Damage Taken"@).stack > 0 {
        (u, 0)
    } else {
        (damaged(u, p).0, damaged(u, p).2)
    }
}

/// Bleed keeps its last Count when asked to (the Count floor); otherwise
/// it loses one.
pub open spec fn bleed_ticks(m: Map<Seq<char>, StatusInstance>, keep_count: bool) -> bool {
    !(keep_count && status_of(m, "Bleed"@).count <= 1)
}

proof fn lemma_future_same(a: Seq<Unit>, b: Seq<Unit>, i: int)
    requires
        a.len() == b.len(),
        forall|k: int| 0 <= k < a.len() ==> a[k].alive == b[k].alive && a[k].time_state == b[k].time_state,
    ensures
        future_from(a, i) == future_from(b, i),
    decreases a.len() - i,
{
    if 0 <= i < a.len() {
        lemma_future_same(a, b, i + 1);
    }
}

proof fn lemma_future_found(a: Seq<Unit>, i: int)
    requires
        0 <= i,
    ensures
        future_from(a, i) matches Some(k) ==> i <= k < a.len(),
    decreases a.len() - i,
{
    if 0 <= i < a.len() {
        lemma_future_found(a, i + 1);
    }
}

/// Bleed on unit `unit_index` (when it has Potency): it takes its Potency
/// as damage and loses a Count unless `keep_count` holds it at its last
/// one; the Future state heals the first living unit holding it (if that is
/// another unit) by the HP the Bleed took.
pub fn tick_bleed_with_floor(units: &mut Vec<Unit>, unit_index: usize, rules: &StrMap<TickRule>, keep_count: bool)
    requires
        unit_index < old(units)@.len(),
        rules.wf(),
        forall|k: int| 0 <= k < old(units)@.len() ==> (#[trigger] old(units)@[k]).statuses.wf(),
        status_of(old(units)@[unit_index as int].statuses@, "Bleed"@).potency > 0 ==> damage_fits(
            old(units)@[unit_index as int],
            status_of(old(units)@[unit_index as int].statuses@, "Bleed"@).potency,
        ),
        forall|k: int|
            0 <= k < old(units)@.len() ==> (#[trigger] old(units)@[k]).hp + bled(old(units)@[unit_index as int]).1
                <= i32::MAX,
    ensures
        final(units)@.len() == old(units)@.len(),
        status_of(old(units)@[unit_index as int].statuses@, "Bleed"@).potency <= 0 ==> final(units)@ == old(
            units,
        )@,
        status_of(old(units)@[unit_index as int].statuses@, "Bleed"@).potency > 0 ==> {
            let u0 = old(units)@[unit_index as int];
            let (u1, lost) = bled(u0);
            &&& final(units)@[unit_index as int] == (Unit {
                statuses: final(units)@[unit_index as int].statuses,
                ..u1
            })
            &&& final(units)@[unit_index as int].statuses.wf()
            &&& final(units)@[unit_index as int].statuses@ == (if bleed_ticks(u0.statuses@, keep_count) {
                tick_by(rules@, u0.statuses@, "Bleed"@, 0, -1i32)
            } else {
                u0.statuses@
            })
            &&& forall|k: int|
                0 <= k < old(units)@.len() && k != unit_index ==> #[trigger] final(units)@[k] == (if future_from(
                    final(units)@,
                    0,
                ) == Some(k) {
                    healed(old(units)@[k], lost as i32)
                } else {
                    old(units)@[k]
                })
        },
{
    let potency = units[unit_index].statuses.potency("Bleed");
    if potency <= 0 {
        return;
    }
    let ghost before = units@;
    let mut u = units.remove(unit_index);
    let lost = bleed_unit(&mut u, rules, keep_count);
    units.insert(unit_index, u);
    proof {
        assert(units@ =~= before.update(unit_index as int, u));
    }
    let ghost mid = units@;
    match bleed_lifesteal_target(units) {
        Some(h) => {
            proof {
                lemma_future_found(mid, 0);
            }
            if h != unit_index {
                heal_at(units, h, lost);
                proof {
                    lemma_future_same(units@, mid, 0);
                }
            }
        },
        None => {},
    }
}

fn bleed_unit(u: &mut Unit, rules: &StrMap<TickRule>, keep_count: bool) -> (lost: i32)
    requires
        old(u).statuses.wf(),
        rules.wf(),
        status_of(old(u).statuses@, "Bleed"@).potency > 0,
        damage_fits(*old(u), status_of(old(u).statuses@, "Bleed"@).potency),
    ensures
        *final(u) == (Unit { statuses: final(u).statuses, ..bled(*old(u)).0 }),
        lost == bled(*old(u)).1,
        final(u).statuses.wf(),
        final(u).statuses@ == (if bleed_ticks(old(u).statuses@, keep_count) {
            tick_by(rules@, old(u).statuses@, "Bleed"@, 0, -1i32)
        } else {
            old(u).statuses@
        }),
{
    let potency = u.statuses.potency("Bleed");
    let (_, lost) = u.take_damage(potency);
    let ghost u1 = *u;
    let count = u.statuses.count("Bleed");
    if !(keep_count && count <= 1) {
        tick_with_rules(&mut u.statuses, rules, "Bleed", 0, -1);
    }
    assert(*u == (Unit { statuses: u.statuses, ..u1 }));
    lost
}

fn heal_at(units: &mut Vec<Unit>, h: usize, amount: i32)
    requires
        h < old(units)@.len(),
        old(units)@[h as int].hp + (if amount < 0 { 0 } else { amount as int }) <= i32::MAX,
    ensures
        final(units)@ == old(units)@.update(h as int, healed(old(units)@[h as int], amount)),
{
    let ghost b = units@;
    let mut v = units.remove(h);
    v.heal(amount);
    units.insert(h, v);
    assert(units@ =~= b.update(h as int, v));
}

} // verus!
