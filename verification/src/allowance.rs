//! Whether one clause of a skill's effect list applies: "after Clash Lose"
//! clauses, "N% chance" clauses, "(N times per turn)" and "(N times per
//! Encounter)" limits, and the clause's own condition; and the usage
//! counters those limits are kept in.

use vstd::prelude::*;
use crate::dice::{can_draw, flip_step, uses_preset, Dice, DiceState};
use crate::effects::{condition_holds, condition_met, opt_unit, Condition};
use crate::keyed::StrMap;
use crate::state::Unit;

verus! {

/// The key prefix of a per-Encounter usage counter; Turn Start keeps
/// exactly these.
pub const ENCOUNTER_PREFIX: &'static str = "encounter:";

/// The parts of a clause that decide whether it applies.
pub struct ClauseGate {
    pub kind: String,
    /// The clause's source text; its usage counters are keyed by it (by
    /// `kind` when there is none).
    pub raw: Option<String>,
    pub only_after_clash_lose: bool,
    /// Percent chance that the clause applies.
    pub chance: Option<i32>,
    pub per_encounter: Option<i32>,
    pub per_turn: Option<i32>,
    pub condition: Option<Condition>,
}

/// The name a clause's per-turn counter is kept under.
pub open spec fn label_of(g: ClauseGate) -> Seq<char> {
    match g.raw {
        Some(r) => r@,
        None => g.kind@,
    }
}

/// The name a clause's per-Encounter counter is kept under.
pub open spec fn encounter_key(g: ClauseGate) -> Seq<char> {
    "encounter:"@ + label_of(g)
}

/// How often the counter `k` has been spent (0 when it was never).
pub open spec fn used_of(usage: Map<Seq<char>, i32>, k: Seq<char>) -> int {
    if usage.contains_key(k) {
        usage[k] as int
    } else {
        0
    }
}

/// Is the counter `k` below `limit` (always, without a limit)?
pub open spec fn below_limit(limit: Option<i32>, usage: Map<Seq<char>, i32>, k: Seq<char>) -> bool {
    match limit {
        Some(l) => used_of(usage, k) < l,
        None => true,
    }
}

/// The counters that applying the clause spends: its per-Encounter one,
/// then its per-turn one, each only where it has that limit.
pub open spec fn grant_keys(g: ClauseGate) -> Seq<Seq<char>> {
    (if g.per_encounter is Some {
        seq![encounter_key(g)]
    } else {
        Seq::empty()
    }) + (if g.per_turn is Some {
        seq![label_of(g)]
    } else {
        Seq::empty()
    })
}

pub open spec fn clamp_chance(c: i32) -> i32 {
    if c < 0 {
        0
    } else if c > 100 {
        100
    } else {
        c
    }
}

/// The chance flip of a clause: a flip at its (clamped) chance when it has
/// one, a sure success otherwise.
pub open spec fn chance_step(g: ClauseGate, d: DiceState) -> (bool, DiceState) {
    match g.chance {
        Some(c) => flip_step(d, clamp_chance(c)),
        None => (true, d),
    }
}

/// Does the clause apply, and the dice after it was decided.  An "after
/// Clash Lose" clause of a skill that did not lose is skipped before any
/// flip; otherwise the chance is flipped first, then both limits and the
/// condition must allow it.
pub open spec fn gate_outcome(
    g: ClauseGate,
    usage: Map<Seq<char>, i32>,
    clash_lost: bool,
    d: DiceState,
    actor: Unit,
    target: Option<Unit>,
    clash_count: i32,
    slot: u32,
) -> (bool, DiceState) {
    if g.only_after_clash_lose && !clash_lost {
        (false, d)
    } else {
        let (heads, d1) = chance_step(g, d);
        (heads && below_limit(g.per_encounter, usage, encounter_key(g)) && below_limit(
            g.per_turn,
            usage,
            label_of(g),
        ) && match g.condition {
            Some(c) => condition_met(c, actor, target, clash_count, slot),
            None => true,
        }, d1)
    }
}

/// Every counter of `ks` spent once more, in order.
pub open spec fn spent(usage: Map<Seq<char>, i32>, ks: Seq<Seq<char>>) -> Map<Seq<char>, i32>
    decreases ks.len(),
{
    if ks.len() == 0 {
        usage
    } else {
        let before = spent(usage, ks.drop_last());
        before.insert(ks.last(), (used_of(before, ks.last()) + 1) as i32)
    }
}

pub open spec fn texts_of(v: Seq<String>) -> Seq<Seq<char>> {
    Seq::new(v.len(), |i: int| v[i]@)
}

fn label(gate: &ClauseGate) -> (s: String)
    ensures
        s@ == label_of(*gate),
{
    match &gate.raw {
        Some(r) => r.clone(),
        None => gate.kind.clone(),
    }
}

fn used(usage: &StrMap<i32>, key: &str) -> (n: i32)
    requires
        usage.wf(),
    ensures
        n == used_of(usage@, key@),
{
    match usage.get(key) {
        Some(n) => *n,
        None => 0,
    }
}

/// Decide whether the clause `gate` applies, for a skill of `actor`
/// (against `target`) that did or did not lose its Clash; the chance flip
/// comes from `dice`.  When it applies, the counters it spends are returned
/// (see `grant_keys`); they are spent with `spend_allowance` once the
/// clause has resolved.
pub fn clause_opens(
    gate: &ClauseGate,
    usage: &StrMap<i32>,
    clash_lost: bool,
    dice: &mut Dice,
    actor: &Unit,
    target: Option<&Unit>,
    clash_count: i32,
    slot: u32,
) -> (r: Option<Vec<String>>)
    requires
        usage.wf(),
        actor.statuses.wf(),
        actor.resonance_of.wf(),
        target matches Some(t) ==> t.statuses.wf(),
        gate.chance is Some ==> uses_preset(old(dice)@) || can_draw(old(dice)@, 1),
    ensures
        (r is Some, final(dice)@) == gate_outcome(
            *gate,
            usage@,
            clash_lost,
            old(dice)@,
            *actor,
            opt_unit(target),
            clash_count,
            slot,
        ),
        r matches Some(ks) ==> texts_of(ks@) == grant_keys(*gate),
{
    if gate.only_after_clash_lose && !clash_lost {
        return None;
    }
    match gate.chance {
        Some(c) => {
            let percent = if c < 0 {
                0
            } else if c > 100 {
                100
            } else {
                c
            };
            if !dice.flip(percent) {
                return None;
            }
        },
        None => {},
    }
    let name = label(gate);
    let mut grants: Vec<String> = Vec::new();
    match gate.per_encounter {
        Some(limit) => {
            let mut key = String::new();
            key.append(ENCOUNTER_PREFIX);
            key.append(name.as_str());
            proof {
                reveal_strlit("encounter:");
            }
            assert(key@ =~= encounter_key(*gate));
            if used(usage, key.as_str()) >= limit {
                return None;
            }
            grants.push(key);
        },
        None => {},
    }
    match gate.per_turn {
        Some(limit) => {
            if used(usage, name.as_str()) >= limit {
                return None;
            }
            grants.push(name);
        },
        None => {},
    }
    let holds = match &gate.condition {
        Some(c) => condition_holds(c, actor, target, clash_count, slot),
        None => true,
    };
    if !holds {
        return None;
    }
    assert(texts_of(grants@) =~= grant_keys(*gate));
    Some(grants)
}

proof fn lemma_spent_bound(usage: Map<Seq<char>, i32>, ks: Seq<Seq<char>>, k: Seq<char>)
    requires
        forall|j: int| 0 <= j < ks.len() ==> used_of(usage, #[trigger] ks[j]) + ks.len() <= i32::MAX,
    ensures
        used_of(spent(usage, ks), k) <= used_of(usage, k) + ks.len(),
    decreases ks.len(),
{
    if ks.len() > 0 {
        let rest = ks.drop_last();
        assert forall|j: int| 0 <= j < rest.len() implies used_of(usage, #[trigger] rest[j]) + rest.len() <= i32::MAX by {
            assert(rest[j] == ks[j]);
        }
        lemma_spent_bound(usage, rest, k);
        lemma_spent_bound(usage, rest, ks.last());
        assert(used_of(usage, ks[ks.len() - 1]) + ks.len() <= i32::MAX);
    }
}

/// Spend each counter of `grants` once: what a clause that applied costs
/// its unit.
pub fn spend_allowance(usage: &mut StrMap<i32>, grants: &Vec<String>)
    requires
        old(usage).wf(),
        forall|i: int| 0 <= i < grants@.len() ==> used_of(old(usage)@, #[trigger] grants@[i]@) + grants@.len() <= i32::MAX,
    ensures
        final(usage).wf(),
        final(usage)@ == spent(old(usage)@, texts_of(grants@)),
{
    let ghost u0 = usage@;
    let ghost ks = texts_of(grants@);
    let mut i: usize = 0;
    while i < grants.len()
        invariant
            i <= grants@.len(),
            usage.wf(),
            ks == texts_of(grants@),
            usage@ == spent(u0, ks.take(i as int)),
            forall|j: int| 0 <= j < grants@.len() ==> used_of(u0, #[trigger] grants@[j]@) + grants@.len() <= i32::MAX,
        decreases grants.len() - i,
    {
        let key = grants[i].as_str();
        proof {
            let done = ks.take(i as int);
            assert forall|j: int| 0 <= j < done.len() implies used_of(u0, #[trigger] done[j]) + done.len() <= i32::MAX by {
                assert(done[j] == grants@[j]@);
            }
            lemma_spent_bound(u0, done, key@);
            assert(ks[i as int] == grants@[i as int]@);
        }
        let n = used(usage, key);
        usage.insert(key, n + 1);
        proof {
            assert(ks.take(i + 1).drop_last() =~= ks.take(i as int));
            assert(ks.take(i + 1).last() == key@);
        }
        i = i + 1;
    }
    assert(ks.take(grants@.len() as int) =~= ks);
}

/// Turn Start bookkeeping of one unit: per-turn counters are cleared (the
/// per-Encounter ones stay), and so are the hits it took, the Petals it
/// gained and the Segmentation heals it received this turn.
pub fn turn_bookkeeping(unit: &mut Unit)
    requires
        old(unit).turn_effect_usage.wf(),
    ensures
        final(unit).turn_effect_usage.wf(),
        final(unit).turn_effect_usage@ == Map::new(
            |k: Seq<char>| old(unit).turn_effect_usage@.contains_key(k) && "encounter:"@.is_prefix_of(k),
            |k: Seq<char>| old(unit).turn_effect_usage@[k],
        ),
        *final(unit) == (Unit {
            turn_effect_usage: final(unit).turn_effect_usage,
            hits_taken: 0,
            petals_gained: 0,
            segmentation_healed: final(unit).segmentation_healed,
            ..*old(unit)
        }),
        final(unit).segmentation_healed@.len() == 0,
{
    proof {
        reveal_strlit("encounter:");
    }
    unit.turn_effect_usage.keep_prefixed(ENCOUNTER_PREFIX);
    unit.hits_taken = 0;
    unit.petals_gained = 0;
    unit.segmentation_healed.clear();
}

/// A clause whose per-turn counter has reached its limit does not apply,
/// whatever else holds.
pub proof fn spent_clause_stays_shut(
    g: ClauseGate,
    usage: Map<Seq<char>, i32>,
    clash_lost: bool,
    d: DiceState,
    actor: Unit,
    target: Option<Unit>,
    clash_count: i32,
    slot: u32,
)
    requires
        g.per_turn matches Some(l) && used_of(usage, label_of(g)) >= l,
    ensures
        !gate_outcome(g, usage, clash_lost, d, actor, target, clash_count, slot).0,
{
}

/// Spending what an applied clause grants keeps its per-turn counter
/// within the limit: a clause limited to N times per turn applies at most N
/// times between two Turn Starts.
pub proof fn usage_never_passes_the_limit(
    g: ClauseGate,
    usage: Map<Seq<char>, i32>,
    clash_lost: bool,
    d: DiceState,
    actor: Unit,
    target: Option<Unit>,
    clash_count: i32,
    slot: u32,
)
    requires
        g.per_turn is Some,
        gate_outcome(g, usage, clash_lost, d, actor, target, clash_count, slot).0,
    ensures
        used_of(spent(usage, grant_keys(g)), label_of(g)) == used_of(usage, label_of(g)) + 1,
        g.per_turn matches Some(l) && used_of(spent(usage, grant_keys(g)), label_of(g)) <= l,
{
    let ks = grant_keys(g);
    let lab = label_of(g);
    let e = encounter_key(g);
    assert(e.len() == lab.len() + 10) by {
        reveal_strlit("encounter:");
    }
    if g.per_encounter is Some {
        assert(ks =~= seq![e, lab]);
        let first = seq![e];
        assert(ks.drop_last() =~= first);
        assert(first.drop_last() =~= Seq::<Seq<char>>::empty());
        let u1 = spent(usage, first);
        assert(u1 == spent(usage, Seq::<Seq<char>>::empty()).insert(e, (used_of(usage, e) + 1) as i32));
        assert(e != lab);
        assert(used_of(u1, lab) == used_of(usage, lab));
        assert(spent(usage, ks) == u1.insert(lab, (used_of(u1, lab) + 1) as i32));
    } else {
        assert(ks =~= seq![lab]);
        assert(ks.drop_last() =~= Seq::<Seq<char>>::empty());
        assert(ks.last() == lab);
        assert(spent(usage, Seq::<Seq<char>>::empty()) == usage);
        assert(spent(usage, ks) == usage.insert(lab, (used_of(usage, lab) + 1) as i32));
    }
}

} // verus!
