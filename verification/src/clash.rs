//! What a Clash's outcome and the end of an attack do to the unit that
//! used the Skill: the SP a Clash moves, the Skill's "[Clash Win]",
//! "[Clash Lose]" and "[Attack End]" clauses and whether "Reuse this Skill
//! if the target is killed" comes due.

use vstd::prelude::*;
use crate::allowance::texts_of;
use crate::clauses::{apply_effects, clause_trace, effects_applied, units_ready, Effect, UseContext};
use crate::dice::can_draw;
use crate::effects::EffectContext;
use crate::state::{Unit, UnknownRule};
use crate::text::same_text;
use crate::turn::BattleState;

verus! {

/// The warning left when the SP of a Clash is not configured.
pub open spec fn clash_sp_warning() -> Seq<char> {
    "SP gain/loss per clash is not documented for the current game version; configure BattleConfig::sp_on_clash_win / sp_on_clash_lose"@
}

/// `w` added to the warnings unless it is already there.
pub open spec fn warned_once(before: Seq<Seq<char>>, after: Seq<Seq<char>>, w: Seq<char>) -> bool {
    if before.contains(w) {
        after == before
    } else {
        after == before.push(w)
    }
}

/// The SP a Clash moves: `sp_delta` when it is configured (clamped like any
/// SP change), else a warning, given once.
pub open spec fn clash_sp_applied(s0: BattleState, s1: BattleState, k: int, sp_delta: Option<i32>) -> bool {
    match sp_delta {
        Some(v) => {
            &&& s1 == (BattleState { units: s1.units, ..s0 })
            &&& s1.units@ == s0.units@.update(k, Unit { sanity: s0.units@[k].sanity.moved(v as int), ..s0.units@[k] })
        },
        None => {
            &&& s1 == (BattleState { warnings: s1.warnings, ..s0 })
            &&& warned_once(texts_of(s0.warnings@), texts_of(s1.warnings@), clash_sp_warning())
        },
    }
}

/// Is "Reuse this Skill if the target is killed" due: the clause was met,
/// the target is dead, the user alive and the clause not used this turn.
pub open spec fn reuse_due(s: BattleState, k: int, target: Option<usize>, reuse_on_kill: bool) -> bool {
    &&& reuse_on_kill
    &&& target matches Some(t) && !s.units@[t as int].alive
    &&& s.units@[k].alive
    &&& (if s.units@[k].turn_effect_usage@.contains_key("reuse_on_kill"@) {
        s.units@[k].turn_effect_usage@["reuse_on_kill"@]
    } else {
        0
    }) < 1
}

fn has_text(v: &Vec<String>, t: &str) -> (b: bool)
    ensures
        b == texts_of(v@).contains(t@),
{
    let mut i: usize = 0;
    while i < v.len()
        invariant
            i <= v@.len(),
            forall|j: int| 0 <= j < i ==> v@[j]@ != t@,
        decreases v.len() - i,
    {
        if same_text(v[i].as_str(), t) {
            assert(texts_of(v@)[i as int] == t@);
            return true;
        }
        i = i + 1;
    }
    assert(!texts_of(v@).contains(t@)) by {
        if texts_of(v@).contains(t@) {
            let j = choose|j: int| 0 <= j < texts_of(v@).len() && texts_of(v@)[j] == t@;
            assert(v@[j]@ == t@);
        }
    }
    false
}

/// Unit `unit_index` after its Clash was won (`won`) or lost against
/// `target_index`: SP moves by `sp_delta` (or, without one, a warning is
/// given once), then `clauses` (its Skill's "[Clash Win]" or "[Clash
/// Lose]" list) resolve into the Skill's `use_ctx` with their notes kept
/// among the warnings.  Returns whether "Reuse this Skill if the target is
/// killed" came due; the clause is then marked used for the turn, and the
/// caller runs the Skill again.
pub fn apply_clash_result(
    state: &mut BattleState,
    unit_index: usize,
    target_index: Option<usize>,
    slot: u32,
    sp_delta: Option<i32>,
    clauses: &Vec<Effect>,
    use_ctx: &mut UseContext,
) -> (reuse: bool)
    requires
        unit_index < old(state).units@.len(),
        target_index matches Some(t) ==> t < old(state).units@.len(),
        units_ready(old(state).units@),
        can_draw(old(state).dice@, clauses@.len() as int),
    ensures
        exists|s1: BattleState, s2: BattleState, u2: UseContext, notes: Seq<Seq<char>>|
            #![trigger clash_sp_applied(*old(state), s1, unit_index as int, sp_delta), effects_applied(clauses@, unit_index, target_index, 0, false, slot, (s1, *old(use_ctx), Seq::<Seq<char>>::empty()), (s2, u2, notes))]
            {
                &&& clash_sp_applied(*old(state), s1, unit_index as int, sp_delta)
                &&& if clauses@.len() == 0 {
                    *final(state) == s1 && *final(use_ctx) == *old(use_ctx) && !reuse
                } else {
                    &&& effects_applied(
                        clauses@,
                        unit_index,
                        target_index,
                        0,
                        false,
                        slot,
                        (s1, *old(use_ctx), Seq::<Seq<char>>::empty()),
                        (s2, u2, notes),
                    )
                    &&& *final(use_ctx) == u2
                    &&& reuse == reuse_due(s2, unit_index as int, target_index, u2.reuse_on_kill)
                    &&& if reuse {
                        let u = s2.units@[unit_index as int];
                        &&& final(state).units@.len() == s2.units@.len()
                        &&& final(state).units@[unit_index as int].turn_effect_usage@
                            == u.turn_effect_usage@.insert("reuse_on_kill"@, 1)
                        &&& final(state).units@[unit_index as int] == (Unit {
                            turn_effect_usage: final(state).units@[unit_index as int].turn_effect_usage,
                            ..u
                        })
                        &&& forall|j: int|
                            0 <= j < s2.units@.len() && j != unit_index ==> final(state).units@[j] == s2.units@[j]
                        &&& *final(state) == (BattleState {
                            units: final(state).units,
                            warnings: final(state).warnings,
                            ..s2
                        })
                    } else {
                        *final(state) == (BattleState { warnings: final(state).warnings, ..s2 })
                    }
                    &&& texts_of(final(state).warnings@) == texts_of(s2.warnings@) + notes
                }
            },
        units_ready(final(state).units@),
{
    let ghost s0 = *state;
    clash_sp(state, unit_index, sp_delta);
    let ghost s1 = *state;
    let ghost c0 = *use_ctx;
    let mut ctx = EffectContext {
        actor_index: unit_index,
        target_index,
        clash_count: 0,
        clash_lost: false,
        slot,
        mechanics_note: Vec::new(),
    };
    let ghost empty = Seq::<Seq<char>>::empty();
    assert(texts_of(ctx.mechanics_note@) =~= empty);
    if clauses.len() == 0 {
        assert(clause_trace(clauses@, unit_index, target_index, 0, false, slot, (s1, c0, empty), seq![(s1, c0, empty)]));
        assert(effects_applied(clauses@, unit_index, target_index, 0, false, slot, (s1, c0, empty), (s1, c0, empty)));
        return false;
    }
    // The Skill's clauses for this outcome.
    apply_effects(state, clauses, &mut ctx, use_ctx);
    let ghost s2 = *state;
    let ghost notes = texts_of(ctx.mechanics_note@);
    assert(effects_applied(clauses@, unit_index, target_index, 0, false, slot, (s1, c0, empty), (s2, *use_ctx, notes)));
    let reuse = mark_reuse(state, unit_index, target_index, use_ctx.reuse_on_kill);
    let ghost w0 = state.warnings@;
    let ghost n0 = ctx.mechanics_note@;
    state.warnings.append(&mut ctx.mechanics_note);
    assert(texts_of(state.warnings@) =~= texts_of(w0) + texts_of(n0));
    reuse
}

/// SP for a Clash on unit `k` (see `clash_sp_applied`).
fn clash_sp(state: &mut BattleState, k: usize, sp_delta: Option<i32>)
    requires
        k < old(state).units@.len(),
        units_ready(old(state).units@),
    ensures
        clash_sp_applied(*old(state), *final(state), k as int, sp_delta),
        units_ready(final(state).units@),
{
    let ghost s0 = *state;
    match sp_delta {
        Some(v) => {
            let mut u = state.units.remove(k);
            u.sanity = u.sanity.add(v);
            state.units.insert(k, u);
            assert(state.units@ =~= s0.units@.update(
                k as int,
                Unit { sanity: s0.units@[k as int].sanity.moved(v as int), ..s0.units@[k as int] },
            ));
        },
        None => {
            let w = UnknownRule::SanityGainOnClash.text();
            if !has_text(&state.warnings, w) {
                let ghost w0 = state.warnings@;
                state.warnings.push(w.to_string());
                assert(texts_of(state.warnings@) =~= texts_of(w0).push(w@));
            }
        },
    }
    let ghost s1 = *state;
    assert(units_ready(s1.units@)) by {
        assert forall|j: int| 0 <= j < s1.units@.len() implies (#[trigger] s1.units@[j]).statuses.wf()
            && s1.units@[j].turn_effect_usage.wf() && s1.units@[j].resonance_of.wf() by {
            assert(s1.units@[j].statuses == s0.units@[j].statuses);
            assert(s1.units@[j].turn_effect_usage == s0.units@[j].turn_effect_usage);
            assert(s1.units@[j].resonance_of == s0.units@[j].resonance_of);
        }
    }
}

/// "Reuse this Skill if the target is killed": when due (see `reuse_due`)
/// it is marked used for the turn on unit `k`.
fn mark_reuse(state: &mut BattleState, k: usize, target: Option<usize>, reuse_on_kill: bool) -> (reuse: bool)
    requires
        k < old(state).units@.len(),
        target matches Some(t) ==> t < old(state).units@.len(),
        units_ready(old(state).units@),
    ensures
        reuse == reuse_due(*old(state), k as int, target, reuse_on_kill),
        reuse ==> {
            let u = old(state).units@[k as int];
            &&& final(state).units@.len() == old(state).units@.len()
            &&& final(state).units@[k as int].turn_effect_usage@ == u.turn_effect_usage@.insert("reuse_on_kill"@, 1)
            &&& final(state).units@[k as int] == (Unit {
                turn_effect_usage: final(state).units@[k as int].turn_effect_usage,
                ..u
            })
            &&& forall|j: int|
                0 <= j < old(state).units@.len() && j != k ==> final(state).units@[j] == old(state).units@[j]
            &&& *final(state) == (BattleState { units: final(state).units, ..*old(state) })
        },
        !reuse ==> *final(state) == *old(state),
        units_ready(final(state).units@),
{
    let ghost s2 = *state;
    let killed: bool = match target {
        Some(t) => !state.units[t].alive,
        None => false,
    };
    if !(reuse_on_kill && killed && state.units[k].alive) {
        return false;
    }
    let used: i32 = match state.units[k].turn_effect_usage.get("reuse_on_kill") {
        Some(n) => *n,
        None => 0,
    };
    if used >= 1 {
        return false;
    }
    let mut u = state.units.remove(k);
    let ghost ub = u;
    assert(ub == s2.units@[k as int]);
    u.turn_effect_usage.insert("reuse_on_kill", 1);
    state.units.insert(k, u);
    assert(state.units@ =~= s2.units@.update(k as int, u));
    assert(units_ready(state.units@)) by {
        assert forall|j: int| 0 <= j < state.units@.len() implies (#[trigger] state.units@[j]).statuses.wf()
            && state.units@[j].turn_effect_usage.wf() && state.units@[j].resonance_of.wf() by {
            if j != k as int {
                assert(state.units@[j] == s2.units@[j]);
            }
        }
    }
    true
}


/// The end of an attack by unit `unit_index` on `target_index`: the unit
/// records the Skill's `kills` (read by "[Attack End] If 1 or more targets
/// are killed"), then `clauses` (the Skill's "[Attack End]" list) resolve
/// into the Skill's `use_ctx` with their notes kept among the warnings.
/// Returns whether "Reuse this Skill if the target is killed" came due; the
/// clause is then marked used for the turn, and the caller runs the Skill
/// again.
pub fn apply_attack_end(
    state: &mut BattleState,
    unit_index: usize,
    target_index: Option<usize>,
    slot: u32,
    kills: i32,
    clauses: &Vec<Effect>,
    use_ctx: &mut UseContext,
) -> (reuse: bool)
    requires
        unit_index < old(state).units@.len(),
        target_index matches Some(t) ==> t < old(state).units@.len(),
        units_ready(old(state).units@),
        can_draw(old(state).dice@, clauses@.len() as int),
    ensures
        exists|s1: BattleState, s2: BattleState, u2: UseContext, notes: Seq<Seq<char>>|
            #![trigger kills_recorded(*old(state), s1, unit_index as int, kills), effects_applied(clauses@, unit_index, target_index, 0, false, slot, (s1, *old(use_ctx), Seq::<Seq<char>>::empty()), (s2, u2, notes))]
            {
                &&& kills_recorded(*old(state), s1, unit_index as int, kills)
                &&& if clauses@.len() == 0 {
                    *final(state) == s1 && *final(use_ctx) == *old(use_ctx) && !reuse
                } else {
                    &&& effects_applied(
                        clauses@,
                        unit_index,
                        target_index,
                        0,
                        false,
                        slot,
                        (s1, *old(use_ctx), Seq::<Seq<char>>::empty()),
                        (s2, u2, notes),
                    )
                    &&& *final(use_ctx) == u2
                    &&& reuse == reuse_due(s2, unit_index as int, target_index, u2.reuse_on_kill)
                    &&& if reuse {
                        let u = s2.units@[unit_index as int];
                        &&& final(state).units@.len() == s2.units@.len()
                        &&& final(state).units@[unit_index as int].turn_effect_usage@
                            == u.turn_effect_usage@.insert("reuse_on_kill"@, 1)
                        &&& final(state).units@[unit_index as int] == (Unit {
                            turn_effect_usage: final(state).units@[unit_index as int].turn_effect_usage,
                            ..u
                        })
                        &&& forall|j: int|
                            0 <= j < s2.units@.len() && j != unit_index ==> final(state).units@[j] == s2.units@[j]
                        &&& *final(state) == (BattleState {
                            units: final(state).units,
                            warnings: final(state).warnings,
                            ..s2
                        })
                    } else {
                        *final(state) == (BattleState { warnings: final(state).warnings, ..s2 })
                    }
                    &&& texts_of(final(state).warnings@) == texts_of(s2.warnings@) + notes
                }
            },
        units_ready(final(state).units@),
{
    record_kills(state, unit_index, kills);
    let ghost s1 = *state;
    let ghost c0 = *use_ctx;
    let mut ctx = EffectContext {
        actor_index: unit_index,
        target_index,
        clash_count: 0,
        clash_lost: false,
        slot,
        mechanics_note: Vec::new(),
    };
    let ghost empty = Seq::<Seq<char>>::empty();
    assert(texts_of(ctx.mechanics_note@) =~= empty);
    if clauses.len() == 0 {
        assert(clause_trace(clauses@, unit_index, target_index, 0, false, slot, (s1, c0, empty), seq![(s1, c0, empty)]));
        assert(effects_applied(clauses@, unit_index, target_index, 0, false, slot, (s1, c0, empty), (s1, c0, empty)));
        return false;
    }
    apply_effects(state, clauses, &mut ctx, use_ctx);
    let ghost s2 = *state;
    let ghost notes = texts_of(ctx.mechanics_note@);
    assert(effects_applied(clauses@, unit_index, target_index, 0, false, slot, (s1, c0, empty), (s2, *use_ctx, notes)));
    let reuse = mark_reuse(state, unit_index, target_index, use_ctx.reuse_on_kill);
    let ghost w0 = state.warnings@;
    let ghost n0 = ctx.mechanics_note@;
    state.warnings.append(&mut ctx.mechanics_note);
    assert(texts_of(state.warnings@) =~= texts_of(w0) + texts_of(n0));
    reuse
}

/// Unit `k` records the Skill's kills; nothing else changes.
pub open spec fn kills_recorded(s0: BattleState, s1: BattleState, k: int, kills: i32) -> bool {
    &&& s1 == (BattleState { units: s1.units, ..s0 })
    &&& s1.units@ == s0.units@.update(k, Unit { skill_kills: kills, ..s0.units@[k] })
}


fn record_kills(state: &mut BattleState, k: usize, kills: i32)
    requires
        k < old(state).units@.len(),
        units_ready(old(state).units@),
    ensures
        kills_recorded(*old(state), *final(state), k as int, kills),
        units_ready(final(state).units@),
{
    let ghost s0 = *state;
    let mut u = state.units.remove(k);
    u.skill_kills = kills;
    state.units.insert(k, u);
    assert(state.units@ =~= s0.units@.update(k as int, Unit { skill_kills: kills, ..s0.units@[k as int] }));
    let ghost s1 = *state;
    assert(units_ready(s1.units@)) by {
        assert forall|j: int| 0 <= j < s1.units@.len() implies (#[trigger] s1.units@[j]).statuses.wf()
            && s1.units@[j].turn_effect_usage.wf() && s1.units@[j].resonance_of.wf() by {
            assert(s1.units@[j].statuses == s0.units@[j].statuses);
            assert(s1.units@[j].turn_effect_usage == s0.units@[j].turn_effect_usage);
            assert(s1.units@[j].resonance_of == s0.units@[j].resonance_of);
        }
    }
}

} // verus!
