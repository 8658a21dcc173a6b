//! The battle state and the opening of a turn: the turn counter moves on,
//! queued statuses arrive, Shields lapse, Speeds are rolled, the panel
//! grows by one Skill Slot and is refilled, the per-turn counters start
//! over and every unit's Sanity state is decided.

use vstd::prelude::*;
use crate::allowance::turn_bookkeeping;
use crate::dice::Dice;
use crate::ids::UnitId;
use crate::keyed::StrMap;
use crate::panel::{deck_of, deck_room, refill_panel, refill_view, rng_of, slot_views, DeckView, RngView};
use crate::setup::empty_skill;
use crate::state::{status_of, CampaignState, DashboardSlot, Phase, SlotView, StatusInstance, SubmittedAction, Unit, Winner};
use crate::upkeep::{burnt, recovered, turn_end_upkeep, upkept_statuses, TickRule};
use crate::units::{combat_end_sp_loss, sp_loss_total, sp_losses_after, turn_outcome, victory_check};
use crate::turn_open::{open_unit_turns, queue_applied, queue_fits, roll_speeds, speed_fits_in, speeds_rolled, units_opened};
use crate::units::{arm_panic_recovery, sanity_at_turn_start, sanity_turn_start};

verus! {

/// Everything a battle holds between two calls.
pub struct BattleState {
    pub seed: u64,
    /// The battle's RNG, with the flips fixed in advance.
    pub dice: Dice,
    pub turn: u32,
    pub phase: Phase,
    pub units: Vec<Unit>,
    /// Deployment order (Sinners are deployed first).
    pub deployment: Vec<UnitId>,
    pub actions: Vec<SubmittedAction>,
    /// Slots whose Skill was replaced by a defense Skill this turn.
    pub defense_slots_used: Vec<(usize, u32)>,
    pub ego_resources: StrMap<i32>,
    /// Clashes fought between two units, keyed by `power::clash_key`.
    pub clash_counts: StrMap<i32>,
    pub warnings: Vec<String>,
    pub winner: Option<Winner>,
    /// Set when a skill with "End the Encounter" resolved.
    pub encounter_ended: bool,
    /// Total Skill Slots the encounter grows towards.
    pub slot_target: usize,
    /// Bookkeeping shared by the stations of the campaign.
    pub campaign: CampaignState,
}

/// The Skill Slots the Sinners hold in all.
pub open spec fn sinner_slots(us: Seq<Unit>) -> int
    decreases us.len(),
{
    if us.len() == 0 {
        0
    } else {
        sinner_slots(us.drop_last()) + if us.last().kind is Sinner {
            us.last().dashboard@.len() as int
        } else {
            0
        }
    }
}

/// The first living Sinner among the first `n` units with the fewest Skill
/// Slots.
pub open spec fn fewest_slots(us: Seq<Unit>, n: int) -> Option<int>
    decreases n,
{
    if n <= 0 {
        None
    } else {
        let b = fewest_slots(us, n - 1);
        let u = us[n - 1];
        if u.alive && u.kind is Sinner && (b is None || u.dashboard@.len() < us[b->0].dashboard@.len()) {
            Some(n - 1)
        } else {
            b
        }
    }
}

/// Which unit gains a Skill Slot: while the Sinners hold fewer than
/// `target` slots in all, the living Sinner with the fewest (the first of
/// them), if it holds fewer than `target` itself.
pub open spec fn grant_pick(us: Seq<Unit>, target: usize) -> Option<int> {
    if sinner_slots(us) < target {
        match fewest_slots(us, us.len() as int) {
            Some(b) => if us[b].dashboard@.len() < target {
                Some(b)
            } else {
                None
            },
            None => None,
        }
    } else {
        None
    }
}

/// A new, empty Skill Slot numbered `n`.
pub open spec fn empty_slot_view(n: u32) -> SlotView {
    SlotView {
        slot: n,
        current: Seq::empty(),
        next: Seq::empty(),
        preview: Seq::empty(),
        target: None,
        converted: false,
        replaced: None,
    }
}

/// `after` is `before` with an empty Skill Slot added at the end of its
/// panel, numbered by the panel's former length (as the `u32` it is
/// written to).
pub open spec fn slot_added(before: Unit, after: Unit) -> bool {
    &&& slot_views(after.dashboard@) == slot_views(before.dashboard@).push(
        empty_slot_view(before.dashboard@.len() as u32),
    )
    &&& after == (Unit { dashboard: after.dashboard, ..before })
}

/// `after` is `before` once the extra Skill Slot of the turn was granted
/// (see `grant_pick`).
pub open spec fn slot_granted(before: Seq<Unit>, target: usize, after: Seq<Unit>) -> bool {
    &&& after.len() == before.len()
    &&& match grant_pick(before, target) {
        Some(b) => slot_added(before[b], after[b]) && forall|k: int|
            0 <= k < before.len() && k != b ==> #[trigger] after[k] == before[k],
        None => after == before,
    }
}

proof fn lemma_fewest_slots(us: Seq<Unit>, n: int)
    requires
        n <= us.len(),
    ensures
        fewest_slots(us, n) matches Some(b) ==> 0 <= b < n && us[b].alive && us[b].kind is Sinner,
    decreases n,
{
    if n > 0 {
        lemma_fewest_slots(us, n - 1);
    }
}


/// A living Sinner.
pub open spec fn living_sinner(u: Unit) -> bool {
    u.alive && u.kind is Sinner
}

/// Among the first `n` units, the pick is a living Sinner that holds no more
/// Skill Slots than any living Sinner, and every living Sinner before it
/// holds strictly more; there is no pick only when none of them is a living
/// Sinner.
pub proof fn fewest_slots_is_the_first_fewest(us: Seq<Unit>, n: int)
    requires
        0 <= n <= us.len(),
    ensures
        fewest_slots(us, n) matches Some(b) ==> {
            &&& 0 <= b < n
            &&& living_sinner(us[b])
            &&& forall|j: int| 0 <= j < n && #[trigger] living_sinner(us[j]) ==> us[b].dashboard@.len() <= us[j].dashboard@.len()
            &&& forall|j: int| 0 <= j < b && #[trigger] living_sinner(us[j]) ==> us[j].dashboard@.len() > us[b].dashboard@.len()
        },
        fewest_slots(us, n) is None ==> forall|j: int| 0 <= j < n ==> !#[trigger] living_sinner(us[j]),
    decreases n,
{
    if n > 0 {
        fewest_slots_is_the_first_fewest(us, n - 1);
    }
}

/// The turn's extra Skill Slot: a unit that changed is a living Sinner that
/// gained exactly one Skill Slot, holds no more Skill Slots than any living
/// Sinner did, and every living Sinner before it held strictly more; no
/// other unit changed.  While the Sinners hold fewer than `target` Skill
/// Slots in all and some living Sinner holds fewer than `target` itself,
/// one unit gains a Skill Slot; once they hold `target`, nothing changes.
pub proof fn extra_slot_goes_to_the_fewest(before: Seq<Unit>, target: usize, after: Seq<Unit>)
    requires
        slot_granted(before, target, after),
    ensures
        after.len() == before.len(),
        forall|b: int| 0 <= b < before.len() && #[trigger] after[b] != before[b] ==> {
            &&& living_sinner(before[b])
            &&& after[b].dashboard@.len() == before[b].dashboard@.len() + 1
            &&& forall|j: int| 0 <= j < before.len() && #[trigger] living_sinner(before[j]) ==> before[b].dashboard@.len() <= before[j].dashboard@.len()
            &&& forall|j: int| 0 <= j < b && #[trigger] living_sinner(before[j]) ==> before[j].dashboard@.len() > before[b].dashboard@.len()
            &&& forall|k: int| 0 <= k < before.len() && k != b ==> after[k] == before[k]
        },
        sinner_slots(before) >= target ==> after == before,
        sinner_slots(before) < target && (exists|j: int|
            0 <= j < before.len() && #[trigger] living_sinner(before[j]) && before[j].dashboard@.len() < target)
            ==> exists|b: int| 0 <= b < before.len() && #[trigger] after[b].dashboard@.len() == before[b].dashboard@.len() + 1,
{
    fewest_slots_is_the_first_fewest(before, before.len() as int);
    match grant_pick(before, target) {
        Some(b) => {
            assert(slot_views(after[b].dashboard@).len() == after[b].dashboard@.len());
            assert(slot_views(before[b].dashboard@).len() == before[b].dashboard@.len());
            assert(after[b].dashboard@.len() == before[b].dashboard@.len() + 1);
            assert forall|c: int| 0 <= c < before.len() && #[trigger] after[c] != before[c] implies c == b by {
                if c != b {
                    assert(after[c] == before[c]);
                }
            }
        },
        None => {
            if sinner_slots(before) < target {
                if exists|j: int|
                    0 <= j < before.len() && #[trigger] living_sinner(before[j]) && before[j].dashboard@.len() < target {
                    let j = choose|j: int|
                        0 <= j < before.len() && #[trigger] living_sinner(before[j]) && before[j].dashboard@.len() < target;
                    assert(living_sinner(before[j]));
                }
            }
        },
    }
}

/// From turn 2 on, the living Sinner with the fewest Skill Slots gains one
/// (see `grant_pick`), until the Sinners hold `slot_target` in all.
pub fn grant_extra_slot(units: &mut Vec<Unit>, slot_target: usize)
    requires
        sinner_slots(old(units)@) <= usize::MAX,
    ensures
        slot_granted(old(units)@, slot_target, final(units)@),
        forall|b: int| 0 <= b < old(units)@.len() && #[trigger] final(units)@[b] != old(units)@[b] ==> {
            &&& living_sinner(old(units)@[b])
            &&& final(units)@[b].dashboard@.len() == old(units)@[b].dashboard@.len() + 1
            &&& forall|j: int| 0 <= j < old(units)@.len() && #[trigger] living_sinner(old(units)@[j])
                ==> old(units)@[b].dashboard@.len() <= old(units)@[j].dashboard@.len()
            &&& forall|j: int| 0 <= j < b && #[trigger] living_sinner(old(units)@[j])
                ==> old(units)@[j].dashboard@.len() > old(units)@[b].dashboard@.len()
        },
{
    let ghost u0 = units@;
    let mut current: usize = 0;
    let mut best: Option<usize> = None;
    let mut i: usize = 0;
    while i < units.len()
        invariant
            i <= units@.len(),
            units@ == u0,
            sinner_slots(u0) <= usize::MAX,
            current == sinner_slots(u0.take(i as int)),
            best matches Some(b) ==> fewest_slots(u0, i as int) == Some(b as int) && b < i,
            best is None ==> fewest_slots(u0, i as int) is None,
        decreases units.len() - i,
    {
        proof {
            assert(u0.take(i + 1).drop_last() =~= u0.take(i as int));
            assert(u0.take(i + 1).last() == u0[i as int]);
            lemma_sinner_slots_prefix(u0, i as int + 1);
        }
        let u = &units[i];
        let is_sinner = match u.kind {
            crate::state::UnitKind::Sinner { .. } => true,
            _ => false,
        };
        if is_sinner {
            current = current + u.dashboard.len();
        }
        if u.alive && is_sinner {
            let better = match best {
                None => true,
                Some(b) => u.dashboard.len() < units[b].dashboard.len(),
            };
            if better {
                best = Some(i);
            }
        }
        i = i + 1;
    }
    proof {
        assert(u0.take(u0.len() as int) =~= u0);
        lemma_fewest_slots(u0, u0.len() as int);
    }
    if current < slot_target {
        match best {
            Some(b) => {
                if units[b].dashboard.len() < slot_target {
                    let mut u = units.remove(b);
                    #[verifier::truncate]
                    let number = u.dashboard.len() as u32;
                    let ghost before = u;
                    u.dashboard.push(DashboardSlot::new(number, empty_skill(), empty_skill(), empty_skill()));
                    assert(slot_views(u.dashboard@) =~= slot_views(before.dashboard@).push(empty_slot_view(number)));
                    units.insert(b, u);
                    assert(units@ =~= u0.update(b as int, u));
                }
            },
            None => {},
        }
    }
    proof {
        extra_slot_goes_to_the_fewest(u0, slot_target, units@);
    }
}

proof fn lemma_sinner_slots_prefix(us: Seq<Unit>, n: int)
    requires
        0 <= n <= us.len(),
    ensures
        sinner_slots(us.take(n)) <= sinner_slots(us),
        forall|k: int| 0 <= k < us.len() ==> sinner_slots(#[trigger] us.take(k)) >= 0,
    decreases us.len(),
{
    lemma_sinner_slots_nonneg(us);
    if us.len() > 0 && n < us.len() {
        lemma_sinner_slots_prefix(us.drop_last(), n);
        assert(us.drop_last().take(n) =~= us.take(n));
    } else if n == us.len() {
        assert(us.take(n) =~= us);
    }
    assert forall|k: int| 0 <= k < us.len() implies sinner_slots(#[trigger] us.take(k)) >= 0 by {
        lemma_sinner_slots_nonneg(us.take(k));
    }
}

proof fn lemma_sinner_slots_nonneg(us: Seq<Unit>)
    ensures
        sinner_slots(us) >= 0,
    decreases us.len(),
{
    if us.len() > 0 {
        lemma_sinner_slots_nonneg(us.drop_last());
    }
}

/// The panels and decks after the Sinners' panels were refilled in order
/// (see `refill_view`), and the RNG after it; other units keep theirs.
pub open spec fn refill_all(us: Seq<Unit>, g: RngView) -> (Seq<(Seq<SlotView>, DeckView)>, RngView)
    decreases us.len(),
{
    if us.len() == 0 {
        (Seq::empty(), g)
    } else {
        let (ps, g1) = refill_all(us.drop_last(), g);
        let u = us.last();
        if u.kind is Sinner {
            let (sv, d, g2) = refill_view(slot_views(u.dashboard@), deck_of(u.deck), g1, u.dashboard@.len());
            (ps.push((sv, d)), g2)
        } else {
            (ps.push((slot_views(u.dashboard@), deck_of(u.deck))), g1)
        }
    }
}

/// `after` (and the RNG `g1`) is `before` (from `g0`) once every Sinner's
/// panel was refilled; only panels and decks change.
pub open spec fn panels_refilled(before: Seq<Unit>, g0: RngView, after: Seq<Unit>, g1: RngView) -> bool {
    let (ps, g) = refill_all(before, g0);
    &&& after.len() == before.len()
    &&& g1 == g
    &&& forall|k: int|
        0 <= k < before.len() ==> {
            &&& slot_views((#[trigger] after[k]).dashboard@) == ps[k].0
            &&& deck_of(after[k].deck) == ps[k].1
            &&& after[k] == (Unit { dashboard: after[k].dashboard, deck: after[k].deck, ..before[k] })
        }
}

proof fn lemma_refill_all(us: Seq<Unit>, g: RngView)
    ensures
        refill_all(us, g).0.len() == us.len(),
    decreases us.len(),
{
    if us.len() > 0 {
        lemma_refill_all(us.drop_last(), g);
    }
}

/// Every Sinner's panel is refilled, in order (see `refill_all`).
#[verifier::rlimit(40)]
pub fn refill_panels(units: &mut Vec<Unit>, rng: &mut crate::rng::Rng)
    requires
        forall|k: int|
            0 <= k < old(units)@.len() && (#[trigger] old(units)@[k]).kind is Sinner ==> deck_room(
                deck_of(old(units)@[k].deck),
                3 * old(units)@[k].dashboard@.len(),
            ),
        old(rng).draws() + 3 * sinner_slots(old(units)@) < u64::MAX,
    ensures
        panels_refilled(old(units)@, rng_of(*old(rng)), final(units)@, rng_of(*final(rng))),
        final(rng).draws() <= old(rng).draws() + 3 * sinner_slots(old(units)@),
{
    let ghost u0 = units@;
    let ghost g0 = rng_of(*rng);
    let mut i: usize = 0;
    proof {
        lemma_sinner_slots_prefix(u0, 0);
        assert(u0.take(0) =~= Seq::<Unit>::empty());
    }
    while i < units.len()
        invariant
            i <= units@.len(),
            units@.len() == u0.len(),
            forall|k: int| i <= k < u0.len() ==> #[trigger] units@[k] == u0[k],
            forall|k: int|
                0 <= k < u0.len() && (#[trigger] u0[k]).kind is Sinner ==> deck_room(
                    deck_of(u0[k].deck),
                    3 * u0[k].dashboard@.len(),
                ),
            g0.draws + 3 * sinner_slots(u0) < u64::MAX,
            rng.draws() <= g0.draws + 3 * sinner_slots(u0.take(i as int)),
            sinner_slots(u0.take(i as int)) <= sinner_slots(u0),
            ({
                let (ps, g) = refill_all(u0.take(i as int), g0);
                &&& rng_of(*rng) == g
                &&& forall|k: int|
                    0 <= k < i ==> {
                        &&& slot_views((#[trigger] units@[k]).dashboard@) == ps[k].0
                        &&& deck_of(units@[k].deck) == ps[k].1
                        &&& units@[k] == (Unit { dashboard: units@[k].dashboard, deck: units@[k].deck, ..u0[k] })
                    }
            }),
        decreases u0.len() - i,
    {
        proof {
            assert(u0.take(i + 1).drop_last() =~= u0.take(i as int));
            assert(u0.take(i + 1).last() == u0[i as int]);
            lemma_sinner_slots_prefix(u0, i + 1);
            lemma_refill_all(u0.take(i as int), g0);
        }
        let ghost before_units = units@;
        let mut u = units.remove(i);
        proof {
            assert(u == u0[i as int]);
        }
        let is_sinner = match u.kind {
            crate::state::UnitKind::Sinner { .. } => true,
            _ => false,
        };
        if is_sinner {
            refill_panel(&mut u, rng);
        }
        units.insert(i, u);
        proof {
            let (ps, g) = refill_all(u0.take(i as int), g0);
            let (ps2, g2) = refill_all(u0.take(i + 1), g0);
            assert(ps2 == ps.push((slot_views(u.dashboard@), deck_of(u.deck))));
            assert forall|k: int| 0 <= k < i + 1 implies {
                &&& slot_views((#[trigger] units@[k]).dashboard@) == ps2[k].0
                &&& deck_of(units@[k].deck) == ps2[k].1
                &&& units@[k] == (Unit { dashboard: units@[k].dashboard, deck: units@[k].deck, ..u0[k] })
            } by {
                if k < i {
                    assert(units@[k] == before_units[k]);
                    assert(ps2[k] == ps[k]);
                }
            }
        }
        i = i + 1;
    }
    proof {
        assert(u0.take(u0.len() as int) =~= u0);
    }
}

/// `after` is `before` once every unit's per-turn bookkeeping was reset
/// (see `allowance::turn_bookkeeping`).
pub open spec fn units_bookkept(before: Seq<Unit>, after: Seq<Unit>) -> bool {
    &&& after.len() == before.len()
    &&& forall|k: int|
        0 <= k < before.len() ==> {
            &&& (#[trigger] after[k]).turn_effect_usage.wf()
            &&& after[k].turn_effect_usage@ == Map::new(
                |key: Seq<char>| before[k].turn_effect_usage@.contains_key(key) && "encounter:"@.is_prefix_of(key),
                |key: Seq<char>| before[k].turn_effect_usage@[key],
            )
            &&& after[k].segmentation_healed@.len() == 0
            &&& after[k] == (Unit {
                turn_effect_usage: after[k].turn_effect_usage,
                hits_taken: 0,
                petals_gained: 0,
                segmentation_healed: after[k].segmentation_healed,
                ..before[k]
            })
        }
}

/// Reset every unit's per-turn bookkeeping.
pub fn bookkeep_units(units: &mut Vec<Unit>)
    requires
        forall|k: int| 0 <= k < old(units)@.len() ==> (#[trigger] old(units)@[k]).turn_effect_usage.wf(),
    ensures
        units_bookkept(old(units)@, final(units)@),
{
    let ghost u0 = units@;
    let mut i: usize = 0;
    while i < units.len()
        invariant
            i <= units@.len(),
            units@.len() == u0.len(),
            forall|k: int| i <= k < u0.len() ==> #[trigger] units@[k] == u0[k],
            forall|k: int| 0 <= k < u0.len() ==> (#[trigger] u0[k]).turn_effect_usage.wf(),
            forall|k: int|
                0 <= k < i ==> {
                    &&& (#[trigger] units@[k]).turn_effect_usage.wf()
                    &&& units@[k].turn_effect_usage@ == Map::new(
                        |key: Seq<char>| u0[k].turn_effect_usage@.contains_key(key) && "encounter:"@.is_prefix_of(key),
                        |key: Seq<char>| u0[k].turn_effect_usage@[key],
                    )
                    &&& units@[k].segmentation_healed@.len() == 0
                    &&& units@[k] == (Unit {
                        turn_effect_usage: units@[k].turn_effect_usage,
                        hits_taken: 0,
                        petals_gained: 0,
                        segmentation_healed: units@[k].segmentation_healed,
                        ..u0[k]
                    })
                },
        decreases u0.len() - i,
    {
        let mut u = units.remove(i);
        proof {
            assert(u == u0[i as int]);
        }
        turn_bookkeeping(&mut u);
        units.insert(i, u);
        i = i + 1;
    }
}

/// `after` is `before` once every unit's Sanity state for the turn was
/// decided (see `units::sanity_turn_start`); a Sinner that Panics arms its
/// recovery and starts its per-turn counters over.
pub open spec fn sanity_started(before: Seq<Unit>, after: Seq<Unit>) -> bool {
    &&& after.len() == before.len()
    &&& forall|k: int|
        0 <= k < before.len() ==> {
            let u = before[k];
            let (s, low, pan, cor, rec) = sanity_at_turn_start(u);
            let decided = Unit { sanity: s, low_morale: low, panicked: pan, corroded: cor, panic_recovering: rec, ..u };
            if !u.alive {
                #[trigger] after[k] == u
            } else if u.kind is Sinner && pan {
                &&& after[k].turn_effect_usage.wf()
                &&& after[k].turn_effect_usage@ == Map::<Seq<char>, i32>::empty()
                &&& after[k] == (Unit {
                    panic_recovering: true,
                    turn_effect_usage: after[k].turn_effect_usage,
                    ..decided
                })
            } else {
                after[k] == decided
            }
        }
}

/// Decide every unit's Sanity state for the turn.
pub fn start_sanity_states(units: &mut Vec<Unit>)
    ensures
        sanity_started(old(units)@, final(units)@),
{
    let ghost u0 = units@;
    let mut i: usize = 0;
    while i < units.len()
        invariant
            i <= units@.len(),
            units@.len() == u0.len(),
            forall|k: int| i <= k < u0.len() ==> #[trigger] units@[k] == u0[k],
            sanity_started(u0.take(i as int), units@.take(i as int)),
        decreases u0.len() - i,
    {
        let mut u = units.remove(i);
        proof {
            assert(u == u0[i as int]);
        }
        let ghost u_old = u;
        let panicked = sanity_turn_start(&mut u);
        match panicked {
            Some(true) => arm_panic_recovery(&mut u),
            _ => {},
        }
        units.insert(i, u);
        proof {
            assert forall|k: int| 0 <= k < i + 1 implies ({
                let u = u0.take(i + 1)[k];
                let (s, low, pan, cor, rec) = sanity_at_turn_start(u);
                let decided = Unit { sanity: s, low_morale: low, panicked: pan, corroded: cor, panic_recovering: rec, ..u };
                if !u.alive {
                    #[trigger] units@.take(i + 1)[k] == u
                } else if u.kind is Sinner && pan {
                    &&& units@.take(i + 1)[k].turn_effect_usage.wf()
                    &&& units@.take(i + 1)[k].turn_effect_usage@ == Map::<Seq<char>, i32>::empty()
                    &&& units@.take(i + 1)[k] == (Unit {
                        panic_recovering: true,
                        turn_effect_usage: units@.take(i + 1)[k].turn_effect_usage,
                        ..decided
                    })
                } else {
                    units@.take(i + 1)[k] == decided
                }
            }) by {
                if k < i {
                    assert(u0.take(i + 1)[k] == u0.take(i as int)[k]);
                    assert(units@.take(i + 1)[k] == units@.take(i as int)[k]);
                } else {
                    assert(u0.take(i + 1)[k] == u_old);
                    assert(units@.take(i + 1)[k] == u);
                }
            }
        }
        i = i + 1;
    }
    proof {
        assert(u0.take(u0.len() as int) =~= u0);
        assert(units@.take(u0.len() as int) =~= units@);
    }
}

proof fn lemma_speeds_rolled_frame(us: Seq<Unit>, w: [u64; 4])
    ensures
        speeds_rolled(us, w).0.len() == us.len(),
        speeds_rolled(us, w).2 <= us.len(),
        forall|k: int|
            0 <= k < us.len() ==> #[trigger] speeds_rolled(us, w).0[k] == (Unit {
                speed: speeds_rolled(us, w).0[k].speed,
                ..us[k]
            }),
    decreases us.len(),
{
    if us.len() > 0 {
        lemma_speeds_rolled_frame(us.drop_last(), w);
        let front = speeds_rolled(us.drop_last(), w).0;
        assert forall|k: int| 0 <= k < us.len() implies #[trigger] speeds_rolled(us, w).0[k] == (Unit {
            speed: speeds_rolled(us, w).0[k].speed,
            ..us[k]
        }) by {
            if k < us.len() - 1 {
                assert(speeds_rolled(us, w).0[k] == front[k]);
                assert(us.drop_last()[k] == us[k]);
            }
        }
    }
}

/// Units with the same kinds and panel sizes hold the same number of slots.
proof fn lemma_same_slots(a: Seq<Unit>, b: Seq<Unit>)
    requires
        a.len() == b.len(),
        forall|k: int|
            0 <= k < a.len() ==> (#[trigger] a[k]).kind == b[k].kind && a[k].dashboard@.len() == b[k].dashboard@.len(),
    ensures
        sinner_slots(a) == sinner_slots(b),
    decreases a.len(),
{
    if a.len() > 0 {
        assert forall|k: int| 0 <= k < a.len() - 1 implies (#[trigger] a.drop_last()[k]).kind == b.drop_last()[k].kind
            && a.drop_last()[k].dashboard@.len() == b.drop_last()[k].dashboard@.len() by {
            assert(a.drop_last()[k] == a[k]);
            assert(b.drop_last()[k] == b[k]);
        }
        lemma_same_slots(a.drop_last(), b.drop_last());
        assert(a[a.len() - 1].kind == b[b.len() - 1].kind);
    }
}

/// One more slot on one unit adds at most one to the total.
proof fn lemma_one_more_slot(a: Seq<Unit>, b: Seq<Unit>, j: int)
    requires
        a.len() == b.len(),
        0 <= j < a.len(),
        b[j].kind == a[j].kind,
        b[j].dashboard@.len() == a[j].dashboard@.len() + 1,
        forall|k: int| 0 <= k < a.len() && k != j ==> #[trigger] b[k] == a[k],
    ensures
        sinner_slots(b) <= sinner_slots(a) + 1,
    decreases a.len(),
{
    if j == a.len() - 1 {
        assert forall|k: int| 0 <= k < a.len() - 1 implies (#[trigger] a.drop_last()[k]).kind == b.drop_last()[k].kind
            && a.drop_last()[k].dashboard@.len() == b.drop_last()[k].dashboard@.len() by {
            assert(a.drop_last()[k] == a[k]);
            assert(b.drop_last()[k] == b[k]);
        }
        lemma_same_slots(a.drop_last(), b.drop_last());
    } else {
        assert forall|k: int| 0 <= k < a.len() - 1 && k != j implies #[trigger] b.drop_last()[k] == a.drop_last()[k] by {
            assert(a.drop_last()[k] == a[k]);
            assert(b.drop_last()[k] == b[k]);
        }
        assert(b.drop_last()[j] == b[j]);
        assert(a.drop_last()[j] == a[j]);
        lemma_one_more_slot(a.drop_last(), b.drop_last(), j);
        assert(b.last() == a.last());
    }
}

proof fn lemma_room_less(d: DeckView, n: nat, m: nat)
    requires
        deck_room(d, n),
        m <= n,
    ensures
        deck_room(d, m),
{
}

/// What a unit needs for a turn to open: well-formed tables, queued
/// statuses that fit, a Speed roll that fits once they arrived, and room
/// in its deck to refill a panel one slot larger than its own.
pub open spec fn ready_to_open(u: Unit) -> bool {
    &&& u.statuses.wf()
    &&& queue_fits(u.statuses@, u.pending_next_turn@)
    &&& u.turn_effect_usage.wf()
    &&& u.alive ==> speed_fits_in(u.speed_range, queue_applied(u.statuses@, u.pending_next_turn@))
    &&& u.kind is Sinner ==> deck_room(deck_of(u.deck), 3 * (u.dashboard@.len() + 1))
}

/// `after` is `before` once a turn opened (see `begin_turn`): the turn
/// counter moves on, the phase is Turn Start, this turn's actions and used
/// defense slots are cleared; queued statuses arrive and Shields lapse;
/// every living unit rolls its Speed; from turn 2 on a Skill Slot is
/// granted and the Sinners' panels are refilled; the per-turn counters
/// start over; and every unit's Sanity state is decided.
pub open spec fn turn_opened(before: BattleState, after: BattleState) -> bool {
    let turn = (before.turn + 1) as u32;
    let w0 = before.dice.rng.words();
    let d0 = before.dice.rng.draws();
    &&& after.turn == turn
    &&& after.phase == Phase::TurnStart
    &&& after.actions@.len() == 0
    &&& after.defense_slots_used@.len() == 0
    &&& after.dice.preset_flips == before.dice.preset_flips
    &&& after.dice.flip_cursor == before.dice.flip_cursor
    &&& after == (BattleState {
        turn: after.turn,
        phase: after.phase,
        actions: after.actions,
        defense_slots_used: after.defense_slots_used,
        units: after.units,
        dice: after.dice,
        ..before
    })
    &&& exists|u1: Seq<Unit>, u3: Seq<Unit>, u4: Seq<Unit>, u5: Seq<Unit>, g4: RngView|
        #[trigger] opening_steps(before, turn, u1, u3, u4, u5, g4, after)
}

/// The steps of `turn_opened` through the units `u1` (queues arrived), `u3`
/// (slot granted), `u4` (panels refilled, RNG `g4`) and `u5` (bookkeeping
/// reset).
pub open spec fn opening_steps(
    before: BattleState,
    turn: u32,
    u1: Seq<Unit>,
    u3: Seq<Unit>,
    u4: Seq<Unit>,
    u5: Seq<Unit>,
    g4: RngView,
    after: BattleState,
) -> bool {
    let (u2, w2, n2) = speeds_rolled(u1, before.dice.rng.words());
    let g2 = RngView { words: w2, draws: (before.dice.rng.draws() + n2) as u64 };
    &&& units_opened(before.units@, u1)
    &&& turn >= 2 ==> slot_granted(u2, before.slot_target, u3) && panels_refilled(u3, g2, u4, g4)
    &&& turn < 2 ==> u3 == u2 && u4 == u2 && g4 == g2
    &&& units_bookkept(u4, u5)
    &&& sanity_started(u5, after.units@)
    &&& rng_of(after.dice.rng) == g4
}

/// Open a turn (see `turn_opened`).  This does not run the clauses that
/// apply at Turn Start (Skills on the Dashboard, statuses, passives, Panic
/// Types): nothing here holds their clause lists.  The Abnormality's state
/// of time is advanced by `units::update_time_state` and
/// `time_passives::turn_start`, which this does not call.
pub fn begin_turn(state: &mut BattleState)
    requires
        old(state).turn < u32::MAX,
        forall|k: int| 0 <= k < old(state).units@.len() ==> ready_to_open(#[trigger] old(state).units@[k]),
        sinner_slots(old(state).units@) < usize::MAX,
        old(state).dice.rng.draws() + old(state).units@.len() + 3 * (sinner_slots(old(state).units@) + 1)
            < u64::MAX,
    ensures
        turn_opened(*old(state), *final(state)),
{
    let ghost s0 = *state;
    let ghost u0 = state.units@;
    state.turn = state.turn + 1;
    state.phase = Phase::TurnStart;
    state.actions.clear();
    state.defense_slots_used.clear();
    let ghost w0 = state.dice.rng.words();
    let ghost d0 = state.dice.rng.draws();
    open_unit_turns(&mut state.units);
    let ghost u1 = state.units@;
    proof {
        assert forall|k: int| 0 <= k < u1.len() && (#[trigger] u1[k]).alive implies u1[k].statuses.wf()
            && crate::turn_open::speed_fits(u1[k]) by {
            assert(ready_to_open(u0[k]));
        }
        lemma_speeds_rolled_frame(u1, w0);
        lemma_sinner_slots_nonneg(u0);
    }
    roll_speeds(&mut state.units, &mut state.dice.rng);
    let ghost u2 = state.units@;
    let ghost g2 = rng_of(state.dice.rng);
    proof {
        lemma_same_slots(u0, u2);
        assert forall|k: int| 0 <= k < u0.len() implies (#[trigger] u0[k]).kind == u2[k].kind
            && u0[k].dashboard@.len() == u2[k].dashboard@.len() by {
            assert(u2[k] == speeds_rolled(u1, w0).0[k]);
        }
        lemma_same_slots(u0, u2);
    }
    let ghost mut u3 = state.units@;
    if state.turn >= 2 {
        grant_extra_slot(&mut state.units, state.slot_target);
        proof {
            u3 = state.units@;
        }
        proof {
            assert forall|k: int|
                0 <= k < u3.len() && (#[trigger] u3[k]).kind is Sinner implies deck_room(
                    deck_of(u3[k].deck),
                    3 * u3[k].dashboard@.len(),
                ) by {
                assert(u2[k] == speeds_rolled(u1, w0).0[k]);
                assert(ready_to_open(u0[k]));
                assert(u2[k].deck == u0[k].deck);
                assert(u2[k].dashboard == u0[k].dashboard);
                match grant_pick(u2, s0.slot_target) {
                    Some(b) => {
                        if k == b {
                            assert(slot_views(u3[k].dashboard@).len() == u3[k].dashboard@.len());
                            assert(slot_views(u2[k].dashboard@).len() == u2[k].dashboard@.len());
                            assert(u3[k].deck == u2[k].deck);
                        } else {
                            assert(u3[k] == u2[k]);
                            lemma_room_less(deck_of(u0[k].deck), 3 * (u0[k].dashboard@.len() + 1), 3 * u0[k].dashboard@.len());
                        }
                    },
                    None => {
                        lemma_room_less(deck_of(u0[k].deck), 3 * (u0[k].dashboard@.len() + 1), 3 * u0[k].dashboard@.len());
                    },
                }
            }
            match grant_pick(u2, s0.slot_target) {
                Some(b) => {
                    lemma_fewest_slots(u2, u2.len() as int);
                    assert(slot_views(u3[b].dashboard@).len() == u3[b].dashboard@.len());
                    assert(slot_views(u2[b].dashboard@).len() == u2[b].dashboard@.len());
                    lemma_one_more_slot(u2, u3, b);
                },
                None => {},
            }
        }
        proof {
            lemma_sinner_slots_nonneg(u3);
        }
        refill_panels(&mut state.units, &mut state.dice.rng);
    }
    let ghost u4 = state.units@;
    let ghost g4 = rng_of(state.dice.rng);
    proof {
        assert forall|k: int| 0 <= k < u4.len() implies (#[trigger] u4[k]).turn_effect_usage.wf() by {
            assert(u2[k] == speeds_rolled(u1, w0).0[k]);
            assert(ready_to_open(u0[k]));
        }
    }
    bookkeep_units(&mut state.units);
    let ghost u5 = state.units@;
    start_sanity_states(&mut state.units);
    proof {
        let (uu2, w2, n2) = speeds_rolled(u1, w0);
        assert(uu2 == u2);
        assert(state.actions@ =~= Seq::<SubmittedAction>::empty());
        assert(state.defense_slots_used@ =~= Seq::<(usize, u32)>::empty());
        assert(opening_steps(s0, state.turn, u1, u3, u4, u5, g4, *state));
    }
}

/// A unit's Combat End SP losses can be applied (see
/// `units::combat_end_sp_loss`).
pub open spec fn losses_fit(losses: Seq<(i32, i32)>) -> bool {
    &&& forall|k: int| 0 <= k <= losses.len() ==> i32::MIN < #[trigger] sp_loss_total(losses.take(k)) <= i32::MAX
    &&& forall|k: int| 0 <= k < losses.len() ==> #[trigger] losses[k].1 > i32::MIN
}

/// `after` is `before` once every unit closed its turn: its Combat End SP
/// losses applied, "No Damage Taken" gone and its retaliations cleared.
pub open spec fn units_closed(before: Seq<Unit>, after: Seq<Unit>) -> bool {
    &&& after.len() == before.len()
    &&& forall|k: int|
        0 <= k < before.len() ==> {
            let u = before[k];
            &&& (#[trigger] after[k]).statuses.wf()
            &&& after[k].statuses@ == u.statuses@.remove("No Damage Taken"@)
            &&& after[k].retaliate_on_hit@.len() == 0
            &&& after[k].sanity == (if u.combat_end_sp_loss@.len() == 0 {
                u.sanity
            } else {
                u.sanity.moved(-sp_loss_total(u.combat_end_sp_loss@))
            })
            &&& after[k].combat_end_sp_loss@ == (if u.combat_end_sp_loss@.len() == 0 {
                u.combat_end_sp_loss@
            } else {
                sp_losses_after(u.combat_end_sp_loss@)
            })
            &&& after[k] == (Unit {
                statuses: after[k].statuses,
                retaliate_on_hit: after[k].retaliate_on_hit,
                sanity: after[k].sanity,
                combat_end_sp_loss: after[k].combat_end_sp_loss,
                ..u
            })
        }
}

/// Close every unit's turn (see `units_closed`).
pub fn close_unit_turns(units: &mut Vec<Unit>)
    requires
        forall|k: int|
            0 <= k < old(units)@.len() ==> (#[trigger] old(units)@[k]).statuses.wf() && losses_fit(
                old(units)@[k].combat_end_sp_loss@,
            ),
    ensures
        units_closed(old(units)@, final(units)@),
{
    let ghost u0 = units@;
    let mut i: usize = 0;
    while i < units.len()
        invariant
            i <= units@.len(),
            units@.len() == u0.len(),
            forall|k: int| i <= k < u0.len() ==> #[trigger] units@[k] == u0[k],
            forall|k: int|
                0 <= k < u0.len() ==> (#[trigger] u0[k]).statuses.wf() && losses_fit(u0[k].combat_end_sp_loss@),
            units_closed(u0.take(i as int), units@.take(i as int)),
        decreases u0.len() - i,
    {
        let mut u = units.remove(i);
        proof {
            assert(u == u0[i as int]);
        }
        let ghost u_old = u;
        combat_end_sp_loss(&mut u.sanity, &mut u.combat_end_sp_loss);
        proof {
            reveal_strlit("No Damage Taken");
        }
        u.statuses.remove("No Damage Taken");
        u.retaliate_on_hit.clear();
        units.insert(i, u);
        proof {
            assert forall|k: int| 0 <= k < i + 1 implies {
                let v = u0.take(i + 1)[k];
                let w = units@.take(i + 1)[k];
                &&& (#[trigger] units@.take(i + 1)[k]).statuses.wf()
                &&& w.statuses@ == v.statuses@.remove("No Damage Taken"@)
                &&& w.retaliate_on_hit@.len() == 0
                &&& w.sanity == (if v.combat_end_sp_loss@.len() == 0 {
                    v.sanity
                } else {
                    v.sanity.moved(-sp_loss_total(v.combat_end_sp_loss@))
                })
                &&& w.combat_end_sp_loss@ == (if v.combat_end_sp_loss@.len() == 0 {
                    v.combat_end_sp_loss@
                } else {
                    sp_losses_after(v.combat_end_sp_loss@)
                })
                &&& w == (Unit {
                    statuses: w.statuses,
                    retaliate_on_hit: w.retaliate_on_hit,
                    sanity: w.sanity,
                    combat_end_sp_loss: w.combat_end_sp_loss,
                    ..v
                })
            } by {
                if k < i {
                    assert(u0.take(i + 1)[k] == u0.take(i as int)[k]);
                    assert(units@.take(i + 1)[k] == units@.take(i as int)[k]);
                } else {
                    assert(u0.take(i + 1)[k] == u_old);
                    assert(units@.take(i + 1)[k] == u);
                }
            }
        }
        i = i + 1;
    }
    proof {
        assert(u0.take(u0.len() as int) =~= u0);
        assert(units@.take(u0.len() as int) =~= units@);
    }
}

/// The campaign's time Stacks after every illusion that was never hit this
/// turn gave its Stacks.
pub open spec fn segmented(stacks: Map<Seq<char>, i32>, us: Seq<Unit>) -> Map<Seq<char>, i32>
    decreases us.len(),
{
    if us.len() == 0 {
        stacks
    } else {
        let m = segmented(stacks, us.drop_last());
        let u = us.last();
        match u.segmentation {
            Some(seg) => if u.hits_taken == 0 {
                m.insert(
                    seg.stack_status@,
                    ((if m.contains_key(seg.stack_status@) {
                        m[seg.stack_status@] as int
                    } else {
                        0
                    }) + seg.gain_if_not_hit) as i32,
                )
            } else {
                m
            },
            None => m,
        }
    }
}

/// Every gain of `segmented` stays within `i32`.
pub open spec fn segmentation_fits(stacks: Map<Seq<char>, i32>, us: Seq<Unit>) -> bool
    decreases us.len(),
{
    us.len() == 0 || {
        let m = segmented(stacks, us.drop_last());
        let u = us.last();
        &&& segmentation_fits(stacks, us.drop_last())
        &&& match u.segmentation {
            Some(seg) => u.hits_taken == 0 ==> i32::MIN <= (if m.contains_key(seg.stack_status@) {
                m[seg.stack_status@] as int
            } else {
                0
            }) + seg.gain_if_not_hit <= i32::MAX,
            None => true,
        }
    }
}

proof fn lemma_segmentation_prefix(stacks: Map<Seq<char>, i32>, us: Seq<Unit>, i: int)
    requires
        segmentation_fits(stacks, us),
        0 <= i <= us.len(),
    ensures
        segmentation_fits(stacks, us.take(i)),
    decreases us.len(),
{
    if i < us.len() {
        assert(us.drop_last().take(i) =~= us.take(i));
        lemma_segmentation_prefix(stacks, us.drop_last(), i);
    } else {
        assert(us.take(i) =~= us);
    }
}

/// Segmentation: an illusion never hit this turn gives the Imago its Stacks
/// (see `segmented`).
pub fn segmentation_gains(stacks: &mut StrMap<i32>, units: &Vec<Unit>)
    requires
        old(stacks).wf(),
        segmentation_fits(old(stacks)@, units@),
    ensures
        final(stacks).wf(),
        final(stacks)@ == segmented(old(stacks)@, units@),
{
    let ghost m0 = stacks@;
    let mut i: usize = 0;
    assert(units@.take(0) =~= Seq::<Unit>::empty());
    while i < units.len()
        invariant
            i <= units@.len(),
            stacks.wf(),
            segmentation_fits(m0, units@),
            stacks@ == segmented(m0, units@.take(i as int)),
        decreases units.len() - i,
    {
        proof {
            lemma_segmentation_prefix(m0, units@, i + 1);
            assert(units@.take(i + 1).drop_last() =~= units@.take(i as int));
            assert(units@.take(i + 1).last() == units@[i as int]);
        }
        let u = &units[i];
        match &u.segmentation {
            Some(seg) => {
                if u.hits_taken == 0 {
                    let have: i32 = match stacks.get(seg.stack_status.as_str()) {
                        Some(v) => *v,
                        None => 0,
                    };
                    stacks.insert(seg.stack_status.as_str(), have + seg.gain_if_not_hit);
                }
            },
            None => {},
        }
        i = i + 1;
    }
    assert(units@.take(units@.len() as int) =~= units@);
}

/// What Turn End asks of a unit: a status table that ticks within `i32`
/// (see `upkeep::turn_end_upkeep`), and Combat End SP losses that fit.
pub open spec fn ready_to_close(u: Unit) -> bool {
    let m = u.statuses@.remove("No Damage Taken"@);
    &&& u.statuses.wf()
    &&& losses_fit(u.combat_end_sp_loss@)
    &&& u.alive ==> (status_of(m, "Burn"@).potency > 0 ==> crate::state::damage_fits(u, status_of(m, "Burn"@).potency))
    &&& u.alive ==> (status_of(m, "Butterfly"@).potency > 0 ==> status_of(m, "Sinking"@).potency + status_of(
        m,
        "Butterfly"@,
    ).potency <= i32::MAX)
}

/// `after` is `before` once every living unit's statuses ticked at Turn End
/// (see `upkeep::turn_end_upkeep`).
pub open spec fn units_upkept(before: Seq<Unit>, rules: Map<Seq<char>, TickRule>, after: Seq<Unit>) -> bool {
    &&& after.len() == before.len()
    &&& forall|k: int|
        0 <= k < before.len() ==> if before[k].alive {
            &&& (#[trigger] after[k]).statuses.wf()
            &&& after[k].statuses@ == upkept_statuses(before[k].statuses@, rules)
            &&& after[k] == (Unit {
                statuses: after[k].statuses,
                stagger: recovered(before[k].stagger),
                ..burnt(before[k])
            })
        } else {
            after[k] == before[k]
        }
}

/// Every living unit's statuses tick at Turn End.
pub fn upkeep_units(units: &mut Vec<Unit>, rules: &StrMap<TickRule>)
    requires
        rules.wf(),
        forall|k: int|
            0 <= k < old(units)@.len() && (#[trigger] old(units)@[k]).alive ==> {
                let u = old(units)@[k];
                &&& u.statuses.wf()
                &&& status_of(u.statuses@, "Burn"@).potency > 0 ==> crate::state::damage_fits(
                    u,
                    status_of(u.statuses@, "Burn"@).potency,
                )
                &&& status_of(u.statuses@, "Butterfly"@).potency > 0 ==> status_of(u.statuses@, "Sinking"@).potency
                    + status_of(u.statuses@, "Butterfly"@).potency <= i32::MAX
            },
    ensures
        units_upkept(old(units)@, rules@, final(units)@),
{
    let ghost u0 = units@;
    let mut i: usize = 0;
    while i < units.len()
        invariant
            i <= units@.len(),
            units@.len() == u0.len(),
            rules.wf(),
            forall|k: int| i <= k < u0.len() ==> #[trigger] units@[k] == u0[k],
            forall|k: int|
                0 <= k < u0.len() && (#[trigger] u0[k]).alive ==> {
                    let u = u0[k];
                    &&& u.statuses.wf()
                    &&& status_of(u.statuses@, "Burn"@).potency > 0 ==> crate::state::damage_fits(
                        u,
                        status_of(u.statuses@, "Burn"@).potency,
                    )
                    &&& status_of(u.statuses@, "Butterfly"@).potency > 0 ==> status_of(u.statuses@, "Sinking"@).potency
                        + status_of(u.statuses@, "Butterfly"@).potency <= i32::MAX
                },
            units_upkept(u0.take(i as int), rules@, units@.take(i as int)),
        decreases u0.len() - i,
    {
        let mut u = units.remove(i);
        proof {
            assert(u == u0[i as int]);
        }
        let ghost u_old = u;
        if u.alive {
            turn_end_upkeep(&mut u, rules);
        }
        units.insert(i, u);
        proof {
            assert forall|k: int| 0 <= k < i + 1 implies if u0.take(i + 1)[k].alive {
                &&& (#[trigger] units@.take(i + 1)[k]).statuses.wf()
                &&& units@.take(i + 1)[k].statuses@ == upkept_statuses(u0.take(i + 1)[k].statuses@, rules@)
                &&& units@.take(i + 1)[k] == (Unit {
                    statuses: units@.take(i + 1)[k].statuses,
                    stagger: recovered(u0.take(i + 1)[k].stagger),
                    ..burnt(u0.take(i + 1)[k])
                })
            } else {
                units@.take(i + 1)[k] == u0.take(i + 1)[k]
            } by {
                if k < i {
                    assert(u0.take(i + 1)[k] == u0.take(i as int)[k]);
                    assert(units@.take(i + 1)[k] == units@.take(i as int)[k]);
                } else {
                    assert(u0.take(i + 1)[k] == u_old);
                    assert(units@.take(i + 1)[k] == u);
                }
            }
        }
        i = i + 1;
    }
    proof {
        assert(u0.take(u0.len() as int) =~= u0);
        assert(units@.take(u0.len() as int) =~= units@);
    }
}

/// The steps of `turn_closed` through the units `u1` (turns closed) and
/// `u2` (statuses ticked).
pub open spec fn closing_steps(before: BattleState, rules: Map<Seq<char>, TickRule>, u1: Seq<Unit>, u2: Seq<Unit>, after: BattleState) -> bool {
    &&& units_closed(before.units@, u1)
    &&& after.campaign.time_stacks@ == segmented(before.campaign.time_stacks@, before.units@)
    &&& before.encounter_ended ==> {
        &&& after.units@ == u1
        &&& after.winner == Some(Winner::EncounterEnded)
        &&& after.phase == Phase::Finished
    }
    &&& !before.encounter_ended ==> {
        let (w, p) = turn_outcome(u2);
        &&& units_upkept(u1, rules, u2)
        &&& after.units@ == u2
        &&& after.phase == p
        &&& after.winner == (if w is Some {
            w
        } else {
            before.winner
        })
    }
}

/// `after` is `before` once the turn ended (see `end_turn`).
pub open spec fn turn_closed(before: BattleState, rules: Map<Seq<char>, TickRule>, after: BattleState) -> bool {
    &&& after == (BattleState {
        units: after.units,
        campaign: CampaignState { time_stacks: after.campaign.time_stacks, ..before.campaign },
        winner: after.winner,
        phase: after.phase,
        ..before
    })
    &&& after.campaign.time_stacks.wf()
    &&& exists|u1: Seq<Unit>, u2: Seq<Unit>| #[trigger] closing_steps(before, rules, u1, u2, after)
}

/// End the turn: every unit's Combat End SP losses apply, "No Damage Taken"
/// and retaliations lapse, illusions never hit give their Stacks; then an
/// encounter ended by a skill is over, or else every living unit's statuses
/// tick and the victory check decides whether the battle goes on (see
/// `turn_closed`).  This does not run the clauses that apply at Turn End
/// (Skills on the Dashboard, statuses, passives, Panic Types).
pub fn end_turn(state: &mut BattleState, rules: &StrMap<TickRule>)
    requires
        rules.wf(),
        old(state).campaign.time_stacks.wf(),
        segmentation_fits(old(state).campaign.time_stacks@, old(state).units@),
        forall|k: int| 0 <= k < old(state).units@.len() ==> ready_to_close(#[trigger] old(state).units@[k]),
    ensures
        turn_closed(*old(state), rules@, *final(state)),
{
    let ghost s0 = *state;
    proof {
        assert forall|k: int| 0 <= k < s0.units@.len() implies (#[trigger] s0.units@[k]).statuses.wf() && losses_fit(
            s0.units@[k].combat_end_sp_loss@,
        ) by {
            assert(ready_to_close(s0.units@[k]));
        }
    }
    state.phase = Phase::TurnEnd;
    segmentation_gains(&mut state.campaign.time_stacks, &state.units);
    close_unit_turns(&mut state.units);
    let ghost u1 = state.units@;
    if state.encounter_ended {
        state.winner = Some(Winner::EncounterEnded);
        state.phase = Phase::Finished;
        assert(closing_steps(s0, rules@, u1, u1, *state));
        return;
    }
    proof {
        assert forall|k: int| 0 <= k < u1.len() && (#[trigger] u1[k]).alive implies {
            let u = u1[k];
            &&& u.statuses.wf()
            &&& status_of(u.statuses@, "Burn"@).potency > 0 ==> crate::state::damage_fits(
                u,
                status_of(u.statuses@, "Burn"@).potency,
            )
            &&& status_of(u.statuses@, "Butterfly"@).potency > 0 ==> status_of(u.statuses@, "Sinking"@).potency
                + status_of(u.statuses@, "Butterfly"@).potency <= i32::MAX
        } by {
            assert(ready_to_close(s0.units@[k]));
        }
    }
    upkeep_units(&mut state.units, rules);
    let ghost u2 = state.units@;
    let (winner, phase) = victory_check(&state.units);
    match winner {
        Some(w) => {
            state.winner = Some(w);
        },
        None => {},
    }
    state.phase = phase;
    assert(closing_steps(s0, rules@, u1, u2, *state));
}

} // verus!
