//! The first steps of a Turn Start on the units: statuses queued "for next
//! turn" arrive, Shields lapse, and every living unit rolls its Speed.

use vstd::prelude::*;
use crate::rng::{scale_below, xoshiro_output, xoshiro_step, Rng};
use crate::state::{max0, status_of, with_status, PendingStatus, StatusInstance, Unit};

verus! {

/// The statuses `m` once the queued grant `e` arrived: its Potency, then its
/// Count, then its Stack are added, none below 0.
pub open spec fn queued_one(m: Map<Seq<char>, StatusInstance>, e: PendingStatus) -> Map<Seq<char>, StatusInstance> {
    let k = e.status@;
    let s0 = status_of(m, k);
    let m1 = with_status(m, k, StatusInstance { potency: max0(s0.potency + e.potency), ..s0 });
    let s1 = status_of(m1, k);
    let m2 = with_status(m1, k, StatusInstance { count: max0(s1.count + e.count), ..s1 });
    let s2 = status_of(m2, k);
    with_status(m2, k, StatusInstance { stack: max0(s2.stack + e.stack), ..s2 })
}

/// The three additions of `queued_one` stay within `i32`.
pub open spec fn queued_fits(m: Map<Seq<char>, StatusInstance>, e: PendingStatus) -> bool {
    let k = e.status@;
    let s0 = status_of(m, k);
    let m1 = with_status(m, k, StatusInstance { potency: max0(s0.potency + e.potency), ..s0 });
    let s1 = status_of(m1, k);
    let m2 = with_status(m1, k, StatusInstance { count: max0(s1.count + e.count), ..s1 });
    let s2 = status_of(m2, k);
    &&& s0.potency + e.potency <= i32::MAX
    &&& s1.count + e.count <= i32::MAX
    &&& s2.stack + e.stack <= i32::MAX
}

/// The statuses once every queued grant of `q` arrived, in order.
pub open spec fn queue_applied(m: Map<Seq<char>, StatusInstance>, q: Seq<PendingStatus>) -> Map<
    Seq<char>,
    StatusInstance,
>
    decreases q.len(),
{
    if q.len() == 0 {
        m
    } else {
        queued_one(queue_applied(m, q.drop_last()), q.last())
    }
}

pub open spec fn queue_fits(m: Map<Seq<char>, StatusInstance>, q: Seq<PendingStatus>) -> bool
    decreases q.len(),
{
    q.len() == 0 || (queue_fits(m, q.drop_last()) && queued_fits(queue_applied(m, q.drop_last()), q.last()))
}

proof fn lemma_queue_prefix(m: Map<Seq<char>, StatusInstance>, q: Seq<PendingStatus>, i: int)
    requires
        queue_fits(m, q),
        0 <= i < q.len(),
    ensures
        queued_fits(queue_applied(m, q.take(i)), q[i]),
        queue_applied(m, q.take(i + 1)) == queued_one(queue_applied(m, q.take(i)), q[i]),
    decreases q.len(),
{
    assert(q.take(i + 1).drop_last() =~= q.take(i));
    if i == q.len() - 1 {
        assert(q.take(i) =~= q.drop_last());
    } else {
        let r = q.drop_last();
        lemma_queue_prefix(m, r, i);
        assert(r.take(i) =~= q.take(i));
    }
}

/// Statuses queued for this turn arrive (see `queue_applied`); the queue
/// is left empty.
pub fn apply_queued(unit: &mut Unit)
    requires
        old(unit).statuses.wf(),
        queue_fits(old(unit).statuses@, old(unit).pending_next_turn@),
    ensures
        final(unit).statuses.wf(),
        final(unit).statuses@ == queue_applied(old(unit).statuses@, old(unit).pending_next_turn@),
        final(unit).pending_next_turn@.len() == 0,
        *final(unit) == (Unit {
            statuses: final(unit).statuses,
            pending_next_turn: final(unit).pending_next_turn,
            ..*old(unit)
        }),
{
    let ghost m0 = unit.statuses@;
    let mut queued: Vec<PendingStatus> = Vec::new();
    std::mem::swap(&mut queued, &mut unit.pending_next_turn);
    let ghost q = queued@;
    let ghost u_mid = *unit;
    let mut i: usize = 0;
    assert(q.take(0) =~= Seq::<PendingStatus>::empty());
    while i < queued.len()
        invariant
            i <= q.len(),
            q == queued@,
            queue_fits(m0, q),
            unit.statuses.wf(),
            unit.statuses@ == queue_applied(m0, q.take(i as int)),
            unit.pending_next_turn@.len() == 0,
            *unit == (Unit { statuses: unit.statuses, ..u_mid }),
        decreases queued.len() - i,
    {
        proof {
            lemma_queue_prefix(m0, q, i as int);
        }
        let e = &queued[i];
        unit.statuses.add_potency(e.status.as_str(), e.potency);
        unit.statuses.add_count(e.status.as_str(), e.count);
        unit.statuses.add_stack(e.status.as_str(), e.stack);
        i = i + 1;
    }
    assert(q.take(q.len() as int) =~= q);
}

/// The Speed a unit rolls from the generator words `w`, and whether it drew
/// from them: a roll within its Speed range (the low end without a draw
/// when the range is a single value), raised by its Haste Count and lowered
/// by its Bind Count for the turn, never below 1.
pub open spec fn rolled_speed(u: Unit, w: [u64; 4]) -> (i32, bool) {
    let (lo, hi) = u.speed_range;
    let drew = hi > lo;
    let base: int = if drew {
        lo + scale_below(xoshiro_output(w), (hi - lo + 1) as u32)
    } else {
        lo as int
    };
    let v = base + status_of(u.statuses@, "Haste"@).count - status_of(u.statuses@, "Bind"@).count;
    (if v < 1 {
        1
    } else {
        v as i32
    }, drew)
}

/// The sums of a Speed roll stay within `i32` at either end of the range.
pub open spec fn speed_end_fits(end: i32, haste: i32, bind: i32) -> bool {
    &&& i32::MIN <= end + haste <= i32::MAX
    &&& i32::MIN <= end + haste - bind <= i32::MAX
}

/// A Speed roll over `range` with the statuses `m` cannot overflow.
pub open spec fn speed_fits_in(range: (i32, i32), m: Map<Seq<char>, StatusInstance>) -> bool {
    let (lo, hi) = range;
    let haste = status_of(m, "Haste"@).count;
    let bind = status_of(m, "Bind"@).count;
    &&& hi - lo + 1 <= i32::MAX
    &&& speed_end_fits(lo, haste, bind)
    &&& speed_end_fits(hi, haste, bind)
}

/// A Speed roll of `u` cannot overflow.
pub open spec fn speed_fits(u: Unit) -> bool {
    speed_fits_in(u.speed_range, u.statuses@)
}

/// Roll the Speed of `unit` for the turn (see `rolled_speed`).
pub fn roll_speed(unit: &mut Unit, rng: &mut Rng)
    requires
        old(unit).statuses.wf(),
        speed_fits(*old(unit)),
        old(rng).draws() < u64::MAX,
    ensures
        *final(unit) == (Unit { speed: rolled_speed(*old(unit), old(rng).words()).0, ..*old(unit) }),
        rolled_speed(*old(unit), old(rng).words()).1 ==> {
            &&& final(rng).words() == xoshiro_step(old(rng).words())
            &&& final(rng).draws() == old(rng).draws() + 1
        },
        !rolled_speed(*old(unit), old(rng).words()).1 ==> *final(rng) == *old(rng),
{
    let (lo, hi) = unit.speed_range;
    let speed: i32 = if hi > lo {
        let span = (hi - lo + 1) as u32;
        assert(span == hi - lo + 1);
        let r = rng.below(span);
        assert(lo + r <= hi);
        lo + r as i32
    } else {
        lo
    };
    let haste = unit.statuses.count("Haste");
    let bind = unit.statuses.count("Bind");
    assert(speed == lo || lo <= speed <= hi);
    let v = speed + haste - bind;
    unit.speed = if v < 1 {
        1
    } else {
        v
    };
}

/// The units after the Speed rolls: each living unit in order rolls from
/// where the generator stands, and the words after them, and how many
/// values were drawn.
pub open spec fn speeds_rolled(us: Seq<Unit>, w: [u64; 4]) -> (Seq<Unit>, [u64; 4], nat)
    decreases us.len(),
{
    if us.len() == 0 {
        (us, w, 0)
    } else {
        let (front, w1, n1) = speeds_rolled(us.drop_last(), w);
        let u = us.last();
        if u.alive {
            let (speed, drew) = rolled_speed(u, w1);
            (front.push(Unit { speed, ..u }), if drew {
                xoshiro_step(w1)
            } else {
                w1
            }, if drew {
                n1 + 1
            } else {
                n1
            })
        } else {
            (front.push(u), w1, n1)
        }
    }
}

proof fn lemma_speeds_rolled_len(us: Seq<Unit>, w: [u64; 4])
    ensures
        speeds_rolled(us, w).0.len() == us.len(),
        speeds_rolled(us, w).2 <= us.len(),
    decreases us.len(),
{
    if us.len() > 0 {
        lemma_speeds_rolled_len(us.drop_last(), w);
    }
}

/// `after` is `before` once every unit's queued statuses arrived and its
/// Shield lapsed (see `open_unit_turns`).
pub open spec fn units_opened(before: Seq<Unit>, after: Seq<Unit>) -> bool {
    &&& after.len() == before.len()
    &&& forall|k: int|
        0 <= k < before.len() ==> {
            &&& (#[trigger] after[k]).statuses.wf()
            &&& after[k].statuses@ == queue_applied(before[k].statuses@, before[k].pending_next_turn@)
            &&& after[k].pending_next_turn@.len() == 0
            &&& after[k] == (Unit {
                statuses: after[k].statuses,
                pending_next_turn: after[k].pending_next_turn,
                shield: 0,
                ..before[k]
            })
        }
}

/// Turn Start on every unit: what was queued for this turn arrives (see
/// `apply_queued`) and Shields lapse.
pub fn open_unit_turns(units: &mut Vec<Unit>)
    requires
        forall|k: int|
            0 <= k < old(units)@.len() ==> (#[trigger] old(units)@[k]).statuses.wf() && queue_fits(
                old(units)@[k].statuses@,
                old(units)@[k].pending_next_turn@,
            ),
    ensures
        units_opened(old(units)@, final(units)@),
{
    let ghost u0 = units@;
    let mut i: usize = 0;
    while i < units.len()
        invariant
            i <= units@.len(),
            units@.len() == u0.len(),
            forall|k: int| i <= k < u0.len() ==> #[trigger] units@[k] == u0[k],
            forall|k: int|
                0 <= k < u0.len() ==> (#[trigger] u0[k]).statuses.wf() && queue_fits(
                    u0[k].statuses@,
                    u0[k].pending_next_turn@,
                ),
            forall|k: int|
                0 <= k < i ==> {
                    &&& (#[trigger] units@[k]).statuses.wf()
                    &&& units@[k].statuses@ == queue_applied(u0[k].statuses@, u0[k].pending_next_turn@)
                    &&& units@[k].pending_next_turn@.len() == 0
                    &&& units@[k] == (Unit {
                        statuses: units@[k].statuses,
                        pending_next_turn: units@[k].pending_next_turn,
                        shield: 0,
                        ..u0[k]
                    })
                },
        decreases u0.len() - i,
    {
        let mut u = units.remove(i);
        proof {
            assert(u == u0[i as int]);
        }
        apply_queued(&mut u);
        u.shield = 0;
        units.insert(i, u);
        i = i + 1;
    }
}

/// Every living unit, in order, rolls its Speed for the turn (see
/// `rolled_speed` and `speeds_rolled`).
pub fn roll_speeds(units: &mut Vec<Unit>, rng: &mut Rng)
    requires
        forall|k: int|
            0 <= k < old(units)@.len() && (#[trigger] old(units)@[k]).alive ==> old(units)@[k].statuses.wf()
                && speed_fits(old(units)@[k]),
        old(rng).draws() + old(units)@.len() < u64::MAX,
    ensures
        ({
            let (us, w, n) = speeds_rolled(old(units)@, old(rng).words());
            &&& final(units)@ == us
            &&& final(rng).words() == w
            &&& final(rng).draws() == old(rng).draws() + n
        }),
{
    let ghost u0 = units@;
    let ghost w0 = rng.words();
    let ghost d0 = rng.draws();
    let mut i: usize = 0;
    while i < units.len()
        invariant
            i <= units@.len(),
            units@.len() == u0.len(),
            forall|k: int| i <= k < u0.len() ==> #[trigger] units@[k] == u0[k],
            forall|k: int|
                0 <= k < u0.len() && (#[trigger] u0[k]).alive ==> u0[k].statuses.wf() && speed_fits(u0[k]),
            d0 + u0.len() < u64::MAX,
            ({
                let (us, w, n) = speeds_rolled(u0.take(i as int), w0);
                &&& units@.take(i as int) == us
                &&& rng.words() == w
                &&& rng.draws() == d0 + n
            }),
        decreases u0.len() - i,
    {
        proof {
            lemma_speeds_rolled_len(u0.take(i as int), w0);
            assert(u0.take(i + 1).drop_last() =~= u0.take(i as int));
            assert(u0.take(i + 1).last() == u0[i as int]);
        }
        let mut u = units.remove(i);
        proof {
            assert(u == u0[i as int]);
        }
        if u.alive {
            roll_speed(&mut u, rng);
        }
        units.insert(i, u);
        proof {
            assert(units@.take(i + 1) =~= units@.take(i as int).push(u));
        }
        i = i + 1;
    }
    proof {
        assert(u0.take(u0.len() as int) =~= u0);
        assert(units@.take(u0.len() as int) =~= units@);
    }
}

proof fn lemma_scale_below(out: u64, bound: u32)
    requires
        bound > 0,
    ensures
        scale_below(out, bound) < bound,
{
    let x = out >> 32u64;
    assert(x < 0x1_0000_0000) by (bit_vector)
        requires
            x == out >> 32u64,
    ;
    let b = bound as nat;
    assert((x as nat * b) / 0x1_0000_0000 < b) by (nonlinear_arith)
        requires
            x < 0x1_0000_0000,
            b > 0,
    ;
}

/// A rolled Speed is at least 1, and lies between the low and the high end
/// of the unit's range, each moved by its Haste and Bind Counts (and
/// raised to 1).
pub proof fn rolled_speed_stays_in_range(u: Unit, w: [u64; 4])
    requires
        u.speed_range.0 <= u.speed_range.1,
        speed_fits(u),
    ensures
        ({
            let (lo, hi) = u.speed_range;
            let shift = status_of(u.statuses@, "Haste"@).count - status_of(u.statuses@, "Bind"@).count;
            let speed = rolled_speed(u, w).0;
            &&& 1 <= speed
            &&& lo + shift <= speed || speed == 1
            &&& speed <= hi + shift || speed == 1
        }),
{
    let (lo, hi) = u.speed_range;
    if hi > lo {
        lemma_scale_below(xoshiro_output(w), (hi - lo + 1) as u32);
        assert(((hi - lo + 1) as u32) as int == hi - lo + 1);
    }
}

} // verus!
