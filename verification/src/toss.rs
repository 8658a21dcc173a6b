//! Tossing a skill's coins.  The heads chance comes from the unit's SP; each
//! coin tossed while the unit holds Paralyze is fixed to 0 Coin Power and
//! uses up one Potency of it.

use vstd::prelude::*;
use crate::battle::{fresh_count, CoinRuntime, CoinState};
use crate::dice::{can_draw, flip_step, Dice, DiceState};
use crate::rng::heads_chance_of;
use crate::state::{status_of, with_status, StatusInstance, StatusSet, Unit};

verus! {

/// The coins after a toss of every coin still in play, with the dice and the
/// Paralyze Potency left after it.  Coins out of play are not tossed.
pub open spec fn tossed(coins: Seq<CoinRuntime>, d: DiceState, percent: i32, paralyze: int) -> (
    Seq<CoinRuntime>,
    DiceState,
    int,
)
    decreases coins.len(),
{
    if coins.len() == 0 {
        (Seq::empty(), d, paralyze)
    } else {
        let (cs, d1, p1) = tossed(coins.drop_last(), d, percent, paralyze);
        let c = coins.last();
        if c.state != CoinState::Fresh {
            (cs.push(c), d1, p1)
        } else {
            let (h, d2) = flip_step(d1, percent);
            (
                cs.push(CoinRuntime { heads: Some(h), paralyzed: p1 > 0, ..c }),
                d2,
                if p1 > 0 {
                    p1 - 1
                } else {
                    p1
                },
            )
        }
    }
}

/// The statuses with Paralyze's Potency set to `p` (unchanged when it is
/// still what it was).
pub open spec fn paralyze_left(m: Map<Seq<char>, StatusInstance>, p: int) -> Map<Seq<char>, StatusInstance> {
    let s = status_of(m, "Paralyze"@);
    if p == s.potency {
        m
    } else {
        with_status(m, "Paralyze"@, StatusInstance { potency: p as i32, ..s })
    }
}

/// The heads chance of a unit: 50% plus its SP, within 0..=100.
pub open spec fn heads_percent_of(u: Unit) -> i32 {
    heads_chance_of(u.sanity.sp_of()) as i32
}

proof fn lemma_tossed_bounds(coins: Seq<CoinRuntime>, d: DiceState, percent: i32, paralyze: int)
    requires
        paralyze >= 0,
    ensures
        tossed(coins, d, percent, paralyze).0.len() == coins.len(),
        0 <= tossed(coins, d, percent, paralyze).2 <= paralyze,
        tossed(coins, d, percent, paralyze).1.draws <= d.draws + coins.len(),
        tossed(coins, d, percent, paralyze).1.presets == d.presets,
    decreases coins.len(),
{
    if coins.len() > 0 {
        lemma_tossed_bounds(coins.drop_last(), d, percent, paralyze);
    }
}

fn toss_coins(statuses: &mut StatusSet, percent: i32, dice: &mut Dice, coins: &mut Vec<CoinRuntime>)
    requires
        old(statuses).wf(),
        can_draw(old(dice)@, old(coins)@.len() as int),
    ensures
        final(statuses).wf(),
        ({
            let p0 = status_of(old(statuses)@, "Paralyze"@).potency as int;
            let (cs, d, p) = tossed(old(coins)@, old(dice)@, percent, if p0 < 0 { 0 } else { p0 });
            &&& final(coins)@ == cs
            &&& final(dice)@ == d
            &&& final(statuses)@ == (if p0 <= 0 { old(statuses)@ } else { paralyze_left(old(statuses)@, p) })
        }),
{
    let ghost m0 = statuses@;
    let ghost s0 = status_of(m0, "Paralyze"@);
    let ghost p0: int = if s0.potency < 0 { 0 } else { s0.potency as int };
    let ghost c0 = coins@;
    let ghost d0 = dice@;
    let mut i: usize = 0;
    while i < coins.len()
        invariant
            i <= coins@.len(),
            coins@.len() == c0.len(),
            statuses.wf(),
            s0 == status_of(m0, "Paralyze"@),
            p0 == (if s0.potency < 0 { 0 } else { s0.potency as int }),
            can_draw(d0, c0.len() as int),
            ({
                let (cs, d, p) = tossed(c0.take(i as int), d0, percent, p0);
                &&& coins@.take(i as int) == cs
                &&& dice@ == d
                &&& status_of(statuses@, "Paralyze"@).potency == (if s0.potency <= 0 { s0.potency as int } else { p })
                &&& statuses@ == (if s0.potency <= 0 { m0 } else { paralyze_left(m0, p) })
            }),
            forall|j: int| i <= j < c0.len() ==> #[trigger] coins@[j] == c0[j],
        decreases coins.len() - i,
    {
        proof {
            assert(c0.take(i + 1).drop_last() =~= c0.take(i as int));
            assert(c0.take(i + 1).last() == c0[i as int]);
            lemma_tossed_bounds(c0.take(i as int), d0, percent, p0);
        }
        let c = coins[i];
        if c.state == CoinState::Fresh {
            let heads = dice.flip(percent);
            let paralyze = statuses.potency("Paralyze");
            let ghost before = coins@;
            coins.set(i, CoinRuntime { heads: Some(heads), paralyzed: paralyze > 0, ..c });
            if paralyze > 0 {
                statuses.add_potency("Paralyze", -1);
            }
            proof {
                assert(coins@.take(i + 1) =~= before.take(i as int).push(coins@[i as int]));
            }
        } else {
            proof {
                assert(coins@.take(i + 1) =~= coins@.take(i as int).push(c));
            }
        }
        i = i + 1;
    }
    proof {
        assert(c0.take(c0.len() as int) =~= c0);
        assert(coins@.take(coins@.len() as int) =~= coins@);
    }
}

/// Toss every coin of `unit`'s skill still in play at the unit's heads
/// chance (see `tossed`); only its statuses change.
pub fn toss_all(unit: &mut Unit, dice: &mut Dice, coins: &mut Vec<CoinRuntime>)
    requires
        old(unit).statuses.wf(),
        can_draw(old(dice)@, old(coins)@.len() as int),
    ensures
        final(unit).statuses.wf(),
        *final(unit) == (Unit { statuses: final(unit).statuses, ..*old(unit) }),
        ({
            let p0 = status_of(old(unit).statuses@, "Paralyze"@).potency as int;
            let (cs, d, p) = tossed(old(coins)@, old(dice)@, heads_percent_of(*old(unit)), if p0 < 0 { 0 } else { p0 });
            &&& final(coins)@ == cs
            &&& final(dice)@ == d
            &&& final(unit).statuses@ == (if p0 <= 0 {
                old(unit).statuses@
            } else {
                paralyze_left(old(unit).statuses@, p)
            })
        }),
{
    let percent = unit.sanity.heads_percent();
    toss_coins(&mut unit.statuses, percent, dice, coins);
}

/// Toss one coin of `unit`'s skill at the unit's heads chance, whatever
/// state it is in; Paralyze fixes it and loses a Potency.
pub fn toss_single(unit: &mut Unit, dice: &mut Dice, coin: &mut CoinRuntime)
    requires
        old(unit).statuses.wf(),
        can_draw(old(dice)@, 1),
    ensures
        final(unit).statuses.wf(),
        *final(unit) == (Unit { statuses: final(unit).statuses, ..*old(unit) }),
        ({
            let p0 = status_of(old(unit).statuses@, "Paralyze"@).potency;
            let (h, d) = flip_step(old(dice)@, heads_percent_of(*old(unit)));
            &&& *final(coin) == (CoinRuntime { heads: Some(h), paralyzed: p0 > 0, ..*old(coin) })
            &&& final(dice)@ == d
            &&& final(unit).statuses@ == (if p0 > 0 {
                paralyze_left(old(unit).statuses@, p0 - 1)
            } else {
                old(unit).statuses@
            })
        }),
{
    let percent = unit.sanity.heads_percent();
    let heads = dice.flip(percent);
    let paralyze = unit.statuses.potency("Paralyze");
    coin.heads = Some(heads);
    coin.paralyzed = paralyze > 0;
    if paralyze > 0 {
        unit.statuses.add_potency("Paralyze", -1);
    }
}

/// Paralyze fixes one coin per Potency: a toss uses up one Potency per coin
/// in play until none is left; the coins out of play, and the coins'
/// states, are untouched.
pub proof fn paralyze_fixes_one_coin_per_potency(coins: Seq<CoinRuntime>, d: DiceState, percent: i32, paralyze: int)
    requires
        paralyze >= 0,
    ensures
        ({
            let (cs, _, p) = tossed(coins, d, percent, paralyze);
            &&& p == if paralyze > fresh_count(coins) {
                paralyze - fresh_count(coins)
            } else {
                0
            }
            &&& cs.len() == coins.len()
            &&& forall|i: int| 0 <= i < coins.len() ==> (#[trigger] cs[i]).state == coins[i].state
            &&& forall|i: int|
                0 <= i < coins.len() && coins[i].state != CoinState::Fresh ==> #[trigger] cs[i] == coins[i]
        }),
    decreases coins.len(),
{
    if coins.len() > 0 {
        paralyze_fixes_one_coin_per_potency(coins.drop_last(), d, percent, paralyze);
        lemma_tossed_bounds(coins.drop_last(), d, percent, paralyze);
        let (cs, _, _) = tossed(coins, d, percent, paralyze);
        let (cs1, _, _) = tossed(coins.drop_last(), d, percent, paralyze);
        assert forall|i: int| 0 <= i < coins.len() implies (#[trigger] cs[i]).state == coins[i].state by {
            if i < coins.len() - 1 {
                assert(cs[i] == cs1[i]);
                assert(coins.drop_last()[i] == coins[i]);
            }
        }
        assert forall|i: int| 0 <= i < coins.len() && coins[i].state != CoinState::Fresh implies #[trigger] cs[i]
            == coins[i] by {
            if i < coins.len() - 1 {
                assert(cs[i] == cs1[i]);
                assert(coins.drop_last()[i] == coins[i]);
            }
        }
    }
}

} // verus!
