//! The Past / Present / Future passives of the Imago (wiki.gg `Butterfly of
//! Entangled Lives::Imago` passives `Past`, `Present`, `Future`).

use vstd::prelude::*;
use crate::ids::SkillId;
use crate::scripts::TimeState;
use crate::state::{max0, status_of, with_status, CampaignState, StatusInstance, Unit};
use crate::text::same_text;
use crate::units::{stack_in, stack_key_of};

verus! {

/// Every unit's statuses are well formed.
pub open spec fn all_wf(units: Seq<Unit>) -> bool {
    forall|j: int| 0 <= j < units.len() ==> #[trigger] units[j].statuses.wf()
}

/// `after` is `before` with only the statuses of unit `k` changed, to `m`.
pub open spec fn statuses_now(before: Seq<Unit>, after: Seq<Unit>, k: int, m: Map<Seq<char>, StatusInstance>) -> bool {
    &&& after.len() == before.len()
    &&& forall|j: int| 0 <= j < before.len() && j != k ==> after[j] == before[j]
    &&& after[k] == Unit { statuses: after[k].statuses, ..before[k] }
    &&& after[k].statuses@ == m
}

/// `m` with `dp` added to the Potency and then `dc` to the Count of `key`
/// (never below 0).
pub open spec fn bumped(m: Map<Seq<char>, StatusInstance>, key: Seq<char>, dp: i32, dc: i32) -> Map<
    Seq<char>,
    StatusInstance,
> {
    let s0 = status_of(m, key);
    let m1 = with_status(m, key, StatusInstance { potency: max0(s0.potency + dp), ..s0 });
    let s1 = status_of(m1, key);
    with_status(m1, key, StatusInstance { count: max0(s1.count + dc), ..s1 })
}

fn bump_status(units: &mut Vec<Unit>, k: usize, key: &str, dp: i32, dc: i32)
    requires
        k < old(units)@.len(),
        all_wf(old(units)@),
        status_of(old(units)@[k as int].statuses@, key@).potency + dp <= i32::MAX,
        status_of(old(units)@[k as int].statuses@, key@).count + dc <= i32::MAX,
    ensures
        all_wf(final(units)@),
        statuses_now(old(units)@, final(units)@, k as int, bumped(old(units)@[k as int].statuses@, key@, dp, dc)),
{
    let ghost u0 = units@;
    let mut u = units.remove(k);
    let ghost before = u;
    assert(u.statuses.wf());
    u.statuses.add_potency(key, dp);
    u.statuses.add_count(key, dc);
    assert(u == Unit { statuses: u.statuses, ..before });
    units.insert(k, u);
    assert(units@ =~= u0.update(k as int, u));
}

/// Is `skill` the state-exclusive "big" skill of the unit's active state?
pub open spec fn signature(u: Unit, skill: Seq<char>) -> bool {
    match u.time_state {
        Some(active) => exists|k: int|
            0 <= k < u.time_signature@.len() && #[trigger] u.time_signature@[k].0 == active
                && u.time_signature@[k].1@ == skill,
        None => false,
    }
}

pub fn is_signature(units: &Vec<Unit>, unit_index: usize, skill: &SkillId) -> (b: bool)
    requires
        unit_index < units@.len(),
    ensures
        b == signature(units@[unit_index as int], skill@),
{
    let unit = &units[unit_index];
    let active = match unit.time_state {
        Some(t) => t,
        None => {
            return false;
        },
    };
    let mut k: usize = 0;
    while k < unit.time_signature.len()
        invariant
            unit_index < units@.len(),
            *unit == units@[unit_index as int],
            unit.time_state == Some(active),
            k <= unit.time_signature@.len(),
            forall|t: int|
                0 <= t < k ==> !(#[trigger] unit.time_signature@[t].0 == active && unit.time_signature@[t].1@
                    == skill@),
        decreases unit.time_signature.len() - k,
    {
        let entry = &unit.time_signature[k];
        if entry.0 == active && same_text(entry.1.as_str(), skill.as_str()) {
            assert(unit.time_signature@[k as int].0 == active && unit.time_signature@[k as int].1@ == skill@);
            return true;
        }
        k = k + 1;
    }
    false
}

/// Signature skills gain Final Power +2 in their own state.
pub fn signature_final_power(units: &Vec<Unit>, unit_index: usize, skill: &SkillId) -> (p: i32)
    requires
        unit_index < units@.len(),
    ensures
        p == if signature(units@[unit_index as int], skill@) {
            2i32
        } else {
            0i32
        },
{
    if is_signature(units, unit_index, skill) {
        2
    } else {
        0
    }
}

/// Is a passive component switched off by the campaign?
pub open spec fn disabled(c: CampaignState, key: Seq<char>) -> bool {
    exists|i: int| 0 <= i < c.disabled_passives@.len() && #[trigger] c.disabled_passives@[i]@ == key
}

/// Past: "When hit by Sinners, inflict 1 Burn and +1 Burn Count on the
/// attacking Sinner" (unless the campaign switched it off).
pub fn on_hit_by_sinner(units: &mut Vec<Unit>, campaign: &CampaignState, enemy_index: usize, attacker_index: usize)
    requires
        enemy_index < old(units)@.len(),
        attacker_index < old(units)@.len(),
        all_wf(old(units)@),
        status_of(old(units)@[attacker_index as int].statuses@, "Burn"@).potency < i32::MAX,
        status_of(old(units)@[attacker_index as int].statuses@, "Burn"@).count < i32::MAX,
    ensures
        all_wf(final(units)@),
        ({
            let fires = old(units)@[enemy_index as int].time_state == Some(TimeState::Past) && !disabled(
                *campaign,
                "past:burn_on_hit"@,
            ) && old(units)@[attacker_index as int].kind is Sinner;
            &&& fires ==> statuses_now(
                old(units)@,
                final(units)@,
                attacker_index as int,
                bumped(old(units)@[attacker_index as int].statuses@, "Burn"@, 1, 1),
            )
            &&& !fires ==> final(units)@ == old(units)@
        }),
{
    if units[enemy_index].time_state != Some(TimeState::Past) {
        return;
    }
    if campaign.is_disabled("past:burn_on_hit") {
        return;
    }
    if !units[attacker_index].kind.is_sinner() {
        return;
    }
    bump_status(units, attacker_index, "Burn", 1, 1);
}

/// Present: "Does not lose Poise Count On Crit."
pub fn keeps_poise_on_crit(units: &Vec<Unit>, unit_index: usize) -> (b: bool)
    requires
        unit_index < units@.len(),
    ensures
        b == (units@[unit_index as int].time_state == Some(TimeState::Present)),
{
    units[unit_index].time_state == Some(TimeState::Present)
}

/// The first living unit with Future active, from index `i` on.
pub open spec fn future_from(units: Seq<Unit>, i: int) -> Option<int>
    decreases units.len() - i,
{
    if i < 0 || i >= units.len() {
        None
    } else if units[i].alive && units[i].time_state == Some(TimeState::Future) {
        Some(i)
    } else {
        future_from(units, i + 1)
    }
}

/// Future: Bleed damage heals the (first living) unit that has the state
/// active.
pub fn bleed_lifesteal_target(units: &Vec<Unit>) -> (r: Option<usize>)
    ensures
        r matches Some(k) ==> future_from(units@, 0) == Some(k as int),
        r is None ==> future_from(units@, 0) is None,
{
    let mut i: usize = 0;
    while i < units.len()
        invariant
            i <= units@.len(),
            future_from(units@, 0) == future_from(units@, i as int),
        decreases units.len() - i,
    {
        if units[i].alive && units[i].time_state == Some(TimeState::Future) {
            return Some(i);
        }
        i = i + 1;
    }
    None
}

/// How many of `units` are living Sinners.
pub open spec fn sinners_alive(units: Seq<Unit>) -> nat
    decreases units.len(),
{
    if units.len() == 0 {
        0
    } else {
        sinners_alive(units.drop_last()) + if units.last().alive && units.last().kind is Sinner {
            1nat
        } else {
            0nat
        }
    }
}

proof fn lemma_sinners_alive_prefix(units: Seq<Unit>, i: int)
    requires
        0 <= i < units.len(),
    ensures
        sinners_alive(units.take(i + 1)) == sinners_alive(units.take(i)) + if units[i].alive
            && units[i].kind is Sinner {
            1nat
        } else {
            0nat
        },
        sinners_alive(units.take(i)) <= i,
{
    assert(units.take(i + 1).drop_last() =~= units.take(i));
    lemma_sinners_alive_bound(units.take(i));
}

proof fn lemma_sinners_alive_bound(units: Seq<Unit>)
    ensures
        sinners_alive(units) <= units.len(),
    decreases units.len(),
{
    if units.len() > 0 {
        lemma_sinners_alive_bound(units.drop_last());
    }
}

fn count_sinners_alive(units: &Vec<Unit>) -> (n: usize)
    ensures
        n == sinners_alive(units@),
{
    let mut n: usize = 0;
    let mut i: usize = 0;
    while i < units.len()
        invariant
            i <= units@.len(),
            n == sinners_alive(units@.take(i as int)),
            n <= i,
        decreases units.len() - i,
    {
        proof {
            lemma_sinners_alive_prefix(units@, i as int);
        }
        if units[i].alive && units[i].kind.is_sinner() {
            n = n + 1;
        }
        i = i + 1;
    }
    assert(units@.take(units@.len() as int) =~= units@);
    n
}

/// Every unit for which `pick` holds has `f` applied to its statuses; the
/// others are unchanged.
pub open spec fn each_where(
    before: Seq<Unit>,
    after: Seq<Unit>,
    pick: spec_fn(Unit) -> bool,
    f: spec_fn(Map<Seq<char>, StatusInstance>) -> Map<Seq<char>, StatusInstance>,
) -> bool {
    &&& after.len() == before.len()
    &&& forall|j: int|
        0 <= j < before.len() ==> if pick(before[j]) {
            &&& #[trigger] after[j] == Unit { statuses: after[j].statuses, ..before[j] }
            &&& after[j].statuses@ == f(before[j].statuses@)
        } else {
            after[j] == before[j]
        }
}

/// Past at Turn Start: "Inflict 5 HP Healing Down and 3 Wrath Fragility on
/// all Sinners who have 10+ (Burn Potency + Burn Count)".
pub open spec fn burning_sinner(u: Unit) -> bool {
    u.alive && u.kind is Sinner && status_of(u.statuses@, "Burn"@).potency + status_of(u.statuses@, "Burn"@).count
        >= 10
}

pub open spec fn past_turn_start(m: Map<Seq<char>, StatusInstance>) -> Map<Seq<char>, StatusInstance> {
    bumped(bumped(m, "HP Healing Down"@, 5, 0), "Wrath Fragility"@, 3, 0)
}

/// Future at Turn Start: "All Sinners gain +(3 + # of current turn / 2)
/// Bleed Count (rounded up)".
pub open spec fn future_bleed(turn: u32) -> int {
    3 + (turn + 1) / 2
}

/// Bounds that keep the Turn Start grants within i32.
pub open spec fn turn_start_fits(u: Unit) -> bool {
    &&& status_of(u.statuses@, "HP Healing Down"@).potency <= i32::MAX - 5
    &&& status_of(u.statuses@, "Wrath Fragility"@).potency <= i32::MAX - 3
    &&& i32::MIN <= status_of(u.statuses@, "Burn"@).potency + status_of(u.statuses@, "Burn"@).count <= i32::MAX
    &&& status_of(u.statuses@, "Bleed"@).count <= i32::MAX - 0x4000_0003
    &&& status_of(u.statuses@, "Poise"@).potency <= i32::MAX - 0x4000_0003
    &&& status_of(u.statuses@, "Poise"@).count <= i32::MAX - 0x4000_0003
}

proof fn lemma_keys_differ()
    ensures
        "HP Healing Down"@ != "Wrath Fragility"@,
{
    reveal_strlit("HP Healing Down");
    reveal_strlit("Wrath Fragility");
    assert("HP Healing Down"@[0] != "Wrath Fragility"@[0]);
}

/// Turn-start effects of the unit's active state of time.
pub fn turn_start(units: &mut Vec<Unit>, campaign: &CampaignState, turn: u32, unit_index: usize)
    requires
        unit_index < old(units)@.len(),
        old(units)@.len() < 0x4000_0000,
        turn < 0x7fff_fffe,
        all_wf(old(units)@),
        forall|j: int| 0 <= j < old(units)@.len() ==> turn_start_fits(#[trigger] old(units)@[j]),
    ensures
        all_wf(final(units)@),
        match old(units)@[unit_index as int].time_state {
            None => final(units)@ == old(units)@,
            Some(TimeState::Past) => if disabled(*campaign, "past:turn_start"@) {
                final(units)@ == old(units)@
            } else {
                each_where(
                    old(units)@,
                    final(units)@,
                    |u: Unit| burning_sinner(u),
                    |m: Map<Seq<char>, StatusInstance>| past_turn_start(m),
                )
            },
            Some(TimeState::Present) => {
                let gain = 2 + sinners_alive(old(units)@);
                statuses_now(
                    old(units)@,
                    final(units)@,
                    unit_index as int,
                    bumped(old(units)@[unit_index as int].statuses@, "Poise"@, gain as i32, gain as i32),
                )
            },
            Some(TimeState::Future) => each_where(
                old(units)@,
                final(units)@,
                |u: Unit| u.alive && u.kind is Sinner,
                |m: Map<Seq<char>, StatusInstance>| bumped(m, "Bleed"@, 0, future_bleed(turn) as i32),
            ),
        },
{
    let active = match units[unit_index].time_state {
        Some(t) => t,
        None => {
            return;
        },
    };
    let ghost u0 = units@;
    match active {
        TimeState::Past => {
            if campaign.is_disabled("past:turn_start") {
                return;
            }
            proof {
                lemma_keys_differ();
            }
            let mut index: usize = 0;
            while index < units.len()
                invariant
                    index <= units@.len(),
                    units@.len() == u0.len(),
                    all_wf(units@),
                    "HP Healing Down"@ != "Wrath Fragility"@,
                    forall|j: int| index <= j < u0.len() ==> #[trigger] units@[j] == u0[j],
                    forall|j: int| 0 <= j < u0.len() ==> turn_start_fits(#[trigger] u0[j]),
                    forall|j: int|
                        0 <= j < index ==> if burning_sinner(u0[j]) {
                            &&& #[trigger] units@[j] == Unit { statuses: units@[j].statuses, ..u0[j] }
                            &&& units@[j].statuses@ == past_turn_start(u0[j].statuses@)
                        } else {
                            units@[j] == u0[j]
                        },
                decreases u0.len() - index,
            {
                assert(units@[index as int] == u0[index as int]);
                assert(turn_start_fits(u0[index as int]));
                if units[index].kind.is_sinner() && units[index].alive {
                    let burn = units[index].statuses.total_of("Burn");
                    if burn >= 10 {
                        let ghost mid0 = units@;
                        bump_status(units, index, "HP Healing Down", 5, 0);
                        let ghost mid1 = units@;
                        proof {
                            let m0 = u0[index as int].statuses@;
                            assert(status_of(bumped(m0, "HP Healing Down"@, 5, 0), "Wrath Fragility"@)
                                == status_of(m0, "Wrath Fragility"@));
                        }
                        bump_status(units, index, "Wrath Fragility", 3, 0);
                        proof {
                            assert forall|j: int| 0 <= j < u0.len() && j != index implies units@[j]
                                == mid0[j] by {}
                        }
                    }
                }
                index = index + 1;
            }
        },
        TimeState::Present => {
            let count = count_sinners_alive(units);
            proof {
                lemma_sinners_alive_bound(units@);
                assert(turn_start_fits(units@[unit_index as int]));
            }
            let gain: i32 = 2 + count as i32;
            bump_status(units, unit_index, "Poise", gain, gain);
        },
        TimeState::Future => {
            let gain: i32 = 3 + (turn as i32 + 1) / 2;
            let mut index: usize = 0;
            while index < units.len()
                invariant
                    index <= units@.len(),
                    units@.len() == u0.len(),
                    all_wf(units@),
                    turn < 0x7fff_fffe,
                    gain == future_bleed(turn),
                    forall|j: int| index <= j < u0.len() ==> #[trigger] units@[j] == u0[j],
                    forall|j: int| 0 <= j < u0.len() ==> turn_start_fits(#[trigger] u0[j]),
                    forall|j: int|
                        0 <= j < index ==> if u0[j].alive && u0[j].kind is Sinner {
                            &&& #[trigger] units@[j] == Unit { statuses: units@[j].statuses, ..u0[j] }
                            &&& units@[j].statuses@ == bumped(u0[j].statuses@, "Bleed"@, 0, gain)
                        } else {
                            units@[j] == u0[j]
                        },
                decreases u0.len() - index,
            {
                assert(units@[index as int] == u0[index as int]);
                assert(turn_start_fits(u0[index as int]));
                if units[index].kind.is_sinner() && units[index].alive {
                    bump_status(units, index, "Bleed", 0, gain);
                }
                index = index + 1;
            }
        },
    }
}

/// The last Coin of a signature skill: Past (Kalpāgni) deals SP damage equal
/// to half the Stack; Present (Smite the Wicked) raises the target's Stagger
/// Threshold by half the Stack; Future (Bloodflower) heals Stack x 3 HP on
/// the Imago.
#[verifier::rlimit(80)]
pub fn signature_last_coin(
    units: &mut Vec<Unit>,
    campaign: &CampaignState,
    enemy_index: usize,
    skill: &SkillId,
    coin_index: usize,
    coin_count: usize,
    target_index: usize,
)
    requires
        enemy_index < old(units)@.len(),
        target_index < old(units)@.len(),
        coin_index < usize::MAX,
        all_wf(old(units)@),
        ({
            let u = old(units)@[enemy_index as int];
            let t = old(units)@[target_index as int];
            u.time_state matches Some(s) ==> {
                let stack = stack_in(u.statuses@, s);
                &&& stack >= -0x2aaa_aaaa && stack <= 0x2aaa_aaaa
                &&& u.hp + stack * 3 <= i32::MAX
                &&& (t.stagger.thresholds_hp@.len() == 0 && t.stagger.thresholds_percent@.len() > 0 ==>
                    t.stagger.thresholds_percent@[0] + stack / 2 + 1 <= i32::MAX)
                &&& (t.stagger.thresholds_hp@.len() > 0 ==> t.stagger.thresholds_hp@[t.stagger.first_live_line()]
                    + stack / 2 + 1 <= i32::MAX)
            }
        }),
    ensures
        all_wf(final(units)@),
        ({
            let u = old(units)@[enemy_index as int];
            let fires = coin_index + 1 == coin_count && signature(u, skill@);
            if !fires {
                final(units)@ == old(units)@
            } else {
                let active = u.time_state.unwrap();
                let stack = stack_in(u.statuses@, active);
                let half = crate::state::trunc_div(stack as int, 2);
                match active {
                    TimeState::Past => if disabled(*campaign, "past:kalpagni"@) {
                        final(units)@ == old(units)@
                    } else {
                        final(units)@ == old(units)@.update(
                            target_index as int,
                            Unit {
                                sanity: old(units)@[target_index as int].sanity.moved(-half),
                                ..old(units)@[target_index as int]
                            },
                        )
                    },
                    TimeState::Present => {
                        let t = old(units)@[target_index as int];
                        &&& final(units)@.len() == old(units)@.len()
                        &&& forall|j: int|
                            0 <= j < old(units)@.len() && j != target_index ==> final(units)@[j] == old(
                                units,
                            )@[j]
                        &&& final(units)@[target_index as int] == Unit {
                            stagger: final(units)@[target_index as int].stagger,
                            ..t
                        }
                        &&& t.stagger.shifted(final(units)@[target_index as int].stagger, half as i32)
                    },
                    TimeState::Future => {
                        let v = u.hp + if stack * 3 < 0 {
                            0
                        } else {
                            stack * 3
                        };
                        final(units)@ == old(units)@.update(
                            enemy_index as int,
                            Unit {
                                hp: (if v < u.max_hp {
                                    v
                                } else {
                                    u.max_hp as int
                                }) as i32,
                                ..u
                            },
                        )
                    },
                }
            }
        }),
{
    if coin_index + 1 != coin_count || !is_signature(units, enemy_index, skill) {
        return;
    }
    let active = match units[enemy_index].time_state {
        Some(t) => t,
        None => {
            return;
        },
    };
    let stack = units[enemy_index].statuses.stack(active.stack_key());
    assert(stack == stack_in(units@[enemy_index as int].statuses@, active));
    let half = stack / 2;
    assert(half == crate::state::trunc_div(stack as int, 2));
    match active {
        TimeState::Past => {
            if campaign.is_disabled("past:kalpagni") {
                return;
            }
            sp_damage(units, target_index, half);
        },
        TimeState::Present => {
            raise_threshold(units, target_index, half);
        },
        TimeState::Future => {
            heal_unit(units, enemy_index, stack * 3);
        },
    }
}

fn sp_damage(units: &mut Vec<Unit>, k: usize, amount: i32)
    requires
        k < old(units)@.len(),
        amount > i32::MIN,
    ensures
        final(units)@ == old(units)@.update(
            k as int,
            Unit { sanity: old(units)@[k as int].sanity.moved(-amount), ..old(units)@[k as int] },
        ),
{
    let ghost u0 = units@;
    let mut t = units.remove(k);
    t.sanity = t.sanity.add(-amount);
    units.insert(k, t);
    assert(units@ =~= u0.update(k as int, t));
}

fn raise_threshold(units: &mut Vec<Unit>, k: usize, amount: i32)
    requires
        k < old(units)@.len(),
        ({
            let t = old(units)@[k as int];
            &&& (t.stagger.thresholds_hp@.len() == 0 && t.stagger.thresholds_percent@.len() > 0 ==>
                t.stagger.thresholds_percent@[0] + amount <= i32::MAX)
            &&& (t.stagger.thresholds_hp@.len() > 0 ==> t.stagger.thresholds_hp@[t.stagger.first_live_line()]
                + amount <= i32::MAX)
        }),
    ensures
        final(units)@.len() == old(units)@.len(),
        forall|j: int| 0 <= j < old(units)@.len() && j != k ==> final(units)@[j] == old(units)@[j],
        final(units)@[k as int] == (Unit { stagger: final(units)@[k as int].stagger, ..old(units)@[k as int] }),
        old(units)@[k as int].stagger.shifted(final(units)@[k as int].stagger, amount),
{
    let ghost u0 = units@;
    let mut t = units.remove(k);
    let ghost before = t;
    t.stagger.shift_first_threshold(amount);
    assert(t == Unit { stagger: t.stagger, ..before });
    units.insert(k, t);
    assert(units@ =~= u0.update(k as int, t));
}

fn heal_unit(units: &mut Vec<Unit>, k: usize, amount: i32)
    requires
        k < old(units)@.len(),
        old(units)@[k as int].hp + (if amount < 0 {
            0
        } else {
            amount as int
        }) <= i32::MAX,
    ensures
        ({
            let u = old(units)@[k as int];
            let v = u.hp + if amount < 0 {
                0
            } else {
                amount as int
            };
            final(units)@ == old(units)@.update(
                k as int,
                Unit {
                    hp: (if v < u.max_hp {
                        v
                    } else {
                        u.max_hp as int
                    }) as i32,
                    ..u
                },
            )
        }),
{
    let ghost u0 = units@;
    let mut e = units.remove(k);
    e.heal(amount);
    units.insert(k, e);
    assert(units@ =~= u0.update(k as int, e));
}

} // verus!
