//! Combat bookkeeping that the turn loop is built from: Coins and their
//! states, the Clash round, Final Power, E.G.O costs and the Corrosion table.

use vstd::prelude::*;
use crate::ids::{EgoId, Sin, SkillId, UnitId};
use crate::keyed::StrMap;
use crate::library::EgoRecord;
use crate::state::{max0, status_of, with_status, Sanity, StatusInstance, StatusSet, SP_LIMIT};
use crate::dice::{can_draw, flip_step, flips, lemma_flips_draws, lemma_flips_snoc, uses_preset, Dice, DiceState};
use crate::text::{decimal, push_decimal, same_text};

verus! {

/// Skill ids that mean "no skill": enemy slots that are empty.
pub const EMPTY_SKILL: &'static str = "";

#[derive(Clone, Copy, Debug, PartialEq, Eq, Structural)]
pub enum CoinState {
    Fresh,
    Destroyed,
    /// Unbreakable coin that survived a lost clash (wiki.gg `Clash`).
    Cracked,
}

#[derive(Clone, Copy, Debug, PartialEq, Eq, Structural)]
pub struct CoinRuntime {
    pub heads: Option<bool>,
    pub state: CoinState,
    pub unbreakable: bool,
    /// Set when Paralyze fixed this coin's power to 0 for the current toss.
    pub paralyzed: bool,
}

impl CoinRuntime {
    pub fn fresh(unbreakable: bool) -> (c: Self)
        ensures
            c == (CoinRuntime { heads: None, state: CoinState::Fresh, unbreakable, paralyzed: false }),
    {
        CoinRuntime { heads: None, state: CoinState::Fresh, unbreakable, paralyzed: false }
    }
}

/// A coin after it lost a Clash: Unbreakable Coins crack, others are destroyed.
pub open spec fn broken(c: CoinRuntime) -> CoinRuntime {
    CoinRuntime {
        state: if c.unbreakable {
            CoinState::Cracked
        } else {
            CoinState::Destroyed
        },
        ..c
    }
}

pub fn break_coin(coin: &mut CoinRuntime, _unit_index: usize)
    ensures
        *final(coin) == broken(*old(coin)),
{
    coin.state = if coin.unbreakable {
        CoinState::Cracked
    } else {
        CoinState::Destroyed
    };
}

pub fn break_coin_for_test(coin: &mut CoinRuntime)
    ensures
        *final(coin) == broken(*old(coin)),
{
    break_coin(coin, 0);
}

/// Index of the first coin in play at or after `i`.
pub open spec fn first_fresh_from(coins: Seq<CoinRuntime>, i: int) -> Option<int>
    decreases coins.len() - i,
{
    if i < 0 || i >= coins.len() {
        None
    } else if coins[i].state == CoinState::Fresh {
        Some(i)
    } else {
        first_fresh_from(coins, i + 1)
    }
}

/// Index of the first coin still in play.
pub open spec fn first_fresh(coins: Seq<CoinRuntime>) -> Option<int> {
    first_fresh_from(coins, 0)
}

pub proof fn lemma_first_fresh_from(coins: Seq<CoinRuntime>, i: int)
    requires
        0 <= i,
    ensures
        match first_fresh_from(coins, i) {
            Some(k) => i <= k < coins.len() && coins[k].state == CoinState::Fresh && forall|j: int|
                i <= j < k ==> coins[j].state != CoinState::Fresh,
            None => forall|j: int| i <= j < coins.len() ==> coins[j].state != CoinState::Fresh,
        },
    decreases coins.len() - i,
{
    if i < coins.len() && coins[i].state != CoinState::Fresh {
        lemma_first_fresh_from(coins, i + 1);
    }
}

/// Number of coins in play.
pub open spec fn fresh_count(coins: Seq<CoinRuntime>) -> nat
    decreases coins.len(),
{
    if coins.len() == 0 {
        0
    } else {
        fresh_count(coins.drop_last()) + if coins.last().state == CoinState::Fresh {
            1nat
        } else {
            0nat
        }
    }
}

/// The coins after the first one in play was broken (unchanged when none is).
pub open spec fn after_destroy_first(coins: Seq<CoinRuntime>) -> Seq<CoinRuntime> {
    match first_fresh(coins) {
        Some(i) => coins.update(i, broken(coins[i])),
        None => coins,
    }
}

proof fn lemma_no_fresh(coins: Seq<CoinRuntime>)
    requires
        forall|j: int| 0 <= j < coins.len() ==> coins[j].state != CoinState::Fresh,
    ensures
        first_fresh(coins) is None,
        fresh_count(coins) == 0,
    decreases coins.len(),
{
    lemma_first_fresh_from(coins, 0);
    if coins.len() > 0 {
        lemma_no_fresh(coins.drop_last());
    }
}

pub proof fn lemma_fresh_count_update(coins: Seq<CoinRuntime>, i: int, c: CoinRuntime)
    requires
        0 <= i < coins.len(),
    ensures
        fresh_count(coins.update(i, c)) + (if coins[i].state == CoinState::Fresh {
            1int
        } else {
            0int
        }) == fresh_count(coins) + (if c.state == CoinState::Fresh {
            1int
        } else {
            0int
        }),
    decreases coins.len(),
{
    let u = coins.update(i, c);
    if i == coins.len() - 1 {
        assert(u.drop_last() =~= coins.drop_last());
    } else {
        assert(u.drop_last() =~= coins.drop_last().update(i, c));
        lemma_fresh_count_update(coins.drop_last(), i, c);
    }
}

pub proof fn lemma_fresh_count_positive(coins: Seq<CoinRuntime>, i: int)
    requires
        0 <= i < coins.len(),
        coins[i].state == CoinState::Fresh,
    ensures
        fresh_count(coins) > 0,
    decreases coins.len(),
{
    if i < coins.len() - 1 {
        lemma_fresh_count_positive(coins.drop_last(), i);
    }
}

/// Destroy the first coin that is still in play (Japanese wiki: the losing
/// side's coins break in order from the first one).
pub fn destroy_first_coin(coins: &mut Vec<CoinRuntime>, _unit_index: usize)
    ensures
        final(coins)@ == after_destroy_first(old(coins)@),
{
    let mut i: usize = 0;
    while i < coins.len()
        invariant
            i <= coins@.len(),
            coins@ == old(coins)@,
            forall|j: int| 0 <= j < i ==> coins@[j].state != CoinState::Fresh,
            first_fresh(coins@) == first_fresh_from(coins@, i as int),
        decreases coins.len() - i,
    {
        if coins[i].state == CoinState::Fresh {
            proof {
                lemma_first_fresh_from(coins@, 0);
                lemma_first_fresh_from(coins@, i as int);
            }
            let mut c = coins[i];
            break_coin(&mut c, 0);
            coins.set(i, c);
            return;
        }
        i = i + 1;
    }
    proof {
        lemma_no_fresh(coins@);
    }
}

/// `SkillUse::current_coin`: the first coin still in play.
pub fn current_coin(coins: &Vec<CoinRuntime>) -> (r: Option<usize>)
    ensures
        match r {
            Some(i) => first_fresh(coins@) == Some(i as int),
            None => first_fresh(coins@) is None,
        },
{
    let mut i: usize = 0;
    while i < coins.len()
        invariant
            i <= coins@.len(),
            forall|j: int| 0 <= j < i ==> coins@[j].state != CoinState::Fresh,
            first_fresh(coins@) == first_fresh_from(coins@, i as int),
        decreases coins.len() - i,
    {
        if coins[i].state == CoinState::Fresh {
            proof {
                lemma_first_fresh_from(coins@, 0);
                lemma_first_fresh_from(coins@, i as int);
            }
            return Some(i);
        }
        i = i + 1;
    }
    proof {
        lemma_no_fresh(coins@);
    }
    None
}

/// `SkillUse::has_fresh_coins`.
pub fn has_fresh_coins(coins: &Vec<CoinRuntime>) -> (b: bool)
    ensures
        b == (first_fresh(coins@) is Some),
        b == (fresh_count(coins@) > 0),
{
    let r = current_coin(coins);
    proof {
        lemma_first_fresh_from(coins@, 0);
        match r {
            Some(i) => {
                lemma_fresh_count_positive(coins@, i as int);
            },
            None => {
                if fresh_count(coins@) > 0 {
                    lemma_fresh_exists(coins@);
                }
            },
        }
    }
    r.is_some()
}

proof fn lemma_fresh_exists(coins: Seq<CoinRuntime>)
    requires
        fresh_count(coins) > 0,
    ensures
        first_fresh(coins) is Some,
    decreases coins.len(),
{
    if coins.last().state != CoinState::Fresh {
        lemma_fresh_exists(coins.drop_last());
        lemma_first_fresh_from(coins.drop_last(), 0);
        lemma_first_fresh_from(coins, 0);
        let i = first_fresh(coins.drop_last())->0;
        assert(coins[i].state == CoinState::Fresh);
    } else {
        lemma_first_fresh_from(coins, 0);
        assert(coins[coins.len() - 1].state == CoinState::Fresh);
    }
}

/// Indices of the cracked (Unbreakable, lost) coins, in order.
pub open spec fn cracked_indices(coins: Seq<CoinRuntime>) -> Seq<int>
    decreases coins.len(),
{
    if coins.len() == 0 {
        Seq::empty()
    } else {
        cracked_indices(coins.drop_last()) + if coins.last().state == CoinState::Cracked {
            seq![coins.len() - 1]
        } else {
            Seq::empty()
        }
    }
}

/// `SkillUse::cracked_coins`.
pub fn cracked_coins(coins: &Vec<CoinRuntime>) -> (r: Vec<usize>)
    ensures
        r@.map_values(|i: usize| i as int) == cracked_indices(coins@),
{
    let mut r: Vec<usize> = Vec::new();
    let mut i: usize = 0;
    while i < coins.len()
        invariant
            i <= coins@.len(),
            r@.map_values(|k: usize| k as int) == cracked_indices(coins@.subrange(0, i as int)),
        decreases coins.len() - i,
    {
        let ghost before = r@;
        if coins[i].state == CoinState::Cracked {
            r.push(i);
        }
        proof {
            let next = coins@.subrange(0, i + 1);
            assert(next.drop_last() =~= coins@.subrange(0, i as int));
            assert(r@.map_values(|k: usize| k as int) =~= cracked_indices(next));
        }
        i = i + 1;
    }
    assert(coins@.subrange(0, coins@.len() as int) =~= coins@);
    r
}

/// Number of coins not destroyed.
pub open spec fn undestroyed_count(coins: Seq<CoinRuntime>) -> nat
    decreases coins.len(),
{
    if coins.len() == 0 {
        0
    } else {
        undestroyed_count(coins.drop_last()) + if coins.last().state != CoinState::Destroyed {
            1nat
        } else {
            0nat
        }
    }
}

/// `SkillUse::remaining_coins`.
pub fn remaining_coins(coins: &Vec<CoinRuntime>) -> (n: usize)
    ensures
        n == undestroyed_count(coins@),
{
    let mut n: usize = 0;
    let mut i: usize = 0;
    while i < coins.len()
        invariant
            i <= coins@.len(),
            n == undestroyed_count(coins@.subrange(0, i as int)),
            n <= i,
        decreases coins.len() - i,
    {
        proof {
            let next = coins@.subrange(0, i + 1);
            assert(next.drop_last() =~= coins@.subrange(0, i as int));
        }
        if coins[i].state != CoinState::Destroyed {
            n = n + 1;
        }
        i = i + 1;
    }
    assert(coins@.subrange(0, coins@.len() as int) =~= coins@);
    n
}

/// Which side won a Clash.
#[derive(Clone, Copy, Debug, PartialEq, Eq, Structural)]
pub enum ClashSide {
    First,
    Second,
}

/// One Clash round: both sides compared their Match Power, the lower side
/// loses its first remaining coin; a tie destroys nothing (wiki.gg `Clash`).
pub fn clash_round(a: &mut Vec<CoinRuntime>, b: &mut Vec<CoinRuntime>, a_power: i32, b_power: i32)
    ensures
        a_power > b_power ==> final(a)@ == old(a)@ && final(b)@ == after_destroy_first(old(b)@),
        b_power > a_power ==> final(b)@ == old(b)@ && final(a)@ == after_destroy_first(old(a)@),
        a_power == b_power ==> final(a)@ == old(a)@ && final(b)@ == old(b)@,
{
    if a_power > b_power {
        destroy_first_coin(b, 1);
    } else if b_power > a_power {
        destroy_first_coin(a, 0);
    }
}

/// The Clash winner: the side that still has coins in play when the other has
/// none; `None` while both (or neither) still have coins.
pub open spec fn clash_winner_of(a: Seq<CoinRuntime>, b: Seq<CoinRuntime>) -> Option<ClashSide> {
    if fresh_count(a) > 0 && fresh_count(b) == 0 {
        Some(ClashSide::First)
    } else if fresh_count(a) == 0 && fresh_count(b) > 0 {
        Some(ClashSide::Second)
    } else {
        None
    }
}

pub fn clash_winner(a: &Vec<CoinRuntime>, b: &Vec<CoinRuntime>) -> (w: Option<ClashSide>)
    ensures
        w == clash_winner_of(a@, b@),
{
    let fa = has_fresh_coins(a);
    let fb = has_fresh_coins(b);
    if fa && !fb {
        Some(ClashSide::First)
    } else if !fa && fb {
        Some(ClashSide::Second)
    } else {
        None
    }
}

/// Breaking the first coin in play takes exactly one coin out of play (and
/// none when there is none left).
pub proof fn destroy_first_removes_one(coins: Seq<CoinRuntime>)
    ensures
        fresh_count(coins) > 0 ==> fresh_count(after_destroy_first(coins)) + 1 == fresh_count(coins),
        fresh_count(coins) == 0 ==> after_destroy_first(coins) == coins,
{
    lemma_first_fresh_from(coins, 0);
    match first_fresh(coins) {
        Some(i) => {
            lemma_fresh_count_update(coins, i, broken(coins[i]));
            lemma_fresh_count_positive(coins, i);
        },
        None => {
            if fresh_count(coins) > 0 {
                lemma_fresh_exists(coins);
            }
        },
    }
}

/// A Clash round never leaves the winner of the round with fewer coins, takes
/// exactly one coin from the loser, and takes none on a tie; so every decided
/// round brings the Clash one coin closer to its end.
pub proof fn clash_round_progress(
    a: Seq<CoinRuntime>,
    b: Seq<CoinRuntime>,
    a_power: i32,
    b_power: i32,
)
    requires
        fresh_count(a) > 0,
        fresh_count(b) > 0,
    ensures
        a_power > b_power ==> fresh_count(after_destroy_first(b)) + 1 == fresh_count(b),
        b_power > a_power ==> fresh_count(after_destroy_first(a)) + 1 == fresh_count(a),
{
    destroy_first_removes_one(a);
    destroy_first_removes_one(b);
}

/// Coin Power of one coin in play: 0 when Paralyzed; a cracked Unbreakable
/// Coin's own power becomes 1 (JA-wiki 破壊不能コイン) before the Coin Power
/// modifiers apply; Plus Coin Boost raises plus coins, Minus Coin Drop lowers
/// minus coins.
pub open spec fn coin_power_of(
    coin: CoinRuntime,
    coin_power: i32,
    coin_power_bonus: i32,
    coin_power_boost: i32,
    coin_power_drop: i32,
) -> int {
    if coin.paralyzed {
        0
    } else {
        let boost = coin_power_bonus + if coin_power > 0 {
            coin_power_boost as int
        } else {
            -coin_power_drop
        };
        if coin.state == CoinState::Cracked {
            1 + boost
        } else {
            coin_power + boost
        }
    }
}

pub fn effective_coin_power(
    coin: &CoinRuntime,
    coin_power: i32,
    coin_power_bonus: i32,
    coin_power_boost: i32,
    coin_power_drop: i32,
) -> (p: i64)
    ensures
        p == coin_power_of(*coin, coin_power, coin_power_bonus, coin_power_boost, coin_power_drop),
{
    if coin.paralyzed {
        return 0;
    }
    let boost: i64 = coin_power_bonus as i64 + if coin_power > 0 {
        coin_power_boost as i64
    } else {
        -(coin_power_drop as i64)
    };
    if coin.state == CoinState::Cracked {
        1 + boost
    } else {
        coin_power as i64 + boost
    }
}

/// Base Power plus the Coin Power of every coin in play that landed Heads.
pub open spec fn heads_power(
    base: int,
    coins: Seq<CoinRuntime>,
    coin_power: i32,
    coin_power_bonus: i32,
    coin_power_boost: i32,
    coin_power_drop: i32,
) -> int
    decreases coins.len(),
{
    if coins.len() == 0 {
        base
    } else {
        let c = coins.last();
        heads_power(
            base,
            coins.drop_last(),
            coin_power,
            coin_power_bonus,
            coin_power_boost,
            coin_power_drop,
        ) + if c.state == CoinState::Fresh && c.heads == Some(true) {
            coin_power_of(c, coin_power, coin_power_bonus, coin_power_boost, coin_power_drop)
        } else {
            0
        }
    }
}

/// **Final Power** of a skill: its base part once, plus the Coin Power of every
/// coin in play that landed Heads, never below 0 (wiki.gg `Battles`; JA-wiki
/// 戦闘システム詳細).
pub open spec fn final_power_of(
    base: i32,
    coins: Seq<CoinRuntime>,
    coin_power: i32,
    coin_power_bonus: i32,
    coin_power_boost: i32,
    coin_power_drop: i32,
) -> int {
    let t = heads_power(base as int, coins, coin_power, coin_power_bonus, coin_power_boost, coin_power_drop);
    if t < 0 {
        0
    } else {
        t
    }
}

pub fn final_power(
    base: i32,
    coins: &Vec<CoinRuntime>,
    coin_power: i32,
    coin_power_bonus: i32,
    coin_power_boost: i32,
    coin_power_drop: i32,
) -> (p: i32)
    requires
        coins@.len() < 0x1000_0000,
        final_power_of(base, coins@, coin_power, coin_power_bonus, coin_power_boost, coin_power_drop)
            <= i32::MAX,
    ensures
        p == final_power_of(base, coins@, coin_power, coin_power_bonus, coin_power_boost, coin_power_drop),
{
    let mut total: i64 = base as i64;
    let mut i: usize = 0;
    while i < coins.len()
        invariant
            i <= coins@.len(),
            coins@.len() < 0x1000_0000,
            total == heads_power(
                base as int,
                coins@.subrange(0, i as int),
                coin_power,
                coin_power_bonus,
                coin_power_boost,
                coin_power_drop,
            ),
            -0x4_0000_0000 * (i + 1) <= total <= 0x4_0000_0000 * (i + 1),
        decreases coins.len() - i,
    {
        proof {
            let next = coins@.subrange(0, i + 1);
            assert(next.drop_last() =~= coins@.subrange(0, i as int));
        }
        let c = coins[i];
        if c.state == CoinState::Fresh && c.heads == Some(true) {
            let p = effective_coin_power(&c, coin_power, coin_power_bonus, coin_power_boost, coin_power_drop);
            total = total + p;
        }
        i = i + 1;
    }
    assert(coins@.subrange(0, coins@.len() as int) =~= coins@);
    if total < 0 {
        0
    } else {
        total as i32
    }
}

/// Defense skill families.  Source: wiki.gg `Battles` / Defense Skills.
#[derive(Clone, Copy, Debug, PartialEq, Eq, Structural)]
pub enum DefenseKind {
    /// Adds Shield equal to its Final Power for the turn; does not attack.
    Guard,
    /// Flips its Coin against every incoming Coin; equal or higher negates it.
    Evade,
    /// Counterattacks whoever attacks the unit.
    Counter,
}

#[derive(Clone, Debug)]
pub struct HitResult {
    pub coin_index: usize,
    pub heads: bool,
    pub power: i32,
    pub damage: i32,
    pub critical: bool,
    pub staggered: bool,
    pub killed: bool,
}

#[derive(Clone, Debug)]
pub struct ClashResult {
    pub winner: Option<UnitId>,
    pub rounds: i32,
    pub attacker_coins_left: usize,
    pub defender_coins_left: usize,
}

#[derive(Clone, Copy, Debug, PartialEq, Eq, Structural)]
pub enum EgoSkillKind {
    Awakening,
    Corrosion,
    /// Corrosion without the indiscriminate downside: 1.5x SP and resources,
    /// rounded up (wiki.gg `Clash` / Overclocking).
    Overclock,
}

/// Everything a caller may submit for one dashboard slot.
#[derive(Clone, Debug, PartialEq, Eq)]
pub enum Action {
    Assign { actor: UnitId, slot: u32, skill: SkillId, target: UnitId },
    /// Chain this Skill to a specific enemy Skill Slot (focused encounters).
    Engage { actor: UnitId, slot: u32, skill: SkillId, enemy_slot: u32 },
    /// Use an E.G.O skill (wiki.gg `Clash` / E.G.O Skills).
    UseEgo { actor: UnitId, slot: u32, ego: EgoId, kind: EgoSkillKind, target: UnitId },
    /// Resolve the turn.
    Commit,
}

/// An action by the texts of its ids.
pub enum ActionView {
    Assign { actor: Seq<char>, slot: u32, skill: Seq<char>, target: Seq<char> },
    Engage { actor: Seq<char>, slot: u32, skill: Seq<char>, enemy_slot: u32 },
    UseEgo { actor: Seq<char>, slot: u32, ego: Seq<char>, kind: EgoSkillKind, target: Seq<char> },
    Commit,
}

impl View for Action {
    type V = ActionView;

    open spec fn view(&self) -> ActionView {
        match self {
            Action::Assign { actor, slot, skill, target } => ActionView::Assign {
                actor: actor@,
                slot: *slot,
                skill: skill@,
                target: target@,
            },
            Action::Engage { actor, slot, skill, enemy_slot } => ActionView::Engage {
                actor: actor@,
                slot: *slot,
                skill: skill@,
                enemy_slot: *enemy_slot,
            },
            Action::UseEgo { actor, slot, ego, kind, target } => ActionView::UseEgo {
                actor: actor@,
                slot: *slot,
                ego: ego@,
                kind: *kind,
                target: target@,
            },
            Action::Commit => ActionView::Commit,
        }
    }
}

/// Chance (percent) that an E.G.O use turns into a random Corrosion, from the
/// SP left after paying for it (JA-wiki 戦闘システム詳細): none from -24 up,
/// 25% from -34, 75% from -44, certain below.
pub open spec fn corrosion_chance_of(sp: i32) -> Option<i32> {
    if sp >= -24 {
        None
    } else if sp >= -34 {
        Some(25)
    } else if sp >= -44 {
        Some(75)
    } else {
        Some(100)
    }
}

pub fn corrosion_chance_for_sp(sp: i32) -> (r: Option<i32>)
    ensures
        r == corrosion_chance_of(sp),
{
    if sp >= -24 {
        return None;
    }
    Some(if sp >= -34 {
        25
    } else if sp >= -44 {
        75
    } else {
        100
    })
}

/// `(x as f64 * 1.5).ceil() as i32`: 1.5x rounded up, saturated into i32.
pub open spec fn overclocked(x: i32) -> i32 {
    let v = (3 * x + 1) / 2;
    if v > i32::MAX {
        i32::MAX
    } else if v < i32::MIN {
        i32::MIN
    } else {
        v as i32
    }
}

pub fn overclock(x: i32) -> (r: i32)
    ensures
        r == overclocked(x),
{
    let t: i64 = 3 * (x as i64) + 1;
    let v: i64 = if t >= 0 {
        t / 2
    } else {
        -((-t + 1) / 2)
    };
    assert(v == (3 * x + 1) / 2);
    if v > i32::MAX as i64 {
        i32::MAX
    } else if v < i32::MIN as i64 {
        i32::MIN
    } else {
        v as i32
    }
}

/// The SP an E.G.O costs, before it is paid: the Awakening or Corrosion SP,
/// Overclock paying 1.5x the Corrosion SP rounded up.
pub open spec fn ego_sp_cost_of(ego: EgoRecord, kind: EgoSkillKind) -> i32 {
    match kind {
        EgoSkillKind::Awakening => match ego.awakening_sp {
            Some(v) => v,
            None => 0,
        },
        EgoSkillKind::Corrosion => match ego.corrosion_sp {
            Some(v) => v,
            None => 0,
        },
        EgoSkillKind::Overclock => overclocked(
            match ego.corrosion_sp {
                Some(v) => v,
                None => 0,
            },
        ),
    }
}

pub fn ego_sp_cost(ego: &EgoRecord, kind: EgoSkillKind) -> (c: i32)
    ensures
        c == ego_sp_cost_of(*ego, kind),
{
    match kind {
        EgoSkillKind::Awakening => ego.awakening_sp.unwrap_or(0),
        EgoSkillKind::Corrosion => ego.corrosion_sp.unwrap_or(0),
        EgoSkillKind::Overclock => overclock(ego.corrosion_sp.unwrap_or(0)),
    }
}

/// Pick up to `count` allies from `allies` (already in preference order).
/// "(including this unit)" means the actor is one of the `count`, placed first.
pub open spec fn finish_spec(allies: Seq<usize>, count: usize, actor_index: usize, include_self: bool) -> Seq<
    usize,
> {
    if include_self {
        if count == 0 {
            Seq::empty()
        } else {
            seq![actor_index] + allies.take(if count - 1 <= allies.len() {
                (count - 1) as int
            } else {
                allies.len() as int
            })
        }
    } else {
        allies.take(if count <= allies.len() {
            count as int
        } else {
            allies.len() as int
        })
    }
}

/// Pick up to `count` allies, keeping their order; "(including this unit)"
/// makes the unit one of the `count`, first in the list.
pub fn finish(allies: Vec<usize>, count: usize, actor_index: usize, include_self: bool) -> (r: Vec<
    usize,
>)
    ensures
        r@ == finish_spec(allies@, count, actor_index, include_self),
{
    if include_self && count == 0 {
        return Vec::new();
    }
    let take = if include_self {
        count - 1
    } else {
        count
    };
    let n = if take <= allies.len() {
        take
    } else {
        allies.len()
    };
    let mut r: Vec<usize> = Vec::new();
    if include_self {
        r.push(actor_index);
    }
    let ghost start = r@;
    let mut i: usize = 0;
    while i < n
        invariant
            n <= allies@.len(),
            i <= n,
            r@ == start + allies@.take(i as int),
        decreases n - i,
    {
        r.push(allies[i]);
        i = i + 1;
        assert(r@ =~= start + allies@.take(i as int));
    }
    assert(r@ =~= finish_spec(allies@, count, actor_index, include_self));
    r
}

/// Display name of a sin, as it appears in status names ("Gloom Fragility").
pub fn sin_name(sin: Sin) -> (s: &'static str)
    ensures
        s@ == (match sin {
            Sin::Wrath => "Wrath"@,
            Sin::Lust => "Lust"@,
            Sin::Sloth => "Sloth"@,
            Sin::Gluttony => "Gluttony"@,
            Sin::Gloom => "Gloom"@,
            Sin::Pride => "Pride"@,
            Sin::Envy => "Envy"@,
        }),
{
    match sin {
        Sin::Wrath => "Wrath",
        Sin::Lust => "Lust",
        Sin::Sloth => "Sloth",
        Sin::Gluttony => "Gluttony",
        Sin::Gloom => "Gloom",
        Sin::Pride => "Pride",
        Sin::Envy => "Envy",
    }
}

/// The resource key of the sin at `index` in the in-game order (indices past
/// the last sin read as Envy).
pub open spec fn sin_key_at(index: u32) -> Seq<char> {
    if index == 0 {
        "wrath"@
    } else if index == 1 {
        "lust"@
    } else if index == 2 {
        "sloth"@
    } else if index == 3 {
        "gluttony"@
    } else if index == 4 {
        "gloom"@
    } else if index == 5 {
        "pride"@
    } else {
        "envy"@
    }
}

pub fn sin_key_by_index(index: u32) -> (s: &'static str)
    ensures
        s@ == sin_key_at(index),
{
    match index {
        0 => "wrath",
        1 => "lust",
        2 => "sloth",
        3 => "gluttony",
        4 => "gloom",
        5 => "pride",
        _ => "envy",
    }
}


/// "The Living & The Departed" (in-game `BulletLament`).
pub const AMMO_SOLEMN_LAMENT: &'static str = "The Living & The Departed";
/// "Bullet - Solitude" (in-game `BulletGodok`).
pub const AMMO_SOLITUDE: &'static str = "Bullet - Solitude";
/// "LCA Fracture Round" (in-game `LCA_Bullet`).
pub const AMMO_FRACTURE: &'static str = "LCA Fracture Round";
/// The marker a Reload of The Living & The Departed leaves.
pub const RELOAD_MARKER: &'static str = "Reload (Solemn Lament)";

/// Chance in percent that an ammo roll picks The Living: 30% at 0 SP or
/// more, 70% below 0 (passive `ISeeTheDyingButterfly.`).
pub open spec fn living_chance(sp: i32) -> i32 {
    if sp >= 0 {
        30
    } else {
        70
    }
}

/// Which half of the two-part ammo pool one round is drawn from: `true` for
/// The Living.
pub fn roll_living(dice: &mut Dice, sanity: Sanity) -> (living: bool)
    requires
        uses_preset(old(dice)@) || can_draw(old(dice)@, 1),
    ensures
        (living, final(dice)@) == flip_step(old(dice)@, living_chance(sanity.sp_of())),
{
    let chance: i32 = if sanity.sp() >= 0 {
        30
    } else {
        70
    };
    dice.flip(chance)
}

/// Spending up to `n` rounds of The Living & The Departed, one roll per
/// round: the rounds spent, how many were The Living, the Living and
/// Departed left, and the dice after.  A round whose preferred half is empty
/// takes the other half; when both are empty the spending stops (after its
/// roll).
pub open spec fn lament_spend(d: DiceState, chance: i32, living: int, departed: int, n: nat) -> (
    nat,
    nat,
    int,
    int,
    DiceState,
)
    decreases n,
{
    if n == 0 {
        (0, 0, living, departed, d)
    } else {
        let (wants_living, d1) = flip_step(d, chance);
        let take_living = if wants_living {
            living > 0
        } else {
            !(departed > 0) && living > 0
        };
        if take_living {
            let r = lament_spend(d1, chance, living - 1, departed, (n - 1) as nat);
            (r.0 + 1, r.1 + 1, r.2, r.3, r.4)
        } else if departed > 0 {
            let r = lament_spend(d1, chance, living, departed - 1, (n - 1) as nat);
            (r.0 + 1, r.1, r.2, r.3, r.4)
        } else {
            (0, 0, living, departed, d1)
        }
    }
}

proof fn lemma_lament_bounds(d: DiceState, chance: i32, living: int, departed: int, n: nat)
    ensures
        ({
            let r = lament_spend(d, chance, living, departed, n);
            &&& r.0 <= n
            &&& r.1 <= r.0
            &&& r.4.draws <= d.draws + n
            &&& r.4.presets == d.presets
            &&& (living >= 0 ==> r.2 >= 0) && r.2 <= living
            &&& (departed >= 0 ==> r.3 >= 0) && r.3 <= departed
            &&& r.2 == living - r.1
            &&& r.3 == departed - (r.0 - r.1)
        }),
    decreases n,
{
    if n > 0 {
        let (w, d1) = flip_step(d, chance);
        lemma_lament_bounds(d1, chance, living - 1, departed, (n - 1) as nat);
        lemma_lament_bounds(d1, chance, living, departed - 1, (n - 1) as nat);
    }
}

/// The statuses after a pool's values changed from `s` to `v`: unchanged
/// when nothing was spent.
pub open spec fn after_spending(
    m: Map<Seq<char>, StatusInstance>,
    key: Seq<char>,
    spent: nat,
    v: StatusInstance,
) -> Map<Seq<char>, StatusInstance> {
    if spent == 0 {
        m
    } else {
        with_status(m, key, v)
    }
}

proof fn lemma_with_status_twice(
    m: Map<Seq<char>, StatusInstance>,
    key: Seq<char>,
    a: StatusInstance,
    b: StatusInstance,
)
    ensures
        with_status(with_status(m, key, a), key, b) == with_status(m, key, b),
        status_of(with_status(m, key, a), key) == a,
{
    assert(with_status(with_status(m, key, a), key, b) =~= with_status(m, key, b));
}

/// Spend `amount` rounds from one ammo pool; returns the rounds actually
/// spent and, for The Living & The Departed, how many of them were The
/// Living.  Single-value ammo (Bullet - Solitude, LCA Fracture Round) is
/// spent from its Stack; The Living & The Departed rolls for every round
/// which half it comes from ("Whether The Living(Potency) or The
/// Departed(Count) will be consumed for each shot is randomly determined",
/// wiki.gg `Status Effects`).
pub fn spend_ammo(
    dice: &mut Dice,
    sanity: Sanity,
    statuses: &mut StatusSet,
    status: &str,
    amount: i32,
) -> (r: (i32, Option<i32>))
    requires
        old(statuses).wf(),
        amount > 0 && status@ == AMMO_SOLEMN_LAMENT@ ==> can_draw(old(dice)@, amount as int),
    ensures
        final(statuses).wf(),
        amount <= 0 ==> r == (0i32, None::<i32>) && final(statuses)@ == old(statuses)@ && final(dice)@
            == old(dice)@,
        amount > 0 && status@ != AMMO_SOLEMN_LAMENT@ ==> {
            let s = status_of(old(statuses)@, status@);
            let spent = if s.stack <= 0 {
                0
            } else if s.stack < amount {
                s.stack
            } else {
                amount
            };
            &&& r == (spent as i32, None::<i32>)
            &&& final(statuses)@ == after_spending(
                old(statuses)@,
                status@,
                spent as nat,
                StatusInstance { stack: (s.stack - spent) as i32, ..s },
            )
            &&& final(dice)@ == old(dice)@
        },
        amount > 0 && status@ == AMMO_SOLEMN_LAMENT@ ==> {
            let s = status_of(old(statuses)@, status@);
            let t = lament_spend(
                old(dice)@,
                living_chance(sanity.sp_of()),
                s.potency as int,
                s.count as int,
                amount as nat,
            );
            &&& r == (t.0 as i32, Some(t.1 as i32))
            &&& final(statuses)@ == after_spending(
                old(statuses)@,
                status@,
                t.0,
                StatusInstance { potency: t.2 as i32, count: t.3 as i32, ..s },
            )
            &&& final(dice)@ == t.4
        },
{
    if amount <= 0 {
        return (0, None);
    }
    let lament = crate::text::same_text(status, AMMO_SOLEMN_LAMENT);
    if !lament {
        let ghost m0 = statuses@;
        let ghost s = status_of(m0, status@);
        let mut spent: i32 = 0;
        while spent < amount
            invariant
                statuses.wf(),
                0 <= spent <= amount,
                s == status_of(m0, status@),
                s.stack > 0 ==> spent <= s.stack,
                s.stack <= 0 ==> spent == 0,
                statuses@ == after_spending(
                    m0,
                    status@,
                    spent as nat,
                    StatusInstance { stack: (s.stack - spent) as i32, ..s },
                ),
            ensures
                statuses.wf(),
                s.stack > 0 ==> spent == (if s.stack < amount {
                    s.stack
                } else {
                    amount
                }),
                s.stack <= 0 ==> spent == 0,
                statuses@ == after_spending(
                    m0,
                    status@,
                    spent as nat,
                    StatusInstance { stack: (s.stack - spent) as i32, ..s },
                ),
            decreases amount - spent,
        {
            let have = statuses.stack(status);
            if have <= 0 {
                break;
            }
            proof {
                if spent > 0 {
                    lemma_with_status_twice(
                        m0,
                        status@,
                        StatusInstance { stack: (s.stack - spent) as i32, ..s },
                        StatusInstance { stack: (s.stack - spent - 1) as i32, ..s },
                    );
                }
            }
            statuses.add_stack(status, -1);
            spent = spent + 1;
        }
        return (spent, None);
    }
    let ghost d0 = dice@;
    let ghost m0 = statuses@;
    let ghost s = status_of(m0, status@);
    let ghost chance = living_chance(sanity.sp_of());
    let ghost total = lament_spend(d0, chance, s.potency as int, s.count as int, amount as nat);
    proof {
        lemma_lament_bounds(d0, chance, s.potency as int, s.count as int, amount as nat);
    }
    let mut spent: i32 = 0;
    let mut living: i32 = 0;
    let mut i: i32 = 0;
    while i < amount
        invariant_except_break
            statuses.wf(),
            0 <= i <= amount,
            0 <= living <= spent <= i,
            can_draw(d0, amount as int),
            dice@.presets == d0.presets,
            dice@.draws <= d0.draws + i,
            ({
                let rest = lament_spend(
                    dice@,
                    chance,
                    status_of(statuses@, status@).potency as int,
                    status_of(statuses@, status@).count as int,
                    (amount - i) as nat,
                );
                total == (
                    (spent + rest.0) as nat,
                    (living + rest.1) as nat,
                    rest.2,
                    rest.3,
                    rest.4,
                )
            }),
            statuses@ == after_spending(
                m0,
                status@,
                spent as nat,
                StatusInstance {
                    potency: status_of(statuses@, status@).potency,
                    count: status_of(statuses@, status@).count,
                    ..s
                },
            ),
            spent > 0 || status_of(statuses@, status@) == s,
            chance == living_chance(sanity.sp_of()),
        ensures
            statuses.wf(),
            0 <= living <= spent <= amount,
            total == (spent as nat, living as nat, status_of(statuses@, status@).potency as int,
                status_of(statuses@, status@).count as int, dice@),
            statuses@ == after_spending(
                m0,
                status@,
                spent as nat,
                StatusInstance {
                    potency: status_of(statuses@, status@).potency,
                    count: status_of(statuses@, status@).count,
                    ..s
                },
            ),
            spent > 0 || status_of(statuses@, status@) == s,
        decreases amount - i,
    {
        let ghost before = dice@;
        let ghost cur = status_of(statuses@, status@);
        let ghost m_before = statuses@;
        proof {
            lemma_lament_bounds(before, chance, cur.potency as int, cur.count as int, (amount - i) as nat);
        }
        let wants_living = roll_living(dice, sanity);
        let has_living = statuses.potency(status) > 0;
        let has_departed = statuses.count(status) > 0;
        let take_living = if wants_living {
            has_living
        } else {
            !has_departed && has_living
        };
        if take_living {
            statuses.add_potency(status, -1);
            living = living + 1;
        } else if has_departed {
            statuses.add_count(status, -1);
        } else {
            break;
        }
        proof {
            let nv = status_of(statuses@, status@);
            lemma_with_status_twice(m0, status@, StatusInstance { potency: cur.potency, count: cur.count, ..s }, nv);
            assert(nv.stack == s.stack);
            if spent == 0 {
                assert(cur == s);
            }
            assert(statuses@ == with_status(m0, status@, StatusInstance { potency: nv.potency, count: nv.count, ..s }));
        }
        spent = spent + 1;
        i = i + 1;
    }
    (spent, Some(living))
}


/// What a Reload of The Living & The Departed costs: `(30 - (The Living +
/// The Departed)) / 2` SP (rounded toward zero), never below 0.
pub open spec fn reload_sp_cost(pool: int) -> int {
    let c = crate::state::trunc_div(30 - pool, 2);
    if c < 0 {
        0
    } else {
        c
    }
}

/// The Living gained by a Reload: the heads among 20 rolls, kept within
/// 1..=19 so that each half gets at least one round.
pub open spec fn reload_living(heads: nat) -> int {
    if heads < 1 {
        1
    } else if heads > 19 {
        19
    } else {
        heads as int
    }
}

/// The log line of a Reload.
pub open spec fn reload_note(sp_cost: int) -> Seq<char> {
    "Reloaded [The Living & The Departed] (SP -"@ + decimal(sp_cost) + ")"@
}

/// Pay for and perform a `[Reload]` of The Living & The Departed: "Consume
/// (30 - (The Living + The Departed))/2 SP.  Reset both values on self to 0,
/// and gain the max value of their sum based on the probabilities listed in
/// the Passive `ISeeTheDyingButterfly.` - On Reload, gain at least 1 of The
/// Living and The Departed." (wiki.gg `Status Effects` / Reload).  The pool
/// holds 20 rounds; each is rolled with the chance of the SP left after
/// paying.
pub fn reload_solitude(dice: &mut Dice, sanity: &mut Sanity, statuses: &mut StatusSet) -> (note: String)
    requires
        old(statuses).wf(),
        can_draw(old(dice)@, 20),
        ({
            let s = status_of(old(statuses)@, AMMO_SOLEMN_LAMENT@);
            i32::MIN + 30 <= s.potency + s.count + s.stack <= i32::MAX
        }),
        status_of(old(statuses)@, RELOAD_MARKER@).potency < i32::MAX,
    ensures
        final(statuses).wf(),
        ({
            let s = status_of(old(statuses)@, AMMO_SOLEMN_LAMENT@);
            let cost = reload_sp_cost(s.potency + s.count + s.stack);
            let paid = old(sanity).moved(-cost);
            let (heads, d) = flips(old(dice)@, living_chance(paid.sp_of()), 20);
            let living = reload_living(heads);
            let marker = status_of(old(statuses)@, RELOAD_MARKER@);
            &&& *final(sanity) == paid
            &&& final(dice)@ == d
            &&& final(statuses)@ == with_status(
                old(statuses)@.insert(
                    AMMO_SOLEMN_LAMENT@,
                    StatusInstance { potency: living as i32, count: (20 - living) as i32, stack: 0 },
                ),
                RELOAD_MARKER@,
                StatusInstance { potency: max0(marker.potency + 1), ..marker },
            )
            &&& note@ == reload_note(cost)
        }),
{
    proof {
        reveal_strlit("The Living & The Departed");
        reveal_strlit("Reload (Solemn Lament)");
    }
    assert(AMMO_SOLEMN_LAMENT@ != RELOAD_MARKER@) by {
        assert(AMMO_SOLEMN_LAMENT@[0] != RELOAD_MARKER@[0]);
    }
    let ghost m0 = statuses@;
    let ghost d0 = dice@;
    let sum = statuses.total(AMMO_SOLEMN_LAMENT);
    let diff: i64 = 30 - sum as i64;
    let half: i64 = diff / 2;
    let sp_cost: i32 = if half < 0 {
        0
    } else {
        half as i32
    };
    assert(sp_cost == reload_sp_cost(sum as int));
    *sanity = sanity.add(-sp_cost);
    statuses.remove(AMMO_SOLEMN_LAMENT);
    let ghost chance = living_chance(sanity.sp_of());
    let mut heads: i32 = 0;
    let mut k: i32 = 0;
    while k < 20
        invariant
            0 <= k <= 20,
            0 <= heads <= k,
            chance == living_chance(sanity.sp_of()),
            can_draw(d0, 20),
            flips(d0, chance, k as nat) == (heads as nat, dice@),
        decreases 20 - k,
    {
        proof {
            lemma_flips_draws(d0, chance, k as nat);
            lemma_flips_snoc(d0, chance, k as nat);
        }
        if roll_living(dice, *sanity) {
            heads = heads + 1;
        }
        k = k + 1;
    }
    proof {
        lemma_flips_draws(d0, chance, 20);
    }
    let living: i32 = if heads < 1 {
        1
    } else if heads > 19 {
        19
    } else {
        heads
    };
    let ghost m1 = statuses@;
    assert(status_of(m1, AMMO_SOLEMN_LAMENT@) == StatusInstance { potency: 0, count: 0, stack: 0 });
    statuses.add_potency(AMMO_SOLEMN_LAMENT, living);
    let ghost m2 = statuses@;
    assert(m2 == m1.insert(AMMO_SOLEMN_LAMENT@, StatusInstance { potency: living, count: 0, stack: 0 }));
    statuses.add_count(AMMO_SOLEMN_LAMENT, 20 - living);
    let ghost m3 = statuses@;
    assert(m3 =~= m0.insert(
        AMMO_SOLEMN_LAMENT@,
        StatusInstance { potency: living, count: (20 - living) as i32, stack: 0 },
    ));
    assert(status_of(m3, RELOAD_MARKER@) == status_of(m0, RELOAD_MARKER@));
    statuses.add_potency(RELOAD_MARKER, 1);
    proof {
        assert(statuses@ == with_status(m3,
            RELOAD_MARKER@,
            StatusInstance {
                potency: max0(status_of(m0, RELOAD_MARKER@).potency + 1),
                ..status_of(m0, RELOAD_MARKER@)
            },
        ));
    }
    let mut note = String::from_str("Reloaded [The Living & The Departed] (SP -");
    push_decimal(&mut note, sp_cost as i64);
    note.append(")");
    note
}

/// `Petals` "can be gained up to 15 Stacks per turn" (wiki.gg `Status
/// Effects`): how many more a unit that gained `gained` this turn may gain.
pub fn petals_gain_cap(gained: i32) -> (cap: i32)
    requires
        15 - gained <= i32::MAX,
    ensures
        cap == max0(15 - gained),
        cap > 0 <==> gained < 15,
{
    let v: i64 = 15 - gained as i64;
    if v < 0 {
        0
    } else {
        v as i32
    }
}


/// The SP field an E.G.O's kind reads: Overclock reads the Corrosion SP.
pub open spec fn listed_sp(ego: EgoRecord, kind: EgoSkillKind) -> i32 {
    match kind {
        EgoSkillKind::Awakening => match ego.awakening_sp {
            Some(v) => v,
            None => 0,
        },
        _ => match ego.corrosion_sp {
            Some(v) => v,
            None => 0,
        },
    }
}

/// The resources of one sin an E.G.O needs: its listed cost, 1.5x rounded up
/// for an Overclock.
pub open spec fn resource_need(kind: EgoSkillKind, amount: i32) -> int {
    match kind {
        EgoSkillKind::Overclock => overclocked(amount) as int,
        _ => amount as int,
    }
}

/// What the team holds of resource `k`: 0 when it has none.
pub open spec fn held(resources: Map<Seq<char>, i32>, k: Seq<char>) -> int {
    if resources.contains_key(k) {
        resources[k] as int
    } else {
        0
    }
}

/// Paying the SP would not take the unit below -45.  Checked when the kind
/// has an SP cost, and always for an Overclock; a unit without Sanity pays
/// no SP.
pub open spec fn sp_affordable(sanity: Sanity, ego: EgoRecord, kind: EgoSkillKind) -> bool {
    (listed_sp(ego, kind) > 0 || kind == EgoSkillKind::Overclock) ==> match sanity {
        Sanity::NoSanity => true,
        Sanity::Sane { sp } => sp - ego_sp_cost_of(ego, kind) >= -SP_LIMIT,
    }
}

/// An E.G.O use is affordable: the SP check passes and the team holds every
/// resource the E.G.O needs (wiki.gg `Clash` / E.G.O Skills, Overclocking).
pub open spec fn ego_affordable_spec(
    sanity: Sanity,
    resources: Map<Seq<char>, i32>,
    ego: EgoRecord,
    kind: EgoSkillKind,
) -> bool {
    &&& sp_affordable(sanity, ego, kind)
    &&& forall|k: Seq<char>| #[trigger]
        ego.resource_cost@.contains_key(k) ==> held(resources, k) >= resource_need(
            kind,
            ego.resource_cost@[k],
        )
}

fn resource_need_of(kind: EgoSkillKind, amount: i32) -> (n: i32)
    ensures
        n == resource_need(kind, amount),
{
    match kind {
        EgoSkillKind::Overclock => overclock(amount),
        _ => amount,
    }
}

fn held_of(resources: &StrMap<i32>, key: &str) -> (v: i32)
    requires
        resources.wf(),
    ensures
        v == held(resources@, key@),
{
    match resources.get(key) {
        Some(v) => *v,
        None => 0,
    }
}

/// Can `sanity`'s unit pay for `ego` used as `kind` from the team's
/// `resources`?
pub fn ego_affordable(sanity: Sanity, resources: &StrMap<i32>, ego: &EgoRecord, kind: EgoSkillKind) -> (b:
    bool)
    requires
        resources.wf(),
        ego.resource_cost.wf(),
    ensures
        b == ego_affordable_spec(sanity, resources@, *ego, kind),
{
    let listed = match kind {
        EgoSkillKind::Awakening => ego.awakening_sp.unwrap_or(0),
        _ => ego.corrosion_sp.unwrap_or(0),
    };
    if listed > 0 || kind == EgoSkillKind::Overclock {
        let cost = ego_sp_cost(ego, kind);
        match sanity {
            Sanity::NoSanity => {},
            Sanity::Sane { sp } => {
                if (sp as i64) - (cost as i64) < -(SP_LIMIT as i64) {
                    return false;
                }
            },
        }
    }
    let n = ego.resource_cost.entry_count();
    let mut i: usize = 0;
    while i < n
        invariant
            resources.wf(),
            ego.resource_cost.wf(),
            n == ego.resource_cost.count(),
            i <= n,
            sp_affordable(sanity, *ego, kind),
            forall|j: int|
                0 <= j < i ==> held(resources@, #[trigger] ego.resource_cost.key_at(j)) >= resource_need(
                    kind,
                    ego.resource_cost.value_at(j),
                ),
        decreases n - i,
    {
        let (sin, amount) = ego.resource_cost.entry_at(i);
        let needed = resource_need_of(kind, *amount);
        let have = held_of(resources, sin.as_str());
        if have < needed {
            proof {
                ego.resource_cost.lemma_entry(i as int);
            }
            return false;
        }
        i = i + 1;
    }
    proof {
        assert forall|k: Seq<char>| #[trigger]
            ego.resource_cost@.contains_key(k) implies held(resources@, k) >= resource_need(
            kind,
            ego.resource_cost@[k],
        ) by {
            ego.resource_cost.lemma_key_index(k);
            let j = ego.resource_cost.index_of(k);
            assert(held(resources@, ego.resource_cost.key_at(j)) >= resource_need(kind, ego.resource_cost.value_at(j)));
        }
    }
    true
}


/// `parts` joined with `sep` between consecutive parts.
pub open spec fn joined(parts: Seq<Seq<char>>, sep: Seq<char>) -> Seq<char>
    decreases parts.len(),
{
    if parts.len() == 0 {
        Seq::empty()
    } else if parts.len() == 1 {
        parts[0]
    } else {
        joined(parts.drop_last(), sep) + sep + parts.last()
    }
}

/// "{needed} {sin}" for every resource of a cost, in key order.
pub open spec fn cost_parts(keys: Seq<Seq<char>>, amounts: Seq<i32>, kind: EgoSkillKind) -> Seq<Seq<char>> {
    Seq::new(keys.len(), |i: int| decimal(resource_need(kind, amounts[i])) + " "@ + keys[i])
}

/// The resources after paying `cost` for `kind`: every sin of the cost is
/// reduced by what it needs (a sin the team had none of goes negative).
pub open spec fn after_paying(
    resources: Map<Seq<char>, i32>,
    cost: Map<Seq<char>, i32>,
    kind: EgoSkillKind,
) -> Map<Seq<char>, i32> {
    Map::new(
        |k: Seq<char>| resources.contains_key(k) || cost.contains_key(k),
        |k: Seq<char>|
            if cost.contains_key(k) {
                (held(resources, k) - resource_need(kind, cost[k])) as i32
            } else {
                resources[k]
            },
    )
}

/// The same, for the first `i` sins of the cost in key order.
pub open spec fn paid_through(
    resources: Map<Seq<char>, i32>,
    cost: StrMap<i32>,
    kind: EgoSkillKind,
    i: int,
) -> Map<Seq<char>, i32> {
    Map::new(
        |k: Seq<char>| resources.contains_key(k) || (cost@.contains_key(k) && cost.index_of(k) < i),
        |k: Seq<char>|
            if cost@.contains_key(k) && cost.index_of(k) < i {
                (held(resources, k) - resource_need(kind, cost@[k])) as i32
            } else {
                resources[k]
            },
    )
}

/// Pay the resources of an E.G.O (1.5x, rounded up, for an Overclock).
/// Returns the log line: "resources: " and "{needed} {sin}" for every sin of
/// the cost in key order, separated by ", ".
pub fn pay_ego(resources: &mut StrMap<i32>, ego: &EgoRecord, kind: EgoSkillKind) -> (note: String)
    requires
        old(resources).wf(),
        ego.resource_cost.wf(),
        forall|k: Seq<char>| #[trigger]
            ego.resource_cost@.contains_key(k) ==> i32::MIN <= held(old(resources)@, k) - resource_need(
                kind,
                ego.resource_cost@[k],
            ) <= i32::MAX,
    ensures
        final(resources).wf(),
        final(resources)@ == after_paying(old(resources)@, ego.resource_cost@, kind),
        note@ == "resources: "@ + joined(
            cost_parts(ego.resource_cost.key_seq(), ego.resource_cost.value_seq(), kind),
            ", "@,
        ),
{
    let ghost r0 = resources@;
    let ghost cost = ego.resource_cost;
    let ghost parts = cost_parts(cost.key_seq(), cost.value_seq(), kind);
    proof {
        cost.lemma_seqs();
    }
    proof {
        assert forall|k: Seq<char>| #[trigger] cost@.contains_key(k) implies cost.index_of(k) >= 0 by {
            cost.lemma_key_index(k);
        }
        assert(resources@ =~= paid_through(r0, cost, kind, 0));
    }
    let mut note = String::from_str("resources: ");
    let n = ego.resource_cost.entry_count();
    let mut i: usize = 0;
    while i < n
        invariant
            resources.wf(),
            cost == ego.resource_cost,
            cost.wf(),
            n == cost.count(),
            i <= n,
            parts == cost_parts(cost.key_seq(), cost.value_seq(), kind),
            parts.len() == n,
            forall|j: int| 0 <= j < n ==> #[trigger] cost.key_seq()[j] == cost.key_at(j),
            forall|j: int| 0 <= j < n ==> #[trigger] cost.value_seq()[j] == cost.value_at(j),
            forall|k: Seq<char>| #[trigger]
                cost@.contains_key(k) ==> i32::MIN <= held(r0, k) - resource_need(kind, cost@[k])
                    <= i32::MAX,
            resources@ == paid_through(r0, cost, kind, i as int),
            note@ == "resources: "@ + joined(parts.take(i as int), ", "@),
        decreases n - i,
    {
        let (sin, amount) = ego.resource_cost.entry_at(i);
        proof {
            cost.lemma_entry(i as int);
        }
        let needed = resource_need_of(kind, *amount);
        let have = held_of(resources, sin.as_str());
        assert(have == held(r0, sin@)) by {
            if resources@.contains_key(sin@) && cost.index_of(sin@) < i {
                assert(false);
            }
        }
        let after: i64 = have as i64 - needed as i64;
        resources.insert(sin.as_str(), after as i32);
        proof {
            assert forall|k: Seq<char>| #[trigger] resources@.contains_key(k) == paid_through(
                r0,
                cost,
                kind,
                i + 1,
            ).contains_key(k) by {
                if cost@.contains_key(k) {
                    cost.lemma_key_index(k);
                    if cost.index_of(k) == i {
                        assert(k == sin@);
                    }
                }
            }
            assert forall|k: Seq<char>| #[trigger] resources@.contains_key(k) implies resources@[k]
                == paid_through(r0, cost, kind, i + 1)[k] by {
                if cost@.contains_key(k) {
                    cost.lemma_key_index(k);
                    if cost.index_of(k) == i {
                        assert(k == sin@);
                    }
                }
            }
            assert(resources@ =~= paid_through(r0, cost, kind, i + 1));
        }
        if i > 0 {
            note.append(", ");
        }
        push_decimal(&mut note, needed as i64);
        note.append(" ");
        note.append(sin.as_str());
        proof {
            let t = parts.take(i + 1);
            assert(parts[i as int] == decimal(needed as int) + " "@ + sin@);
            if i > 0 {
                assert(t.drop_last() =~= parts.take(i as int));
                assert(joined(t, ", "@) == joined(parts.take(i as int), ", "@) + ", "@ + parts[i as int]);
            } else {
                assert(joined(t, ", "@) == parts[0]);
            }
            assert(note@ =~= "resources: "@ + joined(t, ", "@));
        }
        i = i + 1;
    }
    proof {
        assert(parts.take(n as int) =~= parts);
        assert forall|k: Seq<char>| #[trigger] cost@.contains_key(k) implies cost.index_of(k) < n by {
            cost.lemma_key_index(k);
        }
        assert(resources@ =~= after_paying(r0, cost@, kind));
    }
    note
}

/// The resources after an Overclock's 0.5x surcharge is given back: every
/// sin of the cost whose 1.5x price exceeds its listed price gains the
/// difference.
pub open spec fn after_refund(resources: Map<Seq<char>, i32>, cost: Map<Seq<char>, i32>) -> Map<
    Seq<char>,
    i32,
> {
    Map::new(
        |k: Seq<char>|
            resources.contains_key(k) || (cost.contains_key(k) && overclocked(cost[k]) - cost[k] > 0),
        |k: Seq<char>|
            if cost.contains_key(k) && overclocked(cost[k]) - cost[k] > 0 {
                (held(resources, k) + overclocked(cost[k]) - cost[k]) as i32
            } else {
                resources[k]
            },
    )
}

/// The same, for the first `i` sins of the cost in key order.
pub open spec fn refunded_through(resources: Map<Seq<char>, i32>, cost: StrMap<i32>, i: int) -> Map<
    Seq<char>,
    i32,
> {
    Map::new(
        |k: Seq<char>|
            resources.contains_key(k) || (cost@.contains_key(k) && cost.index_of(k) < i
                && overclocked(cost@[k]) - cost@[k] > 0),
        |k: Seq<char>|
            if cost@.contains_key(k) && cost.index_of(k) < i && overclocked(cost@[k]) - cost@[k] > 0 {
                (held(resources, k) + overclocked(cost@[k]) - cost@[k]) as i32
            } else {
                resources[k]
            },
    )
}

/// Give back the 0.5x surcharge an Overclock paid, so that a random
/// Corrosion costs the normal Corrosion price.
pub fn refund_overclock_surcharge(resources: &mut StrMap<i32>, ego: &EgoRecord)
    requires
        old(resources).wf(),
        ego.resource_cost.wf(),
        forall|k: Seq<char>| #[trigger]
            ego.resource_cost@.contains_key(k) ==> held(old(resources)@, k) + overclocked(
                ego.resource_cost@[k],
            ) - ego.resource_cost@[k] <= i32::MAX,
    ensures
        final(resources).wf(),
        final(resources)@ == after_refund(old(resources)@, ego.resource_cost@),
{
    let ghost r0 = resources@;
    let ghost cost = ego.resource_cost;
    proof {
        assert forall|k: Seq<char>| #[trigger] cost@.contains_key(k) implies cost.index_of(k) >= 0 by {
            cost.lemma_key_index(k);
        }
        assert(resources@ =~= refunded_through(r0, cost, 0));
    }
    let n = ego.resource_cost.entry_count();
    let mut i: usize = 0;
    while i < n
        invariant
            resources.wf(),
            cost == ego.resource_cost,
            cost.wf(),
            n == cost.count(),
            i <= n,
            forall|k: Seq<char>| #[trigger]
                cost@.contains_key(k) ==> held(r0, k) + overclocked(cost@[k]) - cost@[k] <= i32::MAX,
            resources@ == refunded_through(r0, cost, i as int),
        decreases n - i,
    {
        let (sin, amount) = ego.resource_cost.entry_at(i);
        proof {
            cost.lemma_entry(i as int);
        }
        let surcharge: i64 = overclock(*amount) as i64 - *amount as i64;
        if surcharge > 0 {
            let have = held_of(resources, sin.as_str());
            assert(have == held(r0, sin@)) by {
                if resources@.contains_key(sin@) && cost.index_of(sin@) < i {
                    assert(false);
                }
            }
            resources.insert(sin.as_str(), (have as i64 + surcharge) as i32);
        }
        proof {
            assert forall|k: Seq<char>| #[trigger] resources@.contains_key(k) == refunded_through(
                r0,
                cost,
                i + 1,
            ).contains_key(k) by {
                if cost@.contains_key(k) {
                    cost.lemma_key_index(k);
                    if cost.index_of(k) == i {
                        assert(k == sin@);
                    }
                }
            }
            assert forall|k: Seq<char>| #[trigger] resources@.contains_key(k) implies resources@[k]
                == refunded_through(r0, cost, i + 1)[k] by {
                if cost@.contains_key(k) {
                    cost.lemma_key_index(k);
                    if cost.index_of(k) == i {
                        assert(k == sin@);
                    }
                }
            }
            assert(resources@ =~= refunded_through(r0, cost, i + 1));
        }
        i = i + 1;
    }
    proof {
        assert forall|k: Seq<char>| #[trigger] cost@.contains_key(k) implies cost.index_of(k) < n by {
            cost.lemma_key_index(k);
        }
        assert(resources@ =~= after_refund(r0, cost@));
    }
}


/// `x` placed after every entry of `s` whose slot is not larger than its own:
/// one step of a stable sort by slot.
pub open spec fn insert_by_slot(s: Seq<(u32, u32)>, x: (u32, u32)) -> Seq<(u32, u32)>
    decreases s.len(),
{
    if s.len() == 0 {
        seq![x]
    } else if s.last().0 <= x.0 {
        s.push(x)
    } else {
        insert_by_slot(s.drop_last(), x).push(s.last())
    }
}

/// `s` sorted by slot, entries of one slot kept in the order they came in.
pub open spec fn sorted_by_slot(s: Seq<(u32, u32)>) -> Seq<(u32, u32)>
    decreases s.len(),
{
    if s.len() == 0 {
        s
    } else {
        insert_by_slot(sorted_by_slot(s.drop_last()), s.last())
    }
}

proof fn lemma_insert_by_slot_at(s: Seq<(u32, u32)>, x: (u32, u32), j: int)
    requires
        0 <= j <= s.len(),
        forall|t: int| j <= t < s.len() ==> #[trigger] s[t].0 > x.0,
        j == 0 || s[j - 1].0 <= x.0,
    ensures
        insert_by_slot(s, x) == s.insert(j, x),
    decreases s.len(),
{
    if s.len() == 0 {
        assert(s.insert(j, x) =~= seq![x]);
    } else if s.last().0 <= x.0 {
        if j < s.len() {
            assert(s[s.len() - 1].0 > x.0);
        }
        assert(s.insert(j, x) =~= s.push(x));
    } else {
        if j == s.len() {
            assert(s[j - 1].0 <= x.0);
        }
        let d = s.drop_last();
        lemma_insert_by_slot_at(d, x, j);
        assert(d.insert(j, x).push(s.last()) =~= s.insert(j, x));
    }
}

/// Stable sort of `table` by slot (insertion sort).
pub fn sort_by_slot(table: &Vec<(u32, u32)>) -> (r: Vec<(u32, u32)>)
    ensures
        r@ == sorted_by_slot(table@),
{
    let mut r: Vec<(u32, u32)> = Vec::new();
    let mut i: usize = 0;
    while i < table.len()
        invariant
            i <= table@.len(),
            r@ == sorted_by_slot(table@.take(i as int)),
            r@.len() == i,
        decreases table.len() - i,
    {
        let x = table[i];
        let mut j: usize = r.len();
        while j > 0 && r[j - 1].0 > x.0
            invariant
                j <= r@.len(),
                forall|t: int| j <= t < r@.len() ==> #[trigger] r@[t].0 > x.0,
            decreases j,
        {
            j = j - 1;
        }
        proof {
            lemma_insert_by_slot_at(r@, x, j as int);
            assert(table@.take(i + 1).drop_last() =~= table@.take(i as int));
        }
        r.insert(j, x);
        i = i + 1;
    }
    assert(table@.take(table@.len() as int) =~= table@);
    r
}

/// How many entries of `s` belong to the sin whose key is `k`.
pub open spec fn count_key(s: Seq<(u32, u32)>, k: Seq<char>) -> nat
    decreases s.len(),
{
    if s.len() == 0 {
        0
    } else {
        count_key(s.drop_last(), k) + if sin_key_at(s.last().1) == k {
            1nat
        } else {
            0nat
        }
    }
}

/// The length of the run of equal affinities that ends at entry `i`.
pub open spec fn run_len(s: Seq<(u32, u32)>, i: int) -> nat
    decreases i,
{
    if i <= 0 {
        1
    } else if s[i - 1].1 == s[i].1 {
        run_len(s, i - 1) + 1
    } else {
        1
    }
}

/// The longest run of the sin whose key is `k` among the first `n` entries
/// (0 when there is none).
pub open spec fn longest_run(s: Seq<(u32, u32)>, n: int, k: Seq<char>) -> nat
    decreases n,
{
    if n <= 0 {
        0
    } else {
        let prev = longest_run(s, n - 1, k);
        if sin_key_at(s[n - 1].1) == k && run_len(s, n - 1) > prev {
            run_len(s, n - 1)
        } else {
            prev
        }
    }
}

/// Sin Resonance per sin key: how many of the Skills belong to it.
pub open spec fn resonance_counts(s: Seq<(u32, u32)>) -> Map<Seq<char>, i32> {
    Map::new(|k: Seq<char>| count_key(s, k) > 0, |k: Seq<char>| count_key(s, k) as i32)
}

/// Absolute Sin Resonance per sin key: its longest chain of consecutive
/// Skills in Dashboard order.
pub open spec fn resonance_chains(s: Seq<(u32, u32)>) -> Map<Seq<char>, i32> {
    Map::new(
        |k: Seq<char>| count_key(s, k) > 0,
        |k: Seq<char>| longest_run(s, s.len() as int, k) as i32,
    )
}

proof fn lemma_count_prefix(s: Seq<(u32, u32)>, i: int, k: Seq<char>)
    requires
        0 <= i < s.len(),
    ensures
        count_key(s.take(i + 1), k) == count_key(s.take(i), k) + if sin_key_at(s[i].1) == k {
            1nat
        } else {
            0nat
        },
        count_key(s.take(i), k) <= i,
{
    assert(s.take(i + 1).drop_last() =~= s.take(i));
    lemma_count_bound(s.take(i), k);
}

proof fn lemma_count_bound(s: Seq<(u32, u32)>, k: Seq<char>)
    ensures
        count_key(s, k) <= s.len(),
    decreases s.len(),
{
    if s.len() > 0 {
        lemma_count_bound(s.drop_last(), k);
    }
}

proof fn lemma_longest_bounds(s: Seq<(u32, u32)>, n: int, k: Seq<char>)
    requires
        0 <= n <= s.len(),
    ensures
        longest_run(s, n, k) <= n,
        count_key(s.take(n), k) == 0 ==> longest_run(s, n, k) == 0,
        count_key(s.take(n), k) > 0 ==> longest_run(s, n, k) >= 1,
    decreases n,
{
    if n > 0 {
        lemma_longest_bounds(s, n - 1, k);
        lemma_run_len_bound(s, n - 1);
        lemma_count_prefix(s, n - 1, k);
    }
}

proof fn lemma_run_len_bound(s: Seq<(u32, u32)>, i: int)
    requires
        0 <= i,
    ensures
        1 <= run_len(s, i) <= i + 1,
    decreases i,
{
    if i > 0 {
        lemma_run_len_bound(s, i - 1);
    }
}

fn add_to(m: &mut StrMap<i32>, key: &str, delta: i32)
    requires
        old(m).wf(),
        held(old(m)@, key@) + delta <= i32::MAX,
        held(old(m)@, key@) + delta >= i32::MIN,
    ensures
        final(m).wf(),
        final(m)@ == old(m)@.insert(key@, (held(old(m)@, key@) + delta) as i32),
{
    let have = held_of(m, key);
    m.insert(key, have + delta);
}

/// Sin Resonance over the Skills selected on the Dashboard, from each
/// Skill's `(slot, sin index)` in the order they were submitted: the count of
/// every sin, and the longest chain of consecutive Skills of every sin once
/// they are sorted by slot (stable within a slot).  "occurs when 2 or more
/// Skills of the same Affinity are selected on the Dashboard"; Absolute Sin
/// Resonance "occurs when 3 or more Skills of the same Affinity are selected
/// consecutively"; "Separate chains ... are counted separately rather than
/// in a sum" (wiki.gg `Resonance`).
pub fn compute_resonance(table: &Vec<(u32, u32)>) -> (r: (StrMap<i32>, StrMap<i32>))
    requires
        table@.len() <= i32::MAX,
    ensures
        r.0.wf(),
        r.1.wf(),
        r.0@ == resonance_counts(sorted_by_slot(table@)),
        r.1@ == resonance_chains(sorted_by_slot(table@)),
{
    let sorted = sort_by_slot(table);
    let ghost s = sorted@;
    proof {
        lemma_sorted_len(table@);
    }
    let mut counts: StrMap<i32> = StrMap::new();
    let mut chains: StrMap<i32> = StrMap::new();
    let mut run_key: u32 = 0;
    let mut run: i32 = 0;
    let mut i: usize = 0;
    while i < sorted.len()
        invariant
            s == sorted@,
            s.len() <= i32::MAX,
            i <= s.len(),
            counts.wf(),
            chains.wf(),
            i > 0 ==> run_key == s[i - 1].1 && run == run_len(s, i - 1),
            counts@ == resonance_counts(s.take(i as int)),
            forall|k: Seq<char>| #[trigger]
                chains@.contains_key(k) == (count_key(s.take(i as int), k) > 0),
            forall|k: Seq<char>| #[trigger]
                chains@.contains_key(k) ==> chains@[k] == longest_run(s, i as int, k),
        decreases s.len() - i,
    {
        let index = sorted[i].1;
        proof {
            if i > 0 {
                lemma_run_len_bound(s, i - 1);
            }
        }
        if i > 0 && index == run_key {
            run = run + 1;
        } else {
            run_key = index;
            run = 1;
        }
        let key = sin_key_by_index(index);
        let ghost k0 = key@;
        proof {
            lemma_count_prefix(s, i as int, k0);
        }
        add_to(&mut counts, key, 1);
        let best = held_of(&chains, key);
        proof {
            lemma_longest_bounds(s, i as int, k0);
            lemma_run_len_bound(s, i as int);
        }
        if run > best {
            chains.insert(key, run);
        } else if !chains.contains_key(key) {
            chains.insert(key, best);
        }
        proof {
            assert forall|k: Seq<char>| #[trigger] counts@.contains_key(k) == resonance_counts(
                s.take(i + 1),
            ).contains_key(k) by {
                lemma_count_prefix(s, i as int, k);
            }
            assert forall|k: Seq<char>| #[trigger] counts@.contains_key(k) implies counts@[k]
                == resonance_counts(s.take(i + 1))[k] by {
                lemma_count_prefix(s, i as int, k);
            }
            assert(counts@ =~= resonance_counts(s.take(i + 1)));
            assert forall|k: Seq<char>| #[trigger] chains@.contains_key(k) == (count_key(
                s.take(i + 1),
                k,
            ) > 0) by {
                lemma_count_prefix(s, i as int, k);
            }
            assert forall|k: Seq<char>| #[trigger] chains@.contains_key(k) implies chains@[k]
                == longest_run(s, i + 1, k) by {
                lemma_longest_bounds(s, i as int, k);
            }
        }
        i = i + 1;
    }
    proof {
        assert(s.take(s.len() as int) =~= s);
        assert(chains@ =~= resonance_chains(s));
    }
    (counts, chains)
}

proof fn lemma_insert_len(s: Seq<(u32, u32)>, x: (u32, u32))
    ensures
        insert_by_slot(s, x).len() == s.len() + 1,
    decreases s.len(),
{
    if s.len() > 0 && s.last().0 > x.0 {
        lemma_insert_len(s.drop_last(), x);
    }
}

proof fn lemma_sorted_len(s: Seq<(u32, u32)>)
    ensures
        sorted_by_slot(s).len() == s.len(),
    decreases s.len(),
{
    if s.len() > 0 {
        lemma_sorted_len(s.drop_last());
        lemma_insert_len(sorted_by_slot(s.drop_last()), s.last());
    }
}

/// The largest of `s`, 0 for none.
pub open spec fn max_or_zero(s: Seq<i32>) -> int
    decreases s.len(),
{
    if s.len() == 0 {
        0
    } else if s.len() == 1 {
        s[0] as int
    } else {
        let m = max_or_zero(s.drop_last());
        if s.last() > m {
            s.last() as int
        } else {
            m
        }
    }
}

/// Highest Resonance among all affinities this turn (0 when none): the
/// largest value of the table.
pub fn highest_resonance(resonance: &StrMap<i32>) -> (h: i32)
    ensures
        h == max_or_zero(resonance.value_seq()),
{
    let ghost v = resonance.value_seq();
    proof {
        resonance.lemma_seqs();
    }
    let n = resonance.entry_count();
    let mut best: i32 = 0;
    let mut i: usize = 0;
    while i < n
        invariant
            n == v.len(),
            n == resonance.count(),
            v == resonance.value_seq(),
            forall|j: int| 0 <= j < n ==> #[trigger] v[j] == resonance.value_at(j),
            i <= n,
            best == max_or_zero(v.take(i as int)),
        decreases n - i,
    {
        let (_, value) = resonance.entry_at(i);
        proof {
            assert(v.take(i + 1).drop_last() =~= v.take(i as int));
        }
        if i == 0 || *value > best {
            best = *value;
        }
        i = i + 1;
    }
    assert(v.take(n as int) =~= v);
    best
}


proof fn lemma_count_insert(s: Seq<(u32, u32)>, x: (u32, u32), k: Seq<char>)
    ensures
        count_key(insert_by_slot(s, x), k) == count_key(s, k) + if sin_key_at(x.1) == k {
            1nat
        } else {
            0nat
        },
    decreases s.len(),
{
    if s.len() > 0 && s.last().0 > x.0 {
        lemma_count_insert(s.drop_last(), x, k);
        assert(insert_by_slot(s, x).drop_last() =~= insert_by_slot(s.drop_last(), x));
    } else if s.len() > 0 {
        assert(s.push(x).drop_last() =~= s);
    } else {
        assert(seq![x].drop_last() =~= s);
    }
}

proof fn lemma_count_sorted(s: Seq<(u32, u32)>, k: Seq<char>)
    ensures
        count_key(sorted_by_slot(s), k) == count_key(s, k),
    decreases s.len(),
{
    if s.len() > 0 {
        lemma_count_sorted(s.drop_last(), k);
        lemma_count_insert(sorted_by_slot(s.drop_last()), s.last(), k);
    }
}

/// Sin Resonance counts every selected Skill of a sin wherever it stands on
/// the Dashboard: sorting by slot changes no count.
pub proof fn resonance_counts_ignore_order(table: Seq<(u32, u32)>)
    ensures
        resonance_counts(sorted_by_slot(table)) == resonance_counts(table),
{
    assert forall|k: Seq<char>| #![auto] count_key(sorted_by_slot(table), k) == count_key(table, k) by {
        lemma_count_sorted(table, k);
    }
    assert(resonance_counts(sorted_by_slot(table)) =~= resonance_counts(table));
}

proof fn lemma_run_within_count(s: Seq<(u32, u32)>, i: int)
    requires
        0 <= i < s.len(),
    ensures
        run_len(s, i) <= count_key(s.take(i + 1), sin_key_at(s[i].1)),
    decreases i,
{
    let k = sin_key_at(s[i].1);
    lemma_count_prefix(s, i, k);
    if i > 0 && s[i - 1].1 == s[i].1 {
        lemma_run_within_count(s, i - 1);
    }
}

proof fn lemma_longest_within_count(s: Seq<(u32, u32)>, n: int, k: Seq<char>)
    requires
        0 <= n <= s.len(),
    ensures
        longest_run(s, n, k) <= count_key(s.take(n), k),
    decreases n,
{
    if n > 0 {
        lemma_longest_within_count(s, n - 1, k);
        lemma_count_prefix(s, n - 1, k);
        lemma_run_within_count(s, n - 1);
    }
}

/// Absolute Sin Resonance also counts as regular Sin Resonance: a sin has a
/// chain exactly when it has a count, and its longest chain is never longer
/// than its count.
pub proof fn chains_within_counts(s: Seq<(u32, u32)>)
    requires
        s.len() <= i32::MAX,
    ensures
        resonance_chains(s).dom() == resonance_counts(s).dom(),
        forall|k: Seq<char>| #[trigger]
            resonance_chains(s).contains_key(k) ==> 1 <= resonance_chains(s)[k] <= resonance_counts(
                s,
            )[k],
{
    assert forall|k: Seq<char>| #[trigger] resonance_chains(s).contains_key(k) implies 1
        <= resonance_chains(s)[k] <= resonance_counts(s)[k] by {
        lemma_longest_within_count(s, s.len() as int, k);
        lemma_longest_bounds(s, s.len() as int, k);
        lemma_count_bound(s, k);
        assert(s.take(s.len() as int) =~= s);
    }
    assert(resonance_chains(s).dom() =~= resonance_counts(s).dom());
}


/// `(measured / per) * step` with Rust's division (toward zero).
pub open spec fn per_steps(measured: i32, per: i32, step: i32) -> int {
    crate::state::trunc_div(measured as int, per as int) * step
}

/// `v` capped by `max`.
pub open spec fn capped(v: int, max: int) -> int {
    if v < max {
        v
    } else {
        max
    }
}

/// Scaled value of a power clause: `value + (measured / per) * step` capped
/// by `max`.  Without a positive `per` the clause is a flat bonus: the
/// measured value is only its threshold.
pub open spec fn scaled_value(value: Option<i32>, per: Option<i32>, step: Option<i32>, max: Option<i32>, measured: i32) -> int {
    let v: int = match value {
        Some(x) => x as int,
        None => 0,
    };
    let m: int = match max {
        Some(x) => x as int,
        None => i32::MAX as int,
    };
    match per {
        Some(p) => if p > 0 {
            capped(
                v + per_steps(
                    measured,
                    p,
                    match step {
                        Some(s) => s,
                        None => 1,
                    },
                ),
                m,
            )
        } else {
            capped(v, m)
        },
        None => capped(v, m),
    }
}

/// Scaled value helper for power kinds (see [`scaled_value`]); the effect's
/// `value`, `per`, `step` and `max` are passed in.
pub fn scaled(value: Option<i32>, per: Option<i32>, step: Option<i32>, max: Option<i32>, measured: i32) -> (r: i32)
    requires
        i32::MIN <= scaled_value(value, per, step, None, measured) <= i32::MAX,
        match per {
            Some(p) => p > 0 ==> i32::MIN <= per_steps(
                measured,
                p,
                match step {
                    Some(s) => s,
                    None => 1,
                },
            ) <= i32::MAX,
            None => true,
        },
    ensures
        r == scaled_value(value, per, step, max, measured),
{
    let v = value.unwrap_or(0);
    let m = max.unwrap_or(i32::MAX);
    let p = match per {
        Some(p) => {
            if p > 0 {
                p
            } else {
                return if v < m {
                    v
                } else {
                    m
                };
            }
        },
        None => {
            return if v < m {
                v
            } else {
                m
            };
        },
    };
    let st = step.unwrap_or(1);
    let q: i64 = measured as i64 / p as i64;
    assert(q == crate::state::trunc_div(measured as int, p as int));
    let total: i64 = v as i64 + q * st as i64;
    if total < m as i64 {
        total as i32
    } else {
        m
    }
}

/// Scaled amount of a status clause: the clause's own `base` plus
/// `(measured / per) * step` for "for every N ..." forms, capped by `max`.
pub open spec fn scaled_amount(base: i32, per: Option<i32>, step: Option<i32>, max: Option<i32>, measured: i32) -> int {
    let p: i32 = match per {
        Some(x) => x,
        None => 0,
    };
    let s: i32 = match step {
        Some(x) => x,
        None => 1,
    };
    let m: int = match max {
        Some(x) => x as int,
        None => i32::MAX as int,
    };
    capped(
        base + if p > 0 {
            per_steps(measured, p, s)
        } else {
            0
        },
        m,
    )
}

pub fn amount(base: i32, per: Option<i32>, step: Option<i32>, max: Option<i32>, measured: i32) -> (r: i32)
    requires
        i32::MIN <= scaled_amount(base, per, step, None, measured) <= i32::MAX,
        ({
            let p: i32 = match per {
                Some(x) => x,
                None => 0,
            };
            let s: i32 = match step {
                Some(x) => x,
                None => 1,
            };
            p > 0 ==> i32::MIN <= per_steps(measured, p, s) <= i32::MAX
        }),
    ensures
        r == scaled_amount(base, per, step, max, measured),
{
    let p = per.unwrap_or(0);
    let st = step.unwrap_or(1);
    let m = max.unwrap_or(i32::MAX);
    let part: i64 = if p > 0 {
        let q: i64 = measured as i64 / p as i64;
        assert(q == crate::state::trunc_div(measured as int, p as int));
        q * st as i64
    } else {
        0
    };
    let total: i64 = base as i64 + part;
    if total < m as i64 {
        total as i32
    } else {
        m
    }
}


/// The text of an optional rule.
pub open spec fn rule_text(rule: Option<&str>) -> Option<Seq<char>> {
    match rule {
        Some(r) => Some(r@),
        None => None,
    }
}

/// The text of an optional rule, or `default` when it has none.
pub open spec fn rule_or(rule: Option<Seq<char>>, default: Seq<char>) -> Seq<char> {
    match rule {
        Some(r) => r,
        None => default,
    }
}

/// Does a status with these values stop existing under its rules?  `expiry`
/// (default `either_zero`): `none`, `both_zero`, `count_zero`,
/// `potency_zero`; otherwise a Stack status ends by its own rules, a
/// Potency + Count status once either value is 0, and a single-value status
/// once its value is 0.
pub open spec fn expired(
    v: StatusInstance,
    structure: Option<Seq<char>>,
    primary: Option<Seq<char>>,
    expiry: Option<Seq<char>>,
) -> bool {
    let policy = rule_or(expiry, "either_zero"@);
    if policy == "none"@ {
        false
    } else if policy == "both_zero"@ {
        v.potency == 0 && v.count == 0
    } else if policy == "count_zero"@ {
        v.count == 0
    } else if policy == "potency_zero"@ {
        v.potency == 0
    } else if rule_or(structure, "potency_count"@) == "stack"@ {
        false
    } else if rule_or(structure, "potency_count"@) == "potency_count"@ {
        v.potency == 0 || v.count == 0
    } else if rule_or(primary, "potency"@) == "count"@ {
        v.count == 0
    } else {
        v.potency == 0
    }
}

/// The statuses after `status` moved by the deltas (a 0 delta leaves its
/// value alone) and was removed if that expired it.
pub open spec fn ticked(
    m: Map<Seq<char>, StatusInstance>,
    status: Seq<char>,
    potency_delta: i32,
    count_delta: i32,
    structure: Option<Seq<char>>,
    primary: Option<Seq<char>>,
    expiry: Option<Seq<char>>,
) -> Map<Seq<char>, StatusInstance> {
    let s0 = status_of(m, status);
    let m1 = if potency_delta != 0 {
        with_status(m, status, StatusInstance { potency: max0(s0.potency + potency_delta), ..s0 })
    } else {
        m
    };
    let s1 = status_of(m1, status);
    let m2 = if count_delta != 0 {
        with_status(m1, status, StatusInstance { count: max0(s1.count + count_delta), ..s1 })
    } else {
        m1
    };
    if expired(status_of(m2, status), structure, primary, expiry) {
        m2.remove(status)
    } else {
        m2
    }
}

fn rule_is(rule: Option<&str>, default: &str, text: &str) -> (b: bool)
    ensures
        b == (rule_or(rule_text(rule), default@) == text@),
{
    match rule {
        Some(r) => same_text(r, text),
        None => same_text(default, text),
    }
}

/// Move `status` by the deltas and remove it when its rules say it expired
/// (`structure`, `primary` and `expiry` are the status's own rules).
pub fn tick_status(
    statuses: &mut StatusSet,
    status: &str,
    potency_delta: i32,
    count_delta: i32,
    structure: Option<&str>,
    primary: Option<&str>,
    expiry: Option<&str>,
)
    requires
        old(statuses).wf(),
        status_of(old(statuses)@, status@).potency + potency_delta <= i32::MAX,
        status_of(old(statuses)@, status@).count + count_delta <= i32::MAX,
    ensures
        final(statuses).wf(),
        final(statuses)@ == ticked(
            old(statuses)@,
            status@,
            potency_delta,
            count_delta,
            rule_text(structure),
            rule_text(primary),
            rule_text(expiry),
        ),
{
    let ghost m0 = statuses@;
    if potency_delta != 0 {
        statuses.add_potency(status, potency_delta);
    }
    if count_delta != 0 {
        statuses.add_count(status, count_delta);
    }
    let v = statuses.get(status);
    let gone = if rule_is(expiry, "either_zero", "none") {
        false
    } else if rule_is(expiry, "either_zero", "both_zero") {
        v.potency == 0 && v.count == 0
    } else if rule_is(expiry, "either_zero", "count_zero") {
        v.count == 0
    } else if rule_is(expiry, "either_zero", "potency_zero") {
        v.potency == 0
    } else if rule_is(structure, "potency_count", "stack") {
        false
    } else if rule_is(structure, "potency_count", "potency_count") {
        v.potency == 0 || v.count == 0
    } else if rule_is(primary, "potency", "count") {
        v.count == 0
    } else {
        v.potency == 0
    };
    if gone {
        statuses.remove(status);
    }
}

/// Consume up to `amount` of `status`: Potency first, then Count; returns
/// how much was consumed.
pub open spec fn consumed(
    m: Map<Seq<char>, StatusInstance>,
    status: Seq<char>,
    amount: i32,
    structure: Option<Seq<char>>,
    primary: Option<Seq<char>>,
    expiry: Option<Seq<char>>,
) -> (Map<Seq<char>, StatusInstance>, int) {
    if amount <= 0 {
        (m, 0)
    } else {
        let p = status_of(m, status).potency;
        let take_p: int = if amount < p {
            amount as int
        } else {
            p as int
        };
        let m1 = if take_p > 0 {
            ticked(m, status, -take_p as i32, 0, structure, primary, expiry)
        } else {
            m
        };
        let left = if take_p > 0 {
            amount - take_p
        } else {
            amount as int
        };
        if left > 0 {
            let c = status_of(m1, status).count;
            let take_c: int = if left < c {
                left
            } else {
                c as int
            };
            if take_c > 0 {
                (ticked(m1, status, 0, -take_c as i32, structure, primary, expiry), amount - (left - take_c))
            } else {
                (m1, amount - left)
            }
        } else {
            (m1, amount - left)
        }
    }
}

pub fn consume_status_amount(
    statuses: &mut StatusSet,
    status: &str,
    amount: i32,
    structure: Option<&str>,
    primary: Option<&str>,
    expiry: Option<&str>,
) -> (taken: i32)
    requires
        old(statuses).wf(),
    ensures
        final(statuses).wf(),
        (final(statuses)@, taken as int) == consumed(
            old(statuses)@,
            status@,
            amount,
            rule_text(structure),
            rule_text(primary),
            rule_text(expiry),
        ),
{
    if amount <= 0 {
        return 0;
    }
    let mut left = amount;
    let potency = statuses.potency(status);
    let take_potency = if left < potency {
        left
    } else {
        potency
    };
    if take_potency > 0 {
        tick_status(statuses, status, -take_potency, 0, structure, primary, expiry);
        left = left - take_potency;
    }
    if left > 0 {
        let count = statuses.count(status);
        let take_count = if left < count {
            left
        } else {
            count
        };
        if take_count > 0 {
            tick_status(statuses, status, 0, -take_count, structure, primary, expiry);
            left = left - take_count;
        }
    }
    amount - left
}

} // verus!
