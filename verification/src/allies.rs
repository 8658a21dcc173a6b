//! Which allies an effect reaches ("Heal 10 SP for 2 other allies with the
//! least SP", "Apply Haste to the slowest ally", ...).

use vstd::prelude::*;
use crate::order::{arranged, lemma_insert_ordered, lemma_is_arranged, ordered_by, strict_order};
use crate::battle::{finish, finish_spec};
use crate::effects::{hp_percent_of, EffectContext};
use crate::rng::{scale_below, xoshiro_output, xoshiro_step, Rng};
use crate::state::{status_of, Unit};
use crate::text::same_text;

verus! {

/// The parts of an effect that pick its allies.
pub struct AllyClause {
    /// Which allies: "self" (the default), "all_allies" / "all",
    /// "lowest_hp", "lowest_sp", "slowest" or "random".
    pub ally: Option<String>,
    /// Whether the acting unit is one of them; by default only when the
    /// clause names no allies or "self".
    pub include_self: Option<bool>,
    /// The number of allies grows with the actor's highest Resonance.
    pub from_resonance: bool,
    pub ally_count: Option<i32>,
    pub value: Option<i32>,
    /// Cap on the number of allies.
    pub max: Option<i32>,
    /// The number of allies is read from a status on the actor ...
    pub ally_from_status: Option<String>,
    /// ... divided by this (at least 1).
    pub ally_from_divisor: Option<i32>,
}

/// On the actor's side: alive and on the same side of the battle.
pub open spec fn same_side(units: Seq<Unit>, actor: int, k: int) -> bool {
    units[k].alive && (units[k].kind is Sinner) == (units[actor].kind is Sinner)
}

/// The other units on the actor's side, by index.
pub open spec fn ally_pool(units: Seq<Unit>, actor: int) -> Set<usize> {
    Set::new(|k: usize| k < units.len() && k != actor && same_side(units, actor, k as int))
}

/// Lower key first; the earlier unit on a tie.
pub open spec fn key_before(key: spec_fn(usize) -> int) -> spec_fn(usize, usize) -> bool {
    |i: usize, j: usize| key(i) < key(j) || (key(i) == key(j) && i < j)
}

pub open spec fn hp_rank(units: Seq<Unit>) -> spec_fn(usize) -> int {
    |k: usize| hp_percent_of(units[k as int])
}

pub open spec fn sp_rank(units: Seq<Unit>) -> spec_fn(usize) -> int {
    |k: usize| units[k as int].sanity.sp_of() as int
}

pub open spec fn speed_rank(units: Seq<Unit>) -> spec_fn(usize) -> int {
    |k: usize| units[k as int].speed as int
}

/// The unit order itself.
pub open spec fn index_rank() -> spec_fn(usize) -> int {
    |k: usize| 0int
}

/// The other allies along a key, lowest first.
pub open spec fn allies_by(units: Seq<Unit>, actor: int, key: spec_fn(usize) -> int) -> Seq<usize> {
    arranged(ally_pool(units, actor), key_before(key))
}

proof fn lemma_key_order(key: spec_fn(usize) -> int)
    ensures
        strict_order(key_before(key)),
{
}

/// The other allies along `key` (given for every unit in `keys`), lowest
/// first, ties in unit order.
fn sorted_allies(units: &Vec<Unit>, actor: usize, keys: &Vec<i64>, Ghost(key): Ghost<spec_fn(usize) -> int>) -> (r:
    Vec<usize>)
    requires
        actor < units@.len(),
        keys@.len() == units@.len(),
        forall|k: int| 0 <= k < units@.len() ==> #[trigger] keys@[k] == key(k as usize),
    ensures
        r@ == allies_by(units@, actor as int, key),
        r@.to_set() == ally_pool(units@, actor as int),
        r@.len() < units@.len(),
{
    let ghost lt = key_before(key);
    proof {
        lemma_key_order(key);
    }
    let mut r: Vec<usize> = Vec::new();
    let mut i: usize = 0;
    while i < units.len()
        invariant
            i <= units@.len(),
            actor < units@.len(),
            keys@.len() == units@.len(),
            forall|k: int| 0 <= k < units@.len() ==> #[trigger] keys@[k] == key(k as usize),
            strict_order(lt),
            lt == key_before(key),
            ordered_by(r@, lt),
            r@.to_set() == Set::new(
                |k: usize| k < i && k < units@.len() && k != actor && same_side(units@, actor as int, k as int),
            ),
            r@.len() + (if actor < i { 1int } else { 0int }) <= i,
        decreases units.len() - i,
    {
        let same = units[i].alive && (units[i].kind.is_sinner() == units[actor].kind.is_sinner());
        if i != actor && same {
            let mut j: usize = 0;
            while j < r.len()
                invariant
                    j <= r@.len(),
                    i < units@.len(),
                    keys@.len() == units@.len(),
                    forall|k: int| 0 <= k < units@.len() ==> #[trigger] keys@[k] == key(k as usize),
                    strict_order(lt),
                    lt == key_before(key),
                    r@.to_set() == Set::new(
                        |k: usize| k < i && k < units@.len() && k != actor && same_side(units@, actor as int, k as int),
                    ),
                    forall|t: int| 0 <= t < j ==> lt(#[trigger] r@[t], i),
                ensures
                    j <= r@.len(),
                    forall|t: int| 0 <= t < j ==> lt(#[trigger] r@[t], i),
                    j < r@.len() ==> lt(i, r@[j as int]),
                decreases r.len() - j,
            {
                assert(r@.to_set().contains(r@[j as int]));
                let o = r[j];
                if keys[i] < keys[o] || (keys[i] == keys[o] && i < o) {
                    break;
                }
                assert(o != i);
                assert(lt(o, i) || lt(i, o));
                j = j + 1;
            }
            proof {
                lemma_insert_ordered(r@, j as int, i, lt);
            }
            r.insert(j, i);
            assert(r@.to_set() =~= Set::new(
                |k: usize| k < i + 1 && k < units@.len() && k != actor && same_side(units@, actor as int, k as int),
            ));
        } else {
            assert(r@.to_set() =~= Set::new(
                |k: usize| k < i + 1 && k < units@.len() && k != actor && same_side(units@, actor as int, k as int),
            ));
        }
        i = i + 1;
    }
    proof {
        assert(r@.to_set() =~= ally_pool(units@, actor as int));
        lemma_is_arranged(r@, lt);
    }
    r
}

/// How many allies the clause reaches.  From the Resonance: the listed
/// count (else the value, else 1) plus the actor's highest Resonance, at
/// least 0, capped by `max` (a negative cap caps nothing).  From a status on
/// the actor: its Count + Potency + Stack over the divisor, at least 0.
/// Otherwise the listed count, else the value, else 0, at least 0.
pub open spec fn reach_of(units: Seq<Unit>, actor: int, c: AllyClause) -> int {
    if c.from_resonance {
        let base: int = match c.ally_count {
            Some(v) => v as int,
            None => match c.value {
                Some(v) => v as int,
                None => 1,
            },
        };
        let n = if base + units[actor].resonance_max < 0 {
            0
        } else {
            base + units[actor].resonance_max
        };
        let cap: int = match c.max {
            Some(m) => m as int,
            None => i32::MAX as int,
        };
        if cap < 0 || n <= cap {
            n
        } else {
            cap
        }
    } else {
        match c.ally_from_status {
            Some(st) => {
                let d: int = match c.ally_from_divisor {
                    Some(d) => if d < 1 {
                        1
                    } else {
                        d as int
                    },
                    None => 1,
                };
                let s = status_of(units[actor].statuses@, st@);
                let have = s.count + s.potency + s.stack;
                if have <= 0 {
                    0
                } else {
                    have / d
                }
            },
            None => {
                let v: int = match c.ally_count {
                    Some(v) => v as int,
                    None => match c.value {
                        Some(v) => v as int,
                        None => 0,
                    },
                };
                if v < 0 {
                    0
                } else {
                    v
                }
            },
        }
    }
}

/// Up to `count` allies: the actor and `count - 1` others when it is
/// included, else `count` others (the first ones of `list`).
pub open spec fn pick_first(list: Seq<usize>, count: int, actor: usize, include_self: bool) -> Seq<usize> {
    if include_self {
        if count < 1 {
            Seq::empty()
        } else {
            seq![actor] + list.take(if count - 1 < list.len() {
                count - 1
            } else {
                list.len() as int
            })
        }
    } else {
        list.take(if count < list.len() {
            if count < 0 {
                0
            } else {
                count
            }
        } else {
            list.len() as int
        })
    }
}

/// Up to `count` allies drawn one by one from `pool` with a copy of the RNG
/// (each draw removes the ally it picks).
pub open spec fn random_pick(pool: Seq<usize>, w: [u64; 4], count: nat) -> Seq<usize>
    decreases count,
{
    if count == 0 || pool.len() == 0 {
        Seq::empty()
    } else {
        let i = scale_below(xoshiro_output(w), pool.len() as u32) as int;
        seq![pool[i]] + random_pick(pool.remove(i), xoshiro_step(w), (count - 1) as nat)
    }
}

/// Which allies the clause names.
pub open spec fn ally_kind(c: AllyClause) -> Seq<char> {
    match c.ally {
        Some(a) => a@,
        None => "self"@,
    }
}

/// Whether the actor is one of the allies.
pub open spec fn includes_self(c: AllyClause) -> bool {
    match c.include_self {
        Some(b) => b,
        None => c.ally is None || ally_kind(c) == "self"@,
    }
}

/// The allies an effect reaches, by unit index (`w`: the battle RNG's words,
/// for "random").
pub open spec fn ally_targets_of(units: Seq<Unit>, actor: usize, c: AllyClause, w: [u64; 4]) -> Seq<usize> {
    let kind = ally_kind(c);
    let me = includes_self(c);
    let count = reach_of(units, actor as int, c);
    let others = allies_by(units, actor as int, index_rank());
    if kind == "self"@ {
        seq![actor]
    } else if kind == "all_allies"@ || kind == "all"@ {
        if me {
            seq![actor] + others
        } else {
            others
        }
    } else if kind == "lowest_hp"@ {
        pick_first(allies_by(units, actor as int, hp_rank(units)), count, actor, me)
    } else if kind == "lowest_sp"@ {
        pick_first(allies_by(units, actor as int, sp_rank(units)), count, actor, me)
    } else if kind == "slowest"@ {
        pick_first(allies_by(units, actor as int, speed_rank(units)), count, actor, me)
    } else if kind == "random"@ {
        let p = random_pick(others, w, count as nat);
        if me {
            seq![actor] + p
        } else {
            p
        }
    } else {
        seq![actor]
    }
}

fn reach(units: &Vec<Unit>, actor: usize, c: &AllyClause) -> (n: i64)
    requires
        actor < units@.len(),
        units@[actor as int].statuses.wf(),
    ensures
        n == reach_of(units@, actor as int, *c),
        n >= 0,
{
    if c.from_resonance {
        let base: i64 = match c.ally_count {
            Some(v) => v as i64,
            None => match c.value {
                Some(v) => v as i64,
                None => 1,
            },
        };
        let sum = base + units[actor].resonance_max as i64;
        let n: i64 = if sum < 0 {
            0
        } else {
            sum
        };
        let cap: i64 = match c.max {
            Some(m) => m as i64,
            None => i32::MAX as i64,
        };
        if cap < 0 || n <= cap {
            n
        } else {
            cap
        }
    } else {
        match &c.ally_from_status {
            Some(st) => {
                let d: i64 = match c.ally_from_divisor {
                    Some(d) => if d < 1 {
                        1
                    } else {
                        d as i64
                    },
                    None => 1,
                };
                let s = units[actor].statuses.get(st.as_str());
                let have: i64 = s.count as i64 + s.potency as i64 + s.stack as i64;
                if have <= 0 {
                    0
                } else {
                    have / d
                }
            },
            None => {
                let v: i64 = match c.ally_count {
                    Some(v) => v as i64,
                    None => match c.value {
                        Some(v) => v as i64,
                        None => 0,
                    },
                };
                if v < 0 {
                    0
                } else {
                    v
                }
            },
        }
    }
}

/// The key of every unit for an ordering: 0 = unit order, 1 = HP percentage,
/// 2 = SP, 3 = Speed.
fn keys_for(units: &Vec<Unit>, which: u8, Ghost(key): Ghost<spec_fn(usize) -> int>) -> (keys: Vec<i64>)
    requires
        which == 0 ==> key == index_rank(),
        which == 1 ==> key == hp_rank(units@),
        which == 2 ==> key == sp_rank(units@),
        which == 3 ==> key == speed_rank(units@),
        which <= 3,
    ensures
        keys@.len() == units@.len(),
        forall|k: int| 0 <= k < units@.len() ==> #[trigger] keys@[k] == key(k as usize),
{
    let mut keys: Vec<i64> = Vec::new();
    let mut k: usize = 0;
    while k < units.len()
        invariant
            k <= units@.len(),
            which <= 3,
            which == 0 ==> key == index_rank(),
            which == 1 ==> key == hp_rank(units@),
            which == 2 ==> key == sp_rank(units@),
            which == 3 ==> key == speed_rank(units@),
            keys@.len() == k,
            forall|t: int| 0 <= t < k ==> #[trigger] keys@[t] == key(t as usize),
        decreases units.len() - k,
    {
        let u = &units[k];
        let v: i64 = if which == 0 {
            0
        } else if which == 1 {
            if u.max_hp <= 0 {
                0
            } else {
                (u.hp as i64 * 100) / u.max_hp as i64
            }
        } else if which == 2 {
            u.sanity.sp() as i64
        } else {
            u.speed as i64
        };
        keys.push(v);
        k = k + 1;
    }
    keys
}

fn first_picks(list: Vec<usize>, count: i64, actor: usize, include_self: bool) -> (r: Vec<usize>)
    requires
        list@.len() < usize::MAX,
    ensures
        r@ == pick_first(list@, count as int, actor, include_self),
{
    let c: usize = if count < 0 {
        0
    } else if count as u64 > list.len() as u64 {
        list.len() + 1
    } else {
        count as usize
    };
    let ghost l = list@;
    let r = finish(list, c, actor, include_self);
    assert(r@ =~= pick_first(l, count as int, actor, include_self));
    r
}

/// Draw up to `count` allies from `pool` with a copy of `rng`.
fn draw_allies(pool: Vec<usize>, rng: &Rng, count: i64) -> (r: Vec<usize>)
    requires
        pool@.len() <= u32::MAX,
        count >= 0,
    ensures
        r@ == random_pick(pool@, rng.words(), count as nat),
{
    let mut local = Rng::from_parts(rng.state_words(), 0);
    let mut pool = pool;
    let ghost pool0 = pool@;
    let mut picked: Vec<usize> = Vec::new();
    let mut left: i64 = count;
    while pool.len() > 0 && left > 0
        invariant
            pool@.len() <= u32::MAX,
            left >= 0,
            picked@.len() + left == count,
            local.draws() == picked@.len(),
            random_pick(pool0, rng.words(), count as nat) == picked@ + random_pick(
                pool@,
                local.words(),
                left as nat,
            ),
        decreases left,
    {
        let ghost w = local.words();
        let ghost before = pool@;
        let i = local.below(pool.len() as u32);
        let x = pool.remove(i as usize);
        assert(pool@ =~= before.remove(i as int));
        picked.push(x);
        left = left - 1;
        proof {
            assert(random_pick(before, w, (left + 1) as nat) == seq![x] + random_pick(pool@, local.words(), left as nat));
        }
        assert(picked@ + random_pick(pool@, local.words(), left as nat) =~= picked@.drop_last() + (seq![x]
            + random_pick(pool@, local.words(), left as nat)));
    }
    assert(random_pick(pool@, local.words(), left as nat) == Seq::<usize>::empty());
    assert(picked@ + Seq::<usize>::empty() =~= picked@);
    picked
}

/// The allies an effect of the acting unit reaches, by unit index (see
/// `ally_targets_of`); "random" uses a copy of `rng`.
pub fn ally_targets(units: &Vec<Unit>, rng: &Rng, ctx: &EffectContext, c: &AllyClause) -> (r: Vec<usize>)
    requires
        ctx.actor_index < units@.len(),
        units@[ctx.actor_index as int].statuses.wf(),
        units@.len() <= u32::MAX,
    ensures
        r@ == ally_targets_of(units@, ctx.actor_index, *c, rng.words()),
{
    let actor = ctx.actor_index;
    let self_text = "self";
    let kind: &str = match &c.ally {
        Some(a) => a.as_str(),
        None => self_text,
    };
    let me = match c.include_self {
        Some(b) => b,
        None => c.ally.is_none() || same_text(kind, "self"),
    };
    let count = reach(units, actor, c);
    let index_keys = keys_for(units, 0, Ghost(index_rank()));
    let others = sorted_allies(units, actor, &index_keys, Ghost(index_rank()));
    if same_text(kind, "self") {
        return vec![actor];
    }
    if same_text(kind, "all_allies") || same_text(kind, "all") {
        if me {
            let mut r = vec![actor];
            let ghost head = r@;
            let mut k: usize = 0;
            while k < others.len()
                invariant
                    k <= others@.len(),
                    r@ == head + others@.take(k as int),
                decreases others.len() - k,
            {
                r.push(others[k]);
                k = k + 1;
                assert(r@ =~= head + others@.take(k as int));
            }
            assert(others@.take(others@.len() as int) =~= others@);
            return r;
        }
        return others;
    }
    if same_text(kind, "lowest_hp") {
        let keys = keys_for(units, 1, Ghost(hp_rank(units@)));
        let list = sorted_allies(units, actor, &keys, Ghost(hp_rank(units@)));
        return first_picks(list, count, actor, me);
    }
    if same_text(kind, "lowest_sp") {
        let keys = keys_for(units, 2, Ghost(sp_rank(units@)));
        let list = sorted_allies(units, actor, &keys, Ghost(sp_rank(units@)));
        return first_picks(list, count, actor, me);
    }
    if same_text(kind, "slowest") {
        let keys = keys_for(units, 3, Ghost(speed_rank(units@)));
        let list = sorted_allies(units, actor, &keys, Ghost(speed_rank(units@)));
        return first_picks(list, count, actor, me);
    }
    if same_text(kind, "random") {
        let picked = draw_allies(others, rng, count);
        if me {
            let mut r = vec![actor];
            let ghost head = r@;
            let mut k: usize = 0;
            while k < picked.len()
                invariant
                    k <= picked@.len(),
                    r@ == head + picked@.take(k as int),
                decreases picked.len() - k,
            {
                r.push(picked[k]);
                k = k + 1;
                assert(r@ =~= head + picked@.take(k as int));
            }
            assert(picked@.take(picked@.len() as int) =~= picked@);
            return r;
        }
        return picked;
    }
    vec![actor]
}

/// "(including this unit)" makes the unit one of the `count` allies, not an
/// extra one: with or without it, no more than `count` units are picked, and
/// an included unit comes first.
pub proof fn including_self_counts_the_actor(allies: Seq<usize>, count: usize, actor: usize)
    ensures
        count >= 1 ==> finish_spec(allies, count, actor, true)[0] == actor,
        finish_spec(allies, count, actor, true).len() <= count,
        finish_spec(allies, count, actor, false).len() <= count,
{
}

} // verus!
