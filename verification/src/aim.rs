//! Whom an enemy's Skill Slots aim at.  Units with Aggro ("more likely to
//! be targeted by enemies") come first, then the fastest; a slot's skill tags
//! may ask for a random Sinner, the one with the most HP or the one with the
//! most of a status.

use vstd::prelude::*;
use crate::ids::UnitId;
use crate::order::{arranged, lemma_insert_ordered, lemma_is_arranged, ordered_by, strict_order};
use crate::rng::{scale_below, xoshiro_output, xoshiro_step, Rng};
use crate::state::{status_of, Unit, UnitKind};
use crate::text::{same_text, starts_with};

verus! {

/// The Aggro a unit carries: its Stack plus its Count.
pub open spec fn aggro(u: Unit) -> int {
    status_of(u.statuses@, "Aggro"@).stack + status_of(u.statuses@, "Aggro"@).count
}

/// Unit `i` is aimed at before unit `j`: more Aggro, then more Speed, then
/// the earlier unit.
pub open spec fn ranks_before(units: Seq<Unit>, i: usize, j: usize) -> bool {
    let (a, b) = (aggro(units[i as int]), aggro(units[j as int]));
    let (s, t) = (units[i as int].speed, units[j as int].speed);
    a > b || (a == b && (s > t || (s == t && i < j)))
}

/// The living Sinners, by index.
pub open spec fn target_pool(units: Seq<Unit>) -> Set<usize> {
    Set::new(|i: usize| i < units.len() && units[i as int].alive && units[i as int].kind is Sinner)
}

/// The living Sinners in the order enemies prefer them.
pub open spec fn ranked_targets(units: Seq<Unit>) -> Seq<usize> {
    arranged(target_pool(units), |i: usize, j: usize| ranks_before(units, i, j))
}

proof fn lemma_ranks_order(units: Seq<Unit>)
    ensures
        strict_order(|i: usize, j: usize| ranks_before(units, i, j)),
{
}

/// The living Sinners among the first `n` units, by index.
pub open spec fn pool_below(units: Seq<Unit>, n: int) -> Set<usize> {
    Set::new(|i: usize| i < n && i < units.len() && units[i as int].alive && units[i as int].kind is Sinner)
}

fn aggro_of(u: &Unit) -> (a: i64)
    requires
        u.statuses.wf(),
    ensures
        a == aggro(*u),
{
    u.statuses.stack("Aggro") as i64 + u.statuses.count("Aggro") as i64
}

/// Does unit `i` rank before unit `j` (see `ranks_before`)?
fn ranks_first(units: &Vec<Unit>, i: usize, j: usize) -> (b: bool)
    requires
        i < units@.len(),
        j < units@.len(),
        units@[i as int].statuses.wf(),
        units@[j as int].statuses.wf(),
    ensures
        b == ranks_before(units@, i, j),
{
    let a = aggro_of(&units[i]);
    let b = aggro_of(&units[j]);
    let s = units[i].speed;
    let t = units[j].speed;
    a > b || (a == b && (s > t || (s == t && i < j)))
}

/// The living Sinners in the order enemies prefer them (`ranked_targets`).
pub fn rank_targets(units: &Vec<Unit>) -> (r: Vec<usize>)
    requires
        forall|k: int| 0 <= k < units@.len() ==> (#[trigger] units@[k]).statuses.wf(),
    ensures
        r@ == ranked_targets(units@),
        r@.to_set() == target_pool(units@),
        r@.len() <= units@.len(),
        ordered_by(r@, |i: usize, j: usize| ranks_before(units@, i, j)),
{
    let ghost lt = |i: usize, j: usize| ranks_before(units@, i, j);
    proof {
        lemma_ranks_order(units@);
    }
    let mut r: Vec<usize> = Vec::new();
    let mut i: usize = 0;
    while i < units.len()
        invariant
            i <= units@.len(),
            strict_order(lt),
            lt == (|i: usize, j: usize| ranks_before(units@, i, j)),
            forall|k: int| 0 <= k < units@.len() ==> (#[trigger] units@[k]).statuses.wf(),
            ordered_by(r@, lt),
            r@.to_set() == pool_below(units@, i as int),
            r@.len() <= i,
        decreases units.len() - i,
    {
        if units[i].alive && units[i].kind.is_sinner() {
            let mut j: usize = 0;
            while j < r.len()
                invariant
                    j <= r@.len(),
                    i < units@.len(),
                    strict_order(lt),
                    lt == (|i: usize, j: usize| ranks_before(units@, i, j)),
                    forall|k: int| 0 <= k < units@.len() ==> (#[trigger] units@[k]).statuses.wf(),
                    r@.to_set() == pool_below(units@, i as int),
                    forall|t: int| 0 <= t < j ==> lt(#[trigger] r@[t], i),
                ensures
                    j <= r@.len(),
                    forall|t: int| 0 <= t < j ==> lt(#[trigger] r@[t], i),
                    j < r@.len() ==> lt(i, r@[j as int]),
                decreases r.len() - j,
            {
                assert(r@.to_set().contains(r@[j as int]));
                if ranks_first(units, i, r[j]) {
                    break;
                }
                assert(r@[j as int] != i);
                assert(lt(r@[j as int], i) || lt(i, r@[j as int]));
                j = j + 1;
            }
            proof {
                lemma_insert_ordered(r@, j as int, i, lt);
            }
            r.insert(j, i);
            assert(r@.to_set() =~= pool_below(units@, i + 1));
        } else {
            assert(r@.to_set() =~= pool_below(units@, i + 1));
        }
        i = i + 1;
    }
    proof {
        assert(pool_below(units@, units@.len() as int) =~= target_pool(units@));
        lemma_is_arranged(r@, lt);
    }
    r
}

/// The tag that names a status to aim by.
pub const MOST_STATUS_TAG: &'static str = "targets_most_status:";

/// How one Skill Slot picks its target.
pub enum Aim {
    /// The Sinners in turn, slot by slot.
    Cycle,
    Random,
    MostHp,
    MostStatus(Seq<char>),
}

/// The status named by the first `targets_most_status:` tag from index `i` on.
pub open spec fn status_tag(tags: Seq<Seq<char>>, i: int) -> Option<Seq<char>>
    decreases tags.len() - i,
{
    if i < 0 || i >= tags.len() {
        None
    } else if MOST_STATUS_TAG@.is_prefix_of(tags[i]) {
        Some(tags[i].subrange(MOST_STATUS_TAG@.len() as int, tags[i].len() as int))
    } else {
        status_tag(tags, i + 1)
    }
}

/// The rule a slot's tags ask for: a random Sinner, then the most HP, then
/// the most of a status; untagged slots (and tags naming none of these)
/// take the Sinners in turn.
pub open spec fn aim_of(tags: Option<Seq<Seq<char>>>) -> Aim {
    match tags {
        None => Aim::Cycle,
        Some(ts) => if ts.contains("targets_random"@) {
            Aim::Random
        } else if ts.contains("targets_most_hp"@) {
            Aim::MostHp
        } else {
            match status_tag(ts, 0) {
                Some(st) => Aim::MostStatus(st),
                None => Aim::Cycle,
            }
        },
    }
}

/// The element of `s` with the largest key; the last one on a tie.
pub open spec fn last_max(s: Seq<usize>, key: spec_fn(usize) -> int) -> usize
    decreases s.len(),
{
    if s.len() <= 1 {
        s[0]
    } else {
        let m = last_max(s.drop_last(), key);
        if key(s.last()) >= key(m) {
            s.last()
        } else {
            m
        }
    }
}

pub open spec fn hp_key(units: Seq<Unit>) -> spec_fn(usize) -> int {
    |k: usize| units[k as int].hp as int
}

/// Potency plus Count of `status`.
pub open spec fn status_key(units: Seq<Unit>, status: Seq<char>) -> spec_fn(usize) -> int {
    |k: usize| status_of(units[k as int].statuses@, status).potency + status_of(units[k as int].statuses@, status).count
}


/// `last_max` picks an element of the sequence whose key is at least that
/// of every element.
pub proof fn last_max_is_a_maximum(s: Seq<usize>, key: spec_fn(usize) -> int)
    requires
        s.len() > 0,
    ensures
        s.contains(last_max(s, key)),
        forall|t: int| 0 <= t < s.len() ==> key(#[trigger] s[t]) <= key(last_max(s, key)),
        exists|i: int|
            0 <= i < s.len() && s[i] == last_max(s, key) && forall|t: int|
                i < t < s.len() ==> key(#[trigger] s[t]) < key(last_max(s, key)),
    decreases s.len(),
{
    if s.len() > 1 {
        let d = s.drop_last();
        last_max_is_a_maximum(d, key);
        let m = last_max(d, key);
        assert(s.contains(s.last()));
        let i = choose|i: int|
            0 <= i < d.len() && d[i] == m && forall|t: int| i < t < d.len() ==> key(#[trigger] d[t]) < key(m);
        assert(s[i] == m);
        assert forall|t: int| 0 <= t < s.len() implies key(#[trigger] s[t]) <= key(last_max(s, key)) by {
            if t < s.len() - 1 {
                assert(s[t] == d[t]);
            }
        }
        if key(s.last()) >= key(m) {
            assert(s[s.len() - 1] == last_max(s, key));
        } else {
            assert forall|t: int| i < t < s.len() implies key(#[trigger] s[t]) < key(last_max(s, key)) by {
                if t < s.len() - 1 {
                    assert(s[t] == d[t]);
                }
            }
        }
    } else {
        assert(s.contains(s[0]));
        assert(s[0] == last_max(s, key));
    }
}

/// A Skill Slot tagged `targets_most_hp` aims at one of the candidates with
/// the most HP, the last of them on a tie.
pub proof fn most_hp_aim_holds_the_most(
    units: Seq<Unit>,
    ranked: Seq<usize>,
    w: [u64; 4],
    tags: Option<Seq<Seq<char>>>,
    k: int,
)
    requires
        ranked.len() > 0,
        aim_of(tags) == Aim::MostHp,
    ensures
        ({
            let p = aim_step(units, ranked, w, tags, k).0;
            &&& ranked.contains(p)
            &&& forall|t: int| 0 <= t < ranked.len() ==> units[#[trigger] ranked[t] as int].hp <= units[p as int].hp
            &&& exists|i: int|
                0 <= i < ranked.len() && ranked[i] == p && forall|t: int|
                    i < t < ranked.len() ==> units[#[trigger] ranked[t] as int].hp < units[p as int].hp
        }),
{
    let key = hp_key(units);
    last_max_is_a_maximum(ranked, key);
    let p = aim_step(units, ranked, w, tags, k).0;
    assert(p == last_max(ranked, key));
    assert forall|t: int| 0 <= t < ranked.len() implies units[#[trigger] ranked[t] as int].hp <= units[p as int].hp by {
        assert(key(ranked[t]) <= key(p));
    }
    let i = choose|i: int|
        0 <= i < ranked.len() && ranked[i] == p && forall|t: int| i < t < ranked.len() ==> key(#[trigger] ranked[t]) < key(p);
    assert forall|t: int| i < t < ranked.len() implies units[#[trigger] ranked[t] as int].hp < units[p as int].hp by {
        assert(key(ranked[t]) < key(p));
    }
}


/// Unit `p` is a living Sinner whose `x` Potency plus Count is at least that
/// of every living Sinner.
pub open spec fn holds_the_most(units: Seq<Unit>, p: int, x: Seq<char>) -> bool {
    &&& 0 <= p < units.len()
    &&& units[p].alive && units[p].kind is Sinner
    &&& forall|j: int|
        0 <= j < units.len() && (#[trigger] units[j]).alive && units[j].kind is Sinner ==> status_of(
            units[j].statuses@,
            x,
        ).potency + status_of(units[j].statuses@, x).count <= status_of(units[p].statuses@, x).potency
            + status_of(units[p].statuses@, x).count
}

/// A Skill Slot tagged `targets_most_status:X` aims at one of the
/// candidates whose X Potency plus X Count is at least that of every
/// candidate, the last of them on a tie.
pub proof fn most_status_aim_holds_the_most(
    units: Seq<Unit>,
    ranked: Seq<usize>,
    w: [u64; 4],
    tags: Option<Seq<Seq<char>>>,
    k: int,
    x: Seq<char>,
)
    requires
        ranked.len() > 0,
        aim_of(tags) == Aim::MostStatus(x),
    ensures
        ({
            let p = aim_step(units, ranked, w, tags, k).0;
            &&& ranked.contains(p)
            &&& forall|t: int|
                0 <= t < ranked.len() ==> status_of(units[#[trigger] ranked[t] as int].statuses@, x).potency
                    + status_of(units[ranked[t] as int].statuses@, x).count <= status_of(
                    units[p as int].statuses@,
                    x,
                ).potency + status_of(units[p as int].statuses@, x).count
            &&& exists|i: int|
                0 <= i < ranked.len() && ranked[i] == p && forall|t: int|
                    i < t < ranked.len() ==> status_of(units[#[trigger] ranked[t] as int].statuses@, x).potency
                        + status_of(units[ranked[t] as int].statuses@, x).count < status_of(
                        units[p as int].statuses@,
                        x,
                    ).potency + status_of(units[p as int].statuses@, x).count
        }),
{
    let key = status_key(units, x);
    last_max_is_a_maximum(ranked, key);
    let p = aim_step(units, ranked, w, tags, k).0;
    assert(p == last_max(ranked, key));
    let i = choose|i: int|
        0 <= i < ranked.len() && ranked[i] == p && forall|t: int| i < t < ranked.len() ==> key(#[trigger] ranked[t]) < key(p);
    assert forall|t: int| i < t < ranked.len() implies status_of(units[#[trigger] ranked[t] as int].statuses@, x).potency
        + status_of(units[ranked[t] as int].statuses@, x).count < status_of(units[p as int].statuses@, x).potency
        + status_of(units[p as int].statuses@, x).count by {
        assert(key(ranked[t]) < key(p));
    }
    assert forall|t: int| 0 <= t < ranked.len() implies status_of(units[#[trigger] ranked[t] as int].statuses@, x).potency
        + status_of(units[ranked[t] as int].statuses@, x).count <= status_of(units[p as int].statuses@, x).potency
        + status_of(units[p as int].statuses@, x).count by {
        assert(key(ranked[t]) <= key(p));
    }
}

/// The target of slot `k` among the `ranked` Sinners, and the RNG words
/// after it.  A random pick advances a copy of the battle RNG; the battle
/// RNG itself is not used up.
pub open spec fn aim_step(
    units: Seq<Unit>,
    ranked: Seq<usize>,
    w: [u64; 4],
    tags: Option<Seq<Seq<char>>>,
    k: int,
) -> (usize, [u64; 4]) {
    match aim_of(tags) {
        Aim::Random => (ranked[scale_below(xoshiro_output(w), ranked.len() as u32) as int], xoshiro_step(w)),
        Aim::MostHp => (last_max(ranked, hp_key(units)), w),
        Aim::MostStatus(st) => (last_max(ranked, status_key(units, st)), w),
        Aim::Cycle => (ranked[k % ranked.len() as int], w),
    }
}

/// `aim_step` for each slot in turn.
pub open spec fn aim_all(
    units: Seq<Unit>,
    ranked: Seq<usize>,
    w: [u64; 4],
    sel: Seq<Option<Seq<Seq<char>>>>,
) -> (Seq<usize>, [u64; 4])
    decreases sel.len(),
{
    if sel.len() == 0 {
        (Seq::empty(), w)
    } else {
        let (ps, w1) = aim_all(units, ranked, w, sel.drop_last());
        let (p, w2) = aim_step(units, ranked, w1, sel.last(), sel.len() - 1);
        (ps.push(p), w2)
    }
}

/// The target of each of an enemy's Skill Slots, by the slots' skill tags:
/// nothing when no Sinner is alive.
pub open spec fn enemy_aims(units: Seq<Unit>, sel: Seq<Option<Seq<Seq<char>>>>, w: [u64; 4]) -> Seq<
    Option<Seq<char>>,
> {
    let ranked = ranked_targets(units);
    if ranked.len() == 0 {
        Seq::new(sel.len(), |k: int| None)
    } else {
        aim_all(units, ranked, w, sel).0.map_values(|p: usize| Some(units[p as int].id@))
    }
}

/// The texts of a list of tags.
pub open spec fn tag_texts(tags: Seq<String>) -> Seq<Seq<char>> {
    tags.map_values(|t: String| t@)
}

/// The tags of each slot, by their texts.
pub open spec fn selection_views(sel: Seq<Option<Vec<String>>>) -> Seq<Option<Seq<Seq<char>>>> {
    sel.map_values(
        |o: Option<Vec<String>>|
            match o {
                Some(ts) => Some(tag_texts(ts@)),
                None => None,
            },
    )
}

/// The targets by their ids.
pub open spec fn aim_views(r: Seq<Option<UnitId>>) -> Seq<Option<Seq<char>>> {
    r.map_values(
        |o: Option<UnitId>|
            match o {
                Some(id) => Some(id@),
                None => None,
            },
    )
}

fn has_tag(tags: &Vec<String>, word: &str) -> (b: bool)
    ensures
        b == tag_texts(tags@).contains(word@),
{
    let mut k: usize = 0;
    while k < tags.len()
        invariant
            k <= tags@.len(),
            forall|t: int| 0 <= t < k ==> tag_texts(tags@)[t] != word@,
        decreases tags.len() - k,
    {
        if same_text(tags[k].as_str(), word) {
            assert(tag_texts(tags@)[k as int] == word@);
            return true;
        }
        k = k + 1;
    }
    false
}

fn status_tag_of(tags: &Vec<String>) -> (r: Option<String>)
    ensures
        match r {
            Some(s) => status_tag(tag_texts(tags@), 0) == Some(s@),
            None => status_tag(tag_texts(tags@), 0) is None,
        },
{
    let ghost v = tag_texts(tags@);
    let mut k: usize = 0;
    while k < tags.len()
        invariant
            k <= tags@.len(),
            v == tag_texts(tags@),
            status_tag(v, 0) == status_tag(v, k as int),
        decreases tags.len() - k,
    {
        let t = tags[k].as_str();
        if starts_with(t, MOST_STATUS_TAG) {
            proof {
                reveal_strlit("targets_most_status:");
            }
            let n = MOST_STATUS_TAG.unicode_len();
            let rest = t.substring_char(n, t.unicode_len());
            return Some(rest.to_owned());
        }
        k = k + 1;
    }
    None
}

/// The last of the `ranked` Sinners with the most HP.
fn most_hp(units: &Vec<Unit>, ranked: &Vec<usize>) -> (p: usize)
    requires
        ranked@.len() > 0,
        forall|t: int| 0 <= t < ranked@.len() ==> #[trigger] ranked@[t] < units@.len(),
    ensures
        p == last_max(ranked@, hp_key(units@)),
        p < units@.len(),
        ranked@.contains(p),
{
    let mut best = ranked[0];
    assert(ranked@[0] == best);
    let mut t: usize = 1;
    proof {
        assert(ranked@.take(1).len() == 1);
    }
    while t < ranked.len()
        invariant
            1 <= t <= ranked@.len(),
            forall|t: int| 0 <= t < ranked@.len() ==> #[trigger] ranked@[t] < units@.len(),
            best == last_max(ranked@.take(t as int), hp_key(units@)),
            best < units@.len(),
            ranked@.contains(best),
        decreases ranked.len() - t,
    {
        let c = ranked[t];
        proof {
            assert(ranked@.take(t + 1).drop_last() =~= ranked@.take(t as int));
        }
        if units[c].hp >= units[best].hp {
            best = c;
        }
        assert(ranked@[t as int] == c);
        t = t + 1;
    }
    assert(ranked@.take(ranked@.len() as int) =~= ranked@);
    best
}

/// The last of the `ranked` Sinners with the most of `status`.
fn most_status(units: &Vec<Unit>, ranked: &Vec<usize>, status: &str) -> (p: usize)
    requires
        ranked@.len() > 0,
        forall|t: int| 0 <= t < ranked@.len() ==> #[trigger] ranked@[t] < units@.len(),
        forall|k: int| 0 <= k < units@.len() ==> (#[trigger] units@[k]).statuses.wf(),
    ensures
        p == last_max(ranked@, status_key(units@, status@)),
        p < units@.len(),
        ranked@.contains(p),
        forall|t: int|
            0 <= t < ranked@.len() ==> status_of(units@[#[trigger] ranked@[t] as int].statuses@, status@).potency
                + status_of(units@[ranked@[t] as int].statuses@, status@).count <= status_of(
                units@[p as int].statuses@,
                status@,
            ).potency + status_of(units@[p as int].statuses@, status@).count,
{
    let mut best = ranked[0];
    assert(ranked@[0] == best);
    let mut best_key: i64 = units[best].statuses.potency(status) as i64 + units[best].statuses.count(status) as i64;
    let mut t: usize = 1;
    proof {
        assert(ranked@.take(1).len() == 1);
    }
    while t < ranked.len()
        invariant
            1 <= t <= ranked@.len(),
            forall|t: int| 0 <= t < ranked@.len() ==> #[trigger] ranked@[t] < units@.len(),
            forall|k: int| 0 <= k < units@.len() ==> (#[trigger] units@[k]).statuses.wf(),
            best == last_max(ranked@.take(t as int), status_key(units@, status@)),
            best < units@.len(),
            ranked@.contains(best),
            best_key == status_key(units@, status@)(best),
        decreases ranked.len() - t,
    {
        let c = ranked[t];
        proof {
            assert(ranked@.take(t + 1).drop_last() =~= ranked@.take(t as int));
        }
        let key: i64 = units[c].statuses.potency(status) as i64 + units[c].statuses.count(status) as i64;
        if key >= best_key {
            best = c;
            best_key = key;
        }
        assert(ranked@[t as int] == c);
        t = t + 1;
    }
    assert(ranked@.take(ranked@.len() as int) =~= ranked@);
    proof {
        let key = status_key(units@, status@);
        last_max_is_a_maximum(ranked@, key);
        assert forall|t: int| 0 <= t < ranked@.len() implies status_of(units@[#[trigger] ranked@[t] as int].statuses@, status@).potency
            + status_of(units@[ranked@[t] as int].statuses@, status@).count <= status_of(units@[best as int].statuses@, status@).potency
            + status_of(units@[best as int].statuses@, status@).count by {
            assert(key(ranked@[t]) <= key(best));
        }
    }
    best
}

/// The target of each of an enemy's Skill Slots (see `enemy_aims`), one per
/// entry of `selections` (the tags of the slot's skill, if known).  Random
/// picks use a copy of `rng`.
pub fn enemy_targets(units: &Vec<Unit>, rng: &Rng, selections: &Vec<Option<Vec<String>>>) -> (r: Vec<
    Option<UnitId>,
>)
    requires
        forall|k: int| 0 <= k < units@.len() ==> (#[trigger] units@[k]).statuses.wf(),
        units@.len() <= u32::MAX,
    ensures
        aim_views(r@) == enemy_aims(units@, selection_views(selections@), rng.words()),
        r@.len() == selections@.len(),
        forall|t: int|
            0 <= t < r@.len() && #[trigger] r@[t] is Some ==> exists|k: int|
                0 <= k < units@.len() && units@[k].alive && units@[k].kind is Sinner && units@[k].id@
                    == r@[t]->0@,        forall|t: int|
            0 <= t < r@.len() ==> match aim_of(#[trigger] selection_views(selections@)[t]) {
                Aim::MostStatus(x) => r@[t] is Some ==> exists|p: int|
                    holds_the_most(units@, p, x) && units@[p].id@ == r@[t]->0@,
                _ => true,
            },
{
    let ranked = rank_targets(units);
    let ghost sel = selection_views(selections@);
    let mut out: Vec<Option<UnitId>> = Vec::new();
    let n = ranked.len();
    if n == 0 {
        let mut k: usize = 0;
        while k < selections.len()
            invariant
                k <= selections@.len(),
                out@.len() == k,
                forall|t: int| 0 <= t < out@.len() ==> (#[trigger] out@[t]) is None,
                aim_views(out@) == Seq::new(k as nat, |t: int| None::<Seq<char>>),
            decreases selections.len() - k,
        {
            let ghost before = out@;
            out.push(None);
            k = k + 1;
            assert forall|t: int| 0 <= t < k implies #[trigger] aim_views(out@)[t] == None::<Seq<char>> by {
                if t < k - 1 {
                    assert(out@[t] == before[t]);
                    assert(aim_views(before)[t] == None::<Seq<char>>);
                }
            }
            assert(aim_views(out@) =~= Seq::new(k as nat, |t: int| None::<Seq<char>>));
        }
        assert(sel.len() == selections@.len());
        return out;
    }
    proof {
        assert forall|t: int| 0 <= t < ranked@.len() implies #[trigger] ranked@[t] < units@.len() by {
            assert(ranked@.to_set().contains(ranked@[t]));
        }
    }
    let mut local = Rng::from_parts(rng.state_words(), 0);
    let ghost mut picks: Seq<usize> = Seq::empty();
    let mut k: usize = 0;
    while k < selections.len()
        invariant
            k <= selections@.len(),
            n == ranked@.len(),
            0 < n <= units@.len() <= u32::MAX,
            ranked@ == ranked_targets(units@),
            sel == selection_views(selections@),
            forall|t: int| 0 <= t < ranked@.len() ==> #[trigger] ranked@[t] < units@.len(),
            forall|k: int| 0 <= k < units@.len() ==> (#[trigger] units@[k]).statuses.wf(),
            aim_all(units@, ranked@, rng.words(), sel.take(k as int)) == (picks, local.words()),
            local.draws() <= k,
            out@.len() == k,
            picks.len() == k,
            aim_views(out@) == picks.map_values(|p: usize| Some(units@[p as int].id@)),
            forall|t: int| 0 <= t < picks.len() ==> #[trigger] picks[t] < units@.len(),
            ranked@.to_set() == target_pool(units@),
            forall|t: int| 0 <= t < out@.len() ==> (#[trigger] out@[t]) is Some && exists|k: int|
                0 <= k < units@.len() && units@[k].alive && units@[k].kind is Sinner && units@[k].id@
                    == out@[t]->0@,
            forall|t: int| 0 <= t < k ==> match aim_of(#[trigger] sel[t]) {
                Aim::MostStatus(x) => holds_the_most(units@, picks[t] as int, x),
                _ => true,
            },
        decreases selections.len() - k,
    {
        let ghost w1 = local.words();
        let p: usize = match &selections[k] {
            None => ranked[k % n],
            Some(tags) => {
                if has_tag(tags, "targets_random") {
                    let i = local.below(n as u32);
                    ranked[i as usize]
                } else if has_tag(tags, "targets_most_hp") {
                    most_hp(units, &ranked)
                } else {
                    match status_tag_of(tags) {
                        Some(st) => most_status(units, &ranked, st.as_str()),
                        None => ranked[k % n],
                    }
                }
            },
        };
        proof {
            let taken = sel.take(k + 1);
            assert(taken.drop_last() =~= sel.take(k as int));
            assert(taken.last() == sel[k as int]);
            assert(aim_step(units@, ranked@, w1, sel[k as int], k as int) == (p, local.words()));
            assert(ranked@.contains(p));
            assert(ranked@.to_set().contains(p));
            assert(target_pool(units@).contains(p));
            match aim_of(sel[k as int]) {
                Aim::MostStatus(x) => {
                    most_status_aim_holds_the_most(units@, ranked@, w1, sel[k as int], k as int, x);
                    assert forall|j: int|
                        0 <= j < units@.len() && (#[trigger] units@[j]).alive && units@[j].kind is Sinner implies status_of(
                        units@[j].statuses@,
                        x,
                    ).potency + status_of(units@[j].statuses@, x).count <= status_of(units@[p as int].statuses@, x).potency
                        + status_of(units@[p as int].statuses@, x).count by {
                        let ju = j as usize;
                        assert(target_pool(units@).contains(ju));
                        assert(ranked@.to_set().contains(ju));
                        let i = choose|i: int| 0 <= i < ranked@.len() && ranked@[i] == ju;
                        assert(ranked@[i] == ju);
                    }
                    assert(holds_the_most(units@, p as int, x));
                },
                _ => {},
            }
            let ghost old_picks = picks;
            picks = picks.push(p);
            assert forall|t: int| 0 <= t < k + 1 implies match aim_of(#[trigger] sel[t]) {
                Aim::MostStatus(x) => holds_the_most(units@, picks[t] as int, x),
                _ => true,
            } by {
                if t < k {
                    assert(picks[t] == old_picks[t]);
                }
            }
        }
        let ghost before = out@;
        let ghost before_picks = picks.drop_last();
        out.push(Some(units[p].id.duplicate()));
        k = k + 1;
        assert forall|t: int| 0 <= t < out@.len() implies #[trigger] aim_views(out@)[t] == Some(
            units@[picks[t] as int].id@,
        ) by {
            if t < out@.len() - 1 {
                assert(out@[t] == before[t]);
                assert(picks[t] == before_picks[t]);
                assert(aim_views(before)[t] == Some(units@[before_picks[t] as int].id@));
            }
        }
        assert(aim_views(out@) =~= picks.map_values(|p: usize| Some(units@[p as int].id@)));
    }
    assert(sel.take(sel.len() as int) =~= sel);
    proof {
        assert forall|t: int| 0 <= t < out@.len() implies match aim_of(#[trigger] selection_views(selections@)[t]) {
            Aim::MostStatus(x) => out@[t] is Some ==> exists|p: int|
                holds_the_most(units@, p, x) && units@[p].id@ == out@[t]->0@,
            _ => true,
        } by {
            assert(sel[t] == selection_views(selections@)[t]);
            match aim_of(sel[t]) {
                Aim::MostStatus(x) => {
                    assert(aim_views(out@)[t] == Some(units@[picks[t] as int].id@));
                    assert(holds_the_most(units@, picks[t] as int, x));
                },
                _ => {},
            }
        }
    }
    out
}

} // verus!
