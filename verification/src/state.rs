//! Battle state.
//!
//! Types are modelled so that inapplicable states are unrepresentable where the
//! game's rules allow it: an Abnormality cannot hold Sanity, a unit without a
//! Stagger Threshold cannot be staggered, and so on.

use vstd::prelude::*;
use crate::keyed::StrMap;
use crate::rng::{heads_chance_of, scale_below, xoshiro_output, xoshiro_step, Rng};
use crate::ids::{EgoId, EnemyId, IdentityId, SkillId, UnitId, Uptie};
use crate::scripts::{ClashCountSwing, Segmentation, TimeState};
use crate::battle::EgoSkillKind;

verus! {

/// Sanity Points are capped at +/-45 (wiki.gg `Sanity`).
pub const SP_LIMIT: i32 = 45;

/// `v` clamped into `[-SP_LIMIT, SP_LIMIT]`.
pub open spec fn clamp_sp(v: int) -> i32 {
    if v < -45 {
        -45i32
    } else if v > 45 {
        45i32
    } else {
        v as i32
    }
}

/// A unit either has Sanity or it does not; there is no "has_sp: false".
#[derive(Clone, Copy, Debug, PartialEq, Eq, Structural)]
pub enum Sanity {
    /// Abnormalities and other unsapient units: coins always flip at 50%.
    NoSanity,
    Sane { sp: i32 },
}

impl Sanity {
    pub open spec fn sp_of(self) -> i32 {
        match self {
            Sanity::NoSanity => 0,
            Sanity::Sane { sp } => sp,
        }
    }

    pub fn sp(self) -> (r: i32)
        ensures
            r == self.sp_of(),
    {
        match self {
            Sanity::NoSanity => 0,
            Sanity::Sane { sp } => sp,
        }
    }

    /// Heads chance `H = 50 + SP` (clamped into 0..=100).
    pub fn heads_percent(self) -> (h: i32)
        ensures
            h == heads_chance_of(self.sp_of()),
    {
        crate::rng::heads_chance(self.sp())
    }

    /// SP moved by `delta`, clamped into [-45, 45]; no effect without Sanity.
    pub open spec fn moved(self, delta: int) -> Sanity {
        match self {
            Sanity::NoSanity => Sanity::NoSanity,
            Sanity::Sane { sp } => Sanity::Sane { sp: clamp_sp(sp + delta) },
        }
    }

    /// SP moved by `delta`, clamped into [-45, 45]; no effect without Sanity.
    pub fn add(self, delta: i32) -> (r: Sanity)
        ensures
            r == self.moved(delta as int),
    {
        match self {
            Sanity::NoSanity => Sanity::NoSanity,
            Sanity::Sane { sp } => {
                let v: i64 = sp as i64 + delta as i64;
                let c: i32 = if v < -45 {
                    -45
                } else if v > 45 {
                    45
                } else {
                    v as i32
                };
                Sanity::Sane { sp: c }
            },
        }
    }

    /// SP set to `value`, clamped into [-45, 45]; no effect without Sanity.
    pub fn set(self, value: i32) -> (r: Sanity)
        ensures
            r == (match self {
                Sanity::NoSanity => Sanity::NoSanity,
                Sanity::Sane { .. } => Sanity::Sane { sp: clamp_sp(value as int) },
            }),
    {
        match self {
            Sanity::NoSanity => Sanity::NoSanity,
            Sanity::Sane { .. } => {
                let c: i32 = if value < -45 {
                    -45
                } else if value > 45 {
                    45
                } else {
                    value
                };
                Sanity::Sane { sp: c }
            },
        }
    }
}

/// SP never leaves [-45, 45] through `add` or `set`, from any starting point
/// inside it.
pub proof fn sanity_stays_in_range(s: Sanity, delta: i32)
    ensures
        -45 <= clamp_sp(s.sp_of() + delta) <= 45,
{
}

/// Potency / Count / Stack triple.  Most statuses use Potency + Count; a few use
/// Stack only; quantities that do not apply stay at 0.
#[derive(Clone, Copy, Debug, PartialEq, Eq, Structural)]
pub struct StatusInstance {
    pub potency: i32,
    pub count: i32,
    pub stack: i32,
}

pub open spec fn empty_instance() -> StatusInstance {
    StatusInstance { potency: 0, count: 0, stack: 0 }
}

impl StatusInstance {
    pub open spec fn empty_spec(&self) -> bool {
        self.potency == 0 && self.count == 0 && self.stack == 0
    }

    pub fn is_empty(&self) -> (b: bool)
        ensures
            b == self.empty_spec(),
    {
        self.potency == 0 && self.count == 0 && self.stack == 0
    }

    /// The all-zero instance.
    pub fn zero() -> (s: Self)
        ensures
            s == empty_instance(),
    {
        StatusInstance { potency: 0, count: 0, stack: 0 }
    }
}

/// The statuses of a unit.  A status whose three values are all 0 is absent.
#[derive(Clone, Debug)]
pub struct StatusSet {
    pub(crate) map: StrMap<StatusInstance>,
}

/// `m[key]`, or the all-zero instance when the status is absent.
pub open spec fn status_of(m: Map<Seq<char>, StatusInstance>, key: Seq<char>) -> StatusInstance {
    if m.contains_key(key) {
        m[key]
    } else {
        empty_instance()
    }
}

/// `m` with `key` set to `v`; an empty `v` removes the status.
pub open spec fn with_status(
    m: Map<Seq<char>, StatusInstance>,
    key: Seq<char>,
    v: StatusInstance,
) -> Map<Seq<char>, StatusInstance> {
    if v.empty_spec() {
        m.remove(key)
    } else {
        m.insert(key, v)
    }
}

pub open spec fn max0(v: int) -> i32 {
    if v < 0 {
        0
    } else {
        v as i32
    }
}

impl View for StatusSet {
    type V = Map<Seq<char>, StatusInstance>;

    closed spec fn view(&self) -> Map<Seq<char>, StatusInstance> {
        self.map@
    }
}

impl StatusSet {
    /// Well formed: the map is sorted and holds no empty status.
    pub closed spec fn wf(&self) -> bool {
        &&& self.map.wf()
        &&& forall|k: Seq<char>| #[trigger] self.map@.contains_key(k) ==> !self.map@[k].empty_spec()
    }

    pub fn new() -> (s: Self)
        ensures
            s.wf(),
            s@ == Map::<Seq<char>, StatusInstance>::empty(),
    {
        StatusSet { map: StrMap::new() }
    }

    pub fn get(&self, key: &str) -> (s: StatusInstance)
        requires
            self.wf(),
        ensures
            s == status_of(self@, key@),
    {
        match self.map.get(key) {
            Some(v) => *v,
            None => StatusInstance::zero(),
        }
    }

    pub fn potency(&self, key: &str) -> (v: i32)
        requires
            self.wf(),
        ensures
            v == status_of(self@, key@).potency,
    {
        self.get(key).potency
    }

    pub fn count(&self, key: &str) -> (v: i32)
        requires
            self.wf(),
        ensures
            v == status_of(self@, key@).count,
    {
        self.get(key).count
    }

    pub fn stack(&self, key: &str) -> (v: i32)
        requires
            self.wf(),
        ensures
            v == status_of(self@, key@).stack,
    {
        self.get(key).stack
    }

    /// Every value the status carries: Potency + Count + Stack (a
    /// single-value status may store its amount in Stack).
    pub fn total(&self, key: &str) -> (v: i32)
        requires
            self.wf(),
            i32::MIN <= status_of(self@, key@).potency + status_of(self@, key@).count + status_of(
                self@,
                key@,
            ).stack <= i32::MAX,
        ensures
            v == status_of(self@, key@).potency + status_of(self@, key@).count + status_of(
                self@,
                key@,
            ).stack,
    {
        let s = self.get(key);
        let t: i64 = s.potency as i64 + s.count as i64 + s.stack as i64;
        t as i32
    }

    /// Potency + Count.
    pub fn total_of(&self, key: &str) -> (v: i32)
        requires
            self.wf(),
            i32::MIN <= status_of(self@, key@).potency + status_of(self@, key@).count <= i32::MAX,
        ensures
            v == status_of(self@, key@).potency + status_of(self@, key@).count,
    {
        let s = self.get(key);
        let t: i64 = s.potency as i64 + s.count as i64;
        t as i32
    }

    /// Store `value` under `key`; an empty value removes the status.
    pub fn set(&mut self, key: &str, value: StatusInstance)
        requires
            old(self).wf(),
        ensures
            final(self).wf(),
            final(self)@ == with_status(old(self)@, key@, value),
    {
        if value.is_empty() {
            self.map.remove(key);
            return;
        }
        self.map.insert(key, value);
    }

    pub fn remove(&mut self, key: &str)
        requires
            old(self).wf(),
        ensures
            final(self).wf(),
            final(self)@ == old(self)@.remove(key@),
    {
        self.map.remove(key);
    }

    /// Add `delta` to the Potency, never below 0.
    pub fn add_potency(&mut self, key: &str, delta: i32)
        requires
            old(self).wf(),
            status_of(old(self)@, key@).potency + delta <= i32::MAX,
        ensures
            final(self).wf(),
            final(self)@ == with_status(
                old(self)@,
                key@,
                StatusInstance {
                    potency: max0(status_of(old(self)@, key@).potency + delta),
                    ..status_of(old(self)@, key@)
                },
            ),
    {
        let mut e = self.get(key);
        let v: i64 = e.potency as i64 + delta as i64;
        e.potency = if v < 0 {
            0
        } else {
            v as i32
        };
        self.set(key, e);
    }

    /// Add `delta` to the Count, never below 0.
    pub fn add_count(&mut self, key: &str, delta: i32)
        requires
            old(self).wf(),
            status_of(old(self)@, key@).count + delta <= i32::MAX,
        ensures
            final(self).wf(),
            final(self)@ == with_status(
                old(self)@,
                key@,
                StatusInstance {
                    count: max0(status_of(old(self)@, key@).count + delta),
                    ..status_of(old(self)@, key@)
                },
            ),
    {
        let mut e = self.get(key);
        let v: i64 = e.count as i64 + delta as i64;
        e.count = if v < 0 {
            0
        } else {
            v as i32
        };
        self.set(key, e);
    }

    /// Add `delta` to the Stack, never below 0.
    pub fn add_stack(&mut self, key: &str, delta: i32)
        requires
            old(self).wf(),
            status_of(old(self)@, key@).stack + delta <= i32::MAX,
        ensures
            final(self).wf(),
            final(self)@ == with_status(
                old(self)@,
                key@,
                StatusInstance {
                    stack: max0(status_of(old(self)@, key@).stack + delta),
                    ..status_of(old(self)@, key@)
                },
            ),
    {
        let mut e = self.get(key);
        let v: i64 = e.stack as i64 + delta as i64;
        e.stack = if v < 0 {
            0
        } else {
            v as i32
        };
        self.set(key, e);
    }

    /// Set the Stack to `value`, never below 0.
    pub fn set_stack(&mut self, key: &str, value: i32)
        requires
            old(self).wf(),
        ensures
            final(self).wf(),
            final(self)@ == with_status(
                old(self)@,
                key@,
                StatusInstance { stack: max0(value as int), ..status_of(old(self)@, key@) },
            ),
    {
        let mut e = self.get(key);
        e.stack = if value < 0 {
            0
        } else {
            value
        };
        self.set(key, e);
    }

    /// The status names, in key order.
    pub fn keys(&self) -> (ks: Vec<String>)
        requires
            self.wf(),
        ensures
            ks@.len() == self@.len(),
            forall|i: int| 0 <= i < ks@.len() ==> self@.contains_key(#[trigger] ks@[i]@),
            forall|i: int, j: int| 0 <= i < j < ks@.len() ==> crate::keyed::lex_lt(#[trigger] ks@[i]@, #[trigger] ks@[j]@),
            forall|i: int| 0 <= i < ks@.len() ==> !(#[trigger] self@[ks@[i]@]).empty_spec(),
    {
        proof {
            self.map.lemma_len();
        }
        let ks = self.map.keys();
        proof {
            assert forall|i: int| 0 <= i < ks@.len() implies self@.contains_key(#[trigger] ks@[i]@) by {
                self.map.lemma_entry(i);
            }
            self.map.lemma_sorted();
        }
        ks
    }

    /// The statuses with their values, in key order.
    pub fn iter(&self) -> (es: Vec<(String, StatusInstance)>)
        requires
            self.wf(),
        ensures
            es@.len() == self@.len(),
            forall|i: int| 0 <= i < es@.len() ==> self@.contains_key(#[trigger] es@[i].0@) && self@[es@[i].0@] == es@[i].1,
    {
        proof {
            self.map.lemma_len();
        }
        let mut es: Vec<(String, StatusInstance)> = Vec::new();
        let n = self.map.entry_count();
        let mut i: usize = 0;
        while i < n
            invariant
                self.wf(),
                n == self.map.count(),
                i <= n,
                es@.len() == i,
                forall|j: int| 0 <= j < i ==> self@.contains_key(#[trigger] es@[j].0@) && self@[es@[j].0@] == es@[j].1,
            decreases n - i,
        {
            let (k, v) = self.map.entry_at(i);
            proof {
                self.map.lemma_entry(i as int);
            }
            es.push((k.clone(), *v));
            i = i + 1;
        }
        es
    }

    pub fn is_empty(&self) -> (b: bool)
        requires
            self.wf(),
        ensures
            b == (self@ == Map::<Seq<char>, StatusInstance>::empty()),
    {
        self.map.is_empty()
    }
}

/// Adding to a status and taking the same amount back restores it, as long
/// as the value never had to be held at 0 on the way.
pub proof fn add_then_remove_potency(m: Map<Seq<char>, StatusInstance>, key: Seq<char>, delta: i32)
    requires
        delta >= 0,
        status_of(m, key).potency >= 0,
        status_of(m, key).potency + delta <= i32::MAX,
        forall|k: Seq<char>| #[trigger] m.contains_key(k) ==> !m[k].empty_spec(),
    ensures
        ({
            let s = status_of(m, key);
            let up = with_status(m, key, StatusInstance { potency: max0(s.potency + delta), ..s });
            let s2 = status_of(up, key);
            with_status(up, key, StatusInstance { potency: max0(s2.potency - delta), ..s2 }) == m
        }),
{
    let s = status_of(m, key);
    let up = with_status(m, key, StatusInstance { potency: max0(s.potency + delta), ..s });
    let s2 = status_of(up, key);
    let back = with_status(up, key, StatusInstance { potency: max0(s2.potency - delta), ..s2 });
    if m.contains_key(key) {
        assert(back =~= m);
    } else {
        assert(back =~= m);
    }
}


/// Rust's `/` on integers: the quotient rounded toward zero.
pub open spec fn trunc_div(a: int, b: int) -> int {
    if a >= 0 {
        a / b
    } else {
        -((-a) / b)
    }
}

/// The largest index below `n` that satisfies `p`.
pub open spec fn last_index(n: int, p: spec_fn(int) -> bool) -> Option<int>
    decreases n,
{
    if n <= 0 {
        None
    } else if p(n - 1) {
        Some(n - 1)
    } else {
        last_index(n - 1, p)
    }
}

/// Stagger level reached by crossing the line at `index`: `index + 1` (as the
/// `u8` the original computes), capped at the maximum level.
pub open spec fn level_for_line(found: Option<int>) -> u8 {
    match found {
        None => 0,
        Some(i) => {
            let l = (i % 256) + 1;
            if l > 3 {
                3
            } else {
                l as u8
            }
        },
    }
}

/// Number of consecutive lines from `i` on that a unit at `hp` is at or below.
pub open spec fn run_from(lines: Seq<i32>, i: int, hp: i32) -> nat
    decreases lines.len() - i,
{
    if 0 <= i < lines.len() && hp <= lines[i] {
        1 + run_from(lines, i + 1, hp)
    } else {
        0
    }
}

/// Stagger thresholds are stored as percentages of max HP (wiki.gg `Clash`).
#[derive(Clone, Debug)]
pub struct StaggerState {
    /// Percent-of-max-HP thresholds, descending, as printed in game.
    pub thresholds_percent: Vec<i32>,
    /// The same lines as absolute HP, which is what the simulation moves
    /// ("[Tremor Burst] raises the target's Stagger Threshold by [Tremor]
    /// Potency" is an HP amount).
    pub thresholds_hp: Vec<i32>,
    /// How many of the lines are gone: a line the unit has crossed never
    /// comes back (JA-wiki `戦闘システム詳細`).
    pub consumed: usize,
    /// How many thresholds have been crossed (0 = not staggered).
    pub level: u8,
    /// Turns of Stagger remaining; a staggered unit cannot act.
    pub turns_remaining: u8,
}

/// `after` is `before` after a Stagger check at `hp` that reports
/// `crossed_any` (see `StaggerState::check`).
pub open spec fn stagger_checked(before: StaggerState, after: StaggerState, hp: i32, crossed_any: bool) -> bool {
    let n = run_from(before.thresholds_hp@, before.consumed as int, hp);
    &&& crossed_any == (n > 0)
    &&& after.thresholds_percent@ == before.thresholds_percent@
    &&& after.thresholds_hp@ == before.thresholds_hp@
    &&& n == 0 ==> after == before
    &&& n > 0 ==> after.consumed == before.consumed + n
    &&& n > 0 ==> after.level == (if before.level + n > 3 {
        3
    } else {
        before.level + n
    })
    &&& n > 0 ==> after.turns_remaining == (if before.turns_remaining == 0 {
        2
    } else {
        before.turns_remaining
    })
}

impl StaggerState {
    pub const MAX_LEVEL: u8 = 3;

    pub fn new(thresholds_percent: Vec<i32>) -> (s: Self)
        ensures
            s.thresholds_percent@ == thresholds_percent@,
            s.thresholds_hp@.len() == 0,
            s.consumed == 0,
            s.level == 0,
            s.turns_remaining == 0,
    {
        StaggerState {
            thresholds_percent,
            thresholds_hp: Vec::new(),
            consumed: 0,
            level: 0,
            turns_remaining: 0,
        }
    }

    /// Resolve the printed percentages into absolute HP lines (once: lines
    /// already bound are kept).
    pub fn bind_max_hp(&mut self, max_hp: i32)
        requires
            old(self).thresholds_hp@.len() == 0 ==> forall|i: int|
                0 <= i < old(self).thresholds_percent@.len() ==> i32::MIN <= max_hp
                    * #[trigger] old(self).thresholds_percent@[i] <= i32::MAX,
        ensures
            final(self).thresholds_percent@ == old(self).thresholds_percent@,
            final(self).consumed == old(self).consumed,
            final(self).level == old(self).level,
            final(self).turns_remaining == old(self).turns_remaining,
            old(self).thresholds_hp@.len() != 0 ==> final(self).thresholds_hp@
                == old(self).thresholds_hp@,
            old(self).thresholds_hp@.len() == 0 ==> final(self).thresholds_hp@ == old(
                self,
            ).thresholds_percent@.map_values(|p: i32| trunc_div(max_hp * p, 100) as i32),
    {
        if self.thresholds_hp.len() == 0 {
            let mut lines: Vec<i32> = Vec::new();
            let mut i: usize = 0;
            while i < self.thresholds_percent.len()
                invariant
                    self.thresholds_hp@.len() == 0,
                    self.thresholds_percent@ == old(self).thresholds_percent@,
                    i <= self.thresholds_percent@.len(),
                    forall|k: int|
                        0 <= k < self.thresholds_percent@.len() ==> i32::MIN <= max_hp
                            * #[trigger] self.thresholds_percent@[k] <= i32::MAX,
                    lines@ == self.thresholds_percent@.subrange(0, i as int).map_values(
                        |p: i32| trunc_div(max_hp * p, 100) as i32,
                    ),
                decreases self.thresholds_percent.len() - i,
            {
                let p = self.thresholds_percent[i];
                assert(i32::MIN <= max_hp * p <= i32::MAX);
                let v = max_hp * p / 100;
                lines.push(v);
                i = i + 1;
                assert(lines@ =~= self.thresholds_percent@.subrange(0, i as int).map_values(
                    |p: i32| trunc_div(max_hp * p, 100) as i32,
                ));
            }
            assert(self.thresholds_percent@.subrange(0, i as int) =~= self.thresholds_percent@);
            self.thresholds_hp = lines;
        }
    }

    /// The absolute HP of a Stagger line, falling back to the printed percent
    /// when the unit was never bound to a max HP.
    pub fn threshold_hp(&self, index: usize) -> (r: Option<i32>)
        ensures
            r == (if index < self.thresholds_hp@.len() {
                Some(self.thresholds_hp@[index as int])
            } else if index < self.thresholds_percent@.len() {
                Some(self.thresholds_percent@[index as int])
            } else {
                None
            }),
    {
        if index < self.thresholds_hp.len() {
            return Some(self.thresholds_hp[index]);
        }
        if index < self.thresholds_percent.len() {
            Some(self.thresholds_percent[index])
        } else {
            None
        }
    }

    /// Index of the line `shift_first_threshold` moves: the first line still
    /// in play (the last one once all are gone).
    pub open spec fn first_live_line(&self) -> int {
        let last = if self.thresholds_hp@.len() >= 1 {
            self.thresholds_hp@.len() - 1
        } else {
            0
        };
        if self.consumed < last {
            self.consumed as int
        } else {
            last
        }
    }

    /// `t` is `self` with its first line still in play moved by `amount`
    /// (never below 0): an HP line when the HP lines are bound, else the
    /// first percent line; nothing else changes.
    pub open spec fn shifted(&self, t: StaggerState, amount: i32) -> bool {
        &&& t.consumed == self.consumed
        &&& t.level == self.level
        &&& t.turns_remaining == self.turns_remaining
        &&& if self.thresholds_hp@.len() > 0 {
            &&& t.thresholds_percent@ == self.thresholds_percent@
            &&& t.thresholds_hp@ == self.thresholds_hp@.update(
                self.first_live_line(),
                max0(self.thresholds_hp@[self.first_live_line()] + amount),
            )
        } else {
            &&& t.thresholds_hp@ == self.thresholds_hp@
            &&& if self.thresholds_percent@.len() == 0 {
                t.thresholds_percent@ == self.thresholds_percent@
            } else {
                t.thresholds_percent@ == self.thresholds_percent@.update(
                    0,
                    max0(self.thresholds_percent@[0] + amount),
                )
            }
        }
    }

    /// Move the first line that is still in play by `amount` HP (positive makes
    /// the unit easier to Stagger, negative harder), never below 0.
    pub fn shift_first_threshold(&mut self, amount: i32) -> (r: Option<i32>)
        requires
            old(self).thresholds_hp@.len() == 0 && old(self).thresholds_percent@.len() > 0
                ==> old(self).thresholds_percent@[0] + amount <= i32::MAX,
            old(self).thresholds_hp@.len() > 0 ==> old(self).thresholds_hp@[old(
                self,
            ).first_live_line()] + amount <= i32::MAX,
        ensures
            final(self).consumed == old(self).consumed,
            final(self).level == old(self).level,
            final(self).turns_remaining == old(self).turns_remaining,
            old(self).thresholds_hp@.len() == 0 ==> final(self).thresholds_hp@ == old(
                self,
            ).thresholds_hp@ && if old(self).thresholds_percent@.len() == 0 {
                r is None && final(self).thresholds_percent@ == old(self).thresholds_percent@
            } else {
                r == Some(max0(old(self).thresholds_percent@[0] + amount))
                    && final(self).thresholds_percent@ == old(self).thresholds_percent@.update(
                    0,
                    max0(old(self).thresholds_percent@[0] + amount),
                )
            },
            old(self).thresholds_hp@.len() > 0 ==> final(self).thresholds_percent@ == old(
                self,
            ).thresholds_percent@ && r == Some(
                max0(old(self).thresholds_hp@[old(self).first_live_line()] + amount),
            ) && final(self).thresholds_hp@ == old(self).thresholds_hp@.update(
                old(self).first_live_line(),
                max0(old(self).thresholds_hp@[old(self).first_live_line()] + amount),
            ),
            old(self).shifted(*final(self), amount),
    {
        if self.thresholds_hp.len() == 0 {
            if self.thresholds_percent.len() > 0 {
                let first = self.thresholds_percent[0];
                let v: i32 = if first as i64 + amount as i64 <= 0 {
                    0
                } else {
                    first + amount
                };
                self.thresholds_percent.set(0, v);
                return Some(v);
            }
            return None;
        }
        let last = self.thresholds_hp.len() - 1;
        let index = if self.consumed < last {
            self.consumed
        } else {
            last
        };
        let cur = self.thresholds_hp[index];
        let v: i32 = if cur as i64 + amount as i64 <= 0 {
            0
        } else {
            cur + amount
        };
        self.thresholds_hp.set(index, v);
        Some(v)
    }

    /// How many of the lines still in play the unit is currently at or below.
    pub fn remaining_crossed(&self, hp: i32) -> (n: u8)
        requires
            run_from(self.thresholds_hp@, self.consumed as int, hp) <= 255,
        ensures
            n == run_from(self.thresholds_hp@, self.consumed as int, hp),
    {
        let mut crossed: u8 = 0;
        let mut index = self.consumed;
        while index < self.thresholds_hp.len()
            invariant
                self.consumed <= index,
                run_from(self.thresholds_hp@, self.consumed as int, hp) <= 255,
                crossed + run_from(self.thresholds_hp@, index as int, hp) == run_from(
                    self.thresholds_hp@,
                    self.consumed as int,
                    hp,
                ),
            ensures
                crossed == run_from(self.thresholds_hp@, self.consumed as int, hp),
            decreases self.thresholds_hp.len() - index,
        {
            if hp <= self.thresholds_hp[index] {
                crossed = crossed + 1;
            } else {
                break;
            }
            index = index + 1;
        }
        crossed
    }

    pub fn is_staggered(&self) -> (b: bool)
        ensures
            b == (self.turns_remaining > 0),
    {
        self.turns_remaining > 0
    }

    /// Number of thresholds surpassed at `hp` / `max_hp`: the level of the last
    /// line the unit is at or below (HP lines when bound, otherwise the
    /// non-negative printed percentages of `max_hp`), capped at the maximum.
    pub fn crossed_thresholds(&self, hp: i32, max_hp: i32) -> (n: u8)
        requires
            forall|i: int|
                0 <= i < self.thresholds_hp@.len() && hp <= self.thresholds_hp@[i] ==> i % 256
                    != 255,
            self.thresholds_hp@.len() == 0 ==> forall|i: int|
                0 <= i < self.thresholds_percent@.len() && self.thresholds_percent@[i] >= 0
                    ==> i32::MIN <= max_hp * #[trigger] self.thresholds_percent@[i] <= i32::MAX,
            self.thresholds_hp@.len() == 0 ==> forall|i: int|
                0 <= i < self.thresholds_percent@.len() && self.thresholds_percent@[i] >= 0
                    && hp <= trunc_div(max_hp * self.thresholds_percent@[i], 100) ==> i % 256 != 255,
        ensures
            self.thresholds_hp@.len() > 0 ==> n == level_for_line(
                last_index(
                    self.thresholds_hp@.len() as int,
                    |i: int| hp <= self.thresholds_hp@[i],
                ),
            ),
            self.thresholds_hp@.len() == 0 ==> n == level_for_line(
                last_index(
                    self.thresholds_percent@.len() as int,
                    |i: int|
                        self.thresholds_percent@[i] >= 0 && hp <= trunc_div(
                            max_hp * self.thresholds_percent@[i],
                            100,
                        ),
                ),
            ),
    {
        if self.thresholds_hp.len() > 0 {
            let ghost p = |i: int| hp <= self.thresholds_hp@[i];
            let mut crossed: u8 = 0;
            let mut index: usize = 0;
            while index < self.thresholds_hp.len()
                invariant
                    index <= self.thresholds_hp@.len(),
                    p == (|i: int| hp <= self.thresholds_hp@[i]),
                    forall|i: int|
                        0 <= i < self.thresholds_hp@.len() && hp <= self.thresholds_hp@[i] ==> i
                            % 256 != 255,
                    crossed == level_for_line(last_index(index as int, p)),
                decreases self.thresholds_hp.len() - index,
            {
                if hp <= self.thresholds_hp[index] {
                    let low = (index % 256) as u8;
                    assert(low != 255);
                    let l: u8 = low + 1;
                    crossed = if l > 3 {
                        3
                    } else {
                        l
                    };
                }
                index = index + 1;
            }
            return crossed;
        }
        let ghost q = |i: int|
            self.thresholds_percent@[i] >= 0 && hp <= trunc_div(
                max_hp * self.thresholds_percent@[i],
                100,
            );
        let mut crossed: u8 = 0;
        let mut index: usize = 0;
        while index < self.thresholds_percent.len()
            invariant
                self.thresholds_hp@.len() == 0,
                index <= self.thresholds_percent@.len(),
                q == (|i: int|
                    self.thresholds_percent@[i] >= 0 && hp <= trunc_div(
                        max_hp * self.thresholds_percent@[i],
                        100,
                    )),
                forall|i: int|
                    0 <= i < self.thresholds_percent@.len() && self.thresholds_percent@[i] >= 0
                        ==> i32::MIN <= max_hp * #[trigger] self.thresholds_percent@[i] <= i32::MAX,
                forall|i: int|
                    0 <= i < self.thresholds_percent@.len() && self.thresholds_percent@[i] >= 0
                        && hp <= trunc_div(max_hp * self.thresholds_percent@[i], 100) ==> i % 256
                        != 255,
                crossed == level_for_line(last_index(index as int, q)),
            decreases self.thresholds_percent.len() - index,
        {
            let threshold = self.thresholds_percent[index];
            if threshold >= 0 {
                assert(i32::MIN <= max_hp * threshold <= i32::MAX);
                let value = max_hp * threshold / 100;
                if hp <= value {
                    let low = (index % 256) as u8;
                    assert(low != 255);
                    let l: u8 = low + 1;
                    crossed = if l > 3 {
                        3
                    } else {
                        l
                    };
                }
            }
            index = index + 1;
        }
        crossed
    }

    /// The Stagger check after damage (wiki.gg `Clash` / Stagger): every line
    /// still in play that the unit is now at or below is crossed and gone for
    /// the rest of the stage; the level rises by that many (capped at the
    /// maximum) and, when the unit was not already staggered, it is staggered
    /// for this and the next turn ("混乱状態のターンは更新されない").
    /// Returns whether any line was crossed.
    pub fn check(&mut self, hp: i32) -> (crossed_any: bool)
        requires
            run_from(old(self).thresholds_hp@, old(self).consumed as int, hp) <= 255,
        ensures
            stagger_checked(*old(self), *final(self), hp, crossed_any),
    {
        let crossed = self.remaining_crossed(hp);
        if crossed == 0 {
            return false;
        }
        proof {
            lemma_run_bound(self.thresholds_hp@, self.consumed as int, hp);
            assert(self.consumed < self.thresholds_hp@.len());
            assert(self.consumed + crossed <= self.thresholds_hp@.len());
        }
        let lines = self.thresholds_hp.len();
        assert(self.consumed + crossed <= lines);
        self.consumed = self.consumed + crossed as usize;
        let l: u16 = self.level as u16 + crossed as u16;
        self.level = if l > 3 {
            3
        } else {
            l as u8
        };
        if self.turns_remaining == 0 {
            self.turns_remaining = 2;
        }
        true
    }
}

pub proof fn lemma_run_bound(lines: Seq<i32>, i: int, hp: i32)
    requires
        0 <= i,
    ensures
        i + run_from(lines, i, hp) <= (if i <= lines.len() {
            lines.len() as int
        } else {
            i
        }),
    decreases lines.len() - i,
{
    if 0 <= i < lines.len() && hp <= lines[i] {
        lemma_run_bound(lines, i + 1, hp);
    }
}

/// A line that has been crossed is gone: right after a Stagger check the
/// unit is above the next line still in play (or none is left), so checking
/// again at the same HP crosses nothing more.
pub proof fn stagger_check_is_idempotent(lines: Seq<i32>, consumed: int, hp: i32)
    requires
        0 <= consumed,
    ensures
        run_from(lines, consumed + run_from(lines, consumed, hp), hp) == 0,
    decreases lines.len() - consumed,
{
    if 0 <= consumed < lines.len() && hp <= lines[consumed] {
        stagger_check_is_idempotent(lines, consumed + 1, hp);
    }
}


/// One dashboard slot.
///
/// The panel shows two skills per slot: the bottom one (`current`) is the skill
/// that will be used, the top one (`next`) the already-drawn follow-up, and a
/// faint `preview` above them (wiki.gg `Battles` / Skill Dashboard; JA-wiki
/// 戦闘システム詳細).
#[derive(Clone, Debug)]
pub struct DashboardSlot {
    pub slot: u32,
    /// Bottom row: the skill used this turn.
    pub current: SkillId,
    /// Second visible skill: also selectable this turn.
    pub next: SkillId,
    /// The faint preview above them (drawn, not selectable yet).
    pub preview: SkillId,
    pub target: Option<UnitId>,
    /// Set when the player swapped the bottom skill for a defense skill or an
    /// E.G.O this turn (the original skill is consumed either way).
    pub converted: bool,
    /// The bottom card a defense skill / E.G.O replaced this turn.
    pub replaced: Option<SkillId>,
}

/// A Dashboard slot by the texts of its ids.
pub struct SlotView {
    pub slot: u32,
    pub current: Seq<char>,
    pub next: Seq<char>,
    pub preview: Seq<char>,
    pub target: Option<Seq<char>>,
    pub converted: bool,
    pub replaced: Option<Seq<char>>,
}

impl View for DashboardSlot {
    type V = SlotView;

    open spec fn view(&self) -> SlotView {
        SlotView {
            slot: self.slot,
            current: self.current@,
            next: self.next@,
            preview: self.preview@,
            target: match self.target {
                Some(t) => Some(t@),
                None => None,
            },
            converted: self.converted,
            replaced: match self.replaced {
                Some(r) => Some(r@),
                None => None,
            },
        }
    }
}

impl DashboardSlot {
    pub fn new(slot: u32, current: SkillId, next: SkillId, preview: SkillId) -> (d: Self)
        ensures
            d.slot == slot,
            d.current == current,
            d.next == next,
            d.preview == preview,
            d.target is None,
            !d.converted,
            d.replaced is None,
    {
        DashboardSlot { slot, current, next, preview, target: None, converted: false, replaced: None }
    }
}

/// The unit after healing by `amount` (never below 0), up to max HP.
pub open spec fn healed(u: Unit, amount: i32) -> Unit {
    let v = u.hp + (if amount < 0 {
        0
    } else {
        amount as int
    });
    Unit {
        hp: (if v < u.max_hp {
            v
        } else {
            u.max_hp as int
        }) as i32,
        ..u
    }
}

/// Deck entries by view: skill id text and number of copies.
pub open spec fn entries_view(e: Seq<(SkillId, u32)>) -> Seq<(Seq<char>, u32)> {
    e.map_values(|x: (SkillId, u32)| (x.0@, x.1))
}

/// Total number of copies.
pub open spec fn deck_total(e: Seq<(Seq<char>, u32)>) -> nat
    decreases e.len(),
{
    if e.len() == 0 {
        0
    } else {
        deck_total(e.drop_last()) + e.last().1 as nat
    }
}

/// Copies of skill `id`.
pub open spec fn deck_count(e: Seq<(Seq<char>, u32)>, id: Seq<char>) -> nat
    decreases e.len(),
{
    if e.len() == 0 {
        0
    } else {
        deck_count(e.drop_last(), id) + if e.last().0 == id {
            e.last().1 as nat
        } else {
            0nat
        }
    }
}

/// The entries that still have copies, in order.
pub open spec fn positive(e: Seq<(Seq<char>, u32)>) -> Seq<(Seq<char>, u32)>
    decreases e.len(),
{
    if e.len() == 0 {
        e
    } else {
        positive(e.drop_last()) + if e.last().1 > 0 {
            seq![e.last()]
        } else {
            Seq::empty()
        }
    }
}

/// The entry a draw of `pick` (in `[0, total)`) lands on: entries are laid
/// end to end by their number of copies.
pub open spec fn pick_from(e: Seq<(Seq<char>, u32)>, i: int, pick: int) -> Option<int>
    decreases e.len() - i,
{
    if i < 0 || i >= e.len() {
        None
    } else if pick < e[i].1 {
        Some(i)
    } else {
        pick_from(e, i + 1, pick - e[i].1)
    }
}

/// `e` with one copy of entry `i` taken.
pub open spec fn take_copy(e: Seq<(Seq<char>, u32)>, i: int) -> Seq<(Seq<char>, u32)> {
    e.update(i, (e[i].0, (e[i].1 - 1) as u32))
}

/// Index of the first entry for skill `id` (whatever its count).
pub open spec fn first_entry(p: Seq<(Seq<char>, u32)>, id: Seq<char>, i: int) -> Option<int>
    decreases p.len() - i,
{
    if i < 0 || i >= p.len() {
        None
    } else if p[i].0 == id {
        Some(i)
    } else {
        first_entry(p, id, i + 1)
    }
}

/// Index of the first entry for skill `id` that still has a copy.
pub open spec fn first_live_entry(p: Seq<(Seq<char>, u32)>, id: Seq<char>, i: int) -> Option<int>
    decreases p.len() - i,
{
    if i < 0 || i >= p.len() {
        None
    } else if p[i].0 == id && p[i].1 > 0 {
        Some(i)
    } else {
        first_live_entry(p, id, i + 1)
    }
}

/// The panel after one more copy of `id` was placed on it.
pub open spec fn panel_add(p: Seq<(Seq<char>, u32)>, id: Seq<char>) -> Seq<(Seq<char>, u32)> {
    match first_entry(p, id, 0) {
        Some(j) => p.update(j, (id, (p[j].1 + 1) as u32)),
        None => p.push((id, 1u32)),
    }
}

/// The panel after one copy of `id` was used (entries left without copies
/// are dropped).
pub open spec fn panel_consume(p: Seq<(Seq<char>, u32)>, id: Seq<char>) -> Seq<(Seq<char>, u32)> {
    match first_live_entry(p, id, 0) {
        Some(j) => positive(take_copy(p, j)),
        None => positive(p),
    }
}

/// The identity skill composition ("Skill Amount" copies per skill).
///
/// The panel is filled from one shared composition per identity.  Draws are
/// random among the copies that have not been placed on the panel yet, and the
/// counts reset once every copy has been placed (JA-wiki 戦闘システム詳細:
/// "スキル構成", "全てパネルに配置し終えると構成の残数がリセットされる").
#[derive(Clone, Debug)]
pub struct SkillDeck {
    /// Copies of each skill, from `Skill Amount` (typically 3 / 2 / 1).
    pub composition: Vec<(SkillId, u32)>,
    /// Copies not yet placed on the panel.
    pub remaining: Vec<(SkillId, u32)>,
    /// Copies currently displayed on the panel.
    pub paneled: Vec<(SkillId, u32)>,
}

proof fn lemma_entries_push(s: Seq<(SkillId, u32)>, x: (SkillId, u32))
    ensures
        entries_view(s.push(x)) == entries_view(s).push((x.0@, x.1)),
{
    assert(entries_view(s.push(x)) =~= entries_view(s).push((x.0@, x.1)));
}

proof fn lemma_entries_prefix(e: Seq<(SkillId, u32)>, i: int)
    requires
        0 <= i < e.len(),
    ensures
        entries_view(e.subrange(0, i + 1)) == entries_view(e.subrange(0, i)).push((e[i].0@, e[i].1)),
{
    assert(e.subrange(0, i + 1) =~= e.subrange(0, i).push(e[i]));
    lemma_entries_push(e.subrange(0, i), e[i]);
}

fn copy_entries(e: &Vec<(SkillId, u32)>) -> (r: Vec<(SkillId, u32)>)
    ensures
        entries_view(r@) == entries_view(e@),
{
    let mut r: Vec<(SkillId, u32)> = Vec::new();
    let mut i: usize = 0;
    while i < e.len()
        invariant
            i <= e@.len(),
            entries_view(r@) == entries_view(e@.subrange(0, i as int)),
        decreases e.len() - i,
    {
        let ghost before = r@;
        let x = (e[i].0.duplicate(), e[i].1);
        r.push(x);
        proof {
            lemma_entries_push(before, x);
            lemma_entries_prefix(e@, i as int);
        }
        i = i + 1;
    }
    assert(e@.subrange(0, e@.len() as int) =~= e@);
    r
}

fn keep_positive(e: &Vec<(SkillId, u32)>) -> (r: Vec<(SkillId, u32)>)
    ensures
        entries_view(r@) == positive(entries_view(e@)),
{
    let mut r: Vec<(SkillId, u32)> = Vec::new();
    let mut i: usize = 0;
    while i < e.len()
        invariant
            i <= e@.len(),
            entries_view(r@) == positive(entries_view(e@.subrange(0, i as int))),
        decreases e.len() - i,
    {
        proof {
            lemma_entries_prefix(e@, i as int);
            let next = entries_view(e@.subrange(0, i + 1));
            assert(next.drop_last() =~= entries_view(e@.subrange(0, i as int)));
        }
        let ghost before = r@;
        if e[i].1 > 0 {
            let x = (e[i].0.duplicate(), e[i].1);
            r.push(x);
            proof {
                lemma_entries_push(before, x);
            }
        }
        i = i + 1;
    }
    assert(e@.subrange(0, e@.len() as int) =~= e@);
    r
}

proof fn lemma_total_prefix(e: Seq<(Seq<char>, u32)>, i: int)
    requires
        0 <= i < e.len(),
    ensures
        deck_total(e.subrange(0, i + 1)) == deck_total(e.subrange(0, i)) + e[i].1,
        deck_total(e.subrange(0, i)) <= deck_total(e),
{
    assert(e.subrange(0, i + 1).drop_last() =~= e.subrange(0, i));
    lemma_total_monotone(e, i + 1);
}

proof fn lemma_total_monotone(e: Seq<(Seq<char>, u32)>, k: int)
    requires
        0 <= k <= e.len(),
    ensures
        deck_total(e.subrange(0, k)) <= deck_total(e),
    decreases e.len() - k,
{
    if k < e.len() {
        lemma_total_monotone(e, k + 1);
        assert(e.subrange(0, k + 1).drop_last() =~= e.subrange(0, k));
    } else {
        assert(e.subrange(0, k) =~= e);
    }
}

fn total_copies(e: &Vec<(SkillId, u32)>) -> (n: u32)
    requires
        deck_total(entries_view(e@)) <= u32::MAX,
    ensures
        n == deck_total(entries_view(e@)),
{
    let ghost v = entries_view(e@);
    let mut n: u32 = 0;
    let mut i: usize = 0;
    while i < e.len()
        invariant
            v == entries_view(e@),
            deck_total(v) <= u32::MAX,
            i <= e@.len(),
            n == deck_total(v.subrange(0, i as int)),
        decreases e.len() - i,
    {
        proof {
            lemma_total_prefix(v, i as int);
            lemma_total_monotone(v, i + 1);
            assert(v[i as int].1 == e@[i as int].1);
        }
        n = n + e[i].1;
        i = i + 1;
    }
    assert(v.subrange(0, v.len() as int) =~= v);
    n
}

pub(crate) proof fn lemma_pick_found(e: Seq<(Seq<char>, u32)>, i: int, pick: int)
    requires
        0 <= i <= e.len(),
        0 <= pick,
        pick + deck_total(e.subrange(0, i)) < deck_total(e),
    ensures
        pick_from(e, i, pick) matches Some(k) && i <= k < e.len(),
    decreases e.len() - i,
{
    if i == e.len() {
        assert(e.subrange(0, i) =~= e);
    } else if pick >= e[i].1 {
        lemma_total_prefix(e, i);
        lemma_pick_found(e, i + 1, pick - e[i].1);
    }
}

impl SkillDeck {
    /// Deck with the given composition (entries without copies are dropped),
    /// every copy still to be drawn, nothing on the panel.
    pub fn new(composition: Vec<(SkillId, u32)>) -> (d: Self)
        ensures
            entries_view(d.composition@) == positive(entries_view(composition@)),
            entries_view(d.remaining@) == positive(entries_view(composition@)),
            d.paneled@.len() == 0,
    {
        let composition = keep_positive(&composition);
        let remaining = copy_entries(&composition);
        SkillDeck { composition, remaining, paneled: Vec::new() }
    }

    /// Refill the draw pool from the composition.  The panel keeps what it is
    /// showing.
    pub fn reset(&mut self)
        ensures
            entries_view(final(self).remaining@) == entries_view(old(self).composition@),
            final(self).composition == old(self).composition,
            final(self).paneled == old(self).paneled,
    {
        self.remaining = copy_entries(&self.composition);
    }

    /// Draw one skill for the panel: a copy not placed yet, chosen by the
    /// battle RNG; the pool is refilled first once every copy has been placed.
    pub fn draw(&mut self, rng: &mut Rng) -> (r: Option<SkillId>)
        requires
            deck_total(entries_view(old(self).remaining@)) <= u32::MAX,
            deck_total(entries_view(old(self).composition@)) <= u32::MAX,
            old(rng).draws() < u64::MAX,
            forall|j: int| 0 <= j < old(self).paneled@.len() ==> #[trigger] old(self).paneled@[j].1 < u32::MAX,
        ensures
            ({
                let rem0 = if deck_total(entries_view(old(self).remaining@)) == 0 {
                    entries_view(old(self).composition@)
                } else {
                    entries_view(old(self).remaining@)
                };
                &&& final(self).composition == old(self).composition
                &&& deck_total(rem0) == 0 ==> {
                    &&& r is None
                    &&& entries_view(final(self).remaining@) == rem0
                    &&& final(self).paneled == old(self).paneled
                    &&& *final(rng) == *old(rng)
                }
                &&& deck_total(rem0) > 0 ==> {
                    let pick = scale_below(xoshiro_output(old(rng).words()), deck_total(rem0) as u32);
                    let i = pick_from(rem0, 0, pick as int)->0;
                    &&& pick_from(rem0, 0, pick as int) is Some
                    &&& 0 <= i < rem0.len()
                    &&& r matches Some(s) && s@ == rem0[i].0
                    &&& entries_view(final(self).remaining@) == positive(take_copy(rem0, i))
                    &&& entries_view(final(self).paneled@) == panel_add(
                        entries_view(old(self).paneled@),
                        rem0[i].0,
                    )
                    &&& final(rng).words() == xoshiro_step(old(rng).words())
                    &&& final(rng).draws() == old(rng).draws() + 1
                }
            }),
    {
        if total_copies(&self.remaining) == 0 {
            self.reset();
        }
        let ghost rem0 = entries_view(self.remaining@);
        let total = total_copies(&self.remaining);
        if total == 0 {
            return None;
        }
        let pick0 = rng.below(total);
        let mut pick = pick0;
        let mut i: usize = 0;
        proof {
            assert(rem0.subrange(0, 0) =~= Seq::<(Seq<char>, u32)>::empty());
            lemma_pick_found(rem0, 0, pick0 as int);
        }
        while i < self.remaining.len()
            invariant
                rem0 == entries_view(self.remaining@),
                i <= self.remaining@.len(),
                pick_from(rem0, 0, pick0 as int) == pick_from(rem0, i as int, pick as int),
                pick_from(rem0, i as int, pick as int) is Some,
            ensures
                i < self.remaining@.len(),
                pick < self.remaining@[i as int].1,
                pick_from(rem0, 0, pick0 as int) == Some(i as int),
            decreases self.remaining.len() - i,
        {
            if pick < self.remaining[i].1 {
                break;
            }
            pick = pick - self.remaining[i].1;
            i = i + 1;
        }
        let chosen = self.remaining[i].0.duplicate();
        let left = self.remaining[i].1 - 1;
        let name = self.remaining[i].0.duplicate();
        self.remaining.set(i, (name, left));
        assert(entries_view(self.remaining@) =~= take_copy(rem0, i as int));
        self.remaining = keep_positive(&self.remaining);
        let ghost p0 = entries_view(self.paneled@);
        let mut j: usize = 0;
        while j < self.paneled.len()
            invariant
                p0 == entries_view(self.paneled@),
                j <= self.paneled@.len(),
                first_entry(p0, chosen@, 0) == first_entry(p0, chosen@, j as int),
            ensures
                j < self.paneled@.len() ==> self.paneled@[j as int].0@ == chosen@,
                first_entry(p0, chosen@, 0) == first_entry(p0, chosen@, j as int),
            decreases self.paneled.len() - j,
        {
            if self.paneled[j].0.same(&chosen) {
                break;
            }
            j = j + 1;
        }
        if j < self.paneled.len() {
            let bumped = self.paneled[j].1 + 1;
            let id = self.paneled[j].0.duplicate();
            self.paneled.set(j, (id, bumped));
            assert(entries_view(self.paneled@) =~= panel_add(p0, chosen@));
        } else {
            self.paneled.push((chosen.duplicate(), 1));
            assert(entries_view(self.paneled@) =~= panel_add(p0, chosen@));
        }
        Some(chosen)
    }

    /// Remove one copy of `skill` from the panel because it was used.
    pub fn consume(&mut self, skill: &SkillId)
        ensures
            final(self).composition == old(self).composition,
            final(self).remaining == old(self).remaining,
            entries_view(final(self).paneled@) == panel_consume(entries_view(old(self).paneled@), skill@),
    {
        let ghost p0 = entries_view(self.paneled@);
        let mut j: usize = 0;
        while j < self.paneled.len()
            invariant
                p0 == entries_view(self.paneled@),
                self.composition == old(self).composition,
                self.remaining == old(self).remaining,
                p0 == entries_view(old(self).paneled@),
                j <= self.paneled@.len(),
                first_live_entry(p0, skill@, 0) == first_live_entry(p0, skill@, j as int),
            decreases self.paneled.len() - j,
        {
            if self.paneled[j].0.same(skill) && self.paneled[j].1 > 0 {
                let left = self.paneled[j].1 - 1;
                let id = self.paneled[j].0.duplicate();
                self.paneled.set(j, (id, left));
                assert(entries_view(self.paneled@) =~= take_copy(p0, j as int));
                self.paneled = keep_positive(&self.paneled);
                return;
            }
            j = j + 1;
        }
        self.paneled = keep_positive(&self.paneled);
    }

    /// Copies still to be drawn.
    pub fn len(&self) -> (n: usize)
        requires
            deck_total(entries_view(self.remaining@)) <= u32::MAX,
        ensures
            n == deck_total(entries_view(self.remaining@)),
    {
        total_copies(&self.remaining) as usize
    }

    pub fn is_empty(&self) -> (b: bool)
        requires
            deck_total(entries_view(self.remaining@)) <= u32::MAX,
        ensures
            b == (deck_total(entries_view(self.remaining@)) == 0),
    {
        total_copies(&self.remaining) == 0
    }

    /// Copies of `skill` on the panel (read from its first entry).
    pub fn paneled_count(&self, skill: &SkillId) -> (n: u32)
        ensures
            n == (match first_entry(entries_view(self.paneled@), skill@, 0) {
                Some(j) => entries_view(self.paneled@)[j].1,
                None => 0,
            }),
    {
        let ghost p0 = entries_view(self.paneled@);
        let mut j: usize = 0;
        while j < self.paneled.len()
            invariant
                p0 == entries_view(self.paneled@),
                j <= self.paneled@.len(),
                first_entry(p0, skill@, 0) == first_entry(p0, skill@, j as int),
            decreases self.paneled.len() - j,
        {
            if self.paneled[j].0.same(skill) {
                return self.paneled[j].1;
            }
            j = j + 1;
        }
        0
    }
}


pub(crate) proof fn lemma_positive_keeps_counts(e: Seq<(Seq<char>, u32)>, id: Seq<char>)
    ensures
        deck_total(positive(e)) == deck_total(e),
        deck_count(positive(e), id) == deck_count(e, id),
    decreases e.len(),
{
    if e.len() > 0 {
        lemma_positive_keeps_counts(e.drop_last(), id);
        let rest = positive(e.drop_last());
        if e.last().1 > 0 {
            assert((rest + seq![e.last()]).drop_last() =~= rest);
        } else {
            assert(rest + Seq::<(Seq<char>, u32)>::empty() =~= rest);
        }
    }
}

pub(crate) proof fn lemma_pick_lands_on_copy(e: Seq<(Seq<char>, u32)>, k: int, p: int)
    requires
        0 <= p,
        0 <= k,
    ensures
        pick_from(e, k, p) matches Some(i) ==> k <= i < e.len() && e[i].1 > 0,
    decreases e.len() - k,
{
    if k < e.len() && p >= e[k].1 {
        lemma_pick_lands_on_copy(e, k + 1, p - e[k].1);
    }
}

pub(crate) proof fn lemma_take_copy_counts(e: Seq<(Seq<char>, u32)>, i: int, id: Seq<char>)
    requires
        0 <= i < e.len(),
        e[i].1 > 0,
    ensures
        deck_total(take_copy(e, i)) + 1 == deck_total(e),
        deck_count(take_copy(e, i), id) + (if id == e[i].0 {
            1int
        } else {
            0int
        }) == deck_count(e, id),
    decreases e.len(),
{
    let t = take_copy(e, i);
    if i == e.len() - 1 {
        assert(t.drop_last() =~= e.drop_last());
    } else {
        assert(t.drop_last() =~= take_copy(e.drop_last(), i));
        lemma_take_copy_counts(e.drop_last(), i, id);
    }
}

/// A draw takes exactly one copy out of the pool: the drawn skill has one copy
/// fewer, every other skill keeps its copies, and the pool shrinks by one.  So
/// no skill is placed on the panel more often than the composition holds it
/// until the pool is refilled.
pub proof fn draw_takes_one_copy(e: Seq<(Seq<char>, u32)>, pick: int)
    requires
        0 <= pick < deck_total(e),
    ensures
        pick_from(e, 0, pick) matches Some(i) && {
            &&& 0 <= i < e.len()
            &&& deck_total(positive(take_copy(e, i))) + 1 == deck_total(e)
            &&& deck_count(positive(take_copy(e, i)), e[i].0) + 1 == deck_count(e, e[i].0)
            &&& forall|id: Seq<char>|
                id != e[i].0 ==> #[trigger] deck_count(positive(take_copy(e, i)), id) == deck_count(
                    e,
                    id,
                )
        },
{
    assert(e.subrange(0, 0) =~= Seq::<(Seq<char>, u32)>::empty());
    lemma_pick_found(e, 0, pick);
    lemma_pick_lands_on_copy(e, 0, pick);
    let i = pick_from(e, 0, pick)->0;
    lemma_take_copy_counts(e, i, e[i].0);
    lemma_positive_keeps_counts(take_copy(e, i), e[i].0);
    assert forall|id: Seq<char>| id != e[i].0 implies #[trigger] deck_count(
        positive(take_copy(e, i)),
        id,
    ) == deck_count(e, id) by {
        lemma_take_copy_counts(e, i, id);
        lemma_positive_keeps_counts(take_copy(e, i), id);
    }
}


#[derive(Clone, Debug)]
pub enum UnitKind {
    Sinner { identity: IdentityId },
    Abnormality { enemy: EnemyId, part: Option<String> },
}

impl UnitKind {
    pub fn is_sinner(&self) -> (b: bool)
        ensures
            b == (*self is Sinner),
    {
        match self {
            UnitKind::Sinner { .. } => true,
            UnitKind::Abnormality { .. } => false,
        }
    }
}

/// Cross-station state for the Refraction Railway encounter chain.
#[derive(Clone, Debug)]
pub struct CampaignState {
    /// Stacks of `In the Past / In the Present / In the Future` on the Imago.
    pub time_stacks: StrMap<i32>,
    /// Passive components disabled by the earlier stations' choice events.
    pub disabled_passives: Vec<String>,
    /// Which station the campaign is at (1 = Pupa ... 5 = Imago).
    pub station: i32,
    /// The Pupa's remaining HP when station 1 ended (Section 5 starts from it).
    pub pupa_hp: Option<i32>,
}

impl CampaignState {
    /// Was the passive component `key` disabled?
    pub fn is_disabled(&self, key: &str) -> (b: bool)
        ensures
            b == exists|i: int| 0 <= i < self.disabled_passives@.len() && #[trigger] self.disabled_passives@[i]@ == key@,
    {
        let mut i: usize = 0;
        while i < self.disabled_passives.len()
            invariant
                i <= self.disabled_passives@.len(),
                forall|j: int| 0 <= j < i ==> #[trigger] self.disabled_passives@[j]@ != key@,
            decreases self.disabled_passives.len() - i,
        {
            if crate::text::same_text(self.disabled_passives[i].as_str(), key) {
                return true;
            }
            i = i + 1;
        }
        false
    }
}

/// A retaliation registered by a defense skill for the current turn.
#[derive(Clone, Debug)]
pub struct RetaliateOnHit {
    pub status: String,
    pub potency: i32,
}

/// A status application queued for the next Turn Start.
#[derive(Clone, Debug)]
pub struct PendingStatus {
    pub status: String,
    pub potency: i32,
    pub count: i32,
    /// Stack-based statuses keep their Stack through the delay.
    pub stack: i32,
}

/// Which rules the engine had to guess or does not model at all.
#[derive(Clone, Copy, Debug, PartialEq, Eq, Structural)]
pub enum UnknownRule {
    /// The wiki documents that the SP factors changed but not the current
    /// values, so SP gain/loss on a clash is caller-supplied.
    SanityGainOnClash,
    /// Coin-flip RNG algorithm of the client is not observable.
    CoinFlipRng,
}

impl UnknownRule {
    pub fn text(self) -> (s: &'static str)
        ensures
            s@ == (match self {
                UnknownRule::SanityGainOnClash => "SP gain/loss per clash is not documented for the current game version; configure BattleConfig::sp_on_clash_win / sp_on_clash_lose"@,
                UnknownRule::CoinFlipRng => "client RNG algorithm unknown; the simulator uses a documented substitute RNG"@,
            }),
    {
        match self {
            UnknownRule::SanityGainOnClash => "SP gain/loss per clash is not documented for the current game version; configure BattleConfig::sp_on_clash_win / sp_on_clash_lose",
            UnknownRule::CoinFlipRng => "client RNG algorithm unknown; the simulator uses a documented substitute RNG",
        }
    }
}

/// How enemies choose their skill.  The real rotations are documented on the
/// wiki in a notation this project does not treat as unambiguous, so the
/// default is an explicit stand-in.
#[derive(Clone, Copy, Debug, PartialEq, Eq, Structural)]
pub enum EnemyPolicy {
    /// Always the first skill listed for the unit.
    FirstListed,
    /// Walk the unit's skill list in order, cycling.
    Cyclic,
}

#[derive(Clone, Copy, Debug, PartialEq, Eq, Structural)]
pub struct BattleConfig {
    pub uptie: Uptie,
    pub enemy_policy: EnemyPolicy,
    /// `None` == UNKNOWN rule, treated as 0 with a warning entry in the log.
    pub sp_on_clash_win: Option<i32>,
    pub sp_on_clash_lose: Option<i32>,
    /// Refuse to run skills whose effect text is not fully modelled.
    pub strict_mechanics: bool,
    /// Sanity a Sinner starts the encounter with (a campaign carries SP
    /// between stations, so it is configurable; 45 == the upper clamp).
    pub starting_sp: i32,
    pub max_turns: u32,
    /// Focused encounter (an Abnormality fight): only there can a faster
    /// Sinner redirect an enemy Skill onto itself (JA-wiki 戦闘システム詳細).
    pub focused_encounter: bool,
    /// Imago: the state of time the encounter starts in.
    pub initial_time_state: TimeState,
}

pub fn default_starting_sp() -> (sp: i32)
    ensures
        sp == 45,
{
    45
}

pub fn default_initial_time_state() -> (t: TimeState)
    ensures
        t == TimeState::Past,
{
    TimeState::Past
}

pub fn default_enemy_policy() -> (p: EnemyPolicy)
    ensures
        p == EnemyPolicy::Cyclic,
{
    EnemyPolicy::Cyclic
}

/// The default number of targets of a Skill use.
pub fn one() -> (n: usize)
    ensures
        n == 1,
{
    1
}

impl Default for BattleConfig {
    fn default() -> (c: Self)
        ensures
            c == (BattleConfig {
                uptie: Uptie(4),
                enemy_policy: EnemyPolicy::Cyclic,
                sp_on_clash_win: None,
                sp_on_clash_lose: None,
                strict_mechanics: true,
                starting_sp: 45,
                focused_encounter: true,
                max_turns: 30,
                initial_time_state: TimeState::Past,
            }),
    {
        BattleConfig {
            uptie: Uptie(4),
            enemy_policy: default_enemy_policy(),
            sp_on_clash_win: None,
            sp_on_clash_lose: None,
            strict_mechanics: true,
            starting_sp: default_starting_sp(),
            focused_encounter: true,
            max_turns: 30,
            initial_time_state: default_initial_time_state(),
        }
    }
}

#[derive(Clone, Copy, Debug, PartialEq, Eq, Structural)]
pub enum Phase {
    Setup,
    TurnStart,
    AwaitingActions,
    Combat,
    TurnEnd,
    Finished,
}

#[derive(Clone, Copy, Debug, PartialEq, Eq, Structural)]
pub enum Winner {
    Sinners,
    Enemies,
    Draw,
    /// The stage ended by a skill effect ("End the Encounter") rather than by a
    /// wipe; Refraction Railway stations resolve this way.
    EncounterEnded,
}

#[derive(Clone, Debug)]
pub struct LogEntry {
    pub turn: u32,
    pub kind: String,
    pub detail: String,
}

#[derive(Clone, Debug)]
pub struct SubmittedAction {
    pub actor: UnitId,
    pub slot: u32,
    pub skill: SkillId,
    pub target: Option<UnitId>,
    pub is_ego: bool,
    /// The enemy Skill Slot this action chains to (focused encounters).
    pub enemy_slot: Option<u32>,
    /// True when the action used the **top** card of the Slot (its `next`
    /// skill); the used card is consumed when the turn resolves.
    pub used_top: bool,
    pub ego: Option<EgoId>,
    pub ego_kind: Option<EgoSkillKind>,
}


/// `level + modifier + up - down`, never below 1.
pub open spec fn level_with(level: i32, modifier: i32, up: i32, down: i32) -> int {
    let v = level + modifier + up - down;
    if v < 1 {
        1
    } else {
        v
    }
}

/// A unit in battle: a Sinner or a part of an Abnormality.  Its physical and
/// sin resistances, passives and Panic effects are not held here; the
/// damage formula that reads the resistances runs outside the library.
#[derive(Debug)]
pub struct Unit {
    /// How many units this unit's current Skill use targets ("When attacking
    /// just a single target" conditions read this).
    pub planned_targets: usize,
    pub id: UnitId,
    pub kind: UnitKind,
    pub name: String,
    pub level: i32,
    pub hp: i32,
    pub max_hp: i32,
    pub shield: i32,
    pub sanity: Sanity,
    pub speed: i32,
    pub speed_range: (i32, i32),
    pub offense_level_mod: i32,
    pub defense_level_mod: i32,
    pub stagger: StaggerState,
    pub statuses: StatusSet,
    /// Targets this unit's most recent Skill killed.
    pub skill_kills: i32,
    /// Suit currently in this unit's Hand (Hanafuda markers).
    pub suit: Option<String>,
    /// "[Attack End] For N turns, lose X SP at Combat End".
    pub combat_end_sp_loss: Vec<(i32, i32)>,
    /// Marker statuses that have no numeric value of their own (the Tremor
    /// amplitudes, the Suit in this unit's hand, and the like).
    pub status_markers: Vec<String>,
    pub deck: SkillDeck,
    pub dashboard: Vec<DashboardSlot>,
    /// Panic Type of this unit (wiki.gg `Sanity`).
    pub panic_type: Option<String>,
    /// Low Morale / Panic for the current turn (set at Turn Start).
    pub low_morale: bool,
    pub panicked: bool,
    /// A Sinner at -45 SP who owns a Corrosion Skill is forced into E.G.O
    /// Corrosion instead of Panicking.
    pub corroded: bool,
    /// Panicked or Corroded last turn: SP resets to 0.
    pub panic_recovering: bool,
    /// The ids of this unit's passives.
    pub passive_ids: Vec<String>,
    /// Status amounts as they were at Combat Start.
    pub combat_start_statuses: StrMap<i32>,
    /// True while a passive's Unopposed Attack is resolving.
    pub follow_up_active: bool,
    /// Hanafuda: the Hand is converted at the next Turn Start.
    pub pending_suit_conversion: bool,
    /// `Petals` gained this turn.
    pub petals_gained: i32,
    /// Skill Slots whose Skill can Clash regardless of Speed.
    pub clash_any_speed_slots: Vec<u32>,
    /// Every Skill of this unit's identity kit, including the defense Skill.
    pub identity_skills: Vec<SkillId>,
    pub ego_slots: Vec<EgoId>,
    /// The E.G.O of this unit that own a Corrosion Skill.
    pub corrosion_egos: Vec<EgoId>,
    pub alive: bool,
    /// Where an enemy is in its skill cycle.
    pub skill_cursor: u32,
    /// Imago: which of In the Past / In the Present / In the Future is active.
    pub time_state: Option<TimeState>,
    /// Bit flags for the 66% / 33% Stack grants (they happen once each).
    pub time_threshold_flags: u8,
    /// Number of Skill Slots this enemy has.
    pub enemy_slots: u32,
    /// Some enemies act even while Staggered.
    pub acts_while_staggered: bool,
    /// Random Clash Power swing after N clashes with one target.
    pub clash_count_swing: Option<ClashCountSwing>,
    /// The state-exclusive "big" skill of each state of time.
    pub time_signature: Vec<(TimeState, String)>,
    /// Encounter start: a flat Shield (the illusory butterflies' 333).
    pub shield_flat: Option<i32>,
    /// "End the Encounter" only while the Shield held.
    pub ends_encounter_unless_shield_broken: bool,
    /// HP floor as a percentage of max HP (the Pupa's "HP does not fall
    /// below 90%").
    pub hp_floor_percent: Option<i32>,
    /// Set once the Shield was fully consumed while it had one.
    pub barrier_broken: bool,
    /// Skills whose Attack End ends the encounter.
    pub ends_encounter_on: Vec<String>,
    /// Per-turn usage counters for effects with a "(N times per turn)" limit.
    pub turn_effect_usage: StrMap<i32>,
    /// Effects queued for the start of the next turn.
    pub pending_next_turn: Vec<PendingStatus>,
    /// Retaliations registered by a defense skill for the turn.
    pub retaliate_on_hit: Vec<RetaliateOnHit>,
    /// "The X - Segmentation" data when this unit is an illusory butterfly.
    pub segmentation: Option<Segmentation>,
    /// Hits taken as a main target this turn.
    pub hits_taken: i32,
    /// Sinners already healed by Segmentation this turn.
    pub segmentation_healed: Vec<String>,
    /// Highest Sin Resonance this turn.
    pub resonance_max: i32,
    /// Per-sin Resonance counts for this turn.
    pub resonance_of: StrMap<i32>,
    /// Longest Absolute Sin Resonance chain this turn.
    pub a_reson_max: i32,
}

/// The HP floor of a unit: `max_hp * percent / 100` (at least 1) when it
/// has one, else 0.
pub open spec fn floor_of(max_hp: i32, percent: Option<i32>) -> int {
    match percent {
        Some(p) => {
            let f = trunc_div(max_hp * p, 100);
            if f < 1 {
                1
            } else {
                f
            }
        },
        None => 0,
    }
}

fn hp_floor(max_hp: i32, percent: Option<i32>) -> (f: i32)
    requires
        percent matches Some(p) ==> i32::MIN <= max_hp * p <= i32::MAX,
    ensures
        f == floor_of(max_hp, percent),
{
    match percent {
        Some(p) => {
            let v = max_hp * p / 100;
            if v < 1 {
                1
            } else {
                v
            }
        },
        None => 0,
    }
}

/// The HP damage cannot take a unit below: its floor when it has one, else
/// 0; a unit already below its floor is not healed up to it.
pub open spec fn damage_floor(h: Unit) -> int {
    let floor = floor_of(h.max_hp, h.hp_floor_percent);
    if floor < h.hp {
        floor
    } else {
        h.hp as int
    }
}

/// `amount` (never below 0) taken by Shield first, then HP down to the
/// floor: the health after, and the Shield and HP lost.
pub open spec fn damaged(h: Unit, amount: i32) -> (Unit, int, int) {
    let a: int = if amount < 0 {
        0
    } else {
        amount as int
    };
    let absorbed: int = if h.shield < a {
        h.shield as int
    } else {
        a
    };
    let shield = h.shield - absorbed;
    let remainder = a - absorbed;
    let hp = if h.hp - remainder < damage_floor(h) {
        damage_floor(h)
    } else {
        h.hp - remainder
    };
    (
        Unit {
            hp: hp as i32,
            shield: shield as i32,
            barrier_broken: h.barrier_broken || (absorbed > 0 && shield == 0),
            alive: h.alive && hp != 0,
            ..h
        },
        absorbed,
        h.hp - hp,
    )
}

/// The arithmetic of `damaged` stays within i32.
pub open spec fn damage_fits(h: Unit, amount: i32) -> bool {
    let a: int = if amount < 0 {
        0
    } else {
        amount as int
    };
    let remainder = if h.shield < a {
        a - h.shield
    } else {
        0
    };
    &&& remainder <= i32::MAX
    &&& h.hp - remainder >= i32::MIN
    &&& (h.hp_floor_percent matches Some(p) ==> i32::MIN <= h.max_hp * p <= i32::MAX)
}

impl Unit {
    /// Offense Level including `Offense Level Up/Down` ("increases based on
    /// the effect's Potency", wiki.gg `Status Effects`), never below 1.
    pub fn offense_level(&self) -> (r: i32)
        requires
            self.statuses.wf(),
            level_with(
                self.level,
                self.offense_level_mod,
                status_of(self.statuses@, "Offense Level Up"@).potency,
                status_of(self.statuses@, "Offense Level Down"@).potency,
            ) <= i32::MAX,
        ensures
            r == level_with(
                self.level,
                self.offense_level_mod,
                status_of(self.statuses@, "Offense Level Up"@).potency,
                status_of(self.statuses@, "Offense Level Down"@).potency,
            ),
    {
        let up = self.statuses.potency("Offense Level Up");
        let down = self.statuses.potency("Offense Level Down");
        let v: i64 = self.level as i64 + self.offense_level_mod as i64 + up as i64 - down as i64;
        if v < 1 {
            1
        } else {
            v as i32
        }
    }

    /// Defense Level including `Defense Level Up/Down`, never below 1.
    pub fn defense_level(&self) -> (r: i32)
        requires
            self.statuses.wf(),
            level_with(
                self.level,
                self.defense_level_mod,
                status_of(self.statuses@, "Defense Level Up"@).potency,
                status_of(self.statuses@, "Defense Level Down"@).potency,
            ) <= i32::MAX,
        ensures
            r == level_with(
                self.level,
                self.defense_level_mod,
                status_of(self.statuses@, "Defense Level Up"@).potency,
                status_of(self.statuses@, "Defense Level Down"@).potency,
            ),
    {
        let up = self.statuses.potency("Defense Level Up");
        let down = self.statuses.potency("Defense Level Down");
        let v: i64 = self.level as i64 + self.defense_level_mod as i64 + up as i64 - down as i64;
        if v < 1 {
            1
        } else {
            v as i32
        }
    }

    pub fn is_staggered(&self) -> (b: bool)
        ensures
            b == (self.stagger.turns_remaining > 0),
    {
        self.stagger.is_staggered()
    }

    /// Gain `potency` Potency and `count` Count of Poise.
    pub fn add_poise(&mut self, potency: i32, count: i32)
        requires
            old(self).statuses.wf(),
            status_of(old(self).statuses@, "Poise"@).potency + potency <= i32::MAX,
            status_of(old(self).statuses@, "Poise"@).count + count <= i32::MAX,
        ensures
            final(self).statuses.wf(),
            ({
                let s = status_of(old(self).statuses@, "Poise"@);
                final(self).statuses@ == with_status(
                    old(self).statuses@,
                    "Poise"@,
                    StatusInstance {
                        potency: max0(s.potency + potency),
                        count: max0(s.count + count),
                        ..s
                    },
                )
            }),
            final(self).hp == old(self).hp,
            final(self).sanity == old(self).sanity,
    {
        let ghost m0 = self.statuses@;
        self.statuses.add_potency("Poise", potency);
        self.statuses.add_count("Poise", count);
        assert(self.statuses@ =~= with_status(
            m0,
            "Poise"@,
            StatusInstance {
                potency: max0(status_of(m0, "Poise"@).potency + potency),
                count: max0(status_of(m0, "Poise"@).count + count),
                ..status_of(m0, "Poise"@)
            },
        ));
    }

    /// Apply damage to Shield first, then HP; returns (Shield lost, HP lost).
    /// A unit holding `No Damage Taken` takes nothing ("Does not take damage
    /// for this turn", The Quickening).
    #[verifier::rlimit(60)]
    pub fn take_damage(&mut self, amount: i32) -> (r: (i32, i32))
        requires
            old(self).statuses.wf(),
            damage_fits(*old(self), amount),
        ensures
            status_of(old(self).statuses@, "No Damage Taken"@).stack > 0 ==> r == (0i32, 0i32)
                && *final(self) == *old(self),
            status_of(old(self).statuses@, "No Damage Taken"@).stack <= 0 ==> ({
                let (h, absorbed, lost) = damaged(*old(self), amount);
                *final(self) == h && r.0 == absorbed && r.1 == lost
            }),
    {
        if self.statuses.stack("No Damage Taken") > 0 {
            return (0, 0);
        }
        let ghost h0 = *self;
        let a = if amount < 0 {
            0
        } else {
            amount
        };
        let absorbed = if self.shield < a {
            self.shield
        } else {
            a
        };
        let shield = self.shield - absorbed;
        let broken = self.barrier_broken || (absorbed > 0 && shield == 0);
        let remainder = a - absorbed;
        let floor = hp_floor(self.max_hp, self.hp_floor_percent);
        let before = self.hp;
        let effective_floor = if floor < before {
            floor
        } else {
            before
        };
        assert(effective_floor == damage_floor(h0));
        let after = before - remainder;
        let hp = if after < effective_floor {
            effective_floor
        } else {
            after
        };
        let alive = self.alive && hp != 0;
        assert(damaged(h0, amount).0 == Unit {
            hp,
            shield,
            barrier_broken: broken,
            alive,
            ..h0
        });
        self.hp = hp;
        self.shield = shield;
        self.barrier_broken = broken;
        self.alive = alive;
        (absorbed, before - hp)
    }

    /// Heal by `amount` (never below 0), up to max HP.
    pub fn heal(&mut self, amount: i32)
        requires
            old(self).hp + (if amount < 0 {
                0
            } else {
                amount as int
            }) <= i32::MAX,
        ensures
            *final(self) == healed(*old(self), amount),
    {
        let a = if amount < 0 {
            0
        } else {
            amount
        };
        let v = self.hp + a;
        self.hp = if v < self.max_hp {
            v
        } else {
            self.max_hp
        };
    }

    /// HP as a whole percentage of max HP (rounded toward zero); 0 without max
    /// HP.
    pub fn hp_percent(&self) -> (r: i32)
        requires
            i32::MIN <= self.hp * 100 <= i32::MAX,
        ensures
            r == (if self.max_hp <= 0 {
                0
            } else {
                trunc_div(self.hp * 100, self.max_hp as int)
            }),
    {
        if self.max_hp <= 0 {
            return 0;
        }
        let v = self.hp * 100;
        v / self.max_hp
    }
}

/// No status holds a negative Potency, Count or Stack.
pub open spec fn non_negative(m: Map<Seq<char>, StatusInstance>) -> bool {
    forall|k: Seq<char>|
        #[trigger] m.contains_key(k) ==> m[k].potency >= 0 && m[k].count >= 0 && m[k].stack >= 0
}

/// Statuses never go negative: an empty set has none, and every change a
/// `StatusSet` makes (`add_potency`, `add_count`, `add_stack`, `set_stack`,
/// `remove`, and `set` of a non-negative instance) keeps it so, on the
/// amounts those functions accept.
pub proof fn statuses_stay_non_negative(m: Map<Seq<char>, StatusInstance>, k: Seq<char>, delta: i32, v: StatusInstance)
    requires
        non_negative(m),
        status_of(m, k).potency + delta <= i32::MAX,
        status_of(m, k).count + delta <= i32::MAX,
        status_of(m, k).stack + delta <= i32::MAX,
    ensures
        non_negative(Map::<Seq<char>, StatusInstance>::empty()),
        non_negative(with_status(m, k, StatusInstance { potency: max0(status_of(m, k).potency + delta), ..status_of(m, k) })),
        non_negative(with_status(m, k, StatusInstance { count: max0(status_of(m, k).count + delta), ..status_of(m, k) })),
        non_negative(with_status(m, k, StatusInstance { stack: max0(status_of(m, k).stack + delta), ..status_of(m, k) })),
        non_negative(with_status(m, k, StatusInstance { stack: max0(delta as int), ..status_of(m, k) })),
        non_negative(m.remove(k)),
        v.potency >= 0 && v.count >= 0 && v.stack >= 0 ==> non_negative(with_status(m, k, v)),
{
}

/// The last index below `n` of a predicate is no earlier than that of a
/// stronger one.
proof fn lemma_last_index_weaker(n: int, strong: spec_fn(int) -> bool, weak: spec_fn(int) -> bool)
    requires
        forall|i: int| 0 <= i < n && #[trigger] strong(i) ==> weak(i),
    ensures
        last_index(n, strong) matches Some(j) ==> (last_index(n, weak) matches Some(k) && j <= k),
        last_index(n, weak) matches Some(k) ==> 0 <= k < n,
    decreases n,
{
    if n > 0 {
        lemma_last_index_weaker(n - 1, strong, weak);
    }
}

/// Lower HP never crosses fewer Stagger lines, and at most 3 count: for HP
/// lines (with at most 256 lines, beyond which the original's `u8` index
/// wraps).
pub proof fn lower_hp_crosses_no_fewer_lines(lines: Seq<i32>, low: i32, high: i32)
    requires
        low <= high,
        lines.len() <= 256,
    ensures
        level_for_line(last_index(lines.len() as int, |i: int| high <= lines[i])) <= level_for_line(
            last_index(lines.len() as int, |i: int| low <= lines[i]),
        ) <= 3,
{
    let strong = |i: int| high <= lines[i];
    let weak = |i: int| low <= lines[i];
    lemma_last_index_weaker(lines.len() as int, strong, weak);
    lemma_last_index_weaker(lines.len() as int, strong, strong);
}

/// The same for lines printed as percentages of `max_hp` (those below 0
/// never count).
pub proof fn lower_hp_crosses_no_fewer_percent_lines(percents: Seq<i32>, max_hp: i32, low: i32, high: i32)
    requires
        low <= high,
        percents.len() <= 256,
    ensures
        level_for_line(
            last_index(
                percents.len() as int,
                |i: int| percents[i] >= 0 && high <= trunc_div(max_hp * percents[i], 100),
            ),
        ) <= level_for_line(
            last_index(
                percents.len() as int,
                |i: int| percents[i] >= 0 && low <= trunc_div(max_hp * percents[i], 100),
            ),
        ) <= 3,
{
    let strong = |i: int| percents[i] >= 0 && high <= trunc_div(max_hp * percents[i], 100);
    let weak = |i: int| percents[i] >= 0 && low <= trunc_div(max_hp * percents[i], 100);
    lemma_last_index_weaker(percents.len() as int, strong, weak);
    lemma_last_index_weaker(percents.len() as int, strong, strong);
}

/// A well-formed status set holds no empty status: one that reaches zero
/// in every value leaves the set.  With `statuses_stay_non_negative`, every
/// status `keys` lists is non-empty and non-negative.
pub proof fn held_statuses_are_not_empty(s: StatusSet)
    requires
        s.wf(),
    ensures
        forall|k: Seq<char>| #[trigger] s@.contains_key(k) ==> !s@[k].empty_spec(),
{
}

} // verus!
