//! An enemy's battle unit, built from its library record and its encounter
//! script: HP, Speed range read from the record's text ("3 ~ 7"), Stagger
//! lines, Defense Level, and what the script adds (Skill Slots, Shields,
//! HP floor, Segmentation, the states of time it plays).

use vstd::prelude::*;
use crate::ids::{EnemyId, UnitId};
use crate::keyed::StrMap;
use crate::scripts::{ClashCountSwing, Segmentation, StateScript, TimeState};
use crate::setup::SetupError;
use crate::state::{trunc_div, Sanity, SkillDeck, StaggerState, StatusSet, Unit, UnitKind};
use crate::text::{chars_of, decimal, decimal_text, is_white_char, is_white, trim, trim_back, trim_front};

verus! {

/// The first part of an enemy record: what of it builds the unit.
pub struct EnemyPartPlan {
    pub name: Option<String>,
    /// Speed range as printed, e.g. `"3 ~ 7"`.
    pub speed: Option<String>,
    pub defense_level_mod: Option<i32>,
    /// Stagger thresholds as printed percentages; unknown ones are `None`.
    pub stagger_thresholds: Vec<Option<i32>>,
}

/// The fields of an enemy record that build its unit (its HP at a level is
/// worked out from the record's growth rate by the caller).
pub struct EnemyBlueprint {
    pub id: String,
    pub name_en: Option<String>,
    pub level: Option<i32>,
    pub parts: Vec<EnemyPartPlan>,
}

/// What an enemy's encounter script adds to its unit.
pub struct EnemyTraits {
    pub slots: u32,
    pub acts_while_staggered: bool,
    pub clash_count_swing: Option<ClashCountSwing>,
    pub hp_floor_percent: Option<i32>,
    pub segmentation: Option<Segmentation>,
    pub shield_flat: Option<i32>,
    pub ends_encounter_unless_shield_broken: bool,
    pub ends_encounter_on: Vec<String>,
    /// The state-of-time scripts, keyed `past` / `present` / `future`.
    pub states: StrMap<StateScript>,
}

/// Is `c` an ASCII digit?
pub open spec fn is_digit(c: char) -> bool {
    '0' <= c <= '9'
}

/// The value of a run of decimal digits.
pub open spec fn digits_value(s: Seq<char>) -> int
    decreases s.len(),
{
    if s.len() == 0 {
        0
    } else {
        digits_value(s.drop_last()) * 10 + ((s.last() as int) - ('0' as int))
    }
}

/// `s` read as Rust's `i32::from_str` reads it: an optional sign, then one
/// or more ASCII digits, within `i32`.
pub open spec fn parsed_i32(s: Seq<char>) -> Option<i32> {
    let body = unsigned_part(s);
    if body.len() == 0 || !all_digits(body) {
        None
    } else {
        let v = if s.len() > 0 && s[0] == '-' {
            -digits_value(body)
        } else {
            digits_value(body)
        };
        if i32::MIN <= v <= i32::MAX {
            Some(v as i32)
        } else {
            None
        }
    }
}

/// `s` without its leading sign, if it has one.
pub open spec fn unsigned_part(s: Seq<char>) -> Seq<char> {
    if s.len() > 0 && (s[0] == '-' || s[0] == '+') {
        s.drop_first()
    } else {
        s
    }
}

/// Is every character of `s` an ASCII digit?
pub open spec fn all_digits(s: Seq<char>) -> bool {
    forall|i: int| 0 <= i < s.len() ==> is_digit(#[trigger] s[i])
}

/// The first index from `i` on where `s` holds `c`.
pub open spec fn index_from(s: Seq<char>, c: char, i: int) -> Option<int>
    decreases s.len() - i,
{
    if i < 0 || i >= s.len() {
        None
    } else if s[i] == c {
        Some(i)
    } else {
        index_from(s, c, i + 1)
    }
}

/// The Speed range a printed `"lo ~ hi"` gives: the first two pieces split
/// at `~`, trimmed and read as integers; `(1, 3)` when that fails.
pub open spec fn speed_of(text: Seq<char>) -> (i32, i32) {
    match index_from(text, '~', 0) {
        None => (1, 3),
        Some(t) => {
            let end = match index_from(text, '~', t + 1) {
                Some(u) => u,
                None => text.len() as int,
            };
            match (parsed_i32(trim(text.subrange(0, t))), parsed_i32(trim(text.subrange(t + 1, end)))) {
                (Some(lo), Some(hi)) => (lo, hi),
                _ => (1, 3),
            }
        },
    }
}

proof fn lemma_digits_grow(s: Seq<char>, k: int)
    requires
        0 <= k <= s.len(),
        forall|i: int| 0 <= i < s.len() ==> is_digit(#[trigger] s[i]),
    ensures
        digits_value(s) >= digits_value(s.take(k)),
        digits_value(s.take(k)) >= 0,
    decreases s.len(),
{
    if k == s.len() {
        assert(s.take(k) =~= s);
        lemma_digits_nonneg(s);
    } else {
        let r = s.drop_last();
        assert(r.take(k) =~= s.take(k));
        lemma_digits_grow(r, k);
        lemma_digits_nonneg(r);
    }
}

proof fn lemma_digits_nonneg(s: Seq<char>)
    requires
        forall|i: int| 0 <= i < s.len() ==> is_digit(#[trigger] s[i]),
    ensures
        digits_value(s) >= 0,
    decreases s.len(),
{
    if s.len() > 0 {
        lemma_digits_nonneg(s.drop_last());
    }
}

proof fn lemma_parsed_none(s: Seq<char>, body: Seq<char>)
    requires
        s.len() > 0,
        body == (if s[0] == '-' || s[0] == '+' {
            s.drop_first()
        } else {
            s
        }),
        !(forall|j: int| 0 <= j < body.len() ==> is_digit(#[trigger] body[j])),
    ensures
        parsed_i32(s) is None,
{
    assert(body == unsigned_part(s));
}

proof fn lemma_parsed_big(s: Seq<char>, body: Seq<char>)
    requires
        s.len() > 0,
        body == (if s[0] == '-' || s[0] == '+' {
            s.drop_first()
        } else {
            s
        }),
        digits_value(body) > 0x8000_0000,
    ensures
        parsed_i32(s) is None,
{
}

/// `chars` read as an `i32` (see `parsed_i32`).
pub fn parse_i32(chars: &Vec<char>) -> (r: Option<i32>)
    ensures
        r == parsed_i32(chars@),
{
    let n = chars.len();
    if n == 0 {
        return None;
    }
    let neg = chars[0] == '-';
    let start: usize = if chars[0] == '-' || chars[0] == '+' {
        1
    } else {
        0
    };
    let ghost body = if start == 1 {
        chars@.drop_first()
    } else {
        chars@
    };
    assert(body =~= chars@.subrange(start as int, n as int));
    if start == n {
        return None;
    }
    let mut v: i64 = 0;
    let mut i: usize = start;
    while i < n
        invariant
            start <= i <= n,
            n == chars@.len(),
            n > 0,
            start < n,
            start as int == (if chars@[0] == '-' || chars@[0] == '+' {
                1int
            } else {
                0int
            }),
            neg == (chars@[0] == '-'),
            body == (if chars@[0] == '-' || chars@[0] == '+' {
                chars@.drop_first()
            } else {
                chars@
            }),
            body == chars@.subrange(start as int, n as int),
            forall|j: int| start <= j < i ==> is_digit(#[trigger] chars@[j]),
            v == digits_value(chars@.subrange(start as int, i as int)),
            0 <= v <= 0x8000_0000,
        decreases n - i,
    {
        let c = chars[i];
        if !('0' <= c && c <= '9') {
            assert(body[i - start] == c);
            assert(!is_digit(body[i - start]));
            assert(!(forall|j: int| 0 <= j < body.len() ==> is_digit(#[trigger] body[j])));
            proof {
                lemma_parsed_none(chars@, body);
            }
            return None;
        }
        let d = (c as u32 - '0' as u32) as i64;
        let ghost prev = chars@.subrange(start as int, i as int);
        assert(chars@.subrange(start as int, i + 1).drop_last() =~= prev);
        v = v * 10 + d;
        i = i + 1;
        if v > 0x8000_0000 {
            proof {
                let taken = chars@.subrange(start as int, i as int);
                if forall|j: int| 0 <= j < body.len() ==> is_digit(#[trigger] body[j]) {
                    assert(body.take((i - start) as int) =~= taken);
                    lemma_digits_grow(body, (i - start) as int);
                    assert(digits_value(body) > 0x8000_0000);
                    lemma_parsed_big(chars@, body);
                } else {
                    lemma_parsed_none(chars@, body);
                }
            }
            return None;
        }
    }
    proof {
        assert(chars@.subrange(start as int, n as int) == body);
        assert forall|j: int| 0 <= j < body.len() implies is_digit(#[trigger] body[j]) by {
            assert(body[j] == chars@[start + j]);
        }
    }
    let value: i64 = if neg {
        -v
    } else {
        v
    };
    if value < -0x8000_0000 || value > 0x7fff_ffff {
        return None;
    }
    Some(value as i32)
}

/// `s[from..to]` with white space trimmed at both ends.
fn trimmed(s: &Vec<char>, from: usize, to: usize) -> (out: Vec<char>)
    requires
        from <= to <= s@.len(),
    ensures
        out@ == trim(s@.subrange(from as int, to as int)),
{
    let ghost piece = s@.subrange(from as int, to as int);
    let mut start: usize = from;
    while start < to && is_white_char(s[start])
        invariant
            from <= start <= to <= s@.len(),
            piece == s@.subrange(from as int, to as int),
            trim_front(piece) == trim_front(s@.subrange(start as int, to as int)),
        decreases to - start,
    {
        proof {
            let sub = s@.subrange(start as int, to as int);
            assert(sub.drop_first() =~= s@.subrange(start + 1, to as int));
        }
        start = start + 1;
    }
    let ghost front = s@.subrange(start as int, to as int);
    assert(trim_front(front) == front) by {
        if front.len() > 0 {
            assert(front[0] == s@[start as int]);
        }
    }
    let mut end: usize = to;
    while end > start && is_white_char(s[end - 1])
        invariant
            from <= start <= end <= to <= s@.len(),
            front == s@.subrange(start as int, to as int),
            trim_back(front) == trim_back(s@.subrange(start as int, end as int)),
        decreases end - start,
    {
        proof {
            let sub = s@.subrange(start as int, end as int);
            assert(sub.drop_last() =~= s@.subrange(start as int, end - 1));
        }
        end = end - 1;
    }
    let ghost core = s@.subrange(start as int, end as int);
    assert(trim_back(core) == core) by {
        if core.len() > 0 {
            assert(core.last() == s@[end - 1]);
        }
    }
    let mut out: Vec<char> = Vec::new();
    let mut k: usize = start;
    while k < end
        invariant
            start <= k <= end <= s@.len(),
            core == s@.subrange(start as int, end as int),
            out@ == s@.subrange(start as int, k as int),
        decreases end - k,
    {
        out.push(s[k]);
        k = k + 1;
        assert(out@ =~= s@.subrange(start as int, k as int));
    }
    out
}

fn find_from(s: &Vec<char>, c: char, from: usize) -> (r: Option<usize>)
    requires
        from <= s@.len(),
    ensures
        match r {
            Some(i) => index_from(s@, c, from as int) == Some(i as int),
            None => index_from(s@, c, from as int) is None,
        },
{
    let mut i = from;
    while i < s.len()
        invariant
            from <= i <= s@.len(),
            index_from(s@, c, from as int) == index_from(s@, c, i as int),
        decreases s.len() - i,
    {
        if s[i] == c {
            return Some(i);
        }
        i = i + 1;
    }
    None
}

/// The Speed range printed in `text` (see `speed_of`).
pub fn parse_speed(text: &str) -> (r: (i32, i32))
    ensures
        r == speed_of(text@),
{
    let s = chars_of(text);
    proof {
        lemma_index_from(s@, '~', 0);
    }
    let t = match find_from(&s, '~', 0) {
        Some(t) => t,
        None => return (1, 3),
    };
    assert(t < s@.len());
    let end = match find_from(&s, '~', t + 1) {
        Some(u) => u,
        None => s.len(),
    };
    proof {
        lemma_index_from(s@, '~', t + 1);
    }
    let lo = parse_i32(&trimmed(&s, 0, t));
    let hi = parse_i32(&trimmed(&s, t + 1, end));
    match (lo, hi) {
        (Some(lo), Some(hi)) => (lo, hi),
        _ => (1, 3),
    }
}

proof fn lemma_index_from(s: Seq<char>, c: char, i: int)
    requires
        0 <= i,
    ensures
        index_from(s, c, i) matches Some(k) ==> i <= k < s.len() && s[k] == c,
    decreases s.len() - i,
{
    if i < s.len() && s[i] != c {
        lemma_index_from(s, c, i + 1);
    }
}

/// The known Stagger thresholds, in order.
pub open spec fn known_thresholds(ts: Seq<Option<i32>>) -> Seq<i32>
    decreases ts.len(),
{
    if ts.len() == 0 {
        Seq::empty()
    } else {
        let front = known_thresholds(ts.drop_last());
        match ts.last() {
            Some(t) => front.push(t),
            None => front,
        }
    }
}

/// The Stagger thresholds of an enemy: those of its first part.
pub open spec fn thresholds_of(rec: EnemyBlueprint) -> Seq<i32> {
    if rec.parts@.len() > 0 {
        known_thresholds(rec.parts@[0].stagger_thresholds@)
    } else {
        Seq::empty()
    }
}

/// The Speed range of an enemy: read from its first part, `(1, 3)` when
/// it prints none.
pub open spec fn speed_range_of(rec: EnemyBlueprint) -> (i32, i32) {
    if rec.parts@.len() > 0 {
        match rec.parts@[0].speed {
            Some(t) => speed_of(t@),
            None => (1, 3),
        }
    } else {
        (1, 3)
    }
}

pub open spec fn opt_text(o: Option<String>) -> Option<Seq<char>> {
    match o {
        Some(t) => Some(t@),
        None => None,
    }
}

/// The states of time the script plays, in the order Past, Present,
/// Future, each with its big Skill.
pub open spec fn signature_of(states: Map<Seq<char>, StateScript>) -> Seq<(TimeState, Seq<char>)> {
    let past = if states.contains_key("past"@) {
        seq![(TimeState::Past, states["past"@].big@)]
    } else {
        Seq::empty()
    };
    let present = if states.contains_key("present"@) {
        seq![(TimeState::Present, states["present"@].big@)]
    } else {
        Seq::empty()
    };
    let future = if states.contains_key("future"@) {
        seq![(TimeState::Future, states["future"@].big@)]
    } else {
        Seq::empty()
    };
    past + present + future
}

/// Can the Stagger lines of `rec` be bound to `max_hp` within `i32`?
pub open spec fn lines_fit(rec: EnemyBlueprint, max_hp: i32) -> bool {
    forall|i: int|
        0 <= i < thresholds_of(rec).len() ==> i32::MIN <= max_hp * #[trigger] thresholds_of(rec)[i] <= i32::MAX
}

/// `u` is the unit built for enemy `rec` (the `index`-th of the
/// encounter) at `max_hp`, with its encounter script `script`: everything
/// a fresh enemy starts with, plus what the record and the script give.
pub open spec fn enemy_unit_built(
    rec: EnemyBlueprint,
    script: Option<EnemyTraits>,
    index: usize,
    max_hp: i32,
    u: Unit,
) -> bool {
    let part_name = if rec.parts@.len() > 0 {
        opt_text(rec.parts@[0].name)
    } else {
        None
    };
    &&& u.id@ == "enemy-"@ + decimal(index as int) + "-"@ + rec.id@
    &&& u.kind matches UnitKind::Abnormality { enemy, part } && enemy@ == rec.id@ && opt_text(part) == part_name
    &&& u.name@ == (match rec.name_en {
        Some(n) => n@,
        None => rec.id@,
    })
    &&& u.level == (match rec.level {
        Some(l) => l,
        None => 60,
    })
    &&& u.hp == max_hp && u.max_hp == max_hp && u.shield == 0
    &&& u.sanity == Sanity::NoSanity
    &&& u.speed == 0 && u.speed_range == speed_range_of(rec)
    &&& u.offense_level_mod == 0
    &&& u.defense_level_mod == (if rec.parts@.len() > 0 {
        match rec.parts@[0].defense_level_mod {
            Some(d) => d,
            None => 0,
        }
    } else {
        0
    })
    &&& u.stagger.thresholds_percent@ == thresholds_of(rec)
    &&& u.stagger.thresholds_hp@ == thresholds_of(rec).map_values(|p: i32| trunc_div(max_hp * p, 100) as i32)
    &&& u.stagger.consumed == 0 && u.stagger.level == 0 && u.stagger.turns_remaining == 0
    &&& u.statuses.wf() && u.statuses@ == Map::<Seq<char>, crate::state::StatusInstance>::empty()
    &&& u.planned_targets == 1 && u.skill_kills == 0 && u.suit is None && u.panic_type is None
    &&& u.combat_end_sp_loss@.len() == 0 && u.status_markers@.len() == 0 && u.dashboard@.len() == 0
    &&& u.deck.composition@.len() == 0 && u.deck.remaining@.len() == 0 && u.deck.paneled@.len() == 0
    &&& !u.low_morale && !u.panicked && !u.corroded && !u.panic_recovering
    &&& u.passive_ids@.len() == 0 && u.combat_start_statuses.wf() && u.combat_start_statuses@.len() == 0
    &&& !u.follow_up_active && !u.pending_suit_conversion && u.petals_gained == 0
    &&& u.clash_any_speed_slots@.len() == 0 && u.identity_skills@.len() == 0 && u.ego_slots@.len() == 0
    &&& u.corrosion_egos@.len() == 0
    &&& u.alive && u.skill_cursor == 0 && u.time_state is None && u.time_threshold_flags == 0
    &&& !u.barrier_broken
    &&& u.turn_effect_usage.wf() && u.turn_effect_usage@.len() == 0
    &&& u.pending_next_turn@.len() == 0 && u.retaliate_on_hit@.len() == 0
    &&& u.hits_taken == 0 && u.segmentation_healed@.len() == 0
    &&& u.resonance_max == 0 && u.resonance_of.wf() && u.resonance_of@.len() == 0 && u.a_reson_max == 0
    &&& match script {
        Some(t) => {
            &&& u.enemy_slots == t.slots
            &&& u.acts_while_staggered == t.acts_while_staggered
            &&& u.clash_count_swing == t.clash_count_swing
            &&& u.hp_floor_percent == t.hp_floor_percent
            &&& u.shield_flat == t.shield_flat
            &&& u.ends_encounter_unless_shield_broken == t.ends_encounter_unless_shield_broken
            &&& u.ends_encounter_on@.map_values(|e: String| e@) == t.ends_encounter_on@.map_values(|e: String| e@)
            &&& u.segmentation == t.segmentation
            &&& u.time_signature@.map_values(|e: (TimeState, String)| (e.0, e.1@)) == signature_of(t.states@)
        },
        None => {
            &&& u.enemy_slots == 1
            &&& !u.acts_while_staggered
            &&& u.clash_count_swing is None
            &&& u.hp_floor_percent is None
            &&& u.shield_flat is None
            &&& !u.ends_encounter_unless_shield_broken
            &&& u.ends_encounter_on@.len() == 0
            &&& u.segmentation is None
            &&& u.time_signature@.len() == 0
        },
    }
}

fn copy_texts(v: &Vec<String>) -> (r: Vec<String>)
    ensures
        r@ == v@,
{
    let mut r: Vec<String> = Vec::new();
    let mut i: usize = 0;
    while i < v.len()
        invariant
            i <= v@.len(),
            r@ == v@.take(i as int),
        decreases v.len() - i,
    {
        r.push(v[i].clone());
        i = i + 1;
        assert(r@ =~= v@.take(i as int));
    }
    assert(v@.take(v@.len() as int) =~= v@);
    r
}

fn copy_text(o: &Option<String>) -> (r: Option<String>)
    ensures
        r == *o,
{
    match o {
        Some(t) => Some(t.clone()),
        None => None,
    }
}

fn copy_segmentation(o: &Option<Segmentation>) -> (r: Option<Segmentation>)
    ensures
        r == *o,
{
    match o {
        Some(s) => Some(
            Segmentation {
                stack_status: s.stack_status.clone(),
                stack_loss_per_hit: s.stack_loss_per_hit,
                gain_if_not_hit: s.gain_if_not_hit,
                attacker_sp_heal: s.attacker_sp_heal,
            },
        ),
        None => None,
    }
}

fn known_thresholds_of(ts: &Vec<Option<i32>>) -> (r: Vec<i32>)
    ensures
        r@ == known_thresholds(ts@),
{
    let mut r: Vec<i32> = Vec::new();
    let mut i: usize = 0;
    while i < ts.len()
        invariant
            i <= ts@.len(),
            r@ == known_thresholds(ts@.take(i as int)),
        decreases ts.len() - i,
    {
        proof {
            assert(ts@.take(i + 1).drop_last() =~= ts@.take(i as int));
            assert(ts@.take(i + 1).last() == ts@[i as int]);
        }
        match ts[i] {
            Some(t) => r.push(t),
            None => {},
        }
        i = i + 1;
    }
    assert(ts@.take(ts@.len() as int) =~= ts@);
    r
}

fn time_signature_of(states: &StrMap<StateScript>) -> (r: Vec<(TimeState, String)>)
    requires
        states.wf(),
    ensures
        r@.map_values(|e: (TimeState, String)| (e.0, e.1@)) == signature_of(states@),
{
    let mut r: Vec<(TimeState, String)> = Vec::new();
    proof {
        reveal_strlit("past");
        reveal_strlit("present");
        reveal_strlit("future");
    }
    match states.get("past") {
        Some(e) => r.push((TimeState::Past, e.big.clone())),
        None => {},
    }
    let ghost r1 = r@;
    match states.get("present") {
        Some(e) => r.push((TimeState::Present, e.big.clone())),
        None => {},
    }
    let ghost r2 = r@;
    match states.get("future") {
        Some(e) => r.push((TimeState::Future, e.big.clone())),
        None => {},
    }
    assert(r@.map_values(|e: (TimeState, String)| (e.0, e.1@)) =~= signature_of(states@));
    r
}

/// The battle unit of enemy `rec`, the `index`-th of the encounter, with
/// its encounter script `script` (see `enemy_unit_built`).  `max_hp` is
/// its HP at its level, worked out from the record; without one the
/// record lacks its HP and the enemy cannot be built.
pub fn enemy_unit(rec: &EnemyBlueprint, script: Option<&EnemyTraits>, index: usize, max_hp: Option<i32>) -> (r:
    Result<Unit, SetupError>)
    requires
        index <= i64::MAX,
        script matches Some(t) ==> t.states.wf(),
        max_hp matches Some(h) ==> lines_fit(*rec, h),
    ensures
        max_hp is None ==> (r matches Err(SetupError::MissingField(what)) && what@ == "enemy "@ + rec.id@ + " hp"@),
        max_hp matches Some(h) ==> (r matches Ok(u) && enemy_unit_built(
            *rec,
            match script {
                Some(t) => Some(*t),
                None => None,
            },
            index,
            h,
            u,
        )),
{
    let max_hp = match max_hp {
        Some(h) => h,
        None => {
            let mut what = String::from_str("enemy ");
            what.append(rec.id.as_str());
            what.append(" hp");
            proof {
                reveal_strlit("enemy ");
                reveal_strlit(" hp");
            }
            assert(what@ =~= "enemy "@ + rec.id@ + " hp"@);
            return Err(SetupError::MissingField(what));
        },
    };
    let level = match rec.level {
        Some(l) => l,
        None => 60,
    };
    let (thresholds, speed_range, defense_level_mod, part_name) = if rec.parts.len() > 0 {
        let part = &rec.parts[0];
        let speed = match &part.speed {
            Some(t) => parse_speed(t.as_str()),
            None => (1, 3),
        };
        let defense = match part.defense_level_mod {
            Some(d) => d,
            None => 0,
        };
        (known_thresholds_of(&part.stagger_thresholds), speed, defense, copy_text(&part.name))
    } else {
        (Vec::new(), (1, 3), 0, None)
    };
    let mut id = String::from_str("enemy-");
    id.append(decimal_text(index as i64).as_str());
    id.append("-");
    id.append(rec.id.as_str());
    proof {
        reveal_strlit("enemy-");
        reveal_strlit("-");
    }
    assert(id@ =~= "enemy-"@ + decimal(index as int) + "-"@ + rec.id@);
    let name = match &rec.name_en {
        Some(n) => n.clone(),
        None => rec.id.clone(),
    };
    assert(thresholds@ == thresholds_of(*rec));
    assert(lines_fit(*rec, max_hp));
    assert(forall|i: int| 0 <= i < thresholds@.len() ==> i32::MIN <= max_hp * #[trigger] thresholds@[i] <= i32::MAX);
    let mut stagger = StaggerState::new(thresholds);
    stagger.bind_max_hp(max_hp);
    let (enemy_slots, acts_while_staggered, clash_count_swing, hp_floor_percent, shield_flat, unless_broken) =
        match script {
        Some(t) => (t.slots, t.acts_while_staggered, t.clash_count_swing, t.hp_floor_percent, t.shield_flat, t.ends_encounter_unless_shield_broken),
        None => (1, false, None, None, None, false),
    };
    let (ends_encounter_on, segmentation, time_signature) = match script {
        Some(t) => (copy_texts(&t.ends_encounter_on), copy_segmentation(&t.segmentation), time_signature_of(&t.states)),
        None => (Vec::new(), None, Vec::new()),
    };
    let u = Unit {
        planned_targets: 1,
        id: UnitId(id),
        kind: UnitKind::Abnormality { enemy: EnemyId(rec.id.clone()), part: part_name },
        name,
        level,
        hp: max_hp,
        max_hp,
        shield: 0,
        sanity: Sanity::NoSanity,
        speed: 0,
        speed_range,
        offense_level_mod: 0,
        defense_level_mod,
        stagger,
        statuses: StatusSet::new(),
        skill_kills: 0,
        suit: None,
        combat_end_sp_loss: Vec::new(),
        status_markers: Vec::new(),
        deck: SkillDeck { composition: Vec::new(), remaining: Vec::new(), paneled: Vec::new() },
        dashboard: Vec::new(),
        panic_type: None,
        low_morale: false,
        panicked: false,
        corroded: false,
        panic_recovering: false,
        passive_ids: Vec::new(),
        combat_start_statuses: StrMap::new(),
        follow_up_active: false,
        pending_suit_conversion: false,
        petals_gained: 0,
        clash_any_speed_slots: Vec::new(),
        identity_skills: Vec::new(),
        ego_slots: Vec::new(),
        corrosion_egos: Vec::new(),
        alive: true,
        skill_cursor: 0,
        time_state: None,
        time_threshold_flags: 0,
        enemy_slots,
        acts_while_staggered,
        clash_count_swing,
        time_signature,
        shield_flat,
        ends_encounter_unless_shield_broken: unless_broken,
        hp_floor_percent,
        barrier_broken: false,
        ends_encounter_on,
        turn_effect_usage: StrMap::new(),
        pending_next_turn: Vec::new(),
        retaliate_on_hit: Vec::new(),
        segmentation,
        hits_taken: 0,
        segmentation_healed: Vec::new(),
        resonance_max: 0,
        resonance_of: StrMap::new(),
        a_reson_max: 0,
    };
    Ok(u)
}

} // verus!
