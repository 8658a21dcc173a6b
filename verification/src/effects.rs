//! Skill mechanics: the conditions a skill's effect text puts on its clauses
//! ("At 10+ [Sinking]", "against Staggered targets", "If this unit has
//! [X]"), and the evaluator that decides whether one holds.

use vstd::prelude::*;
use crate::state::{status_of, trunc_div, Sanity, StatusInstance, StatusSet, Unit};
use crate::text::{
    chars_of, is_white, is_white_char, lemma_trim_back_skip, lemma_trim_front_skip, same_text, starts_with, trim,
    trim_back, trim_front,
};

verus! {

/// Where an effect is applied from: the acting unit, its target, how many
/// times the skill has clashed, whether it lost its Clash, the Dashboard
/// slot it was used from, and the notes the effects leave.
pub struct EffectContext {
    pub actor_index: usize,
    pub target_index: Option<usize>,
    pub clash_count: i32,
    /// True when the acting skill lost its Clash ("after Clash Lose" clauses).
    pub clash_lost: bool,
    /// Dashboard slot the skill was used from, when known.
    pub slot: u32,
    pub mechanics_note: Vec<String>,
}

/// Which value of a status is being read.
#[derive(Clone, Copy, Debug, PartialEq, Eq, Structural)]
pub enum Component {
    Potency,
    Count,
    Stack,
}

/// When an effect applies.  Every field left at its default places no
/// requirement.
#[derive(Debug, Default)]
pub struct Condition {
    /// `self` or `target` (defaults to `self`).
    pub source: Option<String>,
    /// Single status read as `component`.
    pub status: Option<String>,
    /// Several statuses summed together; listing the same key twice sums both
    /// of its components (the wiki's "both [Butterfly]" notation).
    pub statuses: Vec<String>,
    pub component: Option<Component>,
    pub gte: Option<i32>,
    pub lte: Option<i32>,
    pub hp_below_percent: Option<i32>,
    pub clash_count_gte: Option<i32>,
    /// Alternatives: the condition holds when any of them holds ("If any of
    /// the following conditions are met").
    pub any_of: Vec<Condition>,
    pub self_speed_at_most: Option<i32>,
    pub target_speed_advantage: Option<i32>,
    pub self_sp_at_least: Option<i32>,
    /// The actor's own SP must be below this ("at less than 0 SP").
    pub self_sp_below: Option<i32>,
    /// Any sin's Absolute Resonance chain is at least this long.
    pub a_reson_gte: Option<i32>,
    /// The resonance that triggered this entry must be an Absolute Resonance.
    pub requires_a_reson: bool,
    /// Any sin's Resonance count is at least this value.
    pub resonance_gte: Option<i32>,
    /// The Resonance count of one specific sin must be at least
    /// `resonance_gte` ("At 3+ (Gloom Reson.)").
    pub resonance_of: Option<String>,
    /// The target's SP is below this value.
    pub target_sp_below: Option<i32>,
    /// `hp_below_percent` includes equality (the wiki writes "N% or less").
    pub hp_or_equal: Option<bool>,
    /// "If the target has more than N% HP" (reads the actor when `source` is
    /// left at its `self` default).
    pub hp_above_percent: Option<i32>,
    /// "If the target is defeated" / "If target survives this attack".
    pub target_defeated: bool,
    pub target_survived: bool,
    /// "If target is a SP Unit" / "For targets that are Non-SP Units".
    pub target_is_sp_unit: bool,
    /// The target must carry at least one of the listed statuses.
    pub any_status: Vec<String>,
    /// "against targets in either Low Morale or Panic states".
    pub target_is_low_morale: bool,
    pub target_is_panicked: bool,
    pub target_is_non_sp_unit: bool,
    /// "If this unit has [X]": every listed status must be present.
    pub has_status: Vec<String>,
    /// "If target is in an [Amplitude Conversion] or [Amplitude Entanglement]
    /// state".
    pub target_has_amplitude: bool,
    /// The listed statuses must be absent.
    pub lacks_status: Vec<String>,
    /// "If 1 or more targets are killed" (by this Skill's use).
    pub any_target_killed: bool,
    /// "If this Skill was equipped on this unit's leftmost Skill Slot".
    pub slot: Option<String>,
    /// "When attacking just a single target".
    pub single_target: bool,
    /// "against Staggered targets".
    pub target_staggered: bool,
}

/// Tremor amplitudes: "[Amplitude Conversion] into [Tremor - Decay]" is
/// stored as a marker status on the unit (wiki.gg `Status Effects` / Tremor).
pub const AMPLITUDE_CONVERSION: &'static str = "Amplitude Conversion";
pub const AMPLITUDE_ENTANGLEMENT: &'static str = "Amplitude Entanglement";

/// The value of a status read as `component`; without a component, "has
/// [X]" reads Potency + Count + Stack so that stack-only statuses count.
pub open spec fn component_value(s: StatusInstance, component: Option<Component>) -> int {
    match component {
        Some(Component::Potency) => s.potency as int,
        Some(Component::Count) => s.count as int,
        Some(Component::Stack) => s.stack as int,
        None => s.potency + s.count + s.stack,
    }
}

/// The value of status `key` on `u`, read as `component`.
pub open spec fn status_value(u: Unit, key: Seq<char>, component: Option<Component>) -> int {
    component_value(status_of(u.statuses@, key), component)
}

/// Does some marker of `u` begin with `prefix`?
pub open spec fn has_marker(u: Unit, prefix: Seq<char>) -> bool {
    exists|i: int| 0 <= i < u.status_markers@.len() && prefix.is_prefix_of(#[trigger] u.status_markers@[i]@)
}

/// A status is present when it carries a value or is a marker.
pub open spec fn named(u: Unit, name: Seq<char>) -> bool {
    status_value(u, name, None) > 0 || has_marker(u, name)
}

/// Is `u` in an Amplitude Conversion or Amplitude Entanglement state?
pub open spec fn amplified(u: Unit) -> bool {
    has_marker(u, AMPLITUDE_CONVERSION@) || has_marker(u, AMPLITUDE_ENTANGLEMENT@)
}

/// How often `k` is listed in `s`.
pub open spec fn occurrences(s: Seq<Seq<char>>, k: Seq<char>) -> nat
    decreases s.len(),
{
    if s.len() == 0 {
        0
    } else {
        occurrences(s.drop_last(), k) + if s.last() == k {
            1nat
        } else {
            0nat
        }
    }
}

/// Is entry `i` the first listing of its key?
pub open spec fn first_listing(s: Seq<Seq<char>>, i: int) -> bool {
    forall|j: int| 0 <= j < i ==> s[j] != s[i]
}

/// The value a listed status contributes: a status listed twice means "both
/// values" (Potency and Count, counted once), otherwise its `component`.
pub open spec fn listed_value(u: Unit, s: Seq<Seq<char>>, i: int, component: Option<Component>) -> int {
    if occurrences(s, s[i]) >= 2 {
        status_of(u.statuses@, s[i]).potency + status_of(u.statuses@, s[i]).count
    } else {
        status_value(u, s[i], component)
    }
}

/// The sum over the first `n` listings, each key counted at its first
/// listing only.
pub open spec fn listed_sum(u: Unit, s: Seq<Seq<char>>, n: int, component: Option<Component>) -> int
    decreases n,
{
    if n <= 0 {
        0
    } else {
        listed_sum(u, s, n - 1, component) + if first_listing(s, n - 1) {
            listed_value(u, s, n - 1, component)
        } else {
            0
        }
    }
}

/// The texts of a list of strings.
pub open spec fn texts(v: Seq<String>) -> Seq<Seq<char>> {
    v.map_values(|x: String| x@)
}

fn status_value_of(unit: &Unit, key: &str, component: Option<Component>) -> (v: i64)
    requires
        unit.statuses.wf(),
    ensures
        v == status_value(*unit, key@, component),
{
    let s = unit.statuses.get(key);
    match component {
        Some(Component::Potency) => s.potency as i64,
        Some(Component::Count) => s.count as i64,
        Some(Component::Stack) => s.stack as i64,
        None => s.potency as i64 + s.count as i64 + s.stack as i64,
    }
}

fn has_marker_of(unit: &Unit, prefix: &str) -> (b: bool)
    ensures
        b == has_marker(*unit, prefix@),
{
    let mut i: usize = 0;
    while i < unit.status_markers.len()
        invariant
            i <= unit.status_markers@.len(),
            forall|j: int| 0 <= j < i ==> !prefix@.is_prefix_of(#[trigger] unit.status_markers@[j]@),
        decreases unit.status_markers.len() - i,
    {
        if starts_with(unit.status_markers[i].as_str(), prefix) {
            return true;
        }
        i = i + 1;
    }
    false
}

/// A status is "present" if it carries a value or is a marker (amplitudes).
pub fn has_named(unit: &Unit, name: &str) -> (b: bool)
    requires
        unit.statuses.wf(),
    ensures
        b == named(*unit, name@),
{
    status_value_of(unit, name, None) > 0 || has_marker_of(unit, name)
}

/// Is the unit in an Amplitude Conversion or Amplitude Entanglement state?
pub fn has_amplitude(unit: &Unit) -> (b: bool)
    ensures
        b == amplified(*unit),
{
    has_marker_of(unit, AMPLITUDE_CONVERSION) || has_marker_of(unit, AMPLITUDE_ENTANGLEMENT)
}

proof fn lemma_occurrences_prefix(s: Seq<Seq<char>>, i: int, k: Seq<char>)
    requires
        0 <= i < s.len(),
    ensures
        occurrences(s.take(i + 1), k) == occurrences(s.take(i), k) + if s[i] == k {
            1nat
        } else {
            0nat
        },
{
    assert(s.take(i + 1).drop_last() =~= s.take(i));
}

proof fn lemma_listed_sum_bound(u: Unit, s: Seq<Seq<char>>, n: int, component: Option<Component>)
    requires
        0 <= n,
    ensures
        -n * 0x2_0000_0000 <= listed_sum(u, s, n, component) <= n * 0x2_0000_0000,
    decreases n,
{
    if n > 0 {
        lemma_listed_sum_bound(u, s, n - 1, component);
    }
}

fn occurrences_of(list: &Vec<String>, key: &str) -> (n: usize)
    ensures
        n == occurrences(texts(list@), key@),
{
    let ghost s = texts(list@);
    let mut n: usize = 0;
    let mut i: usize = 0;
    while i < list.len()
        invariant
            s == texts(list@),
            s.len() == list@.len(),
            i <= list@.len(),
            n == occurrences(s.take(i as int), key@),
            n <= i,
        decreases list.len() - i,
    {
        proof {
            lemma_occurrences_prefix(s, i as int, key@);
        }
        if same_text(list[i].as_str(), key) {
            n = n + 1;
        }
        i = i + 1;
    }
    assert(s.take(s.len() as int) =~= s);
    n
}

fn listed_before(list: &Vec<String>, i: usize) -> (b: bool)
    requires
        i < list@.len(),
    ensures
        b == !first_listing(texts(list@), i as int),
{
    let ghost s = texts(list@);
    let mut j: usize = 0;
    while j < i
        invariant
            s == texts(list@),
            i < list@.len(),
            j <= i,
            forall|t: int| 0 <= t < j ==> s[t] != s[i as int],
        decreases i - j,
    {
        if same_text(list[j].as_str(), list[i].as_str()) {
            assert(s[j as int] == s[i as int]);
            return true;
        }
        j = j + 1;
    }
    false
}

/// The sum of the listed statuses on `unit` (see [`listed_sum`]).
pub fn sum_statuses(unit: &Unit, statuses: &Vec<String>, component: Option<Component>) -> (v: i128)
    requires
        unit.statuses.wf(),
    ensures
        v == listed_sum(*unit, texts(statuses@), statuses@.len() as int, component),
{
    let ghost s = texts(statuses@);
    let mut total: i128 = 0;
    let mut i: usize = 0;
    while i < statuses.len()
        invariant
            unit.statuses.wf(),
            s == texts(statuses@),
            s.len() == statuses@.len(),
            i <= statuses@.len(),
            total == listed_sum(*unit, s, i as int, component),
        decreases statuses.len() - i,
    {
        proof {
            lemma_listed_sum_bound(*unit, s, i as int, component);
            assert(i < 0x1_0000_0000_0000_0000);
        }
        if !listed_before(statuses, i) {
            let key = statuses[i].as_str();
            let term: i64 = if occurrences_of(statuses, key) >= 2 {
                let st = unit.statuses.get(key);
                st.potency as i64 + st.count as i64
            } else {
                status_value_of(unit, key, component)
            };
            total = total + term as i128;
        }
        i = i + 1;
    }
    total
}

/// The value of status `key` on `unit`, read as `component`.
pub fn unit_status_value(unit: &Unit, key: &str, component: Option<Component>) -> (v: i64)
    requires
        unit.statuses.wf(),
    ensures
        v == status_value(*unit, key@, component),
{
    status_value_of(unit, key, component)
}

/// What `str::to_lowercase` gives for `s`: its Unicode lower-case form.
pub uninterp spec fn lowercase(s: Seq<char>) -> Seq<char>;

/// `str::to_lowercase`: the result is named by `lowercase`; nothing more is
/// stated of the Unicode case tables.
#[verifier::external_body]
fn to_lowercase(s: &str) -> (r: String)
    ensures
        r@ == lowercase(s@),
{
    s.to_lowercase()
}

/// HP as a whole percentage of max HP (rounded toward zero), 0 without max HP.
pub open spec fn hp_percent_of(u: Unit) -> int {
    if u.max_hp <= 0 {
        0
    } else {
        trunc_div(u.hp * 100, u.max_hp as int)
    }
}

fn hp_percent_wide(unit: &Unit) -> (p: i64)
    ensures
        p == hp_percent_of(*unit),
{
    if unit.max_hp <= 0 {
        return 0;
    }
    let v: i64 = unit.hp as i64 * 100;
    v / unit.max_hp as i64
}

/// The SP of a unit (0 without Sanity).
pub open spec fn sp(u: Unit) -> int {
    u.sanity.sp_of() as int
}

/// Every listed status is present / absent on `u`.
pub open spec fn all_named(u: Unit, names: Seq<String>) -> bool {
    forall|i: int| 0 <= i < names.len() ==> named(u, #[trigger] names[i]@)
}

pub open spec fn none_named(u: Unit, names: Seq<String>) -> bool {
    forall|i: int| 0 <= i < names.len() ==> !named(u, #[trigger] names[i]@)
}

pub open spec fn any_named(u: Unit, names: Seq<String>) -> bool {
    exists|i: int| 0 <= i < names.len() && named(u, #[trigger] names[i]@)
}

/// The Resonance a condition reads: one sin's count (looked up by its
/// lower-case name, 0 when absent) or the highest count.
pub open spec fn resonance_read(c: Condition, actor: Unit) -> int {
    match c.resonance_of {
        Some(sin) => if actor.resonance_of@.contains_key(lowercase(sin@)) {
            actor.resonance_of@[lowercase(sin@)] as int
        } else {
            0
        },
        None => actor.resonance_max as int,
    }
}

/// The conditions that read the actor, the target's presence and the turn,
/// before the unit the condition measures is chosen.
pub open spec fn actor_checks(c: Condition, actor: Unit, target: Option<Unit>, clash_count: i32, slot: u32) -> bool {
    &&& (c.self_speed_at_most matches Some(limit) ==> actor.speed <= limit)
    &&& (c.target_speed_advantage matches Some(adv) ==> (target matches Some(t) && t.speed - actor.speed
        >= adv))
    &&& (c.target_sp_below matches Some(limit) ==> (target matches Some(t) && sp(t) < limit))
    &&& (c.self_sp_at_least matches Some(req) ==> sp(actor) >= req)
    &&& (c.self_sp_below matches Some(limit) ==> sp(actor) < limit)
    &&& (c.a_reson_gte matches Some(req) ==> actor.a_reson_max >= req)
    &&& (c.resonance_gte matches Some(req) ==> resonance_read(c, actor) >= req)
    &&& (c.requires_a_reson ==> actor.a_reson_max >= 3)
    &&& (reads_target(c) ==> target is Some)
}

/// Does the condition measure the target (`source` is `target`)?
pub open spec fn reads_target(c: Condition) -> bool {
    match c.source {
        Some(src) => src@ == "target"@,
        None => false,
    }
}

/// The unit a condition measures: the target when `source` is `target`,
/// else the actor.
pub open spec fn measured_unit(c: Condition, actor: Unit, target: Option<Unit>) -> Unit {
    if reads_target(c) {
        target.unwrap()
    } else {
        actor
    }
}

/// The checks on the measured unit `u` and on the target.
pub open spec fn unit_checks(c: Condition, actor: Unit, target: Option<Unit>, u: Unit, clash_count: i32, slot: u32) -> bool {
    &&& (c.hp_above_percent matches Some(hp) ==> hp_percent_of(u) > hp)
    &&& (c.hp_below_percent matches Some(hp) ==> if c.hp_or_equal == Some(true) {
        hp_percent_of(u) <= hp
    } else {
        hp_percent_of(u) < hp
    })
    &&& (c.clash_count_gte matches Some(n) ==> clash_count >= n)
    &&& (c.target_defeated ==> (target matches Some(t) && !t.alive))
    &&& (c.target_survived ==> (target matches Some(t) && t.alive))
    &&& (c.any_status@.len() > 0 ==> (target matches Some(t) && any_named(t, c.any_status@)))
    &&& (c.target_is_low_morale || c.target_is_panicked ==> (target matches Some(t) && ((
    c.target_is_panicked && t.panicked) || (c.target_is_low_morale && (t.low_morale || t.panicked)))))
    &&& (c.target_is_sp_unit ==> (target matches Some(t) && !(t.sanity is NoSanity)))
    &&& (c.target_is_non_sp_unit ==> (target matches Some(t) && t.sanity is NoSanity))
    &&& (match c.slot {
        Some(w) => w@ == "leftmost"@ ==> slot == 0,
        None => true,
    })
    &&& (c.any_target_killed ==> actor.skill_kills > 0)
    &&& (c.single_target ==> actor.planned_targets <= 1)
    &&& (c.target_has_amplitude ==> (target matches Some(t) && amplified(t)))
    &&& all_named(u, c.has_status@)
    &&& none_named(u, c.lacks_status@)
    &&& value_checks(c, u)
}

/// The value a condition measures on `u`, if it measures one: the sum of its
/// listed statuses, or its single status.
pub open spec fn measured_value(c: Condition, u: Unit) -> Option<int> {
    if c.statuses@.len() > 0 {
        Some(listed_sum(u, texts(c.statuses@), c.statuses@.len() as int, c.component))
    } else {
        match c.status {
            Some(s) => Some(status_value(u, s@, c.component)),
            None => None,
        }
    }
}

/// The measured value lies within `gte` / `lte`.
pub open spec fn value_checks(c: Condition, u: Unit) -> bool {
    measured_value(c, u) matches Some(v) ==> (c.gte matches Some(g) ==> v >= g) && (c.lte matches Some(l)
        ==> v <= l)
}

/// Does `c` hold for `actor` (and `target`, when there is one) at the
/// given clash count and Skill Slot?  A condition with alternatives holds
/// when any alternative holds.
pub open spec fn condition_met(c: Condition, actor: Unit, target: Option<Unit>, clash_count: i32, slot: u32) -> bool
    decreases c, 1int, 0int,
{
    if c.any_of@.len() > 0 {
        any_met(c, actor, target, clash_count, slot, c.any_of@.len() as int)
    } else {
        &&& actor_checks(c, actor, target, clash_count, slot)
        &&& unit_checks(c, actor, target, measured_unit(c, actor, target), clash_count, slot)
    }
}

/// Does one of the first `n` alternatives of `c` hold?
pub open spec fn any_met(c: Condition, actor: Unit, target: Option<Unit>, clash_count: i32, slot: u32, n: int) -> bool
    decreases c, 0int, n,
{
    if n <= 0 || n > c.any_of@.len() {
        false
    } else {
        any_met(c, actor, target, clash_count, slot, n - 1) || condition_met(
            c.any_of@[n - 1],
            actor,
            target,
            clash_count,
            slot,
        )
    }
}

proof fn lemma_any_met_grows(c: Condition, actor: Unit, target: Option<Unit>, clash_count: i32, slot: u32, n: int, m: int)
    requires
        0 <= n <= m <= c.any_of@.len(),
        any_met(c, actor, target, clash_count, slot, n),
    ensures
        any_met(c, actor, target, clash_count, slot, m),
    decreases m - n,
{
    if n < m {
        lemma_any_met_grows(c, actor, target, clash_count, slot, n, m - 1);
    }
}

/// The unit behind an optional reference.
pub open spec fn opt_unit(o: Option<&Unit>) -> Option<Unit> {
    match o {
        Some(u) => Some(*u),
        None => None,
    }
}

fn all_named_in(unit: &Unit, names: &Vec<String>) -> (b: bool)
    requires
        unit.statuses.wf(),
    ensures
        b == all_named(*unit, names@),
{
    let mut i: usize = 0;
    while i < names.len()
        invariant
            unit.statuses.wf(),
            i <= names@.len(),
            forall|j: int| 0 <= j < i ==> named(*unit, #[trigger] names@[j]@),
        decreases names.len() - i,
    {
        if !has_named(unit, names[i].as_str()) {
            return false;
        }
        i = i + 1;
    }
    true
}

fn none_named_in(unit: &Unit, names: &Vec<String>) -> (b: bool)
    requires
        unit.statuses.wf(),
    ensures
        b == none_named(*unit, names@),
{
    let mut i: usize = 0;
    while i < names.len()
        invariant
            unit.statuses.wf(),
            i <= names@.len(),
            forall|j: int| 0 <= j < i ==> !named(*unit, #[trigger] names@[j]@),
        decreases names.len() - i,
    {
        if has_named(unit, names[i].as_str()) {
            return false;
        }
        i = i + 1;
    }
    true
}

fn any_named_in(unit: &Unit, names: &Vec<String>) -> (b: bool)
    requires
        unit.statuses.wf(),
    ensures
        b == any_named(*unit, names@),
{
    let mut i: usize = 0;
    while i < names.len()
        invariant
            unit.statuses.wf(),
            i <= names@.len(),
            forall|j: int| 0 <= j < i ==> !named(*unit, #[trigger] names@[j]@),
        decreases names.len() - i,
    {
        if has_named(unit, names[i].as_str()) {
            return true;
        }
        i = i + 1;
    }
    false
}

fn resonance_read_of(condition: &Condition, actor: &Unit) -> (v: i32)
    requires
        actor.resonance_of.wf(),
    ensures
        v == resonance_read(*condition, *actor),
{
    match &condition.resonance_of {
        Some(sin) => {
            let key = to_lowercase(sin.as_str());
            match actor.resonance_of.get(key.as_str()) {
                Some(v) => *v,
                None => 0,
            }
        },
        None => actor.resonance_max,
    }
}

fn value_checks_of(condition: &Condition, unit: &Unit) -> (b: bool)
    requires
        unit.statuses.wf(),
    ensures
        b == value_checks(*condition, *unit),
{
    let value: Option<i128> = if condition.statuses.len() > 0 {
        Some(sum_statuses(unit, &condition.statuses, condition.component))
    } else {
        match &condition.status {
            Some(status) => Some(unit_status_value(unit, status.as_str(), condition.component) as i128),
            None => None,
        }
    };
    match value {
        Some(v) => {
            if let Some(gte) = condition.gte {
                if v < gte as i128 {
                    return false;
                }
            }
            if let Some(lte) = condition.lte {
                if v > lte as i128 {
                    return false;
                }
            }
            true
        },
        None => true,
    }
}

fn reads_target_of(condition: &Condition) -> (b: bool)
    ensures
        b == reads_target(*condition),
{
    match &condition.source {
        Some(src) => same_text(src.as_str(), "target"),
        None => false,
    }
}

fn actor_checks_of(condition: &Condition, actor: &Unit, target: Option<&Unit>, clash_count: i32, slot: u32) -> (b:
    bool)
    requires
        actor.resonance_of.wf(),
    ensures
        b == actor_checks(*condition, *actor, opt_unit(target), clash_count, slot),
{
    if let Some(limit) = condition.self_speed_at_most {
        if actor.speed > limit {
            return false;
        }
    }
    if let Some(advantage) = condition.target_speed_advantage {
        match target {
            Some(t) => {
                if (t.speed as i64) - (actor.speed as i64) < advantage as i64 {
                    return false;
                }
            },
            None => {
                return false;
            },
        }
    }
    if let Some(limit) = condition.target_sp_below {
        match target {
            Some(t) => {
                if t.sanity.sp() >= limit {
                    return false;
                }
            },
            None => {
                return false;
            },
        }
    }
    if let Some(required) = condition.self_sp_at_least {
        if actor.sanity.sp() < required {
            return false;
        }
    }
    if let Some(limit) = condition.self_sp_below {
        if actor.sanity.sp() >= limit {
            return false;
        }
    }
    if let Some(required) = condition.a_reson_gte {
        if actor.a_reson_max < required {
            return false;
        }
    }
    if let Some(required) = condition.resonance_gte {
        if resonance_read_of(condition, actor) < required {
            return false;
        }
    }
    if condition.requires_a_reson && actor.a_reson_max < 3 {
        return false;
    }
    if reads_target_of(condition) && target.is_none() {
        return false;
    }
    true
}

fn unit_checks_of(
    condition: &Condition,
    actor: &Unit,
    target: Option<&Unit>,
    unit: &Unit,
    clash_count: i32,
    slot: u32,
) -> (b: bool)
    requires
        unit.statuses.wf(),
        target matches Some(t) ==> t.statuses.wf(),
    ensures
        b == unit_checks(*condition, *actor, opt_unit(target), *unit, clash_count, slot),
{
    if let Some(hp) = condition.hp_above_percent {
        if hp_percent_wide(unit) <= hp as i64 {
            return false;
        }
    }
    if let Some(hp) = condition.hp_below_percent {
        let percent = hp_percent_wide(unit);
        let inclusive = match condition.hp_or_equal {
            Some(v) => v,
            None => false,
        };
        let ok = if inclusive {
            percent <= hp as i64
        } else {
            percent < hp as i64
        };
        if !ok {
            return false;
        }
    }
    if let Some(count) = condition.clash_count_gte {
        if clash_count < count {
            return false;
        }
    }
    if condition.target_defeated {
        match target {
            Some(t) => {
                if t.alive {
                    return false;
                }
            },
            None => {
                return false;
            },
        }
    }
    if condition.target_survived {
        match target {
            Some(t) => {
                if !t.alive {
                    return false;
                }
            },
            None => {
                return false;
            },
        }
    }
    if condition.any_status.len() > 0 {
        match target {
            Some(t) => {
                if !any_named_in(t, &condition.any_status) {
                    return false;
                }
            },
            None => {
                return false;
            },
        }
    }
    if condition.target_is_low_morale || condition.target_is_panicked {
        let in_state = match target {
            Some(t) => (condition.target_is_panicked && t.panicked) || (condition.target_is_low_morale && (
            t.low_morale || t.panicked)),
            None => false,
        };
        if !in_state {
            return false;
        }
    }
    if condition.target_is_sp_unit {
        match target {
            Some(t) => {
                if let Sanity::NoSanity = t.sanity {
                    return false;
                }
            },
            None => {
                return false;
            },
        }
    }
    if condition.target_is_non_sp_unit {
        match target {
            Some(t) => {
                if let Sanity::Sane { .. } = t.sanity {
                    return false;
                }
            },
            None => {
                return false;
            },
        }
    }
    if let Some(where_) = &condition.slot {
        if same_text(where_.as_str(), "leftmost") && slot != 0 {
            return false;
        }
    }
    if condition.any_target_killed && actor.skill_kills <= 0 {
        return false;
    }
    if condition.single_target && actor.planned_targets > 1 {
        return false;
    }
    if condition.target_has_amplitude {
        match target {
            Some(t) => {
                if !has_amplitude(t) {
                    return false;
                }
            },
            None => {
                return false;
            },
        }
    }
    if !all_named_in(unit, &condition.has_status) {
        return false;
    }
    if !none_named_in(unit, &condition.lacks_status) {
        return false;
    }
    value_checks_of(condition, unit)
}

/// Does `condition` hold for `actor` (and `target`, when there is one) at
/// the given clash count and Skill Slot?
pub fn condition_holds(condition: &Condition, actor: &Unit, target: Option<&Unit>, clash_count: i32, slot: u32) -> (b:
    bool)
    requires
        actor.statuses.wf(),
        actor.resonance_of.wf(),
        target matches Some(t) ==> t.statuses.wf(),
    ensures
        b == condition_met(*condition, *actor, opt_unit(target), clash_count, slot),
    decreases condition,
{
    if condition.any_of.len() > 0 {
        let ghost n = condition.any_of@.len() as int;
        let mut i: usize = 0;
        while i < condition.any_of.len()
            invariant
                actor.statuses.wf(),
                actor.resonance_of.wf(),
                target matches Some(t) ==> t.statuses.wf(),
                n == condition.any_of@.len(),
                i <= n,
                !any_met(*condition, *actor, opt_unit(target), clash_count, slot, i as int),
            decreases condition.any_of.len() - i,
        {
            proof {
                assert(decreases_to!(condition => condition.any_of@[i as int]));
            }
            if condition_holds(&condition.any_of[i], actor, target, clash_count, slot) {
                proof {
                    assert(any_met(*condition, *actor, opt_unit(target), clash_count, slot, i + 1));
                    lemma_any_met_grows(*condition, *actor, opt_unit(target), clash_count, slot, i + 1, n);
                }
                return true;
            }
            i = i + 1;
        }
        return false;
    }
    if !actor_checks_of(condition, actor, target, clash_count, slot) {
        return false;
    }
    let unit: &Unit = if reads_target_of(condition) {
        match target {
            Some(t) => t,
            None => actor,
        }
    } else {
        actor
    };
    unit_checks_of(condition, actor, target, unit, clash_count, slot)
}

/// `s` with every leading copy of `p` removed (`str::trim_start_matches`).
pub open spec fn strip_all(s: Seq<char>, p: Seq<char>) -> Seq<char>
    decreases s.len(),
{
    if p.len() > 0 && p.is_prefix_of(s) {
        strip_all(s.subrange(p.len() as int, s.len() as int), p)
    } else {
        s
    }
}

/// The amplitude an `Amplitude Conversion` marker carries: the text after
/// the marker's name and its colons, trimmed.
pub open spec fn amplitude_text(marker: Seq<char>) -> Seq<char> {
    trim(strip_all(strip_all(marker, AMPLITUDE_CONVERSION@), ":"@))
}

/// The first `Amplitude Conversion` marker from index `i` on.
pub open spec fn conversion_from(markers: Seq<String>, i: int) -> Option<int>
    decreases markers.len() - i,
{
    if i < 0 || i >= markers.len() {
        None
    } else if AMPLITUDE_CONVERSION@.is_prefix_of(markers[i]@) {
        Some(i)
    } else {
        conversion_from(markers, i + 1)
    }
}

/// Strip every leading copy of `p` from `s` from index `i` on; returns the
/// index the rest starts at.
fn strip_from(s: &Vec<char>, i: usize, p: &Vec<char>) -> (j: usize)
    requires
        i <= s@.len(),
        p@.len() > 0,
    ensures
        i <= j <= s@.len(),
        s@.subrange(j as int, s@.len() as int) == strip_all(s@.subrange(i as int, s@.len() as int), p@),
{
    let mut j = i;
    let n = s.len();
    while p.len() <= n - j
        invariant
            n == s@.len(),
            i <= j <= s@.len(),
            p@.len() > 0,
            strip_all(s@.subrange(i as int, s@.len() as int), p@) == strip_all(
                s@.subrange(j as int, s@.len() as int),
                p@,
            ),
        decreases s.len() - j,
    {
        let mut k: usize = 0;
        while k < p.len()
            invariant
                k <= p@.len(),
                n == s@.len(),
                j + p@.len() <= n,
                forall|t: int| 0 <= t < k ==> s@[j + t] == p@[t],
            ensures
                k <= p@.len(),
                forall|t: int| 0 <= t < k ==> s@[j + t] == p@[t],
                k < p@.len() ==> s@[j + k] != p@[k as int],
            decreases p.len() - k,
        {
            let at = j + k;
            let c = s[at];
            if c != p[k] {
                break;
            }
            k = k + 1;
        }
        let ghost rest = s@.subrange(j as int, s@.len() as int);
        if k < p.len() {
            assert(!p@.is_prefix_of(rest)) by {
                if p@.is_prefix_of(rest) {
                    assert(rest.subrange(0, p@.len() as int)[k as int] == p@[k as int]);
                    assert(rest[k as int] == s@[j + k]);
                }
            }
            return j;
        }
        assert(p@ =~= rest.subrange(0, p@.len() as int));
        assert(rest.subrange(p@.len() as int, rest.len() as int) =~= s@.subrange(
            (j + p.len()) as int,
            s@.len() as int,
        ));
        j = j + p.len();
    }
    let ghost rest = s@.subrange(j as int, s@.len() as int);
    assert(!p@.is_prefix_of(rest));
    j
}

/// The amplitude of the unit's first `Amplitude Conversion` marker, if it
/// has one (see `amplitude_text`).
pub fn amplitude_of(unit: &Unit) -> (r: Option<String>)
    ensures
        match conversion_from(unit.status_markers@, 0) {
            Some(k) => r matches Some(t) && t@ == amplitude_text(unit.status_markers@[k]@),
            None => r is None,
        },
{
    let mut k: usize = 0;
    while k < unit.status_markers.len()
        invariant
            k <= unit.status_markers@.len(),
            conversion_from(unit.status_markers@, 0) == conversion_from(unit.status_markers@, k as int),
        ensures
            k <= unit.status_markers@.len(),
            k < unit.status_markers@.len() ==> conversion_from(unit.status_markers@, 0) == Some(k as int),
            k == unit.status_markers@.len() ==> conversion_from(unit.status_markers@, 0) is None,
        decreases unit.status_markers.len() - k,
    {
        if starts_with(unit.status_markers[k].as_str(), AMPLITUDE_CONVERSION) {
            break;
        }
        k = k + 1;
    }
    if k == unit.status_markers.len() {
        return None;
    }
    let marker = unit.status_markers[k].as_str();
    let s = chars_of(marker);
    let name = chars_of(AMPLITUDE_CONVERSION);
    let colon = chars_of(":");
    proof {
        reveal_strlit("Amplitude Conversion");
        reveal_strlit(":");
    }
    assert(s@.subrange(0, s@.len() as int) =~= s@);
    let a = strip_from(&s, 0, &name);
    let b = strip_from(&s, a, &colon);
    let n = s.len();
    let mut start = b;
    while start < n && is_white_char(s[start])
        invariant
            n == s@.len(),
            b <= start <= n,
            trim_front(s@.subrange(b as int, n as int)) == trim_front(s@.subrange(start as int, n as int)),
        decreases n - start,
    {
        proof {
            lemma_trim_front_skip(s@, start as int);
        }
        start = start + 1;
    }
    let ghost front = s@.subrange(start as int, n as int);
    assert(trim_front(front) == front) by {
        if front.len() > 0 {
            assert(front[0] == s@[start as int]);
        }
    }
    let mut end: usize = n;
    while end > start && is_white_char(s[end - 1])
        invariant
            n == s@.len(),
            start <= end <= n,
            front == s@.subrange(start as int, n as int),
            trim_back(front) == trim_back(s@.subrange(start as int, end as int)),
        decreases end - start,
    {
        proof {
            let sub = s@.subrange(start as int, end as int);
            lemma_trim_back_skip(sub, (end - start) as int);
            assert(sub.subrange(0, (end - start - 1) as int) =~= s@.subrange(start as int, end - 1));
            assert(sub.subrange(0, (end - start) as int) =~= sub);
        }
        end = end - 1;
    }
    let ghost core = s@.subrange(start as int, end as int);
    assert(trim_back(core) == core) by {
        if core.len() > 0 {
            assert(core.last() == s@[end - 1]);
        }
    }
    let text = marker.substring_char(start, end).to_owned();
    Some(text)
}

/// What an effect's condition measures, for effects that scale with it
/// (see `measured_value`), on the unit the condition reads; 0 without a
/// condition, without a target to read, or without a status to measure.
pub open spec fn measured_of(cond: Option<Condition>, actor: Unit, target: Option<Unit>) -> int {
    match cond {
        None => 0,
        Some(c) => if reads_target(c) && target is None {
            0
        } else {
            match measured_value(c, measured_unit(c, actor, target)) {
                Some(v) => v,
                None => 0,
            }
        },
    }
}

/// What `condition` measures (see `measured_of`), in a type wide enough
/// for every value.
pub fn measured_wide(condition: Option<&Condition>, actor: &Unit, target: Option<&Unit>) -> (v: i128)
    requires
        actor.statuses.wf(),
        target matches Some(t) ==> t.statuses.wf(),
    ensures
        v == measured_of(
            match condition {
                Some(c) => Some(*c),
                None => None,
            },
            *actor,
            opt_unit(target),
        ),
{
    let cond = match condition {
        Some(c) => c,
        None => return 0,
    };
    let from_target = match &cond.source {
        Some(src) => same_text(src.as_str(), "target"),
        None => false,
    };
    proof {
        reveal_strlit("target");
    }
    let unit = if from_target {
        match target {
            Some(t) => t,
            None => return 0,
        }
    } else {
        actor
    };
    if cond.statuses.len() > 0 {
        return sum_statuses(unit, &cond.statuses, cond.component);
    }
    match &cond.status {
        Some(st) => unit_status_value(unit, st.as_str(), cond.component) as i128,
        None => 0,
    }
}

pub fn measured_from_condition(condition: Option<&Condition>, actor: &Unit, target: Option<&Unit>) -> (v: i32)
    requires
        actor.statuses.wf(),
        target matches Some(t) ==> t.statuses.wf(),
        i32::MIN <= measured_of(
            match condition {
                Some(c) => Some(*c),
                None => None,
            },
            *actor,
            opt_unit(target),
        ) <= i32::MAX,
    ensures
        v == measured_of(
            match condition {
                Some(c) => Some(*c),
                None => None,
            },
            *actor,
            opt_unit(target),
        ),
{
    let cond = match condition {
        Some(c) => c,
        None => return 0,
    };
    let from_target = match &cond.source {
        Some(src) => same_text(src.as_str(), "target"),
        None => false,
    };
    let unit = if from_target {
        match target {
            Some(t) => t,
            None => return 0,
        }
    } else {
        actor
    };
    if cond.statuses.len() > 0 {
        return sum_statuses(unit, &cond.statuses, cond.component) as i32;
    }
    match &cond.status {
        Some(st) => unit_status_value(unit, st.as_str(), cond.component) as i32,
        None => 0,
    }
}

/// Does a Coin's clause fire on this hit?  An "after Clash Lose" clause
/// needs the lost Clash, an "unless cracked" clause an intact Coin, and its
/// condition must hold for the attacker against the defender.
pub open spec fn clause_applies(
    only_after_clash_lose: bool,
    lost_clash: bool,
    only_without_cracking: bool,
    coin_cracked: bool,
    condition: Option<Condition>,
    attacker: Unit,
    defender: Unit,
    clash_count: i32,
    slot: u32,
) -> bool {
    &&& !(only_after_clash_lose && !lost_clash)
    &&& !(only_without_cracking && coin_cracked)
    &&& match condition {
        Some(c) => condition_met(c, attacker, Some(defender), clash_count, slot),
        None => true,
    }
}

pub fn coin_clause_applies(
    units: &Vec<Unit>,
    attacker_index: usize,
    defender_index: usize,
    only_after_clash_lose: bool,
    lost_clash: bool,
    only_without_cracking: bool,
    coin_cracked: bool,
    condition: Option<&Condition>,
    clash_count: i32,
    slot: u32,
) -> (b: bool)
    requires
        attacker_index < units@.len(),
        defender_index < units@.len(),
        units@[attacker_index as int].statuses.wf(),
        units@[attacker_index as int].resonance_of.wf(),
        units@[defender_index as int].statuses.wf(),
    ensures
        b == clause_applies(
            only_after_clash_lose,
            lost_clash,
            only_without_cracking,
            coin_cracked,
            match condition {
                Some(c) => Some(*c),
                None => None,
            },
            units@[attacker_index as int],
            units@[defender_index as int],
            clash_count,
            slot,
        ),
{
    if only_after_clash_lose && !lost_clash {
        return false;
    }
    if only_without_cracking && coin_cracked {
        return false;
    }
    match condition {
        Some(c) => condition_holds(c, &units[attacker_index], Some(&units[defender_index]), clash_count, slot),
        None => true,
    }
}

/// Clauses of a Coin that act on the unit being hit (statuses, activations,
/// target damage); an Attack Weight splash runs them for every extra target.
pub open spec fn target_facing(kind: Seq<char>) -> bool {
    ||| kind == "inflict"@
    ||| kind == "activate_status"@
    ||| kind == "tremor_burst"@
    ||| kind == "lose_status_count"@
    ||| kind == "gloom_damage_equal_target_status"@
    ||| kind == "damage_from_status_divisor"@
    ||| kind == "consume_status_to_inflict"@
    ||| kind == "convert_status"@
}

pub fn is_target_facing_clause(kind: &str) -> (b: bool)
    ensures
        b == target_facing(kind@),
{
    same_text(kind, "inflict") || same_text(kind, "activate_status") || same_text(kind, "tremor_burst")
        || same_text(kind, "lose_status_count") || same_text(kind, "gloom_damage_equal_target_status")
        || same_text(kind, "damage_from_status_divisor") || same_text(kind, "consume_status_to_inflict")
        || same_text(kind, "convert_status")
}

/// Clauses that only raise the damage of the Coin they are written on; they
/// resolve before that Coin's damage, the rest after the hit.
pub open spec fn coin_damage(kind: Seq<char>) -> bool {
    ||| kind == "damage_percent"@
    ||| kind == "damage_percent_from_resist"@
    ||| kind == "damage_percent_per_resonance"@
    ||| kind == "damage_percent_per_ammo_spent"@
    ||| kind == "damage_percent_per_consumed_status"@
    ||| kind == "damage_percent_missing_hp"@
    ||| kind == "damage_percent_from_negative_sp"@
    ||| kind == "damage_percent_from_missing_sp"@
    ||| kind == "damage_percent_by_missing_hp"@
    ||| kind == "damage_percent_per_stack"@
    ||| kind == "damage_percent_per_coin_heads"@
}

pub fn is_coin_damage_clause(kind: &str) -> (b: bool)
    ensures
        b == coin_damage(kind@),
{
    same_text(kind, "damage_percent") || same_text(kind, "damage_percent_from_resist") || same_text(
        kind,
        "damage_percent_per_resonance",
    ) || same_text(kind, "damage_percent_per_ammo_spent") || same_text(
        kind,
        "damage_percent_per_consumed_status",
    ) || same_text(kind, "damage_percent_missing_hp") || same_text(kind, "damage_percent_from_negative_sp")
        || same_text(kind, "damage_percent_from_missing_sp") || same_text(kind, "damage_percent_by_missing_hp")
        || same_text(kind, "damage_percent_per_stack") || same_text(kind, "damage_percent_per_coin_heads")
}

} // verus!
