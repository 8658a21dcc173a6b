//! The power a skill brings to a Clash: its base part, and the Clash Power
//! adjustments a Clash adds on top of its Final Power.

use vstd::prelude::*;
use crate::damage::{level_clash_bonus, level_clash_bonus_of};
use crate::dice::{can_draw, flip_step, uses_preset, Dice, DiceState};
use crate::ids::SkillId;
use crate::keyed::{compare_chars, lex_lt, StrMap};
use crate::state::{level_with, status_of, trunc_div, Unit};
use crate::text::chars_of;
use crate::time_passives::{signature, signature_final_power};
use crate::units::{time_bonus_of, time_state_bonus};

verus! {

/// The generic skill-power statuses: `Power Up/Down` for every skill, and
/// `Attack Power Up/Down` for attacks or `Defense Power Up/Down` for defense
/// skills (Up counts its Count, Down its Potency).
pub open spec fn status_power(u: Unit, is_defense: bool) -> int {
    let m = u.statuses@;
    let all = status_of(m, "Power Up"@).count - status_of(m, "Power Down"@).potency;
    let own = if is_defense {
        status_of(m, "Defense Power Up"@).count - status_of(m, "Defense Power Down"@).potency
    } else {
        status_of(m, "Attack Power Up"@).count - status_of(m, "Attack Power Down"@).potency
    };
    all + own
}

/// The part of a skill's power not tied to its coins: Base Power and its
/// bonus, the time-state Final Power bonus, +2 for a signature skill in its
/// own state, and the skill-power statuses.
pub open spec fn power_base_of(
    units: Seq<Unit>,
    i: int,
    base_power: i32,
    base_power_bonus: i32,
    is_defense: bool,
    skill: Seq<char>,
) -> int {
    let u = units[i];
    let time = match time_bonus_of(u) {
        Some((_, b)) => b.final_power as int,
        None => 0,
    };
    let sig: int = if signature(u, skill) {
        2
    } else {
        0
    };
    base_power + base_power_bonus + time + sig + status_power(u, is_defense)
}

pub fn power_base(
    units: &Vec<Unit>,
    unit_index: usize,
    base_power: i32,
    base_power_bonus: i32,
    is_defense: bool,
    skill: &SkillId,
) -> (p: i32)
    requires
        unit_index < units@.len(),
        units@[unit_index as int].statuses.wf(),
        i32::MIN <= power_base_of(units@, unit_index as int, base_power, base_power_bonus, is_defense, skill@)
            <= i32::MAX,
    ensures
        p == power_base_of(units@, unit_index as int, base_power, base_power_bonus, is_defense, skill@),
{
    let u = &units[unit_index];
    let mut total: i64 = base_power as i64 + base_power_bonus as i64;
    match time_state_bonus(u) {
        Some((_, bonus)) => {
            total = total + bonus.final_power as i64;
        },
        None => {},
    }
    total = total + signature_final_power(units, unit_index, skill) as i64;
    let all: i64 = u.statuses.count("Power Up") as i64 - u.statuses.potency("Power Down") as i64;
    let own: i64 = if is_defense {
        u.statuses.count("Defense Power Up") as i64 - u.statuses.potency("Defense Power Down") as i64
    } else {
        u.statuses.count("Attack Power Up") as i64 - u.statuses.potency("Attack Power Down") as i64
    };
    total = total + all + own;
    total as i32
}

/// The key a pair of units' Clashes are counted under: both ids in
/// order, joined by `|`, so the order the two met in does not matter.
pub open spec fn clash_key_of(a: Seq<char>, b: Seq<char>) -> Seq<char> {
    if lex_lt(b, a) {
        b + "|"@ + a
    } else {
        a + "|"@ + b
    }
}

pub fn clash_key(units: &Vec<Unit>, a: usize, b: usize) -> (k: String)
    requires
        a < units@.len(),
        b < units@.len(),
    ensures
        k@ == clash_key_of(units@[a as int].id@, units@[b as int].id@),
{
    let first = units[a].id.as_str();
    let second = units[b].id.as_str();
    let c = compare_chars(&chars_of(first), &chars_of(second));
    let mut k = String::new();
    if c > 0 {
        k.append(second);
        k.append("|");
        k.append(first);
    } else {
        k.append(first);
        k.append("|");
        k.append(second);
    }
    assert(k@ =~= clash_key_of(units@[a as int].id@, units@[b as int].id@));
    k
}

/// Swapping the two units keeps their Clash key.
pub proof fn clash_key_is_symmetric(a: Seq<char>, b: Seq<char>)
    ensures
        clash_key_of(a, b) == clash_key_of(b, a),
{
    if a != b {
        crate::keyed::lemma_lex_total(a, b);
        if lex_lt(a, b) {
            crate::keyed::lemma_lex_asymmetric(a, b);
        } else {
            crate::keyed::lemma_lex_asymmetric(b, a);
        }
    }
}

/// A unit's Offense Level: its level, its modifier and the Offense Level
/// statuses, at least 1.
pub open spec fn offense_of(u: Unit) -> int {
    level_with(
        u.level,
        u.offense_level_mod,
        status_of(u.statuses@, "Offense Level Up"@).potency,
        status_of(u.statuses@, "Offense Level Down"@).potency,
    )
}

/// A Clash compares both skills' attack Levels (each with its own skill's
/// modifier); the higher side gets +1 per 3 levels of difference.  On top
/// come the skill's own "Clash Power +N", `Clash Power Up` (its Count) and
/// the time-state bonus.
pub open spec fn clash_total(
    units: Seq<Unit>,
    i: int,
    o: int,
    power: i32,
    my_mod: i32,
    their_mod: i32,
    bonus: i32,
) -> int {
    let me = units[i];
    let time: int = match time_bonus_of(me) {
        Some((_, b)) => b.clash_power as int,
        None => 0,
    };
    power + level_clash_bonus_of(offense_of(me) + my_mod, offense_of(units[o]) + their_mod) + bonus + status_of(
        me.statuses@,
        "Clash Power Up"@,
    ).count + time
}

/// From `threshold` Clashes against the same target on, a unit with a
/// Clash-count swing gains or loses Clash Power equal to the Clash count over
/// the divisor (at least 1); `None` below the threshold or without the swing.
pub open spec fn swing_of(units: Seq<Unit>, i: int, o: int, counts: Map<Seq<char>, i32>) -> Option<int> {
    match units[i].clash_count_swing {
        None => None,
        Some(sw) => {
            let key = clash_key_of(units[i].id@, units[o].id@);
            let c: int = if counts.contains_key(key) {
                counts[key] as int
            } else {
                0
            };
            if c >= sw.threshold {
                Some(trunc_div(c, if sw.divisor < 1 { 1 } else { sw.divisor as int }))
            } else {
                None
            }
        },
    }
}

/// The power `unit_index` brings to its Clash with `opponent_index`: its
/// Final Power `power` plus the Clash adjustments (see `clash_total`), and a
/// coin flip (heads: gain, tails: lose) for the Clash-count swing.
pub fn match_power(
    units: &Vec<Unit>,
    dice: &mut Dice,
    clash_counts: &StrMap<i32>,
    unit_index: usize,
    opponent_index: usize,
    power: i32,
    my_mod: i32,
    their_mod: i32,
    clash_power_bonus: i32,
) -> (total: i32)
    requires
        unit_index < units@.len(),
        opponent_index < units@.len(),
        units@[unit_index as int].statuses.wf(),
        units@[opponent_index as int].statuses.wf(),
        clash_counts.wf(),
        offense_of(units@[unit_index as int]) <= i32::MAX,
        offense_of(units@[opponent_index as int]) <= i32::MAX,
        offense_of(units@[unit_index as int]) + my_mod <= i32::MAX,
        offense_of(units@[opponent_index as int]) + their_mod <= i32::MAX,
        i32::MIN <= offense_of(units@[unit_index as int]) + my_mod - (offense_of(units@[opponent_index as int])
            + their_mod) <= i32::MAX,
        ({
            let t = clash_total(units@, unit_index as int, opponent_index as int, power, my_mod, their_mod, clash_power_bonus);
            match swing_of(units@, unit_index as int, opponent_index as int, clash_counts@) {
                None => i32::MIN <= t <= i32::MAX,
                Some(a) => {
                    &&& i32::MIN <= t - a <= i32::MAX
                    &&& i32::MIN <= t + a <= i32::MAX
                    &&& uses_preset(old(dice)@) || can_draw(old(dice)@, 1)
                },
            }
        }),
    ensures
        ({
            let t = clash_total(units@, unit_index as int, opponent_index as int, power, my_mod, their_mod, clash_power_bonus);
            match swing_of(units@, unit_index as int, opponent_index as int, clash_counts@) {
                None => total == t && final(dice)@ == old(dice)@,
                Some(a) => {
                    let (heads, d) = flip_step(old(dice)@, 50);
                    &&& final(dice)@ == d
                    &&& total == if heads {
                        t + a
                    } else {
                        t - a
                    }
                },
            }
        }),
{
    let me = &units[unit_index];
    let them = &units[opponent_index];
    let my_level = me.offense_level() as i64 + my_mod as i64;
    let their_level = them.offense_level() as i64 + their_mod as i64;
    let mut total: i64 = power as i64 + level_clash_bonus(my_level as i32, their_level as i32) as i64;
    total = total + clash_power_bonus as i64;
    total = total + me.statuses.count("Clash Power Up") as i64;
    match time_state_bonus(me) {
        Some((_, bonus)) => {
            total = total + bonus.clash_power as i64;
        },
        None => {},
    }
    match me.clash_count_swing {
        Some(swing) => {
            let key = clash_key(units, unit_index, opponent_index);
            let count: i64 = match clash_counts.get(key.as_str()) {
                Some(c) => *c as i64,
                None => 0,
            };
            if count >= swing.threshold as i64 {
                let divisor: i64 = if swing.divisor < 1 {
                    1
                } else {
                    swing.divisor as i64
                };
                let amount: i64 = count / divisor;
                let positive = dice.flip(50);
                total = if positive {
                    total + amount
                } else {
                    total - amount
                };
            }
        },
        None => {},
    }
    total as i32
}

} // verus!
