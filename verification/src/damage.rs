//! The integer part of the damage rules (wiki.gg `Damage` / `Clash`).

use vstd::prelude::*;

verus! {

/// Clash power from level difference: +1 per 3 levels, rounded down, for the
/// higher side only.
pub open spec fn level_clash_bonus_of(offense: int, defense: int) -> int {
    if offense - defense <= 0 {
        0
    } else {
        (offense - defense) / 3
    }
}

pub fn level_clash_bonus(offense: i32, defense: i32) -> (b: i32)
    requires
        i32::MIN <= offense - defense <= i32::MAX,
    ensures
        b == level_clash_bonus_of(offense as int, defense as int),
        b >= 0,
{
    let diff = offense - defense;
    if diff <= 0 {
        return 0;
    }
    diff / 3
}

/// The level bonus goes to the higher side only and never decreases with a
/// larger level advantage.
pub proof fn level_bonus_is_one_sided_and_monotone(a: int, b: int, c: int)
    ensures
        level_clash_bonus_of(a, b) > 0 ==> level_clash_bonus_of(b, a) == 0,
        a <= c ==> level_clash_bonus_of(a, b) <= level_clash_bonus_of(c, b),
{
}

} // verus!
