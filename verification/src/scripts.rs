//! Enemy action-pattern scripts.
//!
//! The Imago's rotation is documented turn by turn on the wikis.  Scripts are
//! data: the engine only decides *which* turn of the cycle is being played and
//! which state of time is active.

use vstd::prelude::*;
use crate::keyed::StrMap;
use crate::text::{normalize, normalized, spells};

verus! {

/// The Imago's three states of time (wiki.gg `Butterfly of Entangled Lives`).
#[derive(Clone, Copy, Debug, PartialEq, Eq, Structural, PartialOrd, Ord)]
pub enum TimeState {
    Past,
    Present,
    Future,
}

pub open spec fn time_state_from_text(text: Seq<char>) -> Option<TimeState> {
    let key = normalize(text);
    if key == "past"@ {
        Some(TimeState::Past)
    } else if key == "present"@ {
        Some(TimeState::Present)
    } else if key == "future"@ {
        Some(TimeState::Future)
    } else {
        None
    }
}

/// Bonus granted by a state's Stack (in-game `Bufs_Refraction6` text):
/// 0-10: +1 Potency and Count; 11-20: Clash Power +1, +2 Potency / +1 Count;
/// 21-30: Final Power +2, +3 Potency / +2 Count.
pub open spec fn stack_bonus_of(stack: i32) -> StackBonus {
    if stack <= 10 {
        StackBonus { clash_power: 0, final_power: 0, potency: 1, count: 1 }
    } else if stack <= 20 {
        StackBonus { clash_power: 1, final_power: 0, potency: 2, count: 1 }
    } else {
        StackBonus { clash_power: 0, final_power: 2, potency: 3, count: 2 }
    }
}

impl TimeState {
    pub const ALL: [TimeState; 3] = [TimeState::Past, TimeState::Present, TimeState::Future];

    /// Status key holding this state's Stack on the unit.
    pub fn stack_key(self) -> (s: &'static str)
        ensures
            s@ == (match self {
                TimeState::Past => "In the Past"@,
                TimeState::Present => "In the Present"@,
                TimeState::Future => "In the Future"@,
            }),
    {
        match self {
            TimeState::Past => "In the Past",
            TimeState::Present => "In the Present",
            TimeState::Future => "In the Future",
        }
    }

    /// Status the state's skills inflict or gain extra of.
    pub fn boosted_status(self) -> (s: &'static str)
        ensures
            s@ == (match self {
                TimeState::Past => "Burn"@,
                TimeState::Present => "Poise"@,
                TimeState::Future => "Bleed"@,
            }),
    {
        match self {
            TimeState::Past => "Burn",
            TimeState::Present => "Poise",
            TimeState::Future => "Bleed",
        }
    }

    pub fn parse(text: &str) -> (r: Option<TimeState>)
        ensures
            r == time_state_from_text(text@),
    {
        let key = normalized(text);
        if spells(&key, "past") {
            Some(TimeState::Past)
        } else if spells(&key, "present") {
            Some(TimeState::Present)
        } else if spells(&key, "future") {
            Some(TimeState::Future)
        } else {
            None
        }
    }

    pub fn as_str(self) -> (s: &'static str)
        ensures
            s@ == (match self {
                TimeState::Past => "past"@,
                TimeState::Present => "present"@,
                TimeState::Future => "future"@,
            }),
    {
        match self {
            TimeState::Past => "past",
            TimeState::Present => "present",
            TimeState::Future => "future",
        }
    }

    pub fn stack_bonus(stack: i32) -> (b: StackBonus)
        ensures
            b == stack_bonus_of(stack),
    {
        if stack <= 10 {
            StackBonus { clash_power: 0, final_power: 0, potency: 1, count: 1 }
        } else if stack <= 20 {
            StackBonus { clash_power: 1, final_power: 0, potency: 2, count: 1 }
        } else {
            StackBonus { clash_power: 0, final_power: 2, potency: 3, count: 2 }
        }
    }
}

/// Every state's name reads back as that state.
pub proof fn time_state_names_round_trip(t: TimeState, s: &str)
    requires
        s@ == (match t {
            TimeState::Past => "past"@,
            TimeState::Present => "present"@,
            TimeState::Future => "future"@,
        }),
    ensures
        time_state_from_text(s@) == Some(t),
{
    reveal_strlit("past");
    reveal_strlit("present");
    reveal_strlit("future");
    let n = normalize(s@);
    assert(crate::text::trim_front(s@) == s@);
    assert(crate::text::trim_back(s@) == s@);
    assert(n =~= s@);
}

/// The name a state of time is written by.
pub open spec fn time_state_name(t: TimeState) -> Seq<char> {
    match t {
        TimeState::Past => "past"@,
        TimeState::Present => "present"@,
        TimeState::Future => "future"@,
    }
}

/// A state of time reads back from its name written in any ASCII case with
/// any white space around it; a text whose trimmed, lower-cased form is no
/// state's name reads as none.
pub proof fn time_state_names_read_back(t: TimeState, front: Seq<char>, core: Seq<char>, back: Seq<char>, other: Seq<char>)
    requires
        crate::text::all_white(front),
        crate::text::all_white(back),
        core.map_values(|c: char| crate::text::ascii_lower(c)) == time_state_name(t),
    ensures
        time_state_from_text(front + core + back) == Some(t),
        normalize(other) != "past"@ && normalize(other) != "present"@ && normalize(other) != "future"@
            ==> time_state_from_text(other) is None,
{
    reveal_strlit("past");
    reveal_strlit("present");
    reveal_strlit("future");
    let name = time_state_name(t);
    assert(core.len() == name.len());
    assert(core.len() > 0);
    assert(crate::text::ascii_lower(core[0]) == name[0]);
    assert(crate::text::ascii_lower(core.last()) == name[name.len() - 1]);
    assert(!crate::text::is_white(core[0]));
    assert(!crate::text::is_white(core.last()));
    crate::text::trim_removes_padding(front, core, back);
    assert(normalize(front + core + back) =~= name);
}

#[derive(Clone, Copy, Debug, PartialEq, Eq, Structural)]
pub struct StackBonus {
    pub clash_power: i32,
    pub final_power: i32,
    pub potency: i32,
    pub count: i32,
}

/// "The X - Segmentation" (stations 2-4 and the Imago's Stack bookkeeping).
#[derive(Clone, Debug)]
pub struct Segmentation {
    /// Which state of time this illusion's hits take Stacks from.
    pub stack_status: String,
    pub stack_loss_per_hit: i32,
    pub gain_if_not_hit: i32,
    pub attacker_sp_heal: i32,
}

#[derive(Clone, Copy, Debug, PartialEq, Eq, Structural)]
pub struct ClashCountSwing {
    pub threshold: i32,
    pub divisor: i32,
}

#[derive(Clone, Debug)]
pub struct ScriptBranch {
    /// Only `barrier_broken` is defined so far.
    pub when: String,
    pub turns: Vec<Vec<String>>,
}

#[derive(Clone, Debug)]
pub struct ScriptBand {
    /// `above_66` / `below_66` / `below_33`
    pub band: String,
    /// One entry per turn of the cycle; each entry lists the skills of the
    /// unit's Skill Slots in order.
    pub turns: Vec<Vec<String>>,
}

#[derive(Clone, Debug)]
pub struct StateScript {
    pub small: String,
    pub mid: String,
    pub big: String,
    pub bands: Vec<ScriptBand>,
}

/// Health band a unit at `hp_percent` plays.
pub open spec fn band_of(hp_percent: i32) -> Seq<char> {
    if hp_percent > 66 {
        "above_66"@
    } else if hp_percent > 33 {
        "below_66"@
    } else {
        "below_33"@
    }
}

/// The turn of a cycle of `turns` played on `cycle_index` (empty when the
/// cycle has no turns).
pub open spec fn cycle_turn(turns: Seq<Vec<String>>, cycle_index: u32) -> Seq<String> {
    if turns.len() == 0 {
        Seq::empty()
    } else {
        turns[(cycle_index as int) % (turns.len() as int)]@
    }
}

/// Index of the first band named `name`, if any.
pub open spec fn first_band(bands: Seq<ScriptBand>, name: Seq<char>) -> Option<int> {
    if exists|i: int| 0 <= i < bands.len() && bands[i].band@ == name {
        Some(
            choose|i: int|
                0 <= i < bands.len() && bands[i].band@ == name && forall|j: int|
                    0 <= j < i ==> bands[j].band@ != name,
        )
    } else {
        None
    }
}

/// The rotation data of an enemy script: the state-of-time scripts (keyed
/// `past` / `present` / `future`), the stateless cycle, and the branch.
#[derive(Clone, Debug)]
pub struct Rotation {
    /// Turns in one cycle: the slot cursor wraps here.
    pub cycle_turns: u32,
    pub states: StrMap<StateScript>,
    pub turns: Vec<Vec<String>>,
    pub branch: Option<ScriptBranch>,
}

/// Skills of the slots on `cycle_index` for a unit at `hp_percent` in
/// `state`: the state's script, its first band matching the health band,
/// that band's turn of the cycle.
pub open spec fn rotation_turn(r: Rotation, hp_percent: i32, state: TimeState, cycle_index: u32) -> Seq<String> {
    let key = match state {
        TimeState::Past => "past"@,
        TimeState::Present => "present"@,
        TimeState::Future => "future"@,
    };
    if !r.states@.contains_key(key) {
        Seq::empty()
    } else {
        match first_band(r.states@[key].bands@, band_of(hp_percent)) {
            None => Seq::empty(),
            Some(i) => cycle_turn(r.states@[key].bands@[i].turns@, cycle_index),
        }
    }
}

/// The same with the branch: the branch's first turn when it is active and
/// has one, the stateless cycle when the script has no state scripts.
pub open spec fn rotation_turn_with_branch(
    r: Rotation,
    hp_percent: i32,
    state: TimeState,
    cycle_index: u32,
    branch_active: bool,
) -> Seq<String> {
    if branch_active && r.branch is Some && r.branch->0.turns@.len() > 0 {
        r.branch->0.turns@[0]@
    } else if r.states@.len() == 0 {
        cycle_turn(r.turns@, cycle_index)
    } else {
        rotation_turn(r, hp_percent, state, cycle_index)
    }
}

fn clone_strings(v: &Vec<String>) -> (r: Vec<String>)
    ensures
        r@ == v@,
{
    let mut r: Vec<String> = Vec::new();
    let mut i: usize = 0;
    while i < v.len()
        invariant
            i <= v@.len(),
            r@ == v@.subrange(0, i as int),
        decreases v.len() - i,
    {
        r.push(v[i].clone());
        i = i + 1;
        assert(r@ =~= v@.subrange(0, i as int));
    }
    assert(r@ =~= v@);
    r
}

fn pick_turn(turns: &Vec<Vec<String>>, cycle_index: u32) -> (r: Vec<String>)
    ensures
        r@ == cycle_turn(turns@, cycle_index),
{
    if turns.len() == 0 {
        return Vec::new();
    }
    let index = (cycle_index as usize) % turns.len();
    clone_strings(&turns[index])
}

impl Rotation {
    /// Health band name for a unit at `hp_percent`.
    pub fn band_name(hp_percent: i32) -> (s: &'static str)
        ensures
            s@ == band_of(hp_percent),
    {
        if hp_percent > 66 {
            "above_66"
        } else if hp_percent > 33 {
            "below_66"
        } else {
            "below_33"
        }
    }

    /// Skills used by the unit's slots on `cycle_index` of the cycle;
    /// `branch_active` selects the barrier-broken branch when there is one.
    pub fn turn_skills_with_branch(
        &self,
        hp_percent: i32,
        state: TimeState,
        cycle_index: u32,
        branch_active: bool,
    ) -> (r: Vec<String>)
        requires
            self.states.wf(),
        ensures
            r@ == rotation_turn_with_branch(*self, hp_percent, state, cycle_index, branch_active),
    {
        if branch_active {
            if let Some(branch) = &self.branch {
                if branch.turns.len() > 0 {
                    return clone_strings(&branch.turns[0]);
                }
            }
        }
        if self.states.is_empty() {
            return pick_turn(&self.turns, cycle_index);
        }
        self.turn_skills(hp_percent, state, cycle_index)
    }

    /// State-based rotation lookup (the Imago).
    pub fn turn_skills(&self, hp_percent: i32, state: TimeState, cycle_index: u32) -> (r: Vec<
        String,
    >)
        requires
            self.states.wf(),
        ensures
            r@ == rotation_turn(*self, hp_percent, state, cycle_index),
    {
        let band_name = Rotation::band_name(hp_percent);
        let state_key = state.as_str();
        let ghost key = match state {
            TimeState::Past => "past"@,
            TimeState::Present => "present"@,
            TimeState::Future => "future"@,
        };
        assert(state_key@ == key);
        let Some(script) = self.states.get(state_key) else {
            return Vec::new();
        };
        let band_key = crate::text::chars_of(band_name);
        let mut i: usize = 0;
        while i < script.bands.len()
            invariant
                band_key@ == band_of(hp_percent),
                self.states@.contains_key(key),
                key == (match state {
                    TimeState::Past => "past"@,
                    TimeState::Present => "present"@,
                    TimeState::Future => "future"@,
                }),
                *script == self.states@[key],
                i <= script.bands@.len(),
                forall|j: int| 0 <= j < i ==> script.bands@[j].band@ != band_of(hp_percent),
            decreases script.bands.len() - i,
        {
            if spells(&band_key, script.bands[i].band.as_str()) {
                let ghost bands = script.bands@;
                assert(first_band(bands, band_of(hp_percent)) == Some(i as int)) by {
                    let w = i as int;
                    assert(0 <= w < bands.len() && bands[w].band@ == band_of(hp_percent)
                        && forall|j: int| 0 <= j < w ==> bands[j].band@ != band_of(hp_percent));
                    let c = choose|c: int|
                        0 <= c < bands.len() && bands[c].band@ == band_of(hp_percent) && forall|
                            j: int,
                        | 0 <= j < c ==> bands[j].band@ != band_of(hp_percent);
                    if c < w {
                    } else if c > w {
                        assert(bands[w].band@ != band_of(hp_percent));
                    }
                }
                assert(*script == self.states@[key]);
                let r = pick_turn(&script.bands[i].turns, cycle_index);
                return r;
            }
            i = i + 1;
        }
        Vec::new()
    }
}

} // verus!
