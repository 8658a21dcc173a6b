//! The battle's source of chance: the replayable generator, preceded by any
//! flips a test or a replay fixed in advance.

use vstd::prelude::*;
use crate::rng::{clamp_percent, scale_below, xoshiro_output, xoshiro_step, Rng};

verus! {

/// The battle's dice: preset flips are used up first, then the generator.
#[derive(Clone, Debug)]
pub struct Dice {
    pub rng: Rng,
    /// Flips fixed in advance; while any are left, `flip` returns them in
    /// order and `roll_inclusive` returns the middle of its range.
    pub preset_flips: Vec<bool>,
    pub flip_cursor: usize,
}

/// What the dice are, for contracts: the preset flips, how many of them are
/// used, the generator words and how many values it has given.
pub struct DiceState {
    pub presets: Seq<bool>,
    pub cursor: int,
    pub words: [u64; 4],
    pub draws: int,
}

impl View for Dice {
    type V = DiceState;

    open spec fn view(&self) -> DiceState {
        DiceState {
            presets: self.preset_flips@,
            cursor: self.flip_cursor as int,
            words: self.rng.words(),
            draws: self.rng.draws() as int,
        }
    }
}

/// Heads for a generator flip at `percent` from `words`.
pub open spec fn flip_heads(words: [u64; 4], percent: i32) -> bool {
    scale_below(xoshiro_output(words), 100) < clamp_percent(percent)
}

/// Does the next flip or roll use a preset?
pub open spec fn uses_preset(d: DiceState) -> bool {
    0 <= d.cursor < d.presets.len()
}

/// The dice after one preset is used.
pub open spec fn preset_used(d: DiceState) -> DiceState {
    DiceState { presets: d.presets, cursor: d.cursor + 1, words: d.words, draws: d.draws }
}

/// The dice after the generator gave one value.
pub open spec fn generator_used(d: DiceState) -> DiceState {
    DiceState { presets: d.presets, cursor: d.cursor, words: xoshiro_step(d.words), draws: d.draws + 1 }
}

/// One flip at `percent`: its result and the dice after it.
pub open spec fn flip_step(d: DiceState, percent: i32) -> (bool, DiceState) {
    if uses_preset(d) {
        (d.presets[d.cursor], preset_used(d))
    } else {
        (flip_heads(d.words, percent), generator_used(d))
    }
}

/// Can the dice give `n` more values without the draw counter overflowing?
pub open spec fn can_draw(d: DiceState, n: int) -> bool {
    d.draws + n <= u64::MAX
}

/// One roll in `0..=range`: its result and the dice after it.
pub open spec fn roll_step(d: DiceState, range: i32) -> (i32, DiceState) {
    if range <= 0 {
        (0, d)
    } else if uses_preset(d) {
        ((range / 2) as i32, preset_used(d))
    } else {
        (scale_below(xoshiro_output(d.words), (range + 1) as u32) as i32, generator_used(d))
    }
}

/// `n` flips at `percent` in a row: how many landed heads, and the dice after.
pub open spec fn flips(d: DiceState, percent: i32, n: nat) -> (nat, DiceState)
    decreases n,
{
    if n == 0 {
        (0, d)
    } else {
        let (h, d1) = flip_step(d, percent);
        let (k, d2) = flips(d1, percent, (n - 1) as nat);
        (if h {
            k + 1
        } else {
            k
        }, d2)
    }
}

/// A flip never advances the draw counter by more than one, and never
/// changes the presets.
pub proof fn lemma_flips_draws(d: DiceState, percent: i32, n: nat)
    ensures
        flips(d, percent, n).1.draws <= d.draws + n,
        flips(d, percent, n).1.draws >= d.draws,
        flips(d, percent, n).1.presets == d.presets,
        flips(d, percent, n).0 <= n,
    decreases n,
{
    if n > 0 {
        lemma_flips_draws(flip_step(d, percent).1, percent, (n - 1) as nat);
    }
}

/// Splitting `n + 1` flips into the first `n` and one more.
pub proof fn lemma_flips_snoc(d: DiceState, percent: i32, n: nat)
    ensures
        ({
            let (k, dn) = flips(d, percent, n);
            let (h, dl) = flip_step(dn, percent);
            flips(d, percent, n + 1) == (if h {
                k + 1
            } else {
                k
            }, dl)
        }),
    decreases n,
{
    let (h0, d1) = flip_step(d, percent);
    if n > 0 {
        lemma_flips_snoc(d1, percent, (n - 1) as nat);
        assert(flips(d, percent, n + 1) == (if h0 {
            flips(d1, percent, n).0 + 1
        } else {
            flips(d1, percent, n).0
        }, flips(d1, percent, n).1));
        assert(flips(d, percent, n) == (if h0 {
            flips(d1, percent, (n - 1) as nat).0 + 1
        } else {
            flips(d1, percent, (n - 1) as nat).0
        }, flips(d1, percent, (n - 1) as nat).1));
    } else {
        assert(flips(d1, percent, 0) == (0nat, d1));
        assert(flips(d, percent, 1) == (if h0 {
            1nat
        } else {
            0nat
        }, d1));
    }
}

impl Dice {
    pub fn new(rng: Rng, preset_flips: Vec<bool>) -> (d: Self)
        ensures
            d.rng == rng,
            d.preset_flips@ == preset_flips@,
            d.flip_cursor == 0,
    {
        Dice { rng, preset_flips, flip_cursor: 0 }
    }

    /// A flip with `percent` chance of heads: the next preset while any is
    /// left, otherwise the generator.
    pub fn flip(&mut self, percent: i32) -> (heads: bool)
        requires
            uses_preset(old(self)@) || can_draw(old(self)@, 1),
        ensures
            (heads, final(self)@) == flip_step(old(self)@, percent),
    {
        if self.flip_cursor < self.preset_flips.len() {
            let value = self.preset_flips[self.flip_cursor];
            self.flip_cursor = self.flip_cursor + 1;
            return value;
        }
        self.rng.flip_percent(percent)
    }

    /// A roll in `0..=range` (0 when the range is empty); a preset roll gives
    /// the middle of the range.
    pub fn roll_inclusive(&mut self, range: i32) -> (r: i32)
        requires
            range <= 0 || uses_preset(old(self)@) || can_draw(old(self)@, 1),
        ensures
            (r, final(self)@) == roll_step(old(self)@, range),
            0 <= r <= if range > 0 {
                range as int
            } else {
                0
            },
    {
        if range <= 0 {
            return 0;
        }
        if self.flip_cursor < self.preset_flips.len() {
            self.flip_cursor = self.flip_cursor + 1;
            return range / 2;
        }
        let bound: u32 = range as u32 + 1;
        let v = self.rng.below(bound);
        v as i32
    }
}

} // verus!
