//! Deterministic RNG for the simulator.
//!
//! The client's RNG is not observable from the data this project may use, so
//! the generator is simulator-defined: xoshiro256** seeded through splitmix64.
//! What *is* sourced is the coin-flip model, `H = 50 + SP` percent heads
//! (wiki.gg `Sanity`, `Clash`), which `flip_percent` implements.

use vstd::prelude::*;
use vstd::wrapping::u64_specs::{wrapping_add, wrapping_mul};

verus! {

pub const GOLDEN_GAMMA: u64 = 0x9E37_79B9_7F4A_7C15;
pub const MIX_1: u64 = 0xBF58_476D_1CE4_E5B9;
pub const MIX_2: u64 = 0x94D0_49BB_1331_11EB;

/// `x.rotate_left(k)` for `0 < k < 64`.
pub open spec fn rotl(x: u64, k: u64) -> u64 {
    (x << k) | (x >> (64 - k as u64))
}

/// The splitmix64 output for the already advanced counter `z`.
pub open spec fn splitmix_mix(z: u64) -> u64 {
    let z1 = wrapping_mul(z ^ (z >> 30u64), MIX_1);
    let z2 = wrapping_mul(z1 ^ (z1 >> 27u64), MIX_2);
    z2 ^ (z2 >> 31u64)
}

/// The generator state built from `seed`: four consecutive splitmix64 outputs.
pub open spec fn seeded_state(seed: u64) -> [u64; 4] {
    let a = wrapping_add(seed, GOLDEN_GAMMA);
    let b = wrapping_add(a, GOLDEN_GAMMA);
    let c = wrapping_add(b, GOLDEN_GAMMA);
    let d = wrapping_add(c, GOLDEN_GAMMA);
    [splitmix_mix(a), splitmix_mix(b), splitmix_mix(c), splitmix_mix(d)]
}

/// The xoshiro256** output for state `s`.
pub open spec fn xoshiro_output(s: [u64; 4]) -> u64 {
    wrapping_mul(rotl(wrapping_mul(s[1], 5), 7), 9)
}

/// The xoshiro256** state that follows `s`.
pub open spec fn xoshiro_step(s: [u64; 4]) -> [u64; 4] {
    let t = s[1] << 17u64;
    let s2 = s[2] ^ s[0];
    let s3 = s[3] ^ s[1];
    let s1 = s[1] ^ s2;
    let s0 = s[0] ^ s3;
    [s0, s1, s2 ^ t, rotl(s3, 45)]
}

/// `((out >> 32) * bound) >> 32`: Lemire's multiply-shift onto `[0, bound)`.
pub open spec fn scale_below(out: u64, bound: u32) -> u32 {
    (((out >> 32u64) as nat * bound as nat) / 0x1_0000_0000) as u32
}

/// `percent` clamped into 0..=100.
pub open spec fn clamp_percent(percent: i32) -> int {
    if percent < 0 {
        0
    } else if percent > 100 {
        100
    } else {
        percent as int
    }
}

/// Heads chance in percent: `H = 50 + SP`, clamped into 0..=100.
pub open spec fn heads_chance_of(sp: i32) -> int {
    let h = 50 + sp;
    if h < 0 {
        0
    } else if h > 100 {
        100
    } else {
        h
    }
}

#[derive(Clone, Debug, PartialEq, Eq)]
pub struct Rng {
    pub(crate) state: [u64; 4],
    pub(crate) draw_count: u64,
}

fn rotate(x: u64, k: u64) -> (r: u64)
    requires
        0 < k < 64,
    ensures
        r == rotl(x, k),
{
    (x << k) | (x >> (64 - k))
}

fn splitmix64(x: &mut u64) -> (r: u64)
    ensures
        *final(x) == wrapping_add(*old(x), GOLDEN_GAMMA),
        r == splitmix_mix(*final(x)),
{
    *x = x.wrapping_add(GOLDEN_GAMMA);
    let mut z = *x;
    z = (z ^ (z >> 30)).wrapping_mul(MIX_1);
    z = (z ^ (z >> 27)).wrapping_mul(MIX_2);
    z ^ (z >> 31)
}

impl Rng {
    /// The four words of generator state.
    pub closed spec fn words(&self) -> [u64; 4] {
        self.state
    }

    /// How many values have been drawn since seeding.
    pub closed spec fn draws(&self) -> u64 {
        self.draw_count
    }

    /// Rebuild a generator from its serialised parts.
    pub fn from_parts(state: [u64; 4], draw_count: u64) -> (r: Self)
        ensures
            r.words() == state,
            r.draws() == draw_count,
    {
        Rng { state, draw_count }
    }

    /// The generator state, for serialisation.
    pub fn state_words(&self) -> (r: [u64; 4])
        ensures
            r == self.words(),
    {
        self.state
    }

    pub fn from_seed(seed: u64) -> (r: Self)
        ensures
            r.words() == seeded_state(seed),
            r.draws() == 0,
    {
        let mut s = seed;
        let a = splitmix64(&mut s);
        let b = splitmix64(&mut s);
        let c = splitmix64(&mut s);
        let d = splitmix64(&mut s);
        Rng { state: [a, b, c, d], draw_count: 0 }
    }

    pub fn draw_count(&self) -> (n: u64)
        ensures
            n == self.draws(),
    {
        self.draw_count
    }

    pub fn next_u64(&mut self) -> (r: u64)
        requires
            old(self).draws() < u64::MAX,
        ensures
            r == xoshiro_output(old(self).words()),
            final(self).words() == xoshiro_step(old(self).words()),
            final(self).draws() == old(self).draws() + 1,
    {
        let s0 = self.state[0];
        let s1 = self.state[1];
        let s2 = self.state[2];
        let s3 = self.state[3];
        let result = rotate(s1.wrapping_mul(5), 7).wrapping_mul(9);
        let t = s1 << 17;
        let n2 = s2 ^ s0;
        let n3 = s3 ^ s1;
        let n1 = s1 ^ n2;
        let n0 = s0 ^ n3;
        self.state = [n0, n1, n2 ^ t, rotate(n3, 45)];
        self.draw_count = self.draw_count + 1;
        result
    }

    /// Uniform integer in `[0, bound)`; `bound` must be non-zero.
    pub fn below(&mut self, bound: u32) -> (r: u32)
        requires
            bound > 0,
            old(self).draws() < u64::MAX,
        ensures
            r == scale_below(xoshiro_output(old(self).words()), bound),
            r < bound,
            final(self).words() == xoshiro_step(old(self).words()),
            final(self).draws() == old(self).draws() + 1,
    {
        let out = self.next_u64();
        let high = out >> 32;
        assert(high < 0x1_0000_0000) by (bit_vector)
            requires
                high == out >> 32u64,
        ;
        let b = bound as u64;
        assert(high * b < 0x1_0000_0000 * b) by (nonlinear_arith)
            requires
                high < 0x1_0000_0000,
                b > 0,
        ;
        let product = high * b;
        let r = product >> 32;
        assert(r == product / 0x1_0000_0000) by (bit_vector)
            requires
                r == product >> 32u64,
        ;
        assert(r < b) by (nonlinear_arith)
            requires
                r == product / 0x1_0000_0000,
                product < 0x1_0000_0000 * b,
        ;
        r as u32
    }

    /// A coin flip with `percent` (clamped into 0..=100) chance of heads.
    pub fn flip_percent(&mut self, percent: i32) -> (heads: bool)
        requires
            old(self).draws() < u64::MAX,
        ensures
            heads == (scale_below(xoshiro_output(old(self).words()), 100) < clamp_percent(percent)),
            final(self).words() == xoshiro_step(old(self).words()),
            final(self).draws() == old(self).draws() + 1,
    {
        let p: u32 = if percent < 0 {
            0
        } else if percent > 100 {
            100
        } else {
            percent as u32
        };
        self.below(100) < p
    }
}

/// Heads chance in percent: `H = 50 + SP` (wiki.gg `Sanity`).
pub fn heads_chance(sp: i32) -> (h: i32)
    ensures
        h == heads_chance_of(sp),
{
    let h: i64 = 50 + sp as i64;
    if h < 0 {
        0
    } else if h > 100 {
        100
    } else {
        h as i32
    }
}

/// A flip at 0% never lands heads and a flip at 100% always does, whatever
/// the generator state.
pub proof fn flip_bounds_are_exact(s: [u64; 4], percent: i32)
    ensures
        percent <= 0 ==> !(scale_below(xoshiro_output(s), 100) < clamp_percent(percent)),
        percent >= 100 ==> scale_below(xoshiro_output(s), 100) < clamp_percent(percent),
{
    let out = xoshiro_output(s);
    let high = out >> 32u64;
    assert(high < 0x1_0000_0000) by (bit_vector)
        requires
            high == out >> 32u64,
    ;
    assert((high as nat * 100nat) / 0x1_0000_0000 < 100) by (nonlinear_arith)
        requires
            high < 0x1_0000_0000,
    ;
}

/// Two generators built from the same seed produce the same stream: the
/// state after seeding, and every draw, depend on the seed alone.
pub proof fn same_seed_same_stream(a: Rng, b: Rng, seed: u64)
    requires
        a.words() == seeded_state(seed),
        b.words() == seeded_state(seed),
    ensures
        xoshiro_output(a.words()) == xoshiro_output(b.words()),
        xoshiro_step(a.words()) == xoshiro_step(b.words()),
{
}

/// The generator words after `n` draws from `w`.
pub open spec fn stepped(w: [u64; 4], n: nat) -> [u64; 4]
    decreases n,
{
    if n == 0 {
        w
    } else {
        xoshiro_step(stepped(w, (n - 1) as nat))
    }
}

/// `next_u64`, `below` and `flip_percent` each move a generator by exactly
/// one draw.  So a generator seeded with `seed` that then went through `n`
/// such calls (`rs[i]` before call `i`) reports `n` draws and stands `n`
/// steps into the seed's stream.
pub proof fn draw_count_counts_the_calls(seed: u64, rs: Seq<Rng>)
    requires
        rs.len() >= 1,
        rs[0].words() == seeded_state(seed),
        rs[0].draws() == 0,
        forall|i: int|
            0 <= i < rs.len() - 1 ==> (#[trigger] rs[i + 1]).words() == xoshiro_step(rs[i].words())
                && rs[i + 1].draws() == rs[i].draws() + 1,
    ensures
        forall|i: int|
            0 <= i < rs.len() ==> (#[trigger] rs[i]).draws() == i && rs[i].words() == stepped(
                seeded_state(seed),
                i as nat,
            ),
    decreases rs.len(),
{
    if rs.len() > 1 {
        let front = rs.drop_last();
        assert forall|i: int| 0 <= i < front.len() - 1 implies (#[trigger] front[i + 1]).words() == xoshiro_step(
            front[i].words(),
        ) && front[i + 1].draws() == front[i].draws() + 1 by {
            assert(front[i + 1] == rs[i + 1]);
            assert(front[i] == rs[i]);
        }
        draw_count_counts_the_calls(seed, front);
        assert forall|i: int| 0 <= i < rs.len() implies (#[trigger] rs[i]).draws() == i && rs[i].words() == stepped(
            seeded_state(seed),
            i as nat,
        ) by {
            if i < rs.len() - 1 {
                assert(rs[i] == front[i]);
            } else {
                assert(rs[i - 1] == front[i - 1]);
                assert(rs[(i - 1) + 1] == rs[i]);
            }
        }
    }
}

} // verus!
