use lcb_core::damage::level_clash_bonus;
use lcb_core::hash::{fnv1a64, hex};
use lcb_core::rng::{heads_chance, Rng};

#[test]
fn deterministic_for_same_seed() {
    let mut a = Rng::from_seed(42);
    let mut b = Rng::from_seed(42);
    for _ in 0..100 {
        assert_eq!(a.next_u64(), b.next_u64());
    }
}

#[test]
fn different_seeds_diverge() {
    let mut a = Rng::from_seed(1);
    let mut b = Rng::from_seed(2);
    assert_ne!(a.next_u64(), b.next_u64());
}

#[test]
fn flip_bounds_are_exact() {
    let mut rng = Rng::from_seed(7);
    for _ in 0..1000 {
        assert!(!rng.flip_percent(0));
        assert!(rng.flip_percent(100));
    }
}

#[test]
fn heads_chance_matches_source() {
    assert_eq!(heads_chance(0), 50);
    assert_eq!(heads_chance(45), 95);
    assert_eq!(heads_chance(-45), 5);
}

#[test]
fn clash_level_bonus_is_one_per_three_levels() {
    assert_eq!(level_clash_bonus(4, 0), 1);
    assert_eq!(level_clash_bonus(6, 0), 2);
    assert_eq!(level_clash_bonus(2, 0), 0);
    assert_eq!(level_clash_bonus(0, 5), 0);
}

#[test]
fn hash_is_stable() {
    assert_eq!(fnv1a64(b"abc"), fnv1a64(b"abc"));
    assert_ne!(fnv1a64(b"abc"), fnv1a64(b"abd"));
}

#[test]
fn hash_chain_is_hex_encoded() {
    let value = fnv1a64(b"abc");
    assert_eq!(hex(value).len(), 16);
}

#[test]
fn fnv_of_empty_input_is_the_offset_basis() {
    assert_eq!(fnv1a64(b""), 0xcbf2_9ce4_8422_2325);
}

#[test]
fn fnv_matches_published_vector() {
    // FNV-1a 64 of "a" is 0xaf63dc4c8601ec8c.
    assert_eq!(fnv1a64(b"a"), 0xaf63_dc4c_8601_ec8c);
}

#[test]
fn hex_is_zero_padded_lower_case() {
    assert_eq!(hex(0), "0000000000000000");
    assert_eq!(hex(0xAB), "00000000000000ab");
    assert_eq!(hex(u64::MAX), "ffffffffffffffff");
}

#[test]
fn draw_count_advances_once_per_draw() {
    let mut rng = Rng::from_seed(5);
    assert_eq!(rng.draw_count(), 0);
    rng.next_u64();
    rng.below(10);
    rng.flip_percent(50);
    assert_eq!(rng.draw_count(), 3);
}

#[test]
fn below_stays_in_range() {
    let mut rng = Rng::from_seed(11);
    for bound in 1..200u32 {
        assert!(rng.below(bound) < bound);
    }
}

#[test]
fn heads_chance_clamps_outside_sanity_range() {
    assert_eq!(heads_chance(80), 100);
    assert_eq!(heads_chance(-80), 0);
    assert_eq!(heads_chance(i32::MIN), 0);
}

#[test]
fn state_round_trips_through_parts() {
    let mut a = Rng::from_seed(3);
    a.next_u64();
    let mut b = Rng::from_parts(a.state_words(), a.draw_count());
    assert_eq!(a.next_u64(), b.next_u64());
    assert_eq!(a.draw_count(), b.draw_count());
}

#[test]
fn level_bonus_is_one_sided() {
    assert_eq!(level_clash_bonus(0, 9), 0);
    assert_eq!(level_clash_bonus(9, 0), 3);
    assert_eq!(level_clash_bonus(-3, -9), 2);
}
