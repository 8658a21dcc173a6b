//! State hashing for replays, transposition tables and clone verification.
//!
//! The hash is FNV-1a (64 bit) over the canonical JSON encoding of a value;
//! the encoding itself is produced by the embedding layer, this module hashes
//! the bytes and renders hashes as hex.

use vstd::prelude::*;
use vstd::wrapping::u64_specs::wrapping_mul;

verus! {

pub const FNV_OFFSET: u64 = 0xcbf2_9ce4_8422_2325;
pub const FNV_PRIME: u64 = 0x0000_0100_0000_01B3;

/// FNV-1a over `bytes`: start at the offset basis, then for every byte
/// xor it in and multiply by the FNV prime (mod 2^64).
pub open spec fn fnv(bytes: Seq<u8>) -> u64
    decreases bytes.len(),
{
    if bytes.len() == 0 {
        FNV_OFFSET
    } else {
        wrapping_mul(fnv(bytes.drop_last()) ^ (bytes.last() as u64), FNV_PRIME)
    }
}

pub fn fnv1a64(bytes: &[u8]) -> (h: u64)
    ensures
        h == fnv(bytes@),
{
    let mut hash = FNV_OFFSET;
    let mut i: usize = 0;
    while i < bytes.len()
        invariant
            i <= bytes@.len(),
            hash == fnv(bytes@.subrange(0, i as int)),
        decreases bytes.len() - i,
    {
        proof {
            let next = bytes@.subrange(0, i + 1);
            assert(next.drop_last() =~= bytes@.subrange(0, i as int));
        }
        hash = (hash ^ (bytes[i] as u64)).wrapping_mul(FNV_PRIME);
        i = i + 1;
    }
    assert(bytes@.subrange(0, bytes@.len() as int) =~= bytes@);
    hash
}

/// Lower-case hex digit of a nibble.
pub open spec fn hex_digit(n: u64) -> char {
    if n < 10 {
        (('0' as u64) + n) as char
    } else {
        (('a' as u64) + n - 10) as char
    }
}

/// The 16-digit, zero-padded, lower-case hex rendering of `h`
/// (most significant nibble first).
pub open spec fn hex16(h: u64) -> Seq<char> {
    Seq::new(16, |i: int| hex_digit((h >> ((4 * (15 - i)) as u64)) & 0xf))
}

fn nibble_text(n: u64) -> (s: &'static str)
    requires
        n < 16,
    ensures
        s@ == seq![hex_digit(n)],
{
    proof {
        reveal_strlit("0");
        reveal_strlit("1");
        reveal_strlit("2");
        reveal_strlit("3");
        reveal_strlit("4");
        reveal_strlit("5");
        reveal_strlit("6");
        reveal_strlit("7");
        reveal_strlit("8");
        reveal_strlit("9");
        reveal_strlit("a");
        reveal_strlit("b");
        reveal_strlit("c");
        reveal_strlit("d");
        reveal_strlit("e");
        reveal_strlit("f");
    }
    let s = match n {
        0 => "0",
        1 => "1",
        2 => "2",
        3 => "3",
        4 => "4",
        5 => "5",
        6 => "6",
        7 => "7",
        8 => "8",
        9 => "9",
        10 => "a",
        11 => "b",
        12 => "c",
        13 => "d",
        14 => "e",
        _ => "f",
    };
    assert(s@ =~= seq![hex_digit(n)]);
    s
}

/// `hash` as 16 lower-case, zero-padded hex digits, as
/// `format!("{hash:016x}")` writes it.
pub fn hex(hash: u64) -> (s: String)
    ensures
        s@ == hex16(hash),
{
    let mut s = String::new();
    let mut i: u64 = 0;
    while i < 16
        invariant
            i <= 16,
            s@ == hex16(hash).take(i as int),
        decreases 16 - i,
    {
        let shift: u64 = 4 * (15 - i);
        let nibble = (hash >> shift) & 0xf;
        assert(nibble < 16) by (bit_vector)
            requires
                nibble == (hash >> shift) & 0xf,
        ;
        s.append(nibble_text(nibble));
        assert(hex16(hash)[i as int] == hex_digit(nibble));
        assert(s@ =~= hex16(hash).take(i + 1));
        i = i + 1;
    }
    assert(hex16(hash).take(16) =~= hex16(hash));
    s
}

} // verus!
