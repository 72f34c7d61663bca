//! The integers behind the fake embedder's vectors.

use crate::text;
use vstd::prelude::*;

verus! {

broadcast use vstd::seq::group_seq_axioms;

/// FNV-1a over `bytes`, from the 64-bit offset basis and by the prime `0x0100_0193`.
pub open spec fn hash(bytes: Seq<u8>) -> u64
    decreases bytes.len(),
{
    if bytes.len() == 0 {
        0xcbf2_9ce4_8422_2325
    } else {
        (hash(bytes.drop_last()) ^ (bytes.last() as u64)).wrapping_mul(0x0100_0193)
    }
}

/// FNV-1a hash (fake-vector seeding).
pub fn fnv1a(text: &str) -> (r: u64)
    ensures
        r == hash(vstd::utf8::encode_utf8(text@)),
{
    let bytes = text.as_bytes();
    let mut h: u64 = 0xcbf2_9ce4_8422_2325;
    let mut i: usize = 0;
    assert(bytes@.take(0) =~= Seq::empty());
    while i < bytes.len()
        invariant
            0 <= i <= bytes@.len(),
            h == hash(bytes@.take(i as int)),
        decreases bytes@.len() - i,
    {
        assert(bytes@.take(i + 1).drop_last() =~= bytes@.take(i as int));
        h = (h ^ (bytes[i] as u64)).wrapping_mul(0x0100_0193);
        i += 1;
    }
    assert(bytes@.take(i as int) =~= bytes@);
    h
}

/// The state after `seed`.
pub open spec fn advance(seed: u64) -> u64 {
    seed.wrapping_add(0x9e37_79b9_7f4a_7c15)
}

/// The number that a state gives.
pub open spec fn mix(state: u64) -> u64 {
    let a = (state ^ (state >> 30)).wrapping_mul(0xbf58_476d_1ce4_e5b9);
    let b = (a ^ (a >> 27)).wrapping_mul(0x94d0_49bb_1331_11eb);
    b ^ (b >> 31)
}

/// The next number of a splitmix64 stream.
pub fn splitmix64(seed: &mut u64) -> (r: u64)
    ensures
        *final(seed) == advance(*old(seed)),
        r == mix(advance(*old(seed))),
{
    *seed = seed.wrapping_add(0x9e37_79b9_7f4a_7c15);
    let s: u64 = *seed;
    let a: u64 = (s ^ (s >> 30)).wrapping_mul(0xbf58_476d_1ce4_e5b9);
    let b: u64 = (a ^ (a >> 27)).wrapping_mul(0x94d0_49bb_1331_11eb);
    b ^ (b >> 31)
}

/// The state `n` steps behind `seed`.
pub open spec fn state_after(seed: u64, n: nat) -> u64
    decreases n,
{
    if n == 0 {
        seed
    } else {
        advance(state_after(seed, (n - 1) as nat))
    }
}

/// The first `dim` numbers of the stream seeded with `text`'s hash.
pub open spec fn numbers(text: Seq<char>, dim: nat) -> Seq<u64> {
    Seq::new(
        dim,
        |i: int| mix(state_after(hash(vstd::utf8::encode_utf8(text)), (i + 1) as nat)),
    )
}

/// The first `dim` numbers of the stream seeded with `text`'s hash.
pub fn fake_numbers(text: &str, dim: usize) -> (r: Vec<u64>)
    ensures
        r@ == numbers(text@, dim as nat),
{
    let ghost start = hash(vstd::utf8::encode_utf8(text@));
    let mut seed: u64 = fnv1a(text);
    let mut out: Vec<u64> = Vec::new();
    while out.len() < dim
        invariant
            out@.len() <= dim,
            seed == state_after(start, out@.len()),
            forall|i: int|
                0 <= i < out@.len() ==> out@[i] == mix(state_after(start, (i + 1) as nat)),
        decreases dim - out@.len(),
    {
        let n: u64 = splitmix64(&mut seed);
        out.push(n);
    }
    out
}

/// A text has one stream of numbers, as long as asked for: a narrower vector's are the first of a
/// wider one's.
pub proof fn narrower_streams_are_prefixes(text: Seq<char>, narrow: nat, wide: nat)
    requires
        narrow <= wide,
    ensures
        numbers(text, narrow).len() == narrow,
        numbers(text, narrow) == numbers(text, wide).take(narrow as int),
{
    assert(numbers(text, narrow) =~= numbers(text, wide).take(narrow as int));
}

} // verus!
