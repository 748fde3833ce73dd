//! The seeded random number generator that architectures draw hypervectors from.

use rand::rngs::StdRng;
use rand::{RngExt, SeedableRng};
use std::sync::Arc;
use vstd::prelude::*;

use super::bits::{bit_values, max_bits, new_bits, push_bit, Bits};

verus! {

#[verifier::external_type_specification]
#[verifier::external_body]
pub struct ExStdRng(StdRng);

#[verifier::external_type_specification]
#[verifier::external_body]
pub struct ExRawRwLock<const RECURSIVE: bool>(parking_lot::RawRwLock<RECURSIVE>);

#[verifier::external_type_specification]
#[verifier::external_body]
#[verifier::reject_recursive_types(R)]
#[verifier::reject_recursive_types(T)]
pub struct ExRwLock<R, T: ?Sized>(lock_api::RwLock<R, T>);

/// A random number generator shared by all clones of an architecture.
pub type SharedRng = Arc<parking_lot::RwLock<StdRng>>;

/// `StdRng::seed_from_u64`: a generator seeded with `seed`.
#[verifier::external_body]
fn seeded(seed: u64) -> StdRng {
    StdRng::seed_from_u64(seed)
}

/// `RwLock::new`: a lock around the generator.
#[verifier::external_body]
fn new_lock(rng: StdRng) -> parking_lot::RwLock<StdRng> {
    parking_lot::RwLock::new(rng)
}

/// `RngExt::random::<u64>` on the locked generator: the next 64 random bits (the lock
/// is taken for writing while the word is drawn). Nothing is promised of the value.
#[verifier::external_body]
pub(crate) fn next_word(rng: &SharedRng) -> u64 {
    rng.write().random::<u64>()
}

/// `rand::random::<u64>`: a seed from the thread-local generator, which the system
/// seeds. Nothing is promised of the value.
#[verifier::external_body]
pub(crate) fn fresh_seed() -> u64 {
    rand::random::<u64>()
}

/// A shared generator seeded with `seed`.
pub fn shared_rng(seed: u64) -> SharedRng {
    Arc::new(new_lock(seeded(seed)))
}

/// The bits of `words`, lowest bit first, word after word: bit `i` is bit `i % 64`
/// of word `i / 64`. Of the last word only the bits needed are used.
pub fn bits_from_words(words: &Vec<u64>, size: usize) -> (v: Bits)
    requires
        size <= max_bits(),
        words@.len() == (size + 63) / 64,
    ensures
        bit_values(v).len() == size,
        forall|i: int|
            0 <= i < size ==> bit_values(v)[i] == (((words@[i / 64] >> ((i % 64) as u64)) & 1) == 1),
{
    let mut out = new_bits();
    let mut i: usize = 0;
    while i < size
        invariant
            i <= size,
            size <= max_bits(),
            words@.len() == (size + 63) / 64,
            bit_values(out).len() == i,
            forall|k: int|
                0 <= k < i ==> bit_values(out)[k] == (((words@[k / 64] >> ((k % 64) as u64)) & 1) == 1),
        decreases size - i,
    {
        assert(i / 64 < (size + 63) / 64) by (nonlinear_arith)
            requires
                i < size,
        ;
        let word = words[i / 64];
        let bit = ((word >> ((i % 64) as u64)) & 1) == 1;
        push_bit(&mut out, bit);
        i = i + 1;
    }
    out
}

/// `size` random bits: `(size + 63) / 64` words are drawn from the generator and
/// their bits are taken lowest bit first.
pub fn random_bits(rng: &SharedRng, size: usize) -> (v: Bits)
    requires
        size <= max_bits(),
    ensures
        bit_values(v).len() == size,
{
    let count = size / 64 + if size % 64 > 0 { 1 } else { 0 };
    let mut words: Vec<u64> = Vec::new();
    while words.len() < count
        invariant
            words@.len() <= count,
        decreases count - words@.len(),
    {
        words.push(next_word(rng));
    }
    assert(count == (size + 63) / 64);
    bits_from_words(&words, size)
}

} // verus!

verus! {

/// `Arc::clone`: another handle on the same generator.
#[verifier::external_body]
pub(crate) fn share_rng(rng: &SharedRng) -> SharedRng {
    rng.clone()
}

} // verus!
