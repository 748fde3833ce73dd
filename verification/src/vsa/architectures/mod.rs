//! Implementation of different architectures.

pub mod bits;
mod bsc;
pub mod laws;
mod map;
pub mod rng;

use vstd::prelude::*;

use self::bits::max_bits;
use self::rng::SharedRng;
use super::model::{agreement, permuted};
use super::Size;

pub use self::bsc::{majority_with_tiebreaker, BinarySpatterCode, BitCounts};
pub use self::map::{MultiplyAddPermute, PlusMinusOnes};

verus! {

/// A resolution of a data type.
pub trait Resolution: Copy + std::fmt::Debug {

}

/// A resolution of a data type limited to (positive and negative) integers.
pub trait IntResolution: Resolution {

}

/// A resolution of a data type limited to unsigned integers.
pub trait UIntResolution: Resolution {

}

impl Resolution for u8 {

}

impl Resolution for u16 {

}

impl Resolution for u32 {

}

impl Resolution for u64 {

}

impl Resolution for usize {

}

impl Resolution for i8 {

}

impl Resolution for i16 {

}

impl Resolution for i32 {

}

impl Resolution for i64 {

}

impl Resolution for isize {

}

impl UIntResolution for u8 {

}

impl UIntResolution for u16 {

}

impl UIntResolution for u32 {

}

impl UIntResolution for u64 {

}

impl UIntResolution for usize {

}

impl IntResolution for i8 {

}

impl IntResolution for i16 {

}

impl IntResolution for i32 {

}

impl IntResolution for i64 {

}

impl IntResolution for isize {

}

/// A copy of a vector of plain values.
pub(crate) fn copy_vec<T: Copy>(v: &Vec<T>) -> (r: Vec<T>)
    ensures
        r@ == v@,
{
    let mut out: Vec<T> = Vec::new();
    let mut i: usize = 0;
    while i < v.len()
        invariant
            i <= v@.len(),
            out@ == v@.take(i as int),
        decreases v@.len() - i,
    {
        out.push(v[i]);
        assert(v@.take(i as int).push(v@[i as int]) =~= v@.take(i + 1));
        i = i + 1;
    }
    assert(v@.take(v@.len() as int) =~= v@);
    out
}

/// An underlying data type: a sequence of integer elements.
#[allow(clippy::len_without_is_empty)]
pub trait Storage: Sized + std::fmt::Debug {
    /// The elements, in order.
    spec fn values(&self) -> Seq<int>;

    /// The length of the storage.
    fn len(&self) -> (n: usize)
        ensures
            n == self.values().len(),
    ;

    /// The element at `index`.
    fn value_at(&self, index: usize) -> (v: i128)
        requires
            index < self.values().len(),
        ensures
            v == self.values()[index as int],
    ;

    /// A copy of the storage.
    fn duplicate(&self) -> (r: Self)
        ensures
            r.values() == self.values(),
    ;
}

/// A storage type used for "standard" vector content: each element is one of two
/// letters, the positive and the negative one.
pub trait PrimaryStorage: Storage {
    /// The element that stands for a positive (`true`) or negative (`false`) sign.
    spec fn letter(positive: bool) -> int;

    /// Create random data with the specific size.
    fn random(rng: &SharedRng, size: usize) -> (r: Self)
        requires
            size <= max_bits(),
        ensures
            r.values().len() == size,
            forall|i: int|
                0 <= i < size ==> #[trigger] r.values()[i] == Self::letter(true) || r.values()[i]
                    == Self::letter(false),
    ;

    /// Build from signs: element `i` is the positive letter where `signs[i]` holds.
    fn from_signs(signs: &[bool]) -> (r: Self)
        requires
            signs@.len() <= max_bits(),
        ensures
            r.values() == Seq::new(signs@.len(), |i: int| Self::letter(signs@[i])),
    ;

    /// Every element is one of the two letters.
    proof fn lemma_letters(&self)
        ensures
            forall|i: int|
                0 <= i < self.values().len() ==> #[trigger] self.values()[i] == Self::letter(true)
                    || self.values()[i] == Self::letter(false),
            Self::letter(true) != Self::letter(false),
    ;
}

/// A vector symbolic architecture.
pub trait VectorSymbolicArchitecture: Clone + std::fmt::Debug {
    /// The underlying storage of a single vector.
    type Storage: PrimaryStorage;

    /// The underlying storage of a multi vector.
    type Accumulator: Storage;

    /// Whether vectors of `n` elements are valid for the architecture.
    spec fn spec_valid_size(n: nat) -> bool;

    /// Valid sizes fit into a vector.
    proof fn lemma_valid_size(n: nat)
        requires
            Self::spec_valid_size(n),
        ensures
            n <= max_bits(),
    ;

    /// Checks if a size of a vector is valid for the architecture.
    fn valid_size<S: Size>(size: S) -> (b: bool)
        ensures
            b == Self::spec_valid_size(size.spec_size()),
    ;

    /// Create a random vector in the architecture.
    fn random(&self, size: usize) -> (r: Self::Storage)
        requires
            Self::spec_valid_size(size as nat),
        ensures
            r.values().len() == size,
    ;

    /// Whether an accumulator is consistent in itself.
    spec fn acc_wf(acc: Self::Accumulator) -> bool;

    /// How many vectors an accumulator holds at most, which bounds its elements.
    spec fn weight(acc: Self::Accumulator) -> nat;

    /// The largest weight an accumulator can hold.
    spec fn max_weight() -> nat;

    /// The largest weight is far from small.
    proof fn lemma_max_weight()
        ensures
            Self::max_weight() >= 0x7fff_ffff,
    ;

    /// Whether `b` is a copy of the accumulator `a`: the two hold the same counts.
    spec fn acc_copy(a: Self::Accumulator, b: Self::Accumulator) -> bool;

    /// A copy of an accumulator stands wherever the accumulator it was copied from stands.
    proof fn lemma_acc_copy(a: Self::Accumulator, b: Self::Accumulator)
        requires
            Self::acc_copy(a, b),
        ensures
            a.values() == b.values(),
            Self::acc_wf(a) == Self::acc_wf(b),
            Self::weight(a) == Self::weight(b),
            forall|r: Seq<int>|
                #![trigger Self::normalizes_to(a, r)]
                #![trigger Self::normalizes_to(b, r)]
                Self::normalizes_to(a, r) == Self::normalizes_to(b, r),
            forall|c: Seq<int>, x: Self::Accumulator|
                #![trigger Self::binds_accumulator(a, c, x)]
                #![trigger Self::binds_accumulator(b, c, x)]
                Self::binds_accumulator(a, c, x) == Self::binds_accumulator(b, c, x),
            forall|c: Seq<int>, x: Self::Accumulator|
                #![trigger Self::bundles_to(a, c, x)]
                #![trigger Self::bundles_to(b, c, x)]
                Self::bundles_to(a, c, x) == Self::bundles_to(b, c, x),
            forall|x: Self::Accumulator, y: Self::Accumulator|
                #![trigger Self::merges_to(a, x, y)]
                #![trigger Self::merges_to(b, x, y)]
                Self::merges_to(a, x, y) == Self::merges_to(b, x, y),
            forall|x: Self::Accumulator, y: Self::Accumulator|
                #![trigger Self::merges_to(x, a, y)]
                #![trigger Self::merges_to(x, b, y)]
                Self::merges_to(x, a, y) == Self::merges_to(x, b, y),
    ;

    /// Copy an accumulator.
    fn duplicate_accumulator(acc: &Self::Accumulator) -> (r: Self::Accumulator)
        ensures
            Self::acc_copy(*acc, r),
    ;

    /// Whether `r` is a possible normalization of the accumulator.
    spec fn normalizes_to(acc: Self::Accumulator, r: Seq<int>) -> bool;

    /// Normalize an accumulator.
    fn normalize(&self, storage: Self::Accumulator) -> (r: Self::Storage)
        requires
            Self::acc_wf(storage),
            storage.values().len() <= max_bits(),
        ensures
            r.values().len() == storage.values().len(),
            Self::normalizes_to(storage, r.values()),
    ;

    /// Whether `acc` is the accumulator of the single vector `s`.
    spec fn denormalizes_to(s: Seq<int>, acc: Self::Accumulator) -> bool;

    /// Normalizing the accumulator of a single vector gives that vector back.
    proof fn lemma_normalize_denormalized(s: Self::Storage, acc: Self::Accumulator, r: Seq<int>)
        requires
            Self::denormalizes_to(s.values(), acc),
            Self::normalizes_to(acc, r),
        ensures
            r == s.values(),
    ;

    /// Cast a normalized vector to an unnormalized accumulator.
    fn denormalize(storage: Self::Storage) -> (r: Self::Accumulator)
        ensures
            Self::denormalizes_to(storage.values(), r),
            Self::acc_wf(r),
            Self::weight(r) <= 1,
            r.values().len() == storage.values().len(),
    ;

    /// Permute a vector.
    fn permute(a: &mut Self::Storage, shifts: usize)
        ensures
            final(a).values() == permuted(old(a).values(), shifts as nat),
    ;

    /// The elementwise binding of two vectors.
    spec fn spec_bind(a: Seq<int>, b: Seq<int>) -> Seq<int>;

    /// Bind two vectors.
    fn bind(a: &mut Self::Storage, b: &Self::Storage)
        requires
            old(a).values().len() == b.values().len(),
        ensures
            final(a).values() == Self::spec_bind(old(a).values(), b.values()),
            final(a).values().len() == old(a).values().len(),
    ;

    /// Whether `r` is the accumulator `acc` bound with the vector `b`.
    spec fn binds_accumulator(acc: Self::Accumulator, b: Seq<int>, r: Self::Accumulator) -> bool;

    /// Bind an accumulator with a vector.
    fn bind_with_accumulator(a: &mut Self::Accumulator, b: &Self::Storage)
        requires
            Self::acc_wf(*old(a)),
            old(a).values().len() == b.values().len(),
        ensures
            Self::binds_accumulator(*old(a), b.values(), *final(a)),
            Self::acc_wf(*final(a)),
            Self::weight(*final(a)) == Self::weight(*old(a)),
            final(a).values().len() == old(a).values().len(),
    ;

    /// Whether `r` is the accumulator `acc` with the vector `v` added.
    spec fn bundles_to(acc: Self::Accumulator, v: Seq<int>, r: Self::Accumulator) -> bool;

    /// Bundling a vector with itself and normalizing gives the vector back.
    proof fn lemma_bundle_idempotent(
        s: Self::Storage,
        a0: Self::Accumulator,
        a1: Self::Accumulator,
        r: Seq<int>,
    )
        requires
            Self::denormalizes_to(s.values(), a0),
            Self::bundles_to(a0, s.values(), a1),
            Self::normalizes_to(a1, r),
        ensures
            r == s.values(),
    ;

    /// Bundling two vectors gives the same accumulator in either order.
    proof fn lemma_bundle_commutative(
        a: Seq<int>,
        b: Seq<int>,
        a0: Self::Accumulator,
        a1: Self::Accumulator,
        b0: Self::Accumulator,
        b1: Self::Accumulator,
    )
        requires
            a.len() == b.len(),
            Self::denormalizes_to(a, a0),
            Self::bundles_to(a0, b, a1),
            Self::denormalizes_to(b, b0),
            Self::bundles_to(b0, a, b1),
        ensures
            Self::acc_copy(a1, b1),
    ;

    /// Bundle an accumulator with a vector.
    fn bundle(&self, accumulator: &mut Self::Accumulator, vector: &Self::Storage)
        requires
            Self::acc_wf(*old(accumulator)),
            old(accumulator).values().len() == vector.values().len(),
            Self::weight(*old(accumulator)) < Self::max_weight(),
        ensures
            Self::bundles_to(*old(accumulator), vector.values(), *final(accumulator)),
            Self::acc_wf(*final(accumulator)),
            Self::weight(*final(accumulator)) <= Self::weight(*old(accumulator)) + 1,
            final(accumulator).values().len() == old(accumulator).values().len(),
    ;

    /// Whether `r` is the sum of the accumulators `a` and `b`.
    spec fn merges_to(a: Self::Accumulator, b: Self::Accumulator, r: Self::Accumulator) -> bool;

    /// Bundle an accumulator with another accumulator.
    fn bundle_with_accumulator(&self, accumulator: &mut Self::Accumulator, vector: &Self::Accumulator)
        requires
            Self::acc_wf(*old(accumulator)),
            Self::acc_wf(*vector),
            old(accumulator).values().len() == vector.values().len(),
            Self::weight(*old(accumulator)) + Self::weight(*vector) <= Self::max_weight(),
        ensures
            Self::merges_to(*old(accumulator), *vector, *final(accumulator)),
            Self::acc_wf(*final(accumulator)),
            Self::weight(*final(accumulator)) <= Self::weight(*old(accumulator)) + Self::weight(
                *vector,
            ),
            final(accumulator).values().len() == old(accumulator).values().len(),
    ;

    /// The dot product of two vectors taken as `+1`/`-1` vectors; their cosine
    /// similarity is this number divided by the length.
    fn dot(a: &Self::Storage, b: &Self::Storage) -> (d: i64)
        requires
            a.values().len() == b.values().len(),
            a.values().len() <= max_bits(),
        ensures
            d == agreement(a.values(), b.values()),
    ;
}

/// A vector symbolic architecture where the bind operation is self-inverse.
pub trait SelfInverseVectorSymbolicArchitecture: VectorSymbolicArchitecture {
    /// Binding twice with the same vector gives back the first vector.
    proof fn lemma_bind_self_inverse(a: Self::Storage, b: Self::Storage)
        requires
            a.values().len() == b.values().len(),
        ensures
            Self::spec_bind(Self::spec_bind(a.values(), b.values()), b.values()) == a.values(),
    ;
}

/// A vector symbolic architecture where the bind operation is not self-inverse.
pub trait NonSelfInverseVectorSymbolicArchitecture: VectorSymbolicArchitecture {
    /// The inverse of a vector under binding.
    spec fn spec_inverse(a: Seq<int>) -> Seq<int>;

    /// Inverse a vector.
    fn inverse(a: &mut Self::Storage)
        ensures
            final(a).values() == Self::spec_inverse(old(a).values()),
            final(a).values().len() == old(a).values().len(),
    ;
}

} // verus!
