//! Binary spatter codes: bits bound by exclusive or and bundled by majority vote.

use std::marker::PhantomData;
use vstd::prelude::*;

use super::bits::{
    bit_at, bit_len, bit_values, bits_equal, clone_bits, count_ones, count_true, max_bits,
    new_bits, push_bit, rotate_bits_right, rotated_right, xor_assign, Bits,
};
use super::rng::{fresh_seed, random_bits, share_rng, shared_rng, SharedRng};
use super::{
    copy_vec, PrimaryStorage, SelfInverseVectorSymbolicArchitecture, Storage, UIntResolution,
    VectorSymbolicArchitecture,
};
use crate::vsa::model::agreement;
use crate::vsa::Size;

verus! {

/// The element a bit stands for in a binary spatter code.
pub open spec fn bit_value(b: bool) -> int {
    if b {
        1
    } else {
        0
    }
}

/// A sequence of bits as elements.
pub open spec fn bit_seq_values(s: Seq<bool>) -> Seq<int> {
    Seq::new(s.len(), |i: int| bit_value(s[i]))
}

impl Storage for Bits {
    open spec fn values(&self) -> Seq<int> {
        bit_seq_values(bit_values(*self))
    }

    fn len(&self) -> (n: usize) {
        bit_len(self)
    }

    fn value_at(&self, index: usize) -> (v: i128) {
        if bit_at(self, index) {
            1
        } else {
            0
        }
    }

    fn duplicate(&self) -> (r: Self) {
        clone_bits(self)
    }
}

impl PrimaryStorage for Bits {
    open spec fn letter(positive: bool) -> int {
        bit_value(positive)
    }

    fn random(rng: &SharedRng, size: usize) -> (r: Self) {
        random_bits(rng, size)
    }

    fn from_signs(signs: &[bool]) -> (r: Self) {
        let mut out = new_bits();
        let mut i: usize = 0;
        while i < signs.len()
            invariant
                i <= signs@.len(),
                signs@.len() <= max_bits(),
                bit_values(out) == signs@.take(i as int),
            decreases signs@.len() - i,
        {
            push_bit(&mut out, signs[i]);
            assert(signs@.take(i as int).push(signs@[i as int]) =~= signs@.take(i + 1));
            i = i + 1;
        }
        assert(signs@.take(signs@.len() as int) =~= signs@);
        assert(out.values() =~= Seq::new(signs@.len(), |i: int| Self::letter(signs@[i])));
        out
    }

    proof fn lemma_letters(&self) {
    }
}

/// The agreement of two element sequences is their length less twice the number of
/// positions where they differ.
pub proof fn lemma_agreement_by_mismatches(a: Seq<int>, b: Seq<int>, x: Seq<bool>)
    requires
        a.len() == b.len(),
        x.len() == a.len(),
        forall|i: int| 0 <= i < a.len() ==> x[i] == (a[i] != b[i]),
    ensures
        agreement(a, b) == a.len() - 2 * count_true(x),
    decreases a.len(),
{
    if a.len() > 0 {
        lemma_agreement_by_mismatches(a.drop_last(), b.drop_last(), x.drop_last());
    }
}

proof fn lemma_count_true_bound(s: Seq<bool>)
    ensures
        count_true(s) <= s.len(),
    decreases s.len(),
{
    if s.len() > 0 {
        lemma_count_true_bound(s.drop_last());
    }
}

/// The positions where two bit sequences differ.
pub open spec fn mismatches(a: Seq<bool>, b: Seq<bool>) -> Seq<bool> {
    Seq::new(a.len(), |i: int| a[i] != b[i])
}

/// The dot product of two bit vectors of the same length: the length less twice the
/// number of differing positions.
pub(crate) fn bits_dot(a: &Bits, b: &Bits) -> (d: i64)
    requires
        bit_values(*a).len() == bit_values(*b).len(),
        bit_values(*a).len() <= max_bits(),
    ensures
        d == bit_values(*a).len() - 2 * count_true(mismatches(bit_values(*a), bit_values(*b))),
{
    let mut diff = clone_bits(a);
    xor_assign(&mut diff, b);
    let n = bit_len(a);
    let mismatch_count = count_ones(&diff);
    proof {
        assert(bit_values(diff) =~= mismatches(bit_values(*a), bit_values(*b)));
        lemma_count_true_bound(bit_values(diff));
    }
    n as i64 - 2 * (mismatch_count as i64)
}

/// Rotating the bits rotates their elements.
pub(crate) proof fn lemma_rotate_values(s: Seq<bool>, by: int, x: int, y: int)
    requires
        0 <= by <= s.len(),
    ensures
        Seq::new(rotated_right(s, by).len(), |i: int| if rotated_right(s, by)[i] { x } else { y })
            == rotated_right(Seq::new(s.len(), |i: int| if s[i] { x } else { y }), by),
{
    assert(Seq::new(rotated_right(s, by).len(), |i: int| if rotated_right(s, by)[i] { x } else { y })
        =~= rotated_right(Seq::new(s.len(), |i: int| if s[i] { x } else { y }), by));
}

/// Counts of set bits over the bundled vectors: element `i` is the number of bundled
/// vectors whose bit `i` is set, out of `total` vectors.
#[derive(Debug, Clone)]
pub struct BitCounts {
    ones: Vec<usize>,
    total: usize,
}

impl BitCounts {
    /// The number of bundled vectors.
    pub closed spec fn spec_total(&self) -> nat {
        self.total as nat
    }

    /// The number of bundled vectors.
    pub fn total(&self) -> (n: usize)
        ensures
            n == self.spec_total(),
    {
        self.total
    }
}

impl Storage for BitCounts {
    closed spec fn values(&self) -> Seq<int> {
        self.ones@.map_values(|c: usize| c as int)
    }

    fn len(&self) -> (n: usize) {
        self.ones.len()
    }

    fn value_at(&self, index: usize) -> (v: i128) {
        self.ones[index] as i128
    }

    fn duplicate(&self) -> (r: Self) {
        let r = BitCounts { ones: copy_vec(&self.ones), total: self.total };
        assert(r.values() =~= self.values());
        r
    }
}

/// Architecture based upon binary spatter codes.
#[derive(Debug)]
pub struct BinarySpatterCode<R: UIntResolution = u8> {
    resolution: PhantomData<R>,
    rng: SharedRng,
}

impl<R: UIntResolution> Clone for BinarySpatterCode<R> {
    fn clone(&self) -> Self {
        Self { resolution: PhantomData, rng: share_rng(&self.rng) }
    }
}

impl<R: UIntResolution> BinarySpatterCode<R> {
    /// Create a new architecture with a seed.
    pub fn new(seed: u64) -> Self {
        Self { resolution: PhantomData, rng: shared_rng(seed) }
    }
}

proof fn lemma_counts_values(acc: BitCounts)
    ensures
        acc.values().len() == acc.ones@.len(),
        forall|i: int| 0 <= i < acc.ones@.len() ==> #[trigger] acc.values()[i] == acc.ones@[i],
        acc.spec_total() == acc.total,
{
}

impl<R: UIntResolution> BinarySpatterCode<R> {
    /// What the relations of binary spatter codes mean, over the counts of an
    /// accumulator (`values`) and the number of vectors it holds (`spec_total`): an
    /// accumulator is well formed when no count exceeds the number of vectors;
    /// normalizing is a majority vote; a single vector is counted once; bundling a
    /// vector adds its bits to the counts; merging adds counts; binding with a vector
    /// turns the count `c` of each position where that vector's bit is set into
    /// `total - c`. (Merging is stated for accumulators of the same length, the only
    /// ones the library merges.)
    pub proof fn lemma_relations()
        ensures
            forall|acc: BitCounts| #[trigger] Self::acc_wf(acc) <==> (forall|i: int|
                0 <= i < acc.values().len() ==> acc.values()[i] <= acc.spec_total()),
            forall|acc: BitCounts| #[trigger] Self::weight(acc) == acc.spec_total(),
            forall|acc: BitCounts, r: Seq<int>| #[trigger] Self::normalizes_to(acc, r) <==> majority(
                acc.values(),
                acc.spec_total() as int,
                r,
            ),
            forall|s: Seq<int>, acc: BitCounts| #[trigger] Self::denormalizes_to(s, acc) <==> (acc.values()
                == s && acc.spec_total() == 1),
            forall|acc: BitCounts, v: Seq<int>, r: BitCounts| #[trigger] Self::bundles_to(acc, v, r) <==> {
                &&& r.spec_total() == acc.spec_total() + 1
                &&& r.values().len() == acc.values().len()
                &&& forall|i: int| 0 <= i < r.values().len() ==> r.values()[i] == acc.values()[i] + v[i]
            },
            forall|a: BitCounts, b: BitCounts, r: BitCounts|
                a.values().len() == b.values().len() ==> (#[trigger] Self::merges_to(a, b, r) <==> {
                &&& r.spec_total() == a.spec_total() + b.spec_total()
                &&& r.values().len() == a.values().len()
                &&& forall|i: int| 0 <= i < r.values().len() ==> r.values()[i] == a.values()[i] + b.values()[i]
            }),
            forall|acc: BitCounts, b: Seq<int>, r: BitCounts| #[trigger] Self::binds_accumulator(acc, b, r) <==> {
                &&& r.spec_total() == acc.spec_total()
                &&& r.values().len() == acc.values().len()
                &&& forall|i: int|
                    0 <= i < r.values().len() ==> r.values()[i] == if b[i] == 1 {
                        acc.spec_total() - acc.values()[i]
                    } else {
                        acc.values()[i]
                    }
            },
    {
        assert forall|acc: BitCounts| #[trigger] Self::acc_wf(acc) <==> (forall|i: int|
            0 <= i < acc.values().len() ==> acc.values()[i] <= acc.spec_total()) by {
            lemma_counts_values(acc);
            if Self::acc_wf(acc) {
                assert forall|i: int| 0 <= i < acc.values().len() implies acc.values()[i] <= acc.spec_total() by {
                    assert(acc.ones@[i] <= acc.total);
                }
            } else {
                let i = choose|i: int| 0 <= i < acc.ones@.len() && !(acc.ones@[i] <= acc.total);
                assert(acc.values()[i] > acc.spec_total());
            }
        }
        assert forall|acc: BitCounts, v: Seq<int>, r: BitCounts| #[trigger] Self::bundles_to(acc, v, r) <==> {
            &&& r.spec_total() == acc.spec_total() + 1
            &&& r.values().len() == acc.values().len()
            &&& forall|i: int| 0 <= i < r.values().len() ==> r.values()[i] == acc.values()[i] + v[i]
        } by {
            lemma_counts_values(acc);
            lemma_counts_values(r);
            if Self::bundles_to(acc, v, r) {
                assert forall|i: int| 0 <= i < r.values().len() implies r.values()[i] == acc.values()[i] + v[i] by {
                    assert(r.ones@[i] == acc.ones@[i] + v[i]);
                }
            } else if r.spec_total() == acc.spec_total() + 1 && r.values().len() == acc.values().len() {
                let i = choose|i: int| 0 <= i < r.ones@.len() && !(r.ones@[i] == acc.ones@[i] + v[i]);
                assert(r.values()[i] != acc.values()[i] + v[i]);
            }
        }
        assert forall|a: BitCounts, b: BitCounts, r: BitCounts|
            a.values().len() == b.values().len() implies (#[trigger] Self::merges_to(a, b, r) <==> {
            &&& r.spec_total() == a.spec_total() + b.spec_total()
            &&& r.values().len() == a.values().len()
            &&& forall|i: int| 0 <= i < r.values().len() ==> r.values()[i] == a.values()[i] + b.values()[i]
        }) by {
            lemma_counts_values(a);
            lemma_counts_values(b);
            lemma_counts_values(r);
            if Self::merges_to(a, b, r) {
                assert forall|i: int| 0 <= i < r.values().len() implies r.values()[i] == a.values()[i]
                    + b.values()[i] by {
                    assert(r.ones@[i] == a.ones@[i] + b.ones@[i]);
                }
            } else if r.spec_total() == a.spec_total() + b.spec_total() && r.values().len() == a.values().len() {
                let i = choose|i: int| 0 <= i < r.ones@.len() && !(r.ones@[i] == a.ones@[i] + b.ones@[i]);
                assert(r.values()[i] != a.values()[i] + b.values()[i]);
            }
        }
        assert forall|acc: BitCounts, b: Seq<int>, r: BitCounts| #[trigger] Self::binds_accumulator(acc, b, r) <==> {
            &&& r.spec_total() == acc.spec_total()
            &&& r.values().len() == acc.values().len()
            &&& forall|i: int|
                0 <= i < r.values().len() ==> r.values()[i] == if b[i] == 1 {
                    acc.spec_total() - acc.values()[i]
                } else {
                    acc.values()[i]
                }
        } by {
            lemma_counts_values(acc);
            lemma_counts_values(r);
            if Self::binds_accumulator(acc, b, r) {
                assert forall|i: int| 0 <= i < r.values().len() implies r.values()[i] == if b[i] == 1 {
                    acc.spec_total() - acc.values()[i]
                } else {
                    acc.values()[i]
                } by {
                    assert(r.ones@[i] == if b[i] == 1 {
                        acc.total - acc.ones@[i]
                    } else {
                        acc.ones@[i] as int
                    });
                }
            } else if r.spec_total() == acc.spec_total() && r.values().len() == acc.values().len() {
                let i = choose|i: int|
                    0 <= i < r.ones@.len() && !(r.ones@[i] == if b[i] == 1 {
                        acc.total - acc.ones@[i]
                    } else {
                        acc.ones@[i] as int
                    });
                assert(r.ones@[i] == r.values()[i]);
            }
        }
    }
}

impl<R: UIntResolution> Default for BinarySpatterCode<R> {
    fn default() -> Self {
        Self::new(fresh_seed())
    }
}

/// Whether `r` is a majority vote over the counts: a bit is set where more than half
/// of the vectors set it, clear where fewer than half do; ties may go either way.
pub open spec fn majority(ones: Seq<int>, total: int, r: Seq<int>) -> bool {
    &&& r.len() == ones.len()
    &&& forall|i: int|
        0 <= i < r.len() ==> {
            &&& r[i] == 0 || r[i] == 1
            &&& 2 * ones[i] > total ==> r[i] == 1
            &&& 2 * ones[i] < total ==> r[i] == 0
        }
}

/// The majority vote over `total` vectors whose bit `i` is set in `ones[i]` of them:
/// a bit is set where more than half of the vectors set it and clear where fewer do;
/// where exactly half of at least two vectors set it, it is the tiebreaker's bit.
pub fn majority_with_tiebreaker(ones: &Vec<usize>, total: usize, tiebreaker: &Bits) -> (r: Bits)
    requires
        ones@.len() <= max_bits(),
        total >= 2 ==> bit_values(*tiebreaker).len() == ones@.len(),
    ensures
        bit_values(r).len() == ones@.len(),
        forall|i: int|
            0 <= i < ones@.len() ==> bit_values(r)[i] == if total >= 2 && 2 * ones@[i] == total {
                bit_values(*tiebreaker)[i]
            } else {
                2 * ones@[i] > total
            },
{
    let len = ones.len();
    let half = total / 2;
    let mut out = new_bits();
    let mut i: usize = 0;
    while i < len
        invariant
            len == ones@.len(),
            len <= max_bits(),
            half == total / 2,
            i <= len,
            total >= 2 ==> bit_values(*tiebreaker).len() == len,
            bit_values(out).len() == i,
            forall|k: int|
                0 <= k < i ==> bit_values(out)[k] == if total >= 2 && 2 * ones@[k] == total {
                    bit_values(*tiebreaker)[k]
                } else {
                    2 * ones@[k] > total
                },
        decreases len - i,
    {
        let count = ones[i];
        let bit = if count > half {
            true
        } else if count < half || total % 2 == 1 || total < 2 {
            false
        } else {
            bit_at(tiebreaker, i)
        };
        push_bit(&mut out, bit);
        i = i + 1;
    }
    out
}

impl<R: UIntResolution> VectorSymbolicArchitecture for BinarySpatterCode<R> {
    type Storage = Bits;

    type Accumulator = BitCounts;

    open spec fn spec_valid_size(n: nat) -> bool {
        n <= max_bits()
    }

    proof fn lemma_valid_size(n: nat) {
    }

    fn valid_size<S: Size>(size: S) -> (b: bool) {
        size.size() <= usize::MAX / 8
    }

    fn random(&self, size: usize) -> (r: Self::Storage) {
        random_bits(&self.rng, size)
    }

    closed spec fn acc_wf(acc: BitCounts) -> bool {
        forall|i: int| 0 <= i < acc.ones@.len() ==> acc.ones@[i] <= acc.total
    }

    closed spec fn weight(acc: BitCounts) -> nat {
        acc.total as nat
    }

    open spec fn max_weight() -> nat {
        usize::MAX as nat
    }

    proof fn lemma_max_weight() {
    }

    closed spec fn acc_copy(a: BitCounts, b: BitCounts) -> bool {
        a.ones@ == b.ones@ && a.total == b.total
    }

    proof fn lemma_acc_copy(a: BitCounts, b: BitCounts) {
    }

    fn duplicate_accumulator(acc: &BitCounts) -> (r: BitCounts) {
        BitCounts { ones: copy_vec(&acc.ones), total: acc.total }
    }

    closed spec fn normalizes_to(acc: BitCounts, r: Seq<int>) -> bool {
        majority(acc.values(), acc.total as int, r)
    }

    fn normalize(&self, storage: Self::Accumulator) -> (r: Self::Storage) {
        let len = storage.ones.len();
        let tiebreaker = if storage.total >= 2 {
            random_bits(&self.rng, len)
        } else {
            new_bits()
        };
        let r = majority_with_tiebreaker(&storage.ones, storage.total, &tiebreaker);
        proof {
            assert(storage.values().len() == len);
            assert forall|k: int| 0 <= k < len implies storage.values()[k] == storage.ones@[k] by {}
        }
        r
    }

    closed spec fn denormalizes_to(s: Seq<int>, acc: BitCounts) -> bool {
        acc.values() == s && acc.total == 1
    }

    proof fn lemma_normalize_denormalized(s: Bits, acc: BitCounts, r: Seq<int>) {
        s.lemma_letters();
        assert(r =~= s.values()) by {
            assert forall|i: int| 0 <= i < r.len() implies r[i] == s.values()[i] by {
                assert(acc.values()[i] == s.values()[i]);
            }
        }
    }

    fn denormalize(storage: Self::Storage) -> (r: Self::Accumulator) {
        let len = bit_len(&storage);
        let mut ones: Vec<usize> = Vec::new();
        let mut i: usize = 0;
        while i < len
            invariant
                len == bit_values(storage).len(),
                i <= len,
                ones@.len() == i,
                forall|k: int| 0 <= k < i ==> ones@[k] == bit_value(bit_values(storage)[k]),
            decreases len - i,
        {
            ones.push(if bit_at(&storage, i) { 1 } else { 0 });
            i = i + 1;
        }
        let r = BitCounts { ones, total: 1 };
        assert(r.values() =~= storage.values());
        r
    }

    fn permute(a: &mut Self::Storage, shifts: usize) {
        let len = bit_len(a);
        if len == 0 {
            return ;
        }
        let shift = shifts % len;
        if shift == 0 {
            assert(rotated_right(old(a).values(), 0) =~= old(a).values());
            return ;
        }
        rotate_bits_right(a, shift);
        proof {
            lemma_rotate_values(bit_values(*old(a)), shift as int, 1, 0);
            assert(final(a).values() =~= Seq::new(
                rotated_right(bit_values(*old(a)), shift as int).len(),
                |i: int| if rotated_right(bit_values(*old(a)), shift as int)[i] { 1int } else { 0int },
            ));
            assert(old(a).values() =~= Seq::new(
                bit_values(*old(a)).len(),
                |i: int| if bit_values(*old(a))[i] { 1int } else { 0int },
            ));
        }
    }

    open spec fn spec_bind(a: Seq<int>, b: Seq<int>) -> Seq<int> {
        Seq::new(a.len(), |i: int| if a[i] == b[i] { 0 } else { 1 })
    }

    fn bind(a: &mut Self::Storage, b: &Self::Storage) {
        xor_assign(a, b);
        assert(final(a).values() =~= Self::spec_bind(old(a).values(), b.values()));
    }

    closed spec fn binds_accumulator(acc: BitCounts, b: Seq<int>, r: BitCounts) -> bool {
        &&& r.total == acc.total
        &&& r.ones@.len() == acc.ones@.len()
        &&& forall|i: int|
            0 <= i < r.ones@.len() ==> r.ones@[i] == if b[i] == 1 {
                acc.total - acc.ones@[i]
            } else {
                acc.ones@[i] as int
            }
    }

    fn bind_with_accumulator(a: &mut Self::Accumulator, b: &Self::Storage) {
        let len = a.ones.len();
        let mut i: usize = 0;
        while i < len
            invariant
                len == a.ones@.len(),
                len == old(a).ones@.len(),
                len == bit_values(*b).len(),
                a.total == old(a).total,
                i <= len,
                forall|k: int| 0 <= k < len ==> old(a).ones@[k] <= old(a).total,
                forall|k: int|
                    0 <= k < i ==> a.ones@[k] == if bit_values(*b)[k] {
                        old(a).total - old(a).ones@[k]
                    } else {
                        old(a).ones@[k] as int
                    },
                forall|k: int| i <= k < len ==> a.ones@[k] == old(a).ones@[k],
            decreases len - i,
        {
            if bit_at(b, i) {
                let flipped = a.total - a.ones[i];
                a.ones.set(i, flipped);
            }
            i = i + 1;
        }
    }

    closed spec fn bundles_to(acc: BitCounts, v: Seq<int>, r: BitCounts) -> bool {
        &&& r.total == acc.total + 1
        &&& r.ones@.len() == acc.ones@.len()
        &&& forall|i: int| 0 <= i < r.ones@.len() ==> r.ones@[i] == acc.ones@[i] + v[i]
    }

    proof fn lemma_bundle_idempotent(s: Bits, a0: BitCounts, a1: BitCounts, r: Seq<int>) {
        s.lemma_letters();
        assert(r =~= s.values()) by {
            assert forall|i: int| 0 <= i < r.len() implies r[i] == s.values()[i] by {
                assert(a0.values()[i] == s.values()[i]);
                assert(a1.values()[i] == a1.ones@[i]);
            }
        }
    }

    proof fn lemma_bundle_commutative(
        a: Seq<int>,
        b: Seq<int>,
        a0: BitCounts,
        a1: BitCounts,
        b0: BitCounts,
        b1: BitCounts,
    ) {
        assert(a1.ones@ =~= b1.ones@) by {
            assert forall|i: int| 0 <= i < a1.ones@.len() implies a1.ones@[i] == b1.ones@[i] by {
                assert(a0.values()[i] == a[i]);
                assert(b0.values()[i] == b[i]);
            }
        }
    }

    fn bundle(&self, accumulator: &mut Self::Accumulator, vector: &Self::Storage) {
        let len = accumulator.ones.len();
        let mut i: usize = 0;
        while i < len
            invariant
                len == accumulator.ones@.len(),
                len == old(accumulator).ones@.len(),
                len == bit_values(*vector).len(),
                accumulator.total == old(accumulator).total,
                old(accumulator).total < usize::MAX,
                i <= len,
                forall|k: int| 0 <= k < len ==> old(accumulator).ones@[k] <= old(accumulator).total,
                forall|k: int|
                    0 <= k < i ==> accumulator.ones@[k] == old(accumulator).ones@[k] + bit_value(
                        bit_values(*vector)[k],
                    ),
                forall|k: int| i <= k < len ==> accumulator.ones@[k] == old(accumulator).ones@[k],
            decreases len - i,
        {
            if bit_at(vector, i) {
                let incremented = accumulator.ones[i] + 1;
                accumulator.ones.set(i, incremented);
            }
            i = i + 1;
        }
        accumulator.total = accumulator.total + 1;
    }

    closed spec fn merges_to(a: BitCounts, b: BitCounts, r: BitCounts) -> bool {
        &&& r.total == a.total + b.total
        &&& r.ones@.len() == a.ones@.len()
        &&& forall|i: int| 0 <= i < r.ones@.len() ==> r.ones@[i] == a.ones@[i] + b.ones@[i]
    }

    fn bundle_with_accumulator(&self, accumulator: &mut Self::Accumulator, vector: &Self::Accumulator) {
        let len = accumulator.ones.len();
        let mut i: usize = 0;
        while i < len
            invariant
                len == accumulator.ones@.len(),
                len == old(accumulator).ones@.len(),
                len == vector.ones@.len(),
                accumulator.total == old(accumulator).total,
                old(accumulator).total + vector.total <= usize::MAX,
                i <= len,
                forall|k: int| 0 <= k < len ==> old(accumulator).ones@[k] <= old(accumulator).total,
                forall|k: int| 0 <= k < len ==> vector.ones@[k] <= vector.total,
                forall|k: int|
                    0 <= k < i ==> accumulator.ones@[k] == old(accumulator).ones@[k]
                        + vector.ones@[k],
                forall|k: int| i <= k < len ==> accumulator.ones@[k] == old(accumulator).ones@[k],
            decreases len - i,
        {
            let sum = accumulator.ones[i] + vector.ones[i];
            accumulator.ones.set(i, sum);
            i = i + 1;
        }
        accumulator.total = accumulator.total + vector.total;
    }

    fn dot(a: &Self::Storage, b: &Self::Storage) -> (d: i64) {
        let d = bits_dot(a, b);
        proof {
            lemma_agreement_by_mismatches(
                a.values(),
                b.values(),
                mismatches(bit_values(*a), bit_values(*b)),
            );
        }
        d
    }
}

impl<R: UIntResolution> SelfInverseVectorSymbolicArchitecture for BinarySpatterCode<R> {
    proof fn lemma_bind_self_inverse(a: Bits, b: Bits) {
        a.lemma_letters();
        b.lemma_letters();
        assert(Self::spec_bind(Self::spec_bind(a.values(), b.values()), b.values()) =~= a.values());
    }
}

impl PartialEq for Bits {
    fn eq(&self, other: &Self) -> (r: bool) {
        let r = bits_equal(self, other);
        proof {
            if self.values() == other.values() {
                assert(bit_values(*self).len() == self.values().len());
                assert(bit_values(*other).len() == other.values().len());
                assert(bit_values(*self) =~= bit_values(*other)) by {
                    assert forall|i: int| 0 <= i < bit_values(*self).len() implies bit_values(
                        *self,
                    )[i] == bit_values(*other)[i] by {
                        assert(self.values()[i] == other.values()[i]);
                        assert(self.values()[i] == bit_value(bit_values(*self)[i]));
                        assert(other.values()[i] == bit_value(bit_values(*other)[i]));
                    }
                }
            }
        }
        r
    }
}

impl vstd::std_specs::cmp::PartialEqSpecImpl for Bits {
    open spec fn obeys_eq_spec() -> bool {
        true
    }

    open spec fn eq_spec(&self, other: &Self) -> bool {
        self.values() == other.values()
    }
}

impl Eq for Bits {

}

} // verus!
