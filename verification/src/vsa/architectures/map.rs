//! Multiply-add-permute: `+1`/`-1` vectors bound by multiplication and bundled by
//! addition.

use std::marker::PhantomData;
use vstd::prelude::*;

use super::bits::{
    bit_at, bit_len, bit_values, bits_equal, clone_bits, max_bits, new_bits, not_bits, push_bit,
    rotate_bits_right, rotated_right, xor_assign, Bits,
};
use super::bsc::{bits_dot, lemma_agreement_by_mismatches, lemma_rotate_values, mismatches};
use super::rng::{fresh_seed, random_bits, share_rng, shared_rng, SharedRng};
use super::{
    copy_vec, IntResolution, PrimaryStorage, SelfInverseVectorSymbolicArchitecture, Storage, UIntResolution,
    VectorSymbolicArchitecture,
};
use crate::vsa::Size;

verus! {

/// The element a bit stands for in a `+1`/`-1` vector.
pub open spec fn sign_value(b: bool) -> int {
    if b {
        1
    } else {
        -1
    }
}

/// Vector storage where each element is either +1 or -1, represented as a bit vector.
#[derive(Debug, Clone)]
pub struct PlusMinusOnes(Bits);

impl Storage for PlusMinusOnes {
    closed spec fn values(&self) -> Seq<int> {
        Seq::new(bit_values(self.0).len(), |i: int| sign_value(bit_values(self.0)[i]))
    }

    fn len(&self) -> (n: usize) {
        bit_len(&self.0)
    }

    fn value_at(&self, index: usize) -> (v: i128) {
        if bit_at(&self.0, index) {
            1
        } else {
            -1
        }
    }

    fn duplicate(&self) -> (r: Self) {
        PlusMinusOnes(clone_bits(&self.0))
    }
}

impl PrimaryStorage for PlusMinusOnes {
    open spec fn letter(positive: bool) -> int {
        sign_value(positive)
    }

    fn random(rng: &SharedRng, size: usize) -> (r: Self) {
        PlusMinusOnes(random_bits(rng, size))
    }

    fn from_signs(signs: &[bool]) -> (r: Self) {
        let mut out = new_bits();
        let mut i: usize = 0;
        while i < signs.len()
            invariant
                i <= signs@.len(),
                signs@.len() <= max_bits(),
                bit_values(out) == signs@.take(i as int),
            decreases signs@.len() - i,
        {
            push_bit(&mut out, signs[i]);
            assert(signs@.take(i as int).push(signs@[i as int]) =~= signs@.take(i + 1));
            i = i + 1;
        }
        assert(signs@.take(signs@.len() as int) =~= signs@);
        let r = PlusMinusOnes(out);
        assert(r.values() =~= Seq::new(signs@.len(), |i: int| Self::letter(signs@[i])));
        r
    }

    proof fn lemma_letters(&self) {
    }
}

impl PartialEq for PlusMinusOnes {
    fn eq(&self, other: &Self) -> (r: bool) {
        let r = bits_equal(&self.0, &other.0);
        proof {
            if self.values() == other.values() {
                assert(bit_values(self.0).len() == self.values().len());
                assert(bit_values(other.0).len() == other.values().len());
                assert(bit_values(self.0) =~= bit_values(other.0)) by {
                    assert forall|i: int| 0 <= i < bit_values(self.0).len() implies bit_values(
                        self.0,
                    )[i] == bit_values(other.0)[i] by {
                        assert(self.values()[i] == other.values()[i]);
                        assert(self.values()[i] == sign_value(bit_values(self.0)[i]));
                        assert(other.values()[i] == sign_value(bit_values(other.0)[i]));
                    }
                }
            }
        }
        r
    }
}

impl vstd::std_specs::cmp::PartialEqSpecImpl for PlusMinusOnes {
    open spec fn obeys_eq_spec() -> bool {
        true
    }

    open spec fn eq_spec(&self, other: &Self) -> bool {
        self.values() == other.values()
    }
}

impl Eq for PlusMinusOnes {

}

/// The largest magnitude among the elements.
pub open spec fn max_abs(s: Seq<int>) -> nat
    decreases s.len(),
{
    if s.len() == 0 {
        0
    } else {
        let m = max_abs(s.drop_last());
        let a = if s.last() < 0 {
            -s.last()
        } else {
            s.last()
        };
        if a > m {
            a as nat
        } else {
            m
        }
    }
}

/// Every element's magnitude is at most `max_abs`, and `max_abs` is at most any bound
/// of all magnitudes.
pub proof fn lemma_max_abs(s: Seq<int>, k: int)
    ensures
        forall|i: int| 0 <= i < s.len() ==> -(max_abs(s) as int) <= #[trigger] s[i] <= max_abs(s),
        (forall|i: int| 0 <= i < s.len() ==> -k <= #[trigger] s[i] <= k) && k >= 0 ==> max_abs(s)
            <= k,
    decreases s.len(),
{
    if s.len() > 0 {
        lemma_max_abs(s.drop_last(), k);
        assert forall|i: int| 0 <= i < s.len() implies -(max_abs(s) as int) <= #[trigger] s[i]
            <= max_abs(s) by {
            if i < s.len() - 1 {
                assert(s[i] == s.drop_last()[i]);
            }
        }
        if (forall|i: int| 0 <= i < s.len() ==> -k <= #[trigger] s[i] <= k) && k >= 0 {
            assert forall|i: int| 0 <= i < s.drop_last().len() implies -k <= #[trigger] s.drop_last()[i] <= k by {
                assert(s.drop_last()[i] == s[i]);
            }
            assert(-k <= s[s.len() - 1] <= k);
        }
    }
}

impl Storage for Vec<isize> {
    open spec fn values(&self) -> Seq<int> {
        self@.map_values(|x: isize| x as int)
    }

    fn len(&self) -> (n: usize) {
        self.len()
    }

    fn value_at(&self, index: usize) -> (v: i128) {
        self[index] as i128
    }

    fn duplicate(&self) -> (r: Self) {
        let r = copy_vec(self);
        assert(r.values() =~= self.values());
        r
    }
}

/// Architecture based upon multiply-add-permute.
#[derive(Debug)]
pub struct MultiplyAddPermute<R: UIntResolution = usize, RM: IntResolution = isize> {
    resolution: PhantomData<(R, RM)>,
    rng: SharedRng,
}

impl<R: UIntResolution, RM: IntResolution> MultiplyAddPermute<R, RM> {
    /// Create a new architecture with a seed.
    pub fn new(seed: u64) -> Self {
        Self { resolution: PhantomData, rng: shared_rng(seed) }
    }
}

impl<R: UIntResolution, RM: IntResolution> Clone for MultiplyAddPermute<R, RM> {
    fn clone(&self) -> Self {
        Self { resolution: PhantomData, rng: share_rng(&self.rng) }
    }
}

impl<R: UIntResolution, RM: IntResolution> Default for MultiplyAddPermute<R, RM> {
    fn default() -> Self {
        Self::new(fresh_seed())
    }
}

impl<R: UIntResolution, RM: IntResolution> VectorSymbolicArchitecture for MultiplyAddPermute<
    R,
    RM,
> {
    type Storage = PlusMinusOnes;

    type Accumulator = Vec<isize>;

    open spec fn spec_valid_size(n: nat) -> bool {
        n <= max_bits()
    }

    proof fn lemma_valid_size(n: nat) {
    }

    fn valid_size<S: Size>(size: S) -> (b: bool) {
        size.size() <= usize::MAX / 8
    }

    fn random(&self, size: usize) -> (r: Self::Storage) {
        PlusMinusOnes(random_bits(&self.rng, size))
    }

    open spec fn acc_wf(acc: Vec<isize>) -> bool {
        max_abs(acc.values()) <= isize::MAX
    }

    open spec fn weight(acc: Vec<isize>) -> nat {
        max_abs(acc.values())
    }

    open spec fn max_weight() -> nat {
        isize::MAX as nat
    }

    proof fn lemma_max_weight() {
    }

    open spec fn acc_copy(a: Vec<isize>, b: Vec<isize>) -> bool {
        a@ == b@
    }

    proof fn lemma_acc_copy(a: Vec<isize>, b: Vec<isize>) {
    }

    fn duplicate_accumulator(acc: &Vec<isize>) -> (r: Vec<isize>) {
        copy_vec(acc)
    }

    /// The sign of each count, with ties (`0`) going to `+1`.
    open spec fn normalizes_to(acc: Vec<isize>, r: Seq<int>) -> bool {
        r == Seq::new(acc.values().len(), |i: int| if acc.values()[i] >= 0 { 1int } else { -1int })
    }

    fn normalize(&self, storage: Self::Accumulator) -> (r: Self::Storage) {
        let len = storage.len();
        let mut out = new_bits();
        let mut i: usize = 0;
        while i < len
            invariant
                len == storage@.len(),
                len <= max_bits(),
                i <= len,
                bit_values(out).len() == i,
                forall|k: int| 0 <= k < i ==> bit_values(out)[k] == (storage@[k] >= 0),
            decreases len - i,
        {
            push_bit(&mut out, storage[i] >= 0);
            i = i + 1;
        }
        let r = PlusMinusOnes(out);
        assert(r.values() =~= Seq::new(
            storage.values().len(),
            |i: int| if storage.values()[i] >= 0 { 1int } else { -1int },
        ));
        r
    }

    open spec fn denormalizes_to(s: Seq<int>, acc: Vec<isize>) -> bool {
        acc.values() == s
    }

    proof fn lemma_normalize_denormalized(s: PlusMinusOnes, acc: Vec<isize>, r: Seq<int>) {
        s.lemma_letters();
        assert(r =~= s.values());
    }

    fn denormalize(storage: Self::Storage) -> (r: Self::Accumulator) {
        let len = bit_len(&storage.0);
        let mut out: Vec<isize> = Vec::new();
        let mut i: usize = 0;
        while i < len
            invariant
                len == bit_values(storage.0).len(),
                i <= len,
                out@.len() == i,
                forall|k: int| 0 <= k < i ==> out@[k] == sign_value(bit_values(storage.0)[k]),
            decreases len - i,
        {
            out.push(if bit_at(&storage.0, i) { 1 } else { -1 });
            i = i + 1;
        }
        assert(out.values() =~= storage.values());
        proof {
            lemma_max_abs(out.values(), 1);
        }
        out
    }

    fn permute(a: &mut Self::Storage, shifts: usize) {
        let len = bit_len(&a.0);
        if len == 0 {
            return ;
        }
        let shift = shifts % len;
        if shift == 0 {
            assert(rotated_right(old(a).values(), 0) =~= old(a).values());
            return ;
        }
        rotate_bits_right(&mut a.0, shift);
        proof {
            lemma_rotate_values(bit_values(old(a).0), shift as int, 1, -1);
            assert(final(a).values() =~= Seq::new(
                rotated_right(bit_values(old(a).0), shift as int).len(),
                |i: int| if rotated_right(bit_values(old(a).0), shift as int)[i] { 1int } else { -1int },
            ));
            assert(old(a).values() =~= Seq::new(
                bit_values(old(a).0).len(),
                |i: int| if bit_values(old(a).0)[i] { 1int } else { -1int },
            ));
        }
    }

    open spec fn spec_bind(a: Seq<int>, b: Seq<int>) -> Seq<int> {
        Seq::new(a.len(), |i: int| if a[i] == b[i] { 1 } else { -1 })
    }

    fn bind(a: &mut Self::Storage, b: &Self::Storage) {
        let mut x = clone_bits(&a.0);
        xor_assign(&mut x, &b.0);
        a.0 = not_bits(x);
        assert(final(a).values() =~= Self::spec_bind(old(a).values(), b.values()));
    }

    open spec fn binds_accumulator(acc: Vec<isize>, b: Seq<int>, r: Vec<isize>) -> bool {
        r.values() == Seq::new(acc.values().len(), |i: int| acc.values()[i] * b[i])
    }

    fn bind_with_accumulator(a: &mut Self::Accumulator, b: &Self::Storage) {
        let len = a.len();
        let ghost m = max_abs(old(a).values());
        proof {
            lemma_max_abs(old(a).values(), 0);
        }
        let mut i: usize = 0;
        while i < len
            invariant
                len == a@.len(),
                len == old(a)@.len(),
                len == bit_values(b.0).len(),
                m == max_abs(old(a).values()),
                m <= isize::MAX,
                i <= len,
                forall|k: int|
                    0 <= k < len ==> -(m as int) <= #[trigger] old(a).values()[k] <= m,
                forall|k: int|
                    0 <= k < i ==> a@[k] == old(a)@[k] * sign_value(bit_values(b.0)[k]),
                forall|k: int| i <= k < len ==> a@[k] == old(a)@[k],
            decreases len - i,
        {
            assert(old(a).values()[i as int] == old(a)@[i as int]);
            if !bit_at(&b.0, i) {
                let v = a[i];
                a.set(i, -v);
            }
            i = i + 1;
        }
        assert(a.values() =~= Seq::new(old(a).values().len(), |i: int| old(a).values()[i] * b.values()[i]));
        proof {
            assert forall|k: int| 0 <= k < len implies -(m as int) <= #[trigger] a.values()[k] <= m by {
                assert(old(a).values()[k] == old(a)@[k]);
            }
            lemma_max_abs(a.values(), m as int);
            assert forall|k: int| 0 <= k < len implies -(max_abs(a.values()) as int) <= #[trigger] old(a).values()[k] <= max_abs(a.values()) by {
                assert(a.values()[k] == a@[k]);
                assert(old(a).values()[k] == old(a)@[k]);
            }
            lemma_max_abs(old(a).values(), max_abs(a.values()) as int);
        }
    }

    open spec fn bundles_to(acc: Vec<isize>, v: Seq<int>, r: Vec<isize>) -> bool {
        r.values() == Seq::new(acc.values().len(), |i: int| acc.values()[i] + v[i])
    }

    proof fn lemma_bundle_idempotent(s: PlusMinusOnes, a0: Vec<isize>, a1: Vec<isize>, r: Seq<int>) {
        s.lemma_letters();
        assert(r =~= s.values()) by {
            assert forall|i: int| 0 <= i < r.len() implies r[i] == s.values()[i] by {
                assert(a0.values()[i] == s.values()[i]);
                assert(a1.values()[i] == a0.values()[i] + s.values()[i]);
            }
        }
    }

    proof fn lemma_bundle_commutative(
        a: Seq<int>,
        b: Seq<int>,
        a0: Vec<isize>,
        a1: Vec<isize>,
        b0: Vec<isize>,
        b1: Vec<isize>,
    ) {
        assert(a1.values() =~= b1.values());
        assert(a1@ =~= b1@) by {
            assert forall|i: int| 0 <= i < a1@.len() implies a1@[i] == b1@[i] by {
                assert(a1.values()[i] == a1@[i] as int);
                assert(b1.values()[i] == b1@[i] as int);
            }
        }
    }

    fn bundle(&self, accumulator: &mut Self::Accumulator, vector: &Self::Storage) {
        let len = accumulator.len();
        let ghost m = max_abs(old(accumulator).values());
        proof {
            lemma_max_abs(old(accumulator).values(), 0);
        }
        let mut i: usize = 0;
        while i < len
            invariant
                len == accumulator@.len(),
                len == old(accumulator)@.len(),
                len == bit_values(vector.0).len(),
                m == max_abs(old(accumulator).values()),
                m < isize::MAX,
                i <= len,
                forall|k: int|
                    0 <= k < len ==> -(m as int) <= #[trigger] old(accumulator).values()[k] <= m,
                forall|k: int|
                    0 <= k < i ==> accumulator@[k] == old(accumulator)@[k] + sign_value(
                        bit_values(vector.0)[k],
                    ),
                forall|k: int| i <= k < len ==> accumulator@[k] == old(accumulator)@[k],
            decreases len - i,
        {
            assert(old(accumulator).values()[i as int] == old(accumulator)@[i as int]);
            let v = accumulator[i];
            let next = if bit_at(&vector.0, i) {
                v + 1
            } else {
                v - 1
            };
            accumulator.set(i, next);
            i = i + 1;
        }
        assert(accumulator.values() =~= Seq::new(
            old(accumulator).values().len(),
            |i: int| old(accumulator).values()[i] + vector.values()[i],
        ));
        proof {
            assert forall|k: int| 0 <= k < len implies -(m + 1) <= #[trigger] accumulator.values()[k] <= m + 1 by {
                assert(old(accumulator).values()[k] == old(accumulator)@[k]);
            }
            lemma_max_abs(accumulator.values(), m + 1int);
        }
    }

    open spec fn merges_to(a: Vec<isize>, b: Vec<isize>, r: Vec<isize>) -> bool {
        r.values() == Seq::new(a.values().len(), |i: int| a.values()[i] + b.values()[i])
    }

    fn bundle_with_accumulator(&self, accumulator: &mut Self::Accumulator, vector: &Self::Accumulator) {
        let len = accumulator.len();
        let ghost m1 = max_abs(old(accumulator).values());
        let ghost m2 = max_abs(vector.values());
        proof {
            lemma_max_abs(old(accumulator).values(), 0);
            lemma_max_abs(vector.values(), 0);
        }
        let mut i: usize = 0;
        while i < len
            invariant
                len == accumulator@.len(),
                len == old(accumulator)@.len(),
                len == vector@.len(),
                m1 == max_abs(old(accumulator).values()),
                m2 == max_abs(vector.values()),
                m1 + m2 <= isize::MAX,
                i <= len,
                forall|k: int|
                    0 <= k < len ==> -(m1 as int) <= #[trigger] old(accumulator).values()[k] <= m1,
                forall|k: int|
                    0 <= k < len ==> -(m2 as int) <= #[trigger] vector.values()[k] <= m2,
                forall|k: int| 0 <= k < i ==> accumulator@[k] == old(accumulator)@[k] + vector@[k],
                forall|k: int| i <= k < len ==> accumulator@[k] == old(accumulator)@[k],
            decreases len - i,
        {
            assert(old(accumulator).values()[i as int] == old(accumulator)@[i as int]);
            assert(vector.values()[i as int] == vector@[i as int]);
            let sum = accumulator[i] + vector[i];
            accumulator.set(i, sum);
            i = i + 1;
        }
        assert(accumulator.values() =~= Seq::new(
            old(accumulator).values().len(),
            |i: int| old(accumulator).values()[i] + vector.values()[i],
        ));
        proof {
            assert forall|k: int| 0 <= k < len implies -(m1 + m2) <= #[trigger] accumulator.values()[k] <= m1 + m2 by {
                assert(old(accumulator).values()[k] == old(accumulator)@[k]);
                assert(vector.values()[k] == vector@[k]);
            }
            lemma_max_abs(accumulator.values(), (m1 + m2) as int);
        }
    }

    fn dot(a: &Self::Storage, b: &Self::Storage) -> (d: i64) {
        let d = bits_dot(&a.0, &b.0);
        proof {
            lemma_agreement_by_mismatches(
                a.values(),
                b.values(),
                mismatches(bit_values(a.0), bit_values(b.0)),
            );
        }
        d
    }
}

impl<R: UIntResolution, RM: IntResolution> SelfInverseVectorSymbolicArchitecture for MultiplyAddPermute<
    R,
    RM,
> {
    proof fn lemma_bind_self_inverse(a: PlusMinusOnes, b: PlusMinusOnes) {
        a.lemma_letters();
        b.lemma_letters();
        assert(Self::spec_bind(Self::spec_bind(a.values(), b.values()), b.values()) =~= a.values());
    }
}

} // verus!
