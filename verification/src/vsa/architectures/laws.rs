//! Laws of the architectures: what binding, bundling and normalization keep.

use vstd::prelude::*;

use super::bits::Bits;
use super::{
    BinarySpatterCode, IntResolution, MultiplyAddPermute, PlusMinusOnes, PrimaryStorage,
    SelfInverseVectorSymbolicArchitecture, Storage, UIntResolution, VectorSymbolicArchitecture,
};
use crate::vsa::model::{agreement, lemma_agreement_pattern};

verus! {

/// Unbinding: binding a vector with `b` twice gives the vector back, in every
/// architecture whose binding is self-inverse.
pub proof fn lemma_unbind<V: SelfInverseVectorSymbolicArchitecture>(a: V::Storage, b: V::Storage)
    requires
        a.values().len() == b.values().len(),
    ensures
        V::spec_bind(V::spec_bind(a.values(), b.values()), b.values()) == a.values(),
{
    V::lemma_bind_self_inverse(a, b);
}

/// Normalizing the accumulator of a single vector gives that very vector back, in
/// every architecture.
pub proof fn lemma_normalize_after_denormalize<V: VectorSymbolicArchitecture>(
    s: V::Storage,
    acc: V::Accumulator,
    r: Seq<int>,
)
    requires
        V::denormalizes_to(s.values(), acc),
        V::normalizes_to(acc, r),
    ensures
        r == s.values(),
{
    V::lemma_normalize_denormalized(s, acc, r);
}

/// Bundling a vector with itself and normalizing gives the vector back, in every
/// architecture.
pub proof fn lemma_bundle_with_itself<V: VectorSymbolicArchitecture>(
    s: V::Storage,
    a0: V::Accumulator,
    a1: V::Accumulator,
    r: Seq<int>,
)
    requires
        V::denormalizes_to(s.values(), a0),
        V::bundles_to(a0, s.values(), a1),
        V::normalizes_to(a1, r),
    ensures
        r == s.values(),
{
    V::lemma_bundle_idempotent(s, a0, a1, r);
}

/// Bundling is commutative: bundling `b` onto `a` and `a` onto `b` give accumulators
/// that hold the same counts, and so normalize to the same vectors.
pub proof fn lemma_bundle_commutative<V: VectorSymbolicArchitecture>(
    a: Seq<int>,
    b: Seq<int>,
    a0: V::Accumulator,
    a1: V::Accumulator,
    b0: V::Accumulator,
    b1: V::Accumulator,
)
    requires
        a.len() == b.len(),
        V::denormalizes_to(a, a0),
        V::bundles_to(a0, b, a1),
        V::denormalizes_to(b, b0),
        V::bundles_to(b0, a, b1),
    ensures
        a1.values() == b1.values(),
        V::weight(a1) == V::weight(b1),
        forall|r: Seq<int>| V::normalizes_to(a1, r) <==> V::normalizes_to(b1, r),
{
    V::lemma_bundle_commutative(a, b, a0, a1, b0, b1);
    V::lemma_acc_copy(a1, b1);
}

/// Binding of binary spatter codes is commutative.
pub proof fn lemma_bsc_bind_commutative<R: UIntResolution>(a: Seq<int>, b: Seq<int>)
    requires
        a.len() == b.len(),
    ensures
        BinarySpatterCode::<R>::spec_bind(a, b) == BinarySpatterCode::<R>::spec_bind(b, a),
{
    assert(BinarySpatterCode::<R>::spec_bind(a, b) =~= BinarySpatterCode::<R>::spec_bind(b, a));
}

/// Binding of multiply-add-permute vectors is commutative.
pub proof fn lemma_map_bind_commutative<R: UIntResolution, RM: IntResolution>(
    a: Seq<int>,
    b: Seq<int>,
)
    requires
        a.len() == b.len(),
    ensures
        MultiplyAddPermute::<R, RM>::spec_bind(a, b) == MultiplyAddPermute::<R, RM>::spec_bind(
            b,
            a,
        ),
{
    assert(MultiplyAddPermute::<R, RM>::spec_bind(a, b) =~= MultiplyAddPermute::<
        R,
        RM,
    >::spec_bind(b, a));
}

/// Binding two binary spatter codes with the same third one keeps their agreement,
/// and so their similarity.
pub proof fn lemma_bsc_bind_preserves_agreement<R: UIntResolution>(a: Bits, b: Bits, c: Bits)
    requires
        a.values().len() == b.values().len(),
        a.values().len() == c.values().len(),
    ensures
        agreement(
            BinarySpatterCode::<R>::spec_bind(a.values(), c.values()),
            BinarySpatterCode::<R>::spec_bind(b.values(), c.values()),
        ) == agreement(a.values(), b.values()),
{
    a.lemma_letters();
    b.lemma_letters();
    c.lemma_letters();
    lemma_agreement_pattern(
        a.values(),
        b.values(),
        BinarySpatterCode::<R>::spec_bind(a.values(), c.values()),
        BinarySpatterCode::<R>::spec_bind(b.values(), c.values()),
    );
}

/// Binding two multiply-add-permute vectors with the same third one keeps their
/// agreement, and so their similarity.
pub proof fn lemma_map_bind_preserves_agreement<R: UIntResolution, RM: IntResolution>(
    a: PlusMinusOnes,
    b: PlusMinusOnes,
    c: PlusMinusOnes,
)
    requires
        a.values().len() == b.values().len(),
        a.values().len() == c.values().len(),
    ensures
        agreement(
            MultiplyAddPermute::<R, RM>::spec_bind(a.values(), c.values()),
            MultiplyAddPermute::<R, RM>::spec_bind(b.values(), c.values()),
        ) == agreement(a.values(), b.values()),
{
    a.lemma_letters();
    b.lemma_letters();
    c.lemma_letters();
    lemma_agreement_pattern(
        a.values(),
        b.values(),
        MultiplyAddPermute::<R, RM>::spec_bind(a.values(), c.values()),
        MultiplyAddPermute::<R, RM>::spec_bind(b.values(), c.values()),
    );
}

/// Binding binary spatter codes is exclusive or at every position, whatever the
/// length: an element of the binding is 1 exactly where the two vectors differ and 0
/// where they agree, so binding with the all-zero vector gives the vector back and a
/// vector bound with itself is all zero.
pub proof fn lemma_bsc_bind_is_xor<R: UIntResolution>(a: Seq<int>, b: Seq<int>)
    requires
        a.len() == b.len(),
        forall|i: int| 0 <= i < a.len() ==> #[trigger] a[i] == 0 || a[i] == 1,
        forall|i: int| 0 <= i < b.len() ==> #[trigger] b[i] == 0 || b[i] == 1,
    ensures
        BinarySpatterCode::<R>::spec_bind(a, b).len() == a.len(),
        forall|i: int|
            0 <= i < a.len() ==> (#[trigger] BinarySpatterCode::<R>::spec_bind(a, b)[i] == 1 <==> a[i]
                != b[i]) && (BinarySpatterCode::<R>::spec_bind(a, b)[i] == 0 <==> a[i] == b[i]),
        BinarySpatterCode::<R>::spec_bind(a, Seq::new(a.len(), |i: int| 0int)) == a,
        BinarySpatterCode::<R>::spec_bind(a, a) == Seq::new(a.len(), |i: int| 0int),
{
    let z = Seq::new(a.len(), |i: int| 0int);
    assert(BinarySpatterCode::<R>::spec_bind(a, z) =~= a) by {
        assert forall|i: int| 0 <= i < a.len() implies BinarySpatterCode::<R>::spec_bind(a, z)[i] == a[i] by {
            assert(a[i] == 0 || a[i] == 1);
        }
    }
    assert(BinarySpatterCode::<R>::spec_bind(a, a) =~= z);
}

/// Binding multiply-add-permute vectors multiplies them at every position, whatever
/// the length: binding with the all-one vector gives the vector back and a vector
/// bound with itself is all one.
pub proof fn lemma_map_bind_is_product<R: UIntResolution, RM: IntResolution>(a: Seq<int>, b: Seq<int>)
    requires
        a.len() == b.len(),
        forall|i: int| 0 <= i < a.len() ==> #[trigger] a[i] == 1 || a[i] == -1,
        forall|i: int| 0 <= i < b.len() ==> #[trigger] b[i] == 1 || b[i] == -1,
    ensures
        MultiplyAddPermute::<R, RM>::spec_bind(a, b).len() == a.len(),
        forall|i: int|
            0 <= i < a.len() ==> #[trigger] MultiplyAddPermute::<R, RM>::spec_bind(a, b)[i] == a[i] * b[i],
        MultiplyAddPermute::<R, RM>::spec_bind(a, Seq::new(a.len(), |i: int| 1int)) == a,
        MultiplyAddPermute::<R, RM>::spec_bind(a, a) == Seq::new(a.len(), |i: int| 1int),
{
    let o = Seq::new(a.len(), |i: int| 1int);
    assert forall|i: int| 0 <= i < a.len() implies #[trigger] MultiplyAddPermute::<R, RM>::spec_bind(a, b)[i]
        == a[i] * b[i] by {
        assert(a[i] == 1 || a[i] == -1);
        assert(b[i] == 1 || b[i] == -1);
    }
    assert(MultiplyAddPermute::<R, RM>::spec_bind(a, o) =~= a) by {
        assert forall|i: int| 0 <= i < a.len() implies MultiplyAddPermute::<R, RM>::spec_bind(a, o)[i] == a[i] by {
            assert(a[i] == 1 || a[i] == -1);
        }
    }
    assert(MultiplyAddPermute::<R, RM>::spec_bind(a, a) =~= o);
}

} // verus!
