//! Typed vectors: an architecture, a size and a payload, which is either a normalized
//! vector or an accumulator of bundled vectors.

use vstd::prelude::*;

use super::architectures::bits::max_bits;
use super::architectures::{
    NonSelfInverseVectorSymbolicArchitecture, PrimaryStorage, Storage, VectorSymbolicArchitecture,
};
use super::model::{agreement, permuted};
use super::size::{Dynamic, Fixed, Size};
use crate::expression::EvaluateOps;

verus! {

/// Whether two storages hold the same elements.
fn same_values<A: Storage>(a: &A, b: &A) -> (r: bool)
    ensures
        r == (a.values() == b.values()),
{
    let n = a.len();
    if n != b.len() {
        return false;
    }
    let mut i: usize = 0;
    while i < n
        invariant
            n == a.values().len(),
            n == b.values().len(),
            i <= n,
            forall|k: int| 0 <= k < i ==> a.values()[k] == b.values()[k],
        decreases n - i,
    {
        if a.value_at(i) != b.value_at(i) {
            return false;
        }
        i = i + 1;
    }
    assert(a.values() =~= b.values());
    true
}

/// A trait indicating whether a vector is normalized or not.
pub trait VectorType<V: VectorSymbolicArchitecture>: Sized + std::fmt::Debug {
    /// The elements of the payload.
    spec fn values(&self) -> Seq<int>;

    /// Whether the payload is consistent in itself.
    spec fn wf(&self) -> bool;

    /// Whether `r` is what `from` makes of the accumulator `acc`.
    spec fn made_from(acc: V::Accumulator, r: Self) -> bool;

    /// Whether `acc` is the payload taken as an accumulator.
    spec fn accumulates(&self, acc: V::Accumulator) -> bool;

    /// Whether `r` is a copy of the payload.
    spec fn copy_of(&self, r: Self) -> bool;

    /// How many vectors the payload holds at most, which bounds its elements.
    spec fn weight(&self) -> nat;

    /// Create a payload from the architecture and an accumulator.
    fn from(vsa: &V, data: V::Accumulator) -> (r: Self)
        requires
            V::acc_wf(data),
            data.values().len() <= max_bits(),
        ensures
            Self::made_from(data, r),
            r.wf(),
            r.values().len() == data.values().len(),
            r.weight() <= 1 || r.weight() <= V::weight(data),
    ;

    /// The payload as an accumulator.
    fn into_not_normalized(self) -> (r: NotNormalized<V>)
        requires
            self.wf(),
        ensures
            self.accumulates(r.accumulator()),
            V::acc_wf(r.accumulator()),
            r.accumulator().values().len() == self.values().len(),
            V::weight(r.accumulator()) <= self.weight(),
    ;

    /// The number of elements.
    fn len(&self) -> (n: usize)
        ensures
            n == self.values().len(),
    ;

    /// The element at `index`.
    fn value_at(&self, index: usize) -> (v: i128)
        requires
            index < self.values().len(),
        ensures
            v == self.values()[index as int],
    ;

    /// A copy of the payload.
    fn duplicate(&self) -> (r: Self)
        ensures
            self.copy_of(r),
            r.values() == self.values(),
            r.wf() == self.wf(),
    ;

    /// Whether two payloads hold the same elements.
    fn same(&self, other: &Self) -> (r: bool)
        ensures
            r == (self.values() == other.values()),
    ;
}

/// A normalized vector payload.
#[derive(Debug)]
pub struct Normalized<V: VectorSymbolicArchitecture>(pub(crate) V::Storage);

impl<V: VectorSymbolicArchitecture> Normalized<V> {
    /// The normalized vector.
    pub closed spec fn storage(&self) -> V::Storage {
        self.0
    }
}

impl<V: VectorSymbolicArchitecture> VectorType<V> for Normalized<V> {
    open spec fn values(&self) -> Seq<int> {
        self.storage().values()
    }

    open spec fn wf(&self) -> bool {
        true
    }

    open spec fn made_from(acc: V::Accumulator, r: Self) -> bool {
        V::normalizes_to(acc, r.values())
    }

    open spec fn accumulates(&self, acc: V::Accumulator) -> bool {
        V::denormalizes_to(self.values(), acc) && V::weight(acc) <= 1
    }

    open spec fn copy_of(&self, r: Self) -> bool {
        r.values() == self.values()
    }

    open spec fn weight(&self) -> nat {
        1
    }

    fn from(vsa: &V, data: V::Accumulator) -> (r: Self) {
        Normalized(vsa.normalize(data))
    }

    fn into_not_normalized(self) -> (r: NotNormalized<V>) {
        NotNormalized(V::denormalize(self.0))
    }

    fn len(&self) -> (n: usize) {
        self.0.len()
    }

    fn value_at(&self, index: usize) -> (v: i128) {
        self.0.value_at(index)
    }

    fn duplicate(&self) -> (r: Self) {
        Normalized(self.0.duplicate())
    }

    fn same(&self, other: &Self) -> (r: bool) {
        same_values(&self.0, &other.0)
    }
}

/// An unnormalized vector payload: an accumulator of bundled vectors.
#[derive(Debug)]
pub struct NotNormalized<V: VectorSymbolicArchitecture>(pub(crate) V::Accumulator);

impl<V: VectorSymbolicArchitecture> NotNormalized<V> {
    /// The accumulator.
    pub closed spec fn accumulator(&self) -> V::Accumulator {
        self.0
    }
}

impl<V: VectorSymbolicArchitecture> VectorType<V> for NotNormalized<V> {
    open spec fn values(&self) -> Seq<int> {
        self.accumulator().values()
    }

    open spec fn wf(&self) -> bool {
        V::acc_wf(self.accumulator())
    }

    open spec fn made_from(acc: V::Accumulator, r: Self) -> bool {
        r.accumulator() == acc
    }

    open spec fn accumulates(&self, acc: V::Accumulator) -> bool {
        acc == self.accumulator()
    }

    open spec fn copy_of(&self, r: Self) -> bool {
        V::acc_copy(self.accumulator(), r.accumulator())
    }

    open spec fn weight(&self) -> nat {
        V::weight(self.accumulator())
    }

    fn from(vsa: &V, data: V::Accumulator) -> (r: Self) {
        NotNormalized(data)
    }

    fn into_not_normalized(self) -> (r: NotNormalized<V>) {
        self
    }

    fn len(&self) -> (n: usize) {
        self.0.len()
    }

    fn value_at(&self, index: usize) -> (v: i128) {
        self.0.value_at(index)
    }

    fn duplicate(&self) -> (r: Self) {
        let r = NotNormalized(V::duplicate_accumulator(&self.0));
        proof {
            V::lemma_acc_copy(self.0, r.0);
        }
        r
    }

    fn same(&self, other: &Self) -> (r: bool) {
        same_values(&self.0, &other.0)
    }
}

/// A typed vector with architecture, size, and normalization state.
#[derive(Debug)]
pub struct Vector<S: Size, V: VectorSymbolicArchitecture, T: VectorType<V> = Normalized<V>> {
    pub(crate) size: S,
    pub(crate) vsa: V,
    pub(crate) data: T,
}

impl<S: Size, V: VectorSymbolicArchitecture, T: VectorType<V>> Vector<S, V, T> {
    /// The number of elements.
    pub closed spec fn spec_size(&self) -> nat {
        self.size.spec_size()
    }

    /// The size as it was given.
    pub closed spec fn size_value(&self) -> S {
        self.size
    }

    /// The elements.
    pub closed spec fn values(&self) -> Seq<int> {
        self.data.values()
    }

    /// The payload.
    pub closed spec fn payload(&self) -> T {
        self.data
    }

    /// A vector holds as many elements as its size says, the size is valid for the
    /// architecture, and the payload is consistent.
    #[verifier::type_invariant]
    pub(crate) open spec fn inv(self) -> bool {
        &&& self.values().len() == self.spec_size()
        &&& V::spec_valid_size(self.spec_size())
        &&& self.payload().wf()
    }

    /// Build a vector from an accumulator.
    pub(crate) fn new(vsa: V, size: S, data: V::Accumulator) -> (r: Self)
        requires
            V::spec_valid_size(size.spec_size()),
            V::acc_wf(data),
            data.values().len() == size.spec_size(),
        ensures
            T::made_from(data, r.payload()),
            r.spec_size() == size.spec_size(),
            r.size_value() == size,
    {
        proof {
            V::lemma_valid_size(size.spec_size());
        }
        let data = T::from(&vsa, data);
        Vector { size, vsa, data }
    }

    /// The size of the vector.
    pub fn size(&self) -> (s: S)
        ensures
            s == self.size_value(),
            s.spec_size() == self.spec_size(),
    {
        self.size
    }

    /// The number of elements.
    pub fn len(&self) -> (n: usize)
        ensures
            n == self.spec_size(),
            n == self.values().len(),
    {
        proof {
            use_type_invariant(self);
        }
        self.data.len()
    }

    /// The element at `index`.
    pub fn value_at(&self, index: usize) -> (v: i128)
        requires
            index < self.spec_size(),
        ensures
            v == self.values()[index as int],
    {
        proof {
            use_type_invariant(self);
        }
        self.data.value_at(index)
    }

    /// The elements in order.
    pub fn to_values(&self) -> (r: Vec<i128>)
        ensures
            r@.len() == self.values().len(),
            forall|i: int| 0 <= i < r@.len() ==> r@[i] == self.values()[i],
    {
        proof {
            use_type_invariant(self);
        }
        let n = self.data.len();
        let mut out: Vec<i128> = Vec::new();
        let mut i: usize = 0;
        while i < n
            invariant
                n == self.values().len(),
                i <= n,
                out@.len() == i,
                forall|k: int| 0 <= k < i ==> out@[k] == self.values()[k],
            decreases n - i,
        {
            out.push(self.data.value_at(i));
            i = i + 1;
        }
        out
    }

    /// The vector with its payload taken as an accumulator.
    pub fn into_not_normalized(self) -> (r: Vector<S, V, NotNormalized<V>>)
        ensures
            self.payload().accumulates(r.accumulator()),
            V::weight(r.accumulator()) <= self.payload().weight(),
            r.spec_size() == self.spec_size(),
            r.size_value() == self.size_value(),
    {
        proof {
            use_type_invariant(&self);
        }
        let Vector { size, vsa, data } = self;
        Vector { size, vsa, data: data.into_not_normalized() }
    }

    /// A copy of the vector.
    pub fn duplicate(&self) -> (r: Self)
        ensures
            self.payload().copy_of(r.payload()),
            r.values() == self.values(),
            r.spec_size() == self.spec_size(),
            r.size_value() == self.size_value(),
    {
        proof {
            use_type_invariant(self);
        }
        Vector { size: self.size, vsa: self.vsa.clone(), data: self.data.duplicate() }
    }

    /// Whether two vectors have the same size and elements.
    pub fn equals(&self, other: &Self) -> (r: bool)
        ensures
            r == (self.spec_size() == other.spec_size() && self.values() == other.values()),
    {
        self.size.size() == other.size.size() && self.data.same(&other.data)
    }
}

impl<S: Size, V: VectorSymbolicArchitecture> Vector<S, V, Normalized<V>> {
    /// Create a random vector; `None` where the size is invalid for the architecture.
    pub fn random(vsa: &V, size: S) -> (r: Option<Self>)
        ensures
            r is None <==> !V::spec_valid_size(size.spec_size()),
            r matches Some(v) ==> {
                &&& v.spec_size() == size.spec_size()
                &&& v.size_value() == size
                &&& forall|i: int|
                    0 <= i < v.spec_size() ==> #[trigger] v.values()[i] == V::Storage::letter(true)
                        || v.values()[i] == V::Storage::letter(false)
            },
    {
        if !V::valid_size(size) {
            return None;
        }
        let data = vsa.random(size.size());
        proof {
            data.lemma_letters();
        }
        Some(Vector { size, vsa: vsa.clone(), data: Normalized(data) })
    }

    /// Permute the vector: rotate it to the right by `shifts` places.
    pub fn permute(self, shifts: usize) -> (r: Self)
        ensures
            r.values() == permuted(self.values(), shifts as nat),
            r.spec_size() == self.spec_size(),
            r.size_value() == self.size_value(),
    {
        proof {
            use_type_invariant(&self);
        }
        let Vector { size, vsa, data } = self;
        let mut storage = data.0;
        V::permute(&mut storage, shifts);
        Vector { size, vsa, data: Normalized(storage) }
    }

    /// The dot product of two vectors taken as `+1`/`-1` vectors: agreeing elements
    /// count one up, disagreeing ones one down. Their similarity is this number
    /// divided by the size.
    pub fn dot(&self, other: &Self) -> (d: i64)
        requires
            self.spec_size() == other.spec_size(),
        ensures
            d == agreement(self.values(), other.values()),
    {
        proof {
            use_type_invariant(self);
            use_type_invariant(other);
            V::lemma_valid_size(self.spec_size());
        }
        V::dot(&self.data.0, &other.data.0)
    }

    /// Bundle with another vector, without normalizing.
    pub fn bundle(&self, other: &Self) -> (r: Vector<S, V, NotNormalized<V>>)
        requires
            self.spec_size() == other.spec_size(),
        ensures
            r.spec_size() == self.spec_size(),
            r.size_value() == self.size_value(),
            V::weight(r.accumulator()) <= 2,
            exists|acc: V::Accumulator|
                V::denormalizes_to(self.values(), acc) && V::bundles_to(
                    acc,
                    other.values(),
                    r.accumulator(),
                ),
    {
        proof {
            use_type_invariant(self);
            use_type_invariant(other);
            V::lemma_max_weight();
        }
        let mut acc = V::denormalize(self.data.0.duplicate());
        let ghost first = acc;
        self.vsa.bundle(&mut acc, &other.data.0);
        Vector { size: self.size, vsa: self.vsa.clone(), data: NotNormalized(acc) }
    }

    /// Bundle into an accumulator, without normalizing.
    pub fn bundle_into(&self, acc: Vector<S, V, NotNormalized<V>>) -> (r: Vector<
        S,
        V,
        NotNormalized<V>,
    >)
        requires
            self.spec_size() == acc.spec_size(),
            V::weight(acc.accumulator()) < V::max_weight(),
        ensures
            r.spec_size() == self.spec_size(),
            r.size_value() == acc.size_value(),
            V::weight(r.accumulator()) <= V::weight(acc.accumulator()) + 1,
            V::bundles_to(acc.accumulator(), self.values(), r.accumulator()),
    {
        proof {
            use_type_invariant(self);
            use_type_invariant(&acc);
        }
        let Vector { size, vsa, data } = acc;
        let mut a = data.0;
        self.vsa.bundle(&mut a, &self.data.0);
        Vector { size, vsa, data: NotNormalized(a) }
    }

    /// Bind with another vector.
    pub fn bind_with(&self, other: &Self) -> (r: Self)
        requires
            self.spec_size() == other.spec_size(),
        ensures
            r.values() == V::spec_bind(self.values(), other.values()),
            r.spec_size() == self.spec_size(),
            r.size_value() == self.size_value(),
    {
        proof {
            use_type_invariant(self);
            use_type_invariant(other);
        }
        let mut data = self.data.0.duplicate();
        V::bind(&mut data, &other.data.0);
        Vector { size: self.size, vsa: self.vsa.clone(), data: Normalized(data) }
    }

    /// The vector as an accumulator of itself alone.
    pub fn denormalize(self) -> (r: Vector<S, V, NotNormalized<V>>)
        ensures
            V::denormalizes_to(self.values(), r.accumulator()),
            V::weight(r.accumulator()) <= 1,
            r.spec_size() == self.spec_size(),
            r.size_value() == self.size_value(),
    {
        proof {
            use_type_invariant(&self);
        }
        let Vector { size, vsa, data } = self;
        Vector { size, vsa, data: NotNormalized(V::denormalize(data.0)) }
    }
}

impl<S: Size, V: VectorSymbolicArchitecture> Vector<S, V, NotNormalized<V>> {
    /// The accumulator.
    pub open spec fn accumulator(&self) -> V::Accumulator {
        self.payload().accumulator()
    }

    /// The vector with its accumulator taken as a payload of type `T`: normalized for
    /// `Normalized`, as it is for `NotNormalized`.
    pub fn convert<T: VectorType<V>>(self) -> (r: Vector<S, V, T>)
        ensures
            T::made_from(self.accumulator(), r.payload()),
            r.spec_size() == self.spec_size(),
            r.size_value() == self.size_value(),
            r.payload().weight() <= 1 || r.payload().weight() <= V::weight(self.accumulator()),
    {
        proof {
            use_type_invariant(&self);
            V::lemma_valid_size(self.spec_size());
        }
        let Vector { size, vsa, data } = self;
        let data = T::from(&vsa, data.0);
        Vector { size, vsa, data }
    }

    /// A copy of the vector, holding a copy of the accumulator.
    pub fn copy_accumulator(&self) -> (r: Self)
        ensures
            V::acc_copy(self.accumulator(), r.accumulator()),
            r.spec_size() == self.spec_size(),
            r.size_value() == self.size_value(),
    {
        self.duplicate()
    }

    /// Normalize the vector.
    pub fn normalize(self) -> (r: Vector<S, V, Normalized<V>>)
        ensures
            V::normalizes_to(self.accumulator(), r.values()),
            r.spec_size() == self.spec_size(),
            r.size_value() == self.size_value(),
    {
        proof {
            use_type_invariant(&self);
            V::lemma_valid_size(self.spec_size());
        }
        let Vector { size, vsa, data } = self;
        let normalized = vsa.normalize(data.0);
        Vector { size, vsa, data: Normalized(normalized) }
    }

    /// Bind the accumulator with a normalized vector.
    pub fn bind(self, other: &Vector<S, V, Normalized<V>>) -> (r: Self)
        requires
            self.spec_size() == other.spec_size(),
        ensures
            V::binds_accumulator(self.accumulator(), other.values(), r.accumulator()),
            V::weight(r.accumulator()) == V::weight(self.accumulator()),
            r.spec_size() == self.spec_size(),
            r.size_value() == self.size_value(),
    {
        proof {
            use_type_invariant(&self);
            use_type_invariant(other);
        }
        let Vector { size, vsa, data } = self;
        let mut acc = data.0;
        V::bind_with_accumulator(&mut acc, &other.data.0);
        Vector { size, vsa, data: NotNormalized(acc) }
    }

    /// Bundle with a normalized vector, without normalizing.
    pub fn bundle(self, other: &Vector<S, V, Normalized<V>>) -> (r: Self)
        requires
            self.spec_size() == other.spec_size(),
            V::weight(self.accumulator()) < V::max_weight(),
        ensures
            V::bundles_to(self.accumulator(), other.values(), r.accumulator()),
            V::weight(r.accumulator()) <= V::weight(self.accumulator()) + 1,
            r.spec_size() == self.spec_size(),
            r.size_value() == self.size_value(),
    {
        other.bundle_into(self)
    }

    /// Bundle with another accumulator, without normalizing.
    pub fn merge(self, other: &Self) -> (r: Self)
        requires
            self.spec_size() == other.spec_size(),
            V::weight(self.accumulator()) + V::weight(other.accumulator()) <= V::max_weight(),
        ensures
            V::merges_to(self.accumulator(), other.accumulator(), r.accumulator()),
            V::weight(r.accumulator()) <= V::weight(self.accumulator()) + V::weight(
                other.accumulator(),
            ),
            r.spec_size() == self.spec_size(),
            r.size_value() == self.size_value(),
    {
        proof {
            use_type_invariant(&self);
            use_type_invariant(other);
        }
        let Vector { size, vsa, data } = self;
        let mut acc = data.0;
        vsa.bundle_with_accumulator(&mut acc, &other.data.0);
        Vector { size, vsa, data: NotNormalized(acc) }
    }
}

impl<V: VectorSymbolicArchitecture> Vector<Dynamic, V, Normalized<V>> {
    /// Build a vector from signs: element `i` is the positive letter where `signs[i]`
    /// holds. `None` where the length is invalid for the architecture.
    pub fn from_signs(vsa: V, signs: &[bool]) -> (r: Option<Self>)
        ensures
            r is None <==> !V::spec_valid_size(signs@.len()),
            r matches Some(v) ==> v.spec_size() == signs@.len() && v.values() == Seq::new(
                signs@.len(),
                |i: int| V::Storage::letter(signs@[i]),
            ),
    {
        let size = Dynamic::of_len(signs.len());
        if !V::valid_size(size) {
            return None;
        }
        proof {
            V::lemma_valid_size(size.spec_size());
        }
        let data = V::Storage::from_signs(signs);
        Some(Vector { size, vsa, data: Normalized(data) })
    }
}

impl<const N: usize, V: VectorSymbolicArchitecture> Vector<Fixed<N>, V, Normalized<V>> {
    /// Build a vector from signs: element `i` is the positive letter where `signs[i]`
    /// holds. `None` where the length is not `N` or is invalid for the architecture.
    pub fn from_signs(vsa: V, signs: &[bool]) -> (r: Option<Self>)
        ensures
            r is None <==> (signs@.len() != N || !V::spec_valid_size(N as nat)),
            r matches Some(v) ==> v.spec_size() == N && v.values() == Seq::new(
                signs@.len(),
                |i: int| V::Storage::letter(signs@[i]),
            ),
    {
        let size = Fixed::<N>;
        if signs.len() != N || !V::valid_size(size) {
            return None;
        }
        proof {
            V::lemma_valid_size(size.spec_size());
        }
        let data = V::Storage::from_signs(signs);
        Some(Vector { size, vsa, data: Normalized(data) })
    }
}

impl<S: Size, V: NonSelfInverseVectorSymbolicArchitecture> Vector<S, V, Normalized<V>> {
    /// The inverse of the vector.
    pub fn inverse(&self) -> (r: Self)
        ensures
            r.values() == V::spec_inverse(self.values()),
            r.spec_size() == self.spec_size(),
            r.size_value() == self.size_value(),
    {
        proof {
            use_type_invariant(self);
        }
        let mut data = self.data.0.duplicate();
        V::inverse(&mut data);
        Vector { size: self.size, vsa: self.vsa.clone(), data: Normalized(data) }
    }
}

impl<S: Size, V: VectorSymbolicArchitecture> std::ops::Add<Self> for Vector<S, V, Normalized<V>> {
    type Output = Vector<S, V, NotNormalized<V>>;

    fn add(self, rhs: Self) -> (r: Self::Output)
        ensures
            r.spec_size() == self.spec_size(),
            V::weight(r.accumulator()) <= 2,
            exists|acc: V::Accumulator|
                V::denormalizes_to(self.values(), acc) && V::bundles_to(acc, rhs.values(), r.accumulator()),
    {
        self.bundle(&rhs)
    }
}

impl<S: Size, V: VectorSymbolicArchitecture> vstd::std_specs::ops::AddSpecImpl<Self> for Vector<S, V, Normalized<V>> {
    open spec fn obeys_add_spec() -> bool {
        false
    }

    open spec fn add_req(self, rhs: Self) -> bool {
        self.spec_size() == rhs.spec_size()
    }

    open spec fn add_spec(self, rhs: Self) -> Self::Output {
        arbitrary()
    }
}

impl<'a, S: Size, V: VectorSymbolicArchitecture> std::ops::Add<&'a Self> for Vector<S, V, Normalized<V>> {
    type Output = Vector<S, V, NotNormalized<V>>;

    fn add(self, rhs: &'a Self) -> (r: Self::Output)
        ensures
            r.spec_size() == self.spec_size(),
            V::weight(r.accumulator()) <= 2,
            exists|acc: V::Accumulator|
                V::denormalizes_to(self.values(), acc) && V::bundles_to(acc, rhs.values(), r.accumulator()),
    {
        self.bundle(rhs)
    }
}

impl<'a, S: Size, V: VectorSymbolicArchitecture> vstd::std_specs::ops::AddSpecImpl<&'a Self> for Vector<S, V, Normalized<V>> {
    open spec fn obeys_add_spec() -> bool {
        false
    }

    open spec fn add_req(self, rhs: &'a Self) -> bool {
        self.spec_size() == rhs.spec_size()
    }

    open spec fn add_spec(self, rhs: &'a Self) -> Self::Output {
        arbitrary()
    }
}

impl<'a, S: Size, V: VectorSymbolicArchitecture> std::ops::Add<&'a Vector<S, V, Normalized<V>>> for &Vector<S, V, Normalized<V>> {
    type Output = Vector<S, V, NotNormalized<V>>;

    fn add(self, rhs: &'a Vector<S, V, Normalized<V>>) -> (r: Self::Output)
        ensures
            r.spec_size() == self.spec_size(),
            V::weight(r.accumulator()) <= 2,
            exists|acc: V::Accumulator|
                V::denormalizes_to(self.values(), acc) && V::bundles_to(acc, rhs.values(), r.accumulator()),
    {
        self.bundle(rhs)
    }
}

impl<'a, S: Size, V: VectorSymbolicArchitecture> vstd::std_specs::ops::AddSpecImpl<&'a Vector<S, V, Normalized<V>>> for &Vector<S, V, Normalized<V>> {
    open spec fn obeys_add_spec() -> bool {
        false
    }

    open spec fn add_req(self, rhs: &'a Vector<S, V, Normalized<V>>) -> bool {
        self.spec_size() == rhs.spec_size()
    }

    open spec fn add_spec(self, rhs: &'a Vector<S, V, Normalized<V>>) -> Self::Output {
        arbitrary()
    }
}

impl<S: Size, V: VectorSymbolicArchitecture> std::ops::Add<Vector<S, V, NotNormalized<V>>> for Vector<S, V, Normalized<V>> {
    type Output = Vector<S, V, NotNormalized<V>>;

    fn add(self, rhs: Vector<S, V, NotNormalized<V>>) -> (r: Self::Output)
        ensures
            r.spec_size() == self.spec_size(),
            V::bundles_to(rhs.accumulator(), self.values(), r.accumulator()),
            V::weight(r.accumulator()) <= V::weight(rhs.accumulator()) + 1,
    {
        self.bundle_into(rhs)
    }
}

impl<S: Size, V: VectorSymbolicArchitecture> vstd::std_specs::ops::AddSpecImpl<Vector<S, V, NotNormalized<V>>> for Vector<S, V, Normalized<V>> {
    open spec fn obeys_add_spec() -> bool {
        false
    }

    open spec fn add_req(self, rhs: Vector<S, V, NotNormalized<V>>) -> bool {
        self.spec_size() == rhs.spec_size() && V::weight(rhs.accumulator()) < V::max_weight()
    }

    open spec fn add_spec(self, rhs: Vector<S, V, NotNormalized<V>>) -> Self::Output {
        arbitrary()
    }
}

impl<'a, S: Size, V: VectorSymbolicArchitecture> std::ops::Add<&'a Vector<S, V, NotNormalized<V>>> for Vector<S, V, Normalized<V>> {
    type Output = Vector<S, V, NotNormalized<V>>;

    fn add(self, rhs: &'a Vector<S, V, NotNormalized<V>>) -> (r: Self::Output)
        ensures
            r.spec_size() == self.spec_size(),
            V::bundles_to(rhs.accumulator(), self.values(), r.accumulator()),
            V::weight(r.accumulator()) <= V::weight(rhs.accumulator()) + 1,
    {
        let acc = rhs.copy_accumulator();
        proof {
            V::lemma_acc_copy(rhs.accumulator(), acc.accumulator());
        }
        self.bundle_into(acc)
    }
}

impl<'a, S: Size, V: VectorSymbolicArchitecture> vstd::std_specs::ops::AddSpecImpl<&'a Vector<S, V, NotNormalized<V>>> for Vector<S, V, Normalized<V>> {
    open spec fn obeys_add_spec() -> bool {
        false
    }

    open spec fn add_req(self, rhs: &'a Vector<S, V, NotNormalized<V>>) -> bool {
        self.spec_size() == rhs.spec_size() && V::weight(rhs.accumulator()) < V::max_weight()
    }

    open spec fn add_spec(self, rhs: &'a Vector<S, V, NotNormalized<V>>) -> Self::Output {
        arbitrary()
    }
}

impl<'a, S: Size, V: VectorSymbolicArchitecture> std::ops::Add<&'a Vector<S, V, NotNormalized<V>>> for &Vector<S, V, Normalized<V>> {
    type Output = Vector<S, V, NotNormalized<V>>;

    fn add(self, rhs: &'a Vector<S, V, NotNormalized<V>>) -> (r: Self::Output)
        ensures
            r.spec_size() == self.spec_size(),
            V::bundles_to(rhs.accumulator(), self.values(), r.accumulator()),
            V::weight(r.accumulator()) <= V::weight(rhs.accumulator()) + 1,
    {
        let acc = rhs.copy_accumulator();
        proof {
            V::lemma_acc_copy(rhs.accumulator(), acc.accumulator());
        }
        self.bundle_into(acc)
    }
}

impl<'a, S: Size, V: VectorSymbolicArchitecture> vstd::std_specs::ops::AddSpecImpl<&'a Vector<S, V, NotNormalized<V>>> for &Vector<S, V, Normalized<V>> {
    open spec fn obeys_add_spec() -> bool {
        false
    }

    open spec fn add_req(self, rhs: &'a Vector<S, V, NotNormalized<V>>) -> bool {
        self.spec_size() == rhs.spec_size() && V::weight(rhs.accumulator()) < V::max_weight()
    }

    open spec fn add_spec(self, rhs: &'a Vector<S, V, NotNormalized<V>>) -> Self::Output {
        arbitrary()
    }
}

impl<S: Size, V: VectorSymbolicArchitecture> std::ops::Add<Vector<S, V, Normalized<V>>> for Vector<S, V, NotNormalized<V>> {
    type Output = Vector<S, V, NotNormalized<V>>;

    fn add(self, rhs: Vector<S, V, Normalized<V>>) -> (r: Self::Output)
        ensures
            r.spec_size() == self.spec_size(),
            V::bundles_to(self.accumulator(), rhs.values(), r.accumulator()),
            V::weight(r.accumulator()) <= V::weight(self.accumulator()) + 1,
    {
        self.bundle(&rhs)
    }
}

impl<S: Size, V: VectorSymbolicArchitecture> vstd::std_specs::ops::AddSpecImpl<Vector<S, V, Normalized<V>>> for Vector<S, V, NotNormalized<V>> {
    open spec fn obeys_add_spec() -> bool {
        false
    }

    open spec fn add_req(self, rhs: Vector<S, V, Normalized<V>>) -> bool {
        self.spec_size() == rhs.spec_size() && V::weight(self.accumulator()) < V::max_weight()
    }

    open spec fn add_spec(self, rhs: Vector<S, V, Normalized<V>>) -> Self::Output {
        arbitrary()
    }
}

impl<'a, S: Size, V: VectorSymbolicArchitecture> std::ops::Add<&'a Vector<S, V, Normalized<V>>> for Vector<S, V, NotNormalized<V>> {
    type Output = Vector<S, V, NotNormalized<V>>;

    fn add(self, rhs: &'a Vector<S, V, Normalized<V>>) -> (r: Self::Output)
        ensures
            r.spec_size() == self.spec_size(),
            V::bundles_to(self.accumulator(), rhs.values(), r.accumulator()),
            V::weight(r.accumulator()) <= V::weight(self.accumulator()) + 1,
    {
        self.bundle(rhs)
    }
}

impl<'a, S: Size, V: VectorSymbolicArchitecture> vstd::std_specs::ops::AddSpecImpl<&'a Vector<S, V, Normalized<V>>> for Vector<S, V, NotNormalized<V>> {
    open spec fn obeys_add_spec() -> bool {
        false
    }

    open spec fn add_req(self, rhs: &'a Vector<S, V, Normalized<V>>) -> bool {
        self.spec_size() == rhs.spec_size() && V::weight(self.accumulator()) < V::max_weight()
    }

    open spec fn add_spec(self, rhs: &'a Vector<S, V, Normalized<V>>) -> Self::Output {
        arbitrary()
    }
}

impl<'a, S: Size, V: VectorSymbolicArchitecture> std::ops::Add<&'a Vector<S, V, Normalized<V>>> for &Vector<S, V, NotNormalized<V>> {
    type Output = Vector<S, V, NotNormalized<V>>;

    fn add(self, rhs: &'a Vector<S, V, Normalized<V>>) -> (r: Self::Output)
        ensures
            r.spec_size() == self.spec_size(),
            V::bundles_to(self.accumulator(), rhs.values(), r.accumulator()),
            V::weight(r.accumulator()) <= V::weight(self.accumulator()) + 1,
    {
        let acc = self.copy_accumulator();
        proof {
            V::lemma_acc_copy(self.accumulator(), acc.accumulator());
        }
        acc.bundle(rhs)
    }
}

impl<'a, S: Size, V: VectorSymbolicArchitecture> vstd::std_specs::ops::AddSpecImpl<&'a Vector<S, V, Normalized<V>>> for &Vector<S, V, NotNormalized<V>> {
    open spec fn obeys_add_spec() -> bool {
        false
    }

    open spec fn add_req(self, rhs: &'a Vector<S, V, Normalized<V>>) -> bool {
        self.spec_size() == rhs.spec_size() && V::weight(self.accumulator()) < V::max_weight()
    }

    open spec fn add_spec(self, rhs: &'a Vector<S, V, Normalized<V>>) -> Self::Output {
        arbitrary()
    }
}

impl<S: Size, V: VectorSymbolicArchitecture> std::ops::Mul<Self> for Vector<S, V, Normalized<V>> {
    type Output = Vector<S, V, Normalized<V>>;

    fn mul(self, rhs: Self) -> (r: Self::Output)
        ensures
            r.spec_size() == self.spec_size(),
            r.values() == V::spec_bind(self.values(), rhs.values()),
    {
        self.bind_with(&rhs)
    }
}

impl<S: Size, V: VectorSymbolicArchitecture> vstd::std_specs::ops::MulSpecImpl<Self> for Vector<S, V, Normalized<V>> {
    open spec fn obeys_mul_spec() -> bool {
        false
    }

    open spec fn mul_req(self, rhs: Self) -> bool {
        self.spec_size() == rhs.spec_size()
    }

    open spec fn mul_spec(self, rhs: Self) -> Self::Output {
        arbitrary()
    }
}

impl<'a, S: Size, V: VectorSymbolicArchitecture> std::ops::Mul<&'a Self> for Vector<S, V, Normalized<V>> {
    type Output = Vector<S, V, Normalized<V>>;

    fn mul(self, rhs: &'a Self) -> (r: Self::Output)
        ensures
            r.spec_size() == self.spec_size(),
            r.values() == V::spec_bind(self.values(), rhs.values()),
    {
        self.bind_with(rhs)
    }
}

impl<'a, S: Size, V: VectorSymbolicArchitecture> vstd::std_specs::ops::MulSpecImpl<&'a Self> for Vector<S, V, Normalized<V>> {
    open spec fn obeys_mul_spec() -> bool {
        false
    }

    open spec fn mul_req(self, rhs: &'a Self) -> bool {
        self.spec_size() == rhs.spec_size()
    }

    open spec fn mul_spec(self, rhs: &'a Self) -> Self::Output {
        arbitrary()
    }
}

impl<'a, S: Size, V: VectorSymbolicArchitecture> std::ops::Mul<&'a Vector<S, V, Normalized<V>>> for &Vector<S, V, Normalized<V>> {
    type Output = Vector<S, V, Normalized<V>>;

    fn mul(self, rhs: &'a Vector<S, V, Normalized<V>>) -> (r: Self::Output)
        ensures
            r.spec_size() == self.spec_size(),
            r.values() == V::spec_bind(self.values(), rhs.values()),
    {
        self.bind_with(rhs)
    }
}

impl<'a, S: Size, V: VectorSymbolicArchitecture> vstd::std_specs::ops::MulSpecImpl<&'a Vector<S, V, Normalized<V>>> for &Vector<S, V, Normalized<V>> {
    open spec fn obeys_mul_spec() -> bool {
        false
    }

    open spec fn mul_req(self, rhs: &'a Vector<S, V, Normalized<V>>) -> bool {
        self.spec_size() == rhs.spec_size()
    }

    open spec fn mul_spec(self, rhs: &'a Vector<S, V, Normalized<V>>) -> Self::Output {
        arbitrary()
    }
}

impl<S: Size, V: VectorSymbolicArchitecture> std::ops::Mul<Vector<S, V, NotNormalized<V>>> for Vector<S, V, Normalized<V>> {
    type Output = Vector<S, V, NotNormalized<V>>;

    fn mul(self, rhs: Vector<S, V, NotNormalized<V>>) -> (r: Self::Output)
        ensures
            r.spec_size() == self.spec_size(),
            V::binds_accumulator(rhs.accumulator(), self.values(), r.accumulator()),
            V::weight(r.accumulator()) == V::weight(rhs.accumulator()),
    {
        rhs.bind(&self)
    }
}

impl<S: Size, V: VectorSymbolicArchitecture> vstd::std_specs::ops::MulSpecImpl<Vector<S, V, NotNormalized<V>>> for Vector<S, V, Normalized<V>> {
    open spec fn obeys_mul_spec() -> bool {
        false
    }

    open spec fn mul_req(self, rhs: Vector<S, V, NotNormalized<V>>) -> bool {
        self.spec_size() == rhs.spec_size()
    }

    open spec fn mul_spec(self, rhs: Vector<S, V, NotNormalized<V>>) -> Self::Output {
        arbitrary()
    }
}

impl<'a, S: Size, V: VectorSymbolicArchitecture> std::ops::Mul<&'a Vector<S, V, NotNormalized<V>>> for Vector<S, V, Normalized<V>> {
    type Output = Vector<S, V, NotNormalized<V>>;

    fn mul(self, rhs: &'a Vector<S, V, NotNormalized<V>>) -> (r: Self::Output)
        ensures
            r.spec_size() == self.spec_size(),
            V::binds_accumulator(rhs.accumulator(), self.values(), r.accumulator()),
            V::weight(r.accumulator()) == V::weight(rhs.accumulator()),
    {
        let acc = rhs.copy_accumulator();
        proof {
            V::lemma_acc_copy(rhs.accumulator(), acc.accumulator());
        }
        acc.bind(&self)
    }
}

impl<'a, S: Size, V: VectorSymbolicArchitecture> vstd::std_specs::ops::MulSpecImpl<&'a Vector<S, V, NotNormalized<V>>> for Vector<S, V, Normalized<V>> {
    open spec fn obeys_mul_spec() -> bool {
        false
    }

    open spec fn mul_req(self, rhs: &'a Vector<S, V, NotNormalized<V>>) -> bool {
        self.spec_size() == rhs.spec_size()
    }

    open spec fn mul_spec(self, rhs: &'a Vector<S, V, NotNormalized<V>>) -> Self::Output {
        arbitrary()
    }
}

impl<'a, S: Size, V: VectorSymbolicArchitecture> std::ops::Mul<&'a Vector<S, V, NotNormalized<V>>> for &Vector<S, V, Normalized<V>> {
    type Output = Vector<S, V, NotNormalized<V>>;

    fn mul(self, rhs: &'a Vector<S, V, NotNormalized<V>>) -> (r: Self::Output)
        ensures
            r.spec_size() == self.spec_size(),
            V::binds_accumulator(rhs.accumulator(), self.values(), r.accumulator()),
            V::weight(r.accumulator()) == V::weight(rhs.accumulator()),
    {
        let acc = rhs.copy_accumulator();
        proof {
            V::lemma_acc_copy(rhs.accumulator(), acc.accumulator());
        }
        acc.bind(self)
    }
}

impl<'a, S: Size, V: VectorSymbolicArchitecture> vstd::std_specs::ops::MulSpecImpl<&'a Vector<S, V, NotNormalized<V>>> for &Vector<S, V, Normalized<V>> {
    open spec fn obeys_mul_spec() -> bool {
        false
    }

    open spec fn mul_req(self, rhs: &'a Vector<S, V, NotNormalized<V>>) -> bool {
        self.spec_size() == rhs.spec_size()
    }

    open spec fn mul_spec(self, rhs: &'a Vector<S, V, NotNormalized<V>>) -> Self::Output {
        arbitrary()
    }
}

impl<S: Size, V: VectorSymbolicArchitecture> std::ops::Mul<Vector<S, V, Normalized<V>>> for Vector<S, V, NotNormalized<V>> {
    type Output = Vector<S, V, NotNormalized<V>>;

    fn mul(self, rhs: Vector<S, V, Normalized<V>>) -> (r: Self::Output)
        ensures
            r.spec_size() == self.spec_size(),
            V::binds_accumulator(self.accumulator(), rhs.values(), r.accumulator()),
            V::weight(r.accumulator()) == V::weight(self.accumulator()),
    {
        self.bind(&rhs)
    }
}

impl<S: Size, V: VectorSymbolicArchitecture> vstd::std_specs::ops::MulSpecImpl<Vector<S, V, Normalized<V>>> for Vector<S, V, NotNormalized<V>> {
    open spec fn obeys_mul_spec() -> bool {
        false
    }

    open spec fn mul_req(self, rhs: Vector<S, V, Normalized<V>>) -> bool {
        self.spec_size() == rhs.spec_size()
    }

    open spec fn mul_spec(self, rhs: Vector<S, V, Normalized<V>>) -> Self::Output {
        arbitrary()
    }
}

impl<'a, S: Size, V: VectorSymbolicArchitecture> std::ops::Mul<&'a Vector<S, V, Normalized<V>>> for Vector<S, V, NotNormalized<V>> {
    type Output = Vector<S, V, NotNormalized<V>>;

    fn mul(self, rhs: &'a Vector<S, V, Normalized<V>>) -> (r: Self::Output)
        ensures
            r.spec_size() == self.spec_size(),
            V::binds_accumulator(self.accumulator(), rhs.values(), r.accumulator()),
            V::weight(r.accumulator()) == V::weight(self.accumulator()),
    {
        self.bind(rhs)
    }
}

impl<'a, S: Size, V: VectorSymbolicArchitecture> vstd::std_specs::ops::MulSpecImpl<&'a Vector<S, V, Normalized<V>>> for Vector<S, V, NotNormalized<V>> {
    open spec fn obeys_mul_spec() -> bool {
        false
    }

    open spec fn mul_req(self, rhs: &'a Vector<S, V, Normalized<V>>) -> bool {
        self.spec_size() == rhs.spec_size()
    }

    open spec fn mul_spec(self, rhs: &'a Vector<S, V, Normalized<V>>) -> Self::Output {
        arbitrary()
    }
}

impl<'a, S: Size, V: VectorSymbolicArchitecture> std::ops::Mul<&'a Vector<S, V, Normalized<V>>> for &Vector<S, V, NotNormalized<V>> {
    type Output = Vector<S, V, NotNormalized<V>>;

    fn mul(self, rhs: &'a Vector<S, V, Normalized<V>>) -> (r: Self::Output)
        ensures
            r.spec_size() == self.spec_size(),
            V::binds_accumulator(self.accumulator(), rhs.values(), r.accumulator()),
            V::weight(r.accumulator()) == V::weight(self.accumulator()),
    {
        let acc = self.copy_accumulator();
        proof {
            V::lemma_acc_copy(self.accumulator(), acc.accumulator());
        }
        acc.bind(rhs)
    }
}

impl<'a, S: Size, V: VectorSymbolicArchitecture> vstd::std_specs::ops::MulSpecImpl<&'a Vector<S, V, Normalized<V>>> for &Vector<S, V, NotNormalized<V>> {
    open spec fn obeys_mul_spec() -> bool {
        false
    }

    open spec fn mul_req(self, rhs: &'a Vector<S, V, Normalized<V>>) -> bool {
        self.spec_size() == rhs.spec_size()
    }

    open spec fn mul_spec(self, rhs: &'a Vector<S, V, Normalized<V>>) -> Self::Output {
        arbitrary()
    }
}

impl<S: Size, V: NonSelfInverseVectorSymbolicArchitecture> std::ops::Neg for Vector<S, V, Normalized<V>> {
    type Output = Vector<S, V, Normalized<V>>;

    fn neg(self) -> (r: Self::Output)
        ensures
            r.values() == V::spec_inverse(self.values()),
            r.spec_size() == self.spec_size(),
    {
        self.inverse()
    }
}

impl<S: Size, V: NonSelfInverseVectorSymbolicArchitecture> vstd::std_specs::ops::NegSpecImpl for Vector<S, V, Normalized<V>> {
    open spec fn obeys_neg_spec() -> bool {
        false
    }

    open spec fn neg_req(self) -> bool {
        true
    }

    open spec fn neg_spec(self) -> Self::Output {
        arbitrary()
    }
}

impl<S: Size, V: NonSelfInverseVectorSymbolicArchitecture> std::ops::Neg for &Vector<S, V, Normalized<V>> {
    type Output = Vector<S, V, Normalized<V>>;

    fn neg(self) -> (r: Self::Output)
        ensures
            r.values() == V::spec_inverse(self.values()),
            r.spec_size() == self.spec_size(),
    {
        self.inverse()
    }
}

impl<S: Size, V: NonSelfInverseVectorSymbolicArchitecture> vstd::std_specs::ops::NegSpecImpl for &Vector<S, V, Normalized<V>> {
    open spec fn obeys_neg_spec() -> bool {
        false
    }

    open spec fn neg_req(self) -> bool {
        true
    }

    open spec fn neg_spec(self) -> Self::Output {
        arbitrary()
    }
}

impl<S: Size, V: VectorSymbolicArchitecture, T: VectorType<V>> Clone for Vector<S, V, T> {
    fn clone(&self) -> (r: Self)
        ensures
            self.payload().copy_of(r.payload()),
            r.values() == self.values(),
            r.spec_size() == self.spec_size(),
            r.size_value() == self.size_value(),
    {
        self.duplicate()
    }
}

impl<S: Size, V: VectorSymbolicArchitecture, T: VectorType<V>> PartialEq for Vector<S, V, T> {
    fn eq(&self, other: &Self) -> (r: bool) {
        self.equals(other)
    }
}

impl<S: Size, V: VectorSymbolicArchitecture, T: VectorType<V>> vstd::std_specs::cmp::PartialEqSpecImpl for Vector<S, V, T> {
    open spec fn obeys_eq_spec() -> bool {
        true
    }

    open spec fn eq_spec(&self, other: &Self) -> bool {
        self.spec_size() == other.spec_size() && self.values() == other.values()
    }
}

impl<S: Size, V: VectorSymbolicArchitecture, T: VectorType<V>> Eq for Vector<S, V, T> {

}

/// Whether `steps` bundles the vectors `vs` one after the other: the first as the
/// accumulator of itself alone, each further one bundled onto the step before.
pub open spec fn bundle_chain<V: VectorSymbolicArchitecture>(
    vs: Seq<Seq<int>>,
    steps: Seq<V::Accumulator>,
) -> bool {
    &&& vs.len() > 0
    &&& steps.len() == vs.len()
    &&& V::denormalizes_to(vs[0], steps[0])
    &&& forall|i: int| 1 <= i < steps.len() ==> V::bundles_to(steps[i - 1], vs[i], #[trigger] steps[i])
}

/// Whether `r` is the normalized sum of the vectors `vs`: all of them bundled one
/// after the other, then normalized.
pub open spec fn normalized_sum<V: VectorSymbolicArchitecture>(vs: Seq<Seq<int>>, r: Seq<int>) -> bool {
    exists|steps: Seq<V::Accumulator>| bundle_chain::<V>(vs, steps) && V::normalizes_to(steps.last(), r)
}

impl<S: Size, V: VectorSymbolicArchitecture> EvaluateOps for Vector<S, V, Normalized<V>> {
    open spec fn dimension(&self) -> nat {
        self.spec_size()
    }

    open spec fn is_sum(values: Seq<Self>, r: Self) -> bool {
        &&& r.spec_size() == values[0].spec_size()
        &&& normalized_sum::<V>(values.map_values(|v: Self| v.values()), r.values())
    }

    open spec fn is_product(lhs: Self, rhs: Self, r: Self) -> bool {
        &&& r.spec_size() == lhs.spec_size()
        &&& r.values() == V::spec_bind(lhs.values(), rhs.values())
    }

    fn add_many(values: &[Self]) -> (r: Self) {
        let ghost vs = values@.map_values(|v: Self| v.values());
        let mut acc = values[0].duplicate().denormalize();
        let ghost mut steps: Seq<V::Accumulator> = seq![acc.accumulator()];
        proof {
            V::lemma_max_weight();
        }
        let mut i: usize = 1;
        while i < values.len()
            invariant
                1 <= i <= values@.len(),
                values@.len() <= 0x7fff_ffff,
                V::max_weight() >= 0x7fff_ffff,
                vs == values@.map_values(|v: Self| v.values()),
                forall|k: int| 0 <= k < values@.len() ==> (#[trigger] values@[k]).spec_size() == values@[0].spec_size(),
                acc.spec_size() == values@[0].spec_size(),
                V::weight(acc.accumulator()) <= i,
                steps.len() == i,
                V::denormalizes_to(vs[0], steps[0]),
                forall|k: int| 1 <= k < i ==> V::bundles_to(steps[k - 1], vs[k], #[trigger] steps[k]),
                steps.last() == acc.accumulator(),
            decreases values@.len() - i,
        {
            let next = acc.bundle(&values[i]);
            proof {
                steps = steps.push(next.accumulator());
            }
            acc = next;
            i = i + 1;
        }
        let ghost last = acc.accumulator();
        let r = acc.normalize();
        assert(bundle_chain::<V>(vs, steps) && V::normalizes_to(steps.last(), r.values()));
        r
    }

    fn multiply(lhs: &Self, rhs: &Self) -> (r: Self) {
        lhs.bind_with(rhs)
    }
}

} // verus!
