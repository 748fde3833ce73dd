//! Bit vectors of the `bitvec` crate, as the library reads and writes them.

use bitvec::order::Lsb0;
use bitvec::vec::BitVec;
use vstd::prelude::*;

verus! {

/// The bit vectors hypervectors are stored in: bit `i` is the `i`-th element. The
/// `bitvec` vector is kept in a private field, read and written only through the
/// functions of this module.
#[verifier::external_body]
#[derive(Debug)]
pub struct Bits {
    inner: BitVec<usize, Lsb0>,
}

/// The bits a bit vector holds, in index order.
pub uninterp spec fn bit_values(v: Bits) -> Seq<bool>;

/// The largest number of bits a bit vector can hold (`BitSlice::MAX_BITS`: the
/// length field gives up three bits of a `usize`).
pub open spec fn max_bits() -> nat {
    (usize::MAX / 8) as nat
}

/// The number of set bits in a sequence.
pub open spec fn count_true(s: Seq<bool>) -> nat
    decreases s.len(),
{
    if s.len() == 0 {
        0
    } else {
        count_true(s.drop_last()) + if s.last() {
            1nat
        } else {
            0nat
        }
    }
}

/// The sequence rotated to the right by `by` places: the last `by` elements come first.
pub open spec fn rotated_right<A>(s: Seq<A>, by: int) -> Seq<A> {
    s.subrange(s.len() - by, s.len() as int) + s.subrange(0, s.len() - by)
}

/// `BitVec::new`: an empty bit vector.
#[verifier::external_body]
pub(crate) fn new_bits() -> (v: Bits)
    ensures
        bit_values(v) == Seq::<bool>::empty(),
{
    Bits { inner: BitVec::new() }
}

/// `BitVec::push`: appends one bit; it panics beyond `max_bits()` bits.
#[verifier::external_body]
pub(crate) fn push_bit(v: &mut Bits, b: bool)
    requires
        bit_values(*old(v)).len() < max_bits(),
    ensures
        bit_values(*final(v)) == bit_values(*old(v)).push(b),
{
    v.inner.push(b);
}

/// `BitVec::len`: the number of bits.
#[verifier::external_body]
pub(crate) fn bit_len(v: &Bits) -> (n: usize)
    ensures
        n == bit_values(*v).len(),
{
    v.inner.len()
}

/// Indexing a bit vector: the bit at `i`; it panics out of bounds.
#[verifier::external_body]
pub(crate) fn bit_at(v: &Bits, i: usize) -> (b: bool)
    requires
        i < bit_values(*v).len(),
    ensures
        b == bit_values(*v)[i as int],
{
    v.inner[i]
}

/// `^=` on bit vectors of the same length: each bit becomes the exclusive or.
#[verifier::external_body]
pub(crate) fn xor_assign(a: &mut Bits, b: &Bits)
    requires
        bit_values(*old(a)).len() == bit_values(*b).len(),
    ensures
        bit_values(*final(a)) == Seq::new(
            bit_values(*old(a)).len(),
            |i: int| bit_values(*old(a))[i] != bit_values(*b)[i],
        ),
{
    a.inner ^= &b.inner;
}

/// `!` on a bit vector: each bit is flipped.
#[verifier::external_body]
pub(crate) fn not_bits(v: Bits) -> (r: Bits)
    ensures
        bit_values(r) == Seq::new(bit_values(v).len(), |i: int| !bit_values(v)[i]),
{
    Bits { inner: !v.inner }
}

/// `BitSlice::rotate_right`: the last `by` bits move to the front; it panics when
/// `by` exceeds the length.
#[verifier::external_body]
pub(crate) fn rotate_bits_right(v: &mut Bits, by: usize)
    requires
        by <= bit_values(*old(v)).len(),
    ensures
        bit_values(*final(v)) == rotated_right(bit_values(*old(v)), by as int),
{
    v.inner.rotate_right(by);
}

/// `BitSlice::count_ones`: the number of set bits.
#[verifier::external_body]
pub(crate) fn count_ones(v: &Bits) -> (n: usize)
    ensures
        n == count_true(bit_values(*v)),
{
    v.inner.count_ones()
}

/// `Clone` of a bit vector: the same bits.
#[verifier::external_body]
pub(crate) fn clone_bits(v: &Bits) -> (r: Bits)
    ensures
        bit_values(r) == bit_values(*v),
{
    Bits { inner: v.inner.clone() }
}

/// `==` on bit vectors: same length and the same bits.
#[verifier::external_body]
pub(crate) fn bits_equal(a: &Bits, b: &Bits) -> (r: bool)
    ensures
        r == (bit_values(*a) == bit_values(*b)),
{
    a.inner == b.inner
}

} // verus!

verus! {

impl Clone for Bits {
    fn clone(&self) -> (r: Self)
        ensures
            bit_values(r) == bit_values(*self),
    {
        clone_bits(self)
    }
}

} // verus!
