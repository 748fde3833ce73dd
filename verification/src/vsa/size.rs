//! Vector sizes known at compile time or at run time.

use vstd::prelude::*;

verus! {

/// A trait abstracting over dynamic and fixed sizes.
pub trait Size: std::fmt::Debug + Copy + Eq {
    /// The size as a number.
    spec fn spec_size(&self) -> nat;

    /// Get the size as a usize.
    fn size(&self) -> (n: usize)
        ensures
            n == self.spec_size(),
    ;
}

/// A trait for fixed sizes.
pub trait FixedSize: Default + Size {
    /// The size as a compile-time constant.
    spec fn spec_fixed() -> nat;

    /// The size, without a value of the type.
    fn fixed_size() -> (n: usize)
        ensures
            n == Self::spec_fixed(),
    ;
}

/// A vector with a fixed size.
#[derive(Clone, Copy, PartialEq, Eq, Default, Debug)]
pub struct Fixed<const N: usize>;

impl<const N: usize> Size for Fixed<N> {
    open spec fn spec_size(&self) -> nat {
        N as nat
    }

    fn size(&self) -> (n: usize) {
        N
    }
}

impl<const N: usize> FixedSize for Fixed<N> {
    open spec fn spec_fixed() -> nat {
        N as nat
    }

    fn fixed_size() -> (n: usize) {
        N
    }
}

/// A vector with a dynamic size.
#[derive(Debug, Clone, Copy, PartialEq, Eq)]
pub struct Dynamic(usize);

impl Dynamic {
    /// A dynamic size; `None` for zero, as sizes are positive.
    pub fn new(size: usize) -> (d: Option<Self>)
        ensures
            d matches Some(d) ==> d.spec_size() == size,
            d is None <==> size == 0,
    {
        if size == 0 {
            None
        } else {
            Some(Dynamic(size))
        }
    }

    /// A dynamic size of `size` elements, zero allowed (as a slice's length gives).
    pub(crate) fn of_len(size: usize) -> (d: Self)
        ensures
            d.spec_size() == size,
    {
        Dynamic(size)
    }
}

impl Size for Dynamic {
    closed spec fn spec_size(&self) -> nat {
        self.0 as nat
    }

    fn size(&self) -> (n: usize) {
        self.0
    }
}

} // verus!
