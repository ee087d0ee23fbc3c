use vstd::prelude::*;

verus! {

/// How many items each level of a quad tree holds before it splits.
pub trait Capacity: Copy + Sized {
    /// The capacity that this value stands for.
    spec fn cap(&self) -> nat;

    /// The capacity of each level.
    fn capacity(&self) -> (r: usize)
        ensures
            r == self.cap(),
    ;
}

/// A capacity known at compile time.
#[derive(Debug, PartialEq, Eq, PartialOrd, Ord, Clone, Copy, Hash)]
pub struct ConstCap<const CAP: usize>;

impl<const CAP: usize> Capacity for ConstCap<CAP> {
    open spec fn cap(&self) -> nat {
        CAP as nat
    }

    fn capacity(&self) -> (r: usize) {
        CAP
    }
}

/// A capacity known at run time.
#[derive(Debug, PartialEq, Eq, PartialOrd, Ord, Clone, Copy, Hash)]
pub struct DynCap(pub(crate) usize);

impl DynCap {
    /// Create a new capacity of `cap` items per level.
    pub fn new(cap: usize) -> (r: Self)
        ensures
            r.cap() == cap,
    {
        DynCap(cap)
    }
}

impl Capacity for DynCap {
    closed spec fn cap(&self) -> nat {
        self.0 as nat
    }

    fn capacity(&self) -> (r: usize) {
        self.0
    }
}

} // verus!
