//! A dictionary that several buffers and a decoder hold at once.
//!
//! Keys refer to one particular dictionary. That another one holds the same values does not make it
//! the same: it lies elsewhere in memory.
use std::sync::Arc;
use vstd::prelude::*;

verus! {

/// A dictionary: the allocation that it lies in, and the values there.
#[verifier::ext_equal]
pub struct Dictionary<A> {
    pub allocation: int,
    pub values: Seq<A>,
}

/// A handle to a dictionary.
pub struct SharedDictionary<A> {
    handle: Arc<Vec<A>>,
    allocation: Ghost<int>,
}

impl<A> View for SharedDictionary<A> {
    type V = Dictionary<A>;

    closed spec fn view(&self) -> Dictionary<A> {
        Dictionary { allocation: self.allocation@, values: self.handle@ }
    }
}

impl<A> SharedDictionary<A> {
    /// `Arc::new` puts the values into an allocation. Nothing is claimed of which one that is.
    #[verifier::external_body]
    fn allocate(values: Vec<A>) -> (r: Self)
        ensures
            r@.values == values@,
    {
        SharedDictionary { handle: Arc::new(values), allocation: Ghost(arbitrary()) }
    }

    /// `Arc::clone` gives another handle to the same allocation.
    #[verifier::external_body]
    pub(crate) fn share(&self) -> (r: Self)
        ensures
            r@ == self@,
    {
        SharedDictionary { handle: Arc::clone(&self.handle), allocation: self.allocation }
    }

    /// `Arc::ptr_eq` tells whether two handles point to the same allocation, and so to the same
    /// values.
    #[verifier::external_body]
    pub(crate) fn is_same(&self, other: &Self) -> (r: bool)
        ensures
            r == (self@.allocation == other@.allocation),
            r ==> self@ == other@,
    {
        Arc::ptr_eq(&self.handle, &other.handle)
    }

    /// A dictionary of its own.
    pub fn new(values: Vec<A>) -> (r: Self)
        ensures
            r@.values == values@,
    {
        Self::allocate(values)
    }

    /// The values.
    pub fn values(&self) -> (r: &Vec<A>)
        ensures
            r@ == self@.values,
    {
        &self.handle
    }
}

} // verus!
