//! A predicate, and what it has been asked.
//!
//! The fields are private to this module, so that a predicate can be asked in one way only, and
//! every question is on record.
use arrow_array::BooleanArray;
use arrow_schema::ArrowError;
use std::sync::Arc;
use vstd::prelude::*;

use crate::arrow::ArrowArray;
use crate::predicate::{
    PredicateSlot, PrimitiveDictionaryPredicate, UnconfiguredPrimitivePredicate,
};

verus! {

/// A predicate with the arrays that it has been asked about, in order.
pub struct Asked<P> {
    slot: PredicateSlot<P>,
    log: Ghost<Seq<ArrowArray>>,
}

impl<P: PrimitiveDictionaryPredicate> Asked<P> {
    /// The predicate.
    pub closed spec fn slot(self) -> PredicateSlot<P> {
        self.slot
    }

    /// The arrays that it has been asked about.
    pub closed spec fn log(self) -> Seq<ArrowArray> {
        self.log@
    }

    /// No predicate has been given, and nothing has been asked.
    pub fn nobody() -> (r: Self)
        ensures
            r.slot() is Unconfigured,
            r.log() == Seq::<ArrowArray>::empty(),
    {
        Asked {
            slot: PredicateSlot::Unconfigured(UnconfiguredPrimitivePredicate),
            log: Ghost(Seq::empty()),
        }
    }

    /// A predicate that has not been asked yet.
    pub fn new(predicate: Arc<P>) -> (r: Self)
        ensures
            r.slot() == PredicateSlot::Configured(predicate),
            r.log() == Seq::<ArrowArray>::empty(),
    {
        Asked { slot: PredicateSlot::Configured(predicate), log: Ghost(Seq::empty()) }
    }

    /// Asks the predicate which of `values` it holds for.
    pub fn ask(&mut self, values: ArrowArray) -> (r: Result<BooleanArray, ArrowError>)
        ensures
            final(self).slot() == old(self).slot(),
            final(self).log() == old(self).log().push(values),
            old(self).slot().answers(values, r),
    {
        self.log = Ghost(self.log@.push(values));
        self.slot.evaluate(values)
    }
}

/// A predicate that is handed to one decoder after another.
pub struct Kept<P> {
    predicate: Arc<P>,
}

impl<P: PrimitiveDictionaryPredicate> Kept<P> {
    /// The predicate.
    pub closed spec fn predicate(self) -> P {
        *self.predicate
    }

    pub fn new(predicate: Arc<P>) -> (r: Self)
        ensures
            r.predicate() == *predicate,
    {
        Kept { predicate }
    }

    /// The predicate, to be asked anew.
    pub fn share(&self) -> (r: Asked<P>)
        ensures
            r.slot() is Configured,
            *r.slot()->Configured_0 == self.predicate(),
            r.log() == Seq::<ArrowArray>::empty(),
    {
        Asked::new(Arc::clone(&self.predicate))
    }
}

} // verus!
