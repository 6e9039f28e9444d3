//! Change observation for repeatedly evaluated values.
//!
//! An `Evaluator` remembers the last value it observed and reports
//! whether a newly observed value equals it — the decision behind
//! "evaluate and say so when nothing changed" reporting, with the
//! reporting itself left to the caller.

use vstd::prelude::*;

use crate::value::{ValV, Value, value_eq};

verus! {

/// Remembers the previously observed value.
pub struct Evaluator {
    pub(crate) prev: Option<Value>,
}

impl View for Evaluator {
    type V = Option<ValV>;

    open(crate) spec fn view(&self) -> Option<ValV> {
        match self.prev {
            Some(ref p) => Some(p@),
            None => None,
        }
    }
}

impl Evaluator {
    /// An evaluator that has observed nothing yet.
    pub fn new() -> (r: Evaluator)
        ensures
            r@ == None::<ValV>,
    {
        Evaluator { prev: None }
    }

    /// Observes a newly computed value: reports whether it equals the
    /// previously observed one, and remembers it.  The first observation
    /// never reports equality.
    pub fn observe(&mut self, v: Value) -> (unchanged: bool)
        ensures
            unchanged == (old(self)@ == Some(v@)),
            final(self)@ == Some(v@),
    {
        let unchanged = match &self.prev {
            Some(p) => value_eq(p, &v),
            None => false,
        };
        self.prev = Some(v);
        unchanged
    }
}

} // verus!
