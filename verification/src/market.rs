//! Market conditions shared read-only across a whole simulation.

use vstd::prelude::*;

verus! {

/// A single scalar: the yearly inflation rate, in micro-units.
#[derive(Clone, Copy, Debug)]
pub struct MarketConditions {
    pub inflation: i64,
}

impl MarketConditions {
    pub fn new(inflation: i64) -> (r: MarketConditions)
        ensures
            r.inflation == inflation,
    {
        MarketConditions { inflation }
    }

    pub fn inflation_yearly(&self) -> (r: i64)
        ensures
            r == self.inflation,
    {
        self.inflation
    }
}

} // verus!
