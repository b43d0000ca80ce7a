//! Conversions between a gas quantity and its bare count of units.

use crate::gas::Gas;
use vstd::prelude::*;
use vstd::std_specs::convert::FromSpecImpl;

verus! {

impl Default for Gas {
    /// No gas at all.
    fn default() -> (gas: Gas)
        ensures
            gas == Gas(0),
    {
        Gas(0)
    }
}

impl From<u64> for Gas {
    /// The amount of `amount` gas units.
    fn from(amount: u64) -> (gas: Gas) {
        Gas(amount)
    }
}

impl FromSpecImpl<u64> for Gas {
    open spec fn obeys_from_spec() -> bool {
        true
    }

    open spec fn from_spec(amount: u64) -> Gas {
        Gas(amount)
    }
}

impl From<Gas> for u64 {
    /// The gas units in `gas`.
    fn from(gas: Gas) -> (units: u64) {
        gas.0
    }
}

impl FromSpecImpl<Gas> for u64 {
    open spec fn obeys_from_spec() -> bool {
        true
    }

    open spec fn from_spec(gas: Gas) -> u64 {
        gas.0
    }
}

} // verus!
