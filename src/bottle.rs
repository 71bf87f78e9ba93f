//! A bottle-filling machine whose state is part of its type: it waits, then
//! fills, then is done, and each step consumes the machine of the step before.
use std::time::Duration;
use vstd::prelude::*;

verus! {

/// Relies on `Duration::from_secs`, which builds a duration of whole seconds
/// and never panics; nothing is assumed of the value.
pub assume_specification[ Duration::from_secs ](secs: u64) -> Duration;

/// A machine holding `value`, in state `S`.
#[derive(Debug, PartialEq)]
pub struct BottleFillingMachine<S> {
    pub value: usize,
    pub state: S,
}

/// Waiting to start, for `time` so far.
#[derive(Debug, PartialEq)]
pub struct Waiting {
    pub time: Duration,
}

/// Filling at `rate`.
#[derive(Debug, PartialEq)]
pub struct Filling {
    pub rate: usize,
}

/// Finished.
#[derive(Debug, PartialEq)]
pub struct Done;

impl BottleFillingMachine<Waiting> {
    /// A machine for `value` that has not waited yet.
    pub fn new(value: usize) -> (r: Self)
        ensures
            r.value == value,
    {
        BottleFillingMachine { value, state: Waiting { time: Duration::from_secs(0) } }
    }
}

impl From<BottleFillingMachine<Waiting>> for BottleFillingMachine<Filling> {
    /// Starts filling, at rate 1, keeping the value.
    fn from(machine_state: BottleFillingMachine<Waiting>) -> (r: Self) {
        BottleFillingMachine { value: machine_state.value, state: Filling { rate: 1 } }
    }
}

impl vstd::std_specs::convert::FromSpecImpl<BottleFillingMachine<Waiting>> for BottleFillingMachine<Filling> {
    open spec fn obeys_from_spec() -> bool {
        true
    }

    open spec fn from_spec(v: BottleFillingMachine<Waiting>) -> Self {
        BottleFillingMachine { value: v.value, state: Filling { rate: 1 } }
    }
}

impl From<BottleFillingMachine<Filling>> for BottleFillingMachine<Done> {
    /// Stops filling, keeping the value.
    fn from(machine_state: BottleFillingMachine<Filling>) -> (r: Self) {
        BottleFillingMachine { value: machine_state.value, state: Done }
    }
}

impl vstd::std_specs::convert::FromSpecImpl<BottleFillingMachine<Filling>> for BottleFillingMachine<Done> {
    open spec fn obeys_from_spec() -> bool {
        true
    }

    open spec fn from_spec(v: BottleFillingMachine<Filling>) -> Self {
        BottleFillingMachine { value: v.value, state: Done }
    }
}

} // verus!
