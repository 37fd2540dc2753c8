//! Functions that the driver provides.
use vstd::prelude::*;

verus! {

/// The clock: a function of no arguments whose value, the milliseconds
/// since the Unix epoch as a number, the driver supplies.
#[derive(Debug)]
pub struct NativeClock {}

impl NativeClock {
    /// The clock.
    pub fn new() -> (clock: Self) {
        Self {  }
    }

    /// The clock takes no argument.
    pub fn arity(&self) -> (count: usize)
        ensures
            count == 0,
    {
        0
    }

    /// The name under which the clock stands in the globals.
    pub fn name(&self) -> (name: String)
        ensures
            name@ == "clock"@,
    {
        String::from_str("clock")
    }
}

} // verus!
