//! Lengths of time in whole seconds.

use vstd::prelude::*;

verus! {

/// A length of time.
#[derive(Clone, Copy, PartialEq, Eq, Structural, Debug)]
pub struct Duration {
    pub secs: u64,
}

impl Duration {
    /// A duration of whole seconds.
    pub fn from_secs(secs: u64) -> (r: Duration)
        ensures
            r.secs == secs,
    {
        Duration { secs }
    }

    /// The number of seconds.
    pub fn as_secs(&self) -> (r: u64)
        ensures
            r == self.secs,
    {
        self.secs
    }
}

/// The view of an optional duration.
pub open spec fn opt_secs(o: Option<Duration>) -> Option<nat> {
    match o {
        Some(d) => Some(d.secs as nat),
        None => None,
    }
}

} // verus!
