//! The engine's error type: a failing function's name paired with the
//! subsystem the failure came from.

use vstd::prelude::*;

verus! {

/// The subsystem a failure originated in.
#[derive(Clone, Copy, Debug, Eq, PartialEq, Structural)]
pub enum Kind {
    /// The hardware abstraction layer reported an error.
    Alsa,
    /// The engine itself rejected an input or a state.
    Zinnia,
    /// A coordination channel between pipeline stages failed.
    Channel,
    /// Waiting on the device failed.
    Poll,
}

/// An error: the name of the function that failed and the subsystem.
#[derive(Clone, Copy, Debug, PartialEq)]
pub struct Error(&'static str, Kind);

impl Error {
    /// The name of the function that failed, as seen by contracts.
    pub closed spec fn spec_func(&self) -> &'static str {
        self.0
    }

    /// The subsystem of the failure, as seen by contracts.
    pub closed spec fn spec_kind(&self) -> Kind {
        self.1
    }

    /// Builds an error from a function name and a subsystem.
    pub fn new(func: &'static str, kind: Kind) -> (e: Error)
        ensures
            e.spec_func() == func,
            e.spec_kind() == kind,
    {
        Error(func, kind)
    }

    /// The subsystem the error came from.
    pub fn kind(&self) -> (k: Kind)
        ensures
            k == self.spec_kind(),
    {
        self.1
    }

    /// The name of the function that reported the error.
    pub fn func(&self) -> (f: &'static str)
        ensures
            f == self.spec_func(),
    {
        self.0
    }
}

} // verus!
