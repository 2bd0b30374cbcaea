use vstd::prelude::*;

verus! {

/// The fatal conditions of a measurement session.
#[derive(Debug, Clone, Copy, PartialEq, Eq, Structural)]
pub enum PerfError {
    /// `initialize` was called after a session had already been started.
    DoubleInitialization,
    /// A counter record carried a name that is not valid UTF-8.
    InvalidEventName,
}

} // verus!
