use vstd::prelude::*;

use crate::error::PerfError;

verus! {

/// The process-wide session state: a one-way flag that moves from
/// "not initialized" to "initialized" exactly once.
pub struct SessionGuard {
    initialized: bool,
}

/// The state that follows an initialization attempt from state `initialized`.
pub open spec fn init_next(initialized: bool) -> bool {
    true
}

/// The outcome of an initialization attempt from state `initialized`.
pub open spec fn init_result(initialized: bool) -> Result<(), PerfError> {
    if initialized {
        Err(PerfError::DoubleInitialization)
    } else {
        Ok(())
    }
}

/// The outcomes of `n` successive initialization attempts, the first made
/// from state `initialized`.
pub open spec fn init_outcomes(initialized: bool, n: nat) -> Seq<Result<(), PerfError>>
    decreases n,
{
    if n == 0 {
        Seq::empty()
    } else {
        seq![init_result(initialized)] + init_outcomes(init_next(initialized), (n - 1) as nat)
    }
}

impl View for SessionGuard {
    type V = bool;

    closed spec fn view(&self) -> bool {
        self.initialized
    }
}

impl SessionGuard {
    /// A guard in the state "not initialized".
    pub fn new() -> (g: SessionGuard)
        ensures
            !g@,
    {
        SessionGuard { initialized: false }
    }

    /// Whether a session has been started.
    pub fn is_initialized(&self) -> (r: bool)
        ensures
            r == self@,
    {
        self.initialized
    }

    /// Test-and-set: succeeds only on the first call, after which the guard
    /// stays initialized and every later call fails with
    /// `DoubleInitialization`.
    pub fn try_initialize(&mut self) -> (r: Result<(), PerfError>)
        ensures
            r == init_result(old(self)@),
            final(self)@ == init_next(old(self)@),
    {
        if self.initialized {
            Err(PerfError::DoubleInitialization)
        } else {
            self.initialized = true;
            Ok(())
        }
    }
}

/// The event configuration handed to the counter backend: the configured
/// value where one is given, the empty string (the backend's default set)
/// where none is.
pub fn resolve_event_config(configured: Option<String>) -> (r: String)
    ensures
        match configured {
            Some(s) => r@ == s@,
            None => r@ == Seq::<char>::empty(),
        },
{
    match configured {
        Some(s) => s,
        None => String::new(),
    }
}

/// Starts a session on `guard`: on the first call, returns the event
/// configuration to prepare the backend with; on every later call, fails with
/// `DoubleInitialization` and leaves the guard as it was.
pub fn prepare_session(guard: &mut SessionGuard, configured: Option<String>) -> (r: Result<String, PerfError>)
    ensures
        final(guard)@,
        old(guard)@ ==> r == Err::<String, PerfError>(PerfError::DoubleInitialization),
        !old(guard)@ ==> (r matches Ok(c) && match configured {
            Some(s) => c@ == s@,
            None => c@ == Seq::<char>::empty(),
        }),
{
    match guard.try_initialize() {
        Ok(()) => Ok(resolve_event_config(configured)),
        Err(e) => Err(e),
    }
}

/// At most one initialization succeeds: of any number of successive attempts
/// on a fresh guard, the first succeeds and every later one fails with
/// `DoubleInitialization`.
pub proof fn lemma_single_initialization(n: nat)
    ensures
        init_outcomes(false, n).len() == n,
        forall|i: int| 0 <= i < n ==> (#[trigger] init_outcomes(false, n)[i] is Ok <==> i == 0),
        forall|i: int| 1 <= i < n ==> #[trigger] init_outcomes(false, n)[i] == Err::<(), PerfError>(PerfError::DoubleInitialization),
    decreases n,
{
    if n > 0 {
        lemma_initialized_always_fails((n - 1) as nat);
    }
}

/// Once initialized, every further attempt fails.
proof fn lemma_initialized_always_fails(n: nat)
    ensures
        init_outcomes(true, n).len() == n,
        forall|i: int| 0 <= i < n ==> #[trigger] init_outcomes(true, n)[i] == Err::<(), PerfError>(PerfError::DoubleInitialization),
    decreases n,
{
    if n > 0 {
        lemma_initialized_always_fails((n - 1) as nat);
    }
}

} // verus!
