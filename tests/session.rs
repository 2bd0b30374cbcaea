use perfmon::{PerfError, SessionGuard, prepare_session, resolve_event_config};

#[test]
fn fresh_guard_is_not_initialized() {
    let guard = SessionGuard::new();
    assert!(!guard.is_initialized());
}

#[test]
fn first_initialization_succeeds() {
    let mut guard = SessionGuard::new();
    assert_eq!(guard.try_initialize(), Ok(()));
    assert!(guard.is_initialized());
}

#[test]
fn second_initialization_fails() {
    let mut guard = SessionGuard::new();
    assert_eq!(guard.try_initialize(), Ok(()));
    assert_eq!(guard.try_initialize(), Err(PerfError::DoubleInitialization));
    assert!(guard.is_initialized());
}

#[test]
fn only_the_first_of_many_attempts_succeeds() {
    let mut guard = SessionGuard::new();
    let outcomes: Vec<Result<(), PerfError>> = (0..10).map(|_| guard.try_initialize()).collect();
    assert_eq!(outcomes[0], Ok(()));
    for outcome in &outcomes[1..] {
        assert_eq!(*outcome, Err(PerfError::DoubleInitialization));
    }
}

#[test]
fn unset_configuration_becomes_empty() {
    assert_eq!(resolve_event_config(None), "");
}

#[test]
fn given_configuration_is_kept() {
    let events = "PERF_COUNT_HW_CACHE_DTLB:MISS,PERF_COUNT_HW_CACHE_ITLB:MISS";
    assert_eq!(resolve_event_config(Some(events.to_string())), events);
}

#[test]
fn prepare_without_configuration_succeeds() {
    let mut guard = SessionGuard::new();
    assert_eq!(prepare_session(&mut guard, None), Ok(String::new()));
    assert!(guard.is_initialized());
}

#[test]
fn prepare_passes_configuration_through() {
    let mut guard = SessionGuard::new();
    let events = "PERF_COUNT_HW_CACHE_DTLB:MISS,PERF_COUNT_HW_CACHE_ITLB:MISS";
    assert_eq!(prepare_session(&mut guard, Some(events.to_string())), Ok(events.to_string()));
}

#[test]
fn prepare_twice_fails_and_keeps_session() {
    let mut guard = SessionGuard::new();
    assert_eq!(prepare_session(&mut guard, Some("cycles".to_string())), Ok("cycles".to_string()));
    assert_eq!(prepare_session(&mut guard, None), Err(PerfError::DoubleInitialization));
    assert!(guard.is_initialized());
}
