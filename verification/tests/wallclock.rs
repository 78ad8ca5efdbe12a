//! What a deadline makes of an action's outcome.

use std::sync::Arc;

use gwead::error::KernelError;
use gwead::json::Json;
use gwead::limits::{effective_wallclock_timeout, RuntimeLimits, Timeout};
use gwead::manifest::Action;
use gwead::wallclock::{settle, stopped_by_cancellation};

fn host_cancelled() -> KernelError {
    KernelError::PluginError {
        code: "host_cancelled".into(),
        message: String::new(),
        params: Json::Null,
    }
}

fn cancelled() -> KernelError {
    KernelError::Cancelled {
        at_step: "s".into(),
    }
}

/// An action that never resolves is dropped: `ExecutionTimeout`, and abandoned, since none of its
/// own cleanup ran.
#[test]
fn an_action_that_never_resolves_is_abandoned() {
    let outcome = settle::<u8>(Timeout::from_millis(20), None, true);
    assert!(outcome.abandoned);
    assert!(matches!(
        outcome.result,
        Err(KernelError::ExecutionTimeout { timeout_ms: 20 })
    ));
}

#[test]
fn cancellation_after_the_watchdog_fired_is_the_deadline_not_abandoned() {
    let outcome = settle::<u8>(Timeout::from_millis(20), Some(Err(cancelled())), true);
    assert!(!outcome.abandoned);
    assert!(matches!(
        outcome.result,
        Err(KernelError::ExecutionTimeout { timeout_ms: 20 })
    ));
}

#[test]
fn callee_deadline_after_the_watchdog_fired_is_the_deadline() {
    let callee = KernelError::CalleeFailed {
        step_id: "call".into(),
        plugin: "callee".into(),
        action: "go".into(),
        source: Arc::new(KernelError::ExecutionTimeout { timeout_ms: 20 }),
    };
    assert!(stopped_by_cancellation(&callee));
    let outcome = settle::<u8>(Timeout::from_millis(20), Some(Err(callee)), true);
    assert!(matches!(
        outcome.result,
        Err(KernelError::ExecutionTimeout { timeout_ms: 20 })
    ));
}

#[test]
fn own_failure_after_the_watchdog_fired_passes_through() {
    assert!(!stopped_by_cancellation(&host_cancelled()));
    let outcome = settle::<u8>(Timeout::from_millis(20), Some(Err(host_cancelled())), true);
    assert!(!outcome.abandoned);
    assert!(matches!(
        outcome.result,
        Err(KernelError::PluginError { code, .. }) if code == "host_cancelled"
    ));
}

#[test]
fn ok_after_the_watchdog_fired_is_the_deadline() {
    let outcome = settle(Timeout::from_millis(20), Some(Ok(1u8)), true);
    assert!(!outcome.abandoned);
    assert!(matches!(
        outcome.result,
        Err(KernelError::ExecutionTimeout { timeout_ms: 20 })
    ));
}

/// The caller's own cancel is not the watchdog's: the action's error passes through.
#[test]
fn caller_cancel_before_the_deadline_is_not_claimed_by_the_watchdog() {
    let outcome = settle::<u8>(Timeout::from_millis(20), Some(Err(host_cancelled())), false);
    assert!(!outcome.abandoned);
    assert!(matches!(
        outcome.result,
        Err(KernelError::PluginError { code, .. }) if code == "host_cancelled"
    ));
}

#[test]
fn error_inside_the_deadline_passes_through() {
    let outcome = settle::<u8>(Timeout::from_secs(10), Some(Err(host_cancelled())), false);
    assert!(!outcome.abandoned);
    assert!(matches!(
        outcome.result,
        Err(KernelError::PluginError { code, .. }) if code == "host_cancelled"
    ));
}

#[test]
fn what_the_deadline_did_not_stop_passes_through() {
    let outcome = settle(Timeout::from_secs(10), Some(Ok(7u8)), false);
    assert!(matches!(outcome.result, Ok(7)));
    let outcome = settle::<u8>(Timeout::from_secs(10), Some(Err(cancelled())), false);
    assert!(matches!(
        outcome.result,
        Err(KernelError::Cancelled { at_step }) if at_step == "s"
    ));
}

#[test]
fn an_action_may_ask_for_less_and_not_for_more_than_the_ceiling() {
    let limits = RuntimeLimits::default()
        .with_default_wallclock_timeout(Timeout::from_secs(30))
        .with_max_wallclock_timeout(Timeout::from_secs(60));
    let ask = |ms: Option<u64>| Action {
        wallclock_timeout_ms: ms,
        ..Action::default()
    };
    let at = |ms: Option<u64>| {
        effective_wallclock_timeout(&limits, &ask(ms)).map(|t| t.as_millis())
    };
    assert_eq!(at(Some(5_000)), Some(5_000));
    assert_eq!(at(Some(90_000)), Some(60_000));
    assert_eq!(at(None), Some(30_000));
    assert!(Timeout::from_millis(1_500).is_within(&Timeout::from_secs(2)));
    assert!(!Timeout::from_secs(3).is_within(&Timeout::from_secs(2)));
}
