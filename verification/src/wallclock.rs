//! What an action's deadline makes of its outcome.

use vstd::prelude::*;

use crate::error::{ErrorView, KernelError};
use crate::limits::Timeout;

verus! {

/// How long past the deadline a future that ignores its cancellation is left to run, in
/// milliseconds.
pub const WALLCLOCK_DROP_GRACE_MS: u64 = 100;

/// The outcome of an action under a deadline.
pub struct WallclockOutcome<T> {
    pub result: Result<T, KernelError>,
    /// Whether the action was dropped before it resolved, so that none of its own cleanup ran.
    pub abandoned: bool,
}

/// Whether an error is the form that a cancellation takes on its way out of an action: the action's
/// own, or that of a callee.
pub open spec fn is_cancellation(e: ErrorView) -> bool
    decreases e,
{
    match e {
        ErrorView::Cancelled { .. } => true,
        ErrorView::ExecutionTimeout { .. } => true,
        ErrorView::CalleeFailed { step_id, plugin, action, source } => is_cancellation(*source),
        _ => false,
    }
}

/// Whether an error is the form that a cancellation takes on its way out of an action.
pub fn stopped_by_cancellation(err: &KernelError) -> (r: bool)
    ensures
        r == is_cancellation(err@),
    decreases err,
{
    match err {
        KernelError::Cancelled { .. } => true,
        KernelError::ExecutionTimeout { .. } => true,
        KernelError::CalleeFailed { source, .. } => stopped_by_cancellation(source),
        _ => false,
    }
}

/// The milliseconds that an expired deadline reports.
pub open spec fn reported_ms(timeout: Timeout) -> u64 {
    (timeout.total() / 1_000_000) as u64
}

/// What an action resolved to, where it did: well, or with an error.
pub open spec fn resolved<T>(outcome: Option<Result<T, KernelError>>) -> Option<Option<ErrorView>> {
    match outcome {
        None => None,
        Some(Ok(_)) => Some(None),
        Some(Err(e)) => Some(Some(e@)),
    }
}

/// An action has timed out: it was dropped, or its deadline cancelled it and it resolved to a result or
/// to a cancellation.
pub open spec fn times_out(outcome: Option<Option<ErrorView>>, expired: bool) -> bool {
    match outcome {
        None => true,
        Some(None) => expired,
        Some(Some(e)) => expired && is_cancellation(e),
    }
}

/// Decides what is reported of an action that ran under a deadline.
///
/// `outcome` is what the action resolved to, or `None` where it had to be dropped; `expired` tells
/// that the deadline, and nobody before it, cancelled the action. A dropped action, and one that was
/// cancelled by the deadline and resolved to a result or to a cancellation, have timed out; any
/// other outcome is the action's own.
pub fn settle<T>(timeout: Timeout, outcome: Option<Result<T, KernelError>>, expired: bool) -> (r:
    WallclockOutcome<T>)
    requires
        timeout.wf(),
    ensures
        r.abandoned == (outcome is None),
        if times_out(resolved(outcome), expired) {
            r.result is Err && r.result->Err_0@ == (ErrorView::ExecutionTimeout {
                timeout_ms: reported_ms(timeout),
            })
        } else {
            outcome is Some && r.result == outcome->0
        },
{
    let timeout_ms: u64 = timeout.as_millis() as u64;
    match outcome {
        None => WallclockOutcome {
            result: Err(KernelError::ExecutionTimeout { timeout_ms }),
            abandoned: true,
        },
        Some(Ok(v)) => if expired {
            WallclockOutcome {
                result: Err(KernelError::ExecutionTimeout { timeout_ms }),
                abandoned: false,
            }
        } else {
            WallclockOutcome { result: Ok(v), abandoned: false }
        },
        Some(Err(e)) => if expired && stopped_by_cancellation(&e) {
            WallclockOutcome {
                result: Err(KernelError::ExecutionTimeout { timeout_ms }),
                abandoned: false,
            }
        } else {
            WallclockOutcome { result: Err(e), abandoned: false }
        },
    }
}

} // verus!
