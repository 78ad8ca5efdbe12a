//! What can go wrong in the kernel.

use vstd::prelude::*;

use crate::json::{Json, JsonView};
use crate::text::{cat2, cat3, cat4, cat5, decimal, decimal_text};

verus! {

/// An error of a kernel operation.
#[derive(Debug)]
#[non_exhaustive]
pub enum KernelError {
    Boot(String),
    NotFound(String),
    Validation(String),
    Runtime(String),
    Execution(String),
    FuelExhausted { budget: u64, detail: String },
    MemoryLimitExceeded { limit_bytes: usize },
    StepResultsLimitExceeded { limit_bytes: usize, attempted_bytes: usize },
    ExecutionTimeout { timeout_ms: u64 },
    Cancelled { at_step: String },
    CalleeFailed {
        step_id: String,
        plugin: String,
        action: String,
        source: std::sync::Arc<KernelError>,
    },
    PluginError { code: String, message: String, params: Json },
}

/// What a [`KernelError`] stands for.
pub enum ErrorView {
    Boot(Seq<char>),
    NotFound(Seq<char>),
    Validation(Seq<char>),
    Runtime(Seq<char>),
    Execution(Seq<char>),
    FuelExhausted { budget: u64, detail: Seq<char> },
    MemoryLimitExceeded { limit_bytes: usize },
    StepResultsLimitExceeded { limit_bytes: usize, attempted_bytes: usize },
    ExecutionTimeout { timeout_ms: u64 },
    Cancelled { at_step: Seq<char> },
    CalleeFailed {
        step_id: Seq<char>,
        plugin: Seq<char>,
        action: Seq<char>,
        source: Box<ErrorView>,
    },
    PluginError { code: Seq<char>, message: Seq<char>, params: JsonView },
}

/// What a [`KernelError`] stands for.
pub open spec fn error_view(e: KernelError) -> ErrorView
    decreases e,
{
    match e {
        KernelError::Boot(s) => ErrorView::Boot(s@),
        KernelError::NotFound(s) => ErrorView::NotFound(s@),
        KernelError::Validation(s) => ErrorView::Validation(s@),
        KernelError::Runtime(s) => ErrorView::Runtime(s@),
        KernelError::Execution(s) => ErrorView::Execution(s@),
        KernelError::FuelExhausted { budget, detail } => ErrorView::FuelExhausted {
            budget,
            detail: detail@,
        },
        KernelError::MemoryLimitExceeded { limit_bytes } => ErrorView::MemoryLimitExceeded {
            limit_bytes,
        },
        KernelError::StepResultsLimitExceeded { limit_bytes, attempted_bytes } =>
            ErrorView::StepResultsLimitExceeded { limit_bytes, attempted_bytes },
        KernelError::ExecutionTimeout { timeout_ms } => ErrorView::ExecutionTimeout { timeout_ms },
        KernelError::Cancelled { at_step } => ErrorView::Cancelled { at_step: at_step@ },
        KernelError::CalleeFailed { step_id, plugin, action, source } => ErrorView::CalleeFailed {
            step_id: step_id@,
            plugin: plugin@,
            action: action@,
            source: Box::new(error_view(*source)),
        },
        KernelError::PluginError { code, message, params } => ErrorView::PluginError {
            code: code@,
            message: message@,
            params: params@,
        },
    }
}

impl View for KernelError {
    type V = ErrorView;

    open spec fn view(&self) -> ErrorView {
        error_view(*self)
    }
}

impl ErrorView {
    /// The error in words.
    pub open spec fn text(self) -> Seq<char>
        decreases self,
    {
        match self {
            ErrorView::Boot(s) => "Kernel boot failed: "@ + s,
            ErrorView::NotFound(s) => "Plugin/action not found: "@ + s,
            ErrorView::Validation(s) => "Manifest validation failed: "@ + s,
            ErrorView::Runtime(s) => "Wasm runtime error: "@ + s,
            ErrorView::Execution(s) => "Execution error: "@ + s,
            ErrorView::FuelExhausted { budget, detail } => "Wasm fuel exhausted ("@ + decimal(
                budget as nat,
            ) + " unit budget): "@ + detail,
            ErrorView::MemoryLimitExceeded { limit_bytes } => "Wasm memory limit exceeded ("@
                + decimal(limit_bytes as nat) + " bytes)"@,
            ErrorView::StepResultsLimitExceeded { limit_bytes, attempted_bytes } =>
                "Step results exceeded the "@ + decimal(limit_bytes as nat)
                    + "-byte budget (needed "@ + decimal(attempted_bytes as nat)
                    + "). Step results accumulate across an action and one step may reference another's result more than once, so a chain of them grows geometrically; raise RuntimeLimits::max_step_results_bytes if this action legitimately holds this much."@,
            ErrorView::ExecutionTimeout { timeout_ms } => "Action wallclock timeout exceeded ("@
                + decimal(timeout_ms as nat) + " ms)"@,
            ErrorView::Cancelled { at_step } => "Action cancelled at step '"@ + at_step + "'"@,
            ErrorView::CalleeFailed { step_id, plugin, action, source } => callee_text(
                step_id,
                plugin,
                action,
            ) + source.text(),
            ErrorView::PluginError { code, message, params } => "Plugin error "@ + code + ": "@
                + message,
        }
    }
}

/// The words that lead to what a callee failed with.
pub open spec fn callee_text(step_id: Seq<char>, plugin: Seq<char>, action: Seq<char>) -> Seq<
    char,
> {
    "step '"@ + step_id + "' → "@ + plugin + "."@ + action + " failed: "@
}

/// The words that lead to what a callee failed with.
pub fn callee_words(step_id: &str, plugin: &str, action: &str) -> (r: String)
    ensures
        r@ == callee_text(step_id@, plugin@, action@),
{
    let mut m = cat5("step '", step_id, "' → ", plugin, ".");
    m.append(action);
    m.append(" failed: ");
    m
}

impl KernelError {
    /// The error in words.
    pub fn message(&self) -> (r: String)
        ensures
            r@ == self@.text(),
        decreases self,
    {
        match self {
            KernelError::Boot(s) => cat2("Kernel boot failed: ", s.as_str()),
            KernelError::NotFound(s) => cat2("Plugin/action not found: ", s.as_str()),
            KernelError::Validation(s) => cat2("Manifest validation failed: ", s.as_str()),
            KernelError::Runtime(s) => cat2("Wasm runtime error: ", s.as_str()),
            KernelError::Execution(s) => cat2("Execution error: ", s.as_str()),
            KernelError::FuelExhausted { budget, detail } => {
                let n = decimal_text(*budget);
                cat4("Wasm fuel exhausted (", n.as_str(), " unit budget): ", detail.as_str())
            },
            KernelError::MemoryLimitExceeded { limit_bytes } => {
                let n = decimal_text(*limit_bytes as u64);
                cat3("Wasm memory limit exceeded (", n.as_str(), " bytes)")
            },
            KernelError::StepResultsLimitExceeded { limit_bytes, attempted_bytes } => {
                let n = decimal_text(*limit_bytes as u64);
                let m = decimal_text(*attempted_bytes as u64);
                cat5(
                    "Step results exceeded the ",
                    n.as_str(),
                    "-byte budget (needed ",
                    m.as_str(),
                    "). Step results accumulate across an action and one step may reference another's result more than once, so a chain of them grows geometrically; raise RuntimeLimits::max_step_results_bytes if this action legitimately holds this much.",
                )
            },
            KernelError::ExecutionTimeout { timeout_ms } => {
                let n = decimal_text(*timeout_ms);
                cat3("Action wallclock timeout exceeded (", n.as_str(), " ms)")
            },
            KernelError::Cancelled { at_step } => cat3(
                "Action cancelled at step '",
                at_step.as_str(),
                "'",
            ),
            KernelError::CalleeFailed { step_id, plugin, action, source } => {
                let lead = callee_words(step_id.as_str(), plugin.as_str(), action.as_str());
                let why = source.message();
                cat2(lead.as_str(), why.as_str())
            },
            KernelError::PluginError { code, message, params: _ } => cat4(
                "Plugin error ",
                code.as_str(),
                ": ",
                message.as_str(),
            ),
        }
    }
}

/// `Arc::clone`: another handle to the same error.
#[verifier::external_body]
pub(crate) fn share(e: &std::sync::Arc<KernelError>) -> (r: std::sync::Arc<KernelError>)
    ensures
        r == *e,
{
    std::sync::Arc::clone(e)
}

/// A check reports exactly the given fault, as a validation error.
pub open spec fn rejects(r: Result<(), KernelError>, fault: Option<Seq<char>>) -> bool {
    match fault {
        None => r is Ok,
        Some(e) => r is Err && r->Err_0@ == ErrorView::Validation(e),
    }
}

} // verus!
