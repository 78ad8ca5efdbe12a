//! What runs a step: the engine itself, for the steps that steer, or a host function.

use vstd::prelude::*;

use crate::control::iteration::LoopKind;
use crate::error::{ErrorView, KernelError};
use crate::exec_state::{stored, ExecutionState, StateView};
use crate::json::{Json, JsonView};
use crate::kernel::Kernel;
use crate::kernel::access::{explained, StepTypeAccess};
use crate::manifest::{StepDef, StepView};
use crate::manifest_checks::is_reserved_step_type;
use crate::registry::at;
use crate::text::{cat5, cat6, same};
use crate::wasm_runtime::{import_name, import_name_of};
use crate::waves::ran_view;

verus! {

/// What runs a step.
pub enum StepRoute {
    Loop(LoopKind),
    Ifs,
    Return,
    Try,
    Parallel,
    /// The host function of this name.
    Host(String),
}

/// What a [`StepRoute`] stands for.
pub enum RouteView {
    Loop(LoopKind),
    Ifs,
    Return,
    Try,
    Parallel,
    Host(Seq<char>),
}

impl View for StepRoute {
    type V = RouteView;

    open spec fn view(&self) -> RouteView {
        match self {
            StepRoute::Loop(k) => RouteView::Loop(*k),
            StepRoute::Ifs => RouteView::Ifs,
            StepRoute::Return => RouteView::Return,
            StepRoute::Try => RouteView::Try,
            StepRoute::Parallel => RouteView::Parallel,
            StepRoute::Host(name) => RouteView::Host(name@),
        }
    }
}

/// What runs a step of a type: the engine, for the types that steer; for the other types of the
/// kernel, and for those that may be used, the host function of the type that is meant; nothing for
/// the rest.
pub open spec fn route(step_type: Seq<char>, allowed: Map<Seq<char>, Seq<char>>) -> Option<RouteView> {
    if step_type == "for_each"@ {
        Some(RouteView::Loop(LoopKind::ForEach))
    } else if step_type == "repeat"@ {
        Some(RouteView::Loop(LoopKind::Repeat))
    } else if step_type == "ifs"@ {
        Some(RouteView::Ifs)
    } else if step_type == "return"@ {
        Some(RouteView::Return)
    } else if step_type == "try"@ {
        Some(RouteView::Try)
    } else if step_type == "parallel"@ {
        Some(RouteView::Parallel)
    } else if is_reserved_step_type(step_type) {
        Some(RouteView::Host(import_name(step_type)))
    } else {
        match at(allowed, step_type) {
            Some(key) => Some(RouteView::Host(import_name(key))),
            None => None,
        }
    }
}

/// Why a step is refused where the kernel cannot be asked.
pub open spec fn bare_refusal(caller: Seq<char>, step_type: Seq<char>) -> Seq<char> {
    "plugin '"@ + caller + "' may not use step type '"@ + step_type + "'. Add \"step_type:"@ + step_type
        + "\" to this manifest's `permissions`, or have the defining plugin mark its `stepTypeDefs` entry \"freelyUsable\": true"@
}

/// What runs a step, or why the plugin at hand may not use it; the reason is kept as the last error.
/// A kernel that is there is asked for the reason.
pub fn route_step<F: Fn(&str) -> Result<(), String>>(
    state: &mut ExecutionState,
    step: &StepDef,
    access: &StepTypeAccess,
    kernel: Option<&Kernel<F>>,
) -> (r: Result<StepRoute, KernelError>)
    requires
        old(state).wf(),
        access.wf(),
        kernel is Some ==> kernel->0.wf(),
    ensures
        final(state).wf(),
        match route(step.step_type@, access.allowed_view()) {
            Some(found) => r is Ok && r->Ok_0@ == found && final(state)@ == old(state)@,
            None => {
                &&& r is Err
                &&& r->Err_0@ is Validation
                &&& final(state)@ == (StateView {
                    last_error: Some(r->Err_0@->Validation_0),
                    ..old(state)@
                })
                &&& match kernel {
                    Some(k) => r->Err_0@->Validation_0 == explained(
                        k@.registry,
                        old(state)@.plugin_name,
                        step.step_type@,
                    ),
                    None => r->Err_0@->Validation_0 == bare_refusal(
                        old(state)@.plugin_name,
                        step.step_type@,
                    ),
                }
            },
        },
{
    let step_type = step.step_type.as_str();
    if same(step_type, "for_each") {
        return Ok(StepRoute::Loop(LoopKind::ForEach));
    }
    if same(step_type, "repeat") {
        return Ok(StepRoute::Loop(LoopKind::Repeat));
    }
    if same(step_type, "ifs") {
        return Ok(StepRoute::Ifs);
    }
    if same(step_type, "return") {
        return Ok(StepRoute::Return);
    }
    if same(step_type, "try") {
        return Ok(StepRoute::Try);
    }
    if same(step_type, "parallel") {
        return Ok(StepRoute::Parallel);
    }
    if let Some(key) = access.resolve(step_type) {
        return Ok(StepRoute::Host(import_name_of(key.as_str())));
    }
    let reason = match kernel {
        Some(k) => k.explain_step_type_refusal(state.plugin_name.as_str(), step_type),
        None => {
            let told = cat6(
                "plugin '",
                state.plugin_name.as_str(),
                "' may not use step type '",
                step_type,
                "'. Add \"step_type:",
                step_type,
            );
            let mut m = told;
            m.append(
                "\" to this manifest's `permissions`, or have the defining plugin mark its `stepTypeDefs` entry \"freelyUsable\": true",
            );
            m
        },
    };
    state.last_error = Some(reason.clone());
    Err(KernelError::Validation(reason))
}

/// What a step came to, when what ran it is done: a step that ran into a limit failed, though its
/// body succeeded.
pub open spec fn step_settled(s: StateView, ran: Result<bool, ErrorView>) -> Result<bool, ErrorView> {
    match ran {
        Err(e) => Err(e),
        Ok(ok) => Ok(ok && s.resource_violation is None),
    }
}

/// What a step came to, when what ran it is done.
pub fn settle_step(state: &ExecutionState, ran: Result<bool, KernelError>) -> (r: Result<
    bool,
    KernelError,
>)
    ensures
        ran_view(r) == step_settled(state@, ran_view(ran)),
{
    match ran {
        Err(e) => Err(e),
        Ok(ok) => Ok(ok && state.resource_violation.is_none()),
    }
}

/// The value that a `return` step gives before it is resolved: null where it names none.
pub open spec fn return_template(step: StepView) -> JsonView {
    match step.params.get("value"@) {
        Some(v) => v,
        None => JsonView::Null,
    }
}

/// The value that a `return` step gives before it is resolved.
pub fn return_value(step: &StepDef) -> (r: Json)
    ensures
        r@ == return_template(step.deep_view()),
{
    match step.params.get("value") {
        Some(v) => v.clone(),
        None => Json::Null,
    }
}

/// The state behind a `return` step: the value is the step's result and the signal.
pub open spec fn returned(s: StateView, id: Seq<char>, value: JsonView) -> StateView {
    StateView { return_signal: Some(value), ..stored(s, id, value) }
}

/// Runs a `return` step whose value has been resolved.
pub fn run_return(state: &mut ExecutionState, step: &StepDef, resolved: Json) -> (r: Result<
    bool,
    KernelError,
>)
    requires
        old(state).wf(),
    ensures
        final(state).wf(),
        r == Ok::<bool, KernelError>(true),
        final(state)@ == returned(old(state)@, step.id@, resolved@),
{
    state.store_step_result(step.id.as_str(), resolved.clone());
    state.return_signal = Some(resolved);
    Ok(true)
}

/// The error of an expression that does not parse.
pub fn expression_error(label: &str, expression: &str, why: &str) -> (r: KernelError)
    ensures
        r@ == ErrorView::Execution(
            label@ + ": expression '"@ + expression@ + "' parse error: "@ + why@,
        ),
{
    KernelError::Execution(cat5(label, ": expression '", expression, "' parse error: ", why))
}

/// No step type runs that the plugin was not let use, beyond those of the kernel; and those of the
/// kernel always run.
pub proof fn law_routes_only_what_is_allowed(
    step_type: Seq<char>,
    allowed: Map<Seq<char>, Seq<char>>,
)
    ensures
        route(step_type, allowed) is Some <==> is_reserved_step_type(step_type)
            || allowed.contains_key(step_type),
{
}

} // verus!
