//! The shape of the steps of an action, and what becomes of their state.

use std::sync::Arc;

use gwead::error::KernelError;
use gwead::exec_state::{
    approx_value_bytes, CalleeError, ExecutionState, PluginErrorPayload, ResourceViolation,
};
use gwead::json::{Json, Number};
use gwead::limits::RuntimeLimits;
use gwead::manifest::StepDef;
use gwead::outcomes::{
    check_cancelled, escape_if_cancelled, merge_over_budget, step_failure_to_error,
};
use gwead::registry::PluginRegistry;
use gwead::step_shapes::{collect_step_field_recursive, validate_step_shapes};

fn text(s: &str) -> Json {
    Json::String(s.to_string())
}

fn object(entries: &[(&str, Json)]) -> Json {
    Json::Object(
        entries
            .iter()
            .map(|(k, v)| (k.to_string(), v.clone()))
            .collect(),
    )
}

fn inner(id: &str) -> Json {
    object(&[("id", text(id)), ("type", text("noop"))])
}

fn step(id: &str, step_type: &str, params: Json) -> StepDef {
    StepDef {
        id: id.to_string(),
        step_type: step_type.to_string(),
        params,
        depends_on: Vec::new(),
        store_to_variable: None,
        long_running: false,
    }
}

fn check(s: StepDef) -> Result<(), String> {
    validate_step_shapes("go", &vec![s], &PluginRegistry::new(), &[])
}

#[test]
fn branches_share_no_step_and_no_variable() {
    let par = |a: Json, b: Json| {
        step(
            "fan",
            "parallel",
            object(&[(
                "branches",
                Json::Array(vec![Json::Array(vec![a]), Json::Array(vec![b])]),
            )]),
        )
    };
    assert!(check(par(inner("a"), inner("b"))).is_ok());
    assert!(check(par(inner("a"), inner("a")))
        .unwrap_err()
        .contains("appears in both branch 0 and branch 1"));
    let sets = |id: &str| {
        object(&[
            ("id", text(id)),
            ("type", text("noop")),
            ("storeToVariable", text("v")),
        ])
    };
    assert!(check(par(sets("a"), sets("b")))
        .unwrap_err()
        .contains("appears in both branch 0 and branch 1"));
    // At whatever depth.
    let nested = object(&[
        ("id", text("t")),
        ("type", text("try")),
        ("params", object(&[("try", Json::Array(vec![inner("a")]))])),
    ]);
    let mut ids = Vec::new();
    collect_step_field_recursive(&nested, "id", &mut ids);
    assert_eq!(ids, vec!["t".to_string(), "a".to_string()]);
    assert!(check(par(inner("a"), nested)).is_err());
}

#[test]
fn steps_that_carry_steps_have_a_shape() {
    assert!(check(step("1st", "noop", Json::Null)).is_err());
    assert!(check(step("x", "ifs", object(&[])))
        .unwrap_err()
        .contains("requires an `ifs` array"));
    assert!(check(step("x", "ifs", object(&[("ifs", text("no"))]))).is_err());
    let untested_first = object(&[(
        "ifs",
        Json::Array(vec![
            object(&[]),
            object(&[("test", text("t")), ("then", Json::Array(Vec::new()))]),
        ]),
    )]);
    assert!(check(step("x", "ifs", untested_first)).is_err());
    assert!(check(step("x", "try", object(&[("try", text("no"))]))).is_err());
    assert!(check(step(
        "x",
        "for_each",
        object(&[("steps", Json::Array(vec![Json::Bool(true)]))])
    ))
    .unwrap_err()
    .contains("malformed step"));
    assert!(check(step(
        "x",
        "repeat",
        object(&[("steps", Json::Array(vec![inner("a")]))])
    ))
    .is_ok());
    assert!(check(step("x", "script", object(&[("language", text("cobol"))]))).is_err());
}

#[test]
fn a_step_fails_with_what_stopped_it() {
    let mut s = ExecutionState::new("p".to_string(), Vec::new(), RuntimeLimits::default(), 0);
    assert!(matches!(
        step_failure_to_error(&s, "a"),
        KernelError::Execution(m) if m == "Step 'a' failed"
    ));
    s.last_error = Some("why".to_string());
    assert!(matches!(
        step_failure_to_error(&s, "a"),
        KernelError::Execution(m) if m == "why"
    ));
    s.plugin_error = Some(PluginErrorPayload {
        code: "E".to_string(),
        message: "m".to_string(),
        params: Json::Null,
    });
    assert!(matches!(
        step_failure_to_error(&s, "a"),
        KernelError::PluginError { code, .. } if code == "E"
    ));
    s.callee_error = Some(CalleeError {
        plugin: "q".to_string(),
        action: "go".to_string(),
        source: Arc::new(KernelError::ExecutionTimeout { timeout_ms: 1 }),
    });
    match step_failure_to_error(&s, "a") {
        KernelError::CalleeFailed {
            step_id, source, ..
        } => {
            assert_eq!(step_id, "a");
            assert!(matches!(
                *source,
                KernelError::ExecutionTimeout { timeout_ms: 1 }
            ));
        }
        _ => panic!("callee"),
    }
    s.cancelled = true;
    assert!(matches!(
        step_failure_to_error(&s, "a"),
        KernelError::Cancelled { .. }
    ));
    s.resource_violation = Some(ResourceViolation::MemoryLimit { bytes: 9 });
    assert!(matches!(
        step_failure_to_error(&s, "a"),
        KernelError::MemoryLimitExceeded { limit_bytes: 9 }
    ));
    s.resource_violation = Some(ResourceViolation::FuelExhausted { budget: 3 });
    assert!(matches!(
        step_failure_to_error(&s, "a"),
        KernelError::FuelExhausted { budget: 3, detail } if detail == "why"
    ));
}

#[test]
fn a_cancellation_is_seen_before_and_after_a_step() {
    let mut s = ExecutionState::new("p".to_string(), Vec::new(), RuntimeLimits::default(), 0);
    assert!(check_cancelled(false, "a").is_ok());
    assert!(matches!(
        check_cancelled(true, "a"),
        Err(KernelError::Cancelled { at_step }) if at_step == "a"
    ));
    assert!(escape_if_cancelled(&s, "a").is_ok());
    s.cancelled = true;
    assert!(escape_if_cancelled(&s, "a").is_err());
}

#[test]
fn results_are_charged_and_refused_past_the_limit() {
    let mut s = ExecutionState::new(
        "p".to_string(),
        Vec::new(),
        RuntimeLimits::default().with_max_step_results_bytes(30),
        0,
    );
    let ten = text("éa");
    assert_eq!(approx_value_bytes(&ten), 11);
    assert_eq!(
        approx_value_bytes(&Json::Array(vec![ten.clone(), Json::Number(Number::NegInt(-1))])),
        27
    );
    assert_eq!(approx_value_bytes(&object(&[("k", Json::Null)])), 17);
    s.store_step_result("a", ten.clone());
    assert_eq!(s.first_step_id.as_deref(), Some("a"));
    s.store_step_result("b", ten.clone());
    assert_eq!(s.step_results_bytes, 22);
    assert!(merge_over_budget(&s).is_none());
    s.store_step_result("c", ten);
    assert_eq!(s.step_result("c"), None);
    assert_eq!(s.step_results_bytes, 22);
    assert!(matches!(
        merge_over_budget(&s),
        Some(KernelError::StepResultsLimitExceeded {
            limit_bytes: 30,
            attempted_bytes: 33
        })
    ));
}
