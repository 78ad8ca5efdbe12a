//! What surrounds the body of a step.

use std::sync::Arc;

use gwead::classify::Reading;
use gwead::config::KernelConfig;
use gwead::error::KernelError;
use gwead::exec_state::{ExecutionState, PluginErrorPayload};
use gwead::json::{Json, Number};
use gwead::kernel::access::StepTypeAccess;
use gwead::kernel::lifecycle::Preparation;
use gwead::kernel::{Kernel, ManifestSurvey};
use gwead::limits::RuntimeLimits;
use gwead::manifest::{PluginManifest, StepDef, StepTypeDef};
use gwead::step_dispatch::{
    begin_dispatch, body_starts, finish_dispatch, secrets_pulled, DispatchStart, StepError,
    StepOutput,
};
use indexmap::IndexMap;

type Check = fn(&str) -> Result<(), String>;

fn text(s: &str) -> Json {
    Json::String(s.to_string())
}

fn object(entries: &[(&str, Json)]) -> Json {
    Json::Object(
        entries
            .iter()
            .map(|(k, v)| (k.to_string(), v.clone()))
            .collect(),
    )
}

fn step(id: &str) -> StepDef {
    StepDef {
        id: id.to_string(),
        step_type: "noop".to_string(),
        params: Json::Null,
        depends_on: Vec::new(),
        store_to_variable: None,
        long_running: false,
    }
}

fn fresh_state(step: StepDef) -> ExecutionState {
    ExecutionState::new("test_plugin".to_string(), vec![step], RuntimeLimits::default(), 0)
}

/// Dispatches the step at `index` with a body that gives `result`.
fn dispatch(
    state: &mut ExecutionState,
    index: usize,
    result: Result<StepOutput, StepError>,
    kernel: Option<&Kernel<Check>>,
) -> i32 {
    let access = match kernel {
        Some(k) => k.step_type_access_for("probe_plugin"),
        None => StepTypeAccess::none(),
    };
    if let DispatchStart::OutOfBounds = begin_dispatch(state, index, &access) {
        return 0;
    }
    body_starts(state);
    let variable = state.steps[index].store_to_variable.clone();
    let mut at = step(&state.steps[index].id.clone());
    at.step_type = state.steps[index].step_type.clone();
    at.store_to_variable = variable;
    let allowed = kernel.and_then(|k| k.declared_metadata_keys(&access, &at.step_type));
    i32::from(finish_dispatch(state, &at, result, allowed))
}

fn typed_step(id: &str, step_type: &str) -> StepDef {
    let mut s = step(id);
    s.step_type = step_type.to_string();
    s
}

fn survey() -> ManifestSurvey {
    ManifestSurvey {
        contract_errors: Vec::new(),
        plans: Vec::new(),
        edges: Ok(Vec::new()),
    }
}

fn boot() -> Kernel<Check> {
    let own = PluginManifest {
        name: "gwead_intrinsics".to_string(),
        ..PluginManifest::default()
    };
    let prep = Preparation {
        survey: survey(),
        reading: Reading {
            schema: Ok(()),
            plugin: Ok(own),
        },
        contract: Ok(()),
    };
    let config: KernelConfig<Check> = KernelConfig::default();
    match Kernel::boot(config, &[], &[], r#"{"name": "gwead_intrinsics", "stepTypeDefs": []}"#, prep) {
        Ok(k) => k,
        Err(e) => panic!("kernel boots: {}", e.message()),
    }
}

/// A kernel that defines `meta_probe`, whose schema allows exactly one key, `tokens_used`, and a step
/// type without a schema.
fn kernel_with_meta_probe() -> Kernel<Check> {
    let bare = StepTypeDef {
        name: "probe_plugin.bare".to_string(),
        freely_usable: false,
        input_schema: None,
        output_schema: None,
        metadata_schema: None,
        selector: None,
        references: Vec::new(),
    };
    let def = StepTypeDef {
        name: "probe_plugin.meta_probe".to_string(),
        freely_usable: false,
        input_schema: None,
        output_schema: None,
        metadata_schema: Some(object(&[
            ("type", text("object")),
            ("additionalProperties", Json::Bool(false)),
            (
                "properties",
                object(&[("tokens_used", object(&[("type", text("integer"))]))]),
            ),
        ])),
        selector: None,
        references: Vec::new(),
    };
    let manifest = PluginManifest {
        name: "probe_plugin".to_string(),
        step_type_defs: vec![def, bare],
        ..PluginManifest::default()
    };
    let mut kernel = boot();
    if let Err(e) = kernel.register_plugin(manifest, survey()) {
        panic!("probe plugin registers: {}", e.message());
    }
    kernel
}

fn ok_body(value: Json) -> Result<StepOutput, StepError> {
    Ok(StepOutput {
        value,
        metadata: IndexMap::new(),
    })
}

#[test]
fn ok_stores_value_and_returns_1() {
    let mut state = fresh_state(step("s0"));
    let rc = dispatch(
        &mut state,
        0,
        ok_body(object(&[("hello", text("world"))])),
        None,
    );
    assert_eq!(rc, 1);
    assert_eq!(
        state.step_results.get("s0").cloned(),
        Some(object(&[("hello", text("world"))]))
    );
    // No metadata → no sidecars.
    assert!(state.step_metadata.is_empty());
    // No throw → no plugin_error, no last_error.
    assert!(state.plugin_error.is_none());
    assert!(state.last_error.is_none());
}

#[test]
fn failed_sets_last_error_and_returns_0() {
    let mut state = fresh_state(step("s0"));
    let rc = dispatch(
        &mut state,
        0,
        Err(StepError::Failed("io error".to_string())),
        None,
    );
    assert_eq!(rc, 0);
    assert_eq!(state.last_error.as_deref(), Some("io error"));
    assert!(state.step_results.get("s0").is_none());
    assert!(state.plugin_error.is_none());
}

#[test]
fn thrown_sets_plugin_error_and_last_error() {
    let mut state = fresh_state(step("s0"));
    let rc = dispatch(
        &mut state,
        0,
        Err(StepError::Thrown(PluginErrorPayload {
            code: "E_BAD".to_string(),
            message: "nope".to_string(),
            params: Json::Null,
        })),
        None,
    );
    assert_eq!(rc, 0);
    let pe = state.plugin_error.as_ref().expect("plugin_error set");
    assert_eq!(pe.code, "E_BAD");
    assert_eq!(pe.message, "nope");
    // last_error is also populated so a `try.catch` handler reads
    // the formatted message via `{{$.error}}`.
    assert_eq!(state.last_error.as_deref(), Some("PluginError E_BAD: nope"));
    // step_results stays empty — no fake-success null stored.
    assert!(state.step_results.get("s0").is_none());
}

#[test]
fn a_thrown_error_without_a_message_is_its_code() {
    let mut state = fresh_state(step("s0"));
    let thrown = PluginErrorPayload {
        code: "E_BAD".to_string(),
        message: String::new(),
        params: Json::Null,
    };
    dispatch(&mut state, 0, Err(StepError::Thrown(thrown)), None);
    assert_eq!(state.last_error.as_deref(), Some("PluginError E_BAD"));
}

#[test]
fn metadata_routes_generically_into_step_metadata() {
    // Without an allow-list every emitted key — status, headers, and an arbitrary custom one —
    // lands flat in `step_metadata[step_id]`, with its raw value.
    let mut state = fresh_state(step("s0"));
    let headers = object(&[
        ("content-type", text("application/json")),
        ("etag", text("abc")),
    ]);
    let mut meta = IndexMap::new();
    meta.insert("status".to_string(), Json::Number(Number::PosInt(204)));
    meta.insert("headers".to_string(), headers.clone());
    meta.insert(
        "custom_sidecar".to_string(),
        object(&[("nested", Json::Bool(true))]),
    );
    let rc = dispatch(
        &mut state,
        0,
        Ok(StepOutput {
            value: object(&[("ok", Json::Bool(true))]),
            metadata: meta,
        }),
        None,
    );
    assert_eq!(rc, 1);
    let sidecars = state.step_metadata.get("s0").expect("sidecars stored");
    assert_eq!(
        sidecars.get("status"),
        Some(&Json::Number(Number::PosInt(204)))
    );
    assert_eq!(sidecars.get("headers"), Some(&headers));
    assert_eq!(
        sidecars.get("custom_sidecar"),
        Some(&object(&[("nested", Json::Bool(true))]))
    );
}

#[test]
fn a_declared_metadata_key_is_kept() {
    let kernel = kernel_with_meta_probe();
    let mut state = fresh_state(typed_step("s0", "probe_plugin.meta_probe"));
    let mut meta = IndexMap::new();
    meta.insert("tokens_used".to_string(), Json::Number(Number::PosInt(42)));
    let rc = dispatch(
        &mut state,
        0,
        Ok(StepOutput {
            value: text("payload"),
            metadata: meta,
        }),
        Some(&kernel),
    );
    assert_eq!(rc, 1);
    assert_eq!(
        state
            .step_metadata
            .get("s0")
            .and_then(|m| m.get("tokens_used")),
        Some(&Json::Number(Number::PosInt(42)))
    );
    assert_eq!(state.step_result("s0"), Some(&text("payload")));
}

#[test]
fn undeclared_metadata_key_fails_step() {
    let kernel = kernel_with_meta_probe();
    let mut state = fresh_state(typed_step("s0", "probe_plugin.meta_probe"));
    let mut meta = IndexMap::new();
    meta.insert("surprise".to_string(), text("xyz"));
    let rc = dispatch(
        &mut state,
        0,
        Ok(StepOutput {
            value: text("payload"),
            metadata: meta,
        }),
        Some(&kernel),
    );
    assert_eq!(rc, 0, "undeclared metadata key fails the step");
    let err = state.last_error.as_deref().expect("last_error set");
    assert_eq!(
        err,
        "step 's0' (type 'probe_plugin.meta_probe') emitted undeclared metadata key 'surprise'; metadataSchema declares: [\"tokens_used\"]"
    );
    assert!(
        err.contains("undeclared metadata key 'surprise'"),
        "error names the offending key: {err}"
    );
    // Nothing routed — the whole emission is rejected.
    assert!(state.step_metadata.get("s0").is_none());
}

#[test]
fn the_declared_keys_are_those_of_the_resolved_step_type() {
    let kernel = kernel_with_meta_probe();
    let own = kernel.step_type_access_for("probe_plugin");
    assert_eq!(
        kernel.declared_metadata_keys(&own, "probe_plugin.meta_probe"),
        Some(vec!["tokens_used".to_string()])
    );
    // A definition without a schema declares no key.
    assert_eq!(
        kernel.declared_metadata_keys(&own, "probe_plugin.bare"),
        Some(Vec::new())
    );
    // What nobody defines, and what the plugin may not use, has nothing to go by.
    assert_eq!(kernel.declared_metadata_keys(&own, "noop"), None);
    let other = kernel.step_type_access_for("other_plugin");
    assert_eq!(
        kernel.declared_metadata_keys(&other, "probe_plugin.meta_probe"),
        None
    );
}

#[test]
fn store_to_variable_mirrors_step_result() {
    let mut s = step("s0");
    s.store_to_variable = Some("myvar".to_string());
    let mut state = fresh_state(s);
    let rc = dispatch(&mut state, 0, ok_body(object(&[("k", text("v"))])), None);
    assert_eq!(rc, 1);
    assert_eq!(
        state.variables.get("myvar").cloned(),
        Some(object(&[("k", text("v"))]))
    );
}

#[test]
fn out_of_bounds_step_index_sets_last_error() {
    let mut state = fresh_state(step("s0"));
    let rc = dispatch(&mut state, 99, ok_body(text("never runs")), None);
    assert_eq!(rc, 0);
    assert!(state
        .last_error
        .as_deref()
        .is_some_and(|m| m.contains("out of bounds")));
}

#[test]
fn current_step_idx_cleared_after_dispatch() {
    let mut state = fresh_state(step("s0"));
    assert!(state.current_step_idx.is_none());
    let _ = dispatch(&mut state, 0, ok_body(Json::Null), None);
    assert!(
        state.current_step_idx.is_none(),
        "cursor must clear so kernel-service helpers see None"
    );
}

#[test]
fn a_cancelled_body_is_marked() {
    let mut state = fresh_state(step("s0"));
    assert_eq!(dispatch(&mut state, 0, Err(StepError::Cancelled), None), 0);
    assert!(state.cancelled);
    assert_eq!(state.last_error.as_deref(), Some("step 's0' cancelled"));
    // The next body starts without the mark.
    assert_eq!(dispatch(&mut state, 0, ok_body(Json::Null), None), 1);
    assert!(!state.cancelled);
}

#[test]
fn a_failed_callee_is_kept_with_its_cause() {
    let mut state = fresh_state(step("s0"));
    let rc = dispatch(
        &mut state,
        0,
        Err(StepError::Callee {
            plugin: "vault".to_string(),
            action: "sign".to_string(),
            source: Arc::new(KernelError::NotFound("no key".to_string())),
        }),
        None,
    );
    assert_eq!(rc, 0);
    let callee = state.callee_error.as_ref().expect("callee_error set");
    assert_eq!(callee.plugin, "vault");
    assert!(matches!(*callee.source, KernelError::NotFound(_)));
    let told = state.last_error.as_deref().expect("last_error set");
    assert!(told.starts_with("step 's0' → vault.sign failed: "), "{told}");
    assert!(told.ends_with("no key"), "{told}");
}

#[test]
fn a_body_does_not_run_without_its_owners_secrets() {
    let mut state = fresh_state(step("s0"));
    let access = StepTypeAccess::none();
    assert!(matches!(
        begin_dispatch(&mut state, 0, &access),
        DispatchStart::Ready
    ));
    assert_eq!(state.current_step_idx, Some(0));
    assert!(!secrets_pulled(
        &mut state,
        "s0",
        "noop",
        Err("vault is sealed".to_string())
    ));
    assert_eq!(state.current_step_idx, None);
    assert_eq!(
        state.last_error.as_deref(),
        Some("step 's0' (noop): could not resolve the body owner's secrets: vault is sealed")
    );
    assert!(secrets_pulled(&mut state, "s0", "noop", Ok(text("k"))));
    assert_eq!(state.body_secrets, Some(text("k")));
}
