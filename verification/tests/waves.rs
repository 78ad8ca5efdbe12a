//! The order in which steps run.

use gwead::error::KernelError;
use gwead::exec_state::ExecutionState;
use gwead::json::Json;
use gwead::limits::RuntimeLimits;
use gwead::manifest::{DagPlan, StepDef};
use gwead::waves::{
    action_result, after_step, drains, join_error, merge_wave, params_references_vars,
    wave_requires_sequential, WaveCursor, WaveMove, WaveTask,
};
use indexmap::IndexMap;

fn text(s: &str) -> Json {
    Json::String(s.to_string())
}

fn object(entries: &[(&str, Json)]) -> Json {
    Json::Object(
        entries
            .iter()
            .map(|(k, v)| (k.to_string(), v.clone()))
            .collect(),
    )
}

fn step(id: &str, params: Json) -> StepDef {
    StepDef {
        id: id.to_string(),
        step_type: "noop".to_string(),
        params,
        depends_on: Vec::new(),
        store_to_variable: None,
        long_running: false,
    }
}

fn state(limits: RuntimeLimits) -> ExecutionState {
    ExecutionState::new("p".to_string(), Vec::new(), limits, 0)
}

#[test]
fn detects_template_and_dsl_vars_refs() {
    // Template form.
    assert!(params_references_vars(&object(&[(
        "x",
        text("{{vars.paths}}")
    )])));
    // DSL form — bare `$vars` in a structural param like a
    // `for_each.path`, which a `{{vars.…}}`-only regex would miss.
    assert!(params_references_vars(&object(&[(
        "path",
        text("$vars.paths")
    )])));
    // Nested inside arrays / objects.
    assert!(params_references_vars(&object(&[(
        "a",
        Json::Array(vec![text("$vars.y")])
    )])));
}

#[test]
fn ignores_non_vars_refs() {
    assert!(!params_references_vars(&object(&[(
        "path",
        text("$steps.seed.result")
    )])));
    assert!(!params_references_vars(&object(&[(
        "x",
        text("{{steps.foo.result}}")
    )])));
    assert!(!params_references_vars(&object(&[(
        "x",
        text("no refs here")
    )])));
}

#[test]
fn white_space_may_stand_in_a_template() {
    assert!(params_references_vars(&text("{{ \t\n vars.x }}")));
    assert!(params_references_vars(&text("{{\u{3000}vars.x}}")));
    assert!(!params_references_vars(&text("{{x vars.y}}")));
    assert!(!params_references_vars(&text("{{vars}}")));
    assert!(!params_references_vars(&text("vars.x")));
    assert!(!params_references_vars(&Json::Bool(true)));
}

#[test]
fn a_wave_with_variables_runs_in_order() {
    let mut writer = step("w", Json::Null);
    writer.store_to_variable = Some("v".to_string());
    let steps = vec![
        writer,
        step("r", text("$vars.v")),
        step("o", text("plain")),
    ];
    assert!(wave_requires_sequential(&vec![0, 1], &steps));
    assert!(wave_requires_sequential(&vec![1, 2], &steps));
    assert!(!wave_requires_sequential(&vec![2], &steps));
}

#[test]
fn steps_run_wave_by_wave() {
    let plan = DagPlan {
        waves: vec![vec![0, 1], vec![2]],
        deps: vec![vec![], vec![], vec![0, 1]],
        consumers: vec![vec![2], vec![2], vec![]],
    };
    let steps = vec![
        step("a", Json::Null),
        step("b", Json::Null),
        step("c", Json::Null),
    ];
    let mut one = WaveCursor::new();
    for i in 0..3 {
        assert!(
            matches!(one.next(&plan, &steps, false, false, false), WaveMove::Step(s) if s == i)
        );
    }
    assert!(matches!(
        one.next(&plan, &steps, false, false, false),
        WaveMove::Done
    ));

    let mut side_by_side = WaveCursor::new();
    assert!(matches!(
        side_by_side.next(&plan, &steps, true, false, false),
        WaveMove::Wave(0)
    ));
    assert!(matches!(
        side_by_side.next(&plan, &steps, true, false, false),
        WaveMove::Step(2)
    ));

    let mut stopped = WaveCursor::new();
    assert!(matches!(
        stopped.next(&plan, &steps, false, true, false),
        WaveMove::Stop(KernelError::Cancelled { .. })
    ));
    let mut returned = WaveCursor::new();
    returned.next(&plan, &steps, false, false, false);
    assert!(matches!(
        returned.next(&plan, &steps, false, false, true),
        WaveMove::Done
    ));
}

#[test]
fn a_wave_merges_in_the_order_of_its_steps() {
    let mut canonical = state(RuntimeLimits::default());
    canonical.set_variable("old".to_string(), text("kept"));
    let baseline = canonical.variables.clone();
    let mut a = canonical.fork();
    a.store_step_result("a", text("A"));
    a.set_variable("old".to_string(), text("lost"));
    a.set_variable("new".to_string(), text("N"));
    let mut b = canonical.fork();
    b.last_error = Some("b broke".to_string());
    let tasks = vec![
        WaveTask {
            step_id: "a".to_string(),
            state: a,
            ran: Ok(true),
        },
        WaveTask {
            step_id: "b".to_string(),
            state: b,
            ran: Ok(false),
        },
    ];
    let err = merge_wave(&mut canonical, tasks, &baseline).unwrap_err();
    assert_eq!(err.message(), KernelError::Execution("b broke".to_string()).message());
    // What the wave wrote is there nonetheless.
    assert_eq!(canonical.step_result("a"), Some(&text("A")));
    assert_eq!(canonical.variables.get("old"), Some(&text("kept")));
    assert_eq!(canonical.variables.get("new"), Some(&text("N")));
}

/// A merge charges the results of its tasks to one state.
#[test]
fn a_merge_stays_in_the_limit() {
    let mut canonical = state(RuntimeLimits::default().with_max_step_results_bytes(10));
    let baseline = IndexMap::new();
    let mut tasks = Vec::new();
    for id in ["a", "b"] {
        let mut own = canonical.fork();
        own.store_step_result(id, Json::Null);
        tasks.push(WaveTask {
            step_id: id.to_string(),
            state: own,
            ran: Ok(true),
        });
    }
    let err = merge_wave(&mut canonical, tasks, &baseline).unwrap_err();
    assert!(matches!(
        err,
        KernelError::StepResultsLimitExceeded {
            limit_bytes: 10,
            attempted_bytes: 16
        }
    ));
    assert_eq!(canonical.step_results_bytes, 8);
}

#[test]
fn a_step_fails_with_its_own_error() {
    let mut s = state(RuntimeLimits::default());
    assert!(after_step(&s, "a", Ok(true)).is_ok());
    let err = after_step(&s, "a", Ok(false)).unwrap_err();
    assert!(matches!(err, KernelError::Execution(m) if m == "Step 'a' failed"));
    s.cancelled = true;
    let err = after_step(&s, "a", Ok(false)).unwrap_err();
    assert!(matches!(err, KernelError::Cancelled { at_step } if at_step == "a"));
}

#[test]
fn a_task_that_did_not_end_is_told() {
    assert!(
        matches!(join_error("Wave task", true, "boom"), KernelError::Execution(m) if m == "Wave task panicked: boom")
    );
    assert!(
        matches!(join_error("Wave task", false, "gone"), KernelError::Execution(m) if m == "Wave task was cancelled: gone")
    );
}

#[test]
fn a_returned_value_is_the_output() {
    let mut s = state(RuntimeLimits::default());
    s.store_step_result("a", text("A"));
    let r = action_result(&s, text("collected"));
    assert_eq!(r.output, text("collected"));
    assert_eq!(r.step_results.get("a"), Some(&text("A")));
    s.return_signal = Some(text("early"));
    assert_eq!(action_result(&s, text("collected")).output, text("early"));
}

#[test]
fn only_an_outermost_invocation_drains() {
    assert!(drains(true, 0));
    assert!(!drains(true, 1));
    assert!(!drains(false, 0));
}
