//! Pipelines.

use gwead::dataflow::provision::Provisioning;
use gwead::dataflow::{fork_for_step, DataflowEvent, DataflowRun};
use gwead::error::KernelError;
use gwead::exec_state::ExecutionState;
use gwead::fanout::{
    fanout_handle, fanout_mode, install_fanout, populate_fanout_overrides_on_state, FanoutMode,
};
use gwead::json::{Json, Number};
use gwead::limits::RuntimeLimits;
use gwead::manifest::{DagPlan, StepDef};
use gwead::native_impls::Held;
use gwead::table::Table;
use indexmap::IndexMap;

fn text(s: &str) -> Json {
    Json::String(s.to_string())
}

fn step(id: &str, long_running: bool) -> StepDef {
    StepDef {
        id: id.to_string(),
        step_type: "noop".to_string(),
        params: Json::Null,
        depends_on: Vec::new(),
        store_to_variable: None,
        long_running,
    }
}

fn state() -> ExecutionState {
    ExecutionState::new("p".to_string(), Vec::new(), RuntimeLimits::default(), 0)
}

/// `source` streams to `left` and `right`; `last` needs the values of both.
fn diamond() -> (DagPlan, Vec<StepDef>) {
    let plan = DagPlan {
        waves: vec![vec![0], vec![1, 2], vec![3]],
        deps: vec![vec![], vec![0], vec![0], vec![1, 2]],
        consumers: vec![vec![1, 2], vec![3], vec![3], vec![]],
    };
    let steps = vec![
        step("source", true),
        step("left", false),
        step("right", false),
        step("last", false),
    ];
    (plan, steps)
}

#[test]
fn a_step_begins_when_its_values_are_there() {
    let (plan, steps) = diamond();
    assert!(plan.fits(4));
    let mut run = DataflowRun::new(&plan, &steps);
    let begun: Vec<bool> = (0..4).map(|i| run.has_begun(i)).collect();
    assert_eq!(begun, vec![true, true, true, false]);
    assert!(run.release(&plan, &steps, 0, false).is_empty());
    assert!(run.release(&plan, &steps, 1, false).is_empty());
    assert_eq!(run.release(&plan, &steps, 2, false), vec![3]);
    assert!(run.has_begun(3));
    let (r, event) = run.finish(&steps, false);
    assert!(r.is_ok());
    assert!(matches!(event, DataflowEvent::PipelineCompleted { ok: true }));
}

#[test]
fn nothing_begins_after_a_failure() {
    let (plan, steps) = diamond();
    let mut run = DataflowRun::new(&plan, &steps);
    let mut canonical = state();
    let baseline = IndexMap::new();
    let mut task = canonical.fork();
    task.last_error = Some("left broke".to_string());
    let (event, fires) =
        run.settle(&mut canonical, task, "left", Ok(false), false, true, &baseline);
    assert!(fires);
    match event {
        DataflowEvent::StepFailed { step_id, error } => {
            assert_eq!(step_id, "left");
            assert_eq!(error, KernelError::Execution("left broke".to_string()).message());
        }
        _ => panic!("failed"),
    }
    let task = canonical.fork();
    let (_, fires) = run.settle(&mut canonical, task, "right", Ok(false), true, false, &baseline);
    assert!(!fires, "the first error is the one that counts");
    assert!(run.release(&plan, &steps, 2, false).is_empty());
    let (r, event) = run.finish(&steps, true);
    assert!(matches!(r, Err(KernelError::Execution(m)) if m == "left broke"));
    assert!(matches!(event, DataflowEvent::PipelineCompleted { ok: false }));
}

#[test]
fn a_pipeline_that_is_listened_to_winds_down() {
    let (plan, steps) = diamond();
    let baseline = IndexMap::new();
    let cancelled = || KernelError::Cancelled {
        at_step: "source".to_string(),
    };

    let mut run = DataflowRun::new(&plan, &steps);
    let mut canonical = state();
    let mut task = canonical.fork();
    task.store_step_result("source", text("partial"));
    let (event, fires) = run.settle(
        &mut canonical,
        task,
        "source",
        Err(cancelled()),
        true,
        true,
        &baseline,
    );
    assert!(!fires);
    assert!(matches!(
        event,
        DataflowEvent::StepCompleted { ok: false, .. }
    ));
    assert_eq!(canonical.step_result("source"), Some(&text("partial")));
    let (r, event) = run.finish(&steps, true);
    assert!(r.is_ok());
    assert!(matches!(event, DataflowEvent::PipelineCompleted { ok: false }));

    let mut run = DataflowRun::new(&plan, &steps);
    let task = canonical.fork();
    let (event, fires) = run.settle(
        &mut canonical,
        task,
        "source",
        Err(cancelled()),
        true,
        false,
        &baseline,
    );
    assert!(fires);
    assert!(matches!(event, DataflowEvent::StepFailed { .. }));
}

#[test]
fn a_step_that_was_left_out_is_told() {
    let plan = DagPlan {
        waves: vec![vec![0, 1]],
        deps: vec![vec![1], vec![0]],
        consumers: vec![vec![1], vec![0]],
    };
    let steps = vec![step("a", false), step("b", false)];
    let (r, event) = DataflowRun::new(&plan, &steps).finish(&steps, false);
    assert!(matches!(
        r,
        Err(KernelError::Execution(m))
            if m == "Dataflow scheduler bug: step(s) [a, b] never became runnable, but the pipeline neither failed nor was cancelled. Their dependencies were never satisfied."
    ));
    assert!(matches!(event, DataflowEvent::PipelineCompleted { ok: false }));
    let (r, _) = DataflowRun::new(&plan, &steps).finish(&steps, true);
    assert!(r.is_ok());
}

#[test]
fn streams_are_made_before_anything_runs() {
    let (plan, steps) = diamond();
    let mut s = state();
    let given: Table<String, Held<u32>> = Table::new();
    let mut p = Provisioning::new();
    assert_eq!(p.next(&mut s, &plan, &steps, &given).unwrap(), Some(0));
    assert_eq!(p.piped(&mut s, &plan, &steps, 7, 8), Some(2));
    assert_eq!(
        s.step_result("source"),
        Some(&Json::Number(Number::PosInt(8)))
    );
    assert_eq!(s.first_step_id.as_deref(), Some("source"));
    p.branched(&steps, Ok(vec![20, 21])).unwrap();
    assert_eq!(p.next(&mut s, &plan, &steps, &given).unwrap(), None);
    assert_eq!(
        s.dataflow_outputs.get(&"source".to_string()).map(|h| h.body),
        Some(7)
    );
    let fanout = p.into_fanout();
    let left = fork_for_step(&s, &plan, &steps, 1, &fanout);
    let right = fork_for_step(&s, &plan, &steps, 2, &fanout);
    let own = |t: &ExecutionState| {
        t.active_fanout_overrides
            .get(&"source".to_string())
            .map(|h| h.body)
    };
    assert_eq!(own(&left), Some(20));
    assert_eq!(own(&right), Some(21));
}

#[test]
fn a_branch_that_cannot_be_made_is_told() {
    let (plan, steps) = diamond();
    let mut s = state();
    let given: Table<String, Held<u32>> = Table::new();
    let mut p = Provisioning::new();
    p.next(&mut s, &plan, &steps, &given).unwrap();
    p.piped(&mut s, &plan, &steps, 7, 8);
    assert!(matches!(
        p.branched(&steps, Err("full".to_string())),
        Err(KernelError::Execution(m))
            if m == "Dataflow fan-out setup failed for long-running producer 'source': full"
    ));
}

#[test]
fn an_output_that_was_made_elsewhere_is_read_elsewhere() {
    let (plan, steps) = diamond();
    let mut s = state();
    let mut given: Table<String, Held<u32>> = Table::new();
    given.insert("source".to_string(), Held { body: 5 });
    let mut p = Provisioning::new();
    assert!(matches!(
        p.next(&mut s, &plan, &steps, &given),
        Err(KernelError::Validation(m))
            if m == "io.invoke_streaming: step 'source' has 2 in-action consumer(s); pre-allocated output is only valid when consumers is empty"
    ));

    let plan = DagPlan {
        waves: vec![vec![0]],
        deps: vec![vec![]],
        consumers: vec![vec![]],
    };
    let steps = vec![step("source", true)];
    let mut p = Provisioning::new();
    assert_eq!(p.next(&mut s, &plan, &steps, &given).unwrap(), None);
    assert_eq!(
        s.dataflow_outputs.get(&"source".to_string()).map(|h| h.body),
        Some(5)
    );
    assert_eq!(s.step_result("source"), None);
}

#[test]
fn a_handle_with_several_consumers_is_split() {
    let (plan, steps) = diamond();
    let mut s = state();
    s.store_step_result("source", Json::Number(Number::PosInt(9)));
    assert_eq!(fanout_handle(&s, &plan, 0, "source"), Some(9));
    assert_eq!(fanout_handle(&s, &plan, 1, "source"), None);
    s.store_step_result("source", Json::Number(Number::PosInt(0)));
    assert_eq!(fanout_handle(&s, &plan, 0, "source"), None);
    assert_eq!(fanout_mode(true), FanoutMode::Streaming);
    assert_eq!(fanout_mode(false), FanoutMode::Eager);

    let mut fanout: Table<usize, Vec<u32>> = Table::new();
    install_fanout(&mut fanout, 0, "source", Ok(vec![1, 2])).unwrap();
    assert!(matches!(
        install_fanout(&mut fanout, 0, "source", Err("x".to_string())),
        Err(KernelError::Execution(m))
            if m == "Internal: stream fan-out setup failed for step 'source': x"
    ));
    populate_fanout_overrides_on_state(&mut s, &plan, &steps, 2, &fanout);
    assert_eq!(
        s.active_fanout_overrides
            .get(&"source".to_string())
            .map(|h| h.body),
        Some(2)
    );
}

/// Two results that fit one by one and not together fail the pipeline.
#[test]
fn results_that_do_not_fit_together_fail_the_pipeline() {
    let plan = DagPlan {
        waves: vec![vec![0, 1]],
        deps: vec![vec![], vec![]],
        consumers: vec![vec![], vec![]],
    };
    let steps = vec![step("a", false), step("b", false)];
    let mut canonical = ExecutionState::new(
        "p".to_string(),
        Vec::new(),
        RuntimeLimits::default().with_max_step_results_bytes(10),
        0,
    );
    let baseline = IndexMap::new();
    let mut run = DataflowRun::new(&plan, &steps);
    let mut tasks = Vec::new();
    for id in ["a", "b"] {
        let mut own = canonical.fork();
        own.store_step_result(id, Json::Null);
        assert!(own.resource_violation.is_none());
        tasks.push((id, own));
    }
    let mut told = Vec::new();
    for (id, own) in tasks {
        told.push(run.settle(&mut canonical, own, id, Ok(true), false, true, &baseline));
    }
    assert!(matches!(
        told[0],
        (DataflowEvent::StepCompleted { ok: true, .. }, false)
    ));
    assert!(matches!(told[1], (DataflowEvent::StepFailed { .. }, true)));
    let (r, event) = run.finish(&steps, true);
    assert!(matches!(
        r,
        Err(KernelError::StepResultsLimitExceeded {
            limit_bytes: 10,
            attempted_bytes: 16
        })
    ));
    assert!(matches!(event, DataflowEvent::PipelineCompleted { ok: false }));
}
