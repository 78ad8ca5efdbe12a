//! Steps that carry steps.

use gwead::control::attempt::TryRun;
use gwead::control::choice::{BranchRun, Branches, Choice};
use gwead::control::iteration::{LoopKind, LoopPhase, LoopRun};
use gwead::control::parallel::{
    begin_parallel, join_parallel, BranchEnd, BranchTurn, JoinedBranch,
};
use gwead::control::routing::{
    expression_error, return_value, route_step, run_return, settle_step, StepRoute,
};
use gwead::control::{read_steps, Turn};
use gwead::error::KernelError;
use gwead::exec_state::{ExecutionState, PluginErrorPayload, ResourceViolation};
use gwead::json::{Json, Number};
use gwead::kernel::access::StepTypeAccess;
use gwead::kernel::Kernel;
use gwead::limits::RuntimeLimits;
use gwead::manifest::StepDef;

type Check = fn(&str) -> Result<(), String>;

fn text(s: &str) -> Json {
    Json::String(s.to_string())
}

fn object(entries: &[(&str, Json)]) -> Json {
    Json::Object(
        entries
            .iter()
            .map(|(k, v)| (k.to_string(), v.clone()))
            .collect(),
    )
}

/// A step as it stands inside another.
fn inner(id: &str) -> Json {
    object(&[("id", text(id)), ("type", text("noop"))])
}

fn list(ids: &[&str]) -> Json {
    Json::Array(ids.iter().map(|id| inner(id)).collect())
}

fn step(id: &str, step_type: &str, params: Json) -> StepDef {
    StepDef {
        id: id.to_string(),
        step_type: step_type.to_string(),
        params,
        depends_on: Vec::new(),
        store_to_variable: None,
        long_running: false,
    }
}

fn state() -> ExecutionState {
    ExecutionState::new("p".to_string(), Vec::new(), RuntimeLimits::default(), 0)
}

/// Reports that the step at hand succeeded with a result of its own name.
fn succeed(run: TryRun, s: &mut ExecutionState) -> Turn<TryRun> {
    let i = run.poll(false).unwrap();
    let id = s.steps[i].id.clone();
    s.store_step_result(&id, text(&id));
    run.report(s, Ok(true))
}

fn fail(run: TryRun, s: &mut ExecutionState, why: &str) -> Turn<TryRun> {
    run.poll(false).unwrap();
    s.last_error = Some(why.to_string());
    run.report(s, Ok(false))
}

fn running<M>(turn: Turn<M>) -> M {
    match turn {
        Turn::Run(m) => m,
        Turn::Over(_) => panic!("expected the step to go on"),
    }
}

fn over<M>(turn: Turn<M>) -> Result<bool, KernelError> {
    match turn {
        Turn::Run(_) => panic!("expected the step to be over"),
        Turn::Over(r) => r,
    }
}

fn guarded(catch: Option<Json>, finally: Option<Json>) -> StepDef {
    let mut params = vec![("try", list(&["a", "b"]))];
    if let Some(c) = catch {
        params.push(("catch", c));
    }
    if let Some(f) = finally {
        params.push(("finally", f));
    }
    step("guard", "try", object(&params))
}

#[test]
fn a_try_that_succeeds_has_its_last_result() {
    let mut s = state();
    let run = running(TryRun::begin(&mut s, &guarded(None, None)));
    assert_eq!(s.steps.len(), 2);
    let run = running(succeed(run, &mut s));
    assert!(matches!(over(succeed(run, &mut s)), Ok(true)));
    assert_eq!(s.step_result("guard"), Some(&text("b")));
    assert!(s.steps.is_empty());
}

/// A handler without steps swallows the failure: null, and nothing marks the failure any more.
#[test]
fn an_empty_catch_swallows() {
    let mut s = state();
    let run = running(TryRun::begin(&mut s, &guarded(Some(list(&[])), None)));
    let run = running(succeed(run, &mut s));
    assert!(matches!(over(fail(run, &mut s, "broke")), Ok(true)));
    assert_eq!(s.step_result("guard"), Some(&Json::Null));
    assert!(s.last_error.is_none());
    assert!(s.steps.is_empty());
}

#[test]
fn a_catch_sees_the_error_and_recovers() {
    let mut s = state();
    let run = running(TryRun::begin(&mut s, &guarded(Some(list(&["c"])), None)));
    let run = running(fail(run, &mut s, "broke"));
    assert_eq!(s.error_stack, vec!["broke".to_string()]);
    assert!(s.last_error.is_none());
    assert!(matches!(over(succeed(run, &mut s)), Ok(true)));
    assert!(s.error_stack.is_empty());
    assert_eq!(s.step_result("guard"), Some(&text("c")));
}

#[test]
fn a_catch_that_leaves_no_result_recovers_with_null() {
    let mut s = state();
    let run = running(TryRun::begin(&mut s, &guarded(Some(list(&["c"])), None)));
    let run = running(succeed(run, &mut s));
    let run = running(fail(run, &mut s, "broke"));
    assert!(matches!(over(run.report(&mut s, Ok(true))), Ok(true)));
    assert_eq!(s.step_result("guard"), Some(&Json::Null));
}

#[test]
fn without_a_catch_the_failure_goes_on() {
    let mut s = state();
    let run = running(TryRun::begin(&mut s, &guarded(None, None)));
    assert!(matches!(over(fail(run, &mut s, "broke")), Ok(false)));
    assert_eq!(s.step_result("guard"), None);
    assert_eq!(s.last_error.as_deref(), Some("broke"));
}

#[test]
fn a_finally_runs_however_the_body_ends() {
    let mut s = state();
    let run = running(TryRun::begin(
        &mut s,
        &guarded(None, Some(list(&["z"]))),
    ));
    let run = running(fail(run, &mut s, "broke"));
    assert_eq!(s.steps[run.poll(false).unwrap()].id, "z");
    assert!(matches!(over(succeed(run, &mut s)), Ok(false)));

    let mut s = state();
    let run = running(TryRun::begin(
        &mut s,
        &guarded(Some(list(&[])), Some(list(&["z"]))),
    ));
    let run = running(fail(run, &mut s, "broke"));
    // A failure of the cleanup prevails over the recovery.
    assert!(matches!(over(fail(run, &mut s, "z broke")), Ok(false)));
    assert_eq!(s.step_result("guard"), None);
}

#[test]
fn a_try_catches_no_cancellation() {
    let mut s = state();
    let all = || guarded(Some(list(&["c"])), Some(list(&["z"])));
    let run = running(TryRun::begin(&mut s, &all()));
    let fired = run.poll(true).unwrap_err();
    assert!(matches!(
        over(run.report(&mut s, Err(fired))),
        Err(KernelError::Cancelled { at_step }) if at_step == "a"
    ));
    assert!(s.steps.is_empty());

    let run = running(TryRun::begin(&mut s, &all()));
    s.cancelled = true;
    assert!(matches!(
        over(run.report(&mut s, Ok(false))),
        Err(KernelError::Cancelled { at_step }) if at_step == "a"
    ));
}

/// An error of a step is not caught, and comes out once the cleanup has run.
#[test]
fn an_error_comes_out_after_the_cleanup() {
    let gone = || Err(KernelError::Runtime("gone".to_string()));
    let all = || guarded(Some(list(&["c"])), Some(list(&["z"])));
    let mut s = state();
    let run = running(TryRun::begin(&mut s, &all()));
    let run = running(run.report(&mut s, gone()));
    assert_eq!(s.steps[run.poll(false).unwrap()].id, "z");
    assert!(matches!(
        over(succeed(run, &mut s)),
        Err(KernelError::Runtime(m)) if m == "gone"
    ));
    assert!(s.steps.is_empty());
    assert_eq!(s.step_result("guard"), None);

    // An error of the handler likewise.
    let run = running(TryRun::begin(&mut s, &all()));
    let run = running(fail(run, &mut s, "broke"));
    let run = running(run.report(&mut s, gone()));
    assert!(s.error_stack.is_empty());
    assert_eq!(s.steps[run.poll(false).unwrap()].id, "z");
    // A failure of the cleanup prevails.
    assert!(matches!(over(fail(run, &mut s, "z broke")), Ok(false)));

    let run = running(TryRun::begin(&mut s, &guarded(None, None)));
    assert!(over(run.report(&mut s, gone())).is_err());
}

#[test]
fn a_cleanup_sees_no_mark_of_the_failure_before_it() {
    let thrown = || PluginErrorPayload {
        code: "E_BAD".to_string(),
        message: "nope".to_string(),
        params: Json::Null,
    };
    let violation = ResourceViolation::MemoryLimit { bytes: 9 };
    let mut s = state();
    let run = running(TryRun::begin(&mut s, &guarded(None, Some(list(&["z"])))));
    s.plugin_error = Some(thrown());
    s.resource_violation = Some(violation);
    let run = running(fail(run, &mut s, "broke"));
    assert!(s.last_error.is_none() && s.plugin_error.is_none());
    assert!(s.resource_violation.is_none());
    // What marked the failure is back when the cleanup has run.
    assert!(matches!(over(succeed(run, &mut s)), Ok(false)));
    assert_eq!(s.last_error.as_deref(), Some("broke"));
    assert!(s.plugin_error.is_some());
    assert_eq!(s.resource_violation, Some(violation));

    // A failure of the cleanup is told in the place of the one before it.
    let mut s = state();
    let run = running(TryRun::begin(&mut s, &guarded(None, Some(list(&["z"])))));
    s.plugin_error = Some(thrown());
    let run = running(fail(run, &mut s, "broke"));
    assert!(matches!(over(fail(run, &mut s, "z broke")), Ok(false)));
    assert_eq!(s.last_error.as_deref(), Some("z broke"));
    assert!(s.plugin_error.is_none());
}

#[test]
fn a_pass_forgets_what_carried_steps_left() {
    let pick = object(&[
        ("id", text("pick")),
        ("type", text("ifs")),
        (
            "params",
            object(&[(
                "ifs",
                Json::Array(vec![object(&[("test", text("odd")), ("then", list(&["deep"]))])]),
            )]),
        ),
    ]);
    let each = step(
        "loop",
        "for_each",
        object(&[("steps", Json::Array(vec![pick]))]),
    );
    let mut s = state();
    s.store_step_result("outside", text("kept"));
    let run = running(LoopRun::begin(&mut s, &each, LoopKind::ForEach, 2));
    let run = running(run.advance(&mut s, Ok(1)));
    // The branch is taken in the first pass, and not in the second.
    s.store_step_result("deep", text("first"));
    s.store_step_result("pick", Json::Null);
    let run = running(run.report(&mut s, Ok(true)));
    let run = running(run.advance(&mut s, Ok(1)));
    assert_eq!(s.step_result("deep"), None);
    assert_eq!(s.step_result("pick"), None);
    assert_eq!(s.step_result("outside"), Some(&text("kept")));
    // What the last pass left stays behind the loop.
    s.store_step_result("deep", text("last"));
    let run = running(run.report(&mut s, Ok(true)));
    let run = running(run.advance(&mut s, Ok(0)));
    assert!(matches!(run.end(&mut s, Ok(0)), Ok(true)));
    assert_eq!(s.step_result("deep"), Some(&text("last")));
}

#[test]
fn an_error_takes_the_item_of_a_loop_with_it() {
    let (mut s, run) = counting(1_000);
    s.foreach_stack.push(Some(text("outer")));
    s.foreach_stack.push(Some(text("own")));
    let run = running(run.advance(&mut s, Ok(1)));
    let gone = Err(KernelError::Runtime("gone".to_string()));
    assert!(over(run.report(&mut s, gone)).is_err());
    assert_eq!(s.foreach_stack, vec![Some(text("outer"))]);
    assert!(s.steps.is_empty());
}

#[test]
fn a_return_skips_the_rest_of_a_try() {
    let mut s = state();
    let run = running(TryRun::begin(
        &mut s,
        &guarded(None, Some(list(&["z"]))),
    ));
    s.return_signal = Some(text("early"));
    assert!(matches!(over(run.report(&mut s, Ok(true))), Ok(true)));
    assert_eq!(s.step_result("guard"), None);
}

#[test]
fn a_try_without_a_body_has_null() {
    let mut s = state();
    let empty = step("guard", "try", object(&[]));
    assert!(matches!(over(TryRun::begin(&mut s, &empty)), Ok(true)));
    assert_eq!(s.step_result("guard"), Some(&Json::Null));
}

#[test]
fn what_spells_no_step_is_passed_over() {
    let items = vec![inner("a"), Json::Bool(true), inner("b")];
    let ids: Vec<String> = read_steps(&items).into_iter().map(|s| s.id).collect();
    assert_eq!(ids, vec!["a".to_string(), "b".to_string()]);
}

#[test]
fn the_first_branch_that_holds_is_taken() {
    let ifs = step(
        "pick",
        "ifs",
        object(&[(
            "ifs",
            Json::Array(vec![
                object(&[("test", text("one")), ("then", list(&["a"]))]),
                object(&[("test", text("two")), ("then", list(&["b"]))]),
                object(&[("then", list(&["c"]))]),
            ]),
        )]),
    );
    let mut branches = Branches::of(&ifs);
    assert!(matches!(branches.choice(), Choice::Test(t) if t == "one"));
    assert!(matches!(branches.answer(false), Choice::Test(t) if t == "two"));
    assert!(matches!(branches.answer(true), Choice::Take(v) if v[0].id == "b"));
    assert!(matches!(branches.answer(false), Choice::Take(v) if v[0].id == "c"));
    assert!(matches!(
        Branches::of(&step("none", "ifs", object(&[]))).choice(),
        Choice::Nothing
    ));
}

#[test]
fn a_branch_runs_its_steps_and_takes_them_away() {
    let mut s = state();
    let steps = read_steps(&vec![inner("a"), inner("b")]);
    let run = running(BranchRun::begin(&mut s, &steps));
    assert_eq!(run.poll(false).unwrap(), 0);
    let run = running(run.report(&mut s, Ok(true)));
    assert_eq!(run.poll(false).unwrap(), 1);
    assert!(matches!(over(run.report(&mut s, Ok(false))), Ok(false)));
    assert!(s.steps.is_empty());
    assert!(matches!(
        over(BranchRun::begin(&mut s, &Vec::new())),
        Ok(true)
    ));
}

fn counting(limit: usize) -> (ExecutionState, LoopRun) {
    let mut s = ExecutionState::new(
        "p".to_string(),
        Vec::new(),
        RuntimeLimits::default().with_max_step_results_bytes(limit),
        0,
    );
    let repeat = step(
        "loop",
        "repeat",
        object(&[
            ("steps", list(&["a"])),
            ("collect", text("$steps.a.result")),
            ("until", text("done")),
        ]),
    );
    let run = running(LoopRun::begin(&mut s, &repeat, LoopKind::Repeat, 3));
    (s, run)
}

#[test]
fn a_loop_collects_until_its_test_holds() {
    let (mut s, run) = counting(1_000);
    assert_eq!(run.phase(), LoopPhase::Advance);
    assert_eq!(
        run.collect_expression().map(|e| e.as_str()),
        Some("$steps.a.result")
    );
    assert_eq!(run.until_expression().map(|e| e.as_str()), Some("done"));
    s.store_step_result("a", text("stale"));
    let run = running(run.advance(&mut s, Ok(1)));
    // Every pass begins without what the steps left in the one before it.
    assert_eq!(s.step_result("a"), None);
    assert_eq!(run.phase(), LoopPhase::Body);
    let run = running(run.report(&mut s, Ok(true)));
    assert_eq!(run.phase(), LoopPhase::Collect);
    let run = running(run.collect(&mut s, Ok(text("x"))));
    assert_eq!(run.phase(), LoopPhase::Until);
    let run = running(run.test(&mut s, Ok(false)));
    let run = running(run.advance(&mut s, Ok(1)));
    let run = running(run.report(&mut s, Ok(true)));
    let run = running(run.collect(&mut s, Ok(text("y"))));
    let run = running(run.test(&mut s, Ok(true)));
    assert_eq!(run.phase(), LoopPhase::End);
    assert!(s.steps.is_empty());
    assert!(matches!(run.end(&mut s, Ok(0)), Ok(true)));
    assert_eq!(
        s.step_result("loop"),
        Some(&Json::Array(vec![text("x"), text("y")]))
    );
}

#[test]
fn what_a_loop_collects_counts_toward_the_limit() {
    let (mut s, run) = counting(20);
    let run = running(run.advance(&mut s, Ok(1)));
    let run = running(run.report(&mut s, Ok(true)));
    let run = running(run.collect(&mut s, Ok(text("12"))));
    let run = running(run.test(&mut s, Ok(false)));
    let run = running(run.advance(&mut s, Ok(1)));
    let run = running(run.report(&mut s, Ok(true)));
    assert!(matches!(
        over(run.collect(&mut s, Ok(text("345")))),
        Err(KernelError::StepResultsLimitExceeded {
            limit_bytes: 20,
            attempted_bytes: 21
        })
    ));
    assert!(s.steps.is_empty());
}

#[test]
fn a_loop_whose_begin_fails_tells_why() {
    let mut s = state();
    let each = step("loop", "for_each", object(&[("until", text("x"))]));
    assert!(matches!(
        over(LoopRun::begin(&mut s, &each, LoopKind::ForEach, -1)),
        Err(KernelError::Execution(m)) if m == "begin_foreach returned negative count"
    ));
    s.last_error = Some("no list".to_string());
    assert!(matches!(
        over(LoopRun::begin(&mut s, &each, LoopKind::Repeat, -1)),
        Err(KernelError::Execution(m)) if m == "no list"
    ));
    // Only `repeat` has a test, and a loop without items is at its end.
    let run = running(LoopRun::begin(&mut s, &each, LoopKind::ForEach, 0));
    assert_eq!(run.until_expression(), None);
    assert_eq!(run.phase(), LoopPhase::End);
}

#[test]
fn a_failed_pass_takes_the_item_with_it() {
    let (mut s, run) = counting(1_000);
    s.foreach_stack.push(Some(Json::Number(Number::PosInt(0))));
    let run = running(run.advance(&mut s, Ok(1)));
    assert!(matches!(over(run.report(&mut s, Ok(false))), Ok(false)));
    assert!(s.foreach_stack.is_empty());
    assert_eq!(s.step_result("loop"), None);
}

#[test]
fn a_return_ends_a_loop() {
    let (mut s, run) = counting(1_000);
    let run = running(run.advance(&mut s, Ok(1)));
    s.return_signal = Some(Json::Null);
    let run = running(run.report(&mut s, Ok(true)));
    assert_eq!(run.phase(), LoopPhase::End);
}

fn fan_out(branches: Json) -> StepDef {
    step("fan", "parallel", object(&[("branches", branches)]))
}

#[test]
fn branches_run_apart_and_merge_in_order() {
    let mut s = state();
    s.set_variable("old".to_string(), text("kept"));
    let par = fan_out(Json::Array(vec![list(&["a"]), list(&[]), list(&["b"])]));
    let forks = begin_parallel(&mut s, &par).unwrap();
    assert_eq!(forks.len(), 3);
    let mut joined = Vec::new();
    for fork in forks {
        joined.push(fork.map(|f| {
            let mut own = f.state;
            let i = f.task.poll(false).unwrap();
            let id = own.steps[i].id.clone();
            assert!(own.step_result("a").is_none());
            own.store_step_result(&id, text(&id));
            own.set_variable("old".to_string(), text("lost"));
            own.set_variable(format!("new_{id}"), text(&id));
            own.return_signal = Some(text(&id));
            match f.task.report(&own, Ok(true)) {
                BranchTurn::Over(end) => JoinedBranch { state: own, end },
                BranchTurn::Run(_) => panic!("one step"),
            }
        }));
    }
    assert!(matches!(join_parallel(&mut s, "fan", joined), Ok(true)));
    assert_eq!(
        s.step_result("fan"),
        Some(&Json::Array(vec![text("a"), Json::Null, text("b")]))
    );
    assert_eq!(s.step_result("a"), Some(&text("a")));
    assert_eq!(s.variables.get("old"), Some(&text("kept")));
    assert_eq!(s.variables.get("new_b"), Some(&text("b")));
    assert_eq!(s.return_signal, Some(text("a")));
    assert!(s.steps.is_empty());
}

#[test]
fn any_failure_fails_a_parallel_step() {
    let end = |end| BranchEnd { last: None, end };
    let mut s = state();
    let joined = vec![
        Some(JoinedBranch {
            state: s.fork(),
            end: end(Ok(true)),
        }),
        Some(JoinedBranch {
            state: s.fork(),
            end: end(Ok(false)),
        }),
    ];
    assert!(matches!(join_parallel(&mut s, "fan", joined), Ok(false)));
    assert!(s.step_result("fan").is_some());

    let mut s = state();
    let joined = vec![
        None,
        Some(JoinedBranch {
            state: s.fork(),
            end: end(Err(KernelError::Runtime("first".to_string()))),
        }),
        Some(JoinedBranch {
            state: s.fork(),
            end: end(Err(KernelError::Runtime("second".to_string()))),
        }),
    ];
    assert!(matches!(
        join_parallel(&mut s, "fan", joined),
        Err(KernelError::Runtime(m)) if m == "first"
    ));
    assert!(s.step_result("fan").is_none());
}

#[test]
fn a_parallel_step_has_a_width() {
    let mut s = ExecutionState::new(
        "p".to_string(),
        Vec::new(),
        RuntimeLimits::default().with_max_parallel_branches(1),
        0,
    );
    let wide = fan_out(Json::Array(vec![list(&["a"]), list(&["b"])]));
    match begin_parallel(&mut s, &wide) {
        Err(KernelError::Validation(m)) => assert!(m.starts_with(
            "parallel step 'fan': 2 branches exceeds the 1-branch limit."
        )),
        _ => panic!("too wide"),
    }
    assert!(begin_parallel(&mut s, &fan_out(Json::Null))
        .unwrap()
        .is_empty());
    assert_eq!(s.step_result("fan"), Some(&Json::Array(Vec::new())));
}

#[test]
fn a_cancelled_branch_is_an_error() {
    let mut s = state();
    let par = fan_out(Json::Array(vec![list(&["a"])]));
    let forks = begin_parallel(&mut s, &par).unwrap();
    for f in forks.into_iter().flatten() {
        let mut own = f.state;
        own.cancelled = true;
        match f.task.report(&own, Ok(false)) {
            BranchTurn::Over(end) => assert!(matches!(
                end.end,
                Err(KernelError::Cancelled { at_step }) if at_step == "a"
            )),
            BranchTurn::Run(_) => panic!("cancelled"),
        }
    }
}

#[test]
fn steps_are_routed_by_their_type() {
    let access = StepTypeAccess::none();
    let none: Option<&Kernel<Check>> = None;
    let mut s = state();
    let mut to = |t: &str| route_step(&mut s, &step("x", t, Json::Null), &access, none);
    assert!(matches!(to("for_each"), Ok(StepRoute::Loop(LoopKind::ForEach))));
    assert!(matches!(to("repeat"), Ok(StepRoute::Loop(LoopKind::Repeat))));
    assert!(matches!(to("ifs"), Ok(StepRoute::Ifs)));
    assert!(matches!(to("return"), Ok(StepRoute::Return)));
    assert!(matches!(to("try"), Ok(StepRoute::Try)));
    assert!(matches!(to("parallel"), Ok(StepRoute::Parallel)));
    assert!(matches!(to("let"), Ok(StepRoute::Host(n)) if n == "step_let"));
    match to("vault.sign") {
        Err(KernelError::Validation(m)) => assert_eq!(
            m,
            "plugin 'p' may not use step type 'vault.sign'. Add \"step_type:vault.sign\" to this manifest's `permissions`, or have the defining plugin mark its `stepTypeDefs` entry \"freelyUsable\": true"
        ),
        _ => panic!("not allowed"),
    }
    assert!(s.last_error.is_some());
}

#[test]
fn a_step_that_ran_into_a_limit_failed() {
    let mut s = state();
    assert!(matches!(settle_step(&s, Ok(true)), Ok(true)));
    s.resource_violation = Some(ResourceViolation::FuelExhausted { budget: 1 });
    assert!(matches!(settle_step(&s, Ok(true)), Ok(false)));
    assert!(settle_step(&s, Err(KernelError::Runtime(String::new()))).is_err());
}

#[test]
fn a_return_is_a_result_and_a_signal() {
    let mut s = state();
    let ret = step("out", "return", object(&[("value", text("{{x}}"))]));
    assert_eq!(return_value(&ret), text("{{x}}"));
    assert_eq!(return_value(&step("out", "return", Json::Null)), Json::Null);
    assert!(matches!(run_return(&mut s, &ret, text("v")), Ok(true)));
    assert_eq!(s.step_result("out"), Some(&text("v")));
    assert_eq!(s.return_signal, Some(text("v")));
}

#[test]
fn an_expression_that_does_not_parse_is_told() {
    assert!(matches!(
        expression_error("collect", "$$", "stray"),
        KernelError::Execution(m) if m == "collect: expression '$$' parse error: stray"
    ));
}
