//! What becomes of a step that failed, and of what tasks of their own wrote.

use indexmap::IndexMap;
use vstd::prelude::*;

use crate::error::{share, ErrorView, KernelError};
use crate::exec_state::{stored, ExecutionState, ResourceViolation, StateView};
use crate::index_map::{entries, get, insert, into_entries, put};
use crate::json::{entry_views, lookup, Json, JsonView};
use crate::text::{cat3, same, texts};

verus! {

/// The error of a step that failed: that of a limit, of a cancellation, of the action that it
/// invoked, of what it threw, and else its message, in this order.
pub open spec fn failure(s: StateView, id: Seq<char>) -> ErrorView {
    if s.resource_violation is Some {
        match s.resource_violation->0 {
            ResourceViolation::FuelExhausted { budget } => ErrorView::FuelExhausted {
                budget,
                detail: match s.last_error {
                    Some(e) => e,
                    None => "step '"@ + id + "'"@,
                },
            },
            ResourceViolation::MemoryLimit { bytes } => ErrorView::MemoryLimitExceeded {
                limit_bytes: bytes,
            },
            ResourceViolation::StepResultsLimit { limit_bytes, attempted_bytes } =>
                ErrorView::StepResultsLimitExceeded { limit_bytes, attempted_bytes },
        }
    } else if s.cancelled {
        ErrorView::Cancelled { at_step: id }
    } else if s.callee_error is Some {
        let c = s.callee_error->0;
        ErrorView::CalleeFailed {
            step_id: id,
            plugin: c.plugin,
            action: c.action,
            source: Box::new(c.source),
        }
    } else if s.plugin_error is Some {
        let p = s.plugin_error->0;
        ErrorView::PluginError { code: p.code, message: p.message, params: p.params }
    } else {
        ErrorView::Execution(
            match s.last_error {
                Some(e) => e,
                None => "Step '"@ + id + "' failed"@,
            },
        )
    }
}

/// The error of a step that failed.
pub fn step_failure_to_error(state: &ExecutionState, step_id: &str) -> (r: KernelError)
    ensures
        r@ == failure(state@, step_id@),
{
    if let Some(violation) = state.resource_violation {
        return match violation {
            ResourceViolation::FuelExhausted { budget } => {
                let detail = match &state.last_error {
                    Some(e) => e.clone(),
                    None => cat3("step '", step_id, "'"),
                };
                KernelError::FuelExhausted { budget, detail }
            },
            ResourceViolation::MemoryLimit { bytes } => KernelError::MemoryLimitExceeded {
                limit_bytes: bytes,
            },
            ResourceViolation::StepResultsLimit { limit_bytes, attempted_bytes } =>
                KernelError::StepResultsLimitExceeded { limit_bytes, attempted_bytes },
        };
    }
    if state.cancelled {
        return KernelError::Cancelled { at_step: step_id.to_owned() };
    }
    if let Some(callee) = &state.callee_error {
        return KernelError::CalleeFailed {
            step_id: step_id.to_owned(),
            plugin: callee.plugin.clone(),
            action: callee.action.clone(),
            source: share(&callee.source),
        };
    }
    if let Some(thrown) = &state.plugin_error {
        return KernelError::PluginError {
            code: thrown.code.clone(),
            message: thrown.message.clone(),
            params: thrown.params.clone(),
        };
    }
    let message = match &state.last_error {
        Some(e) => e.clone(),
        None => cat3("Step '", step_id, "' failed"),
    };
    KernelError::Execution(message)
}

/// The error of a merge that ran into the limit on step results.
pub open spec fn over_budget(s: StateView) -> Option<ErrorView> {
    match s.resource_violation {
        Some(ResourceViolation::StepResultsLimit { limit_bytes, attempted_bytes }) => Some(
            ErrorView::StepResultsLimitExceeded { limit_bytes, attempted_bytes },
        ),
        _ => None,
    }
}

/// The error of a merge that ran into the limit on step results.
pub fn merge_over_budget(state: &ExecutionState) -> (r: Option<KernelError>)
    ensures
        match r {
            Some(e) => over_budget(state@) == Some(e@),
            None => over_budget(state@) is None,
        },
{
    match state.resource_violation {
        Some(ResourceViolation::StepResultsLimit { limit_bytes, attempted_bytes }) => Some(
            KernelError::StepResultsLimitExceeded { limit_bytes, attempted_bytes },
        ),
        _ => None,
    }
}

/// Before a nested step runs: the cancellation, where there is one.
pub fn check_cancelled(fired: bool, step_id: &str) -> (r: Result<(), KernelError>)
    ensures
        r is Ok <==> !fired,
        r is Err ==> r->Err_0@ == (ErrorView::Cancelled { at_step: step_id@ }),
{
    if fired {
        Err(KernelError::Cancelled { at_step: step_id.to_owned() })
    } else {
        Ok(())
    }
}

/// After a nested step failed: the cancellation, where it stopped on one. A `try` does not catch it.
pub fn escape_if_cancelled(state: &ExecutionState, step_id: &str) -> (r: Result<(), KernelError>)
    ensures
        r is Ok <==> !state@.cancelled,
        r is Err ==> r->Err_0@ == (ErrorView::Cancelled { at_step: step_id@ }),
{
    check_cancelled(state.cancelled, step_id)
}

/// The variables with those of a task that were not there before it.
pub open spec fn with_new_variables(
    into: Seq<(Seq<char>, JsonView)>,
    from: Seq<(Seq<char>, JsonView)>,
    baseline: Seq<(Seq<char>, JsonView)>,
) -> Seq<(Seq<char>, JsonView)>
    decreases from.len(),
{
    if from.len() == 0 {
        into
    } else {
        let before = with_new_variables(into, from.drop_last(), baseline);
        if lookup(baseline, from.last().0) is Some {
            before
        } else {
            put(before, from.last().0, from.last().1)
        }
    }
}

fn add_new_variables(
    into: &mut IndexMap<String, Json>,
    from: IndexMap<String, Json>,
    baseline: &IndexMap<String, Json>,
)
    ensures
        entries(*final(into)) == with_new_variables(
            entries(*old(into)),
            entries(from),
            entries(*baseline),
        ),
{
    let ghost start = entries(*into);
    let list = into_entries(from);
    let ghost all = list@;
    let ghost views = entry_views(list@);
    for e in it: list
        invariant
            it.seq() == all,
            it.index() <= all.len(),
            views == entry_views(all),
            entries(*into) == with_new_variables(
                start,
                views.take(it.index() as int),
                entries(*baseline),
            ),
    {
        let ghost i = it.index() as int;
        proof {
            assert(views.take(i + 1).drop_last() =~= views.take(i));
            assert(views[i] == (e.0@, e.1@));
        }
        let (k, v) = e;
        if get(baseline, k.as_str()).is_none() {
            insert(into, k, v);
        }
    }
    assert(views.take(views.len() as int) =~= views);
}

/// The first of two that is there.
pub open spec fn first_some<T>(a: Option<T>, b: Option<T>) -> Option<T> {
    if a is Some {
        a
    } else {
        b
    }
}

/// The state when a task that ran one step has been merged into it: the step's result, charged as
/// any other, what it emitted beside it, and the variables that are new; a mark that both have is
/// that of the state.
pub open spec fn merged_task(
    c: StateView,
    t: StateView,
    id: Seq<char>,
    baseline: Seq<(Seq<char>, JsonView)>,
) -> StateView {
    let s = match lookup(t.step_results, id) {
        Some(v) => stored(c, id, v),
        None => c,
    };
    StateView {
        step_metadata: match lookup(t.step_metadata, id) {
            Some(m) => put(s.step_metadata, id, m),
            None => s.step_metadata,
        },
        variables: with_new_variables(s.variables, t.variables, baseline),
        last_error: first_some(s.last_error, t.last_error),
        plugin_error: first_some(s.plugin_error, t.plugin_error),
        resource_violation: first_some(s.resource_violation, t.resource_violation),
        return_signal: first_some(s.return_signal, t.return_signal),
        ..s
    }
}

/// Merges a task that ran one step.
pub fn merge_task_state(
    canonical: &mut ExecutionState,
    task: ExecutionState,
    step_id: &str,
    baseline_variables: &IndexMap<String, Json>,
)
    requires
        old(canonical).wf(),
    ensures
        final(canonical).wf(),
        final(canonical)@ == merged_task(
            old(canonical)@,
            task@,
            step_id@,
            entries(*baseline_variables),
        ),
{
    if let Some(v) = get(&task.step_results, step_id) {
        canonical.store_step_result(step_id, v.clone());
    }
    if let Some(m) = get(&task.step_metadata, step_id) {
        insert(&mut canonical.step_metadata, step_id.to_owned(), m.clone());
    }
    add_new_variables(&mut canonical.variables, task.variables, baseline_variables);
    if canonical.last_error.is_none() {
        canonical.last_error = task.last_error;
    }
    if canonical.plugin_error.is_none() {
        canonical.plugin_error = task.plugin_error;
    }
    if canonical.resource_violation.is_none() {
        canonical.resource_violation = task.resource_violation;
    }
    if canonical.return_signal.is_none() {
        canonical.return_signal = task.return_signal;
    }
}

/// The state with the step results that are new, each charged as any other.
pub open spec fn with_new_results(
    c: StateView,
    results: Seq<(Seq<char>, JsonView)>,
    known: Seq<Seq<char>>,
) -> StateView
    decreases results.len(),
{
    if results.len() == 0 {
        c
    } else {
        let before = with_new_results(c, results.drop_last(), known);
        if known.contains(results.last().0) {
            before
        } else {
            stored(before, results.last().0, results.last().1)
        }
    }
}

/// What steps emitted beside their results, with that of steps that are new.
pub open spec fn with_new_metadata(
    into: Seq<(Seq<char>, JsonView)>,
    from: Seq<(Seq<char>, JsonView)>,
    known: Seq<Seq<char>>,
) -> Seq<(Seq<char>, JsonView)>
    decreases from.len(),
{
    if from.len() == 0 {
        into
    } else {
        let before = with_new_metadata(into, from.drop_last(), known);
        if known.contains(from.last().0) {
            before
        } else {
            put(before, from.last().0, from.last().1)
        }
    }
}

/// The state when a branch has been merged into it: the results that are new, charged as any other,
/// what was emitted beside them, and the variables that are new; a mark that both have is that of
/// the state. Whether a step stopped on a cancellation is not carried over.
pub open spec fn merged_branch(
    c: StateView,
    t: StateView,
    known: Seq<Seq<char>>,
    baseline: Seq<(Seq<char>, JsonView)>,
) -> StateView {
    let s = with_new_results(c, t.step_results, known);
    StateView {
        step_metadata: with_new_metadata(s.step_metadata, t.step_metadata, known),
        first_step_id: first_some(s.first_step_id, t.first_step_id),
        variables: with_new_variables(s.variables, t.variables, baseline),
        last_error: first_some(s.last_error, t.last_error),
        plugin_error: first_some(s.plugin_error, t.plugin_error),
        resource_violation: first_some(s.resource_violation, t.resource_violation),
        callee_error: first_some(s.callee_error, t.callee_error),
        return_signal: first_some(s.return_signal, t.return_signal),
        ..s
    }
}

/// Whether a text is in a list.
pub fn is_known(known: &Vec<String>, id: &str) -> (r: bool)
    ensures
        r == texts(known@).contains(id@),
{
    let ghost views = texts(known@);
    let mut i: usize = 0;
    while i < known.len()
        invariant
            i <= known@.len(),
            views == texts(known@),
            forall|j: int| 0 <= j < i ==> (#[trigger] views[j]) != id@,
        decreases known@.len() - i,
    {
        assert(views[i as int] == known@[i as int]@);
        if same(known[i].as_str(), id) {
            return true;
        }
        i += 1;
    }
    false
}

/// Merges a branch of a `parallel` step; `known` are the steps that had a result before it.
pub fn merge_parallel_branch_state(
    canonical: &mut ExecutionState,
    task: ExecutionState,
    known: &Vec<String>,
    baseline_variables: &IndexMap<String, Json>,
)
    requires
        old(canonical).wf(),
    ensures
        final(canonical).wf(),
        final(canonical)@ == merged_branch(
            old(canonical)@,
            task@,
            texts(known@),
            entries(*baseline_variables),
        ),
{
    let ghost start = canonical@;
    let results = into_entries(task.step_results);
    let ghost all = results@;
    let ghost views = entry_views(results@);
    for e in it: results
        invariant
            it.seq() == all,
            it.index() <= all.len(),
            views == entry_views(all),
            canonical.wf(),
            canonical@ == with_new_results(start, views.take(it.index() as int), texts(known@)),
    {
        let ghost i = it.index() as int;
        proof {
            assert(views.take(i + 1).drop_last() =~= views.take(i));
            assert(views[i] == (e.0@, e.1@));
        }
        let (k, v) = e;
        if !is_known(known, k.as_str()) {
            canonical.store_step_result(k.as_str(), v);
        }
    }
    assert(views.take(views.len() as int) =~= views);
    let ghost charged = canonical@;
    let metadata = into_entries(task.step_metadata);
    let ghost all = metadata@;
    let ghost views = entry_views(metadata@);
    assert(views.take(0) =~= Seq::empty());
    for e in it: metadata
        invariant
            it.seq() == all,
            it.index() <= all.len(),
            views == entry_views(all),
            canonical.wf(),
            canonical@ == (StateView {
                step_metadata: with_new_metadata(
                    charged.step_metadata,
                    views.take(it.index() as int),
                    texts(known@),
                ),
                ..charged
            }),
    {
        let ghost i = it.index() as int;
        proof {
            assert(views.take(i + 1).drop_last() =~= views.take(i));
            assert(views[i] == (e.0@, e.1@));
        }
        let (k, v) = e;
        if !is_known(known, k.as_str()) {
            insert(&mut canonical.step_metadata, k, v);
        }
    }
    assert(views.take(views.len() as int) =~= views);
    if canonical.first_step_id.is_none() {
        canonical.first_step_id = task.first_step_id;
    }
    add_new_variables(&mut canonical.variables, task.variables, baseline_variables);
    if canonical.last_error.is_none() {
        canonical.last_error = task.last_error;
    }
    if canonical.plugin_error.is_none() {
        canonical.plugin_error = task.plugin_error;
    }
    if canonical.resource_violation.is_none() {
        canonical.resource_violation = task.resource_violation;
    }
    if canonical.callee_error.is_none() {
        canonical.callee_error = task.callee_error;
    }
    if canonical.return_signal.is_none() {
        canonical.return_signal = task.return_signal;
    }
}

} // verus!
