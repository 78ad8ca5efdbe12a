//! Actions whose steps all run at the same time, each as soon as the values it needs are there.
//!
//! A step that is long-running has its output stream before anything runs, so that nothing waits for
//! it; any other step is waited for by those that depend on it.

use indexmap::IndexMap;
use vstd::prelude::*;

use crate::error::{ErrorView, KernelError};
use crate::exec_state::{approx_value_bytes, stored, ExecutionState, StateView};
use crate::fanout::{below, populate_fanout_overrides_on_state, with_overrides};
use crate::index_map::{entries, insert};
use crate::json::{lookup, Json, JsonView};
use crate::manifest::{DagPlan, PlanView, StepDef, StepView};
use crate::outcomes::{
    failure, first_some, merge_over_budget, merge_task_state, merged_task, over_budget,
    step_failure_to_error,
};
use crate::table::Table;
use crate::text::{cat3, join, joined, texts};
use crate::waves::ran_view;

pub mod provision;

verus! {

/// What a pipeline tells of itself while it runs.
#[derive(Debug)]
pub enum DataflowEvent {
    /// A step began.
    StepStarted { step_id: String },
    /// A step ended without an error; `ok` tells whether it succeeded.
    StepCompleted { step_id: String, ok: bool },
    /// A step failed.
    StepFailed { step_id: String, error: String },
    /// What a step reports while it runs.
    StepProgress { step_id: String, payload: Json },
    /// The pipeline ended; `ok` where every step succeeded and nothing was cancelled.
    PipelineCompleted { ok: bool },
}

/// What a [`DataflowEvent`] stands for.
pub enum EventView {
    StepStarted { step_id: Seq<char> },
    StepCompleted { step_id: Seq<char>, ok: bool },
    StepFailed { step_id: Seq<char>, error: Seq<char> },
    StepProgress { step_id: Seq<char>, payload: JsonView },
    PipelineCompleted { ok: bool },
}

impl View for DataflowEvent {
    type V = EventView;

    open spec fn view(&self) -> EventView {
        match self {
            DataflowEvent::StepStarted { step_id } => EventView::StepStarted { step_id: step_id@ },
            DataflowEvent::StepCompleted { step_id, ok } => EventView::StepCompleted {
                step_id: step_id@,
                ok: *ok,
            },
            DataflowEvent::StepFailed { step_id, error } => EventView::StepFailed {
                step_id: step_id@,
                error: error@,
            },
            DataflowEvent::StepProgress { step_id, payload } => EventView::StepProgress {
                step_id: step_id@,
                payload: payload@,
            },
            DataflowEvent::PipelineCompleted { ok } => EventView::PipelineCompleted { ok: *ok },
        }
    }
}

/// A step whose value others wait for: one that is not long-running.
pub open spec fn gives_value(steps: Seq<StepView>) -> spec_fn(usize) -> bool {
    |d: usize| !steps[d as int].long_running
}

/// How many values a step waits for when a pipeline begins.
pub open spec fn value_count(deps: Seq<usize>, steps: Seq<StepView>) -> nat {
    deps.filter(gives_value(steps)).len()
}

/// The schedule of a pipeline: for each step how many values it waits for and whether it began, and
/// the first error.
pub struct DataflowRun {
    awaiting: Vec<usize>,
    spawned: Vec<bool>,
    first_error: Option<KernelError>,
}

/// What a [`DataflowRun`] stands for.
#[verifier::ext_equal]
pub struct DataflowView {
    pub awaiting: Seq<usize>,
    pub spawned: Seq<bool>,
    pub first_error: Option<ErrorView>,
}

impl View for DataflowRun {
    type V = DataflowView;

    closed spec fn view(&self) -> DataflowView {
        DataflowView {
            awaiting: self.awaiting@,
            spawned: self.spawned@,
            first_error: match self.first_error {
                Some(e) => Some(e@),
                None => None,
            },
        }
    }
}

impl DataflowView {
    /// The schedule is one of `n` steps.
    pub open spec fn fits(self, n: nat) -> bool {
        self.awaiting.len() == n && self.spawned.len() == n
    }
}

/// `r` is the schedule that a pipeline begins with: a step that waits for nothing has begun.
pub open spec fn schedule_begun(r: DataflowView, plan: PlanView, steps: Seq<StepView>) -> bool {
    &&& r.fits(steps.len())
    &&& r.first_error is None
    &&& forall|i: int|
        0 <= i < steps.len() ==> (#[trigger] r.awaiting[i]) == value_count(plan.deps[i], steps)
    &&& forall|i: int|
        0 <= i < steps.len() ==> (#[trigger] r.spawned[i]) == (value_count(plan.deps[i], steps)
            == 0)
}

fn count_values(deps: &Vec<usize>, steps: &Vec<StepDef>) -> (r: usize)
    requires
        below(deps.deep_view(), steps@.len()),
    ensures
        r == value_count(deps.deep_view(), steps.deep_view()),
        r <= deps@.len(),
{
    let ghost views = deps.deep_view();
    let ghost keep = gives_value(steps.deep_view());
    assert(views.len() == deps@.len());
    let mut r: usize = 0;
    let mut i: usize = 0;
    assert(views.take(0).filter(keep) =~= Seq::empty()) by {
        reveal(Seq::filter);
    }
    while i < deps.len()
        invariant
            i <= deps@.len(),
            views == deps.deep_view(),
            views.len() == deps@.len(),
            below(views, steps@.len()),
            keep == gives_value(steps.deep_view()),
            r == views.take(i as int).filter(keep).len(),
            r <= i,
        decreases deps@.len() - i,
    {
        proof {
            reveal(Seq::filter);
            assert(views.take(i as int + 1).drop_last() =~= views.take(i as int));
            assert(views[i as int] == deps@[i as int]);
            assert(steps.deep_view()[views[i as int] as int]
                == steps@[views[i as int] as int].deep_view());
        }
        if !steps[deps[i]].long_running {
            r += 1;
        }
        i += 1;
    }
    assert(views.take(views.len() as int) =~= views);
    r
}

/// The steps that begin because one that they waited for is done: each consumer waits for one value
/// less, and begins where it waits for none and has not begun.
pub open spec fn released(r: DataflowView, consumers: Seq<usize>) -> (DataflowView, Seq<usize>)
    decreases consumers.len(),
{
    if consumers.len() == 0 {
        (r, Seq::empty())
    } else {
        let (before, out) = released(r, consumers.drop_last());
        let c = consumers.last();
        let left: usize = if before.awaiting[c as int] == 0 {
            0
        } else {
            (before.awaiting[c as int] - 1) as usize
        };
        let counted = DataflowView { awaiting: before.awaiting.update(c as int, left), ..before };
        if left == 0 && !before.spawned[c as int] {
            (
                DataflowView { spawned: counted.spawned.update(c as int, true), ..counted },
                out.push(c),
            )
        } else {
            (counted, out)
        }
    }
}

/// The steps that begin when a step is done: none where it is long-running, or the pipeline failed or
/// was cancelled.
pub open spec fn released_by(
    r: DataflowView,
    plan: PlanView,
    steps: Seq<StepView>,
    idx: int,
    cancelled: bool,
) -> (DataflowView, Seq<usize>) {
    if steps[idx].long_running || r.first_error is Some || cancelled {
        (r, Seq::empty())
    } else {
        released(r, plan.consumers[idx])
    }
}

/// The error of a step that ended. One that stopped on the cancellation of a pipeline that is winding
/// down has none.
pub open spec fn task_error(
    s: StateView,
    id: Seq<char>,
    ran: Result<bool, ErrorView>,
    winding_down: bool,
) -> Option<ErrorView> {
    match ran {
        Err(e) => if winding_down && e is Cancelled {
            None
        } else {
            Some(e)
        },
        Ok(ok) => if ok || (winding_down && s.cancelled) {
            None
        } else {
            Some(failure(s, id))
        },
    }
}

/// The error of a step whose result does not fit beside those that are stored: the limit on step
/// results is one for all steps together.
pub open spec fn merge_error(c: StateView, t: StateView, id: Seq<char>) -> Option<ErrorView> {
    let own = match lookup(t.step_results, id) {
        Some(v) => over_budget(stored(StateView { resource_violation: None, ..c }, id, v)),
        None => None,
    };
    first_some(own, over_budget(t))
}

/// The error of a step that ended, its merge included.
pub open spec fn settled_error(
    c: StateView,
    t: StateView,
    id: Seq<char>,
    ran: Result<bool, ErrorView>,
    winding_down: bool,
) -> Option<ErrorView> {
    first_some(task_error(t, id, ran, winding_down), merge_error(c, t, id))
}

fn merge_failure(canonical: &ExecutionState, task: &ExecutionState, step_id: &str) -> (r: Option<
    KernelError,
>)
    ensures
        match r {
            Some(e) => merge_error(canonical@, task@, step_id@) == Some(e@),
            None => merge_error(canonical@, task@, step_id@) is None,
        },
{
    if let Some(v) = task.step_result(step_id) {
        let limit_bytes: usize = canonical.limits.max_step_results_bytes;
        let attempted_bytes: usize = canonical.step_results_bytes.saturating_add(
            approx_value_bytes(v),
        );
        if attempted_bytes > limit_bytes {
            return Some(KernelError::StepResultsLimitExceeded { limit_bytes, attempted_bytes });
        }
    }
    merge_over_budget(task)
}

/// What is told of a step that ended.
pub open spec fn task_event(id: Seq<char>, ran: Result<bool, ErrorView>, error: Option<ErrorView>) -> EventView {
    match error {
        Some(e) => EventView::StepFailed { step_id: id, error: e.text() },
        None => EventView::StepCompleted { step_id: id, ok: ran == Ok::<bool, ErrorView>(true) },
    }
}

/// The ids of the steps that have not begun, among the first `n`.
pub open spec fn not_begun(r: DataflowView, steps: Seq<StepView>, n: nat) -> Seq<Seq<char>>
    decreases n,
{
    if n == 0 {
        Seq::empty()
    } else {
        let before = not_begun(r, steps, (n - 1) as nat);
        if r.spawned[n - 1] {
            before
        } else {
            before.push(steps[n - 1].id)
        }
    }
}

/// The error that a pipeline ends with: the first of its steps; else that of a schedule that left a
/// step out, unless it was cancelled.
pub open spec fn pipeline_error(r: DataflowView, steps: Seq<StepView>, cancelled: bool) -> Option<
    ErrorView,
> {
    if r.first_error is Some {
        r.first_error
    } else if !cancelled && not_begun(r, steps, steps.len()).len() > 0 {
        Some(
            ErrorView::Execution(
                "Dataflow scheduler bug: step(s) ["@ + joined(
                    not_begun(r, steps, steps.len()),
                    ", "@,
                )
                    + "] never became runnable, but the pipeline neither failed nor was cancelled. Their dependencies were never satisfied."@,
            ),
        )
    } else {
        None
    }
}

/// What comes of a step that ended: what is told of it, whether the pipeline is cancelled on its
/// account, and the schedule behind it.
pub struct SettledView {
    pub event: EventView,
    pub fires: bool,
    pub run: DataflowView,
}

/// What comes of a step that ended. A pipeline that somebody listens to winds down when it is
/// cancelled; the first error of a step is that of the pipeline, and cancels it.
pub open spec fn settled(
    r: DataflowView,
    c: StateView,
    t: StateView,
    id: Seq<char>,
    ran: Result<bool, ErrorView>,
    cancelled: bool,
    listened: bool,
) -> SettledView {
    let error = settled_error(c, t, id, ran, cancelled && listened);
    SettledView {
        event: task_event(id, ran, error),
        fires: r.first_error is None && error is Some,
        run: DataflowView { first_error: first_some(r.first_error, error), ..r },
    }
}

/// How a pipeline ends, and what is told of it.
pub open spec fn pipeline_ended(r: DataflowView, steps: Seq<StepView>, cancelled: bool) -> (
    Result<(), ErrorView>,
    EventView,
) {
    match pipeline_error(r, steps, cancelled) {
        Some(e) => (Err(e), EventView::PipelineCompleted { ok: false }),
        None => (Ok(()), EventView::PipelineCompleted { ok: !cancelled }),
    }
}

impl DataflowRun {
    /// Begins a pipeline.
    pub fn new(plan: &DagPlan, steps: &Vec<StepDef>) -> (r: DataflowRun)
        requires
            plan.deep_view().fits(steps@.len()),
        ensures
            schedule_begun(r@, plan.deep_view(), steps.deep_view()),
    {
        let ghost p = plan.deep_view();
        let ghost views = steps.deep_view();
        assert(p.deps.len() == plan.deps@.len());
        let mut awaiting: Vec<usize> = Vec::new();
        let mut spawned: Vec<bool> = Vec::new();
        let mut i: usize = 0;
        while i < steps.len()
            invariant
                i <= steps@.len(),
                p == plan.deep_view(),
                p.fits(steps@.len()),
                p.deps.len() == plan.deps@.len(),
                views == steps.deep_view(),
                awaiting@.len() == i,
                spawned@.len() == i,
                forall|j: int|
                    0 <= j < i ==> (#[trigger] awaiting@[j]) == value_count(p.deps[j], views),
                forall|j: int|
                    0 <= j < i ==> (#[trigger] spawned@[j]) == (value_count(p.deps[j], views) == 0),
            decreases steps@.len() - i,
        {
            assert(p.deps[i as int] == plan.deps@[i as int].deep_view());
            let n: usize = count_values(&plan.deps[i], steps);
            awaiting.push(n);
            spawned.push(n == 0);
            i += 1;
        }
        DataflowRun { awaiting, spawned, first_error: None }
    }

    /// Whether a step has begun.
    pub fn has_begun(&self, idx: usize) -> (r: bool)
        requires
            idx < self@.spawned.len(),
        ensures
            r == self@.spawned[idx as int],
    {
        self.spawned[idx]
    }

    /// Takes in a step that ended: what it wrote is merged, and the first error is kept, be it the
    /// step's own or that of a result for which there is no room left. Gives what is
    /// to be told of the step, and whether the pipeline is to be cancelled for it. Only a pipeline
    /// that is listened to winds down when it is cancelled; in any other the step's own answer
    /// stands.
    pub fn settle(
        &mut self,
        canonical: &mut ExecutionState,
        task: ExecutionState,
        step_id: &str,
        ran: Result<bool, KernelError>,
        cancelled: bool,
        listened: bool,
        baseline_variables: &IndexMap<String, Json>,
    ) -> (r: (DataflowEvent, bool))
        requires
            old(canonical).wf(),
        ensures
            final(canonical).wf(),
            final(canonical)@ == merged_task(
                old(canonical)@,
                task@,
                step_id@,
                entries(*baseline_variables),
            ),
            (SettledView { event: r.0@, fires: r.1, run: final(self)@ }) == settled(
                old(self)@,
                old(canonical)@,
                task@,
                step_id@,
                ran_view(ran),
                cancelled,
                listened,
            ),
    {
        let winding_down = cancelled && listened;
        let body_ok = matches!(ran, Ok(true));
        let error: Option<KernelError> = match ran {
            Err(e) => match e {
                KernelError::Cancelled { at_step } => if winding_down {
                    None
                } else {
                    Some(KernelError::Cancelled { at_step })
                },
                e => Some(e),
            },
            Ok(true) => None,
            Ok(false) => if task.cancelled && winding_down {
                None
            } else {
                Some(step_failure_to_error(&task, step_id))
            },
        };
        let error = match error {
            Some(e) => Some(e),
            None => merge_failure(canonical, &task, step_id),
        };
        let event = match &error {
            Some(e) => DataflowEvent::StepFailed { step_id: step_id.to_owned(), error: e.message() },
            None => DataflowEvent::StepCompleted { step_id: step_id.to_owned(), ok: body_ok },
        };
        merge_task_state(canonical, task, step_id, baseline_variables);
        let mut fires = false;
        if self.first_error.is_none() && error.is_some() {
            self.first_error = error;
            fires = true;
        }
        (event, fires)
    }

    /// Lets the steps begin that waited for a step that ended, and gives them.
    pub fn release(
        &mut self,
        plan: &DagPlan,
        steps: &Vec<StepDef>,
        step_idx: usize,
        cancelled: bool,
    ) -> (r: Vec<usize>)
        requires
            plan.deep_view().fits(steps@.len()),
            old(self)@.fits(steps@.len()),
            step_idx < steps@.len(),
        ensures
            final(self)@.fits(steps@.len()),
            (final(self)@, r@) == released_by(
                old(self)@,
                plan.deep_view(),
                steps.deep_view(),
                step_idx as int,
                cancelled,
            ),
    {
        let mut out: Vec<usize> = Vec::new();
        assert(steps.deep_view()[step_idx as int] == steps@[step_idx as int].deep_view());
        if steps[step_idx].long_running || self.first_error.is_some() || cancelled {
            return out;
        }
        let ghost start = self@;
        let ghost n = steps@.len();
        let ghost p = plan.deep_view();
        assert(p.consumers.len() == plan.consumers@.len());
        let consumers = &plan.consumers[step_idx];
        let ghost views = p.consumers[step_idx as int];
        assert(views == plan.consumers@[step_idx as int].deep_view());
        assert(views.len() == consumers@.len());
        assert(views.take(0) =~= Seq::empty());
        let mut i: usize = 0;
        while i < consumers.len()
            invariant
                i <= consumers@.len(),
                views == consumers.deep_view(),
                views.len() == consumers@.len(),
                below(views, n),
                self@.fits(n),
                self@.first_error == start.first_error,
                (self@, out@) == released(start, views.take(i as int)),
            decreases consumers@.len() - i,
        {
            let c: usize = consumers[i];
            proof {
                assert(views[i as int] == c);
                assert(views.take(i as int + 1).drop_last() =~= views.take(i as int));
            }
            let left: usize = if self.awaiting[c] == 0 {
                0
            } else {
                self.awaiting[c] - 1
            };
            self.awaiting[c] = left;
            if left == 0 && !self.spawned[c] {
                self.spawned[c] = true;
                out.push(c);
            }
            i += 1;
        }
        assert(views.take(views.len() as int) =~= views);
        out
    }

    /// Ends a pipeline no step of which runs any more, and gives what is to be told of it.
    pub fn finish(self, steps: &Vec<StepDef>, cancelled: bool) -> (r: (
        Result<(), KernelError>,
        DataflowEvent,
    ))
        requires
            self@.fits(steps@.len()),
        ensures
            (
                match r.0 {
                    Ok(_) => Ok(()),
                    Err(e) => Err(e@),
                },
                r.1@,
            ) == pipeline_ended(self@, steps.deep_view(), cancelled),
    {
        if let Some(e) = self.first_error {
            return (Err(e), DataflowEvent::PipelineCompleted { ok: false });
        }
        if !cancelled {
            let ghost views = steps.deep_view();
            let ghost r = self@;
            let mut left: Vec<String> = Vec::new();
            assert(texts(left@) =~= Seq::empty());
            let mut i: usize = 0;
            while i < steps.len()
                invariant
                    i <= steps@.len(),
                    views == steps.deep_view(),
                    r.spawned == self.spawned@,
                    r.fits(steps@.len()),
                    texts(left@) == not_begun(r, views, i as nat),
                decreases steps@.len() - i,
            {
                if !self.spawned[i] {
                    let ghost before = texts(left@);
                    assert(views[i as int] == steps@[i as int].deep_view());
                    left.push(steps[i].id.clone());
                    assert(texts(left@) =~= before.push(views[i as int].id));
                }
                i += 1;
            }
            assert(texts(left@).len() == left@.len());
            if left.len() > 0 {
                let ids = join(&left, ", ");
                return (
                    Err(
                        KernelError::Execution(
                            cat3(
                                "Dataflow scheduler bug: step(s) [",
                                ids.as_str(),
                                "] never became runnable, but the pipeline neither failed nor was cancelled. Their dependencies were never satisfied.",
                            ),
                        ),
                    ),
                    DataflowEvent::PipelineCompleted { ok: false },
                );
            }
        }
        (Ok(()), DataflowEvent::PipelineCompleted { ok: !cancelled })
    }
}

/// The state that a step of a pipeline runs on: a copy of what is there when it begins, with its own
/// branches of the streams it reads.
pub fn fork_for_step(
    canonical: &ExecutionState,
    plan: &DagPlan,
    steps: &Vec<StepDef>,
    step_idx: usize,
    fanout: &Table<usize, Vec<u32>>,
) -> (r: ExecutionState)
    requires
        canonical.wf(),
        fanout.wf(),
        plan.deep_view().fits(steps@.len()),
        step_idx < steps@.len(),
    ensures
        r.wf(),
        r@ == with_overrides(
            canonical@,
            plan.deep_view(),
            steps.deep_view(),
            fanout.map(),
            step_idx,
        ),
{
    let mut own = canonical.fork();
    populate_fanout_overrides_on_state(&mut own, plan, steps, step_idx, fanout);
    own
}

/// A plan in which a step is a consumer of those it depends on, once of each, and of no others.
pub open spec fn linked(plan: PlanView, n: nat) -> bool {
    &&& plan.fits(n)
    &&& forall|i: int| 0 <= i < n ==> (#[trigger] plan.deps[i]).no_duplicates()
    &&& forall|d: int| 0 <= d < n ==> (#[trigger] plan.consumers[d]).no_duplicates()
    &&& forall|i: usize, d: usize|
        i < n && d < n ==> (#[trigger] plan.deps[i as int].contains(d)
            <==> #[trigger] plan.consumers[d as int].contains(i))
}

/// A value that is still waited for when some steps are done.
pub open spec fn still_waited(steps: Seq<StepView>, done: Set<usize>) -> spec_fn(usize) -> bool {
    |d: usize| !steps[d as int].long_running && !done.contains(d)
}

/// How many values a step waits for when some steps are done.
pub open spec fn pending(deps: Seq<usize>, steps: Seq<StepView>, done: Set<usize>) -> nat {
    deps.filter(still_waited(steps, done)).len()
}

/// A schedule that counts right: each step waits for the values of the steps that are not done, and
/// those that wait for none have begun.
pub open spec fn in_step(
    r: DataflowView,
    plan: PlanView,
    steps: Seq<StepView>,
    done: Set<usize>,
) -> bool {
    &&& r.fits(steps.len())
    &&& forall|i: int|
        0 <= i < steps.len() ==> (#[trigger] r.awaiting[i]) == pending(plan.deps[i], steps, done)
    &&& forall|i: int|
        0 <= i < steps.len() ==> (#[trigger] r.spawned[i]) == (pending(plan.deps[i], steps, done)
            == 0)
}

proof fn lemma_filter_agrees(s: Seq<usize>, p: spec_fn(usize) -> bool, q: spec_fn(usize) -> bool)
    requires
        forall|i: int| 0 <= i < s.len() ==> p(#[trigger] s[i]) == q(s[i]),
    ensures
        s.filter(p) == s.filter(q),
    decreases s.len(),
{
    reveal(Seq::filter);
    if s.len() > 0 {
        let rest = s.drop_last();
        assert forall|i: int| 0 <= i < rest.len() implies p(#[trigger] rest[i]) == q(rest[i]) by {
            assert(rest[i] == s[i]);
        }
        lemma_filter_agrees(rest, p, q);
        assert(p(s[s.len() - 1]) == q(s[s.len() - 1]));
    }
}

/// A pipeline begins with a schedule that counts right.
pub proof fn law_schedule_begins_in_step(r: DataflowView, plan: PlanView, steps: Seq<StepView>)
    requires
        plan.fits(steps.len()),
        schedule_begun(r, plan, steps),
    ensures
        in_step(r, plan, steps, Set::empty()),
{
    assert forall|i: int| 0 <= i < steps.len() implies value_count(#[trigger] plan.deps[i], steps)
        == pending(plan.deps[i], steps, Set::empty()) by {
        lemma_filter_agrees(
            plan.deps[i],
            gives_value(steps),
            still_waited(steps, Set::<usize>::empty()),
        );
    }
    assert forall|i: int| 0 <= i < steps.len() implies (#[trigger] r.awaiting[i]) == pending(
        plan.deps[i],
        steps,
        Set::empty(),
    ) by {
        assert(value_count(plan.deps[i], steps) == pending(plan.deps[i], steps, Set::empty()));
    }
    assert forall|i: int| 0 <= i < steps.len() implies (#[trigger] r.spawned[i]) == (pending(
        plan.deps[i],
        steps,
        Set::empty(),
    ) == 0) by {
        assert(value_count(plan.deps[i], steps) == pending(plan.deps[i], steps, Set::empty()));
    }
}

/// The number less one, and zero for zero.
pub open spec fn one_less(n: usize) -> usize {
    if n == 0 {
        0
    } else {
        (n - 1) as usize
    }
}

proof fn lemma_released(r: DataflowView, consumers: Seq<usize>, n: nat)
    requires
        r.fits(n),
        below(consumers, n),
        consumers.no_duplicates(),
    ensures
        ({
            let (after, out) = released(r, consumers);
            &&& after.fits(n)
            &&& after.first_error == r.first_error
            &&& forall|c: usize|
                c < n ==> (#[trigger] after.awaiting[c as int]) == if consumers.contains(c) {
                    one_less(r.awaiting[c as int])
                } else {
                    r.awaiting[c as int]
                }
            &&& forall|c: usize|
                c < n ==> (#[trigger] after.spawned[c as int]) == (r.spawned[c as int] || (
                consumers.contains(c) && after.awaiting[c as int] == 0))
            &&& forall|c: usize| #[trigger]
                out.contains(c) <==> c < n && consumers.contains(c) && !r.spawned[c as int]
                    && after.spawned[c as int]
            &&& out.no_duplicates()
        }),
    decreases consumers.len(),
{
    let (after, out) = released(r, consumers);
    if consumers.len() > 0 {
        let rest = consumers.drop_last();
        let last = consumers.last();
        assert forall|i: int| 0 <= i < rest.len() implies (#[trigger] rest[i]) < n by {
            assert(rest[i] == consumers[i]);
        }
        assert(rest.no_duplicates());
        lemma_released(r, rest, n);
        let (before, sofar) = released(r, rest);
        assert(consumers[consumers.len() - 1] == last);
        assert(last < n);
        assert(!rest.contains(last)) by {
            if rest.contains(last) {
                let k = choose|k: int| 0 <= k < rest.len() && rest[k] == last;
                assert(consumers[k] == consumers[consumers.len() - 1]);
            }
        }
        assert forall|c: usize| consumers.contains(c) <==> rest.contains(c) || c == last by {
            if consumers.contains(c) && c != last {
                let k = choose|k: int| 0 <= k < consumers.len() && consumers[k] == c;
                assert(rest[k] == c);
            }
            if rest.contains(c) {
                let k = choose|k: int| 0 <= k < rest.len() && rest[k] == c;
                assert(consumers[k] == c);
            }
        }
        assert(before.awaiting[last as int] == r.awaiting[last as int]);
        assert(before.spawned[last as int] == r.spawned[last as int]);
        assert(!sofar.contains(last));
        let begins = after.awaiting[last as int] == 0 && !before.spawned[last as int];
        assert forall|c: usize| c < n implies (#[trigger] after.awaiting[c as int])
            == if consumers.contains(c) {
            one_less(r.awaiting[c as int])
        } else {
            r.awaiting[c as int]
        } by {
            if c != last {
                assert(after.awaiting[c as int] == before.awaiting[c as int]);
            }
        }
        assert forall|c: usize| c < n implies (#[trigger] after.spawned[c as int]) == (
        r.spawned[c as int] || (consumers.contains(c) && after.awaiting[c as int] == 0)) by {
            if c != last {
                assert(after.awaiting[c as int] == before.awaiting[c as int]);
                assert(after.spawned[c as int] == before.spawned[c as int]);
            }
        }
        assert forall|c: usize| #[trigger] out.contains(c) <==> c < n && consumers.contains(c)
            && !r.spawned[c as int] && after.spawned[c as int] by {
            if begins {
                assert(out == sofar.push(last));
                assert(out[sofar.len() as int] == last);
            }
            if c != last && c < n {
                assert(after.spawned[c as int] == before.spawned[c as int]);
            }
            if out.contains(c) && c != last {
                let k = choose|k: int| 0 <= k < out.len() && out[k] == c;
                assert(sofar[k] == c);
                assert(sofar.contains(c));
            }
            if sofar.contains(c) {
                let k = choose|k: int| 0 <= k < sofar.len() && sofar[k] == c;
                assert(out[k] == c);
            }
        }
        assert(out.no_duplicates()) by {
            if begins {
                assert forall|i: int, j: int|
                    0 <= i < out.len() && 0 <= j < out.len() && i != j implies out[i] != out[j] by {
                    if i < sofar.len() && j == sofar.len() {
                        assert(sofar.contains(sofar[i]));
                    }
                    if j < sofar.len() && i == sofar.len() {
                        assert(sofar.contains(sofar[j]));
                    }
                }
            }
        }
    }
}

proof fn lemma_pending_less(deps: Seq<usize>, steps: Seq<StepView>, done: Set<usize>, idx: usize)
    requires
        deps.no_duplicates(),
        !steps[idx as int].long_running,
        !done.contains(idx),
    ensures
        pending(deps, steps, done) == pending(deps, steps, done.insert(idx)) + if deps.contains(
            idx,
        ) {
            1nat
        } else {
            0nat
        },
    decreases deps.len(),
{
    reveal(Seq::filter);
    if deps.len() > 0 {
        let rest = deps.drop_last();
        let last = deps.last();
        assert(rest.no_duplicates());
        lemma_pending_less(rest, steps, done, idx);
        assert(deps[deps.len() - 1] == last);
        if rest.contains(idx) {
            let k = choose|k: int| 0 <= k < rest.len() && rest[k] == idx;
            assert(deps[k] == idx);
            assert(last != idx);
        }
        if deps.contains(idx) && last != idx {
            let k = choose|k: int| 0 <= k < deps.len() && deps[k] == idx;
            assert(rest[k] == idx);
        }
    }
}

proof fn lemma_none_pending(deps: Seq<usize>, steps: Seq<StepView>, done: Set<usize>)
    ensures
        pending(deps, steps, done) == 0 <==> forall|i: int|
            0 <= i < deps.len() ==> steps[(#[trigger] deps[i]) as int].long_running
                || done.contains(deps[i]),
    decreases deps.len(),
{
    reveal(Seq::filter);
    if deps.len() > 0 {
        let rest = deps.drop_last();
        lemma_none_pending(rest, steps, done);
        assert(deps[deps.len() - 1] == deps.last());
        assert forall|i: int| 0 <= i < rest.len() implies rest[i] == #[trigger] deps[i] by {}
        if pending(deps, steps, done) == 0 {
            assert forall|i: int| 0 <= i < deps.len() implies steps[(#[trigger] deps[i]) as int].long_running
                || done.contains(deps[i]) by {
                if i < rest.len() {
                    assert(rest[i] == deps[i]);
                }
            }
        }
    }
}

/// A step that ends lets exactly those begin that waited for nothing else. The schedule goes on
/// counting right; and a step begins once, after every step whose value it needs is done.
pub proof fn law_steps_begin_when_their_values_are_there(
    r: DataflowView,
    plan: PlanView,
    steps: Seq<StepView>,
    done: Set<usize>,
    idx: usize,
)
    requires
        linked(plan, steps.len()),
        steps.len() <= usize::MAX,
        in_step(r, plan, steps, done),
        r.first_error is None,
        idx < steps.len(),
        !steps[idx as int].long_running,
        !done.contains(idx),
    ensures
        ({
            let (after, out) = released_by(r, plan, steps, idx as int, false);
            &&& in_step(after, plan, steps, done.insert(idx))
            &&& after.first_error is None
            &&& out.no_duplicates()
            &&& forall|c: usize| #[trigger]
                out.contains(c) <==> c < steps.len() && !r.spawned[c as int]
                    && after.spawned[c as int]
            &&& forall|c: usize, d: usize| #[trigger]
                out.contains(c) && #[trigger] plan.deps[c as int].contains(d)
                    ==> steps[d as int].long_running || done.insert(idx).contains(d)
        }),
{
    let n = steps.len();
    let consumers = plan.consumers[idx as int];
    let (after, out) = released_by(r, plan, steps, idx as int, false);
    assert(below(consumers, n));
    lemma_released(r, consumers, n);
    assert forall|i: int| 0 <= i < n implies (#[trigger] after.awaiting[i]) == pending(
        plan.deps[i],
        steps,
        done.insert(idx),
    ) by {
        let c = i as usize;
        assert(plan.deps[c as int].no_duplicates());
        lemma_pending_less(plan.deps[i], steps, done, idx);
        assert(plan.deps[c as int].contains(idx) <==> plan.consumers[idx as int].contains(c));
        assert(after.awaiting[c as int] == if consumers.contains(c) {
            one_less(r.awaiting[c as int])
        } else {
            r.awaiting[c as int]
        });
        assert(r.awaiting[i] == pending(plan.deps[i], steps, done));
    }
    assert forall|i: int| 0 <= i < n implies (#[trigger] after.spawned[i]) == (pending(
        plan.deps[i],
        steps,
        done.insert(idx),
    ) == 0) by {
        let c = i as usize;
        assert(plan.deps[c as int].no_duplicates());
        lemma_pending_less(plan.deps[i], steps, done, idx);
        assert(plan.deps[c as int].contains(idx) <==> plan.consumers[idx as int].contains(c));
        assert(after.awaiting[i] == pending(plan.deps[i], steps, done.insert(idx)));
        assert(after.spawned[c as int] == (r.spawned[c as int] || (consumers.contains(c)
            && after.awaiting[c as int] == 0)));
        assert(r.spawned[i] == (pending(plan.deps[i], steps, done) == 0));
    }
    assert forall|c: usize, d: usize| #[trigger]
        out.contains(c) && #[trigger] plan.deps[c as int].contains(d) implies steps[d as int].long_running
        || done.insert(idx).contains(d) by {
        assert(after.spawned[c as int]);
        lemma_none_pending(plan.deps[c as int], steps, done.insert(idx));
        let k = choose|k: int| 0 <= k < plan.deps[c as int].len() && plan.deps[c as int][k] == d;
        assert(plan.deps[c as int][k] == d);
    }
}

/// A pipeline in which every step that gives a value and began is done, and which no error stopped,
/// has left no step out, where the plan has no circle: where `rank` orders the steps behind those
/// they depend on.
pub proof fn law_no_step_is_left_out(
    r: DataflowView,
    plan: PlanView,
    steps: Seq<StepView>,
    done: Set<usize>,
    rank: spec_fn(usize) -> nat,
    cancelled: bool,
)
    requires
        plan.fits(steps.len()),
        steps.len() <= usize::MAX,
        in_step(r, plan, steps, done),
        r.first_error is None,
        forall|i: usize|
            i < steps.len() && #[trigger] r.spawned[i as int] && !steps[i as int].long_running
                ==> done.contains(i),
        forall|i: usize, d: usize|
            i < steps.len() && #[trigger] plan.deps[i as int].contains(d) ==> rank(d) < rank(i),
    ensures
        forall|i: int| 0 <= i < steps.len() ==> #[trigger] r.spawned[i],
        pipeline_error(r, steps, cancelled) is None,
{
    assert forall|i: int| 0 <= i < steps.len() implies #[trigger] r.spawned[i] by {
        lemma_begun(r, plan, steps, done, rank, i as usize);
    }
    lemma_all_begun(r, steps, steps.len());
}

proof fn lemma_all_begun(r: DataflowView, steps: Seq<StepView>, n: nat)
    requires
        n <= steps.len(),
        forall|i: int| 0 <= i < steps.len() ==> #[trigger] r.spawned[i],
    ensures
        not_begun(r, steps, n).len() == 0,
    decreases n,
{
    if n > 0 {
        lemma_all_begun(r, steps, (n - 1) as nat);
        assert(r.spawned[n - 1]);
    }
}

proof fn lemma_begun(
    r: DataflowView,
    plan: PlanView,
    steps: Seq<StepView>,
    done: Set<usize>,
    rank: spec_fn(usize) -> nat,
    i: usize,
)
    requires
        plan.fits(steps.len()),
        in_step(r, plan, steps, done),
        forall|i: usize|
            i < steps.len() && #[trigger] r.spawned[i as int] && !steps[i as int].long_running
                ==> done.contains(i),
        forall|i: usize, d: usize|
            i < steps.len() && #[trigger] plan.deps[i as int].contains(d) ==> rank(d) < rank(i),
        i < steps.len(),
    ensures
        r.spawned[i as int],
    decreases rank(i),
{
    let deps = plan.deps[i as int];
    assert(below(deps, steps.len()));
    assert forall|k: int| 0 <= k < deps.len() implies steps[(#[trigger] deps[k]) as int].long_running
        || done.contains(deps[k]) by {
        assert(deps.contains(deps[k]));
        lemma_begun(r, plan, steps, done, rank, deps[k]);
    }
    lemma_none_pending(deps, steps, done);
}

/// Once a pipeline failed or was cancelled nothing begins any more.
pub proof fn law_nothing_begins_after_a_failure(
    r: DataflowView,
    plan: PlanView,
    steps: Seq<StepView>,
    idx: int,
    cancelled: bool,
)
    requires
        r.first_error is Some || cancelled,
    ensures
        released_by(r, plan, steps, idx, cancelled) == (r, Seq::<usize>::empty()),
{
}

/// A pipeline whose results run into the limit on all of them together does not end well: where the
/// mark of the limit is on its state, it has an error.
pub open spec fn overrun_is_told(r: DataflowView, c: StateView) -> bool {
    over_budget(c) is Some ==> r.first_error is Some
}

/// A step that ends keeps it so that an overrun of the limit on step results is told: whatever the
/// step and however it ended, a mark of the limit comes with an error, and a pipeline with that error
/// ends with it.
pub proof fn law_an_overrun_fails_the_pipeline(
    r: DataflowView,
    c: StateView,
    t: StateView,
    id: Seq<char>,
    ran: Result<bool, ErrorView>,
    winding_down: bool,
    baseline: Seq<(Seq<char>, JsonView)>,
    steps: Seq<StepView>,
    cancelled: bool,
)
    requires
        overrun_is_told(r, c),
    ensures
        ({
            let after = DataflowView {
                first_error: first_some(
                    r.first_error,
                    settled_error(c, t, id, ran, winding_down),
                ),
                ..r
            };
            let merged = merged_task(c, t, id, baseline);
            &&& overrun_is_told(after, merged)
            &&& over_budget(merged) is Some ==> pipeline_error(after, steps, cancelled) is Some
        }),
{
}

} // verus!
