//! What holds of pipelines, whose steps run as soon as their values are there, and of the waves of the
//! actions that are none.

use vstd::prelude::*;

use crate::dataflow::provision::{next_need, piped, split, ProvisionView};
use crate::dataflow::{
    not_begun, pipeline_ended, released, released_by, schedule_begun, settled, value_count, DataflowView,
    EventView,
};
use crate::error::ErrorView;
use crate::exec_state::{stored, StateView};
use crate::fanout::with_overrides;
use crate::index_map::lemma_put;
use crate::json::{lookup, JsonView, NumberView};
use crate::laws::control::has_room;
use crate::manifest::{PlanView, StepView};
use crate::outcomes::{failure, over_budget};
use crate::waves::{flat, lemma_flat_prefix, moved, runs_at_once, MoveView};

verus! {

/// The stream of a long-running step is made of two ends: the step writes into the one, and the number
/// of the other is its result, whatever the number of its consumers. No other result changes.
pub proof fn law_a_producer_has_the_readable_end_for_its_result(
    p: ProvisionView,
    s: StateView,
    plan: PlanView,
    steps: Seq<StepView>,
    writable: u32,
    readable: u32,
    other: Seq<char>,
)
    requires
        other != steps[p.pos as int].id,
    ensures
        ({
            let (branches, next, after) = piped(p, s, plan, steps, writable, readable);
            let id = steps[p.pos as int].id;
            &&& lookup(after.step_results, id) == Some(
                JsonView::Number(NumberView::PosInt(readable as u64)),
            )
            &&& lookup(after.step_results, other) == lookup(s.step_results, other)
            &&& next.outputs.contains_key(id)
            &&& next.outputs[id] == writable
            &&& p.outputs.contains_key(other) ==> next.outputs.contains_key(other)
                && next.outputs[other] == p.outputs[other]
            &&& next.fanout == p.fanout
            &&& after.step_results_bytes == s.step_results_bytes
            &&& after.first_step_id == if s.first_step_id is Some {
                s.first_step_id
            } else {
                Some(id)
            }
            &&& after.variables == s.variables
            &&& after.steps == s.steps
        }),
{
    let v = JsonView::Number(NumberView::PosInt(readable as u64));
    lemma_put(s.step_results, steps[p.pos as int].id, v, other);
}

/// A stream that two steps or more read is split into a branch for each of them before the next step is
/// looked at; one that a single step or none reads is not.
pub proof fn law_a_stream_is_split_for_several_consumers(
    p: ProvisionView,
    s: StateView,
    plan: PlanView,
    steps: Seq<StepView>,
    writable: u32,
    readable: u32,
    made: Seq<u32>,
)
    requires
        p.pos < usize::MAX,
    ensures
        ({
            let (branches, next, after) = piped(p, s, plan, steps, writable, readable);
            let n = plan.consumers[p.pos as int].len();
            &&& n >= 2 ==> branches == Some(n) && next.pos == p.pos
            &&& n < 2 ==> branches is None && next.pos == p.pos + 1
            &&& split(next, made).pos == next.pos + 1
            &&& split(next, made).outputs == next.outputs
            &&& split(next, made).fanout.contains_key(next.pos as usize)
            &&& split(next, made).fanout[next.pos as usize] == made
            &&& forall|k: usize|
                k != next.pos && next.fanout.contains_key(k) ==> #[trigger] split(
                    next,
                    made,
                ).fanout.contains_key(k) && split(next, made).fanout[k] == next.fanout[k]
        }),
{
}

/// The next step that needs a stream is the first, from the one at hand on, that is long-running and
/// whose output was not made elsewhere; one whose output was is refused where a step reads it, and
/// writes into it else. When there is none left the state has the outputs.
pub proof fn law_streams_are_made_for_producers(
    p: ProvisionView,
    s: StateView,
    plan: PlanView,
    steps: Seq<StepView>,
    given: Map<Seq<char>, u32>,
    k: int,
)
    requires
        p.pos <= k < steps.len(),
    ensures
        ({
            let (found, next, after) = next_need(p, s, plan, steps, given);
            &&& match found {
                Ok(Some(i)) => {
                    &&& p.pos <= i < steps.len()
                    &&& next.pos == i
                    &&& steps[i].long_running
                    &&& !given.contains_key(steps[i].id)
                    &&& after.dataflow_outputs == s.dataflow_outputs
                    &&& k < i && steps[k].long_running ==> given.contains_key(steps[k].id)
                        && plan.consumers[k].len() == 0
                },
                Ok(None) => {
                    &&& after.dataflow_outputs == next.outputs
                    &&& steps[k].long_running ==> given.contains_key(steps[k].id)
                        && plan.consumers[k].len() == 0
                },
                Err(e) => {
                    &&& e is Validation
                    &&& p.pos <= next.pos < steps.len()
                    &&& steps[next.pos as int].long_running
                    &&& given.contains_key(steps[next.pos as int].id)
                    &&& plan.consumers[next.pos as int].len() > 0
                },
            }
            &&& after.step_results == s.step_results
            &&& next.fanout == p.fanout
        }),
    decreases steps.len() - p.pos,
{
    let step = steps[p.pos as int];
    let next = ProvisionView { pos: p.pos + 1, ..p };
    let goes_on = !step.long_running || (given.contains_key(step.id)
        && plan.consumers[p.pos as int].len() == 0);
    if goes_on {
        let p2 = if step.long_running {
            ProvisionView { outputs: p.outputs.insert(step.id, given[step.id]), ..next }
        } else {
            next
        };
        let s2 = if step.long_running {
            StateView {
                first_step_id: if s.first_step_id is Some {
                    s.first_step_id
                } else {
                    Some(step.id)
                },
                ..s
            }
        } else {
            s
        };
        assert(next_need(p, s, plan, steps, given) == next_need(p2, s2, plan, steps, given));
        if k > p.pos {
            law_streams_are_made_for_producers(p2, s2, plan, steps, given, k);
        } else if p2.pos < steps.len() {
            law_streams_are_made_for_producers(p2, s2, plan, steps, given, p2.pos as int);
        }
    }
}

/// An output that was made elsewhere is the one that its step writes into.
pub proof fn law_a_given_output_is_written_into(
    p: ProvisionView,
    s: StateView,
    plan: PlanView,
    steps: Seq<StepView>,
    given: Map<Seq<char>, u32>,
    id: Seq<char>,
)
    ensures
        ({
            let (found, next, after) = next_need(p, s, plan, steps, given);
            &&& p.outputs.contains_key(id) && !given.contains_key(id)
                ==> next.outputs.contains_key(id) && next.outputs[id] == p.outputs[id]
            &&& next.outputs.contains_key(id) && !p.outputs.contains_key(id)
                ==> given.contains_key(id) && next.outputs[id] == given[id]
            &&& p.outputs.contains_key(id) && given.contains_key(id) && p.outputs[id] == given[id]
                ==> next.outputs.contains_key(id) && next.outputs[id] == given[id]
        }),
    decreases steps.len() - p.pos,
{
    if p.pos < steps.len() {
        let step = steps[p.pos as int];
        let next = ProvisionView { pos: p.pos + 1, ..p };
        if !step.long_running {
            law_a_given_output_is_written_into(next, s, plan, steps, given, id);
        } else if given.contains_key(step.id) && plan.consumers[p.pos as int].len() == 0 {
            let s2 = StateView {
                first_step_id: if s.first_step_id is Some {
                    s.first_step_id
                } else {
                    Some(step.id)
                },
                ..s
            };
            let p2 = ProvisionView {
                outputs: p.outputs.insert(step.id, given[step.id]),
                ..next
            };
            assert(next_need(p, s, plan, steps, given) == next_need(p2, s2, plan, steps, given));
            law_a_given_output_is_written_into(p2, s2, plan, steps, given, id);
        }
    }
}

proof fn lemma_values_among(deps: Seq<usize>, steps: Seq<StepView>, k: int)
    requires
        0 <= k < deps.len(),
        !steps[deps[k] as int].long_running,
    ensures
        value_count(deps, steps) > 0,
    decreases deps.len(),
{
    reveal(Seq::filter);
    if k < deps.len() - 1 {
        assert(deps.drop_last()[k] == deps[k]);
        lemma_values_among(deps.drop_last(), steps, k);
    }
}

proof fn lemma_no_values(deps: Seq<usize>, steps: Seq<StepView>)
    requires
        forall|k: int| 0 <= k < deps.len() ==> steps[(#[trigger] deps[k]) as int].long_running,
    ensures
        value_count(deps, steps) == 0,
    decreases deps.len(),
{
    reveal(Seq::filter);
    if deps.len() > 0 {
        let rest = deps.drop_last();
        assert forall|k: int| 0 <= k < rest.len() implies steps[(
        #[trigger] rest[k]) as int].long_running by {
            assert(rest[k] == deps[k]);
        }
        lemma_no_values(rest, steps);
        assert(steps[deps[deps.len() - 1] as int].long_running);
    }
}

/// What a pipeline begins with: every step that depends on long-running steps alone, or on none, and
/// no step that depends on another one.
pub proof fn law_a_pipeline_begins_with_what_needs_no_value(
    r: DataflowView,
    plan: PlanView,
    steps: Seq<StepView>,
    i: int,
    k: int,
)
    requires
        schedule_begun(r, plan, steps),
        0 <= i < steps.len(),
        0 <= k < plan.deps[i].len(),
    ensures
        !steps[plan.deps[i][k] as int].long_running ==> !r.spawned[i],
        (forall|d: int|
            0 <= d < plan.deps[i].len() ==> steps[(#[trigger] plan.deps[i][d]) as int].long_running)
            ==> r.spawned[i],
        r.first_error is None,
{
    if !steps[plan.deps[i][k] as int].long_running {
        lemma_values_among(plan.deps[i], steps, k);
    }
    if forall|d: int|
        0 <= d < plan.deps[i].len() ==> steps[(#[trigger] plan.deps[i][d]) as int].long_running {
        lemma_no_values(plan.deps[i], steps);
    }
}

/// A long-running step that ends releases nothing: no step waits for it.
pub proof fn law_a_long_running_step_releases_nothing(
    r: DataflowView,
    plan: PlanView,
    steps: Seq<StepView>,
    idx: int,
    cancelled: bool,
)
    requires
        steps[idx].long_running,
    ensures
        released_by(r, plan, steps, idx, cancelled).0 == r,
        released_by(r, plan, steps, idx, cancelled).1.len() == 0,
{
}

/// The merge of a step's result stays in the limit, and the step itself ran into no limit on results.
pub open spec fn fits_in(c: StateView, t: StateView, id: Seq<char>) -> bool {
    &&& over_budget(t) is None
    &&& lookup(t.step_results, id) is Some ==> has_room(c, lookup(t.step_results, id)->0)
}

/// A step that succeeds, and whose result fits, is told as completed, and cancels nothing.
pub proof fn law_a_step_that_succeeds_is_completed(
    r: DataflowView,
    c: StateView,
    t: StateView,
    id: Seq<char>,
    cancelled: bool,
    listened: bool,
)
    requires
        fits_in(c, t, id),
    ensures
        ({
            let after = settled(r, c, t, id, Ok(true), cancelled, listened);
            &&& after.event == (EventView::StepCompleted { step_id: id, ok: true })
            &&& !after.fires
            &&& after.run == r
        }),
{
}

/// A step that fails, or ends with an error, is told as failed with the words of it; the first such
/// error is that of the pipeline and cancels it, a later one is only told. What has begun, and what
/// waits, does not change.
pub proof fn law_the_first_failure_is_that_of_the_pipeline(
    r: DataflowView,
    c: StateView,
    t: StateView,
    id: Seq<char>,
    ran: Result<bool, ErrorView>,
    cancelled: bool,
    listened: bool,
)
    requires
        ran != Ok::<bool, ErrorView>(true),
        !cancelled || !listened || (ran is Err && !(ran->Err_0 is Cancelled)) || (ran is Ok
            && !t.cancelled),
    ensures
        ({
            let after = settled(r, c, t, id, ran, cancelled, listened);
            let e = match ran {
                Err(e) => e,
                Ok(_) => failure(t, id),
            };
            &&& after.event == (EventView::StepFailed { step_id: id, error: e.text() })
            &&& after.fires <==> r.first_error is None
            &&& r.first_error is None ==> after.run.first_error == Some(e)
            &&& r.first_error is Some ==> after.run.first_error == r.first_error
            &&& after.run.awaiting == r.awaiting
            &&& after.run.spawned == r.spawned
        }),
{
}

/// A step that stops on the cancellation of a pipeline that somebody listens to winds down and does not
/// fail; it is told as completed, but not as well.
pub proof fn law_a_cancelled_pipeline_winds_down(
    r: DataflowView,
    c: StateView,
    t: StateView,
    id: Seq<char>,
    ran: Result<bool, ErrorView>,
)
    requires
        fits_in(c, t, id),
        (ran is Err && ran->Err_0 is Cancelled) || (ran == Ok::<bool, ErrorView>(false)
            && t.cancelled),
    ensures
        ({
            let after = settled(r, c, t, id, ran, true, true);
            &&& after.event == (EventView::StepCompleted { step_id: id, ok: false })
            &&& !after.fires
            &&& after.run == r
        }),
        settled(r, c, t, id, ran, true, false).event is StepFailed,
        settled(r, c, t, id, ran, false, true).event is StepFailed,
{
}

/// A step whose result does not fit with the others is told as failed, though it succeeded.
pub proof fn law_a_result_that_does_not_fit_fails_the_pipeline(
    r: DataflowView,
    c: StateView,
    t: StateView,
    id: Seq<char>,
    cancelled: bool,
    listened: bool,
)
    requires
        lookup(t.step_results, id) is Some,
        !has_room(c, lookup(t.step_results, id)->0),
        c.limits.max_step_results_bytes < usize::MAX,
        r.first_error is None,
    ensures
        ({
            let after = settled(r, c, t, id, Ok(true), cancelled, listened);
            &&& after.event is StepFailed
            &&& after.fires
            &&& after.run.first_error is Some
            &&& after.run.first_error->0 is StepResultsLimitExceeded
        }),
{
    assert(stored(c, id, lookup(t.step_results, id)->0).resource_violation is Some);
}

/// A pipeline ends with its first error, and is told as completed well only where it has none and was
/// not cancelled. One that was cancelled, with no error, still ends with its results.
pub proof fn law_a_pipeline_ends_with_its_first_error(
    r: DataflowView,
    steps: Seq<StepView>,
    cancelled: bool,
)
    ensures
        ({
            let (end, event) = pipeline_ended(r, steps, cancelled);
            &&& event is PipelineCompleted
            &&& event->PipelineCompleted_ok <==> end is Ok && !cancelled
            &&& r.first_error is Some ==> end == Err::<(), ErrorView>(r.first_error->0)
            &&& r.first_error is None && cancelled ==> end is Ok
        }),
{
}

/// A step of a pipeline runs on the state as it is when it begins, with its own branches of the streams
/// that were split and nothing else changed.
pub proof fn law_a_step_begins_on_the_state_as_it_is(
    s: StateView,
    plan: PlanView,
    steps: Seq<StepView>,
    fanout: Map<usize, Seq<u32>>,
    idx: usize,
)
    ensures
        ({
            let fork = with_overrides(s, plan, steps, fanout, idx);
            &&& fork.step_results == s.step_results
            &&& fork.variables == s.variables
            &&& fork.step_metadata == s.step_metadata
            &&& fork.dataflow_outputs == s.dataflow_outputs
            &&& fork.steps == s.steps
            &&& fork.limits == s.limits
            &&& fork.step_results_bytes == s.step_results_bytes
            &&& fork.last_error == s.last_error
            &&& fork.return_signal == s.return_signal
        }),
{
}

/// The waves of an action run one after the other: what is started next are the steps, or the step, that
/// come next in them, so that what has been started is always the beginning of the waves laid end to
/// end; and the action is done where all of them have been.
pub proof fn law_steps_are_started_in_the_order_of_the_waves(
    waves: Seq<Seq<usize>>,
    steps: Seq<StepView>,
    parallel_waves: bool,
    before: Seq<usize>,
    m: MoveView,
    after: Seq<usize>,
)
    requires
        moved(waves, steps, parallel_waves, false, false, before, m, after),
        before.len() <= flat(waves).len(),
        before == flat(waves).take(before.len() as int),
    ensures
        m is Done <==> before == flat(waves),
        !(m is Stop),
        m is Step ==> after.len() == before.len() + 1 && after == flat(waves).take(
            after.len() as int,
        ) && m->Step_0 == after.last(),
        m is Wave ==> m->Wave_0 < waves.len() && after == before + waves[m->Wave_0 as int]
            && runs_at_once(waves[m->Wave_0 as int], steps, parallel_waves),
        m is Done ==> after == before,
{
    if m is Step {
        assert(after =~= flat(waves).take(after.len() as int));
    }
    if m is Wave {
        let w = m->Wave_0 as int;
        lemma_flat_prefix(waves, w);
        let part = flat(waves.take(w)) + waves[w];
        assert(part.len() <= flat(waves).len());
    }
}

/// A `return` ends an action before anything else is started, and a cancellation stops it at the step
/// that would have been next; an action all of whose steps have been started is done and not stopped.
pub proof fn law_a_return_and_a_cancellation_end_the_waves(
    waves: Seq<Seq<usize>>,
    steps: Seq<StepView>,
    parallel_waves: bool,
    fired: bool,
    returned: bool,
    before: Seq<usize>,
    m: MoveView,
    after: Seq<usize>,
)
    requires
        moved(waves, steps, parallel_waves, fired, returned, before, m, after),
        fired || returned,
    ensures
        after == before,
        returned ==> m is Done,
        !returned && before.len() < flat(waves).len() ==> m == MoveView::Stop(
            ErrorView::Cancelled { at_step: steps[flat(waves)[before.len() as int] as int].id },
        ),
        !returned && before == flat(waves) ==> m is Done,
{
}

/// A wave that can run at once does, when the waves before it are over.
pub proof fn law_a_wave_that_can_run_at_once_does(
    waves: Seq<Seq<usize>>,
    steps: Seq<StepView>,
    before: Seq<usize>,
    m: MoveView,
    after: Seq<usize>,
    w: int,
)
    requires
        moved(waves, steps, true, false, false, before, m, after),
        0 <= w < waves.len(),
        before == flat(waves.take(w)),
        runs_at_once(waves[w], steps, true),
    ensures
        !(m is Step),
{
}

/// A pipeline that neither failed nor was cancelled, and of which a step never began, ends with an error
/// that says so, not well.
pub proof fn law_a_step_that_never_began_is_told(r: DataflowView, steps: Seq<StepView>, i: int)
    requires
        0 <= i < steps.len(),
        !r.spawned[i],
        r.first_error is None,
    ensures
        pipeline_ended(r, steps, false).0 is Err,
        pipeline_ended(r, steps, false).0->Err_0 is Execution,
        pipeline_ended(r, steps, false).1 == (EventView::PipelineCompleted { ok: false }),
        not_begun(r, steps, steps.len()).contains(steps[i].id),
{
    lemma_not_begun(r, steps, steps.len(), i);
}

proof fn lemma_not_begun(r: DataflowView, steps: Seq<StepView>, n: nat, i: int)
    requires
        0 <= i < n <= steps.len(),
        !r.spawned[i],
    ensures
        not_begun(r, steps, n).contains(steps[i].id),
    decreases n,
{
    let before = not_begun(r, steps, (n - 1) as nat);
    let all = not_begun(r, steps, n);
    if i == n - 1 {
        assert(all[before.len() as int] == steps[i].id);
    } else {
        lemma_not_begun(r, steps, (n - 1) as nat, i);
        let k = choose|k: int| 0 <= k < before.len() && before[k] == steps[i].id;
        assert(all[k] == steps[i].id);
    }
}

/// A step that waited for one value more begins when that value is there, and is told among those that
/// begin; one that waits for more, or has begun, does not; and a step that is no consumer is left alone.
pub proof fn law_a_consumer_begins_with_its_last_value(
    r: DataflowView,
    plan: PlanView,
    steps: Seq<StepView>,
    idx: int,
    c: usize,
)
    requires
        !steps[idx].long_running,
        r.first_error is None,
        r.awaiting.len() == r.spawned.len(),
        plan.consumers[idx].no_duplicates(),
        forall|i: int|
            0 <= i < plan.consumers[idx].len() ==> (#[trigger] plan.consumers[idx][i])
                < r.awaiting.len(),
        c < r.awaiting.len(),
    ensures
        ({
            let (after, begun) = released_by(r, plan, steps, idx, false);
            let waits = plan.consumers[idx].contains(c);
            &&& begun.contains(c) <==> waits && r.awaiting[c as int] <= 1 && !r.spawned[c as int]
            &&& after.spawned[c as int] == (r.spawned[c as int] || begun.contains(c))
            &&& waits && r.awaiting[c as int] > 0 ==> after.awaiting[c as int] + 1
                == r.awaiting[c as int]
            &&& !waits ==> after.awaiting[c as int] == r.awaiting[c as int]
        }),
{
    lemma_released(r, plan.consumers[idx], c);
}

proof fn lemma_released(r: DataflowView, consumers: Seq<usize>, c: usize)
    requires
        r.awaiting.len() == r.spawned.len(),
        consumers.no_duplicates(),
        forall|i: int| 0 <= i < consumers.len() ==> (#[trigger] consumers[i]) < r.awaiting.len(),
        c < r.awaiting.len(),
    ensures
        ({
            let (after, begun) = released(r, consumers);
            let waits = consumers.contains(c);
            &&& after.awaiting.len() == r.awaiting.len()
            &&& after.spawned.len() == r.spawned.len()
            &&& begun.contains(c) <==> waits && r.awaiting[c as int] <= 1 && !r.spawned[c as int]
            &&& after.spawned[c as int] == (r.spawned[c as int] || begun.contains(c))
            &&& waits && r.awaiting[c as int] > 0 ==> after.awaiting[c as int] + 1
                == r.awaiting[c as int]
            &&& !waits ==> after.awaiting[c as int] == r.awaiting[c as int]
        }),
    decreases consumers.len(),
{
    if consumers.len() > 0 {
        let rest = consumers.drop_last();
        let last = consumers.last();
        assert forall|i: int| 0 <= i < rest.len() implies (#[trigger] rest[i]) < r.awaiting.len() by {
            assert(rest[i] == consumers[i]);
        }
        lemma_released(r, rest, c);
        let (before, out) = released(r, rest);
        let (after, begun) = released(r, consumers);
        assert(consumers[consumers.len() - 1] == last);
        if rest.contains(c) {
            let i = choose|i: int| 0 <= i < rest.len() && rest[i] == c;
            assert(consumers[i] == c);
            assert(c != last);
        }
        if consumers.contains(c) && c != last {
            let i = choose|i: int| 0 <= i < consumers.len() && consumers[i] == c;
            assert(rest[i] == c);
        }
        if out.contains(c) {
            let i = choose|i: int| 0 <= i < out.len() && out[i] == c;
            assert(out.push(last)[i] == c);
        }
        if begun == out.push(last) {
            assert(out.push(last)[out.len() as int] == last);
            if begun.contains(c) && c != last {
                let i = choose|i: int| 0 <= i < begun.len() && begun[i] == c;
                assert(out[i] == c);
            }
        }
    }
}

} // verus!
