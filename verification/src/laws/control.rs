//! What holds of the steps that carry steps: `try`, `parallel`, `for_each`, `repeat`, `ifs` and
//! `return`.

use vstd::prelude::*;

use crate::control::attempt::{try_begun, try_next, MarksView, TryPhase, TryView};
use crate::control::choice::{
    branch_begun, branch_next, branches_of, search, BranchesView, ChoiceView,
};
use crate::control::iteration::{
    loop_advanced, loop_begun, loop_closed, loop_collected, loop_next, loop_tested, LoopKind,
    LoopPhase, LoopView,
};
use crate::control::parallel::{
    branch_result, branches_under, first_branch_error, merged_branches, parallel_begun,
    parallel_joined, task_next, BranchTaskView, BranchTurnView, JoinedView,
};
use crate::control::routing::{return_template, returned, route, step_settled, RouteView};
use crate::control::{closed_to, opened, polled, spelt_steps, steps_under, BlockView, TurnView};
use crate::error::{ErrorView, KernelError};
use crate::exec_state::{weight, StateView};
use crate::index_map::lemma_put;
use crate::json::{lookup, JsonView};
use crate::manifest::{step_of, StepView};
use crate::manifest_checks::is_reserved_step_type;
use crate::outcomes::over_budget;
use crate::wasm_runtime::import_name;

verus! {

/// What a step that ran left for its result.
pub open spec fn result_at_hand(s: StateView, b: BlockView) -> Option<JsonView> {
    lookup(s.step_results, b.ids[b.pos as int])
}

/// A value, or null where there is none.
pub open spec fn or_null(v: Option<JsonView>) -> JsonView {
    match v {
        Some(x) => x,
        None => JsonView::Null,
    }
}

/// There is room for one more result in a state.
pub open spec fn has_room(s: StateView, v: JsonView) -> bool {
    s.step_results_bytes + weight(v) <= s.limits.max_step_results_bytes
}

/// The cleanup does not touch the result of a `try` step: while it runs the result stays what it was,
/// and where nothing failed before it the step succeeds with that result, null where there is none.
pub proof fn law_cleanup_keeps_the_result(t: TryView, s: StateView)
    requires
        t.phase == TryPhase::Cleanup,
    ensures
        match try_next(t, s, Ok(true)).0 {
            TurnView::Run(n) => n.last == t.last && n.phase == TryPhase::Cleanup,
            TurnView::Over(r) => !t.failed && t.error is None ==> {
                &&& r == Ok::<bool, ErrorView>(true)
                &&& has_room(s, or_null(t.last)) ==> lookup(
                    try_next(t, s, Ok(true)).1.step_results,
                    t.step_id,
                ) == Some(or_null(t.last))
            },
        },
{
    lemma_put(s.step_results, t.step_id, or_null(t.last), t.step_id);
}

/// A step of the body or of the handler that succeeds is the one whose result the `try` step has so
/// far, whatever it was before; and where it is the last and nothing follows, the `try` step succeeds
/// with it.
pub proof fn law_a_try_has_the_result_of_its_last_step(t: TryView, s: StateView)
    requires
        t.phase != TryPhase::Cleanup,
        s.return_signal is None,
        t.phase == TryPhase::Body ==> !t.failed,
        t.error is None,
    ensures
        match try_next(t, s, Ok(true)).0 {
            TurnView::Run(n) => n.last == result_at_hand(s, t.block) && !(t.phase != n.phase
                && n.failed),
            TurnView::Over(r) => {
                &&& r == Ok::<bool, ErrorView>(true)
                &&& t.cleanup.len() == 0
                &&& has_room(s, or_null(result_at_hand(s, t.block))) ==> lookup(
                    try_next(t, s, Ok(true)).1.step_results,
                    t.step_id,
                ) == Some(or_null(result_at_hand(s, t.block)))
            },
        },
{
    lemma_put(s.step_results, t.step_id, or_null(result_at_hand(s, t.block)), t.step_id);
}

/// A failure of the body that nothing handles, and one of the handler, fails the `try` step: it has no
/// result, and what marks the failure stays; a cleanup runs first where there is one.
pub proof fn law_an_unhandled_failure_fails_a_try(t: TryView, s: StateView)
    requires
        t.phase == TryPhase::Handler || (t.phase == TryPhase::Body && t.handler is None),
        !s.cancelled,
        s.return_signal is None,
        t.error is None,
        t.marks is None,
    ensures
        match try_next(t, s, Ok(false)).0 {
            TurnView::Run(n) => {
                &&& t.cleanup.len() > 0
                &&& n.failed
                &&& n.phase == TryPhase::Cleanup
                &&& n.marks is Some
                &&& n.marks->0.last_error == s.last_error
                &&& n.marks->0.plugin_error == s.plugin_error
                &&& n.marks->0.resource_violation == s.resource_violation
                &&& n.marks->0.callee_error == s.callee_error
            },
            TurnView::Over(r) => {
                let after = try_next(t, s, Ok(false)).1;
                &&& r == Ok::<bool, ErrorView>(false)
                &&& after.step_results == s.step_results
                &&& after.last_error == s.last_error
                &&& after.plugin_error == s.plugin_error
                &&& after.resource_violation == s.resource_violation
                &&& after.callee_error == s.callee_error
            },
        },
{
}

/// A handler runs on a state without a mark of the failure, and reads its message as the innermost
/// error; it begins without a result, with the first of its own steps, which stand behind the others.
pub proof fn law_a_handler_reads_the_failure(t: TryView, s: StateView, message: Seq<char>)
    requires
        t.phase == TryPhase::Body,
        t.handler is Some,
        t.handler->0.len() > 0,
        t.block.offset <= s.steps.len(),
        !s.cancelled,
        s.return_signal is None,
        s.last_error == Some(message),
    ensures
        ({
            let (turn, after) = try_next(t, s, Ok(false));
            &&& turn is Run
            &&& turn->Run_0.phase == TryPhase::Handler
            &&& turn->Run_0.last is None
            &&& turn->Run_0.failed == t.failed
            &&& turn->Run_0.block.pos == 0
            &&& turn->Run_0.block.offset == t.block.offset
            &&& turn->Run_0.block.ids.len() == t.handler->0.len()
            &&& forall|i: int|
                0 <= i < t.handler->0.len() ==> #[trigger] turn->Run_0.block.ids[i]
                    == t.handler->0[i].id
            &&& after.steps == s.steps.take(t.block.offset as int) + t.handler->0
            &&& after.error_stack == s.error_stack.push(message)
            &&& after.last_error is None
            &&& after.plugin_error is None
            &&& after.resource_violation is None
            &&& after.callee_error is None
            &&& after.step_results == s.step_results
        }),
{
}

/// When the handler is over the error that it read is gone, and those around it are as they were.
pub proof fn law_a_handled_error_is_gone(t: TryView, s: StateView, ran: Result<bool, ErrorView>)
    requires
        t.phase == TryPhase::Handler,
        s.error_stack.len() > 0,
    ensures
        match try_next(t, s, ran).0 {
            TurnView::Run(n) => n.phase == TryPhase::Handler || try_next(t, s, ran).1.error_stack
                == s.error_stack.drop_last(),
            TurnView::Over(_) => try_next(t, s, ran).1.error_stack == s.error_stack.drop_last(),
        },
{
}

/// A `return` in the body ends a `try` step at once: it succeeds, it has no result of its own, and
/// neither handler nor cleanup runs.
pub proof fn law_a_return_skips_the_rest_of_a_try(t: TryView, s: StateView)
    requires
        t.phase == TryPhase::Body,
        s.return_signal is Some,
    ensures
        try_next(t, s, Ok(true)).0 == TurnView::<TryView>::Over(Ok(true)),
        try_next(t, s, Ok(true)).1.step_results == s.step_results,
        try_next(t, s, Ok(true)).1.return_signal == s.return_signal,
{
}

/// A `try` step touches nothing but its own result, the marks of a failure, the errors that are being
/// handled and the steps that run.
pub proof fn law_a_try_touches_only_its_own(
    t: TryView,
    s: StateView,
    ran: Result<bool, ErrorView>,
    other: Seq<char>,
)
    requires
        other != t.step_id,
    ensures
        ({
            let after = try_next(t, s, ran).1;
            &&& lookup(after.step_results, other) == lookup(s.step_results, other)
            &&& after.step_metadata == s.step_metadata
            &&& after.variables == s.variables
            &&& after.return_signal == s.return_signal
            &&& after.foreach_stack == s.foreach_stack
            &&& after.limits == s.limits
            &&& after.cancelled == s.cancelled
        }),
{
    lemma_put(s.step_results, t.step_id, or_null(t.last), other);
    lemma_put(s.step_results, t.step_id, or_null(result_at_hand(s, t.block)), other);
    lemma_put(s.step_results, t.step_id, JsonView::Null, other);
}

/// A list of values spells one step for each that is one, in their order.
pub open spec fn spells(items: Seq<JsonView>, steps: Seq<StepView>) -> bool {
    &&& items.len() == steps.len()
    &&& forall|i: int|
        0 <= i < items.len() ==> step_of(#[trigger] items[i]) == Ok::<StepView, Seq<char>>(steps[i])
}

proof fn lemma_spelt(items: Seq<JsonView>, steps: Seq<StepView>)
    requires
        spells(items, steps),
    ensures
        spelt_steps(items) == steps,
    decreases items.len(),
{
    if items.len() > 0 {
        lemma_spelt(items.drop_last(), steps.drop_last());
        assert(items[items.len() - 1] == items.last());
        assert(steps.drop_last().push(steps.last()) =~= steps);
    } else {
        assert(steps =~= Seq::empty());
    }
}

/// A list of values with one more spells one step more where that one is a step, behind the others, and
/// the same steps where it is none.
pub proof fn law_what_is_no_step_is_passed_over(items: Seq<JsonView>, v: JsonView)
    ensures
        step_of(v) is Ok ==> spelt_steps(items.push(v)) == spelt_steps(items).push(
            step_of(v)->Ok_0,
        ),
        step_of(v) is Err ==> spelt_steps(items.push(v)) == spelt_steps(items),
        spelt_steps(Seq::empty()).len() == 0,
{
    assert(items.push(v).drop_last() =~= items);
}

/// A `try` step begins with the first step of its body, on the same state with the body's steps behind
/// the others; a handler is there where `catch` is, and the cleanup is what stands under `finally`.
pub proof fn law_a_try_begins_with_its_body(
    step: StepView,
    s: StateView,
    items: Seq<JsonView>,
    body: Seq<StepView>,
    last_items: Seq<JsonView>,
    cleanup: Seq<StepView>,
)
    requires
        step.params.get("try"@) == Some(JsonView::Array(items)),
        spells(items, body),
        body.len() > 0,
    ensures
        ({
            let (turn, after) = try_begun(step, s);
            &&& turn is Run
            &&& turn->Run_0.phase == TryPhase::Body
            &&& turn->Run_0.step_id == step.id
            &&& step.params.get("finally"@) == Some(JsonView::Array(last_items)) && spells(
                last_items,
                cleanup,
            ) ==> turn->Run_0.cleanup == cleanup
            &&& step.params.get("finally"@) is None ==> turn->Run_0.cleanup.len() == 0
            &&& turn->Run_0.handler is Some <==> step.params.get("catch"@) is Some
            &&& turn->Run_0.last is None
            &&& !turn->Run_0.failed
            &&& turn->Run_0.error is None
            &&& turn->Run_0.marks is None
            &&& turn->Run_0.block.pos == 0
            &&& turn->Run_0.block.offset == s.steps.len()
            &&& turn->Run_0.block.ids.len() == body.len()
            &&& forall|i: int|
                0 <= i < body.len() ==> #[trigger] turn->Run_0.block.ids[i] == body[i].id
            &&& after == (StateView { steps: s.steps + body, ..s })
        }),
{
    lemma_spelt(items, body);
    if spells(last_items, cleanup) {
        lemma_spelt(last_items, cleanup);
    }
}

/// A `try` step without a body has null for its result, where nothing returned; its cleanup, where it
/// has one, runs first.
pub proof fn law_a_try_without_a_body_has_null(
    step: StepView,
    s: StateView,
    last_items: Seq<JsonView>,
    cleanup: Seq<StepView>,
)
    requires
        step.params.get("try"@) is None,
        s.return_signal is None,
    ensures
        ({
            let (turn, after) = try_begun(step, s);
            &&& step.params.get("finally"@) is None ==> turn == TurnView::<TryView>::Over(Ok(true))
                && (has_room(s, JsonView::Null) ==> lookup(after.step_results, step.id) == Some(
                JsonView::Null,
            ))
            &&& step.params.get("finally"@) == Some(JsonView::Array(last_items)) && spells(
                last_items,
                cleanup,
            ) && cleanup.len() > 0 ==> {
                &&& turn is Run
                &&& turn->Run_0.phase == TryPhase::Cleanup
                &&& turn->Run_0.last is None
                &&& !turn->Run_0.failed
                &&& turn->Run_0.block.ids.len() == cleanup.len()
                &&& turn->Run_0.block.pos == 0
                &&& after.steps == s.steps + cleanup
            }
        }),
{
    lemma_put(s.step_results, step.id, JsonView::Null, step.id);
    if spells(last_items, cleanup) {
        lemma_spelt(last_items, cleanup);
    }
}

/// A cleanup runs its own steps, from the first, behind those that stood before the `try` step.
pub proof fn law_a_cleanup_runs_its_own_steps(
    t: TryView,
    s: StateView,
    ran: Result<bool, ErrorView>,
)
    requires
        t.phase != TryPhase::Cleanup,
        t.block.offset <= s.steps.len(),
        try_next(t, s, ran).0 is Run,
        try_next(t, s, ran).0->Run_0.phase == TryPhase::Cleanup,
    ensures
        ({
            let (turn, after) = try_next(t, s, ran);
            &&& turn->Run_0.block.pos == 0
            &&& turn->Run_0.block.offset == t.block.offset
            &&& turn->Run_0.block.ids.len() == t.cleanup.len()
            &&& forall|i: int|
                0 <= i < t.cleanup.len() ==> #[trigger] turn->Run_0.block.ids[i] == t.cleanup[i].id
            &&& after.steps == s.steps.take(t.block.offset as int) + t.cleanup
            &&& turn->Run_0.step_id == t.step_id
            &&& turn->Run_0.cleanup == t.cleanup
        }),
{
}

/// The step at hand of a block is the one at its place behind those that stood before the block; a
/// cancellation that came first is told in its place.
pub proof fn law_a_block_runs_the_step_at_hand(
    r: Result<usize, KernelError>,
    b: BlockView,
    fired: bool,
)
    requires
        polled(r, b, fired),
    ensures
        r is Ok <==> !fired,
        r is Ok ==> r->Ok_0 == b.offset + b.pos,
        r is Err ==> r->Err_0@ == (ErrorView::Cancelled { at_step: b.ids[b.pos as int] }),
{
}

/// A `return` gives what stands under its `value`, and null where nothing does.
pub proof fn law_a_return_without_a_value_gives_null(step: StepView)
    ensures
        step.params.get("value"@) is Some ==> return_template(step) == step.params.get(
            "value"@,
        )->0,
        step.params.get("value"@) is None ==> return_template(step) == JsonView::Null,
{
}

/// What a handler is made of: the steps under `catch`.
pub proof fn law_a_handler_is_what_catch_spells(
    step: StepView,
    s: StateView,
    items: Seq<JsonView>,
    handler: Seq<StepView>,
)
    requires
        step.params.get("catch"@) == Some(JsonView::Array(items)),
        spells(items, handler),
        try_begun(step, s).0 is Run,
    ensures
        try_begun(step, s).0->Run_0.handler == Some(handler),
{
    lemma_spelt(items, handler);
}

/// A branch has the result of the last of its steps that succeeded, whatever it had before; one that
/// fails or does not run leaves it.
pub proof fn law_a_branch_has_the_result_of_its_last_step(
    t: BranchTaskView,
    s: StateView,
    ran: Result<bool, ErrorView>,
)
    ensures
        ({
            let last = match task_next(t, s, ran) {
                BranchTurnView::Run(n) => n.last,
                BranchTurnView::Over(e) => e.last,
            };
            if ran == Ok::<bool, ErrorView>(true) {
                last == result_at_hand(s, t.block)
            } else {
                last == t.last
            }
        }),
{
}

/// A branch runs its steps one after the other: it goes on where the step at hand succeeded, nothing
/// returned and another one follows, and ends with what came of the step otherwise. A cancelled step
/// is an error of the branch.
pub proof fn law_a_branch_runs_to_its_end(
    t: BranchTaskView,
    s: StateView,
    ran: Result<bool, ErrorView>,
)
    ensures
        match task_next(t, s, ran) {
            BranchTurnView::Run(n) => {
                &&& ran == Ok::<bool, ErrorView>(true)
                &&& s.return_signal is None
                &&& t.block.pos + 1 < t.block.ids.len()
                &&& n.block == (BlockView { pos: t.block.pos + 1, ..t.block })
            },
            BranchTurnView::Over(e) => match ran {
                Err(why) => e.end == Err::<bool, ErrorView>(why),
                Ok(true) => e.end == Ok::<bool, ErrorView>(true) && (s.return_signal is Some
                    || t.block.pos + 1 >= t.block.ids.len()),
                Ok(false) => if s.cancelled {
                    e.end is Err && e.end->Err_0 is Cancelled
                } else {
                    e.end == Ok::<bool, ErrorView>(false)
                },
            },
        },
{
}

/// A `parallel` step forks once for each branch, in their order, on the state as it is: a branch has
/// that state with its own steps behind the others, and begins with the first of them. A branch without
/// steps is not forked. The state itself stays as it is.
pub proof fn law_every_branch_is_forked(step: StepView, s: StateView, i: int)
    requires
        0 <= i < branches_under(step.params).len() <= s.limits.max_parallel_branches,
    ensures
        ({
            let (r, after) = parallel_begun(s, step);
            let steps = branches_under(step.params)[i];
            &&& r is Ok
            &&& r->Ok_0.len() == branches_under(step.params).len()
            &&& after == s
            &&& steps.len() == 0 ==> r->Ok_0[i] is None
            &&& steps.len() > 0 ==> {
                &&& r->Ok_0[i] is Some
                &&& r->Ok_0[i]->0.state == (StateView { steps: s.steps + steps, ..s })
                &&& r->Ok_0[i]->0.task.last is None
                &&& r->Ok_0[i]->0.task.block.pos == 0
                &&& r->Ok_0[i]->0.task.block.offset == s.steps.len()
                &&& r->Ok_0[i]->0.task.block.ids.len() == steps.len()
                &&& forall|k: int|
                    0 <= k < steps.len() ==> #[trigger] r->Ok_0[i]->0.task.block.ids[k]
                        == steps[k].id
            }
        }),
{
}

/// The branches of a `parallel` step are those that its `branches` spell, in their order.
pub proof fn law_branches_are_what_is_spelt(
    params: JsonView,
    items: Seq<JsonView>,
    i: int,
    branch: Seq<JsonView>,
    steps: Seq<StepView>,
)
    requires
        params.get("branches"@) == Some(JsonView::Array(items)),
        0 <= i < items.len(),
        items[i] == JsonView::Array(branch),
        spells(branch, steps),
    ensures
        branches_under(params).len() == items.len(),
        branches_under(params)[i] == steps,
{
    lemma_spelt(branch, steps);
}

/// More branches than the limit allows are refused and nothing is changed; up to the limit they are
/// not.
pub proof fn law_the_width_of_a_parallel_step_is_bounded(step: StepView, s: StateView)
    ensures
        parallel_begun(s, step).0 is Err <==> branches_under(step.params).len()
            > s.limits.max_parallel_branches && branches_under(step.params).len() > 0,
        parallel_begun(s, step).0 is Err ==> parallel_begun(s, step).1 == s
            && parallel_begun(s, step).0->Err_0 is Validation,
{
}

/// A `parallel` step whose branches had no error and that stays in its limit has for its result the
/// array of what its branches had for theirs, in their order; null stands for a branch without one. It
/// succeeds where no branch failed.
pub proof fn law_a_parallel_step_has_the_results_of_its_branches(
    s: StateView,
    step_id: Seq<char>,
    branches: Seq<Option<JoinedView>>,
    results: Seq<JsonView>,
)
    requires
        forall|i: int|
            0 <= i < branches.len() ==> match #[trigger] branches[i] {
                Some(b) => b.end.end is Ok,
                None => true,
            },
        over_budget(merged_branches(s, branches)) is None,
        has_room(merged_branches(s, branches), JsonView::Array(results)),
        results.len() == branches.len(),
        forall|i: int|
            0 <= i < branches.len() ==> #[trigger] results[i] == match branches[i] {
                Some(b) => or_null(b.end.last),
                None => JsonView::Null,
            },
    ensures
        ({
            let (r, after) = parallel_joined(s, step_id, branches);
            &&& r is Ok
            &&& r->Ok_0 <==> forall|i: int|
                0 <= i < branches.len() ==> match #[trigger] branches[i] {
                    Some(b) => b.end.end == Ok::<bool, ErrorView>(true),
                    None => true,
                }
            &&& lookup(after.step_results, step_id) == Some(JsonView::Array(results))
        }),
{
    lemma_no_branch_error(branches);
    let merged = merged_branches(s, branches);
    let told = branches.map_values(
        |b: Option<JoinedView>| branch_result(b),
    );
    assert(told =~= results);
    lemma_put(merged.step_results, step_id, JsonView::Array(results), step_id);
    let r = parallel_joined(s, step_id, branches).0;
    if r->Ok_0 {
        assert forall|i: int| 0 <= i < branches.len() implies match #[trigger] branches[i] {
            Some(b) => b.end.end == Ok::<bool, ErrorView>(true),
            None => true,
        } by {}
    }
}

proof fn lemma_no_branch_error(branches: Seq<Option<JoinedView>>)
    requires
        forall|i: int|
            0 <= i < branches.len() ==> match #[trigger] branches[i] {
                Some(b) => b.end.end is Ok,
                None => true,
            },
    ensures
        first_branch_error(branches) is None,
    decreases branches.len(),
{
    if branches.len() > 0 {
        let rest = branches.drop_last();
        assert forall|i: int| 0 <= i < rest.len() implies match #[trigger] rest[i] {
            Some(b) => b.end.end is Ok,
            None => true,
        } by {
            assert(rest[i] == branches[i]);
        }
        lemma_no_branch_error(rest);
        assert(branches[branches.len() - 1] == branches.last());
    }
}

/// The error of the first branch, in their order, that ended with one is that of the `parallel` step.
pub proof fn law_the_first_error_of_a_branch_comes_out(
    s: StateView,
    step_id: Seq<char>,
    branches: Seq<Option<JoinedView>>,
    i: int,
    e: ErrorView,
)
    requires
        0 <= i < branches.len(),
        branches[i] is Some,
        branches[i]->0.end.end == Err::<bool, ErrorView>(e),
        forall|j: int|
            0 <= j < i ==> match #[trigger] branches[j] {
                Some(b) => b.end.end is Ok,
                None => true,
            },
    ensures
        parallel_joined(s, step_id, branches).0 == Err::<bool, ErrorView>(e),
        parallel_joined(s, step_id, branches).1 == merged_branches(s, branches),
{
    lemma_first_branch_error(branches, i, e);
}

proof fn lemma_first_branch_error(branches: Seq<Option<JoinedView>>, i: int, e: ErrorView)
    requires
        0 <= i < branches.len(),
        branches[i] is Some,
        branches[i]->0.end.end == Err::<bool, ErrorView>(e),
        forall|j: int|
            0 <= j < i ==> match #[trigger] branches[j] {
                Some(b) => b.end.end is Ok,
                None => true,
            },
    ensures
        first_branch_error(branches) == Some(e),
    decreases branches.len(),
{
    let rest = branches.drop_last();
    if i == branches.len() - 1 {
        assert forall|j: int| 0 <= j < rest.len() implies match #[trigger] rest[j] {
            Some(b) => b.end.end is Ok,
            None => true,
        } by {
            assert(rest[j] == branches[j]);
        }
        lemma_no_branch_error(rest);
    } else {
        assert(rest[i] == branches[i]);
        assert forall|j: int| 0 <= j < i implies match #[trigger] rest[j] {
            Some(b) => b.end.end is Ok,
            None => true,
        } by {
            assert(rest[j] == branches[j]);
        }
        lemma_first_branch_error(rest, i, e);
    }
}

/// A loop of either kind collects where its params ask for it, and a `repeat` alone has a test that
/// ends it. It runs the steps under `steps`, which stand behind the others, and waits for its first
/// item.
pub proof fn law_a_loop_begins_as_it_is_written(
    step: StepView,
    kind: LoopKind,
    count: i32,
    s: StateView,
    items: Seq<JsonView>,
    steps: Seq<StepView>,
)
    requires
        step.params.get("steps"@) == Some(JsonView::Array(items)),
        spells(items, steps),
        count > 0,
    ensures
        ({
            let (turn, after) = loop_begun(step, kind, count, s);
            &&& turn is Run
            &&& turn->Run_0.phase == LoopPhase::Advance
            &&& turn->Run_0.step_id == step.id
            &&& turn->Run_0.collect == step.params.get_str("collect"@)
            &&& turn->Run_0.collected.len() == 0
            &&& kind == LoopKind::Repeat ==> turn->Run_0.until == step.params.get_str("until"@)
            &&& kind == LoopKind::ForEach ==> turn->Run_0.until is None
            &&& turn->Run_0.block.offset == s.steps.len()
            &&& turn->Run_0.block.ids.len() == steps.len()
            &&& forall|i: int|
                0 <= i < steps.len() ==> #[trigger] turn->Run_0.block.ids[i] == steps[i].id
            &&& after == (StateView { steps: s.steps + steps, ..s })
        }),
{
    lemma_spelt(items, steps);
}

/// A loop without items runs no step: it comes to its end at once, with what it is to collect, on the
/// state as it was. One whose begin failed is an error and changes nothing.
pub proof fn law_a_loop_without_items_is_over(
    step: StepView,
    kind: LoopKind,
    count: i32,
    s: StateView,
)
    ensures
        count == 0 ==> {
            let (turn, after) = loop_begun(step, kind, count, s);
            &&& turn is Run
            &&& turn->Run_0.phase == LoopPhase::End
            &&& turn->Run_0.step_id == step.id
            &&& turn->Run_0.collect == step.params.get_str("collect"@)
            &&& turn->Run_0.collected.len() == 0
            &&& after == s
        },
        count < 0 ==> {
            let (turn, after) = loop_begun(step, kind, count, s);
            &&& turn is Over
            &&& turn->Over_0 is Err
            &&& s.last_error is Some ==> turn->Over_0->Err_0 == ErrorView::Execution(
                s.last_error->0,
            )
            &&& after == s
        },
{
    let steps = steps_under(step.params, "steps"@);
    assert((s.steps + steps).take(s.steps.len() as int) =~= s.steps);
}

/// A loop that has a next item runs its block from the first step; one that has none comes to its end,
/// with its steps gone.
pub proof fn law_a_loop_runs_while_there_are_items(l: LoopView, s: StateView, n: i32)
    requires
        l.block.ids.len() > 0,
        l.block.offset <= s.steps.len(),
    ensures
        ({
            let (turn, after) = loop_advanced(l, s, Ok(n));
            &&& turn is Run
            &&& n != 0 ==> {
                &&& turn->Run_0.phase == LoopPhase::Body
                &&& turn->Run_0.block == (BlockView { pos: 0, ..l.block })
                &&& after.steps == s.steps
            }
            &&& n == 0 ==> {
                &&& turn->Run_0.phase == LoopPhase::End
                &&& after.steps == s.steps.take(l.block.offset as int)
                &&& after.step_results == s.step_results
            }
        }),
{
}

/// What a loop has collected, and what it is to do, changes with nothing but a value to collect: not
/// with an item, a step or a test.
pub proof fn law_only_collecting_collects(
    l: LoopView,
    s: StateView,
    item: Result<i32, ErrorView>,
    ran: Result<bool, ErrorView>,
)
    ensures
        forall|n: LoopView| #[trigger]
            loop_advanced(l, s, item).0 == TurnView::Run(n) ==> same_task(n, l),
        forall|n: LoopView| #[trigger]
            loop_next(l, s, ran).0 == TurnView::Run(n) ==> same_task(n, l),
        forall|n: LoopView| #[trigger]
            loop_tested(l, s, ran).0 == TurnView::Run(n) ==> same_task(n, l),
{
}

/// Two moments of one loop between which nothing was collected.
pub open spec fn same_task(a: LoopView, b: LoopView) -> bool {
    &&& a.step_id == b.step_id
    &&& a.collect == b.collect
    &&& a.until == b.until
    &&& a.inner == b.inner
    &&& a.collected == b.collected
    &&& a.collected_bytes == b.collected_bytes
    &&& a.block.ids == b.block.ids
    &&& a.block.offset == b.block.offset
}

/// Behind the last step of a pass a loop that collects waits for the value to collect; else one with a
/// test waits for that; else it goes on with the next item.
pub proof fn law_a_pass_is_followed_by_its_value(l: LoopView, s: StateView)
    requires
        l.block.pos + 1 >= l.block.ids.len(),
        s.return_signal is None,
    ensures
        ({
            let (turn, after) = loop_next(l, s, Ok(true));
            &&& turn is Run
            &&& after == s
            &&& l.collect is Some ==> turn->Run_0.phase == LoopPhase::Collect
            &&& l.collect is None && l.until is Some ==> turn->Run_0.phase == LoopPhase::Until
            &&& l.collect is None && l.until is None ==> turn->Run_0.phase == LoopPhase::Advance
        }),
{
}

/// Inside a pass the steps run one after the other. A failure ends the loop with it, and so does an
/// error; a `return` brings it to its end with what it collected before.
pub proof fn law_a_pass_runs_its_steps(l: LoopView, s: StateView, ran: Result<bool, ErrorView>)
    ensures
        match ran {
            Err(e) => loop_next(l, s, ran).0 == TurnView::<LoopView>::Over(Err(e)),
            Ok(false) => !s.cancelled ==> loop_next(l, s, ran).0 == TurnView::<LoopView>::Over(
                Ok(false),
            ),
            Ok(true) => {
                &&& loop_next(l, s, ran).0 is Run
                &&& s.return_signal is Some ==> loop_next(l, s, ran).0->Run_0.phase
                    == LoopPhase::End
                &&& s.return_signal is None && l.block.pos + 1 < l.block.ids.len() ==> loop_next(
                    l,
                    s,
                    ran,
                ).0->Run_0 == (LoopView {
                    block: BlockView { pos: l.block.pos + 1, ..l.block },
                    ..l
                })
            },
        },
{
}

/// A test that holds brings a loop to its end, and one that does not lets it go on with the next item;
/// a value that was collected is followed by the test, where there is one.
pub proof fn law_a_test_ends_a_loop(l: LoopView, s: StateView, holds: bool, v: JsonView)
    ensures
        loop_tested(l, s, Ok(holds)).0 is Run,
        loop_tested(l, s, Ok(holds)).0->Run_0.phase == if holds {
            LoopPhase::End
        } else {
            LoopPhase::Advance
        },
        loop_collected(l, s, Ok(v)).0 is Run ==> loop_collected(l, s, Ok(v)).0->Run_0.phase
            == if l.until is Some {
            LoopPhase::Until
        } else {
            LoopPhase::Advance
        },
{
}

/// A loop that takes in values one after the other, and nothing else in between.
pub open spec fn collecting(l: LoopView, s: StateView, values: Seq<JsonView>) -> Option<LoopView>
    decreases values.len(),
{
    if values.len() == 0 {
        Some(l)
    } else {
        match collecting(l, s, values.drop_last()) {
            Some(n) => match loop_collected(n, s, Ok(values.last())).0 {
                TurnView::Run(m) => Some(m),
                TurnView::Over(_) => None,
            },
            None => None,
        }
    }
}

proof fn lemma_collecting(l: LoopView, s: StateView, values: Seq<JsonView>)
    requires
        collecting(l, s, values) is Some,
    ensures
        collecting(l, s, values)->0.collected == l.collected + values,
        collecting(l, s, values)->0.collect == l.collect,
        collecting(l, s, values)->0.step_id == l.step_id,
    decreases values.len(),
{
    if values.len() > 0 {
        lemma_collecting(l, s, values.drop_last());
        assert(values.drop_last().push(values.last()) =~= values);
        assert(l.collected + values =~= (l.collected + values.drop_last()).push(values.last()));
    } else {
        assert(l.collected + values =~= l.collected);
    }
}

/// A loop that collects has for its result, at its end, the array of the values of its passes in their
/// order, those of its first pass first; one that does not leaves the result that it has.
pub proof fn law_a_loop_has_what_it_collected(
    step: StepView,
    kind: LoopKind,
    count: i32,
    s: StateView,
    values: Seq<JsonView>,
    later: StateView,
    n: i32,
)
    requires
        loop_begun(step, kind, count, s).0 is Run,
        collecting(loop_begun(step, kind, count, s).0->Run_0, s, values) is Some,
    ensures
        ({
            let l = collecting(loop_begun(step, kind, count, s).0->Run_0, s, values)->0;
            let (r, after) = loop_closed(l, later, Ok(n));
            &&& r == Ok::<bool, ErrorView>(true)
            &&& step.params.get_str("collect"@) is Some && has_room(later, JsonView::Array(values))
                ==> lookup(after.step_results, step.id) == Some(JsonView::Array(values))
            &&& step.params.get_str("collect"@) is None ==> after == later
        }),
{
    let l0 = loop_begun(step, kind, count, s).0->Run_0;
    lemma_collecting(l0, s, values);
    assert(l0.collected + values =~= values);
    lemma_put(later.step_results, step.id, JsonView::Array(values), step.id);
}

/// The branches of an `ifs` step are tried in their order: the first whose test holds, or that has
/// none, gives the steps to run, those under its `then`. Where there is none nothing runs.
pub proof fn law_an_ifs_step_takes_its_first_match(
    step: StepView,
    branches: Seq<JsonView>,
    holds: spec_fn(Seq<char>) -> bool,
    i: int,
    items: Seq<JsonView>,
    steps: Seq<StepView>,
)
    requires
        step.params.get("ifs"@) == Some(JsonView::Array(branches)),
        0 <= i <= branches.len(),
        forall|j: int|
            0 <= j < i ==> match (#[trigger] branches[j]).get_str("test"@) {
                Some(test) => !holds(test),
                None => false,
            },
        i < branches.len() ==> {
            &&& match branches[i].get_str("test"@) {
                Some(test) => holds(test),
                None => true,
            }
            &&& branches[i].get("then"@) == Some(JsonView::Array(items))
            &&& spells(items, steps)
        },
    ensures
        search(branches_of(step), holds) == if i < branches.len() {
            ChoiceView::Take(steps)
        } else {
            ChoiceView::Nothing
        },
{
    if i < branches.len() {
        lemma_spelt(items, steps);
    }
    lemma_search(branches_of(step), holds, i);
}

proof fn lemma_search(b: BranchesView, holds: spec_fn(Seq<char>) -> bool, i: int)
    requires
        b.pos <= i <= b.branches.len(),
        forall|j: int|
            b.pos <= j < i ==> match (#[trigger] b.branches[j]).get_str("test"@) {
                Some(test) => !holds(test),
                None => false,
            },
        i < b.branches.len() ==> match b.branches[i].get_str("test"@) {
            Some(test) => holds(test),
            None => true,
        },
    ensures
        search(b, holds) == if i < b.branches.len() {
            ChoiceView::Take(steps_under(b.branches[i], "then"@))
        } else {
            ChoiceView::Nothing
        },
    decreases i - b.pos,
{
    if b.pos < i {
        assert(b.branches[b.pos as int].get_str("test"@) is Some);
        lemma_search(b.answered(false).0, holds, i);
    }
}

/// A branch that was taken runs its steps one after the other, behind the others; when it is over, and
/// however it ends, they are gone. A branch without steps succeeds and changes nothing.
pub proof fn law_a_taken_branch_runs_its_steps(
    steps: Seq<StepView>,
    s: StateView,
    b: BlockView,
    ran: Result<bool, ErrorView>,
)
    ensures
        steps.len() == 0 ==> branch_begun(steps, s) == (TurnView::<BlockView>::Over(Ok(true)), s),
        steps.len() > 0 ==> {
            let (turn, after) = branch_begun(steps, s);
            &&& turn is Run
            &&& turn->Run_0.pos == 0
            &&& turn->Run_0.offset == s.steps.len()
            &&& turn->Run_0.ids.len() == steps.len()
            &&& forall|i: int| 0 <= i < steps.len() ==> #[trigger] turn->Run_0.ids[i] == steps[i].id
            &&& after == (StateView { steps: s.steps + steps, ..s })
        },
        b.offset <= s.steps.len() ==> match branch_next(b, s, ran).0 {
            TurnView::Run(n) => {
                &&& ran == Ok::<bool, ErrorView>(true)
                &&& s.return_signal is None
                &&& n == (BlockView { pos: b.pos + 1, ..b })
                &&& b.pos + 1 < b.ids.len()
                &&& branch_next(b, s, ran).1 == s
            },
            TurnView::Over(r) => {
                &&& branch_next(b, s, ran).1 == (StateView {
                    steps: s.steps.take(b.offset as int),
                    ..s
                })
                &&& ran == Ok::<bool, ErrorView>(true) ==> r == ran && (s.return_signal is Some
                    || b.pos + 1 >= b.ids.len())
                &&& ran == Ok::<bool, ErrorView>(false) && !s.cancelled ==> r == ran
                &&& ran == Ok::<bool, ErrorView>(false) && s.cancelled ==> r == Err::<
                    bool,
                    ErrorView,
                >(ErrorView::Cancelled { at_step: b.ids[b.pos as int] })
                &&& ran is Err ==> r == ran
            },
        },
{
}

/// A `return` gives its value twice: as the signal that ends the action, and as its own result where
/// there is room for it. Nothing else changes.
pub proof fn law_a_return_gives_its_value(
    s: StateView,
    id: Seq<char>,
    value: JsonView,
    other: Seq<char>,
)
    requires
        other != id,
    ensures
        returned(s, id, value).return_signal == Some(value),
        has_room(s, value) ==> lookup(returned(s, id, value).step_results, id) == Some(value),
        lookup(returned(s, id, value).step_results, other) == lookup(s.step_results, other),
        returned(s, id, value).variables == s.variables,
        returned(s, id, value).steps == s.steps,
{
    lemma_put(s.step_results, id, value, id);
    lemma_put(s.step_results, id, value, other);
}

/// A step that ran into a limit has failed, though what ran it succeeded; else it is what ran it that
/// decides.
pub proof fn law_a_limit_fails_a_step(s: StateView, ran: Result<bool, ErrorView>)
    ensures
        ran is Err ==> step_settled(s, ran) == ran,
        s.resource_violation is None ==> step_settled(s, ran) == ran,
        s.resource_violation is Some && ran is Ok ==> step_settled(s, ran) == Ok::<bool, ErrorView>(
            false,
        ),
{
}

/// A step type of the control flow goes to what runs it, whatever a plugin may use; any other goes to
/// the host function of the step type that it stands for.
pub proof fn law_a_step_goes_to_what_runs_it(
    step_type: Seq<char>,
    allowed: Map<Seq<char>, Seq<char>>,
)
    ensures
        route("for_each"@, allowed) == Some(RouteView::Loop(LoopKind::ForEach)),
        route("repeat"@, allowed) == Some(RouteView::Loop(LoopKind::Repeat)),
        route("ifs"@, allowed) == Some(RouteView::Ifs),
        route("return"@, allowed) == Some(RouteView::Return),
        route("try"@, allowed) == Some(RouteView::Try),
        route("parallel"@, allowed) == Some(RouteView::Parallel),
        !is_reserved_step_type(step_type) && allowed.contains_key(step_type)
            ==> route(step_type, allowed) == Some(
            RouteView::Host("step_"@ + allowed[step_type]),
        ),
{
    reveal_strlit("for_each");
    reveal_strlit("repeat");
    reveal_strlit("ifs");
    reveal_strlit("return");
    reveal_strlit("try");
    reveal_strlit("parallel");
    assert("for_each"@[0] == 'f' && "repeat"@[2] == 'p' && "ifs"@[0] == 'i' && "return"@[2] == 't'
        && "try"@[0] == 't' && "parallel"@[0] == 'p');
}

/// A `return` in the handler ends the `try` step with the handler's result: no cleanup runs. One in the
/// cleanup changes nothing of what the step comes to.
pub proof fn law_a_return_in_the_handler_skips_the_cleanup(t: TryView, s: StateView)
    requires
        t.phase == TryPhase::Handler,
        s.return_signal is Some,
        t.error is None,
    ensures
        try_next(t, s, Ok(true)).0 == TurnView::<TryView>::Over(Ok(true)),
        has_room(s, or_null(result_at_hand(s, t.block))) ==> lookup(
            try_next(t, s, Ok(true)).1.step_results,
            t.step_id,
        ) == Some(or_null(result_at_hand(s, t.block))),
        try_next(t, s, Ok(true)).1.return_signal == s.return_signal,
{
    lemma_put(s.step_results, t.step_id, or_null(result_at_hand(s, t.block)), t.step_id);
}

/// A handler without steps takes the failure away before the cleanup runs: nothing marks it, the step has
/// not failed and has no result so far.
pub proof fn law_an_empty_handler_leaves_nothing_to_the_cleanup(t: TryView, s: StateView)
    requires
        t.phase == TryPhase::Body,
        t.handler is Some,
        t.handler->0.len() == 0,
        t.cleanup.len() > 0,
        !t.failed,
        t.error is None,
        !s.cancelled,
        s.return_signal is None,
    ensures
        ({
            let (turn, after) = try_next(t, s, Ok(false));
            &&& turn is Run
            &&& turn->Run_0.phase == TryPhase::Cleanup
            &&& turn->Run_0.last is None
            &&& !turn->Run_0.failed
            &&& turn->Run_0.error is None
            &&& after.last_error is None
            &&& after.plugin_error is None
            &&& after.resource_violation is None
            &&& after.callee_error is None
            &&& after.error_stack == s.error_stack
        }),
{
}

/// A handler that succeeds has handled the failure, and one that fails has not: the cleanup, where there
/// is one, runs in either case, and the step then comes to that.
pub proof fn law_a_handler_decides_the_failure(t: TryView, s: StateView, ok: bool)
    requires
        t.phase == TryPhase::Handler,
        t.block.pos + 1 >= t.block.ids.len(),
        t.error is None,
        !s.cancelled,
        s.return_signal is None,
    ensures
        match try_next(t, s, Ok(ok)).0 {
            TurnView::Run(n) => n.phase == TryPhase::Cleanup && n.failed == !ok && n.error is None,
            TurnView::Over(r) => t.cleanup.len() == 0 && r == Ok::<bool, ErrorView>(ok),
        },
{
}

/// A `parallel` step whose branches had no error, and whose results together run into the limit, fails
/// with that.
pub proof fn law_branches_that_do_not_fit_together_fail_the_step(
    s: StateView,
    step_id: Seq<char>,
    branches: Seq<Option<JoinedView>>,
)
    requires
        forall|i: int|
            0 <= i < branches.len() ==> match #[trigger] branches[i] {
                Some(b) => b.end.end is Ok,
                None => true,
            },
        over_budget(merged_branches(s, branches)) is Some,
    ensures
        parallel_joined(s, step_id, branches).0 == Err::<bool, ErrorView>(
            over_budget(merged_branches(s, branches))->0,
        ),
        parallel_joined(s, step_id, branches).1 == merged_branches(s, branches),
{
    lemma_no_branch_error(branches);
}

/// A value for which there is room beside what is stored and what was collected is collected behind the
/// others; one for which there is none ends the loop with the limit that it ran into.
pub proof fn law_a_value_with_room_is_collected(l: LoopView, s: StateView, v: JsonView)
    requires
        s.limits.max_step_results_bytes < usize::MAX,
    ensures
        s.step_results_bytes + l.collected_bytes + weight(v) <= s.limits.max_step_results_bytes ==> {
            let (turn, after) = loop_collected(l, s, Ok(v));
            &&& turn is Run
            &&& turn->Run_0.collected == l.collected.push(v)
            &&& turn->Run_0.collected_bytes == l.collected_bytes + weight(v)
            &&& turn->Run_0.step_id == l.step_id
            &&& turn->Run_0.collect == l.collect
            &&& turn->Run_0.block == l.block
            &&& after == s
        },
        s.step_results_bytes + l.collected_bytes + weight(v) > s.limits.max_step_results_bytes ==> {
            let turn = loop_collected(l, s, Ok(v)).0;
            &&& turn is Over
            &&& turn->Over_0 is Err
            &&& turn->Over_0->Err_0 is StepResultsLimitExceeded
            &&& turn->Over_0->Err_0->StepResultsLimitExceeded_limit_bytes
                == s.limits.max_step_results_bytes
        },
{
}

/// An error where a loop asks for its next item, its value, its test or its end is the loop's.
pub proof fn law_an_error_ends_a_loop(l: LoopView, s: StateView, e: ErrorView)
    ensures
        loop_advanced(l, s, Err(e)).0 == TurnView::<LoopView>::Over(Err(e)),
        loop_collected(l, s, Err(e)).0 == TurnView::<LoopView>::Over(Err(e)),
        loop_tested(l, s, Err(e)).0 == TurnView::<LoopView>::Over(Err(e)),
        loop_closed(l, s, Err(e)) == (Err::<bool, ErrorView>(e), s),
{
}

/// The steps of a block come into an execution behind those that are there, and they go again when it
/// closes: what stands outside the block is as it was.
pub proof fn law_a_block_comes_and_goes(s: StateView, steps: Seq<StepView>)
    ensures
        opened(s, steps).steps == s.steps + steps,
        closed_to(opened(s, steps), s.steps.len()) == s,
        forall|n: nat|
            n <= s.steps.len() ==> (#[trigger] closed_to(s, n)).steps.len() == n && closed_to(
                s,
                n,
            ).steps.is_prefix_of(s.steps),
{
    assert(closed_to(opened(s, steps), s.steps.len()).steps =~= s.steps);
    assert forall|n: nat| n <= s.steps.len() implies (#[trigger] closed_to(s, n)).steps.is_prefix_of(
        s.steps,
    ) by {
        assert(s.steps.take(n as int) =~= closed_to(s, n).steps);
    }
}

/// A cleanup does not hide the failure before it: when it is over the step fails as it would have without
/// one, with the marks that were set aside for the time of the cleanup.
pub proof fn law_a_cleanup_brings_the_failure_back(t: TryView, s: StateView, m: MarksView)
    requires
        t.phase == TryPhase::Cleanup,
        t.failed || t.error is Some,
        t.marks == Some(m),
        try_next(t, s, Ok(true)).0 is Over,
        !s.cancelled,
    ensures
        ({
            let over = try_next(t, s, Ok(true));
            &&& t.error is Some ==> over.0->Over_0 == Err::<bool, ErrorView>(t.error->0)
            &&& t.error is None ==> over.0->Over_0 == Ok::<bool, ErrorView>(false)
            &&& over.1.last_error == m.last_error
            &&& over.1.plugin_error == m.plugin_error
            &&& over.1.resource_violation == m.resource_violation
            &&& over.1.callee_error == m.callee_error
            &&& over.1.step_results == s.step_results
        }),
{
}

/// A test that holds takes its branch, one that does not leads on to the next, and past the last branch
/// there is nothing.
pub proof fn law_an_answer_leads_on(b: BranchesView, holds: bool)
    ensures
        b.pos >= b.branches.len() ==> b.answered(holds) == (b, ChoiceView::Nothing),
        b.pos < b.branches.len() && holds ==> b.answered(holds) == (
            b,
            ChoiceView::Take(steps_under(b.branches[b.pos as int], "then"@)),
        ),
        b.pos < b.branches.len() && !holds ==> b.answered(holds).0.pos == b.pos + 1
            && b.answered(holds).0.branches == b.branches,
{
}

/// A loop whose pass has no steps goes through its items all the same: a pass is over as it begins, and
/// nothing is forgotten.
pub proof fn law_a_pass_without_steps_is_over_at_once(l: LoopView, s: StateView, n: i32)
    requires
        l.block.ids.len() == 0,
        n != 0,
    ensures
        ({
            let next = loop_advanced(l, s, Ok(n));
            &&& next.0 is Run
            &&& next.0->Run_0.phase != LoopPhase::Body
            &&& next.0->Run_0.collected == l.collected
            &&& next.1 == s
        }),
{
}

/// A step type of the engine's own that is no control flow goes to the host function of that name, whatever
/// a plugin may use.
pub proof fn law_a_reserved_step_type_needs_no_leave(
    step_type: Seq<char>,
    allowed: Map<Seq<char>, Seq<char>>,
)
    requires
        is_reserved_step_type(step_type),
    ensures
        route(step_type, allowed) is Some,
        route(step_type, allowed) == route(step_type, Map::empty()),
        route(step_type, allowed)->0 is Host ==> route(step_type, allowed)->0->Host_0
            == import_name(step_type),
{
}

/// An error of the cleanup is the error of the step, and a cancellation is never handled: it ends the step
/// at once, without a cleanup. Any other error of the body or of the handler comes out when the cleanup is
/// over.
pub proof fn law_a_cancellation_is_not_handled(t: TryView, s: StateView, e: ErrorView)
    requires
        t.marks is None,
    ensures
        e is Cancelled || t.phase == TryPhase::Cleanup ==> try_next(t, s, Err(e)).0
            == TurnView::<TryView>::Over(Err(e)),
        !(e is Cancelled) && t.phase != TryPhase::Cleanup ==> match try_next(t, s, Err(e)).0 {
            TurnView::Over(r) => r == Err::<bool, ErrorView>(e),
            TurnView::Run(n) => n.phase == TryPhase::Cleanup && n.error == Some(e),
        },
{
}

} // verus!
