//! What holds of the execution of steps: of what they leave in a state, of how tasks are merged, and of
//! the order in which the steps of an action run.

use vstd::prelude::*;
use vstd::utf8::encode_utf8;

use crate::control::parallel::{keys_of, merged_branches, JoinedView};
use crate::error::{callee_text, ErrorView};
use crate::exec_state::{entries_weight, fresh, list_weight, stored, weight, StateView, ThrownView};
use crate::fanout::{
    branch_for, handle_in, handle_to_split, mode_of, overrides, position_of, with_overrides,
    FanoutMode,
};
use crate::index_map::lemma_put;
use crate::json::{lookup, JsonView, NumberView};
use crate::laws::control::has_room;
use crate::limits::RuntimeLimits;
use crate::manifest::{PlanView, StepView};
use crate::outcomes::{
    failure, merged_branch, merged_task, over_budget, with_new_metadata, with_new_results,
    with_new_variables,
};
use crate::registry::at;
use crate::step_dispatch::{
    begun, body_begun, entries_of, finished, pulled, put_all, undeclared_key, BodyView,
};
use crate::text::{has_text, is_white_space, stands_at};
use crate::waves::{
    first_task_error, has_template_vars, merged_tasks, output_of, refers_to_vars, runs_at_once, some_entry_refers,
    some_item_refers, streams_close, template_vars_at, wave_error, WaveTaskView,
};

verus! {

/// No two entries have one key.
pub open spec fn keys_unlike(s: Seq<(Seq<char>, JsonView)>) -> bool {
    forall|i: int, j: int| 0 <= i < j < s.len() ==> (#[trigger] s[i]).0 != (#[trigger] s[j]).0
}

/// A result for which there is room is stored under its step, is charged by its weight and changes no
/// other result; the first result of all names the first step.
pub proof fn law_a_result_with_room_is_stored(
    s: StateView,
    id: Seq<char>,
    value: JsonView,
    other: Seq<char>,
)
    requires
        has_room(s, value),
        other != id,
    ensures
        ({
            let after = stored(s, id, value);
            &&& lookup(after.step_results, id) == Some(value)
            &&& lookup(after.step_results, other) == lookup(s.step_results, other)
            &&& after.step_results_bytes == s.step_results_bytes + weight(value)
            &&& after.resource_violation == s.resource_violation
            &&& after.first_step_id == if s.first_step_id is Some {
                s.first_step_id
            } else {
                Some(id)
            }
            &&& after.variables == s.variables
            &&& after.step_metadata == s.step_metadata
            &&& after.steps == s.steps
            &&& after.return_signal == s.return_signal
            &&& after.last_error == s.last_error
        }),
{
    lemma_put(s.step_results, id, value, other);
}

/// A result for which there is no room is refused: nothing is stored or charged, and the state tells
/// which limit was run into.
pub proof fn law_a_result_without_room_is_refused(s: StateView, id: Seq<char>, value: JsonView)
    requires
        !has_room(s, value),
        s.limits.max_step_results_bytes < usize::MAX,
    ensures
        ({
            let after = stored(s, id, value);
            &&& after.step_results == s.step_results
            &&& after.step_results_bytes == s.step_results_bytes
            &&& after.first_step_id == s.first_step_id
            &&& after.resource_violation is Some
            &&& after.resource_violation->0 is StepResultsLimit
            &&& after.resource_violation->0->limit_bytes == s.limits.max_step_results_bytes
            &&& after.resource_violation->0->attempted_bytes > s.limits.max_step_results_bytes
            &&& s.step_results_bytes + weight(value) <= usize::MAX
                ==> after.resource_violation->0->attempted_bytes == s.step_results_bytes + weight(
                value,
            )
        }),
{
}

proof fn lemma_list_weighs(items: Seq<JsonView>, i: int)
    requires
        0 <= i < items.len(),
    ensures
        weight(items[i]) <= list_weight(items),
    decreases items.len(),
{
    if i < items.len() - 1 {
        assert(items.drop_last()[i] == items[i]);
        lemma_list_weighs(items.drop_last(), i);
    }
}

proof fn lemma_entries_weigh(es: Seq<(Seq<char>, JsonView)>, i: int)
    requires
        0 <= i < es.len(),
    ensures
        encode_utf8(es[i].0).len() + weight(es[i].1) <= entries_weight(es),
    decreases es.len(),
{
    if i < es.len() - 1 {
        assert(es.drop_last()[i] == es[i]);
        lemma_entries_weigh(es.drop_last(), i);
    }
}

/// A value weighs no less than the bytes of its text, and more than any value that it holds together
/// with the key that it stands under.
pub proof fn law_a_value_weighs_what_it_holds(
    text: Seq<char>,
    items: Seq<JsonView>,
    i: int,
    es: Seq<(Seq<char>, JsonView)>,
    k: int,
)
    requires
        0 <= i < items.len(),
        0 <= k < es.len(),
    ensures
        weight(JsonView::String(text)) > encode_utf8(text).len(),
        weight(JsonView::Array(items)) > weight(items[i]),
        weight(JsonView::Object(es)) > encode_utf8(es[k].0).len() + weight(es[k].1),
{
    lemma_list_weighs(items, i);
    lemma_entries_weigh(es, k);
}

/// A step that failed is told by the richest mark that it left: the limit that it ran into, then a
/// cancellation, then what the callee failed with, then what the plugin threw, and only then a message.
pub proof fn law_a_failure_is_told_by_its_richest_mark(s: StateView, id: Seq<char>)
    ensures
        ({
            let e = failure(s, id);
            let limited = s.resource_violation is Some;
            &&& limited && s.resource_violation->0 is FuelExhausted ==> e is FuelExhausted
                && e->budget == s.resource_violation->0->budget && (s.last_error is Some
                ==> e->detail == s.last_error->0)
            &&& limited && s.resource_violation->0 is MemoryLimit ==> e
                == (ErrorView::MemoryLimitExceeded {
                limit_bytes: s.resource_violation->0->bytes,
            })
            &&& limited && s.resource_violation->0 is StepResultsLimit ==> e
                == (ErrorView::StepResultsLimitExceeded {
                limit_bytes: s.resource_violation->0->limit_bytes,
                attempted_bytes: s.resource_violation->0->attempted_bytes,
            })
            &&& !limited && s.cancelled ==> e == (ErrorView::Cancelled { at_step: id })
            &&& !limited && !s.cancelled && s.callee_error is Some ==> e
                == (ErrorView::CalleeFailed {
                step_id: id,
                plugin: s.callee_error->0.plugin,
                action: s.callee_error->0.action,
                source: Box::new(s.callee_error->0.source),
            })
            &&& !limited && !s.cancelled && s.callee_error is None && s.plugin_error is Some ==> e
                == (ErrorView::PluginError {
                code: s.plugin_error->0.code,
                message: s.plugin_error->0.message,
                params: s.plugin_error->0.params,
            })
            &&& !limited && !s.cancelled && s.callee_error is None && s.plugin_error is None
                && s.last_error is Some ==> e == ErrorView::Execution(s.last_error->0)
            &&& !limited && !s.cancelled && s.callee_error is None && s.plugin_error is None ==> e
                is Execution
        }),
{
}

/// A limit on step results that was run into is told as such, and no other mark is an overrun.
pub proof fn law_only_the_limit_on_results_is_an_overrun(s: StateView)
    ensures
        over_budget(s) is Some <==> s.resource_violation is Some && s.resource_violation->0
            is StepResultsLimit,
        over_budget(s) is Some ==> over_budget(s)->0 == failure(s, Seq::empty()),
{
}

proof fn lemma_variables(
    into: Seq<(Seq<char>, JsonView)>,
    from: Seq<(Seq<char>, JsonView)>,
    baseline: Seq<(Seq<char>, JsonView)>,
    name: Seq<char>,
)
    requires
        keys_unlike(from),
    ensures
        lookup(with_new_variables(into, from, baseline), name) == if lookup(baseline, name) is None
            && lookup(from, name) is Some {
            lookup(from, name)
        } else {
            lookup(into, name)
        },
    decreases from.len(),
{
    if from.len() > 0 {
        let rest = from.drop_last();
        assert(keys_unlike(rest)) by {
            assert forall|i: int, j: int| 0 <= i < j < rest.len() implies (#[trigger] rest[i]).0
                != (#[trigger] rest[j]).0 by {
                assert(rest[i] == from[i] && rest[j] == from[j]);
            }
        }
        lemma_variables(into, rest, baseline, name);
        let before = with_new_variables(into, rest, baseline);
        lemma_put(before, from.last().0, from.last().1, name);
        lemma_lookup_last(from, name);
    }
}

proof fn lemma_lookup_last(s: Seq<(Seq<char>, JsonView)>, name: Seq<char>)
    requires
        s.len() > 0,
        keys_unlike(s),
    ensures
        s.last().0 == name ==> lookup(s, name) == Some(s.last().1) && lookup(s.drop_last(), name)
            is None,
        s.last().0 != name ==> lookup(s, name) == lookup(s.drop_last(), name),
    decreases s.len(),
{
    if s.len() > 1 {
        let rest = s.drop_first();
        assert(keys_unlike(rest)) by {
            assert forall|i: int, j: int| 0 <= i < j < rest.len() implies (#[trigger] rest[i]).0
                != (#[trigger] rest[j]).0 by {
                assert(rest[i] == s[i + 1] && rest[j] == s[j + 1]);
            }
        }
        lemma_lookup_last(rest, name);
        assert(rest.last() == s.last());
        assert(rest.drop_last() =~= s.drop_last().drop_first());
        assert(s.drop_last()[0] == s[0]);
        assert(s[0].0 != s[s.len() - 1].0);
    } else {
        assert(s.last() == s[0]);
        assert(s.drop_last() =~= Seq::empty());
        assert(s.drop_first() =~= Seq::empty());
    }
}

/// A task that is merged brings the result of its step, where there is room for it, what its step
/// emitted beside it, and the variables that were not there when it began; it changes no result of
/// another step and no variable that was there.
pub proof fn law_a_merge_brings_what_the_step_wrote(
    c: StateView,
    t: StateView,
    id: Seq<char>,
    baseline: Seq<(Seq<char>, JsonView)>,
    other: Seq<char>,
    name: Seq<char>,
)
    requires
        other != id,
        keys_unlike(t.variables),
    ensures
        ({
            let after = merged_task(c, t, id, baseline);
            &&& lookup(t.step_results, id) is Some && has_room(
                c,
                lookup(t.step_results, id)->0,
            ) ==> lookup(after.step_results, id) == lookup(t.step_results, id)
            &&& lookup(t.step_results, id) is None ==> after.step_results == c.step_results
            &&& lookup(after.step_results, other) == lookup(c.step_results, other)
            &&& lookup(t.step_metadata, id) is Some ==> lookup(after.step_metadata, id) == lookup(
                t.step_metadata,
                id,
            )
            &&& lookup(after.step_metadata, other) == lookup(c.step_metadata, other)
            &&& lookup(after.variables, name) == if lookup(baseline, name) is None && lookup(
                t.variables,
                name,
            ) is Some {
                lookup(t.variables, name)
            } else {
                lookup(c.variables, name)
            }
            &&& after.steps == c.steps
            &&& after.limits == c.limits
            &&& after.cancelled == c.cancelled
        }),
{
    let s = match lookup(t.step_results, id) {
        Some(v) => stored(c, id, v),
        None => c,
    };
    if let Some(v) = lookup(t.step_results, id) {
        lemma_put(c.step_results, id, v, id);
        lemma_put(c.step_results, id, v, other);
    }
    if let Some(m) = lookup(t.step_metadata, id) {
        lemma_put(s.step_metadata, id, m, id);
        lemma_put(s.step_metadata, id, m, other);
    }
    lemma_variables(s.variables, t.variables, baseline, name);
}

/// A mark or a `return` that a state has stays when a task is merged into it; one that it has not it
/// takes from the task.
pub proof fn law_the_first_mark_stays(
    c: StateView,
    t: StateView,
    id: Seq<char>,
    baseline: Seq<(Seq<char>, JsonView)>,
)
    ensures
        ({
            let after = merged_task(c, t, id, baseline);
            &&& c.last_error is Some ==> after.last_error == c.last_error
            &&& c.last_error is None ==> after.last_error == t.last_error
            &&& c.plugin_error is Some ==> after.plugin_error == c.plugin_error
            &&& c.plugin_error is None ==> after.plugin_error == t.plugin_error
            &&& c.return_signal is Some ==> after.return_signal == c.return_signal
            &&& c.return_signal is None ==> after.return_signal == t.return_signal
            &&& t.resource_violation is Some ==> after.resource_violation is Some
            &&& c.resource_violation is Some ==> after.resource_violation is Some
        }),
{
}

proof fn lemma_violation_stays(
    c: StateView,
    tasks: Seq<WaveTaskView>,
    baseline: Seq<(Seq<char>, JsonView)>,
)
    ensures
        c.resource_violation is Some ==> merged_tasks(c, tasks, baseline).resource_violation is Some,
    decreases tasks.len(),
{
    if tasks.len() > 0 {
        lemma_violation_stays(c, tasks.drop_last(), baseline);
    }
}

/// A wave that stays in its limits leaves the result of every one of its steps.
pub proof fn law_a_wave_leaves_every_result(
    c: StateView,
    tasks: Seq<WaveTaskView>,
    baseline: Seq<(Seq<char>, JsonView)>,
    i: int,
)
    requires
        0 <= i < tasks.len(),
        forall|j: int, k: int|
            0 <= j < k < tasks.len() ==> (#[trigger] tasks[j]).step_id != (#[trigger] tasks[k]).step_id,
        lookup(tasks[i].state.step_results, tasks[i].step_id) is Some,
        merged_tasks(c, tasks, baseline).resource_violation is None,
    ensures
        lookup(merged_tasks(c, tasks, baseline).step_results, tasks[i].step_id) == lookup(
            tasks[i].state.step_results,
            tasks[i].step_id,
        ),
    decreases tasks.len(),
{
    let rest = tasks.drop_last();
    let before = merged_tasks(c, rest, baseline);
    let t = tasks.last();
    let id = tasks[i].step_id;
    assert(before.resource_violation is None);
    if i < tasks.len() - 1 {
        assert forall|j: int, k: int| 0 <= j < k < rest.len() implies (#[trigger] rest[j]).step_id
            != (#[trigger] rest[k]).step_id by {
            assert(rest[j] == tasks[j] && rest[k] == tasks[k]);
        }
        assert(rest[i] == tasks[i]);
        law_a_wave_leaves_every_result(c, rest, baseline, i);
        assert(tasks[i].step_id != tasks[tasks.len() - 1].step_id);
        if let Some(v) = lookup(t.state.step_results, t.step_id) {
            lemma_put(before.step_results, t.step_id, v, id);
        }
    } else {
        let v = lookup(t.state.step_results, id)->0;
        lemma_put(before.step_results, id, v, id);
    }
}

/// A wave fails with the error of the first of its steps, in their order, that did not succeed: with
/// the error that running it gave, or with what its own state tells of its failure. Where all of them
/// succeeded it fails only where they run into the limit on results together.
pub proof fn law_a_wave_fails_with_its_first_failure(
    merged: StateView,
    tasks: Seq<WaveTaskView>,
    i: int,
)
    requires
        0 <= i <= tasks.len(),
        forall|j: int|
            0 <= j < i ==> (#[trigger] tasks[j]).ran == Ok::<bool, ErrorView>(true),
        i < tasks.len() ==> tasks[i].ran != Ok::<bool, ErrorView>(true),
    ensures
        wave_error(merged, tasks) == if i < tasks.len() {
            match tasks[i].ran {
                Err(e) => Some(e),
                Ok(_) => Some(failure(tasks[i].state, tasks[i].step_id)),
            }
        } else {
            over_budget(merged)
        },
{
    lemma_first_failure(tasks, i);
}

proof fn lemma_first_failure(tasks: Seq<WaveTaskView>, i: int)
    requires
        0 <= i <= tasks.len(),
        forall|j: int|
            0 <= j < i ==> (#[trigger] tasks[j]).ran == Ok::<bool, ErrorView>(true),
        i < tasks.len() ==> tasks[i].ran != Ok::<bool, ErrorView>(true),
    ensures
        first_task_error(tasks) == if i < tasks.len() {
            match tasks[i].ran {
                Err(e) => Some(e),
                Ok(_) => Some(failure(tasks[i].state, tasks[i].step_id)),
            }
        } else {
            None
        },
    decreases tasks.len(),
{
    if tasks.len() > 0 {
        let rest = tasks.drop_last();
        if i == tasks.len() {
            assert(tasks[tasks.len() - 1] == tasks.last());
            lemma_first_failure(rest, i - 1);
        } else if i == tasks.len() - 1 {
            assert(tasks[i] == tasks.last());
            lemma_first_failure(rest, i);
        } else {
            assert(rest[i] == tasks[i]);
            lemma_first_failure(rest, i);
        }
    }
}

/// A wave with a step that stores to a variable never runs at once, and neither does one with a step
/// that refers to a variable, that loops or that chooses; nor does a wave of an action that does not
/// ask for it, or one of a single step.
pub proof fn law_what_the_plan_does_not_see_keeps_its_order(
    wave: Seq<usize>,
    steps: Seq<StepView>,
    parallel_waves: bool,
    i: int,
)
    requires
        0 <= i < wave.len(),
    ensures
        steps[wave[i] as int].store_to_variable is Some ==> !runs_at_once(
            wave,
            steps,
            parallel_waves,
        ),
        refers_to_vars(steps[wave[i] as int].params) ==> !runs_at_once(wave, steps, parallel_waves),
        steps[wave[i] as int].step_type == "for_each"@ ==> !runs_at_once(
            wave,
            steps,
            parallel_waves,
        ),
        steps[wave[i] as int].step_type == "repeat"@ ==> !runs_at_once(wave, steps, parallel_waves),
        steps[wave[i] as int].step_type == "ifs"@ ==> !runs_at_once(wave, steps, parallel_waves),
        !parallel_waves ==> !runs_at_once(wave, steps, parallel_waves),
        wave.len() == 1 ==> !runs_at_once(wave, steps, parallel_waves),
{
}

/// A wave of several steps of an action that asks for it runs at once, where no step of it stores to
/// or refers to a variable, loops or chooses.
pub proof fn law_independent_steps_run_at_once(wave: Seq<usize>, steps: Seq<StepView>)
    requires
        wave.len() > 1,
        forall|i: int|
            0 <= i < wave.len() ==> {
                let step = steps[#[trigger] wave[i] as int];
                &&& step.store_to_variable is None
                &&& !refers_to_vars(step.params)
                &&& step.step_type != "for_each"@
                &&& step.step_type != "repeat"@
                &&& step.step_type != "ifs"@
            },
    ensures
        runs_at_once(wave, steps, true),
{
}

proof fn lemma_some_item(items: Seq<JsonView>, i: int)
    requires
        0 <= i < items.len(),
        refers_to_vars(items[i]),
    ensures
        some_item_refers(items),
    decreases items.len(),
{
    if i < items.len() - 1 {
        assert(items.drop_last()[i] == items[i]);
        lemma_some_item(items.drop_last(), i);
    }
}

proof fn lemma_some_entry(es: Seq<(Seq<char>, JsonView)>, i: int)
    requires
        0 <= i < es.len(),
        refers_to_vars(es[i].1),
    ensures
        some_entry_refers(es),
    decreases es.len(),
{
    if i < es.len() - 1 {
        assert(es.drop_last()[i] == es[i]);
        lemma_some_entry(es.drop_last(), i);
    }
}

/// A text with `$vars.` anywhere in it refers to a variable, and so does every value that holds one
/// that does, at any depth; numbers, truth values and null do not.
pub proof fn law_a_reference_to_a_variable_is_found(
    text: Seq<char>,
    items: Seq<JsonView>,
    i: int,
    es: Seq<(Seq<char>, JsonView)>,
    k: int,
    b: bool,
    n: NumberView,
)
    requires
        0 <= i < items.len(),
        0 <= k < es.len(),
    ensures
        has_text(text, "$vars."@) ==> refers_to_vars(JsonView::String(text)),
        refers_to_vars(items[i]) ==> refers_to_vars(JsonView::Array(items)),
        refers_to_vars(es[k].1) ==> refers_to_vars(JsonView::Object(es)),
        !refers_to_vars(JsonView::Null),
        !refers_to_vars(JsonView::Bool(b)),
        !refers_to_vars(JsonView::Number(n)),
{
    if refers_to_vars(items[i]) {
        lemma_some_item(items, i);
    }
    if refers_to_vars(es[k].1) {
        lemma_some_entry(es, k);
    }
}

/// The output of an action is what a `return` gave, where there was one.
pub proof fn law_a_return_is_the_output(s: StateView, collected: JsonView)
    ensures
        s.return_signal is Some ==> output_of(s, collected) == s.return_signal->0,
        s.return_signal is None ==> output_of(s, collected) == collected,
{
}

/// An invocation closes the streams that are left open only where it asks for it and is not nested in
/// another.
pub proof fn law_a_nested_invocation_leaves_streams_open(drain: bool, depth: u32)
    ensures
        depth > 0 ==> !streams_close(drain, depth),
        !drain ==> !streams_close(drain, depth),
        streams_close(true, 0),
{
}

/// A step that gave a value succeeds with it: the value is its result and, where it names a variable,
/// the value of that variable, also where the variable was there before; no other result or variable
/// changes. It runs no more, and sees no secrets any more.
pub proof fn law_a_step_leaves_its_value(
    s: StateView,
    step: StepView,
    value: JsonView,
    other: Seq<char>,
    name: Seq<char>,
)
    requires
        has_room(s, value),
        other != step.id,
    ensures
        ({
            let (after, succeeded) = finished(
                s,
                step.id,
                step.step_type,
                step.store_to_variable,
                BodyView::Gave { value, metadata: Seq::empty() },
                None,
            );
            &&& succeeded
            &&& lookup(after.step_results, step.id) == Some(value)
            &&& lookup(after.step_results, other) == lookup(s.step_results, other)
            &&& step.store_to_variable == Some(name) ==> lookup(after.variables, name) == Some(value)
            &&& step.store_to_variable != Some(name) ==> lookup(after.variables, name) == lookup(
                s.variables,
                name,
            )
            &&& after.step_metadata == s.step_metadata
            &&& after.body_secrets is None
            &&& after.current_step_idx is None
            &&& after.last_error == s.last_error
        }),
{
    lemma_put(s.step_results, step.id, value, other);
    if let Some(v) = step.store_to_variable {
        lemma_put(s.variables, v, value, name);
    }
}

proof fn lemma_put_all(
    into: Seq<(Seq<char>, JsonView)>,
    from: Seq<(Seq<char>, JsonView)>,
    key: Seq<char>,
)
    requires
        keys_unlike(from),
    ensures
        lookup(put_all(into, from), key) == if lookup(from, key) is Some {
            lookup(from, key)
        } else {
            lookup(into, key)
        },
    decreases from.len(),
{
    if from.len() > 0 {
        let rest = from.drop_last();
        assert(keys_unlike(rest)) by {
            assert forall|i: int, j: int| 0 <= i < j < rest.len() implies (#[trigger] rest[i]).0
                != (#[trigger] rest[j]).0 by {
                assert(rest[i] == from[i] && rest[j] == from[j]);
            }
        }
        lemma_put_all(into, rest, key);
        lemma_put(put_all(into, rest), from.last().0, from.last().1, key);
        lemma_lookup_last(from, key);
    }
}

/// What a step emitted beside its value stands under its id, key by key, with what it emitted before
/// under other keys; what other steps emitted stays.
pub proof fn law_metadata_stands_under_its_step(
    s: StateView,
    step: StepView,
    value: JsonView,
    metadata: Seq<(Seq<char>, JsonView)>,
    key: Seq<char>,
    other: Seq<char>,
)
    requires
        metadata.len() > 0,
        keys_unlike(metadata),
        other != step.id,
    ensures
        ({
            let (after, succeeded) = finished(
                s,
                step.id,
                step.step_type,
                step.store_to_variable,
                BodyView::Gave { value, metadata },
                None,
            );
            let own = entries_of(lookup(after.step_metadata, step.id));
            &&& succeeded
            &&& lookup(metadata, key) is Some ==> lookup(own, key) == lookup(metadata, key)
            &&& lookup(metadata, key) is None ==> lookup(own, key) == lookup(
                entries_of(lookup(s.step_metadata, step.id)),
                key,
            )
            &&& lookup(after.step_metadata, other) == lookup(s.step_metadata, other)
        }),
{
    let before = entries_of(lookup(s.step_metadata, step.id));
    lemma_put_all(before, metadata, key);
    let all = JsonView::Object(put_all(before, metadata));
    lemma_put(s.step_metadata, step.id, all, step.id);
    lemma_put(s.step_metadata, step.id, all, other);
}

/// A body that gave no value fails its step: there is no result, no variable and no metadata of it, the
/// state has a message, and the mark that tells what kind of failure it was.
pub proof fn law_a_body_without_a_value_fails_its_step(
    s: StateView,
    step: StepView,
    body: BodyView,
    allowed: Option<Seq<Seq<char>>>,
)
    requires
        !(body is Gave),
    ensures
        ({
            let (after, succeeded) = finished(
                s,
                step.id,
                step.step_type,
                step.store_to_variable,
                body,
                allowed,
            );
            &&& !succeeded
            &&& after.step_results == s.step_results
            &&& after.variables == s.variables
            &&& after.step_metadata == s.step_metadata
            &&& after.last_error is Some
            &&& after.body_secrets is None
            &&& after.current_step_idx is None
            &&& match body {
                BodyView::Failed(m) => after.last_error == Some(m) && after.plugin_error
                    == s.plugin_error,
                BodyView::Thrown(p) => after.plugin_error == Some(p),
                BodyView::Cancelled => after.cancelled,
                BodyView::Callee(c) => after.callee_error == Some(c) && after.last_error == Some(
                    callee_text(step.id, c.plugin, c.action) + c.source.text(),
                ),
                BodyView::Gave { .. } => true,
            }
            &&& !(body is Cancelled) ==> after.cancelled == s.cancelled
            &&& !(body is Callee) ==> after.callee_error == s.callee_error
            &&& !(body is Thrown) ==> after.plugin_error == s.plugin_error
        }),
{
}

/// A body runs without the marks of an earlier dispatch, and with nothing else changed.
pub proof fn law_a_body_begins_unmarked(s: StateView)
    ensures
        !body_begun(s).cancelled,
        body_begun(s).callee_error is None,
        body_begun(s).step_results == s.step_results,
        body_begun(s).variables == s.variables,
        body_begun(s).last_error == s.last_error,
        body_begun(s).plugin_error == s.plugin_error,
        body_begun(s).resource_violation == s.resource_violation,
        body_begun(s).body_secrets == s.body_secrets,
        body_begun(s).current_step_idx == s.current_step_idx,
        body_begun(s).steps == s.steps,
{
}

/// A dispatch marks the step that runs; where there is no such step it only leaves a message. The
/// secrets of another plugin are there for its body where they could be had; else the step is not run.
pub proof fn law_a_dispatch_marks_its_step(
    s: StateView,
    idx: usize,
    id: Seq<char>,
    step_type: Seq<char>,
    answer: Result<JsonView, Seq<char>>,
)
    ensures
        idx < s.steps.len() ==> begun(s, idx).current_step_idx == Some(idx) && begun(s, idx).last_error
            == s.last_error,
        idx >= s.steps.len() ==> begun(s, idx).current_step_idx == s.current_step_idx && begun(
            s,
            idx,
        ).last_error is Some,
        begun(s, idx).step_results == s.step_results,
        begun(s, idx).body_secrets == s.body_secrets,
        answer is Ok ==> pulled(s, id, step_type, answer).body_secrets == Some(answer->Ok_0)
            && pulled(s, id, step_type, answer).current_step_idx == s.current_step_idx
            && pulled(s, id, step_type, answer).last_error == s.last_error,
        answer is Err ==> pulled(s, id, step_type, answer).body_secrets == s.body_secrets && pulled(
            s,
            id,
            step_type,
            answer,
        ).current_step_idx is None && pulled(s, id, step_type, answer).last_error is Some,
{
}

/// The first place of a value in a list.
proof fn lemma_position(v: Seq<usize>, x: usize, n: int, i: int)
    requires
        0 <= i <= n < v.len(),
        v[n] == x,
        forall|j: int| i <= j < n ==> #[trigger] v[j] != x,
    ensures
        position_of(v, x, i) == Some(n),
    decreases n - i,
{
    if i < n {
        lemma_position(v, x, n, i + 1);
    }
}

proof fn lemma_overrides(
    plan: PlanView,
    steps: Seq<StepView>,
    fanout: Map<usize, Seq<u32>>,
    idx: usize,
    deps: Seq<usize>,
    k: int,
)
    requires
        0 <= k < deps.len(),
        branch_for(plan, fanout, idx, deps[k]) is Some,
        forall|a: int, b: int|
            0 <= a < b < deps.len() ==> steps[(#[trigger] deps[a]) as int].id != steps[(
            #[trigger] deps[b]) as int].id,
    ensures
        at(overrides(plan, steps, fanout, idx, deps), steps[deps[k] as int].id) == branch_for(
            plan,
            fanout,
            idx,
            deps[k],
        ),
    decreases deps.len(),
{
    let rest = deps.drop_last();
    if k < deps.len() - 1 {
        assert(rest[k] == deps[k]);
        assert forall|a: int, b: int| 0 <= a < b < rest.len() implies steps[(
        #[trigger] rest[a]) as int].id != steps[(#[trigger] rest[b]) as int].id by {
            assert(rest[a] == deps[a] && rest[b] == deps[b]);
        }
        lemma_overrides(plan, steps, fanout, idx, rest, k);
        assert(steps[deps[k] as int].id != steps[deps[deps.len() - 1] as int].id);
    }
}

/// The n-th consumer of a stream that was split reads the n-th branch of it, under the id of the step
/// that writes it.
pub proof fn law_every_consumer_reads_its_own_branch(
    plan: PlanView,
    steps: Seq<StepView>,
    fanout: Map<usize, Seq<u32>>,
    idx: usize,
    k: int,
    n: int,
)
    requires
        0 <= k < plan.deps[idx as int].len(),
        forall|a: int, b: int|
            0 <= a < b < plan.deps[idx as int].len() ==> steps[(
            #[trigger] plan.deps[idx as int][a]) as int].id != steps[(
            #[trigger] plan.deps[idx as int][b]) as int].id,
        fanout.contains_key(plan.deps[idx as int][k]),
        0 <= n < plan.consumers[plan.deps[idx as int][k] as int].len(),
        n < fanout[plan.deps[idx as int][k]].len(),
        plan.consumers[plan.deps[idx as int][k] as int][n] == idx,
        forall|j: int|
            0 <= j < n ==> #[trigger] plan.consumers[plan.deps[idx as int][k] as int][j] != idx,
    ensures
        at(
            overrides(plan, steps, fanout, idx, plan.deps[idx as int]),
            steps[plan.deps[idx as int][k] as int].id,
        ) == Some(fanout[plan.deps[idx as int][k]][n]),
{
    let dep = plan.deps[idx as int][k];
    lemma_position(plan.consumers[dep as int], idx, n, 0);
    lemma_overrides(plan, steps, fanout, idx, plan.deps[idx as int], k);
}

/// A step whose streams were not split reads them as they are.
pub proof fn law_a_stream_that_was_not_split_is_read_as_it_is(
    plan: PlanView,
    steps: Seq<StepView>,
    fanout: Map<usize, Seq<u32>>,
    idx: usize,
    deps: Seq<usize>,
)
    requires
        forall|k: int| 0 <= k < deps.len() ==> !fanout.contains_key(#[trigger] deps[k]),
    ensures
        overrides(plan, steps, fanout, idx, deps) == Map::<Seq<char>, u32>::empty(),
    decreases deps.len(),
{
    if deps.len() > 0 {
        let rest = deps.drop_last();
        assert forall|k: int| 0 <= k < rest.len() implies !fanout.contains_key(
            #[trigger] rest[k],
        ) by {
            assert(rest[k] == deps[k]);
        }
        law_a_stream_that_was_not_split_is_read_as_it_is(plan, steps, fanout, idx, rest);
        assert(!fanout.contains_key(deps[deps.len() - 1]));
    }
}

/// The result of a step is a stream to split where the step has two consumers or more and the result
/// is the number of a handle: a whole number above zero that fits one. Consumers that run at once are
/// fed as the stream comes, others when it is at its end.
pub proof fn law_a_stream_with_several_consumers_is_split(
    s: StateView,
    consumers: Seq<usize>,
    id: Seq<char>,
    n: u64,
)
    requires
        lookup(s.step_results, id) == Some(JsonView::Number(NumberView::PosInt(n))),
    ensures
        consumers.len() < 2 ==> handle_to_split(s, consumers, id) is None,
        consumers.len() >= 2 && 0 < n <= u32::MAX ==> handle_to_split(s, consumers, id) == Some(
            n as u32,
        ),
        n == 0 || n > u32::MAX ==> handle_to_split(s, consumers, id) is None,
        mode_of(true) == FanoutMode::Streaming,
        mode_of(false) == FanoutMode::Eager,
{
}

/// What is not the number of a handle is no stream.
pub proof fn law_only_a_number_is_a_handle(v: JsonView)
    requires
        !(v is Number),
    ensures
        handle_in(Some(v)) is None,
        handle_in(None) is None,
{
}

proof fn lemma_results(
    c: StateView,
    results: Seq<(Seq<char>, JsonView)>,
    known: Seq<Seq<char>>,
    id: Seq<char>,
)
    requires
        keys_unlike(results),
    ensures
        c.resource_violation is Some ==> with_new_results(c, results, known).resource_violation
            is Some,
        known.contains(id) || lookup(results, id) is None ==> lookup(
            with_new_results(c, results, known).step_results,
            id,
        ) == lookup(c.step_results, id),
        !known.contains(id) && lookup(results, id) is Some && with_new_results(
            c,
            results,
            known,
        ).resource_violation is None ==> lookup(
            with_new_results(c, results, known).step_results,
            id,
        ) == lookup(results, id),
        with_new_results(c, results, known).variables == c.variables,
        with_new_results(c, results, known).step_metadata == c.step_metadata,
        with_new_results(c, results, known).return_signal == c.return_signal,
        with_new_results(c, results, known).last_error == c.last_error,
        with_new_results(c, results, known).plugin_error == c.plugin_error,
        with_new_results(c, results, known).callee_error == c.callee_error,
    decreases results.len(),
{
    if results.len() > 0 {
        let rest = results.drop_last();
        assert(keys_unlike(rest)) by {
            assert forall|i: int, j: int| 0 <= i < j < rest.len() implies (#[trigger] rest[i]).0
                != (#[trigger] rest[j]).0 by {
                assert(rest[i] == results[i] && rest[j] == results[j]);
            }
        }
        lemma_results(c, rest, known, id);
        lemma_lookup_last(results, id);
        let before = with_new_results(c, rest, known);
        lemma_put(before.step_results, results.last().0, results.last().1, id);
    }
}

proof fn lemma_metadata(
    into: Seq<(Seq<char>, JsonView)>,
    from: Seq<(Seq<char>, JsonView)>,
    known: Seq<Seq<char>>,
    id: Seq<char>,
)
    requires
        keys_unlike(from),
    ensures
        lookup(with_new_metadata(into, from, known), id) == if !known.contains(id) && lookup(
            from,
            id,
        ) is Some {
            lookup(from, id)
        } else {
            lookup(into, id)
        },
    decreases from.len(),
{
    if from.len() > 0 {
        let rest = from.drop_last();
        assert(keys_unlike(rest)) by {
            assert forall|i: int, j: int| 0 <= i < j < rest.len() implies (#[trigger] rest[i]).0
                != (#[trigger] rest[j]).0 by {
                assert(rest[i] == from[i] && rest[j] == from[j]);
            }
        }
        lemma_metadata(into, rest, known, id);
        lemma_lookup_last(from, id);
        lemma_put(with_new_metadata(into, rest, known), from.last().0, from.last().1, id);
    }
}

/// A branch that is merged brings every result that was not there when it began, where they stay in
/// the limit, with what its steps emitted beside them, and every variable that was not there; what was
/// there stays as it was. The first mark stays, and the first `return`.
pub proof fn law_a_merge_brings_what_a_branch_wrote(
    c: StateView,
    t: StateView,
    known: Seq<Seq<char>>,
    baseline: Seq<(Seq<char>, JsonView)>,
    id: Seq<char>,
    name: Seq<char>,
)
    requires
        keys_unlike(t.step_results),
        keys_unlike(t.step_metadata),
        keys_unlike(t.variables),
    ensures
        ({
            let after = merged_branch(c, t, known, baseline);
            &&& known.contains(id) ==> lookup(after.step_results, id) == lookup(c.step_results, id)
                && lookup(after.step_metadata, id) == lookup(c.step_metadata, id)
            &&& !known.contains(id) && lookup(t.step_results, id) is Some
                && after.resource_violation is None ==> lookup(after.step_results, id) == lookup(
                t.step_results,
                id,
            )
            &&& !known.contains(id) && lookup(t.step_metadata, id) is Some ==> lookup(
                after.step_metadata,
                id,
            ) == lookup(t.step_metadata, id)
            &&& lookup(after.variables, name) == if lookup(baseline, name) is None && lookup(
                t.variables,
                name,
            ) is Some {
                lookup(t.variables, name)
            } else {
                lookup(c.variables, name)
            }
            &&& after.return_signal == if c.return_signal is Some {
                c.return_signal
            } else {
                t.return_signal
            }
            &&& after.last_error == if c.last_error is Some {
                c.last_error
            } else {
                t.last_error
            }
            &&& after.plugin_error == if c.plugin_error is Some {
                c.plugin_error
            } else {
                t.plugin_error
            }
            &&& after.callee_error == if c.callee_error is Some {
                c.callee_error
            } else {
                t.callee_error
            }
            &&& t.resource_violation is Some ==> after.resource_violation is Some
        }),
{
    lemma_results(c, t.step_results, known, id);
    let s = with_new_results(c, t.step_results, known);
    lemma_metadata(s.step_metadata, t.step_metadata, known, id);
    lemma_variables(s.variables, t.variables, baseline, name);
}

/// Where a branch, and only that branch, brings a result that was not there, the result is there behind
/// the `parallel` step, if everything stays in the limits; and a result that was there is as it was.
pub proof fn law_a_parallel_step_leaves_what_its_branches_wrote(
    base: StateView,
    branches: Seq<Option<JoinedView>>,
    i: int,
    id: Seq<char>,
)
    requires
        forall|j: int|
            0 <= j < branches.len() && (#[trigger] branches[j]) is Some ==> keys_unlike(
                branches[j]->0.state.step_results,
            ),
    ensures
        keys_of(base.step_results).contains(id) ==> lookup(
            merged_branches(base, branches).step_results,
            id,
        ) == lookup(base.step_results, id),
        0 <= i < branches.len() && branches[i] is Some && !keys_of(base.step_results).contains(id)
            && lookup(branches[i]->0.state.step_results, id) is Some && (forall|j: int|
            0 <= j < branches.len() && j != i && (#[trigger] branches[j]) is Some ==> lookup(
                branches[j]->0.state.step_results,
                id,
            ) is None) && merged_branches(base, branches).resource_violation is None ==> lookup(
            merged_branches(base, branches).step_results,
            id,
        ) == lookup(branches[i]->0.state.step_results, id),
    decreases branches.len(),
{
    if branches.len() > 0 {
        let rest = branches.drop_last();
        let before = merged_branches(base, rest);
        let known = keys_of(base.step_results);
        assert forall|j: int|
            0 <= j < rest.len() && (#[trigger] rest[j]) is Some implies keys_unlike(
            rest[j]->0.state.step_results,
        ) by {
            assert(rest[j] == branches[j]);
        }
        law_a_parallel_step_leaves_what_its_branches_wrote(base, rest, i, id);
        let last = branches.last();
        assert(branches[branches.len() - 1] == last);
        if let Some(b) = last {
            lemma_results(before, b.state.step_results, known, id);
        }
        if 0 <= i < branches.len() && branches[i] is Some && !known.contains(id) && lookup(
            branches[i]->0.state.step_results,
            id,
        ) is Some && (forall|j: int|
            0 <= j < branches.len() && j != i && (#[trigger] branches[j]) is Some ==> lookup(
                branches[j]->0.state.step_results,
                id,
            ) is None) && merged_branches(base, branches).resource_violation is None {
            assert(before.resource_violation is None);
            if i < rest.len() {
                assert(rest[i] == branches[i]);
                assert forall|j: int|
                    0 <= j < rest.len() && j != i && (#[trigger] rest[j]) is Some implies lookup(
                    rest[j]->0.state.step_results,
                    id,
                ) is None by {
                    assert(rest[j] == branches[j]);
                }
                if let Some(b) = last {
                    assert(lookup(b.state.step_results, id) is None);
                }
            }
        }
    }
}

/// A variable that a step of a wave introduces, and no other step of it, is there when the wave has been
/// merged; one that was there before the wave has its value.
pub proof fn law_a_wave_leaves_new_variables(
    c: StateView,
    tasks: Seq<WaveTaskView>,
    baseline: Seq<(Seq<char>, JsonView)>,
    i: int,
    name: Seq<char>,
)
    requires
        forall|j: int|
            0 <= j < tasks.len() ==> keys_unlike((#[trigger] tasks[j]).state.variables),
    ensures
        lookup(baseline, name) is Some ==> lookup(
            merged_tasks(c, tasks, baseline).variables,
            name,
        ) == lookup(c.variables, name),
        0 <= i < tasks.len() && lookup(baseline, name) is None && lookup(
            tasks[i].state.variables,
            name,
        ) is Some && (forall|j: int|
            0 <= j < tasks.len() && j != i ==> lookup((#[trigger] tasks[j]).state.variables, name)
                is None) ==> lookup(merged_tasks(c, tasks, baseline).variables, name) == lookup(
            tasks[i].state.variables,
            name,
        ),
    decreases tasks.len(),
{
    if tasks.len() > 0 {
        let rest = tasks.drop_last();
        let t = tasks.last();
        let before = merged_tasks(c, rest, baseline);
        assert(tasks[tasks.len() - 1] == t);
        assert forall|j: int| 0 <= j < rest.len() implies keys_unlike(
            (#[trigger] rest[j]).state.variables,
        ) by {
            assert(rest[j] == tasks[j]);
        }
        law_a_wave_leaves_new_variables(c, rest, baseline, i, name);
        lemma_variables(before.variables, t.state.variables, baseline, name);
        if 0 <= i < rest.len() {
            assert(rest[i] == tasks[i]);
            if forall|j: int|
                0 <= j < tasks.len() && j != i ==> lookup(
                    (#[trigger] tasks[j]).state.variables,
                    name,
                ) is None {
                assert forall|j: int| 0 <= j < rest.len() && j != i implies lookup(
                    (#[trigger] rest[j]).state.variables,
                    name,
                ) is None by {
                    assert(rest[j] == tasks[j]);
                }
            }
        }
    }
}

/// Where every key beside the value is declared, a step comes to the same as where nothing is known of
/// what it declares.
pub proof fn law_declared_keys_are_kept(
    s: StateView,
    step: StepView,
    value: JsonView,
    metadata: Seq<(Seq<char>, JsonView)>,
    allowed: Seq<Seq<char>>,
)
    requires
        forall|j: int| 0 <= j < metadata.len() ==> allowed.contains((#[trigger] metadata[j]).0),
    ensures
        finished(
            s,
            step.id,
            step.step_type,
            step.store_to_variable,
            BodyView::Gave { value, metadata },
            Some(allowed),
        ) == finished(
            s,
            step.id,
            step.step_type,
            step.store_to_variable,
            BodyView::Gave { value, metadata },
            None,
        ),
{
    lemma_all_declared(metadata, allowed, 0);
}

proof fn lemma_all_declared(
    metadata: Seq<(Seq<char>, JsonView)>,
    allowed: Seq<Seq<char>>,
    i: int,
)
    requires
        0 <= i <= metadata.len(),
        forall|j: int| 0 <= j < metadata.len() ==> allowed.contains((#[trigger] metadata[j]).0),
    ensures
        undeclared_key(metadata, allowed, i) is None,
    decreases metadata.len() - i,
{
    if i < metadata.len() {
        assert(allowed.contains(metadata[i].0));
        lemma_all_declared(metadata, allowed, i + 1);
    }
}

/// The first step of a wave, in their order, that returned gives the wave its `return`, and the first
/// that left a message its message; a state that had one keeps it.
pub proof fn law_the_first_of_a_wave_wins(
    c: StateView,
    tasks: Seq<WaveTaskView>,
    baseline: Seq<(Seq<char>, JsonView)>,
    i: int,
)
    requires
        0 <= i < tasks.len(),
    ensures
        c.return_signal is Some ==> merged_tasks(c, tasks, baseline).return_signal
            == c.return_signal,
        c.return_signal is None && tasks[i].state.return_signal is Some && (forall|j: int|
            0 <= j < i ==> (#[trigger] tasks[j]).state.return_signal is None) ==> merged_tasks(
            c,
            tasks,
            baseline,
        ).return_signal == tasks[i].state.return_signal,
        c.last_error is Some ==> merged_tasks(c, tasks, baseline).last_error == c.last_error,
        c.last_error is None && tasks[i].state.last_error is Some && (forall|j: int|
            0 <= j < i ==> (#[trigger] tasks[j]).state.last_error is None) ==> merged_tasks(
            c,
            tasks,
            baseline,
        ).last_error == tasks[i].state.last_error,
        merged_tasks(c, tasks, baseline).steps == c.steps,
    decreases tasks.len(),
{
    let rest = tasks.drop_last();
    assert(tasks[tasks.len() - 1] == tasks.last());
    if i < rest.len() {
        assert(rest[i] == tasks[i]);
        law_the_first_of_a_wave_wins(c, rest, baseline, i);
        if forall|j: int| 0 <= j < i ==> (#[trigger] tasks[j]).state.return_signal is None {
            assert forall|j: int| 0 <= j < i implies (
            #[trigger] rest[j]).state.return_signal is None by {
                assert(rest[j] == tasks[j]);
            }
        }
        if forall|j: int| 0 <= j < i ==> (#[trigger] tasks[j]).state.last_error is None {
            assert forall|j: int| 0 <= j < i implies (#[trigger] rest[j]).state.last_error is None by {
                assert(rest[j] == tasks[j]);
            }
        }
    } else {
        lemma_nothing_told(c, rest, baseline);
        if forall|j: int| 0 <= j < i ==> (#[trigger] tasks[j]).state.return_signal is None {
            assert forall|j: int| 0 <= j < rest.len() implies (
            #[trigger] rest[j]).state.return_signal is None by {
                assert(rest[j] == tasks[j]);
            }
        }
        if forall|j: int| 0 <= j < i ==> (#[trigger] tasks[j]).state.last_error is None {
            assert forall|j: int| 0 <= j < rest.len() implies (
            #[trigger] rest[j]).state.last_error is None by {
                assert(rest[j] == tasks[j]);
            }
        }
    }
}

proof fn lemma_nothing_told(
    c: StateView,
    tasks: Seq<WaveTaskView>,
    baseline: Seq<(Seq<char>, JsonView)>,
)
    ensures
        c.return_signal is Some ==> merged_tasks(c, tasks, baseline).return_signal
            == c.return_signal,
        c.last_error is Some ==> merged_tasks(c, tasks, baseline).last_error == c.last_error,
        (forall|j: int|
            0 <= j < tasks.len() ==> (#[trigger] tasks[j]).state.return_signal is None)
            ==> merged_tasks(c, tasks, baseline).return_signal == c.return_signal,
        (forall|j: int| 0 <= j < tasks.len() ==> (#[trigger] tasks[j]).state.last_error is None)
            ==> merged_tasks(c, tasks, baseline).last_error == c.last_error,
        merged_tasks(c, tasks, baseline).steps == c.steps,
    decreases tasks.len(),
{
    if tasks.len() > 0 {
        let rest = tasks.drop_last();
        assert(tasks[tasks.len() - 1] == tasks.last());
        lemma_nothing_told(c, rest, baseline);
        if forall|j: int|
            0 <= j < tasks.len() ==> (#[trigger] tasks[j]).state.return_signal is None {
            assert forall|j: int| 0 <= j < rest.len() implies (
            #[trigger] rest[j]).state.return_signal is None by {
                assert(rest[j] == tasks[j]);
            }
        }
        if forall|j: int| 0 <= j < tasks.len() ==> (#[trigger] tasks[j]).state.last_error is None {
            assert forall|j: int| 0 <= j < rest.len() implies (
            #[trigger] rest[j]).state.last_error is None by {
                assert(rest[j] == tasks[j]);
            }
        }
    }
}

/// An execution begins with the steps of its action and nothing else: no result, no variable, no mark, no
/// byte charged.
pub proof fn law_an_execution_begins_empty(
    plugin: Seq<char>,
    steps: Seq<StepView>,
    limits: RuntimeLimits,
    depth: u32,
    key: Seq<char>,
)
    ensures
        ({
            let s = fresh(plugin, steps, limits, depth);
            &&& s.plugin_name == plugin
            &&& s.steps == steps
            &&& s.limits == limits
            &&& s.invoke_depth == depth
            &&& s.step_results_bytes == 0
            &&& lookup(s.step_results, key) is None
            &&& lookup(s.step_metadata, key) is None
            &&& lookup(s.variables, key) is None
            &&& s.first_step_id is None
            &&& s.last_error is None
            &&& s.plugin_error is None
            &&& s.resource_violation is None
            &&& s.callee_error is None
            &&& !s.cancelled
            &&& s.return_signal is None
            &&& s.error_stack.len() == 0
            &&& s.foreach_stack.len() == 0
            &&& s.body_secrets is None
            &&& s.current_step_idx is None
        }),
{
}

/// What a plugin threw is told with its code, and with its message where it has one.
pub proof fn law_what_was_thrown_is_told(s: StateView, step: StepView, p: ThrownView)
    ensures
        ({
            let told = finished(
                s,
                step.id,
                step.step_type,
                step.store_to_variable,
                BodyView::Thrown(p),
                None,
            ).0.last_error;
            &&& p.message.len() == 0 ==> told == Some("PluginError "@ + p.code)
            &&& p.message.len() > 0 ==> told == Some("PluginError "@ + p.code + ": "@ + p.message)
        }),
{
}

/// A text in which `{{`, white space or none, and `vars.` follow on each other refers to a variable,
/// whatever stands around them.
pub proof fn law_a_template_refers_to_a_variable(
    a: Seq<char>,
    blank: Seq<char>,
    b: Seq<char>,
)
    requires
        forall|i: int| 0 <= i < blank.len() ==> is_white_space(#[trigger] blank[i]),
    ensures
        refers_to_vars(JsonView::String(a + "{{"@ + blank + "vars."@ + b)),
        refers_to_vars(JsonView::String(a + "$vars."@ + b)),
{
    let s = a + "{{"@ + blank + "vars."@ + b;
    reveal_strlit("{{");
    let i = a.len() as int;
    let j = (a.len() + 2 + blank.len()) as int;
    assert(s.subrange(i, i + 2) =~= "{{"@);
    assert(s.subrange(j, j + "vars."@.len()) =~= "vars."@);
    assert forall|k: int| i + 2 <= k < j implies is_white_space(#[trigger] s[k]) by {
        assert(s[k] == blank[k - i - 2]);
    }
    assert(template_vars_at(s, i, j));
    let t = a + "$vars."@ + b;
    assert(t.subrange(i, i + "$vars."@.len()) =~= "$vars."@);
    assert(stands_at(t, "$vars."@, i));
}

proof fn lemma_new_results_keep_the_first(
    c: StateView,
    results: Seq<(Seq<char>, JsonView)>,
    known: Seq<Seq<char>>,
)
    ensures
        c.first_step_id is Some ==> with_new_results(c, results, known).first_step_id
            == c.first_step_id,
    decreases results.len(),
{
    if results.len() > 0 {
        lemma_new_results_keep_the_first(c, results.drop_last(), known);
    }
}

/// The first step with a result stays the first, whatever a branch brings; where there was none, a branch
/// that has one brings one.
pub proof fn law_the_first_step_stays_first(
    c: StateView,
    t: StateView,
    known: Seq<Seq<char>>,
    baseline: Seq<(Seq<char>, JsonView)>,
)
    ensures
        c.first_step_id is Some ==> merged_branch(c, t, known, baseline).first_step_id
            == c.first_step_id,
        t.first_step_id is Some ==> merged_branch(c, t, known, baseline).first_step_id is Some,
{
    lemma_new_results_keep_the_first(c, t.step_results, known);
}

/// A step that reads streams which were split reads its own branches of them, and is else run on the state
/// as it is.
pub proof fn law_a_step_reads_its_own_branches(
    s: StateView,
    plan: PlanView,
    steps: Seq<StepView>,
    fanout: Map<usize, Seq<u32>>,
    idx: usize,
)
    ensures
        with_overrides(s, plan, steps, fanout, idx).active_fanout_overrides == overrides(
            plan,
            steps,
            fanout,
            idx,
            plan.deps[idx as int],
        ),
        (StateView {
            active_fanout_overrides: s.active_fanout_overrides,
            ..with_overrides(s, plan, steps, fanout, idx)
        }) == s,
{
}

/// Nothing refers to a variable but a text that names one.
pub proof fn law_a_text_without_variables_refers_to_none(s: Seq<char>)
    requires
        refers_to_vars(JsonView::String(s)),
    ensures
        has_text(s, "vars."@) || has_text(s, "$vars."@),
        has_text(s, "{{"@) || has_text(s, "$vars."@),
{
    if has_template_vars(s) {
        let (i, j) = choose|i: int, j: int| #[trigger] template_vars_at(s, i, j);
        assert(stands_at(s, "vars."@, j));
        assert(stands_at(s, "{{"@, i));
    }
}

} // verus!
