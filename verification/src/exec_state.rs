//! The state of one execution of an action.

use indexmap::IndexMap;
use vstd::prelude::*;
use vstd::utf8::encode_utf8;

use crate::duplicate::Duplicate;
use crate::error::{error_view, share, ErrorView, KernelError};
use crate::index_map::{copy, entries, get, insert, lemma_put, new_map, put};
use crate::json::{
    entry_views, json_views, lemma_array_view, lemma_object_view, lookup, Json, JsonView,
};
use crate::limits::RuntimeLimits;
use crate::manifest::{StepDef, StepView};
use crate::native_impls::Held;
use crate::table::Table;

verus! {

/// What a step threw.
#[derive(Debug)]
pub struct PluginErrorPayload {
    pub code: String,
    pub message: String,
    pub params: Json,
}

/// What a [`PluginErrorPayload`] stands for.
pub struct ThrownView {
    pub code: Seq<char>,
    pub message: Seq<char>,
    pub params: JsonView,
}

impl DeepView for PluginErrorPayload {
    type V = ThrownView;

    open spec fn deep_view(&self) -> ThrownView {
        ThrownView { code: self.code@, message: self.message@, params: self.params@ }
    }
}

impl Duplicate for PluginErrorPayload {
    fn duplicate(&self) -> (r: Self) {
        PluginErrorPayload {
            code: self.code.clone(),
            message: self.message.clone(),
            params: self.params.clone(),
        }
    }
}

/// A limit that was run into.
#[derive(Debug, Clone, Copy, PartialEq, Eq, Structural)]
pub enum ResourceViolation {
    FuelExhausted { budget: u64 },
    MemoryLimit { bytes: usize },
    StepResultsLimit { limit_bytes: usize, attempted_bytes: usize },
}

/// What an action that a step invoked failed with.
#[derive(Debug)]
pub struct CalleeError {
    pub plugin: String,
    pub action: String,
    pub source: std::sync::Arc<KernelError>,
}

/// What a [`CalleeError`] stands for.
pub struct CalleeView {
    pub plugin: Seq<char>,
    pub action: Seq<char>,
    pub source: ErrorView,
}

impl DeepView for CalleeError {
    type V = CalleeView;

    open spec fn deep_view(&self) -> CalleeView {
        CalleeView {
            plugin: self.plugin@,
            action: self.action@,
            source: error_view(*self.source),
        }
    }
}

impl Duplicate for CalleeError {
    fn duplicate(&self) -> (r: Self) {
        CalleeError {
            plugin: self.plugin.clone(),
            action: self.action.clone(),
            source: share(&self.source),
        }
    }
}

/// The state of one execution of an action.
pub struct ExecutionState {
    pub plugin_name: String,
    /// The steps of the action, and behind them those that a step being run carries.
    pub steps: Vec<StepDef>,
    pub step_results: IndexMap<String, Json>,
    /// What steps emitted beside their results: an object for each step.
    pub step_metadata: IndexMap<String, Json>,
    pub variables: IndexMap<String, Json>,
    pub first_step_id: Option<String>,
    /// Bytes that were charged for step results.
    pub step_results_bytes: usize,
    pub last_error: Option<String>,
    pub plugin_error: Option<PluginErrorPayload>,
    pub resource_violation: Option<ResourceViolation>,
    pub callee_error: Option<CalleeError>,
    /// The step that failed last stopped on a cancellation.
    pub cancelled: bool,
    /// The value that a `return` step gave.
    pub return_signal: Option<Json>,
    /// The messages of the failures that are being handled.
    pub error_stack: Vec<String>,
    /// The value at hand in each loop that is being run.
    pub foreach_stack: Vec<Option<Json>>,
    /// The handles that stand in for the results of producers with several consumers.
    pub active_fanout_overrides: Table<String, Held<u32>>,
    /// The handles that long-running steps write into.
    pub dataflow_outputs: Table<String, Held<u32>>,
    pub current_step_idx: Option<usize>,
    pub body_secrets: Option<Json>,
    pub limits: RuntimeLimits,
    pub invoke_depth: u32,
}

/// What an [`ExecutionState`] stands for.
#[verifier::ext_equal]
pub struct StateView {
    pub plugin_name: Seq<char>,
    pub steps: Seq<StepView>,
    pub step_results: Seq<(Seq<char>, JsonView)>,
    pub step_metadata: Seq<(Seq<char>, JsonView)>,
    pub variables: Seq<(Seq<char>, JsonView)>,
    pub first_step_id: Option<Seq<char>>,
    pub step_results_bytes: usize,
    pub last_error: Option<Seq<char>>,
    pub plugin_error: Option<ThrownView>,
    pub resource_violation: Option<ResourceViolation>,
    pub callee_error: Option<CalleeView>,
    pub cancelled: bool,
    pub return_signal: Option<JsonView>,
    pub error_stack: Seq<Seq<char>>,
    pub foreach_stack: Seq<Option<JsonView>>,
    pub active_fanout_overrides: Map<Seq<char>, u32>,
    pub dataflow_outputs: Map<Seq<char>, u32>,
    pub current_step_idx: Option<usize>,
    pub body_secrets: Option<JsonView>,
    pub limits: RuntimeLimits,
    pub invoke_depth: u32,
}

impl View for ExecutionState {
    type V = StateView;

    open spec fn view(&self) -> StateView {
        StateView {
            plugin_name: self.plugin_name@,
            steps: self.steps.deep_view(),
            step_results: entries(self.step_results),
            step_metadata: entries(self.step_metadata),
            variables: entries(self.variables),
            first_step_id: self.first_step_id.deep_view(),
            step_results_bytes: self.step_results_bytes,
            last_error: self.last_error.deep_view(),
            plugin_error: self.plugin_error.deep_view(),
            resource_violation: self.resource_violation,
            callee_error: self.callee_error.deep_view(),
            cancelled: self.cancelled,
            return_signal: self.return_signal.deep_view(),
            error_stack: self.error_stack.deep_view(),
            foreach_stack: self.foreach_stack.deep_view(),
            active_fanout_overrides: self.active_fanout_overrides.map(),
            dataflow_outputs: self.dataflow_outputs.map(),
            current_step_idx: self.current_step_idx,
            body_secrets: self.body_secrets.deep_view(),
            limits: self.limits,
            invoke_depth: self.invoke_depth,
        }
    }
}

/// About how many bytes a value takes: its texts, and a word for each value.
pub open spec fn weight(j: JsonView) -> nat
    decreases j,
{
    match j {
        JsonView::String(s) => 8 + encode_utf8(s).len(),
        JsonView::Array(s) => 8 + list_weight(s),
        JsonView::Object(s) => 8 + entries_weight(s),
        _ => 8,
    }
}

/// About how many bytes the items of a list take.
pub open spec fn list_weight(s: Seq<JsonView>) -> nat
    decreases s,
{
    if s.len() == 0 {
        0
    } else {
        list_weight(s.drop_last()) + weight(s.last())
    }
}

/// About how many bytes the entries of an object take.
pub open spec fn entries_weight(s: Seq<(Seq<char>, JsonView)>) -> nat
    decreases s,
{
    if s.len() == 0 {
        0
    } else {
        entries_weight(s.drop_last()) + encode_utf8(s.last().0).len() + weight(s.last().1)
    }
}

/// The number, or the largest that fits.
pub open spec fn capped(n: nat) -> usize {
    if n <= usize::MAX {
        n as usize
    } else {
        usize::MAX
    }
}

fn sum(a: usize, b: usize) -> (r: usize)
    ensures
        r == capped((a + b) as nat),
{
    a.saturating_add(b)
}

/// About how many bytes a value takes.
pub fn approx_value_bytes(j: &Json) -> (r: usize)
    ensures
        r == capped(weight(j@)),
    decreases j,
{
    match j {
        Json::String(s) => {
            let n: usize = s.as_str().as_bytes().len();
            sum(8, n)
        },
        Json::Array(v) => {
            proof {
                lemma_array_view(*v);
            }
            let ghost views = json_views(v@);
            let mut total: usize = 0;
            let mut i: usize = 0;
            assert(views.take(0) =~= Seq::empty());
            while i < v.len()
                invariant
                    i <= v@.len(),
                    *j == Json::Array(*v),
                    views == json_views(v@),
                    total == capped(list_weight(views.take(i as int))),
                decreases v@.len() - i,
            {
                proof {
                    assert(decreases_to!(*j => j->Array_0));
                    assert(decreases_to!(j->Array_0 => v@[i as int]));
                    assert(views.take(i as int + 1).drop_last() =~= views.take(i as int));
                    assert(views[i as int] == v@[i as int]@);
                }
                total = sum(total, approx_value_bytes(&v[i]));
                i += 1;
            }
            assert(views.take(views.len() as int) =~= views);
            sum(8, total)
        },
        Json::Object(v) => {
            proof {
                lemma_object_view(*v);
            }
            let ghost views = entry_views(v@);
            let mut total: usize = 0;
            let mut i: usize = 0;
            assert(views.take(0) =~= Seq::empty());
            while i < v.len()
                invariant
                    i <= v@.len(),
                    *j == Json::Object(*v),
                    views == entry_views(v@),
                    total == capped(entries_weight(views.take(i as int))),
                decreases v@.len() - i,
            {
                proof {
                    assert(decreases_to!(*j => j->Object_0));
                    assert(decreases_to!(j->Object_0 => v@[i as int]));
                    assert(decreases_to!(v@[i as int] => v@[i as int].1));
                    assert(views.take(i as int + 1).drop_last() =~= views.take(i as int));
                    assert(views[i as int] == (v@[i as int].0@, v@[i as int].1@));
                }
                let key: usize = v[i].0.as_str().as_bytes().len();
                total = sum(sum(total, key), approx_value_bytes(&v[i].1));
                i += 1;
            }
            assert(views.take(views.len() as int) =~= views);
            sum(8, total)
        },
        _ => 8,
    }
}

/// The state when a step's result has been charged and stored, or, where the charge is more than the
/// limit allows, refused and marked so.
pub open spec fn stored(s: StateView, id: Seq<char>, value: JsonView) -> StateView {
    let attempted = capped((s.step_results_bytes + capped(weight(value))) as nat);
    if attempted > s.limits.max_step_results_bytes {
        StateView {
            resource_violation: Some(
                ResourceViolation::StepResultsLimit {
                    limit_bytes: s.limits.max_step_results_bytes,
                    attempted_bytes: attempted,
                },
            ),
            ..s
        }
    } else {
        StateView {
            step_results: put(s.step_results, id, value),
            step_results_bytes: attempted,
            first_step_id: if s.first_step_id is Some {
                s.first_step_id
            } else {
                Some(id)
            },
            ..s
        }
    }
}

impl ExecutionState {
    /// No table has two entries under one key.
    pub open spec fn wf(&self) -> bool {
        self.active_fanout_overrides.wf() && self.dataflow_outputs.wf()
    }

    /// Charges and stores a step's result, or refuses it.
    pub fn store_step_result(&mut self, step_id: &str, value: Json)
        requires
            old(self).wf(),
        ensures
            final(self).wf(),
            final(self)@ == stored(old(self)@, step_id@, value@),
    {
        let attempted: usize = sum(self.step_results_bytes, approx_value_bytes(&value));
        if attempted > self.limits.max_step_results_bytes {
            self.resource_violation = Some(
                ResourceViolation::StepResultsLimit {
                    limit_bytes: self.limits.max_step_results_bytes,
                    attempted_bytes: attempted,
                },
            );
            return ;
        }
        insert(&mut self.step_results, step_id.to_owned(), value);
        self.step_results_bytes = attempted;
        if self.first_step_id.is_none() {
            self.first_step_id = Some(step_id.to_owned());
        }
    }

    /// A state in which nothing has run.
    pub fn new(
        plugin_name: String,
        steps: Vec<StepDef>,
        limits: RuntimeLimits,
        invoke_depth: u32,
    ) -> (r: Self)
        ensures
            r.wf(),
            r@ == fresh(plugin_name@, steps.deep_view(), limits, invoke_depth),
    {
        let r = ExecutionState {
            plugin_name,
            steps,
            step_results: new_map(),
            step_metadata: new_map(),
            variables: new_map(),
            first_step_id: None,
            step_results_bytes: 0,
            last_error: None,
            plugin_error: None,
            resource_violation: None,
            callee_error: None,
            cancelled: false,
            return_signal: None,
            error_stack: Vec::new(),
            foreach_stack: Vec::new(),
            active_fanout_overrides: Table::new(),
            dataflow_outputs: Table::new(),
            current_step_idx: None,
            body_secrets: None,
            limits,
            invoke_depth,
        };
        proof {
            assert(r.error_stack.deep_view() =~= Seq::empty());
            assert(r.foreach_stack.deep_view() =~= Seq::empty());
        }
        r
    }

    /// A copy for a task of its own.
    pub fn fork(&self) -> (r: Self)
        requires
            self.wf(),
        ensures
            r.wf(),
            r@ == self@,
    {
        ExecutionState {
            plugin_name: self.plugin_name.clone(),
            steps: self.steps.duplicate(),
            step_results: copy(&self.step_results),
            step_metadata: copy(&self.step_metadata),
            variables: copy(&self.variables),
            first_step_id: self.first_step_id.duplicate(),
            step_results_bytes: self.step_results_bytes,
            last_error: self.last_error.duplicate(),
            plugin_error: self.plugin_error.duplicate(),
            resource_violation: self.resource_violation,
            callee_error: self.callee_error.duplicate(),
            cancelled: self.cancelled,
            return_signal: self.return_signal.duplicate(),
            error_stack: self.error_stack.duplicate(),
            foreach_stack: self.foreach_stack.duplicate(),
            active_fanout_overrides: self.active_fanout_overrides.duplicate_table(),
            dataflow_outputs: self.dataflow_outputs.duplicate_table(),
            current_step_idx: self.current_step_idx,
            body_secrets: self.body_secrets.duplicate(),
            limits: RuntimeLimits { ..self.limits },
            invoke_depth: self.invoke_depth,
        }
    }

    /// The result of a step.
    pub fn step_result(&self, step_id: &str) -> (r: Option<&Json>)
        ensures
            match r {
                Some(v) => lookup(self@.step_results, step_id@) == Some(v@),
                None => lookup(self@.step_results, step_id@) is None,
            },
    {
        get(&self.step_results, step_id)
    }

    /// Sets a variable.
    pub fn set_variable(&mut self, name: String, value: Json)
        requires
            old(self).wf(),
        ensures
            final(self).wf(),
            final(self)@ == (StateView {
                variables: put(old(self)@.variables, name@, value@),
                ..old(self)@
            }),
    {
        insert(&mut self.variables, name, value);
    }
}

/// A state in which nothing has run.
pub open spec fn fresh(
    plugin_name: Seq<char>,
    steps: Seq<StepView>,
    limits: RuntimeLimits,
    invoke_depth: u32,
) -> StateView {
    StateView {
        plugin_name,
        steps,
        step_results: Seq::empty(),
        step_metadata: Seq::empty(),
        variables: Seq::empty(),
        first_step_id: None,
        step_results_bytes: 0,
        last_error: None,
        plugin_error: None,
        resource_violation: None,
        callee_error: None,
        cancelled: false,
        return_signal: None,
        error_stack: Seq::empty(),
        foreach_stack: Seq::empty(),
        active_fanout_overrides: Map::empty(),
        dataflow_outputs: Map::empty(),
        current_step_idx: None,
        body_secrets: None,
        limits,
        invoke_depth,
    }
}

/// What is charged for step results never passes the limit, nor shrinks; and a result is there after
/// it was stored, or else the mark of the limit is.
pub proof fn law_results_stay_in_the_limit(s: StateView, id: Seq<char>, value: JsonView)
    ensures
        s.step_results_bytes <= s.limits.max_step_results_bytes ==> stored(
            s,
            id,
            value,
        ).step_results_bytes <= s.limits.max_step_results_bytes,
        s.step_results_bytes <= stored(s, id, value).step_results_bytes,
        stored(s, id, value).limits == s.limits,
        lookup(stored(s, id, value).step_results, id) == Some(value) || (stored(
            s,
            id,
            value,
        ).resource_violation is Some && stored(s, id, value).step_results == s.step_results),
{
    lemma_put(s.step_results, id, value, id);
}

} // verus!
