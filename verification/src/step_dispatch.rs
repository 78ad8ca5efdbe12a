//! What surrounds the body of a step: everything but the body itself is the same for all steps.

use indexmap::IndexMap;
use vstd::prelude::*;

use crate::error::{callee_text, callee_words, error_view, KernelError};
use crate::exec_state::{
    stored, CalleeError, CalleeView, ExecutionState, PluginErrorPayload, StateView, ThrownView,
};
use crate::index_map::{entries, get, insert, into_entries, place, put};
use crate::json::{entry_views, lemma_object_view, lookup, Json, JsonView};
use crate::kernel::access::{declared_keys, BodyOwner, StepTypeAccess};
use crate::manifest::{StepDef, StepView};
use crate::registry::{at, RegistryView};
use crate::text::{cat2, cat3, cat4, cat5, debug_list, debug_list_text, decimal, decimal_text, same, texts};

verus! {

/// What the body of a step gave.
pub struct StepOutput {
    pub value: Json,
    pub metadata: IndexMap<String, Json>,
}

/// Why the body of a step gave nothing.
pub enum StepError {
    Failed(String),
    Thrown(PluginErrorPayload),
    Cancelled,
    Callee { plugin: String, action: String, source: std::sync::Arc<KernelError> },
}

/// What came of the body of a step.
pub enum BodyView {
    Gave { value: JsonView, metadata: Seq<(Seq<char>, JsonView)> },
    Failed(Seq<char>),
    Thrown(ThrownView),
    Cancelled,
    Callee(CalleeView),
}

/// What came of the body of a step, as a plain value.
pub open spec fn body_view(r: Result<StepOutput, StepError>) -> BodyView {
    match r {
        Ok(o) => BodyView::Gave { value: o.value@, metadata: entries(o.metadata) },
        Err(StepError::Failed(m)) => BodyView::Failed(m@),
        Err(StepError::Thrown(p)) => BodyView::Thrown(p.deep_view()),
        Err(StepError::Cancelled) => BodyView::Cancelled,
        Err(StepError::Callee { plugin, action, source }) => BodyView::Callee(
            CalleeView { plugin: plugin@, action: action@, source: error_view(*source) },
        ),
    }
}

/// What has to be done before the body of a step runs.
pub enum DispatchStart<'a> {
    /// There is no such step; the dispatch is over.
    OutOfBounds,
    /// The body belongs to another plugin, whose secrets it is to see.
    Pull(&'a BodyOwner),
    /// The body can run.
    Ready,
}

/// The state when the dispatch of the step at `idx` has begun.
pub open spec fn begun(s: StateView, idx: usize) -> StateView {
    if idx < s.steps.len() {
        StateView { current_step_idx: Some(idx), ..s }
    } else {
        StateView {
            last_error: Some("Step index "@ + decimal(idx as nat) + " out of bounds"@),
            ..s
        }
    }
}

/// Begins the dispatch of a step.
pub fn begin_dispatch<'a>(
    state: &mut ExecutionState,
    step_index: usize,
    access: &'a StepTypeAccess,
) -> (r: DispatchStart<'a>)
    requires
        old(state).wf(),
        access.wf(),
    ensures
        final(state).wf(),
        final(state)@ == begun(old(state)@, step_index),
        match r {
            DispatchStart::OutOfBounds => step_index >= old(state)@.steps.len(),
            DispatchStart::Pull(owner) => step_index < old(state)@.steps.len() && at(
                access.owners_view(),
                old(state)@.steps[step_index as int].step_type,
            ) == Some(owner.deep_view()),
            DispatchStart::Ready => step_index < old(state)@.steps.len() && at(
                access.owners_view(),
                old(state)@.steps[step_index as int].step_type,
            ) is None,
        },
{
    assert(state@.steps.len() == state.steps@.len());
    if step_index >= state.steps.len() {
        let n = decimal_text(step_index as u64);
        state.last_error = Some(cat3("Step index ", n.as_str(), " out of bounds"));
        return DispatchStart::OutOfBounds;
    }
    state.current_step_idx = Some(step_index);
    assert(state@.steps[step_index as int] == state.steps@[step_index as int].deep_view());
    match access.body_owner(state.steps[step_index].step_type.as_str()) {
        Some(owner) => DispatchStart::Pull(owner),
        None => DispatchStart::Ready,
    }
}

/// The state when the secrets of a body's owner have been pulled, or could not be.
pub open spec fn pulled(
    s: StateView,
    id: Seq<char>,
    step_type: Seq<char>,
    answer: Result<JsonView, Seq<char>>,
) -> StateView {
    match answer {
        Ok(v) => StateView { body_secrets: Some(v), ..s },
        Err(e) => StateView {
            current_step_idx: None,
            last_error: Some(
                "step '"@ + id + "' ("@ + step_type
                    + "): could not resolve the body owner's secrets: "@ + e,
            ),
            ..s
        },
    }
}

/// Lets a body see its owner's secrets, or ends the dispatch where they could not be had: a body is
/// not run without them. Tells whether the body can run.
pub fn secrets_pulled(
    state: &mut ExecutionState,
    step_id: &str,
    step_type: &str,
    answer: Result<Json, String>,
) -> (r: bool)
    requires
        old(state).wf(),
    ensures
        final(state).wf(),
        r == (answer is Ok),
        final(state)@ == pulled(
            old(state)@,
            step_id@,
            step_type@,
            match answer {
                Ok(v) => Ok(v@),
                Err(e) => Err(e@),
            },
        ),
{
    match answer {
        Ok(v) => {
            state.body_secrets = Some(v);
            true
        },
        Err(e) => {
            state.current_step_idx = None;
            let mut w = cat4("step '", step_id, "' (", step_type);
            w.append("): could not resolve the body owner's secrets: ");
            w.append(e.as_str());
            state.last_error = Some(w);
            false
        },
    }
}

/// The state right before a body runs: without the marks of an earlier dispatch.
pub open spec fn body_begun(s: StateView) -> StateView {
    StateView { cancelled: false, callee_error: None, ..s }
}

/// Clears the marks of an earlier dispatch, right before a body runs.
pub fn body_starts(state: &mut ExecutionState)
    requires
        old(state).wf(),
    ensures
        final(state).wf(),
        final(state)@ == body_begun(old(state)@),
{
    state.cancelled = false;
    state.callee_error = None;
}

/// The first key, from `i` on, that is not among the allowed ones.
pub open spec fn undeclared_key(
    metadata: Seq<(Seq<char>, JsonView)>,
    allowed: Seq<Seq<char>>,
    i: int,
) -> Option<Seq<char>>
    decreases metadata.len() - i,
{
    if i < 0 || i >= metadata.len() {
        None
    } else if !allowed.contains(metadata[i].0) {
        Some(metadata[i].0)
    } else {
        undeclared_key(metadata, allowed, i + 1)
    }
}

/// The words for a key that a step type does not declare.
pub open spec fn undeclared_text(
    id: Seq<char>,
    step_type: Seq<char>,
    key: Seq<char>,
    allowed: Seq<Seq<char>>,
) -> Seq<char> {
    "step '"@ + id + "' (type '"@ + step_type + "') emitted undeclared metadata key '"@ + key
        + "'; metadataSchema declares: "@ + debug_list(allowed)
}

/// Entries with others put over them, one after the other.
pub open spec fn put_all(
    into: Seq<(Seq<char>, JsonView)>,
    from: Seq<(Seq<char>, JsonView)>,
) -> Seq<(Seq<char>, JsonView)>
    decreases from.len(),
{
    if from.len() == 0 {
        into
    } else {
        put(put_all(into, from.drop_last()), from.last().0, from.last().1)
    }
}

/// The entries of a value that is an object, and none of any other.
pub open spec fn entries_of(v: Option<JsonView>) -> Seq<(Seq<char>, JsonView)> {
    match v {
        Some(JsonView::Object(es)) => es,
        _ => Seq::empty(),
    }
}

/// The state with what a step emitted beside its result.
pub open spec fn with_metadata(
    s: StateView,
    id: Seq<char>,
    metadata: Seq<(Seq<char>, JsonView)>,
) -> StateView {
    if metadata.len() == 0 {
        s
    } else {
        StateView {
            step_metadata: put(
                s.step_metadata,
                id,
                JsonView::Object(put_all(entries_of(lookup(s.step_metadata, id)), metadata)),
            ),
            ..s
        }
    }
}

/// The state with a step's result in a variable.
pub open spec fn mirrored(s: StateView, id: Seq<char>, variable: Option<Seq<char>>) -> StateView {
    match variable {
        Some(name) => StateView {
            variables: put(
                s.variables,
                name,
                match lookup(s.step_results, id) {
                    Some(v) => v,
                    None => JsonView::Null,
                },
            ),
            ..s
        },
        None => s,
    }
}

/// The message of what a step threw.
pub open spec fn thrown_text(p: ThrownView) -> Seq<char> {
    if p.message.len() == 0 {
        "PluginError "@ + p.code
    } else {
        "PluginError "@ + p.code + ": "@ + p.message
    }
}

/// The state when the body of a step is over, and whether the step succeeded. A result is stored,
/// what was emitted beside it is kept where all of it is declared, and the result is mirrored into
/// the step's variable. Anything else leaves its message, and its mark where it has one.
pub open spec fn finished(
    s: StateView,
    id: Seq<char>,
    step_type: Seq<char>,
    variable: Option<Seq<char>>,
    body: BodyView,
    allowed: Option<Seq<Seq<char>>>,
) -> (StateView, bool) {
    let s0 = StateView { body_secrets: None, current_step_idx: None, ..s };
    match body {
        BodyView::Gave { value, metadata } => {
            let s1 = stored(s0, id, value);
            if allowed is Some && undeclared_key(metadata, allowed->0, 0) is Some {
                (
                    StateView {
                        last_error: Some(
                            undeclared_text(
                                id,
                                step_type,
                                undeclared_key(metadata, allowed->0, 0)->0,
                                allowed->0,
                            ),
                        ),
                        ..s1
                    },
                    false,
                )
            } else {
                (mirrored(with_metadata(s1, id, metadata), id, variable), true)
            }
        },
        BodyView::Failed(m) => (StateView { last_error: Some(m), ..s0 }, false),
        BodyView::Thrown(p) => (
            StateView { plugin_error: Some(p), last_error: Some(thrown_text(p)), ..s0 },
            false,
        ),
        BodyView::Cancelled => (
            StateView {
                last_error: Some("step '"@ + id + "' cancelled"@),
                cancelled: true,
                ..s0
            },
            false,
        ),
        BodyView::Callee(c) => (
            StateView {
                last_error: Some(callee_text(id, c.plugin, c.action) + c.source.text()),
                callee_error: Some(c),
                ..s0
            },
            false,
        ),
    }
}

proof fn lemma_place_is(s: Seq<(Seq<char>, JsonView)>, key: Seq<char>, i: int)
    requires
        0 <= i <= s.len(),
        forall|j: int| 0 <= j < i ==> (#[trigger] s[j]).0 != key,
        i < s.len() ==> s[i].0 == key,
    ensures
        place(s, key) == i,
    decreases s.len(),
{
    if i > 0 {
        assert(s[0].0 != key);
        let t = s.drop_first();
        assert forall|j: int| 0 <= j < i - 1 implies (#[trigger] t[j]).0 != key by {
            assert(t[j] == s[j + 1]);
        }
        lemma_place_is(t, key, i - 1);
    }
}

fn put_entry(v: &mut Vec<(String, Json)>, key: String, value: Json)
    ensures
        entry_views(final(v)@) == put(entry_views(old(v)@), key@, value@),
{
    let ghost views = entry_views(v@);
    let ghost k = key@;
    let ghost x = value@;
    let mut i: usize = 0;
    while i < v.len() && !same(v[i].0.as_str(), key.as_str())
        invariant
            i <= v@.len(),
            views == entry_views(v@),
            forall|j: int| 0 <= j < i ==> (#[trigger] views[j]).0 != key@,
        decreases v@.len() - i,
    {
        assert(views[i as int].0 == v@[i as int].0@);
        i += 1;
    }
    proof {
        if i < v@.len() {
            assert(views[i as int].0 == v@[i as int].0@);
        }
        lemma_place_is(views, k, i as int);
    }
    if i < v.len() {
        v.set(i, (key, value));
        assert(entry_views(v@) =~= views.update(i as int, (k, x)));
    } else {
        v.push((key, value));
        assert(entry_views(v@) =~= views.push((k, x)));
    }
}

fn is_allowed(allowed: &Vec<String>, key: &str) -> (r: bool)
    ensures
        r == texts(allowed@).contains(key@),
{
    let ghost views = texts(allowed@);
    let mut i: usize = 0;
    while i < allowed.len()
        invariant
            i <= allowed@.len(),
            views == texts(allowed@),
            forall|j: int| 0 <= j < i ==> (#[trigger] views[j]) != key@,
        decreases allowed@.len() - i,
    {
        assert(views[i as int] == allowed@[i as int]@);
        if same(allowed[i].as_str(), key) {
            return true;
        }
        i += 1;
    }
    false
}

fn find_undeclared<'a>(metadata: &'a Vec<(String, Json)>, allowed: &Vec<String>) -> (r: Option<
    &'a str,
>)
    ensures
        r.deep_view() == undeclared_key(entry_views(metadata@), texts(allowed@), 0),
{
    let ghost views = entry_views(metadata@);
    let mut i: usize = 0;
    while i < metadata.len()
        invariant
            i <= metadata@.len(),
            views == entry_views(metadata@),
            undeclared_key(views, texts(allowed@), 0) == undeclared_key(
                views,
                texts(allowed@),
                i as int,
            ),
        decreases metadata@.len() - i,
    {
        assert(views[i as int].0 == metadata@[i as int].0@);
        if !is_allowed(allowed, metadata[i].0.as_str()) {
            return Some(metadata[i].0.as_str());
        }
        i += 1;
    }
    None
}

fn keep_metadata(state: &mut ExecutionState, step_id: &str, metadata: Vec<(String, Json)>)
    requires
        old(state).wf(),
    ensures
        final(state).wf(),
        final(state)@ == with_metadata(old(state)@, step_id@, entry_views(metadata@)),
{
    assert(entry_views(metadata@).len() == metadata@.len());
    if metadata.len() == 0 {
        return ;
    }
    let ghost before = state@;
    let mut merged: Vec<(String, Json)> = match get(&state.step_metadata, step_id) {
        Some(found) => match found.clone() {
            Json::Object(es) => {
                proof {
                    lemma_object_view(es);
                }
                es
            },
            _ => Vec::new(),
        },
        None => Vec::new(),
    };
    let ghost start = entry_views(merged@);
    assert(start =~= entries_of(lookup(before.step_metadata, step_id@)));
    let ghost all = metadata@;
    let ghost views = entry_views(all);
    for e in it: metadata
        invariant
            it.seq() == all,
            it.index() <= all.len(),
            views == entry_views(all),
            entry_views(merged@) == put_all(start, views.take(it.index() as int)),
    {
        let ghost i = it.index() as int;
        proof {
            assert(views.take(i + 1).drop_last() =~= views.take(i));
            assert(views[i] == (e.0@, e.1@));
        }
        let (k, v) = e;
        put_entry(&mut merged, k, v);
    }
    proof {
        assert(views.take(views.len() as int) =~= views);
        lemma_object_view(merged);
    }
    insert(&mut state.step_metadata, step_id.to_owned(), Json::Object(merged));
}

/// Ends the dispatch of a step with what came of its body; `allowed` are the keys that its step type
/// declares, where it declares any. Tells whether the step succeeded.
pub fn finish_dispatch(
    state: &mut ExecutionState,
    step: &StepDef,
    result: Result<StepOutput, StepError>,
    allowed: Option<Vec<String>>,
) -> (r: bool)
    requires
        old(state).wf(),
    ensures
        final(state).wf(),
        (final(state)@, r) == finished(
            old(state)@,
            step.id@,
            step.step_type@,
            step.store_to_variable.deep_view(),
            body_view(result),
            match allowed {
                Some(v) => Some(texts(v@)),
                None => None,
            },
        ),
{
    let id = step.id.as_str();
    state.body_secrets = None;
    state.current_step_idx = None;
    match result {
        Ok(StepOutput { value, metadata }) => {
            state.store_step_result(id, value);
            let metadata = into_entries(metadata);
            if let Some(keys) = &allowed {
                if let Some(bad) = find_undeclared(&metadata, keys) {
                    let shown = debug_list_text(keys);
                    let mut w = cat5(
                        "step '",
                        id,
                        "' (type '",
                        step.step_type.as_str(),
                        "') emitted undeclared metadata key '",
                    );
                    w.append(bad);
                    w.append("'; metadataSchema declares: ");
                    w.append(shown.as_str());
                    state.last_error = Some(w);
                    return false;
                }
            }
            keep_metadata(state, id, metadata);
            if let Some(name) = &step.store_to_variable {
                let value = match state.step_result(id) {
                    Some(v) => v.clone(),
                    None => Json::Null,
                };
                state.set_variable(name.clone(), value);
            }
            true
        },
        Err(StepError::Failed(m)) => {
            state.last_error = Some(m);
            false
        },
        Err(StepError::Thrown(p)) => {
            let m = if p.message.as_str().unicode_len() == 0 {
                cat2("PluginError ", p.code.as_str())
            } else {
                cat4("PluginError ", p.code.as_str(), ": ", p.message.as_str())
            };
            state.plugin_error = Some(p);
            state.last_error = Some(m);
            false
        },
        Err(StepError::Cancelled) => {
            state.last_error = Some(cat3("step '", id, "' cancelled"));
            state.cancelled = true;
            false
        },
        Err(StepError::Callee { plugin, action, source }) => {
            let why = source.message();
            let lead = callee_words(id, plugin.as_str(), action.as_str());
            state.last_error = Some(cat2(lead.as_str(), why.as_str()));
            state.callee_error = Some(CalleeError { plugin, action, source });
            false
        },
    }
}

proof fn lemma_undeclared_key(
    metadata: Seq<(Seq<char>, JsonView)>,
    allowed: Seq<Seq<char>>,
    i: int,
)
    requires
        0 <= i,
    ensures
        undeclared_key(metadata, allowed, i) is None <==> forall|j: int|
            i <= j < metadata.len() ==> allowed.contains((#[trigger] metadata[j]).0),
    decreases metadata.len() - i,
{
    if i < metadata.len() {
        lemma_undeclared_key(metadata, allowed, i + 1);
    }
}

/// A step whose body gave a value succeeds where every key beside it is one that the step type under
/// the resolved key declares, and fails otherwise; a failing one leaves no key behind.
pub proof fn law_undeclared_keys_fail_the_step(
    r: RegistryView,
    key: Option<Seq<char>>,
    s: StateView,
    step: StepView,
    value: JsonView,
    metadata: Seq<(Seq<char>, JsonView)>,
)
    requires
        declared_keys(r, key) is Some,
    ensures
        ({
            let allowed = declared_keys(r, key);
            let (after, succeeded) = finished(
                s,
                step.id,
                step.step_type,
                step.store_to_variable,
                BodyView::Gave { value, metadata },
                allowed,
            );
            &&& succeeded <==> forall|j: int|
                0 <= j < metadata.len() ==> allowed->0.contains((#[trigger] metadata[j]).0)
            &&& !succeeded ==> after.step_metadata == s.step_metadata && after.last_error is Some
        }),
{
    lemma_undeclared_key(metadata, declared_keys(r, key)->0, 0);
}

} // verus!
