//! The order in which the steps of an action run: wave by wave, and within a wave one after the
//! other or all at once.

use indexmap::IndexMap;
use vstd::prelude::*;

use crate::error::{ErrorView, KernelError};
use crate::exec_state::{ExecutionState, StateView};
use crate::fanout::below;
use crate::index_map::{copy, entries};
use crate::json::{entry_views, json_views, lemma_array_view, lemma_object_view, Json, JsonView};
use crate::manifest::{DagPlan, PlanView, StepDef, StepView};
use crate::outcomes::{
    failure, first_some, merge_over_budget, merge_task_state, merged_task, over_budget,
    step_failure_to_error,
};
use crate::text::{cat3, has_text, is_white_space, same, stands_at};

verus! {

/// `{{`, then white space or none, then `vars.`, stand somewhere in a text.
pub open spec fn has_template_vars(text: Seq<char>) -> bool {
    exists|i: int, j: int| #[trigger] template_vars_at(text, i, j)
}

/// `{{` stands at `i` in a text and `vars.` at `j`, with nothing but white space between them.
pub open spec fn template_vars_at(text: Seq<char>, i: int, j: int) -> bool {
    &&& stands_at(text, "{{"@, i)
    &&& i + 2 <= j
    &&& stands_at(text, "vars."@, j)
    &&& forall|k: int| i + 2 <= k < j ==> is_white_space(#[trigger] text[k])
}

/// `regex::Regex::new` and `is_match`: whether one of two patterns matches somewhere in a text. The one
/// for `$vars.` matches that very text; in the other one `\s` is a character with the Unicode property
/// `White_Space`.
#[verifier::external_body]
pub(crate) fn regex_is_match(pattern: &str, text: &str) -> (r: bool)
    requires
        pattern@ == "\\$vars\\."@ || pattern@ == "\\{\\{\\s*vars\\."@,
    ensures
        pattern@ == "\\$vars\\."@ ==> r == has_text(text@, "$vars."@),
        pattern@ == "\\{\\{\\s*vars\\."@ ==> r == has_template_vars(text@),
{
    regex::Regex::new(pattern).is_ok_and(|re| re.is_match(text))
}

/// A text in a value refers to a variable: as `$vars.` or as `{{vars.`.
pub open spec fn refers_to_vars(j: JsonView) -> bool
    decreases j,
{
    match j {
        JsonView::String(s) => has_template_vars(s) || has_text(s, "$vars."@),
        JsonView::Array(items) => some_item_refers(items),
        JsonView::Object(es) => some_entry_refers(es),
        _ => false,
    }
}

/// A text in some item of a list refers to a variable.
pub open spec fn some_item_refers(items: Seq<JsonView>) -> bool
    decreases items,
{
    items.len() > 0 && (some_item_refers(items.drop_last()) || refers_to_vars(items.last()))
}

/// A text in the value of some entry refers to a variable.
pub open spec fn some_entry_refers(es: Seq<(Seq<char>, JsonView)>) -> bool
    decreases es,
{
    es.len() > 0 && (some_entry_refers(es.drop_last()) || refers_to_vars(es.last().1))
}

proof fn lemma_item_refers(items: Seq<JsonView>, i: int)
    requires
        0 <= i < items.len(),
        refers_to_vars(items[i]),
    ensures
        some_item_refers(items),
    decreases items.len(),
{
    if i < items.len() - 1 {
        assert(items.drop_last()[i] == items[i]);
        lemma_item_refers(items.drop_last(), i);
    }
}

proof fn lemma_entry_refers(es: Seq<(Seq<char>, JsonView)>, i: int)
    requires
        0 <= i < es.len(),
        refers_to_vars(es[i].1),
    ensures
        some_entry_refers(es),
    decreases es.len(),
{
    if i < es.len() - 1 {
        assert(es.drop_last()[i] == es[i]);
        lemma_entry_refers(es.drop_last(), i);
    }
}

/// Whether a text in a value refers to a variable.
pub fn params_references_vars(value: &Json) -> (r: bool)
    ensures
        r == refers_to_vars(value@),
    decreases value,
{
    match value {
        Json::String(s) => {
            let template = regex_is_match("\\{\\{\\s*vars\\.", s.as_str());
            let bare = regex_is_match("\\$vars\\.", s.as_str());
            template || bare
        },
        Json::Array(v) => {
            proof {
                lemma_array_view(*v);
            }
            let ghost views = json_views(v@);
            let mut i: usize = 0;
            while i < v.len()
                invariant
                    i <= v@.len(),
                    *value == Json::Array(*v),
                    views == json_views(v@),
                    value@ == JsonView::Array(views),
                    !some_item_refers(views.take(i as int)),
                decreases v@.len() - i,
            {
                proof {
                    assert(decreases_to!(*value => value->Array_0));
                    assert(decreases_to!(value->Array_0 => v@[i as int]));
                    assert(views[i as int] == v@[i as int]@);
                    assert(views.take(i as int + 1).drop_last() =~= views.take(i as int));
                }
                if params_references_vars(&v[i]) {
                    proof {
                        lemma_item_refers(views, i as int);
                    }
                    return true;
                }
                i += 1;
            }
            assert(views.take(views.len() as int) =~= views);
            false
        },
        Json::Object(v) => {
            proof {
                lemma_object_view(*v);
            }
            let ghost views = entry_views(v@);
            let mut i: usize = 0;
            while i < v.len()
                invariant
                    i <= v@.len(),
                    *value == Json::Object(*v),
                    views == entry_views(v@),
                    value@ == JsonView::Object(views),
                    !some_entry_refers(views.take(i as int)),
                decreases v@.len() - i,
            {
                proof {
                    assert(decreases_to!(*value => value->Object_0));
                    assert(decreases_to!(value->Object_0 => v@[i as int]));
                    assert(decreases_to!(v@[i as int] => v@[i as int].1));
                    assert(views[i as int] == (v@[i as int].0@, v@[i as int].1@));
                    assert(views.take(i as int + 1).drop_last() =~= views.take(i as int));
                }
                if params_references_vars(&v[i].1) {
                    proof {
                        lemma_entry_refers(views, i as int);
                    }
                    return true;
                }
                i += 1;
            }
            assert(views.take(views.len() as int) =~= views);
            false
        },
        _ => false,
    }
}

/// A step that has to run in the order of declaration: it sets a variable, it is a loop or a
/// condition, or it refers to a variable.
pub open spec fn keeps_order(step: StepView) -> bool {
    ||| step.store_to_variable is Some
    ||| step.step_type == "for_each"@
    ||| step.step_type == "repeat"@
    ||| step.step_type == "ifs"@
    ||| refers_to_vars(step.params)
}

/// A wave has a step that has to run in the order of declaration.
pub open spec fn needs_order(wave: Seq<usize>, steps: Seq<StepView>) -> bool {
    exists|i: int| 0 <= i < wave.len() && keeps_order(steps[#[trigger] wave[i] as int])
}

/// Whether a wave has a step that has to run in the order of declaration.
pub fn wave_requires_sequential(wave: &Vec<usize>, steps: &Vec<StepDef>) -> (r: bool)
    requires
        below(wave.deep_view(), steps@.len()),
    ensures
        r == needs_order(wave.deep_view(), steps.deep_view()),
{
    let ghost views = steps.deep_view();
    let ghost w = wave.deep_view();
    let mut i: usize = 0;
    while i < wave.len()
        invariant
            i <= wave@.len(),
            views == steps.deep_view(),
            w == wave.deep_view(),
            below(w, steps@.len()),
            forall|k: int| 0 <= k < i ==> !keeps_order(views[#[trigger] w[k] as int]),
        decreases wave@.len() - i,
    {
        let idx: usize = wave[i];
        assert(w[i as int] == idx);
        let step = &steps[idx];
        assert(views[idx as int] == step.deep_view());
        let kind = step.step_type.as_str();
        if step.store_to_variable.is_some() || same(kind, "for_each") || same(kind, "repeat")
            || same(kind, "ifs") || params_references_vars(&step.params) {
            assert(keeps_order(views[w[i as int] as int]));
            return true;
        }
        i += 1;
    }
    false
}

/// A wave runs all at once: it has several steps, the action asks for it, and no step has to run in
/// the order of declaration.
pub open spec fn runs_at_once(
    wave: Seq<usize>,
    steps: Seq<StepView>,
    parallel_waves: bool,
) -> bool {
    wave.len() > 1 && parallel_waves && !needs_order(wave, steps)
}

/// The steps of waves, one wave after the other.
pub open spec fn flat(waves: Seq<Seq<usize>>) -> Seq<usize>
    decreases waves.len(),
{
    if waves.len() == 0 {
        Seq::empty()
    } else {
        flat(waves.drop_last()) + waves.last()
    }
}

/// The steps of the waves before a wave, and of that wave, come first.
pub proof fn lemma_flat_prefix(waves: Seq<Seq<usize>>, w: int)
    requires
        0 <= w < waves.len(),
    ensures
        (flat(waves.take(w)) + waves[w]).is_prefix_of(flat(waves)),
    decreases waves.len(),
{
    if w == waves.len() - 1 {
        assert(waves.take(w) =~= waves.drop_last());
    } else {
        let before = waves.drop_last();
        lemma_flat_prefix(before, w);
        assert(before.take(w) =~= waves.take(w));
        assert(before[w] == waves[w]);
        let a = flat(waves.take(w)) + waves[w];
        assert(a.is_prefix_of(flat(before)));
        assert(flat(waves).subrange(0, a.len() as int) =~= a) by {
            assert(flat(before).subrange(0, a.len() as int) =~= a);
            assert forall|i: int| 0 <= i < a.len() implies flat(waves)[i] == a[i] by {
                assert(flat(before).subrange(0, a.len() as int)[i] == flat(before)[i]);
            }
        }
    }
}

/// How far an action has run: the wave at hand, and the steps of it that have been started.
pub struct WaveCursor {
    pub wave: usize,
    pub pos: usize,
}

/// What the scheduler does next.
pub enum WaveMove {
    /// Run one step.
    Step(usize),
    /// Run the steps of a wave all at once.
    Wave(usize),
    /// The action is done.
    Done,
    /// The action was cancelled.
    Stop(KernelError),
}

/// The steps that have been started.
pub open spec fn started(waves: Seq<Seq<usize>>, c: WaveCursor) -> Seq<usize> {
    if c.wave < waves.len() {
        flat(waves.take(c.wave as int)) + waves[c.wave as int].take(c.pos as int)
    } else {
        flat(waves)
    }
}

/// What a [`WaveMove`] stands for.
pub enum MoveView {
    Step(usize),
    Wave(usize),
    Done,
    Stop(ErrorView),
}

impl View for WaveMove {
    type V = MoveView;

    open spec fn view(&self) -> MoveView {
        match self {
            WaveMove::Step(idx) => MoveView::Step(*idx),
            WaveMove::Wave(w) => MoveView::Wave(*w),
            WaveMove::Done => MoveView::Done,
            WaveMove::Stop(e) => MoveView::Stop(e@),
        }
    }
}

/// `m` is what the scheduler does next, where the steps `before` have been started and `after` are when
/// it has. Steps are started in the order of the waves, each once, until all of them have been, or a
/// step returned, or the action was cancelled.
pub open spec fn moved(
    waves: Seq<Seq<usize>>,
    steps: Seq<StepView>,
    parallel_waves: bool,
    fired: bool,
    returned: bool,
    before: Seq<usize>,
    m: MoveView,
    after: Seq<usize>,
) -> bool {
    let all = flat(waves);
    match m {
        MoveView::Done => (returned || before == all) && after == before,
        MoveView::Stop(e) => {
            &&& fired && !returned && before.len() < all.len()
            &&& e == (ErrorView::Cancelled { at_step: steps[all[before.len() as int] as int].id })
            &&& after == before
        },
        MoveView::Step(idx) => {
            &&& !fired && !returned && before.len() < all.len()
            &&& idx == all[before.len() as int]
            &&& after == before.push(idx)
            &&& forall|w: int|
                0 <= w < waves.len() && before == flat(waves.take(w)) ==> !runs_at_once(
                    #[trigger] waves[w],
                    steps,
                    parallel_waves,
                )
        },
        MoveView::Wave(w) => {
            &&& !fired && !returned && w < waves.len()
            &&& runs_at_once(waves[w as int], steps, parallel_waves)
            &&& before == flat(waves.take(w as int))
            &&& after == before + waves[w as int]
        },
    }
}

impl WaveCursor {
    /// The cursor is within the waves.
    pub open spec fn within(self, waves: Seq<Seq<usize>>) -> bool {
        &&& self.wave <= waves.len()
        &&& self.wave < waves.len() ==> self.pos <= waves[self.wave as int].len()
    }

    /// A step of the wave at hand has not been started.
    pub open spec fn unfinished(self, waves: Seq<Seq<usize>>) -> bool {
        self.wave < waves.len() && self.pos < waves[self.wave as int].len()
    }

    /// Before the first step.
    pub fn new() -> (r: Self)
        ensures
            r.wave == 0,
            r.pos == 0,
            forall|waves: Seq<Seq<usize>>| #[trigger] r.within(waves),
            forall|waves: Seq<Seq<usize>>|
                (#[trigger] started(waves, r)) =~= Seq::<usize>::empty(),
    {
        let r = WaveCursor { wave: 0, pos: 0 };
        proof {
            assert forall|waves: Seq<Seq<usize>>|
                (#[trigger] started(waves, r)) =~= Seq::<usize>::empty() by {
                assert(waves.take(0) =~= Seq::empty());
            }
        }
        r
    }

    /// Moves past waves of which every step has been started.
    fn settle(&mut self, waves: &Vec<Vec<usize>>)
        requires
            old(self).within(waves.deep_view()),
        ensures
            final(self).within(waves.deep_view()),
            started(waves.deep_view(), *final(self)) == started(waves.deep_view(), *old(self)),
            final(self).unfinished(waves.deep_view()) || final(self).wave == waves@.len(),
            old(self).unfinished(waves.deep_view()) ==> *final(self) == *old(self),
            *final(self) != *old(self) ==> final(self).pos == 0,
    {
        let ghost views = waves.deep_view();
        while self.wave < waves.len() && self.pos == waves[self.wave].len()
            invariant
                views == waves.deep_view(),
                self.within(views),
                started(views, *self) == started(views, *old(self)),
                old(self).unfinished(views) ==> *self == *old(self),
                *self != *old(self) ==> self.pos == 0,
            decreases waves@.len() - self.wave,
        {
            proof {
                let w = self.wave as int;
                assert(views[w] == waves@[w].deep_view());
                assert(views[w].take(self.pos as int) =~= views[w]);
                assert(views.take(w + 1).drop_last() =~= views.take(w));
                if w + 1 < views.len() {
                    assert(views[w + 1].take(0) =~= Seq::empty());
                    assert(flat(views.take(w + 1)) + Seq::<usize>::empty() =~= flat(
                        views.take(w + 1),
                    ));
                } else {
                    assert(views.take(w + 1) =~= views);
                }
            }
            self.wave = self.wave + 1;
            self.pos = 0;
        }
        proof {
            if self.wave < waves@.len() {
                assert(views[self.wave as int] == waves@[self.wave as int].deep_view());
            }
        }
    }

    /// Decides what the scheduler does next, given whether the action was cancelled and whether a
    /// `return` step has run. Steps are started in the order of the waves, each once, until all of
    /// them have been, or a step returned, or the action was cancelled.
    pub fn next(
        &mut self,
        plan: &DagPlan,
        steps: &Vec<StepDef>,
        parallel_waves: bool,
        fired: bool,
        returned: bool,
    ) -> (r: WaveMove)
        requires
            plan.deep_view().fits(steps@.len()),
            old(self).within(plan.deep_view().waves),
        ensures
            final(self).within(plan.deep_view().waves),
            moved(
                plan.deep_view().waves,
                steps.deep_view(),
                parallel_waves,
                fired,
                returned,
                started(plan.deep_view().waves, *old(self)),
                r@,
                started(plan.deep_view().waves, *final(self)),
            ),
    {
        let ghost waves = plan.deep_view().waves;
        let ghost views = steps.deep_view();
        let ghost all = flat(waves);
        let ghost before = started(waves, *self);
        if returned {
            return WaveMove::Done;
        }
        self.settle(&plan.waves);
        if self.wave == plan.waves.len() {
            return WaveMove::Done;
        }
        let w: usize = self.wave;
        let wave = &plan.waves[w];
        proof {
            assert(waves[w as int] == wave.deep_view());
            assert(below(waves[w as int], steps@.len()));
            lemma_flat_prefix(waves, w as int);
            let a = flat(waves.take(w as int)) + waves[w as int];
            assert(before.len() == flat(waves.take(w as int)).len() + self.pos);
            assert(a[before.len() as int] == waves[w as int][self.pos as int]);
            assert(all.subrange(0, a.len() as int) =~= a);
            assert(all.subrange(0, a.len() as int)[before.len() as int] == all[before.len() as int]);
            assert(waves[w as int][self.pos as int] == wave@[self.pos as int]);
        }
        let idx: usize = wave[self.pos];
        assert(idx == all[before.len() as int]);
        assert(views[idx as int] == steps@[idx as int].deep_view());
        if fired {
            return WaveMove::Stop(KernelError::Cancelled { at_step: steps[idx].id.clone() });
        }
        if self.pos == 0 && wave.len() > 1 && parallel_waves && !wave_requires_sequential(
            wave,
            steps,
        ) {
            self.pos = wave.len();
            proof {
                assert(waves[w as int].take(0) =~= Seq::empty());
                assert(before =~= flat(waves.take(w as int)));
                assert(waves[w as int].take(waves[w as int].len() as int) =~= waves[w as int]);
            }
            return WaveMove::Wave(w);
        }
        proof {
            assert forall|v: int|
                0 <= v < waves.len() && before == flat(waves.take(v)) implies !runs_at_once(
                #[trigger] waves[v],
                views,
                parallel_waves,
            ) by {
                if v < w {
                    lemma_flat_prefix(waves.take(w as int), v);
                    assert(waves.take(w as int).take(v) =~= waves.take(v));
                    assert(waves.take(w as int)[v] == waves[v]);
                } else if v > w {
                    lemma_flat_prefix(waves.take(v), w as int);
                    assert(waves.take(v).take(w as int) =~= waves.take(w as int));
                    assert(waves.take(v)[w as int] == waves[w as int]);
                }
            }
        }
        assert(self.pos < wave.len());
        self.pos = self.pos + 1;
        proof {
            assert(started(waves, *self) =~= before.push(idx));
        }
        WaveMove::Step(idx)
    }
}

/// The error of a step, given its state and what running it gave.
pub open spec fn step_error(s: StateView, ran: Result<bool, ErrorView>, id: Seq<char>) -> Option<
    ErrorView,
> {
    match ran {
        Err(e) => Some(e),
        Ok(ok) => if ok {
            None
        } else {
            Some(failure(s, id))
        },
    }
}

/// What running a step gave, as a plain value.
pub open spec fn ran_view(r: Result<bool, KernelError>) -> Result<bool, ErrorView> {
    match r {
        Ok(b) => Ok(b),
        Err(e) => Err(e@),
    }
}

/// Goes on after a step, or fails with its error.
pub fn after_step(state: &ExecutionState, step_id: &str, ran: Result<bool, KernelError>) -> (r: Result<
    (),
    KernelError,
>)
    ensures
        match step_error(state@, ran_view(ran), step_id@) {
            None => r is Ok,
            Some(e) => r is Err && r->Err_0@ == e,
        },
{
    match ran {
        Err(e) => Err(e),
        Ok(true) => Ok(()),
        Ok(false) => Err(step_failure_to_error(state, step_id)),
    }
}

/// A task that ran one step of a wave: its state, and what running the step gave.
pub struct WaveTask {
    pub step_id: String,
    pub state: ExecutionState,
    pub ran: Result<bool, KernelError>,
}

/// What a [`WaveTask`] stands for.
pub struct WaveTaskView {
    pub step_id: Seq<char>,
    pub state: StateView,
    pub ran: Result<bool, ErrorView>,
}

impl View for WaveTask {
    type V = WaveTaskView;

    open spec fn view(&self) -> WaveTaskView {
        WaveTaskView { step_id: self.step_id@, state: self.state@, ran: ran_view(self.ran) }
    }
}

/// What tasks stand for.
pub open spec fn task_views(v: Seq<WaveTask>) -> Seq<WaveTaskView> {
    v.map_values(|t: WaveTask| t@)
}

/// The state when tasks have been merged into it, one after the other.
pub open spec fn merged_tasks(
    c: StateView,
    tasks: Seq<WaveTaskView>,
    baseline: Seq<(Seq<char>, JsonView)>,
) -> StateView
    decreases tasks.len(),
{
    if tasks.len() == 0 {
        c
    } else {
        merged_task(
            merged_tasks(c, tasks.drop_last(), baseline),
            tasks.last().state,
            tasks.last().step_id,
            baseline,
        )
    }
}

/// The error of the first task that has one.
pub open spec fn first_task_error(tasks: Seq<WaveTaskView>) -> Option<ErrorView>
    decreases tasks.len(),
{
    if tasks.len() == 0 {
        None
    } else {
        first_some(
            first_task_error(tasks.drop_last()),
            step_error(tasks.last().state, tasks.last().ran, tasks.last().step_id),
        )
    }
}

/// The error of a wave that was merged into a state: that of the first of its tasks that has one, or
/// that of the merge.
pub open spec fn wave_error(merged: StateView, tasks: Seq<WaveTaskView>) -> Option<ErrorView> {
    first_some(first_task_error(tasks), over_budget(merged))
}

/// Merges the tasks of a wave, in the order of their steps in it, and then fails with the error of
/// the first of them that has one, or with that of the merge itself. The error of a step is read off
/// its own task.
pub fn merge_wave(
    canonical: &mut ExecutionState,
    tasks: Vec<WaveTask>,
    baseline_variables: &IndexMap<String, Json>,
) -> (r: Result<(), KernelError>)
    requires
        old(canonical).wf(),
    ensures
        final(canonical).wf(),
        final(canonical)@ == merged_tasks(
            old(canonical)@,
            task_views(tasks@),
            entries(*baseline_variables),
        ),
        match wave_error(final(canonical)@, task_views(tasks@)) {
            Some(e) => r is Err && r->Err_0@ == e,
            None => r is Ok,
        },
{
    let ghost start = canonical@;
    let ghost all = tasks@;
    let ghost views = task_views(all);
    let ghost baseline = entries(*baseline_variables);
    let mut first: Option<KernelError> = None;
    for t in it: tasks
        invariant
            it.seq() == all,
            it.index() <= all.len(),
            views == task_views(all),
            baseline == entries(*baseline_variables),
            canonical.wf(),
            canonical@ == merged_tasks(start, views.take(it.index() as int), baseline),
            match first {
                Some(e) => first_task_error(views.take(it.index() as int)) == Some(e@),
                None => first_task_error(views.take(it.index() as int)) is None,
            },
    {
        let ghost i = it.index() as int;
        proof {
            assert(views.take(i + 1).drop_last() =~= views.take(i));
            assert(views[i] == t@);
        }
        let WaveTask { step_id, state, ran } = t;
        let own = after_step(&state, step_id.as_str(), ran);
        merge_task_state(canonical, state, step_id.as_str(), baseline_variables);
        if first.is_none() {
            if let Err(e) = own {
                first = Some(e);
            }
        }
    }
    assert(views.take(views.len() as int) =~= views);
    if let Some(e) = first {
        return Err(e);
    }
    match merge_over_budget(canonical) {
        Some(e) => Err(e),
        None => Ok(()),
    }
}

/// The error of a task that did not end: it panicked, or it was cancelled.
pub fn join_error(what: &str, panicked: bool, why: &str) -> (r: KernelError)
    ensures
        r@ == ErrorView::Execution(
            if panicked {
                what@ + " panicked: "@ + why@
            } else {
                what@ + " was cancelled: "@ + why@
            },
        ),
{
    if panicked {
        KernelError::Execution(cat3(what, " panicked: ", why))
    } else {
        KernelError::Execution(cat3(what, " was cancelled: ", why))
    }
}

/// The result of an action.
pub struct ActionResult {
    pub output: Json,
    pub variables: IndexMap<String, Json>,
    pub step_results: IndexMap<String, Json>,
}

/// The output of an action: the value that a `return` step gave, or else what was collected.
pub open spec fn output_of(s: StateView, collected: JsonView) -> JsonView {
    match s.return_signal {
        Some(v) => v,
        None => collected,
    }
}

/// The result of an action whose steps have run: the value that a `return` step gave, or else what
/// was collected from the results.
pub fn action_result(state: &ExecutionState, collected: Json) -> (r: ActionResult)
    ensures
        r.output@ == output_of(state@, collected@),
        entries(r.variables) == state@.variables,
        entries(r.step_results) == state@.step_results,
{
    let output = match &state.return_signal {
        Some(v) => v.clone(),
        None => collected,
    };
    ActionResult {
        output,
        variables: copy(&state.variables),
        step_results: copy(&state.step_results),
    }
}

/// The streams that an invocation left open are closed when it ends.
pub open spec fn streams_close(drain_streams: bool, invoke_depth: u32) -> bool {
    drain_streams && invoke_depth == 0
}

/// Whether the streams that an invocation left open are closed when it ends: where it asks for it,
/// and is not nested in another.
pub fn drains(drain_streams: bool, invoke_depth: u32) -> (r: bool)
    ensures
        r == streams_close(drain_streams, invoke_depth),
{
    drain_streams && invoke_depth == 0
}

/// A step's result from a task is charged to the state that it is merged into: the bytes that are
/// charged never shrink in a merge.
pub proof fn law_merging_charges(
    c: StateView,
    tasks: Seq<WaveTaskView>,
    baseline: Seq<(Seq<char>, JsonView)>,
)
    ensures
        merged_tasks(c, tasks, baseline).step_results_bytes >= c.step_results_bytes,
        merged_tasks(c, tasks, baseline).limits == c.limits,
        c.step_results_bytes <= c.limits.max_step_results_bytes ==> merged_tasks(
            c,
            tasks,
            baseline,
        ).step_results_bytes <= c.limits.max_step_results_bytes,
    decreases tasks.len(),
{
    if tasks.len() > 0 {
        law_merging_charges(c, tasks.drop_last(), baseline);
    }
}

/// A plan in which every step depends on steps of earlier waves alone.
pub open spec fn layered(plan: PlanView) -> bool {
    forall|w: int, i: int, d: usize|
        0 <= w < plan.waves.len() && 0 <= i < plan.waves[w].len()
            && #[trigger] plan.deps[plan.waves[w][i] as int].contains(d) ==> in_earlier_wave(
            plan.waves,
            w,
            d,
        )
}

/// A step is in a wave before another.
pub open spec fn in_earlier_wave(waves: Seq<Seq<usize>>, w: int, d: usize) -> bool {
    exists|v: int| 0 <= v < w && v < waves.len() && #[trigger] waves[v].contains(d)
}

/// Where a plan is layered, the steps that a step depends on come in the waves before its own, which
/// are over when it begins.
pub proof fn law_dependencies_run_first(plan: PlanView, w: int, i: int, d: usize)
    requires
        layered(plan),
        0 <= w < plan.waves.len(),
        0 <= i < plan.waves[w].len(),
        plan.deps[plan.waves[w][i] as int].contains(d),
    ensures
        flat(plan.waves.take(w)).contains(d),
{
    let waves = plan.waves.take(w);
    assert(in_earlier_wave(plan.waves, w, d));
    let v = choose|v: int|
        0 <= v < w && v < plan.waves.len() && #[trigger] plan.waves[v].contains(d);
    assert(waves[v] == plan.waves[v]);
    lemma_flat_prefix(waves, v);
    let part = flat(waves.take(v)) + waves[v];
    let j = choose|j: int| 0 <= j < waves[v].len() && waves[v][j] == d;
    let at = flat(waves.take(v)).len() + j;
    assert(part[at] == d);
    assert(flat(waves).subrange(0, part.len() as int) =~= part);
    assert(flat(waves).subrange(0, part.len() as int)[at] == flat(waves)[at]);
}

} // verus!
