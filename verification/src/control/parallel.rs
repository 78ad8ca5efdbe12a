//! `parallel` steps: branches that run side by side, each on a copy of the state.

use vstd::prelude::*;

use crate::control::{
    addressable, ids_of, opened, polled, read_steps, report, spelt_steps, Block, BlockView,
};
use crate::error::{ErrorView, KernelError};
use crate::exec_state::{stored, ExecutionState, StateView};
use crate::index_map::{copy, entries, into_entries, lemma_put};
use crate::json::{entry_views, json_views, lemma_array_view, lookup, Json, JsonView};
use crate::manifest::{StepDef, StepView};
use crate::outcomes::{
    first_some, merge_over_budget, merge_parallel_branch_state, merged_branch, over_budget,
    with_new_results, with_new_variables,
};
use crate::text::{cat7, decimal, decimal_text, texts};
use crate::waves::ran_view;

verus! {

/// The steps of a branch: none where it is no list.
pub open spec fn branch_steps(branch: JsonView) -> Seq<StepView> {
    match branch {
        JsonView::Array(items) => spelt_steps(items),
        _ => Seq::empty(),
    }
}

/// The branches of a `parallel` step.
pub open spec fn branches_under(params: JsonView) -> Seq<Seq<StepView>> {
    match params.get_array("branches"@) {
        Some(items) => items.map_values(|b: JsonView| branch_steps(b)),
        None => Seq::empty(),
    }
}

/// What a `parallel` step with too many branches is told.
pub open spec fn too_wide(step_id: Seq<char>, count: nat, max: nat) -> Seq<char> {
    "parallel step '"@ + step_id + "': "@ + decimal(count) + " branches exceeds the "@ + decimal(max)
        + "-branch limit. Each branch forks the whole execution state, so width multiplies host memory; raise RuntimeLimits::max_parallel_branches if this fan-out is intended"@
}

/// A branch while its steps run: its block, and the result of the last step that ran.
pub struct BranchTask {
    block: Block,
    last: Option<Json>,
}

/// What a [`BranchTask`] stands for.
pub struct BranchTaskView {
    pub block: BlockView,
    pub last: Option<JsonView>,
}

impl View for BranchTask {
    type V = BranchTaskView;

    closed spec fn view(&self) -> BranchTaskView {
        BranchTaskView { block: self.block@, last: self.last.deep_view() }
    }
}

/// How a branch ended: the result of the last step that ran, and what ended it.
pub struct BranchEnd {
    pub last: Option<Json>,
    pub end: Result<bool, KernelError>,
}

/// What a [`BranchEnd`] stands for.
pub struct BranchEndView {
    pub last: Option<JsonView>,
    pub end: Result<bool, ErrorView>,
}

impl View for BranchEnd {
    type V = BranchEndView;

    open spec fn view(&self) -> BranchEndView {
        BranchEndView { last: self.last.deep_view(), end: ran_view(self.end) }
    }
}

/// What is next in a branch.
pub enum BranchTurn {
    Run(BranchTask),
    Over(BranchEnd),
}

/// What a [`BranchTurn`] stands for.
pub enum BranchTurnView {
    Run(BranchTaskView),
    Over(BranchEndView),
}

impl View for BranchTurn {
    type V = BranchTurnView;

    open spec fn view(&self) -> BranchTurnView {
        match self {
            BranchTurn::Run(t) => BranchTurnView::Run(t@),
            BranchTurn::Over(e) => BranchTurnView::Over(e@),
        }
    }
}

/// What follows the step at hand of a branch.
pub open spec fn task_next(t: BranchTaskView, s: StateView, ran: Result<bool, ErrorView>) -> BranchTurnView {
    let last = if ran == Ok::<bool, ErrorView>(true) {
        lookup(s.step_results, t.block.ids[t.block.pos as int])
    } else {
        t.last
    };
    match t.block.end(report(ran, s)) {
        None => BranchTurnView::Run(BranchTaskView { block: t.block.advanced(), last }),
        Some(end) => BranchTurnView::Over(BranchEndView { last, end }),
    }
}

impl BranchTask {
    /// The index of the step at hand fits.
    pub open spec fn wf(&self) -> bool {
        addressable(self@.block)
    }

    /// The index, among the steps of the branch's state, of the step to run; or the cancellation that
    /// came before it, which is then reported in the place of the step.
    pub fn poll(&self, fired: bool) -> (r: Result<usize, KernelError>)
        requires
            self.wf(),
        ensures
            polled(r, self@.block, fired),
    {
        self.block.poll(fired)
    }

    /// Takes in what came of the step at hand.
    pub fn report(self, state: &ExecutionState, ran: Result<bool, KernelError>) -> (r: BranchTurn)
        requires
            self.wf(),
        ensures
            r@ == task_next(self@, state@, ran_view(ran)),
            r is Run ==> r->Run_0.wf(),
    {
        let mut t = self;
        if let Ok(true) = ran {
            t.last = match state.step_result(t.block.id()) {
                Some(v) => Some(v.clone()),
                None => None,
            };
        }
        let end = t.block.absorb(state, ran);
        match end {
            None => BranchTurn::Run(t),
            Some(end) => BranchTurn::Over(BranchEnd { last: t.last, end }),
        }
    }
}

/// A branch that is about to run: its own state, with its steps behind the others, and its task.
pub struct Fork {
    pub state: ExecutionState,
    pub task: BranchTask,
}

/// What a [`Fork`] stands for.
pub struct ForkView {
    pub state: StateView,
    pub task: BranchTaskView,
}

impl DeepView for Fork {
    type V = ForkView;

    open spec fn deep_view(&self) -> ForkView {
        ForkView { state: self.state@, task: self.task@ }
    }
}

/// A branch that begins on a state; one without steps does not run.
pub open spec fn forked(s: StateView, steps: Seq<StepView>) -> Option<ForkView> {
    if steps.len() == 0 {
        None
    } else {
        Some(
            ForkView {
                state: opened(s, steps),
                task: BranchTaskView {
                    block: BlockView::new(ids_of(steps), s.steps.len()),
                    last: None,
                },
            },
        )
    }
}

fn fork_branch(state: &ExecutionState, steps: &Vec<StepDef>) -> (r: Option<Fork>)
    requires
        state.wf(),
    ensures
        r.deep_view() == forked(state@, steps.deep_view()),
        r is Some ==> r->0.state.wf() && r->0.task.wf(),
{
    assert(steps.deep_view().len() == steps@.len());
    if steps.len() == 0 {
        return None;
    }
    let mut own = state.fork();
    let block = Block::open(&mut own, steps);
    Some(Fork { state: own, task: BranchTask { block, last: None } })
}

/// Every branch that runs is ready to.
pub open spec fn forks_wf(v: Seq<Option<Fork>>) -> bool {
    forall|i: int|
        0 <= i < v.len() && (#[trigger] v[i]) is Some ==> v[i]->0.state.wf() && v[i]->0.task.wf()
}

/// How a `parallel` step begins: with a fork for each of its branches; without any it is over, with an
/// empty array for its result, and with too many it is refused.
pub open spec fn parallel_begun(s: StateView, step: StepView) -> (
    Result<Seq<Option<ForkView>>, ErrorView>,
    StateView,
) {
    let branches = branches_under(step.params);
    let max = s.limits.max_parallel_branches as nat;
    if branches.len() == 0 {
        (Ok(Seq::empty()), stored(s, step.id, JsonView::Array(Seq::empty())))
    } else if branches.len() > max {
        (Err(ErrorView::Validation(too_wide(step.id, branches.len(), max))), s)
    } else {
        (Ok(branches.map_values(|b: Seq<StepView>| forked(s, b))), s)
    }
}

/// Forks as plain values.
pub open spec fn forks_view(r: Result<Vec<Option<Fork>>, KernelError>) -> Result<
    Seq<Option<ForkView>>,
    ErrorView,
> {
    match r {
        Ok(v) => Ok(v.deep_view()),
        Err(e) => Err(e@),
    }
}

/// The branches of a `parallel` step, each ready to run, in their order. A step without branches has
/// its result at once and gives none; one with more than the limit allows is refused.
pub fn begin_parallel(state: &mut ExecutionState, step: &StepDef) -> (r: Result<
    Vec<Option<Fork>>,
    KernelError,
>)
    requires
        old(state).wf(),
    ensures
        final(state).wf(),
        (forks_view(r), final(state)@) == parallel_begun(old(state)@, step.deep_view()),
        r is Ok ==> forks_wf(r->Ok_0@),
{
    let ghost before = state@;
    let ghost branches = branches_under(step.deep_view().params);
    let none: Vec<Json> = Vec::new();
    let items = match step.params.get_array("branches") {
        Some(items) => items,
        None => &none,
    };
    let ghost views = json_views(items@);
    assert(branches =~= views.map_values(|b: JsonView| branch_steps(b)));
    if items.len() == 0 {
        let array = Json::Array(Vec::new());
        proof {
            lemma_array_view(array->Array_0);
            assert(json_views(array->Array_0@) =~= Seq::empty());
        }
        state.store_step_result(step.id.as_str(), array);
        let none: Vec<Option<Fork>> = Vec::new();
        assert(none.deep_view() =~= Seq::empty());
        return Ok(none);
    }
    let max: usize = state.limits.max_parallel_branches;
    if items.len() > max {
        return Err(
            KernelError::Validation(
                cat7(
                    "parallel step '",
                    step.id.as_str(),
                    "': ",
                    decimal_text(items.len() as u64).as_str(),
                    " branches exceeds the ",
                    decimal_text(max as u64).as_str(),
                    "-branch limit. Each branch forks the whole execution state, so width multiplies host memory; raise RuntimeLimits::max_parallel_branches if this fan-out is intended",
                ),
            ),
        );
    }
    let mut forks: Vec<Option<Fork>> = Vec::new();
    let mut i: usize = 0;
    while i < items.len()
        invariant
            i <= items@.len(),
            state.wf(),
            state@ == before,
            views == json_views(items@),
            branches == views.map_values(|b: JsonView| branch_steps(b)),
            forks@.len() == i,
            forall|j: int|
                0 <= j < i ==> (#[trigger] forks@[j]).deep_view() == forked(before, branches[j]),
            forks_wf(forks@),
        decreases items@.len() - i,
    {
        assert(views[i as int] == items@[i as int]@);
        let steps = match items[i].as_array() {
            Some(list) => read_steps(list),
            None => {
                let r: Vec<StepDef> = Vec::new();
                assert(r.deep_view() =~= Seq::empty());
                r
            },
        };
        assert(steps.deep_view() == branches[i as int]);
        forks.push(fork_branch(state, &steps));
        i += 1;
    }
    assert(forks.deep_view() =~= branches.map_values(|b: Seq<StepView>| forked(before, b)));
    Ok(forks)
}

/// A branch that has run: its state and how it ended.
pub struct JoinedBranch {
    pub state: ExecutionState,
    pub end: BranchEnd,
}

/// What a [`JoinedBranch`] stands for.
pub struct JoinedView {
    pub state: StateView,
    pub end: BranchEndView,
}

impl DeepView for JoinedBranch {
    type V = JoinedView;

    open spec fn deep_view(&self) -> JoinedView {
        JoinedView { state: self.state@, end: self.end@ }
    }
}

/// The keys of entries.
pub open spec fn keys_of(s: Seq<(Seq<char>, JsonView)>) -> Seq<Seq<char>> {
    s.map_values(|e: (Seq<char>, JsonView)| e.0)
}

/// The state when branches have been merged into it, one after the other: what is new in each of them
/// is what `base` did not have.
pub open spec fn merged_branches(base: StateView, branches: Seq<Option<JoinedView>>) -> StateView
    decreases branches.len(),
{
    if branches.len() == 0 {
        base
    } else {
        let before = merged_branches(base, branches.drop_last());
        match branches.last() {
            None => before,
            Some(b) => merged_branch(
                before,
                b.state,
                keys_of(base.step_results),
                base.variables,
            ),
        }
    }
}

/// The error of the first branch that has one.
pub open spec fn first_branch_error(branches: Seq<Option<JoinedView>>) -> Option<ErrorView>
    decreases branches.len(),
{
    if branches.len() == 0 {
        None
    } else {
        first_some(
            first_branch_error(branches.drop_last()),
            match branches.last() {
                Some(b) => match b.end.end {
                    Err(e) => Some(e),
                    Ok(_) => None,
                },
                None => None,
            },
        )
    }
}

/// A branch failed.
pub open spec fn a_branch_failed(branches: Seq<Option<JoinedView>>) -> bool {
    exists|i: int|
        0 <= i < branches.len() && (#[trigger] branches[i]) is Some && branches[i]->0.end.end != Ok::<
            bool,
            ErrorView,
        >(true)
}

/// The result of a branch: that of its last step, and null where there is none.
pub open spec fn branch_result(b: Option<JoinedView>) -> JsonView {
    match b {
        Some(j) => match j.end.last {
            Some(v) => v,
            None => JsonView::Null,
        },
        None => JsonView::Null,
    }
}

/// How a `parallel` step ends: with the error of the first branch that has one, else with that of a
/// merge that ran into the limit; else it has the results of the branches, in their order, and
/// succeeds where no branch failed.
pub open spec fn parallel_joined(s: StateView, step_id: Seq<char>, branches: Seq<Option<JoinedView>>) -> (
    Result<bool, ErrorView>,
    StateView,
) {
    let merged = merged_branches(s, branches);
    match first_some(first_branch_error(branches), over_budget(merged)) {
        Some(e) => (Err(e), merged),
        None => (
            Ok(!a_branch_failed(branches)),
            stored(
                merged,
                step_id,
                JsonView::Array(branches.map_values(|b: Option<JoinedView>| branch_result(b))),
            ),
        ),
    }
}

fn known_ids(state: &ExecutionState) -> (r: Vec<String>)
    ensures
        texts(r@) == keys_of(state@.step_results),
{
    let list = into_entries(copy(&state.step_results));
    let ghost all = list@;
    let mut r: Vec<String> = Vec::new();
    for e in it: list
        invariant
            it.seq() == all,
            it.index() <= all.len(),
            r@.len() == it.index(),
            forall|j: int| 0 <= j < it.index() ==> (#[trigger] r@[j])@ == all[j].0@,
    {
        r.push(e.0);
    }
    proof {
        assert forall|j: int| 0 <= j < all.len() implies (#[trigger] entry_views(all)[j]).0
            == all[j].0@ by {}
        assert(texts(r@) =~= keys_of(entry_views(all)));
    }
    r
}

/// Ends a `parallel` step whose branches have run; a branch without steps has no entry.
pub fn join_parallel(
    state: &mut ExecutionState,
    step_id: &str,
    branches: Vec<Option<JoinedBranch>>,
) -> (r: Result<bool, KernelError>)
    requires
        old(state).wf(),
    ensures
        final(state).wf(),
        (ran_view(r), final(state)@) == parallel_joined(
            old(state)@,
            step_id@,
            branches.deep_view(),
        ),
{
    let ghost base = state@;
    let known = known_ids(state);
    let baseline = copy(&state.variables);
    let ghost all = branches@;
    let ghost views = branches.deep_view();
    assert(views.len() == all.len());
    let mut results: Vec<Json> = Vec::new();
    let mut failed: bool = false;
    let mut first: Option<KernelError> = None;
    for slot in it: branches
        invariant
            it.seq() == all,
            it.index() <= all.len(),
            views.len() == all.len(),
            forall|j: int| 0 <= j < all.len() ==> (#[trigger] views[j]) == all[j].deep_view(),
            texts(known@) == keys_of(base.step_results),
            entries(baseline) == base.variables,
            state.wf(),
            state@ == merged_branches(base, views.take(it.index() as int)),
            match first {
                Some(e) => first_branch_error(views.take(it.index() as int)) == Some(e@),
                None => first_branch_error(views.take(it.index() as int)) is None,
            },
            failed == a_branch_failed(views.take(it.index() as int)),
            results@.len() == it.index(),
            forall|j: int|
                0 <= j < it.index() ==> (#[trigger] results@[j])@ == branch_result(views[j]),
    {
        let ghost i = it.index() as int;
        let ghost was_failed = failed;
        proof {
            assert(views.take(i + 1).drop_last() =~= views.take(i));
            assert(views[i] == slot.deep_view());
            assert(views.take(i + 1)[i] == views[i]);
            assert forall|j: int| 0 <= j < i implies #[trigger] views.take(i + 1)[j] == views.take(
                i,
            )[j] by {}
        }
        match slot {
            None => {
                results.push(Json::Null);
            },
            Some(branch) => {
                let JoinedBranch { state: own, end } = branch;
                merge_parallel_branch_state(state, own, &known, &baseline);
                let BranchEnd { last, end } = end;
                match end {
                    Err(e) => {
                        failed = true;
                        if first.is_none() {
                            first = Some(e);
                        }
                    },
                    Ok(false) => {
                        failed = true;
                    },
                    Ok(true) => {},
                }
                results.push(
                    match last {
                        Some(v) => v,
                        None => Json::Null,
                    },
                );
            },
        }
        proof {
            if was_failed {
                let k = choose|k: int|
                    0 <= k < views.take(i).len() && (#[trigger] views.take(i)[k]) is Some
                        && views.take(i)[k]->0.end.end != Ok::<bool, ErrorView>(true);
                assert(views.take(i + 1)[k] is Some);
            }
            if a_branch_failed(views.take(i + 1)) && !was_failed {
                let k = choose|k: int|
                    0 <= k < views.take(i + 1).len() && (#[trigger] views.take(i + 1)[k]) is Some
                        && views.take(i + 1)[k]->0.end.end != Ok::<bool, ErrorView>(true);
                if k < i {
                    assert(views.take(i)[k] is Some);
                }
            }
        }
    }
    assert(views.take(views.len() as int) =~= views);
    if let Some(e) = first {
        return Err(e);
    }
    if let Some(e) = merge_over_budget(state) {
        return Err(e);
    }
    let array = Json::Array(results);
    proof {
        lemma_array_view(results);
        assert(json_views(results@) =~= views.map_values(
            |b: Option<JoinedView>| branch_result(b),
        ));
    }
    state.store_step_result(step_id, array);
    Ok(!failed)
}

/// Every branch of a `parallel` step begins on the same state: none sees what another does.
pub proof fn law_branches_do_not_see_each_other(s: StateView, a: Seq<StepView>, b: Seq<StepView>)
    requires
        a.len() > 0,
        b.len() > 0,
    ensures
        forked(s, a)->0.state == opened(s, a),
        forked(s, b)->0.state == opened(s, b),
        (StateView { steps: s.steps, ..forked(s, a)->0.state }) == (StateView {
            steps: s.steps,
            ..forked(s, b)->0.state
        }),
{
}

/// The `return` of the first branch, in their order, that gave one is that of the step.
pub open spec fn first_return(branches: Seq<Option<JoinedView>>) -> Option<JsonView>
    decreases branches.len(),
{
    if branches.len() == 0 {
        None
    } else {
        first_some(
            first_return(branches.drop_last()),
            match branches.last() {
                Some(b) => b.state.return_signal,
                None => None,
            },
        )
    }
}

/// The first branch that returned, in their order, wins; a state that had returned keeps its value.
/// Whether a step stopped on a cancellation is not carried over, nor are the steps of a branch.
pub proof fn law_first_return_wins(base: StateView, branches: Seq<Option<JoinedView>>)
    ensures
        merged_branches(base, branches).return_signal == first_some(
            base.return_signal,
            first_return(branches),
        ),
        merged_branches(base, branches).cancelled == base.cancelled,
        merged_branches(base, branches).steps == base.steps,
        merged_branches(base, branches).limits == base.limits,
    decreases branches.len(),
{
    if branches.len() > 0 {
        law_first_return_wins(base, branches.drop_last());
        if let Some(b) = branches.last() {
            lemma_new_results(
                merged_branches(base, branches.drop_last()),
                b.state.step_results,
                keys_of(base.step_results),
            );
        }
    }
}

proof fn lemma_new_results(
    s: StateView,
    from: Seq<(Seq<char>, JsonView)>,
    known: Seq<Seq<char>>,
)
    ensures
        with_new_results(s, from, known).return_signal == s.return_signal,
        with_new_results(s, from, known).cancelled == s.cancelled,
        with_new_results(s, from, known).steps == s.steps,
        with_new_results(s, from, known).limits == s.limits,
        with_new_results(s, from, known).variables == s.variables,
    decreases from.len(),
{
    if from.len() > 0 {
        lemma_new_results(s, from.drop_last(), known);
    }
}

/// A variable that was there before a `parallel` step has its value after it, whatever the branches
/// wrote.
pub proof fn law_branches_change_no_variable(
    base: StateView,
    branches: Seq<Option<JoinedView>>,
    name: Seq<char>,
)
    requires
        lookup(base.variables, name) is Some,
    ensures
        lookup(merged_branches(base, branches).variables, name) == lookup(base.variables, name),
    decreases branches.len(),
{
    if branches.len() > 0 {
        law_branches_change_no_variable(base, branches.drop_last(), name);
        if let Some(b) = branches.last() {
            let before = merged_branches(base, branches.drop_last());
            lemma_new_results(before, b.state.step_results, keys_of(base.step_results));
            lemma_new_variables(before.variables, b.state.variables, base.variables, name);
        }
    }
}

proof fn lemma_new_variables(
    into: Seq<(Seq<char>, JsonView)>,
    from: Seq<(Seq<char>, JsonView)>,
    baseline: Seq<(Seq<char>, JsonView)>,
    name: Seq<char>,
)
    requires
        lookup(baseline, name) is Some,
    ensures
        lookup(with_new_variables(into, from, baseline), name) == lookup(
            into,
            name,
        ),
    decreases from.len(),
{
    if from.len() > 0 {
        lemma_new_variables(into, from.drop_last(), baseline, name);
        let before = with_new_variables(into, from.drop_last(), baseline);
        lemma_put(before, from.last().0, from.last().1, name);
    }
}

/// A `parallel` step succeeds where every branch does and the merge stays in its limit: a branch that
/// fails fails the step, though another returned.
pub proof fn law_any_failure_fails_the_step(
    s: StateView,
    step_id: Seq<char>,
    branches: Seq<Option<JoinedView>>,
    i: int,
)
    requires
        0 <= i < branches.len(),
        branches[i] is Some,
        branches[i]->0.end.end != Ok::<bool, ErrorView>(true),
    ensures
        parallel_joined(s, step_id, branches).0 != Ok::<bool, ErrorView>(true),
{
}

} // verus!
