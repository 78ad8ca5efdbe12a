//! Streams with several consumers: each consumer reads a branch of its own.

use vstd::prelude::*;

use crate::error::{ErrorView, KernelError};
use crate::exec_state::{ExecutionState, StateView};
use crate::json::{lookup, Json, JsonView, Number, NumberView};
use crate::manifest::{DagPlan, PlanView, StepDef, StepView};
use crate::native_impls::Held;
use crate::registry::at;
use crate::table::Table;
use crate::text::cat3;

verus! {

/// Every index of a list is below `n`.
pub open spec fn below(v: Seq<usize>, n: nat) -> bool {
    forall|i: int| 0 <= i < v.len() ==> (#[trigger] v[i]) < n
}

/// Every index of every list is below `n`.
pub open spec fn all_below(v: Seq<Seq<usize>>, n: nat) -> bool {
    forall|i: int| 0 <= i < v.len() ==> below(#[trigger] v[i], n)
}

impl PlanView {
    /// The plan is one for `n` steps.
    pub open spec fn fits(self, n: nat) -> bool {
        &&& self.deps.len() == n
        &&& self.consumers.len() == n
        &&& all_below(self.deps, n)
        &&& all_below(self.consumers, n)
        &&& all_below(self.waves, n)
    }
}

fn indices_below(v: &Vec<Vec<usize>>, n: usize) -> (r: bool)
    ensures
        r == all_below(v.deep_view(), n as nat),
{
    let ghost views = v.deep_view();
    let mut i: usize = 0;
    while i < v.len()
        invariant
            i <= v@.len(),
            views == v.deep_view(),
            forall|k: int| 0 <= k < i ==> below(#[trigger] views[k], n as nat),
        decreases v@.len() - i,
    {
        let ghost here = views[i as int];
        assert(here == v@[i as int].deep_view());
        let mut j: usize = 0;
        while j < v[i].len()
            invariant
                i < v@.len(),
                j <= v@[i as int]@.len(),
                views == v.deep_view(),
                here == views[i as int],
                here == v@[i as int].deep_view(),
                forall|k: int| 0 <= k < j ==> (#[trigger] here[k]) < n,
            decreases v@[i as int]@.len() - j,
        {
            assert(here[j as int] == v@[i as int]@[j as int]);
            if v[i][j] >= n {
                assert(!below(views[i as int], n as nat));
                return false;
            }
            j += 1;
        }
        i += 1;
    }
    true
}

impl DagPlan {
    /// Whether the plan is one for `n` steps.
    pub fn fits(&self, n: usize) -> (r: bool)
        ensures
            r == self.deep_view().fits(n as nat),
    {
        assert(self.deps.deep_view().len() == self.deps@.len());
        assert(self.consumers.deep_view().len() == self.consumers@.len());
        self.deps.len() == n && self.consumers.len() == n && indices_below(&self.deps, n)
            && indices_below(&self.consumers, n) && indices_below(&self.waves, n)
    }
}

/// The position of the first `x` in `v`, from `i` on.
pub open spec fn position_of(v: Seq<usize>, x: usize, i: int) -> Option<int>
    decreases v.len() - i,
{
    if i < 0 || i >= v.len() {
        None
    } else if v[i] == x {
        Some(i)
    } else {
        position_of(v, x, i + 1)
    }
}

fn find_position(v: &Vec<usize>, x: usize) -> (r: Option<usize>)
    ensures
        match r {
            Some(i) => position_of(v.deep_view(), x, 0) == Some(i as int) && i < v@.len(),
            None => position_of(v.deep_view(), x, 0) is None,
        },
{
    let ghost views = v.deep_view();
    let mut i: usize = 0;
    while i < v.len()
        invariant
            i <= v@.len(),
            views == v.deep_view(),
            position_of(views, x, 0) == position_of(views, x, i as int),
        decreases v@.len() - i,
    {
        assert(views[i as int] == v@[i as int]);
        if v[i] == x {
            return Some(i);
        }
        i += 1;
    }
    None
}

/// The branch that the step `idx` reads in place of what the step `dep` produced.
pub open spec fn branch_for(
    plan: PlanView,
    fanout: Map<usize, Seq<u32>>,
    idx: usize,
    dep: usize,
) -> Option<u32> {
    match at(fanout, dep) {
        Some(branches) => match position_of(plan.consumers[dep as int], idx, 0) {
            Some(p) => if p < branches.len() {
                Some(branches[p])
            } else {
                None
            },
            None => None,
        },
        None => None,
    }
}

/// The branches that the step `idx` reads, by the step that produced each.
pub open spec fn overrides(
    plan: PlanView,
    steps: Seq<StepView>,
    fanout: Map<usize, Seq<u32>>,
    idx: usize,
    deps: Seq<usize>,
) -> Map<Seq<char>, u32>
    decreases deps.len(),
{
    if deps.len() == 0 {
        Map::empty()
    } else {
        let before = overrides(plan, steps, fanout, idx, deps.drop_last());
        match branch_for(plan, fanout, idx, deps.last()) {
            Some(b) => before.insert(steps[deps.last() as int].id, b),
            None => before,
        }
    }
}

/// The state of a step that reads its own branches of the streams that were split.
pub open spec fn with_overrides(
    s: StateView,
    plan: PlanView,
    steps: Seq<StepView>,
    fanout: Map<usize, Seq<u32>>,
    idx: usize,
) -> StateView {
    StateView {
        active_fanout_overrides: overrides(plan, steps, fanout, idx, plan.deps[idx as int]),
        ..s
    }
}

/// Lets a step read its branches in place of what the producers among its dependencies produced.
pub fn populate_fanout_overrides_on_state(
    state: &mut ExecutionState,
    plan: &DagPlan,
    steps: &Vec<StepDef>,
    step_idx: usize,
    fanout: &Table<usize, Vec<u32>>,
)
    requires
        old(state).wf(),
        fanout.wf(),
        plan.deep_view().fits(steps@.len()),
        step_idx < steps@.len(),
    ensures
        final(state).wf(),
        final(state)@ == with_overrides(
            old(state)@,
            plan.deep_view(),
            steps.deep_view(),
            fanout.map(),
            step_idx,
        ),
{
    let ghost p = plan.deep_view();
    let ghost views = steps.deep_view();
    let ghost deps = p.deps[step_idx as int];
    assert(p.deps.len() == plan.deps@.len());
    assert(deps == plan.deps@[step_idx as int].deep_view());
    let mut out: Table<String, Held<u32>> = Table::new();
    assert(deps.take(0) =~= Seq::empty());
    let mut i: usize = 0;
    while i < plan.deps[step_idx].len()
        invariant
            i <= plan.deps@[step_idx as int]@.len(),
            step_idx < plan.deps@.len(),
            p == plan.deep_view(),
            p.fits(steps@.len()),
            views == steps.deep_view(),
            deps == p.deps[step_idx as int],
            deps == plan.deps@[step_idx as int].deep_view(),
            fanout.wf(),
            out.wf(),
            out.map() == overrides(p, views, fanout.map(), step_idx, deps.take(i as int)),
        decreases plan.deps@[step_idx as int]@.len() - i,
    {
        let dep: usize = plan.deps[step_idx][i];
        proof {
            assert(deps[i as int] == dep);
            assert(below(p.deps[step_idx as int], steps@.len()));
            assert(dep < steps@.len());
            assert(p.consumers.len() == plan.consumers@.len());
            assert(p.consumers[dep as int] == plan.consumers@[dep as int].deep_view());
            assert(deps.take(i as int + 1).drop_last() =~= deps.take(i as int));
        }
        if let Some(branches) = fanout.get(&dep) {
            if let Some(k) = find_position(&plan.consumers[dep], step_idx) {
                assert(branches.deep_view().len() == branches@.len());
                if k < branches.len() {
                    assert(branches.deep_view()[k as int] == branches@[k as int]);
                    assert(views[dep as int] == steps@[dep as int].deep_view());
                    out.insert(steps[dep].id.clone(), Held { body: branches[k] });
                }
            }
        }
        i += 1;
    }
    assert(deps.take(deps.len() as int) =~= deps);
    state.active_fanout_overrides = out;
}

/// The handle of a stream in a step's result: a whole number above zero that fits.
pub open spec fn handle_in(result: Option<JsonView>) -> Option<u32> {
    match result {
        Some(JsonView::Number(NumberView::PosInt(n))) => if 0 < n && n <= u32::MAX {
            Some(n as u32)
        } else {
            None
        },
        _ => None,
    }
}

/// The handle of a stream that is to be split: the result of a step with several consumers.
pub open spec fn handle_to_split(s: StateView, consumers: Seq<usize>, id: Seq<char>) -> Option<u32> {
    if consumers.len() < 2 {
        None
    } else {
        handle_in(lookup(s.step_results, id))
    }
}

/// The handle that has to be turned into branches after a step ran: the step has several consumers
/// and its result is a handle.
pub fn fanout_handle(state: &ExecutionState, plan: &DagPlan, step_idx: usize, step_id: &str) -> (r:
    Option<u32>)
    requires
        step_idx < plan.deep_view().consumers.len(),
    ensures
        r == handle_to_split(state@, plan.deep_view().consumers[step_idx as int], step_id@),
{
    assert(plan.deep_view().consumers.len() == plan.consumers@.len());
    assert(plan.deep_view().consumers[step_idx as int]
        == plan.consumers@[step_idx as int].deep_view());
    assert(plan.consumers@[step_idx as int].deep_view().len()
        == plan.consumers@[step_idx as int]@.len());
    if plan.consumers[step_idx].len() < 2 {
        return None;
    }
    match state.step_result(step_id) {
        Some(Json::Number(Number::PosInt(n))) => {
            if 0 < *n && *n <= u32::MAX as u64 {
                Some(*n as u32)
            } else {
                None
            }
        },
        _ => None,
    }
}

/// How a stream is turned into branches.
#[derive(Debug, Clone, Copy, PartialEq, Eq, Structural)]
pub enum FanoutMode {
    /// Branch by branch as it is read, which takes consumers that run at the same time.
    Streaming,
    /// Read to its end first, which consumers that run one after the other need.
    Eager,
}

/// How a stream is split: at once for consumers that run at once, else by reading it to its end.
pub open spec fn mode_of(parallel_waves: bool) -> FanoutMode {
    if parallel_waves {
        FanoutMode::Streaming
    } else {
        FanoutMode::Eager
    }
}

/// How the streams of an action are turned into branches.
pub fn fanout_mode(parallel_waves: bool) -> (r: FanoutMode)
    ensures
        r == mode_of(parallel_waves),
{
    if parallel_waves {
        FanoutMode::Streaming
    } else {
        FanoutMode::Eager
    }
}

/// Keeps the branches of a step's stream, or tells why there are none.
pub fn install_fanout(
    fanout: &mut Table<usize, Vec<u32>>,
    step_idx: usize,
    step_id: &str,
    branches: Result<Vec<u32>, String>,
) -> (r: Result<(), KernelError>)
    requires
        old(fanout).wf(),
    ensures
        final(fanout).wf(),
        match branches {
            Ok(v) => r is Ok && final(fanout).map() == old(fanout).map().insert(
                step_idx,
                v.deep_view(),
            ),
            Err(e) => r is Err && r->Err_0@ == ErrorView::Execution(
                "Internal: stream fan-out setup failed for step '"@ + step_id@ + "': "@ + e@,
            ) && final(fanout).map() == old(fanout).map(),
        },
{
    match branches {
        Ok(v) => {
            fanout.insert(step_idx, v);
            Ok(())
        },
        Err(e) => {
            let mut w = cat3("Internal: stream fan-out setup failed for step '", step_id, "': ");
            w.append(e.as_str());
            Err(KernelError::Execution(w))
        },
    }
}

} // verus!
