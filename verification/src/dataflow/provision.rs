//! The streams that the long-running steps of a pipeline write into, made before anything runs.

use vstd::prelude::*;

use crate::error::{ErrorView, KernelError};
use crate::exec_state::{ExecutionState, StateView};
use crate::index_map::{insert, put};
use crate::json::{Json, JsonView, Number, NumberView};
use crate::manifest::{DagPlan, PlanView, StepDef, StepView};
use crate::native_impls::Held;
use crate::registry::at;
use crate::table::Table;
use crate::text::{cat4, cat5, decimal, decimal_text};

verus! {

/// The making of streams: the step it is at, the handles that steps write into, and the branches of
/// the streams that several steps read.
pub struct Provisioning {
    pos: usize,
    outputs: Table<String, Held<u32>>,
    fanout: Table<usize, Vec<u32>>,
}

/// What a [`Provisioning`] stands for.
#[verifier::ext_equal]
pub struct ProvisionView {
    pub pos: nat,
    pub outputs: Map<Seq<char>, u32>,
    pub fanout: Map<usize, Seq<u32>>,
}

impl View for Provisioning {
    type V = ProvisionView;

    closed spec fn view(&self) -> ProvisionView {
        ProvisionView {
            pos: self.pos as nat,
            outputs: self.outputs.map(),
            fanout: self.fanout.map(),
        }
    }
}

/// The state with a step as its first, where none was before.
pub open spec fn with_first(s: StateView, id: Seq<char>) -> StateView {
    StateView {
        first_step_id: if s.first_step_id is Some {
            s.first_step_id
        } else {
            Some(id)
        },
        ..s
    }
}

/// What a step with consumers is told whose output was made elsewhere.
pub open spec fn given_but_read(id: Seq<char>, consumers: nat) -> Seq<char> {
    "io.invoke_streaming: step '"@ + id + "' has "@ + decimal(consumers)
        + " in-action consumer(s); pre-allocated output is only valid when consumers is empty"@
}

/// What comes of looking for the next step that needs a stream: its index; or an error; or, where
/// there is none, the handles go into the state. A step whose output was made elsewhere writes into
/// that, and nothing in the action may read it.
pub open spec fn next_need(
    p: ProvisionView,
    s: StateView,
    plan: PlanView,
    steps: Seq<StepView>,
    given: Map<Seq<char>, u32>,
) -> (Result<Option<int>, ErrorView>, ProvisionView, StateView)
    decreases steps.len() - p.pos,
{
    if p.pos >= steps.len() {
        (Ok(None), p, StateView { dataflow_outputs: p.outputs, ..s })
    } else {
        let step = steps[p.pos as int];
        let consumers = plan.consumers[p.pos as int];
        let next = ProvisionView { pos: p.pos + 1, ..p };
        if !step.long_running {
            next_need(next, s, plan, steps, given)
        } else {
            match at(given, step.id) {
                None => (Ok(Some(p.pos as int)), p, s),
                Some(handle) => if consumers.len() > 0 {
                    (
                        Err(ErrorView::Validation(given_but_read(step.id, consumers.len()))),
                        p,
                        s,
                    )
                } else {
                    next_need(
                        ProvisionView { outputs: p.outputs.insert(step.id, handle), ..next },
                        with_first(s, step.id),
                        plan,
                        steps,
                        given,
                    )
                },
            }
        }
    }
}

/// The number of a handle as a value.
pub open spec fn handle_value(handle: u32) -> JsonView {
    JsonView::Number(NumberView::PosInt(handle as u64))
}

/// What comes of the stream that was made for the step at hand: the step writes into the one end, and
/// the other is its result. Several consumers need a branch each.
pub open spec fn piped(
    p: ProvisionView,
    s: StateView,
    plan: PlanView,
    steps: Seq<StepView>,
    writable: u32,
    readable: u32,
) -> (Option<nat>, ProvisionView, StateView) {
    let id = steps[p.pos as int].id;
    let consumers = plan.consumers[p.pos as int].len();
    let kept = ProvisionView { outputs: p.outputs.insert(id, writable), ..p };
    let s1 = with_first(
        StateView { step_results: put(s.step_results, id, handle_value(readable)), ..s },
        id,
    );
    if consumers > 1 {
        (Some(consumers), kept, s1)
    } else {
        (None, ProvisionView { pos: p.pos + 1, ..kept }, s1)
    }
}

/// The stream of the step at hand was split into branches.
pub open spec fn split(p: ProvisionView, branches: Seq<u32>) -> ProvisionView {
    ProvisionView {
        pos: p.pos + 1,
        fanout: p.fanout.insert(p.pos as usize, branches),
        ..p
    }
}

impl Provisioning {
    /// No table has two entries under one key.
    pub closed spec fn wf(&self) -> bool {
        self.outputs.wf() && self.fanout.wf()
    }

    /// Begins with the first step.
    pub fn new() -> (r: Provisioning)
        ensures
            r.wf(),
            r@ == (ProvisionView { pos: 0, outputs: Map::empty(), fanout: Map::empty() }),
    {
        Provisioning { pos: 0, outputs: Table::new(), fanout: Table::new() }
    }

    /// Looks for the next step that needs a stream.
    pub fn next(
        &mut self,
        state: &mut ExecutionState,
        plan: &DagPlan,
        steps: &Vec<StepDef>,
        given: &Table<String, Held<u32>>,
    ) -> (r: Result<Option<usize>, KernelError>)
        requires
            old(self).wf(),
            old(state).wf(),
            given.wf(),
            plan.deep_view().fits(steps@.len()),
        ensures
            final(self).wf(),
            final(state).wf(),
            ({
                let (found, p, s) = next_need(
                    old(self)@,
                    old(state)@,
                    plan.deep_view(),
                    steps.deep_view(),
                    given.map(),
                );
                &&& final(self)@ == p
                &&& final(state)@ == s
                &&& match r {
                    Ok(Some(i)) => found == Ok::<Option<int>, ErrorView>(Some(i as int)),
                    Ok(None) => found == Ok::<Option<int>, ErrorView>(None),
                    Err(e) => found == Err::<Option<int>, ErrorView>(e@),
                }
                &&& r is Ok && r->Ok_0 is Some ==> r->Ok_0->0 < steps@.len() && final(self)@.pos
                    == r->Ok_0->0
            }),
    {
        let ghost goal = next_need(
            self@,
            state@,
            plan.deep_view(),
            steps.deep_view(),
            given.map(),
        );
        let ghost pv = plan.deep_view();
        let ghost views = steps.deep_view();
        assert(pv.consumers.len() == plan.consumers@.len());
        while self.pos < steps.len()
            invariant
                self.wf(),
                state.wf(),
                given.wf(),
                pv == plan.deep_view(),
                pv.fits(steps@.len()),
                pv.consumers.len() == plan.consumers@.len(),
                views == steps.deep_view(),
                goal == next_need(old(self)@, old(state)@, pv, views, given.map()),
                goal == next_need(self@, state@, pv, views, given.map()),
            decreases steps@.len() - self.pos,
        {
            let i: usize = self.pos;
        assert(i < steps.len());
            let step = &steps[i];
            proof {
                assert(views[i as int] == steps@[i as int].deep_view());
                assert(pv.consumers[i as int] == plan.consumers@[i as int].deep_view());
                assert(pv.consumers[i as int].len() == plan.consumers@[i as int]@.len());
            }
            if step.long_running {
                match given.get(&step.id) {
                    None => {
                        return Ok(Some(i));
                    },
                    Some(handle) => {
                        let consumers: usize = plan.consumers[i].len();
                        if consumers > 0 {
                            let count = decimal_text(consumers as u64);
                            return Err(
                                KernelError::Validation(
                                    cat5(
                                        "io.invoke_streaming: step '",
                                        step.id.as_str(),
                                        "' has ",
                                        count.as_str(),
                                        " in-action consumer(s); pre-allocated output is only valid when consumers is empty",
                                    ),
                                ),
                            );
                        }
                        self.outputs.insert(step.id.clone(), Held { body: handle.body });
                        if state.first_step_id.is_none() {
                            state.first_step_id = Some(step.id.clone());
                        }
                    },
                }
            }
            self.pos = i + 1;
        }
        state.dataflow_outputs = self.outputs.duplicate_table();
        Ok(None)
    }

    /// Takes in the stream that was made for the step at hand, and gives the number of branches that it
    /// needs, where it needs any.
    pub fn piped(
        &mut self,
        state: &mut ExecutionState,
        plan: &DagPlan,
        steps: &Vec<StepDef>,
        writable: u32,
        readable: u32,
    ) -> (r: Option<usize>)
        requires
            old(self).wf(),
            old(state).wf(),
            plan.deep_view().fits(steps@.len()),
            old(self)@.pos < steps@.len(),
        ensures
            final(self).wf(),
            final(state).wf(),
            ({
                let (branches, p, s) = piped(
                    old(self)@,
                    old(state)@,
                    plan.deep_view(),
                    steps.deep_view(),
                    writable,
                    readable,
                );
                &&& final(self)@ == p
                &&& final(state)@ == s
                &&& match r {
                    Some(n) => branches == Some(n as nat),
                    None => branches is None,
                }
            }),
    {
        let i: usize = self.pos;
        assert(i < steps.len());
        let ghost pv = plan.deep_view();
        proof {
            assert(pv.consumers.len() == plan.consumers@.len());
            assert(steps.deep_view()[i as int] == steps@[i as int].deep_view());
            assert(pv.consumers[i as int] == plan.consumers@[i as int].deep_view());
            assert(pv.consumers[i as int].len() == plan.consumers@[i as int]@.len());
        }
        let step = &steps[i];
        self.outputs.insert(step.id.clone(), Held { body: writable });
        insert(
            &mut state.step_results,
            step.id.clone(),
            Json::Number(Number::PosInt(readable as u64)),
        );
        if state.first_step_id.is_none() {
            state.first_step_id = Some(step.id.clone());
        }
        let consumers: usize = plan.consumers[i].len();
        if consumers > 1 {
            Some(consumers)
        } else {
            self.pos = i + 1;
            None
        }
    }

    /// Takes in the branches of the stream of the step at hand, or why there are none.
    pub fn branched(&mut self, steps: &Vec<StepDef>, branches: Result<Vec<u32>, String>) -> (r: Result<
        (),
        KernelError,
    >)
        requires
            old(self).wf(),
            old(self)@.pos < steps@.len(),
        ensures
            final(self).wf(),
            match branches {
                Ok(v) => r is Ok && final(self)@ == split(old(self)@, v.deep_view()),
                Err(e) => {
                    &&& r is Err
                    &&& r->Err_0@ == ErrorView::Execution(
                        "Dataflow fan-out setup failed for long-running producer '"@
                            + steps.deep_view()[old(self)@.pos as int].id + "': "@ + e@,
                    )
                    &&& final(self)@ == old(self)@
                },
            },
    {
        let i: usize = self.pos;
        assert(i < steps.len());
        assert(steps.deep_view()[i as int] == steps@[i as int].deep_view());
        match branches {
            Ok(v) => {
                self.fanout.insert(i, v);
                self.pos = i + 1;
                Ok(())
            },
            Err(e) => Err(
                KernelError::Execution(
                    cat4(
                        "Dataflow fan-out setup failed for long-running producer '",
                        steps[i].id.as_str(),
                        "': ",
                        e.as_str(),
                    ),
                ),
            ),
        }
    }

    /// The branches of the streams that several steps read.
    pub fn into_fanout(self) -> (r: Table<usize, Vec<u32>>)
        requires
            self.wf(),
        ensures
            r.wf(),
            r.map() == self@.fanout,
    {
        self.fanout
    }
}

/// The long-running steps before the one at hand have outputs.
pub open spec fn provided(p: ProvisionView, steps: Seq<StepView>) -> bool {
    forall|i: int|
        0 <= i < p.pos && i < steps.len() && (#[trigger] steps[i]).long_running
            ==> p.outputs.contains_key(steps[i].id)
}

/// Every long-running step has an output before anything runs: looking for the next step passes over
/// none that has no output, and when there is no next step the state has the output of every one.
pub proof fn law_every_producer_has_an_output(
    p: ProvisionView,
    s: StateView,
    plan: PlanView,
    steps: Seq<StepView>,
    given: Map<Seq<char>, u32>,
)
    requires
        provided(p, steps),
    ensures
        provided(next_need(p, s, plan, steps, given).1, steps),
        next_need(p, s, plan, steps, given).0 == Ok::<Option<int>, ErrorView>(None) ==> forall|
            i: int,
        |
            0 <= i < steps.len() && (#[trigger] steps[i]).long_running ==> next_need(
                p,
                s,
                plan,
                steps,
                given,
            ).2.dataflow_outputs.contains_key(steps[i].id),
    decreases steps.len() - p.pos,
{
    if p.pos < steps.len() {
        let step = steps[p.pos as int];
        let next = ProvisionView { pos: p.pos + 1, ..p };
        if !step.long_running {
            law_every_producer_has_an_output(next, s, plan, steps, given);
        } else if let Some(handle) = at(given, step.id) {
            if plan.consumers[p.pos as int].len() == 0 {
                law_every_producer_has_an_output(
                    ProvisionView { outputs: p.outputs.insert(step.id, handle), ..next },
                    with_first(s, step.id),
                    plan,
                    steps,
                    given,
                );
            }
        }
    }
}

/// A stream that was made is the output of its step.
pub proof fn law_a_stream_is_an_output(
    p: ProvisionView,
    s: StateView,
    plan: PlanView,
    steps: Seq<StepView>,
    writable: u32,
    readable: u32,
)
    requires
        provided(p, steps),
        p.pos < steps.len(),
    ensures
        provided(piped(p, s, plan, steps, writable, readable).1, steps),
        piped(p, s, plan, steps, writable, readable).1.outputs[steps[p.pos as int].id] == writable,
{
}

} // verus!
