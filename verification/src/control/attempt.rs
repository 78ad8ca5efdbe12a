//! `try` steps: a body, a handler for its failure, and a cleanup behind both.

use vstd::prelude::*;

use crate::control::{
    addressable, closed_to, ids_of, opened, polled, read_steps_under, report, steps_under, Block,
    BlockView, Turn, TurnView,
};
use crate::error::{ErrorView, KernelError};
use crate::exec_state::{
    stored, CalleeError, CalleeView, ExecutionState, PluginErrorPayload, ResourceViolation,
    StateView, ThrownView,
};
use crate::json::{lookup, Json, JsonView};
use crate::manifest::{StepDef, StepView};
use crate::text::cat3;
use crate::waves::ran_view;

verus! {

/// The block of a `try` step that runs.
#[derive(Debug, Clone, Copy, PartialEq, Eq, Structural)]
pub enum TryPhase {
    Body,
    Handler,
    Cleanup,
}

/// What marks a failure in a state.
pub struct Marks {
    last_error: Option<String>,
    plugin_error: Option<PluginErrorPayload>,
    resource_violation: Option<ResourceViolation>,
    callee_error: Option<CalleeError>,
}

/// What [`Marks`] stand for.
pub struct MarksView {
    pub last_error: Option<Seq<char>>,
    pub plugin_error: Option<ThrownView>,
    pub resource_violation: Option<ResourceViolation>,
    pub callee_error: Option<CalleeView>,
}

impl DeepView for Marks {
    type V = MarksView;

    closed spec fn deep_view(&self) -> MarksView {
        MarksView {
            last_error: self.last_error.deep_view(),
            plugin_error: self.plugin_error.deep_view(),
            resource_violation: self.resource_violation,
            callee_error: self.callee_error.deep_view(),
        }
    }
}

/// A `try` step while one of its blocks runs.
pub struct TryRun {
    step_id: String,
    handler: Option<Vec<StepDef>>,
    cleanup: Vec<StepDef>,
    phase: TryPhase,
    block: Block,
    last: Option<Json>,
    failed: bool,
    error: Option<KernelError>,
    marks: Option<Marks>,
}

/// What a [`TryRun`] stands for.
pub struct TryView {
    pub step_id: Seq<char>,
    /// What runs on a failure; a step without it does not handle one.
    pub handler: Option<Seq<StepView>>,
    pub cleanup: Seq<StepView>,
    pub phase: TryPhase,
    pub block: BlockView,
    /// The result of the last step of the body, or of the handler where that ran.
    pub last: Option<JsonView>,
    /// A failure was not handled.
    pub failed: bool,
    /// The error that ended the body or the handler, and that the step ends with after its cleanup.
    pub error: Option<ErrorView>,
    /// What marked the failure, or came with the error, that the step ends with after its cleanup.
    pub marks: Option<MarksView>,
}

impl View for TryRun {
    type V = TryView;

    closed spec fn view(&self) -> TryView {
        TryView {
            step_id: self.step_id@,
            handler: self.handler.deep_view(),
            cleanup: self.cleanup.deep_view(),
            phase: self.phase,
            block: self.block@,
            last: self.last.deep_view(),
            failed: self.failed,
            error: match self.error {
                Some(e) => Some(e@),
                None => None,
            },
            marks: self.marks.deep_view(),
        }
    }
}

/// What marks a failure in a state.
pub open spec fn marks_of(s: StateView) -> MarksView {
    MarksView {
        last_error: s.last_error,
        plugin_error: s.plugin_error,
        resource_violation: s.resource_violation,
        callee_error: s.callee_error,
    }
}

/// The state with what marks a failure.
pub open spec fn marked(s: StateView, m: MarksView) -> StateView {
    StateView {
        last_error: m.last_error,
        plugin_error: m.plugin_error,
        resource_violation: m.resource_violation,
        callee_error: m.callee_error,
        ..s
    }
}

/// The state without what marks a failure.
pub open spec fn unmarked(s: StateView) -> StateView {
    StateView {
        last_error: None,
        plugin_error: None,
        resource_violation: None,
        callee_error: None,
        ..s
    }
}

/// What a handler reads as the error: the message of the failure.
pub open spec fn handled_error(s: StateView, step_id: Seq<char>) -> Seq<char> {
    match s.last_error {
        Some(e) => e,
        None => "step '"@ + step_id + "' failed"@,
    }
}

/// The state without the innermost error that is handled.
pub open spec fn error_popped(s: StateView) -> StateView {
    StateView {
        error_stack: if s.error_stack.len() > 0 {
            s.error_stack.drop_last()
        } else {
            s.error_stack
        },
        ..s
    }
}

/// The end of a `try` step: an error that was kept comes out, and so does a failure that was not
/// handled, which leaves no result, each with its marks; else the step's result is that of the last
/// step of the body or of the handler, and null where there is none.
pub open spec fn composed(t: TryView, s: StateView) -> (TurnView<TryView>, StateView) {
    let s1 = match t.marks {
        Some(m) => marked(s, m),
        None => s,
    };
    if t.error is Some {
        (TurnView::Over(Err(t.error->0)), s1)
    } else if t.failed {
        (TurnView::Over(Ok(false)), s1)
    } else {
        (
            TurnView::Over(Ok(true)),
            stored(
                s,
                t.step_id,
                match t.last {
                    Some(v) => v,
                    None => JsonView::Null,
                },
            ),
        )
    }
}

/// One of the blocks begins.
pub open spec fn entered(t: TryView, s: StateView, phase: TryPhase, steps: Seq<StepView>) -> (
    TurnView<TryView>,
    StateView,
) {
    (
        TurnView::Run(
            TryView { phase, block: BlockView::new(ids_of(steps), s.steps.len()), ..t },
        ),
        opened(s, steps),
    )
}

/// The cleanup begins, where there is one and the action does not return. It sees no mark of a failure
/// or an error that is to come out behind it.
pub open spec fn cleaned(t: TryView, s: StateView) -> (TurnView<TryView>, StateView) {
    if t.cleanup.len() > 0 && s.return_signal is None {
        if t.failed || t.error is Some {
            entered(
                TryView { marks: Some(marks_of(s)), ..t },
                unmarked(s),
                TryPhase::Cleanup,
                t.cleanup,
            )
        } else {
            entered(t, s, TryPhase::Cleanup, t.cleanup)
        }
    } else {
        composed(t, s)
    }
}

/// What follows the body: nothing where the action returns; else the handler of a failure, where
/// there is one, and the cleanup.
pub open spec fn after_body(t: TryView, s: StateView, ok: bool) -> (TurnView<TryView>, StateView) {
    if s.return_signal is Some {
        (TurnView::Over(Ok(true)), s)
    } else if ok {
        cleaned(t, s)
    } else {
        match t.handler {
            None => cleaned(TryView { failed: true, last: None, ..t }, s),
            Some(steps) => if steps.len() == 0 {
                cleaned(TryView { last: None, ..t }, unmarked(s))
            } else {
                let told = StateView {
                    error_stack: s.error_stack.push(handled_error(s, t.step_id)),
                    ..s
                };
                entered(TryView { last: None, ..t }, unmarked(told), TryPhase::Handler, steps)
            },
        }
    }
}

/// The result of the step at hand is the last one, unless this is the cleanup.
pub open spec fn noted(t: TryView, s: StateView, ran: Result<bool, ErrorView>) -> TryView {
    if t.phase != TryPhase::Cleanup && ran == Ok::<bool, ErrorView>(true) {
        TryView { last: lookup(s.step_results, t.block.ids[t.block.pos as int]), ..t }
    } else {
        t
    }
}

/// What follows a block that ended. A cancellation ends the step at once; any other error of the body
/// or of the handler is kept until the cleanup has run, and an error of the cleanup comes out itself.
pub open spec fn ended(t: TryView, s: StateView, end: Result<bool, ErrorView>) -> (
    TurnView<TryView>,
    StateView,
) {
    let s1 = closed_to(s, t.block.offset);
    let s2 = if t.phase == TryPhase::Handler {
        error_popped(s1)
    } else {
        s1
    };
    match end {
        Err(e) => if e is Cancelled || t.phase == TryPhase::Cleanup {
            (TurnView::Over(Err(e)), s2)
        } else {
            cleaned(TryView { error: Some(e), ..t }, s2)
        },
        Ok(ok) => match t.phase {
            TryPhase::Body => after_body(t, s2, ok),
            TryPhase::Handler => cleaned(TryView { failed: !ok, ..t }, s2),
            TryPhase::Cleanup => if ok {
                composed(t, s2)
            } else {
                (TurnView::Over(Ok(false)), s2)
            },
        },
    }
}

/// What follows the step at hand.
pub open spec fn try_next(t: TryView, s: StateView, ran: Result<bool, ErrorView>) -> (
    TurnView<TryView>,
    StateView,
) {
    let t1 = noted(t, s, ran);
    match t.block.end(report(ran, s)) {
        None => (TurnView::Run(TryView { block: t.block.advanced(), ..t1 }), s),
        Some(end) => ended(t1, s, end),
    }
}

/// A `try` step before any of its blocks ran.
pub open spec fn try_of(step: StepView) -> TryView {
    TryView {
        step_id: step.id,
        handler: if step.params.get("catch"@) is Some {
            Some(steps_under(step.params, "catch"@))
        } else {
            None
        },
        cleanup: steps_under(step.params, "finally"@),
        phase: TryPhase::Body,
        block: BlockView::new(Seq::empty(), 0),
        last: None,
        failed: false,
        error: None,
        marks: None,
    }
}

/// How a `try` step begins: with its body, or, where it has none, with what follows it.
pub open spec fn try_begun(step: StepView, s: StateView) -> (TurnView<TryView>, StateView) {
    let body = steps_under(step.params, "try"@);
    if body.len() > 0 {
        entered(try_of(step), s, TryPhase::Body, body)
    } else {
        after_body(try_of(step), s, true)
    }
}

fn unmark(state: &mut ExecutionState)
    requires
        old(state).wf(),
    ensures
        final(state).wf(),
        final(state)@ == unmarked(old(state)@),
{
    state.last_error = None;
    state.plugin_error = None;
    state.resource_violation = None;
    state.callee_error = None;
}

fn take_marks(state: &mut ExecutionState) -> (r: Marks)
    requires
        old(state).wf(),
    ensures
        final(state).wf(),
        final(state)@ == unmarked(old(state)@),
        r.deep_view() == marks_of(old(state)@),
{
    Marks {
        last_error: state.last_error.take(),
        plugin_error: state.plugin_error.take(),
        resource_violation: state.resource_violation.take(),
        callee_error: state.callee_error.take(),
    }
}

fn mark(state: &mut ExecutionState, marks: Marks)
    requires
        old(state).wf(),
    ensures
        final(state).wf(),
        final(state)@ == marked(old(state)@, marks.deep_view()),
{
    state.last_error = marks.last_error;
    state.plugin_error = marks.plugin_error;
    state.resource_violation = marks.resource_violation;
    state.callee_error = marks.callee_error;
}

impl TryRun {
    /// The index of the step at hand fits.
    pub open spec fn wf(&self) -> bool {
        addressable(self@.block)
    }

    /// Begins a `try` step.
    pub fn begin(state: &mut ExecutionState, step: &StepDef) -> (r: Turn<TryRun>)
        requires
            old(state).wf(),
        ensures
            final(state).wf(),
            (r@, final(state)@) == try_begun(step.deep_view(), old(state)@),
            r is Run ==> r->Run_0.wf(),
    {
        let body = read_steps_under(&step.params, "try");
        let handler = if step.params.get("catch").is_some() {
            Some(read_steps_under(&step.params, "catch"))
        } else {
            None
        };
        let cleanup = read_steps_under(&step.params, "finally");
        assert(body.deep_view().len() == body@.len());
        let ghost before = state@;
        let mut block = Block::empty();
        let bodied = body.len() > 0;
        if bodied {
            block = Block::open(state, &body);
        }
        let t = TryRun {
            step_id: step.id.clone(),
            handler,
            cleanup,
            phase: TryPhase::Body,
            block,
            last: None,
            failed: false,
            error: None,
            marks: None,
        };
        if bodied {
            Turn::Run(t)
        } else {
            assert(t@ == try_of(step.deep_view()));
            t.leave_body(state, true)
        }
    }

    /// The index, among the steps of the state, of the step to run; or the cancellation that came
    /// before it, which is then reported in the place of the step.
    pub fn poll(&self, fired: bool) -> (r: Result<usize, KernelError>)
        requires
            self.wf(),
        ensures
            polled(r, self@.block, fired),
    {
        self.block.poll(fired)
    }

    fn compose(self, state: &mut ExecutionState) -> (r: Turn<TryRun>)
        requires
            old(state).wf(),
        ensures
            final(state).wf(),
            (r@, final(state)@) == composed(self@, old(state)@),
            r is Over,
    {
        if self.failed || self.error.is_some() {
            if let Some(marks) = self.marks {
                mark(state, marks);
            }
        }
        if let Some(e) = self.error {
            return Turn::Over(Err(e));
        }
        if self.failed {
            return Turn::Over(Ok(false));
        }
        let value = match self.last {
            Some(v) => v,
            None => Json::Null,
        };
        state.store_step_result(self.step_id.as_str(), value);
        Turn::Over(Ok(true))
    }

    fn enter_cleanup(self, state: &mut ExecutionState) -> (r: Turn<TryRun>)
        requires
            old(state).wf(),
        ensures
            final(state).wf(),
            (r@, final(state)@) == cleaned(self@, old(state)@),
            r is Run ==> r->Run_0.wf(),
    {
        assert(self.cleanup.deep_view().len() == self.cleanup@.len());
        if self.cleanup.len() > 0 && state.return_signal.is_none() {
            let mut t = self;
            if t.failed || t.error.is_some() {
                t.marks = Some(take_marks(state));
            }
            let block = Block::open(state, &t.cleanup);
            Turn::Run(TryRun { phase: TryPhase::Cleanup, block, ..t })
        } else {
            self.compose(state)
        }
    }

    fn leave_body(self, state: &mut ExecutionState, ok: bool) -> (r: Turn<TryRun>)
        requires
            old(state).wf(),
        ensures
            final(state).wf(),
            (r@, final(state)@) == after_body(self@, old(state)@, ok),
            r is Run ==> r->Run_0.wf(),
    {
        if state.return_signal.is_some() {
            return Turn::Over(Ok(true));
        }
        if ok {
            return self.enter_cleanup(state);
        }
        let t = TryRun { last: None, ..self };
        let handled = match &t.handler {
            None => None,
            Some(steps) => {
                assert(steps.deep_view().len() == steps@.len());
                Some(steps.len())
            },
        };
        match handled {
            None => (TryRun { failed: true, ..t }).enter_cleanup(state),
            Some(n) => {
                if n == 0 {
                    unmark(state);
                    return t.enter_cleanup(state);
                }
                let ghost before = state@;
                let message = match &state.last_error {
                    Some(e) => e.clone(),
                    None => cat3("step '", t.step_id.as_str(), "' failed"),
                };
                let ghost text = message@;
                state.error_stack.push(message);
                assert(state.error_stack.deep_view() =~= before.error_stack.push(text));
                unmark(state);
                let block = match &t.handler {
                    Some(steps) => Block::open(state, steps),
                    None => Block::empty(),
                };
                Turn::Run(TryRun { phase: TryPhase::Handler, block, ..t })
            },
        }
    }

    /// Takes in what came of the step at hand.
    pub fn report(self, state: &mut ExecutionState, ran: Result<bool, KernelError>) -> (r: Turn<
        TryRun,
    >)
        requires
            self.wf(),
            old(state).wf(),
        ensures
            final(state).wf(),
            (r@, final(state)@) == try_next(self@, old(state)@, ran_view(ran)),
            r is Run ==> r->Run_0.wf(),
    {
        let mut t = self;
        if t.phase != TryPhase::Cleanup {
            if let Ok(true) = ran {
                t.last = match state.step_result(t.block.id()) {
                    Some(v) => Some(v.clone()),
                    None => None,
                };
            }
        }
        let ghost t1 = t@;
        assert(t1 == noted(self@, state@, ran_view(ran)));
        let end = t.block.absorb(state, ran);
        match end {
            None => Turn::Run(t),
            Some(end) => {
                t.block.close(state);
                if t.phase == TryPhase::Handler {
                    let ghost before = state@;
                    let _ = state.error_stack.pop();
                    assert(state@.error_stack =~= error_popped(before).error_stack);
                }
                match end {
                    Err(e) => if t.phase == TryPhase::Cleanup || matches!(
                        e,
                        KernelError::Cancelled { .. }
                    ) {
                        Turn::Over(Err(e))
                    } else {
                        (TryRun { error: Some(e), ..t }).enter_cleanup(state)
                    },
                    Ok(ok) => match t.phase {
                        TryPhase::Body => t.leave_body(state, ok),
                        TryPhase::Handler => (TryRun { failed: !ok, ..t }).enter_cleanup(state),
                        TryPhase::Cleanup => if ok {
                            t.compose(state)
                        } else {
                            Turn::Over(Ok(false))
                        },
                    },
                }
            },
        }
    }
}

/// The steps of the state are, when a `try` step is over, those that stood before its blocks; and
/// each of its blocks begins where the one before it began.
pub proof fn law_try_restores_steps(t: TryView, s: StateView, ran: Result<bool, ErrorView>)
    requires
        t.block.offset <= s.steps.len(),
    ensures
        match try_next(t, s, ran).0 {
            TurnView::Over(_) => try_next(t, s, ran).1.steps == s.steps.take(t.block.offset as int),
            TurnView::Run(n) => n.block.offset == t.block.offset,
        },
{
}

/// The step at hand ended on a cancellation.
pub open spec fn on_cancellation(s: StateView, ran: Result<bool, ErrorView>) -> bool {
    match ran {
        Err(e) => e is Cancelled,
        Ok(ok) => !ok && s.cancelled,
    }
}

/// A cancellation ends a `try` step at once: neither handler nor cleanup runs under it.
pub proof fn law_cancellation_ends_a_try(t: TryView, s: StateView, ran: Result<bool, ErrorView>)
    requires
        on_cancellation(s, ran),
    ensures
        try_next(t, s, ran).0 == TurnView::<TryView>::Over(
            match ran {
                Err(e) => Err(e),
                Ok(_) => Err(
                    ErrorView::Cancelled { at_step: t.block.ids[t.block.pos as int] },
                ),
            },
        ),
{
}

/// No handler sees an error of a step. Where there is no cleanup to run, the step ends with the error;
/// else the error is kept.
pub proof fn law_try_catches_no_error(t: TryView, s: StateView, e: ErrorView)
    requires
        t.phase != TryPhase::Cleanup,
        !(e is Cancelled),
    ensures
        if t.cleanup.len() > 0 && s.return_signal is None {
            &&& try_next(t, s, Err(e)).0 is Run
            &&& try_next(t, s, Err(e)).0->Run_0.phase == TryPhase::Cleanup
            &&& try_next(t, s, Err(e)).0->Run_0.error == Some(e)
        } else {
            try_next(t, s, Err(e)).0 == TurnView::<TryView>::Over(Err(e))
        },
{
}

/// An error that was kept comes out when the cleanup has run, and while it runs it stays kept.
pub proof fn law_a_kept_error_comes_out(t: TryView, s: StateView)
    requires
        t.phase == TryPhase::Cleanup,
        t.error is Some,
    ensures
        match try_next(t, s, Ok(true)).0 {
            TurnView::Over(r) => r == Err::<bool, ErrorView>(t.error->0),
            TurnView::Run(n) => n.error == t.error && n.phase == TryPhase::Cleanup,
        },
{
}

/// The cleanup runs however the body and the handler end, in success, in failure or with an error,
/// short of a cancellation and of a `return`: a `try` step that has one is not over before it.
pub proof fn law_try_cleans_up(t: TryView, s: StateView, ran: Result<bool, ErrorView>)
    requires
        t.phase != TryPhase::Cleanup,
        t.cleanup.len() > 0,
        s.return_signal is None,
        !on_cancellation(s, ran),
    ensures
        try_next(t, s, ran).0 is Run,
        t.block.end(report(ran, s)) is Some && try_next(t, s, ran).0->Run_0.phase
            != TryPhase::Handler ==> {
            &&& try_next(t, s, ran).0->Run_0.phase == TryPhase::Cleanup
            &&& try_next(t, s, ran).0->Run_0.block.ids == ids_of(t.cleanup)
            &&& try_next(t, s, ran).0->Run_0.block.pos == 0
        },
{
}

/// The handler runs where the body failed, and only there.
pub proof fn law_handler_runs_on_failure(t: TryView, s: StateView, ran: Result<bool, ErrorView>)
    requires
        t.phase == TryPhase::Body,
    ensures
        try_next(t, s, ran).0 is Run && try_next(t, s, ran).0->Run_0.phase == TryPhase::Handler
            <==> {
            &&& ran == Ok::<bool, ErrorView>(false)
            &&& !s.cancelled
            &&& s.return_signal is None
            &&& t.handler is Some
            &&& t.handler->0.len() > 0
        },
{
}

/// A handler without steps swallows a failure: the step succeeds with the result null, and nothing
/// marks the failure any more.
pub proof fn law_empty_handler_swallows(t: TryView, s: StateView)
    requires
        t.phase == TryPhase::Body,
        t.handler == Some(Seq::<StepView>::empty()),
        t.cleanup.len() == 0,
        !t.failed,
        t.error is None,
        !s.cancelled,
        s.return_signal is None,
    ensures
        try_next(t, s, Ok(false)).0 == TurnView::<TryView>::Over(Ok(true)),
        try_next(t, s, Ok(false)).1 == stored(
            unmarked(closed_to(s, t.block.offset)),
            t.step_id,
            JsonView::Null,
        ),
{
}

/// A cleanup that runs for a failure, or for an error, sees no mark of it; and what marked it is back
/// when the cleanup has run.
pub proof fn law_cleanup_keeps_the_failure(t: TryView, s: StateView, later: StateView)
    requires
        t.failed || t.error is Some,
        t.cleanup.len() > 0,
        s.return_signal is None,
    ensures
        ({
            let (turn, after) = cleaned(t, s);
            &&& turn is Run
            &&& marks_of(after) == marks_of(unmarked(s))
            &&& marks_of(composed(turn->Run_0, later).1) == marks_of(s)
            &&& composed(turn->Run_0, later).0 == composed(t, s).0
        }),
{
}

/// A failure of the cleanup fails the step, whatever came before it, and it alone marks the state.
pub proof fn law_cleanup_failure_prevails(t: TryView, s: StateView)
    requires
        t.phase == TryPhase::Cleanup,
        !s.cancelled,
    ensures
        try_next(t, s, Ok(false)).0 == TurnView::<TryView>::Over(Ok(false)),
        marks_of(try_next(t, s, Ok(false)).1) == marks_of(s),
{
}

} // verus!
