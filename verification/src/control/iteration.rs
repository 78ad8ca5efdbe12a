//! `for_each` and `repeat` steps: a block that runs once for each item.

use vstd::prelude::*;

use crate::control::{
    addressable, closed_to, forget, forgotten, ids_of, opened, polled, read_steps_under, report,
    spelt_steps, steps_under, without_keys, Block, BlockView, Turn, TurnView,
};
use crate::error::{ErrorView, KernelError};
use crate::exec_state::{
    approx_value_bytes, capped, list_weight, stored, weight, ExecutionState, StateView,
};
use crate::index_map::lemma_without_key;
use crate::json::{json_views, lemma_array_view, lookup, Json, JsonView};
use crate::manifest::{StepDef, StepView};
use crate::step_shapes::{collect_under, collected, collected_list, collected_under};
use crate::text::{cat2, texts};
use crate::waves::ran_view;

verus! {

/// The two steps that loop.
#[derive(Debug, Clone, Copy, PartialEq, Eq, Structural)]
pub enum LoopKind {
    ForEach,
    Repeat,
}

impl LoopKind {
    /// The name of the host function that begins a loop.
    pub open spec fn begin_name(self) -> Seq<char> {
        match self {
            LoopKind::ForEach => "begin_foreach"@,
            LoopKind::Repeat => "begin_repeat"@,
        }
    }

    /// The name of the host function that begins a loop.
    pub fn begin_fn(self) -> (r: &'static str)
        ensures
            r@ == self.begin_name(),
    {
        match self {
            LoopKind::ForEach => "begin_foreach",
            LoopKind::Repeat => "begin_repeat",
        }
    }
}

/// What a loop waits for: its next item, a step of its block, the value to collect, the test that
/// ends it, or the end of the iteration.
#[derive(Debug, Clone, Copy, PartialEq, Eq, Structural)]
pub enum LoopPhase {
    Advance,
    Body,
    Collect,
    Until,
    End,
}

/// A loop that runs.
pub struct LoopRun {
    step_id: String,
    until: Option<String>,
    collect: Option<String>,
    collected: Vec<Json>,
    collected_bytes: usize,
    /// The ids of the steps of the block, and of those that they carry.
    inner: Vec<String>,
    block: Block,
    phase: LoopPhase,
}

/// What a [`LoopRun`] stands for.
pub struct LoopView {
    pub step_id: Seq<char>,
    pub until: Option<Seq<char>>,
    pub collect: Option<Seq<char>>,
    pub collected: Seq<JsonView>,
    pub collected_bytes: usize,
    /// The ids of the steps of the block, and of those that they carry.
    pub inner: Seq<Seq<char>>,
    pub block: BlockView,
    pub phase: LoopPhase,
}

impl View for LoopRun {
    type V = LoopView;

    closed spec fn view(&self) -> LoopView {
        LoopView {
            step_id: self.step_id@,
            until: self.until.deep_view(),
            collect: self.collect.deep_view(),
            collected: json_views(self.collected@),
            collected_bytes: self.collected_bytes,
            inner: texts(self.inner@),
            block: self.block@,
            phase: self.phase,
        }
    }
}

/// The message of a loop whose begin failed.
pub open spec fn begin_message(s: StateView, kind: LoopKind) -> Seq<char> {
    match s.last_error {
        Some(e) => e,
        None => kind.begin_name() + " returned negative count"@,
    }
}

/// The block of a loop has ended for good: its steps leave the state, and a failure or an error takes
/// the loop's item with it.
pub open spec fn loop_ended(l: LoopView, s: StateView, r: Result<bool, ErrorView>) -> (
    TurnView<LoopView>,
    StateView,
) {
    let s1 = closed_to(s, l.block.offset);
    if r == Ok::<bool, ErrorView>(true) {
        (TurnView::Run(LoopView { phase: LoopPhase::End, ..l }), s1)
    } else {
        (
            TurnView::Over(r),
            StateView {
                foreach_stack: if s1.foreach_stack.len() > 0 {
                    s1.foreach_stack.drop_last()
                } else {
                    s1.foreach_stack
                },
                ..s1
            },
        )
    }
}

/// The loop behind the value it collects.
pub open spec fn to_until(l: LoopView) -> LoopView {
    LoopView {
        phase: if l.until is Some {
            LoopPhase::Until
        } else {
            LoopPhase::Advance
        },
        ..l
    }
}

/// The loop behind a pass through its block.
pub open spec fn pass_done(l: LoopView) -> LoopView {
    if l.collect is Some {
        LoopView { phase: LoopPhase::Collect, ..l }
    } else {
        to_until(l)
    }
}

/// A loop begins that has `count` items, or whose begin failed.
pub open spec fn loop_begun(step: StepView, kind: LoopKind, count: i32, s: StateView) -> (
    TurnView<LoopView>,
    StateView,
) {
    let steps = steps_under(step.params, "steps"@);
    let l = LoopView {
        step_id: step.id,
        until: match kind {
            LoopKind::Repeat => step.params.get_str("until"@),
            LoopKind::ForEach => None,
        },
        collect: step.params.get_str("collect"@),
        collected: Seq::empty(),
        collected_bytes: 0,
        inner: collected_under(step.params, "steps"@, "id"@),
        block: BlockView::new(ids_of(steps), s.steps.len()),
        phase: LoopPhase::Advance,
    };
    if count < 0 {
        (TurnView::Over(Err(ErrorView::Execution(begin_message(s, kind)))), s)
    } else if count == 0 {
        loop_ended(l, opened(s, steps), Ok(true))
    } else {
        (TurnView::Run(l), opened(s, steps))
    }
}

/// The loop asked for its next item: where there is one, what the steps of the block, and those that
/// they carry, left in the pass before is forgotten and the block runs.
pub open spec fn loop_advanced(l: LoopView, s: StateView, item: Result<i32, ErrorView>) -> (
    TurnView<LoopView>,
    StateView,
) {
    match item {
        Err(e) => loop_ended(l, s, Err(e)),
        Ok(n) => if n == 0 {
            loop_ended(l, s, Ok(true))
        } else if l.block.ids.len() == 0 {
            (TurnView::Run(pass_done(l)), s)
        } else {
            (
                TurnView::Run(
                    LoopView {
                        block: BlockView::new(l.block.ids, l.block.offset),
                        phase: LoopPhase::Body,
                        ..l
                    },
                ),
                forgotten(s, l.inner),
            )
        },
    }
}

/// A step of the block ran. A `return` ends the loop.
pub open spec fn loop_next(l: LoopView, s: StateView, ran: Result<bool, ErrorView>) -> (
    TurnView<LoopView>,
    StateView,
) {
    match l.block.end(report(ran, s)) {
        None => (TurnView::Run(LoopView { block: l.block.advanced(), ..l }), s),
        Some(end) => if end == Ok::<bool, ErrorView>(true) && s.return_signal is None {
            (TurnView::Run(pass_done(l)), s)
        } else {
            loop_ended(l, s, end)
        },
    }
}

/// What the collected values weigh with one more.
pub open spec fn tally(l: LoopView, v: JsonView) -> usize {
    capped((l.collected_bytes + capped(weight(v))) as nat)
}

/// The value to collect was evaluated: it counts toward the limit on step results with what is
/// charged already.
pub open spec fn loop_collected(l: LoopView, s: StateView, value: Result<JsonView, ErrorView>) -> (
    TurnView<LoopView>,
    StateView,
) {
    match value {
        Err(e) => loop_ended(l, s, Err(e)),
        Ok(v) => {
            let projected = capped((s.step_results_bytes + tally(l, v)) as nat);
            if projected > s.limits.max_step_results_bytes {
                loop_ended(
                    l,
                    s,
                    Err(
                        ErrorView::StepResultsLimitExceeded {
                            limit_bytes: s.limits.max_step_results_bytes,
                            attempted_bytes: projected,
                        },
                    ),
                )
            } else {
                (
                    TurnView::Run(
                        to_until(
                            LoopView {
                                collected: l.collected.push(v),
                                collected_bytes: tally(l, v),
                                ..l
                            },
                        ),
                    ),
                    s,
                )
            }
        },
    }
}

/// The test that ends the loop was evaluated.
pub open spec fn loop_tested(l: LoopView, s: StateView, holds: Result<bool, ErrorView>) -> (
    TurnView<LoopView>,
    StateView,
) {
    match holds {
        Err(e) => loop_ended(l, s, Err(e)),
        Ok(h) => if h {
            loop_ended(l, s, Ok(true))
        } else {
            (TurnView::Run(LoopView { phase: LoopPhase::Advance, ..l }), s)
        },
    }
}

/// The iteration was ended: a loop that collects has what it collected for its result.
pub open spec fn loop_closed(l: LoopView, s: StateView, ended: Result<i32, ErrorView>) -> (
    Result<bool, ErrorView>,
    StateView,
) {
    match ended {
        Err(e) => (Err(e), s),
        Ok(_) => (
            Ok(true),
            if l.collect is Some {
                stored(s, l.step_id, JsonView::Array(l.collected))
            } else {
                s
            },
        ),
    }
}

/// What a host function gave, as a plain value.
pub open spec fn host_view(r: Result<i32, KernelError>) -> Result<i32, ErrorView> {
    match r {
        Ok(n) => Ok(n),
        Err(e) => Err(e@),
    }
}

/// What an expression came to, as a plain value.
pub open spec fn value_view(r: Result<Json, KernelError>) -> Result<JsonView, ErrorView> {
    match r {
        Ok(v) => Ok(v@),
        Err(e) => Err(e@),
    }
}

fn text_under(v: &Json, key: &str) -> (r: Option<String>)
    ensures
        r.deep_view() == v@.get_str(key@),
{
    match v.get_str(key) {
        Some(s) => Some(s.to_owned()),
        None => None,
    }
}

impl LoopRun {
    /// The indexes of the steps fit, and there is a step at hand while the block runs.
    pub open spec fn wf(&self) -> bool {
        &&& self@.block.offset + self@.block.ids.len() <= usize::MAX
        &&& self@.phase == LoopPhase::Body ==> addressable(self@.block)
    }

    /// Begins a loop, when the host function that begins it has told the count of its items.
    pub fn begin(state: &mut ExecutionState, step: &StepDef, kind: LoopKind, count: i32) -> (r: Turn<
        LoopRun,
    >)
        requires
            old(state).wf(),
        ensures
            final(state).wf(),
            (r@, final(state)@) == loop_begun(step.deep_view(), kind, count, old(state)@),
            r is Run ==> r->Run_0.wf(),
    {
        if count < 0 {
            let message = match &state.last_error {
                Some(e) => e.clone(),
                None => cat2(kind.begin_fn(), " returned negative count"),
            };
            return Turn::Over(Err(KernelError::Execution(message)));
        }
        let steps = read_steps_under(&step.params, "steps");
        let block = Block::open(state, &steps);
        let until = match kind {
            LoopKind::Repeat => text_under(&step.params, "until"),
            LoopKind::ForEach => None,
        };
        let mut inner: Vec<String> = Vec::new();
        collect_under(&step.params, "steps", "id", &mut inner);
        assert(texts(inner@) =~= collected_under(step.params@, "steps"@, "id"@));
        let l = LoopRun {
            step_id: step.id.clone(),
            until,
            collect: text_under(&step.params, "collect"),
            collected: Vec::new(),
            collected_bytes: 0,
            inner,
            block,
            phase: LoopPhase::Advance,
        };
        assert(json_views(l.collected@) =~= Seq::empty());
        if count == 0 {
            l.leave(state, Ok(true))
        } else {
            Turn::Run(l)
        }
    }

    /// What the loop waits for.
    pub fn phase(&self) -> (r: LoopPhase)
        ensures
            r == self@.phase,
    {
        self.phase
    }

    /// The expression whose value is collected after each pass.
    pub fn collect_expression(&self) -> (r: Option<&String>)
        ensures
            r.deep_view() == self@.collect,
    {
        self.collect.as_ref()
    }

    /// The test that ends the loop.
    pub fn until_expression(&self) -> (r: Option<&String>)
        ensures
            r.deep_view() == self@.until,
    {
        self.until.as_ref()
    }

    fn leave(self, state: &mut ExecutionState, r: Result<bool, KernelError>) -> (turn: Turn<
        LoopRun,
    >)
        requires
            self.wf(),
            old(state).wf(),
        ensures
            final(state).wf(),
            (turn@, final(state)@) == loop_ended(self@, old(state)@, ran_view(r)),
            turn is Run ==> turn->Run_0.wf(),
    {
        self.block.close(state);
        match r {
            Ok(true) => Turn::Run(LoopRun { phase: LoopPhase::End, ..self }),
            r => {
                let ghost before = state@.foreach_stack;
                let _ = state.foreach_stack.pop();
                assert(state@.foreach_stack =~= (if before.len() > 0 {
                    before.drop_last()
                } else {
                    before
                }));
                Turn::Over(r)
            },
        }
    }

    fn behind_collect(self) -> (r: LoopRun)
        requires
            self@.block.offset + self@.block.ids.len() <= usize::MAX,
        ensures
            r@ == to_until(self@),
            r.wf(),
    {
        let phase = if self.until.is_some() {
            LoopPhase::Until
        } else {
            LoopPhase::Advance
        };
        LoopRun { phase, ..self }
    }

    fn behind_pass(self) -> (r: LoopRun)
        requires
            self@.block.offset + self@.block.ids.len() <= usize::MAX,
        ensures
            r@ == pass_done(self@),
            r.wf(),
    {
        if self.collect.is_some() {
            LoopRun { phase: LoopPhase::Collect, ..self }
        } else {
            self.behind_collect()
        }
    }

    /// Takes in whether there is a next item.
    pub fn advance(self, state: &mut ExecutionState, item: Result<i32, KernelError>) -> (r: Turn<
        LoopRun,
    >)
        requires
            self.wf(),
            self@.phase == LoopPhase::Advance,
            old(state).wf(),
        ensures
            final(state).wf(),
            (r@, final(state)@) == loop_advanced(self@, old(state)@, host_view(item)),
            r is Run ==> r->Run_0.wf(),
    {
        match item {
            Err(e) => self.leave(state, Err(e)),
            Ok(0) => self.leave(state, Ok(true)),
            Ok(_) => {
                if self.block.len() == 0 {
                    return Turn::Run(self.behind_pass());
                }
                let mut l = self;
                forget(&l.inner, state);
                l.block.rewind();
                Turn::Run(LoopRun { phase: LoopPhase::Body, ..l })
            },
        }
    }

    /// The index, among the steps of the state, of the step to run; or the cancellation that came
    /// before it, which is then reported in the place of the step.
    pub fn poll(&self, fired: bool) -> (r: Result<usize, KernelError>)
        requires
            self.wf(),
            self@.phase == LoopPhase::Body,
        ensures
            polled(r, self@.block, fired),
    {
        self.block.poll(fired)
    }

    /// Takes in what came of the step at hand.
    pub fn report(self, state: &mut ExecutionState, ran: Result<bool, KernelError>) -> (r: Turn<
        LoopRun,
    >)
        requires
            self.wf(),
            self@.phase == LoopPhase::Body,
            old(state).wf(),
        ensures
            final(state).wf(),
            (r@, final(state)@) == loop_next(self@, old(state)@, ran_view(ran)),
            r is Run ==> r->Run_0.wf(),
    {
        let mut l = self;
        let end = l.block.absorb(state, ran);
        match end {
            None => Turn::Run(l),
            Some(Ok(true)) => if state.return_signal.is_none() {
                Turn::Run(l.behind_pass())
            } else {
                l.leave(state, Ok(true))
            },
            Some(end) => l.leave(state, end),
        }
    }

    /// Takes in the value to collect.
    pub fn collect(self, state: &mut ExecutionState, value: Result<Json, KernelError>) -> (r: Turn<
        LoopRun,
    >)
        requires
            self.wf(),
            self@.phase == LoopPhase::Collect,
            old(state).wf(),
        ensures
            final(state).wf(),
            (r@, final(state)@) == loop_collected(self@, old(state)@, value_view(value)),
            r is Run ==> r->Run_0.wf(),
    {
        match value {
            Err(e) => self.leave(state, Err(e)),
            Ok(v) => {
                let tally: usize = self.collected_bytes.saturating_add(approx_value_bytes(&v));
                let limit: usize = state.limits.max_step_results_bytes;
                let projected: usize = state.step_results_bytes.saturating_add(tally);
                if projected > limit {
                    return self.leave(
                        state,
                        Err(
                            KernelError::StepResultsLimitExceeded {
                                limit_bytes: limit,
                                attempted_bytes: projected,
                            },
                        ),
                    );
                }
                let mut l = self;
                let ghost before = json_views(l.collected@);
                let ghost view = v@;
                l.collected.push(v);
                assert(json_views(l.collected@) =~= before.push(view));
                l.collected_bytes = tally;
                Turn::Run(l.behind_collect())
            },
        }
    }

    /// Takes in whether the test that ends the loop holds.
    pub fn test(self, state: &mut ExecutionState, holds: Result<bool, KernelError>) -> (r: Turn<
        LoopRun,
    >)
        requires
            self.wf(),
            self@.phase == LoopPhase::Until,
            old(state).wf(),
        ensures
            final(state).wf(),
            (r@, final(state)@) == loop_tested(self@, old(state)@, ran_view(holds)),
            r is Run ==> r->Run_0.wf(),
    {
        match holds {
            Err(e) => self.leave(state, Err(e)),
            Ok(true) => self.leave(state, Ok(true)),
            Ok(false) => Turn::Run(LoopRun { phase: LoopPhase::Advance, ..self }),
        }
    }

    /// Takes in that the iteration was ended.
    pub fn end(self, state: &mut ExecutionState, ended: Result<i32, KernelError>) -> (r: Result<
        bool,
        KernelError,
    >)
        requires
            self@.phase == LoopPhase::End,
            old(state).wf(),
        ensures
            final(state).wf(),
            (ran_view(r), final(state)@) == loop_closed(self@, old(state)@, host_view(ended)),
    {
        match ended {
            Err(e) => Err(e),
            Ok(_) => {
                if self.collect.is_some() {
                    let array = Json::Array(self.collected);
                    proof {
                        lemma_array_view(self.collected);
                    }
                    state.store_step_result(self.step_id.as_str(), array);
                }
                Ok(true)
            },
        }
    }
}

/// What was collected weighs what was counted for it.
pub open spec fn counted(l: LoopView) -> bool {
    l.collected_bytes == capped(list_weight(l.collected))
}

/// A loop counts what it collects: nothing when it begins, and with each value its weight. What it
/// holds never weighs more than the limit leaves beside the results that are stored.
pub proof fn law_collected_is_counted(l: LoopView, s: StateView, v: JsonView)
    requires
        counted(l),
    ensures
        match loop_collected(l, s, Ok(v)).0 {
            TurnView::Run(n) => {
                &&& counted(n)
                &&& n.collected == l.collected.push(v)
                &&& capped((s.step_results_bytes + n.collected_bytes) as nat)
                    <= s.limits.max_step_results_bytes
            },
            TurnView::Over(r) => r is Err,
        },
{
    assert(l.collected.push(v).drop_last() =~= l.collected);
}

/// A loop that begins has collected nothing.
pub proof fn law_loop_begins_empty(step: StepView, kind: LoopKind, count: i32, s: StateView)
    ensures
        match loop_begun(step, kind, count, s).0 {
            TurnView::Run(l) => counted(l) && l.collected.len() == 0,
            TurnView::Over(_) => count < 0,
        },
{
}

/// Every pass begins with nothing that the steps of the block, or those that they carry, left in the
/// one before it; what other steps left stays.
pub proof fn law_pass_begins_clean(l: LoopView, s: StateView, item: i32, id: Seq<char>)
    requires
        item != 0,
    ensures
        ({
            let after = loop_advanced(l, s, Ok(item)).1;
            if l.block.ids.len() > 0 && l.inner.contains(id) {
                lookup(after.step_results, id) is None && lookup(after.step_metadata, id) is None
            } else {
                lookup(after.step_results, id) == lookup(s.step_results, id) && lookup(
                    after.step_metadata,
                    id,
                ) == lookup(s.step_metadata, id)
            }
        }),
{
    lemma_without_keys(s.step_results, l.inner, id);
    lemma_without_keys(s.step_metadata, l.inner, id);
}

proof fn lemma_spelt_ids(items: Seq<JsonView>, i: int)
    requires
        0 <= i < spelt_steps(items).len(),
    ensures
        collected_list(items, "id"@).contains(spelt_steps(items)[i].id),
    decreases items.len(),
{
    let rest = items.drop_last();
    let before = collected_list(rest, "id"@);
    let own = collected(items.last(), "id"@);
    let id = spelt_steps(items)[i].id;
    if i < spelt_steps(rest).len() {
        lemma_spelt_ids(rest, i);
        let k = choose|k: int| 0 <= k < before.len() && before[k] == id;
        assert((before + own)[k] == id);
    } else {
        assert(own[0] == id);
        assert((before + own)[before.len() as int] == id);
    }
}

/// Every step of a loop's block is among those whose results a pass begins without.
pub proof fn law_a_pass_forgets_its_own_steps(
    step: StepView,
    kind: LoopKind,
    count: i32,
    s: StateView,
    i: int,
)
    requires
        loop_begun(step, kind, count, s).0 is Run,
        0 <= i < loop_begun(step, kind, count, s).0->Run_0.block.ids.len(),
    ensures
        ({
            let l = loop_begun(step, kind, count, s).0->Run_0;
            l.inner.contains(l.block.ids[i])
        }),
{
    if let Some(items) = step.params.get_array("steps"@) {
        lemma_spelt_ids(items, i);
    }
}

proof fn lemma_without_keys(s: Seq<(Seq<char>, JsonView)>, keys: Seq<Seq<char>>, id: Seq<char>)
    ensures
        keys.contains(id) ==> lookup(without_keys(s, keys), id) is None,
        !keys.contains(id) ==> lookup(without_keys(s, keys), id) == lookup(s, id),
    decreases keys.len(),
{
    if keys.len() > 0 {
        let rest = keys.drop_last();
        lemma_without_keys(s, rest, id);
        lemma_without_key(without_keys(s, rest), keys.last(), id);
        assert(rest.push(keys.last()) =~= keys);
        if keys.contains(id) && id != keys.last() {
            let i = choose|i: int| 0 <= i < keys.len() && keys[i] == id;
            assert(rest[i] == id);
        }
        if rest.contains(id) {
            let i = choose|i: int| 0 <= i < rest.len() && rest[i] == id;
            assert(keys[i] == id);
        }
        assert(keys[keys.len() - 1] == keys.last());
    }
}

/// When a loop leaves its block, however it does, the steps of the state are those that stood before
/// it.
pub proof fn law_loop_restores_steps(l: LoopView, s: StateView, r: Result<bool, ErrorView>)
    requires
        l.block.offset <= s.steps.len(),
    ensures
        loop_ended(l, s, r).1.steps == s.steps.take(l.block.offset as int),
{
}

/// A loop that does not come to its end takes its own item with it, and no other.
pub proof fn law_a_broken_loop_leaves_no_item(l: LoopView, s: StateView, r: Result<bool, ErrorView>)
    requires
        s.foreach_stack.len() > 0,
        r != Ok::<bool, ErrorView>(true),
    ensures
        loop_ended(l, s, r).0 == TurnView::<LoopView>::Over(r),
        loop_ended(l, s, r).1.foreach_stack == s.foreach_stack.drop_last(),
{
}

} // verus!
