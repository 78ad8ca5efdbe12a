//! Steps that carry steps: how their blocks run.
//!
//! A step that carries steps appends them to the steps of the state while they run, so that a body
//! finds its step by its index, and takes them away when they have run. Each of the machines here
//! tells what is to be done next and takes in what came of it; whoever drives it runs the bodies,
//! evaluates the expressions and watches for a cancellation.

use vstd::prelude::*;

use crate::duplicate::Duplicate;
use crate::error::{ErrorView, KernelError};
use crate::exec_state::{ExecutionState, StateView};
use crate::index_map::{shift_remove, without_key};
use crate::json::{json_views, Json, JsonView};
use crate::manifest::{step_of, StepDef, StepView};
use crate::outcomes::{check_cancelled, escape_if_cancelled};
use crate::text::texts;
use crate::waves::ran_view;

pub mod attempt;
pub mod choice;
pub mod iteration;
pub mod parallel;
pub mod routing;

verus! {

/// The steps that the items of a list spell; an item that spells none is passed over.
pub open spec fn spelt_steps(items: Seq<JsonView>) -> Seq<StepView>
    decreases items.len(),
{
    if items.len() == 0 {
        Seq::empty()
    } else {
        match step_of(items.last()) {
            Ok(s) => spelt_steps(items.drop_last()).push(s),
            Err(_) => spelt_steps(items.drop_last()),
        }
    }
}

/// The steps under a key: none where there is no array.
pub open spec fn steps_under(v: JsonView, key: Seq<char>) -> Seq<StepView> {
    match v.get_array(key) {
        Some(items) => spelt_steps(items),
        None => Seq::empty(),
    }
}

/// The steps that the items of a list spell.
pub fn read_steps(items: &Vec<Json>) -> (r: Vec<StepDef>)
    ensures
        r.deep_view() == spelt_steps(json_views(items@)),
{
    let ghost views = json_views(items@);
    let mut r: Vec<StepDef> = Vec::new();
    assert(r.deep_view() =~= spelt_steps(views.take(0)));
    let mut i: usize = 0;
    while i < items.len()
        invariant
            i <= items@.len(),
            views == json_views(items@),
            r.deep_view() == spelt_steps(views.take(i as int)),
        decreases items@.len() - i,
    {
        let ghost so_far = r.deep_view();
        proof {
            assert(views.take(i as int + 1).drop_last() =~= views.take(i as int));
            assert(views[i as int] == items@[i as int]@);
        }
        if let Ok(s) = StepDef::from_inner_value(&items[i]) {
            let ghost view = s.deep_view();
            r.push(s);
            assert(r.deep_view() =~= so_far.push(view));
        }
        i += 1;
    }
    assert(views.take(views.len() as int) =~= views);
    r
}

/// The steps under a key.
pub fn read_steps_under(v: &Json, key: &str) -> (r: Vec<StepDef>)
    ensures
        r.deep_view() == steps_under(v@, key@),
{
    match v.get_array(key) {
        Some(items) => read_steps(items),
        None => {
            let r: Vec<StepDef> = Vec::new();
            assert(r.deep_view() =~= Seq::empty());
            r
        },
    }
}

/// The ids of steps.
pub open spec fn ids_of(steps: Seq<StepView>) -> Seq<Seq<char>> {
    steps.map_values(|s: StepView| s.id)
}

/// The state with steps behind its own.
pub open spec fn opened(s: StateView, steps: Seq<StepView>) -> StateView {
    StateView { steps: s.steps + steps, ..s }
}

/// The state with its first `n` steps alone.
pub open spec fn closed_to(s: StateView, n: nat) -> StateView {
    StateView { steps: s.steps.take(if n <= s.steps.len() { n as int } else { s.steps.len() as int }), ..s }
}

/// The entries without those under some keys.
pub open spec fn without_keys(s: Seq<(Seq<char>, JsonView)>, keys: Seq<Seq<char>>) -> Seq<
    (Seq<char>, JsonView),
>
    decreases keys.len(),
{
    if keys.len() == 0 {
        s
    } else {
        without_key(without_keys(s, keys.drop_last()), keys.last())
    }
}

/// The state without what steps left.
pub open spec fn forgotten(s: StateView, ids: Seq<Seq<char>>) -> StateView {
    StateView {
        step_results: without_keys(s.step_results, ids),
        step_metadata: without_keys(s.step_metadata, ids),
        ..s
    }
}

/// Forgets what steps left in the state.
pub fn forget(ids: &Vec<String>, state: &mut ExecutionState)
    requires
        old(state).wf(),
    ensures
        final(state).wf(),
        final(state)@ == forgotten(old(state)@, texts(ids@)),
{
    let ghost before = state@;
    let ghost views = texts(ids@);
    let mut i: usize = 0;
    assert(views.take(0) =~= Seq::empty());
    while i < ids.len()
        invariant
            i <= ids@.len(),
            views == texts(ids@),
            state.wf(),
            state@ == forgotten(before, views.take(i as int)),
        decreases ids@.len() - i,
    {
        proof {
            assert(views.take(i as int + 1).drop_last() =~= views.take(i as int));
            assert(views[i as int] == ids@[i as int]@);
        }
        shift_remove(&mut state.step_results, ids[i].as_str());
        shift_remove(&mut state.step_metadata, ids[i].as_str());
        i += 1;
    }
    assert(views.take(views.len() as int) =~= views);
}

/// A block of steps that run one after the other: where it begins among the steps of the state, and
/// the step of it that runs next.
pub struct Block {
    ids: Vec<String>,
    offset: usize,
    pos: usize,
}

/// What a [`Block`] stands for.
pub struct BlockView {
    pub ids: Seq<Seq<char>>,
    pub offset: nat,
    pub pos: nat,
}

/// What came of running a step of a block, with what the state tells of it.
pub struct StepReport {
    pub ran: Result<bool, ErrorView>,
    pub cancelled: bool,
    pub returned: bool,
}

/// A step of a block that ran, and the state when it had.
pub open spec fn report(ran: Result<bool, ErrorView>, s: StateView) -> StepReport {
    StepReport { ran, cancelled: s.cancelled, returned: s.return_signal is Some }
}

impl BlockView {
    /// A block at its first step.
    pub open spec fn new(ids: Seq<Seq<char>>, offset: nat) -> BlockView {
        BlockView { ids, offset, pos: 0 }
    }

    /// The block when the step at hand has run.
    pub open spec fn advanced(self) -> BlockView {
        BlockView { pos: self.pos + 1, ..self }
    }

    /// How a block ends with the step at hand: with its error; with its cancellation, which is an
    /// error of the block too; with its failure; with its success, where it returned or was the
    /// last. Or the block goes on.
    pub open spec fn end(self, r: StepReport) -> Option<Result<bool, ErrorView>> {
        match r.ran {
            Err(e) => Some(Err(e)),
            Ok(ok) => if !ok {
                if r.cancelled {
                    Some(Err(ErrorView::Cancelled { at_step: self.ids[self.pos as int] }))
                } else {
                    Some(Ok(false))
                }
            } else if r.returned || self.pos + 1 >= self.ids.len() {
                Some(Ok(true))
            } else {
                None
            },
        }
    }
}

impl View for Block {
    type V = BlockView;

    closed spec fn view(&self) -> BlockView {
        BlockView { ids: texts(self.ids@), offset: self.offset as nat, pos: self.pos as nat }
    }
}

/// A machine's result as a plain value.
pub open spec fn end_view(r: Option<Result<bool, KernelError>>) -> Option<Result<bool, ErrorView>> {
    match r {
        Some(x) => Some(ran_view(x)),
        None => None,
    }
}

/// The index of the step at hand fits.
pub open spec fn addressable(b: BlockView) -> bool {
    b.pos < b.ids.len() && b.offset + b.ids.len() <= usize::MAX
}

/// A poll of a block: the index of the step at hand, or the cancellation that came before it.
pub open spec fn polled(r: Result<usize, KernelError>, b: BlockView, fired: bool) -> bool {
    match r {
        Ok(i) => !fired && i == b.offset + b.pos,
        Err(e) => fired && e@ == (ErrorView::Cancelled { at_step: b.ids[b.pos as int] }),
    }
}

/// What is next in a step that carries steps: it goes on, or it is over with a result.
pub enum Turn<M> {
    Run(M),
    Over(Result<bool, KernelError>),
}

/// What a [`Turn`] stands for.
pub enum TurnView<V> {
    Run(V),
    Over(Result<bool, ErrorView>),
}

impl<M: View> View for Turn<M> {
    type V = TurnView<M::V>;

    open spec fn view(&self) -> TurnView<M::V> {
        match self {
            Turn::Run(m) => TurnView::Run(m@),
            Turn::Over(r) => TurnView::Over(ran_view(*r)),
        }
    }
}

impl Block {
    /// A block without steps.
    pub fn empty() -> (r: Block)
        ensures
            r@ == BlockView::new(Seq::empty(), 0),
    {
        let r = Block { ids: Vec::new(), offset: 0, pos: 0 };
        assert(texts(r.ids@) =~= Seq::empty());
        r
    }

    /// Puts steps behind those of the state and begins to run them.
    pub fn open(state: &mut ExecutionState, steps: &Vec<StepDef>) -> (r: Block)
        requires
            old(state).wf(),
        ensures
            final(state).wf(),
            final(state)@ == opened(old(state)@, steps.deep_view()),
            r@ == BlockView::new(ids_of(steps.deep_view()), old(state)@.steps.len()),
            r@.offset + r@.ids.len() <= usize::MAX,
    {
        let ghost before = state@.steps;
        let offset: usize = state.steps.len();
        let mut ids: Vec<String> = Vec::new();
        let mut i: usize = 0;
        while i < steps.len()
            invariant
                i <= steps@.len(),
                ids@.len() == i,
                forall|j: int| 0 <= j < i ==> ids@[j]@ == (#[trigger] steps@[j]).id@,
            decreases steps@.len() - i,
        {
            ids.push(steps[i].id.clone());
            i += 1;
        }
        let mut more = steps.duplicate();
        assert(more.deep_view().len() == more@.len());
        state.steps.append(&mut more);
        let total: usize = state.steps.len();
        proof {
            assert(total == offset + steps@.len());
            assert(state.steps.deep_view() =~= before + steps.deep_view());
            assert(texts(ids@) =~= ids_of(steps.deep_view()));
        }
        Block { ids, offset, pos: 0 }
    }

    /// Takes the steps of the block away from the state.
    pub fn close(&self, state: &mut ExecutionState)
        requires
            old(state).wf(),
        ensures
            final(state).wf(),
            final(state)@ == closed_to(old(state)@, self@.offset),
    {
        let ghost before = state@;
        state.steps.truncate(self.offset);
        assert(state.steps.deep_view() =~= closed_to(before, self@.offset).steps);
    }

    /// Begins anew with the first step.
    pub fn rewind(&mut self)
        ensures
            final(self)@ == BlockView::new(old(self)@.ids, old(self)@.offset),
    {
        self.pos = 0;
    }

    /// The number of the steps.
    pub fn len(&self) -> (r: usize)
        ensures
            r == self@.ids.len(),
    {
        assert(texts(self.ids@).len() == self.ids@.len());
        self.ids.len()
    }

    /// The id of the step at hand.
    pub fn id(&self) -> (r: &str)
        requires
            addressable(self@),
        ensures
            r@ == self@.ids[self@.pos as int],
    {
        assert(texts(self.ids@).len() == self.ids@.len());
        assert(self@.ids[self.pos as int] == self.ids@[self.pos as int]@);
        self.ids[self.pos].as_str()
    }

    /// The index, among the steps of the state, of the step to run; or the cancellation that came
    /// before it.
    pub fn poll(&self, fired: bool) -> (r: Result<usize, KernelError>)
        requires
            addressable(self@),
        ensures
            polled(r, self@, fired),
    {
        check_cancelled(fired, self.id())?;
        Ok(self.offset + self.pos)
    }

    /// Takes in what came of the step at hand, and tells how the block ends with it or, with `None`,
    /// that it goes on with the next.
    pub fn absorb(&mut self, state: &ExecutionState, ran: Result<bool, KernelError>) -> (r: Option<
        Result<bool, KernelError>,
    >)
        requires
            addressable(old(self)@),
        ensures
            end_view(r) == old(self)@.end(report(ran_view(ran), state@)),
            r is None ==> final(self)@ == old(self)@.advanced() && addressable(final(self)@),
            r is Some ==> final(self)@ == old(self)@,
    {
        match ran {
            Err(e) => Some(Err(e)),
            Ok(false) => match escape_if_cancelled(state, self.id()) {
                Err(e) => Some(Err(e)),
                Ok(()) => Some(Ok(false)),
            },
            Ok(true) => {
                assert(texts(self.ids@).len() == self.ids@.len());
                if state.return_signal.is_some() || self.pos + 1 >= self.ids.len() {
                    Some(Ok(true))
                } else {
                    self.pos = self.pos + 1;
                    None
                }
            },
        }
    }
}

/// How a block ends that gets these reports, one for each of its steps that runs, before each of
/// which `fired` tells whether a cancellation came.
pub open spec fn block_outcome(
    ids: Seq<Seq<char>>,
    fired: spec_fn(int) -> bool,
    reports: spec_fn(int) -> StepReport,
    i: int,
) -> Result<bool, ErrorView>
    decreases ids.len() - i,
{
    if i < 0 || i >= ids.len() {
        Ok(true)
    } else if fired(i) {
        Err(ErrorView::Cancelled { at_step: ids[i] })
    } else {
        let b = BlockView { ids, offset: 0, pos: i as nat };
        match b.end(reports(i)) {
            Some(r) => r,
            None => block_outcome(ids, fired, reports, i + 1),
        }
    }
}

/// A block succeeds only where no cancellation came before a step of it that was to run, and every
/// step that ran succeeded, up to the last or to one that returned.
pub proof fn law_block_success(
    ids: Seq<Seq<char>>,
    fired: spec_fn(int) -> bool,
    reports: spec_fn(int) -> StepReport,
    i: int,
)
    requires
        0 <= i <= ids.len(),
        block_outcome(ids, fired, reports, i) == Ok::<bool, ErrorView>(true),
    ensures
        i == ids.len() || exists|n: int|
            {
                &&& i <= n < ids.len()
                &&& n == ids.len() - 1 || (#[trigger] reports(n)).returned
                &&& forall|j: int|
                    i <= j <= n ==> !fired(j) && (#[trigger] reports(j)).ran == Ok::<
                        bool,
                        ErrorView,
                    >(true)
                &&& forall|j: int| i <= j < n ==> !(#[trigger] reports(j)).returned
            },
    decreases ids.len() - i,
{
    if i < ids.len() {
        let b = BlockView { ids, offset: 0, pos: i as nat };
        if b.end(reports(i)) is Some {
            assert(i == ids.len() - 1 || reports(i).returned);
        } else {
            law_block_success(ids, fired, reports, i + 1);
            let n = choose|n: int|
                {
                    &&& i + 1 <= n < ids.len()
                    &&& n == ids.len() - 1 || (#[trigger] reports(n)).returned
                    &&& forall|j: int|
                        i + 1 <= j <= n ==> !fired(j) && (#[trigger] reports(j)).ran == Ok::<
                            bool,
                            ErrorView,
                        >(true)
                    &&& forall|j: int| i + 1 <= j < n ==> !(#[trigger] reports(j)).returned
                };
            assert(n == ids.len() - 1 || reports(n).returned);
        }
    }
}

} // verus!
