//! `ifs` steps: the first branch whose test holds runs.

use vstd::prelude::*;

use crate::control::{
    addressable, closed_to, ids_of, opened, polled, read_steps_under, report, steps_under, Block,
    BlockView, Turn, TurnView,
};
use crate::duplicate::Duplicate;
use crate::error::{ErrorView, KernelError};
use crate::exec_state::{ExecutionState, StateView};
use crate::json::{json_views, Json, JsonView};
use crate::manifest::{StepDef, StepView};
use crate::waves::ran_view;

verus! {

/// The branches of an `ifs` step that have yet to be tried, from the one at `pos` on.
pub struct Branches {
    branches: Vec<Json>,
    pos: usize,
}

/// What [`Branches`] stand for.
pub struct BranchesView {
    pub branches: Seq<JsonView>,
    pub pos: nat,
}

impl View for Branches {
    type V = BranchesView;

    closed spec fn view(&self) -> BranchesView {
        BranchesView { branches: json_views(self.branches@), pos: self.pos as nat }
    }
}

/// What is next when a branch of an `ifs` step is looked for: the test of the branch at hand is to be
/// evaluated, or that branch is taken, or there is none.
pub enum Choice {
    Test(String),
    Take(Vec<StepDef>),
    Nothing,
}

/// What a [`Choice`] stands for.
pub enum ChoiceView {
    Test(Seq<char>),
    Take(Seq<StepView>),
    Nothing,
}

impl View for Choice {
    type V = ChoiceView;

    open spec fn view(&self) -> ChoiceView {
        match self {
            Choice::Test(s) => ChoiceView::Test(s@),
            Choice::Take(steps) => ChoiceView::Take(steps.deep_view()),
            Choice::Nothing => ChoiceView::Nothing,
        }
    }
}

impl BranchesView {
    /// The branch at hand: one with a test is taken where the test holds, one without is taken.
    pub open spec fn choice(self) -> ChoiceView {
        if self.pos >= self.branches.len() {
            ChoiceView::Nothing
        } else {
            let branch = self.branches[self.pos as int];
            match branch.get_str("test"@) {
                Some(test) => ChoiceView::Test(test),
                None => ChoiceView::Take(steps_under(branch, "then"@)),
            }
        }
    }

    /// What an answer to the test at hand leads to.
    pub open spec fn answered(self, holds: bool) -> (BranchesView, ChoiceView) {
        if self.pos >= self.branches.len() {
            (self, ChoiceView::Nothing)
        } else if holds {
            (self, ChoiceView::Take(steps_under(self.branches[self.pos as int], "then"@)))
        } else {
            let next = BranchesView { pos: self.pos + 1, ..self };
            (next, next.choice())
        }
    }
}

/// The branches of an `ifs` step, at the first: none where the step lists none.
pub open spec fn branches_of(step: StepView) -> BranchesView {
    BranchesView {
        branches: match step.params.get_array("ifs"@) {
            Some(items) => items,
            None => Seq::empty(),
        },
        pos: 0,
    }
}

/// The position of the first branch, from `i` on, that has no test or one that holds.
pub open spec fn first_match(
    branches: Seq<JsonView>,
    holds: spec_fn(Seq<char>) -> bool,
    i: int,
) -> Option<int>
    decreases branches.len() - i,
{
    if i < 0 || i >= branches.len() {
        None
    } else {
        match branches[i].get_str("test"@) {
            None => Some(i),
            Some(test) => if holds(test) {
                Some(i)
            } else {
                first_match(branches, holds, i + 1)
            },
        }
    }
}

/// What looking for a branch comes to, where `holds` answers every test.
pub open spec fn search(b: BranchesView, holds: spec_fn(Seq<char>) -> bool) -> ChoiceView
    decreases b.branches.len() - b.pos,
{
    match b.choice() {
        ChoiceView::Test(test) => if holds(test) {
            b.answered(true).1
        } else {
            search(b.answered(false).0, holds)
        },
        c => c,
    }
}

/// The steps of the first branch that has no test or one that holds are those that are taken; where
/// there is no such branch, none are.
pub proof fn law_first_match_is_taken(b: BranchesView, holds: spec_fn(Seq<char>) -> bool)
    ensures
        search(b, holds) == match first_match(b.branches, holds, b.pos as int) {
            Some(i) => ChoiceView::Take(steps_under(b.branches[i], "then"@)),
            None => ChoiceView::Nothing,
        },
    decreases b.branches.len() - b.pos,
{
    match b.choice() {
        ChoiceView::Test(test) => if !holds(test) {
            law_first_match_is_taken(b.answered(false).0, holds);
        },
        _ => {},
    }
}

impl Branches {
    /// Begins with the first branch of an `ifs` step.
    pub fn of(step: &StepDef) -> (r: Branches)
        ensures
            r@ == branches_of(step.deep_view()),
    {
        match step.params.get_array("ifs") {
            Some(items) => {
                let branches = items.duplicate();
                proof {
                    assert(json_views(branches@) =~= branches.deep_view());
                    assert(json_views(items@) =~= items.deep_view());
                }
                Branches { branches, pos: 0 }
            },
            None => {
                let branches: Vec<Json> = Vec::new();
                assert(json_views(branches@) =~= Seq::empty());
                Branches { branches, pos: 0 }
            },
        }
    }

    /// What the branch at hand asks for.
    pub fn choice(&self) -> (r: Choice)
        ensures
            r@ == self@.choice(),
    {
        assert(json_views(self.branches@).len() == self.branches@.len());
        if self.pos >= self.branches.len() {
            return Choice::Nothing;
        }
        assert(json_views(self.branches@)[self.pos as int] == self.branches@[self.pos as int]@);
        match self.branches[self.pos].get_str("test") {
            Some(test) => Choice::Test(test.to_owned()),
            None => Choice::Take(read_steps_under(&self.branches[self.pos], "then")),
        }
    }

    /// Takes in whether the test at hand holds, and tells what that leads to.
    pub fn answer(&mut self, holds: bool) -> (r: Choice)
        ensures
            (final(self)@, r@) == old(self)@.answered(holds),
    {
        assert(json_views(self.branches@).len() == self.branches@.len());
        if self.pos >= self.branches.len() {
            return Choice::Nothing;
        }
        if holds {
            assert(json_views(self.branches@)[self.pos as int] == self.branches@[self.pos as int]@);
            return Choice::Take(read_steps_under(&self.branches[self.pos], "then"));
        }
        self.pos = self.pos + 1;
        self.choice()
    }
}

/// The branch that was taken while its steps run.
pub struct BranchRun {
    block: Block,
}

impl View for BranchRun {
    type V = BlockView;

    closed spec fn view(&self) -> BlockView {
        self.block@
    }
}

/// The branch that was taken begins; one without steps is over.
pub open spec fn branch_begun(steps: Seq<StepView>, s: StateView) -> (
    TurnView<BlockView>,
    StateView,
) {
    if steps.len() == 0 {
        (TurnView::Over(Ok(true)), s)
    } else {
        (TurnView::Run(BlockView::new(ids_of(steps), s.steps.len())), opened(s, steps))
    }
}

/// What follows a step of the branch; when the branch is over its steps leave the state.
pub open spec fn branch_next(b: BlockView, s: StateView, ran: Result<bool, ErrorView>) -> (
    TurnView<BlockView>,
    StateView,
) {
    match b.end(report(ran, s)) {
        None => (TurnView::Run(b.advanced()), s),
        Some(end) => (TurnView::Over(end), closed_to(s, b.offset)),
    }
}

impl BranchRun {
    /// The index of the step at hand fits.
    pub open spec fn wf(&self) -> bool {
        addressable(self@)
    }

    /// Begins the branch that was taken.
    pub fn begin(state: &mut ExecutionState, steps: &Vec<StepDef>) -> (r: Turn<BranchRun>)
        requires
            old(state).wf(),
        ensures
            final(state).wf(),
            (r@, final(state)@) == branch_begun(steps.deep_view(), old(state)@),
            r is Run ==> r->Run_0.wf(),
    {
        assert(steps.deep_view().len() == steps@.len());
        if steps.len() == 0 {
            return Turn::Over(Ok(true));
        }
        Turn::Run(BranchRun { block: Block::open(state, steps) })
    }

    /// The index, among the steps of the state, of the step to run; or the cancellation that came
    /// before it, which is then reported in the place of the step.
    pub fn poll(&self, fired: bool) -> (r: Result<usize, KernelError>)
        requires
            self.wf(),
        ensures
            polled(r, self@, fired),
    {
        self.block.poll(fired)
    }

    /// Takes in what came of the step at hand.
    pub fn report(self, state: &mut ExecutionState, ran: Result<bool, KernelError>) -> (r: Turn<
        BranchRun,
    >)
        requires
            self.wf(),
            old(state).wf(),
        ensures
            final(state).wf(),
            (r@, final(state)@) == branch_next(self@, old(state)@, ran_view(ran)),
            r is Run ==> r->Run_0.wf(),
    {
        let mut b = self;
        let end = b.block.absorb(state, ran);
        match end {
            None => Turn::Run(b),
            Some(end) => {
                b.block.close(state);
                Turn::Over(end)
            },
        }
    }
}

} // verus!
