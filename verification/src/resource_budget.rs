//! One budget for all the memories, and one for all the tables, of a store.

use vstd::prelude::*;

use crate::limits::RuntimeLimits;

verus! {

/// What the objects of a store may take together, and what they have taken.
#[derive(Debug)]
pub struct ResourceBudget {
    max_memory_bytes: usize,
    max_table_elements: usize,
    max_instances: usize,
    max_tables: usize,
    max_memories: usize,
    committed_memory_bytes: usize,
    committed_table_elements: usize,
}

/// What a [`ResourceBudget`] stands for.
pub struct BudgetView {
    pub max_memory_bytes: nat,
    pub max_table_elements: nat,
    pub max_instances: nat,
    pub max_tables: nat,
    pub max_memories: nat,
    pub committed_memory_bytes: nat,
    pub committed_table_elements: nat,
}

impl View for ResourceBudget {
    type V = BudgetView;

    closed spec fn view(&self) -> BudgetView {
        BudgetView {
            max_memory_bytes: self.max_memory_bytes as nat,
            max_table_elements: self.max_table_elements as nat,
            max_instances: self.max_instances as nat,
            max_tables: self.max_tables as nat,
            max_memories: self.max_memories as nat,
            committed_memory_bytes: self.committed_memory_bytes as nat,
            committed_table_elements: self.committed_table_elements as nat,
        }
    }
}

impl BudgetView {
    /// No more is taken than may be.
    pub open spec fn within(self) -> bool {
        &&& self.committed_memory_bytes <= self.max_memory_bytes
        &&& self.committed_table_elements <= self.max_table_elements
    }

    /// A memory that takes `current` bytes may take `desired`: the budget holds what it takes now,
    /// and all memories together stay within the cap.
    pub open spec fn memory_fits(self, current: nat, desired: nat) -> bool {
        &&& current <= self.committed_memory_bytes
        &&& self.committed_memory_bytes - current + desired <= self.max_memory_bytes
    }

    /// A table that holds `current` elements may hold `desired`.
    pub open spec fn table_fits(self, current: nat, desired: nat) -> bool {
        &&& current <= self.committed_table_elements
        &&& self.committed_table_elements - current + desired <= self.max_table_elements
    }

    /// The budget when a memory has been asked to grow.
    pub open spec fn memory_grown(self, current: nat, desired: nat) -> BudgetView {
        if self.memory_fits(current, desired) {
            BudgetView {
                committed_memory_bytes: (self.committed_memory_bytes - current + desired) as nat,
                ..self
            }
        } else {
            self
        }
    }

    /// The budget when a table has been asked to grow.
    pub open spec fn table_grown(self, current: nat, desired: nat) -> BudgetView {
        if self.table_fits(current, desired) {
            BudgetView {
                committed_table_elements: (self.committed_table_elements - current
                    + desired) as nat,
                ..self
            }
        } else {
            self
        }
    }
}

impl ResourceBudget {
    /// A budget from which nothing is taken.
    pub fn new(limits: &RuntimeLimits) -> (r: Self)
        ensures
            r@ == (BudgetView {
                max_memory_bytes: limits.max_memory_bytes as nat,
                max_table_elements: limits.max_table_elements as nat,
                max_instances: limits.max_instances as nat,
                max_tables: limits.max_tables as nat,
                max_memories: limits.max_memories as nat,
                committed_memory_bytes: 0,
                committed_table_elements: 0,
            }),
            r@.within(),
    {
        ResourceBudget {
            max_memory_bytes: limits.max_memory_bytes,
            max_table_elements: limits.max_table_elements,
            max_instances: limits.max_instances,
            max_tables: limits.max_tables,
            max_memories: limits.max_memories,
            committed_memory_bytes: 0,
            committed_table_elements: 0,
        }
    }

    /// Charges the growth of a memory, or refuses it and charges nothing.
    pub fn memory_growing(&mut self, current: usize, desired: usize) -> (r: bool)
        ensures
            r == old(self)@.memory_fits(current as nat, desired as nat),
            final(self)@ == old(self)@.memory_grown(current as nat, desired as nat),
            old(self)@.within() ==> final(self)@.within(),
    {
        if current > self.committed_memory_bytes {
            return false;
        }
        match (self.committed_memory_bytes - current).checked_add(desired) {
            Some(total) => {
                if total > self.max_memory_bytes {
                    return false;
                }
                self.committed_memory_bytes = total;
                true
            },
            None => false,
        }
    }

    /// Charges the growth of a table, or refuses it and charges nothing.
    pub fn table_growing(&mut self, current: usize, desired: usize) -> (r: bool)
        ensures
            r == old(self)@.table_fits(current as nat, desired as nat),
            final(self)@ == old(self)@.table_grown(current as nat, desired as nat),
            old(self)@.within() ==> final(self)@.within(),
    {
        if current > self.committed_table_elements {
            return false;
        }
        match (self.committed_table_elements - current).checked_add(desired) {
            Some(total) => {
                if total > self.max_table_elements {
                    return false;
                }
                self.committed_table_elements = total;
                true
            },
            None => false,
        }
    }

    /// How many instances a store may hold.
    pub fn max_instances(&self) -> (r: usize)
        ensures
            r == self@.max_instances,
    {
        self.max_instances
    }

    /// How many tables a store may hold.
    pub fn max_tables(&self) -> (r: usize)
        ensures
            r == self@.max_tables,
    {
        self.max_tables
    }

    /// How many memories a store may hold.
    pub fn max_memories(&self) -> (r: usize)
        ensures
            r == self@.max_memories,
    {
        self.max_memories
    }
}

/// One object's request to grow.
pub struct Growth {
    pub object: nat,
    pub desired: nat,
}

/// The sizes that the objects have, one after the other.
pub open spec fn total_size(sizes: Seq<nat>) -> nat
    decreases sizes.len(),
{
    if sizes.len() == 0 {
        0
    } else {
        total_size(sizes.drop_last()) + sizes.last()
    }
}

/// The sizes and the budget after the memories asked, one after the other, to grow.
pub open spec fn after_requests(budget: BudgetView, sizes: Seq<nat>, asked: Seq<Growth>) -> (
    BudgetView,
    Seq<nat>,
)
    decreases asked.len(),
{
    if asked.len() == 0 {
        (budget, sizes)
    } else {
        let (b, s) = after_requests(budget, sizes, asked.drop_last());
        let g = asked.last();
        let current = s[g.object as int];
        if b.memory_fits(current, g.desired) {
            (b.memory_grown(current, g.desired), s.update(g.object as int, g.desired))
        } else {
            (b, s)
        }
    }
}

proof fn lemma_total_update(sizes: Seq<nat>, i: int, x: nat)
    requires
        0 <= i < sizes.len(),
    ensures
        total_size(sizes.update(i, x)) == total_size(sizes) - sizes[i] + x,
    decreases sizes.len(),
{
    let t = sizes.update(i, x);
    if i == sizes.len() - 1 {
        assert(t.drop_last() =~= sizes.drop_last());
    } else {
        lemma_total_update(sizes.drop_last(), i, x);
        assert(t.drop_last() =~= sizes.drop_last().update(i, x));
    }
}

/// However many memories share a budget and whatever they ask for, what the budget has committed is
/// what they take together, and that is never more than the cap.
pub proof fn law_memories_share_one_budget(budget: BudgetView, sizes: Seq<nat>, asked: Seq<Growth>)
    requires
        budget.within(),
        budget.committed_memory_bytes == total_size(sizes),
        forall|i: int| 0 <= i < asked.len() ==> (#[trigger] asked[i]).object < sizes.len(),
    ensures
        ({
            let (b, s) = after_requests(budget, sizes, asked);
            &&& s.len() == sizes.len()
            &&& b.committed_memory_bytes == total_size(s)
            &&& total_size(s) <= budget.max_memory_bytes
            &&& b.max_memory_bytes == budget.max_memory_bytes
        }),
    decreases asked.len(),
{
    if asked.len() > 0 {
        let before = asked.drop_last();
        assert forall|i: int| 0 <= i < before.len() implies (#[trigger] before[i]).object
            < sizes.len() by {
            assert(before[i] == asked[i]);
        }
        law_memories_share_one_budget(budget, sizes, before);
        let (b, s) = after_requests(budget, sizes, before);
        let g = asked.last();
        lemma_total_update(s, g.object as int, g.desired);
    }
}

/// The sizes and the budget after the tables asked, one after the other, to grow.
pub open spec fn after_table_requests(budget: BudgetView, sizes: Seq<nat>, asked: Seq<Growth>) -> (
    BudgetView,
    Seq<nat>,
)
    decreases asked.len(),
{
    if asked.len() == 0 {
        (budget, sizes)
    } else {
        let (b, s) = after_table_requests(budget, sizes, asked.drop_last());
        let g = asked.last();
        let current = s[g.object as int];
        if b.table_fits(current, g.desired) {
            (b.table_grown(current, g.desired), s.update(g.object as int, g.desired))
        } else {
            (b, s)
        }
    }
}

/// However many tables share a budget and whatever they ask for, what the budget has committed is
/// what they hold together, and that is never more than the cap.
pub proof fn law_tables_share_one_budget(budget: BudgetView, sizes: Seq<nat>, asked: Seq<Growth>)
    requires
        budget.within(),
        budget.committed_table_elements == total_size(sizes),
        forall|i: int| 0 <= i < asked.len() ==> (#[trigger] asked[i]).object < sizes.len(),
    ensures
        ({
            let (b, s) = after_table_requests(budget, sizes, asked);
            &&& s.len() == sizes.len()
            &&& b.committed_table_elements == total_size(s)
            &&& total_size(s) <= budget.max_table_elements
            &&& b.max_table_elements == budget.max_table_elements
        }),
    decreases asked.len(),
{
    if asked.len() > 0 {
        let before = asked.drop_last();
        assert forall|i: int| 0 <= i < before.len() implies (#[trigger] before[i]).object
            < sizes.len() by {
            assert(before[i] == asked[i]);
        }
        law_tables_share_one_budget(budget, sizes, before);
        let (b, s) = after_table_requests(budget, sizes, before);
        let g = asked.last();
        lemma_total_update(s, g.object as int, g.desired);
    }
}

/// An object that grows is charged for what it grows by: it may grow where all objects together, with
/// its new size in place of the old one, stay within the cap, and only there.
pub proof fn law_growth_is_charged_by_the_difference(
    budget: BudgetView,
    sizes: Seq<nat>,
    i: int,
    desired: nat,
)
    requires
        0 <= i < sizes.len(),
    ensures
        budget.committed_memory_bytes == total_size(sizes) ==> (budget.memory_fits(
            sizes[i],
            desired,
        ) <==> total_size(sizes.update(i, desired)) <= budget.max_memory_bytes),
        budget.committed_table_elements == total_size(sizes) ==> (budget.table_fits(
            sizes[i],
            desired,
        ) <==> total_size(sizes.update(i, desired)) <= budget.max_table_elements),
{
    lemma_total_update(sizes, i, desired);
    lemma_part_of_total(sizes, i);
}

proof fn lemma_part_of_total(sizes: Seq<nat>, i: int)
    requires
        0 <= i < sizes.len(),
    ensures
        sizes[i] <= total_size(sizes),
    decreases sizes.len(),
{
    if i < sizes.len() - 1 {
        lemma_part_of_total(sizes.drop_last(), i);
    }
}

/// A refused growth leaves the budget as it was.
pub proof fn law_refusal_takes_nothing(budget: BudgetView, current: nat, desired: nat)
    ensures
        !budget.memory_fits(current, desired) ==> budget.memory_grown(current, desired) == budget,
        !budget.table_fits(current, desired) ==> budget.table_grown(current, desired) == budget,
{
}

} // verus!
