//! Which action invokes which, and that no invoke leads back to where it started.

use vstd::prelude::*;
use vstd::set_lib::{lemma_int_range, lemma_len_subset, set_int_range};

use crate::registry::{EdgeView, InvokeEdge};
use crate::text::same;

verus! {

/// `walk` goes along edges, by their numbers, and comes back to where it started.
pub open spec fn is_cycle(edges: Seq<EdgeView>, walk: Seq<int>) -> bool {
    &&& walk.len() > 0
    &&& forall|i: int| 0 <= i < walk.len() ==> 0 <= #[trigger] walk[i] < edges.len()
    &&& forall|i: int|
        0 <= i < walk.len() - 1 ==> edges[#[trigger] walk[i]].to == edges[walk[i + 1]].from
    &&& edges[walk.last()].to == edges[walk[0]].from
}

/// Some walk along edges comes back to where it started.
pub open spec fn has_cycle(edges: Seq<EdgeView>) -> bool {
    exists|walk: Seq<int>| is_cycle(edges, walk)
}

/// The words for invokes that lead back to where they started.
pub open spec fn cycle_text() -> Seq<char> {
    "invoke cycle: an action would lead back to itself through the actions that it invokes"@
}

/// What edges stand for.
spec fn views_of(all: Seq<&InvokeEdge>) -> Seq<EdgeView> {
    all.map_values(|e: &InvokeEdge| e.deep_view())
}

/// How many are left.
spec fn count(alive: Seq<bool>) -> nat
    decreases alive.len(),
{
    if alive.len() == 0 {
        0
    } else {
        count(alive.drop_last()) + if alive.last() {
            1nat
        } else {
            0nat
        }
    }
}

proof fn lemma_count_update(alive: Seq<bool>, i: int)
    requires
        0 <= i < alive.len(),
        alive[i],
    ensures
        count(alive.update(i, false)) + 1 == count(alive),
    decreases alive.len(),
{
    let t = alive.update(i, false);
    if i == alive.len() - 1 {
        assert(t.drop_last() =~= alive.drop_last());
    } else {
        lemma_count_update(alive.drop_last(), i);
        assert(t.drop_last() =~= alive.drop_last().update(i, false));
    }
}

/// An edge that is left goes on with another that is left.
spec fn goes_on(edges: Seq<EdgeView>, alive: Seq<bool>, i: int) -> bool {
    exists|j: int| 0 <= j < edges.len() && #[trigger] alive[j] && edges[i].to == edges[j].from
}

/// Every cycle goes along edges that are left.
spec fn cycles_left(edges: Seq<EdgeView>, alive: Seq<bool>) -> bool {
    forall|walk: Seq<int>, k: int| #[trigger]
        is_cycle(edges, walk) && 0 <= k < walk.len() ==> alive[#[trigger] walk[k]]
}

proof fn lemma_drop_edge(edges: Seq<EdgeView>, alive: Seq<bool>, i: int)
    requires
        alive.len() == edges.len(),
        0 <= i < edges.len(),
        cycles_left(edges, alive),
        !goes_on(edges, alive, i),
    ensures
        cycles_left(edges, alive.update(i, false)),
{
    let after = alive.update(i, false);
    assert forall|walk: Seq<int>, k: int| #[trigger]
        is_cycle(edges, walk) && 0 <= k < walk.len() implies after[#[trigger] walk[k]] by {
        assert(alive[walk[k]]);
        if walk[k] == i {
            let next = if k + 1 < walk.len() {
                k + 1
            } else {
                0
            };
            assert(alive[walk[next]]);
            assert(edges[walk[k]].to == edges[walk[next]].from);
            assert(goes_on(edges, alive, i));
        }
    }
}

fn has_successor(all: &Vec<&InvokeEdge>, alive: &Vec<bool>, i: usize) -> (r: bool)
    requires
        alive@.len() == all@.len(),
        i < all@.len(),
    ensures
        r == goes_on(views_of(all@), alive@, i as int),
{
    let ghost edges = views_of(all@);
    let mut j: usize = 0;
    while j < all.len()
        invariant
            j <= all@.len(),
            i < all@.len(),
            alive@.len() == all@.len(),
            edges == views_of(all@),
            forall|k: int|
                0 <= k < j ==> !(#[trigger] alive@[k] && edges[i as int].to == edges[k].from),
        decreases all@.len() - j,
    {
        assert(edges[i as int] == all@[i as int].deep_view());
        assert(edges[j as int] == all@[j as int].deep_view());
        if alive[j] && same(all[i].to.0.as_str(), all[j].from.0.as_str()) && same(
            all[i].to.1.as_str(),
            all[j].from.1.as_str(),
        ) {
            assert(alive@[j as int]);
            return true;
        }
        j += 1;
    }
    false
}

/// Drops the edges that do not go on, and tells whether there were any.
fn sweep(all: &Vec<&InvokeEdge>, alive: &mut Vec<bool>) -> (r: bool)
    requires
        old(alive)@.len() == all@.len(),
        cycles_left(views_of(all@), old(alive)@),
    ensures
        final(alive)@.len() == all@.len(),
        cycles_left(views_of(all@), final(alive)@),
        r ==> count(final(alive)@) < count(old(alive)@),
        !r ==> final(alive)@ == old(alive)@ && forall|i: int|
            0 <= i < all@.len() && #[trigger] final(alive)@[i] ==> goes_on(
                views_of(all@),
                final(alive)@,
                i,
            ),
{
    let ghost edges = views_of(all@);
    let ghost start = alive@;
    let mut changed = false;
    let mut i: usize = 0;
    while i < all.len()
        invariant
            i <= all@.len(),
            edges == views_of(all@),
            alive@.len() == all@.len(),
            cycles_left(edges, alive@),
            count(alive@) <= count(start),
            changed ==> count(alive@) < count(start),
            !changed ==> alive@ == start && forall|k: int|
                0 <= k < i && #[trigger] alive@[k] ==> goes_on(edges, alive@, k),
        decreases all@.len() - i,
    {
        if alive[i] && !has_successor(all, alive, i) {
            proof {
                lemma_drop_edge(edges, alive@, i as int);
                lemma_count_update(alive@, i as int);
            }
            alive.set(i, false);
            changed = true;
        }
        i += 1;
    }
    changed
}

/// A walk of `n` edges, each of which goes on with the next.
spec fn is_walk(edges: Seq<EdgeView>, alive: Seq<bool>, walk: Seq<int>, n: nat) -> bool {
    &&& walk.len() == n
    &&& forall|i: int|
        0 <= i < walk.len() ==> 0 <= #[trigger] walk[i] < edges.len() && alive[walk[i]]
    &&& forall|i: int|
        0 <= i < walk.len() - 1 ==> edges[#[trigger] walk[i]].to == edges[walk[i + 1]].from
}

proof fn lemma_walk(edges: Seq<EdgeView>, alive: Seq<bool>, start: int, n: nat) -> (walk: Seq<int>)
    requires
        alive.len() == edges.len(),
        0 <= start < edges.len(),
        alive[start],
        forall|i: int| 0 <= i < edges.len() && #[trigger] alive[i] ==> goes_on(edges, alive, i),
    ensures
        is_walk(edges, alive, walk, n + 1),
    decreases n,
{
    if n == 0 {
        seq![start]
    } else {
        let before = lemma_walk(edges, alive, start, (n - 1) as nat);
        let last = before.last();
        assert(before[before.len() - 1] == last);
        assert(alive[last]);
        assert(goes_on(edges, alive, last));
        let j = choose|j: int|
            0 <= j < edges.len() && #[trigger] alive[j] && edges[last].to == edges[j].from;
        let walk = before.push(j);
        assert forall|i: int|
            0 <= i < walk.len() - 1 implies edges[#[trigger] walk[i]].to == edges[walk[i + 1]].from by {
            if i < before.len() - 1 {
                assert(walk[i] == before[i] && walk[i + 1] == before[i + 1]);
            }
        }
        assert forall|i: int|
            0 <= i < walk.len() implies 0 <= #[trigger] walk[i] < edges.len() && alive[walk[i]] by {
            if i < before.len() {
                assert(walk[i] == before[i]);
            }
        }
        walk
    }
}

proof fn lemma_repeats(walk: Seq<int>, n: nat)
    requires
        walk.len() == n + 1,
        forall|i: int| 0 <= i < walk.len() ==> 0 <= #[trigger] walk[i] < n,
    ensures
        !walk.no_duplicates(),
{
    if walk.no_duplicates() {
        walk.unique_seq_to_set();
        lemma_int_range(0, n as int);
        let range = set_int_range(0, n as int);
        assert(walk.to_set().subset_of(range)) by {
            assert forall|x: int| walk.to_set().contains(x) implies range.contains(x) by {
                let i = choose|i: int| 0 <= i < walk.len() && walk[i] == x;
                assert(0 <= walk[i] < n);
            }
        }
        lemma_len_subset(walk.to_set(), range);
    }
}

/// Where every edge that is left goes on, there is a cycle.
proof fn lemma_endless(edges: Seq<EdgeView>, alive: Seq<bool>, start: int)
    requires
        alive.len() == edges.len(),
        0 <= start < edges.len(),
        alive[start],
        forall|i: int| 0 <= i < edges.len() && #[trigger] alive[i] ==> goes_on(edges, alive, i),
    ensures
        has_cycle(edges),
{
    let walk = lemma_walk(edges, alive, start, edges.len());
    lemma_repeats(walk, edges.len());
    let (a, b) = choose|a: int, b: int|
        0 <= a < walk.len() && 0 <= b < walk.len() && a != b && walk[a] == walk[b];
    let (from, to) = if a < b {
        (a, b)
    } else {
        (b, a)
    };
    let round = walk.subrange(from, to);
    assert forall|i: int| 0 <= i < round.len() implies 0 <= #[trigger] round[i] < edges.len() by {
        assert(round[i] == walk[from + i]);
    }
    assert forall|i: int|
        0 <= i < round.len() - 1 implies edges[#[trigger] round[i]].to == edges[round[i + 1]].from by {
        assert(round[i] == walk[from + i] && round[i + 1] == walk[from + i + 1]);
        assert(edges[walk[from + i]].to == edges[walk[from + i + 1]].from);
    }
    assert(round.last() == walk[to - 1]);
    assert(edges[walk[to - 1]].to == edges[walk[to]].from);
    assert(round[0] == walk[from]);
    assert(is_cycle(edges, round));
}

/// Checks that edges that are there and new ones together have no cycle.
pub fn check_acyclic(existing: &[InvokeEdge], new: &[InvokeEdge]) -> (r: Result<(), String>)
    ensures
        r is Err <==> has_cycle(existing.deep_view() + new.deep_view()),
        r is Err ==> r->Err_0@ == cycle_text(),
{
    let ghost edges = existing.deep_view() + new.deep_view();
    let mut all: Vec<&InvokeEdge> = Vec::new();
    let mut i: usize = 0;
    while i < existing.len()
        invariant
            i <= existing@.len(),
            all@.len() == i,
            forall|j: int| 0 <= j < i ==> (#[trigger] all@[j]).deep_view() == existing@[j].deep_view(),
        decreases existing@.len() - i,
    {
        all.push(&existing[i]);
        i += 1;
    }
    let mut i: usize = 0;
    while i < new.len()
        invariant
            i <= new@.len(),
            all@.len() == existing@.len() + i,
            forall|j: int|
                0 <= j < all@.len() ==> (#[trigger] all@[j]).deep_view() == if j < existing@.len() {
                    existing@[j].deep_view()
                } else {
                    new@[j - existing@.len()].deep_view()
                },
        decreases new@.len() - i,
    {
        all.push(&new[i]);
        i += 1;
    }
    assert(views_of(all@) =~= edges);
    let mut alive: Vec<bool> = Vec::new();
    let mut i: usize = 0;
    while i < all.len()
        invariant
            i <= all@.len(),
            alive@.len() == i,
            forall|j: int| 0 <= j < i ==> #[trigger] alive@[j],
        decreases all@.len() - i,
    {
        alive.push(true);
        i += 1;
    }
    assert(cycles_left(edges, alive@));
    let mut swept = true;
    while swept
        invariant
            alive@.len() == all@.len(),
            views_of(all@) == edges,
            cycles_left(edges, alive@),
            !swept ==> forall|i: int|
                0 <= i < all@.len() && #[trigger] alive@[i] ==> goes_on(edges, alive@, i),
        decreases count(alive@),
            if swept {
                1int
            } else {
                0int
            },
    {
        swept = sweep(&all, &mut alive);
    }
    let mut i: usize = 0;
    while i < alive.len()
        invariant
            i <= alive@.len(),
            forall|j: int| 0 <= j < i ==> !#[trigger] alive@[j],
            alive@.len() == edges.len(),
            edges == existing.deep_view() + new.deep_view(),
            forall|i: int|
                0 <= i < edges.len() && #[trigger] alive@[i] ==> goes_on(edges, alive@, i),
        decreases alive@.len() - i,
    {
        if alive[i] {
            proof {
                lemma_endless(edges, alive@, i as int);
            }
            return Err(
                "invoke cycle: an action would lead back to itself through the actions that it invokes".to_owned(),
            );
        }
        i += 1;
    }
    proof {
        if has_cycle(edges) {
            let walk = choose|walk: Seq<int>| is_cycle(edges, walk);
            assert(0 <= walk[0] < edges.len());
            assert(alive@[walk[0]]);
        }
    }
    Ok(())
}

} // verus!
