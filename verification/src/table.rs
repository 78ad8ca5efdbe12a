//! A map kept as a list of entries, no two under one key.

use vstd::prelude::*;

use crate::duplicate::Duplicate;
use crate::text::same;

verus! {

/// What can be a key of a [`Table`].
pub trait Key: DeepView {
    /// Whether two keys stand for the same value.
    fn same_key(&self, other: &Self) -> (r: bool)
        ensures
            r == (self.deep_view() == other.deep_view()),
    ;
}

impl Key for String {
    fn same_key(&self, other: &Self) -> (r: bool) {
        same(self.as_str(), other.as_str())
    }
}

impl Key for u64 {
    fn same_key(&self, other: &Self) -> (r: bool) {
        *self == *other
    }
}

impl Key for usize {
    fn same_key(&self, other: &Self) -> (r: bool) {
        *self == *other
    }
}

impl Key for (String, String) {
    fn same_key(&self, other: &Self) -> (r: bool) {
        same(self.0.as_str(), other.0.as_str()) && same(self.1.as_str(), other.1.as_str())
    }
}

impl Key for (String, Option<String>) {
    fn same_key(&self, other: &Self) -> (r: bool) {
        if !same(self.0.as_str(), other.0.as_str()) {
            return false;
        }
        match (&self.1, &other.1) {
            (Some(a), Some(b)) => same(a.as_str(), b.as_str()),
            (None, None) => true,
            _ => false,
        }
    }
}

/// A map kept as a list of entries, no two under one key.
pub struct Table<K: Key, V: DeepView> {
    entries: Vec<(K, V)>,
}

/// No two entries stand under one key.
pub open spec fn keys_differ<A, B>(s: Seq<(A, B)>) -> bool {
    forall|i: int, j: int| 0 <= i < j < s.len() ==> (#[trigger] s[i]).0 != (#[trigger] s[j]).0
}

/// The map that a list of entries spells.
pub open spec fn as_map<A, B>(s: Seq<(A, B)>) -> Map<A, B>
    decreases s.len(),
{
    if s.len() == 0 {
        Map::empty()
    } else {
        as_map(s.drop_last()).insert(s.last().0, s.last().1)
    }
}

/// A map that is spelt by entries under different keys holds those entries and no others.
pub proof fn lemma_as_map<A, B>(s: Seq<(A, B)>)
    requires
        keys_differ(s),
    ensures
        forall|i: int|
            0 <= i < s.len() ==> as_map(s).contains_key((#[trigger] s[i]).0) && as_map(s)[s[i].0]
                == s[i].1,
        forall|k: A| #[trigger]
            as_map(s).contains_key(k) ==> exists|i: int| 0 <= i < s.len() && (#[trigger] s[i]).0
                == k,
        as_map(s).dom().finite(),
        as_map(s).dom().len() == s.len(),
    decreases s.len(),
{
    if s.len() > 0 {
        let t = s.drop_last();
        assert(keys_differ(t)) by {
            assert forall|i: int, j: int| 0 <= i < j < t.len() implies (#[trigger] t[i]).0 != (
            #[trigger] t[j]).0 by {
                assert(t[i] == s[i] && t[j] == s[j]);
            }
        }
        lemma_as_map(t);
        assert forall|i: int| 0 <= i < s.len() implies as_map(s).contains_key((#[trigger] s[i]).0)
            && as_map(s)[s[i].0] == s[i].1 by {
            if i < t.len() {
                assert(t[i] == s[i]);
            }
        }
        assert forall|k: A| #[trigger] as_map(s).contains_key(k) implies exists|i: int|
            0 <= i < s.len() && (#[trigger] s[i]).0 == k by {
            if k == s.last().0 {
                assert(s[s.len() - 1].0 == k);
            } else {
                assert(as_map(t).contains_key(k));
                let i = choose|i: int| 0 <= i < t.len() && (#[trigger] t[i]).0 == k;
                assert(s[i].0 == k);
            }
        }
        assert(!as_map(t).contains_key(s.last().0)) by {
            if as_map(t).contains_key(s.last().0) {
                let i = choose|i: int| 0 <= i < t.len() && (#[trigger] t[i]).0 == s.last().0;
                assert(s[i].0 == s[s.len() - 1].0);
            }
        }
        assert(as_map(s).dom() =~= as_map(t).dom().insert(s.last().0));
    } else {
        assert(as_map(s).dom() =~= Set::<A>::empty());
    }
}

impl<K: Key, V: DeepView> Table<K, V> {
    /// No two entries stand under one key.
    pub open spec fn wf(self) -> bool {
        keys_differ(self.order())
    }

    /// The entries, oldest first.
    pub closed spec fn order(self) -> Seq<(K::V, V::V)> {
        self.entries.deep_view()
    }

    /// The map that the table stands for.
    pub open spec fn map(self) -> Map<K::V, V::V> {
        as_map(self.order())
    }

    /// A table without entries.
    pub fn new() -> (r: Self)
        ensures
            r.wf(),
            r.order() == Seq::<(K::V, V::V)>::empty(),
            r.map() == Map::<K::V, V::V>::empty(),
    {
        let entries: Vec<(K, V)> = Vec::new();
        assert(entries.deep_view() =~= Seq::empty());
        Table { entries }
    }

    /// How many entries there are.
    pub fn len(&self) -> (r: usize)
        requires
            self.wf(),
        ensures
            r == self.order().len(),
            self.map().dom().finite(),
            r == self.map().dom().len(),
    {
        proof {
            lemma_as_map(self.order());
        }
        self.entries.len()
    }

    /// The entry at a position.
    pub fn entry(&self, i: usize) -> (r: (&K, &V))
        requires
            i < self.order().len(),
        ensures
            (r.0.deep_view(), r.1.deep_view()) == self.order()[i as int],
    {
        let e = &self.entries[i];
        (&e.0, &e.1)
    }

    /// The position of the entry under `key`, or the number of entries where there is none.
    fn position(&self, key: &K) -> (r: usize)
        ensures
            r <= self.order().len(),
            r < self.order().len() ==> self.order()[r as int].0 == key.deep_view(),
            forall|j: int| 0 <= j < r ==> (#[trigger] self.order()[j]).0 != key.deep_view(),
    {
        let mut i: usize = 0;
        while i < self.entries.len()
            invariant
                i <= self.order().len(),
                self.order().len() == self.entries@.len(),
                forall|j: int| 0 <= j < i ==> (#[trigger] self.order()[j]).0 != key.deep_view(),
            decreases self.order().len() - i,
        {
            if self.entries[i].0.same_key(key) {
                return i;
            }
            i += 1;
        }
        i
    }

    /// The value under `key`.
    pub fn get(&self, key: &K) -> (r: Option<&V>)
        requires
            self.wf(),
        ensures
            match r {
                Some(v) => self.map().contains_key(key.deep_view()) && self.map()[key.deep_view()]
                    == v.deep_view(),
                None => !self.map().contains_key(key.deep_view()),
            },
    {
        proof {
            lemma_as_map(self.order());
        }
        let i: usize = self.position(key);
        if i < self.entries.len() {
            assert(self.order()[i as int].1 == self.entries@[i as int].1.deep_view());
            Some(&self.entries[i].1)
        } else {
            None
        }
    }

    /// Whether there is an entry under `key`.
    pub fn contains(&self, key: &K) -> (r: bool)
        requires
            self.wf(),
        ensures
            r == self.map().contains_key(key.deep_view()),
    {
        self.get(key).is_some()
    }

    /// Puts `value` under `key`, in place of what stands there.
    pub fn insert(&mut self, key: K, value: V)
        requires
            old(self).wf(),
        ensures
            final(self).wf(),
            final(self).map() == old(self).map().insert(key.deep_view(), value.deep_view()),
    {
        let ghost before = self.order();
        let ghost k = key.deep_view();
        let ghost v = value.deep_view();
        let i: usize = self.position(&key);
        proof {
            lemma_as_map(before);
        }
        if i < self.entries.len() {
            self.entries.set(i, (key, value));
            assert(self.order() =~= before.update(i as int, (k, v)));
        } else {
            self.entries.push((key, value));
            assert(self.order() =~= before.push((k, v)));
        }
        proof {
            lemma_same_map(self.order(), before, i as int, k, v);
        }
    }

    /// Puts in place of each value what `f` makes of it, and drops the entries of which it makes
    /// nothing.
    pub(crate) fn revise<F: Fn(&K, V) -> Option<V>>(
        &mut self,
        f: F,
        Ghost(step): Ghost<spec_fn(K::V, V::V) -> Option<V::V>>,
    )
        requires
            old(self).wf(),
            forall|k: &K, v: V| #[trigger] f.requires((k, v)),
            forall|k: &K, v: V, r: Option<V>| #[trigger]
                f.ensures((k, v), r) ==> r.deep_view() == step(k.deep_view(), v.deep_view()),
        ensures
            final(self).wf(),
            final(self).map() == revised(old(self).map(), step),
    {
        let ghost before = self.order();
        let mut taken: Vec<(K, V)> = Vec::new();
        core::mem::swap(&mut self.entries, &mut taken);
        let ghost all = taken@;
        assert(before.take(0) =~= Seq::empty());
        assert(self.order() =~= Seq::empty());
        for e in it: taken
            invariant
                it.seq() == all,
                before.len() == all.len(),
                it.index() <= all.len(),
                forall|j: int|
                    0 <= j < all.len() ==> (#[trigger] before[j]) == (
                        all[j].0.deep_view(),
                        all[j].1.deep_view(),
                    ),
                self.order() == revised_seq(before.take(it.index() as int), step),
                forall|k: &K, v: V| #[trigger] f.requires((k, v)),
                forall|k: &K, v: V, r: Option<V>| #[trigger]
                    f.ensures((k, v), r) ==> r.deep_view() == step(k.deep_view(), v.deep_view()),
        {
            let ghost so_far = self.order();
            let ghost i = it.index() as int;
            proof {
                let t = before.take(i + 1);
                assert(t.drop_last() =~= before.take(i));
                assert(t.last() == before[i]);
            }
            let (k, v) = e;
            if let Some(w) = f(&k, v) {
                let ghost kept = (k.deep_view(), w.deep_view());
                self.entries.push((k, w));
                assert(self.order() =~= so_far.push(kept));
            }
        }
        proof {
            assert(before.take(before.len() as int) =~= before);
            lemma_revised(before, step);
        }
    }

    /// Drops the entry under `key`.
    pub fn remove(&mut self, key: &K)
        requires
            old(self).wf(),
        ensures
            final(self).wf(),
            final(self).map() == old(self).map().remove(key.deep_view()),
    {
        let ghost gone = key.deep_view();
        let ghost step = all_but::<K::V, V::V>(gone);
        let keep = |k: &K, v: V| -> (r: Option<V>)
            ensures
                r.deep_view() == step(k.deep_view(), v.deep_view()),
        {
            if k.same_key(key) {
                None
            } else {
                Some(v)
            }
        };
        self.revise(keep, Ghost(step));
        proof {
            lemma_all_but(old(self).map(), gone);
        }
    }
}

/// The step that drops the entry under `gone` and keeps every other.
pub open spec fn all_but<A, B>(gone: A) -> spec_fn(A, B) -> Option<B> {
    |k: A, v: B|
        if k == gone {
            None
        } else {
            Some(v)
        }
}

proof fn lemma_all_but<A, B>(m: Map<A, B>, gone: A)
    ensures
        revised(m, all_but(gone)) == m.remove(gone),
{
    let r = revised(m, all_but::<A, B>(gone));
    assert forall|k: A| #[trigger] r.contains_key(k) <==> m.remove(gone).contains_key(k) by {
        assert(k != gone ==> all_but::<A, B>(gone)(k, m[k]) == Some(m[k]));
        assert(k == gone ==> all_but::<A, B>(gone)(k, m[k]) is None);
    }
    assert(r =~= m.remove(gone));
}

impl<K: Key + Duplicate, V: Duplicate> Table<K, V> {
    /// A copy with the same entries in the same order.
    pub fn duplicate_table(&self) -> (r: Self)
        ensures
            r.order() == self.order(),
            r.map() == self.map(),
            self.wf() ==> r.wf(),
    {
        Table { entries: self.entries.duplicate() }
    }
}

/// What is left of a map when `step` has been applied to each entry.
pub open spec fn revised<A, B>(m: Map<A, B>, step: spec_fn(A, B) -> Option<B>) -> Map<A, B> {
    Map::new(|k: A| m.contains_key(k) && step(k, m[k]) is Some, |k: A| step(k, m[k])->0)
}

/// What is left of a list of entries when `step` has been applied to each.
pub open spec fn revised_seq<A, B>(s: Seq<(A, B)>, step: spec_fn(A, B) -> Option<B>) -> Seq<(A, B)>
    decreases s.len(),
{
    if s.len() == 0 {
        Seq::empty()
    } else {
        let kept = revised_seq(s.drop_last(), step);
        match step(s.last().0, s.last().1) {
            Some(w) => kept.push((s.last().0, w)),
            None => kept,
        }
    }
}

proof fn lemma_revised<A, B>(s: Seq<(A, B)>, step: spec_fn(A, B) -> Option<B>)
    requires
        keys_differ(s),
    ensures
        keys_differ(revised_seq(s, step)),
        as_map(revised_seq(s, step)) == revised(as_map(s), step),
    decreases s.len(),
{
    let r = revised_seq(s, step);
    if s.len() == 0 {
        assert(as_map(r) =~= revised(as_map(s), step));
    } else {
        let t = s.drop_last();
        assert(keys_differ(t)) by {
            assert forall|i: int, j: int| 0 <= i < j < t.len() implies (#[trigger] t[i]).0 != (
            #[trigger] t[j]).0 by {
                assert(t[i] == s[i] && t[j] == s[j]);
            }
        }
        lemma_revised(t, step);
        lemma_as_map(t);
        let kept = revised_seq(t, step);
        lemma_as_map(kept);
        let (k, v) = s.last();
        assert(!as_map(t).contains_key(k)) by {
            if as_map(t).contains_key(k) {
                let i = choose|i: int| 0 <= i < t.len() && (#[trigger] t[i]).0 == k;
                assert(s[i].0 == s[s.len() - 1].0);
            }
        }
        assert(!as_map(kept).contains_key(k));
        if step(k, v) is Some {
            let w = step(k, v)->0;
            assert forall|i: int, j: int| 0 <= i < j < r.len() implies (#[trigger] r[i]).0 != (
            #[trigger] r[j]).0 by {
                assert(r[i] == kept[i]);
                if j < kept.len() {
                    assert(r[j] == kept[j]);
                } else {
                    assert(as_map(kept).contains_key(kept[i].0));
                }
            }
            assert(r.drop_last() =~= kept);
        }
        assert(as_map(r) =~= revised(as_map(s), step));
    }
}

/// Entries that agree with `s` but for `v` under `k` spell the map of `s` with `v` under `k`.
proof fn lemma_same_map<A, B>(t: Seq<(A, B)>, s: Seq<(A, B)>, i: int, k: A, v: B)
    requires
        keys_differ(s),
        0 <= i <= s.len(),
        i < s.len() ==> s[i].0 == k && t == s.update(i, (k, v)),
        i == s.len() ==> t == s.push((k, v)) && forall|j: int| 0 <= j < s.len() ==> (#[trigger] s[j]).0 != k,
    ensures
        keys_differ(t),
        as_map(t) == as_map(s).insert(k, v),
{
    assert(keys_differ(t));
    lemma_as_map(s);
    lemma_as_map(t);
    assert forall|x: A| as_map(t).contains_key(x) <==> as_map(s).insert(k, v).contains_key(x) by {
        if as_map(t).contains_key(x) {
            let j = choose|j: int| 0 <= j < t.len() && (#[trigger] t[j]).0 == x;
            if j != i {
                assert(s[j].0 == x);
            }
        }
        if as_map(s).contains_key(x) {
            let j = choose|j: int| 0 <= j < s.len() && (#[trigger] s[j]).0 == x;
            assert(t[j].0 == x);
        }
        assert(t[i].0 == k);
    }
    assert forall|x: A| as_map(t).contains_key(x) implies as_map(t)[x] == as_map(s).insert(k, v)[x] by {
        let j = choose|j: int| 0 <= j < t.len() && (#[trigger] t[j]).0 == x;
        if j != i {
            assert(s[j] == t[j]);
        }
        assert(t[i].0 == k);
    }
    assert(as_map(t) =~= as_map(s).insert(k, v));
}

} // verus!
