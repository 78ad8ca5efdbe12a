//! Maps from names to JSON values that keep the order in which names came.

use indexmap::IndexMap;
use vstd::prelude::*;

use crate::json::{entry_views, lookup, Json, JsonView};

verus! {

/// `indexmap::IndexMap`, opaque to the verifier.
#[verifier::external_type_specification]
#[verifier::external_body]
#[verifier::reject_recursive_types(K)]
#[verifier::reject_recursive_types(V)]
#[verifier::reject_recursive_types(S)]
pub struct ExIndexMap<K, V, S>(indexmap::IndexMap<K, V, S>);

/// The entries of an `IndexMap`, in its order.
pub uninterp spec fn entries(m: IndexMap<String, Json>) -> Seq<(Seq<char>, JsonView)>;

/// The position of the first entry under `key`, or the number of entries where there is none.
pub open spec fn place(s: Seq<(Seq<char>, JsonView)>, key: Seq<char>) -> int
    decreases s.len(),
{
    if s.len() == 0 || s[0].0 == key {
        0
    } else {
        1 + place(s.drop_first(), key)
    }
}

/// The entries with `value` under `key`: in the place of the entry that stands there, else at the
/// end.
pub open spec fn put(s: Seq<(Seq<char>, JsonView)>, key: Seq<char>, value: JsonView) -> Seq<
    (Seq<char>, JsonView),
> {
    if place(s, key) < s.len() {
        s.update(place(s, key), (key, value))
    } else {
        s.push((key, value))
    }
}

/// Entries under other keys.
pub open spec fn not_at(key: Seq<char>) -> spec_fn((Seq<char>, JsonView)) -> bool {
    |e: (Seq<char>, JsonView)| e.0 != key
}

/// The entries without what stands under `key`.
pub open spec fn without_key(s: Seq<(Seq<char>, JsonView)>, key: Seq<char>) -> Seq<
    (Seq<char>, JsonView),
> {
    s.filter(not_at(key))
}

/// `IndexMap::new`: a map without entries.
#[verifier::external_body]
pub(crate) fn new_map() -> (r: IndexMap<String, Json>)
    ensures
        entries(r) == Seq::<(Seq<char>, JsonView)>::empty(),
{
    IndexMap::new()
}

/// `IndexMap::get`: the value under a key.
#[verifier::external_body]
pub(crate) fn get<'a>(m: &'a IndexMap<String, Json>, key: &str) -> (r: Option<&'a Json>)
    ensures
        match r {
            Some(v) => lookup(entries(*m), key@) == Some(v@),
            None => lookup(entries(*m), key@) is None,
        },
{
    m.get(key)
}

/// `IndexMap::insert`: where the key is there its value is replaced and it keeps its place; else the
/// entry comes last.
#[verifier::external_body]
pub(crate) fn insert(m: &mut IndexMap<String, Json>, key: String, value: Json)
    ensures
        entries(*final(m)) == put(entries(*old(m)), key@, value@),
{
    m.insert(key, value);
}

/// `IndexMap::shift_remove`: the entry under the key goes, the others keep their order.
#[verifier::external_body]
pub(crate) fn shift_remove(m: &mut IndexMap<String, Json>, key: &str)
    ensures
        entries(*final(m)) == without_key(entries(*old(m)), key@),
{
    m.shift_remove(key);
}

/// `IndexMap`'s `IntoIterator`: the entries in their order.
#[verifier::external_body]
pub(crate) fn into_entries(m: IndexMap<String, Json>) -> (r: Vec<(String, Json)>)
    ensures
        entry_views(r@) == entries(m),
{
    m.into_iter().collect()
}

/// `IndexMap`'s `Clone`: a map with the same entries in the same order.
#[verifier::external_body]
pub(crate) fn copy(m: &IndexMap<String, Json>) -> (r: IndexMap<String, Json>)
    ensures
        entries(r) == entries(*m),
{
    m.clone()
}

/// What stands under a key is what was put there, and what stands under any other key stays.
pub proof fn lemma_put(
    s: Seq<(Seq<char>, JsonView)>,
    key: Seq<char>,
    value: JsonView,
    other: Seq<char>,
)
    ensures
        lookup(put(s, key, value), key) == Some(value),
        other != key ==> lookup(put(s, key, value), other) == lookup(s, other),
    decreases s.len(),
{
    let t = put(s, key, value);
    if s.len() == 0 {
        assert(t =~= seq![(key, value)]);
        assert(t.drop_first() =~= Seq::empty());
        assert(lookup(t.drop_first(), other) is None);
    } else if s[0].0 == key {
        assert(t =~= s.update(0, (key, value)));
        assert(t.drop_first() =~= s.drop_first());
    } else {
        let rest = s.drop_first();
        lemma_place(rest, key);
        lemma_put(rest, key, value, other);
        assert(t[0] == s[0]);
        assert(t.drop_first() =~= put(rest, key, value));
    }
}

proof fn lemma_place(s: Seq<(Seq<char>, JsonView)>, key: Seq<char>)
    ensures
        0 <= place(s, key) <= s.len(),
    decreases s.len(),
{
    if s.len() > 0 && s[0].0 != key {
        lemma_place(s.drop_first(), key);
    }
}

/// Nothing stands under a key that was removed, and what stands under any other key stays.
pub proof fn lemma_without_key(s: Seq<(Seq<char>, JsonView)>, key: Seq<char>, other: Seq<char>)
    ensures
        lookup(without_key(s, key), key) is None,
        other != key ==> lookup(without_key(s, key), other) == lookup(s, other),
    decreases s.len(),
{
    reveal(Seq::filter);
    if s.len() > 0 {
        let rest = s.drop_last();
        lemma_without_key(rest, key, other);
        lemma_lookup_push(rest, s.last(), other);
        lemma_lookup_push(rest, s.last(), key);
        assert(rest.push(s.last()) =~= s);
        if s.last().0 != key {
            lemma_lookup_push(without_key(rest, key), s.last(), other);
            lemma_lookup_push(without_key(rest, key), s.last(), key);
        }
    }
}

/// An entry at the end is found where no earlier one is.
pub proof fn lemma_lookup_push(
    s: Seq<(Seq<char>, JsonView)>,
    e: (Seq<char>, JsonView),
    key: Seq<char>,
)
    ensures
        lookup(s.push(e), key) == match lookup(s, key) {
            Some(v) => Some(v),
            None => if e.0 == key {
                Some(e.1)
            } else {
                None
            },
        },
    decreases s.len(),
{
    let t = s.push(e);
    if s.len() == 0 {
        assert(t.drop_first() =~= Seq::empty());
    } else {
        assert(t.drop_first() =~= s.drop_first().push(e));
        lemma_lookup_push(s.drop_first(), e, key);
    }
}

} // verus!
