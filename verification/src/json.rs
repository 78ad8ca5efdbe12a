//! JSON values.

use vstd::prelude::*;

use crate::text::same;

verus! {

/// A JSON number: an integer where it has one, else its text.
#[derive(Debug, PartialEq, Eq)]
pub enum Number {
    PosInt(u64),
    NegInt(i64),
    Float(String),
}

/// A JSON value. The entries of an object stand in the order of the map that they came from.
#[derive(Debug, PartialEq, Eq)]
pub enum Json {
    Null,
    Bool(bool),
    Number(Number),
    String(String),
    Array(Vec<Json>),
    Object(Vec<(String, Json)>),
}

/// What a [`Number`] stands for.
pub enum NumberView {
    PosInt(u64),
    NegInt(i64),
    Float(Seq<char>),
}

/// What a [`Json`] stands for.
pub enum JsonView {
    Null,
    Bool(bool),
    Number(NumberView),
    String(Seq<char>),
    Array(Seq<JsonView>),
    Object(Seq<(Seq<char>, JsonView)>),
}

impl View for Number {
    type V = NumberView;

    open spec fn view(&self) -> NumberView {
        match self {
            Number::PosInt(n) => NumberView::PosInt(*n),
            Number::NegInt(n) => NumberView::NegInt(*n),
            Number::Float(s) => NumberView::Float(s@),
        }
    }
}

impl View for Json {
    type V = JsonView;

    open spec fn view(&self) -> JsonView {
        json_view(*self)
    }
}

/// What a [`Json`] stands for.
pub open spec fn json_view(j: Json) -> JsonView
    decreases j,
{
    match j {
        Json::Null => JsonView::Null,
        Json::Bool(b) => JsonView::Bool(b),
        Json::Number(n) => JsonView::Number(n@),
        Json::String(s) => JsonView::String(s@),
        Json::Array(v) => JsonView::Array(
            Seq::new(
                v@.len(),
                |i: int|
                    if 0 <= i < v@.len() {
                        json_view(v@[i])
                    } else {
                        JsonView::Null
                    },
            ),
        ),
        Json::Object(v) => JsonView::Object(
            Seq::new(
                v@.len(),
                |i: int|
                    if 0 <= i < v@.len() {
                        (v@[i].0@, json_view(v@[i].1))
                    } else {
                        (Seq::empty(), JsonView::Null)
                    },
            ),
        ),
    }
}

impl Clone for Number {
    fn clone(&self) -> (r: Self)
        ensures
            r@ == self@,
    {
        match self {
            Number::PosInt(n) => Number::PosInt(*n),
            Number::NegInt(n) => Number::NegInt(*n),
            Number::Float(s) => Number::Float(s.clone()),
        }
    }
}

impl Clone for Json {
    fn clone(&self) -> (r: Self)
        ensures
            r@ == self@,
        decreases self,
    {
        match self {
            Json::Null => Json::Null,
            Json::Bool(b) => Json::Bool(*b),
            Json::Number(n) => Json::Number(n.clone()),
            Json::String(s) => Json::String(s.clone()),
            Json::Array(v) => {
                let mut out: Vec<Json> = Vec::new();
                let mut i: usize = 0;
                while i < v.len()
                    invariant
                        i <= v@.len(),
                        out@.len() == i,
                        *self == Json::Array(*v),
                        forall|k: int| 0 <= k < i ==> out@[k]@ == v@[k]@,
                    decreases v@.len() - i,
                {
                    assert(decreases_to!(*self => self->Array_0));
                    assert(decreases_to!(self->Array_0 => v@[i as int]));
                    out.push(v[i].clone());
                    i += 1;
                }
                let r = Json::Array(out);
                assert(r@->Array_0 =~= self@->Array_0);
                r
            },
            Json::Object(v) => {
                let mut out: Vec<(String, Json)> = Vec::new();
                let mut i: usize = 0;
                while i < v.len()
                    invariant
                        i <= v@.len(),
                        out@.len() == i,
                        *self == Json::Object(*v),
                        forall|k: int| 0 <= k < i ==> out@[k].0@ == v@[k].0@ && out@[k].1@ == v@[k].1@,
                    decreases v@.len() - i,
                {
                    assert(decreases_to!(*self => self->Object_0));
                    assert(decreases_to!(self->Object_0 => v@[i as int]));
                    assert(decreases_to!(v@[i as int] => v@[i as int].1));
                    out.push((v[i].0.clone(), v[i].1.clone()));
                    i += 1;
                }
                let r = Json::Object(out);
                assert(r@->Object_0 =~= self@->Object_0);
                r
            },
        }
    }
}

/// The views of the values in `v`.
pub open spec fn json_views(v: Seq<Json>) -> Seq<JsonView> {
    v.map_values(|j: Json| j@)
}

/// The views of the entries in `v`.
pub open spec fn entry_views(v: Seq<(String, Json)>) -> Seq<(Seq<char>, JsonView)> {
    v.map_values(|e: (String, Json)| (e.0@, e.1@))
}

/// An array stands for what its items stand for.
pub broadcast proof fn lemma_array_view(v: Vec<Json>)
    ensures
        #[trigger] Json::Array(v)@ == JsonView::Array(json_views(v@)),
{
    let a = Json::Array(v)@->Array_0;
    assert(a =~= json_views(v@));
}

/// An object stands for what its entries stand for.
pub broadcast proof fn lemma_object_view(v: Vec<(String, Json)>)
    ensures
        #[trigger] Json::Object(v)@ == JsonView::Object(entry_views(v@)),
{
    let a = Json::Object(v)@->Object_0;
    assert(a =~= entry_views(v@));
}

/// The value of the first entry under `key`.
pub open spec fn lookup(entries: Seq<(Seq<char>, JsonView)>, key: Seq<char>) -> Option<JsonView>
    decreases entries.len(),
{
    if entries.len() == 0 {
        None
    } else if entries[0].0 == key {
        Some(entries[0].1)
    } else {
        lookup(entries.drop_first(), key)
    }
}

impl JsonView {
    /// The value under `key`, where this is an object that has one.
    pub open spec fn get(self, key: Seq<char>) -> Option<JsonView> {
        match self {
            JsonView::Object(entries) => lookup(entries, key),
            _ => None,
        }
    }

    /// The text under `key`, where this is an object with a string there.
    pub open spec fn get_str(self, key: Seq<char>) -> Option<Seq<char>> {
        match self.get(key) {
            Some(JsonView::String(s)) => Some(s),
            _ => None,
        }
    }

    /// The items under `key`, where this is an object with an array there.
    pub open spec fn get_array(self, key: Seq<char>) -> Option<Seq<JsonView>> {
        match self.get(key) {
            Some(JsonView::Array(s)) => Some(s),
            _ => None,
        }
    }
}

/// How many values a value is made of, itself included.
pub open spec fn size(j: JsonView) -> nat
    decreases j,
{
    match j {
        JsonView::Array(s) => 1 + list_size(s),
        JsonView::Object(s) => 1 + entries_size(s),
        _ => 1,
    }
}

/// How many values the items of a list are made of.
pub open spec fn list_size(s: Seq<JsonView>) -> nat
    decreases s,
{
    if s.len() == 0 {
        0
    } else {
        size(s.last()) + list_size(s.drop_last())
    }
}

/// How many values the entries of an object are made of.
pub open spec fn entries_size(s: Seq<(Seq<char>, JsonView)>) -> nat
    decreases s,
{
    if s.len() == 0 {
        0
    } else {
        size(s.last().1) + entries_size(s.drop_last())
    }
}

/// An item is no larger than the list that it stands in.
pub proof fn lemma_item_size(s: Seq<JsonView>, i: int)
    requires
        0 <= i < s.len(),
    ensures
        size(s[i]) <= list_size(s),
        size(s[i]) < size(JsonView::Array(s)),
    decreases s.len(),
{
    if i < s.len() - 1 {
        lemma_item_size(s.drop_last(), i);
        assert(s.drop_last()[i] == s[i]);
    }
}

/// An entry's value is no larger than the entries that it stands in.
proof fn lemma_entry_size(s: Seq<(Seq<char>, JsonView)>, i: int)
    requires
        0 <= i < s.len(),
    ensures
        size(s[i].1) <= entries_size(s),
    decreases s.len(),
{
    if i < s.len() - 1 {
        lemma_entry_size(s.drop_last(), i);
        assert(s.drop_last()[i] == s[i]);
    }
}

/// What a key leads to is the value of an entry under that key, and nothing where there is none.
pub proof fn lemma_lookup(s: Seq<(Seq<char>, JsonView)>, key: Seq<char>)
    ensures
        match lookup(s, key) {
            Some(v) => exists|i: int| 0 <= i < s.len() && #[trigger] s[i] == (key, v),
            None => forall|i: int| 0 <= i < s.len() ==> (#[trigger] s[i]).0 != key,
        },
    decreases s.len(),
{
    if s.len() > 0 {
        if s[0].0 == key {
            assert(s[0] == (key, s[0].1));
        } else {
            let t = s.drop_first();
            lemma_lookup(t, key);
            match lookup(t, key) {
                Some(v) => {
                    let i = choose|i: int| 0 <= i < t.len() && #[trigger] t[i] == (key, v);
                    assert(s[i + 1] == (key, v));
                },
                None => {
                    assert forall|i: int| 0 <= i < s.len() implies (#[trigger] s[i]).0 != key by {
                        if i > 0 {
                            assert(t[i - 1] == s[i]);
                        }
                    }
                },
            }
        }
    }
}

/// What stands under a key is smaller than the object.
pub proof fn lemma_get_size(j: JsonView, key: Seq<char>)
    ensures
        j.get(key) is Some ==> size(j.get(key)->0) < size(j),
{
    if let JsonView::Object(s) = j {
        lemma_lookup(s, key);
        if let Some(v) = lookup(s, key) {
            let i = choose|i: int| 0 <= i < s.len() && #[trigger] s[i] == (key, v);
            lemma_entry_size(s, i);
        }
    }
}

/// The first entry under a key, from the position before which there is none.
proof fn lemma_lookup_skip(s: Seq<(Seq<char>, JsonView)>, key: Seq<char>, i: int)
    requires
        0 <= i <= s.len(),
        forall|j: int| 0 <= j < i ==> (#[trigger] s[j]).0 != key,
    ensures
        lookup(s, key) == lookup(s.skip(i), key),
    decreases i,
{
    if i == 0 {
        assert(s.skip(0) =~= s);
    } else {
        let t = s.drop_first();
        assert forall|j: int| 0 <= j < i - 1 implies (#[trigger] t[j]).0 != key by {
            assert(t[j] == s[j + 1]);
        }
        lemma_lookup_skip(t, key, i - 1);
        assert(t.skip(i - 1) =~= s.skip(i));
        assert(s[0].0 != key);
    }
}

impl Json {
    /// The value under `key`, where this is an object that has one.
    pub fn get(&self, key: &str) -> (r: Option<&Json>)
        ensures
            match r {
                Some(v) => self@.get(key@) == Some(v@),
                None => self@.get(key@) is None,
            },
    {
        match self {
            Json::Object(v) => {
                let ghost s = entry_views(v@);
                assert(self@->Object_0 =~= s);
                let mut i: usize = 0;
                while i < v.len()
                    invariant
                        i <= v@.len(),
                        s == entry_views(v@),
                        self@ == JsonView::Object(s),
                        forall|j: int| 0 <= j < i ==> (#[trigger] s[j]).0 != key@,
                    decreases v@.len() - i,
                {
                    if same(v[i].0.as_str(), key) {
                        proof {
                            lemma_lookup_skip(s, key@, i as int);
                            assert(s.skip(i as int)[0] == s[i as int]);
                        }
                        return Some(&v[i].1);
                    }
                    i += 1;
                }
                proof {
                    lemma_lookup_skip(s, key@, i as int);
                    assert(s.skip(i as int).len() == 0);
                }
                None
            },
            _ => None,
        }
    }

    /// The text, where this is a string.
    pub fn as_str(&self) -> (r: Option<&str>)
        ensures
            match r {
                Some(s) => self@ == JsonView::String(s@),
                None => !(self@ is String),
            },
    {
        match self {
            Json::String(s) => Some(s.as_str()),
            _ => None,
        }
    }

    /// The items, where this is an array.
    pub fn as_array(&self) -> (r: Option<&Vec<Json>>)
        ensures
            match r {
                Some(v) => self@ == JsonView::Array(json_views(v@)),
                None => !(self@ is Array),
            },
    {
        match self {
            Json::Array(v) => {
                assert(self@->Array_0 =~= json_views(v@));
                Some(v)
            },
            _ => None,
        }
    }

    /// Whether this is an object.
    pub fn is_object(&self) -> (r: bool)
        ensures
            r == (self@ is Object),
    {
        match self {
            Json::Object(_) => true,
            _ => false,
        }
    }

    /// The text under `key`, where this is an object with a string there.
    pub fn get_str(&self, key: &str) -> (r: Option<&str>)
        ensures
            match r {
                Some(s) => self@.get_str(key@) == Some(s@),
                None => self@.get_str(key@) is None,
            },
    {
        match self.get(key) {
            Some(v) => v.as_str(),
            None => None,
        }
    }

    /// The items under `key`, where this is an object with an array there.
    pub fn get_array(&self, key: &str) -> (r: Option<&Vec<Json>>)
        ensures
            match r {
                Some(v) => self@.get_array(key@) == Some(json_views(v@)),
                None => self@.get_array(key@) is None,
            },
    {
        match self.get(key) {
            Some(v) => v.as_array(),
            None => None,
        }
    }
}

/// `serde_json::Value`, opaque to the verifier.
#[verifier::external_type_specification]
#[verifier::external_body]
pub struct ExValue(serde_json::Value);

/// What a text spells in JSON, or why it spells nothing.
pub uninterp spec fn json_parsed(text: Seq<char>) -> Result<JsonView, Seq<char>>;

/// Copies a `serde_json::Value`, variant by variant: a number by `as_u64` or `as_i64` where it is an
/// integer, else by its text; the entries of an object in the order of its map. Nothing is said of
/// the result.
#[verifier::external_body]
fn from_value(v: serde_json::Value) -> Json {
    match v {
        serde_json::Value::Null => Json::Null,
        serde_json::Value::Bool(b) => Json::Bool(b),
        serde_json::Value::Number(n) => Json::Number(match (n.as_u64(), n.as_i64()) {
            (Some(u), _) => Number::PosInt(u),
            (None, Some(i)) => Number::NegInt(i),
            (None, None) => Number::Float(n.to_string()),
        }),
        serde_json::Value::String(s) => Json::String(s),
        serde_json::Value::Array(a) => Json::Array(a.into_iter().map(from_value).collect()),
        serde_json::Value::Object(m) => {
            Json::Object(m.into_iter().map(|(k, x)| (k, from_value(x))).collect())
        },
    }
}

/// `serde_json::from_str`, with the value copied and the error in words: what comes out depends on
/// the text alone.
#[verifier::external_body]
pub(crate) fn parse_json(text: &str) -> (r: Result<Json, String>)
    ensures
        match r {
            Ok(j) => json_parsed(text@) == Ok::<JsonView, Seq<char>>(j@),
            Err(e) => json_parsed(text@) == Err::<JsonView, Seq<char>>(e@),
        },
{
    serde_json::from_str(text).map(from_value).map_err(|e| format!("{e}"))
}

/// How an error message speaks of a value.
pub open spec fn kind_text(j: JsonView) -> Seq<char> {
    match j {
        JsonView::Object(_) => "an object"@,
        JsonView::Array(_) => "an array"@,
        JsonView::String(_) => "a string"@,
        JsonView::Number(_) => "a number"@,
        JsonView::Bool(_) => "a boolean"@,
        JsonView::Null => "null"@,
    }
}

/// How an error message speaks of a value.
pub fn json_kind(j: &Json) -> (r: &'static str)
    ensures
        r@ == kind_text(j@),
{
    match j {
        Json::Object(_) => "an object",
        Json::Array(_) => "an array",
        Json::String(_) => "a string",
        Json::Number(_) => "a number",
        Json::Bool(_) => "a boolean",
        Json::Null => "null",
    }
}

} // verus!
