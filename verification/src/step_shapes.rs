//! The shape of an action's steps, checked when the action is registered.
//!
//! A step's id is an identifier of the expression language. A `script` step names a language that
//! some plugin runs. A step that carries steps of its own carries them as arrays of well-formed
//! steps, all the way down. The steps of two branches of a `parallel` step have different ids and
//! set different variables.

use vstd::prelude::*;

use crate::identity::{name_fault, validate_name, validate_reference, NameKind};
use crate::json::{
    json_kind, json_views, kind_text, lemma_get_size, lemma_item_size, list_size, size, Json,
    JsonView,
};
use crate::manifest::{lemma_params_size, step_of, StepDef, StepTypeImpl, StepTypeImplView, StepView};
use crate::registry::{PluginRegistry, RegistryView};
use crate::text::{
    cat3, cat4, cat5, contains_text, debug_list, debug_list_text, decimal, decimal_text, has_text,
    lex_sorted, same, sort, starts_with, texts,
};

verus! {

/// The texts that `field` has in a value that spells a step and in the steps that it carries.
///
/// Only the keys that carry steps for the step's own type are followed; what looks like a step
/// elsewhere is data.
pub open spec fn collected(v: JsonView, field: Seq<char>) -> Seq<Seq<char>>
    decreases size(v), 0int, 0int,
{
    let own = match v.get_str(field) {
        Some(s) => seq![s],
        None => Seq::empty(),
    };
    let params = v.get("params"@);
    let kind = v.get_str("type"@);
    proof {
        lemma_get_size(v, "params"@);
    }
    if kind is None {
        Seq::empty()
    } else if params is None || !(params->0 is Object) {
        own
    } else if kind->0 == "for_each"@ || kind->0 == "repeat"@ {
        own + collected_under(params->0, "steps"@, field)
    } else if kind->0 == "ifs"@ {
        match params->0.get("ifs"@) {
            Some(JsonView::Array(branches)) => {
                proof {
                    lemma_get_size(params->0, "ifs"@);
                }
                own + collected_branches(branches, field)
            },
            _ => own,
        }
    } else if kind->0 == "try"@ {
        own + collected_under(params->0, "try"@, field) + collected_under(
            params->0,
            "catch"@,
            field,
        ) + collected_under(params->0, "finally"@, field)
    } else if kind->0 == "parallel"@ {
        match params->0.get("branches"@) {
            Some(JsonView::Array(branches)) => {
                proof {
                    lemma_get_size(params->0, "branches"@);
                }
                own + collected_arrays(branches, field)
            },
            _ => own,
        }
    } else {
        own
    }
}

/// The texts in the steps of a list.
pub open spec fn collected_list(items: Seq<JsonView>, field: Seq<char>) -> Seq<Seq<char>>
    decreases list_size(items), 1int, items.len(),
{
    if items.len() == 0 {
        Seq::empty()
    } else {
        collected_list(items.drop_last(), field) + collected(items.last(), field)
    }
}

/// The texts in the steps of the array under `key`.
pub open spec fn collected_under(v: JsonView, key: Seq<char>, field: Seq<char>) -> Seq<Seq<char>>
    decreases size(v), 0int, 0int,
{
    proof {
        lemma_get_size(v, key);
    }
    match v.get(key) {
        Some(JsonView::Array(items)) => collected_list(items, field),
        _ => Seq::empty(),
    }
}

/// The texts in the steps under the `then` of each branch.
pub open spec fn collected_branches(branches: Seq<JsonView>, field: Seq<char>) -> Seq<Seq<char>>
    decreases list_size(branches), 1int, branches.len(),
{
    if branches.len() == 0 {
        Seq::empty()
    } else {
        collected_branches(branches.drop_last(), field) + collected_under(
            branches.last(),
            "then"@,
            field,
        )
    }
}

/// The texts in the steps of a branch that is an array.
pub open spec fn collected_array(branch: JsonView, field: Seq<char>) -> Seq<Seq<char>>
    decreases size(branch), 0int, 0int,
{
    match branch {
        JsonView::Array(items) => collected_list(items, field),
        _ => Seq::empty(),
    }
}

/// The texts in the steps of each branch that is an array.
pub open spec fn collected_arrays(branches: Seq<JsonView>, field: Seq<char>) -> Seq<Seq<char>>
    decreases list_size(branches), 1int, branches.len(),
{
    if branches.len() == 0 {
        Seq::empty()
    } else {
        collected_arrays(branches.drop_last(), field) + collected_array(branches.last(), field)
    }
}

/// Adds to `out` the texts that `field` has in a step and in the steps that it carries.
pub fn collect_step_field_recursive(step: &Json, field: &str, out: &mut Vec<String>)
    ensures
        texts(final(out)@) == texts(old(out)@) + collected(step@, field@),
    decreases size(step@), 0int, 0int,
{
    let ghost before = texts(out@);
    proof {
        lemma_get_size(step@, "params"@);
    }
    let kind = match step.get_str("type") {
        Some(s) => s,
        None => {
            assert(before + Seq::<Seq<char>>::empty() =~= before);
            return;
        },
    };
    if let Some(value) = step.get_str(field) {
        out.push(value.to_owned());
    }
    let ghost own = match step@.get_str(field@) {
        Some(s) => seq![s],
        None => Seq::<Seq<char>>::empty(),
    };
    assert(texts(out@) =~= before + own);
    let params = match step.get("params") {
        Some(p) => p,
        None => {
            return;
        },
    };
    if !params.is_object() {
        return;
    }
    if same(kind, "for_each") || same(kind, "repeat") {
        collect_under(params, "steps", field, out);
        assert(texts(out@) =~= before + (own + collected_under(params@, "steps"@, field@)));
    } else if same(kind, "ifs") {
        proof {
            lemma_get_size(params@, "ifs"@);
        }
        if let Some(branches) = params.get_array("ifs") {
            let ghost views = json_views(branches@);
            let ghost start = texts(out@);
            assert(views.take(0) =~= Seq::empty());
            assert(start + collected_branches(views.take(0), field@) =~= start);
            let mut i: usize = 0;
            while i < branches.len()
                invariant
                    i <= branches@.len(),
                    views == json_views(branches@),
                    size(JsonView::Array(views)) < size(step@),
                    texts(out@) == start + collected_branches(views.take(i as int), field@),
                decreases branches@.len() - i,
            {
                proof {
                    lemma_item_size(views, i as int);
                    assert(views.take(i as int + 1).drop_last() =~= views.take(i as int));
                }
                collect_under(&branches[i], "then", field, out);
                i += 1;
                assert(texts(out@) =~= start + collected_branches(views.take(i as int), field@));
            }
            assert(views.take(views.len() as int) =~= views);
            assert(texts(out@) =~= before + (own + collected_branches(views, field@)));
        }
    } else if same(kind, "try") {
        collect_under(params, "try", field, out);
        collect_under(params, "catch", field, out);
        collect_under(params, "finally", field, out);
        assert(texts(out@) =~= before + (own + collected_under(params@, "try"@, field@)
            + collected_under(params@, "catch"@, field@) + collected_under(
            params@,
            "finally"@,
            field@,
        )));
    } else if same(kind, "parallel") {
        proof {
            lemma_get_size(params@, "branches"@);
        }
        if let Some(branches) = params.get_array("branches") {
            let ghost views = json_views(branches@);
            let ghost start = texts(out@);
            assert(views.take(0) =~= Seq::empty());
            assert(start + collected_arrays(views.take(0), field@) =~= start);
            let mut i: usize = 0;
            while i < branches.len()
                invariant
                    i <= branches@.len(),
                    views == json_views(branches@),
                    size(JsonView::Array(views)) < size(step@),
                    texts(out@) == start + collected_arrays(views.take(i as int), field@),
                decreases branches@.len() - i,
            {
                proof {
                    lemma_item_size(views, i as int);
                    assert(views.take(i as int + 1).drop_last() =~= views.take(i as int));
                }
                collect_array(&branches[i], field, out);
                i += 1;
                assert(texts(out@) =~= start + collected_arrays(views.take(i as int), field@));
            }
            assert(views.take(views.len() as int) =~= views);
            assert(texts(out@) =~= before + (own + collected_arrays(views, field@)));
        }
    }
}

fn collect_list(items: &Vec<Json>, field: &str, out: &mut Vec<String>)
    ensures
        texts(final(out)@) == texts(old(out)@) + collected_list(json_views(items@), field@),
    decreases list_size(json_views(items@)), 1int, items@.len(),
{
    let ghost views = json_views(items@);
    let ghost start = texts(out@);
    assert(views.take(0) =~= Seq::empty());
    assert(start + collected_list(views.take(0), field@) =~= start);
    let mut i: usize = 0;
    while i < items.len()
        invariant
            i <= items@.len(),
            views == json_views(items@),
            texts(out@) == start + collected_list(views.take(i as int), field@),
        decreases items@.len() - i,
    {
        proof {
            lemma_item_size(views, i as int);
            assert(views.take(i as int + 1).drop_last() =~= views.take(i as int));
        }
        collect_step_field_recursive(&items[i], field, out);
        i += 1;
        assert(texts(out@) =~= start + collected_list(views.take(i as int), field@));
    }
    assert(views.take(views.len() as int) =~= views);
}

/// Adds to `out` the texts that `field` has in the steps of the array under `key`, and in the steps that
/// they carry.
pub fn collect_under(v: &Json, key: &str, field: &str, out: &mut Vec<String>)
    ensures
        texts(final(out)@) == texts(old(out)@) + collected_under(v@, key@, field@),
    decreases size(v@), 0int, 0int,
{
    let ghost start = texts(out@);
    proof {
        lemma_get_size(v@, key@);
    }
    match v.get_array(key) {
        Some(items) => collect_list(items, field, out),
        None => {
            assert(start + Seq::<Seq<char>>::empty() =~= start);
        },
    }
}

fn collect_array(branch: &Json, field: &str, out: &mut Vec<String>)
    ensures
        texts(final(out)@) == texts(old(out)@) + collected_array(branch@, field@),
    decreases size(branch@), 0int, 0int,
{
    let ghost start = texts(out@);
    match branch.as_array() {
        Some(items) => collect_list(items, field, out),
        None => {
            assert(start + Seq::<Seq<char>>::empty() =~= start);
        },
    }
}

/// Texts, each with the number of the branch that it stands in.
pub open spec fn tagged(texts: Seq<Seq<char>>, branch: nat) -> Seq<(Seq<char>, nat)> {
    texts.map_values(|s: Seq<char>| (s, branch))
}

/// The texts that `field` has in the steps of each of the first `n` branches.
pub open spec fn branch_texts(branches: Seq<JsonView>, field: Seq<char>, n: nat) -> Seq<
    (Seq<char>, nat),
>
    decreases n,
{
    if n == 0 {
        Seq::empty()
    } else {
        branch_texts(branches, field, (n - 1) as nat) + tagged(
            collected_array(branches[n - 1], field),
            (n - 1) as nat,
        )
    }
}

/// The number of the branch in which `s` stands first, from position `i` on.
pub open spec fn home(all: Seq<(Seq<char>, nat)>, s: Seq<char>, i: int) -> nat
    decreases all.len() - i,
{
    if i < 0 || i >= all.len() {
        0
    } else if all[i].0 == s {
        all[i].1
    } else {
        home(all, s, i + 1)
    }
}

/// A text that stands in two branches: the text, the branch where it stands first, and the other.
pub struct Collision {
    pub text: Seq<char>,
    pub first: nat,
    pub second: nat,
}

/// The first text, from position `i` on, that stands in an earlier branch too.
pub open spec fn collision(all: Seq<(Seq<char>, nat)>, i: int) -> Option<Collision>
    decreases all.len() - i,
{
    if i < 0 || i >= all.len() {
        None
    } else if home(all, all[i].0, 0) != all[i].1 {
        Some(
            Collision { text: all[i].0, first: home(all, all[i].0, 0), second: all[i].1 },
        )
    } else {
        collision(all, i + 1)
    }
}

/// Where a step stands, for an error message.
pub open spec fn at_step(action: Seq<char>, id: Seq<char>) -> Seq<char> {
    "action '"@ + action + "' step '"@ + id + "'"@
}

/// A `script` step's language, where it is one that nobody runs.
pub open spec fn script_fault(
    action: Seq<char>,
    step: StepView,
    languages: Seq<Seq<char>>,
) -> Option<Seq<char>> {
    match step.params.get_str("language"@) {
        None => Some(
            at_step(action, step.id)
                + ": `script` step requires a `language` param naming a registered script runtime"@,
        ),
        Some(language) => if languages.contains(language) {
            None
        } else {
            Some(
                at_step(action, step.id) + " uses script language '"@ + language
                    + "' but no plugin has registered an implementation; supported languages: "@
                    + debug_list(languages),
            )
        },
    }
}

/// The target of an `invoke` step, where it is spelt out and is no plugin's name.
pub open spec fn invoke_fault(action: Seq<char>, step: StepView) -> Option<Seq<char>> {
    match step.params.get_str("plugin"@) {
        Some(target) => if !has_text(target, "{{"@) && !"$"@.is_prefix_of(target) {
            match name_fault(NameKind::Plugin, target) {
                Some(e) => Some(at_step(action, step.id) + ": "@ + e.text()),
                None => None,
            }
        } else {
            None
        },
        None => None,
    }
}

/// The words for a text that two branches share.
pub open spec fn id_collision_text(action: Seq<char>, id: Seq<char>, c: Collision) -> Seq<char> {
    "action '"@ + action + "' parallel step '"@ + id + "': step id '"@ + c.text
        + "' appears in both branch "@ + decimal(c.first) + " and branch "@ + decimal(c.second)
        + "; branches execute concurrently and merge into one result keyspace, so step ids must be unique across branches"@
}

/// The words for a variable that two branches set.
pub open spec fn variable_collision_text(action: Seq<char>, id: Seq<char>, c: Collision) -> Seq<
    char,
> {
    "action '"@ + action + "' parallel step '"@ + id + "': storeToVariable '"@ + c.text
        + "' appears in both branch "@ + decimal(c.first) + " and branch "@ + decimal(c.second)
        + "; branches execute concurrently and merge new variables into one keyspace, so a variable may be introduced by at most one branch (and writes to a variable that already existed before the parallel are discarded at merge, so this write cannot take effect either way)"@
}

/// What two branches of a `parallel` step share and should not: a step id, or else a variable.
pub open spec fn collision_fault(
    action: Seq<char>,
    id: Seq<char>,
    branches: Seq<JsonView>,
) -> Option<Seq<char>> {
    match collision(branch_texts(branches, "id"@, branches.len()), 0) {
        Some(c) => Some(id_collision_text(action, id, c)),
        None => match collision(branch_texts(branches, "storeToVariable"@, branches.len()), 0) {
            Some(c) => Some(variable_collision_text(action, id, c)),
            None => None,
        },
    }
}

/// The first of two faults.
pub open spec fn either(a: Option<Seq<char>>, b: Option<Seq<char>>) -> Option<Seq<char>> {
    if a is Some {
        a
    } else {
        b
    }
}

/// The first item of a list, from `i` on, that does not spell a step.
pub open spec fn malformed_fault(
    action: Seq<char>,
    id: Seq<char>,
    path: Seq<char>,
    items: Seq<JsonView>,
    i: int,
) -> Option<Seq<char>>
    decreases items.len() - i,
{
    if i < 0 || i >= items.len() {
        None
    } else {
        match step_of(items[i]) {
            Err(e) => Some(
                at_step(action, id) + " "@ + path + "["@ + decimal(i as nat)
                    + "]: malformed step: "@ + e,
            ),
            Ok(_) => malformed_fault(action, id, path, items, i + 1),
        }
    }
}

/// The first fault of a step or of the steps that it carries.
pub open spec fn step_fault(
    action: Seq<char>,
    step: StepView,
    languages: Seq<Seq<char>>,
) -> Option<Seq<char>>
    decreases size(step.params), 2int, 0int,
{
    let named = match name_fault(NameKind::StepId, step.id) {
        Some(e) => Some("action '"@ + action + "': "@ + e.text()),
        None => None,
    };
    let own = if step.step_type == "invoke"@ {
        invoke_fault(action, step)
    } else if step.step_type == "script"@ {
        script_fault(action, step, languages)
    } else {
        None
    };
    if named is Some {
        named
    } else if own is Some {
        own
    } else {
        carried_fault(action, step, languages)
    }
}

/// The first fault of the steps that a step carries.
pub open spec fn carried_fault(
    action: Seq<char>,
    step: StepView,
    languages: Seq<Seq<char>>,
) -> Option<Seq<char>>
    decreases size(step.params), 1int, 0int,
{
    let id = step.id;
    let params = step.params;
    if step.step_type == "for_each"@ || step.step_type == "repeat"@ {
        block_fault(action, id, "steps"@, params, "steps"@, languages)
    } else if step.step_type == "ifs"@ {
        proof {
            lemma_get_size(params, "ifs"@);
        }
        match params.get("ifs"@) {
            None => Some(
                at_step(action, id) + ": `ifs` step requires an `ifs` array of branch objects"@,
            ),
            Some(JsonView::Array(branches)) => ifs_fault(action, id, branches, 0, languages),
            Some(other) => Some(
                at_step(action, id) + " ifs: must be an array of branch objects, got "@
                    + kind_text(other),
            ),
        }
    } else if step.step_type == "try"@ {
        either(
            block_fault(action, id, "try"@, params, "try"@, languages),
            either(
                block_fault(action, id, "catch"@, params, "catch"@, languages),
                block_fault(action, id, "finally"@, params, "finally"@, languages),
            ),
        )
    } else if step.step_type == "parallel"@ {
        proof {
            lemma_get_size(params, "branches"@);
        }
        match params.get("branches"@) {
            None => None,
            Some(JsonView::Array(branches)) => either(
                collision_fault(action, id, branches),
                parallel_fault(action, id, branches, 0, languages),
            ),
            Some(other) => Some(
                at_step(action, id) + " branches: must be an array of step arrays, got "@
                    + kind_text(other),
            ),
        }
    } else {
        None
    }
}

/// The first fault of the steps under `key`, which is absent or an array.
pub open spec fn block_fault(
    action: Seq<char>,
    id: Seq<char>,
    path: Seq<char>,
    v: JsonView,
    key: Seq<char>,
    languages: Seq<Seq<char>>,
) -> Option<Seq<char>>
    decreases size(v), 0int, 0int,
{
    proof {
        lemma_get_size(v, key);
    }
    match v.get(key) {
        None => None,
        Some(JsonView::Array(items)) => list_fault(action, id, path, items, languages),
        Some(other) => Some(
            at_step(action, id) + " "@ + path + ": must be an array of steps, got "@ + kind_text(
                other,
            ),
        ),
    }
}

/// The first fault of a list of steps: that of an item that spells no step comes before any other.
pub open spec fn list_fault(
    action: Seq<char>,
    id: Seq<char>,
    path: Seq<char>,
    items: Seq<JsonView>,
    languages: Seq<Seq<char>>,
) -> Option<Seq<char>>
    decreases list_size(items), 4int, 0int,
{
    let malformed = malformed_fault(action, id, path, items, 0);
    if malformed is Some {
        malformed
    } else {
        items_fault(action, items, 0, languages)
    }
}

/// The first fault of the steps in a list from `i` on.
pub open spec fn items_fault(
    action: Seq<char>,
    items: Seq<JsonView>,
    i: int,
    languages: Seq<Seq<char>>,
) -> Option<Seq<char>>
    decreases list_size(items), 3int, items.len() - i,
{
    if i < 0 || i >= items.len() {
        None
    } else {
        match step_of(items[i]) {
            Err(_) => None,
            Ok(step) => {
                proof {
                    lemma_item_size(items, i);
                    lemma_params_size(items[i]);
                }
                either(
                    step_fault(action, step, languages),
                    items_fault(action, items, i + 1, languages),
                )
            },
        }
    }
}

/// The path of the steps of a branch of an `ifs` step.
pub open spec fn then_path(i: nat) -> Seq<char> {
    "ifs["@ + decimal(i) + "].then"@
}

/// What is wrong with a branch of an `ifs` step, apart from its steps: it is an object, its test is
/// a string, and only the last branch goes without a test.
pub open spec fn branch_fault(action: Seq<char>, id: Seq<char>, branches: Seq<JsonView>, i: int) -> Option<
    Seq<char>,
> {
    let place = at_step(action, id) + " ifs["@ + decimal(i as nat);
    match branches[i] {
        JsonView::Object(_) => match branches[i].get("test"@) {
            None | Some(JsonView::Null) => if i != branches.len() - 1 {
                Some(
                    place
                        + "]: a branch with no `test` always matches, so it must be the last branch (found "@
                        + decimal((branches.len() - 1 - i) as nat) + " after it)"@,
                )
            } else {
                None
            },
            Some(JsonView::String(_)) => None,
            Some(other) => Some(
                place
                    + "].test: must be a DSL condition string (or null / omitted for the final else branch), got "@
                    + kind_text(other),
            ),
        },
        other => Some(
            place + "]: must be a branch object with `test` and `then`, got "@ + kind_text(other),
        ),
    }
}

/// The first fault of the branches of an `ifs` step from `i` on.
pub open spec fn ifs_fault(
    action: Seq<char>,
    id: Seq<char>,
    branches: Seq<JsonView>,
    i: int,
    languages: Seq<Seq<char>>,
) -> Option<Seq<char>>
    decreases list_size(branches), 3int, branches.len() - i,
{
    if i < 0 || i >= branches.len() {
        None
    } else {
        proof {
            lemma_item_size(branches, i);
        }
        either(
            branch_fault(action, id, branches, i),
            either(
                block_fault(action, id, then_path(i as nat), branches[i], "then"@, languages),
                ifs_fault(action, id, branches, i + 1, languages),
            ),
        )
    }
}

/// The first fault of the branches of a `parallel` step from `i` on.
pub open spec fn parallel_fault(
    action: Seq<char>,
    id: Seq<char>,
    branches: Seq<JsonView>,
    i: int,
    languages: Seq<Seq<char>>,
) -> Option<Seq<char>>
    decreases list_size(branches), 5int, branches.len() - i,
{
    if i < 0 || i >= branches.len() {
        None
    } else {
        match branches[i] {
            JsonView::Array(items) => {
                proof {
                    lemma_item_size(branches, i);
                }
                either(
                    list_fault(
                        action,
                        id,
                        "branches["@ + decimal(i as nat) + "]"@,
                        items,
                        languages,
                    ),
                    parallel_fault(action, id, branches, i + 1, languages),
                )
            },
            _ => Some(
                at_step(action, id) + " branches["@ + decimal(i as nat)
                    + "]: must be an array of steps"@,
            ),
        }
    }
}

/// The first fault of an action's steps from `i` on.
pub open spec fn steps_fault(
    action: Seq<char>,
    steps: Seq<StepView>,
    i: int,
    languages: Seq<Seq<char>>,
) -> Option<Seq<char>>
    decreases steps.len() - i,
{
    if i < 0 || i >= steps.len() {
        None
    } else {
        either(
            step_fault(action, steps[i], languages),
            steps_fault(action, steps, i + 1, languages),
        )
    }
}

/// A check reports exactly the given fault.
pub open spec fn tells(r: Result<(), String>, fault: Option<Seq<char>>) -> bool {
    match fault {
        None => r is Ok,
        Some(e) => r is Err && r->Err_0@ == e,
    }
}

fn place(action: &str, id: &str) -> (r: String)
    ensures
        r@ == at_step(action@, id@),
{
    cat5("action '", action, "' step '", id, "'")
}

fn place_then(action: &str, id: &str, rest: &str) -> (r: String)
    ensures
        r@ == at_step(action@, id@) + rest@,
{
    let mut r = place(action, id);
    r.append(rest);
    r
}

fn check_script(action: &str, step: &StepDef, languages: &Vec<String>) -> (r: Result<(), String>)
    ensures
        tells(r, script_fault(action@, step.deep_view(), texts(languages@))),
{
    match step.params.get_str("language") {
        None => Err(
            place_then(
                action,
                step.id.as_str(),
                ": `script` step requires a `language` param naming a registered script runtime",
            ),
        ),
        Some(language) => {
            let mut i: usize = 0;
            while i < languages.len()
                invariant
                    i <= languages@.len(),
                    step.params@.get_str("language"@) == Some(language@),
                    forall|j: int| 0 <= j < i ==> languages@[j]@ != language@,
                decreases languages@.len() - i,
            {
                if same(languages[i].as_str(), language) {
                    assert(texts(languages@)[i as int] == language@);
                    return Ok(());
                }
                i += 1;
            }
            proof {
                if texts(languages@).contains(language@) {
                    let k = texts(languages@).index_of(language@);
                    assert(languages@[k]@ == language@);
                }
            }
            let shown = debug_list_text(languages);
            let mut m = place_then(action, step.id.as_str(), " uses script language '");
            m.append(language);
            m.append(
                "' but no plugin has registered an implementation; supported languages: ",
            );
            m.append(shown.as_str());
            Err(m)
        },
    }
}

fn check_invoke(action: &str, step: &StepDef) -> (r: Result<(), String>)
    ensures
        tells(r, invoke_fault(action@, step.deep_view())),
{
    match step.params.get_str("plugin") {
        Some(target) => {
            if contains_text(target, "{{") || starts_with(target, "$") {
                return Ok(());
            }
            match validate_reference(NameKind::Plugin, target) {
                Ok(()) => Ok(()),
                Err(e) => {
                    let mut m = place_then(action, step.id.as_str(), ": ");
                    let why = e.message();
                    m.append(why.as_str());
                    Err(m)
                },
            }
        },
        None => Ok(()),
    }
}

/// The views of texts with the numbers of their branches.
pub open spec fn tags(v: Seq<(String, usize)>) -> Seq<(Seq<char>, nat)> {
    v.map_values(|e: (String, usize)| (e.0@, e.1 as nat))
}

fn gather(branches: &Vec<Json>, field: &str) -> (r: Vec<(String, usize)>)
    ensures
        tags(r@) == branch_texts(json_views(branches@), field@, branches@.len()),
{
    let ghost views = json_views(branches@);
    let mut r: Vec<(String, usize)> = Vec::new();
    assert(tags(r@) =~= branch_texts(views, field@, 0));
    let mut i: usize = 0;
    while i < branches.len()
        invariant
            i <= branches@.len(),
            views == json_views(branches@),
            tags(r@) == branch_texts(views, field@, i as nat),
        decreases branches@.len() - i,
    {
        let mut found: Vec<String> = Vec::new();
        assert(texts(found@) =~= Seq::empty());
        collect_array(&branches[i], field, &mut found);
        let ghost here = collected_array(views[i as int], field@);
        assert(texts(found@) =~= here);
        let ghost so_far = tags(r@);
        let mut j: usize = 0;
        assert(so_far =~= so_far + tagged(here.take(0), i as nat));
        while j < found.len()
            invariant
                j <= found@.len(),
                texts(found@) == here,
                tags(r@) == so_far + tagged(here.take(j as int), i as nat),
            decreases found@.len() - j,
        {
            let ghost filled = tags(r@);
            r.push((found[j].clone(), i));
            proof {
                assert(here[j as int] == found@[j as int]@);
                assert(tags(r@) =~= filled.push((here[j as int], i as nat)));
                assert(tagged(here.take(j as int + 1), i as nat) =~= tagged(
                    here.take(j as int),
                    i as nat,
                ).push((here[j as int], i as nat)));
            }
            j += 1;
        }
        assert(here.take(here.len() as int) =~= here);
        i += 1;
    }
    r
}

proof fn lemma_home(all: Seq<(Seq<char>, nat)>, s: Seq<char>, i: int, k: int)
    requires
        0 <= i <= k < all.len(),
        all[k].0 == s,
        forall|j: int| i <= j < k ==> (#[trigger] all[j]).0 != s,
    ensures
        home(all, s, i) == all[k].1,
    decreases k - i,
{
    if i < k {
        assert(all[i].0 != s);
        lemma_home(all, s, i + 1, k);
    }
}

fn find_collision(all: &Vec<(String, usize)>) -> (r: Option<(&str, usize, usize)>)
    ensures
        match r {
            Some((text, first, second)) => collision(tags(all@), 0) == Some(
                Collision { text: text@, first: first as nat, second: second as nat },
            ),
            None => collision(tags(all@), 0) is None,
        },
{
    let ghost views = tags(all@);
    let mut i: usize = 0;
    while i < all.len()
        invariant
            i <= all@.len(),
            views == tags(all@),
            collision(views, 0) == collision(views, i as int),
        decreases all@.len() - i,
    {
        let mut k: usize = 0;
        while !same(all[k].0.as_str(), all[i].0.as_str())
            invariant
                k <= i < all@.len(),
                views == tags(all@),
                forall|j: int| 0 <= j < k ==> (#[trigger] views[j]).0 != views[i as int].0,
            decreases i - k,
        {
            assert(views[k as int].0 != views[i as int].0);
            if k == i {
                assert(false);
            }
            k += 1;
        }
        proof {
            assert(views[k as int].0 == views[i as int].0);
            lemma_home(views, views[i as int].0, 0, k as int);
        }
        if all[k].1 != all[i].1 {
            return Some((all[i].0.as_str(), all[k].1, all[i].1));
        }
        i += 1;
    }
    None
}

fn collision_words(
    action: &str,
    id: &str,
    what: &str,
    found: (&str, usize, usize),
    why: &str,
) -> (r: String)
    ensures
        r@ == "action '"@ + action@ + "' parallel step '"@ + id@ + what@ + found.0@
            + "' appears in both branch "@ + decimal(found.1 as nat) + " and branch "@ + decimal(
            found.2 as nat,
        ) + why@,
{
    let mut m = cat5("action '", action, "' parallel step '", id, what);
    m.append(found.0);
    m.append("' appears in both branch ");
    let first = decimal_text(found.1 as u64);
    m.append(first.as_str());
    m.append(" and branch ");
    let second = decimal_text(found.2 as u64);
    m.append(second.as_str());
    m.append(why);
    m
}

fn check_collisions(action: &str, id: &str, branches: &Vec<Json>) -> (r: Result<(), String>)
    ensures
        tells(r, collision_fault(action@, id@, json_views(branches@))),
{
    let ids = gather(branches, "id");
    if let Some(found) = find_collision(&ids) {
        return Err(
            collision_words(
                action,
                id,
                "': step id '",
                found,
                "; branches execute concurrently and merge into one result keyspace, so step ids must be unique across branches",
            ),
        );
    }
    let variables = gather(branches, "storeToVariable");
    if let Some(found) = find_collision(&variables) {
        return Err(
            collision_words(
                action,
                id,
                "': storeToVariable '",
                found,
                "; branches execute concurrently and merge new variables into one keyspace, so a variable may be introduced by at most one branch (and writes to a variable that already existed before the parallel are discarded at merge, so this write cannot take effect either way)",
            ),
        );
    }
    Ok(())
}

fn check_step(action: &str, step: &StepDef, languages: &Vec<String>) -> (r: Result<(), String>)
    ensures
        tells(r, step_fault(action@, step.deep_view(), texts(languages@))),
    decreases size(step.params@), 2int, 0int,
{
    if let Err(e) = validate_name(NameKind::StepId, step.id.as_str()) {
        let why = e.message();
        return Err(cat4("action '", action, "': ", why.as_str()));
    }
    if same(step.step_type.as_str(), "invoke") {
        check_invoke(action, step)?;
    } else if same(step.step_type.as_str(), "script") {
        check_script(action, step, languages)?;
    }
    check_carried(action, step, languages)
}

fn check_carried(action: &str, step: &StepDef, languages: &Vec<String>) -> (r: Result<(), String>)
    ensures
        tells(r, carried_fault(action@, step.deep_view(), texts(languages@))),
    decreases size(step.params@), 1int, 0int,
{
    let id = step.id.as_str();
    let kind = step.step_type.as_str();
    let params = &step.params;
    if same(kind, "for_each") || same(kind, "repeat") {
        check_block(action, id, "steps", params, "steps", languages)
    } else if same(kind, "ifs") {
        proof {
            lemma_get_size(params@, "ifs"@);
        }
        match params.get("ifs") {
            None => Err(
                place_then(action, id, ": `ifs` step requires an `ifs` array of branch objects"),
            ),
            Some(found) => match found.as_array() {
                Some(branches) => check_ifs(action, id, branches, languages),
                None => {
                    let mut m = place_then(
                        action,
                        id,
                        " ifs: must be an array of branch objects, got ",
                    );
                    m.append(json_kind(found));
                    Err(m)
                },
            },
        }
    } else if same(kind, "try") {
        check_block(action, id, "try", params, "try", languages)?;
        check_block(action, id, "catch", params, "catch", languages)?;
        check_block(action, id, "finally", params, "finally", languages)
    } else if same(kind, "parallel") {
        proof {
            lemma_get_size(params@, "branches"@);
        }
        match params.get("branches") {
            None => Ok(()),
            Some(found) => match found.as_array() {
                Some(branches) => {
                    check_collisions(action, id, branches)?;
                    check_parallel(action, id, branches, languages)
                },
                None => {
                    let mut m = place_then(
                        action,
                        id,
                        " branches: must be an array of step arrays, got ",
                    );
                    m.append(json_kind(found));
                    Err(m)
                },
            },
        }
    } else {
        Ok(())
    }
}

fn check_block(
    action: &str,
    id: &str,
    path: &str,
    v: &Json,
    key: &str,
    languages: &Vec<String>,
) -> (r: Result<(), String>)
    ensures
        tells(r, block_fault(action@, id@, path@, v@, key@, texts(languages@))),
    decreases size(v@), 0int, 0int,
{
    proof {
        lemma_get_size(v@, key@);
    }
    match v.get(key) {
        None => Ok(()),
        Some(found) => match found.as_array() {
            Some(items) => check_list(action, id, path, items, languages),
            None => {
                let mut m = place_then(action, id, " ");
                m.append(path);
                m.append(": must be an array of steps, got ");
                m.append(json_kind(found));
                Err(m)
            },
        },
    }
}

fn check_list(
    action: &str,
    id: &str,
    path: &str,
    items: &Vec<Json>,
    languages: &Vec<String>,
) -> (r: Result<(), String>)
    ensures
        tells(r, list_fault(action@, id@, path@, json_views(items@), texts(languages@))),
    decreases list_size(json_views(items@)), 4int, 0int,
{
    let ghost views = json_views(items@);
    let mut steps: Vec<StepDef> = Vec::new();
    let mut i: usize = 0;
    while i < items.len()
        invariant
            i <= items@.len(),
            views == json_views(items@),
            steps@.len() == i,
            forall|j: int|
                0 <= j < i ==> step_of(#[trigger] views[j]) == Ok::<StepView, Seq<char>>(
                    steps@[j].deep_view(),
                ),
            malformed_fault(action@, id@, path@, views, 0) == malformed_fault(
                action@,
                id@,
                path@,
                views,
                i as int,
            ),
        decreases items@.len() - i,
    {
        match StepDef::from_inner_value(&items[i]) {
            Ok(step) => {
                steps.push(step);
            },
            Err(e) => {
                let mut m = place_then(action, id, " ");
                m.append(path);
                m.append("[");
                let at = decimal_text(i as u64);
                m.append(at.as_str());
                m.append("]: malformed step: ");
                m.append(e.as_str());
                return Err(m);
            },
        }
        i += 1;
    }
    i = 0;
    while i < steps.len()
        invariant
            i <= steps@.len(),
            views == json_views(items@),
            steps@.len() == views.len(),
            forall|j: int|
                0 <= j < views.len() ==> step_of(#[trigger] views[j]) == Ok::<
                    StepView,
                    Seq<char>,
                >(steps@[j].deep_view()),
            malformed_fault(action@, id@, path@, views, 0) is None,
            items_fault(action@, views, 0, texts(languages@)) == items_fault(
                action@,
                views,
                i as int,
                texts(languages@),
            ),
        decreases steps@.len() - i,
    {
        proof {
            assert(step_of(views[i as int]) is Ok);
            lemma_item_size(views, i as int);
            lemma_params_size(views[i as int]);
        }
        check_step(action, &steps[i], languages)?;
        i += 1;
    }
    Ok(())
}

fn check_branch(action: &str, id: &str, branches: &Vec<Json>, i: usize) -> (r: Result<(), String>)
    requires
        i < branches@.len(),
    ensures
        tells(r, branch_fault(action@, id@, json_views(branches@), i as int)),
{
    let branch = &branches[i];
    let ghost views = json_views(branches@);
    assert(views[i as int] == branch@);
    let mut m = place_then(action, id, " ifs[");
    let at = decimal_text(i as u64);
    m.append(at.as_str());
    if !branch.is_object() {
        m.append("]: must be a branch object with `test` and `then`, got ");
        m.append(json_kind(branch));
        return Err(m);
    }
    let untested = match branch.get("test") {
        None => true,
        Some(Json::Null) => true,
        Some(Json::String(_)) => false,
        Some(other) => {
            m.append(
                "].test: must be a DSL condition string (or null / omitted for the final else branch), got ",
            );
            m.append(json_kind(other));
            return Err(m);
        },
    };
    if untested && i != branches.len() - 1 {
        m.append(
            "]: a branch with no `test` always matches, so it must be the last branch (found ",
        );
        let left = decimal_text((branches.len() - 1 - i) as u64);
        m.append(left.as_str());
        m.append(" after it)");
        return Err(m);
    }
    Ok(())
}

fn check_ifs(action: &str, id: &str, branches: &Vec<Json>, languages: &Vec<String>) -> (r: Result<
    (),
    String,
>)
    ensures
        tells(r, ifs_fault(action@, id@, json_views(branches@), 0, texts(languages@))),
    decreases list_size(json_views(branches@)), 3int, 0int,
{
    let ghost views = json_views(branches@);
    let mut i: usize = 0;
    while i < branches.len()
        invariant
            i <= branches@.len(),
            views == json_views(branches@),
            ifs_fault(action@, id@, views, 0, texts(languages@)) == ifs_fault(
                action@,
                id@,
                views,
                i as int,
                texts(languages@),
            ),
        decreases branches@.len() - i,
    {
        proof {
            lemma_item_size(views, i as int);
            assert(views[i as int] == branches@[i as int]@);
        }
        check_branch(action, id, branches, i)?;
        let at = decimal_text(i as u64);
        let path = cat3("ifs[", at.as_str(), "].then");
        check_block(action, id, path.as_str(), &branches[i], "then", languages)?;
        i += 1;
    }
    Ok(())
}

fn check_parallel(
    action: &str,
    id: &str,
    branches: &Vec<Json>,
    languages: &Vec<String>,
) -> (r: Result<(), String>)
    ensures
        tells(r, parallel_fault(action@, id@, json_views(branches@), 0, texts(languages@))),
    decreases list_size(json_views(branches@)), 5int, 0int,
{
    let ghost views = json_views(branches@);
    let mut i: usize = 0;
    while i < branches.len()
        invariant
            i <= branches@.len(),
            views == json_views(branches@),
            parallel_fault(action@, id@, views, 0, texts(languages@)) == parallel_fault(
                action@,
                id@,
                views,
                i as int,
                texts(languages@),
            ),
        decreases branches@.len() - i,
    {
        proof {
            lemma_item_size(views, i as int);
            assert(views[i as int] == branches@[i as int]@);
        }
        let at = decimal_text(i as u64);
        match branches[i].as_array() {
            Some(items) => {
                let path = cat3("branches[", at.as_str(), "]");
                check_list(action, id, path.as_str(), items, languages)?;
            },
            None => {
                let mut m = place_then(action, id, " branches[");
                m.append(at.as_str());
                m.append("]: must be an array of steps");
                return Err(m);
            },
        }
        i += 1;
    }
    Ok(())
}

/// A language is run by a plugin that is registered, or by the manifest at hand.
pub open spec fn language_runs(
    registry: RegistryView,
    local: Seq<StepTypeImplView>,
    language: Seq<char>,
) -> bool {
    ||| registry.step_type_impls.contains_key(("script"@, Some(language)))
    ||| exists|i: int|
        0 <= i < local.len() && (#[trigger] local[i]).step_type == "script"@ && local[i].matches
            == Some(language)
}

/// `languages` lists the languages that are run, each once, in order.
pub open spec fn lists_languages(
    languages: Seq<Seq<char>>,
    registry: RegistryView,
    local: Seq<StepTypeImplView>,
) -> bool {
    &&& lex_sorted(languages)
    &&& languages.no_duplicates()
    &&& forall|l: Seq<char>| #[trigger]
        languages.contains(l) <==> language_runs(registry, local, l)
}

/// A list with the items of `v` holds what `v` holds, and no item twice where `v` holds none twice.
proof fn lemma_same_items(u: Seq<Seq<char>>, v: Seq<Seq<char>>)
    requires
        u.to_multiset() == v.to_multiset(),
    ensures
        forall|x: Seq<char>| #[trigger] u.contains(x) <==> v.contains(x),
        v.no_duplicates() ==> u.no_duplicates(),
{
    u.to_multiset_ensures();
    v.to_multiset_ensures();
    assert forall|x: Seq<char>| #[trigger] u.contains(x) <==> v.contains(x) by {
        assert(u.contains(x) <==> u.to_multiset().count(x) > 0);
        assert(v.contains(x) <==> v.to_multiset().count(x) > 0);
    }
    if v.no_duplicates() {
        v.lemma_multiset_has_no_duplicates();
        u.lemma_multiset_has_no_duplicates_conv();
    }
}

/// The languages that are run, each once, in order.
pub fn script_languages(registry: &PluginRegistry, local_impls: &[StepTypeImpl]) -> (r: Vec<String>)
    requires
        registry.wf(),
    ensures
        lists_languages(texts(r@), registry@, local_impls.deep_view()),
{
    let found = registry.step_type_impl_matches("script");
    let ghost registered = found.deep_view();
    let ghost local = local_impls.deep_view();
    let mut all: Vec<String> = Vec::new();
    let mut i: usize = 0;
    while i < found.len()
        invariant
            i <= found@.len(),
            registered == found.deep_view(),
            texts(all@) == registered.take(i as int),
        decreases found@.len() - i,
    {
        let ghost so_far = texts(all@);
        assert(registered[i as int] == found@[i as int]@);
        all.push(found[i].to_owned());
        i += 1;
        assert(texts(all@) =~= so_far.push(registered[i - 1]));
        assert(registered.take(i as int) =~= registered.take(i - 1).push(registered[i - 1]));
    }
    assert(registered.take(registered.len() as int) =~= registered);
    i = 0;
    while i < local_impls.len()
        invariant
            i <= local_impls@.len(),
            local == local_impls.deep_view(),
            texts(all@).no_duplicates(),
            forall|l: Seq<char>| #[trigger]
                texts(all@).contains(l) <==> language_runs(registry@, local.take(i as int), l),
        decreases local_impls@.len() - i,
    {
        let ghost so_far = texts(all@);
        let ghost now = local[i as int];
        assert(now == local_impls@[i as int].deep_view());
        let entry = &local_impls[i];
        if same(entry.step_type.as_str(), "script") {
            if let Some(language) = &entry.matches {
                let mut k: usize = 0;
                while k < all.len() && !same(all[k].as_str(), language.as_str())
                    invariant
                        k <= all@.len(),
                        so_far == texts(all@),
                        forall|j: int| 0 <= j < k ==> (#[trigger] so_far[j]) != language@,
                    decreases all@.len() - k,
                {
                    assert(so_far[k as int] == all@[k as int]@);
                    k += 1;
                }
                if k == all.len() {
                    assert(!so_far.contains(language@));
                    all.push(language.clone());
                    assert(texts(all@) =~= so_far.push(language@));
                } else {
                    assert(so_far[k as int] == language@);
                }
            }
        }
        proof {
            assert forall|l: Seq<char>| #[trigger]
                texts(all@).contains(l) <==> language_runs(
                    registry@,
                    local.take(i as int + 1),
                    l,
                ) by {
                lemma_one_more(registry@, local, i as int, l);
                if texts(all@).contains(l) && !so_far.contains(l) {
                    let q = texts(all@).index_of(l);
                    assert(texts(all@)[q] == l);
                    if q < so_far.len() {
                        assert(so_far[q] == l);
                    }
                }
                if so_far.contains(l) {
                    let q = so_far.index_of(l);
                    assert(texts(all@)[q] == l);
                }
                if now.step_type == "script"@ && now.matches == Some(l) {
                    if !so_far.contains(l) {
                        assert(texts(all@)[so_far.len() as int] == l);
                    }
                }
            }
        }
        i += 1;
    }
    assert(local.take(local.len() as int) =~= local);
    let r = sort(all);
    proof {
        lemma_same_items(texts(r@), texts(all@));
    }
    r
}

proof fn lemma_one_more(registry: RegistryView, local: Seq<StepTypeImplView>, i: int, l: Seq<char>)
    requires
        0 <= i < local.len(),
    ensures
        language_runs(registry, local.take(i + 1), l) <==> language_runs(registry, local.take(i), l)
            || (local[i].step_type == "script"@ && local[i].matches == Some(l)),
{
    let a = local.take(i);
    let b = local.take(i + 1);
    if language_runs(registry, a, l) && !registry.step_type_impls.contains_key(
        ("script"@, Some(l)),
    ) {
        let k = choose|k: int|
            0 <= k < a.len() && (#[trigger] a[k]).step_type == "script"@ && a[k].matches == Some(
                l,
            );
        assert(b[k] == a[k]);
    }
    if local[i].step_type == "script"@ && local[i].matches == Some(l) {
        assert(b[i] == local[i]);
    }
    if language_runs(registry, b, l) && !registry.step_type_impls.contains_key(
        ("script"@, Some(l)),
    ) {
        let k = choose|k: int|
            0 <= k < b.len() && (#[trigger] b[k]).step_type == "script"@ && b[k].matches == Some(
                l,
            );
        if k < i {
            assert(a[k] == b[k]);
        }
    }
}

/// Checks the shape of an action's steps, given the languages that are run.
pub fn check_steps(action_name: &str, steps: &Vec<StepDef>, languages: &Vec<String>) -> (r: Result<
    (),
    String,
>)
    ensures
        tells(r, steps_fault(action_name@, steps.deep_view(), 0, texts(languages@))),
{
    let ghost views = steps.deep_view();
    let mut i: usize = 0;
    while i < steps.len()
        invariant
            i <= steps@.len(),
            views == steps.deep_view(),
            steps_fault(action_name@, views, 0, texts(languages@)) == steps_fault(
                action_name@,
                views,
                i as int,
                texts(languages@),
            ),
        decreases steps@.len() - i,
    {
        assert(views[i as int] == steps@[i as int].deep_view());
        check_step(action_name, &steps[i], languages)?;
        i += 1;
    }
    Ok(())
}

/// Checks the shape of an action's steps and of the steps that they carry.
pub fn validate_step_shapes(
    action_name: &str,
    steps: &Vec<StepDef>,
    registry: &PluginRegistry,
    local_impls: &[StepTypeImpl],
) -> (r: Result<(), String>)
    requires
        registry.wf(),
    ensures
        exists|languages: Seq<Seq<char>>|
            {
                &&& #[trigger] lists_languages(languages, registry@, local_impls.deep_view())
                &&& tells(r, steps_fault(action_name@, steps.deep_view(), 0, languages))
            },
{
    let languages = script_languages(registry, local_impls);
    let r = check_steps(action_name, steps, &languages);
    assert(lists_languages(texts(languages@), registry@, local_impls.deep_view()));
    r
}

proof fn lemma_no_collision(all: Seq<(Seq<char>, nat)>, i: int, k: int)
    requires
        collision(all, i) is None,
        0 <= i <= k < all.len(),
    ensures
        home(all, all[k].0, 0) == all[k].1,
    decreases all.len() - i,
{
    if i < k {
        lemma_no_collision(all, i + 1, k);
    }
}

proof fn lemma_branch_text(
    branches: Seq<JsonView>,
    field: Seq<char>,
    n: nat,
    i: int,
    s: Seq<char>,
) -> (k: int)
    requires
        0 <= i < n <= branches.len(),
        collected_array(branches[i], field).contains(s),
    ensures
        0 <= k < branch_texts(branches, field, n).len(),
        branch_texts(branches, field, n)[k] == (s, i as nat),
    decreases n,
{
    let before = branch_texts(branches, field, (n - 1) as nat);
    let own = tagged(collected_array(branches[n - 1], field), (n - 1) as nat);
    if i == n - 1 {
        let texts = collected_array(branches[i], field);
        let j = choose|j: int| 0 <= j < texts.len() && texts[j] == s;
        assert(own[j] == (s, i as nat));
        assert((before + own)[before.len() + j] == own[j]);
        before.len() + j
    } else {
        let k = lemma_branch_text(branches, field, (n - 1) as nat, i, s);
        assert((before + own)[k] == before[k]);
        k
    }
}

/// Two branches of a `parallel` step without a fault share no step id and set no variable in common,
/// at whatever depth: what they write goes to different places.
pub proof fn law_branches_write_to_different_places(
    action: Seq<char>,
    step: StepView,
    languages: Seq<Seq<char>>,
    branches: Seq<JsonView>,
    field: Seq<char>,
    i: int,
    j: int,
    s: Seq<char>,
)
    requires
        step.step_type == "parallel"@,
        step_fault(action, step, languages) is None,
        step.params.get("branches"@) == Some(JsonView::Array(branches)),
        field == "id"@ || field == "storeToVariable"@,
        0 <= i < branches.len(),
        0 <= j < branches.len(),
        collected_array(branches[i], field).contains(s),
        collected_array(branches[j], field).contains(s),
    ensures
        i == j,
{
    reveal_strlit("parallel");
    reveal_strlit("invoke");
    reveal_strlit("script");
    reveal_strlit("for_each");
    reveal_strlit("repeat");
    reveal_strlit("ifs");
    reveal_strlit("try");
    assert("parallel"@.len() == 8);
    assert("parallel"@[0] == 'p' && "for_each"@[0] == 'f');
    assert(carried_fault(action, step, languages) is None);
    assert(collision_fault(action, step.id, branches) is None);
    let all = branch_texts(branches, field, branches.len());
    assert(collision(all, 0) is None);
    let a = lemma_branch_text(branches, field, branches.len(), i, s);
    let b = lemma_branch_text(branches, field, branches.len(), j, s);
    lemma_no_collision(all, 0, a);
    lemma_no_collision(all, 0, b);
}

} // verus!
