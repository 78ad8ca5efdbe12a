//! What holds of the steps of a manifest that is admitted, and of the steps that they carry.

use vstd::prelude::*;

use crate::identity::{name_fault, NameKind};
use crate::json::JsonView;
use crate::manifest::{step_of, StepTypeImplView, StepView};
use crate::registry::RegistryView;
use crate::step_shapes::{
    block_fault, branch_fault, branch_texts, carried_fault, collected, collected_array,
    collected_arrays, collected_branches, collected_list, collected_under, collision, home,
    ifs_fault, items_fault, language_runs, list_fault, lists_languages, malformed_fault,
    parallel_fault, step_fault, steps_fault, tagged, then_path,
};
use crate::text::{decimal, has_text};

verus! {

/// Every item of a list spells a step, and the step is well.
pub open spec fn list_well(
    action: Seq<char>,
    items: Seq<JsonView>,
    languages: Seq<Seq<char>>,
) -> bool {
    forall|i: int|
        0 <= i < items.len() ==> step_of(#[trigger] items[i]) is Ok && step_fault(
            action,
            step_of(items[i])->Ok_0,
            languages,
        ) is None
}

/// There is nothing under a key, or a list of steps that is well.
pub open spec fn block_well(
    action: Seq<char>,
    v: JsonView,
    key: Seq<char>,
    languages: Seq<Seq<char>>,
) -> bool {
    match v.get(key) {
        None => true,
        Some(JsonView::Array(items)) => list_well(action, items, languages),
        Some(_) => false,
    }
}

proof fn lemma_malformed(
    action: Seq<char>,
    id: Seq<char>,
    path: Seq<char>,
    items: Seq<JsonView>,
    i: int,
)
    requires
        0 <= i <= items.len(),
    ensures
        malformed_fault(action, id, path, items, i) is None <==> forall|j: int|
            i <= j < items.len() ==> step_of(#[trigger] items[j]) is Ok,
    decreases items.len() - i,
{
    if i < items.len() {
        lemma_malformed(action, id, path, items, i + 1);
    }
}

proof fn lemma_items(action: Seq<char>, items: Seq<JsonView>, i: int, languages: Seq<Seq<char>>)
    requires
        0 <= i <= items.len(),
        forall|j: int| 0 <= j < items.len() ==> step_of(#[trigger] items[j]) is Ok,
    ensures
        items_fault(action, items, i, languages) is None <==> forall|j: int|
            i <= j < items.len() ==> step_fault(
                action,
                step_of(#[trigger] items[j])->Ok_0,
                languages,
            ) is None,
    decreases items.len() - i,
{
    if i < items.len() {
        lemma_items(action, items, i + 1, languages);
        assert(step_of(items[i]) is Ok);
    }
}

proof fn lemma_list(
    action: Seq<char>,
    id: Seq<char>,
    path: Seq<char>,
    items: Seq<JsonView>,
    languages: Seq<Seq<char>>,
)
    ensures
        list_fault(action, id, path, items, languages) is None <==> list_well(
            action,
            items,
            languages,
        ),
{
    lemma_malformed(action, id, path, items, 0);
    if malformed_fault(action, id, path, items, 0) is None {
        lemma_items(action, items, 0, languages);
    }
}

proof fn lemma_block(
    action: Seq<char>,
    id: Seq<char>,
    path: Seq<char>,
    v: JsonView,
    key: Seq<char>,
    languages: Seq<Seq<char>>,
)
    ensures
        block_fault(action, id, path, v, key, languages) is None <==> block_well(
            action,
            v,
            key,
            languages,
        ),
{
    if let Some(JsonView::Array(items)) = v.get(key) {
        lemma_list(action, id, path, items, languages);
    }
}

/// A step passes where its id is one that expressions can refer to, a plugin that it invokes by a text
/// as it stands is a name, a language that it runs is one that somebody runs, and the steps that it
/// carries pass.
pub proof fn law_a_step_is_checked_with_what_it_carries(
    action: Seq<char>,
    step: StepView,
    languages: Seq<Seq<char>>,
)
    ensures
        step_fault(action, step, languages) is None <==> {
            &&& name_fault(NameKind::StepId, step.id) is None
            &&& step.step_type == "invoke"@ && step.params.get_str("plugin"@) is Some && !has_text(
                step.params.get_str("plugin"@)->0,
                "{{"@,
            ) && !"$"@.is_prefix_of(step.params.get_str("plugin"@)->0) ==> name_fault(
                NameKind::Plugin,
                step.params.get_str("plugin"@)->0,
            ) is None
            &&& step.step_type == "script"@ ==> step.params.get_str("language"@) is Some
                && languages.contains(step.params.get_str("language"@)->0)
            &&& carried_fault(action, step, languages) is None
        },
{
    reveal_strlit("invoke");
    reveal_strlit("script");
    assert("invoke"@[0] == 'i' && "script"@[0] == 's');
}

/// The steps of an action pass where each of them does.
pub proof fn law_every_step_is_checked(
    action: Seq<char>,
    steps: Seq<StepView>,
    i: int,
    languages: Seq<Seq<char>>,
)
    requires
        0 <= i <= steps.len(),
    ensures
        steps_fault(action, steps, i, languages) is None <==> forall|j: int|
            i <= j < steps.len() ==> step_fault(action, #[trigger] steps[j], languages) is None,
    decreases steps.len() - i,
{
    if i < steps.len() {
        law_every_step_is_checked(action, steps, i + 1, languages);
    }
}

proof fn lemma_types()
    ensures
        "for_each"@ != "ifs"@,
        "for_each"@ != "try"@,
        "for_each"@ != "parallel"@,
        "repeat"@ != "ifs"@,
        "repeat"@ != "try"@,
        "repeat"@ != "parallel"@,
        "ifs"@ != "try"@,
        "ifs"@ != "parallel"@,
        "try"@ != "parallel"@,
        "for_each"@ != "repeat"@,
{
    reveal_strlit("for_each");
    reveal_strlit("repeat");
    reveal_strlit("ifs");
    reveal_strlit("try");
    reveal_strlit("parallel");
    assert("for_each"@[0] == 'f' && "repeat"@[0] == 'r' && "ifs"@[0] == 'i' && "try"@[0] == 't'
        && "parallel"@[0] == 'p');
}

/// The steps that a loop or a `try` carries pass where each of its blocks is absent or a list of steps
/// that pass; a step of another type carries none.
pub proof fn law_a_block_is_a_list_of_steps(
    action: Seq<char>,
    step: StepView,
    languages: Seq<Seq<char>>,
)
    ensures
        step.step_type == "for_each"@ || step.step_type == "repeat"@ ==> (carried_fault(
            action,
            step,
            languages,
        ) is None <==> block_well(action, step.params, "steps"@, languages)),
        step.step_type == "try"@ ==> (carried_fault(action, step, languages) is None <==> {
            &&& block_well(action, step.params, "try"@, languages)
            &&& block_well(action, step.params, "catch"@, languages)
            &&& block_well(action, step.params, "finally"@, languages)
        }),
        step.step_type != "for_each"@ && step.step_type != "repeat"@ && step.step_type != "try"@
            && step.step_type != "ifs"@ && step.step_type != "parallel"@ ==> carried_fault(
            action,
            step,
            languages,
        ) is None,
{
    lemma_types();
    lemma_block(action, step.id, "steps"@, step.params, "steps"@, languages);
    lemma_block(action, step.id, "try"@, step.params, "try"@, languages);
    lemma_block(action, step.id, "catch"@, step.params, "catch"@, languages);
    lemma_block(action, step.id, "finally"@, step.params, "finally"@, languages);
}

/// A branch of an `ifs` step is well: it is an object, its test is a text or, in the last branch alone,
/// missing or null, and its steps are well.
pub open spec fn branch_well(
    action: Seq<char>,
    branches: Seq<JsonView>,
    i: int,
    languages: Seq<Seq<char>>,
) -> bool {
    &&& branches[i] is Object
    &&& match branches[i].get("test"@) {
        None => i == branches.len() - 1,
        Some(JsonView::Null) => i == branches.len() - 1,
        Some(JsonView::String(_)) => true,
        Some(_) => false,
    }
    &&& block_well(action, branches[i], "then"@, languages)
}

proof fn lemma_ifs(
    action: Seq<char>,
    id: Seq<char>,
    branches: Seq<JsonView>,
    i: int,
    languages: Seq<Seq<char>>,
)
    requires
        0 <= i <= branches.len(),
    ensures
        ifs_fault(action, id, branches, i, languages) is None <==> forall|j: int|
            #![trigger branches[j]]
            i <= j < branches.len() ==> branch_well(action, branches, j, languages),
    decreases branches.len() - i,
{
    if i < branches.len() {
        lemma_ifs(action, id, branches, i + 1, languages);
        lemma_block(
            action,
            id,
            then_path(i as nat),
            branches[i],
            "then"@,
            languages,
        );
        assert((branch_fault(action, id, branches, i) is None && block_well(
            action,
            branches[i],
            "then"@,
            languages,
        )) <==> branch_well(action, branches, i, languages));
    }
}

/// The steps that an `ifs` step carries pass where it has a list of branches and each of them is well.
pub proof fn law_only_the_last_branch_goes_without_a_test(
    action: Seq<char>,
    step: StepView,
    languages: Seq<Seq<char>>,
)
    requires
        step.step_type == "ifs"@,
    ensures
        carried_fault(action, step, languages) is None <==> {
            &&& step.params.get("ifs"@) is Some
            &&& step.params.get("ifs"@)->0 is Array
            &&& forall|j: int|
                #![trigger step.params.get("ifs"@)->0->Array_0[j]]
                0 <= j < step.params.get("ifs"@)->0->Array_0.len() ==> branch_well(
                    action,
                    step.params.get("ifs"@)->0->Array_0,
                    j,
                    languages,
                )
        },
{
    lemma_types();
    if let Some(JsonView::Array(branches)) = step.params.get("ifs"@) {
        lemma_ifs(action, step.id, branches, 0, languages);
    }
}

proof fn lemma_parallel(
    action: Seq<char>,
    id: Seq<char>,
    branches: Seq<JsonView>,
    i: int,
    languages: Seq<Seq<char>>,
)
    requires
        0 <= i <= branches.len(),
    ensures
        parallel_fault(action, id, branches, i, languages) is None <==> forall|j: int|
            i <= j < branches.len() ==> #[trigger] branches[j] is Array && list_well(
                action,
                branches[j]->Array_0,
                languages,
            ),
    decreases branches.len() - i,
{
    if i < branches.len() {
        lemma_parallel(action, id, branches, i + 1, languages);
        if let JsonView::Array(items) = branches[i] {
            lemma_list(
                action,
                id,
                "branches["@ + decimal(i as nat) + "]"@,
                items,
                languages,
            );
        }
    }
}

/// No text that a field has stands in two of several branches.
pub open spec fn apart(branches: Seq<JsonView>, field: Seq<char>) -> bool {
    forall|i: int, j: int, s: Seq<char>|
        #![trigger collected_array(branches[i], field).contains(s), collected_array(branches[j], field).contains(s)]
        0 <= i < branches.len() && 0 <= j < branches.len() && collected_array(
            branches[i],
            field,
        ).contains(s) && collected_array(branches[j], field).contains(s) ==> i == j
}

proof fn lemma_tag(branches: Seq<JsonView>, field: Seq<char>, n: nat, p: int)
    requires
        n <= branches.len(),
        0 <= p < branch_texts(branches, field, n).len(),
    ensures
        ({
            let t = branch_texts(branches, field, n)[p];
            t.1 < n && collected_array(branches[t.1 as int], field).contains(t.0)
        }),
    decreases n,
{
    if n > 0 {
        let before = branch_texts(branches, field, (n - 1) as nat);
        let own = collected_array(branches[n - 1], field);
        if p < before.len() {
            lemma_tag(branches, field, (n - 1) as nat, p);
        } else {
            assert(tagged(own, (n - 1) as nat)[p - before.len()].0 == own[p - before.len()]);
        }
    }
}

proof fn lemma_stands(branches: Seq<JsonView>, field: Seq<char>, n: nat, i: int, s: Seq<char>) -> (p:
    int)
    requires
        0 <= i < n <= branches.len(),
        collected_array(branches[i], field).contains(s),
    ensures
        0 <= p < branch_texts(branches, field, n).len(),
        branch_texts(branches, field, n)[p] == (s, i as nat),
    decreases n,
{
    let before = branch_texts(branches, field, (n - 1) as nat);
    let own = collected_array(branches[n - 1], field);
    let tags = tagged(own, (n - 1) as nat);
    if i == n - 1 {
        let k = choose|k: int| 0 <= k < own.len() && own[k] == s;
        assert(tags[k] == (s, (n - 1) as nat));
        assert((before + tags)[before.len() + k] == tags[k]);
        before.len() + k
    } else {
        let p = lemma_stands(branches, field, (n - 1) as nat, i, s);
        assert((before + tags)[p] == before[p]);
        p
    }
}

proof fn lemma_home(all: Seq<(Seq<char>, nat)>, s: Seq<char>, from: int, p: int) -> (q: int)
    requires
        0 <= from <= p < all.len(),
        all[p].0 == s,
    ensures
        from <= q <= p,
        all[q].0 == s,
        home(all, s, from) == all[q].1,
    decreases p - from,
{
    if all[from].0 == s {
        from
    } else {
        lemma_home(all, s, from + 1, p)
    }
}

proof fn lemma_collision(all: Seq<(Seq<char>, nat)>, from: int)
    requires
        0 <= from <= all.len(),
    ensures
        collision(all, from) is None <==> forall|p: int|
            from <= p < all.len() ==> home(all, (#[trigger] all[p]).0, 0) == all[p].1,
    decreases all.len() - from,
{
    if from < all.len() {
        lemma_collision(all, from + 1);
    }
}

proof fn lemma_apart(branches: Seq<JsonView>, field: Seq<char>)
    ensures
        collision(branch_texts(branches, field, branches.len()), 0) is None <==> apart(
            branches,
            field,
        ),
{
    let n = branches.len();
    let all = branch_texts(branches, field, n);
    lemma_collision(all, 0);
    if apart(branches, field) {
        assert forall|p: int| 0 <= p < all.len() implies home(all, (#[trigger] all[p]).0, 0)
            == all[p].1 by {
            let q = lemma_home(all, all[p].0, 0, p);
            lemma_tag(branches, field, n, p);
            lemma_tag(branches, field, n, q);
            assert(collected_array(branches[all[p].1 as int], field).contains(all[p].0));
            assert(collected_array(branches[all[q].1 as int], field).contains(all[p].0));
        }
    }
    if collision(all, 0) is None {
        assert forall|i: int, j: int, s: Seq<char>|
            #![trigger collected_array(branches[i], field).contains(s), collected_array(branches[j], field).contains(s)]
            0 <= i < branches.len() && 0 <= j < branches.len() && collected_array(
                branches[i],
                field,
            ).contains(s) && collected_array(branches[j], field).contains(s) implies i == j by {
            let a = lemma_stands(branches, field, n, i, s);
            let b = lemma_stands(branches, field, n, j, s);
            assert(home(all, all[a].0, 0) == all[a].1);
            assert(home(all, all[b].0, 0) == all[b].1);
        }
    }
}

/// The steps that a `parallel` step carries pass where its branches are absent or lists of steps that
/// pass, and no two branches have a step id or a variable in common, at whatever depth.
pub proof fn law_branches_have_nothing_in_common(
    action: Seq<char>,
    step: StepView,
    languages: Seq<Seq<char>>,
)
    requires
        step.step_type == "parallel"@,
    ensures
        carried_fault(action, step, languages) is None <==> match step.params.get("branches"@) {
            None => true,
            Some(JsonView::Array(branches)) => {
                &&& apart(branches, "id"@)
                &&& apart(branches, "storeToVariable"@)
                &&& forall|j: int|
                    0 <= j < branches.len() ==> #[trigger] branches[j] is Array && list_well(
                        action,
                        branches[j]->Array_0,
                        languages,
                    )
            },
            Some(_) => false,
        },
{
    lemma_types();
    if let Some(JsonView::Array(branches)) = step.params.get("branches"@) {
        lemma_apart(branches, "id"@);
        lemma_apart(branches, "storeToVariable"@);
        lemma_parallel(action, step.id, branches, 0, languages);
    }
}

proof fn lemma_in_list(items: Seq<JsonView>, field: Seq<char>, i: int, s: Seq<char>)
    requires
        0 <= i < items.len(),
        collected(items[i], field).contains(s),
    ensures
        collected_list(items, field).contains(s),
    decreases items.len(),
{
    let rest = items.drop_last();
    let a = collected_list(rest, field);
    let b = collected(items.last(), field);
    if i < rest.len() {
        assert(rest[i] == items[i]);
        lemma_in_list(rest, field, i, s);
        let k = choose|k: int| 0 <= k < a.len() && a[k] == s;
        assert((a + b)[k] == s);
    } else {
        let k = choose|k: int| 0 <= k < b.len() && b[k] == s;
        assert((a + b)[a.len() + k] == s);
    }
}

proof fn lemma_in_branches(branches: Seq<JsonView>, field: Seq<char>, i: int, s: Seq<char>)
    requires
        0 <= i < branches.len(),
        collected_under(branches[i], "then"@, field).contains(s),
    ensures
        collected_branches(branches, field).contains(s),
    decreases branches.len(),
{
    let rest = branches.drop_last();
    let a = collected_branches(rest, field);
    let b = collected_under(branches.last(), "then"@, field);
    if i < rest.len() {
        assert(rest[i] == branches[i]);
        lemma_in_branches(rest, field, i, s);
        let k = choose|k: int| 0 <= k < a.len() && a[k] == s;
        assert((a + b)[k] == s);
    } else {
        let k = choose|k: int| 0 <= k < b.len() && b[k] == s;
        assert((a + b)[a.len() + k] == s);
    }
}

proof fn lemma_in_arrays(branches: Seq<JsonView>, field: Seq<char>, i: int, s: Seq<char>)
    requires
        0 <= i < branches.len(),
        collected_array(branches[i], field).contains(s),
    ensures
        collected_arrays(branches, field).contains(s),
    decreases branches.len(),
{
    let rest = branches.drop_last();
    let a = collected_arrays(rest, field);
    let b = collected_array(branches.last(), field);
    if i < rest.len() {
        assert(rest[i] == branches[i]);
        lemma_in_arrays(rest, field, i, s);
        let k = choose|k: int| 0 <= k < a.len() && a[k] == s;
        assert((a + b)[k] == s);
    } else {
        let k = choose|k: int| 0 <= k < b.len() && b[k] == s;
        assert((a + b)[a.len() + k] == s);
    }
}

proof fn lemma_in_sum(a: Seq<Seq<char>>, b: Seq<Seq<char>>, s: Seq<char>)
    ensures
        (a + b).contains(s) <==> a.contains(s) || b.contains(s),
{
    if a.contains(s) {
        let k = choose|k: int| 0 <= k < a.len() && a[k] == s;
        assert((a + b)[k] == s);
    }
    if b.contains(s) {
        let k = choose|k: int| 0 <= k < b.len() && b[k] == s;
        assert((a + b)[a.len() + k] == s);
    }
    if (a + b).contains(s) {
        let k = choose|k: int| 0 <= k < (a + b).len() && (a + b)[k] == s;
        if k < a.len() {
            assert(a[k] == s);
        } else {
            assert(b[k - a.len()] == s);
        }
    }
}

/// What a field has in a step is collected with what it has in the steps that the step carries, where
/// its type carries steps: in the block of a loop, the branches of an `ifs` or a `parallel` step and the
/// blocks of a `try`. In a step of another type what looks like a step is data.
pub proof fn law_a_field_is_collected_at_every_depth(
    v: JsonView,
    field: Seq<char>,
    kind: Seq<char>,
    params: JsonView,
    key: Seq<char>,
    branches: Seq<JsonView>,
    b: int,
    items: Seq<JsonView>,
    i: int,
    s: Seq<char>,
)
    requires
        v.get_str("type"@) == Some(kind),
        v.get("params"@) == Some(params),
        params is Object,
        0 <= i < items.len(),
        collected(items[i], field).contains(s),
        0 <= b < branches.len(),
    ensures
        v.get_str(field) is Some ==> collected(v, field).contains(v.get_str(field)->0),
        (kind == "for_each"@ || kind == "repeat"@) && params.get("steps"@) == Some(
            JsonView::Array(items),
        ) ==> collected(v, field).contains(s),
        kind == "try"@ && (key == "try"@ || key == "catch"@ || key == "finally"@) && params.get(key)
            == Some(JsonView::Array(items)) ==> collected(v, field).contains(s),
        kind == "ifs"@ && params.get("ifs"@) == Some(JsonView::Array(branches))
            && branches[b].get("then"@) == Some(JsonView::Array(items)) ==> collected(
            v,
            field,
        ).contains(s),
        kind == "parallel"@ && params.get("branches"@) == Some(JsonView::Array(branches))
            && branches[b] == JsonView::Array(items) ==> collected(v, field).contains(s),
        kind != "for_each"@ && kind != "repeat"@ && kind != "try"@ && kind != "ifs"@ && kind
            != "parallel"@ ==> collected(v, field).len() <= 1,
{
    lemma_types();
    lemma_in_list(items, field, i, s);
    let own = match v.get_str(field) {
        Some(t) => seq![t],
        None => Seq::empty(),
    };
    if v.get_str(field) is Some {
        assert(own[0] == v.get_str(field)->0);
        let t = v.get_str(field)->0;
        assert(own.contains(t));
        lemma_in_sum(own, collected_under(params, "steps"@, field), t);
        let a = collected_under(params, "try"@, field);
        let c = collected_under(params, "catch"@, field);
        let f = collected_under(params, "finally"@, field);
        lemma_in_sum(own, a, t);
        lemma_in_sum(own + a, c, t);
        lemma_in_sum(own + a + c, f, t);
        if let Some(JsonView::Array(bs)) = params.get("ifs"@) {
            lemma_in_sum(own, collected_branches(bs, field), t);
        }
        if let Some(JsonView::Array(bs)) = params.get("branches"@) {
            lemma_in_sum(own, collected_arrays(bs, field), t);
        }
    }
    lemma_in_sum(own, collected_under(params, "steps"@, field), s);
    let a = collected_under(params, "try"@, field);
    let c = collected_under(params, "catch"@, field);
    let f = collected_under(params, "finally"@, field);
    lemma_in_sum(own, a, s);
    lemma_in_sum(own + a, c, s);
    lemma_in_sum(own + a + c, f, s);
    if branches[b].get("then"@) == Some(JsonView::Array(items)) {
        lemma_in_branches(branches, field, b, s);
        lemma_in_sum(own, collected_branches(branches, field), s);
    }
    if branches[b] == JsonView::Array(items) {
        lemma_in_arrays(branches, field, b, s);
        lemma_in_sum(own, collected_arrays(branches, field), s);
    }
}

/// A language can be used where a registered plugin runs it, or the manifest brings what does.
pub proof fn law_a_language_is_run_by_what_is_there_or_comes(
    languages: Seq<Seq<char>>,
    registry: RegistryView,
    local: Seq<StepTypeImplView>,
    language: Seq<char>,
    i: int,
)
    requires
        lists_languages(languages, registry, local),
    ensures
        registry.step_type_impls.contains_key(("script"@, Some(language))) ==> languages.contains(
            language,
        ),
        0 <= i < local.len() && local[i].step_type == "script"@ && local[i].matches == Some(language)
            ==> languages.contains(language),
        languages.contains(language) ==> registry.step_type_impls.contains_key(
            ("script"@, Some(language)),
        ) || exists|j: int|
            0 <= j < local.len() && (#[trigger] local[j]).step_type == "script"@ && local[j].matches
                == Some(language),
{
    if 0 <= i < local.len() && local[i].step_type == "script"@ && local[i].matches == Some(
        language,
    ) {
        assert(language_runs(registry, local, language));
    }
    if registry.step_type_impls.contains_key(("script"@, Some(language))) {
        assert(language_runs(registry, local, language));
    }
}

/// A value that spells a step is an object with an id and a type, both texts; its other fields are of
/// their kinds where they are there. The step has what the fields say, and nothing, null or false where
/// they are not.
pub proof fn law_a_step_reads_as_it_is_spelt(v: JsonView, items: Seq<JsonView>, i: int)
    ensures
        step_of(v) is Ok ==> {
            let step = step_of(v)->Ok_0;
            &&& v is Object
            &&& v.get("id"@) == Some(JsonView::String(step.id))
            &&& v.get("type"@) == Some(JsonView::String(step.step_type))
            &&& v.get("params"@) is Some ==> step.params == v.get("params"@)->0
            &&& v.get("params"@) is None ==> step.params == JsonView::Null
            &&& v.get("storeToVariable"@) is None ==> step.store_to_variable is None
            &&& step.store_to_variable is Some ==> v.get("storeToVariable"@) == Some(
                JsonView::String(step.store_to_variable->0),
            )
            &&& v.get_str("storeToVariable"@) is Some ==> step.store_to_variable == v.get_str(
                "storeToVariable"@,
            )
            &&& v.get("longRunning"@) is None ==> !step.long_running
            &&& step.long_running <==> v.get("longRunning"@) == Some(JsonView::Bool(true))
            &&& v.get("dependsOn"@) is None ==> step.depends_on.len() == 0
            &&& v.get("dependsOn"@) == Some(JsonView::Array(items)) ==> step.depends_on.len()
                == items.len() && (0 <= i < items.len() ==> items[i] == JsonView::String(
                step.depends_on[i],
            ))
        },
        v is Object && v.get_str("id"@) is Some && v.get_str("type"@) is Some && v.get("dependsOn"@)
            is None && v.get("storeToVariable"@) is None && v.get(
            "longRunning"@,
        ) is None ==> step_of(v) is Ok,
        v.get("id"@) is None ==> step_of(v) is Err,
        v.get("type"@) is None ==> step_of(v) is Err,
{
}

/// The value under a key of an object is that of the first entry with the key.
pub proof fn law_a_value_is_found_under_its_key(
    es: Seq<(Seq<char>, JsonView)>,
    i: int,
    key: Seq<char>,
)
    ensures
        0 <= i < es.len() && es[i].0 == key && (forall|j: int|
            0 <= j < i ==> (#[trigger] es[j]).0 != key) ==> JsonView::Object(es).get(key) == Some(
            es[i].1,
        ),
        (forall|j: int| 0 <= j < es.len() ==> (#[trigger] es[j]).0 != key) ==> JsonView::Object(
            es,
        ).get(key) is None,
        JsonView::Null.get(key) is None,
        JsonView::String(key).get(key) is None,
    decreases es.len(),
{
    if es.len() > 0 {
        let rest = es.drop_first();
        law_a_value_is_found_under_its_key(rest, i - 1, key);
        if forall|j: int| 0 <= j < es.len() ==> (#[trigger] es[j]).0 != key {
            assert forall|j: int| 0 <= j < rest.len() implies (#[trigger] rest[j]).0 != key by {
                assert(rest[j] == es[j + 1]);
            }
            assert(es[0].0 != key);
            assert(JsonView::Object(rest).get(key) is None);
        }
        if 0 < i < es.len() && es[i].0 == key && (forall|j: int|
            0 <= j < i ==> (#[trigger] es[j]).0 != key) {
            assert(rest[i - 1] == es[i]);
            assert forall|j: int| 0 <= j < i - 1 implies (#[trigger] rest[j]).0 != key by {
                assert(rest[j] == es[j + 1]);
            }
            assert(es[0].0 != key);
            assert(JsonView::Object(rest).get(key) == Some(es[i].1));
        }
    }
}

} // verus!
