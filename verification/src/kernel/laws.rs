//! What holds of registrations as a whole: they take nothing from other plugins, and unloading
//! takes back what loading put there.

use vstd::prelude::*;

use crate::classify::{classified_text, ClassifiedView};
use crate::commit::{
    with_actions, with_defs, with_modules, with_roles, with_subscription, with_subscriptions,
    BodiesView,
};
use crate::error::ErrorView;
use crate::identity::qualified;
use crate::kernel::{
    contents_fault, contents_outcome, end_outcome, error_of, last_fault, permission_text, plans_of,
    refused_with, registered, registration_outcome, with_identity, KernelView, PayloadView,
    RecordView, SurveyView,
};
use crate::kernel::boot::bare_kernel;
use crate::kernel::cycles::{has_cycle, is_cycle};
use crate::kernel::lifecycle::{
    document_outcome, is_registered, load_outcome, other_than, released, reload_outcome,
    rollback_outcome, tracked_users, unload_outcome, unregistered, untracked, with_record,
    ManifestHandle, Preparation, Rollback,
};
use crate::manifest::{
    ActionView, ManifestView, PlanView, StepTypeDefView, StepTypeImplKind, StepTypeImplView,
    SUPPORTED_FORMAT_VERSION,
};
use crate::manifest_checks::{aliases_fault, format_fault, import_names, imported_types, imports_fault};
use crate::permissions::{
    permissions_outcome, AppPermissionCategory, PermissionFault, PermissionView,
};
use crate::registration::{
    defs_fault, impls_fault, prepared_impls, source_fault, step_types_fault, Host,
};
use crate::registry::{
    alias_not_of, at, def_not_of, impl_not_of, is_not, is_not_from, is_not_of, kept, list_at,
    not_under, scrubbed, step_type_key_of, with_item, EdgeView, ImplEntryView, RegistryView,
};
use crate::spi::role_keys;
use crate::step_shapes::lists_languages;
use crate::wasm_modules::modules_outcome;
use crate::wasm_runtime::{import_name, StepBody};

verus! {

/// A registry in which nothing is of a plugin.
pub open spec fn free_of(r: RegistryView, id: Seq<char>) -> bool {
    &&& !r.manifests.contains_key(id)
    &&& !r.permissions.contains_key(id)
    &&& forall|k: (Seq<char>, Seq<char>)| #[trigger] r.actions.contains_key(k) ==> k.0 != id
    &&& forall|k: (Seq<char>, Seq<char>)| #[trigger] r.wasm_modules.contains_key(k) ==> k.0 != id
    &&& forall|k: Seq<char>| #[trigger] r.roles.contains_key(k) ==> !r.roles[k].contains(id)
    &&& forall|k: Seq<char>| #[trigger]
        r.subscriptions.contains_key(k) ==> no_action_of(r.subscriptions[k], id)
    &&& forall|k: Seq<char>| #[trigger] r.aliases.contains_key(k) ==> r.aliases[k].0 != id
    &&& forall|k: Seq<char>| #[trigger]
        r.step_type_defs.contains_key(k) ==> r.step_type_defs[k].0 != id
    &&& forall|k: (Seq<char>, Option<Seq<char>>)| #[trigger]
        r.step_type_impls.contains_key(k) ==> r.step_type_impls[k].plugin != id
    &&& forall|i: int| 0 <= i < r.invoke_edges.len() ==> (#[trigger] r.invoke_edges[i]).from.0 != id
}

/// No role and no event is kept without a plugin.
pub open spec fn no_empty_lists(r: RegistryView) -> bool {
    &&& forall|k: Seq<char>| #[trigger] r.roles.contains_key(k) ==> r.roles[k].len() > 0
    &&& forall|k: Seq<char>| #[trigger]
        r.subscriptions.contains_key(k) ==> r.subscriptions[k].len() > 0
}

/// No action in a list is of a plugin.
pub open spec fn no_action_of(v: Seq<(Seq<char>, Seq<char>)>, id: Seq<char>) -> bool {
    forall|i: int| 0 <= i < v.len() ==> (#[trigger] v[i]).0 != id
}

/// No step type in the import table is of a plugin, and every one that is there has an owner.
pub open spec fn imports_free_of(
    owners: Map<Seq<char>, Seq<char>>,
    imports: Map<Seq<char>, StepBody>,
    id: Seq<char>,
) -> bool {
    &&& forall|k: Seq<char>| #[trigger] owners.contains_key(k) ==> owners[k] != id
    &&& forall|k: Seq<char>| #[trigger] imports.contains_key(import_name(k)) ==> owners.contains_key(
        k,
    )
}

/// Every edge starts at a plugin.
pub open spec fn edges_from(edges: Seq<EdgeView>, id: Seq<char>) -> bool {
    forall|i: int| 0 <= i < edges.len() ==> (#[trigger] edges[i]).from.0 == id
}

proof fn lemma_with_actions(
    r: RegistryView,
    id: Seq<char>,
    actions: Seq<(Seq<char>, ActionView)>,
    plans: Seq<PlanView>,
)
    ensures
        with_actions(r, id, actions, plans) == (RegistryView {
            actions: with_actions(r, id, actions, plans).actions,
            ..r
        }),
        forall|k: (Seq<char>, Seq<char>)|
            k.0 != id ==> #[trigger] at(with_actions(r, id, actions, plans).actions, k) == at(
                r.actions,
                k,
            ),
    decreases actions.len(),
{
    if actions.len() > 0 {
        lemma_with_actions(r, id, actions.drop_last(), plans);
        let before = with_actions(r, id, actions.drop_last(), plans);
        assert forall|k: (Seq<char>, Seq<char>)| k.0 != id implies #[trigger] at(
            with_actions(r, id, actions, plans).actions,
            k,
        ) == at(r.actions, k) by {
            assert(at(before.actions, k) == at(r.actions, k));
        }
    }
}

proof fn lemma_with_modules(
    r: RegistryView,
    id: Seq<char>,
    modules: Seq<(Seq<char>, std::sync::Arc<wasmtime::Module>)>,
)
    ensures
        with_modules(r, id, modules) == (RegistryView {
            wasm_modules: with_modules(r, id, modules).wasm_modules,
            ..r
        }),
        forall|k: (Seq<char>, Seq<char>)|
            k.0 != id ==> #[trigger] at(with_modules(r, id, modules).wasm_modules, k) == at(
                r.wasm_modules,
                k,
            ),
    decreases modules.len(),
{
    if modules.len() > 0 {
        lemma_with_modules(r, id, modules.drop_last());
        let before = with_modules(r, id, modules.drop_last());
        assert forall|k: (Seq<char>, Seq<char>)| k.0 != id implies #[trigger] at(
            with_modules(r, id, modules).wasm_modules,
            k,
        ) == at(r.wasm_modules, k) by {
            assert(at(before.wasm_modules, k) == at(r.wasm_modules, k));
        }
    }
}

/// A map that has a plugin's entries over it, each under a key that was free.
pub open spec fn adds_to<A, B>(
    before: Map<A, B>,
    after: Map<A, B>,
    of_plugin: spec_fn(B) -> bool,
) -> bool {
    forall|k: A|
        #![trigger after.contains_key(k)]
        #![trigger before.contains_key(k)]
        {
            ||| after.contains_key(k) == before.contains_key(k) && (before.contains_key(k)
                ==> after[k] == before[k])
            ||| !before.contains_key(k) && after.contains_key(k) && of_plugin(after[k])
        }
}

proof fn lemma_with_defs(r: RegistryView, id: Seq<char>, defs: Seq<StepTypeDefView>)
    requires
        forall|j: int|
            0 <= j < defs.len() ==> !r.step_type_defs.contains_key(
                step_type_key_of(id, (#[trigger] defs[j]).name),
            ),
    ensures
        with_defs(r, id, defs) == (RegistryView {
            step_type_defs: with_defs(r, id, defs).step_type_defs,
            ..r
        }),
        adds_to(
            r.step_type_defs,
            with_defs(r, id, defs).step_type_defs,
            |v: (Seq<char>, StepTypeDefView)| v.0 == id,
        ),
    decreases defs.len(),
{
    if defs.len() > 0 {
        let rest = defs.drop_last();
        assert forall|j: int| 0 <= j < rest.len() implies !r.step_type_defs.contains_key(
            step_type_key_of(id, (#[trigger] rest[j]).name),
        ) by {
            assert(rest[j] == defs[j]);
        }
        lemma_with_defs(r, id, rest);
        assert(!r.step_type_defs.contains_key(
            step_type_key_of(id, defs[defs.len() - 1].name),
        ));
    }
}

proof fn lemma_defs_free(
    id: Seq<char>,
    defs: Seq<StepTypeDefView>,
    registry: RegistryView,
    i: int,
    j: int,
)
    requires
        defs_fault(id, defs, registry, i) is None,
        0 <= i <= j < defs.len(),
    ensures
        !registry.step_type_defs.contains_key(step_type_key_of(id, defs[j].name)),
    decreases defs.len() - i,
{
    if i < j {
        lemma_defs_free(id, defs, registry, i + 1, j);
    }
}

proof fn lemma_impls_free(
    id: Seq<char>,
    m: ManifestView,
    registry: RegistryView,
    grants: Seq<PermissionView>,
    host: Host,
    i: int,
    j: int,
)
    requires
        impls_fault(id, m, registry, grants, host, i) is None,
        0 <= i <= j < m.step_type_impls.len(),
        m.step_type_impls[j].kind == StepTypeImplKind::Wasm,
    ensures
        !registry.step_type_impls.contains_key(
            (step_type_key_of(id, m.step_type_impls[j].step_type), m.step_type_impls[j].matches),
        ),
    decreases m.step_type_impls.len() - i,
{
    if i < j {
        lemma_impls_free(id, m, registry, grants, host, i + 1, j);
    } else {
        assert(source_fault(id, m, m.step_type_impls[j], registry, grants, host) is None);
    }
}

proof fn lemma_aliases_free(
    id: Seq<char>,
    local: Seq<char>,
    m: ManifestView,
    registry: RegistryView,
    kernel_owned: bool,
    i: int,
    j: int,
)
    requires
        aliases_fault(id, local, m, registry, kernel_owned, i) is None,
        0 <= i <= j < m.step_types.len(),
    ensures
        !registry.aliases.contains_key(step_type_key_of(id, m.step_types[j].0)),
    decreases m.step_types.len() - i,
{
    if i < j {
        lemma_aliases_free(id, local, m, registry, kernel_owned, i + 1, j);
    }
}

proof fn lemma_imports_free(
    id: Seq<char>,
    names: Seq<Seq<char>>,
    owners: Map<Seq<char>, Seq<char>>,
    i: int,
    j: int,
)
    requires
        imports_fault(id, names, owners, i) is None,
        forall|k: Seq<char>| #[trigger] owners.contains_key(k) ==> owners[k] != id,
        0 <= i <= j < names.len(),
    ensures
        !owners.contains_key(step_type_key_of(id, names[j])),
    decreases names.len() - i,
{
    if i < j {
        lemma_imports_free(id, names, owners, i + 1, j);
    }
}

proof fn lemma_import_name_tells(a: Seq<char>, b: Seq<char>)
    ensures
        import_name(a) == import_name(b) ==> a == b,
{
    let n = "step_"@.len() as int;
    if import_name(a) == import_name(b) {
        assert(import_name(a).skip(n) =~= a);
        assert(import_name(b).skip(n) =~= b);
    }
}

/// One of the step types is registered under a key.
pub open spec fn names_key(id: Seq<char>, names: Seq<Seq<char>>, key: Seq<char>) -> bool {
    exists|j: int| 0 <= j < names.len() && key == step_type_key_of(id, #[trigger] names[j])
}

/// One of the step types has a name in the import table.
pub open spec fn names_import(id: Seq<char>, names: Seq<Seq<char>>, n: Seq<char>) -> bool {
    exists|j: int|
        0 <= j < names.len() && n == import_name(step_type_key_of(id, #[trigger] names[j]))
}

/// The step types are in the import table and of the plugin; the others are as they were.
pub open spec fn puts(before: BodiesView, after: BodiesView, id: Seq<char>, names: Seq<Seq<char>>) -> bool {
    &&& forall|k: Seq<char>| #[trigger]
        at(after.owners, k) == if names_key(id, names, k) {
            Some(id)
        } else {
            at(before.owners, k)
        }
    &&& forall|n: Seq<char>|
        !names_import(id, names, n) ==> #[trigger] at(after.imports, n) == at(before.imports, n)
}

proof fn lemma_names_push(id: Seq<char>, names: Seq<Seq<char>>, name: Seq<char>)
    ensures
        forall|k: Seq<char>| #[trigger]
            names_key(id, names.push(name), k) <==> names_key(id, names, k) || k
                == step_type_key_of(id, name),
        forall|n: Seq<char>| #[trigger]
            names_import(id, names.push(name), n) <==> names_import(id, names, n) || n
                == import_name(step_type_key_of(id, name)),
{
    let all = names.push(name);
    assert forall|k: Seq<char>| #[trigger] names_key(id, all, k) <==> names_key(id, names, k) || k
        == step_type_key_of(id, name) by {
        if names_key(id, all, k) {
            let j = choose|j: int| 0 <= j < all.len() && k == step_type_key_of(id, #[trigger] all[j]);
            if j < names.len() {
                assert(names[j] == all[j]);
            }
        }
        if names_key(id, names, k) {
            let j = choose|j: int|
                0 <= j < names.len() && k == step_type_key_of(id, #[trigger] names[j]);
            assert(all[j] == names[j]);
        }
        if k == step_type_key_of(id, name) {
            assert(all[names.len() as int] == name);
        }
    }
    assert forall|n: Seq<char>| #[trigger]
        names_import(id, all, n) <==> names_import(id, names, n) || n == import_name(
            step_type_key_of(id, name),
        ) by {
        if names_import(id, all, n) {
            let j = choose|j: int|
                0 <= j < all.len() && n == import_name(step_type_key_of(id, #[trigger] all[j]));
            if j < names.len() {
                assert(names[j] == all[j]);
            }
        }
        if names_import(id, names, n) {
            let j = choose|j: int|
                0 <= j < names.len() && n == import_name(step_type_key_of(id, #[trigger] names[j]));
            assert(all[j] == names[j]);
        }
        if n == import_name(step_type_key_of(id, name)) {
            assert(all[names.len() as int] == name);
        }
    }
}

proof fn lemma_with_impls(
    b: BodiesView,
    id: Seq<char>,
    impls: Seq<StepTypeImplView>,
    host: Host,
)
    requires
        forall|j: int|
            0 <= j < impls.len() && (#[trigger] impls[j]).kind == StepTypeImplKind::Wasm
                ==> !b.registry.step_type_impls.contains_key(
                (step_type_key_of(id, impls[j].step_type), impls[j].matches),
            ),
    ensures
        ({
            let after = b.with_impls(id, prepared_impls(impls, host));
            &&& after.registry == (RegistryView {
                step_type_impls: after.registry.step_type_impls,
                ..b.registry
            })
            &&& adds_to(
                b.registry.step_type_impls,
                after.registry.step_type_impls,
                |v: ImplEntryView| v.plugin == id,
            )
            &&& puts(b, after, id, imported_types(impls))
        }),
    decreases impls.len(),
{
    let prepared = prepared_impls(impls, host);
    if impls.len() == 0 {
        assert(b.with_impls(id, prepared) == b);
    } else {
        let rest = impls.drop_last();
        assert forall|j: int|
            0 <= j < rest.len() && (#[trigger] rest[j]).kind
                == StepTypeImplKind::Wasm implies !b.registry.step_type_impls.contains_key(
            (step_type_key_of(id, rest[j].step_type), rest[j].matches),
        ) by {
            assert(rest[j] == impls[j]);
        }
        lemma_with_impls(b, id, rest, host);
        assert(prepared.drop_last() =~= prepared_impls(rest, host));
        let d = impls.last();
        assert(impls[impls.len() - 1] == d);
        let before = b.with_impls(id, prepared_impls(rest, host));
        let after = b.with_impls(id, prepared);
        assert(after == before.with_impl(id, prepared.last()));
        let key = step_type_key_of(id, d.step_type);
        if d.kind == StepTypeImplKind::Wasm {
            assert(prepared.last() is Wasm);
            assert forall|k: Seq<char>| #[trigger]
                at(after.owners, k) == if names_key(id, imported_types(impls), k) {
                    Some(id)
                } else {
                    at(b.owners, k)
                } by {
                assert(at(before.owners, k) == at(after.owners, k));
            }
            assert forall|n: Seq<char>|
                !names_import(id, imported_types(impls), n) implies #[trigger] at(
                after.imports,
                n,
            ) == at(b.imports, n) by {
                assert(at(before.imports, n) == at(after.imports, n));
            }
        } else {
            assert(!(prepared.last() is Wasm));
            lemma_names_push(id, imported_types(rest), d.step_type);
            lemma_import_put(b, before, after, id, imported_types(rest), d.step_type);
        }
    }
}

proof fn lemma_import_put(
    b: BodiesView,
    before: BodiesView,
    after: BodiesView,
    id: Seq<char>,
    names: Seq<Seq<char>>,
    name: Seq<char>,
)
    requires
        puts(b, before, id, names),
        after.owners == before.owners.insert(step_type_key_of(id, name), id),
        exists|body: StepBody|
            after.imports == before.imports.insert(
                import_name(step_type_key_of(id, name)),
                body,
            ),
    ensures
        puts(b, after, id, names.push(name)),
{
    lemma_names_push(id, names, name);
    let all = names.push(name);
    let key = step_type_key_of(id, name);
    assert forall|k: Seq<char>| #[trigger]
        at(after.owners, k) == if names_key(id, all, k) {
            Some(id)
        } else {
            at(b.owners, k)
        } by {
        if k != key {
            assert(at(before.owners, k) == at(after.owners, k));
        }
    }
    assert forall|n: Seq<char>| !names_import(id, all, n) implies #[trigger] at(after.imports, n)
        == at(b.imports, n) by {
        assert(n != import_name(key));
        assert(at(before.imports, n) == at(after.imports, n));
    }
}

proof fn lemma_with_aliases(
    b: BodiesView,
    id: Seq<char>,
    aliases: Seq<(Seq<char>, Seq<char>)>,
)
    requires
        forall|j: int|
            0 <= j < aliases.len() ==> !b.registry.aliases.contains_key(
                step_type_key_of(id, (#[trigger] aliases[j]).0),
            ),
    ensures
        ({
            let after = b.with_aliases(id, aliases);
            &&& after.registry == (RegistryView { aliases: after.registry.aliases, ..b.registry })
            &&& adds_to(
                b.registry.aliases,
                after.registry.aliases,
                |v: (Seq<char>, Seq<char>)| v.0 == id,
            )
            &&& puts(
                b,
                after,
                id,
                aliases.map_values(|e: (Seq<char>, Seq<char>)| e.0),
            )
        }),
    decreases aliases.len(),
{
    let names = aliases.map_values(|e: (Seq<char>, Seq<char>)| e.0);
    if aliases.len() > 0 {
        let rest = aliases.drop_last();
        let last = aliases.last();
        assert forall|j: int| 0 <= j < rest.len() implies !b.registry.aliases.contains_key(
            step_type_key_of(id, (#[trigger] rest[j]).0),
        ) by {
            assert(rest[j] == aliases[j]);
        }
        lemma_with_aliases(b, id, rest);
        assert(aliases[aliases.len() - 1] == last);
        let before = b.with_aliases(id, rest);
        let after = b.with_aliases(id, aliases);
        let rest_names = rest.map_values(|e: (Seq<char>, Seq<char>)| e.0);
        assert(names =~= rest_names.push(last.0));
        let key = step_type_key_of(id, last.0);
        assert(after.imports == before.imports.insert(import_name(key), StepBody::AliasDispatch));
        lemma_import_put(b, before, after, id, rest_names, last.0);
    }
}

proof fn lemma_released(
    owners: Map<Seq<char>, Seq<char>>,
    imports: Map<Seq<char>, StepBody>,
    id: Seq<char>,
    names: Seq<Seq<char>>,
)
    requires
        forall|j: int|
            0 <= j < names.len() ==> at(owners, step_type_key_of(id, #[trigger] names[j])) == Some(
                id,
            ),
    ensures
        forall|k: Seq<char>| #[trigger]
            at(released(owners, imports, id, names).0, k) == if names_key(id, names, k) {
                None
            } else {
                at(owners, k)
            },
        forall|n: Seq<char>| #[trigger]
            at(released(owners, imports, id, names).1, n) == if names_import(id, names, n) {
                None
            } else {
                at(imports, n)
            },
    decreases names.len(),
{
    if names.len() > 0 {
        let rest = names.drop_last();
        let last = names.last();
        assert(rest.push(last) =~= names);
        lemma_names_push(id, rest, last);
        assert forall|j: int| 0 <= j < rest.len() implies at(
            owners,
            step_type_key_of(id, #[trigger] rest[j]),
        ) == Some(id) by {
            assert(rest[j] == names[j]);
        }
        lemma_released(owners, imports, id, rest);
        let (o, i) = released(owners, imports, id, rest);
        let key = step_type_key_of(id, last);
        assert(names[names.len() - 1] == last);
        assert(at(owners, key) == Some(id));
        assert(at(o, key) == if names_key(id, rest, key) {
            None
        } else {
            at(owners, key)
        });
        let (o2, i2) = released(owners, imports, id, names);
        if names_key(id, rest, key) {
            assert(!o.contains_key(key));
            assert((o2, i2) == (o, i));
            assert(names_import(id, rest, import_name(key))) by {
                let j = choose|j: int|
                    0 <= j < rest.len() && key == step_type_key_of(id, #[trigger] rest[j]);
                assert(import_name(key) == import_name(step_type_key_of(id, rest[j])));
            }
        } else {
            assert(o.contains_key(key) && o[key] == id);
            assert((o2, i2) == (o.remove(key), i.remove(import_name(key))));
        }
        assert forall|k: Seq<char>| #[trigger]
            at(o2, k) == if names_key(id, names, k) {
                None
            } else {
                at(owners, k)
            } by {
            assert(at(o, k) == if names_key(id, rest, k) {
                None
            } else {
                at(owners, k)
            });
        }
        assert forall|n: Seq<char>| #[trigger]
            at(i2, n) == if names_import(id, names, n) {
                None
            } else {
                at(imports, n)
            } by {
            assert(at(i, n) == if names_import(id, rest, n) {
                None
            } else {
                at(imports, n)
            });
        }
    }
}

proof fn lemma_filter_other<A>(v: Seq<A>, x: A, p: spec_fn(A) -> bool)
    requires
        !p(x),
    ensures
        v.push(x).filter(p) == v.filter(p),
{
    reveal(Seq::filter);
    assert(v.push(x).drop_last() =~= v);
}

proof fn lemma_filter_whole<A>(v: Seq<A>, p: spec_fn(A) -> bool)
    requires
        forall|i: int| 0 <= i < v.len() ==> p(#[trigger] v[i]),
    ensures
        v.filter(p) == v,
    decreases v.len(),
{
    reveal(Seq::filter);
    if v.len() > 0 {
        let rest = v.drop_last();
        assert forall|i: int| 0 <= i < rest.len() implies p(#[trigger] rest[i]) by {
            assert(rest[i] == v[i]);
        }
        lemma_filter_whole(rest, p);
        assert(p(v[v.len() - 1]));
        assert(rest.push(v.last()) =~= v);
    } else {
        assert(v.filter(p) =~= v);
    }
}

proof fn lemma_filter_none<A>(v: Seq<A>, p: spec_fn(A) -> bool)
    requires
        forall|i: int| 0 <= i < v.len() ==> !p(#[trigger] v[i]),
    ensures
        v.filter(p).len() == 0,
    decreases v.len(),
{
    reveal(Seq::filter);
    if v.len() > 0 {
        let rest = v.drop_last();
        assert forall|i: int| 0 <= i < rest.len() implies !p(#[trigger] rest[i]) by {
            assert(rest[i] == v[i]);
        }
        lemma_filter_none(rest, p);
        assert(!p(v[v.len() - 1]));
    }
}

proof fn lemma_with_roles(r: RegistryView, id: Seq<char>, keys: Seq<Seq<char>>)
    ensures
        with_roles(r, id, keys) == (RegistryView { roles: with_roles(r, id, keys).roles, ..r }),
        no_empty_lists(r) ==> no_empty_lists(with_roles(r, id, keys)),
        forall|k: Seq<char>| #[trigger]
            list_at(with_roles(r, id, keys).roles, k).filter(is_not(id)) == list_at(
                r.roles,
                k,
            ).filter(is_not(id)),
    decreases keys.len(),
{
    if keys.len() > 0 {
        lemma_with_roles(r, id, keys.drop_last());
        let before = with_roles(r, id, keys.drop_last());
        let after = with_roles(r, id, keys);
        lemma_filter_other(list_at(before.roles, keys.last()), id, is_not(id));
        assert forall|k: Seq<char>| #[trigger]
            list_at(after.roles, k).filter(is_not(id)) == list_at(r.roles, k).filter(is_not(id)) by {
            assert(list_at(before.roles, k).filter(is_not(id)) == list_at(r.roles, k).filter(
                is_not(id),
            ));
            if k == keys.last() {
                assert(list_at(after.roles, k) == list_at(before.roles, k).push(id));
            } else {
                assert(list_at(after.roles, k) == list_at(before.roles, k));
            }
        }
    }
}

proof fn lemma_with_subscription(
    r: RegistryView,
    id: Seq<char>,
    action: Seq<char>,
    events: Seq<Seq<char>>,
)
    ensures
        with_subscription(r, id, action, events) == (RegistryView {
            subscriptions: with_subscription(r, id, action, events).subscriptions,
            ..r
        }),
        no_empty_lists(r) ==> no_empty_lists(with_subscription(r, id, action, events)),
        forall|k: Seq<char>| #[trigger]
            list_at(with_subscription(r, id, action, events).subscriptions, k).filter(
                is_not_of(id),
            ) == list_at(r.subscriptions, k).filter(is_not_of(id)),
    decreases events.len(),
{
    if events.len() > 0 {
        lemma_with_subscription(r, id, action, events.drop_last());
        let before = with_subscription(r, id, action, events.drop_last());
        let after = with_subscription(r, id, action, events);
        lemma_filter_other(
            list_at(before.subscriptions, events.last()),
            (id, action),
            is_not_of(id),
        );
        assert forall|k: Seq<char>| #[trigger]
            list_at(after.subscriptions, k).filter(is_not_of(id)) == list_at(
                r.subscriptions,
                k,
            ).filter(is_not_of(id)) by {
            assert(list_at(before.subscriptions, k).filter(is_not_of(id)) == list_at(
                r.subscriptions,
                k,
            ).filter(is_not_of(id)));
            if k == events.last() {
                assert(list_at(after.subscriptions, k) == with_item(
                    list_at(before.subscriptions, k),
                    (id, action),
                ));
            } else {
                assert(list_at(after.subscriptions, k) == list_at(before.subscriptions, k));
            }
        }
    }
}

proof fn lemma_with_subscriptions(
    r: RegistryView,
    id: Seq<char>,
    actions: Seq<(Seq<char>, ActionView)>,
)
    ensures
        with_subscriptions(r, id, actions) == (RegistryView {
            subscriptions: with_subscriptions(r, id, actions).subscriptions,
            ..r
        }),
        no_empty_lists(r) ==> no_empty_lists(with_subscriptions(r, id, actions)),
        forall|k: Seq<char>| #[trigger]
            list_at(with_subscriptions(r, id, actions).subscriptions, k).filter(is_not_of(id))
                == list_at(r.subscriptions, k).filter(is_not_of(id)),
    decreases actions.len(),
{
    if actions.len() > 0 {
        lemma_with_subscriptions(r, id, actions.drop_last());
        let before = with_subscriptions(r, id, actions.drop_last());
        lemma_with_subscription(before, id, actions.last().0, actions.last().1.subscribes_to);
        let after = with_subscriptions(r, id, actions);
        assert forall|k: Seq<char>| #[trigger]
            list_at(after.subscriptions, k).filter(is_not_of(id)) == list_at(
                r.subscriptions,
                k,
            ).filter(is_not_of(id)) by {
            assert(list_at(before.subscriptions, k).filter(is_not_of(id)) == list_at(
                r.subscriptions,
                k,
            ).filter(is_not_of(id)));
        }
    }
}

proof fn lemma_scrubbed_back<B>(
    before: Map<Seq<char>, Seq<B>>,
    after: Map<Seq<char>, Seq<B>>,
    p: spec_fn(B) -> bool,
)
    requires
        forall|k: Seq<char>| #[trigger]
            list_at(after, k).filter(p) == list_at(before, k).filter(p),
        forall|k: Seq<char>| #[trigger]
            before.contains_key(k) ==> before[k].len() > 0 && before[k].filter(p) == before[k],
    ensures
        scrubbed(after, p) == before,
{
    let back = scrubbed(after, p);
    assert forall|k: Seq<char>| #[trigger] back.contains_key(k) == before.contains_key(k) by {
        assert(list_at(after, k).filter(p) == list_at(before, k).filter(p));
        if before.contains_key(k) {
            assert(list_at(after, k).filter(p).len() > 0);
            if !after.contains_key(k) {
                lemma_filter_none(list_at(after, k), p);
            }
        } else {
            lemma_filter_none(list_at(before, k), p);
        }
    }
    assert forall|k: Seq<char>| before.contains_key(k) implies #[trigger] back[k] == before[k] by {
        assert(back.contains_key(k) == before.contains_key(k));
        assert(list_at(after, k).filter(p) == list_at(before, k).filter(p));
    }
    assert(back =~= before);
}

proof fn lemma_kept_back<A, B>(
    before: Map<A, B>,
    after: Map<A, B>,
    of_plugin: spec_fn(B) -> bool,
    p: spec_fn(A, B) -> bool,
)
    requires
        adds_to(before, after, of_plugin),
        forall|k: A| #[trigger] before.contains_key(k) ==> p(k, before[k]),
        forall|k: A, v: B| of_plugin(v) ==> !#[trigger] p(k, v),
    ensures
        kept(after, p) == before,
{
    let back = kept(after, p);
    assert forall|k: A| #[trigger] back.contains_key(k) == before.contains_key(k) by {
        assert(after.contains_key(k) || !after.contains_key(k));
    }
    assert forall|k: A| before.contains_key(k) implies #[trigger] back[k] == before[k] by {
        assert(back.contains_key(k) == before.contains_key(k));
    }
    assert(back =~= before);
}

proof fn lemma_kept_under<B>(
    before: Map<(Seq<char>, Seq<char>), B>,
    after: Map<(Seq<char>, Seq<char>), B>,
    id: Seq<char>,
)
    requires
        forall|k: (Seq<char>, Seq<char>)| k.0 != id ==> #[trigger] at(after, k) == at(before, k),
        forall|k: (Seq<char>, Seq<char>)| #[trigger] before.contains_key(k) ==> k.0 != id,
    ensures
        kept(after, not_under(id)) == before,
{
    let back = kept(after, not_under::<B>(id));
    assert forall|k: (Seq<char>, Seq<char>)| #[trigger]
        back.contains_key(k) == before.contains_key(k) by {
        if k.0 != id {
            assert(at(after, k) == at(before, k));
        }
    }
    assert forall|k: (Seq<char>, Seq<char>)| before.contains_key(k) implies #[trigger] back[k]
        == before[k] by {
        assert(at(after, k) == at(before, k));
    }
    assert(back =~= before);
}

/// What is asked of a manifest before it is registered that bears on other plugins: nothing it puts
/// into a shared place is taken.
pub open spec fn takes_nothing(
    k: KernelView,
    local: Seq<char>,
    q: ManifestView,
    kernel_owned: bool,
    grants: Seq<PermissionView>,
    host: Host,
) -> bool {
    &&& aliases_fault(q.name, local, q, k.registry, kernel_owned, 0) is None
    &&& imports_fault(q.name, import_names(q), k.owners, 0) is None
    &&& step_types_fault(q, k.registry, grants, host) is None
}

/// Unregistering a plugin takes back what registering it put there, and nothing else: the registry
/// and the import table are as they were before the plugin came.
pub proof fn law_unregistering_undoes_registering(
    k: KernelView,
    namespace: Seq<char>,
    local: Seq<char>,
    q: ManifestView,
    kernel_owned: bool,
    plans: Seq<PlanView>,
    modules: Seq<(Seq<char>, std::sync::Arc<wasmtime::Module>)>,
    edges: Seq<EdgeView>,
    grants: Seq<PermissionView>,
    host: Host,
)
    requires
        free_of(k.registry, q.name),
        no_empty_lists(k.registry),
        imports_free_of(k.owners, k.imports, q.name),
        takes_nothing(k, local, q, kernel_owned, grants, host),
        edges_from(edges, q.name),
    ensures
        ({
            let after = registered(k, namespace, q, plans, modules, edges, grants, host);
            &&& after.registry.without(q.name) == k.registry
            &&& released(after.owners, after.imports, q.name, import_names(q)) == (
                k.owners,
                k.imports,
            )
        }),
{
    lemma_registered(k, namespace, local, q, kernel_owned, plans, modules, edges, grants, host);
    let after = registered(k, namespace, q, plans, modules, edges, grants, host);
    lemma_registry_back(k.registry, after.registry, q.name, q, grants, edges);
    lemma_imports_back(k, after, q.name, q);
}

/// What registering a plugin does to the registry: entries of the plugin come under keys that were
/// free, and lists get items of the plugin; nothing else changes.
pub open spec fn registers(
    r0: RegistryView,
    r5: RegistryView,
    id: Seq<char>,
    q: ManifestView,
    grants: Seq<PermissionView>,
    edges: Seq<EdgeView>,
) -> bool {
    &&& forall|a: (Seq<char>, Seq<char>)|
        a.0 != id ==> #[trigger] at(r5.actions, a) == at(r0.actions, a)
    &&& forall|a: (Seq<char>, Seq<char>)|
        a.0 != id ==> #[trigger] at(r5.wasm_modules, a) == at(r0.wasm_modules, a)
    &&& adds_to(
        r0.step_type_defs,
        r5.step_type_defs,
        |v: (Seq<char>, StepTypeDefView)| v.0 == id,
    )
    &&& adds_to(r0.step_type_impls, r5.step_type_impls, |v: ImplEntryView| v.plugin == id)
    &&& adds_to(r0.aliases, r5.aliases, |v: (Seq<char>, Seq<char>)| v.0 == id)
    &&& forall|a: Seq<char>| #[trigger]
        list_at(r5.roles, a).filter(is_not(id)) == list_at(r0.roles, a).filter(is_not(id))
    &&& forall|a: Seq<char>| #[trigger]
        list_at(r5.subscriptions, a).filter(is_not_of(id)) == list_at(r0.subscriptions, a).filter(
            is_not_of(id),
        )
    &&& no_empty_lists(r0) ==> no_empty_lists(r5)
    &&& r5.invoke_edges == r0.invoke_edges + edges
    &&& r5.manifests == r0.manifests.insert(id, q)
    &&& r5.permissions == r0.permissions.insert(id, grants)
}

/// What registering a plugin does to the import table: its step types are there and its own; the
/// others are as they were.
pub open spec fn imports_added(k: KernelView, after: KernelView, id: Seq<char>, names: Seq<Seq<char>>) -> bool {
    &&& forall|a: Seq<char>| #[trigger]
        at(after.owners, a) == if names_key(id, names, a) {
            Some(id)
        } else {
            at(k.owners, a)
        }
    &&& forall|n: Seq<char>|
        !names_import(id, names, n) ==> #[trigger] at(after.imports, n) == at(k.imports, n)
}

#[verifier::rlimit(40)]
proof fn lemma_registered(
    k: KernelView,
    namespace: Seq<char>,
    local: Seq<char>,
    q: ManifestView,
    kernel_owned: bool,
    plans: Seq<PlanView>,
    modules: Seq<(Seq<char>, std::sync::Arc<wasmtime::Module>)>,
    edges: Seq<EdgeView>,
    grants: Seq<PermissionView>,
    host: Host,
)
    requires
        takes_nothing(k, local, q, kernel_owned, grants, host),
    ensures
        ({
            let after = registered(k, namespace, q, plans, modules, edges, grants, host);
            &&& registers(k.registry, after.registry, q.name, q, grants, edges)
            &&& imports_added(k, after, q.name, import_names(q))
            &&& after == (KernelView {
                registry: after.registry,
                owners: after.owners,
                imports: after.imports,
                ..k
            })
        }),
{
    let id = q.name;
    let r0 = k.registry;
    let r1a = with_actions(r0, id, q.actions, plans);
    lemma_with_actions(r0, id, q.actions, plans);
    let r1b = with_modules(r1a, id, modules);
    lemma_with_modules(r1a, id, modules);
    assert forall|j: int|
        0 <= j < q.step_type_defs.len() implies !r1b.step_type_defs.contains_key(
        step_type_key_of(id, (#[trigger] q.step_type_defs[j]).name),
    ) by {
        lemma_defs_free(id, q.step_type_defs, r0, 0, j);
    }
    let r1 = with_defs(r1b, id, q.step_type_defs);
    lemma_with_defs(r1b, id, q.step_type_defs);
    let b0 = BodiesView { registry: r1, owners: k.owners, imports: k.imports };
    assert forall|j: int|
        0 <= j < q.step_type_impls.len() && (#[trigger] q.step_type_impls[j]).kind
            == StepTypeImplKind::Wasm implies !b0.registry.step_type_impls.contains_key(
        (step_type_key_of(id, q.step_type_impls[j].step_type), q.step_type_impls[j].matches),
    ) by {
        lemma_impls_free(id, q, r0, grants, host, 0, j);
    }
    let b1 = b0.with_impls(id, prepared_impls(q.step_type_impls, host));
    lemma_with_impls(b0, id, q.step_type_impls, host);
    let r2 = RegistryView {
        invoke_edges: b1.registry.invoke_edges + edges,
        manifests: b1.registry.manifests.insert(id, q),
        ..b1.registry
    };
    let keys = role_keys(k.spi, namespace, q.roles);
    let r3 = with_roles(r2, id, keys);
    lemma_with_roles(r2, id, keys);
    let r4 = RegistryView { permissions: r3.permissions.insert(id, grants), ..r3 };
    let b1b = BodiesView { registry: r4, ..b1 };
    assert forall|j: int| 0 <= j < q.step_types.len() implies !b1b.registry.aliases.contains_key(
        step_type_key_of(id, (#[trigger] q.step_types[j]).0),
    ) by {
        lemma_aliases_free(id, local, q, r0, kernel_owned, 0, j);
    }
    let b2 = b1b.with_aliases(id, q.step_types);
    lemma_with_aliases(b1b, id, q.step_types);
    let r5 = with_subscriptions(b2.registry, id, q.actions);
    lemma_with_subscriptions(b2.registry, id, q.actions);
    let after = registered(k, namespace, q, plans, modules, edges, grants, host);
    assert(after.registry == r5);
    lemma_imports_added(k, b0, b1, b1b, b2, id, q);
}

proof fn lemma_registry_back(
    r0: RegistryView,
    r5: RegistryView,
    id: Seq<char>,
    q: ManifestView,
    grants: Seq<PermissionView>,
    edges: Seq<EdgeView>,
)
    requires
        free_of(r0, id),
        no_empty_lists(r0),
        edges_from(edges, id),
        registers(r0, r5, id, q, grants, edges),
    ensures
        r5.without(id) == r0,
{
    lemma_kept_under(r0.actions, r5.actions, id);
    lemma_kept_under(r0.wasm_modules, r5.wasm_modules, id);
    lemma_kept_back(
        r0.step_type_defs,
        r5.step_type_defs,
        |v: (Seq<char>, StepTypeDefView)| v.0 == id,
        def_not_of(id),
    );
    lemma_kept_back(
        r0.step_type_impls,
        r5.step_type_impls,
        |v: ImplEntryView| v.plugin == id,
        impl_not_of(id),
    );
    lemma_kept_back(
        r0.aliases,
        r5.aliases,
        |v: (Seq<char>, Seq<char>)| v.0 == id,
        alias_not_of(id),
    );
    assert forall|a: Seq<char>| #[trigger]
        r0.roles.contains_key(a) implies r0.roles[a].len() > 0 && r0.roles[a].filter(is_not(id))
        == r0.roles[a] by {
        let v = r0.roles[a];
        assert forall|i: int| 0 <= i < v.len() implies is_not(id)(#[trigger] v[i]) by {
            assert(v.contains(v[i]));
        }
        lemma_filter_whole(v, is_not(id));
    }
    lemma_scrubbed_back(r0.roles, r5.roles, is_not(id));
    assert forall|a: Seq<char>| #[trigger]
        r0.subscriptions.contains_key(a) implies r0.subscriptions[a].len() > 0
        && r0.subscriptions[a].filter(is_not_of(id)) == r0.subscriptions[a] by {
        lemma_filter_whole(r0.subscriptions[a], is_not_of(id));
    }
    lemma_scrubbed_back(r0.subscriptions, r5.subscriptions, is_not_of(id));
    lemma_filter_whole(r0.invoke_edges, is_not_from(id));
    lemma_filter_none(edges, is_not_from(id));
    Seq::filter_distributes_over_add(r0.invoke_edges, edges, is_not_from(id));
    assert(r5.invoke_edges.filter(is_not_from(id)) =~= r0.invoke_edges);
    assert(r5.manifests.remove(id) =~= r0.manifests);
    assert(r5.permissions.remove(id) =~= r0.permissions);
}

proof fn lemma_imports_added(
    k: KernelView,
    b0: BodiesView,
    b1: BodiesView,
    b1b: BodiesView,
    b2: BodiesView,
    id: Seq<char>,
    q: ManifestView,
)
    requires
        b0.owners == k.owners,
        b0.imports == k.imports,
        puts(b0, b1, id, imported_types(q.step_type_impls)),
        b1b.owners == b1.owners,
        b1b.imports == b1.imports,
        puts(b1b, b2, id, q.step_types.map_values(|e: (Seq<char>, Seq<char>)| e.0)),
    ensures
        imports_added(k, KernelView { owners: b2.owners, imports: b2.imports, ..k }, id, import_names(q)),
{
    let first = imported_types(q.step_type_impls);
    let second = q.step_types.map_values(|e: (Seq<char>, Seq<char>)| e.0);
    let names = import_names(q);
    assert(names == first + second);
    assert forall|a: Seq<char>| #[trigger]
        at(b2.owners, a) == if names_key(id, names, a) {
            Some(id)
        } else {
            at(k.owners, a)
        } by {
        lemma_names_add(id, first, second, a, a);
        assert(at(b1.owners, a) == if names_key(id, first, a) {
            Some(id)
        } else {
            at(b0.owners, a)
        });
    }
    assert forall|n: Seq<char>| !names_import(id, names, n) implies #[trigger] at(b2.imports, n)
        == at(k.imports, n) by {
        lemma_names_add(id, first, second, n, n);
        assert(at(b2.imports, n) == at(b1b.imports, n));
        assert(at(b1.imports, n) == at(b0.imports, n));
    }
}

proof fn lemma_imports_back(k: KernelView, after: KernelView, id: Seq<char>, q: ManifestView)
    requires
        imports_free_of(k.owners, k.imports, id),
        imports_fault(id, import_names(q), k.owners, 0) is None,
        imports_added(k, after, id, import_names(q)),
    ensures
        released(after.owners, after.imports, id, import_names(q)) == (k.owners, k.imports),
{
    let names = import_names(q);
    assert forall|j: int| 0 <= j < names.len() implies at(
        after.owners,
        step_type_key_of(id, #[trigger] names[j]),
    ) == Some(id) by {
        assert(names_key(id, names, step_type_key_of(id, names[j])));
    }
    lemma_released(after.owners, after.imports, id, names);
    let (o, i) = released(after.owners, after.imports, id, names);
    assert forall|a: Seq<char>| #[trigger] at(o, a) == at(k.owners, a) by {
        assert(at(after.owners, a) == if names_key(id, names, a) {
            Some(id)
        } else {
            at(k.owners, a)
        });
        if names_key(id, names, a) {
            let j = choose|j: int|
                0 <= j < names.len() && a == step_type_key_of(id, #[trigger] names[j]);
            lemma_imports_free(id, names, k.owners, 0, j);
        }
    }
    assert forall|n: Seq<char>| #[trigger] at(i, n) == at(k.imports, n) by {
        if names_import(id, names, n) {
            let j = choose|j: int|
                0 <= j < names.len() && n == import_name(step_type_key_of(id, #[trigger] names[j]));
            lemma_imports_free(id, names, k.owners, 0, j);
            assert(!k.imports.contains_key(import_name(step_type_key_of(id, names[j]))));
        } else {
            assert(at(after.imports, n) == at(k.imports, n));
        }
    }
    lemma_same_entries(o, k.owners);
    lemma_same_entries(i, k.imports);
}

proof fn lemma_same_entries<A, B>(a: Map<A, B>, b: Map<A, B>)
    requires
        forall|k: A| #[trigger] at(a, k) == at(b, k),
    ensures
        a == b,
{
    assert forall|k: A| #[trigger] a.contains_key(k) == b.contains_key(k) by {
        assert(at(a, k) == at(b, k));
    }
    assert forall|k: A| a.contains_key(k) implies #[trigger] a[k] == b[k] by {
        assert(at(a, k) == at(b, k));
    }
    assert(a =~= b);
}

proof fn lemma_names_add(
    id: Seq<char>,
    first: Seq<Seq<char>>,
    second: Seq<Seq<char>>,
    key: Seq<char>,
    n: Seq<char>,
)
    ensures
        names_key(id, first + second, key) <==> names_key(id, first, key) || names_key(
            id,
            second,
            key,
        ),
        names_import(id, first + second, n) <==> names_import(id, first, n) || names_import(
            id,
            second,
            n,
        ),
    decreases second.len(),
{
    if second.len() == 0 {
        assert(first + second =~= first);
    } else {
        let rest = second.drop_last();
        lemma_names_add(id, first, rest, key, n);
        assert(rest.push(second.last()) =~= second);
        assert((first + rest).push(second.last()) =~= first + second);
        lemma_names_push(id, rest, second.last());
        lemma_names_push(id, first + rest, second.last());
    }
}

/// Every step type in the import table has an owner, which is registered and names the step type in
/// its manifest; and what a registered manifest names there is its own.
pub open spec fn imports_owned(k: KernelView) -> bool {
    &&& forall|id: Seq<char>, a: Seq<char>|
        k.registry.manifests.contains_key(id) && #[trigger] names_key(
            id,
            import_names(k.registry.manifests[id]),
            a,
        ) ==> at(k.owners, a) == Some(id)
    &&& forall|a: Seq<char>| #[trigger]
        k.owners.contains_key(a) ==> k.registry.manifests.contains_key(k.owners[a]) && names_key(
            k.owners[a],
            import_names(k.registry.manifests[k.owners[a]]),
            a,
        )
    &&& forall|a: Seq<char>| #[trigger]
        k.imports.contains_key(import_name(a)) ==> k.owners.contains_key(a)
}

/// A loaded plugin is registered with the manifest that was retained.
pub open spec fn record_holds(k: KernelView, record: RecordView) -> bool {
    match record.payload {
        PayloadView::SpiDef(_) => true,
        PayloadView::Plugin(m) => {
            &&& record.identifier == qualified(record.namespace, m.name)
            &&& at(k.registry.manifests, record.identifier) == Some(
                with_identity(m, record.namespace),
            )
        },
    }
}

/// No plugin is loaded twice.
pub open spec fn loaded_once(k: KernelView) -> bool {
    forall|h: u64, g: u64| #[trigger]
        k.loaded.contains_key(h) && #[trigger] k.loaded.contains_key(g) && h != g
            && k.loaded[h].payload is Plugin && k.loaded[g].payload is Plugin
            ==> k.loaded[h].identifier != k.loaded[g].identifier
}

/// The users of roles are loaded plugins, and no role is kept without a user.
pub open spec fn users_loaded(k: KernelView) -> bool {
    &&& forall|a: Seq<char>| #[trigger] k.role_users.contains_key(a) ==> k.role_users[a].len() > 0
    &&& forall|a: Seq<char>, h: u64| #[trigger]
        list_at(k.role_users, a).contains(h) ==> k.loaded.contains_key(h)
            && k.loaded[h].payload is Plugin
}

/// A kernel in which nothing is left of what is not there, and nothing is missing of what is:
/// everything is of a plugin that is registered, no list is kept empty, no invoke leads back to where
/// it started, the step types that a registered manifest puts into the import table are there and its own, every loaded plugin is
/// registered as it was retained and once, the users of roles are loaded, and the handles that were
/// given out are behind the next one.
pub open spec fn whole(k: KernelView) -> bool {
    &&& forall|id: Seq<char>|
        !#[trigger] k.registry.manifests.contains_key(id) ==> free_of(k.registry, id)
    &&& no_empty_lists(k.registry)
    &&& !has_cycle(k.registry.invoke_edges)
    &&& imports_owned(k)
    &&& forall|h: u64| #[trigger] k.loaded.contains_key(h) ==> record_holds(k, k.loaded[h])
    &&& loaded_once(k)
    &&& users_loaded(k)
    &&& forall|h: u64| #[trigger] k.loaded.contains_key(h) ==> h < k.next_id
}

/// A kernel in which nothing is registered is whole.
pub proof fn law_bare_kernel_is_whole()
    ensures
        whole(bare_kernel()),
{
    let edges = bare_kernel().registry.invoke_edges;
    if has_cycle(edges) {
        let walk = choose|walk: Seq<int>| is_cycle(edges, walk);
        assert(0 <= walk[0] < edges.len());
    }
}

#[verifier::rlimit(40)]
proof fn lemma_outcome<F: Fn(&str) -> Result<(), String>>(
    k: KernelView,
    host: Host,
    categories: Seq<AppPermissionCategory<F>>,
    namespace: Seq<char>,
    m: ManifestView,
    kernel_owned: bool,
    survey: SurveyView,
    after: KernelView,
) -> (w: (Seq<PermissionView>, Seq<(Seq<char>, std::sync::Arc<wasmtime::Module>)>))
    requires
        registration_outcome(
            k,
            host,
            categories,
            namespace,
            m,
            kernel_owned,
            survey,
            Ok(()),
            after,
        ),
    ensures
        takes_nothing(k, m.name, with_identity(m, namespace), kernel_owned, w.0, host),
        survey.edges is Ok,
        !has_cycle(k.registry.invoke_edges + survey.edges->Ok_0),
        after == registered(
            k,
            namespace,
            with_identity(m, namespace),
            plans_of(survey),
            w.1,
            survey.edges->Ok_0,
            w.0,
            host,
        ),
        !k.registry.manifests.contains_key(qualified(namespace, m.name)),
{
    let q = with_identity(m, namespace);
    let ok: Result<(), ErrorView> = Ok(());
    let read = choose|read: Result<Seq<PermissionView>, PermissionFault>|
        {
            &&& #[trigger] permissions_outcome(m.permissions, categories, read)
            &&& match read {
                Err(e) => refused_with(
                    k,
                    ok,
                    after,
                    permission_text(qualified(namespace, m.name), e),
                ),
                Ok(grants) => contents_outcome(
                    k,
                    host,
                    namespace,
                    m,
                    kernel_owned,
                    survey,
                    grants,
                    ok,
                    after,
                ),
            }
        };
    let grants = read->Ok_0;
    let languages = choose|languages: Seq<Seq<char>>|
        {
            &&& #[trigger] lists_languages(languages, k.registry, q.step_type_impls)
            &&& match contents_fault(k, m.name, q, kernel_owned, survey, languages) {
                Some(e) => refused_with(k, ok, after, e),
                None => end_outcome(k, host, namespace, q, survey, grants, ok, after),
            }
        };
    let modules = choose|
        modules: Result<Seq<(Seq<char>, std::sync::Arc<wasmtime::Module>)>, Seq<char>>,
    |
        {
            &&& #[trigger] modules_outcome(q.name, q.wasm_modules, modules)
            &&& match last_fault(k, q, error_of(modules), survey.edges, grants, host) {
                Some(e) => refused_with(k, ok, after, e),
                None => ok is Ok && after == registered(
                    k,
                    namespace,
                    q,
                    plans_of(survey),
                    modules->Ok_0,
                    survey.edges->Ok_0,
                    grants,
                    host,
                ),
            }
        };
    (grants, modules->Ok_0)
}

/// A refused registration changes nothing.
pub proof fn law_refused_registration_changes_nothing<F: Fn(&str) -> Result<(), String>>(
    k: KernelView,
    host: Host,
    categories: Seq<AppPermissionCategory<F>>,
    namespace: Seq<char>,
    m: ManifestView,
    kernel_owned: bool,
    survey: SurveyView,
    r: Result<(), ErrorView>,
    after: KernelView,
)
    requires
        registration_outcome(k, host, categories, namespace, m, kernel_owned, survey, r, after),
        r is Err,
    ensures
        after == k,
{
}

/// A plugin that is registered was not there before, is there under its identity, and takes nothing
/// from any other plugin: the actions, modules, manifest and grants of others stay, and so does what
/// others have in the shared places.
pub proof fn law_registered_plugin_is_there<F: Fn(&str) -> Result<(), String>>(
    k: KernelView,
    host: Host,
    categories: Seq<AppPermissionCategory<F>>,
    namespace: Seq<char>,
    m: ManifestView,
    kernel_owned: bool,
    survey: SurveyView,
    after: KernelView,
)
    requires
        registration_outcome(
            k,
            host,
            categories,
            namespace,
            m,
            kernel_owned,
            survey,
            Ok(()),
            after,
        ),
    ensures
        !k.registry.manifests.contains_key(qualified(namespace, m.name)),
        at(after.registry.manifests, qualified(namespace, m.name)) == Some(
            with_identity(m, namespace),
        ),
        exists|grants: Seq<PermissionView>| #[trigger]
            registers(
                k.registry,
                after.registry,
                qualified(namespace, m.name),
                with_identity(m, namespace),
                grants,
                survey.edges->Ok_0,
            ),
        imports_added(
            k,
            after,
            qualified(namespace, m.name),
            import_names(with_identity(m, namespace)),
        ),
        after.spi == k.spi,
        after.loaded == k.loaded,
        after.role_users == k.role_users,
        after.next_id == k.next_id,
{
    let w = lemma_outcome(k, host, categories, namespace, m, kernel_owned, survey, after);
    let q = with_identity(m, namespace);
    lemma_registered(
        k,
        namespace,
        m.name,
        q,
        kernel_owned,
        plans_of(survey),
        w.1,
        survey.edges->Ok_0,
        w.0,
        host,
    );
    assert(registers(k.registry, after.registry, q.name, q, w.0, survey.edges->Ok_0));
}

/// A registration that succeeds leaves no cycle of invokes: neither among the edges that it brings
/// nor together with those that were there.
pub proof fn law_registering_leaves_no_cycle<F: Fn(&str) -> Result<(), String>>(
    k: KernelView,
    host: Host,
    categories: Seq<AppPermissionCategory<F>>,
    namespace: Seq<char>,
    m: ManifestView,
    kernel_owned: bool,
    survey: SurveyView,
    after: KernelView,
)
    requires
        registration_outcome(
            k,
            host,
            categories,
            namespace,
            m,
            kernel_owned,
            survey,
            Ok(()),
            after,
        ),
    ensures
        !has_cycle(after.registry.invoke_edges),
{
    let w = lemma_outcome(k, host, categories, namespace, m, kernel_owned, survey, after);
    lemma_registered(
        k,
        namespace,
        m.name,
        with_identity(m, namespace),
        kernel_owned,
        plans_of(survey),
        w.1,
        survey.edges->Ok_0,
        w.0,
        host,
    );
}

/// A plugin that goes leaves no cycle of invokes where there was none.
pub proof fn law_unregistering_leaves_no_cycle(r: RegistryView, id: Seq<char>)
    requires
        !has_cycle(r.invoke_edges),
    ensures
        !has_cycle(r.without(id).invoke_edges),
{
    let before = r.invoke_edges;
    let after = r.without(id).invoke_edges;
    if has_cycle(after) {
        let walk = choose|walk: Seq<int>| is_cycle(after, walk);
        let whole = Seq::new(walk.len(), |i: int| before.index_of(after[walk[i]]));
        assert forall|i: int| 0 <= i < walk.len() implies 0 <= #[trigger] whole[i] < before.len()
            && before[whole[i]] == after[walk[i]] by {
            lemma_filter_from(before, is_not_from(id), after[walk[i]]);
        }
        assert forall|i: int| 0 <= i < whole.len() - 1 implies before[#[trigger] whole[i]].to
            == before[whole[i + 1]].from by {
            assert(before[whole[i]] == after[walk[i]]);
            assert(before[whole[i + 1]] == after[walk[i + 1]]);
        }
        assert(before[whole[0]] == after[walk[0]]);
        assert(before[whole[whole.len() - 1]] == after[walk[walk.len() - 1]]);
        assert(is_cycle(before, whole));
    }
}

proof fn lemma_free_of_others(
    r0: RegistryView,
    r5: RegistryView,
    id: Seq<char>,
    q: ManifestView,
    grants: Seq<PermissionView>,
    edges: Seq<EdgeView>,
    other: Seq<char>,
)
    requires
        registers(r0, r5, id, q, grants, edges),
        edges_from(edges, id),
        other != id,
        free_of(r0, other),
    ensures
        free_of(r5, other),
{
    assert forall|a: (Seq<char>, Seq<char>)| #[trigger] r5.actions.contains_key(a) implies a.0
        != other by {
        if a.0 == other {
            assert(at(r5.actions, a) == at(r0.actions, a));
        }
    }
    assert forall|a: (Seq<char>, Seq<char>)| #[trigger] r5.wasm_modules.contains_key(a) implies a.0
        != other by {
        if a.0 == other {
            assert(at(r5.wasm_modules, a) == at(r0.wasm_modules, a));
        }
    }
    assert forall|a: Seq<char>| #[trigger] r5.roles.contains_key(a) implies !r5.roles[a].contains(
        other,
    ) by {
        if r5.roles[a].contains(other) {
            let v = list_at(r5.roles, a);
            let i = choose|i: int| 0 <= i < v.len() && v[i] == other;
            v.lemma_filter_contains(is_not(id), i);
            assert(list_at(r0.roles, a).filter(is_not(id)).contains(other));
            lemma_filter_from(list_at(r0.roles, a), is_not(id), other);
            assert(r0.roles.contains_key(a));
        }
    }
    assert forall|a: Seq<char>| #[trigger] r5.subscriptions.contains_key(a) implies no_action_of(
        r5.subscriptions[a],
        other,
    ) by {
        let v = list_at(r5.subscriptions, a);
        assert forall|i: int| 0 <= i < v.len() implies (#[trigger] v[i]).0 != other by {
            if v[i].0 == other {
                v.lemma_filter_contains(is_not_of(id), i);
                assert(list_at(r5.subscriptions, a).filter(is_not_of(id)) == list_at(
                    r0.subscriptions,
                    a,
                ).filter(is_not_of(id)));
                lemma_filter_from(list_at(r0.subscriptions, a), is_not_of(id), v[i]);
                assert(r0.subscriptions.contains_key(a));
                let u = r0.subscriptions[a];
                let j = choose|j: int| 0 <= j < u.len() && u[j] == v[i];
                assert(u[j].0 != other);
            }
        }
    }
    assert forall|a: Seq<char>| #[trigger] r5.aliases.contains_key(a) implies r5.aliases[a].0
        != other by {
        assert(r0.aliases.contains_key(a) || !r0.aliases.contains_key(a));
    }
    assert forall|a: Seq<char>| #[trigger]
        r5.step_type_defs.contains_key(a) implies r5.step_type_defs[a].0 != other by {
        assert(r0.step_type_defs.contains_key(a) || !r0.step_type_defs.contains_key(a));
    }
    assert forall|a: (Seq<char>, Option<Seq<char>>)| #[trigger]
        r5.step_type_impls.contains_key(a) implies r5.step_type_impls[a].plugin != other by {
        assert(r0.step_type_impls.contains_key(a) || !r0.step_type_impls.contains_key(a));
    }
    assert forall|i: int|
        0 <= i < r5.invoke_edges.len() implies (#[trigger] r5.invoke_edges[i]).from.0 != other by {
        if i < r0.invoke_edges.len() {
            assert(r5.invoke_edges[i] == r0.invoke_edges[i]);
        } else {
            assert(r5.invoke_edges[i] == edges[i - r0.invoke_edges.len()]);
        }
    }
}

proof fn lemma_filter_from<A>(v: Seq<A>, p: spec_fn(A) -> bool, x: A)
    requires
        v.filter(p).contains(x),
    ensures
        v.contains(x),
    decreases v.len(),
{
    reveal(Seq::filter);
    if v.len() > 0 {
        let rest = v.drop_last();
        if p(v.last()) && x == v.last() {
            assert(v[v.len() - 1] == x);
        } else {
            let w = v.filter(p);
            let i = choose|i: int| 0 <= i < w.len() && w[i] == x;
            if p(v.last()) {
                assert(w == rest.filter(p).push(v.last()));
                assert(rest.filter(p)[i] == x);
            }
            lemma_filter_from(rest, p, x);
            let j = choose|j: int| 0 <= j < rest.len() && rest[j] == x;
            assert(v[j] == x);
        }
    }
}

#[verifier::rlimit(40)]
proof fn lemma_registered_whole(
    k: KernelView,
    after: KernelView,
    q: ManifestView,
    grants: Seq<PermissionView>,
    edges: Seq<EdgeView>,
)
    requires
        whole(k),
        !k.registry.manifests.contains_key(q.name),
        registers(k.registry, after.registry, q.name, q, grants, edges),
        imports_added(k, after, q.name, import_names(q)),
        edges_from(edges, q.name),
        !has_cycle(k.registry.invoke_edges + edges),
        after == (KernelView {
            registry: after.registry,
            owners: after.owners,
            imports: after.imports,
            ..k
        }),
        imports_fault(q.name, import_names(q), k.owners, 0) is None,
    ensures
        whole(after),
{
    let id = q.name;
    let names = import_names(q);
    assert forall|other: Seq<char>|
        !#[trigger] after.registry.manifests.contains_key(other) implies free_of(
        after.registry,
        other,
    ) by {
        assert(!k.registry.manifests.contains_key(other));
        lemma_free_of_others(k.registry, after.registry, id, q, grants, edges, other);
    }
    assert forall|a: Seq<char>| #[trigger]
        after.owners.contains_key(a) implies after.registry.manifests.contains_key(after.owners[a])
        && names_key(
        after.owners[a],
        import_names(after.registry.manifests[after.owners[a]]),
        a,
    ) by {
        assert(at(after.owners, a) == if names_key(id, names, a) {
            Some(id)
        } else {
            at(k.owners, a)
        });
        if !names_key(id, names, a) {
            assert(k.owners.contains_key(a));
            assert(k.owners[a] != id);
        }
    }
    assert forall|a: Seq<char>| #[trigger]
        after.imports.contains_key(import_name(a)) implies after.owners.contains_key(a) by {
        assert(at(after.owners, a) == if names_key(id, names, a) {
            Some(id)
        } else {
            at(k.owners, a)
        });
        if !names_key(id, names, a) {
            if names_import(id, names, import_name(a)) {
                let j = choose|j: int|
                    0 <= j < names.len() && import_name(a) == import_name(
                        step_type_key_of(id, #[trigger] names[j]),
                    );
                lemma_import_name_tells(a, step_type_key_of(id, names[j]));
            }
            assert(at(after.imports, import_name(a)) == at(k.imports, import_name(a)));
        }
    }
    assert forall|other: Seq<char>, a: Seq<char>|
        after.registry.manifests.contains_key(other) && #[trigger] names_key(
            other,
            import_names(after.registry.manifests[other]),
            a,
        ) implies at(after.owners, a) == Some(other) by {
        if other != id {
            assert(k.registry.manifests.contains_key(other));
            assert(names_key(other, import_names(k.registry.manifests[other]), a));
            assert(at(k.owners, a) == Some(other));
            if names_key(id, names, a) {
                let j = choose|j: int|
                    0 <= j < names.len() && a == step_type_key_of(id, #[trigger] names[j]);
                assert forall|x: Seq<char>| #[trigger]
                    k.owners.contains_key(x) implies k.owners[x] != id by {}
                lemma_imports_free(id, names, k.owners, 0, j);
            }
        }
        assert(at(after.owners, a) == if names_key(id, names, a) {
            Some(id)
        } else {
            at(k.owners, a)
        });
    }
    assert forall|h: u64| #[trigger] after.loaded.contains_key(h) implies record_holds(
        after,
        after.loaded[h],
    ) by {
        assert(record_holds(k, k.loaded[h]));
    }
}

/// The edges that are known of a plugin start at it.
pub open spec fn survey_fits(survey: SurveyView, id: Seq<char>) -> bool {
    survey.edges is Ok ==> edges_from(survey.edges->Ok_0, id)
}

/// A registration leaves a whole kernel whole.
pub proof fn law_registering_keeps_the_kernel_whole<F: Fn(&str) -> Result<(), String>>(
    k: KernelView,
    host: Host,
    categories: Seq<AppPermissionCategory<F>>,
    namespace: Seq<char>,
    m: ManifestView,
    kernel_owned: bool,
    survey: SurveyView,
    r: Result<(), ErrorView>,
    after: KernelView,
)
    requires
        whole(k),
        survey_fits(survey, qualified(namespace, m.name)),
        registration_outcome(k, host, categories, namespace, m, kernel_owned, survey, r, after),
    ensures
        whole(after),
{
    if r is Ok {
        let w = lemma_outcome(k, host, categories, namespace, m, kernel_owned, survey, after);
        let q = with_identity(m, namespace);
        lemma_registered(
            k,
            namespace,
            m.name,
            q,
            kernel_owned,
            plans_of(survey),
            w.1,
            survey.edges->Ok_0,
            w.0,
            host,
        );
        lemma_registered_whole(k, after, q, w.0, survey.edges->Ok_0);
    }
}

/// Nothing is left of a plugin that was unregistered.
pub proof fn law_unregistering_leaves_nothing(r: RegistryView, id: Seq<char>)
    ensures
        free_of(r.without(id), id),
        no_empty_lists(r.without(id)),
{
    let after = r.without(id);
    assert forall|a: Seq<char>| #[trigger] after.roles.contains_key(a) implies !after.roles[a].contains(
        id,
    ) by {
        let v = after.roles[a];
        if v.contains(id) {
            let i = choose|i: int| 0 <= i < v.len() && v[i] == id;
            r.roles[a].lemma_filter_pred(is_not(id), i);
        }
    }
    assert forall|a: Seq<char>| #[trigger] after.subscriptions.contains_key(a) implies no_action_of(
        after.subscriptions[a],
        id,
    ) by {
        let v = after.subscriptions[a];
        assert forall|i: int| 0 <= i < v.len() implies (#[trigger] v[i]).0 != id by {
            r.subscriptions[a].lemma_filter_pred(is_not_of(id), i);
        }
    }
    assert forall|i: int|
        0 <= i < after.invoke_edges.len() implies (#[trigger] after.invoke_edges[i]).from.0 != id by {
        r.invoke_edges.lemma_filter_pred(is_not_from(id), i);
    }
}

/// Unregistering a plugin takes nothing of any other: what others have stays, one by one.
pub proof fn law_unregistering_touches_no_other(r: RegistryView, id: Seq<char>)
    ensures
        forall|a: (Seq<char>, Seq<char>)|
            a.0 != id ==> #[trigger] at(r.without(id).actions, a) == at(r.actions, a),
        forall|a: (Seq<char>, Seq<char>)|
            a.0 != id ==> #[trigger] at(r.without(id).wasm_modules, a) == at(r.wasm_modules, a),
        forall|p: Seq<char>|
            p != id ==> #[trigger] at(r.without(id).manifests, p) == at(r.manifests, p),
        forall|p: Seq<char>|
            p != id ==> #[trigger] at(r.without(id).permissions, p) == at(r.permissions, p),
        forall|a: Seq<char>| #[trigger]
            list_at(r.without(id).roles, a) == list_at(r.roles, a).filter(is_not(id)),
        forall|a: Seq<char>| #[trigger]
            list_at(r.without(id).subscriptions, a) == list_at(r.subscriptions, a).filter(
                is_not_of(id),
            ),
        forall|a: Seq<char>|
            r.aliases.contains_key(a) && r.aliases[a].0 != id ==> #[trigger] at(
                r.without(id).aliases,
                a,
            ) == Some(r.aliases[a]),
        forall|a: Seq<char>|
            r.step_type_defs.contains_key(a) && r.step_type_defs[a].0 != id ==> #[trigger] at(
                r.without(id).step_type_defs,
                a,
            ) == Some(r.step_type_defs[a]),
        forall|a: (Seq<char>, Option<Seq<char>>)|
            r.step_type_impls.contains_key(a) && r.step_type_impls[a].plugin != id
                ==> #[trigger] at(r.without(id).step_type_impls, a) == Some(r.step_type_impls[a]),
{
    assert forall|a: Seq<char>| #[trigger] list_at(r.without(id).roles, a) == list_at(
        r.roles,
        a,
    ).filter(is_not(id)) by {
        if !r.roles.contains_key(a) {
            lemma_filter_none(list_at(r.roles, a), is_not(id));
        }
        assert(list_at(r.without(id).roles, a) =~= list_at(r.roles, a).filter(is_not(id)));
    }
    assert forall|a: Seq<char>| #[trigger] list_at(r.without(id).subscriptions, a) == list_at(
        r.subscriptions,
        a,
    ).filter(is_not_of(id)) by {
        if !r.subscriptions.contains_key(a) {
            lemma_filter_none(list_at(r.subscriptions, a), is_not_of(id));
        }
        assert(list_at(r.without(id).subscriptions, a) =~= list_at(r.subscriptions, a).filter(
            is_not_of(id),
        ));
    }
}

proof fn lemma_without_stays_free(r: RegistryView, id: Seq<char>, other: Seq<char>)
    requires
        free_of(r, other),
    ensures
        free_of(r.without(id), other),
{
    let after = r.without(id);
    assert forall|a: Seq<char>| #[trigger] after.roles.contains_key(a) implies !after.roles[a].contains(
        other,
    ) by {
        if after.roles[a].contains(other) {
            lemma_filter_from(r.roles[a], is_not(id), other);
        }
    }
    assert forall|a: Seq<char>| #[trigger] after.subscriptions.contains_key(a) implies no_action_of(
        after.subscriptions[a],
        other,
    ) by {
        let v = after.subscriptions[a];
        assert forall|i: int| 0 <= i < v.len() implies (#[trigger] v[i]).0 != other by {
            assert(v.contains(v[i]));
            lemma_filter_from(r.subscriptions[a], is_not_of(id), v[i]);
            let u = r.subscriptions[a];
            let j = choose|j: int| 0 <= j < u.len() && u[j] == v[i];
            assert(u[j].0 != other);
        }
    }
    assert forall|i: int| 0 <= i < after.invoke_edges.len() implies (
    #[trigger] after.invoke_edges[i]).from.0 != other by {
        let v = after.invoke_edges;
        assert(v.contains(v[i]));
        lemma_filter_from(r.invoke_edges, is_not_from(id), v[i]);
        let u = r.invoke_edges;
        let j = choose|j: int| 0 <= j < u.len() && u[j] == v[i];
        assert(u[j].from.0 != other);
    }
}

/// The kernel without a loaded manifest and what is registered of it.
pub open spec fn cleared(k: KernelView, handle: u64) -> KernelView {
    untracked(
        unregistered(KernelView { loaded: k.loaded.remove(handle), ..k }, k.loaded[handle]),
        handle,
    )
}

#[verifier::rlimit(40)]
proof fn lemma_cleared_whole(k: KernelView, handle: u64)
    requires
        whole(k),
        k.loaded.contains_key(handle),
    ensures
        whole(cleared(k, handle)),
        cleared(k, handle).next_id == k.next_id,
        cleared(k, handle).loaded == k.loaded.remove(handle),
        k.loaded[handle].payload is Plugin
            ==> !cleared(k, handle).registry.manifests.contains_key(k.loaded[handle].identifier),
{
    let after = cleared(k, handle);
    let record = k.loaded[handle];
    let id = record.identifier;
    assert(record_holds(k, record));
    lemma_users_cleared(k, after, handle);
    match record.payload {
        PayloadView::SpiDef(_) => {
            assert(after.registry == k.registry);
            assert(imports_owned(after));
            assert forall|h: u64| #[trigger] after.loaded.contains_key(h) implies record_holds(
                after,
                after.loaded[h],
            ) by {
                assert(record_holds(k, k.loaded[h]));
            }
        },
        PayloadView::Plugin(m) => {
            let q = with_identity(m, record.namespace);
            let names = import_names(m);
            assert(names == import_names(q));
            assert(k.registry.manifests[id] == q);
            law_unregistering_leaves_nothing(k.registry, id);
            law_unregistering_leaves_no_cycle(k.registry, id);
            assert forall|other: Seq<char>|
                !#[trigger] after.registry.manifests.contains_key(other) implies free_of(
                after.registry,
                other,
            ) by {
                if other != id {
                    assert(!k.registry.manifests.contains_key(other));
                    lemma_without_stays_free(k.registry, id, other);
                }
            }
            assert forall|j: int| 0 <= j < names.len() implies at(
                k.owners,
                step_type_key_of(id, #[trigger] names[j]),
            ) == Some(id) by {
                assert(names_key(
                    id,
                    import_names(k.registry.manifests[id]),
                    step_type_key_of(id, names[j]),
                ));
            }
            lemma_released(k.owners, k.imports, id, names);
            lemma_imports_still_owned(k, after, id, names);
            assert forall|h: u64| #[trigger] after.loaded.contains_key(h) implies record_holds(
                after,
                after.loaded[h],
            ) by {
                assert(k.loaded.contains_key(h) && k.loaded.contains_key(handle));
                assert(record_holds(k, k.loaded[h]));
            }
        },
    }
}

proof fn lemma_users_cleared(k: KernelView, after: KernelView, handle: u64)
    requires
        whole(k),
        after == cleared(k, handle),
    ensures
        users_loaded(after),
        loaded_once(after),
        after.loaded == k.loaded.remove(handle),
{
    assert(after.role_users == scrubbed(k.role_users, other_than(handle)));
    assert forall|a: Seq<char>, h: u64| #[trigger]
        list_at(after.role_users, a).contains(h) implies after.loaded.contains_key(h)
        && after.loaded[h].payload is Plugin by {
        let v = list_at(after.role_users, a);
        let i = choose|i: int| 0 <= i < v.len() && v[i] == h;
        assert(after.role_users.contains_key(a));
        k.role_users[a].lemma_filter_pred(other_than(handle), i);
        lemma_filter_from(k.role_users[a], other_than(handle), h);
        assert(list_at(k.role_users, a).contains(h));
    }
}

proof fn lemma_imports_still_owned(
    k: KernelView,
    after: KernelView,
    id: Seq<char>,
    names: Seq<Seq<char>>,
)
    requires
        whole(k),
        k.registry.manifests.contains_key(id),
        names == import_names(k.registry.manifests[id]),
        after.registry == k.registry.without(id),
        forall|a: Seq<char>| #[trigger]
            at(after.owners, a) == if names_key(id, names, a) {
                None
            } else {
                at(k.owners, a)
            },
        forall|n: Seq<char>| #[trigger]
            at(after.imports, n) == if names_import(id, names, n) {
                None
            } else {
                at(k.imports, n)
            },
    ensures
        imports_owned(after),
{
    assert forall|other: Seq<char>, a: Seq<char>|
        after.registry.manifests.contains_key(other) && #[trigger] names_key(
            other,
            import_names(after.registry.manifests[other]),
            a,
        ) implies at(after.owners, a) == Some(other) by {
        assert(names_key(other, import_names(k.registry.manifests[other]), a));
        assert(at(k.owners, a) == Some(other));
        if names_key(id, names, a) {
            assert(at(k.owners, a) == Some(id));
        }
        assert(at(after.owners, a) == at(k.owners, a));
    }
    assert forall|a: Seq<char>| #[trigger]
        after.owners.contains_key(a) implies after.registry.manifests.contains_key(after.owners[a])
        && names_key(
        after.owners[a],
        import_names(after.registry.manifests[after.owners[a]]),
        a,
    ) by {
        assert(at(after.owners, a) == if names_key(id, names, a) {
            None
        } else {
            at(k.owners, a)
        });
        assert(k.owners.contains_key(a));
        assert(k.owners[a] != id);
    }
    assert forall|a: Seq<char>| #[trigger]
        after.imports.contains_key(import_name(a)) implies after.owners.contains_key(a) by {
        assert(at(after.imports, import_name(a)) == if names_import(id, names, import_name(a)) {
            None
        } else {
            at(k.imports, import_name(a))
        });
        assert(k.imports.contains_key(import_name(a)));
        assert(k.owners.contains_key(a));
        if names_key(id, names, a) {
            let j = choose|j: int|
                0 <= j < names.len() && a == step_type_key_of(id, #[trigger] names[j]);
            assert(import_name(a) == import_name(step_type_key_of(id, names[j])));
            assert(names_import(id, names, import_name(a)));
        }
        assert(at(after.owners, a) == at(k.owners, a));
    }
}

/// Unloading leaves a whole kernel whole, whatever comes of it.
pub proof fn law_unloading_keeps_the_kernel_whole(k: KernelView, handle: u64)
    requires
        whole(k),
    ensures
        whole(unload_outcome(k, handle).1),
{
    if k.loaded.contains_key(handle) {
        let record = k.loaded[handle];
        let rest = KernelView { loaded: k.loaded.remove(handle), ..k };
        assert(record_holds(k, record));
        lemma_cleared_whole(k, handle);
        if unload_outcome(k, handle).1 == rest && record.payload is SpiDef {
            assert forall|a: Seq<char>, h: u64| #[trigger]
                list_at(rest.role_users, a).contains(h) implies rest.loaded.contains_key(h)
                && rest.loaded[h].payload is Plugin by {
                assert(list_at(k.role_users, a).contains(h));
            }
            assert forall|h: u64| #[trigger] rest.loaded.contains_key(h) implies record_holds(
                rest,
                rest.loaded[h],
            ) by {
                assert(record_holds(k, k.loaded[h]));
            }
            assert(imports_owned(rest));
        }
    }
}

proof fn lemma_tracked_users(users: Map<Seq<char>, Seq<u64>>, handle: u64, keys: Seq<Seq<char>>)
    ensures
        ({
            let after = tracked_users(users, handle, keys);
            &&& forall|a: Seq<char>, h: u64| #[trigger]
                list_at(after, a).contains(h) ==> h == handle || list_at(users, a).contains(h)
            &&& (forall|a: Seq<char>| #[trigger] users.contains_key(a) ==> users[a].len() > 0)
                ==> (forall|a: Seq<char>| #[trigger] after.contains_key(a) ==> after[a].len() > 0)
            &&& forall|a: Seq<char>| #[trigger]
                list_at(after, a).filter(other_than(handle)) == list_at(users, a).filter(
                    other_than(handle),
                )
        }),
    decreases keys.len(),
{
    if keys.len() > 0 {
        let rest = keys.drop_last();
        lemma_tracked_users(users, handle, rest);
        let before = tracked_users(users, handle, rest);
        let after = tracked_users(users, handle, keys);
        let key = keys.last();
        lemma_filter_other(list_at(before, key), handle, other_than(handle));
        assert forall|a: Seq<char>, h: u64| #[trigger]
            list_at(after, a).contains(h) implies h == handle || list_at(users, a).contains(h) by {
            if a == key {
                let v = list_at(before, key);
                assert(list_at(after, a) == with_item(v, handle));
                if !v.contains(handle) {
                    let i = choose|i: int| 0 <= i < v.push(handle).len() && v.push(handle)[i] == h;
                    if i < v.len() {
                        assert(v[i] == h);
                        assert(v.contains(h));
                    }
                }
            } else {
                assert(list_at(after, a) == list_at(before, a));
            }
            assert(h == handle || list_at(before, a).contains(h));
        }
        assert forall|a: Seq<char>| #[trigger]
            list_at(after, a).filter(other_than(handle)) == list_at(users, a).filter(
                other_than(handle),
            ) by {
            assert(list_at(before, a).filter(other_than(handle)) == list_at(users, a).filter(
                other_than(handle),
            ));
            if a == key {
                assert(list_at(after, a) == with_item(list_at(before, a), handle));
            } else {
                assert(list_at(after, a) == list_at(before, a));
            }
        }
    }
}

proof fn lemma_with_record_whole(k: KernelView, handle: u64, record: RecordView)
    requires
        whole(k),
        record_holds(k, record),
        !k.loaded.contains_key(handle),
        handle < k.next_id,
        record.payload is Plugin ==> forall|h: u64| #[trigger]
            k.loaded.contains_key(h) && k.loaded[h].payload is Plugin ==> k.loaded[h].identifier
                != record.identifier,
    ensures
        whole(with_record(k, handle, record)),
{
    let after = with_record(k, handle, record);
    match record.payload {
        PayloadView::SpiDef(_) => {},
        PayloadView::Plugin(m) => {
            lemma_tracked_users(
                k.role_users,
                handle,
                role_keys(k.spi, record.namespace, m.roles),
            );
        },
    }
    assert(imports_owned(after));
    assert forall|h: u64| #[trigger] after.loaded.contains_key(h) implies record_holds(
        after,
        after.loaded[h],
    ) by {
        if h != handle {
            assert(record_holds(k, k.loaded[h]));
        }
    }
    assert forall|a: Seq<char>, h: u64| #[trigger]
        list_at(after.role_users, a).contains(h) implies after.loaded.contains_key(h)
        && after.loaded[h].payload is Plugin by {
        if h != handle || record.payload is SpiDef {
            assert(list_at(k.role_users, a).contains(h));
        }
    }
}

/// What is known of a document from outside fits the plugin that it spells.
pub open spec fn preparation_fits(prep: Preparation, namespace: Seq<char>) -> bool {
    prep.reading.plugin is Ok ==> survey_fits(
        prep.survey@,
        qualified(namespace, prep.reading.plugin->Ok_0.deep_view().name),
    )
}

#[verifier::rlimit(40)]
proof fn lemma_document_whole<F: Fn(&str) -> Result<(), String>>(
    k: KernelView,
    host: Host,
    categories: Seq<AppPermissionCategory<F>>,
    json: Seq<char>,
    namespace: Seq<char>,
    kernel_owned: bool,
    prep: Preparation,
    record: RecordView,
    after: KernelView,
)
    requires
        whole(k),
        preparation_fits(prep, namespace),
        document_outcome(
            k,
            host,
            categories,
            json,
            namespace,
            kernel_owned,
            prep,
            Ok(record),
            after,
        ),
    ensures
        whole(after),
        record_holds(after, record),
        after.loaded == k.loaded,
        after.next_id == k.next_id,
        record.namespace == namespace,
        record.payload is Plugin ==> forall|h: u64| #[trigger]
            k.loaded.contains_key(h) && k.loaded[h].payload is Plugin ==> k.loaded[h].identifier
                != record.identifier,
{
    match classified_text(json, prep.reading) {
        Err(_) => {},
        Ok(ClassifiedView::SpiDef { role }) => {
            assert(imports_owned(after));
            assert forall|h: u64| #[trigger] after.loaded.contains_key(h) implies record_holds(
                after,
                after.loaded[h],
            ) by {
                assert(record_holds(k, k.loaded[h]));
            }
        },
        Ok(ClassifiedView::Plugin(m)) => {
            law_registering_keeps_the_kernel_whole(
                k,
                host,
                categories,
                namespace,
                m,
                kernel_owned,
                prep.survey@,
                Ok(()),
                after,
            );
            law_registered_plugin_is_there(
                k,
                host,
                categories,
                namespace,
                m,
                kernel_owned,
                prep.survey@,
                after,
            );
            assert forall|h: u64| #[trigger]
                k.loaded.contains_key(h) && k.loaded[h].payload is Plugin implies k.loaded[h].identifier
                != record.identifier by {
                assert(record_holds(k, k.loaded[h]));
            }
        },
    }
}

/// Loading leaves a whole kernel whole, as long as there are handles to give out, and the handle that
/// is given out is a new one.
#[verifier::rlimit(40)]
pub proof fn law_loading_keeps_the_kernel_whole<F: Fn(&str) -> Result<(), String>>(
    k: KernelView,
    host: Host,
    categories: Seq<AppPermissionCategory<F>>,
    json: Seq<char>,
    namespace: Seq<char>,
    immutable: bool,
    prep: Preparation,
    r: Result<ManifestHandle, ErrorView>,
    after: KernelView,
)
    requires
        whole(k),
        k.next_id < u64::MAX,
        preparation_fits(prep, namespace),
        load_outcome(k, host, categories, json, namespace, immutable, prep, r, after),
    ensures
        whole(after),
        r is Err ==> after == k,
        r is Ok ==> !k.loaded.contains_key(r->Ok_0.0) && after.loaded.contains_key(r->Ok_0.0)
            && forall|h: u64| #[trigger]
            k.loaded.contains_key(h) ==> after.loaded.contains_key(h) && after.loaded[h]
                == k.loaded[h],
{
    if let Ok(handle) = r {
        let (record, k2) = choose|record: RecordView, k2: KernelView|
            {
                &&& #[trigger] document_outcome(
                    k,
                    host,
                    categories,
                    json,
                    namespace,
                    immutable,
                    prep,
                    Ok(record),
                    k2,
                )
                &&& handle.0 == k.next_id
                &&& after == with_record(
                    KernelView {
                        next_id: if k2.next_id < u64::MAX {
                            (k2.next_id + 1) as u64
                        } else {
                            u64::MAX
                        },
                        ..k2
                    },
                    handle.0,
                    RecordView { immutable, ..record },
                )
            };
        lemma_document_whole(
            k,
            host,
            categories,
            json,
            namespace,
            immutable,
            prep,
            record,
            k2,
        );
        let k3 = KernelView { next_id: (k2.next_id + 1) as u64, ..k2 };
        assert(imports_owned(k3));
        assert forall|h: u64| #[trigger] k3.loaded.contains_key(h) implies record_holds(
            k3,
            k3.loaded[h],
        ) by {
            assert(record_holds(k2, k2.loaded[h]));
        }
        assert(whole(k3));
        assert(record_holds(k3, RecordView { immutable, ..record }));
        lemma_with_record_whole(k3, handle.0, RecordView { immutable, ..record });
    }
}

/// What is known of a retained document from outside fits the plugin that it spells.
pub open spec fn rollback_fits(back: Rollback, record: RecordView) -> bool {
    record.payload is Plugin ==> survey_fits(back.survey@, record.identifier)
}

/// Reloading leaves a whole kernel whole, whatever comes of it; a reload that succeeds, and one that
/// is rolled back, keep the handle and the namespace.
#[verifier::rlimit(40)]
pub proof fn law_reloading_keeps_the_kernel_whole<F: Fn(&str) -> Result<(), String>>(
    k: KernelView,
    host: Host,
    categories: Seq<AppPermissionCategory<F>>,
    handle: u64,
    json: Seq<char>,
    prep: Preparation,
    back: Rollback,
    r: Result<(), ErrorView>,
    after: KernelView,
)
    requires
        whole(k),
        k.loaded.contains_key(handle) ==> preparation_fits(prep, k.loaded[handle].namespace)
            && rollback_fits(back, k.loaded[handle]),
        reload_outcome(k, host, categories, handle, json, prep, back, r, after),
    ensures
        whole(after),
        r is Ok ==> k.loaded.contains_key(handle) && after.loaded.contains_key(handle)
            && after.loaded[handle].namespace == k.loaded[handle].namespace,
{
    if k.loaded.contains_key(handle) {
        let record = k.loaded[handle];
        if !record.immutable && is_registered(k, record) {
            lemma_cleared_whole(k, handle);
            let base = cleared(k, handle);
            let ns = record.namespace;
            if exists|new_record: RecordView, k2: KernelView|
                {
                    &&& #[trigger] document_outcome(
                        base,
                        host,
                        categories,
                        json,
                        ns,
                        false,
                        prep,
                        Ok(new_record),
                        k2,
                    )
                    &&& r is Ok
                    &&& after == with_record(k2, handle, new_record)
                } {
                let (new_record, k2) = choose|new_record: RecordView, k2: KernelView|
                    {
                        &&& #[trigger] document_outcome(
                            base,
                            host,
                            categories,
                            json,
                            ns,
                            false,
                            prep,
                            Ok(new_record),
                            k2,
                        )
                        &&& r is Ok
                        &&& after == with_record(k2, handle, new_record)
                    };
                lemma_document_whole(
                    base,
                    host,
                    categories,
                    json,
                    ns,
                    false,
                    prep,
                    new_record,
                    k2,
                );
                lemma_with_record_whole(k2, handle, new_record);
            } else if after != base {
                let (e, k3) = choose|e: ErrorView, k3: KernelView|
                    {
                        &&& #[trigger] document_outcome(
                            base,
                            host,
                            categories,
                            json,
                            ns,
                            false,
                            prep,
                            Err(e),
                            base,
                        )
                        &&& #[trigger] rollback_outcome(
                            base,
                            host,
                            categories,
                            record,
                            back,
                            Ok(()),
                            k3,
                        )
                        &&& r == Err::<(), ErrorView>(e)
                        &&& after == with_record(k3, handle, record)
                    };
                lemma_rollback_whole(k, base, host, categories, handle, record, back, k3);
            }
        }
    }
}

#[verifier::rlimit(40)]
proof fn lemma_rollback_whole<F: Fn(&str) -> Result<(), String>>(
    k: KernelView,
    base: KernelView,
    host: Host,
    categories: Seq<AppPermissionCategory<F>>,
    handle: u64,
    record: RecordView,
    back: Rollback,
    k3: KernelView,
)
    requires
        whole(k),
        k.loaded.contains_key(handle),
        record == k.loaded[handle],
        base == cleared(k, handle),
        rollback_fits(back, record),
        rollback_outcome(base, host, categories, record, back, Ok(()), k3),
    ensures
        whole(with_record(k3, handle, record)),
{
    lemma_cleared_whole(k, handle);
    assert(record_holds(k, record));
    match record.payload {
        PayloadView::SpiDef(json) => {
            assert(imports_owned(k3));
            assert forall|h: u64| #[trigger] k3.loaded.contains_key(h) implies record_holds(
                k3,
                k3.loaded[h],
            ) by {
                assert(record_holds(base, base.loaded[h]));
            }
        },
        PayloadView::Plugin(m) => {
            law_registering_keeps_the_kernel_whole(
                base,
                host,
                categories,
                record.namespace,
                m,
                false,
                back.survey@,
                Ok(()),
                k3,
            );
            law_registered_plugin_is_there(
                base,
                host,
                categories,
                record.namespace,
                m,
                false,
                back.survey@,
                k3,
            );
            assert forall|h: u64| #[trigger]
                k3.loaded.contains_key(h) && k3.loaded[h].payload is Plugin implies k3.loaded[h].identifier
                != record.identifier by {
                assert(k.loaded.contains_key(h) && k.loaded.contains_key(handle));
            }
        },
    }
    lemma_with_record_whole(k3, handle, record);
}

#[verifier::rlimit(40)]
proof fn lemma_loaded_plugin<F: Fn(&str) -> Result<(), String>>(
    k: KernelView,
    host: Host,
    categories: Seq<AppPermissionCategory<F>>,
    json: Seq<char>,
    namespace: Seq<char>,
    prep: Preparation,
    handle: ManifestHandle,
    after: KernelView,
) -> (k2: KernelView)
    requires
        classified_text(json, prep.reading) is Ok,
        classified_text(json, prep.reading)->Ok_0 is Plugin,
        load_outcome(k, host, categories, json, namespace, false, prep, Ok(handle), after),
    ensures
        ({
            let m = classified_text(json, prep.reading)->Ok_0->Plugin_0;
            &&& registration_outcome(
                k,
                host,
                categories,
                namespace,
                m,
                false,
                prep.survey@,
                Ok(()),
                k2,
            )
            &&& handle.0 == k.next_id
            &&& after == with_record(
                KernelView { next_id: after.next_id, ..k2 },
                handle.0,
                RecordView {
                    identifier: qualified(namespace, m.name),
                    namespace,
                    payload: PayloadView::Plugin(m),
                    immutable: false,
                },
            )
        }),
{
    let (record, k2) = choose|record: RecordView, k2: KernelView|
        {
            &&& #[trigger] document_outcome(
                k,
                host,
                categories,
                json,
                namespace,
                false,
                prep,
                Ok(record),
                k2,
            )
            &&& handle.0 == k.next_id
            &&& after == with_record(
                KernelView {
                    next_id: if k2.next_id < u64::MAX {
                        (k2.next_id + 1) as u64
                    } else {
                        u64::MAX
                    },
                    ..k2
                },
                handle.0,
                RecordView { immutable: false, ..record },
            )
        };
    k2
}

proof fn lemma_users_back(k: KernelView, h: u64, keys: Seq<Seq<char>>)
    requires
        whole(k),
        !k.loaded.contains_key(h),
    ensures
        scrubbed(tracked_users(k.role_users, h, keys), other_than(h)) == k.role_users,
{
    lemma_tracked_users(k.role_users, h, keys);
    assert forall|a: Seq<char>| #[trigger] k.role_users.contains_key(a) implies k.role_users[a].len()
        > 0 && k.role_users[a].filter(other_than(h)) == k.role_users[a] by {
        let v = k.role_users[a];
        assert forall|i: int| 0 <= i < v.len() implies other_than(h)(#[trigger] v[i]) by {
            assert(list_at(k.role_users, a).contains(v[i]));
            assert(k.loaded.contains_key(v[i]));
        }
        lemma_filter_whole(v, other_than(h));
    }
    lemma_scrubbed_back(k.role_users, tracked_users(k.role_users, h, keys), other_than(h));
}

#[verifier::rlimit(40)]
proof fn lemma_registration_back<F: Fn(&str) -> Result<(), String>>(
    k: KernelView,
    host: Host,
    categories: Seq<AppPermissionCategory<F>>,
    namespace: Seq<char>,
    m: ManifestView,
    survey: SurveyView,
    k2: KernelView,
)
    requires
        whole(k),
        survey_fits(survey, qualified(namespace, m.name)),
        registration_outcome(k, host, categories, namespace, m, false, survey, Ok(()), k2),
    ensures
        k2.registry.without(qualified(namespace, m.name)) == k.registry,
        released(
            k2.owners,
            k2.imports,
            qualified(namespace, m.name),
            import_names(m),
        ) == (k.owners, k.imports),
        k2.registry.manifests.contains_key(qualified(namespace, m.name)),
        k2 == (KernelView { registry: k2.registry, owners: k2.owners, imports: k2.imports, ..k }),
{
    let id = qualified(namespace, m.name);
    let q = with_identity(m, namespace);
    let w = lemma_outcome(k, host, categories, namespace, m, false, survey, k2);
    let edges = survey.edges->Ok_0;
    lemma_registered(k, namespace, m.name, q, false, plans_of(survey), w.1, edges, w.0, host);
    assert(free_of(k.registry, id));
    assert(imports_free_of(k.owners, k.imports, id)) by {
        assert forall|a: Seq<char>| #[trigger] k.owners.contains_key(a) implies k.owners[a]
            != id by {}
    }
    law_unregistering_undoes_registering(
        k,
        namespace,
        m.name,
        q,
        false,
        plans_of(survey),
        w.1,
        edges,
        w.0,
        host,
    );
    assert(import_names(m) == import_names(q));
}

/// Unloading a plugin undoes loading it: the kernel is as it was before, but for the handle that was
/// given out.
#[verifier::rlimit(40)]
pub proof fn law_unloading_undoes_loading<F: Fn(&str) -> Result<(), String>>(
    k: KernelView,
    host: Host,
    categories: Seq<AppPermissionCategory<F>>,
    json: Seq<char>,
    namespace: Seq<char>,
    prep: Preparation,
    handle: ManifestHandle,
    after: KernelView,
)
    requires
        whole(k),
        preparation_fits(prep, namespace),
        classified_text(json, prep.reading) is Ok,
        classified_text(json, prep.reading)->Ok_0 is Plugin,
        load_outcome(k, host, categories, json, namespace, false, prep, Ok(handle), after),
    ensures
        unload_outcome(after, handle.0) == (
            Ok::<(), ErrorView>(()),
            KernelView { next_id: after.next_id, ..k },
        ),
{
    let m = classified_text(json, prep.reading)->Ok_0->Plugin_0;
    let k2 = lemma_loaded_plugin(k, host, categories, json, namespace, prep, handle, after);
    lemma_registration_back(k, host, categories, namespace, m, prep.survey@, k2);
    let h = handle.0;
    lemma_users_back(k, h, role_keys(k2.spi, namespace, m.roles));
    assert(!k.loaded.contains_key(h));
    assert(after.loaded.remove(h) =~= k.loaded);
    assert(after.loaded[h].payload == PayloadView::Plugin(m));
    assert(is_registered(after, after.loaded[h]));
}

/// A manifest that the kernel needs can be neither unloaded nor reloaded.
pub proof fn law_what_the_kernel_needs_stays<F: Fn(&str) -> Result<(), String>>(
    k: KernelView,
    host: Host,
    categories: Seq<AppPermissionCategory<F>>,
    handle: u64,
    json: Seq<char>,
    prep: Preparation,
    back: Rollback,
    r: Result<(), ErrorView>,
    after: KernelView,
)
    requires
        k.loaded.contains_key(handle),
        k.loaded[handle].immutable,
        reload_outcome(k, host, categories, handle, json, prep, back, r, after),
    ensures
        unload_outcome(k, handle).0 is Err,
        unload_outcome(k, handle).1 == k,
        r is Err,
        after == k,
{
}

/// The contract of a role that a loaded plugin fulfils cannot be unloaded.
pub proof fn law_a_contract_in_use_stays(k: KernelView, handle: u64)
    requires
        k.loaded.contains_key(handle),
        k.loaded[handle].payload is SpiDef,
        list_at(k.role_users, k.loaded[handle].identifier).len() > 0,
    ensures
        unload_outcome(k, handle).0 is Err,
        unload_outcome(k, handle).1 == k,
{
}

/// A document that does not meet the schema is not loaded.
pub proof fn law_documents_are_held_to_the_schema<F: Fn(&str) -> Result<(), String>>(
    k: KernelView,
    host: Host,
    categories: Seq<AppPermissionCategory<F>>,
    json: Seq<char>,
    namespace: Seq<char>,
    immutable: bool,
    prep: Preparation,
    r: Result<ManifestHandle, ErrorView>,
    after: KernelView,
)
    requires
        prep.reading.schema is Err,
        load_outcome(k, host, categories, json, namespace, immutable, prep, r, after),
    ensures
        r is Err,
        after == k,
{
}

/// A manifest of a format that the kernel does not speak is not registered; one that names no format
/// is taken to be of the first.
pub proof fn law_only_the_known_format_is_registered<F: Fn(&str) -> Result<(), String>>(
    k: KernelView,
    host: Host,
    categories: Seq<AppPermissionCategory<F>>,
    namespace: Seq<char>,
    m: ManifestView,
    kernel_owned: bool,
    survey: SurveyView,
    r: Result<(), ErrorView>,
    after: KernelView,
)
    requires
        registration_outcome(k, host, categories, namespace, m, kernel_owned, survey, r, after),
    ensures
        r is Ok ==> m.format_version is None || m.format_version == Some(SUPPORTED_FORMAT_VERSION),
        format_fault(ManifestView { format_version: None, ..m }) is None,
{
}

} // verus!
