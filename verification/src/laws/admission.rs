//! What holds of the manifests that are admitted: for each check, which manifests pass it.

use vstd::prelude::*;

use crate::identity::{
    local_part, name_fault, namespace_part, owner_of_impl_ref, step_type_name_fault,
    step_type_reference_fault, NameKind,
};
use crate::json::{lookup, JsonView};
use crate::manifest::{
    ActionView, ManifestView, SecretView, StepTypeDefView, StepTypeImplKind, StepTypeImplView,
    StepView,
};
use crate::manifest_checks::{
    action_fault, actions_fault, alias_fault, aliases_fault, def_names_fault, format_fault,
    impl_names_fault, import_names, imported_types, imports_fault, is_reserved_step_type,
    long_running_step, manifest_names_fault, overridable_secret, repeated_secret, roles_fault,
    secrets_fault,
};
use crate::permissions::PermissionView;
use crate::registration::{
    binding_fault, declares_result, defines, defs_fault, impls_fault, owns_body, prepared_impls,
    source_fault, step_types_fault, Host, PreparedView,
};
use crate::registry::{step_type_key_of, RegistryView};

verus! {

proof fn lemma_roles(plugin: Seq<char>, roles: Seq<Seq<char>>, i: int)
    requires
        0 <= i <= roles.len(),
    ensures
        roles_fault(plugin, roles, i) is None <==> forall|j: int|
            i <= j < roles.len() ==> name_fault(NameKind::Role, #[trigger] roles[j]) is None,
    decreases roles.len() - i,
{
    if i < roles.len() {
        lemma_roles(plugin, roles, i + 1);
    }
}

proof fn lemma_def_names(plugin: Seq<char>, defs: Seq<StepTypeDefView>, kernel_owned: bool, i: int)
    requires
        0 <= i <= defs.len(),
    ensures
        def_names_fault(plugin, defs, kernel_owned, i) is None <==> forall|j: int|
            i <= j < defs.len() ==> step_type_name_fault(
                (#[trigger] defs[j]).name,
                plugin,
                kernel_owned,
            ) is None,
    decreases defs.len() - i,
{
    if i < defs.len() {
        lemma_def_names(plugin, defs, kernel_owned, i + 1);
    }
}

/// The names in a declaration of a body are names.
pub open spec fn names_well(d: StepTypeImplView) -> bool {
    &&& step_type_reference_fault(d.step_type) is None
    &&& d.matches is Some ==> name_fault(NameKind::StepTypeSelector, d.matches->0) is None
}

proof fn lemma_impl_names(plugin: Seq<char>, impls: Seq<StepTypeImplView>, i: int)
    requires
        0 <= i <= impls.len(),
    ensures
        impl_names_fault(plugin, impls, i) is None <==> forall|j: int|
            i <= j < impls.len() ==> names_well(#[trigger] impls[j]),
    decreases impls.len() - i,
{
    if i < impls.len() {
        lemma_impl_names(plugin, impls, i + 1);
    }
}

/// The names of a manifest pass where its own name and those of its roles are names, every step type
/// that it defines stands under its name, and every body that it declares names its step type and its
/// selector well.
pub proof fn law_names_are_held_to_the_grammar(m: ManifestView, kernel_owned: bool)
    ensures
        manifest_names_fault(m, kernel_owned) is None <==> {
            &&& name_fault(NameKind::Plugin, m.name) is None
            &&& forall|j: int|
                0 <= j < m.roles.len() ==> name_fault(NameKind::Role, #[trigger] m.roles[j]) is None
            &&& forall|j: int|
                0 <= j < m.step_type_defs.len() ==> step_type_name_fault(
                    (#[trigger] m.step_type_defs[j]).name,
                    m.name,
                    kernel_owned,
                ) is None
            &&& forall|j: int|
                0 <= j < m.step_type_impls.len() ==> names_well(#[trigger] m.step_type_impls[j])
        },
{
    lemma_roles(m.name, m.roles, 0);
    lemma_def_names(m.name, m.step_type_defs, kernel_owned, 0);
    lemma_impl_names(m.name, m.step_type_impls, 0);
}

/// A manifest passes that declares no format, or the first.
pub proof fn law_the_first_format_is_the_known_one(m: ManifestView)
    ensures
        format_fault(m) is None <==> m.format_version is None || m.format_version->0 == 1,
{
}

proof fn lemma_repeated(secrets: Seq<SecretView>, i: int)
    requires
        0 <= i <= secrets.len(),
    ensures
        repeated_secret(secrets, i) is None <==> forall|a: int, b: int|
            0 <= a < b < secrets.len() && i <= b ==> (#[trigger] secrets[a]).key != (
            #[trigger] secrets[b]).key,
    decreases secrets.len() - i,
{
    if i < secrets.len() {
        lemma_repeated(secrets, i + 1);
        if exists|j: int| 0 <= j < i && (#[trigger] secrets[j]).key == secrets[i].key {
            let j = choose|j: int| 0 <= j < i && (#[trigger] secrets[j]).key == secrets[i].key;
            assert(secrets[j].key == secrets[i].key);
        }
    }
}

proof fn lemma_overridable(secrets: Seq<SecretView>, i: int)
    requires
        0 <= i <= secrets.len(),
    ensures
        overridable_secret(secrets, i) is None <==> forall|j: int|
            i <= j < secrets.len() ==> !(#[trigger] secrets[j]).overridable,
    decreases secrets.len() - i,
{
    if i < secrets.len() {
        lemma_overridable(secrets, i + 1);
    }
}

/// The secrets of a manifest pass where no key is declared twice, and none is marked overridable by a
/// manifest outside the root.
pub proof fn law_a_secret_is_declared_once(m: ManifestView, namespace: Seq<char>)
    ensures
        secrets_fault(m, namespace) is None <==> {
            &&& forall|a: int, b: int|
                0 <= a < b < m.uses_secrets.len() ==> (#[trigger] m.uses_secrets[a]).key != (
                #[trigger] m.uses_secrets[b]).key
            &&& namespace.len() > 0 ==> forall|j: int|
                0 <= j < m.uses_secrets.len() ==> !(#[trigger] m.uses_secrets[j]).overridable
        },
{
    lemma_repeated(m.uses_secrets, 0);
    lemma_overridable(m.uses_secrets, 0);
}

/// An alias passes where it stands under the name of its plugin and is none of the kernel's, and an
/// action of the plugin is its target, and nobody has it already.
pub open spec fn alias_well(
    plugin: Seq<char>,
    local: Seq<char>,
    m: ManifestView,
    registry: RegistryView,
    kernel_owned: bool,
    e: (Seq<char>, Seq<char>),
) -> bool {
    &&& step_type_name_fault(e.0, local, kernel_owned) is None
    &&& !is_reserved_step_type(e.0)
    &&& exists|k: int| 0 <= k < m.actions.len() && (#[trigger] m.actions[k]).0 == e.1
    &&& !registry.aliases.contains_key(step_type_key_of(plugin, e.0))
}

proof fn lemma_aliases(
    plugin: Seq<char>,
    local: Seq<char>,
    m: ManifestView,
    registry: RegistryView,
    kernel_owned: bool,
    i: int,
)
    requires
        0 <= i <= m.step_types.len(),
    ensures
        aliases_fault(plugin, local, m, registry, kernel_owned, i) is None <==> forall|j: int|
            i <= j < m.step_types.len() ==> alias_well(
                plugin,
                local,
                m,
                registry,
                kernel_owned,
                #[trigger] m.step_types[j],
            ),
    decreases m.step_types.len() - i,
{
    if i < m.step_types.len() {
        lemma_aliases(plugin, local, m, registry, kernel_owned, i + 1);
        let e = m.step_types[i];
        assert(alias_fault(plugin, local, m, registry, kernel_owned, e.0, e.1) is None
            <==> alias_well(plugin, local, m, registry, kernel_owned, e));
    }
}

/// The aliases of a manifest pass where each of them does.
pub proof fn law_an_alias_is_the_plugins_own_and_free(
    plugin: Seq<char>,
    local: Seq<char>,
    m: ManifestView,
    registry: RegistryView,
    kernel_owned: bool,
)
    ensures
        aliases_fault(plugin, local, m, registry, kernel_owned, 0) is None <==> forall|j: int|
            0 <= j < m.step_types.len() ==> alias_well(
                plugin,
                local,
                m,
                registry,
                kernel_owned,
                #[trigger] m.step_types[j],
            ),
{
    lemma_aliases(plugin, local, m, registry, kernel_owned, 0);
}

proof fn lemma_imported(impls: Seq<StepTypeImplView>, t: Seq<char>)
    ensures
        imported_types(impls).contains(t) <==> exists|j: int|
            0 <= j < impls.len() && (#[trigger] impls[j]).step_type == t && impls[j].kind
                != StepTypeImplKind::Wasm,
    decreases impls.len(),
{
    if impls.len() > 0 {
        let rest = impls.drop_last();
        lemma_imported(rest, t);
        let all = imported_types(impls);
        let before = imported_types(rest);
        assert(impls[impls.len() - 1] == impls.last());
        if before.contains(t) {
            let k = choose|k: int| 0 <= k < before.len() && before[k] == t;
            assert(all[k] == t);
            let j = choose|j: int|
                0 <= j < rest.len() && (#[trigger] rest[j]).step_type == t && rest[j].kind
                    != StepTypeImplKind::Wasm;
            assert(impls[j] == rest[j]);
        }
        if impls.last().kind != StepTypeImplKind::Wasm {
            assert(all[before.len() as int] == impls.last().step_type);
        }
        if all.contains(t) {
            let k = choose|k: int| 0 <= k < all.len() && all[k] == t;
            if k < before.len() {
                assert(before[k] == t);
            }
        }
        if exists|j: int|
            0 <= j < impls.len() && (#[trigger] impls[j]).step_type == t && impls[j].kind
                != StepTypeImplKind::Wasm {
            let j = choose|j: int|
                0 <= j < impls.len() && (#[trigger] impls[j]).step_type == t && impls[j].kind
                    != StepTypeImplKind::Wasm;
            if j < rest.len() {
                assert(rest[j] == impls[j]);
            }
        }
    }
}

/// What a manifest puts into the import table: the step types whose bodies are compiled in, and its
/// aliases; what a module implements is found by its selector and is not there.
pub proof fn law_what_is_linked_is_imported(m: ManifestView, t: Seq<char>)
    ensures
        import_names(m).contains(t) <==> (exists|j: int|
            0 <= j < m.step_type_impls.len() && (#[trigger] m.step_type_impls[j]).step_type == t
                && m.step_type_impls[j].kind != StepTypeImplKind::Wasm) || (exists|j: int|
            0 <= j < m.step_types.len() && (#[trigger] m.step_types[j]).0 == t),
{
    lemma_imported(m.step_type_impls, t);
    let a = imported_types(m.step_type_impls);
    let b = m.step_types.map_values(|e: (Seq<char>, Seq<char>)| e.0);
    let all = a + b;
    if a.contains(t) {
        let k = choose|k: int| 0 <= k < a.len() && a[k] == t;
        assert(all[k] == t);
    }
    if exists|j: int| 0 <= j < m.step_types.len() && (#[trigger] m.step_types[j]).0 == t {
        let j = choose|j: int| 0 <= j < m.step_types.len() && (#[trigger] m.step_types[j]).0 == t;
        assert(b[j] == t);
        assert(all[a.len() + j] == t);
    }
    if all.contains(t) {
        let k = choose|k: int| 0 <= k < all.len() && all[k] == t;
        if k < a.len() {
            assert(a[k] == t);
        } else {
            assert(b[k - a.len()] == t);
            assert(m.step_types[k - a.len()].0 == t);
        }
    }
}

proof fn lemma_imports(
    plugin: Seq<char>,
    names: Seq<Seq<char>>,
    owners: Map<Seq<char>, Seq<char>>,
    i: int,
)
    requires
        0 <= i <= names.len(),
    ensures
        imports_fault(plugin, names, owners, i) is None <==> {
            &&& forall|b: int|
                i <= b < names.len() ==> (owners.contains_key(
                    step_type_key_of(plugin, #[trigger] names[b]),
                ) ==> owners[step_type_key_of(plugin, names[b])] == plugin)
            &&& forall|a: int, b: int|
                0 <= a < b < names.len() && i <= b ==> step_type_key_of(
                    plugin,
                    #[trigger] names[a],
                ) != step_type_key_of(plugin, #[trigger] names[b])
        },
    decreases names.len() - i,
{
    if i < names.len() {
        lemma_imports(plugin, names, owners, i + 1);
        let key = step_type_key_of(plugin, names[i]);
        if exists|j: int| 0 <= j < i && step_type_key_of(plugin, #[trigger] names[j]) == key {
            let j = choose|j: int|
                0 <= j < i && step_type_key_of(plugin, #[trigger] names[j]) == key;
            assert(step_type_key_of(plugin, names[j]) == step_type_key_of(plugin, names[i]));
        }
    }
}

/// The imports of a manifest pass where none of them is another plugin's, and no two of them are one.
pub proof fn law_an_import_is_claimed_once(
    plugin: Seq<char>,
    names: Seq<Seq<char>>,
    owners: Map<Seq<char>, Seq<char>>,
)
    ensures
        imports_fault(plugin, names, owners, 0) is None <==> {
            &&& forall|b: int|
                0 <= b < names.len() ==> (owners.contains_key(
                    step_type_key_of(plugin, #[trigger] names[b]),
                ) ==> owners[step_type_key_of(plugin, names[b])] == plugin)
            &&& forall|a: int, b: int|
                0 <= a < b < names.len() ==> step_type_key_of(plugin, #[trigger] names[a])
                    != step_type_key_of(plugin, #[trigger] names[b])
        },
{
    lemma_imports(plugin, names, owners, 0);
}

proof fn lemma_long_running(steps: Seq<StepView>, i: int)
    requires
        0 <= i <= steps.len(),
    ensures
        long_running_step(steps, i) is None <==> forall|j: int|
            i <= j < steps.len() ==> !(#[trigger] steps[j]).long_running,
    decreases steps.len() - i,
{
    if i < steps.len() {
        lemma_long_running(steps, i + 1);
    }
}

/// An action passes where it is a pipeline exactly if one of its steps is long-running, is not both a
/// pipeline and continuous, and has no deadline of zero.
pub open spec fn action_well(a: ActionView) -> bool {
    &&& !(a.dataflow && a.continuous)
    &&& a.dataflow <==> exists|j: int| 0 <= j < a.steps.len() && (#[trigger] a.steps[j]).long_running
    &&& a.wallclock_timeout_ms != Some(0u64)
}

/// An action of a manifest passes where it is well formed.
pub proof fn law_a_pipeline_has_a_long_running_step(
    plugin: Seq<char>,
    name: Seq<char>,
    a: ActionView,
)
    ensures
        action_fault(plugin, name, a) is None <==> action_well(a),
{
    lemma_long_running(a.steps, 0);
}

/// The actions of a manifest pass where each of them does.
pub proof fn law_every_action_is_checked(
    plugin: Seq<char>,
    actions: Seq<(Seq<char>, ActionView)>,
    i: int,
)
    requires
        0 <= i <= actions.len(),
    ensures
        actions_fault(plugin, actions, i) is None <==> forall|j: int|
            i <= j < actions.len() ==> action_well((#[trigger] actions[j]).1),
    decreases actions.len() - i,
{
    if i < actions.len() {
        law_every_action_is_checked(plugin, actions, i + 1);
        law_a_pipeline_has_a_long_running_step(plugin, actions[i].0, actions[i].1);
    }
}

/// A body belongs to a plugin of the root whose name is the middle segment of its implRef, and to no
/// plugin of a namespace.
pub proof fn law_a_body_belongs_to_a_plugin_of_the_root(
    plugin: Seq<char>,
    impl_ref: Seq<char>,
    step_type: Seq<char>,
)
    ensures
        owns_body(plugin, impl_ref) <==> namespace_part(plugin).len() == 0 && owner_of_impl_ref(
            impl_ref,
        ) == Some(local_part(plugin)),
        namespace_part(plugin).len() > 0 ==> binding_fault(
            plugin,
            step_type,
            impl_ref,
            Seq::empty(),
            Seq::empty(),
        ) is Some,
{
}

/// A definition passes where its schema leaves the key `result` alone and nobody has defined it.
pub open spec fn def_well(plugin: Seq<char>, registry: RegistryView, d: StepTypeDefView) -> bool {
    &&& !declares_result(d.metadata_schema)
    &&& !registry.step_type_defs.contains_key(step_type_key_of(plugin, d.name))
}

proof fn lemma_defs(
    plugin: Seq<char>,
    defs: Seq<StepTypeDefView>,
    registry: RegistryView,
    i: int,
)
    requires
        0 <= i <= defs.len(),
    ensures
        defs_fault(plugin, defs, registry, i) is None <==> {
            &&& forall|j: int|
                i <= j < defs.len() ==> def_well(plugin, registry, #[trigger] defs[j])
            &&& forall|a: int, b: int|
                0 <= a < b < defs.len() && i <= b ==> (#[trigger] defs[a]).name != (
                #[trigger] defs[b]).name
        },
    decreases defs.len() - i,
{
    if i < defs.len() {
        lemma_defs(plugin, defs, registry, i + 1);
        if exists|j: int| 0 <= j < i && (#[trigger] defs[j]).name == defs[i].name {
            let j = choose|j: int| 0 <= j < i && (#[trigger] defs[j]).name == defs[i].name;
            assert(defs[j].name == defs[i].name);
        }
    }
}

/// The definitions of a manifest pass where each of them does and no two have one name.
pub proof fn law_a_step_type_is_defined_once(
    plugin: Seq<char>,
    defs: Seq<StepTypeDefView>,
    registry: RegistryView,
)
    ensures
        defs_fault(plugin, defs, registry, 0) is None <==> {
            &&& forall|j: int|
                0 <= j < defs.len() ==> def_well(plugin, registry, #[trigger] defs[j])
            &&& forall|a: int, b: int|
                0 <= a < b < defs.len() ==> (#[trigger] defs[a]).name != (#[trigger] defs[b]).name
        },
{
    lemma_defs(plugin, defs, registry, 0);
}

/// The key `result` is a step's value and no schema declares it beside the value.
pub proof fn law_a_schema_leaves_the_result_alone(
    schema: JsonView,
    props: Seq<(Seq<char>, JsonView)>,
)
    ensures
        schema.get("properties"@) == Some(JsonView::Object(props)) ==> (declares_result(Some(schema))
            <==> lookup(props, "result"@) is Some),
        !declares_result(None),
{
}

/// Where a body comes from is told well: a module by a name that the manifest declares, in a slot that
/// nobody has; a compiled-in body by an implRef that was submitted and that the plugin may bind; a body
/// of the engine by an implRef of the engine. Nothing else is set beside it.
pub open spec fn source_well(
    plugin: Seq<char>,
    m: ManifestView,
    d: StepTypeImplView,
    registry: RegistryView,
    grants: Seq<PermissionView>,
    host: Host,
) -> bool {
    match d.kind {
        StepTypeImplKind::Wasm => {
            &&& d.wasm_module is Some
            &&& d.impl_ref is None
            &&& exists|k: int|
                0 <= k < m.wasm_modules.len() && (#[trigger] m.wasm_modules[k]).0
                    == d.wasm_module->0
            &&& !registry.step_type_impls.contains_key(
                (step_type_key_of(plugin, d.step_type), d.matches),
            )
        },
        StepTypeImplKind::Native => {
            &&& d.impl_ref is Some
            &&& d.wasm_module is None
            &&& d.matches is None
            &&& host.natives.contains_key(d.impl_ref->0)
            &&& (namespace_part(plugin).len() == 0 && owner_of_impl_ref(d.impl_ref->0) == Some(
                local_part(plugin),
            )) || (grants.contains(PermissionView::BindNativeImpl(d.impl_ref->0))
                && host.bindings.contains((plugin, d.impl_ref->0)))
        },
        StepTypeImplKind::Intrinsic => {
            &&& d.impl_ref is Some
            &&& d.wasm_module is None
            &&& d.matches is None
            &&& host.intrinsics.contains_key(d.impl_ref->0)
        },
    }
}

/// The source of a body passes where it is told well.
pub proof fn law_a_body_comes_from_where_it_is_told(
    plugin: Seq<char>,
    m: ManifestView,
    d: StepTypeImplView,
    registry: RegistryView,
    grants: Seq<PermissionView>,
    host: Host,
)
    ensures
        source_fault(plugin, m, d, registry, grants, host) is None <==> source_well(
            plugin,
            m,
            d,
            registry,
            grants,
            host,
        ),
{
}

/// A body that a manifest declares passes where its step type is defined, by the manifest or by what is
/// registered; where the manifest does not define it, the manifest asks for that very slot and the
/// embedder trusts the plugin; and it comes from where it is told.
pub open spec fn impl_well(
    plugin: Seq<char>,
    m: ManifestView,
    registry: RegistryView,
    grants: Seq<PermissionView>,
    host: Host,
    d: StepTypeImplView,
) -> bool {
    let local = exists|j: int|
        0 <= j < m.step_type_defs.len() && (#[trigger] m.step_type_defs[j]).name == d.step_type;
    &&& local || registry.step_type_defs.contains_key(step_type_key_of(plugin, d.step_type))
    &&& local || (grants.contains(
        PermissionView::ProvideStepType { step_type: d.step_type, selector: d.matches },
    ) && host.trusted.contains(plugin))
    &&& source_well(plugin, m, d, registry, grants, host)
}

proof fn lemma_impls(
    plugin: Seq<char>,
    m: ManifestView,
    registry: RegistryView,
    grants: Seq<PermissionView>,
    host: Host,
    i: int,
)
    requires
        0 <= i <= m.step_type_impls.len(),
    ensures
        impls_fault(plugin, m, registry, grants, host, i) is None <==> {
            &&& forall|j: int|
                i <= j < m.step_type_impls.len() ==> impl_well(
                    plugin,
                    m,
                    registry,
                    grants,
                    host,
                    #[trigger] m.step_type_impls[j],
                )
            &&& forall|a: int, b: int|
                0 <= a < b < m.step_type_impls.len() && i <= b ==> (
                #[trigger] m.step_type_impls[a]).step_type != (
                #[trigger] m.step_type_impls[b]).step_type || m.step_type_impls[a].matches
                    != m.step_type_impls[b].matches
        },
    decreases m.step_type_impls.len() - i,
{
    let impls = m.step_type_impls;
    if i < impls.len() {
        lemma_impls(plugin, m, registry, grants, host, i + 1);
        let d = impls[i];
        law_a_body_comes_from_where_it_is_told(plugin, m, d, registry, grants, host);
        assert(defines(m.step_type_defs, d.step_type) <==> exists|j: int|
            0 <= j < m.step_type_defs.len() && (#[trigger] m.step_type_defs[j]).name
                == d.step_type);
        if exists|j: int|
            0 <= j < i && (#[trigger] impls[j]).step_type == d.step_type && impls[j].matches
                == d.matches {
            let j = choose|j: int|
                0 <= j < i && (#[trigger] impls[j]).step_type == d.step_type && impls[j].matches
                    == d.matches;
            assert(impls[j].step_type == impls[i].step_type);
        }
    }
}

/// The step types of a manifest pass where its definitions do, each of its bodies does, and no two
/// bodies are for one slot.
pub proof fn law_step_types_are_admitted_by_their_parts(
    m: ManifestView,
    registry: RegistryView,
    grants: Seq<PermissionView>,
    host: Host,
)
    ensures
        step_types_fault(m, registry, grants, host) is None <==> {
            &&& forall|j: int|
                0 <= j < m.step_type_defs.len() ==> def_well(
                    m.name,
                    registry,
                    #[trigger] m.step_type_defs[j],
                )
            &&& forall|a: int, b: int|
                0 <= a < b < m.step_type_defs.len() ==> (#[trigger] m.step_type_defs[a]).name != (
                #[trigger] m.step_type_defs[b]).name
            &&& forall|j: int|
                0 <= j < m.step_type_impls.len() ==> impl_well(
                    m.name,
                    m,
                    registry,
                    grants,
                    host,
                    #[trigger] m.step_type_impls[j],
                )
            &&& forall|a: int, b: int|
                0 <= a < b < m.step_type_impls.len() ==> (
                #[trigger] m.step_type_impls[a]).step_type != (
                #[trigger] m.step_type_impls[b]).step_type || m.step_type_impls[a].matches
                    != m.step_type_impls[b].matches
        },
{
    lemma_defs(m.name, m.step_type_defs, registry, 0);
    lemma_impls(m.name, m, registry, grants, host, 0);
}

/// Every body of a manifest is prepared, in their order, as what was found for it: the module that it
/// names, or the body that was submitted under its implRef.
pub proof fn law_every_body_is_prepared_as_it_was_found(
    impls: Seq<StepTypeImplView>,
    host: Host,
    i: int,
)
    requires
        0 <= i < impls.len(),
    ensures
        prepared_impls(impls, host).len() == impls.len(),
        match prepared_impls(impls, host)[i] {
            PreparedView::Wasm { step_type, matches, wasm_module } => {
                &&& impls[i].kind == StepTypeImplKind::Wasm
                &&& step_type == impls[i].step_type
                &&& matches == impls[i].matches
                &&& impls[i].wasm_module is Some ==> impls[i].wasm_module == Some(wasm_module)
            },
            PreparedView::Native { step_type, body } => {
                &&& impls[i].kind == StepTypeImplKind::Native
                &&& step_type == impls[i].step_type
                &&& impls[i].impl_ref is Some ==> body == host.natives[impls[i].impl_ref->0]
            },
            PreparedView::Intrinsic { step_type, body } => {
                &&& impls[i].kind == StepTypeImplKind::Intrinsic
                &&& step_type == impls[i].step_type
                &&& impls[i].impl_ref is Some ==> body == host.intrinsics[impls[i].impl_ref->0]
            },
        },
{
}

} // verus!
