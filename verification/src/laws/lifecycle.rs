//! What holds of the life of a manifest: how it is registered, loaded, unloaded and reloaded.

use vstd::prelude::*;

use crate::classify::{classified_text, ClassifiedView};
use crate::config::{settled_limits, KernelConfig};
use crate::error::{ErrorView, KernelError};
use crate::identity::{name_fault, namespace_fault, qualified, NameKind};
use crate::json::{json_parsed, JsonView};
use crate::kernel::boot::{
    bare_kernel, boot_outcome, booting_host, categories_fault, document_fault, intrinsic_bindings,
    spi_fault,
};
use crate::kernel::cycles::has_cycle;
use crate::kernel::lifecycle::{
    dependents, document_outcome, load_outcome, other_than, reload_outcome, rollback_outcome,
    tracked_users,
    unload_outcome, with_record, ManifestHandle, Preparation, Rollback,
};
use crate::kernel::{
    contents_fault, contents_outcome, end_outcome, error_of, identity_fault, last_fault,
    permission_text, plans_fault, plans_of, refused_with, registered, registration_outcome,
    shapes_fault, with_identity, Kernel, KernelView, PayloadView, RecordView, SurveyView,
};
use crate::laws::contents::{law_aliases_roles_and_events_lead_to_the_plugin, Compiled};
use crate::manifest::{ActionView, ManifestView, PlanView};
use crate::manifest_checks::{
    actions_fault, aliases_fault, format_fault, import_names, imports_fault, manifest_names_fault,
    secrets_fault,
};
use crate::native_impls::{
    entry_views, gathered, intrinsic_views, topped_up, IntrinsicStepImplEntry, NativeStepImplEntry,
};
use crate::permissions::{
    category_name_fault, permissions_outcome, AppPermissionCategory, PermissionFault,
    PermissionView,
};
use crate::registration::{step_types_fault, Host};
use crate::registry::{at, list_at, EdgeView};
use crate::spi::role_keys;
use crate::step_shapes::{lists_languages, steps_fault};
use crate::wasm_modules::modules_outcome;
use crate::wasm_runtime::BodyId;

verus! {

proof fn lemma_plans(
    plugin: Seq<char>,
    actions: Seq<(Seq<char>, ActionView)>,
    plans: Seq<Result<PlanView, Seq<char>>>,
    i: int,
)
    requires
        0 <= i <= actions.len(),
    ensures
        plans_fault(plugin, actions, plans, i) is None <==> forall|j: int|
            i <= j < actions.len() ==> (#[trigger] plans[j]) is Ok,
    decreases actions.len() - i,
{
    if i < actions.len() {
        lemma_plans(plugin, actions, plans, i + 1);
    }
}

proof fn lemma_shapes(
    plugin: Seq<char>,
    actions: Seq<(Seq<char>, ActionView)>,
    languages: Seq<Seq<char>>,
    i: int,
)
    requires
        0 <= i <= actions.len(),
    ensures
        shapes_fault(plugin, actions, languages, i) is None <==> forall|j: int|
            i <= j < actions.len() ==> steps_fault(
                (#[trigger] actions[j]).0,
                actions[j].1.steps,
                0,
                languages,
            ) is None,
    decreases actions.len() - i,
{
    if i < actions.len() {
        lemma_shapes(plugin, actions, languages, i + 1);
    }
}

/// What a manifest is held to: its namespace, its format, its names and its secrets are well, nobody is
/// registered under its identity, and it meets the contracts of its roles; and then its aliases, its
/// imports, its actions, the plans of them and their steps are well.
pub proof fn law_a_manifest_is_held_to_every_check(
    k: KernelView,
    namespace: Seq<char>,
    m: ManifestView,
    kernel_owned: bool,
    survey: SurveyView,
    languages: Seq<Seq<char>>,
)
    ensures
        identity_fault(k, namespace, m, kernel_owned, survey) is None <==> {
            &&& namespace_fault(namespace) is None
            &&& format_fault(m) is None
            &&& manifest_names_fault(m, kernel_owned) is None
            &&& secrets_fault(m, namespace) is None
            &&& !k.registry.manifests.contains_key(qualified(namespace, m.name))
            &&& survey.contract_errors.len() == 0
        },
        contents_fault(k, m.name, m, kernel_owned, survey, languages) is None <==> {
            &&& aliases_fault(m.name, m.name, m, k.registry, kernel_owned, 0) is None
            &&& imports_fault(m.name, import_names(m), k.owners, 0) is None
            &&& actions_fault(m.name, m.actions, 0) is None
            &&& forall|j: int| 0 <= j < m.actions.len() ==> (#[trigger] survey.plans[j]) is Ok
            &&& forall|j: int|
                0 <= j < m.actions.len() ==> steps_fault(
                    (#[trigger] m.actions[j]).0,
                    m.actions[j].1.steps,
                    0,
                    languages,
                ) is None
        },
{
    lemma_plans(m.name, m.actions, survey.plans, 0);
    lemma_shapes(m.name, m.actions, languages, 0);
}

/// The last checks pass where the modules compiled, the edges could be told, no cycle is closed and the
/// step types are well.
pub proof fn law_the_last_checks_are_made(
    k: KernelView,
    q: ManifestView,
    modules: Option<Seq<char>>,
    edges: Result<Seq<EdgeView>, Seq<char>>,
    grants: Seq<PermissionView>,
    host: Host,
)
    ensures
        last_fault(k, q, modules, edges, grants, host) is None <==> {
            &&& modules is None
            &&& edges is Ok
            &&& !has_cycle(k.registry.invoke_edges + edges->Ok_0)
            &&& step_types_fault(q, k.registry, grants, host) is None
        },
        modules is Some ==> last_fault(k, q, modules, edges, grants, host) == modules,
{
}

/// What can come of a registration that succeeds: the manifest passed every check, the plugin has the
/// grants that its permissions say and the plans that were made for its actions, and its modules are
/// those that its manifest spells.
pub proof fn law_a_registration_takes_what_was_read<F: Fn(&str) -> Result<(), String>>(
    k: KernelView,
    host: Host,
    categories: Seq<AppPermissionCategory<F>>,
    namespace: Seq<char>,
    m: ManifestView,
    kernel_owned: bool,
    survey: SurveyView,
    after: KernelView,
) -> (w: (Seq<PermissionView>, Seq<(Seq<char>, Compiled)>))
    requires
        registration_outcome(
            k,
            host,
            categories,
            namespace,
            m,
            kernel_owned,
            survey,
            Ok(()),
            after,
        ),
    ensures
        identity_fault(k, namespace, m, kernel_owned, survey) is None,
        permissions_outcome(m.permissions, categories, Ok(w.0)),
        modules_outcome(qualified(namespace, m.name), m.wasm_modules, Ok(w.1)),
        survey.edges is Ok,
        step_types_fault(with_identity(m, namespace), k.registry, w.0, host) is None,
        after == registered(
            k,
            namespace,
            with_identity(m, namespace),
            plans_of(survey),
            w.1,
            survey.edges->Ok_0,
            w.0,
            host,
        ),
        after.registry.permissions.contains_key(qualified(namespace, m.name)),
        after.registry.permissions[qualified(namespace, m.name)] == w.0,
        exists|languages: Seq<Seq<char>>| #[trigger]
            lists_languages(languages, k.registry, m.step_type_impls) && contents_fault(
                k,
                m.name,
                with_identity(m, namespace),
                kernel_owned,
                survey,
                languages,
            ) is None,
{
    let q = with_identity(m, namespace);
    let ok: Result<(), ErrorView> = Ok(());
    let read = choose|read: Result<Seq<PermissionView>, PermissionFault>|
        {
            &&& #[trigger] permissions_outcome(m.permissions, categories, read)
            &&& match read {
                Err(e) => refused_with(
                    k,
                    ok,
                    after,
                    permission_text(qualified(namespace, m.name), e),
                ),
                Ok(grants) => contents_outcome(
                    k,
                    host,
                    namespace,
                    m,
                    kernel_owned,
                    survey,
                    grants,
                    ok,
                    after,
                ),
            }
        };
    let grants = read->Ok_0;
    let languages = choose|languages: Seq<Seq<char>>|
        {
            &&& #[trigger] lists_languages(languages, k.registry, q.step_type_impls)
            &&& match contents_fault(k, m.name, q, kernel_owned, survey, languages) {
                Some(e) => refused_with(k, ok, after, e),
                None => end_outcome(k, host, namespace, q, survey, grants, ok, after),
            }
        };
    let modules = choose|modules: Result<Seq<(Seq<char>, Compiled)>, Seq<char>>|
        {
            &&& #[trigger] modules_outcome(q.name, q.wasm_modules, modules)
            &&& match last_fault(k, q, error_of(modules), survey.edges, grants, host) {
                Some(e) => refused_with(k, ok, after, e),
                None => ok is Ok && after == registered(
                    k,
                    namespace,
                    q,
                    plans_of(survey),
                    modules->Ok_0,
                    survey.edges->Ok_0,
                    grants,
                    host,
                ),
            }
        };
    law_aliases_roles_and_events_lead_to_the_plugin(
        k,
        namespace,
        q,
        plans_of(survey),
        modules->Ok_0,
        survey.edges->Ok_0,
        grants,
        host,
        0,
        Seq::empty(),
        Seq::empty(),
    );
    (grants, modules->Ok_0)
}

/// A manifest that passes every check, brings no module and asks for no permission is registered,
/// whatever the machine.
pub proof fn law_a_faultless_manifest_is_registered<F: Fn(&str) -> Result<(), String>>(
    k: KernelView,
    host: Host,
    categories: Seq<AppPermissionCategory<F>>,
    namespace: Seq<char>,
    m: ManifestView,
    kernel_owned: bool,
    survey: SurveyView,
    r: Result<(), ErrorView>,
    after: KernelView,
)
    requires
        registration_outcome(
            k,
            host,
            categories,
            namespace,
            m,
            kernel_owned,
            survey,
            r,
            after,
        ),
        m.permissions.len() == 0,
        m.wasm_modules.len() == 0,
        identity_fault(k, namespace, m, kernel_owned, survey) is None,
        forall|languages: Seq<Seq<char>>| #[trigger]
            lists_languages(languages, k.registry, m.step_type_impls) ==> contents_fault(
                k,
                m.name,
                with_identity(m, namespace),
                kernel_owned,
                survey,
                languages,
            ) is None,
        survey.edges is Ok,
        !has_cycle(k.registry.invoke_edges + survey.edges->Ok_0),
        step_types_fault(with_identity(m, namespace), k.registry, Seq::empty(), host) is None,
    ensures
        r is Ok,
{
    let q = with_identity(m, namespace);
    let read = choose|read: Result<Seq<PermissionView>, PermissionFault>|
        {
            &&& #[trigger] permissions_outcome(m.permissions, categories, read)
            &&& match read {
                Err(e) => refused_with(
                    k,
                    r,
                    after,
                    permission_text(qualified(namespace, m.name), e),
                ),
                Ok(grants) => contents_outcome(
                    k,
                    host,
                    namespace,
                    m,
                    kernel_owned,
                    survey,
                    grants,
                    r,
                    after,
                ),
            }
        };
    assert(read is Ok);
    let grants = read->Ok_0;
    assert(grants =~= Seq::empty());
    let languages = choose|languages: Seq<Seq<char>>|
        {
            &&& #[trigger] lists_languages(languages, k.registry, q.step_type_impls)
            &&& match contents_fault(k, m.name, q, kernel_owned, survey, languages) {
                Some(e) => refused_with(k, r, after, e),
                None => end_outcome(k, host, namespace, q, survey, grants, r, after),
            }
        };
    assert(lists_languages(languages, k.registry, m.step_type_impls));
    let modules = choose|modules: Result<Seq<(Seq<char>, Compiled)>, Seq<char>>|
        {
            &&& #[trigger] modules_outcome(q.name, q.wasm_modules, modules)
            &&& match last_fault(k, q, error_of(modules), survey.edges, grants, host) {
                Some(e) => refused_with(k, r, after, e),
                None => r is Ok && after == registered(
                    k,
                    namespace,
                    q,
                    plans_of(survey),
                    modules->Ok_0,
                    survey.edges->Ok_0,
                    grants,
                    host,
                ),
            }
        };
    assert(modules is Ok);
}

/// The plans of a survey are those that were made for the actions, in their order.
pub proof fn law_plans_are_those_that_were_made(survey: SurveyView, i: int)
    requires
        0 <= i < survey.plans.len(),
        survey.plans[i] is Ok,
    ensures
        plans_of(survey).len() == survey.plans.len(),
        survey.plans[i] == Ok::<PlanView, Seq<char>>(plans_of(survey)[i]),
{
}

proof fn lemma_tracked(
    users: Map<Seq<char>, Seq<u64>>,
    handle: u64,
    keys: Seq<Seq<char>>,
    key: Seq<char>,
    h: u64,
)
    ensures
        list_at(tracked_users(users, handle, keys), key).contains(h) <==> list_at(
            users,
            key,
        ).contains(h) || (h == handle && keys.contains(key)),
    decreases keys.len(),
{
    if keys.len() > 0 {
        let rest = keys.drop_last();
        lemma_tracked(users, handle, rest, key, h);
        let before = list_at(tracked_users(users, handle, rest), key);
        assert(keys[keys.len() - 1] == keys.last());
        if rest.contains(key) {
            let i = choose|i: int| 0 <= i < rest.len() && rest[i] == key;
            assert(keys[i] == key);
        }
        if keys.contains(key) && key != keys.last() {
            let i = choose|i: int| 0 <= i < keys.len() && keys[i] == key;
            assert(rest[i] == key);
        }
        if key == keys.last() && !before.contains(handle) {
            let list = before.push(handle);
            assert(list[before.len() as int] == handle);
            if before.contains(h) {
                let i = choose|i: int| 0 <= i < before.len() && before[i] == h;
                assert(list[i] == h);
            }
            if list.contains(h) {
                let i = choose|i: int| 0 <= i < list.len() && list[i] == h;
                if i < before.len() {
                    assert(before[i] == h);
                }
            }
        }
    }
}

/// A manifest that was loaded is known by a handle that was not given out before, with its identity, its
/// namespace and the document that it was loaded from, and is marked as one that stays where it was
/// loaded so; other handles are as they were. A contract is filed under the name that it declares,
/// qualified by its namespace, and a plugin uses the contract of each of its roles.
pub proof fn law_a_loaded_manifest_is_known_by_its_handle<F: Fn(&str) -> Result<(), String>>(
    k: KernelView,
    host: Host,
    categories: Seq<AppPermissionCategory<F>>,
    json: Seq<char>,
    namespace: Seq<char>,
    immutable: bool,
    prep: Preparation,
    handle: ManifestHandle,
    after: KernelView,
    other: u64,
    key: Seq<char>,
)
    requires
        load_outcome(k, host, categories, json, namespace, immutable, prep, Ok(handle), after),
        other != handle.0,
    ensures
        handle.0 == k.next_id,
        after.next_id > handle.0 || handle.0 == u64::MAX,
        after.loaded.contains_key(handle.0),
        after.loaded[handle.0].namespace == namespace,
        after.loaded[handle.0].immutable == immutable,
        k.loaded.contains_key(other) ==> after.loaded.contains_key(other) && after.loaded[other]
            == k.loaded[other],
        !k.loaded.contains_key(other) ==> !after.loaded.contains_key(other),
        classified_text(json, prep.reading) is Ok,
        match classified_text(json, prep.reading)->Ok_0 {
            ClassifiedView::SpiDef { role } => {
                let id = qualified(namespace, role);
                &&& after.loaded[handle.0].identifier == id
                &&& after.loaded[handle.0].payload == PayloadView::SpiDef(json)
                &&& after.spi.contains_key(id) && after.spi[id] == json
                &&& key != id ==> at(after.spi, key) == at(k.spi, key)
                &&& after.registry == k.registry
                &&& after.role_users == k.role_users
            },
            ClassifiedView::Plugin(m) => {
                let id = qualified(namespace, m.name);
                &&& after.loaded[handle.0].identifier == id
                &&& after.loaded[handle.0].payload == PayloadView::Plugin(m)
                &&& after.registry.manifests.contains_key(id)
                &&& after.registry.manifests[id] == with_identity(m, namespace)
                &&& after.spi == k.spi
                &&& list_at(after.role_users, key).contains(handle.0) <==> list_at(
                    k.role_users,
                    key,
                ).contains(handle.0) || role_keys(k.spi, namespace, m.roles).contains(key)
            },
        },
{
    let (record, k2) = choose|record: RecordView, k2: KernelView|
        {
            &&& #[trigger] document_outcome(
                k,
                host,
                categories,
                json,
                namespace,
                immutable,
                prep,
                Ok(record),
                k2,
            )
            &&& handle.0 == k.next_id
            &&& after == with_record(
                KernelView {
                    next_id: if k2.next_id < u64::MAX {
                        (k2.next_id + 1) as u64
                    } else {
                        u64::MAX
                    },
                    ..k2
                },
                handle.0,
                RecordView { immutable, ..record },
            )
        };
    match classified_text(json, prep.reading)->Ok_0 {
        ClassifiedView::SpiDef { role } => {},
        ClassifiedView::Plugin(m) => {
            let w = law_a_registration_takes_what_was_read(
                k,
                host,
                categories,
                namespace,
                m,
                immutable,
                prep.survey@,
                k2,
            );
            law_aliases_roles_and_events_lead_to_the_plugin(
                k,
                namespace,
                with_identity(m, namespace),
                plans_of(prep.survey@),
                w.1,
                prep.survey@.edges->Ok_0,
                w.0,
                host,
                0,
                Seq::empty(),
                Seq::empty(),
            );
            lemma_tracked(
                k.role_users,
                handle.0,
                role_keys(k.spi, namespace, m.roles),
                key,
                handle.0,
            );
        },
    }
}

/// A manifest that is not what the kernel knows, whose contract cannot be loaded or whose namespace is
/// none is not loaded.
pub proof fn law_what_cannot_be_read_is_not_loaded<F: Fn(&str) -> Result<(), String>>(
    k: KernelView,
    host: Host,
    categories: Seq<AppPermissionCategory<F>>,
    json: Seq<char>,
    namespace: Seq<char>,
    immutable: bool,
    prep: Preparation,
    r: Result<ManifestHandle, ErrorView>,
    after: KernelView,
)
    requires
        load_outcome(k, host, categories, json, namespace, immutable, prep, r, after),
    ensures
        classified_text(json, prep.reading) is Err ==> r == Err::<ManifestHandle, ErrorView>(
            ErrorView::Validation(classified_text(json, prep.reading)->Err_0),
        ),
        namespace_fault(namespace) is Some ==> r is Err,
        classified_text(json, prep.reading) is Ok && classified_text(
            json,
            prep.reading,
        )->Ok_0 is SpiDef && namespace_fault(namespace) is None ==> (r is Ok
            <==> prep.contract is Ok),
        r is Err ==> after == k,
{
    if r is Ok {
        let handle = r->Ok_0;
        let (record, k2) = choose|record: RecordView, k2: KernelView|
            {
                &&& #[trigger] document_outcome(
                    k,
                    host,
                    categories,
                    json,
                    namespace,
                    immutable,
                    prep,
                    Ok(record),
                    k2,
                )
                &&& handle.0 == k.next_id
                &&& after == with_record(
                    KernelView {
                        next_id: if k2.next_id < u64::MAX {
                            (k2.next_id + 1) as u64
                        } else {
                            u64::MAX
                        },
                        ..k2
                    },
                    handle.0,
                    RecordView { immutable, ..record },
                )
            };
        assert(document_outcome(
            k,
            host,
            categories,
            json,
            namespace,
            immutable,
            prep,
            Ok(record),
            k2,
        ));
    }
}

proof fn lemma_gone(v: Seq<u64>, handle: u64)
    ensures
        !v.filter(other_than(handle)).contains(handle),
{
    let f = v.filter(other_than(handle));
    if f.contains(handle) {
        let i = choose|i: int| 0 <= i < f.len() && f[i] == handle;
        v.lemma_filter_pred(other_than(handle), i);
    }
}

/// Unloading a manifest that can go takes it away: its handle is known no more, nothing is registered
/// under its identity and it uses no contract; what other handles stand for stays.
pub proof fn law_an_unloaded_manifest_is_gone(
    k: KernelView,
    handle: u64,
    other: u64,
    key: Seq<char>,
)
    requires
        unload_outcome(k, handle).0 is Ok,
        other != handle,
    ensures
        ({
            let after = unload_outcome(k, handle).1;
            let record = k.loaded[handle];
            &&& k.loaded.contains_key(handle)
            &&& !after.loaded.contains_key(handle)
            &&& after.loaded.contains_key(other) == k.loaded.contains_key(other)
            &&& k.loaded.contains_key(other) ==> after.loaded[other] == k.loaded[other]
            &&& record.payload is SpiDef ==> {
                &&& !after.spi.contains_key(record.identifier)
                &&& key != record.identifier ==> at(after.spi, key) == at(k.spi, key)
                &&& after.registry == k.registry
            }
            &&& record.payload is Plugin ==> {
                &&& !after.registry.manifests.contains_key(record.identifier)
                &&& !after.registry.permissions.contains_key(record.identifier)
                &&& key != record.identifier ==> at(after.registry.manifests, key) == at(
                    k.registry.manifests,
                    key,
                )
                &&& after.spi == k.spi
            }
            &&& !list_at(after.role_users, key).contains(handle)
            &&& after.next_id == k.next_id
        }),
{
    lemma_gone(list_at(k.role_users, key), handle);
}

/// A manifest can be unloaded where its handle is known, it does not have to stay, it is registered and,
/// if it is a contract, nobody uses it; else it is not, and everything is as it was.
pub proof fn law_a_manifest_is_unloaded_where_it_can_go(k: KernelView, handle: u64)
    ensures
        unload_outcome(k, handle).0 is Ok <==> {
            &&& k.loaded.contains_key(handle)
            &&& !k.loaded[handle].immutable
            &&& k.loaded[handle].payload is SpiDef ==> list_at(
                k.role_users,
                k.loaded[handle].identifier,
            ).len() == 0 && k.spi.contains_key(k.loaded[handle].identifier)
            &&& k.loaded[handle].payload is Plugin ==> k.registry.manifests.contains_key(
                k.loaded[handle].identifier,
            )
        },
        !k.loaded.contains_key(handle) ==> unload_outcome(k, handle).0->Err_0 is NotFound
            && unload_outcome(k, handle).1 == k,
        k.loaded.contains_key(handle) && k.loaded[handle].immutable ==> unload_outcome(
            k,
            handle,
        ).0->Err_0 is Validation && unload_outcome(k, handle).1 == k,
{
}

/// Those that use a contract are told by their identities, each that is loaded.
pub proof fn law_dependents_are_told_by_their_identities(
    handles: Seq<u64>,
    loaded: Map<u64, RecordView>,
    i: int,
)
    requires
        0 <= i < handles.len(),
        loaded.contains_key(handles[i]),
    ensures
        dependents(handles, loaded).contains(loaded[handles[i]].identifier),
    decreases handles.len(),
{
    let rest = handles.drop_last();
    let before = dependents(rest, loaded);
    let all = dependents(handles, loaded);
    if i < rest.len() {
        assert(rest[i] == handles[i]);
        law_dependents_are_told_by_their_identities(rest, loaded, i);
        let p = choose|p: int| 0 <= p < before.len() && before[p] == loaded[handles[i]].identifier;
        assert(all[p] == before[p]);
    } else {
        assert(all[before.len() as int] == loaded[handles[i]].identifier);
    }
}

/// A reload that succeeds keeps the handle and the namespace, and the handle then stands for the new
/// document; one that fails and is rolled back keeps the record that the handle stood for. A manifest
/// that has to stay, and a handle that is not known, is refused with nothing changed.
pub proof fn law_a_reload_keeps_its_handle<F: Fn(&str) -> Result<(), String>>(
    k: KernelView,
    host: Host,
    categories: Seq<AppPermissionCategory<F>>,
    handle: u64,
    json: Seq<char>,
    prep: Preparation,
    back: Rollback,
    r: Result<(), ErrorView>,
    after: KernelView,
)
    requires
        reload_outcome(k, host, categories, handle, json, prep, back, r, after),
    ensures
        !k.loaded.contains_key(handle) ==> r is Err && r->Err_0 is NotFound && after == k,
        k.loaded.contains_key(handle) && k.loaded[handle].immutable ==> r is Err && after == k,
        r is Ok ==> {
            &&& k.loaded.contains_key(handle)
            &&& after.loaded.contains_key(handle)
            &&& after.loaded[handle].namespace == k.loaded[handle].namespace
            &&& classified_text(json, prep.reading) is Ok
            &&& match classified_text(json, prep.reading)->Ok_0 {
                ClassifiedView::SpiDef { role } => after.loaded[handle].payload
                    == PayloadView::SpiDef(json) && after.loaded[handle].identifier == qualified(
                    k.loaded[handle].namespace,
                    role,
                ),
                ClassifiedView::Plugin(m) => after.loaded[handle].payload == PayloadView::Plugin(m)
                    && after.loaded[handle].identifier == qualified(
                    k.loaded[handle].namespace,
                    m.name,
                ),
            }
        },
        r is Err && k.loaded.contains_key(handle) && after.loaded.contains_key(handle)
            ==> after.loaded[handle] == k.loaded[handle],
        classified_text(json, prep.reading) is Err ==> r is Err,
{
}

/// What a kernel boots with: the host tables that its configuration and what was submitted make up, in
/// which the engine's own bindings come first and stay; the embedder's categories; the limits that the
/// settings leave; and the engine's own manifest, which is loaded in the root and has to stay.
pub proof fn law_a_kernel_boots_as_configured<F: Fn(&str) -> Result<(), String>>(
    config: KernelConfig<F>,
    submitted: Seq<NativeStepImplEntry<BodyId>>,
    intrinsics: Seq<IntrinsicStepImplEntry<BodyId>>,
    json: Seq<char>,
    prep: Preparation,
    kernel: Kernel<F>,
    i: int,
)
    requires
        boot_outcome(config, submitted, intrinsics, json, prep, Ok::<Kernel<F>, KernelError>(kernel)),
    ensures
        kernel.host().trusted == config.trusted_step_type_providers.deep_view(),
        0 <= i < config.native_impl_bindings.deep_view().len() ==> kernel.host().bindings.contains(
            config.native_impl_bindings.deep_view()[i],
        ),
        kernel.host().bindings.contains(("gwead_intrinsics"@, "gwead.intrinsics.let"@)),
        kernel.host().bindings.contains(("gwead_intrinsics"@, "gwead.intrinsics.throw_error"@)),
        kernel.host().natives == topped_up(config.native_step_impls@, entry_views(submitted)).0,
        topped_up(config.native_step_impls@, entry_views(submitted)).1 is None,
        gathered(intrinsic_views(intrinsics)) is Ok,
        kernel.host().intrinsics == gathered(intrinsic_views(intrinsics))->Ok_0,
        kernel.categories() == config.app_permission_categories@,
        kernel.limits_view() == settled_limits(config.limits, config.settings.deep_view()),
        kernel@.loaded.contains_key(1),
        kernel@.loaded[1].immutable,
        kernel@.loaded[1].namespace.len() == 0,
        0 <= i < config.app_permission_categories@.len() ==> category_name_fault(
            config.app_permission_categories@[i].name_text(),
        ) is None,
{
    let host = kernel.host();
    let own = intrinsic_bindings();
    let more = config.native_impl_bindings.deep_view();
    assert(host.bindings[0] == own[0] && host.bindings[1] == own[1]);
    if 0 <= i < more.len() {
        assert(host.bindings[own.len() + i] == more[i]);
    }
    law_a_loaded_manifest_is_known_by_its_handle(
        bare_kernel(),
        host,
        config.app_permission_categories@,
        json,
        Seq::empty(),
        true,
        prep,
        ManifestHandle(1),
        kernel@,
        0,
        Seq::empty(),
    );
    if 0 <= i < config.app_permission_categories@.len() {
        lemma_categories(config.app_permission_categories@, 0, i);
    }
}

proof fn lemma_categories<F: Fn(&str) -> Result<(), String>>(
    categories: Seq<AppPermissionCategory<F>>,
    from: int,
    i: int,
)
    requires
        0 <= from <= i < categories.len(),
        categories_fault(categories, from) is None,
    ensures
        category_name_fault(categories[i].name_text()) is None,
    decreases i - from,
{
    if from < i {
        lemma_categories(categories, from + 1, i);
    }
}

/// A contract is registered under a role where the role is a name, the document is JSON that meets its
/// schema and that declares no other name, and the contract could be loaded.
pub proof fn law_a_contract_answers_to_its_role(
    role: Seq<char>,
    text: Seq<char>,
    doc: JsonView,
    schema: Result<(), String>,
    contract: Result<(), KernelError>,
)
    ensures
        json_parsed(text) == Ok::<JsonView, Seq<char>>(doc) ==> (spi_fault(
            role,
            text,
            schema,
            contract,
        ) is None <==> {
            &&& name_fault(NameKind::Role, role) is None
            &&& schema is Ok
            &&& doc.get_str("name"@) is Some ==> doc.get_str("name"@)->0 == role
            &&& contract is Ok
        }),
        json_parsed(text) is Err ==> spi_fault(role, text, schema, contract) is Some,
{
}

/// A document is taken under a role where it holds to its schema, says the role's name or none, and loads
/// as a contract; one that does not hold to its schema is told so before anything else.
pub proof fn law_a_document_agrees_with_its_role(
    role: Seq<char>,
    doc: JsonView,
    schema: Result<(), String>,
    contract: Result<(), KernelError>,
)
    ensures
        document_fault(role, doc, schema, contract) is None <==> {
            &&& schema is Ok
            &&& doc.get_str("name"@) is None || doc.get_str("name"@) == Some(role)
            &&& contract is Ok
        },
        schema is Err ==> document_fault(role, doc, schema, contract) == Some(
            ErrorView::Validation(schema->Err_0@),
        ),
        schema is Ok && doc.get_str("name"@) == Some(role) && contract is Err ==> document_fault(
            role,
            doc,
            schema,
            contract,
        ) == Some(contract->Err_0@),
{
}

/// A kernel that boots has the bindings of its engine first and those of its embedder behind them, and the
/// providers that the embedder trusts.
pub proof fn law_a_kernel_boots_with_its_bindings<F: Fn(&str) -> Result<(), String>>(
    config: KernelConfig<F>,
    natives: Map<Seq<char>, BodyId>,
    intrinsics: Map<Seq<char>, BodyId>,
    i: int,
)
    requires
        0 <= i < config.native_impl_bindings.deep_view().len(),
    ensures
        ({
            let host = booting_host(config, natives, intrinsics);
            &&& host.trusted == config.trusted_step_type_providers.deep_view()
            &&& host.bindings.len() == 2 + config.native_impl_bindings.deep_view().len()
            &&& host.bindings[0] == ("gwead_intrinsics"@, "gwead.intrinsics.throw_error"@)
            &&& host.bindings[1] == ("gwead_intrinsics"@, "gwead.intrinsics.let"@)
            &&& host.bindings[2 + i] == config.native_impl_bindings.deep_view()[i]
            &&& host.natives == natives
            &&& host.intrinsics == intrinsics
        }),
{
}

/// A kernel keeps what it was booted with: its engine, what the host brings, the categories of its embedder
/// and its limits.
pub proof fn law_a_kernel_keeps_what_it_was_booted_with<F: Fn(&str) -> Result<(), String>>(
    a: Kernel<F>,
    b: Kernel<F>,
)
    ensures
        a.booted_as(b) <==> {
            &&& a.engine_view() == b.engine_view()
            &&& a.host() == b.host()
            &&& a.categories() == b.categories()
            &&& a.limits_view() == b.limits_view()
        },
        a.booted_as(b) ==> b.booted_as(a),
{
}

/// A contract that is put back stands under its role again, and nothing else changes; one that does not load
/// changes nothing.
pub proof fn law_a_contract_is_put_back<F: Fn(&str) -> Result<(), String>>(
    k: KernelView,
    host: Host,
    categories: Seq<AppPermissionCategory<F>>,
    record: RecordView,
    json: Seq<char>,
    back: Rollback,
    r: Result<(), ErrorView>,
    after: KernelView,
)
    requires
        rollback_outcome(k, host, categories, record, back, r, after),
        record.payload == PayloadView::SpiDef(json),
    ensures
        r is Ok <==> back.contract is Ok,
        r is Ok ==> after.spi == k.spi.insert(record.identifier, json) && after.registry
            == k.registry && after.loaded == k.loaded,
        r is Err ==> r->Err_0 == back.contract->Err_0@ && after == k,
{
}

/// A kernel does not boot with a body of the embedder that cannot be taken, nor with one of the engine's, nor
/// with a category that is no category: each is told for what it is, the first of them first.
pub proof fn law_a_kernel_that_cannot_boot_is_told<F: Fn(&str) -> Result<(), String>>(
    config: KernelConfig<F>,
    submitted: Seq<NativeStepImplEntry<BodyId>>,
    intrinsics: Seq<IntrinsicStepImplEntry<BodyId>>,
    json: Seq<char>,
    prep: Preparation,
    r: Result<Kernel<F>, KernelError>,
)
    requires
        boot_outcome(config, submitted, intrinsics, json, prep, r),
    ensures
        ({
            let stop = topped_up(config.native_step_impls@, entry_views(submitted)).1;
            let own = gathered(intrinsic_views(intrinsics));
            let fault = categories_fault(config.app_permission_categories@, 0);
            &&& r is Err ==> r->Err_0@ is Boot
            &&& stop is Some ==> r is Err && r->Err_0@ == ErrorView::Boot(
                "native step impls: "@ + stop->0.text(),
            )
            &&& stop is None && own is Err ==> r is Err && r->Err_0@ == ErrorView::Boot(
                "intrinsic step impls: "@ + own->Err_0.text(),
            )
            &&& stop is None && own is Ok && fault is Some ==> r is Err && r->Err_0@
                == ErrorView::Boot("KernelConfig::app_permission_categories: "@ + fault->0)
            &&& stop is None && own is Ok && fault is None && r is Err ==> exists|why: ErrorView|
                r->Err_0@ == ErrorView::Boot(#[trigger] ("intrinsics manifest: "@ + why.text()))
        }),
{
    let stop = topped_up(config.native_step_impls@, entry_views(submitted)).1;
    let own = gathered(intrinsic_views(intrinsics));
    let fault = categories_fault(config.app_permission_categories@, 0);
    if stop is None && own is Ok && fault is None && r is Err {
        let natives = topped_up(config.native_step_impls@, entry_views(submitted)).0;
        let host = booting_host(config, natives, own->Ok_0);
        let why = choose|why: ErrorView|
            {
                &&& r->Err_0@ == ErrorView::Boot("intrinsics manifest: "@ + why.text())
                &&& #[trigger] load_outcome(
                    bare_kernel(),
                    host,
                    config.app_permission_categories@,
                    json,
                    Seq::<char>::empty(),
                    true,
                    prep,
                    Err(why),
                    bare_kernel(),
                )
            };
        assert(r->Err_0@ == ErrorView::Boot("intrinsics manifest: "@ + why.text()));
    }
}

/// A document that is refused changes nothing.
pub proof fn law_a_refused_document_changes_nothing<F: Fn(&str) -> Result<(), String>>(
    k: KernelView,
    host: Host,
    categories: Seq<AppPermissionCategory<F>>,
    json: Seq<char>,
    namespace: Seq<char>,
    kernel_owned: bool,
    prep: Preparation,
    r: Result<RecordView, ErrorView>,
    after: KernelView,
)
    requires
        document_outcome(k, host, categories, json, namespace, kernel_owned, prep, r, after),
        r is Err,
    ensures
        after == k,
{
}

} // verus!
