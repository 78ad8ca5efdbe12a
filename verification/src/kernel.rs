//! The kernel: what is registered, and how manifests come and go.

pub mod access;
pub mod boot;
pub mod cycles;
pub mod dispatch;
pub mod edges;
pub mod invoke;
pub mod laws;
pub mod lifecycle;
pub mod reach;

use vstd::prelude::*;

use crate::commit::{
    add_actions, add_aliases, add_defs, add_impls, add_modules, add_roles, add_subscriptions,
    with_actions, with_defs, with_modules, with_roles, with_subscriptions, BodiesView,
};
use crate::error::{rejects, ErrorView, KernelError};
use crate::identity::{namespace_fault, qualified, qualify, validate_namespace};
use crate::kernel::cycles::{check_acyclic, cycle_text, has_cycle};
use crate::limits::RuntimeLimits;
use crate::manifest::{ActionView, DagPlan, ManifestView, PlanView, PluginManifest};
use crate::manifest_checks::{
    actions_fault, aliases_fault, check_actions, check_aliases, check_format, check_imports,
    check_secrets, format_fault, import_names, imports_fault, manifest_names_fault, of_action,
    of_plugin, secrets_fault, validate_manifest_names,
};
use crate::native_impls::{IntrinsicStepImplTable, NativeStepImplTable};
use crate::permissions::{
    parse_manifest_permissions, permissions_outcome, permissions_result, AppPermissionCategory,
    Permission, PermissionFault, PermissionView,
};
use crate::registration::{
    prepare_step_types, prepared_impls, step_types_fault, Host, HostTables, NativeImplBinding,
    TrustedProvider,
};
use crate::registry::{EdgeView, InvokeEdge, PluginRegistry, RegistryView};
use crate::spi::{role_keys, SpiRegistry};
use crate::step_shapes::{
    check_steps, either, lists_languages, script_languages, steps_fault, tells,
};
use crate::table::Table;
use crate::text::{cat4, join, joined, texts};
use crate::wasm_modules::{compile_modules, modules_outcome, modules_result};
use crate::wasm_runtime::{BodyId, WasmRuntime, StepBody};

verus! {

/// What is known of a manifest from outside: the errors of the contracts of its roles, the plan of
/// each of its actions, and which of its actions invokes which, or why no plan or no such list can
/// be had.
pub struct ManifestSurvey {
    pub contract_errors: Vec<String>,
    pub plans: Vec<Result<DagPlan, String>>,
    pub edges: Result<Vec<InvokeEdge>, String>,
}

/// What a [`ManifestSurvey`] stands for.
pub struct SurveyView {
    pub contract_errors: Seq<Seq<char>>,
    pub plans: Seq<Result<PlanView, Seq<char>>>,
    pub edges: Result<Seq<EdgeView>, Seq<char>>,
}

/// The plan, or the words of the error, in a result.
pub open spec fn plan_result(r: Result<DagPlan, String>) -> Result<PlanView, Seq<char>> {
    match r {
        Ok(p) => Ok(p.deep_view()),
        Err(e) => Err(e@),
    }
}

impl View for ManifestSurvey {
    type V = SurveyView;

    open spec fn view(&self) -> SurveyView {
        SurveyView {
            contract_errors: texts(self.contract_errors@),
            plans: self.plans@.map_values(|r: Result<DagPlan, String>| plan_result(r)),
            edges: match self.edges {
                Ok(v) => Ok(v.deep_view()),
                Err(e) => Err(e@),
            },
        }
    }
}

/// The document that a loaded manifest came from.
pub enum ManifestPayload {
    SpiDef(String),
    Plugin(Box<PluginManifest>),
}

/// What a [`ManifestPayload`] stands for.
pub enum PayloadView {
    SpiDef(Seq<char>),
    Plugin(ManifestView),
}

/// What is kept of a loaded manifest.
pub struct ManifestRecord {
    /// The key of the role's contract, or the identity of the plugin.
    pub identifier: String,
    pub namespace: String,
    pub payload: ManifestPayload,
    /// A manifest that the kernel needs, which can be neither unloaded nor reloaded.
    pub immutable: bool,
}

/// What a [`ManifestRecord`] stands for.
pub struct RecordView {
    pub identifier: Seq<char>,
    pub namespace: Seq<char>,
    pub payload: PayloadView,
    pub immutable: bool,
}

impl DeepView for ManifestPayload {
    type V = PayloadView;

    open spec fn deep_view(&self) -> PayloadView {
        match self {
            ManifestPayload::SpiDef(json) => PayloadView::SpiDef(json@),
            ManifestPayload::Plugin(m) => PayloadView::Plugin(m.deep_view()),
        }
    }
}

impl DeepView for ManifestRecord {
    type V = RecordView;

    open spec fn deep_view(&self) -> RecordView {
        RecordView {
            identifier: self.identifier@,
            namespace: self.namespace@,
            payload: self.payload.deep_view(),
            immutable: self.immutable,
        }
    }
}

/// The kernel. `F` is the type of the checks on the values of an embedder's permission categories.
pub struct Kernel<F: Fn(&str) -> Result<(), String>> {
    pub(crate) runtime: WasmRuntime,
    pub(crate) registry: PluginRegistry,
    pub(crate) spi_registry: SpiRegistry,
    pub(crate) limits: RuntimeLimits,
    pub(crate) native_step_impls: NativeStepImplTable<BodyId>,
    pub(crate) intrinsic_step_impls: IntrinsicStepImplTable<BodyId>,
    pub(crate) trusted_step_type_providers: Vec<TrustedProvider>,
    pub(crate) native_impl_bindings: Vec<NativeImplBinding>,
    pub(crate) app_permission_categories: Vec<AppPermissionCategory<F>>,
    pub(crate) next_manifest_id: u64,
    pub(crate) loaded_manifests: Table<u64, ManifestRecord>,
    pub(crate) spi_role_users: Table<String, Vec<u64>>,
    pub(crate) step_import_owners: Table<String, String>,
}

/// What a [`Kernel`] stands for, apart from what stays as it was booted.
pub struct KernelView {
    pub registry: RegistryView,
    /// The bodies in the import table.
    pub imports: Map<Seq<char>, StepBody>,
    /// The plugin that put a step type into the import table.
    pub owners: Map<Seq<char>, Seq<char>>,
    /// The documents that define roles.
    pub spi: Map<Seq<char>, Seq<char>>,
    /// The manifests that are loaded, by handle.
    pub loaded: Map<u64, RecordView>,
    /// The handles of the plugins that fulfil a role.
    pub role_users: Map<Seq<char>, Seq<u64>>,
    pub next_id: u64,
}

impl<F: Fn(&str) -> Result<(), String>> View for Kernel<F> {
    type V = KernelView;

    closed spec fn view(&self) -> KernelView {
        KernelView {
            registry: self.registry@,
            imports: self.runtime@,
            owners: self.step_import_owners.map(),
            spi: self.spi_registry@,
            loaded: self.loaded_manifests.map(),
            role_users: self.spi_role_users.map(),
            next_id: self.next_manifest_id,
        }
    }
}

impl<F: Fn(&str) -> Result<(), String>> Kernel<F> {
    /// No index has two entries under one key, the spans of time are proper, and the checks on
    /// permission values can be run on every value.
    pub closed spec fn wf(&self) -> bool {
        &&& self.registry.wf()
        &&& self.runtime.wf()
        &&& self.spi_registry.wf()
        &&& self.step_import_owners.wf()
        &&& self.loaded_manifests.wf()
        &&& self.spi_role_users.wf()
        &&& self.native_step_impls.wf()
        &&& self.intrinsic_step_impls.wf()
        &&& self.limits.wf()
        &&& forall|i: int|
            0 <= i < self.app_permission_categories@.len() ==> (
            #[trigger] self.app_permission_categories@[i]).is_total()
    }

    /// What the embedder and the host brought when the kernel was booted.
    pub closed spec fn host(&self) -> Host {
        Host {
            trusted: self.trusted_step_type_providers.deep_view(),
            bindings: self.native_impl_bindings.deep_view(),
            natives: self.native_step_impls@,
            intrinsics: self.intrinsic_step_impls@,
        }
    }

    /// The permission categories of the embedder.
    pub closed spec fn categories(&self) -> Seq<AppPermissionCategory<F>> {
        self.app_permission_categories@
    }

    /// The limits within which actions run.
    pub closed spec fn limits_view(&self) -> RuntimeLimits {
        self.limits
    }

    /// The engine that modules are compiled for.
    pub closed spec fn engine_view(&self) -> wasmtime::Engine {
        self.runtime.engine_view()
    }

    /// What stays as it was booted is the same in two states.
    pub open spec fn booted_as(&self, other: Self) -> bool {
        &&& self.engine_view() == other.engine_view()
        &&& self.host() == other.host()
        &&& self.categories() == other.categories()
        &&& self.limits_view() == other.limits_view()
    }
}

/// The manifest under the plugin's identity.
pub open spec fn with_identity(m: ManifestView, namespace: Seq<char>) -> ManifestView {
    ManifestView { name: qualified(namespace, m.name), ..m }
}

/// The first fault of a manifest that comes to light before its permissions are read: of the
/// namespace, the format, the names, the secrets, of a plugin by the same identity, or of the
/// contracts of its roles.
pub open spec fn identity_fault(
    k: KernelView,
    namespace: Seq<char>,
    m: ManifestView,
    kernel_owned: bool,
    survey: SurveyView,
) -> Option<Seq<char>> {
    let id = qualified(namespace, m.name);
    if namespace_fault(namespace) is Some {
        Some(namespace_fault(namespace)->0.text())
    } else if format_fault(m) is Some {
        format_fault(m)
    } else if manifest_names_fault(m, kernel_owned) is Some {
        manifest_names_fault(m, kernel_owned)
    } else if secrets_fault(m, namespace) is Some {
        secrets_fault(m, namespace)
    } else if k.registry.manifests.contains_key(id) {
        Some(
            of_plugin(id)
                + " is already registered. Reload it via `reload_manifest` (for manifests loaded through `load_manifest`) or unload it first"@,
        )
    } else if survey.contract_errors.len() > 0 {
        Some(
            of_plugin(id) + " failed SPI validation: "@ + joined(survey.contract_errors, "; "@),
        )
    } else {
        None
    }
}

/// The first action, from `i` on, that has no plan.
pub open spec fn plans_fault(
    plugin: Seq<char>,
    actions: Seq<(Seq<char>, ActionView)>,
    plans: Seq<Result<PlanView, Seq<char>>>,
    i: int,
) -> Option<Seq<char>>
    decreases actions.len() - i,
{
    if i < 0 || i >= actions.len() {
        None
    } else {
        match plans[i] {
            Err(e) => Some(of_action(plugin, actions[i].0) + ": "@ + e),
            Ok(_) => plans_fault(plugin, actions, plans, i + 1),
        }
    }
}

/// The first fault of the shape of the steps of the actions from `i` on.
pub open spec fn shapes_fault(
    plugin: Seq<char>,
    actions: Seq<(Seq<char>, ActionView)>,
    languages: Seq<Seq<char>>,
    i: int,
) -> Option<Seq<char>>
    decreases actions.len() - i,
{
    if i < 0 || i >= actions.len() {
        None
    } else {
        match steps_fault(actions[i].0, actions[i].1.steps, 0, languages) {
            Some(e) => Some(of_plugin(plugin) + ": "@ + e),
            None => shapes_fault(plugin, actions, languages, i + 1),
        }
    }
}

/// The first fault of what a manifest, under the plugin's identity, declares: of its aliases, of the
/// step types that it imports, of how its actions are to run, of their plans, and of the shape of
/// their steps.
pub open spec fn contents_fault(
    k: KernelView,
    local: Seq<char>,
    q: ManifestView,
    kernel_owned: bool,
    survey: SurveyView,
    languages: Seq<Seq<char>>,
) -> Option<Seq<char>> {
    either(
        aliases_fault(q.name, local, q, k.registry, kernel_owned, 0),
        either(
            imports_fault(q.name, import_names(q), k.owners, 0),
            either(
                actions_fault(q.name, q.actions, 0),
                either(
                    plans_fault(q.name, q.actions, survey.plans, 0),
                    shapes_fault(q.name, q.actions, languages, 0),
                ),
            ),
        ),
    )
}

/// The plans that there are.
pub open spec fn plans_of(survey: SurveyView) -> Seq<PlanView> {
    survey.plans.map_values(|r: Result<PlanView, Seq<char>>| r->Ok_0)
}

/// The kernel when a manifest has been registered under the plugin's identity: its actions with
/// their plans, its modules, its step types with their bodies, its edges, the manifest itself, its
/// roles, what it is granted, its aliases and its subscriptions.
pub open spec fn registered(
    k: KernelView,
    namespace: Seq<char>,
    q: ManifestView,
    plans: Seq<PlanView>,
    modules: Seq<(Seq<char>, std::sync::Arc<wasmtime::Module>)>,
    edges: Seq<EdgeView>,
    grants: Seq<PermissionView>,
    host: Host,
) -> KernelView {
    let id = q.name;
    let r1 = with_defs(
        with_modules(with_actions(k.registry, id, q.actions, plans), id, modules),
        id,
        q.step_type_defs,
    );
    let b1 = (BodiesView { registry: r1, owners: k.owners, imports: k.imports }).with_impls(
        id,
        prepared_impls(q.step_type_impls, host),
    );
    let r2 = RegistryView {
        invoke_edges: b1.registry.invoke_edges + edges,
        manifests: b1.registry.manifests.insert(id, q),
        ..b1.registry
    };
    let r3 = with_roles(r2, id, role_keys(k.spi, namespace, q.roles));
    let r4 = RegistryView { permissions: r3.permissions.insert(id, grants), ..r3 };
    let b2 = (BodiesView { registry: r4, ..b1 }).with_aliases(id, q.step_types);
    KernelView {
        registry: with_subscriptions(b2.registry, id, q.actions),
        owners: b2.owners,
        imports: b2.imports,
        ..k
    }
}

/// The first fault of a manifest, under the plugin's identity, that comes to light last: of the
/// modules, of the edges, of the cycles that they close, and of the step types.
pub open spec fn last_fault(
    k: KernelView,
    q: ManifestView,
    modules: Option<Seq<char>>,
    edges: Result<Seq<EdgeView>, Seq<char>>,
    grants: Seq<PermissionView>,
    host: Host,
) -> Option<Seq<char>> {
    if modules is Some {
        modules
    } else if edges is Err {
        Some(of_plugin(q.name) + ": "@ + edges->Err_0)
    } else if has_cycle(k.registry.invoke_edges + edges->Ok_0) {
        Some(of_plugin(q.name) + ": "@ + cycle_text())
    } else {
        step_types_fault(q, k.registry, grants, host)
    }
}

/// The error of a result.
pub open spec fn error_of<T>(r: Result<T, Seq<char>>) -> Option<Seq<char>> {
    match r {
        Ok(_) => None,
        Err(e) => Some(e),
    }
}

fn begin(plugin: &str, rest: &str) -> (r: String)
    ensures
        r@ == of_plugin(plugin@) + rest@,
{
    cat4("Plugin '", plugin, "'", rest)
}

impl<F: Fn(&str) -> Result<(), String>> Kernel<F> {
    /// Checks a manifest up to where its permissions are read.
    pub fn check_identity(
        &self,
        namespace: &str,
        manifest: &PluginManifest,
        kernel_owned: bool,
        survey: &ManifestSurvey,
    ) -> (r: Result<(), KernelError>)
        requires
            self.wf(),
        ensures
            rejects(
                r,
                identity_fault(
                    self@,
                    namespace@,
                    manifest.deep_view(),
                    kernel_owned,
                    survey@,
                ),
            ),
    {
        if let Err(e) = validate_namespace(namespace) {
            return Err(KernelError::Validation(e.message()));
        }
        if let Err(e) = check_format(manifest) {
            return Err(KernelError::Validation(e));
        }
        if let Err(e) = validate_manifest_names(manifest, kernel_owned) {
            return Err(KernelError::Validation(e));
        }
        if let Err(e) = check_secrets(manifest, namespace) {
            return Err(KernelError::Validation(e));
        }
        let id = qualify(namespace, manifest.name.as_str());
        if self.registry.has_plugin(id.as_str()) {
            return Err(
                KernelError::Validation(
                    begin(
                        id.as_str(),
                        " is already registered. Reload it via `reload_manifest` (for manifests loaded through `load_manifest`) or unload it first",
                    ),
                ),
            );
        }
        if survey.contract_errors.len() > 0 {
            let listed = join(&survey.contract_errors, "; ");
            let mut w = begin(id.as_str(), " failed SPI validation: ");
            w.append(listed.as_str());
            return Err(KernelError::Validation(w));
        }
        Ok(())
    }

    fn check_plans(&self, manifest: &PluginManifest, survey: &ManifestSurvey) -> (r: Result<
        (),
        String,
    >)
        requires
            survey.plans@.len() == manifest.actions@.len(),
        ensures
            tells(
                r,
                plans_fault(manifest.name@, manifest.deep_view().actions, survey@.plans, 0),
            ),
    {
        let ghost actions = manifest.deep_view().actions;
        let ghost plans = survey@.plans;
        let mut i: usize = 0;
        while i < manifest.actions.len()
            invariant
                i <= manifest.actions@.len(),
                survey.plans@.len() == manifest.actions@.len(),
                actions == manifest.deep_view().actions,
                plans == survey@.plans,
                plans_fault(manifest.name@, actions, plans, 0) == plans_fault(
                    manifest.name@,
                    actions,
                    plans,
                    i as int,
                ),
            decreases manifest.actions@.len() - i,
        {
            proof {
                assert(actions[i as int].0 == manifest.actions@[i as int].0@);
                assert(plans[i as int] == plan_result(survey.plans@[i as int]));
            }
            if let Err(e) = &survey.plans[i] {
                let mut w = begin(manifest.name.as_str(), " action '");
                w.append(manifest.actions[i].0.as_str());
                w.append("'");
                w.append(": ");
                w.append(e.as_str());
                return Err(w);
            }
            i += 1;
        }
        Ok(())
    }

    fn check_shapes(manifest: &PluginManifest, languages: &Vec<String>) -> (r: Result<(), String>)
        ensures
            tells(
                r,
                shapes_fault(
                    manifest.name@,
                    manifest.deep_view().actions,
                    texts(languages@),
                    0,
                ),
            ),
    {
        let ghost actions = manifest.deep_view().actions;
        let ghost langs = texts(languages@);
        let mut i: usize = 0;
        while i < manifest.actions.len()
            invariant
                i <= manifest.actions@.len(),
                actions == manifest.deep_view().actions,
                langs == texts(languages@),
                shapes_fault(manifest.name@, actions, langs, 0) == shapes_fault(
                    manifest.name@,
                    actions,
                    langs,
                    i as int,
                ),
            decreases manifest.actions@.len() - i,
        {
            let (name, action) = &manifest.actions[i];
            assert(actions[i as int] == (name@, action.deep_view()));
            if let Err(e) = check_steps(name.as_str(), &action.steps, languages) {
                let mut w = begin(manifest.name.as_str(), ": ");
                w.append(e.as_str());
                return Err(w);
            }
            i += 1;
        }
        Ok(())
    }

    /// Checks what a manifest, under the plugin's identity, declares.
    pub fn check_contents(
        &self,
        local: &str,
        manifest: &PluginManifest,
        kernel_owned: bool,
        survey: &ManifestSurvey,
    ) -> (r: Result<(), KernelError>)
        requires
            self.wf(),
            survey.plans@.len() == manifest.actions@.len(),
        ensures
            exists|languages: Seq<Seq<char>>|
                {
                    &&& #[trigger] lists_languages(
                        languages,
                        self@.registry,
                        manifest.deep_view().step_type_impls,
                    )
                    &&& rejects(
                        r,
                        contents_fault(
                            self@,
                            local@,
                            manifest.deep_view(),
                            kernel_owned,
                            survey@,
                            languages,
                        ),
                    )
                },
    {
        let impls = manifest.step_type_impls.as_slice();
        let languages = script_languages(&self.registry, impls);
        let r = match self.first_contents_fault(local, manifest, kernel_owned, survey, &languages) {
            Ok(()) => Ok(()),
            Err(e) => Err(KernelError::Validation(e)),
        };
        assert(impls.deep_view() =~= manifest.deep_view().step_type_impls);
        assert(lists_languages(
            texts(languages@),
            self@.registry,
            manifest.deep_view().step_type_impls,
        ));
        r
    }

    fn first_contents_fault(
        &self,
        local: &str,
        manifest: &PluginManifest,
        kernel_owned: bool,
        survey: &ManifestSurvey,
        languages: &Vec<String>,
    ) -> (r: Result<(), String>)
        requires
            self.wf(),
            survey.plans@.len() == manifest.actions@.len(),
        ensures
            tells(
                r,
                contents_fault(
                    self@,
                    local@,
                    manifest.deep_view(),
                    kernel_owned,
                    survey@,
                    texts(languages@),
                ),
            ),
    {
        let plugin = manifest.name.as_str();
        check_aliases(plugin, local, manifest, &self.registry, kernel_owned)?;
        check_imports(plugin, manifest, &self.step_import_owners)?;
        check_actions(plugin, manifest)?;
        self.check_plans(manifest, survey)?;
        Self::check_shapes(manifest, languages)
    }
}

/// What is reported of a manifest whose permissions are refused.
pub open spec fn permission_text(plugin: Seq<char>, e: PermissionFault) -> Seq<char> {
    of_plugin(plugin) + ": permission parse error: "@ + e.text()
}

/// `r` is the refusal of a manifest with these words, and the kernel is as it was.
pub open spec fn refused_with(
    k: KernelView,
    r: Result<(), ErrorView>,
    after: KernelView,
    e: Seq<char>,
) -> bool {
    r == Err::<(), ErrorView>(ErrorView::Validation(e)) && after == k
}

/// What can come of the last part of a registration, whatever the modules compile to: the manifest
/// is registered, or refused.
pub open spec fn end_outcome(
    k: KernelView,
    host: Host,
    namespace: Seq<char>,
    q: ManifestView,
    survey: SurveyView,
    grants: Seq<PermissionView>,
    r: Result<(), ErrorView>,
    after: KernelView,
) -> bool {
    exists|modules: Result<Seq<(Seq<char>, std::sync::Arc<wasmtime::Module>)>, Seq<char>>|
        {
            &&& #[trigger] modules_outcome(q.name, q.wasm_modules, modules)
            &&& match last_fault(k, q, error_of(modules), survey.edges, grants, host) {
                Some(e) => refused_with(k, r, after, e),
                None => r is Ok && after == registered(
                    k,
                    namespace,
                    q,
                    plans_of(survey),
                    modules->Ok_0,
                    survey.edges->Ok_0,
                    grants,
                    host,
                ),
            }
        }
}

/// What can come of the part of a registration that follows the reading of the permissions.
pub open spec fn contents_outcome(
    k: KernelView,
    host: Host,
    namespace: Seq<char>,
    m: ManifestView,
    kernel_owned: bool,
    survey: SurveyView,
    grants: Seq<PermissionView>,
    r: Result<(), ErrorView>,
    after: KernelView,
) -> bool {
    let q = with_identity(m, namespace);
    exists|languages: Seq<Seq<char>>|
        {
            &&& #[trigger] lists_languages(languages, k.registry, q.step_type_impls)
            &&& match contents_fault(k, m.name, q, kernel_owned, survey, languages) {
                Some(e) => refused_with(k, r, after, e),
                None => end_outcome(k, host, namespace, q, survey, grants, r, after),
            }
        }
}

/// What can come of the registration of a manifest, whatever the checks on permission values answer
/// and whatever the modules compile to.
pub open spec fn registration_outcome<F: Fn(&str) -> Result<(), String>>(
    k: KernelView,
    host: Host,
    categories: Seq<AppPermissionCategory<F>>,
    namespace: Seq<char>,
    m: ManifestView,
    kernel_owned: bool,
    survey: SurveyView,
    r: Result<(), ErrorView>,
    after: KernelView,
) -> bool {
    match identity_fault(k, namespace, m, kernel_owned, survey) {
        Some(e) => refused_with(k, r, after, e),
        None => exists|read: Result<Seq<PermissionView>, PermissionFault>|
            {
                &&& #[trigger] permissions_outcome(m.permissions, categories, read)
                &&& match read {
                    Err(e) => refused_with(
                        k,
                        r,
                        after,
                        permission_text(qualified(namespace, m.name), e),
                    ),
                    Ok(grants) => contents_outcome(
                        k,
                        host,
                        namespace,
                        m,
                        kernel_owned,
                        survey,
                        grants,
                        r,
                        after,
                    ),
                }
            },
    }
}

/// The result of an operation as a plain value.
pub open spec fn plain<T>(r: Result<T, KernelError>) -> Result<T, ErrorView> {
    match r {
        Ok(v) => Ok(v),
        Err(e) => Err(e@),
    }
}

impl<F: Fn(&str) -> Result<(), String>> Kernel<F> {
    /// Registers a checked manifest under the plugin's identity, given what its modules compiled to,
    /// or refuses it and changes nothing.
    pub fn finish_registration(
        &mut self,
        namespace: &str,
        manifest: &PluginManifest,
        grants: Vec<Permission>,
        plans: Vec<DagPlan>,
        edges: Result<Vec<InvokeEdge>, String>,
        modules: Result<Vec<(String, std::sync::Arc<wasmtime::Module>)>, String>,
    ) -> (r: Result<(), KernelError>)
        requires
            old(self).wf(),
            plans@.len() == manifest.actions@.len(),
        ensures
            final(self).wf(),
            final(self).booted_as(*old(self)),
            match last_fault(
                old(self)@,
                manifest.deep_view(),
                error_of(modules_result(modules)),
                match edges {
                    Ok(v) => Ok(v.deep_view()),
                    Err(e) => Err(e@),
                },
                grants.deep_view(),
                old(self).host(),
            ) {
                Some(e) => r is Err && r->Err_0@ == ErrorView::Validation(e) && final(self)@ == old(
                    self,
                )@,
                None => r is Ok && final(self)@ == registered(
                    old(self)@,
                    namespace@,
                    manifest.deep_view(),
                    plans.deep_view(),
                    modules_result(modules)->Ok_0,
                    edges->Ok_0.deep_view(),
                    grants.deep_view(),
                    old(self).host(),
                ),
            },
    {
        let plugin = manifest.name.as_str();
        let modules = match modules {
            Ok(v) => v,
            Err(e) => {
                return Err(KernelError::Validation(e));
            },
        };
        let edges = match edges {
            Ok(v) => v,
            Err(e) => {
                let mut w = begin(plugin, ": ");
                w.append(e.as_str());
                return Err(KernelError::Validation(w));
            },
        };
        let new = edges.as_slice();
        assert(new.deep_view() =~= edges.deep_view());
        match check_acyclic(self.registry.invoke_edges(), new) {
            Ok(()) => {},
            Err(e) => {
                let mut w = begin(plugin, ": ");
                w.append(e.as_str());
                return Err(KernelError::Validation(w));
            },
        }
        let given = grants.as_slice();
        assert(given.deep_view() =~= grants.deep_view());
        let tables = HostTables {
            trusted: self.trusted_step_type_providers.as_slice(),
            bindings: self.native_impl_bindings.as_slice(),
            natives: &self.native_step_impls,
            intrinsics: &self.intrinsic_step_impls,
        };
        proof {
            assert(tables.trusted.deep_view() =~= self.trusted_step_type_providers.deep_view());
            assert(tables.bindings.deep_view() =~= self.native_impl_bindings.deep_view());
        }
        let prepared = prepare_step_types(manifest, &self.registry, given, &tables)?;
        add_actions(&mut self.registry, plugin, &manifest.actions, plans);
        add_modules(&mut self.registry, plugin, modules);
        add_defs(&mut self.registry, plugin, prepared.defs);
        add_impls(
            &mut self.registry,
            &mut self.step_import_owners,
            &mut self.runtime,
            plugin,
            prepared.impls,
        );
        self.registry.extend_invoke_edges(edges);
        self.registry.register_manifest(manifest);
        let keys = self.spi_registry.role_keys_for(namespace, &manifest.roles);
        add_roles(&mut self.registry, plugin, &keys);
        self.registry.set_permissions(plugin, grants);
        add_aliases(
            &mut self.registry,
            &mut self.step_import_owners,
            &mut self.runtime,
            plugin,
            &manifest.step_types,
        );
        add_subscriptions(&mut self.registry, plugin, &manifest.actions);
        Ok(())
    }
}

/// Where no action is without a plan, every plan is there.
proof fn lemma_all_planned(
    plugin: Seq<char>,
    actions: Seq<(Seq<char>, ActionView)>,
    plans: Seq<Result<PlanView, Seq<char>>>,
    i: int,
)
    requires
        0 <= i,
        plans_fault(plugin, actions, plans, i) is None,
    ensures
        forall|j: int| i <= j < actions.len() ==> (#[trigger] plans[j]) is Ok,
    decreases actions.len() - i,
{
    if i < actions.len() {
        lemma_all_planned(plugin, actions, plans, i + 1);
    }
}

fn take_plans(plans: Vec<Result<DagPlan, String>>) -> (r: Vec<DagPlan>)
    requires
        forall|i: int| 0 <= i < plans@.len() ==> (#[trigger] plans@[i]) is Ok,
    ensures
        r@.len() == plans@.len(),
        forall|i: int| 0 <= i < plans@.len() ==> (#[trigger] r@[i]) == plans@[i]->Ok_0,
{
    let ghost all = plans@;
    let mut r: Vec<DagPlan> = Vec::new();
    for p in it: plans
        invariant
            it.seq() == all,
            it.index() <= all.len(),
            r@.len() == it.index(),
            forall|i: int| 0 <= i < all.len() ==> (#[trigger] all[i]) is Ok,
            forall|i: int| 0 <= i < it.index() ==> (#[trigger] r@[i]) == all[i]->Ok_0,
    {
        assert(all[it.index() as int] is Ok);
        if let Ok(plan) = p {
            r.push(plan);
        }
    }
    r
}

impl<F: Fn(&str) -> Result<(), String>> Kernel<F> {
    /// Registers a manifest in a namespace, or refuses it and changes nothing. Every way of
    /// registering a manifest leads through here.
    pub fn register_plugin_in_as(
        &mut self,
        namespace: &str,
        manifest: PluginManifest,
        kernel_owned: bool,
        survey: ManifestSurvey,
    ) -> (r: Result<(), KernelError>)
        requires
            old(self).wf(),
            survey.plans@.len() == manifest.actions@.len(),
        ensures
            final(self).wf(),
            final(self).booted_as(*old(self)),
            registration_outcome(
                old(self)@,
                old(self).host(),
                old(self).categories(),
                namespace@,
                manifest.deep_view(),
                kernel_owned,
                survey@,
                plain(r),
                final(self)@,
            ),
            r is Err ==> final(self)@ == old(self)@,
    {
        let ghost m = manifest.deep_view();
        let ghost q = with_identity(m, namespace@);
        let ghost before = self@;
        self.check_identity(namespace, &manifest, kernel_owned, &survey)?;
        let id = qualify(namespace, manifest.name.as_str());
        let local = manifest.name.clone();
        let mut manifest = manifest;
        manifest.name = id;
        assert(manifest.deep_view() == q);

        let raw = manifest.permissions.as_slice();
        assert(texts(raw@) =~= m.permissions);
        let read = parse_manifest_permissions(raw, self.app_permission_categories.as_slice());
        assert(permissions_outcome(m.permissions, self.categories(), permissions_result(read)));
        let grants = match read {
            Ok(v) => v,
            Err(e) => {
                let why = e.message();
                let mut w = begin(manifest.name.as_str(), ": permission parse error: ");
                w.append(why.as_str());
                return Err(KernelError::Validation(w));
            },
        };
        assert(grants.deep_view() =~= permissions_result(read)->Ok_0);

        let checked = self.check_contents(local.as_str(), &manifest, kernel_owned, &survey);
        let ghost languages = choose|languages: Seq<Seq<char>>|
            {
                &&& #[trigger] lists_languages(languages, before.registry, q.step_type_impls)
                &&& rejects(
                    checked,
                    contents_fault(before, m.name, q, kernel_owned, survey@, languages),
                )
            };
        assert(lists_languages(languages, before.registry, q.step_type_impls));
        if let Err(e) = checked {
            assert(contents_outcome(
                before,
                self.host(),
                namespace@,
                m,
                kernel_owned,
                survey@,
                grants.deep_view(),
                Err(e@),
                before,
            ));
            return Err(e);
        }
        proof {
            lemma_all_planned(q.name, q.actions, survey@.plans, 0);
            assert forall|i: int| 0 <= i < survey.plans@.len() implies (
            #[trigger] survey.plans@[i]) is Ok by {
                assert(survey@.plans[i] is Ok);
            }
        }
        let ghost known = survey@;
        let ManifestSurvey { contract_errors: _, plans, edges } = survey;
        let plans = take_plans(plans);
        assert(plans.deep_view() =~= plans_of(known));

        let modules = compile_modules(
            self.runtime.engine(),
            manifest.name.as_str(),
            &manifest.wasm_modules,
        );
        assert(modules_outcome(q.name, q.wasm_modules, modules_result(modules)));
        let ghost end = modules_result(modules);
        let r = self.finish_registration(namespace, &manifest, grants, plans, edges, modules);
        proof {
            assert(end_outcome(
                before,
                old(self).host(),
                namespace@,
                q,
                known,
                grants.deep_view(),
                plain(r),
                self@,
            ));
            assert(contents_outcome(
                before,
                old(self).host(),
                namespace@,
                m,
                kernel_owned,
                known,
                grants.deep_view(),
                plain(r),
                self@,
            ));
        }
        r
    }

    /// Registers an embedder's manifest in a namespace.
    pub fn register_plugin_in(
        &mut self,
        namespace: &str,
        manifest: PluginManifest,
        survey: ManifestSurvey,
    ) -> (r: Result<(), KernelError>)
        requires
            old(self).wf(),
            survey.plans@.len() == manifest.actions@.len(),
        ensures
            final(self).wf(),
            final(self).booted_as(*old(self)),
            registration_outcome(
                old(self)@,
                old(self).host(),
                old(self).categories(),
                namespace@,
                manifest.deep_view(),
                false,
                survey@,
                plain(r),
                final(self)@,
            ),
            r is Err ==> final(self)@ == old(self)@,
    {
        self.register_plugin_in_as(namespace, manifest, false, survey)
    }

    /// Registers an embedder's manifest in the root namespace.
    pub fn register_plugin(&mut self, manifest: PluginManifest, survey: ManifestSurvey) -> (r:
        Result<(), KernelError>)
        requires
            old(self).wf(),
            survey.plans@.len() == manifest.actions@.len(),
        ensures
            final(self).wf(),
            final(self).booted_as(*old(self)),
            registration_outcome(
                old(self)@,
                old(self).host(),
                old(self).categories(),
                Seq::<char>::empty(),
                manifest.deep_view(),
                false,
                survey@,
                plain(r),
                final(self)@,
            ),
            r is Err ==> final(self)@ == old(self)@,
    {
        proof {
            reveal_strlit("");
            assert(""@ =~= Seq::<char>::empty());
        }
        self.register_plugin_in("", manifest, survey)
    }
}

} // verus!
