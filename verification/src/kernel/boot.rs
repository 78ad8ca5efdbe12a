//! How a kernel is booted, and how documents are registered by their text.

use vstd::prelude::*;

use crate::classify::Reading;
use crate::config::{settle_limits, settled_limits, KernelConfig};
use crate::error::{ErrorView, KernelError};
use crate::identity::{name_fault, validate_name, NameKind};
use crate::json::{json_parsed, parse_json, Json, JsonView};
use crate::kernel::{plain, registration_outcome, Kernel, KernelView, ManifestSurvey};
use crate::kernel::lifecycle::{load_outcome, ManifestHandle, Preparation};
use crate::limits::RuntimeLimits;
use crate::native_impls::{
    entry_views, gathered, intrinsic_views, topped_up, IntrinsicStepImplEntry,
    IntrinsicStepImplTable, NativeStepImplEntry,
};
use crate::permissions::{category_name_fault, validate_app_category_name, AppPermissionCategory};
use crate::registration::{Host, NativeImplBinding};
use crate::registry::{PluginRegistry, RegistryView};
use crate::spi::SpiRegistry;
use crate::step_shapes::tells;
use crate::table::Table;
use crate::text::{cat2, cat5, same};
use crate::wasm_runtime::{engine_refused, BodyId, StepBody, WasmRuntime};

verus! {

/// The bindings of the engine's own bodies.
pub open spec fn intrinsic_bindings() -> Seq<(Seq<char>, Seq<char>)> {
    seq![
        ("gwead_intrinsics"@, "gwead.intrinsics.throw_error"@),
        ("gwead_intrinsics"@, "gwead.intrinsics.let"@),
    ]
}

/// A kernel in which nothing is registered.
pub open spec fn bare_kernel() -> KernelView {
    KernelView {
        registry: RegistryView::empty(),
        imports: Map::empty(),
        owners: Map::empty(),
        spi: Map::empty(),
        loaded: Map::empty(),
        role_users: Map::empty(),
        next_id: 1,
    }
}

/// The first category, from `i` on, whose name no manifest could spell.
pub open spec fn categories_fault<F: Fn(&str) -> Result<(), String>>(
    categories: Seq<AppPermissionCategory<F>>,
    i: int,
) -> Option<Seq<char>>
    decreases categories.len() - i,
{
    if i < 0 || i >= categories.len() {
        None
    } else if category_name_fault(categories[i].name_text()) is Some {
        category_name_fault(categories[i].name_text())
    } else {
        categories_fault(categories, i + 1)
    }
}

/// What the embedder and the host bring to a kernel that boots: the engine's bindings come first.
pub open spec fn booting_host<F: Fn(&str) -> Result<(), String>>(
    config: KernelConfig<F>,
    natives: Map<Seq<char>, BodyId>,
    intrinsics: Map<Seq<char>, BodyId>,
) -> Host {
    Host {
        trusted: config.trusted_step_type_providers.deep_view(),
        bindings: intrinsic_bindings() + config.native_impl_bindings.deep_view(),
        natives,
        intrinsics,
    }
}

/// The result of a boot: the error, or the kernel.
pub open spec fn boot_outcome<F: Fn(&str) -> Result<(), String>>(
    config: KernelConfig<F>,
    submitted: Seq<NativeStepImplEntry<BodyId>>,
    intrinsics: Seq<IntrinsicStepImplEntry<BodyId>>,
    json: Seq<char>,
    prep: Preparation,
    r: Result<Kernel<F>, KernelError>,
) -> bool {
    let (natives, stop) = topped_up(config.native_step_impls@, entry_views(submitted));
    let own = gathered(intrinsic_views(intrinsics));
    if stop is Some {
        r is Err && r->Err_0@ == ErrorView::Boot("native step impls: "@ + stop->0.text())
    } else if own is Err {
        r is Err && r->Err_0@ == ErrorView::Boot(
            "intrinsic step impls: "@ + own->Err_0.text(),
        )
    } else if categories_fault(config.app_permission_categories@, 0) is Some {
        r is Err && r->Err_0@ == ErrorView::Boot(
            "KernelConfig::app_permission_categories: "@ + categories_fault(
                config.app_permission_categories@,
                0,
            )->0,
        )
    } else {
        let host = booting_host(config, natives, own->Ok_0);
        match r {
            Ok(kernel) => {
                &&& kernel.wf()
                &&& kernel.host() == host
                &&& kernel.categories() == config.app_permission_categories@
                &&& kernel.limits_view() == settled_limits(
                    config.limits,
                    config.settings.deep_view(),
                )
                &&& load_outcome(
                    bare_kernel(),
                    host,
                    config.app_permission_categories@,
                    json,
                    Seq::<char>::empty(),
                    true,
                    prep,
                    Ok(ManifestHandle(1)),
                    kernel@,
                )
            },
            Err(e) => exists|why: ErrorView|
                {
                    &&& e@ == ErrorView::Boot("intrinsics manifest: "@ + why.text())
                    &&& #[trigger] load_outcome(
                        bare_kernel(),
                        host,
                        config.app_permission_categories@,
                        json,
                        Seq::<char>::empty(),
                        true,
                        prep,
                        Err(why),
                        bare_kernel(),
                    )
                },
        }
    }
}

fn check_categories<F: Fn(&str) -> Result<(), String>>(
    categories: &Vec<AppPermissionCategory<F>>,
) -> (r: Result<(), String>)
    ensures
        tells(r, categories_fault(categories@, 0)),
{
    let mut i: usize = 0;
    while i < categories.len()
        invariant
            i <= categories@.len(),
            categories_fault(categories@, 0) == categories_fault(categories@, i as int),
        decreases categories@.len() - i,
    {
        let category = &categories[i];
        assert(*category == categories@[i as int]);
        validate_app_category_name(category.name())?;
        i += 1;
    }
    Ok(())
}

fn all_bindings(given: Vec<NativeImplBinding>) -> (r: Vec<NativeImplBinding>)
    ensures
        r.deep_view() == intrinsic_bindings() + given.deep_view(),
{
    let mut r: Vec<NativeImplBinding> = Vec::new();
    r.push(
        NativeImplBinding::new(
            "gwead_intrinsics".to_owned(),
            "gwead.intrinsics.throw_error".to_owned(),
        ),
    );
    r.push(
        NativeImplBinding::new(
            "gwead_intrinsics".to_owned(),
            "gwead.intrinsics.let".to_owned(),
        ),
    );
    let ghost own = r@;
    let mut more = given;
    r.append(&mut more);
    assert(r.deep_view() =~= intrinsic_bindings() + given.deep_view());
    r
}

impl<F: Fn(&str) -> Result<(), String>> Kernel<F> {
    /// Boots a kernel on a runtime without bodies. `submitted` and `intrinsics` are the bodies that are compiled
    /// into the host; `json` is the manifest of the engine's own step types.
    pub fn boot_with(
        runtime: WasmRuntime,
        config: KernelConfig<F>,
        submitted: &[NativeStepImplEntry<BodyId>],
        intrinsics: &[IntrinsicStepImplEntry<BodyId>],
        json: &str,
        prep: Preparation,
    ) -> (r: Result<Self, KernelError>)
        requires
            runtime.wf(),
            runtime@ == Map::<Seq<char>, StepBody>::empty(),
            config.wf(),
            prep.fits(),
        ensures
            boot_outcome(config, submitted@, intrinsics@, json@, prep, r),
            r is Ok ==> r->Ok_0.engine_view() == runtime.engine_view(),
    {
        let limits = settle_limits(config.limits, &config.settings);
        let mut native_step_impls = config.native_step_impls;
        if let Err(c) = native_step_impls.ensure_from_entries(submitted) {
            let why = c.message();
            return Err(KernelError::Boot(cat2("native step impls: ", why.as_str())));
        }
        let intrinsic_step_impls = match IntrinsicStepImplTable::from_entries(intrinsics) {
            Ok(t) => t,
            Err(c) => {
                let why = c.message();
                return Err(KernelError::Boot(cat2("intrinsic step impls: ", why.as_str())));
            },
        };
        if let Err(why) = check_categories(&config.app_permission_categories) {
            return Err(
                KernelError::Boot(
                    cat2("KernelConfig::app_permission_categories: ", why.as_str()),
                ),
            );
        }
        let mut kernel = Kernel {
            runtime,
            registry: PluginRegistry::new(),
            spi_registry: SpiRegistry::new(),
            limits,
            native_step_impls,
            intrinsic_step_impls,
            trusted_step_type_providers: config.trusted_step_type_providers,
            native_impl_bindings: all_bindings(config.native_impl_bindings),
            app_permission_categories: config.app_permission_categories,
            next_manifest_id: 1,
            loaded_manifests: Table::new(),
            spi_role_users: Table::new(),
            step_import_owners: Table::new(),
        };
        proof {
            reveal_strlit("");
            assert(""@ =~= Seq::<char>::empty());
            assert(kernel@ == bare_kernel());
        }
        let ghost host = kernel.host();
        let ghost categories = kernel.categories();
        assert(host == booting_host(
            config,
            topped_up(config.native_step_impls@, entry_views(submitted@)).0,
            gathered(intrinsic_views(intrinsics@))->Ok_0,
        ));
        match kernel.load_manifest_internal(json, "", true, prep) {
            Ok(handle) => {
                assert(handle == ManifestHandle(1));
                Ok(kernel)
            },
            Err(e) => {
                let why = e.message();
                assert(load_outcome(
                    bare_kernel(),
                    host,
                    categories,
                    json@,
                    Seq::<char>::empty(),
                    true,
                    prep,
                    Err(e@),
                    bare_kernel(),
                ));
                Err(KernelError::Boot(cat2("intrinsics manifest: ", why.as_str())))
            },
        }
    }

    /// Boots a kernel. Where no engine can be had, the error tells why; else the outcome is that of
    /// [`Kernel::boot_with`].
    pub fn boot(
        config: KernelConfig<F>,
        submitted: &[NativeStepImplEntry<BodyId>],
        intrinsics: &[IntrinsicStepImplEntry<BodyId>],
        json: &str,
        prep: Preparation,
    ) -> (r: Result<Self, KernelError>)
        requires
            config.wf(),
            prep.fits(),
        ensures
            boot_outcome(config, submitted@, intrinsics@, json@, prep, r) || (r is Err
                && engine_refused(r->Err_0@)),
    {
        let runtime = WasmRuntime::new()?;
        Self::boot_with(runtime, config, submitted, intrinsics, json, prep)
    }

    /// The registry.
    pub fn registry(&self) -> (r: &PluginRegistry)
        requires
            self.wf(),
        ensures
            r.wf(),
            r@ == self@.registry,
    {
        &self.registry
    }

    /// The contracts of roles.
    pub fn spi_registry(&self) -> (r: &SpiRegistry)
        requires
            self.wf(),
        ensures
            r.wf(),
            r@ == self@.spi,
    {
        &self.spi_registry
    }

    /// The bodies that actions can call.
    pub fn runtime(&self) -> (r: &WasmRuntime)
        requires
            self.wf(),
        ensures
            r.wf(),
            r@ == self@.imports,
            r.engine_view() == self.engine_view(),
    {
        &self.runtime
    }

    /// The limits within which actions run.
    pub fn limits(&self) -> (r: &RuntimeLimits)
        requires
            self.wf(),
        ensures
            *r == self.limits_view(),
            r.wf(),
    {
        &self.limits
    }
}

/// What comes of registering a contract under a role by its text: the role is a name, the text is
/// JSON that meets the schema, the document names the same role, and it can be loaded.
pub open spec fn spi_fault(
    role: Seq<char>,
    text: Seq<char>,
    schema: Result<(), String>,
    contract: Result<(), KernelError>,
) -> Option<ErrorView> {
    if name_fault(NameKind::Role, role) is Some {
        Some(ErrorView::Validation(name_fault(NameKind::Role, role)->0.text()))
    } else {
        match json_parsed(text) {
            Err(e) => Some(ErrorView::Validation("manifest is not valid JSON: "@ + e)),
            Ok(doc) => document_fault(role, doc, schema, contract),
        }
    }
}

/// What is wrong with the document of a contract that is registered under a role.
pub open spec fn document_fault(
    role: Seq<char>,
    doc: JsonView,
    schema: Result<(), String>,
    contract: Result<(), KernelError>,
) -> Option<ErrorView> {
    if schema is Err {
        Some(ErrorView::Validation(schema->Err_0@))
    } else {
        match doc.get_str("name"@) {
            Some(declared) if declared != role => Some(
                ErrorView::Validation(
                    "SPI definition declares name '"@ + declared
                        + "' but was registered under role '"@ + role
                        + "'. The two must agree — the role is the key that 'invoke:role:' grants name, and the document is what an operator reads."@,
                ),
            ),
            _ => match contract {
                Err(e) => Some(e@),
                Ok(_) => None,
            },
        }
    }
}

/// Holds the document of a contract to its schema, and to the role under which it is to be registered:
/// the two names have to agree.
pub fn check_document(role: &str, doc: &Json, schema: Result<(), String>) -> (r: Result<
    (),
    KernelError,
>)
    ensures
        match document_fault(role@, doc@, schema, Ok(())) {
            None => r is Ok,
            Some(e) => r is Err && r->Err_0@ == e,
        },
{
    if let Err(e) = schema {
        return Err(KernelError::Validation(e));
    }
    if let Some(declared) = doc.get_str("name") {
        if !same(declared, role) {
            let mut w = cat5(
                "SPI definition declares name '",
                declared,
                "' but was registered under role '",
                role,
                "'. The two must agree — the role is the key that 'invoke:role:' grants name, and the document is what an operator reads.",
            );
            return Err(KernelError::Validation(w));
        }
    }
    Ok(())
}

impl<F: Fn(&str) -> Result<(), String>> Kernel<F> {
    /// Registers a contract under a role by its text, given whether the text meets the schema and
    /// whether the contract can be loaded.
    pub fn register_spi_from_json(
        &mut self,
        role: &str,
        json: &str,
        schema: Result<(), String>,
        contract: Result<(), KernelError>,
    ) -> (r: Result<(), KernelError>)
        requires
            old(self).wf(),
        ensures
            final(self).wf(),
            final(self).booted_as(*old(self)),
            match spi_fault(role@, json@, schema, contract) {
                Some(e) => r is Err && r->Err_0@ == e && final(self)@ == old(self)@,
                None => r is Ok && final(self)@ == (KernelView {
                    spi: old(self)@.spi.insert(role@, json@),
                    ..old(self)@
                }),
            },
    {
        if let Err(e) = validate_name(NameKind::Role, role) {
            return Err(KernelError::Validation(e.message()));
        }
        let doc = match parse_json(json) {
            Ok(doc) => doc,
            Err(e) => {
                return Err(
                    KernelError::Validation(cat2("manifest is not valid JSON: ", e.as_str())),
                );
            },
        };
        check_document(role, &doc, schema)?;
        self.spi_registry.register(role, json, contract)
    }

    /// Registers a plugin in the root namespace by its text, given what is made of the document from
    /// outside.
    pub fn register_plugin_from_json(
        &mut self,
        json: &str,
        reading: Reading,
        survey: ManifestSurvey,
    ) -> (r: Result<(), KernelError>)
        requires
            old(self).wf(),
            reading.plugin is Ok ==> survey.plans@.len() == reading.plugin->Ok_0.actions@.len(),
        ensures
            final(self).wf(),
            final(self).booted_as(*old(self)),
            match (json_parsed(json@), reading.schema, reading.plugin) {
                (Err(e), _, _) => r is Err && r->Err_0@ == ErrorView::Validation(
                    "manifest is not valid JSON: "@ + e,
                ),
                (Ok(_), Err(e), _) => r is Err && r->Err_0@ == ErrorView::Validation(e@),
                (Ok(_), Ok(_), Err(e)) => r is Err && r->Err_0@ == ErrorView::Validation(
                    "Plugin manifest JSON parse failed: "@ + e@,
                ),
                (Ok(_), Ok(_), Ok(m)) => registration_outcome(
                    old(self)@,
                    old(self).host(),
                    old(self).categories(),
                    Seq::<char>::empty(),
                    m.deep_view(),
                    false,
                    survey@,
                    plain(r),
                    final(self)@,
                ),
            },
            r is Err ==> final(self)@ == old(self)@,
    {
        if let Err(e) = parse_json(json) {
            return Err(KernelError::Validation(cat2("manifest is not valid JSON: ", e.as_str())));
        }
        let Reading { schema, plugin } = reading;
        if let Err(e) = schema {
            return Err(KernelError::Validation(e));
        }
        match plugin {
            Ok(m) => self.register_plugin(m, survey),
            Err(e) => Err(
                KernelError::Validation(cat2("Plugin manifest JSON parse failed: ", e.as_str())),
            ),
        }
    }
}

} // verus!
