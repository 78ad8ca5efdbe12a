//! What an embedder gives a kernel to boot with.

use vstd::prelude::*;

use crate::identity::{qualified, qualify};
use crate::json::{Json, JsonView, Number, NumberView};
use crate::limits::{are_default, RuntimeLimits, Timeout};
use crate::native_impls::NativeStepImplTable;
use crate::permissions::AppPermissionCategory;
use crate::registration::{NativeImplBinding, TrustedProvider};
use crate::text::same;
use crate::wasm_runtime::BodyId;

verus! {

/// What an embedder gives a kernel to boot with.
pub struct KernelConfig<F: Fn(&str) -> Result<(), String>> {
    pub native_step_impls: NativeStepImplTable<BodyId>,
    pub settings: Option<Json>,
    pub limits: RuntimeLimits,
    pub trusted_step_type_providers: Vec<TrustedProvider>,
    pub native_impl_bindings: Vec<NativeImplBinding>,
    pub app_permission_categories: Vec<AppPermissionCategory<F>>,
}

impl<F: Fn(&str) -> Result<(), String>> Default for KernelConfig<F> {
    fn default() -> (r: Self)
        ensures
            r.wf(),
            r.native_step_impls@ == Map::<Seq<char>, BodyId>::empty(),
            r.settings is None,
            are_default(r.limits),
            r.trusted_step_type_providers@.len() == 0,
            r.native_impl_bindings@.len() == 0,
            r.app_permission_categories@.len() == 0,
    {
        KernelConfig {
            native_step_impls: NativeStepImplTable::empty(),
            settings: None,
            limits: RuntimeLimits::default(),
            trusted_step_type_providers: Vec::new(),
            native_impl_bindings: Vec::new(),
            app_permission_categories: Vec::new(),
        }
    }
}

/// Categories by other names.
pub open spec fn named_otherwise<F: Fn(&str) -> Result<(), String>>(name: Seq<char>) -> spec_fn(
    AppPermissionCategory<F>,
) -> bool {
    |c: AppPermissionCategory<F>| c.name_text() != name
}

impl<F: Fn(&str) -> Result<(), String>> KernelConfig<F> {
    /// No native body has two names, the spans of time are proper, and the checks on permission
    /// values can be run on every value.
    pub open spec fn wf(&self) -> bool {
        &&& self.native_step_impls.wf()
        &&& self.limits.wf()
        &&& forall|i: int|
            0 <= i < self.app_permission_categories@.len() ==> (
            #[trigger] self.app_permission_categories@[i]).is_total()
    }

    #[must_use]
    pub fn with_native_step_impls(self, table: NativeStepImplTable<BodyId>) -> (r: Self)
        ensures
            r == (KernelConfig { native_step_impls: table, ..self }),
    {
        KernelConfig { native_step_impls: table, ..self }
    }

    #[must_use]
    pub fn with_settings(self, settings: Json) -> (r: Self)
        ensures
            r == (KernelConfig { settings: Some(settings), ..self }),
    {
        KernelConfig { settings: Some(settings), ..self }
    }

    #[must_use]
    pub fn with_limits(self, limits: RuntimeLimits) -> (r: Self)
        ensures
            r == (KernelConfig { limits, ..self }),
    {
        KernelConfig { limits, ..self }
    }

    /// Lets the plugin with this identity supply step types that others define.
    #[must_use]
    pub fn trusting_step_type_provider(self, plugin: String) -> (r: Self)
        ensures
            r == (KernelConfig {
                trusted_step_type_providers: r.trusted_step_type_providers,
                ..self
            }),
            r.trusted_step_type_providers.deep_view()
                == self.trusted_step_type_providers.deep_view().push(plugin@),
    {
        let mut trusted = self.trusted_step_type_providers;
        let ghost before = trusted.deep_view();
        trusted.push(TrustedProvider::new(plugin));
        assert(trusted.deep_view() =~= before.push(plugin@));
        KernelConfig { trusted_step_type_providers: trusted, ..self }
    }

    /// Lets a plugin of a namespace supply step types that others define.
    #[must_use]
    pub fn trusting_step_type_provider_in(self, namespace: &str, plugin: &str) -> (r: Self)
        ensures
            r == (KernelConfig {
                trusted_step_type_providers: r.trusted_step_type_providers,
                ..self
            }),
            r.trusted_step_type_providers.deep_view()
                == self.trusted_step_type_providers.deep_view().push(
                qualified(namespace@, plugin@),
            ),
    {
        self.trusting_step_type_provider(qualify(namespace, plugin))
    }

    /// Lets exactly these plugins supply step types that others define.
    #[must_use]
    pub fn with_trusted_step_type_providers(self, plugins: Vec<TrustedProvider>) -> (r: Self)
        ensures
            r == (KernelConfig { trusted_step_type_providers: plugins, ..self }),
    {
        KernelConfig { trusted_step_type_providers: plugins, ..self }
    }

    /// Lets the plugin with this identity bind one native body.
    #[must_use]
    pub fn allowing_native_impl_binding(self, binder: String, impl_ref: String) -> (r: Self)
        ensures
            r == (KernelConfig { native_impl_bindings: r.native_impl_bindings, ..self }),
            r.native_impl_bindings.deep_view() == self.native_impl_bindings.deep_view().push(
                (binder@, impl_ref@),
            ),
    {
        let mut bindings = self.native_impl_bindings;
        let ghost before = bindings.deep_view();
        bindings.push(NativeImplBinding::new(binder, impl_ref));
        assert(bindings.deep_view() =~= before.push((binder@, impl_ref@)));
        KernelConfig { native_impl_bindings: bindings, ..self }
    }

    /// Defines a permission category that takes any value, in place of an earlier one by that name.
    #[must_use]
    pub fn defining_app_permission_category(self, name: String) -> (r: Self)
        ensures
            r == (KernelConfig { app_permission_categories: r.app_permission_categories, ..self }),
            r.app_permission_categories@.len() > 0,
            r.app_permission_categories@.drop_last() == self.app_permission_categories@.filter(
                named_otherwise(name@),
            ),
            r.app_permission_categories@.last().name_text() == name@,
            r.app_permission_categories@.last().check() is None,
    {
        self.defining_app_permission_category_as(AppPermissionCategory::new(name))
    }

    /// Defines a permission category, in place of an earlier one by that name.
    #[must_use]
    pub fn defining_app_permission_category_as(self, category: AppPermissionCategory<F>) -> (r:
        Self)
        ensures
            r == (KernelConfig { app_permission_categories: r.app_permission_categories, ..self }),
            r.app_permission_categories@.len() > 0,
            r.app_permission_categories@.drop_last() == self.app_permission_categories@.filter(
                named_otherwise(category.name_text()),
            ),
            r.app_permission_categories@.last() == category,
    {
        let ghost name = category.name_text();
        let mut kept: Vec<AppPermissionCategory<F>> = Vec::new();
        let all = self.app_permission_categories;
        let ghost before = all@;
        assert(before.take(0).filter(named_otherwise(name)) =~= Seq::empty()) by {
            reveal(Seq::filter);
        }
        for c in it: all
            invariant
                it.seq() == before,
                it.index() <= before.len(),
                name == category.name_text(),
                kept@ == before.take(it.index() as int).filter(named_otherwise(name)),
        {
            let ghost t = before.take(it.index() as int + 1);
            proof {
                assert(t.drop_last() =~= before.take(it.index() as int));
                assert(t.last() == c);
                reveal(Seq::filter);
            }
            if !same(c.name(), category.name()) {
                kept.push(c);
            }
        }
        assert(before.take(before.len() as int) =~= before);
        kept.push(category);
        assert(kept@.drop_last() =~= before.filter(named_otherwise(name)));
        KernelConfig { app_permission_categories: kept, ..self }
    }
}

/// The milliseconds that the settings give as the default deadline: a whole number above zero.
pub open spec fn default_deadline(settings: Option<JsonView>) -> Option<u64> {
    match settings {
        Some(s) => match s.get("defaultWallclockTimeoutMs"@) {
            Some(JsonView::Number(NumberView::PosInt(ms))) => if ms > 0 {
                Some(ms)
            } else {
                None
            },
            _ => None,
        },
        None => None,
    }
}

/// The limits under given settings.
pub open spec fn settled_limits(limits: RuntimeLimits, settings: Option<JsonView>) -> RuntimeLimits {
    match default_deadline(settings) {
        Some(ms) => RuntimeLimits {
            default_wallclock_timeout: Timeout {
                secs: ms / 1000,
                nanos: ((ms % 1000) * 1_000_000) as u32,
            },
            ..limits
        },
        None => limits,
    }
}

/// The limits under given settings: a default deadline there takes the place of the configured one.
pub fn settle_limits(limits: RuntimeLimits, settings: &Option<Json>) -> (r: RuntimeLimits)
    ensures
        r == settled_limits(limits, settings.deep_view()),
        limits.wf() ==> r.wf(),
{
    if let Some(s) = settings {
        if let Some(Json::Number(Number::PosInt(ms))) = s.get("defaultWallclockTimeoutMs") {
            if *ms > 0 {
                return RuntimeLimits {
                    default_wallclock_timeout: Timeout::from_millis(*ms),
                    ..limits
                };
            }
        }
    }
    limits
}

} // verus!
