//! The step types that a manifest defines and supplies, checked and resolved before any of them is
//! registered.

use vstd::prelude::*;

use crate::duplicate::Duplicate;
use crate::error::{ErrorView, KernelError};
use crate::identity::{
    impl_ref_owner, local_name_of, local_part, namespace_of, namespace_part, owner_of_impl_ref,
};
use crate::json::{lookup, Json, JsonView};
use crate::manifest::{
    ManifestView, PluginManifest, StepTypeDef, StepTypeDefView, StepTypeImpl, StepTypeImplKind,
    StepTypeImplView,
};
use crate::manifest_checks::{has_key, of_plugin};
use crate::native_impls::{IntrinsicStepImplTable, NativeStepImplTable};
use crate::permissions::{Permission, PermissionView};
use crate::registry::{at, step_type_key_of, PluginRegistry, RegistryView};
use crate::step_shapes::{either, tells};
use crate::text::{cat3, cat4, cat5, same};
use crate::wasm_runtime::BodyId;

verus! {

/// A plugin that the embedder lets supply the bodies of step types that others define.
#[derive(Debug, Clone, PartialEq, Eq)]
pub struct TrustedProvider {
    pub identity: String,
}

impl TrustedProvider {
    /// Trust in the plugin with this identity.
    pub fn new(identity: String) -> (r: Self)
        ensures
            r.identity == identity,
    {
        TrustedProvider { identity }
    }
}

impl DeepView for TrustedProvider {
    type V = Seq<char>;

    open spec fn deep_view(&self) -> Seq<char> {
        self.identity@
    }
}

/// A plugin that the embedder lets bind a body that it did not ship.
#[derive(Debug, Clone, PartialEq, Eq)]
pub struct NativeImplBinding {
    pub binder: String,
    pub impl_ref: String,
}

impl NativeImplBinding {
    /// Leave for `binder` to bind the body `impl_ref`.
    pub fn new(binder: String, impl_ref: String) -> (r: Self)
        ensures
            r.binder == binder,
            r.impl_ref == impl_ref,
    {
        NativeImplBinding { binder, impl_ref }
    }
}

impl DeepView for NativeImplBinding {
    type V = (Seq<char>, Seq<char>);

    open spec fn deep_view(&self) -> (Seq<char>, Seq<char>) {
        (self.binder@, self.impl_ref@)
    }
}

fn begin(plugin: &str, rest: &str) -> (r: String)
    ensures
        r@ == of_plugin(plugin@) + rest@,
{
    cat4("Plugin '", plugin, "'", rest)
}

/// How a message speaks of the owner of a body.
pub open spec fn owner_text(plugin: Seq<char>, impl_ref: Seq<char>) -> Seq<char> {
    let local = local_part(plugin);
    match owner_of_impl_ref(impl_ref) {
        Some(owner) => if owner == local {
            "plugin '"@ + local + "' as shipped by the embedder. This plugin is also named '"@
                + local + "', but it is registered in namespace '"@ + namespace_part(plugin)
                + "' rather than the root namespace, so it is not the party that shipped the body and does not inherit ownership of it"@
        } else {
            "plugin '"@ + owner + "'"@
        },
        None =>
            "another plugin (the implRef is not in <owner>.<plugin>.<step> form, so no owner can be derived from it)"@,
    }
}

/// A plugin owns a body where it is in the root namespace and the body's name says so.
pub open spec fn owns_body(plugin: Seq<char>, impl_ref: Seq<char>) -> bool {
    namespace_part(plugin).len() == 0 && owner_of_impl_ref(impl_ref) == Some(local_part(plugin))
}

/// What is wrong with a plugin's binding of a body: it owns the body, or it declares the binding and
/// the embedder authorises exactly that binding.
pub open spec fn binding_fault(
    plugin: Seq<char>,
    step_type: Seq<char>,
    impl_ref: Seq<char>,
    grants: Seq<PermissionView>,
    bindings: Seq<(Seq<char>, Seq<char>)>,
) -> Option<Seq<char>> {
    if owns_body(plugin, impl_ref) {
        None
    } else if !grants.contains(PermissionView::BindNativeImpl(impl_ref)) {
        Some(
            of_plugin(plugin) + ": step_type_impls entry for '"@ + step_type
                + "' binds native implRef '"@ + impl_ref + "', which belongs to "@ + owner_text(
                plugin,
                impl_ref,
            )
                + ", but the manifest does not declare the matching permission. Add \"bind:native_impl:"@
                + impl_ref
                + "\" to `permissions`. Binding another plugin's native body means running privileged code you did not ship, so the claim has to be stated in the manifest an operator reviews"@,
        )
    } else if !bindings.contains((plugin, impl_ref)) {
        Some(
            of_plugin(plugin) + ": step_type_impls entry for '"@ + step_type
                + "' declares \"bind:native_impl:"@ + impl_ref
                + "\" but the embedder has not authorised that binding. The body belongs to "@
                + owner_text(plugin, impl_ref)
                + "; add the pair via KernelConfig::allowing_native_impl_binding(\""@ + plugin
                + "\", \""@ + impl_ref + "\") to permit it"@,
        )
    } else {
        None
    }
}

fn owner_words(plugin: &str, impl_ref: &str) -> (r: String)
    ensures
        r@ == owner_text(plugin@, impl_ref@),
{
    let local = local_name_of(plugin);
    match impl_ref_owner(impl_ref) {
        Some(owner) => if same(owner, local) {
            let mut w = cat5(
                "plugin '",
                local,
                "' as shipped by the embedder. This plugin is also named '",
                local,
                "', but it is registered in namespace '",
            );
            w.append(namespace_of(plugin));
            w.append(
                "' rather than the root namespace, so it is not the party that shipped the body and does not inherit ownership of it",
            );
            w
        } else {
            cat3("plugin '", owner, "'")
        },
        None =>
            "another plugin (the implRef is not in <owner>.<plugin>.<step> form, so no owner can be derived from it)".to_owned(),
    }
}

fn declares_binding(grants: &[Permission], impl_ref: &str) -> (r: bool)
    ensures
        r == grants.deep_view().contains(PermissionView::BindNativeImpl(impl_ref@)),
{
    let ghost views = grants.deep_view();
    let ghost wanted = PermissionView::BindNativeImpl(impl_ref@);
    let mut i: usize = 0;
    while i < grants.len()
        invariant
            i <= grants@.len(),
            views == grants.deep_view(),
            wanted == PermissionView::BindNativeImpl(impl_ref@),
            forall|j: int| 0 <= j < i ==> (#[trigger] views[j]) != wanted,
        decreases grants@.len() - i,
    {
        assert(views[i as int] == grants@[i as int]@);
        if let Permission::BindNativeImpl(r) = &grants[i] {
            if same(r.as_str(), impl_ref) {
                assert(views[i as int] == wanted);
                return true;
            }
        }
        i += 1;
    }
    false
}

fn allows_binding(bindings: &[NativeImplBinding], plugin: &str, impl_ref: &str) -> (r: bool)
    ensures
        r == bindings.deep_view().contains((plugin@, impl_ref@)),
{
    let ghost views = bindings.deep_view();
    let mut i: usize = 0;
    while i < bindings.len()
        invariant
            i <= bindings@.len(),
            views == bindings.deep_view(),
            forall|j: int| 0 <= j < i ==> (#[trigger] views[j]) != (plugin@, impl_ref@),
        decreases bindings@.len() - i,
    {
        assert(views[i as int] == bindings@[i as int].deep_view());
        if same(bindings[i].binder.as_str(), plugin) && same(
            bindings[i].impl_ref.as_str(),
            impl_ref,
        ) {
            return true;
        }
        i += 1;
    }
    false
}

/// Whether a plugin may bind a body.
pub fn check_native_impl_binding(
    plugin: &str,
    step_type: &str,
    impl_ref: &str,
    grants: &[Permission],
    bindings: &[NativeImplBinding],
) -> (r: Result<(), String>)
    ensures
        tells(
            r,
            binding_fault(
                plugin@,
                step_type@,
                impl_ref@,
                grants.deep_view(),
                bindings.deep_view(),
            ),
        ),
{
    let namespace = namespace_of(plugin);
    let local = local_name_of(plugin);
    let owns_by_name = match impl_ref_owner(impl_ref) {
        Some(owner) => same(owner, local),
        None => false,
    };
    if owns_by_name && namespace.unicode_len() == 0 {
        return Ok(());
    }
    if !declares_binding(grants, impl_ref) {
        let owner = owner_words(plugin, impl_ref);
        let mut w = begin(plugin, ": step_type_impls entry for '");
        w.append(step_type);
        w.append("' binds native implRef '");
        w.append(impl_ref);
        w.append("', which belongs to ");
        w.append(owner.as_str());
        w.append(
            ", but the manifest does not declare the matching permission. Add \"bind:native_impl:",
        );
        w.append(impl_ref);
        w.append(
            "\" to `permissions`. Binding another plugin's native body means running privileged code you did not ship, so the claim has to be stated in the manifest an operator reviews",
        );
        return Err(w);
    }
    if !allows_binding(bindings, plugin, impl_ref) {
        let owner = owner_words(plugin, impl_ref);
        let mut w = begin(plugin, ": step_type_impls entry for '");
        w.append(step_type);
        w.append("' declares \"bind:native_impl:");
        w.append(impl_ref);
        w.append("\" but the embedder has not authorised that binding. The body belongs to ");
        w.append(owner.as_str());
        w.append("; add the pair via KernelConfig::allowing_native_impl_binding(\"");
        w.append(plugin);
        w.append("\", \"");
        w.append(impl_ref);
        w.append("\") to permit it");
        return Err(w);
    }
    Ok(())
}

/// The slot that a body fills, for a message.
pub open spec fn slot_text(step_type: Seq<char>, matches: Option<Seq<char>>) -> Seq<char> {
    match matches {
        Some(m) => step_type + ":"@ + m,
        None => step_type,
    }
}

/// The plugin that defines a step type, for a message.
pub open spec fn definer_text(
    registry: RegistryView,
    plugin: Seq<char>,
    step_type: Seq<char>,
) -> Seq<char> {
    match at(registry.step_type_defs, step_type_key_of(plugin, step_type)) {
        Some(def) => def.0,
        None => "another plugin"@,
    }
}

/// What is wrong with a plugin's claim to supply a step type: it defines the step type itself, or it
/// declares the claim and the embedder trusts it.
pub open spec fn claim_fault(
    registry: RegistryView,
    plugin: Seq<char>,
    step_type: Seq<char>,
    matches: Option<Seq<char>>,
    defines_locally: bool,
    grants: Seq<PermissionView>,
    trusted: Seq<Seq<char>>,
) -> Option<Seq<char>> {
    let slot = slot_text(step_type, matches);
    let owner = definer_text(registry, plugin, step_type);
    if defines_locally {
        None
    } else if !grants.contains(
        PermissionView::ProvideStepType { step_type, selector: matches },
    ) {
        Some(
            of_plugin(plugin) + ": step_type_impls entry for '"@ + slot
                + "' claims a step type defined by '"@ + owner
                + "', but the manifest does not declare the matching permission. Add \"provide:step_type:"@
                + slot
                + "\" to `permissions`. Supplying an implementation means every plugin's steps of this type execute inside your code, so the claim has to be stated in the manifest an operator reviews"@,
        )
    } else if !trusted.contains(plugin) {
        Some(
            of_plugin(plugin) + ": step_type_impls entry for '"@ + slot
                + "' declares \"provide:step_type:"@ + slot + "\" but '"@ + plugin
                + "' is not in the embedder's `trusted_step_type_providers`. Supplying the implementation behind a step type defined by '"@
                + owner
                + "' means every plugin's steps of this type run inside this plugin's code; add it to KernelConfig::trusted_step_type_providers to authorise that"@,
        )
    } else {
        None
    }
}

fn declares_provision(grants: &[Permission], step_type: &str, matches: Option<&str>) -> (r: bool)
    ensures
        r == grants.deep_view().contains(
            PermissionView::ProvideStepType {
                step_type: step_type@,
                selector: matches.deep_view(),
            },
        ),
{
    let ghost views = grants.deep_view();
    let ghost wanted = PermissionView::ProvideStepType {
        step_type: step_type@,
        selector: matches.deep_view(),
    };
    let mut i: usize = 0;
    while i < grants.len()
        invariant
            i <= grants@.len(),
            views == grants.deep_view(),
            wanted == (PermissionView::ProvideStepType {
                step_type: step_type@,
                selector: matches.deep_view(),
            }),
            forall|j: int| 0 <= j < i ==> (#[trigger] views[j]) != wanted,
        decreases grants@.len() - i,
    {
        assert(views[i as int] == grants@[i as int]@);
        if let Permission::ProvideStepType { step_type: t, selector } = &grants[i] {
            let same_selector = match (selector, matches) {
                (Some(a), Some(b)) => same(a.as_str(), b),
                (None, None) => true,
                _ => false,
            };
            if same(t.as_str(), step_type) && same_selector {
                assert(views[i as int] == wanted);
                return true;
            }
        }
        i += 1;
    }
    false
}

fn trusts(trusted: &[TrustedProvider], plugin: &str) -> (r: bool)
    ensures
        r == trusted.deep_view().contains(plugin@),
{
    let ghost views = trusted.deep_view();
    let mut i: usize = 0;
    while i < trusted.len()
        invariant
            i <= trusted@.len(),
            views == trusted.deep_view(),
            forall|j: int| 0 <= j < i ==> (#[trigger] views[j]) != plugin@,
        decreases trusted@.len() - i,
    {
        assert(views[i as int] == trusted@[i as int].deep_view());
        if same(trusted[i].identity.as_str(), plugin) {
            return true;
        }
        i += 1;
    }
    false
}

/// Whether a plugin may supply the body of a step type.
pub fn check_step_type_impl_claim(
    registry: &PluginRegistry,
    plugin: &str,
    step_type: &str,
    matches: Option<&str>,
    defines_locally: bool,
    grants: &[Permission],
    trusted: &[TrustedProvider],
) -> (r: Result<(), String>)
    requires
        registry.wf(),
    ensures
        tells(
            r,
            claim_fault(
                registry@,
                plugin@,
                step_type@,
                matches.deep_view(),
                defines_locally,
                grants.deep_view(),
                trusted.deep_view(),
            ),
        ),
{
    if defines_locally {
        return Ok(());
    }
    let slot = match matches {
        Some(m) => cat3(step_type, ":", m),
        None => step_type.to_owned(),
    };
    let key = PluginRegistry::step_type_key(plugin, step_type);
    let owner = match registry.get_step_type_def(key.as_str()) {
        Some((p, _)) => p,
        None => "another plugin",
    };
    if !declares_provision(grants, step_type, matches) {
        let mut w = begin(plugin, ": step_type_impls entry for '");
        w.append(slot.as_str());
        w.append("' claims a step type defined by '");
        w.append(owner);
        w.append(
            "', but the manifest does not declare the matching permission. Add \"provide:step_type:",
        );
        w.append(slot.as_str());
        w.append(
            "\" to `permissions`. Supplying an implementation means every plugin's steps of this type execute inside your code, so the claim has to be stated in the manifest an operator reviews",
        );
        return Err(w);
    }
    if !trusts(trusted, plugin) {
        let mut w = begin(plugin, ": step_type_impls entry for '");
        w.append(slot.as_str());
        w.append("' declares \"provide:step_type:");
        w.append(slot.as_str());
        w.append("\" but '");
        w.append(plugin);
        w.append(
            "' is not in the embedder's `trusted_step_type_providers`. Supplying the implementation behind a step type defined by '",
        );
        w.append(owner);
        w.append(
            "' means every plugin's steps of this type run inside this plugin's code; add it to KernelConfig::trusted_step_type_providers to authorise that",
        );
        return Err(w);
    }
    Ok(())
}

/// A metadata schema declares the key `result`, which is a step's own value.
pub open spec fn declares_result(schema: Option<JsonView>) -> bool {
    match schema {
        Some(s) => match s.get("properties"@) {
            Some(JsonView::Object(props)) => lookup(props, "result"@) is Some,
            _ => false,
        },
        None => false,
    }
}

/// The first fault of the step types that a manifest defines, from `i` on: a definition leaves
/// `result` alone, and nobody, the manifest included, has given it before.
pub open spec fn defs_fault(
    plugin: Seq<char>,
    defs: Seq<StepTypeDefView>,
    registry: RegistryView,
    i: int,
) -> Option<Seq<char>>
    decreases defs.len() - i,
{
    if i < 0 || i >= defs.len() {
        None
    } else if declares_result(defs[i].metadata_schema) {
        Some(
            of_plugin(plugin) + ": step type '"@ + defs[i].name
                + "' metadataSchema declares the reserved key 'result' — that is the value slot (`{{$steps.<id>.result}}`), not a metadata sidecar"@,
        )
    } else {
        match at(registry.step_type_defs, step_type_key_of(plugin, defs[i].name)) {
            Some(existing) => Some(
                of_plugin(plugin) + ": step_type_defs entry '"@ + defs[i].name
                    + "' already registered by plugin '"@ + existing.0 + "'"@,
            ),
            None => if exists|j: int| 0 <= j < i && (#[trigger] defs[j]).name == defs[i].name {
                Some(
                    of_plugin(plugin) + ": step_type_defs entry '"@ + defs[i].name
                        + "' is declared twice in this manifest"@,
                )
            } else {
                defs_fault(plugin, defs, registry, i + 1)
            },
        }
    }
}

/// A manifest defines a step type.
pub open spec fn defines(defs: Seq<StepTypeDefView>, step_type: Seq<char>) -> bool {
    exists|j: int| 0 <= j < defs.len() && (#[trigger] defs[j]).name == step_type
}

/// How a message speaks of a selector.
pub open spec fn selector_text(matches: Option<Seq<char>>) -> Seq<char> {
    match matches {
        Some(m) => " (matches: '"@ + m + "')"@,
        None => Seq::empty(),
    }
}

/// The words that begin a message on a supplied body.
pub open spec fn of_impl(plugin: Seq<char>, step_type: Seq<char>) -> Seq<char> {
    of_plugin(plugin) + ": step_type_impls entry for '"@ + step_type + "'"@
}

/// What is wrong with the fields of a body that is found by its implRef.
pub open spec fn impl_ref_fields_fault(
    plugin: Seq<char>,
    d: StepTypeImplView,
    kind: Seq<char>,
) -> Option<Seq<char>> {
    if d.impl_ref is None {
        Some(of_impl(plugin, d.step_type) + " has kind: \""@ + kind + "\" but no `implRef` field"@)
    } else if d.wasm_module is Some {
        Some(
            of_impl(plugin, d.step_type) + " has kind: \""@ + kind
                + "\" but also sets `wasmModule` — fields are mutually exclusive"@,
        )
    } else if d.matches is Some {
        Some(
            of_impl(plugin, d.step_type) + " has kind: \""@ + kind + "\" with `matches` set; "@
                + kind
                + " impls are selector-less (dispatch goes through the wasmtime linker by step type name, which has no per-selector routing)"@,
        )
    } else {
        None
    }
}

/// What the embedder and the host bring to a registration.
pub struct Host {
    pub trusted: Seq<Seq<char>>,
    pub bindings: Seq<(Seq<char>, Seq<char>)>,
    pub natives: Map<Seq<char>, BodyId>,
    pub intrinsics: Map<Seq<char>, BodyId>,
}

/// What is wrong with where a supplied body is to come from.
pub open spec fn source_fault(
    plugin: Seq<char>,
    m: ManifestView,
    d: StepTypeImplView,
    registry: RegistryView,
    grants: Seq<PermissionView>,
    host: Host,
) -> Option<Seq<char>> {
    match d.kind {
        StepTypeImplKind::Wasm => if d.wasm_module is None {
            Some(of_impl(plugin, d.step_type) + " has kind: \"wasm\" but no `wasmModule` field"@)
        } else if d.impl_ref is Some {
            Some(
                of_impl(plugin, d.step_type)
                    + " has kind: \"wasm\" but also sets `implRef` — fields are mutually exclusive"@,
            )
        } else if !has_key(m.wasm_modules, d.wasm_module->0) {
            Some(
                of_impl(plugin, d.step_type) + " references wasm_module '"@ + d.wasm_module->0
                    + "' which isn't declared in this manifest's `wasm_modules`"@,
            )
        } else {
            match at(
                registry.step_type_impls,
                (step_type_key_of(plugin, d.step_type), d.matches),
            ) {
                Some(existing) => Some(
                    of_impl(plugin, d.step_type) + selector_text(d.matches)
                        + " already registered by plugin '"@ + existing.plugin
                        + "' (wasm_module '"@ + existing.wasm_module + "')"@,
                ),
                None => None,
            }
        },
        StepTypeImplKind::Native => either(
            impl_ref_fields_fault(plugin, d, "native"@),
            either(
                binding_fault(plugin, d.step_type, d.impl_ref->0, grants, host.bindings),
                if host.natives.contains_key(d.impl_ref->0) {
                    None
                } else {
                    Some(
                        of_impl(plugin, d.step_type) + " references native implRef '"@
                            + d.impl_ref->0
                            + "' which no plugin crate submitted via inventory::submit!. Check that the providing crate is compiled into the host binary and uses the same name string"@,
                    )
                },
            ),
        ),
        StepTypeImplKind::Intrinsic => either(
            impl_ref_fields_fault(plugin, d, "intrinsic"@),
            if host.intrinsics.contains_key(d.impl_ref->0) {
                None
            } else {
                Some(
                    of_impl(plugin, d.step_type) + " references intrinsic implRef '"@
                        + d.impl_ref->0
                        + "' which the engine did not submit via inventory::submit!. Intrinsic bodies are kernel-internal — only gwead.intrinsics.* names exist"@,
                )
            },
        ),
    }
}

/// The first fault of the bodies that a manifest supplies, from `i` on: each is for a step type that
/// is defined, by a plugin that may supply it, for a slot that no earlier entry fills, from where
/// its kind says.
pub open spec fn impls_fault(
    plugin: Seq<char>,
    m: ManifestView,
    registry: RegistryView,
    grants: Seq<PermissionView>,
    host: Host,
    i: int,
) -> Option<Seq<char>>
    decreases m.step_type_impls.len() - i,
{
    let impls = m.step_type_impls;
    if i < 0 || i >= impls.len() {
        None
    } else {
        let d = impls[i];
        let local = defines(m.step_type_defs, d.step_type);
        let claim = claim_fault(
            registry,
            plugin,
            d.step_type,
            d.matches,
            local,
            grants,
            host.trusted,
        );
        if !local && at(registry.step_type_defs, step_type_key_of(plugin, d.step_type)) is None {
            Some(
                of_impl(plugin, d.step_type)
                    + " has no StepTypeDef — every step type must declare a contract. Add a `stepTypeDefs` entry named '"@
                    + d.step_type
                    + "' to this manifest (or reference an intrinsic / already-registered def)."@,
            )
        } else if claim is Some {
            claim
        } else if exists|j: int|
            0 <= j < i && (#[trigger] impls[j]).step_type == d.step_type && impls[j].matches
                == d.matches {
            Some(
                of_impl(plugin, d.step_type) + selector_text(d.matches)
                    + " is declared twice in this manifest"@,
            )
        } else {
            either(
                source_fault(plugin, m, d, registry, grants, host),
                impls_fault(plugin, m, registry, grants, host, i + 1),
            )
        }
    }
}

/// A body that is ready to be registered.
pub enum PreparedStepImpl {
    Wasm { step_type: String, matches: Option<String>, wasm_module: String },
    Native { step_type: String, body: BodyId },
    Intrinsic { step_type: String, body: BodyId },
}

/// What a [`PreparedStepImpl`] stands for.
pub enum PreparedView {
    Wasm { step_type: Seq<char>, matches: Option<Seq<char>>, wasm_module: Seq<char> },
    Native { step_type: Seq<char>, body: BodyId },
    Intrinsic { step_type: Seq<char>, body: BodyId },
}

impl DeepView for PreparedStepImpl {
    type V = PreparedView;

    open spec fn deep_view(&self) -> PreparedView {
        match self {
            PreparedStepImpl::Wasm { step_type, matches, wasm_module } => PreparedView::Wasm {
                step_type: step_type@,
                matches: matches.deep_view(),
                wasm_module: wasm_module@,
            },
            PreparedStepImpl::Native { step_type, body } => PreparedView::Native {
                step_type: step_type@,
                body: *body,
            },
            PreparedStepImpl::Intrinsic { step_type, body } => PreparedView::Intrinsic {
                step_type: step_type@,
                body: *body,
            },
        }
    }
}

/// The body that an entry without a fault supplies.
pub open spec fn prepared_impl(d: StepTypeImplView, host: Host) -> PreparedView {
    match d.kind {
        StepTypeImplKind::Wasm => PreparedView::Wasm {
            step_type: d.step_type,
            matches: d.matches,
            wasm_module: d.wasm_module->0,
        },
        StepTypeImplKind::Native => PreparedView::Native {
            step_type: d.step_type,
            body: host.natives[d.impl_ref->0],
        },
        StepTypeImplKind::Intrinsic => PreparedView::Intrinsic {
            step_type: d.step_type,
            body: host.intrinsics[d.impl_ref->0],
        },
    }
}

/// The bodies that entries without a fault supply.
pub open spec fn prepared_impls(impls: Seq<StepTypeImplView>, host: Host) -> Seq<PreparedView> {
    impls.map_values(|d: StepTypeImplView| prepared_impl(d, host))
}

/// The first fault of the step types that a manifest defines and supplies.
pub open spec fn step_types_fault(
    m: ManifestView,
    registry: RegistryView,
    grants: Seq<PermissionView>,
    host: Host,
) -> Option<Seq<char>> {
    either(
        defs_fault(m.name, m.step_type_defs, registry, 0),
        impls_fault(m.name, m, registry, grants, host, 0),
    )
}

/// The step types of a manifest, ready to be registered.
pub struct PreparedStepTypes {
    pub defs: Vec<StepTypeDef>,
    pub impls: Vec<PreparedStepImpl>,
}

fn begin_impl(plugin: &str, step_type: &str, rest: &str) -> (r: String)
    ensures
        r@ == of_impl(plugin@, step_type@) + rest@,
{
    let mut w = begin(plugin, ": step_type_impls entry for '");
    w.append(step_type);
    w.append("'");
    w.append(rest);
    w
}

fn selector_words(matches: &Option<String>) -> (r: String)
    ensures
        r@ == selector_text(matches.deep_view()),
{
    match matches {
        Some(m) => cat3(" (matches: '", m.as_str(), "')"),
        None => {
            let r = String::new();
            assert(r@ =~= Seq::empty());
            r
        },
    }
}

fn schema_declares_result(schema: &Option<Json>) -> (r: bool)
    ensures
        r == declares_result(schema.deep_view()),
{
    match schema {
        Some(s) => match s.get("properties") {
            Some(props) => props.get("result").is_some(),
            None => false,
        },
        None => false,
    }
}

/// The implRef of a body that is found by it; its other fields are to be empty.
pub fn require_impl_ref<'a>(plugin: &str, decl: &'a StepTypeImpl, kind: &str) -> (r: Result<
    &'a str,
    String,
>)
    ensures
        match r {
            Ok(s) => impl_ref_fields_fault(plugin@, decl.deep_view(), kind@) is None
                && decl.deep_view().impl_ref == Some(s@),
            Err(e) => impl_ref_fields_fault(plugin@, decl.deep_view(), kind@) == Some(e@),
        },
{
    let step_type = decl.step_type.as_str();
    let impl_ref = match &decl.impl_ref {
        Some(s) => s.as_str(),
        None => {
            let mut w = begin_impl(plugin, step_type, " has kind: \"");
            w.append(kind);
            w.append("\" but no `implRef` field");
            return Err(w);
        },
    };
    if decl.wasm_module.is_some() {
        let mut w = begin_impl(plugin, step_type, " has kind: \"");
        w.append(kind);
        w.append("\" but also sets `wasmModule` — fields are mutually exclusive");
        return Err(w);
    }
    if decl.matches.is_some() {
        let mut w = begin_impl(plugin, step_type, " has kind: \"");
        w.append(kind);
        w.append("\" with `matches` set; ");
        w.append(kind);
        w.append(
            " impls are selector-less (dispatch goes through the wasmtime linker by step type name, which has no per-selector routing)",
        );
        return Err(w);
    }
    Ok(impl_ref)
}

fn ships_module(manifest: &PluginManifest, name: &str) -> (r: bool)
    ensures
        r == has_key(manifest.deep_view().wasm_modules, name@),
{
    let ghost modules = manifest.deep_view().wasm_modules;
    let mut i: usize = 0;
    while i < manifest.wasm_modules.len()
        invariant
            i <= manifest.wasm_modules@.len(),
            modules == manifest.deep_view().wasm_modules,
            forall|j: int| 0 <= j < i ==> (#[trigger] modules[j]).0 != name@,
        decreases manifest.wasm_modules@.len() - i,
    {
        assert(modules[i as int].0 == manifest.wasm_modules@[i as int].0@);
        if same(manifest.wasm_modules[i].0.as_str(), name) {
            return true;
        }
        i += 1;
    }
    false
}

/// What the embedder and the host bring to a registration.
pub struct HostTables<'a> {
    pub trusted: &'a [TrustedProvider],
    pub bindings: &'a [NativeImplBinding],
    pub natives: &'a NativeStepImplTable<BodyId>,
    pub intrinsics: &'a IntrinsicStepImplTable<BodyId>,
}

impl<'a> HostTables<'a> {
    /// No name has two bodies.
    pub open spec fn wf(&self) -> bool {
        self.natives.wf() && self.intrinsics.wf()
    }

    /// What the tables stand for.
    pub open spec fn host(&self) -> Host {
        Host {
            trusted: self.trusted.deep_view(),
            bindings: self.bindings.deep_view(),
            natives: self.natives@,
            intrinsics: self.intrinsics@,
        }
    }
}

fn prepare_impl(
    manifest: &PluginManifest,
    decl: &StepTypeImpl,
    registry: &PluginRegistry,
    grants: &[Permission],
    tables: &HostTables,
) -> (r: Result<PreparedStepImpl, String>)
    requires
        registry.wf(),
        tables.wf(),
    ensures
        match source_fault(
            manifest.name@,
            manifest.deep_view(),
            decl.deep_view(),
            registry@,
            grants.deep_view(),
            tables.host(),
        ) {
            None => r is Ok && r->Ok_0.deep_view() == prepared_impl(
                decl.deep_view(),
                tables.host(),
            ),
            Some(e) => r is Err && r->Err_0@ == e,
        },
{
    let plugin = manifest.name.as_str();
    let step_type = decl.step_type.as_str();
    match decl.kind {
        StepTypeImplKind::Wasm => {
            let wasm_module = match &decl.wasm_module {
                Some(s) => s,
                None => {
                    return Err(
                        begin_impl(
                            plugin,
                            step_type,
                            " has kind: \"wasm\" but no `wasmModule` field",
                        ),
                    );
                },
            };
            if decl.impl_ref.is_some() {
                return Err(
                    begin_impl(
                        plugin,
                        step_type,
                        " has kind: \"wasm\" but also sets `implRef` — fields are mutually exclusive",
                    ),
                );
            }
            if !ships_module(manifest, wasm_module.as_str()) {
                let mut w = begin_impl(plugin, step_type, " references wasm_module '");
                w.append(wasm_module.as_str());
                w.append("' which isn't declared in this manifest's `wasm_modules`");
                return Err(w);
            }
            let key = PluginRegistry::step_type_key(plugin, step_type);
            let matches = match &decl.matches {
                Some(m) => Some(m.as_str()),
                None => None,
            };
            assert(matches.deep_view() == decl.matches.deep_view());
            if let Some((existing_plugin, existing_module)) = registry.step_type_impl_owner(
                key.as_str(),
                matches,
            ) {
                let selector = selector_words(&decl.matches);
                let mut w = begin_impl(plugin, step_type, selector.as_str());
                w.append(" already registered by plugin '");
                w.append(existing_plugin);
                w.append("' (wasm_module '");
                w.append(existing_module);
                w.append("')");
                return Err(w);
            }
            Ok(
                PreparedStepImpl::Wasm {
                    step_type: decl.step_type.clone(),
                    matches: decl.matches.duplicate(),
                    wasm_module: wasm_module.clone(),
                },
            )
        },
        StepTypeImplKind::Native => {
            let impl_ref = require_impl_ref(plugin, decl, "native")?;
            check_native_impl_binding(plugin, step_type, impl_ref, grants, tables.bindings)?;
            match tables.natives.get(impl_ref) {
                Some(body) => Ok(
                    PreparedStepImpl::Native { step_type: decl.step_type.clone(), body },
                ),
                None => {
                    let mut w = begin_impl(plugin, step_type, " references native implRef '");
                    w.append(impl_ref);
                    w.append(
                        "' which no plugin crate submitted via inventory::submit!. Check that the providing crate is compiled into the host binary and uses the same name string",
                    );
                    Err(w)
                },
            }
        },
        StepTypeImplKind::Intrinsic => {
            let impl_ref = require_impl_ref(plugin, decl, "intrinsic")?;
            match tables.intrinsics.get(impl_ref) {
                Some(body) => Ok(
                    PreparedStepImpl::Intrinsic { step_type: decl.step_type.clone(), body },
                ),
                None => {
                    let mut w = begin_impl(plugin, step_type, " references intrinsic implRef '");
                    w.append(impl_ref);
                    w.append(
                        "' which the engine did not submit via inventory::submit!. Intrinsic bodies are kernel-internal — only gwead.intrinsics.* names exist",
                    );
                    Err(w)
                },
            }
        },
    }
}

fn prepare_defs(manifest: &PluginManifest, registry: &PluginRegistry) -> (r: Result<
    Vec<StepTypeDef>,
    String,
>)
    requires
        registry.wf(),
    ensures
        match defs_fault(manifest.name@, manifest.deep_view().step_type_defs, registry@, 0) {
            None => r is Ok && r->Ok_0.deep_view() == manifest.deep_view().step_type_defs,
            Some(e) => r is Err && r->Err_0@ == e,
        },
{
    let plugin = manifest.name.as_str();
    let ghost defs = manifest.deep_view().step_type_defs;
    let mut out: Vec<StepTypeDef> = Vec::new();
    let mut i: usize = 0;
    while i < manifest.step_type_defs.len()
        invariant
            i <= manifest.step_type_defs@.len(),
            registry.wf(),
            plugin@ == manifest.name@,
            defs == manifest.deep_view().step_type_defs,
            out@.len() == i,
            forall|j: int| 0 <= j < i ==> out@[j].deep_view() == #[trigger] defs[j],
            defs_fault(plugin@, defs, registry@, 0) == defs_fault(
                plugin@,
                defs,
                registry@,
                i as int,
            ),
        decreases manifest.step_type_defs@.len() - i,
    {
        let def = &manifest.step_type_defs[i];
        assert(defs[i as int] == def.deep_view());
        if schema_declares_result(&def.metadata_schema) {
            let mut w = begin(plugin, ": step type '");
            w.append(def.name.as_str());
            w.append(
                "' metadataSchema declares the reserved key 'result' — that is the value slot (`{{$steps.<id>.result}}`), not a metadata sidecar",
            );
            return Err(w);
        }
        let key = PluginRegistry::step_type_key(plugin, def.name.as_str());
        if let Some((existing, _)) = registry.get_step_type_def(key.as_str()) {
            let mut w = begin(plugin, ": step_type_defs entry '");
            w.append(def.name.as_str());
            w.append("' already registered by plugin '");
            w.append(existing);
            w.append("'");
            return Err(w);
        }
        let mut j: usize = 0;
        while j < i
            invariant
                j <= i < manifest.step_type_defs@.len(),
                plugin@ == manifest.name@,
                defs == manifest.deep_view().step_type_defs,
                def.deep_view() == defs[i as int],
                !declares_result(defs[i as int].metadata_schema),
                at(registry@.step_type_defs, step_type_key_of(plugin@, def.name@)) is None,
                defs_fault(plugin@, defs, registry@, 0) == defs_fault(
                    plugin@,
                    defs,
                    registry@,
                    i as int,
                ),
                forall|k: int| 0 <= k < j ==> (#[trigger] defs[k]).name != def.name@,
            decreases i - j,
        {
            assert(defs[j as int] == manifest.step_type_defs@[j as int].deep_view());
            if same(manifest.step_type_defs[j].name.as_str(), def.name.as_str()) {
                let mut w = begin(plugin, ": step_type_defs entry '");
                w.append(def.name.as_str());
                w.append("' is declared twice in this manifest");
                return Err(w);
            }
            j += 1;
        }
        out.push(def.duplicate());
        i += 1;
    }
    assert(out.deep_view() =~= defs);
    Ok(out)
}

fn defines_step_type(manifest: &PluginManifest, step_type: &str) -> (r: bool)
    ensures
        r == defines(manifest.deep_view().step_type_defs, step_type@),
{
    let ghost defs = manifest.deep_view().step_type_defs;
    let mut i: usize = 0;
    while i < manifest.step_type_defs.len()
        invariant
            i <= manifest.step_type_defs@.len(),
            defs == manifest.deep_view().step_type_defs,
            forall|j: int| 0 <= j < i ==> (#[trigger] defs[j]).name != step_type@,
        decreases manifest.step_type_defs@.len() - i,
    {
        assert(defs[i as int] == manifest.step_type_defs@[i as int].deep_view());
        if same(manifest.step_type_defs[i].name.as_str(), step_type) {
            return true;
        }
        i += 1;
    }
    false
}

fn fills_slot_again(impls: &Vec<StepTypeImpl>, i: usize) -> (r: bool)
    requires
        i < impls@.len(),
    ensures
        r == exists|j: int|
            0 <= j < i && (#[trigger] impls.deep_view()[j]).step_type
                == impls.deep_view()[i as int].step_type && impls.deep_view()[j].matches
                == impls.deep_view()[i as int].matches,
{
    let ghost views = impls.deep_view();
    assert(views[i as int] == impls@[i as int].deep_view());
    let mut j: usize = 0;
    while j < i
        invariant
            j <= i < impls@.len(),
            views == impls.deep_view(),
            views[i as int] == impls@[i as int].deep_view(),
            forall|k: int|
                0 <= k < j ==> !((#[trigger] views[k]).step_type == views[i as int].step_type
                    && views[k].matches == views[i as int].matches),
        decreases i - j,
    {
        assert(views[j as int] == impls@[j as int].deep_view());
        let same_selector = match (&impls[j].matches, &impls[i].matches) {
            (Some(a), Some(b)) => same(a.as_str(), b.as_str()),
            (None, None) => true,
            _ => false,
        };
        if same(impls[j].step_type.as_str(), impls[i].step_type.as_str()) && same_selector {
            return true;
        }
        j += 1;
    }
    false
}

/// Checks the step types that a manifest defines and supplies, and finds the body behind each that
/// it supplies. Nothing is registered: what is returned can be, without fail.
pub fn prepare_step_types(
    manifest: &PluginManifest,
    registry: &PluginRegistry,
    grants: &[Permission],
    tables: &HostTables,
) -> (r: Result<PreparedStepTypes, KernelError>)
    requires
        registry.wf(),
        tables.wf(),
    ensures
        match step_types_fault(
            manifest.deep_view(),
            registry@,
            grants.deep_view(),
            tables.host(),
        ) {
            None => r is Ok && r->Ok_0.defs.deep_view() == manifest.deep_view().step_type_defs
                && r->Ok_0.impls.deep_view() == prepared_impls(
                manifest.deep_view().step_type_impls,
                tables.host(),
            ),
            Some(e) => r is Err && r->Err_0@ == ErrorView::Validation(e),
        },
{
    let plugin = manifest.name.as_str();
    let ghost m = manifest.deep_view();
    let ghost given = grants.deep_view();
    let ghost host = tables.host();
    let defs = match prepare_defs(manifest, registry) {
        Ok(v) => v,
        Err(e) => {
            return Err(KernelError::Validation(e));
        },
    };
    let mut impls: Vec<PreparedStepImpl> = Vec::new();
    let mut i: usize = 0;
    while i < manifest.step_type_impls.len()
        invariant
            i <= manifest.step_type_impls@.len(),
            registry.wf(),
            tables.wf(),
            m == manifest.deep_view(),
            given == grants.deep_view(),
            host == tables.host(),
            plugin@ == m.name,
            defs_fault(m.name, m.step_type_defs, registry@, 0) is None,
            impls@.len() == i,
            forall|j: int|
                0 <= j < i ==> impls@[j].deep_view() == prepared_impl(
                    #[trigger] m.step_type_impls[j],
                    host,
                ),
            impls_fault(m.name, m, registry@, given, host, 0) == impls_fault(
                m.name,
                m,
                registry@,
                given,
                host,
                i as int,
            ),
        decreases manifest.step_type_impls@.len() - i,
    {
        let decl = &manifest.step_type_impls[i];
        let step_type = decl.step_type.as_str();
        assert(m.step_type_impls[i as int] == decl.deep_view());
        let local = defines_step_type(manifest, step_type);
        let key = PluginRegistry::step_type_key(plugin, step_type);
        if !local && registry.get_step_type_def(key.as_str()).is_none() {
            let mut w = begin_impl(
                plugin,
                step_type,
                " has no StepTypeDef — every step type must declare a contract. Add a `stepTypeDefs` entry named '",
            );
            w.append(step_type);
            w.append(
                "' to this manifest (or reference an intrinsic / already-registered def).",
            );
            return Err(KernelError::Validation(w));
        }
        let matches = match &decl.matches {
            Some(s) => Some(s.as_str()),
            None => None,
        };
        assert(matches.deep_view() == decl.matches.deep_view());
        if let Err(e) = check_step_type_impl_claim(
            registry,
            plugin,
            step_type,
            matches,
            local,
            grants,
            tables.trusted,
        ) {
            return Err(KernelError::Validation(e));
        }
        if fills_slot_again(&manifest.step_type_impls, i) {
            let selector = selector_words(&decl.matches);
            let mut w = begin_impl(plugin, step_type, selector.as_str());
            w.append(" is declared twice in this manifest");
            return Err(KernelError::Validation(w));
        }
        match prepare_impl(manifest, decl, registry, grants, tables) {
            Ok(p) => {
                impls.push(p);
            },
            Err(e) => {
                return Err(KernelError::Validation(e));
            },
        }
        i += 1;
    }
    assert(impls.deep_view() =~= prepared_impls(m.step_type_impls, host));
    Ok(PreparedStepTypes { defs, impls })
}

/// A plugin binds a body that is not its own only with both keys: its manifest declares the binding,
/// and the embedder authorises that pair. Neither alone is enough.
pub proof fn law_a_foreign_body_takes_two_keys(
    plugin: Seq<char>,
    step_type: Seq<char>,
    impl_ref: Seq<char>,
    grants: Seq<PermissionView>,
    bindings: Seq<(Seq<char>, Seq<char>)>,
)
    ensures
        binding_fault(plugin, step_type, impl_ref, grants, bindings) is None <==> owns_body(
            plugin,
            impl_ref,
        ) || (grants.contains(PermissionView::BindNativeImpl(impl_ref)) && bindings.contains(
            (plugin, impl_ref),
        )),
{
}

/// A plugin supplies a step type that it does not define only with both keys: its manifest declares
/// that very slot, and the embedder trusts the plugin. Neither alone is enough.
pub proof fn law_a_foreign_slot_takes_two_keys(
    registry: RegistryView,
    plugin: Seq<char>,
    step_type: Seq<char>,
    matches: Option<Seq<char>>,
    defines_locally: bool,
    grants: Seq<PermissionView>,
    trusted: Seq<Seq<char>>,
)
    ensures
        claim_fault(
            registry,
            plugin,
            step_type,
            matches,
            defines_locally,
            grants,
            trusted,
        ) is None <==> defines_locally || (grants.contains(
            PermissionView::ProvideStepType { step_type, selector: matches },
        ) && trusted.contains(plugin)),
{
}

} // verus!
