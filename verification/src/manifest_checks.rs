//! What is checked of a manifest before anything of it is registered.

use vstd::prelude::*;

use crate::identity::{
    name_fault, step_type_name_fault, step_type_reference_fault, validate_name,
    validate_step_type_name, validate_step_type_reference, NameError, NameErrorView, NameKind,
};
use crate::manifest::{
    Action, ActionView, ManifestView, PluginManifest, SecretView, StepDef, StepTypeDefView,
    StepTypeImplKind, StepTypeImplView, StepView, SUPPORTED_FORMAT_VERSION,
};
use crate::registry::{at, step_type_key_of, PluginRegistry, RegistryView};
use crate::step_shapes::{either, tells};
use crate::table::Table;
use crate::text::{cat3, cat4, decimal, decimal_text, same};

verus! {

/// The step types that are the kernel's own.
pub open spec fn is_reserved_step_type(s: Seq<char>) -> bool {
    ||| s == "for_each"@
    ||| s == "repeat"@
    ||| s == "ifs"@
    ||| s == "return"@
    ||| s == "try"@
    ||| s == "parallel"@
    ||| s == "throw_error"@
    ||| s == "let"@
    ||| s == "script"@
    ||| s == "invoke"@
    ||| s == "wasm"@
}

/// Whether a step type is one of the kernel's own.
pub fn reserved_step_type(s: &str) -> (r: bool)
    ensures
        r == is_reserved_step_type(s@),
{
    same(s, "for_each") || same(s, "repeat") || same(s, "ifs") || same(s, "return") || same(
        s,
        "try",
    ) || same(s, "parallel") || same(s, "throw_error") || same(s, "let") || same(s, "script")
        || same(s, "invoke") || same(s, "wasm")
}

/// A fault of a name, under the name of the plugin that declares it.
pub open spec fn named_by(plugin: Seq<char>, e: Option<NameErrorView>) -> Option<Seq<char>> {
    match e {
        Some(e) => Some("Plugin '"@ + plugin + "': "@ + e.text()),
        None => None,
    }
}

fn named(plugin: &str, r: Result<(), NameError>) -> (out: Result<(), String>)
    ensures
        tells(
            out,
            named_by(
                plugin@,
                match r {
                    Ok(_) => None,
                    Err(e) => Some(e@),
                },
            ),
        ),
{
    match r {
        Ok(()) => Ok(()),
        Err(e) => {
            let why = e.message();
            Err(cat4("Plugin '", plugin, "': ", why.as_str()))
        },
    }
}

/// The first fault of the roles from `i` on.
pub open spec fn roles_fault(plugin: Seq<char>, roles: Seq<Seq<char>>, i: int) -> Option<Seq<char>>
    decreases roles.len() - i,
{
    if i < 0 || i >= roles.len() {
        None
    } else {
        either(
            named_by(plugin, name_fault(NameKind::Role, roles[i])),
            roles_fault(plugin, roles, i + 1),
        )
    }
}

/// The first fault of the names of the step types that are defined, from `i` on.
pub open spec fn def_names_fault(
    plugin: Seq<char>,
    defs: Seq<StepTypeDefView>,
    kernel_owned: bool,
    i: int,
) -> Option<Seq<char>>
    decreases defs.len() - i,
{
    if i < 0 || i >= defs.len() {
        None
    } else {
        either(
            named_by(plugin, step_type_name_fault(defs[i].name, plugin, kernel_owned)),
            def_names_fault(plugin, defs, kernel_owned, i + 1),
        )
    }
}

/// The first fault of the names of the step types and selectors that bodies are supplied for, from
/// `i` on.
pub open spec fn impl_names_fault(
    plugin: Seq<char>,
    impls: Seq<StepTypeImplView>,
    i: int,
) -> Option<Seq<char>>
    decreases impls.len() - i,
{
    if i < 0 || i >= impls.len() {
        None
    } else {
        either(
            named_by(plugin, step_type_reference_fault(impls[i].step_type)),
            either(
                match impls[i].matches {
                    Some(m) => named_by(plugin, name_fault(NameKind::StepTypeSelector, m)),
                    None => None,
                },
                impl_names_fault(plugin, impls, i + 1),
            ),
        )
    }
}

/// The first fault of the names that a manifest declares for all to see.
pub open spec fn manifest_names_fault(m: ManifestView, kernel_owned: bool) -> Option<Seq<char>> {
    either(
        match name_fault(NameKind::Plugin, m.name) {
            Some(e) => Some(e.text()),
            None => None,
        },
        either(
            roles_fault(m.name, m.roles, 0),
            either(
                def_names_fault(m.name, m.step_type_defs, kernel_owned, 0),
                impl_names_fault(m.name, m.step_type_impls, 0),
            ),
        ),
    )
}

/// Checks the names that a manifest declares for all to see.
pub fn validate_manifest_names(manifest: &PluginManifest, kernel_owned: bool) -> (r: Result<
    (),
    String,
>)
    ensures
        tells(r, manifest_names_fault(manifest.deep_view(), kernel_owned)),
{
    let plugin = manifest.name.as_str();
    let ghost view = manifest.deep_view();
    if let Err(e) = validate_name(NameKind::Plugin, plugin) {
        return Err(e.message());
    }
    let mut i: usize = 0;
    while i < manifest.roles.len()
        invariant
            i <= manifest.roles@.len(),
            view == manifest.deep_view(),
            plugin@ == view.name,
            name_fault(NameKind::Plugin, view.name) is None,
            roles_fault(view.name, view.roles, 0) == roles_fault(view.name, view.roles, i as int),
        decreases manifest.roles@.len() - i,
    {
        assert(view.roles[i as int] == manifest.roles@[i as int]@);
        named(plugin, validate_name(NameKind::Role, manifest.roles[i].as_str()))?;
        i += 1;
    }
    i = 0;
    while i < manifest.step_type_defs.len()
        invariant
            i <= manifest.step_type_defs@.len(),
            view == manifest.deep_view(),
            plugin@ == view.name,
            name_fault(NameKind::Plugin, view.name) is None,
            roles_fault(view.name, view.roles, 0) is None,
            def_names_fault(view.name, view.step_type_defs, kernel_owned, 0) == def_names_fault(
                view.name,
                view.step_type_defs,
                kernel_owned,
                i as int,
            ),
        decreases manifest.step_type_defs@.len() - i,
    {
        assert(view.step_type_defs[i as int] == manifest.step_type_defs@[i as int].deep_view());
        named(
            plugin,
            validate_step_type_name(manifest.step_type_defs[i].name.as_str(), plugin, kernel_owned),
        )?;
        i += 1;
    }
    i = 0;
    while i < manifest.step_type_impls.len()
        invariant
            i <= manifest.step_type_impls@.len(),
            view == manifest.deep_view(),
            plugin@ == view.name,
            name_fault(NameKind::Plugin, view.name) is None,
            roles_fault(view.name, view.roles, 0) is None,
            def_names_fault(view.name, view.step_type_defs, kernel_owned, 0) is None,
            impl_names_fault(view.name, view.step_type_impls, 0) == impl_names_fault(
                view.name,
                view.step_type_impls,
                i as int,
            ),
        decreases manifest.step_type_impls@.len() - i,
    {
        assert(view.step_type_impls[i as int] == manifest.step_type_impls@[i as int].deep_view());
        let entry = &manifest.step_type_impls[i];
        named(plugin, validate_step_type_reference(entry.step_type.as_str()))?;
        if let Some(selector) = &entry.matches {
            named(plugin, validate_name(NameKind::StepTypeSelector, selector.as_str()))?;
        }
        i += 1;
    }
    Ok(())
}

/// What is wrong with an alias that a plugin declares: it is a step type of the plugin's own, and
/// not one of the kernel's.
pub open spec fn alias_name_fault(
    alias: Seq<char>,
    plugin: Seq<char>,
    kernel_owned: bool,
) -> Option<Seq<char>> {
    match step_type_name_fault(alias, plugin, kernel_owned) {
        Some(e) => Some(e.text()),
        None => if is_reserved_step_type(alias) {
            Some("step_types alias '"@ + alias + "' is reserved by the kernel"@)
        } else {
            None
        },
    }
}

/// Checks an alias that a plugin declares.
pub fn validate_step_type_alias(alias: &str, declaring_plugin: &str, kernel_owned: bool) -> (r:
    Result<(), String>)
    ensures
        tells(r, alias_name_fault(alias@, declaring_plugin@, kernel_owned)),
{
    if let Err(e) = validate_step_type_name(alias, declaring_plugin, kernel_owned) {
        return Err(e.message());
    }
    if reserved_step_type(alias) {
        return Err(cat3("step_types alias '", alias, "' is reserved by the kernel"));
    }
    Ok(())
}

/// The words that begin a message on a plugin.
pub open spec fn of_plugin(plugin: Seq<char>) -> Seq<char> {
    "Plugin '"@ + plugin + "'"@
}

/// What is wrong with the version of a manifest's format.
pub open spec fn format_fault(m: ManifestView) -> Option<Seq<char>> {
    match m.format_version {
        Some(v) if v != SUPPORTED_FORMAT_VERSION => Some(
            of_plugin(m.name) + ": formatVersion "@ + decimal(v as nat)
                + " is not supported by this kernel (supports "@ + decimal(
                SUPPORTED_FORMAT_VERSION as nat,
            ) + ")"@,
        ),
        _ => None,
    }
}

/// Checks the version of a manifest's format.
pub fn check_format(manifest: &PluginManifest) -> (r: Result<(), String>)
    ensures
        tells(r, format_fault(manifest.deep_view())),
{
    if let Some(v) = manifest.format_version {
        if v != SUPPORTED_FORMAT_VERSION {
            let given = decimal_text(v);
            let supported = decimal_text(SUPPORTED_FORMAT_VERSION);
            let mut m = cat3("Plugin '", manifest.name.as_str(), "'");
            m.append(": formatVersion ");
            m.append(given.as_str());
            m.append(" is not supported by this kernel (supports ");
            m.append(supported.as_str());
            m.append(")");
            return Err(m);
        }
    }
    Ok(())
}

/// The first secret, from `i` on, whose key an earlier secret has.
pub open spec fn repeated_secret(secrets: Seq<SecretView>, i: int) -> Option<Seq<char>>
    decreases secrets.len() - i,
{
    if i < 0 || i >= secrets.len() {
        None
    } else if exists|j: int| 0 <= j < i && (#[trigger] secrets[j]).key == secrets[i].key {
        Some(secrets[i].key)
    } else {
        repeated_secret(secrets, i + 1)
    }
}

/// The first secret, from `i` on, that is marked overridable.
pub open spec fn overridable_secret(secrets: Seq<SecretView>, i: int) -> Option<Seq<char>>
    decreases secrets.len() - i,
{
    if i < 0 || i >= secrets.len() {
        None
    } else if secrets[i].overridable {
        Some(secrets[i].key)
    } else {
        overridable_secret(secrets, i + 1)
    }
}

/// What is wrong with the secrets that a manifest declares: no key is declared twice, and only a
/// manifest of the root namespace marks one overridable.
pub open spec fn secrets_fault(m: ManifestView, namespace: Seq<char>) -> Option<Seq<char>> {
    match repeated_secret(m.uses_secrets, 0) {
        Some(key) => Some(
            of_plugin(m.name) + ": `usesSecrets` declares '"@ + key + "' more than once"@,
        ),
        None => if namespace.len() > 0 {
            match overridable_secret(m.uses_secrets, 0) {
                Some(key) => Some(
                    of_plugin(m.name) + ": `usesSecrets` marks '"@ + key
                        + "' overridable, which only a root-namespace manifest may do (this one is loaded into namespace '"@
                        + namespace
                        + "'). Only the level that owns a secret may mark it overridable by the levels below it"@,
                ),
                None => None,
            }
        } else {
            None
        },
    }
}

/// Checks the secrets that a manifest declares.
pub fn check_secrets(manifest: &PluginManifest, namespace: &str) -> (r: Result<(), String>)
    ensures
        tells(r, secrets_fault(manifest.deep_view(), namespace@)),
{
    let ghost view = manifest.deep_view();
    let ghost secrets = view.uses_secrets;
    let mut i: usize = 0;
    while i < manifest.uses_secrets.len()
        invariant
            i <= manifest.uses_secrets@.len(),
            view == manifest.deep_view(),
            secrets == view.uses_secrets,
            repeated_secret(secrets, 0) == repeated_secret(secrets, i as int),
        decreases manifest.uses_secrets@.len() - i,
    {
        let key = manifest.uses_secrets[i].key.as_str();
        assert(secrets[i as int].key == key@);
        let mut j: usize = 0;
        while j < i
            invariant
                j <= i < manifest.uses_secrets@.len(),
                view == manifest.deep_view(),
                secrets == view.uses_secrets,
                secrets[i as int].key == key@,
                repeated_secret(secrets, 0) == repeated_secret(secrets, i as int),
                forall|k: int| 0 <= k < j ==> (#[trigger] secrets[k]).key != key@,
            decreases i - j,
        {
            assert(secrets[j as int].key == manifest.uses_secrets@[j as int].key@);
            if same(manifest.uses_secrets[j].key.as_str(), key) {
                let mut m = cat3("Plugin '", manifest.name.as_str(), "'");
                m.append(": `usesSecrets` declares '");
                m.append(key);
                m.append("' more than once");
                return Err(m);
            }
            j += 1;
        }
        i += 1;
    }
    if namespace.unicode_len() == 0 {
        return Ok(());
    }
    i = 0;
    while i < manifest.uses_secrets.len()
        invariant
            i <= manifest.uses_secrets@.len(),
            namespace@.len() > 0,
            view == manifest.deep_view(),
            secrets == view.uses_secrets,
            repeated_secret(secrets, 0) is None,
            overridable_secret(secrets, 0) == overridable_secret(secrets, i as int),
        decreases manifest.uses_secrets@.len() - i,
    {
        assert(secrets[i as int] == manifest.uses_secrets@[i as int].deep_view());
        if manifest.uses_secrets[i].overridable {
            let mut m = cat3("Plugin '", manifest.name.as_str(), "'");
            m.append(": `usesSecrets` marks '");
            m.append(manifest.uses_secrets[i].key.as_str());
            m.append(
                "' overridable, which only a root-namespace manifest may do (this one is loaded into namespace '",
            );
            m.append(namespace);
            m.append(
                "'). Only the level that owns a secret may mark it overridable by the levels below it",
            );
            return Err(m);
        }
        i += 1;
    }
    Ok(())
}

/// The keys of a list of pairs hold `k`.
pub open spec fn has_key<B>(pairs: Seq<(Seq<char>, B)>, k: Seq<char>) -> bool {
    exists|i: int| 0 <= i < pairs.len() && (#[trigger] pairs[i]).0 == k
}

/// What is wrong with one alias: it has a name that the plugin may give it, it stands for an action
/// of the plugin, and nobody has it yet.
pub open spec fn alias_fault(
    plugin: Seq<char>,
    local: Seq<char>,
    m: ManifestView,
    registry: RegistryView,
    kernel_owned: bool,
    alias: Seq<char>,
    target: Seq<char>,
) -> Option<Seq<char>> {
    match alias_name_fault(alias, local, kernel_owned) {
        Some(e) => Some(of_plugin(plugin) + ": "@ + e),
        None => if !has_key(m.actions, target) {
            Some(
                of_plugin(plugin) + ": step_types alias '"@ + alias + "' targets action '"@ + target
                    + "' which is not defined in this plugin"@,
            )
        } else {
            match at(registry.aliases, step_type_key_of(plugin, alias)) {
                Some(existing) => Some(
                    of_plugin(plugin) + ": step_types alias '"@ + alias
                        + "' already registered by plugin '"@ + existing.0 + "' (action '"@
                        + existing.1 + "')"@,
                ),
                None => None,
            }
        },
    }
}

/// The first fault of the aliases from `i` on.
pub open spec fn aliases_fault(
    plugin: Seq<char>,
    local: Seq<char>,
    m: ManifestView,
    registry: RegistryView,
    kernel_owned: bool,
    i: int,
) -> Option<Seq<char>>
    decreases m.step_types.len() - i,
{
    if i < 0 || i >= m.step_types.len() {
        None
    } else {
        either(
            alias_fault(
                plugin,
                local,
                m,
                registry,
                kernel_owned,
                m.step_types[i].0,
                m.step_types[i].1,
            ),
            aliases_fault(plugin, local, m, registry, kernel_owned, i + 1),
        )
    }
}

fn begin(plugin: &str, rest: &str) -> (r: String)
    ensures
        r@ == of_plugin(plugin@) + rest@,
{
    cat4("Plugin '", plugin, "'", rest)
}

fn has_action(manifest: &PluginManifest, name: &str) -> (r: bool)
    ensures
        r == has_key(manifest.deep_view().actions, name@),
{
    let ghost actions = manifest.deep_view().actions;
    let mut i: usize = 0;
    while i < manifest.actions.len()
        invariant
            i <= manifest.actions@.len(),
            actions == manifest.deep_view().actions,
            forall|j: int| 0 <= j < i ==> (#[trigger] actions[j]).0 != name@,
        decreases manifest.actions@.len() - i,
    {
        assert(actions[i as int].0 == manifest.actions@[i as int].0@);
        if same(manifest.actions[i].0.as_str(), name) {
            return true;
        }
        i += 1;
    }
    false
}

/// Checks the aliases of a manifest; `plugin` is the identity and `local` the name of the plugin.
pub fn check_aliases(
    plugin: &str,
    local: &str,
    manifest: &PluginManifest,
    registry: &PluginRegistry,
    kernel_owned: bool,
) -> (r: Result<(), String>)
    requires
        registry.wf(),
    ensures
        tells(
            r,
            aliases_fault(
                plugin@,
                local@,
                manifest.deep_view(),
                registry@,
                kernel_owned,
                0,
            ),
        ),
{
    let ghost m = manifest.deep_view();
    let mut i: usize = 0;
    while i < manifest.step_types.len()
        invariant
            i <= manifest.step_types@.len(),
            m == manifest.deep_view(),
            registry.wf(),
            aliases_fault(plugin@, local@, m, registry@, kernel_owned, 0) == aliases_fault(
                plugin@,
                local@,
                m,
                registry@,
                kernel_owned,
                i as int,
            ),
        decreases manifest.step_types@.len() - i,
    {
        let alias = manifest.step_types[i].0.as_str();
        let target = manifest.step_types[i].1.as_str();
        assert(m.step_types[i as int] == (alias@, target@));
        if let Err(e) = validate_step_type_alias(alias, local, kernel_owned) {
            let mut w = begin(plugin, ": ");
            w.append(e.as_str());
            return Err(w);
        }
        if !has_action(manifest, target) {
            let mut w = begin(plugin, ": step_types alias '");
            w.append(alias);
            w.append("' targets action '");
            w.append(target);
            w.append("' which is not defined in this plugin");
            return Err(w);
        }
        let key = PluginRegistry::step_type_key(plugin, alias);
        let existing = registry.step_type_alias_candidates(key.as_str());
        assert(existing.deep_view().len() == existing@.len());
        if existing.len() > 0 {
            assert(existing.deep_view()[0] == existing@[0].deep_view());
            let mut w = begin(plugin, ": step_types alias '");
            w.append(alias);
            w.append("' already registered by plugin '");
            w.append(existing[0].0.as_str());
            w.append("' (action '");
            w.append(existing[0].1.as_str());
            w.append("')");
            return Err(w);
        }
        i += 1;
    }
    Ok(())
}

/// The step types among the supplied bodies that are called through the import table: a wasm body is
/// found by its selector instead.
pub open spec fn imported_types(impls: Seq<StepTypeImplView>) -> Seq<Seq<char>>
    decreases impls.len(),
{
    if impls.len() == 0 {
        Seq::empty()
    } else if impls.last().kind == StepTypeImplKind::Wasm {
        imported_types(impls.drop_last())
    } else {
        imported_types(impls.drop_last()).push(impls.last().step_type)
    }
}

/// The step types that a manifest puts into the import table: those that it supplies bodies for,
/// then its aliases.
pub open spec fn import_names(m: ManifestView) -> Seq<Seq<char>> {
    imported_types(m.step_type_impls) + m.step_types.map_values(|e: (Seq<char>, Seq<char>)| e.0)
}

/// The first step type, from `i` on, that another plugin has put into the import table or that the
/// manifest puts there twice.
pub open spec fn imports_fault(
    plugin: Seq<char>,
    names: Seq<Seq<char>>,
    owners: Map<Seq<char>, Seq<char>>,
    i: int,
) -> Option<Seq<char>>
    decreases names.len() - i,
{
    if i < 0 || i >= names.len() {
        None
    } else {
        let key = step_type_key_of(plugin, names[i]);
        if owners.contains_key(key) && owners[key] != plugin {
            Some(
                of_plugin(plugin) + ": step type '"@ + names[i]
                    + "' is already implemented by plugin '"@ + owners[key] + "' — unload '"@
                    + owners[key] + "' first or rename the step type"@,
            )
        } else if exists|j: int|
            0 <= j < i && step_type_key_of(plugin, #[trigger] names[j]) == key {
            Some(
                of_plugin(plugin) + ": step type '"@ + names[i]
                    + "' is declared more than once in this manifest (stepTypeImpls entries and step_types aliases share one namespace)"@,
            )
        } else {
            imports_fault(plugin, names, owners, i + 1)
        }
    }
}

/// The step types that a manifest puts into the import table.
pub fn names_to_import(manifest: &PluginManifest) -> (r: Vec<String>)
    ensures
        r.deep_view() == import_names(manifest.deep_view()),
{
    let ghost m = manifest.deep_view();
    let ghost impls = m.step_type_impls;
    let mut names: Vec<String> = Vec::new();
    assert(names.deep_view() =~= imported_types(impls.take(0)));
    let mut i: usize = 0;
    while i < manifest.step_type_impls.len()
        invariant
            i <= manifest.step_type_impls@.len(),
            m == manifest.deep_view(),
            impls == m.step_type_impls,
            names.deep_view() == imported_types(impls.take(i as int)),
        decreases manifest.step_type_impls@.len() - i,
    {
        let entry = &manifest.step_type_impls[i];
        let ghost so_far = names.deep_view();
        proof {
            assert(impls[i as int] == entry.deep_view());
            assert(impls.take(i as int + 1).drop_last() =~= impls.take(i as int));
        }
        if entry.kind != StepTypeImplKind::Wasm {
            names.push(entry.step_type.clone());
            assert(names.deep_view() =~= so_far.push(entry.step_type@));
        }
        i += 1;
    }
    assert(impls.take(impls.len() as int) =~= impls);
    let ghost first = names.deep_view();
    let ghost aliases = m.step_types.map_values(|e: (Seq<char>, Seq<char>)| e.0);
    assert(first + aliases.take(0) =~= first);
    i = 0;
    while i < manifest.step_types.len()
        invariant
            i <= manifest.step_types@.len(),
            m == manifest.deep_view(),
            aliases == m.step_types.map_values(|e: (Seq<char>, Seq<char>)| e.0),
            names.deep_view() == first + aliases.take(i as int),
        decreases manifest.step_types@.len() - i,
    {
        let ghost so_far = names.deep_view();
        assert(aliases[i as int] == manifest.step_types@[i as int].0@);
        names.push(manifest.step_types[i].0.clone());
        assert(names.deep_view() =~= so_far.push(aliases[i as int]));
        assert(so_far.push(aliases[i as int]) =~= first + aliases.take(i as int + 1));
        i += 1;
    }
    assert(aliases.take(aliases.len() as int) =~= aliases);
    names
}

/// Checks the step types that a manifest puts into the import table.
pub fn check_imports(plugin: &str, manifest: &PluginManifest, owners: &Table<String, String>) -> (r:
    Result<(), String>)
    requires
        owners.wf(),
    ensures
        tells(r, imports_fault(plugin@, import_names(manifest.deep_view()), owners.map(), 0)),
{
    let names = names_to_import(manifest);
    let ghost views = names.deep_view();
    let mut keys: Vec<String> = Vec::new();
    let mut i: usize = 0;
    while i < names.len()
        invariant
            i <= names@.len(),
            owners.wf(),
            views == names.deep_view(),
            views == import_names(manifest.deep_view()),
            keys@.len() == i,
            forall|j: int|
                0 <= j < i ==> keys@[j]@ == step_type_key_of(plugin@, #[trigger] views[j]),
            imports_fault(plugin@, views, owners.map(), 0) == imports_fault(
                plugin@,
                views,
                owners.map(),
                i as int,
            ),
        decreases names@.len() - i,
    {
        let name = names[i].as_str();
        assert(views[i as int] == name@);
        let key = PluginRegistry::step_type_key(plugin, name);
        if let Some(owner) = owners.get(&key) {
            if !same(owner.as_str(), plugin) {
                let mut w = begin(plugin, ": step type '");
                w.append(name);
                w.append("' is already implemented by plugin '");
                w.append(owner.as_str());
                w.append("' — unload '");
                w.append(owner.as_str());
                w.append("' first or rename the step type");
                return Err(w);
            }
        }
        let mut j: usize = 0;
        while j < keys.len()
            invariant
                j <= keys@.len(),
                keys@.len() == i,
                i < views.len(),
                views == import_names(manifest.deep_view()),
                name@ == views[i as int],
                key@ == step_type_key_of(plugin@, name@),
                !(owners.map().contains_key(key@) && owners.map()[key@] != plugin@),
                imports_fault(plugin@, views, owners.map(), 0) == imports_fault(
                    plugin@,
                    views,
                    owners.map(),
                    i as int,
                ),
                forall|k: int|
                    0 <= k < i ==> keys@[k]@ == step_type_key_of(plugin@, #[trigger] views[k]),
                forall|k: int| 0 <= k < j ==> step_type_key_of(plugin@, #[trigger] views[k]) != key@,
            decreases keys@.len() - j,
        {
            assert(keys@[j as int]@ == step_type_key_of(plugin@, views[j as int]));
            if same(keys[j].as_str(), key.as_str()) {
                let mut w = begin(plugin, ": step type '");
                w.append(name);
                w.append(
                    "' is declared more than once in this manifest (stepTypeImpls entries and step_types aliases share one namespace)",
                );
                return Err(w);
            }
            j += 1;
        }
        keys.push(key);
        i += 1;
    }
    Ok(())
}

/// The first step of a list, from `i` on, that is long-running.
pub open spec fn long_running_step(steps: Seq<StepView>, i: int) -> Option<Seq<char>>
    decreases steps.len() - i,
{
    if i < 0 || i >= steps.len() {
        None
    } else if steps[i].long_running {
        Some(steps[i].id)
    } else {
        long_running_step(steps, i + 1)
    }
}

/// The words that begin a message on an action.
pub open spec fn of_action(plugin: Seq<char>, action: Seq<char>) -> Seq<char> {
    of_plugin(plugin) + " action '"@ + action + "'"@
}

/// What is wrong with the way in which an action is to run: it is not both dataflow and continuous;
/// a dataflow, and nothing else, has a long-running step; and its deadline, where it has one, is not
/// immediate.
pub open spec fn action_fault(plugin: Seq<char>, name: Seq<char>, a: ActionView) -> Option<
    Seq<char>,
> {
    if a.dataflow && a.continuous {
        Some(
            of_action(plugin, name)
                + ": action cannot be both `dataflow: true` and `continuous: true` — dataflow IS the long-running form"@,
        )
    } else if a.dataflow && long_running_step(a.steps, 0) is None {
        Some(
            of_action(plugin, name)
                + ": action is `dataflow: true` but no step is marked `long_running: true` — a dataflow action needs at least one long-running producer for the scheduler to provision streams against"@,
        )
    } else if !a.dataflow && long_running_step(a.steps, 0) is Some {
        Some(
            of_action(plugin, name) + ": step '"@ + long_running_step(a.steps, 0)->0
                + "' is marked `long_running: true` but the action is not `dataflow: true` — long_running is only meaningful in a streaming-dataflow action"@,
        )
    } else if a.wallclock_timeout_ms == Some(0u64) {
        Some(
            of_action(plugin, name)
                + ": `wallclock_timeout_ms: 0` is invalid (would trip ExecutionTimeout immediately). Omit the field or set `null` to fall through to the deployment default; mark the action `dataflow: true` for the uncapped variant"@,
        )
    } else {
        None
    }
}

/// The first fault of the actions from `i` on.
pub open spec fn actions_fault(plugin: Seq<char>, actions: Seq<(Seq<char>, ActionView)>, i: int) -> Option<
    Seq<char>,
>
    decreases actions.len() - i,
{
    if i < 0 || i >= actions.len() {
        None
    } else {
        either(
            action_fault(plugin, actions[i].0, actions[i].1),
            actions_fault(plugin, actions, i + 1),
        )
    }
}

fn begin_action(plugin: &str, action: &str, rest: &str) -> (r: String)
    ensures
        r@ == of_action(plugin@, action@) + rest@,
{
    let mut w = begin(plugin, " action '");
    w.append(action);
    w.append("'");
    w.append(rest);
    w
}

fn find_long_running(steps: &Vec<StepDef>) -> (r: Option<&str>)
    ensures
        r.deep_view() == long_running_step(steps.deep_view(), 0),
{
    let ghost views = steps.deep_view();
    let mut i: usize = 0;
    while i < steps.len()
        invariant
            i <= steps@.len(),
            views == steps.deep_view(),
            long_running_step(views, 0) == long_running_step(views, i as int),
        decreases steps@.len() - i,
    {
        assert(views[i as int] == steps@[i as int].deep_view());
        if steps[i].long_running {
            return Some(steps[i].id.as_str());
        }
        i += 1;
    }
    None
}

/// Checks the way in which an action is to run.
pub fn check_action(plugin: &str, name: &str, action: &Action) -> (r: Result<(), String>)
    ensures
        tells(r, action_fault(plugin@, name@, action.deep_view())),
{
    if action.dataflow && action.continuous {
        return Err(
            begin_action(
                plugin,
                name,
                ": action cannot be both `dataflow: true` and `continuous: true` — dataflow IS the long-running form",
            ),
        );
    }
    let producer = find_long_running(&action.steps);
    match producer {
        None => if action.dataflow {
            return Err(
                begin_action(
                    plugin,
                    name,
                    ": action is `dataflow: true` but no step is marked `long_running: true` — a dataflow action needs at least one long-running producer for the scheduler to provision streams against",
                ),
            );
        },
        Some(id) => if !action.dataflow {
            let mut w = begin_action(plugin, name, ": step '");
            w.append(id);
            w.append(
                "' is marked `long_running: true` but the action is not `dataflow: true` — long_running is only meaningful in a streaming-dataflow action",
            );
            return Err(w);
        },
    }
    if let Some(ms) = action.wallclock_timeout_ms {
        if ms == 0 {
            return Err(
                begin_action(
                    plugin,
                    name,
                    ": `wallclock_timeout_ms: 0` is invalid (would trip ExecutionTimeout immediately). Omit the field or set `null` to fall through to the deployment default; mark the action `dataflow: true` for the uncapped variant",
                ),
            );
        }
    }
    Ok(())
}

/// Checks the way in which the actions of a manifest are to run.
pub fn check_actions(plugin: &str, manifest: &PluginManifest) -> (r: Result<(), String>)
    ensures
        tells(r, actions_fault(plugin@, manifest.deep_view().actions, 0)),
{
    let ghost actions = manifest.deep_view().actions;
    let mut i: usize = 0;
    while i < manifest.actions.len()
        invariant
            i <= manifest.actions@.len(),
            actions == manifest.deep_view().actions,
            actions_fault(plugin@, actions, 0) == actions_fault(plugin@, actions, i as int),
        decreases manifest.actions@.len() - i,
    {
        let (name, action) = &manifest.actions[i];
        assert(actions[i as int] == (name@, action.deep_view()));
        check_action(plugin, name.as_str(), action)?;
        i += 1;
    }
    Ok(())
}

} // verus!
