//! What the loaded plugins have registered: their actions with the plans to run them, the roles
//! that they fulfil, and the indices that are built from their manifests.

use vstd::prelude::*;

use crate::duplicate::Duplicate;
use crate::identity::{namespace_of, namespace_part, qualified, qualify};
use crate::json::{Json, JsonView};
use crate::manifest::{
    Action, ActionView, DagPlan, ManifestView, PlanView, PluginManifest, StepTypeDef,
    StepTypeDefView,
};
use crate::permissions::{Permission, PermissionView};
use crate::table::{as_map, keys_differ, lemma_as_map, revised, Table};
use crate::text::{has_char, same};

verus! {

/// `wasmtime::Module`, opaque to the verifier.
#[verifier::external_type_specification]
#[verifier::external_body]
pub struct ExModule(wasmtime::Module);

/// A compiled wasm module.
pub struct WasmModule {
    pub module: std::sync::Arc<wasmtime::Module>,
}

impl DeepView for WasmModule {
    type V = std::sync::Arc<wasmtime::Module>;

    open spec fn deep_view(&self) -> std::sync::Arc<wasmtime::Module> {
        self.module
    }
}

/// An action and the plan to run it.
#[derive(Debug)]
pub struct ActionRegistration {
    pub action: Action,
    pub plan: DagPlan,
}

/// What an [`ActionRegistration`] stands for.
pub struct RegistrationView {
    pub action: ActionView,
    pub plan: PlanView,
}

impl DeepView for ActionRegistration {
    type V = RegistrationView;

    open spec fn deep_view(&self) -> RegistrationView {
        RegistrationView { action: self.action.deep_view(), plan: self.plan.deep_view() }
    }
}

/// One action that invokes another, each as its plugin and its name.
#[derive(Debug)]
pub struct InvokeEdge {
    pub from: (String, String),
    pub to: (String, String),
}

/// What an [`InvokeEdge`] stands for.
pub struct EdgeView {
    pub from: (Seq<char>, Seq<char>),
    pub to: (Seq<char>, Seq<char>),
}

impl DeepView for InvokeEdge {
    type V = EdgeView;

    open spec fn deep_view(&self) -> EdgeView {
        EdgeView { from: self.from.deep_view(), to: self.to.deep_view() }
    }
}

/// The wasm module behind a step type and a selector.
#[derive(Debug)]
pub struct StepTypeImplEntry {
    pub plugin: String,
    pub wasm_module: String,
}

/// What a [`StepTypeImplEntry`] stands for.
pub struct ImplEntryView {
    pub plugin: Seq<char>,
    pub wasm_module: Seq<char>,
}

impl DeepView for StepTypeImplEntry {
    type V = ImplEntryView;

    open spec fn deep_view(&self) -> ImplEntryView {
        ImplEntryView { plugin: self.plugin@, wasm_module: self.wasm_module@ }
    }
}

impl DeepView for Permission {
    type V = PermissionView;

    open spec fn deep_view(&self) -> PermissionView {
        self@
    }
}

/// An action that can be picked as a tool.
#[derive(Debug)]
pub struct ToolDescriptor {
    pub tool_name: String,
    pub description: String,
    pub parameters: Json,
    pub plugin_key: String,
    pub action_name: String,
}

/// What a [`ToolDescriptor`] stands for.
pub struct ToolDescriptorView {
    pub tool_name: Seq<char>,
    pub description: Seq<char>,
    pub parameters: JsonView,
    pub plugin_key: Seq<char>,
    pub action_name: Seq<char>,
}

impl DeepView for ToolDescriptor {
    type V = ToolDescriptorView;

    open spec fn deep_view(&self) -> ToolDescriptorView {
        ToolDescriptorView {
            tool_name: self.tool_name@,
            description: self.description@,
            parameters: self.parameters@,
            plugin_key: self.plugin_key@,
            action_name: self.action_name@,
        }
    }
}

/// The registry of the loaded plugins.
pub struct PluginRegistry {
    modules: Table<(String, String), ActionRegistration>,
    roles: Table<String, Vec<String>>,
    manifests: Table<String, PluginManifest>,
    invoke_edges: Vec<InvokeEdge>,
    subscriptions: Table<String, Vec<(String, String)>>,
    step_type_aliases: Table<String, (String, String)>,
    permissions: Table<String, Vec<Permission>>,
    plugin_wasm_modules: Table<(String, String), WasmModule>,
    step_type_defs: Table<String, (String, StepTypeDef)>,
    step_type_impls: Table<(String, Option<String>), StepTypeImplEntry>,
}

/// What a [`PluginRegistry`] stands for.
pub struct RegistryView {
    /// Actions by plugin and name.
    pub actions: Map<(Seq<char>, Seq<char>), RegistrationView>,
    /// The plugins that fulfil a role, in the order of their registration.
    pub roles: Map<Seq<char>, Seq<Seq<char>>>,
    pub manifests: Map<Seq<char>, ManifestView>,
    pub invoke_edges: Seq<EdgeView>,
    /// The plugins and actions that an event is dispatched to.
    pub subscriptions: Map<Seq<char>, Seq<(Seq<char>, Seq<char>)>>,
    /// The plugin and the action behind an alias.
    pub aliases: Map<Seq<char>, (Seq<char>, Seq<char>)>,
    pub permissions: Map<Seq<char>, Seq<PermissionView>>,
    /// Compiled modules by plugin and name.
    pub wasm_modules: Map<(Seq<char>, Seq<char>), std::sync::Arc<wasmtime::Module>>,
    /// The plugin that defines a step type, and the definition.
    pub step_type_defs: Map<Seq<char>, (Seq<char>, StepTypeDefView)>,
    /// The module behind a step type and a selector.
    pub step_type_impls: Map<(Seq<char>, Option<Seq<char>>), ImplEntryView>,
}

/// The key under which a step type is registered: one with a dot belongs to the namespace of the
/// plugin that writes it, one without is the kernel's own.
pub open spec fn step_type_key_of(plugin: Seq<char>, written: Seq<char>) -> Seq<char> {
    if written.contains('.') {
        qualified(namespace_part(plugin), written)
    } else {
        written
    }
}

/// What stands under `k`, or nothing.
pub open spec fn at<A, B>(m: Map<A, B>, k: A) -> Option<B> {
    if m.contains_key(k) {
        Some(m[k])
    } else {
        None
    }
}

/// The list under `k`, empty where there is none.
pub open spec fn list_at<A, B>(m: Map<A, Seq<B>>, k: A) -> Seq<B> {
    if m.contains_key(k) {
        m[k]
    } else {
        Seq::empty()
    }
}

impl View for PluginRegistry {
    type V = RegistryView;

    closed spec fn view(&self) -> RegistryView {
        RegistryView {
            actions: self.modules.map(),
            roles: self.roles.map(),
            manifests: self.manifests.map(),
            invoke_edges: self.invoke_edges.deep_view(),
            subscriptions: self.subscriptions.map(),
            aliases: self.step_type_aliases.map(),
            permissions: self.permissions.map(),
            wasm_modules: self.plugin_wasm_modules.map(),
            step_type_defs: self.step_type_defs.map(),
            step_type_impls: self.step_type_impls.map(),
        }
    }
}

impl RegistryView {
    /// A registry that holds nothing.
    pub open spec fn empty() -> RegistryView {
        RegistryView {
            actions: Map::empty(),
            roles: Map::empty(),
            manifests: Map::empty(),
            invoke_edges: Seq::empty(),
            subscriptions: Map::empty(),
            aliases: Map::empty(),
            permissions: Map::empty(),
            wasm_modules: Map::empty(),
            step_type_defs: Map::empty(),
            step_type_impls: Map::empty(),
        }
    }
}

fn text_of_opt(s: Option<&str>) -> (r: Option<String>)
    ensures
        r.deep_view() == s.deep_view(),
{
    match s {
        Some(t) => Some(t.to_owned()),
        None => None,
    }
}

impl PluginRegistry {
    /// Every index has at most one entry under a key.
    pub closed spec fn wf(&self) -> bool {
        &&& self.modules.wf()
        &&& self.roles.wf()
        &&& self.manifests.wf()
        &&& self.subscriptions.wf()
        &&& self.step_type_aliases.wf()
        &&& self.permissions.wf()
        &&& self.plugin_wasm_modules.wf()
        &&& self.step_type_defs.wf()
        &&& self.step_type_impls.wf()
    }

    /// A registry that holds nothing.
    pub fn new() -> (r: Self)
        ensures
            r.wf(),
            r@ == RegistryView::empty(),
    {
        let invoke_edges: Vec<InvokeEdge> = Vec::new();
        assert(invoke_edges.deep_view() =~= Seq::empty());
        PluginRegistry {
            modules: Table::new(),
            roles: Table::new(),
            manifests: Table::new(),
            invoke_edges,
            subscriptions: Table::new(),
            step_type_aliases: Table::new(),
            permissions: Table::new(),
            plugin_wasm_modules: Table::new(),
            step_type_defs: Table::new(),
            step_type_impls: Table::new(),
        }
    }

    /// The key under which a step type that `plugin` writes is registered.
    pub fn step_type_key(plugin: &str, written: &str) -> (r: String)
        ensures
            r@ == step_type_key_of(plugin@, written@),
    {
        if has_char(written, '.') {
            qualify(namespace_of(plugin), written)
        } else {
            written.to_owned()
        }
    }

    /// The plugin and the module behind a step type and a selector.
    pub fn step_type_impl_owner(&self, step_type: &str, matches: Option<&str>) -> (r: Option<
        (&str, &str),
    >)
        requires
            self.wf(),
        ensures
            match r {
                Some((plugin, module)) => at(
                    self@.step_type_impls,
                    (step_type@, matches.deep_view()),
                ) == Some(ImplEntryView { plugin: plugin@, wasm_module: module@ }),
                None => at(self@.step_type_impls, (step_type@, matches.deep_view())) is None,
            },
    {
        let key = (step_type.to_owned(), text_of_opt(matches));
        match self.step_type_impls.get(&key) {
            Some(e) => Some((e.plugin.as_str(), e.wasm_module.as_str())),
            None => None,
        }
    }

    /// Puts a module behind a step type and a selector.
    pub fn commit_step_type_impl(
        &mut self,
        plugin: &str,
        step_type: &str,
        matches: Option<&str>,
        wasm_module: &str,
    )
        requires
            old(self).wf(),
        ensures
            final(self).wf(),
            final(self)@ == (RegistryView {
                step_type_impls: old(self)@.step_type_impls.insert(
                    (step_type_key_of(plugin@, step_type@), matches.deep_view()),
                    ImplEntryView { plugin: plugin@, wasm_module: wasm_module@ },
                ),
                ..old(self)@
            }),
    {
        let key = (Self::step_type_key(plugin, step_type), text_of_opt(matches));
        self.step_type_impls.insert(
            key,
            StepTypeImplEntry { plugin: plugin.to_owned(), wasm_module: wasm_module.to_owned() },
        );
    }

    /// The modules that can run a step type with a selector: at most one.
    pub fn step_type_impl_candidates(&self, step_type: &str, matches: Option<&str>) -> (r: Vec<
        &StepTypeImplEntry,
    >)
        requires
            self.wf(),
        ensures
            match at(self@.step_type_impls, (step_type@, matches.deep_view())) {
                Some(e) => r@.len() == 1 && r@[0].deep_view() == e,
                None => r@.len() == 0,
            },
    {
        let key = (step_type.to_owned(), text_of_opt(matches));
        let mut r: Vec<&StepTypeImplEntry> = Vec::new();
        if let Some(e) = self.step_type_impls.get(&key) {
            r.push(e);
        }
        r
    }

    /// Adds the definition of a step type.
    pub fn commit_step_type_def(&mut self, plugin: &str, def: StepTypeDef)
        requires
            old(self).wf(),
        ensures
            final(self).wf(),
            final(self)@ == (RegistryView {
                step_type_defs: old(self)@.step_type_defs.insert(
                    step_type_key_of(plugin@, def.name@),
                    (plugin@, def.deep_view()),
                ),
                ..old(self)@
            }),
    {
        let key = Self::step_type_key(plugin, def.name.as_str());
        self.step_type_defs.insert(key, (plugin.to_owned(), def));
    }

    /// The definition under a key, with the plugin that gave it.
    pub fn get_step_type_def(&self, key: &str) -> (r: Option<(&str, &StepTypeDef)>)
        requires
            self.wf(),
        ensures
            match r {
                Some((plugin, def)) => at(self@.step_type_defs, key@) == Some(
                    (plugin@, def.deep_view()),
                ),
                None => at(self@.step_type_defs, key@) is None,
            },
    {
        match self.step_type_defs.get(&key.to_owned()) {
            Some(e) => Some((e.0.as_str(), &e.1)),
            None => None,
        }
    }

    /// How many step types are defined.
    pub fn step_type_def_count(&self) -> (r: usize)
        requires
            self.wf(),
        ensures
            self@.step_type_defs.dom().finite(),
            r == self@.step_type_defs.dom().len(),
    {
        self.step_type_defs.len()
    }

    /// Keeps a compiled module of a plugin.
    pub fn register_plugin_wasm_module(
        &mut self,
        plugin: &str,
        module_name: &str,
        module: std::sync::Arc<wasmtime::Module>,
    )
        requires
            old(self).wf(),
        ensures
            final(self).wf(),
            final(self)@ == (RegistryView {
                wasm_modules: old(self)@.wasm_modules.insert((plugin@, module_name@), module),
                ..old(self)@
            }),
    {
        self.plugin_wasm_modules.insert(
            (plugin.to_owned(), module_name.to_owned()),
            WasmModule { module },
        );
    }

    /// A compiled module of a plugin.
    pub fn get_plugin_wasm_module(&self, plugin: &str, module_name: &str) -> (r: Option<
        &std::sync::Arc<wasmtime::Module>,
    >)
        requires
            self.wf(),
        ensures
            match r {
                Some(m) => at(self@.wasm_modules, (plugin@, module_name@)) == Some(*m),
                None => at(self@.wasm_modules, (plugin@, module_name@)) is None,
            },
    {
        match self.plugin_wasm_modules.get(&(plugin.to_owned(), module_name.to_owned())) {
            Some(m) => Some(&m.module),
            None => None,
        }
    }
}

/// The entries of a map for which `p` holds.
pub open spec fn kept<A, B>(m: Map<A, B>, p: spec_fn(A, B) -> bool) -> Map<A, B> {
    Map::new(|k: A| m.contains_key(k) && p(k, m[k]), |k: A| m[k])
}

/// The lists of a map without the items for which `p` does not hold, and without the lists that are
/// then empty.
pub open spec fn scrubbed<A, B>(m: Map<A, Seq<B>>, p: spec_fn(B) -> bool) -> Map<A, Seq<B>> {
    Map::new(|k: A| m.contains_key(k) && m[k].filter(p).len() > 0, |k: A| m[k].filter(p))
}

/// `v` with `x` at its end, unless it is there already.
pub open spec fn with_item<B>(v: Seq<B>, x: B) -> Seq<B> {
    if v.contains(x) {
        v
    } else {
        v.push(x)
    }
}

/// The tools among the actions of a plugin, in the order of the manifest.
pub open spec fn tools_of(plugin: Seq<char>, actions: Seq<(Seq<char>, ActionView)>) -> Seq<
    ToolDescriptorView,
>
    decreases actions.len(),
{
    if actions.len() == 0 {
        Seq::empty()
    } else {
        let found = tools_of(plugin, actions.drop_last());
        match actions.last().1.tool {
            Some(t) => found.push(
                ToolDescriptorView {
                    tool_name: t.name,
                    description: t.description,
                    parameters: t.parameters,
                    plugin_key: plugin,
                    action_name: actions.last().0,
                },
            ),
            None => found,
        }
    }
}

/// The tools of plugins that are listed in some order.
pub open spec fn all_tools(plugins: Seq<(Seq<char>, ManifestView)>) -> Seq<ToolDescriptorView>
    decreases plugins.len(),
{
    if plugins.len() == 0 {
        Seq::empty()
    } else {
        all_tools(plugins.drop_last()) + tools_of(plugins.last().0, plugins.last().1.actions)
    }
}

/// `order` lists the entries of `m`, each once.
pub open spec fn lists<A, B>(order: Seq<(A, B)>, m: Map<A, B>) -> bool {
    keys_differ(order) && as_map(order) == m
}

impl RegistryView {
    /// The registry without a plugin: nothing that the plugin registered is left, and no role and no
    /// event is left without a plugin. The edges that lead to the plugin's actions stay.
    pub open spec fn without(self, plugin: Seq<char>) -> RegistryView {
        RegistryView {
            actions: kept(self.actions, not_under(plugin)),
            roles: scrubbed(self.roles, is_not(plugin)),
            manifests: self.manifests.remove(plugin),
            invoke_edges: self.invoke_edges.filter(is_not_from(plugin)),
            subscriptions: scrubbed(self.subscriptions, is_not_of(plugin)),
            aliases: kept(self.aliases, alias_not_of(plugin)),
            permissions: self.permissions.remove(plugin),
            wasm_modules: kept(self.wasm_modules, not_under(plugin)),
            step_type_defs: kept(self.step_type_defs, def_not_of(plugin)),
            step_type_impls: kept(self.step_type_impls, impl_not_of(plugin)),
        }
    }
}

/// Names other than `plugin`.
pub open spec fn is_not(plugin: Seq<char>) -> spec_fn(Seq<char>) -> bool {
    |p: Seq<char>| p != plugin
}

/// Actions of other plugins.
pub open spec fn is_not_of(plugin: Seq<char>) -> spec_fn((Seq<char>, Seq<char>)) -> bool {
    |p: (Seq<char>, Seq<char>)| p.0 != plugin
}

/// Edges that start at other plugins.
pub open spec fn is_not_from(plugin: Seq<char>) -> spec_fn(EdgeView) -> bool {
    |e: EdgeView| e.from.0 != plugin
}

/// Entries under other plugins.
pub open spec fn not_under<B>(plugin: Seq<char>) -> spec_fn((Seq<char>, Seq<char>), B) -> bool {
    |k: (Seq<char>, Seq<char>), v: B| k.0 != plugin
}

/// Aliases of other plugins.
pub open spec fn alias_not_of(plugin: Seq<char>) -> spec_fn(
    Seq<char>,
    (Seq<char>, Seq<char>),
) -> bool {
    |k: Seq<char>, v: (Seq<char>, Seq<char>)| v.0 != plugin
}

/// Definitions of other plugins.
pub open spec fn def_not_of(plugin: Seq<char>) -> spec_fn(
    Seq<char>,
    (Seq<char>, StepTypeDefView),
) -> bool {
    |k: Seq<char>, v: (Seq<char>, StepTypeDefView)| v.0 != plugin
}

/// Modules of other plugins.
pub open spec fn impl_not_of(plugin: Seq<char>) -> spec_fn(
    (Seq<char>, Option<Seq<char>>),
    ImplEntryView,
) -> bool {
    |k: (Seq<char>, Option<Seq<char>>), v: ImplEntryView| v.plugin != plugin
}

impl PluginRegistry {
    /// Dispatches an event to an action from now on; saying so again changes nothing.
    pub fn register_subscription(&mut self, event_type: &str, plugin: &str, action: &str)
        requires
            old(self).wf(),
        ensures
            final(self).wf(),
            final(self)@ == (RegistryView {
                subscriptions: old(self)@.subscriptions.insert(
                    event_type@,
                    with_item(
                        list_at(old(self)@.subscriptions, event_type@),
                        (plugin@, action@),
                    ),
                ),
                ..old(self)@
            }),
    {
        let key = event_type.to_owned();
        let mut bucket: Vec<(String, String)> = match self.subscriptions.get(&key) {
            Some(v) => v.duplicate(),
            None => Vec::new(),
        };
        let ghost so_far = bucket.deep_view();
        assert(so_far =~= list_at(self@.subscriptions, event_type@));
        let mut i: usize = 0;
        while i < bucket.len() && !(same(bucket[i].0.as_str(), plugin) && same(
            bucket[i].1.as_str(),
            action,
        ))
            invariant
                i <= bucket@.len(),
                so_far == bucket.deep_view(),
                forall|j: int| 0 <= j < i ==> (#[trigger] so_far[j]) != (plugin@, action@),
            decreases bucket@.len() - i,
        {
            assert(so_far[i as int] == bucket@[i as int].deep_view());
            i += 1;
        }
        if i == bucket.len() {
            bucket.push((plugin.to_owned(), action.to_owned()));
            assert(bucket.deep_view() =~= so_far.push((plugin@, action@)));
            assert(!so_far.contains((plugin@, action@)));
        } else {
            assert(so_far[i as int] == (plugin@, action@));
        }
        self.subscriptions.insert(key, bucket);
    }

    /// The actions that an event is dispatched to.
    pub fn subscribers_for(&self, event_type: &str) -> (r: &[(String, String)])
        requires
            self.wf(),
        ensures
            r.deep_view() == list_at(self@.subscriptions, event_type@),
    {
        match self.subscriptions.get(&event_type.to_owned()) {
            Some(v) => {
                let r = v.as_slice();
                assert(r.deep_view() =~= v.deep_view());
                r
            },
            None => {
                let r: &[(String, String)] = &[];
                assert(r.deep_view() =~= Seq::empty());
                r
            },
        }
    }
}

impl PluginRegistry {
    /// Which action invokes which.
    pub fn invoke_edges(&self) -> (r: &[InvokeEdge])
        ensures
            r.deep_view() == self@.invoke_edges,
    {
        let r = self.invoke_edges.as_slice();
        assert(r.deep_view() =~= self.invoke_edges.deep_view());
        r
    }

    /// Adds to which action invokes which.
    pub fn extend_invoke_edges(&mut self, edges: Vec<InvokeEdge>)
        requires
            old(self).wf(),
        ensures
            final(self).wf(),
            final(self)@ == (RegistryView {
                invoke_edges: old(self)@.invoke_edges + edges.deep_view(),
                ..old(self)@
            }),
    {
        let ghost before = self.invoke_edges.deep_view();
        let mut more = edges;
        self.invoke_edges.append(&mut more);
        assert(self.invoke_edges.deep_view() =~= before + edges.deep_view());
    }

    /// Registers an action with its plan.
    pub fn register_action(
        &mut self,
        plugin_name: &str,
        action_name: &str,
        action: Action,
        plan: DagPlan,
    )
        requires
            old(self).wf(),
        ensures
            final(self).wf(),
            final(self)@ == (RegistryView {
                actions: old(self)@.actions.insert(
                    (plugin_name@, action_name@),
                    RegistrationView { action: action.deep_view(), plan: plan.deep_view() },
                ),
                ..old(self)@
            }),
    {
        self.modules.insert(
            (plugin_name.to_owned(), action_name.to_owned()),
            ActionRegistration { action, plan },
        );
    }

    /// Registers a manifest under its name.
    pub fn register_manifest(&mut self, manifest: &PluginManifest)
        requires
            old(self).wf(),
        ensures
            final(self).wf(),
            final(self)@ == (RegistryView {
                manifests: old(self)@.manifests.insert(manifest.name@, manifest.deep_view()),
                ..old(self)@
            }),
    {
        self.manifests.insert(manifest.name.clone(), manifest.duplicate());
    }

    /// Adds a plugin to those that fulfil a role.
    pub fn register_role(&mut self, role: &str, plugin_name: &str)
        requires
            old(self).wf(),
        ensures
            final(self).wf(),
            final(self)@ == (RegistryView {
                roles: old(self)@.roles.insert(
                    role@,
                    list_at(old(self)@.roles, role@).push(plugin_name@),
                ),
                ..old(self)@
            }),
    {
        let key = role.to_owned();
        let mut bucket: Vec<String> = match self.roles.get(&key) {
            Some(v) => v.duplicate(),
            None => Vec::new(),
        };
        let ghost so_far = bucket.deep_view();
        assert(so_far =~= list_at(self@.roles, role@));
        bucket.push(plugin_name.to_owned());
        assert(bucket.deep_view() =~= so_far.push(plugin_name@));
        self.roles.insert(key, bucket);
    }

    /// An action with its plan.
    pub fn get_action(&self, plugin_name: &str, action_name: &str) -> (r: Option<
        &ActionRegistration,
    >)
        requires
            self.wf(),
        ensures
            match r {
                Some(a) => at(self@.actions, (plugin_name@, action_name@)) == Some(a.deep_view()),
                None => at(self@.actions, (plugin_name@, action_name@)) is None,
            },
    {
        self.modules.get(&(plugin_name.to_owned(), action_name.to_owned()))
    }

    /// The plugins that fulfil a role, in the order of their registration.
    pub fn plugins_for_role(&self, role: &str) -> (r: Vec<String>)
        requires
            self.wf(),
        ensures
            r.deep_view() == list_at(self@.roles, role@),
    {
        match self.roles.get(&role.to_owned()) {
            Some(v) => v.duplicate(),
            None => {
                let r: Vec<String> = Vec::new();
                assert(r.deep_view() =~= Seq::empty());
                r
            },
        }
    }

    /// Whether a plugin is registered.
    pub fn has_plugin(&self, plugin_name: &str) -> (r: bool)
        requires
            self.wf(),
        ensures
            r == self@.manifests.contains_key(plugin_name@),
    {
        self.manifests.contains(&plugin_name.to_owned())
    }

    /// The manifest of a plugin.
    pub fn get_manifest(&self, plugin_name: &str) -> (r: Option<&PluginManifest>)
        requires
            self.wf(),
        ensures
            match r {
                Some(m) => at(self@.manifests, plugin_name@) == Some(m.deep_view()),
                None => at(self@.manifests, plugin_name@) is None,
            },
    {
        self.manifests.get(&plugin_name.to_owned())
    }

    /// Makes an alias stand for an action.
    pub fn commit_step_type_alias(&mut self, alias: &str, plugin: &str, action: &str)
        requires
            old(self).wf(),
        ensures
            final(self).wf(),
            final(self)@ == (RegistryView {
                aliases: old(self)@.aliases.insert(
                    step_type_key_of(plugin@, alias@),
                    (plugin@, action@),
                ),
                ..old(self)@
            }),
    {
        let key = Self::step_type_key(plugin, alias);
        self.step_type_aliases.insert(key, (plugin.to_owned(), action.to_owned()));
    }

    /// The plugins and actions that an alias stands for: at most one.
    pub fn step_type_alias_candidates(&self, alias: &str) -> (r: Vec<(String, String)>)
        requires
            self.wf(),
        ensures
            match at(self@.aliases, alias@) {
                Some(target) => r.deep_view() == seq![target],
                None => r@.len() == 0,
            },
    {
        let mut r: Vec<(String, String)> = Vec::new();
        if let Some(target) = self.step_type_aliases.get(&alias.to_owned()) {
            r.push(target.duplicate());
            assert(r.deep_view() =~= seq![target.deep_view()]);
        }
        r
    }

    /// Sets what a plugin is granted.
    pub fn set_permissions(&mut self, plugin: &str, perms: Vec<Permission>)
        requires
            old(self).wf(),
        ensures
            final(self).wf(),
            final(self)@ == (RegistryView {
                permissions: old(self)@.permissions.insert(plugin@, perms.deep_view()),
                ..old(self)@
            }),
    {
        self.permissions.insert(plugin.to_owned(), perms);
    }

    /// What a plugin is granted: nothing, where nothing was set.
    pub fn permissions_for(&self, plugin: &str) -> (r: &[Permission])
        requires
            self.wf(),
        ensures
            r.deep_view() == list_at(self@.permissions, plugin@),
    {
        match self.permissions.get(&plugin.to_owned()) {
            Some(v) => {
                let r = v.as_slice();
                assert(r.deep_view() =~= v.deep_view());
                r
            },
            None => {
                let r: &[Permission] = &[];
                assert(r.deep_view() =~= Seq::empty());
                r
            },
        }
    }

    /// The selectors for which a step type has a module, each once.
    pub fn step_type_impl_matches(&self, step_type: &str) -> (r: Vec<&str>)
        requires
            self.wf(),
        ensures
            r.deep_view().no_duplicates(),
            forall|m: Seq<char>|
                r.deep_view().contains(m) <==> #[trigger] self@.step_type_impls.contains_key(
                    (step_type@, Some(m)),
                ),
    {
        let mut r: Vec<&str> = Vec::new();
        let ghost order = self.step_type_impls.order();
        proof {
            lemma_as_map(order);
        }
        let n: usize = self.step_type_impls.len();
        let mut i: usize = 0;
        while i < n
            invariant
                n == order.len(),
                i <= n,
                order == self.step_type_impls.order(),
                keys_differ(order),
                r.deep_view().no_duplicates(),
                forall|m: Seq<char>| #[trigger]
                    r.deep_view().contains(m) ==> exists|j: int|
                        0 <= j < i && (#[trigger] order[j]).0 == (step_type@, Some(m)),
                forall|j: int|
                    0 <= j < i && (#[trigger] order[j]).0.0 == step_type@ && order[j].0.1 is Some
                        ==> r.deep_view().contains(order[j].0.1->0),
            decreases n - i,
        {
            let (k, _) = self.step_type_impls.entry(i);
            let ghost so_far = r.deep_view();
            if same(k.0.as_str(), step_type) {
                if let Some(m) = &k.1 {
                    proof {
                        if so_far.contains(m@) {
                            let j = choose|j: int|
                                0 <= j < i && (#[trigger] order[j]).0 == (step_type@, Some(m@));
                            assert(order[j].0 == order[i as int].0);
                        }
                    }
                    r.push(m.as_str());
                    proof {
                        assert(r.deep_view() =~= so_far.push(m@));
                        assert(r.deep_view().last() == m@);
                        assert forall|x: Seq<char>| #[trigger]
                            r.deep_view().contains(x) implies exists|j: int|
                            0 <= j < i + 1 && (#[trigger] order[j]).0 == (step_type@, Some(x)) by {
                            if x == m@ {
                                assert(order[i as int].0 == (step_type@, Some(x)));
                            } else {
                                assert(so_far.contains(x)) by {
                                    let q = r.deep_view().index_of(x);
                                    assert(so_far[q] == x);
                                }
                            }
                        }
                        assert forall|j: int|
                            0 <= j < i + 1 && (#[trigger] order[j]).0.0 == step_type@
                                && order[j].0.1 is Some implies r.deep_view().contains(
                            order[j].0.1->0,
                        ) by {
                            if j < i {
                                let q = so_far.index_of(order[j].0.1->0);
                                assert(r.deep_view()[q] == order[j].0.1->0);
                            } else {
                                assert(r.deep_view()[so_far.len() as int] == m@);
                            }
                        }
                    }
                }
            }
            i += 1;
        }
        proof {
            assert forall|m: Seq<char>|
                r.deep_view().contains(m) <==> #[trigger] self@.step_type_impls.contains_key(
                    (step_type@, Some(m)),
                ) by {
                if self@.step_type_impls.contains_key((step_type@, Some(m))) {
                    let j = choose|j: int|
                        0 <= j < order.len() && (#[trigger] order[j]).0 == (step_type@, Some(m));
                    assert(order[j].0.0 == step_type@);
                }
            }
        }
        r
    }
}

/// The keys of entries, in their order.
pub open spec fn keys_of<A, B>(order: Seq<(A, B)>) -> Seq<A> {
    order.map_values(|e: (A, B)| e.0)
}

impl PluginRegistry {
    /// The plugins that are registered, each once.
    pub fn plugin_names(&self) -> (r: Vec<&str>)
        requires
            self.wf(),
        ensures
            exists|order: Seq<(Seq<char>, ManifestView)>|
                lists(order, self@.manifests) && r.deep_view() == #[trigger] keys_of(order),
    {
        let ghost order = self.manifests.order();
        let n: usize = self.manifests.len();
        let mut r: Vec<&str> = Vec::new();
        let mut i: usize = 0;
        while i < n
            invariant
                n == order.len(),
                i <= n,
                order == self.manifests.order(),
                r@.len() == i,
                forall|j: int| 0 <= j < i ==> r@[j]@ == (#[trigger] order[j]).0,
            decreases n - i,
        {
            let (k, _) = self.manifests.entry(i);
            r.push(k.as_str());
            i += 1;
        }
        assert(r.deep_view() =~= keys_of(order));
        r
    }

    /// The actions of a plugin, each once.
    pub fn action_names(&self, plugin_name: &str) -> (r: Vec<String>)
        requires
            self.wf(),
        ensures
            r.deep_view().no_duplicates(),
            forall|a: Seq<char>|
                r.deep_view().contains(a) <==> #[trigger] self@.actions.contains_key(
                    (plugin_name@, a),
                ),
    {
        let mut r: Vec<String> = Vec::new();
        let ghost order = self.modules.order();
        proof {
            lemma_as_map(order);
        }
        let n: usize = self.modules.len();
        let mut i: usize = 0;
        while i < n
            invariant
                n == order.len(),
                i <= n,
                order == self.modules.order(),
                keys_differ(order),
                r.deep_view().no_duplicates(),
                forall|a: Seq<char>| #[trigger]
                    r.deep_view().contains(a) ==> exists|j: int|
                        0 <= j < i && (#[trigger] order[j]).0 == (plugin_name@, a),
                forall|j: int|
                    0 <= j < i && (#[trigger] order[j]).0.0 == plugin_name@
                        ==> r.deep_view().contains(order[j].0.1),
            decreases n - i,
        {
            let (k, _) = self.modules.entry(i);
            let ghost so_far = r.deep_view();
            if same(k.0.as_str(), plugin_name) {
                proof {
                    if so_far.contains(k.1@) {
                        let j = choose|j: int|
                            0 <= j < i && (#[trigger] order[j]).0 == (plugin_name@, k.1@);
                        assert(order[j].0 == order[i as int].0);
                    }
                }
                r.push(k.1.clone());
                proof {
                    assert(r.deep_view() =~= so_far.push(k.1@));
                    assert(r.deep_view().last() == k.1@);
                    assert forall|x: Seq<char>| #[trigger]
                        r.deep_view().contains(x) implies exists|j: int|
                        0 <= j < i + 1 && (#[trigger] order[j]).0 == (plugin_name@, x) by {
                        if x == k.1@ {
                            assert(order[i as int].0 == (plugin_name@, x));
                        } else {
                            assert(so_far.contains(x)) by {
                                let q = r.deep_view().index_of(x);
                                assert(so_far[q] == x);
                            }
                        }
                    }
                    assert forall|j: int|
                        0 <= j < i + 1 && (#[trigger] order[j]).0.0
                            == plugin_name@ implies r.deep_view().contains(order[j].0.1) by {
                        if j < i {
                            let q = so_far.index_of(order[j].0.1);
                            assert(r.deep_view()[q] == order[j].0.1);
                        } else {
                            assert(r.deep_view()[so_far.len() as int] == k.1@);
                        }
                    }
                }
            }
            i += 1;
        }
        proof {
            assert forall|a: Seq<char>|
                r.deep_view().contains(a) <==> #[trigger] self@.actions.contains_key(
                    (plugin_name@, a),
                ) by {
                if self@.actions.contains_key((plugin_name@, a)) {
                    let j = choose|j: int|
                        0 <= j < order.len() && (#[trigger] order[j]).0 == (plugin_name@, a);
                    assert(order[j].0.0 == plugin_name@);
                }
            }
        }
        r
    }

    /// The step types that are defined, each with the plugin that defines it.
    pub fn step_type_defs_iter(&self) -> (r: Vec<(&str, &str, &StepTypeDef)>)
        requires
            self.wf(),
        ensures
            exists|order: Seq<(Seq<char>, (Seq<char>, StepTypeDefView))>|
                {
                    &&& #[trigger] lists(order, self@.step_type_defs)
                    &&& r@.len() == order.len()
                    &&& forall|i: int|
                        0 <= i < order.len() ==> (#[trigger] r@[i]).deep_view() == (
                            order[i].0,
                            order[i].1.0,
                            order[i].1.1,
                        )
                },
    {
        let ghost order = self.step_type_defs.order();
        let n: usize = self.step_type_defs.len();
        let mut r: Vec<(&str, &str, &StepTypeDef)> = Vec::new();
        let mut i: usize = 0;
        while i < n
            invariant
                n == order.len(),
                i <= n,
                order == self.step_type_defs.order(),
                r@.len() == i,
                forall|j: int|
                    0 <= j < i ==> (#[trigger] r@[j]).deep_view() == (
                        order[j].0,
                        order[j].1.0,
                        order[j].1.1,
                    ),
            decreases n - i,
        {
            let (k, v) = self.step_type_defs.entry(i);
            r.push((k.as_str(), v.0.as_str(), &v.1));
            i += 1;
        }
        assert(lists(order, self@.step_type_defs));
        r
    }

    /// The aliases, each with the plugin that declares it.
    pub fn step_type_aliases_iter(&self) -> (r: Vec<(&str, &str)>)
        requires
            self.wf(),
        ensures
            exists|order: Seq<(Seq<char>, (Seq<char>, Seq<char>))>|
                {
                    &&& #[trigger] lists(order, self@.aliases)
                    &&& r@.len() == order.len()
                    &&& forall|i: int|
                        0 <= i < order.len() ==> (#[trigger] r@[i]).deep_view() == (
                            order[i].0,
                            order[i].1.0,
                        )
                },
    {
        let ghost order = self.step_type_aliases.order();
        let n: usize = self.step_type_aliases.len();
        let mut r: Vec<(&str, &str)> = Vec::new();
        let mut i: usize = 0;
        while i < n
            invariant
                n == order.len(),
                i <= n,
                order == self.step_type_aliases.order(),
                r@.len() == i,
                forall|j: int|
                    0 <= j < i ==> (#[trigger] r@[j]).deep_view() == (order[j].0, order[j].1.0),
            decreases n - i,
        {
            let (k, v) = self.step_type_aliases.entry(i);
            r.push((k.as_str(), v.0.as_str()));
            i += 1;
        }
        assert(lists(order, self@.aliases));
        r
    }

    /// The tools among the actions of all plugins, plugin by plugin.
    pub fn get_tool_descriptors(&self) -> (r: Vec<ToolDescriptor>)
        requires
            self.wf(),
        ensures
            exists|order: Seq<(Seq<char>, ManifestView)>|
                lists(order, self@.manifests) && r.deep_view() == #[trigger] all_tools(order),
    {
        let ghost order = self.manifests.order();
        let n: usize = self.manifests.len();
        let mut r: Vec<ToolDescriptor> = Vec::new();
        assert(order.take(0) =~= Seq::empty());
        assert(r.deep_view() =~= all_tools(order.take(0)));
        let mut i: usize = 0;
        while i < n
            invariant
                n == order.len(),
                i <= n,
                order == self.manifests.order(),
                r.deep_view() == all_tools(order.take(i as int)),
            decreases n - i,
        {
            let (name, manifest) = self.manifests.entry(i);
            let ghost so_far = r.deep_view();
            let ghost actions = manifest.actions.deep_view();
            proof {
                assert(order.take(i as int + 1).drop_last() =~= order.take(i as int));
                assert(actions.take(0) =~= Seq::empty());
                assert(so_far + tools_of(name@, actions.take(0)) =~= so_far);
            }
            let mut j: usize = 0;
            while j < manifest.actions.len()
                invariant
                    j <= manifest.actions@.len(),
                    actions == manifest.actions.deep_view(),
                    r.deep_view() == so_far + tools_of(name@, actions.take(j as int)),
                decreases manifest.actions@.len() - j,
            {
                let (action_name, action) = &manifest.actions[j];
                let ghost found = r.deep_view();
                proof {
                    assert(actions.take(j as int + 1).drop_last() =~= actions.take(j as int));
                    assert(actions[j as int] == (action_name@, action.deep_view()));
                }
                if let Some(tool) = &action.tool {
                    let d = ToolDescriptor {
                        tool_name: tool.name.clone(),
                        description: tool.description.clone(),
                        parameters: tool.parameters.clone(),
                        plugin_key: name.clone(),
                        action_name: action_name.clone(),
                    };
                    let ghost view = d.deep_view();
                    r.push(d);
                    assert(r.deep_view() =~= found.push(view));
                    assert(found.push(view) =~= so_far + tools_of(
                        name@,
                        actions.take(j as int + 1),
                    ));
                }
                j += 1;
            }
            assert(actions.take(actions.len() as int) =~= actions);
            i += 1;
        }
        assert(order.take(order.len() as int) =~= order);
        assert(lists(order, self@.manifests));
        r
    }
}

fn names_but(v: Vec<String>, plugin: &str) -> (r: Vec<String>)
    ensures
        r.deep_view() == v.deep_view().filter(is_not(plugin@)),
{
    let ghost all = v@;
    let ghost views = v.deep_view();
    let mut r: Vec<String> = Vec::new();
    proof {
        assert(views.take(0).filter(is_not(plugin@)) =~= Seq::empty()) by {
            reveal(Seq::filter);
        }
        assert(r.deep_view() =~= Seq::empty());
    }
    for s in it: v
        invariant
            it.seq() == all,
            it.index() <= all.len(),
            views.len() == all.len(),
            forall|j: int| 0 <= j < all.len() ==> (#[trigger] views[j]) == all[j]@,
            r.deep_view() == views.take(it.index() as int).filter(is_not(plugin@)),
    {
        let ghost i = it.index() as int;
        let ghost so_far = r.deep_view();
        let ghost t = views.take(i + 1);
        proof {
            assert(t.drop_last() =~= views.take(i));
            assert(t.last() == s@);
            reveal(Seq::filter);
        }
        if !same(s.as_str(), plugin) {
            r.push(s);
            assert(r.deep_view() =~= so_far.push(t.last()));
        }
    }
    assert(views.take(views.len() as int) =~= views);
    r
}

fn actions_but(v: Vec<(String, String)>, plugin: &str) -> (r: Vec<(String, String)>)
    ensures
        r.deep_view() == v.deep_view().filter(is_not_of(plugin@)),
{
    let ghost all = v@;
    let ghost views = v.deep_view();
    let mut r: Vec<(String, String)> = Vec::new();
    proof {
        assert(views.take(0).filter(is_not_of(plugin@)) =~= Seq::empty()) by {
            reveal(Seq::filter);
        }
        assert(r.deep_view() =~= Seq::empty());
    }
    for s in it: v
        invariant
            it.seq() == all,
            it.index() <= all.len(),
            views.len() == all.len(),
            forall|j: int| 0 <= j < all.len() ==> (#[trigger] views[j]) == all[j].deep_view(),
            r.deep_view() == views.take(it.index() as int).filter(is_not_of(plugin@)),
    {
        let ghost i = it.index() as int;
        let ghost so_far = r.deep_view();
        let ghost t = views.take(i + 1);
        proof {
            assert(t.drop_last() =~= views.take(i));
            assert(t.last() == s.deep_view());
            reveal(Seq::filter);
        }
        if !same(s.0.as_str(), plugin) {
            r.push(s);
            assert(r.deep_view() =~= so_far.push(t.last()));
        }
    }
    assert(views.take(views.len() as int) =~= views);
    r
}

fn edges_but(v: Vec<InvokeEdge>, plugin: &str) -> (r: Vec<InvokeEdge>)
    ensures
        r.deep_view() == v.deep_view().filter(is_not_from(plugin@)),
{
    let ghost all = v@;
    let ghost views = v.deep_view();
    let mut r: Vec<InvokeEdge> = Vec::new();
    proof {
        assert(views.take(0).filter(is_not_from(plugin@)) =~= Seq::empty()) by {
            reveal(Seq::filter);
        }
        assert(r.deep_view() =~= Seq::empty());
    }
    for s in it: v
        invariant
            it.seq() == all,
            it.index() <= all.len(),
            views.len() == all.len(),
            forall|j: int| 0 <= j < all.len() ==> (#[trigger] views[j]) == all[j].deep_view(),
            r.deep_view() == views.take(it.index() as int).filter(is_not_from(plugin@)),
    {
        let ghost i = it.index() as int;
        let ghost so_far = r.deep_view();
        let ghost t = views.take(i + 1);
        proof {
            assert(t.drop_last() =~= views.take(i));
            assert(t.last() == s.deep_view());
            reveal(Seq::filter);
        }
        if !same(s.from.0.as_str(), plugin) {
            r.push(s);
            assert(r.deep_view() =~= so_far.push(t.last()));
        }
    }
    assert(views.take(views.len() as int) =~= views);
    r
}

/// The step that keeps the entries for which `p` holds.
pub open spec fn keeping<A, B>(p: spec_fn(A, B) -> bool) -> spec_fn(A, B) -> Option<B> {
    |k: A, v: B|
        if p(k, v) {
            Some(v)
        } else {
            None
        }
}

/// The step that keeps, of each list, the items for which `p` holds, and drops the lists that are
/// then empty.
pub open spec fn scrubbing<A, B>(p: spec_fn(B) -> bool) -> spec_fn(A, Seq<B>) -> Option<Seq<B>> {
    |k: A, v: Seq<B>|
        if v.filter(p).len() > 0 {
            Some(v.filter(p))
        } else {
            None
        }
}

pub proof fn lemma_keeping<A, B>(m: Map<A, B>, p: spec_fn(A, B) -> bool)
    ensures
        revised(m, keeping(p)) == kept(m, p),
{
    let r = revised(m, keeping(p));
    assert forall|k: A| #[trigger] r.contains_key(k) <==> kept(m, p).contains_key(k) by {
        assert(keeping(p)(k, m[k]) is Some <==> p(k, m[k]));
    }
    assert forall|k: A| #[trigger] r.contains_key(k) implies r[k] == kept(m, p)[k] by {
        assert(keeping(p)(k, m[k]) == Some(m[k]));
    }
    assert(r =~= kept(m, p));
}

pub proof fn lemma_scrubbing<A, B>(m: Map<A, Seq<B>>, p: spec_fn(B) -> bool)
    ensures
        revised(m, scrubbing(p)) == scrubbed(m, p),
{
    let r = revised(m, scrubbing(p));
    assert forall|k: A| #[trigger] r.contains_key(k) <==> scrubbed(m, p).contains_key(k) by {
        assert(scrubbing::<A, B>(p)(k, m[k]) is Some <==> m[k].filter(p).len() > 0);
    }
    assert forall|k: A| #[trigger] r.contains_key(k) implies r[k] == scrubbed(m, p)[k] by {
        assert(scrubbing::<A, B>(p)(k, m[k]) == Some(m[k].filter(p)));
    }
    assert(r =~= scrubbed(m, p));
}

impl PluginRegistry {
    /// Removes all that a plugin registered, and tells whether the plugin was there.
    pub fn unregister_plugin(&mut self, plugin_name: &str) -> (r: bool)
        requires
            old(self).wf(),
        ensures
            final(self).wf(),
            r == old(self)@.manifests.contains_key(plugin_name@),
            r ==> final(self)@ == old(self)@.without(plugin_name@),
            !r ==> final(self)@ == old(self)@,
    {
        let name = plugin_name.to_owned();
        if !self.manifests.contains(&name) {
            return false;
        }
        let ghost before = self@;
        let ghost gone = plugin_name@;
        self.manifests.remove(&name);
        self.permissions.remove(&name);

        let ghost step = keeping(not_under::<RegistrationView>(gone));
        let keep = |k: &(String, String), v: ActionRegistration| -> (r: Option<ActionRegistration>)
            ensures
                r.deep_view() == step(k.deep_view(), v.deep_view()),
        {
            if same(k.0.as_str(), plugin_name) {
                None
            } else {
                Some(v)
            }
        };
        self.modules.revise(keep, Ghost(step));

        let ghost step = keeping(not_under::<std::sync::Arc<wasmtime::Module>>(gone));
        let keep = |k: &(String, String), v: WasmModule| -> (r: Option<WasmModule>)
            ensures
                r.deep_view() == step(k.deep_view(), v.deep_view()),
        {
            if same(k.0.as_str(), plugin_name) {
                None
            } else {
                Some(v)
            }
        };
        self.plugin_wasm_modules.revise(keep, Ghost(step));

        let ghost step = keeping(alias_not_of(gone));
        let keep = |k: &String, v: (String, String)| -> (r: Option<(String, String)>)
            ensures
                r.deep_view() == step(k.deep_view(), v.deep_view()),
        {
            if same(v.0.as_str(), plugin_name) {
                None
            } else {
                Some(v)
            }
        };
        self.step_type_aliases.revise(keep, Ghost(step));

        let ghost step = keeping(def_not_of(gone));
        let keep = |k: &String, v: (String, StepTypeDef)| -> (r: Option<(String, StepTypeDef)>)
            ensures
                r.deep_view() == step(k.deep_view(), v.deep_view()),
        {
            if same(v.0.as_str(), plugin_name) {
                None
            } else {
                Some(v)
            }
        };
        self.step_type_defs.revise(keep, Ghost(step));

        let ghost step = keeping(impl_not_of(gone));
        let keep = |k: &(String, Option<String>), v: StepTypeImplEntry| -> (r: Option<
            StepTypeImplEntry,
        >)
            ensures
                r.deep_view() == step(k.deep_view(), v.deep_view()),
        {
            if same(v.plugin.as_str(), plugin_name) {
                None
            } else {
                Some(v)
            }
        };
        self.step_type_impls.revise(keep, Ghost(step));

        let ghost step = scrubbing(is_not(gone));
        let keep = |k: &String, v: Vec<String>| -> (r: Option<Vec<String>>)
            ensures
                r.deep_view() == step(k.deep_view(), v.deep_view()),
        {
            let left = names_but(v, plugin_name);
            if left.len() > 0 {
                Some(left)
            } else {
                None
            }
        };
        self.roles.revise(keep, Ghost(step));

        let ghost step = scrubbing(is_not_of(gone));
        let keep = |k: &String, v: Vec<(String, String)>| -> (r: Option<Vec<(String, String)>>)
            ensures
                r.deep_view() == step(k.deep_view(), v.deep_view()),
        {
            let left = actions_but(v, plugin_name);
            if left.len() > 0 {
                Some(left)
            } else {
                None
            }
        };
        self.subscriptions.revise(keep, Ghost(step));

        let mut edges: Vec<InvokeEdge> = Vec::new();
        core::mem::swap(&mut self.invoke_edges, &mut edges);
        self.invoke_edges = edges_but(edges, plugin_name);

        proof {
            lemma_keeping(before.actions, not_under::<RegistrationView>(gone));
            lemma_keeping(
                before.wasm_modules,
                not_under::<std::sync::Arc<wasmtime::Module>>(gone),
            );
            lemma_keeping(before.aliases, alias_not_of(gone));
            lemma_keeping(before.step_type_defs, def_not_of(gone));
            lemma_keeping(before.step_type_impls, impl_not_of(gone));
            lemma_scrubbing(before.roles, is_not(gone));
            lemma_scrubbing(before.subscriptions, is_not_of(gone));
        }
        true
    }
}

} // verus!
