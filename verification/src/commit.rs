//! The registration of a manifest that has been checked. Nothing here can fail.

use vstd::prelude::*;

use crate::duplicate::Duplicate;
use crate::manifest::{Action, ActionView, DagPlan, PlanView, StepTypeDef, StepTypeDefView};
use crate::registration::{PreparedStepImpl, PreparedView};
use crate::registry::{
    list_at, step_type_key_of, with_item, ImplEntryView, PluginRegistry, RegistrationView,
    RegistryView,
};
use crate::table::Table;
use crate::wasm_runtime::{import_name, WasmRuntime, StepBody};

verus! {

/// The registry with the actions of a plugin, each with its plan.
pub open spec fn with_actions(
    r: RegistryView,
    plugin: Seq<char>,
    actions: Seq<(Seq<char>, ActionView)>,
    plans: Seq<PlanView>,
) -> RegistryView
    decreases actions.len(),
{
    if actions.len() == 0 {
        r
    } else {
        let before = with_actions(r, plugin, actions.drop_last(), plans);
        RegistryView {
            actions: before.actions.insert(
                (plugin, actions.last().0),
                RegistrationView { action: actions.last().1, plan: plans[actions.len() - 1] },
            ),
            ..before
        }
    }
}

/// Registers the actions of a plugin, each with its plan.
pub fn add_actions(
    registry: &mut PluginRegistry,
    plugin: &str,
    actions: &Vec<(String, Action)>,
    plans: Vec<DagPlan>,
)
    requires
        old(registry).wf(),
        actions@.len() == plans@.len(),
    ensures
        final(registry).wf(),
        final(registry)@ == with_actions(
            old(registry)@,
            plugin@,
            actions.deep_view(),
            plans.deep_view(),
        ),
{
    let ghost before = registry@;
    let ghost views = actions.deep_view();
    let ghost all = plans@;
    let ghost plan_views = plans.deep_view();
    let mut i: usize = 0;
    for plan in it: plans
        invariant
            it.seq() == all,
            i == it.index(),
            it.index() <= all.len(),
            all.len() == actions@.len(),
            views == actions.deep_view(),
            plan_views.len() == all.len(),
            forall|j: int| 0 <= j < all.len() ==> (#[trigger] plan_views[j]) == all[j].deep_view(),
            registry.wf(),
            registry@ == with_actions(before, plugin@, views.take(i as int), plan_views),
    {
        assert(i < actions.len());
        let (name, action) = &actions[i];
        proof {
            assert(views.take(i as int + 1).drop_last() =~= views.take(i as int));
            assert(views[i as int] == (name@, action.deep_view()));
            assert(plan_views[i as int] == plan.deep_view());
        }
        registry.register_action(plugin, name.as_str(), action.duplicate(), plan);
        i += 1;
    }
    assert(views.take(views.len() as int) =~= views);
}

/// The registry with the compiled modules of a plugin.
pub open spec fn with_modules(
    r: RegistryView,
    plugin: Seq<char>,
    modules: Seq<(Seq<char>, std::sync::Arc<wasmtime::Module>)>,
) -> RegistryView
    decreases modules.len(),
{
    if modules.len() == 0 {
        r
    } else {
        let before = with_modules(r, plugin, modules.drop_last());
        RegistryView {
            wasm_modules: before.wasm_modules.insert(
                (plugin, modules.last().0),
                modules.last().1,
            ),
            ..before
        }
    }
}

/// What named modules stand for.
pub open spec fn module_views(v: Seq<(String, std::sync::Arc<wasmtime::Module>)>) -> Seq<
    (Seq<char>, std::sync::Arc<wasmtime::Module>),
> {
    v.map_values(|e: (String, std::sync::Arc<wasmtime::Module>)| (e.0@, e.1))
}

/// Keeps the compiled modules of a plugin.
pub fn add_modules(
    registry: &mut PluginRegistry,
    plugin: &str,
    modules: Vec<(String, std::sync::Arc<wasmtime::Module>)>,
)
    requires
        old(registry).wf(),
    ensures
        final(registry).wf(),
        final(registry)@ == with_modules(old(registry)@, plugin@, module_views(modules@)),
{
    let ghost before = registry@;
    let ghost all = modules@;
    let ghost views = module_views(all);
    for e in it: modules
        invariant
            it.seq() == all,
            it.index() <= all.len(),
            views == module_views(all),
            registry.wf(),
            registry@ == with_modules(before, plugin@, views.take(it.index() as int)),
    {
        let ghost i = it.index() as int;
        proof {
            assert(views.take(i + 1).drop_last() =~= views.take(i));
            assert(views[i] == (e.0@, e.1));
        }
        let (name, module) = e;
        registry.register_plugin_wasm_module(plugin, name.as_str(), module);
    }
    assert(views.take(views.len() as int) =~= views);
}

/// The registry with the step types that a plugin defines.
pub open spec fn with_defs(
    r: RegistryView,
    plugin: Seq<char>,
    defs: Seq<StepTypeDefView>,
) -> RegistryView
    decreases defs.len(),
{
    if defs.len() == 0 {
        r
    } else {
        let before = with_defs(r, plugin, defs.drop_last());
        RegistryView {
            step_type_defs: before.step_type_defs.insert(
                step_type_key_of(plugin, defs.last().name),
                (plugin, defs.last()),
            ),
            ..before
        }
    }
}

/// Registers the step types that a plugin defines.
pub fn add_defs(registry: &mut PluginRegistry, plugin: &str, defs: Vec<StepTypeDef>)
    requires
        old(registry).wf(),
    ensures
        final(registry).wf(),
        final(registry)@ == with_defs(old(registry)@, plugin@, defs.deep_view()),
{
    let ghost before = registry@;
    let ghost all = defs@;
    let ghost views = defs.deep_view();
    for def in it: defs
        invariant
            it.seq() == all,
            it.index() <= all.len(),
            views.len() == all.len(),
            forall|j: int| 0 <= j < all.len() ==> (#[trigger] views[j]) == all[j].deep_view(),
            registry.wf(),
            registry@ == with_defs(before, plugin@, views.take(it.index() as int)),
    {
        let ghost i = it.index() as int;
        proof {
            assert(views.take(i + 1).drop_last() =~= views.take(i));
            assert(views[i] == def.deep_view());
        }
        registry.commit_step_type_def(plugin, def);
    }
    assert(views.take(views.len() as int) =~= views);
}

/// What the registration of bodies changes.
pub struct BodiesView {
    pub registry: RegistryView,
    /// The plugin that put a step type into the import table.
    pub owners: Map<Seq<char>, Seq<char>>,
    pub imports: Map<Seq<char>, StepBody>,
}

impl BodiesView {
    /// A step type is put into the import table.
    pub open spec fn with_import(
        self,
        plugin: Seq<char>,
        step_type: Seq<char>,
        body: StepBody,
    ) -> BodiesView {
        let key = step_type_key_of(plugin, step_type);
        BodiesView {
            owners: self.owners.insert(key, plugin),
            imports: self.imports.insert(import_name(key), body),
            ..self
        }
    }

    /// One body is registered: a wasm body under its selector, any other in the import table.
    pub open spec fn with_impl(self, plugin: Seq<char>, p: PreparedView) -> BodiesView {
        match p {
            PreparedView::Wasm { step_type, matches, wasm_module } => BodiesView {
                registry: RegistryView {
                    step_type_impls: self.registry.step_type_impls.insert(
                        (step_type_key_of(plugin, step_type), matches),
                        ImplEntryView { plugin, wasm_module },
                    ),
                    ..self.registry
                },
                ..self
            },
            PreparedView::Native { step_type, body } => self.with_import(
                plugin,
                step_type,
                StepBody::Plugin(body),
            ),
            PreparedView::Intrinsic { step_type, body } => self.with_import(
                plugin,
                step_type,
                StepBody::Intrinsic(body),
            ),
        }
    }

    /// Bodies are registered, one after the other.
    pub open spec fn with_impls(self, plugin: Seq<char>, impls: Seq<PreparedView>) -> BodiesView
        decreases impls.len(),
    {
        if impls.len() == 0 {
            self
        } else {
            self.with_impls(plugin, impls.drop_last()).with_impl(plugin, impls.last())
        }
    }

    /// Aliases are registered, one after the other: each stands for an action of the plugin, and
    /// its body is the dispatcher.
    pub open spec fn with_aliases(
        self,
        plugin: Seq<char>,
        aliases: Seq<(Seq<char>, Seq<char>)>,
    ) -> BodiesView
        decreases aliases.len(),
    {
        if aliases.len() == 0 {
            self
        } else {
            let before = self.with_aliases(plugin, aliases.drop_last());
            let (alias, action) = aliases.last();
            BodiesView {
                registry: RegistryView {
                    aliases: before.registry.aliases.insert(
                        step_type_key_of(plugin, alias),
                        (plugin, action),
                    ),
                    ..before.registry
                },
                ..before
            }.with_import(plugin, alias, StepBody::AliasDispatch)
        }
    }
}

fn add_import(
    owners: &mut Table<String, String>,
    imports: &mut WasmRuntime,
    plugin: &str,
    step_type: &str,
    body: StepBody,
)
    requires
        old(owners).wf(),
        old(imports).wf(),
    ensures
        final(owners).wf(),
        final(imports).wf(),
        final(imports).engine_view() == old(imports).engine_view(),
        final(owners).map() == old(owners).map().insert(
            step_type_key_of(plugin@, step_type@),
            plugin@,
        ),
        final(imports)@ == old(imports)@.insert(
            import_name(step_type_key_of(plugin@, step_type@)),
            body,
        ),
{
    let key = PluginRegistry::step_type_key(plugin, step_type);
    match body {
        StepBody::Plugin(b) => imports.register_trait_step_type(key.as_str(), b),
        StepBody::Intrinsic(b) => imports.register_intrinsic_step_type(key.as_str(), b),
        StepBody::AliasDispatch => imports.register_alias(key.as_str()),
    }
    owners.insert(key, plugin.to_owned());
}

/// Registers the bodies that a plugin supplies.
pub fn add_impls(
    registry: &mut PluginRegistry,
    owners: &mut Table<String, String>,
    imports: &mut WasmRuntime,
    plugin: &str,
    impls: Vec<PreparedStepImpl>,
)
    requires
        old(registry).wf(),
        old(owners).wf(),
        old(imports).wf(),
    ensures
        final(registry).wf(),
        final(owners).wf(),
        final(imports).wf(),
        final(imports).engine_view() == old(imports).engine_view(),
        (BodiesView {
            registry: final(registry)@,
            owners: final(owners).map(),
            imports: final(imports)@,
        }) == (BodiesView {
            registry: old(registry)@,
            owners: old(owners).map(),
            imports: old(imports)@,
        }).with_impls(plugin@, impls.deep_view()),
{
    let ghost before = BodiesView {
        registry: registry@,
        owners: owners.map(),
        imports: imports@,
    };
    let ghost all = impls@;
    let ghost views = impls.deep_view();
    for entry in it: impls
        invariant
            it.seq() == all,
            it.index() <= all.len(),
            views.len() == all.len(),
            forall|j: int| 0 <= j < all.len() ==> (#[trigger] views[j]) == all[j].deep_view(),
            registry.wf(),
            owners.wf(),
            imports.wf(),
            imports.engine_view() == old(imports).engine_view(),
            (BodiesView { registry: registry@, owners: owners.map(), imports: imports@ })
                == before.with_impls(plugin@, views.take(it.index() as int)),
    {
        let ghost i = it.index() as int;
        proof {
            assert(views.take(i + 1).drop_last() =~= views.take(i));
            assert(views[i] == entry.deep_view());
        }
        match entry {
            PreparedStepImpl::Wasm { step_type, matches, wasm_module } => {
                let selector = match &matches {
                    Some(m) => Some(m.as_str()),
                    None => None,
                };
                assert(selector.deep_view() == matches.deep_view());
                registry.commit_step_type_impl(
                    plugin,
                    step_type.as_str(),
                    selector,
                    wasm_module.as_str(),
                );
            },
            PreparedStepImpl::Native { step_type, body } => {
                add_import(owners, imports, plugin, step_type.as_str(), StepBody::Plugin(body));
            },
            PreparedStepImpl::Intrinsic { step_type, body } => {
                add_import(owners, imports, plugin, step_type.as_str(), StepBody::Intrinsic(body));
            },
        }
    }
    assert(views.take(views.len() as int) =~= views);
}

/// Registers the aliases of a plugin.
pub fn add_aliases(
    registry: &mut PluginRegistry,
    owners: &mut Table<String, String>,
    imports: &mut WasmRuntime,
    plugin: &str,
    aliases: &Vec<(String, String)>,
)
    requires
        old(registry).wf(),
        old(owners).wf(),
        old(imports).wf(),
    ensures
        final(registry).wf(),
        final(owners).wf(),
        final(imports).wf(),
        final(imports).engine_view() == old(imports).engine_view(),
        (BodiesView {
            registry: final(registry)@,
            owners: final(owners).map(),
            imports: final(imports)@,
        }) == (BodiesView {
            registry: old(registry)@,
            owners: old(owners).map(),
            imports: old(imports)@,
        }).with_aliases(plugin@, aliases.deep_view()),
{
    let ghost before = BodiesView {
        registry: registry@,
        owners: owners.map(),
        imports: imports@,
    };
    let ghost views = aliases.deep_view();
    let mut i: usize = 0;
    while i < aliases.len()
        invariant
            i <= aliases@.len(),
            views == aliases.deep_view(),
            registry.wf(),
            owners.wf(),
            imports.wf(),
            imports.engine_view() == old(imports).engine_view(),
            (BodiesView { registry: registry@, owners: owners.map(), imports: imports@ })
                == before.with_aliases(plugin@, views.take(i as int)),
        decreases aliases@.len() - i,
    {
        let alias = aliases[i].0.as_str();
        let action = aliases[i].1.as_str();
        proof {
            assert(views.take(i as int + 1).drop_last() =~= views.take(i as int));
            assert(views[i as int] == (alias@, action@));
        }
        registry.commit_step_type_alias(alias, plugin, action);
        add_import(owners, imports, plugin, alias, StepBody::AliasDispatch);
        i += 1;
    }
    assert(views.take(views.len() as int) =~= views);
}

/// The registry with a plugin among those that fulfil each of the roles.
pub open spec fn with_roles(r: RegistryView, plugin: Seq<char>, keys: Seq<Seq<char>>) -> RegistryView
    decreases keys.len(),
{
    if keys.len() == 0 {
        r
    } else {
        let before = with_roles(r, plugin, keys.drop_last());
        RegistryView {
            roles: before.roles.insert(
                keys.last(),
                list_at(before.roles, keys.last()).push(plugin),
            ),
            ..before
        }
    }
}

/// Adds a plugin to those that fulfil each of the roles.
pub fn add_roles(registry: &mut PluginRegistry, plugin: &str, keys: &Vec<String>)
    requires
        old(registry).wf(),
    ensures
        final(registry).wf(),
        final(registry)@ == with_roles(old(registry)@, plugin@, keys.deep_view()),
{
    let ghost before = registry@;
    let ghost views = keys.deep_view();
    let mut i: usize = 0;
    while i < keys.len()
        invariant
            i <= keys@.len(),
            views == keys.deep_view(),
            registry.wf(),
            registry@ == with_roles(before, plugin@, views.take(i as int)),
        decreases keys@.len() - i,
    {
        proof {
            assert(views.take(i as int + 1).drop_last() =~= views.take(i as int));
            assert(views[i as int] == keys@[i as int]@);
        }
        registry.register_role(keys[i].as_str(), plugin);
        i += 1;
    }
    assert(views.take(views.len() as int) =~= views);
}

/// The registry with an action among those that each of the events is dispatched to.
pub open spec fn with_subscription(
    r: RegistryView,
    plugin: Seq<char>,
    action: Seq<char>,
    events: Seq<Seq<char>>,
) -> RegistryView
    decreases events.len(),
{
    if events.len() == 0 {
        r
    } else {
        let before = with_subscription(r, plugin, action, events.drop_last());
        RegistryView {
            subscriptions: before.subscriptions.insert(
                events.last(),
                with_item(list_at(before.subscriptions, events.last()), (plugin, action)),
            ),
            ..before
        }
    }
}

/// The registry with the actions of a plugin among those that their events are dispatched to.
pub open spec fn with_subscriptions(
    r: RegistryView,
    plugin: Seq<char>,
    actions: Seq<(Seq<char>, ActionView)>,
) -> RegistryView
    decreases actions.len(),
{
    if actions.len() == 0 {
        r
    } else {
        with_subscription(
            with_subscriptions(r, plugin, actions.drop_last()),
            plugin,
            actions.last().0,
            actions.last().1.subscribes_to,
        )
    }
}

/// Dispatches to the actions of a plugin the events that they subscribe to.
pub fn add_subscriptions(
    registry: &mut PluginRegistry,
    plugin: &str,
    actions: &Vec<(String, Action)>,
)
    requires
        old(registry).wf(),
    ensures
        final(registry).wf(),
        final(registry)@ == with_subscriptions(old(registry)@, plugin@, actions.deep_view()),
{
    let ghost before = registry@;
    let ghost views = actions.deep_view();
    let mut i: usize = 0;
    while i < actions.len()
        invariant
            i <= actions@.len(),
            views == actions.deep_view(),
            registry.wf(),
            registry@ == with_subscriptions(before, plugin@, views.take(i as int)),
        decreases actions@.len() - i,
    {
        let (name, action) = &actions[i];
        let ghost start = registry@;
        let ghost events = action.subscribes_to.deep_view();
        proof {
            assert(views.take(i as int + 1).drop_last() =~= views.take(i as int));
            assert(views[i as int] == (name@, action.deep_view()));
            assert(events.take(0) =~= Seq::empty());
        }
        let mut j: usize = 0;
        while j < action.subscribes_to.len()
            invariant
                j <= action.subscribes_to@.len(),
                events == action.subscribes_to.deep_view(),
                registry.wf(),
                registry@ == with_subscription(start, plugin@, name@, events.take(j as int)),
            decreases action.subscribes_to@.len() - j,
        {
            proof {
                assert(events.take(j as int + 1).drop_last() =~= events.take(j as int));
                assert(events[j as int] == action.subscribes_to@[j as int]@);
            }
            registry.register_subscription(
                action.subscribes_to[j].as_str(),
                plugin,
                name.as_str(),
            );
            j += 1;
        }
        assert(events.take(events.len() as int) =~= events);
        i += 1;
    }
    assert(views.take(views.len() as int) =~= views);
}

} // verus!
