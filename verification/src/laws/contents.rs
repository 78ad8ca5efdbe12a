//! What holds of a registered plugin: everything that its manifest brings is where it is looked for.

use vstd::prelude::*;

use crate::commit::{
    with_actions, with_defs, with_modules, with_roles, with_subscription, with_subscriptions,
    BodiesView,
};
use crate::identity::{namespace_part, qualified};
use crate::kernel::access::runs_script;
use crate::kernel::{registered, with_identity, KernelView};
use crate::manifest::{ActionView, ManifestView, PlanView, StepTypeDefView, WasmModuleView};
use crate::permissions::PermissionView;
use crate::registration::{prepared_impls, Host, PreparedView};
use crate::registry::{
    all_tools, list_at, step_type_key_of, tools_of, EdgeView, ImplEntryView, RegistrationView,
    RegistryView, ToolDescriptorView,
};
use crate::spi::role_keys;
use crate::wasm_modules::{base64_decoded, decoded_module, modules_outcome};
use crate::wasm_runtime::{import_name, StepBody};

verus! {

/// A compiled module.
pub type Compiled = std::sync::Arc<wasmtime::Module>;

proof fn lemma_actions(
    r: RegistryView,
    plugin: Seq<char>,
    actions: Seq<(Seq<char>, ActionView)>,
    plans: Seq<PlanView>,
    i: int,
)
    requires
        0 <= i < actions.len(),
        forall|j: int| i < j < actions.len() ==> (#[trigger] actions[j]).0 != actions[i].0,
    ensures
        ({
            let m = with_actions(r, plugin, actions, plans).actions;
            &&& m.contains_key((plugin, actions[i].0))
            &&& m[(plugin, actions[i].0)] == (RegistrationView {
                action: actions[i].1,
                plan: plans[i],
            })
        }),
    decreases actions.len(),
{
    if i < actions.len() - 1 {
        let rest = actions.drop_last();
        assert(rest[i] == actions[i]);
        assert forall|j: int| i < j < rest.len() implies (#[trigger] rest[j]).0 != rest[i].0 by {
            assert(rest[j] == actions[j]);
        }
        lemma_actions(r, plugin, rest, plans, i);
        assert(actions[actions.len() - 1].0 != actions[i].0);
    }
}

proof fn lemma_actions_alone(
    r: RegistryView,
    plugin: Seq<char>,
    actions: Seq<(Seq<char>, ActionView)>,
    plans: Seq<PlanView>,
)
    ensures
        with_actions(r, plugin, actions, plans) == (RegistryView {
            actions: with_actions(r, plugin, actions, plans).actions,
            ..r
        }),
    decreases actions.len(),
{
    if actions.len() > 0 {
        lemma_actions_alone(r, plugin, actions.drop_last(), plans);
    }
}

proof fn lemma_modules(
    r: RegistryView,
    plugin: Seq<char>,
    modules: Seq<(Seq<char>, Compiled)>,
    i: int,
)
    requires
        0 <= i < modules.len(),
        forall|j: int| i < j < modules.len() ==> (#[trigger] modules[j]).0 != modules[i].0,
    ensures
        with_modules(r, plugin, modules).wasm_modules.contains_key((plugin, modules[i].0)),
        with_modules(r, plugin, modules).wasm_modules[(plugin, modules[i].0)] == modules[i].1,
    decreases modules.len(),
{
    if i < modules.len() - 1 {
        let rest = modules.drop_last();
        assert(rest[i] == modules[i]);
        assert forall|j: int| i < j < rest.len() implies (#[trigger] rest[j]).0 != rest[i].0 by {
            assert(rest[j] == modules[j]);
        }
        lemma_modules(r, plugin, rest, i);
        assert(modules[modules.len() - 1].0 != modules[i].0);
    }
}

proof fn lemma_modules_alone(
    r: RegistryView,
    plugin: Seq<char>,
    modules: Seq<(Seq<char>, Compiled)>,
)
    ensures
        with_modules(r, plugin, modules) == (RegistryView {
            wasm_modules: with_modules(r, plugin, modules).wasm_modules,
            ..r
        }),
    decreases modules.len(),
{
    if modules.len() > 0 {
        lemma_modules_alone(r, plugin, modules.drop_last());
    }
}

proof fn lemma_defs(r: RegistryView, plugin: Seq<char>, defs: Seq<StepTypeDefView>, i: int)
    requires
        0 <= i < defs.len(),
        forall|j: int|
            i < j < defs.len() ==> step_type_key_of(plugin, (#[trigger] defs[j]).name)
                != step_type_key_of(plugin, defs[i].name),
    ensures
        ({
            let m = with_defs(r, plugin, defs).step_type_defs;
            let key = step_type_key_of(plugin, defs[i].name);
            m.contains_key(key) && m[key] == (plugin, defs[i])
        }),
    decreases defs.len(),
{
    if i < defs.len() - 1 {
        let rest = defs.drop_last();
        assert(rest[i] == defs[i]);
        assert forall|j: int| i < j < rest.len() implies step_type_key_of(
            plugin,
            (#[trigger] rest[j]).name,
        ) != step_type_key_of(plugin, rest[i].name) by {
            assert(rest[j] == defs[j]);
        }
        lemma_defs(r, plugin, rest, i);
        assert(step_type_key_of(plugin, defs[defs.len() - 1].name) != step_type_key_of(
            plugin,
            defs[i].name,
        ));
    }
}

proof fn lemma_defs_alone(r: RegistryView, plugin: Seq<char>, defs: Seq<StepTypeDefView>)
    ensures
        with_defs(r, plugin, defs) == (RegistryView {
            step_type_defs: with_defs(r, plugin, defs).step_type_defs,
            ..r
        }),
    decreases defs.len(),
{
    if defs.len() > 0 {
        lemma_defs_alone(r, plugin, defs.drop_last());
    }
}

/// The step type of a body that was prepared.
pub open spec fn linked_type(p: PreparedView) -> Seq<char> {
    match p {
        PreparedView::Wasm { step_type, .. } => step_type,
        PreparedView::Native { step_type, .. } => step_type,
        PreparedView::Intrinsic { step_type, .. } => step_type,
    }
}

/// A body that was prepared, where it is compiled in.
pub open spec fn linked_body(p: PreparedView) -> Option<StepBody> {
    match p {
        PreparedView::Wasm { .. } => None,
        PreparedView::Native { body, .. } => Some(StepBody::Plugin(body)),
        PreparedView::Intrinsic { body, .. } => Some(StepBody::Intrinsic(body)),
    }
}

/// No two bodies in a list are for one step type of the import table.
pub open spec fn links_differ(plugin: Seq<char>, impls: Seq<PreparedView>) -> bool {
    forall|a: int, b: int|
        0 <= a < b < impls.len() && linked_body(#[trigger] impls[a]) is Some && linked_body(
            #[trigger] impls[b],
        ) is Some ==> step_type_key_of(plugin, linked_type(impls[a])) != step_type_key_of(
            plugin,
            linked_type(impls[b]),
        )
}

/// No two modules in a list are for one slot.
pub open spec fn slots_differ(plugin: Seq<char>, impls: Seq<PreparedView>) -> bool {
    forall|a: int, b: int|
        0 <= a < b < impls.len() && #[trigger] impls[a] is Wasm && #[trigger] impls[b] is Wasm ==> (
            step_type_key_of(plugin, impls[a]->Wasm_step_type),
            impls[a]->matches,
        ) != (step_type_key_of(plugin, impls[b]->Wasm_step_type), impls[b]->matches)
}

proof fn lemma_imports_unlike(a: Seq<char>, b: Seq<char>)
    requires
        a != b,
    ensures
        import_name(a) != import_name(b),
{
    let x = import_name(a);
    let y = import_name(b);
    assert(x.skip("step_"@.len() as int) =~= a);
    assert(y.skip("step_"@.len() as int) =~= b);
}

proof fn lemma_impls(b: BodiesView, plugin: Seq<char>, impls: Seq<PreparedView>, i: int)
    requires
        0 <= i < impls.len(),
        links_differ(plugin, impls),
        slots_differ(plugin, impls),
    ensures
        ({
            let after = b.with_impls(plugin, impls);
            &&& linked_body(impls[i]) is Some ==> {
                let key = step_type_key_of(plugin, linked_type(impls[i]));
                &&& after.owners.contains_key(key) && after.owners[key] == plugin
                &&& after.imports.contains_key(import_name(key))
                &&& after.imports[import_name(key)] == linked_body(impls[i])->0
            }
            &&& impls[i] is Wasm ==> {
                let slot = (step_type_key_of(plugin, impls[i]->Wasm_step_type), impls[i]->matches);
                &&& after.registry.step_type_impls.contains_key(slot)
                &&& after.registry.step_type_impls[slot] == (ImplEntryView {
                    plugin,
                    wasm_module: impls[i]->wasm_module,
                })
            }
        }),
    decreases impls.len(),
{
    if i < impls.len() - 1 {
        let rest = impls.drop_last();
        assert(rest[i] == impls[i]);
        assert(links_differ(plugin, rest)) by {
            assert forall|x: int, y: int|
                0 <= x < y < rest.len() && linked_body(#[trigger] rest[x]) is Some && linked_body(
                    #[trigger] rest[y],
                ) is Some implies step_type_key_of(plugin, linked_type(rest[x]))
                != step_type_key_of(plugin, linked_type(rest[y])) by {
                assert(rest[x] == impls[x] && rest[y] == impls[y]);
            }
        }
        assert(slots_differ(plugin, rest)) by {
            assert forall|x: int, y: int|
                0 <= x < y < rest.len() && #[trigger] rest[x] is Wasm
                    && #[trigger] rest[y] is Wasm implies (
                step_type_key_of(plugin, rest[x]->Wasm_step_type),
                rest[x]->matches,
            ) != (step_type_key_of(plugin, rest[y]->Wasm_step_type), rest[y]->matches) by {
                assert(rest[x] == impls[x] && rest[y] == impls[y]);
            }
        }
        lemma_impls(b, plugin, rest, i);
        let last = impls[impls.len() - 1];
        if linked_body(impls[i]) is Some && linked_body(last) is Some {
            let x = step_type_key_of(plugin, linked_type(impls[i]));
            let y = step_type_key_of(plugin, linked_type(last));
            assert(x != y);
            lemma_imports_unlike(x, y);
        }
    }
}

proof fn lemma_impls_alone(b: BodiesView, plugin: Seq<char>, impls: Seq<PreparedView>)
    ensures
        b.with_impls(plugin, impls).registry == (RegistryView {
            step_type_impls: b.with_impls(plugin, impls).registry.step_type_impls,
            ..b.registry
        }),
    decreases impls.len(),
{
    if impls.len() > 0 {
        lemma_impls_alone(b, plugin, impls.drop_last());
    }
}

proof fn lemma_roles(r: RegistryView, plugin: Seq<char>, keys: Seq<Seq<char>>, i: int)
    requires
        0 <= i < keys.len(),
    ensures
        list_at(with_roles(r, plugin, keys).roles, keys[i]).contains(plugin),
    decreases keys.len(),
{
    let rest = keys.drop_last();
    let before = with_roles(r, plugin, rest);
    let last = keys.last();
    let list = list_at(before.roles, last).push(plugin);
    if i < rest.len() {
        assert(rest[i] == keys[i]);
        lemma_roles(r, plugin, rest, i);
        if keys[i] == last {
            assert(list[list.len() - 1] == plugin);
        }
    } else {
        assert(list[list.len() - 1] == plugin);
    }
}

proof fn lemma_roles_alone(r: RegistryView, plugin: Seq<char>, keys: Seq<Seq<char>>)
    ensures
        with_roles(r, plugin, keys) == (RegistryView {
            roles: with_roles(r, plugin, keys).roles,
            ..r
        }),
    decreases keys.len(),
{
    if keys.len() > 0 {
        lemma_roles_alone(r, plugin, keys.drop_last());
    }
}

proof fn lemma_aliases(
    b: BodiesView,
    plugin: Seq<char>,
    aliases: Seq<(Seq<char>, Seq<char>)>,
    i: int,
)
    requires
        0 <= i < aliases.len(),
        forall|j: int|
            i < j < aliases.len() ==> step_type_key_of(plugin, (#[trigger] aliases[j]).0)
                != step_type_key_of(plugin, aliases[i].0),
    ensures
        ({
            let after = b.with_aliases(plugin, aliases);
            let key = step_type_key_of(plugin, aliases[i].0);
            &&& after.registry.aliases.contains_key(key)
            &&& after.registry.aliases[key] == (plugin, aliases[i].1)
            &&& after.owners.contains_key(key) && after.owners[key] == plugin
            &&& after.imports.contains_key(import_name(key))
            &&& after.imports[import_name(key)] == StepBody::AliasDispatch
        }),
    decreases aliases.len(),
{
    if i < aliases.len() - 1 {
        let rest = aliases.drop_last();
        assert(rest[i] == aliases[i]);
        assert forall|j: int| i < j < rest.len() implies step_type_key_of(
            plugin,
            (#[trigger] rest[j]).0,
        ) != step_type_key_of(plugin, rest[i].0) by {
            assert(rest[j] == aliases[j]);
        }
        lemma_aliases(b, plugin, rest, i);
        let x = step_type_key_of(plugin, aliases[i].0);
        let y = step_type_key_of(plugin, aliases[aliases.len() - 1].0);
        assert(x != y);
        lemma_imports_unlike(x, y);
    }
}

proof fn lemma_aliases_alone(
    b: BodiesView,
    plugin: Seq<char>,
    aliases: Seq<(Seq<char>, Seq<char>)>,
    key: Seq<char>,
)
    requires
        forall|j: int|
            0 <= j < aliases.len() ==> step_type_key_of(plugin, (#[trigger] aliases[j]).0) != key,
    ensures
        ({
            let after = b.with_aliases(plugin, aliases);
            &&& after.registry == (RegistryView { aliases: after.registry.aliases, ..b.registry })
            &&& after.owners.contains_key(key) == b.owners.contains_key(key)
            &&& b.owners.contains_key(key) ==> after.owners[key] == b.owners[key]
            &&& after.imports.contains_key(import_name(key)) == b.imports.contains_key(
                import_name(key),
            )
            &&& b.imports.contains_key(import_name(key)) ==> after.imports[import_name(key)]
                == b.imports[import_name(key)]
        }),
    decreases aliases.len(),
{
    if aliases.len() > 0 {
        let rest = aliases.drop_last();
        assert forall|j: int| 0 <= j < rest.len() implies step_type_key_of(
            plugin,
            (#[trigger] rest[j]).0,
        ) != key by {
            assert(rest[j] == aliases[j]);
        }
        lemma_aliases_alone(b, plugin, rest, key);
        let y = step_type_key_of(plugin, aliases[aliases.len() - 1].0);
        assert(y != key);
        lemma_imports_unlike(y, key);
    }
}

proof fn lemma_aliases_leave(b: BodiesView, plugin: Seq<char>, aliases: Seq<(Seq<char>, Seq<char>)>)
    ensures
        b.with_aliases(plugin, aliases).registry == (RegistryView {
            aliases: b.with_aliases(plugin, aliases).registry.aliases,
            ..b.registry
        }),
    decreases aliases.len(),
{
    if aliases.len() > 0 {
        lemma_aliases_leave(b, plugin, aliases.drop_last());
    }
}

proof fn lemma_subscribes(
    r: RegistryView,
    plugin: Seq<char>,
    action: Seq<char>,
    events: Seq<Seq<char>>,
    e: Seq<char>,
    x: (Seq<char>, Seq<char>),
)
    ensures
        list_at(with_subscription(r, plugin, action, events).subscriptions, e).contains(x)
            <==> list_at(r.subscriptions, e).contains(x) || (x == (plugin, action)
            && events.contains(e)),
        with_subscription(r, plugin, action, events) == (RegistryView {
            subscriptions: with_subscription(r, plugin, action, events).subscriptions,
            ..r
        }),
    decreases events.len(),
{
    if events.len() > 0 {
        let rest = events.drop_last();
        lemma_subscribes(r, plugin, action, rest, e, x);
        let before = list_at(with_subscription(r, plugin, action, rest).subscriptions, e);
        assert(events[events.len() - 1] == events.last());
        if rest.contains(e) {
            let k = choose|k: int| 0 <= k < rest.len() && rest[k] == e;
            assert(events[k] == e);
        }
        if events.contains(e) && e != events.last() {
            let k = choose|k: int| 0 <= k < events.len() && events[k] == e;
            assert(rest[k] == e);
        }
        if e == events.last() && !before.contains((plugin, action)) {
            let list = before.push((plugin, action));
            assert(list[before.len() as int] == (plugin, action));
            if before.contains(x) {
                let k = choose|k: int| 0 <= k < before.len() && before[k] == x;
                assert(list[k] == x);
            }
            if list.contains(x) {
                let k = choose|k: int| 0 <= k < list.len() && list[k] == x;
                if k < before.len() {
                    assert(before[k] == x);
                }
            }
        }
    }
}

proof fn lemma_subscriptions(
    r: RegistryView,
    plugin: Seq<char>,
    actions: Seq<(Seq<char>, ActionView)>,
    e: Seq<char>,
    x: (Seq<char>, Seq<char>),
)
    ensures
        list_at(with_subscriptions(r, plugin, actions).subscriptions, e).contains(x) <==> list_at(
            r.subscriptions,
            e,
        ).contains(x) || (x.0 == plugin && exists|i: int|
            0 <= i < actions.len() && (#[trigger] actions[i]).0 == x.1
                && actions[i].1.subscribes_to.contains(e)),
        with_subscriptions(r, plugin, actions) == (RegistryView {
            subscriptions: with_subscriptions(r, plugin, actions).subscriptions,
            ..r
        }),
    decreases actions.len(),
{
    if actions.len() > 0 {
        let rest = actions.drop_last();
        lemma_subscriptions(r, plugin, rest, e, x);
        let last = actions.last();
        lemma_subscribes(
            with_subscriptions(r, plugin, rest),
            plugin,
            last.0,
            last.1.subscribes_to,
            e,
            x,
        );
        assert(actions[actions.len() - 1] == last);
        if exists|i: int|
            0 <= i < rest.len() && (#[trigger] rest[i]).0 == x.1
                && rest[i].1.subscribes_to.contains(e) {
            let i = choose|i: int|
                0 <= i < rest.len() && (#[trigger] rest[i]).0 == x.1
                    && rest[i].1.subscribes_to.contains(e);
            assert(actions[i] == rest[i]);
        }
        if exists|i: int|
            0 <= i < actions.len() && (#[trigger] actions[i]).0 == x.1
                && actions[i].1.subscribes_to.contains(e) {
            let i = choose|i: int|
                0 <= i < actions.len() && (#[trigger] actions[i]).0 == x.1
                    && actions[i].1.subscribes_to.contains(e);
            if i < rest.len() {
                assert(rest[i] == actions[i]);
            }
        }
    }
}

/// The parts of a registration, one after the other.
proof fn lemma_parts(
    k: KernelView,
    namespace: Seq<char>,
    q: ManifestView,
    plans: Seq<PlanView>,
    modules: Seq<(Seq<char>, Compiled)>,
    edges: Seq<EdgeView>,
    grants: Seq<PermissionView>,
    host: Host,
)
    ensures
        ({
            let after = registered(k, namespace, q, plans, modules, edges, grants, host);
            let r1 = with_actions(k.registry, q.name, q.actions, plans);
            let r2 = with_modules(r1, q.name, modules);
            let r3 = with_defs(r2, q.name, q.step_type_defs);
            let b1 = (BodiesView {
                registry: r3,
                owners: k.owners,
                imports: k.imports,
            }).with_impls(q.name, prepared_impls(q.step_type_impls, host));
            &&& after.registry.actions == r1.actions
            &&& after.registry.wasm_modules == r2.wasm_modules
            &&& after.registry.step_type_defs == r3.step_type_defs
            &&& after.registry.step_type_impls == b1.registry.step_type_impls
        }),
{
    let id = q.name;
    let r1 = with_actions(k.registry, id, q.actions, plans);
    let r2 = with_modules(r1, id, modules);
    let r3 = with_defs(r2, id, q.step_type_defs);
    let b0 = BodiesView { registry: r3, owners: k.owners, imports: k.imports };
    let b1 = b0.with_impls(id, prepared_impls(q.step_type_impls, host));
    let r4 = RegistryView {
        invoke_edges: b1.registry.invoke_edges + edges,
        manifests: b1.registry.manifests.insert(id, q),
        ..b1.registry
    };
    let r5 = with_roles(r4, id, role_keys(k.spi, namespace, q.roles));
    let r6 = RegistryView { permissions: r5.permissions.insert(id, grants), ..r5 };
    let b2 = (BodiesView { registry: r6, ..b1 }).with_aliases(id, q.step_types);
    lemma_actions_alone(k.registry, id, q.actions, plans);
    lemma_modules_alone(r1, id, modules);
    lemma_defs_alone(r2, id, q.step_type_defs);
    lemma_impls_alone(b0, id, prepared_impls(q.step_type_impls, host));
    lemma_roles_alone(r4, id, role_keys(k.spi, namespace, q.roles));
    lemma_aliases_leave(BodiesView { registry: r6, ..b1 }, id, q.step_types);
    lemma_subscriptions(
        b2.registry,
        id,
        q.actions,
        Seq::empty(),
        (Seq::empty(), Seq::empty()),
    );
}

/// Every action of a registered plugin is found under its name, with the plan that was made for it;
/// every module is found under its name, and every definition under its key.
pub proof fn law_what_a_plugin_brings_is_found(
    k: KernelView,
    namespace: Seq<char>,
    q: ManifestView,
    plans: Seq<PlanView>,
    modules: Seq<(Seq<char>, Compiled)>,
    edges: Seq<EdgeView>,
    grants: Seq<PermissionView>,
    host: Host,
    i: int,
)
    ensures
        ({
            let after = registered(k, namespace, q, plans, modules, edges, grants, host).registry;
            let id = q.name;
            &&& 0 <= i < q.actions.len() && (forall|j: int|
                i < j < q.actions.len() ==> (#[trigger] q.actions[j]).0 != q.actions[i].0) ==> {
                &&& after.actions.contains_key((id, q.actions[i].0))
                &&& after.actions[(id, q.actions[i].0)].action == q.actions[i].1
                &&& after.actions[(id, q.actions[i].0)].plan == plans[i]
            }
            &&& 0 <= i < modules.len() && (forall|j: int|
                i < j < modules.len() ==> (#[trigger] modules[j]).0 != modules[i].0) ==> {
                &&& after.wasm_modules.contains_key((id, modules[i].0))
                &&& after.wasm_modules[(id, modules[i].0)] == modules[i].1
            }
            &&& 0 <= i < q.step_type_defs.len() && (forall|j: int|
                i < j < q.step_type_defs.len() ==> step_type_key_of(
                    id,
                    (#[trigger] q.step_type_defs[j]).name,
                ) != step_type_key_of(id, q.step_type_defs[i].name)) ==> {
                let key = step_type_key_of(id, q.step_type_defs[i].name);
                &&& after.step_type_defs.contains_key(key)
                &&& after.step_type_defs[key] == (id, q.step_type_defs[i])
            }
        }),
{
    lemma_parts(k, namespace, q, plans, modules, edges, grants, host);
    let id = q.name;
    let r1 = with_actions(k.registry, id, q.actions, plans);
    let r2 = with_modules(r1, id, modules);
    if 0 <= i < q.actions.len() && (forall|j: int|
        i < j < q.actions.len() ==> (#[trigger] q.actions[j]).0 != q.actions[i].0) {
        lemma_actions(k.registry, id, q.actions, plans, i);
    }
    if 0 <= i < modules.len() && (forall|j: int|
        i < j < modules.len() ==> (#[trigger] modules[j]).0 != modules[i].0) {
        lemma_modules(r1, id, modules, i);
    }
    if 0 <= i < q.step_type_defs.len() && (forall|j: int|
        i < j < q.step_type_defs.len() ==> step_type_key_of(
            id,
            (#[trigger] q.step_type_defs[j]).name,
        ) != step_type_key_of(id, q.step_type_defs[i].name)) {
        lemma_defs(r2, id, q.step_type_defs, i);
    }
}

/// Every body of a registered plugin is where a step looks for it: a compiled-in one in the import
/// table under the key of its step type, which is the plugin's, a module in its slot.
pub proof fn law_every_body_is_where_a_step_looks_for_it(
    k: KernelView,
    namespace: Seq<char>,
    q: ManifestView,
    plans: Seq<PlanView>,
    modules: Seq<(Seq<char>, Compiled)>,
    edges: Seq<EdgeView>,
    grants: Seq<PermissionView>,
    host: Host,
    i: int,
)
    requires
        0 <= i < q.step_type_impls.len(),
        links_differ(q.name, prepared_impls(q.step_type_impls, host)),
        slots_differ(q.name, prepared_impls(q.step_type_impls, host)),
        forall|j: int|
            0 <= j < q.step_types.len() ==> step_type_key_of(q.name, (#[trigger] q.step_types[j]).0)
                != step_type_key_of(q.name, q.step_type_impls[i].step_type),
    ensures
        ({
            let after = registered(k, namespace, q, plans, modules, edges, grants, host);
            let key = step_type_key_of(q.name, q.step_type_impls[i].step_type);
            match prepared_impls(q.step_type_impls, host)[i] {
                PreparedView::Wasm { step_type, matches, wasm_module } => {
                    &&& after.registry.step_type_impls.contains_key((key, matches))
                    &&& after.registry.step_type_impls[(key, matches)].plugin == q.name
                    &&& after.registry.step_type_impls[(key, matches)].wasm_module == wasm_module
                },
                PreparedView::Native { step_type, body } => {
                    &&& after.owners.contains_key(key) && after.owners[key] == q.name
                    &&& after.imports.contains_key("step_"@ + key)
                    &&& after.imports["step_"@ + key] == StepBody::Plugin(body)
                },
                PreparedView::Intrinsic { step_type, body } => {
                    &&& after.owners.contains_key(key) && after.owners[key] == q.name
                    &&& after.imports.contains_key("step_"@ + key)
                    &&& after.imports["step_"@ + key] == StepBody::Intrinsic(body)
                },
            }
        }),
{
    lemma_parts(k, namespace, q, plans, modules, edges, grants, host);
    let id = q.name;
    let impls = prepared_impls(q.step_type_impls, host);
    let r3 = with_defs(
        with_modules(with_actions(k.registry, id, q.actions, plans), id, modules),
        id,
        q.step_type_defs,
    );
    let b0 = BodiesView { registry: r3, owners: k.owners, imports: k.imports };
    let b1 = b0.with_impls(id, impls);
    lemma_impls(b0, id, impls, i);
    let r4 = RegistryView {
        invoke_edges: b1.registry.invoke_edges + edges,
        manifests: b1.registry.manifests.insert(id, q),
        ..b1.registry
    };
    let r5 = with_roles(r4, id, role_keys(k.spi, namespace, q.roles));
    let r6 = RegistryView { permissions: r5.permissions.insert(id, grants), ..r5 };
    let b2 = BodiesView { registry: r6, ..b1 };
    lemma_aliases_alone(
        b2,
        id,
        q.step_types,
        step_type_key_of(id, q.step_type_impls[i].step_type),
    );
}

/// Every alias of a registered plugin stands for its action, and runs by the dispatcher; every role
/// that it declares has it among those that fulfil it; and an event reaches an action of it exactly
/// where the action subscribed, beside those that subscribed before.
pub proof fn law_aliases_roles_and_events_lead_to_the_plugin(
    k: KernelView,
    namespace: Seq<char>,
    q: ManifestView,
    plans: Seq<PlanView>,
    modules: Seq<(Seq<char>, Compiled)>,
    edges: Seq<EdgeView>,
    grants: Seq<PermissionView>,
    host: Host,
    i: int,
    event: Seq<char>,
    action: Seq<char>,
)
    ensures
        ({
            let after = registered(k, namespace, q, plans, modules, edges, grants, host);
            let id = q.name;
            let keys = role_keys(k.spi, namespace, q.roles);
            &&& 0 <= i < q.step_types.len() && (forall|j: int|
                i < j < q.step_types.len() ==> step_type_key_of(id, (#[trigger] q.step_types[j]).0)
                    != step_type_key_of(id, q.step_types[i].0)) ==> {
                let key = step_type_key_of(id, q.step_types[i].0);
                &&& after.registry.aliases.contains_key(key)
                &&& after.registry.aliases[key] == (id, q.step_types[i].1)
                &&& after.owners.contains_key(key) && after.owners[key] == id
                &&& after.imports.contains_key("step_"@ + key)
                &&& after.imports["step_"@ + key] == StepBody::AliasDispatch
            }
            &&& 0 <= i < keys.len() ==> list_at(after.registry.roles, keys[i]).contains(id)
            &&& list_at(after.registry.subscriptions, event).contains((id, action)) <==> list_at(
                k.registry.subscriptions,
                event,
            ).contains((id, action)) || exists|a: int|
                0 <= a < q.actions.len() && (#[trigger] q.actions[a]).0 == action
                    && q.actions[a].1.subscribes_to.contains(event)
            &&& after.registry.permissions.contains_key(id)
            &&& after.registry.permissions[id] == grants
            &&& after.registry.manifests.contains_key(id)
            &&& after.registry.manifests[id] == q
            &&& after.registry.invoke_edges == k.registry.invoke_edges + edges
            &&& after.spi == k.spi
            &&& after.loaded == k.loaded
            &&& after.role_users == k.role_users
            &&& after.next_id == k.next_id
        }),
{
    let id = q.name;
    let keys = role_keys(k.spi, namespace, q.roles);
    let r1 = with_actions(k.registry, id, q.actions, plans);
    let r2 = with_modules(r1, id, modules);
    let r3 = with_defs(r2, id, q.step_type_defs);
    let b0 = BodiesView { registry: r3, owners: k.owners, imports: k.imports };
    let impls = prepared_impls(q.step_type_impls, host);
    let b1 = b0.with_impls(id, impls);
    let r4 = RegistryView {
        invoke_edges: b1.registry.invoke_edges + edges,
        manifests: b1.registry.manifests.insert(id, q),
        ..b1.registry
    };
    let r5 = with_roles(r4, id, keys);
    let r6 = RegistryView { permissions: r5.permissions.insert(id, grants), ..r5 };
    let b2 = BodiesView { registry: r6, ..b1 };
    let b3 = b2.with_aliases(id, q.step_types);
    lemma_actions_alone(k.registry, id, q.actions, plans);
    lemma_modules_alone(r1, id, modules);
    lemma_defs_alone(r2, id, q.step_type_defs);
    lemma_impls_alone(b0, id, impls);
    lemma_roles_alone(r4, id, keys);
    lemma_aliases_leave(b2, id, q.step_types);
    lemma_subscriptions(b3.registry, id, q.actions, event, (id, action));
    if 0 <= i < q.step_types.len() && (forall|j: int|
        i < j < q.step_types.len() ==> step_type_key_of(id, (#[trigger] q.step_types[j]).0)
            != step_type_key_of(id, q.step_types[i].0)) {
        lemma_aliases(b2, id, q.step_types, i);
    }
    if 0 <= i < keys.len() {
        lemma_roles(r4, id, keys, i);
    }
}

/// The key of a step type that a plugin writes is qualified by the namespace of the plugin where the
/// step type is a plugin's, and is the name itself where it is the kernel's.
pub proof fn law_a_step_type_is_keyed_by_its_namespace(plugin: Seq<char>, written: Seq<char>)
    ensures
        written.contains('.') ==> step_type_key_of(plugin, written) == qualified(
            namespace_part(plugin),
            written,
        ),
        !written.contains('.') ==> step_type_key_of(plugin, written) == written,
        namespace_part(plugin).len() == 0 ==> step_type_key_of(plugin, written) == written,
{
}

/// A registered manifest goes by its identity and is otherwise the one that was read.
pub proof fn law_a_manifest_goes_by_its_identity(m: ManifestView, namespace: Seq<char>)
    ensures
        with_identity(m, namespace).name == qualified(namespace, m.name),
        with_identity(m, namespace).actions == m.actions,
        with_identity(m, namespace).roles == m.roles,
        with_identity(m, namespace).permissions == m.permissions,
        with_identity(m, namespace).step_types == m.step_types,
        with_identity(m, namespace).step_type_defs == m.step_type_defs,
        with_identity(m, namespace).step_type_impls == m.step_type_impls,
        with_identity(m, namespace).wasm_modules == m.wasm_modules,
        with_identity(m, namespace).uses_secrets == m.uses_secrets,
{
}

/// The modules of a manifest are compiled one for each, under their names, where all of them are inline
/// and decode; a module that stands on a path or does not decode refuses them.
pub proof fn law_modules_are_compiled_from_what_they_spell(
    plugin: Seq<char>,
    specs: Seq<(Seq<char>, WasmModuleView)>,
    r: Result<Seq<(Seq<char>, Compiled)>, Seq<char>>,
    i: int,
)
    requires
        modules_outcome(plugin, specs, r),
        0 <= i < specs.len(),
    ensures
        r is Ok ==> r->Ok_0.len() == specs.len() && r->Ok_0[i].0 == specs[i].0,
        specs[i].1 is Path ==> r is Err,
        specs[i].1 is Inline && base64_decoded(specs[i].1->base64) is Err ==> r is Err,
        specs[i].1 is Path ==> decoded_module(plugin, specs[i].0, specs[i].1) is Err,
        specs[i].1 is Inline && base64_decoded(specs[i].1->base64) is Err ==> decoded_module(
            plugin,
            specs[i].0,
            specs[i].1,
        ) is Err,
        specs[i].1 is Inline && base64_decoded(specs[i].1->base64) is Ok ==> decoded_module(
            plugin,
            specs[i].0,
            specs[i].1,
        ) == Ok::<Seq<u8>, Seq<char>>(base64_decoded(specs[i].1->base64)->Ok_0),
{
}

/// The tools of a plugin are its actions with a tool block, and no others: each is told as its block
/// says, with the plugin and the action that it leads to.
pub proof fn law_a_tool_leads_to_its_action(
    plugin: Seq<char>,
    actions: Seq<(Seq<char>, ActionView)>,
    t: ToolDescriptorView,
)
    ensures
        tools_of(plugin, actions).contains(t) <==> t.plugin_key == plugin && exists|i: int|
            {
                &&& 0 <= i < actions.len()
                &&& (#[trigger] actions[i]).0 == t.action_name
                &&& actions[i].1.tool is Some
                &&& actions[i].1.tool->0.name == t.tool_name
                &&& actions[i].1.tool->0.description == t.description
                &&& actions[i].1.tool->0.parameters == t.parameters
            },
    decreases actions.len(),
{
    if actions.len() > 0 {
        let rest = actions.drop_last();
        let all = tools_of(plugin, actions);
        let before = tools_of(plugin, rest);
        law_a_tool_leads_to_its_action(plugin, rest, t);
        let last = actions.last();
        assert(actions[actions.len() - 1] == last);
        if before.contains(t) {
            let p = choose|p: int| 0 <= p < before.len() && before[p] == t;
            assert(all[p] == t);
            let i = choose|i: int|
                {
                    &&& 0 <= i < rest.len()
                    &&& (#[trigger] rest[i]).0 == t.action_name
                    &&& rest[i].1.tool is Some
                    &&& rest[i].1.tool->0.name == t.tool_name
                    &&& rest[i].1.tool->0.description == t.description
                    &&& rest[i].1.tool->0.parameters == t.parameters
                };
            assert(actions[i] == rest[i]);
        }
        if last.1.tool is Some {
            assert(all[before.len() as int].action_name == last.0);
            assert(all.contains(all[before.len() as int]));
        }
        if all.contains(t) && !before.contains(t) {
            let p = choose|p: int| 0 <= p < all.len() && all[p] == t;
            if p < before.len() {
                assert(before[p] == t);
            }
        }
        if exists|i: int|
            {
                &&& 0 <= i < actions.len()
                &&& (#[trigger] actions[i]).0 == t.action_name
                &&& actions[i].1.tool is Some
                &&& actions[i].1.tool->0.name == t.tool_name
                &&& actions[i].1.tool->0.description == t.description
                &&& actions[i].1.tool->0.parameters == t.parameters
            } && t.plugin_key == plugin {
            let i = choose|i: int|
                {
                    &&& 0 <= i < actions.len()
                    &&& (#[trigger] actions[i]).0 == t.action_name
                    &&& actions[i].1.tool is Some
                    &&& actions[i].1.tool->0.name == t.tool_name
                    &&& actions[i].1.tool->0.description == t.description
                    &&& actions[i].1.tool->0.parameters == t.parameters
                };
            if i < rest.len() {
                assert(rest[i] == actions[i]);
            } else {
                assert(all[before.len() as int] == t);
            }
        }
    }
}

/// The tools of several plugins are those of each.
pub proof fn law_every_plugin_tells_its_tools(
    plugins: Seq<(Seq<char>, ManifestView)>,
    i: int,
    t: ToolDescriptorView,
)
    requires
        0 <= i < plugins.len(),
        tools_of(plugins[i].0, plugins[i].1.actions).contains(t),
    ensures
        all_tools(plugins).contains(t),
    decreases plugins.len(),
{
    let rest = plugins.drop_last();
    let a = all_tools(rest);
    let b = tools_of(plugins.last().0, plugins.last().1.actions);
    if i < rest.len() {
        assert(rest[i] == plugins[i]);
        law_every_plugin_tells_its_tools(rest, i, t);
        let p = choose|p: int| 0 <= p < a.len() && a[p] == t;
        assert((a + b)[p] == t);
    } else {
        let p = choose|p: int| 0 <= p < b.len() && b[p] == t;
        assert((a + b)[a.len() + p] == t);
    }
}

/// An action that subscribed to an event is told of it once, however often it is registered for it.
pub proof fn law_an_action_is_told_once(
    r: RegistryView,
    plugin: Seq<char>,
    actions: Seq<(Seq<char>, ActionView)>,
    e: Seq<char>,
)
    requires
        list_at(r.subscriptions, e).no_duplicates(),
    ensures
        list_at(with_subscriptions(r, plugin, actions).subscriptions, e).no_duplicates(),
        list_at(r.subscriptions, e).is_prefix_of(
            list_at(with_subscriptions(r, plugin, actions).subscriptions, e),
        ),
    decreases actions.len(),
{
    let old_list = list_at(r.subscriptions, e);
    if actions.len() > 0 {
        let rest = actions.drop_last();
        law_an_action_is_told_once(r, plugin, rest, e);
        let before = with_subscriptions(r, plugin, rest);
        lemma_told_once(before, plugin, actions.last().0, actions.last().1.subscribes_to, e);
        let mid = list_at(before.subscriptions, e);
        let new_list = list_at(with_subscriptions(r, plugin, actions).subscriptions, e);
        assert(old_list.is_prefix_of(new_list)) by {
            assert(mid.is_prefix_of(new_list));
            assert forall|i: int| 0 <= i < old_list.len() implies old_list[i] == new_list[i] by {
                assert(old_list.is_prefix_of(mid));
                assert(mid.take(old_list.len() as int)[i] == mid[i]);
                assert(new_list.take(mid.len() as int)[i] == new_list[i]);
            }
            assert(new_list.take(old_list.len() as int) =~= old_list);
        }
    } else {
        assert(old_list.take(old_list.len() as int) =~= old_list);
    }
}

proof fn lemma_told_once(
    r: RegistryView,
    plugin: Seq<char>,
    action: Seq<char>,
    events: Seq<Seq<char>>,
    e: Seq<char>,
)
    requires
        list_at(r.subscriptions, e).no_duplicates(),
    ensures
        list_at(with_subscription(r, plugin, action, events).subscriptions, e).no_duplicates(),
        list_at(r.subscriptions, e).is_prefix_of(
            list_at(with_subscription(r, plugin, action, events).subscriptions, e),
        ),
    decreases events.len(),
{
    let old_list = list_at(r.subscriptions, e);
    if events.len() > 0 {
        let rest = events.drop_last();
        lemma_told_once(r, plugin, action, rest, e);
        let mid = list_at(with_subscription(r, plugin, action, rest).subscriptions, e);
        let new_list = list_at(with_subscription(r, plugin, action, events).subscriptions, e);
        assert(new_list.take(old_list.len() as int) =~= old_list) by {
            assert(mid.take(old_list.len() as int) =~= old_list);
            assert forall|i: int| 0 <= i < old_list.len() implies new_list[i] == old_list[i] by {
                assert(mid.take(old_list.len() as int)[i] == mid[i]);
            }
        }
    } else {
        assert(old_list.take(old_list.len() as int) =~= old_list);
    }
}

/// A plugin that comes to fulfil a role comes behind those that fulfil it already.
pub proof fn law_a_later_fulfiller_comes_behind(
    r: RegistryView,
    plugin: Seq<char>,
    keys: Seq<Seq<char>>,
    key: Seq<char>,
)
    ensures
        list_at(r.roles, key).is_prefix_of(list_at(with_roles(r, plugin, keys).roles, key)),
        !keys.contains(key) ==> list_at(with_roles(r, plugin, keys).roles, key) == list_at(
            r.roles,
            key,
        ),
        keys.contains(key) ==> list_at(with_roles(r, plugin, keys).roles, key).last() == plugin,
    decreases keys.len(),
{
    let old_list = list_at(r.roles, key);
    let new_list = list_at(with_roles(r, plugin, keys).roles, key);
    if keys.len() > 0 {
        let rest = keys.drop_last();
        law_a_later_fulfiller_comes_behind(r, plugin, rest, key);
        let mid = list_at(with_roles(r, plugin, rest).roles, key);
        assert(keys[keys.len() - 1] == keys.last());
        if rest.contains(key) {
            let i = choose|i: int| 0 <= i < rest.len() && rest[i] == key;
            assert(keys[i] == key);
        }
        if keys.contains(key) && key != keys.last() {
            let i = choose|i: int| 0 <= i < keys.len() && keys[i] == key;
            assert(rest[i] == key);
        }
        assert(new_list.take(old_list.len() as int) =~= old_list) by {
            assert(mid.take(old_list.len() as int) =~= old_list);
            assert forall|i: int| 0 <= i < old_list.len() implies new_list[i] == old_list[i] by {
                assert(mid.take(old_list.len() as int)[i] == mid[i]);
            }
        }
    } else {
        assert(old_list.take(old_list.len() as int) =~= old_list);
    }
}

/// A script of a language is run by the module that the plugin which supplies the language brought for it,
/// and by no other.
pub proof fn law_a_language_is_run_by_its_module(
    r: RegistryView,
    language: Seq<char>,
    module: std::sync::Arc<wasmtime::Module>,
    other: std::sync::Arc<wasmtime::Module>,
)
    ensures
        runs_script(r, language, module) && runs_script(r, language, other) ==> module == other,
        runs_script(r, language, module) ==> {
            let key = ("script"@, Some(language));
            &&& r.step_type_impls.contains_key(key)
            &&& r.wasm_modules.contains_pair(
                (r.step_type_impls[key].plugin, r.step_type_impls[key].wasm_module),
                module,
            )
        },
        forall|e: ImplEntryView|
            r.step_type_impls.contains_pair(("script"@, Some(language)), e)
                && #[trigger] r.wasm_modules.contains_pair((e.plugin, e.wasm_module), module)
                ==> runs_script(r, language, module),
{
}

} // verus!
