//! What holds of who reaches what: of references, grants, roles, step types and the edges between
//! actions.

use vstd::prelude::*;

use crate::identity::{chain, local_part, namespace_part, on_chain, qualified, reference_candidates};
use crate::json::{lookup, JsonView};
use crate::kernel::access::{
    alias_stands, alias_text, alias_usable, declared_keys, def_stands, def_usable, defined_text,
    explained, explained_from, holds_grant, is_access, level_key, nearest_level, stands,
    undefined_text, usable_at, BodyOwnerView, StepTypeAccess,
};
use crate::kernel::cycles::{has_cycle, is_cycle};
use crate::kernel::dispatch::{
    candidates_for, denoted, first_registered, fulfillers, grants_target, is_namespaced, is_root,
    nearest_first, reachable_from, request_fault, resolved_fault, RequestView,
};
use crate::kernel::edges::{alias_target, chain_alias, def_target, own_alias, own_def};
use crate::kernel::invoke::{
    consumed_producer, overridable_keys, producers, role_dispatch_fault, secret_keys,
    streaming_step, targets_of, DISPATCH_MAX_DEPTH,
};
use crate::kernel::reach::law_step_types_are_the_plugins_own_or_granted;
use crate::laws::setup::law_an_identity_is_made_of_its_namespace_and_its_name;
use crate::manifest::{PlanView, SecretView, StepTypeDefView, StepView};
use crate::manifest_checks::is_reserved_step_type;
use crate::permissions::{grants_role, NamePatternView, PermissionView};
use crate::registry::{list_at, EdgeView, RegistrationView, RegistryView};

verus! {

/// A bare reference denotes the plugin of the caller's own namespace where there is one, else that of
/// the root where there is one, else the one of the own namespace that is missed.
pub proof fn law_a_reference_denotes_the_nearest_plugin(
    r: RegistryView,
    caller: Seq<char>,
    reference: Seq<char>,
)
    ensures
        ({
            let own = qualified(namespace_part(caller), reference);
            &&& r.manifests.contains_key(own) ==> denoted(r, caller, reference) == own
            &&& !r.manifests.contains_key(own) && r.manifests.contains_key(reference) ==> denoted(
                r,
                caller,
                reference,
            ) == reference
            &&& !r.manifests.contains_key(own) && !r.manifests.contains_key(reference) ==> denoted(
                r,
                caller,
                reference,
            ) == own
        }),
{
    reveal_with_fuel(first_registered, 4);
    let ns = namespace_part(caller);
    let links = chain(ns);
    let c = reference_candidates(caller, reference);
    if ns.len() == 0 {
        assert(c.len() == 1 && c[0] == qualified(ns, reference));
        assert(c[0] == reference);
    } else {
        assert(c.len() == 2 && c[0] == qualified(ns, reference) && c[1] == qualified(
            Seq::empty(),
            reference,
        ));
    }
}

/// A grant of a caller lets it reach a plugin: one for all plugins those of its own namespace, one for
/// a name the plugin that the name denotes for it.
pub open spec fn reaches(
    r: RegistryView,
    p: PermissionView,
    caller: Seq<char>,
    target: Seq<char>,
) -> bool {
    ||| p == PermissionView::InvokePlugin(NamePatternView::Any) && namespace_part(caller)
        == namespace_part(target)
    ||| p is InvokePlugin && p->InvokePlugin_0 is Exact && !p->InvokePlugin_0->Exact_0.contains('/')
        && denoted(r, caller, p->InvokePlugin_0->Exact_0) == target
}

/// A grant of a caller is for a role: one for all roles, or for that one.
pub open spec fn has_role(p: PermissionView, role: Seq<char>) -> bool {
    p == PermissionView::InvokeRole(NamePatternView::Any) || p == PermissionView::InvokeRole(
        NamePatternView::Exact(role),
    )
}

/// A request is let through where the caller asks for itself or one of its grants is for what it asks
/// for, and only there.
pub proof fn law_a_request_takes_a_grant(
    r: RegistryView,
    caller: Seq<char>,
    plugin: Seq<char>,
    role: Seq<char>,
)
    ensures
        request_fault(r, caller, RequestView::ByPlugin { plugin }) is None <==> plugin == caller
            || exists|i: int|
            0 <= i < list_at(r.permissions, caller).len() && reaches(
                r,
                #[trigger] list_at(r.permissions, caller)[i],
                caller,
                plugin,
            ),
        request_fault(r, caller, RequestView::ByRole { role }) is None <==> exists|i: int|
            0 <= i < list_at(r.permissions, caller).len() && has_role(
                #[trigger] list_at(r.permissions, caller)[i],
                role,
            ),
{
    let grants = list_at(r.permissions, caller);
    assert forall|i: int| 0 <= i < grants.len() implies (grants_target(
        r,
        #[trigger] grants[i],
        caller,
        plugin,
    ) <==> reaches(r, grants[i], caller, plugin)) by {}
    assert forall|i: int| 0 <= i < grants.len() implies (grants_role(
        #[trigger] grants[i],
        role,
    ) <==> has_role(grants[i], role)) by {}
}

/// A dispatch that was decided goes through where its target is in the caller's namespace or in the
/// root, and is the caller itself, or one that was allowed beside it, or one that a grant of the caller
/// reaches, or was chosen for a role that a grant of the caller is for; and only there. What was asked
/// for does not count: a target that the caller could not reach is refused whoever chose it.
pub proof fn law_a_decided_dispatch_takes_a_grant(
    r: RegistryView,
    caller: Seq<char>,
    request: RequestView,
    target: Seq<char>,
    also_allowed: Option<Seq<char>>,
)
    ensures
        resolved_fault(r, caller, request, target, also_allowed) is None <==> {
            &&& namespace_part(target) == namespace_part(caller) || namespace_part(target).len() == 0
            &&& {
                ||| target == caller
                ||| also_allowed == Some(target)
                ||| exists|i: int|
                    0 <= i < list_at(r.permissions, caller).len() && reaches(
                        r,
                        #[trigger] list_at(r.permissions, caller)[i],
                        caller,
                        target,
                    )
                ||| request is ByRole && exists|i: int|
                    0 <= i < list_at(r.permissions, caller).len() && has_role(
                        #[trigger] list_at(r.permissions, caller)[i],
                        request->role,
                    )
            }
        },
{
    let role = if request is ByRole {
        request->role
    } else {
        Seq::empty()
    };
    law_an_identity_is_made_of_its_namespace_and_its_name(
        Seq::empty(),
        Seq::empty(),
        target,
        caller,
    );
    let grants = list_at(r.permissions, caller);
    assert forall|i: int| 0 <= i < grants.len() implies (grants_target(
        r,
        #[trigger] grants[i],
        caller,
        target,
    ) <==> reaches(r, grants[i], caller, target)) by {}
    assert forall|i: int| 0 <= i < grants.len() implies (grants_role(
        #[trigger] grants[i],
        role,
    ) <==> has_role(grants[i], role)) by {}
}

/// A dispatch by role takes a grant and a nesting below the cap.
pub proof fn law_a_dispatch_by_role_is_bounded(
    r: RegistryView,
    caller: Seq<char>,
    role: Seq<char>,
    depth: u32,
    cap: u32,
)
    ensures
        role_dispatch_fault(r, caller, role, depth, cap) is None <==> depth < cap && request_fault(
            r,
            caller,
            RequestView::ByRole { role },
        ) is None,
{
}

/// An event goes to everything that subscribed to it, whatever its namespace, in the order of
/// registration, until events are nested as deep as they may be.
pub proof fn law_an_event_goes_to_its_subscribers(r: RegistryView, event: Seq<char>, depth: u32)
    ensures
        depth < DISPATCH_MAX_DEPTH && r.subscriptions.contains_key(event) ==> targets_of(
            r,
            event,
            depth,
        ) == r.subscriptions[event],
        depth >= DISPATCH_MAX_DEPTH || !r.subscriptions.contains_key(event) ==> targets_of(
            r,
            event,
            depth,
        ).len() == 0,
{
}

proof fn lemma_kept(v: Seq<Seq<char>>, p: spec_fn(Seq<char>) -> bool, i: int)
    requires
        0 <= i < v.len(),
        p(v[i]),
    ensures
        v.filter(p).contains(v[i]),
    decreases v.len(),
{
    reveal(Seq::filter);
    let rest = v.drop_last();
    if i < v.len() - 1 {
        assert(rest[i] == v[i]);
        lemma_kept(rest, p, i);
        let k = choose|k: int| 0 <= k < rest.filter(p).len() && rest.filter(p)[k] == v[i];
        assert(v.filter(p)[k] == v[i]);
    } else {
        assert(v.filter(p)[v.filter(p).len() - 1] == v[i]);
    }
}

proof fn lemma_only_kept(v: Seq<Seq<char>>, p: spec_fn(Seq<char>) -> bool, k: int)
    requires
        0 <= k < v.filter(p).len(),
    ensures
        v.contains(v.filter(p)[k]),
        p(v.filter(p)[k]),
    decreases v.len(),
{
    reveal(Seq::filter);
    if v.len() > 0 {
        let rest = v.drop_last();
        if p(v.last()) && k == rest.filter(p).len() {
            assert(v[v.len() - 1] == v.last());
        } else {
            lemma_only_kept(rest, p, k);
            let x = rest.filter(p)[k];
            let j = choose|j: int| 0 <= j < rest.len() && rest[j] == x;
            assert(v[j] == x);
        }
    }
}

/// `a` stands before `b` in a list.
pub open spec fn comes_before(v: Seq<Seq<char>>, a: Seq<char>, b: Seq<char>) -> bool {
    exists|i: int, j: int| 0 <= i < j < v.len() && #[trigger] v[i] == a && #[trigger] v[j] == b
}

proof fn lemma_order_kept(v: Seq<Seq<char>>, p: spec_fn(Seq<char>) -> bool, i: int, j: int)
    requires
        0 <= i < j < v.len(),
        p(v[i]),
        p(v[j]),
    ensures
        comes_before(v.filter(p), v[i], v[j]),
{
    let front = v.take(j);
    let back = v.skip(j);
    assert(front + back =~= v);
    Seq::filter_distributes_over_add(front, back, p);
    assert(front[i] == v[i]);
    assert(back[0] == v[j]);
    lemma_kept(front, p, i);
    lemma_kept(back, p, 0);
    let a = choose|a: int| 0 <= a < front.filter(p).len() && front.filter(p)[a] == v[i];
    let b = choose|b: int| 0 <= b < back.filter(p).len() && back.filter(p)[b] == v[j];
    let all = front.filter(p) + back.filter(p);
    assert(all[a] == v[i]);
    assert(all[front.filter(p).len() + b] == v[j]);
}

proof fn lemma_nearest(v: Seq<Seq<char>>, x: Seq<char>)
    ensures
        nearest_first(v).contains(x) <==> v.contains(x),
{
    let named = v.filter(is_namespaced());
    let rooted = v.filter(is_root());
    let all = named + rooted;
    if v.contains(x) {
        let i = choose|i: int| 0 <= i < v.len() && v[i] == x;
        if namespace_part(x).len() > 0 {
            lemma_kept(v, is_namespaced(), i);
            let k = choose|k: int| 0 <= k < named.len() && named[k] == x;
            assert(all[k] == x);
        } else {
            lemma_kept(v, is_root(), i);
            let k = choose|k: int| 0 <= k < rooted.len() && rooted[k] == x;
            assert(all[named.len() + k] == x);
        }
    }
    if all.contains(x) {
        let k = choose|k: int| 0 <= k < all.len() && all[k] == x;
        if k < named.len() {
            lemma_only_kept(v, is_namespaced(), k);
        } else {
            lemma_only_kept(v, is_root(), k - named.len());
        }
    }
}

/// Where plugins that a caller sees fulfil a role as its own namespace knows it, they are the
/// candidates; else those that fulfil it as the root knows it are.
pub proof fn law_the_nearest_fulfillers_are_the_candidates(
    r: RegistryView,
    caller: Seq<char>,
    role: Seq<char>,
    x: Seq<char>,
)
    ensures
        ({
            let own = list_at(r.roles, qualified(namespace_part(caller), role));
            let outer = list_at(r.roles, role);
            let seen = |p: Seq<char>| on_chain(p, caller);
            &&& own.contains(x) && on_chain(x, caller) ==> candidates_for(
                r,
                Some(caller),
                role,
            ).contains(x)
            &&& (exists|i: int| 0 <= i < own.len() && on_chain(#[trigger] own[i], caller)) ==> (
            candidates_for(r, Some(caller), role).contains(x) ==> own.contains(x))
            &&& (forall|i: int| 0 <= i < own.len() ==> !on_chain(#[trigger] own[i], caller)) ==> (
            candidates_for(r, Some(caller), role).contains(x) <==> outer.contains(x) && on_chain(
                x,
                caller,
            ))
        }),
{
    reveal_with_fuel(fulfillers, 4);
    let ns = namespace_part(caller);
    let links = chain(ns);
    let own = list_at(r.roles, qualified(ns, role));
    let outer = list_at(r.roles, role);
    let here = own.filter(reachable_from(caller));
    let there = outer.filter(reachable_from(caller));
    lemma_nearest(here, x);
    lemma_nearest(there, x);
    assert(here.contains(x) <==> own.contains(x) && on_chain(x, caller)) by {
        if own.contains(x) && on_chain(x, caller) {
            let i = choose|i: int| 0 <= i < own.len() && own[i] == x;
            lemma_kept(own, reachable_from(caller), i);
        }
        if here.contains(x) {
            let k = choose|k: int| 0 <= k < here.len() && here[k] == x;
            lemma_only_kept(own, reachable_from(caller), k);
        }
    }
    assert(there.contains(x) <==> outer.contains(x) && on_chain(x, caller)) by {
        if outer.contains(x) && on_chain(x, caller) {
            let i = choose|i: int| 0 <= i < outer.len() && outer[i] == x;
            lemma_kept(outer, reachable_from(caller), i);
        }
        if there.contains(x) {
            let k = choose|k: int| 0 <= k < there.len() && there[k] == x;
            lemma_only_kept(outer, reachable_from(caller), k);
        }
    }
    if exists|i: int| 0 <= i < own.len() && on_chain(#[trigger] own[i], caller) {
        let i = choose|i: int| 0 <= i < own.len() && on_chain(#[trigger] own[i], caller);
        lemma_kept(own, reachable_from(caller), i);
        assert(here.len() > 0);
    } else {
        if here.len() > 0 {
            lemma_only_kept(own, reachable_from(caller), 0);
            let i = choose|i: int| 0 <= i < own.len() && own[i] == here[0];
            assert(on_chain(own[i], caller));
        }
        if there.len() == 0 {
            assert(!there.contains(x));
        }
    }
    if ns.len() == 0 {
        assert(links.len() == 1 && links[0] == ns);
        assert(qualified(ns, role) == role);
    } else {
        assert(links.len() == 2 && links[0] == ns && links[1].len() == 0);
        assert(qualified(links[1], role) == role);
    }
    if here.len() > 0 {
        assert(candidates_for(r, Some(caller), role) == nearest_first(here));
    } else if ns.len() > 0 && there.len() > 0 {
        assert(candidates_for(r, Some(caller), role) == nearest_first(there));
    } else {
        assert(candidates_for(r, Some(caller), role) =~= Seq::empty());
        assert(!candidates_for(r, Some(caller), role).contains(x));
        if ns.len() == 0 {
            assert(own == outer);
        }
    }
}

/// Candidates of the caller's own namespace come before those of the root; among those of one namespace
/// the order of registration stays.
pub proof fn law_candidates_of_the_own_namespace_come_first(
    v: Seq<Seq<char>>,
    i: int,
    j: int,
)
    requires
        0 <= i < v.len(),
        0 <= j < v.len(),
        i != j,
    ensures
        namespace_part(v[i]).len() > 0 && namespace_part(v[j]).len() == 0 ==> comes_before(
            nearest_first(v),
            v[i],
            v[j],
        ),
        i < j && (namespace_part(v[i]).len() > 0 <==> namespace_part(v[j]).len() > 0)
            ==> comes_before(nearest_first(v), v[i], v[j]),
        nearest_first(v).len() == v.len(),
{
    let named = v.filter(is_namespaced());
    let rooted = v.filter(is_root());
    let all = named + rooted;
    if namespace_part(v[i]).len() > 0 && namespace_part(v[j]).len() == 0 {
        lemma_kept(v, is_namespaced(), i);
        lemma_kept(v, is_root(), j);
        let a = choose|a: int| 0 <= a < named.len() && named[a] == v[i];
        let b = choose|b: int| 0 <= b < rooted.len() && rooted[b] == v[j];
        assert(all[a] == v[i] && all[named.len() + b] == v[j]);
    }
    if i < j && (namespace_part(v[i]).len() > 0 <==> namespace_part(v[j]).len() > 0) {
        if namespace_part(v[i]).len() > 0 {
            lemma_order_kept(v, is_namespaced(), i, j);
            let (a, b) = choose|a: int, b: int|
                0 <= a < b < named.len() && #[trigger] named[a] == v[i] && #[trigger] named[b]
                    == v[j];
            assert(all[a] == v[i] && all[b] == v[j]);
        } else {
            lemma_order_kept(v, is_root(), i, j);
            let (a, b) = choose|a: int, b: int|
                0 <= a < b < rooted.len() && #[trigger] rooted[a] == v[i] && #[trigger] rooted[b]
                    == v[j];
            assert(all[named.len() + a] == v[i] && all[named.len() + b] == v[j]);
        }
    }
    lemma_parted(v);
}

proof fn lemma_parted(v: Seq<Seq<char>>)
    ensures
        v.filter(is_namespaced()).len() + v.filter(is_root()).len() == v.len(),
    decreases v.len(),
{
    reveal(Seq::filter);
    if v.len() > 0 {
        lemma_parted(v.drop_last());
    }
}

/// A plugin uses the step types that it defines itself, and the aliases that it has itself, without any
/// grant; so it does a step type of its namespace that is free for all.
pub proof fn law_a_plugin_uses_its_own_step_types(
    r: RegistryView,
    plugin: Seq<char>,
    allowed: Map<Seq<char>, Seq<char>>,
    owners: Map<Seq<char>, BodyOwnerView>,
    key: Seq<char>,
)
    requires
        is_access(r, plugin, allowed, owners),
    ensures
        r.step_type_defs.contains_key(key) && r.step_type_defs[key].0 == plugin
            ==> allowed.contains_key(r.step_type_defs[key].1.name),
        r.aliases.contains_key(key) && r.aliases[key].0 == plugin ==> allowed.contains_key(
            local_part(key),
        ),
        r.step_type_defs.contains_key(key) && r.step_type_defs[key].1.freely_usable
            && namespace_part(r.step_type_defs[key].0) == namespace_part(plugin)
            ==> allowed.contains_key(r.step_type_defs[key].1.name),
{
    let ns = namespace_part(plugin);
    let links = chain(ns);
    assert(links[0] == ns);
    if r.step_type_defs.contains_key(key) && namespace_part(r.step_type_defs[key].0) == ns {
        let w = r.step_type_defs[key].1.name;
        assert(def_stands(r, ns, w, key));
        assert(nearest_level(r, links, w, 0));
        if r.step_type_defs[key].0 == plugin || r.step_type_defs[key].1.freely_usable {
            assert(def_usable(r, plugin, ns, w, key));
            assert(usable_at(r, plugin, links[0], w));
        }
    }
    if r.aliases.contains_key(key) && r.aliases[key].0 == plugin {
        let w = local_part(key);
        assert(alias_stands(r, ns, w, key));
        assert(nearest_level(r, links, w, 0));
        assert(alias_usable(r, plugin, ns, w, key));
        assert(usable_at(r, plugin, links[0], w));
    }
}

/// A step type of the root, where nothing in the own namespace is so written, is used where it is free
/// for all or a grant names it.
pub proof fn law_a_step_type_of_the_root_is_used_by_grant(
    r: RegistryView,
    plugin: Seq<char>,
    allowed: Map<Seq<char>, Seq<char>>,
    owners: Map<Seq<char>, BodyOwnerView>,
    key: Seq<char>,
)
    requires
        is_access(r, plugin, allowed, owners),
        r.step_type_defs.contains_key(key),
        namespace_part(r.step_type_defs[key].0).len() == 0,
        namespace_part(plugin).len() > 0,
        unknown_in(r, namespace_part(plugin), r.step_type_defs[key].1.name),
        r.step_type_defs[key].1.freely_usable || holds_grant(
            r,
            plugin,
            r.step_type_defs[key].1.name,
        ),
    ensures
        allowed.contains_key(r.step_type_defs[key].1.name),
{
    let links = chain(namespace_part(plugin));
    let w = r.step_type_defs[key].1.name;
    let root = Seq::<char>::empty();
    assert(links.len() == 2 && links[1] == root);
    assert(namespace_part(r.step_type_defs[key].0) =~= root);
    assert(!stands(r, links[0], w));
    assert(def_stands(r, root, w, key));
    assert(nearest_level(r, links, w, 1));
    assert(def_usable(r, plugin, root, w, key));
    assert(usable_at(r, plugin, links[1], w));
}

/// Without a grant a plugin uses nothing of another that is not free for all, and no alias of another.
pub proof fn law_nothing_of_another_is_used_without_a_grant(
    r: RegistryView,
    plugin: Seq<char>,
    allowed: Map<Seq<char>, Seq<char>>,
    owners: Map<Seq<char>, BodyOwnerView>,
    written: Seq<char>,
)
    requires
        is_access(r, plugin, allowed, owners),
        allowed.contains_key(written),
        !list_at(r.permissions, plugin).contains(PermissionView::StepType(written)),
    ensures
        ({
            let key = allowed[written];
            ||| {
                &&& r.step_type_defs.contains_key(key)
                &&& r.step_type_defs[key].1.name == written
                &&& r.step_type_defs[key].0 == plugin || r.step_type_defs[key].1.freely_usable
            }
            ||| r.aliases.contains_key(key) && local_part(key) == written && r.aliases[key].0
                == plugin
        }),
{
    law_step_types_are_the_plugins_own_or_granted(
        r,
        plugin,
        allowed,
        owners,
        written,
    );
}

/// The body of a step type that another registered plugin defines runs with that plugin's secrets, as
/// its manifest declares them; one of the plugin's own runs with none of another.
pub proof fn law_a_body_sees_its_owners_secrets(
    r: RegistryView,
    plugin: Seq<char>,
    allowed: Map<Seq<char>, Seq<char>>,
    owners: Map<Seq<char>, BodyOwnerView>,
    written: Seq<char>,
)
    requires
        is_access(r, plugin, allowed, owners),
        owners.contains_key(written),
    ensures
        ({
            let def = r.step_type_defs[allowed[written]];
            &&& allowed.contains_key(written)
            &&& r.step_type_defs.contains_key(allowed[written])
            &&& def.0 != plugin
            &&& owners[written].identity == def.0
            &&& owners[written].declared_keys == secret_keys(r.manifests[def.0].uses_secrets)
            &&& owners[written].overridable_keys == overridable_keys(
                r.manifests[def.0].uses_secrets,
            )
        }),
{
    let links = chain(namespace_part(plugin));
    assert(allowed.contains_key(written));
    let i = choose|i: int|
        #[trigger] nearest_level(r, links, written, i) && usable_at(r, plugin, links[i], written);
    assert(nearest_level(r, links, written, i) && usable_at(r, plugin, links[i], written));
}

/// The keys of secrets are those that are declared, in their order; the ones that can be overridden are
/// those that say so.
pub proof fn law_secrets_are_as_declared(secrets: Seq<SecretView>, i: int, k: Seq<char>)
    requires
        0 <= i < secrets.len(),
    ensures
        secret_keys(secrets).len() == secrets.len(),
        secret_keys(secrets)[i] == secrets[i].key,
        secrets[i].overridable ==> overridable_keys(secrets).contains(secrets[i].key),
        overridable_keys(secrets).contains(k) ==> exists|j: int|
            0 <= j < secrets.len() && (#[trigger] secrets[j]).key == k && secrets[j].overridable,
    decreases secrets.len(),
{
    let rest = secrets.drop_last();
    let all = overridable_keys(secrets);
    let before = overridable_keys(rest);
    assert(secrets[secrets.len() - 1] == secrets.last());
    if rest.len() > 0 {
        law_secrets_are_as_declared(
            rest,
            if i < rest.len() {
                i
            } else {
                0
            },
            k,
        );
    }
    if secrets.last().overridable {
        assert(all[before.len() as int] == secrets.last().key);
        assert forall|x: Seq<char>| before.contains(x) implies all.contains(x) by {
            let j = choose|j: int| 0 <= j < before.len() && before[j] == x;
            assert(all[j] == x);
        }
    }
    if i < rest.len() {
        assert(rest[i] == secrets[i]);
    }
    if all.contains(k) {
        let p = choose|p: int| 0 <= p < all.len() && all[p] == k;
        if p < before.len() {
            assert(before[p] == k);
            assert(before.contains(k));
            let j = choose|j: int|
                0 <= j < rest.len() && (#[trigger] rest[j]).key == k && rest[j].overridable;
            assert(secrets[j] == rest[j]);
        }
    }
}

/// A refusal is told by what the caller would have reached: by what its own namespace has under the
/// name, a definition before an alias, else by what the root has, else as what nobody defines.
pub proof fn law_a_refusal_names_what_would_have_been_reached(
    r: RegistryView,
    caller: Seq<char>,
    step_type: Seq<char>,
)
    requires
        step_type.contains('.'),
    ensures
        ({
            let own = qualified(namespace_part(caller), step_type);
            let none_here = !r.step_type_defs.contains_key(own) && !r.aliases.contains_key(own);
            let told = explained(r, caller, step_type);
            &&& r.step_type_defs.contains_key(own) ==> told == defined_text(
                caller,
                step_type,
                r.step_type_defs[own].0,
            )
            &&& !r.step_type_defs.contains_key(own) && r.aliases.contains_key(own) ==> told
                == alias_text(caller, step_type, r.aliases[own].0)
            &&& none_here && r.step_type_defs.contains_key(step_type) ==> told == defined_text(
                caller,
                step_type,
                r.step_type_defs[step_type].0,
            )
            &&& none_here && !r.step_type_defs.contains_key(step_type) && r.aliases.contains_key(
                step_type,
            ) ==> told == alias_text(caller, step_type, r.aliases[step_type].0)
            &&& none_here && !r.step_type_defs.contains_key(step_type) && !r.aliases.contains_key(
                step_type,
            ) ==> told == undefined_text(caller, step_type)
        }),
{
    reveal_with_fuel(explained_from, 4);
    let ns = namespace_part(caller);
    let links = chain(ns);
    if ns.len() == 0 {
        assert(links.len() == 1 && links[0] == ns);
    } else {
        assert(links.len() == 2 && links[0] == ns && links[1].len() == 0);
        assert(level_key(links[1], step_type) == step_type);
    }
}

proof fn lemma_lookup_key(s: Seq<(Seq<char>, JsonView)>, key: Seq<char>)
    ensures
        lookup(s, key) is Some <==> exists|i: int| 0 <= i < s.len() && (#[trigger] s[i]).0 == key,
    decreases s.len(),
{
    if s.len() > 0 {
        let rest = s.drop_first();
        lemma_lookup_key(rest, key);
        if exists|i: int| 0 <= i < rest.len() && (#[trigger] rest[i]).0 == key {
            let i = choose|i: int| 0 <= i < rest.len() && (#[trigger] rest[i]).0 == key;
            assert(s[i + 1].0 == key);
        }
        if exists|i: int| 0 <= i < s.len() && (#[trigger] s[i]).0 == key {
            let i = choose|i: int| 0 <= i < s.len() && (#[trigger] s[i]).0 == key;
            if i > 0 {
                assert(rest[i - 1].0 == key);
            }
        }
    }
}

/// The keys that a step type declares beside its result are the properties of the schema of the
/// definition under its key; where nobody defines it there is nothing to go by.
pub proof fn law_declared_keys_are_properties_of_the_schema(
    r: RegistryView,
    key: Seq<char>,
    name: Seq<char>,
    schema: JsonView,
    props: Seq<(Seq<char>, JsonView)>,
)
    ensures
        declared_keys(r, None) is None,
        declared_keys(r, Some(key)) is Some <==> r.step_type_defs.contains_key(key),
        r.step_type_defs.contains_key(key) && r.step_type_defs[key].1.metadata_schema == Some(schema)
            && schema.get("properties"@) == Some(JsonView::Object(props)) ==> (declared_keys(
            r,
            Some(key),
        )->0.contains(name) <==> lookup(props, name) is Some),
        r.step_type_defs.contains_key(key) && r.step_type_defs[key].1.metadata_schema is None
            ==> declared_keys(r, Some(key))->0.len() == 0,
{
    lemma_lookup_key(props, name);
    let keys = props.map_values(|e: (Seq<char>, JsonView)| e.0);
    if exists|i: int| 0 <= i < props.len() && (#[trigger] props[i]).0 == name {
        let i = choose|i: int| 0 <= i < props.len() && (#[trigger] props[i]).0 == name;
        assert(keys[i] == name);
    }
    if keys.contains(name) {
        let i = choose|i: int| 0 <= i < keys.len() && keys[i] == name;
        assert(props[i].0 == name);
    }
}

/// A step type that is an alias stands for an action of the manifest's own where the manifest has it,
/// else for that of the nearest alias, which a nearer definition hides.
pub proof fn law_an_alias_stands_for_the_nearest_action(
    r: RegistryView,
    plugin: Seq<char>,
    own: Seq<(Seq<char>, Seq<char>)>,
    defs: Seq<StepTypeDefView>,
    alias: Seq<char>,
    i: int,
)
    ensures
        0 <= i < own.len() && own[i].0 == alias && (forall|j: int|
            0 <= j < i ==> (#[trigger] own[j]).0 != alias) ==> alias_target(
            r,
            plugin,
            own,
            defs,
            alias,
        ) == Some((plugin, own[i].1)),
        (forall|j: int| 0 <= j < own.len() ==> (#[trigger] own[j]).0 != alias) ==> {
            let here = qualified(namespace_part(plugin), alias);
            let t = alias_target(r, plugin, own, defs, alias);
            let hidden = exists|j: int| 0 <= j < defs.len() && (#[trigger] defs[j]).name == alias;
            &&& hidden || !alias.contains('.') ==> t is None
            &&& !hidden && alias.contains('.') && r.aliases.contains_key(here) ==> t == Some(
                r.aliases[here],
            )
            &&& !hidden && alias.contains('.') && !r.aliases.contains_key(here)
                && r.step_type_defs.contains_key(here) ==> t is None
            &&& !hidden && alias.contains('.') && !r.aliases.contains_key(here)
                && !r.step_type_defs.contains_key(here) && r.aliases.contains_key(alias) ==> t
                == Some(r.aliases[alias])
            &&& !hidden && alias.contains('.') && !r.aliases.contains_key(here)
                && !r.aliases.contains_key(alias) ==> t is None
        },
{
    if 0 <= i < own.len() && own[i].0 == alias && (forall|j: int|
        0 <= j < i ==> (#[trigger] own[j]).0 != alias) {
        lemma_own_alias(own, alias, i, 0);
    }
    if forall|j: int| 0 <= j < own.len() ==> (#[trigger] own[j]).0 != alias {
        lemma_no_own_alias(own, alias, 0);
        lemma_own_def(defs, alias);
        reveal_with_fuel(chain_alias, 4);
        let ns = namespace_part(plugin);
        let links = chain(ns);
        if ns.len() == 0 {
            assert(links.len() == 1 && links[0] == ns);
        } else {
            assert(links.len() == 2 && links[0] == ns && links[1].len() == 0);
            assert(qualified(links[1], alias) == alias);
        }
    }
}

proof fn lemma_own_alias(own: Seq<(Seq<char>, Seq<char>)>, alias: Seq<char>, i: int, from: int)
    requires
        0 <= from <= i < own.len(),
        own[i].0 == alias,
        forall|j: int| from <= j < i ==> (#[trigger] own[j]).0 != alias,
    ensures
        own_alias(own, alias, from) == Some(own[i].1),
    decreases i - from,
{
    if from < i {
        lemma_own_alias(own, alias, i, from + 1);
    }
}

proof fn lemma_no_own_alias(own: Seq<(Seq<char>, Seq<char>)>, alias: Seq<char>, from: int)
    requires
        0 <= from <= own.len(),
        forall|j: int| 0 <= j < own.len() ==> (#[trigger] own[j]).0 != alias,
    ensures
        own_alias(own, alias, from) is None,
    decreases own.len() - from,
{
    if from < own.len() {
        lemma_no_own_alias(own, alias, from + 1);
    }
}

proof fn lemma_own_def(defs: Seq<StepTypeDefView>, name: Seq<char>)
    ensures
        own_def(defs, name) is Some <==> exists|j: int|
            0 <= j < defs.len() && (#[trigger] defs[j]).name == name,
        own_def(defs, name) is Some ==> defs.contains(own_def(defs, name)->0) && own_def(
            defs,
            name,
        )->0.name == name,
    decreases defs.len(),
{
    if defs.len() > 0 {
        let rest = defs.drop_last();
        lemma_own_def(rest, name);
        assert(defs[defs.len() - 1] == defs.last());
        if own_def(rest, name) is Some {
            let j = choose|j: int| 0 <= j < rest.len() && (#[trigger] rest[j]).name == name;
            assert(defs[j] == rest[j]);
            let d = own_def(rest, name)->0;
            let k = choose|k: int| 0 <= k < rest.len() && rest[k] == d;
            assert(defs[k] == d);
        }
        if exists|j: int| 0 <= j < defs.len() && (#[trigger] defs[j]).name == name {
            let j = choose|j: int| 0 <= j < defs.len() && (#[trigger] defs[j]).name == name;
            if j < rest.len() {
                assert(rest[j] == defs[j]);
            }
        }
    }
}

/// A step type is what the manifest itself defines under its name, where it does, and else what is
/// registered.
pub proof fn law_a_manifests_own_definition_comes_first(
    r: RegistryView,
    own: Seq<StepTypeDefView>,
    step_type: Seq<char>,
    i: int,
)
    ensures
        0 <= i < own.len() && own[i].name == step_type ==> def_target(r, own, step_type) is Some
            && own.contains(def_target(r, own, step_type)->0) && def_target(
            r,
            own,
            step_type,
        )->0.name == step_type,
        (forall|j: int| 0 <= j < own.len() ==> (#[trigger] own[j]).name != step_type)
            && r.step_type_defs.contains_key(step_type) ==> def_target(r, own, step_type) == Some(
            r.step_type_defs[step_type].1,
        ),
        (forall|j: int| 0 <= j < own.len() ==> (#[trigger] own[j]).name != step_type)
            && !r.step_type_defs.contains_key(step_type) ==> def_target(r, own, step_type) is None,
{
    lemma_own_def(own, step_type);
}

proof fn lemma_producers(steps: Seq<StepView>, i: int)
    requires
        0 <= i < steps.len(),
        steps[i].long_running,
        forall|j: int| 0 <= j < steps.len() && j != i ==> !(#[trigger] steps[j]).long_running,
    ensures
        producers(steps) == seq![steps[i].id],
    decreases steps.len(),
{
    let rest = steps.drop_last();
    if i < rest.len() {
        assert(rest[i] == steps[i]);
        assert forall|j: int| 0 <= j < rest.len() && j != i implies !(
        #[trigger] rest[j]).long_running by {
            assert(rest[j] == steps[j]);
        }
        lemma_producers(rest, i);
        assert(!steps[steps.len() - 1].long_running);
    } else {
        assert forall|j: int| 0 <= j < rest.len() implies !(#[trigger] rest[j]).long_running by {
            assert(rest[j] == steps[j]);
        }
        lemma_no_producers(rest);
        assert(producers(steps) =~= seq![steps[i].id]);
    }
}

proof fn lemma_no_producers(steps: Seq<StepView>)
    requires
        forall|j: int| 0 <= j < steps.len() ==> !(#[trigger] steps[j]).long_running,
    ensures
        producers(steps) == Seq::<Seq<char>>::empty(),
    decreases steps.len(),
{
    if steps.len() > 0 {
        let rest = steps.drop_last();
        assert forall|j: int| 0 <= j < rest.len() implies !(#[trigger] rest[j]).long_running by {
            assert(rest[j] == steps[j]);
        }
        lemma_no_producers(rest);
        assert(!steps[steps.len() - 1].long_running);
    }
}

proof fn lemma_a_producer(steps: Seq<StepView>, k: int)
    requires
        0 <= k < producers(steps).len(),
    ensures
        exists|j: int|
            0 <= j < steps.len() && (#[trigger] steps[j]).long_running && steps[j].id == producers(
                steps,
            )[k],
    decreases steps.len(),
{
    if steps.len() > 0 {
        let rest = steps.drop_last();
        if steps.last().long_running && k == producers(rest).len() {
            assert(steps[steps.len() - 1] == steps.last());
        } else {
            lemma_a_producer(rest, k);
            let j = choose|j: int|
                0 <= j < rest.len() && (#[trigger] rest[j]).long_running && rest[j].id == producers(
                    rest,
                )[k];
            assert(steps[j] == rest[j]);
        }
    }
}

proof fn lemma_unconsumed(steps: Seq<StepView>, plan: PlanView, i: int, from: int)
    requires
        0 <= from <= i < steps.len(),
        consumed_producer(steps, plan, from) is None,
        steps[i].long_running,
    ensures
        plan.consumers[i].len() == 0,
    decreases i - from,
{
    if from < i {
        lemma_unconsumed(steps, plan, i, from + 1);
    }
}

proof fn lemma_none_consumed(steps: Seq<StepView>, plan: PlanView, from: int)
    requires
        0 <= from <= steps.len(),
        forall|j: int|
            0 <= j < steps.len() && (#[trigger] steps[j]).long_running ==> plan.consumers[j].len()
                == 0,
    ensures
        consumed_producer(steps, plan, from) is None,
    decreases steps.len() - from,
{
    if from < steps.len() {
        assert(steps[from].long_running ==> plan.consumers[from].len() == 0);
        lemma_none_consumed(steps, plan, from + 1);
    }
}

/// A caller reads the stream of the one long-running step of a dataflow that nothing in the action
/// reads; an action that is no dataflow, that has several long-running steps or none, or whose
/// long-running step is read inside it, is refused.
pub proof fn law_a_streaming_caller_reads_the_one_producer(
    plugin: Seq<char>,
    action: Seq<char>,
    a: RegistrationView,
    i: int,
    k: int,
)
    ensures
        !a.action.dataflow ==> streaming_step(plugin, action, a) is Err,
        a.action.dataflow && 0 <= i < a.action.steps.len() && a.action.steps[i].long_running
            && a.plan.consumers[i].len() == 0 && (forall|j: int|
            0 <= j < a.action.steps.len() && j != i ==> !(
            #[trigger] a.action.steps[j]).long_running) ==> streaming_step(plugin, action, a) == Ok::<
            Seq<char>,
            Seq<char>,
        >(a.action.steps[i].id),
        0 <= i < a.action.steps.len() && a.action.steps[i].long_running
            && a.plan.consumers[i].len() > 0 ==> streaming_step(plugin, action, a) is Err,
        (forall|j: int|
            0 <= j < a.action.steps.len() ==> !(#[trigger] a.action.steps[j]).long_running)
            ==> streaming_step(plugin, action, a) is Err,
        0 <= i < k < a.action.steps.len() && a.action.steps[i].long_running
            && a.action.steps[k].long_running ==> streaming_step(plugin, action, a) is Err,
        streaming_step(plugin, action, a) is Ok ==> exists|j: int|
            {
                &&& 0 <= j < a.action.steps.len()
                &&& (#[trigger] a.action.steps[j]).long_running
                &&& a.action.steps[j].id == streaming_step(plugin, action, a)->Ok_0
            },
{
    let steps = a.action.steps;
    if 0 <= i < steps.len() && steps[i].long_running {
        if consumed_producer(steps, a.plan, 0) is None {
            lemma_unconsumed(steps, a.plan, i, 0);
        }
        if a.plan.consumers[i].len() == 0 && (forall|j: int|
            0 <= j < steps.len() && j != i ==> !(#[trigger] steps[j]).long_running) {
            assert forall|j: int|
                0 <= j < steps.len() && (
                #[trigger] steps[j]).long_running implies a.plan.consumers[j].len() == 0 by {
                assert(j == i);
            }
            lemma_none_consumed(steps, a.plan, 0);
            lemma_producers(steps, i);
        }
    }
    if forall|j: int| 0 <= j < steps.len() ==> !(#[trigger] steps[j]).long_running {
        lemma_no_producers(steps);
    }
    if streaming_step(plugin, action, a) is Ok {
        lemma_a_producer(steps, 0);
    }
    if 0 <= i < k < steps.len() && steps[i].long_running && steps[k].long_running {
        lemma_two_producers(steps, i, k);
    }
}

proof fn lemma_some_producer(steps: Seq<StepView>, i: int)
    requires
        0 <= i < steps.len(),
        steps[i].long_running,
    ensures
        producers(steps).len() >= 1,
    decreases steps.len(),
{
    if i < steps.len() - 1 {
        assert(steps.drop_last()[i] == steps[i]);
        lemma_some_producer(steps.drop_last(), i);
    }
}

proof fn lemma_two_producers(steps: Seq<StepView>, i: int, k: int)
    requires
        0 <= i < k < steps.len(),
        steps[i].long_running,
        steps[k].long_running,
    ensures
        producers(steps).len() >= 2,
    decreases steps.len(),
{
    let rest = steps.drop_last();
    assert(rest[i] == steps[i]);
    if k < rest.len() {
        assert(rest[k] == steps[k]);
        lemma_two_producers(rest, i, k);
    } else {
        lemma_some_producer(rest, i);
    }
}

/// An action that invokes itself is a cycle, and so are two that invoke each other.
pub proof fn law_an_invoke_that_leads_back_is_a_cycle(edges: Seq<EdgeView>, i: int, j: int)
    requires
        0 <= i < edges.len(),
        0 <= j < edges.len(),
        edges[i].to == edges[j].from,
        edges[j].to == edges[i].from,
    ensures
        has_cycle(edges),
{
    let walk = seq![i, j];
    assert(is_cycle(edges, walk));
}

/// A cycle of edges is one whatever other edges there are.
pub proof fn law_more_edges_take_no_cycle_away(edges: Seq<EdgeView>, more: Seq<EdgeView>)
    requires
        has_cycle(edges),
    ensures
        has_cycle(edges + more),
        has_cycle(more + edges),
{
    let walk = choose|walk: Seq<int>| is_cycle(edges, walk);
    let all = edges + more;
    assert forall|i: int| 0 <= i < walk.len() implies 0 <= #[trigger] walk[i] < all.len()
        && all[walk[i]] == edges[walk[i]] by {}
    assert(is_cycle(all, walk));
    let other = more + edges;
    let moved = walk.map_values(|x: int| x + more.len());
    assert forall|i: int| 0 <= i < moved.len() implies 0 <= #[trigger] moved[i] < other.len()
        && other[moved[i]] == edges[walk[i]] by {
        assert(0 <= walk[i] < edges.len());
    }
    assert(walk.last() == walk[walk.len() - 1]);
    assert(moved.last() == moved[moved.len() - 1]);
    assert forall|i: int| 0 <= i < moved.len() - 1 implies other[#[trigger] moved[i]].to
        == other[moved[i + 1]].from by {
        assert(edges[walk[i]].to == edges[walk[i + 1]].from);
    }
    assert(is_cycle(other, moved));
}

/// Edges that all lead from a lower to a higher place in some order have no cycle.
pub proof fn law_edges_that_lead_upward_have_no_cycle(
    edges: Seq<EdgeView>,
    rank: spec_fn((Seq<char>, Seq<char>)) -> nat,
)
    requires
        forall|i: int| 0 <= i < edges.len() ==> rank((#[trigger] edges[i]).from) < rank(edges[i].to),
    ensures
        !has_cycle(edges),
{
    if has_cycle(edges) {
        let walk = choose|walk: Seq<int>| is_cycle(edges, walk);
        lemma_rises(edges, walk, rank, walk.len() - 1);
        assert(walk.last() == walk[walk.len() - 1]);
    }
}

proof fn lemma_rises(
    edges: Seq<EdgeView>,
    walk: Seq<int>,
    rank: spec_fn((Seq<char>, Seq<char>)) -> nat,
    n: int,
)
    requires
        is_cycle(edges, walk),
        0 <= n < walk.len(),
        forall|i: int| 0 <= i < edges.len() ==> rank((#[trigger] edges[i]).from) < rank(edges[i].to),
    ensures
        rank(edges[walk[0]].from) < rank(edges[walk[n]].to),
    decreases n,
{
    assert(0 <= walk[n] < edges.len());
    assert(rank(edges[walk[n]].from) < rank(edges[walk[n]].to));
    if n > 0 {
        lemma_rises(edges, walk, rank, n - 1);
        assert(edges[walk[n - 1]].to == edges[walk[n - 1 + 1]].from);
    }
}

/// A step type of the kernel stands for itself, whatever a plugin may use; any other for what the plugin
/// was found to use by it.
pub proof fn law_the_kernels_step_types_are_everybodys(access: StepTypeAccess, written: Seq<char>)
    ensures
        is_reserved_step_type(written) ==> access.resolved(written) == Some(written),
        !is_reserved_step_type(written) && access.allowed_view().contains_key(written)
            ==> access.resolved(written) == Some(access.allowed_view()[written]),
        !is_reserved_step_type(written) && !access.allowed_view().contains_key(written)
            ==> access.resolved(written) is None,
        is_reserved_step_type("let"@),
        is_reserved_step_type("script"@),
        is_reserved_step_type("invoke"@),
        is_reserved_step_type("wasm"@),
        is_reserved_step_type("throw_error"@),
        is_reserved_step_type("for_each"@),
        is_reserved_step_type("repeat"@),
        is_reserved_step_type("ifs"@),
        is_reserved_step_type("return"@),
        is_reserved_step_type("try"@),
        is_reserved_step_type("parallel"@),
        is_reserved_step_type(written) ==> !written.contains('.'),
{
    reveal_strlit("let");
    reveal_strlit("script");
    reveal_strlit("invoke");
    reveal_strlit("wasm");
    reveal_strlit("throw_error");
    reveal_strlit("for_each");
    reveal_strlit("repeat");
    reveal_strlit("ifs");
    reveal_strlit("return");
    reveal_strlit("try");
    reveal_strlit("parallel");
}

/// No step type of a namespace and no alias in it is written so.
pub open spec fn unknown_in(r: RegistryView, namespace: Seq<char>, written: Seq<char>) -> bool {
    &&& forall|key: Seq<char>| #[trigger]
        r.step_type_defs.contains_key(key) && namespace_part(r.step_type_defs[key].0) == namespace
            ==> r.step_type_defs[key].1.name != written
    &&& forall|key: Seq<char>| #[trigger]
        r.aliases.contains_key(key) && namespace_part(r.aliases[key].0) == namespace ==> local_part(
            key,
        ) != written
}

/// What a plugin writes means a step type or an alias of that name whose owner stands on the plugin's own
/// chain.
pub proof fn law_a_step_type_comes_from_the_chain(
    r: RegistryView,
    plugin: Seq<char>,
    allowed: Map<Seq<char>, Seq<char>>,
    owners: Map<Seq<char>, BodyOwnerView>,
    written: Seq<char>,
)
    requires
        is_access(r, plugin, allowed, owners),
        allowed.contains_key(written),
    ensures
        ({
            let key = allowed[written];
            ||| {
                &&& r.step_type_defs.contains_key(key)
                &&& r.step_type_defs[key].1.name == written
                &&& chain(namespace_part(plugin)).contains(namespace_part(r.step_type_defs[key].0))
            }
            ||| {
                &&& r.aliases.contains_key(key)
                &&& local_part(key) == written
                &&& chain(namespace_part(plugin)).contains(namespace_part(r.aliases[key].0))
            }
        }),
{
    let links = chain(namespace_part(plugin));
    let i = choose|i: int|
        #[trigger] nearest_level(r, links, written, i) && usable_at(r, plugin, links[i], written);
    assert(nearest_level(r, links, written, i) && usable_at(r, plugin, links[i], written));
    assert(links.contains(links[i]));
}

/// What nobody on a plugin's chain defines the plugin cannot use; and what stands in its own namespace
/// hides what stands farther, also where the plugin may not use it.
pub proof fn law_what_stands_nearer_hides_what_stands_farther(
    r: RegistryView,
    plugin: Seq<char>,
    allowed: Map<Seq<char>, Seq<char>>,
    owners: Map<Seq<char>, BodyOwnerView>,
    written: Seq<char>,
)
    requires
        is_access(r, plugin, allowed, owners),
    ensures
        (forall|i: int|
            0 <= i < chain(namespace_part(plugin)).len() ==> unknown_in(
                r,
                #[trigger] chain(namespace_part(plugin))[i],
                written,
            )) ==> !allowed.contains_key(written),
        !unknown_in(r, namespace_part(plugin), written) && allowed.contains_key(written) ==> {
            let key = allowed[written];
            ||| r.step_type_defs.contains_key(key) && namespace_part(r.step_type_defs[key].0)
                == namespace_part(plugin)
            ||| r.aliases.contains_key(key) && namespace_part(r.aliases[key].0) == namespace_part(
                plugin,
            )
        },
{
    let ns = namespace_part(plugin);
    let links = chain(ns);
    assert(links[0] == ns);
    if allowed.contains_key(written) {
        let i = choose|i: int|
            #[trigger] nearest_level(r, links, written, i) && usable_at(r, plugin, links[i], written);
        assert(nearest_level(r, links, written, i) && usable_at(r, plugin, links[i], written));
        assert(stands(r, links[i], written));
        assert(!unknown_in(r, links[i], written));
        if !unknown_in(r, ns, written) {
            if exists|key: Seq<char>|
                #[trigger] r.step_type_defs.contains_key(key) && namespace_part(
                    r.step_type_defs[key].0,
                ) == ns && r.step_type_defs[key].1.name == written {
                let key = choose|key: Seq<char>|
                    #[trigger] r.step_type_defs.contains_key(key) && namespace_part(
                        r.step_type_defs[key].0,
                    ) == ns && r.step_type_defs[key].1.name == written;
                assert(def_stands(r, ns, written, key));
            } else {
                let key = choose|key: Seq<char>|
                    #[trigger] r.aliases.contains_key(key) && namespace_part(r.aliases[key].0) == ns
                        && local_part(key) == written;
                assert(alias_stands(r, ns, written, key));
            }
            assert(stands(r, links[0], written));
            assert(i == 0);
        }
    }
}

} // verus!
