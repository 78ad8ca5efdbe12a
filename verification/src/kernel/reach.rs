//! What a plugin can reach: nothing off its chain, and on it nothing that was not granted.

use vstd::prelude::*;

use crate::identity::{
    chain, law_chain_leads_upward, local_part, namespace_part, on_chain, qualified,
    reference_candidates,
};
use crate::kernel::access::{
    holds_grant, is_access, nearest_level, stands, usable_at, BodyOwnerView,
};
use crate::kernel::dispatch::{
    candidates_for, denoted, first_registered, fulfillers, grants_target, is_namespaced, is_root,
    nearest_first, reachable_from, request_fault, resolved_fault, RequestView,
};
use crate::permissions::{NamePatternView, PermissionView};
use crate::registry::{list_at, RegistryView};
use crate::text::{before, first_index, lemma_first_index};

verus! {

proof fn lemma_namespace_has_no_separator(identity: Seq<char>)
    ensures
        !namespace_part(identity).contains('/'),
{
    if identity.contains('/') {
        lemma_first_index(identity, '/');
    }
}

proof fn lemma_namespace_of_qualified(namespace: Seq<char>, name: Seq<char>)
    requires
        !namespace.contains('/'),
        !name.contains('/'),
    ensures
        namespace_part(qualified(namespace, name)) == namespace,
{
    let id = qualified(namespace, name);
    reveal_strlit("/");
    if namespace.len() == 0 {
        assert(namespace =~= Seq::<char>::empty());
    } else {
        let k = namespace.len() as int;
        assert(id[k] == '/');
        assert(id.contains('/'));
        lemma_first_index(id, '/');
        let i = first_index(id, '/');
        if i < k {
            assert(namespace[i] == id[i]);
            assert(namespace.contains('/'));
        }
        assert(before(id, '/') =~= namespace);
    }
}

/// A plugin is on its own chain, and so is the root namespace.
pub proof fn law_a_plugin_is_on_its_own_chain(caller: Seq<char>, target: Seq<char>)
    ensures
        on_chain(caller, caller),
        namespace_part(target).len() == 0 ==> on_chain(target, caller),
{
    let links = chain(namespace_part(caller));
    assert(links[0] == namespace_part(caller));
    if namespace_part(target).len() == 0 {
        assert(namespace_part(target) =~= Seq::<char>::empty());
        if namespace_part(caller).len() == 0 {
            assert(namespace_part(caller) =~= Seq::<char>::empty());
        } else {
            assert(links[1] == Seq::<char>::empty());
        }
    }
}

/// A bare reference denotes a plugin on the chain of the one that makes it.
pub proof fn law_references_stay_on_the_chain(
    r: RegistryView,
    caller: Seq<char>,
    reference: Seq<char>,
)
    requires
        !reference.contains('/'),
    ensures
        on_chain(denoted(r, caller, reference), caller),
        reference_candidates(caller, reference).contains(denoted(r, caller, reference)),
{
    let links = chain(namespace_part(caller));
    let candidates = reference_candidates(caller, reference);
    lemma_namespace_has_no_separator(caller);
    assert forall|i: int| 0 <= i < links.len() implies on_chain(
        #[trigger] candidates[i],
        caller,
    ) by {
        assert(candidates[i] == qualified(links[i], reference));
        lemma_namespace_of_qualified(links[i], reference);
        assert(links.contains(links[i]));
    }
    lemma_first_registered(r, candidates, 0);
}

proof fn lemma_first_registered(r: RegistryView, candidates: Seq<Seq<char>>, i: int)
    requires
        0 <= i <= candidates.len(),
    ensures
        match first_registered(r, candidates, i) {
            Some(id) => exists|j: int|
                i <= j < candidates.len() && (#[trigger] candidates[j]) == id
                    && r.manifests.contains_key(id),
            None => forall|j: int|
                i <= j < candidates.len() ==> !r.manifests.contains_key(#[trigger] candidates[j]),
        },
    decreases candidates.len() - i,
{
    if i < candidates.len() {
        if r.manifests.contains_key(candidates[i]) {
            assert(candidates[i] == first_registered(r, candidates, i)->0);
        } else {
            lemma_first_registered(r, candidates, i + 1);
        }
    }
}

/// A reference denotes a plugin that is registered wherever the chain has one by that name.
pub proof fn law_references_find_what_is_there(
    r: RegistryView,
    caller: Seq<char>,
    reference: Seq<char>,
    i: int,
)
    requires
        0 <= i < reference_candidates(caller, reference).len(),
        r.manifests.contains_key(reference_candidates(caller, reference)[i]),
    ensures
        r.manifests.contains_key(denoted(r, caller, reference)),
{
    lemma_first_registered(r, reference_candidates(caller, reference), 0);
}

/// No dispatch leaves the chain of the caller, whatever is granted and whoever resolved the target.
pub proof fn law_dispatch_stays_on_the_chain(
    r: RegistryView,
    caller: Seq<char>,
    request: RequestView,
    target: Seq<char>,
    also_allowed: Option<Seq<char>>,
)
    requires
        resolved_fault(r, caller, request, target, also_allowed) is None,
    ensures
        namespace_part(target) == namespace_part(caller) || namespace_part(target).len() == 0,
{
    law_chain_leads_upward(target, caller);
}

/// The grant for any plugin covers those of the caller's own namespace and no others.
pub proof fn law_a_wildcard_stays_in_its_namespace(
    r: RegistryView,
    caller: Seq<char>,
    target: Seq<char>,
)
    ensures
        grants_target(
            r,
            PermissionView::InvokePlugin(NamePatternView::Any),
            caller,
            target,
        ) <==> namespace_part(caller) == namespace_part(target),
{
}

/// A grant and the reference that it is for denote the same plugin: where a plugin holds the grant
/// for a name, dispatch to what the name denotes is allowed, on request and when it is resolved.
pub proof fn law_a_grant_covers_its_reference(
    r: RegistryView,
    caller: Seq<char>,
    name: Seq<char>,
    request: RequestView,
)
    requires
        list_at(r.permissions, caller).contains(
            PermissionView::InvokePlugin(NamePatternView::Exact(name)),
        ),
        !name.contains('/'),
    ensures
        request_fault(
            r,
            caller,
            RequestView::ByPlugin { plugin: denoted(r, caller, name) },
        ) is None,
        resolved_fault(r, caller, request, denoted(r, caller, name), None) is None,
{
    let grants = list_at(r.permissions, caller);
    let grant = PermissionView::InvokePlugin(NamePatternView::Exact(name));
    let i = choose|i: int| 0 <= i < grants.len() && grants[i] == grant;
    assert(grants_target(r, grants[i], caller, denoted(r, caller, name)));
    law_references_stay_on_the_chain(r, caller, name);
}

/// A plugin may always dispatch to itself.
pub proof fn law_a_plugin_reaches_itself(
    r: RegistryView,
    caller: Seq<char>,
    request: RequestView,
    also_allowed: Option<Seq<char>>,
)
    ensures
        request_fault(r, caller, RequestView::ByPlugin { plugin: caller }) is None,
        resolved_fault(r, caller, request, caller, also_allowed) is None,
{
    law_a_plugin_is_on_its_own_chain(caller, caller);
}

/// A plugin without grants, and one that is not registered, reaches nothing but itself.
pub proof fn law_nothing_is_reached_without_a_grant(
    r: RegistryView,
    caller: Seq<char>,
    target: Seq<char>,
    role: Seq<char>,
)
    requires
        list_at(r.permissions, caller).len() == 0,
        target != caller,
    ensures
        request_fault(r, caller, RequestView::ByPlugin { plugin: target }) is Some,
        request_fault(r, caller, RequestView::ByRole { role }) is Some,
        resolved_fault(
            r,
            caller,
            RequestView::ByPlugin { plugin: target },
            target,
            None,
        ) is Some,
        resolved_fault(r, caller, RequestView::ByRole { role }, target, None) is Some,
{
}

proof fn lemma_nearest_first(v: Seq<Seq<char>>, x: Seq<char>)
    requires
        nearest_first(v).contains(x),
    ensures
        v.contains(x),
{
    let near = v.filter(is_namespaced());
    let far = v.filter(is_root());
    let all = near + far;
    let i = choose|i: int| 0 <= i < all.len() && all[i] == x;
    if i < near.len() {
        assert(near[i] == x);
        lemma_filter_from(v, is_namespaced(), i);
    } else {
        assert(far[i - near.len()] == x);
        lemma_filter_from(v, is_root(), i - near.len());
    }
}

proof fn lemma_filter_from(v: Seq<Seq<char>>, p: spec_fn(Seq<char>) -> bool, i: int)
    requires
        0 <= i < v.filter(p).len(),
    ensures
        v.contains(v.filter(p)[i]),
        p(v.filter(p)[i]),
    decreases v.len(),
{
    reveal(Seq::filter);
    if v.len() > 0 {
        let rest = v.drop_last();
        if p(v.last()) && i == rest.filter(p).len() {
            assert(v[v.len() - 1] == v.last());
        } else {
            lemma_filter_from(rest, p, i);
            let x = rest.filter(p)[i];
            let j = choose|j: int| 0 <= j < rest.len() && rest[j] == x;
            assert(v[j] == x);
        }
    }
}

proof fn lemma_fulfillers(
    r: RegistryView,
    links: Seq<Seq<char>>,
    caller: Seq<char>,
    role: Seq<char>,
    i: int,
    x: Seq<char>,
)
    requires
        fulfillers(r, links, caller, role, i).contains(x),
        0 <= i,
    ensures
        on_chain(x, caller),
        exists|j: int|
            i <= j < links.len() && list_at(
                r.roles,
                qualified(#[trigger] links[j], role),
            ).contains(x),
    decreases links.len() - i,
{
    if i < links.len() {
        let bound = list_at(r.roles, qualified(links[i], role));
        let here = bound.filter(reachable_from(caller));
        if here.len() > 0 {
            lemma_nearest_first(here, x);
            let j = choose|j: int| 0 <= j < here.len() && here[j] == x;
            lemma_filter_from(bound, reachable_from(caller), j);
            assert(list_at(r.roles, qualified(links[i], role)).contains(x));
        } else {
            lemma_fulfillers(r, links, caller, role, i + 1, x);
        }
    }
}

/// The namespace that a caller looks from: the embedder's is the root.
pub open spec fn home(caller: Option<Seq<char>>) -> Seq<char> {
    match caller {
        Some(c) => namespace_part(c),
        None => Seq::empty(),
    }
}

/// Every plugin that a caller can be dispatched to for a role is on its chain, and fulfils the role
/// there: a plugin of a namespace is seen from that namespace and from nowhere else. The embedder
/// sees plugins of the root namespace only.
pub proof fn law_roles_are_fulfilled_on_the_chain(
    r: RegistryView,
    caller: Option<Seq<char>>,
    role: Seq<char>,
    x: Seq<char>,
)
    requires
        candidates_for(r, caller, role).contains(x),
    ensures
        match caller {
            Some(c) => on_chain(x, c),
            None => namespace_part(x).len() == 0,
        },
        exists|ns: Seq<char>|
            chain(home(caller)).contains(ns) && #[trigger] list_at(
                r.roles,
                qualified(ns, role),
            ).contains(x),
{
    let who = match caller {
        Some(c) => c,
        None => Seq::empty(),
    };
    let links = chain(namespace_part(who));
    lemma_fulfillers(r, links, who, role, 0, x);
    let j = choose|j: int|
        0 <= j < links.len() && list_at(r.roles, qualified(#[trigger] links[j], role)).contains(x);
    assert(links.contains(links[j]));
    assert(namespace_part(who) =~= home(caller));
    if caller is None {
        law_chain_leads_upward(x, who);
    }
}

/// A step type that a plugin can use is one of a plugin on its chain, and it is the plugin's own, or
/// free for all, or a grant covers it; an alias is never free for all.
pub proof fn law_step_types_are_the_plugins_own_or_granted(
    r: RegistryView,
    plugin: Seq<char>,
    allowed: Map<Seq<char>, Seq<char>>,
    owners: Map<Seq<char>, BodyOwnerView>,
    written: Seq<char>,
)
    requires
        is_access(r, plugin, allowed, owners),
        allowed.contains_key(written),
    ensures
        ({
            let key = allowed[written];
            ||| {
                &&& r.step_type_defs.contains_key(key)
                &&& r.step_type_defs[key].1.name == written
                &&& on_chain(r.step_type_defs[key].0, plugin)
                &&& r.step_type_defs[key].0 == plugin || r.step_type_defs[key].1.freely_usable
                    || holds_grant(r, plugin, written)
            }
            ||| {
                &&& r.aliases.contains_key(key)
                &&& local_part(key) == written
                &&& on_chain(r.aliases[key].0, plugin)
                &&& r.aliases[key].0 == plugin || holds_grant(r, plugin, written)
            }
        }),
{
    let links = chain(namespace_part(plugin));
    let i = choose|i: int|
        #[trigger] nearest_level(r, links, written, i) && usable_at(r, plugin, links[i], written);
    assert(nearest_level(r, links, written, i));
    assert(links.contains(links[i]));
}

/// A step type that stands nearer hides those that stand farther: where the nearest one by a name may
/// not be used, the name cannot be used at all.
pub proof fn law_a_nearer_step_type_hides_a_farther(
    r: RegistryView,
    plugin: Seq<char>,
    allowed: Map<Seq<char>, Seq<char>>,
    owners: Map<Seq<char>, BodyOwnerView>,
    written: Seq<char>,
    i: int,
)
    requires
        is_access(r, plugin, allowed, owners),
        nearest_level(r, chain(namespace_part(plugin)), written, i),
    ensures
        allowed.contains_key(written) <==> usable_at(
            r,
            plugin,
            chain(namespace_part(plugin))[i],
            written,
        ),
{
    let links = chain(namespace_part(plugin));
    if allowed.contains_key(written) {
        let k = choose|k: int|
            #[trigger] nearest_level(r, links, written, k) && usable_at(
                r,
                plugin,
                links[k],
                written,
            );
        if k < i {
            assert(!stands(r, links[k], written));
        } else if i < k {
            assert(!stands(r, links[i], written));
        }
    }
}

} // verus!
