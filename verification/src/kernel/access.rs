//! Which step types a plugin may use.

use vstd::prelude::*;

use crate::identity::{
    ancestor_namespaces, chain, local_name_of, local_part, namespace_of, namespace_part, qualified,
    qualify,
};
use crate::json::{lemma_object_view, Json, JsonView};
use crate::kernel::Kernel;
use crate::kernel::invoke::{keys_of_secrets, overridable_keys, secret_keys};
use crate::manifest::StepTypeDefView;
use crate::manifest_checks::{is_reserved_step_type, reserved_step_type};
use crate::outcomes::is_known;
use crate::permissions::{check_step_type, grants_step_type, step_type_granted, PermissionView};
use crate::registry::{at, list_at, lists, RegistryView};
use crate::table::{lemma_as_map, Table};
use crate::text::{cat5, has_char, same, texts};

verus! {

/// The plugin that ships the body of a step type, and the secrets that it declares.
pub struct BodyOwner {
    pub identity: String,
    pub declared_keys: Vec<String>,
    pub overridable_keys: Vec<String>,
}

/// What a [`BodyOwner`] stands for.
pub struct BodyOwnerView {
    pub identity: Seq<char>,
    pub declared_keys: Seq<Seq<char>>,
    pub overridable_keys: Seq<Seq<char>>,
}

impl DeepView for BodyOwner {
    type V = BodyOwnerView;

    open spec fn deep_view(&self) -> BodyOwnerView {
        BodyOwnerView {
            identity: self.identity@,
            declared_keys: texts(self.declared_keys@),
            overridable_keys: texts(self.overridable_keys@),
        }
    }
}

/// The step types that a plugin may use, decided before it runs.
pub struct StepTypeAccess {
    allowed: Table<String, String>,
    body_owners: Table<String, BodyOwner>,
}

/// The keys that a metadata schema declares: those of its properties.
pub open spec fn keys_declared(schema: Option<JsonView>) -> Seq<Seq<char>> {
    match schema {
        Some(s) => match s.get("properties"@) {
            Some(JsonView::Object(props)) => props.map_values(|e: (Seq<char>, JsonView)| e.0),
            _ => Seq::empty(),
        },
        None => Seq::empty(),
    }
}

/// The keys beside its result that the step type under `key` declares, where somebody defines it.
pub open spec fn declared_keys(r: RegistryView, key: Option<Seq<char>>) -> Option<Seq<Seq<char>>> {
    match key {
        Some(k) => match at(r.step_type_defs, k) {
            Some(def) => Some(keys_declared(def.1.metadata_schema)),
            None => None,
        },
        None => None,
    }
}

fn schema_keys(schema: &Option<Json>) -> (r: Vec<String>)
    ensures
        texts(r@) == keys_declared(schema.deep_view()),
{
    let mut r: Vec<String> = Vec::new();
    let ghost keys = keys_declared(schema.deep_view());
    if let Some(s) = schema {
        if let Some(Json::Object(props)) = s.get("properties") {
            proof {
                lemma_object_view(*props);
            }
            let mut i: usize = 0;
            while i < props.len()
                invariant
                    i <= props@.len(),
                    r@.len() == i,
                    forall|j: int| 0 <= j < i ==> (#[trigger] r@[j])@ == props@[j].0@,
                decreases props@.len() - i,
            {
                r.push(props[i].0.clone());
                i += 1;
            }
            assert(texts(r@) =~= keys);
            return r;
        }
    }
    assert(texts(r@) =~= keys);
    r
}

/// A grant of the plugin covers a step type as it is written.
pub open spec fn holds_grant(r: RegistryView, plugin: Seq<char>, written: Seq<char>) -> bool {
    list_at(r.permissions, plugin).contains(PermissionView::StepType(written))
}

/// A plugin can use the step type that is defined under `key` in `namespace` and written so: it is
/// its own, it is free for all, or a grant covers it.
pub open spec fn def_usable(
    r: RegistryView,
    plugin: Seq<char>,
    namespace: Seq<char>,
    written: Seq<char>,
    key: Seq<char>,
) -> bool {
    &&& r.step_type_defs.contains_key(key)
    &&& namespace_part(r.step_type_defs[key].0) == namespace
    &&& r.step_type_defs[key].1.name == written
    &&& r.step_type_defs[key].0 == plugin || r.step_type_defs[key].1.freely_usable || holds_grant(
        r,
        plugin,
        written,
    )
}

/// A plugin can use the alias under `key` in `namespace`: it is its own, or a grant covers it. An
/// alias runs its owner's action, so it is never free for all.
pub open spec fn alias_usable(
    r: RegistryView,
    plugin: Seq<char>,
    namespace: Seq<char>,
    written: Seq<char>,
    key: Seq<char>,
) -> bool {
    &&& r.aliases.contains_key(key)
    &&& namespace_part(r.aliases[key].0) == namespace
    &&& local_part(key) == written
    &&& r.aliases[key].0 == plugin || holds_grant(r, plugin, written)
}

/// Some step type that is defined in `namespace` and written so is usable.
pub open spec fn some_def(
    r: RegistryView,
    plugin: Seq<char>,
    namespace: Seq<char>,
    written: Seq<char>,
) -> bool {
    exists|key: Seq<char>| def_usable(r, plugin, namespace, written, key)
}

/// Some alias in `namespace` that is written so is usable.
pub open spec fn some_alias(
    r: RegistryView,
    plugin: Seq<char>,
    namespace: Seq<char>,
    written: Seq<char>,
) -> bool {
    exists|key: Seq<char>| alias_usable(r, plugin, namespace, written, key)
}

/// A step type that is written so is defined in `namespace`, or is an alias there, whoever may use it.
pub open spec fn stands(r: RegistryView, namespace: Seq<char>, written: Seq<char>) -> bool {
    ||| exists|key: Seq<char>| #[trigger] def_stands(r, namespace, written, key)
    ||| exists|key: Seq<char>| #[trigger] alias_stands(r, namespace, written, key)
}

/// A step type that is written so is defined under `key` in `namespace`.
pub open spec fn def_stands(
    r: RegistryView,
    namespace: Seq<char>,
    written: Seq<char>,
    key: Seq<char>,
) -> bool {
    &&& r.step_type_defs.contains_key(key)
    &&& namespace_part(r.step_type_defs[key].0) == namespace
    &&& r.step_type_defs[key].1.name == written
}

/// An alias that is written so stands under `key` in `namespace`.
pub open spec fn alias_stands(
    r: RegistryView,
    namespace: Seq<char>,
    written: Seq<char>,
    key: Seq<char>,
) -> bool {
    &&& r.aliases.contains_key(key)
    &&& namespace_part(r.aliases[key].0) == namespace
    &&& local_part(key) == written
}

/// A step type that is written so stands at the level `i` of the chain, and at none before it.
pub open spec fn nearest_level(
    r: RegistryView,
    links: Seq<Seq<char>>,
    written: Seq<char>,
    i: int,
) -> bool {
    &&& 0 <= i < links.len()
    &&& stands(r, links[i], written)
    &&& forall|j: int| 0 <= j < i ==> !stands(r, #[trigger] links[j], written)
}

/// A plugin can use a step type of `namespace` that is written so.
pub open spec fn usable_at(
    r: RegistryView,
    plugin: Seq<char>,
    namespace: Seq<char>,
    written: Seq<char>,
) -> bool {
    some_def(r, plugin, namespace, written) || some_alias(r, plugin, namespace, written)
}

/// What is known of the body of a step type that another plugin defines.
pub open spec fn owner_of_body(r: RegistryView, owner: Seq<char>) -> BodyOwnerView {
    BodyOwnerView {
        identity: owner,
        declared_keys: secret_keys(r.manifests[owner].uses_secrets),
        overridable_keys: overridable_keys(r.manifests[owner].uses_secrets),
    }
}

/// `allowed` maps what `plugin` can write to the key that it means: the nearest step type up its chain
/// that is written so, where the plugin can use it there, and an alias only where no definition at
/// the same level is usable. What stands nearer hides what stands farther, usable or not. `owners`
/// tells of the bodies among them that other plugins ship.
pub open spec fn is_access(
    r: RegistryView,
    plugin: Seq<char>,
    allowed: Map<Seq<char>, Seq<char>>,
    owners: Map<Seq<char>, BodyOwnerView>,
) -> bool {
    let links = chain(namespace_part(plugin));
    &&& forall|w: Seq<char>| #[trigger]
        allowed.contains_key(w) <==> exists|i: int|
            #[trigger] nearest_level(r, links, w, i) && usable_at(r, plugin, links[i], w)
    &&& forall|w: Seq<char>, i: int| #[trigger]
        nearest_level(r, links, w, i) && usable_at(r, plugin, links[i], w) ==> if some_def(
            r,
            plugin,
            links[i],
            w,
        ) {
            &&& def_usable(r, plugin, links[i], w, allowed[w])
            &&& owners.contains_key(w) <==> r.step_type_defs[allowed[w]].0 != plugin
                && r.manifests.contains_key(r.step_type_defs[allowed[w]].0)
            &&& owners.contains_key(w) ==> owners[w] == owner_of_body(
                r,
                r.step_type_defs[allowed[w]].0,
            )
        } else {
            alias_usable(r, plugin, links[i], w, allowed[w]) && !owners.contains_key(w)
        }
    &&& forall|w: Seq<char>| #[trigger] owners.contains_key(w) ==> allowed.contains_key(w)
}

impl StepTypeAccess {
    /// What can be written, and the keys that it means.
    pub closed spec fn allowed_view(&self) -> Map<Seq<char>, Seq<char>> {
        self.allowed.map()
    }

    /// What is known of bodies that other plugins ship.
    pub closed spec fn owners_view(&self) -> Map<Seq<char>, BodyOwnerView> {
        self.body_owners.map()
    }

    /// No name stands twice.
    pub closed spec fn wf(&self) -> bool {
        self.allowed.wf() && self.body_owners.wf()
    }

    /// No step types but the kernel's own.
    pub fn none() -> (r: Self)
        ensures
            r.wf(),
            r.allowed_view() == Map::<Seq<char>, Seq<char>>::empty(),
            r.owners_view() == Map::<Seq<char>, BodyOwnerView>::empty(),
    {
        StepTypeAccess { allowed: Table::new(), body_owners: Table::new() }
    }

    /// The key of the step type that is written so, where it may be used.
    pub open spec fn resolved(&self, written: Seq<char>) -> Option<Seq<char>> {
        if is_reserved_step_type(written) {
            Some(written)
        } else {
            at(self.allowed_view(), written)
        }
    }

    /// The key of the step type that is written so, where it may be used: the kernel's own always
    /// may.
    pub fn resolve(&self, written: &str) -> (r: Option<String>)
        requires
            self.wf(),
        ensures
            r.deep_view() == self.resolved(written@),
    {
        if reserved_step_type(written) {
            return Some(written.to_owned());
        }
        match self.allowed.get(&written.to_owned()) {
            Some(key) => Some(key.clone()),
            None => None,
        }
    }

    /// The plugin that ships the body of a step type, where it is another than the one that runs.
    pub fn body_owner(&self, written: &str) -> (r: Option<&BodyOwner>)
        requires
            self.wf(),
        ensures
            r.deep_view() == at(self.owners_view(), written@),
    {
        self.body_owners.get(&written.to_owned())
    }
}

/// The entry of a definition makes what is written so usable.
pub open spec fn entry_usable(
    r: RegistryView,
    plugin: Seq<char>,
    namespace: Seq<char>,
    written: Seq<char>,
    e: (Seq<char>, (Seq<char>, StepTypeDefView)),
) -> bool {
    &&& namespace_part(e.1.0) == namespace
    &&& e.1.1.name == written
    &&& e.1.0 == plugin || e.1.1.freely_usable || holds_grant(r, plugin, written)
}

proof fn lemma_def_entries(
    r: RegistryView,
    plugin: Seq<char>,
    namespace: Seq<char>,
    order: Seq<(Seq<char>, (Seq<char>, StepTypeDefView))>,
    written: Seq<char>,
)
    requires
        lists(order, r.step_type_defs),
    ensures
        some_def(r, plugin, namespace, written) <==> exists|k: int|
            0 <= k < order.len() && entry_usable(
                r,
                plugin,
                namespace,
                written,
                #[trigger] order[k],
            ),
        forall|k: int|
            0 <= k < order.len() && entry_usable(
                r,
                plugin,
                namespace,
                written,
                #[trigger] order[k],
            ) ==> def_usable(r, plugin, namespace, written, order[k].0)
                && r.step_type_defs[order[k].0] == order[k].1,
{
    lemma_as_map(order);
    if some_def(r, plugin, namespace, written) {
        let key = choose|key: Seq<char>| def_usable(r, plugin, namespace, written, key);
        let k = choose|k: int| 0 <= k < order.len() && (#[trigger] order[k]).0 == key;
        assert(entry_usable(r, plugin, namespace, written, order[k]));
    }
    assert forall|k: int|
        0 <= k < order.len() && entry_usable(
            r,
            plugin,
            namespace,
            written,
            #[trigger] order[k],
        ) implies def_usable(r, plugin, namespace, written, order[k].0)
        && r.step_type_defs[order[k].0] == order[k].1 by {}
}

/// What one level's definitions, the first `n` of them, add to an access in which some names are
/// taken.
pub open spec fn defs_added(
    r: RegistryView,
    plugin: Seq<char>,
    namespace: Seq<char>,
    order: Seq<(Seq<char>, (Seq<char>, StepTypeDefView))>,
    n: int,
    taken: Seq<Seq<char>>,
    a0: Map<Seq<char>, Seq<char>>,
    o0: Map<Seq<char>, BodyOwnerView>,
    a1: Map<Seq<char>, Seq<char>>,
    o1: Map<Seq<char>, BodyOwnerView>,
) -> bool {
    &&& forall|w: Seq<char>| #[trigger]
        a1.contains_key(w) <==> a0.contains_key(w) || (!taken.contains(w) && exists|k: int|
            0 <= k < n && entry_usable(r, plugin, namespace, w, #[trigger] order[k]))
    &&& forall|w: Seq<char>| #[trigger]
        a0.contains_key(w) ==> a1[w] == a0[w] && at(o1, w) == at(o0, w)
    &&& forall|w: Seq<char>|
        !a0.contains_key(w) && #[trigger] a1.contains_key(w) ==> {
            let owner = r.step_type_defs[a1[w]].0;
            &&& def_usable(r, plugin, namespace, w, a1[w])
            &&& o1.contains_key(w) <==> owner != plugin && r.manifests.contains_key(owner)
            &&& o1.contains_key(w) ==> o1[w] == owner_of_body(r, owner)
        }
    &&& forall|w: Seq<char>| #[trigger] o1.contains_key(w) ==> a1.contains_key(w)
}

impl<F: Fn(&str) -> Result<(), String>> Kernel<F> {
    fn has_step_type_grant(&self, plugin: &str, written: &str) -> (r: bool)
        requires
            self.wf(),
        ensures
            r == holds_grant(self@.registry, plugin@, written@),
    {
        let grants = self.registry.permissions_for(plugin);
        let ghost views = list_at(self@.registry.permissions, plugin@);
        proof {
            assert forall|i: int| 0 <= i < grants@.len() implies views[i] == #[trigger] grants@[i]@ by {}
            if step_type_granted(grants@, written@) {
                let i = choose|i: int|
                    0 <= i < grants@.len() && grants_step_type(#[trigger] grants@[i]@, written@);
                assert(views[i] == PermissionView::StepType(written@));
            }
            if views.contains(PermissionView::StepType(written@)) {
                let i = views.index_of(PermissionView::StepType(written@));
                assert(grants_step_type(grants@[i]@, written@));
            }
        }
        check_step_type(grants, written).is_granted()
    }

    fn allow_defs(
        &self,
        plugin: &str,
        namespace: &str,
        taken: &Vec<String>,
        access: &mut StepTypeAccess,
    )
        requires
            self.wf(),
            old(access).wf(),
            forall|w: Seq<char>| #[trigger]
                old(access).owners_view().contains_key(w) ==> old(
                    access,
                ).allowed_view().contains_key(w),
        ensures
            final(access).wf(),
            exists|order: Seq<(Seq<char>, (Seq<char>, StepTypeDefView))>|
                {
                    &&& #[trigger] lists(order, self@.registry.step_type_defs)
                    &&& defs_added(
                        self@.registry,
                        plugin@,
                        namespace@,
                        order,
                        order.len() as int,
                        texts(taken@),
                        old(access).allowed_view(),
                        old(access).owners_view(),
                        final(access).allowed_view(),
                        final(access).owners_view(),
                    )
                },
    {
        let ghost r = self@.registry;
        let ghost a0 = access.allowed_view();
        let ghost o0 = access.owners_view();
        let defs = self.registry.step_type_defs_iter();
        let ghost order = choose|order: Seq<(Seq<char>, (Seq<char>, StepTypeDefView))>|
            {
                &&& #[trigger] lists(order, r.step_type_defs)
                &&& defs@.len() == order.len()
                &&& forall|i: int|
                    0 <= i < order.len() ==> (#[trigger] defs@[i]).deep_view() == (
                        order[i].0,
                        order[i].1.0,
                        order[i].1.1,
                    )
            };
        let mut i: usize = 0;
        while i < defs.len()
            invariant
                i <= defs@.len(),
                self.wf(),
                access.wf(),
                r == self@.registry,
                lists(order, r.step_type_defs),
                defs@.len() == order.len(),
                forall|j: int|
                    0 <= j < order.len() ==> (#[trigger] defs@[j]).deep_view() == (
                        order[j].0,
                        order[j].1.0,
                        order[j].1.1,
                    ),
                defs_added(
                    r,
                    plugin@,
                    namespace@,
                    order,
                    i as int,
                    texts(taken@),
                    a0,
                    o0,
                    access.allowed_view(),
                    access.owners_view(),
                ),
            decreases defs@.len() - i,
        {
            let (key, owner, def) = defs[i];
            let ghost a1 = access.allowed_view();
            let ghost o1 = access.owners_view();
            let ghost w0 = def.name@;
            proof {
                assert(defs@[i as int].deep_view() == (key@, owner@, def.deep_view()));
                assert(order[i as int] == (key@, (owner@, def.deep_view())));
                lemma_def_entries(r, plugin@, namespace@, order, w0);
            }
            let written = def.name.as_str();
            if same(namespace_of(owner), namespace) && !is_known(taken, written)
                && !access.allowed.contains(&def.name) && (same(
                owner,
                plugin,
            ) || def.freely_usable || self.has_step_type_grant(plugin, written)) {
                access.allowed.insert(def.name.clone(), key.to_owned());
                if !same(owner, plugin) {
                    if let Some(m) = self.registry.get_manifest(owner) {
                        let (declared_keys, overridable_keys) = keys_of_secrets(&m.uses_secrets);
                        access.body_owners.insert(
                            def.name.clone(),
                            BodyOwner {
                                identity: owner.to_owned(),
                                declared_keys,
                                overridable_keys,
                            },
                        );
                    }
                }
                proof {
                    assert(entry_usable(r, plugin@, namespace@, w0, order[i as int]));
                    assert(!o1.contains_key(w0));
                    assert(access.allowed_view() == a1.insert(w0, key@));
                }
            }
            proof {
                let a2 = access.allowed_view();
                let o2 = access.owners_view();
                assert forall|w: Seq<char>| #[trigger]
                    a2.contains_key(w) <==> a0.contains_key(w) || (!texts(taken@).contains(w)
                        && exists|k: int|
                        0 <= k < i + 1 && entry_usable(
                            r,
                            plugin@,
                            namespace@,
                            w,
                            #[trigger] order[k],
                        )) by {
                    if entry_usable(r, plugin@, namespace@, w, order[i as int]) {
                        assert(w == w0);
                    }
                    assert(a1.contains_key(w) <==> a0.contains_key(w) || (!texts(
                        taken@,
                    ).contains(w) && exists|k: int|
                        0 <= k < i && entry_usable(
                            r,
                            plugin@,
                            namespace@,
                            w,
                            #[trigger] order[k],
                        )));
                }
                assert(defs_added(
                    r,
                    plugin@,
                    namespace@,
                    order,
                    i as int + 1,
                    texts(taken@),
                    a0,
                    o0,
                    a2,
                    o2,
                ));
            }
            i += 1;
        }
    }
}

/// The entry of an alias makes what is written so usable. `e` is the key with the alias's owner.
pub open spec fn alias_entry_usable(
    r: RegistryView,
    plugin: Seq<char>,
    namespace: Seq<char>,
    written: Seq<char>,
    e: (Seq<char>, (Seq<char>, Seq<char>)),
) -> bool {
    &&& namespace_part(e.1.0) == namespace
    &&& local_part(e.0) == written
    &&& e.1.0 == plugin || holds_grant(r, plugin, written)
}

proof fn lemma_alias_entries(
    r: RegistryView,
    plugin: Seq<char>,
    namespace: Seq<char>,
    order: Seq<(Seq<char>, (Seq<char>, Seq<char>))>,
    written: Seq<char>,
)
    requires
        lists(order, r.aliases),
    ensures
        some_alias(r, plugin, namespace, written) <==> exists|k: int|
            0 <= k < order.len() && alias_entry_usable(
                r,
                plugin,
                namespace,
                written,
                #[trigger] order[k],
            ),
        forall|k: int|
            0 <= k < order.len() && alias_entry_usable(
                r,
                plugin,
                namespace,
                written,
                #[trigger] order[k],
            ) ==> alias_usable(r, plugin, namespace, written, order[k].0),
{
    lemma_as_map(order);
    if some_alias(r, plugin, namespace, written) {
        let key = choose|key: Seq<char>| alias_usable(r, plugin, namespace, written, key);
        let k = choose|k: int| 0 <= k < order.len() && (#[trigger] order[k]).0 == key;
        assert(alias_entry_usable(r, plugin, namespace, written, order[k]));
    }
    assert forall|k: int|
        0 <= k < order.len() && alias_entry_usable(
            r,
            plugin,
            namespace,
            written,
            #[trigger] order[k],
        ) implies alias_usable(r, plugin, namespace, written, order[k].0) by {}
}

/// What one level's aliases, the first `n` of them, add to an access in which some names are taken.
pub open spec fn aliases_added(
    r: RegistryView,
    plugin: Seq<char>,
    namespace: Seq<char>,
    order: Seq<(Seq<char>, (Seq<char>, Seq<char>))>,
    n: int,
    taken: Seq<Seq<char>>,
    a0: Map<Seq<char>, Seq<char>>,
    a1: Map<Seq<char>, Seq<char>>,
) -> bool {
    &&& forall|w: Seq<char>| #[trigger]
        a1.contains_key(w) <==> a0.contains_key(w) || (!taken.contains(w) && exists|k: int|
            0 <= k < n && alias_entry_usable(r, plugin, namespace, w, #[trigger] order[k]))
    &&& forall|w: Seq<char>| #[trigger] a0.contains_key(w) ==> a1[w] == a0[w]
    &&& forall|w: Seq<char>|
        !a0.contains_key(w) && #[trigger] a1.contains_key(w) ==> alias_usable(
            r,
            plugin,
            namespace,
            w,
            a1[w],
        )
}

impl<F: Fn(&str) -> Result<(), String>> Kernel<F> {
    fn allow_aliases(
        &self,
        plugin: &str,
        namespace: &str,
        taken: &Vec<String>,
        access: &mut StepTypeAccess,
    )
        requires
            self.wf(),
            old(access).wf(),
        ensures
            final(access).wf(),
            final(access).owners_view() == old(access).owners_view(),
            exists|order: Seq<(Seq<char>, (Seq<char>, Seq<char>))>|
                {
                    &&& #[trigger] lists(order, self@.registry.aliases)
                    &&& aliases_added(
                        self@.registry,
                        plugin@,
                        namespace@,
                        order,
                        order.len() as int,
                        texts(taken@),
                        old(access).allowed_view(),
                        final(access).allowed_view(),
                    )
                },
    {
        let ghost r = self@.registry;
        let ghost a0 = access.allowed_view();
        let ghost o0 = access.owners_view();
        let aliases = self.registry.step_type_aliases_iter();
        let ghost order = choose|order: Seq<(Seq<char>, (Seq<char>, Seq<char>))>|
            {
                &&& #[trigger] lists(order, r.aliases)
                &&& aliases@.len() == order.len()
                &&& forall|i: int|
                    0 <= i < order.len() ==> (#[trigger] aliases@[i]).deep_view() == (
                        order[i].0,
                        order[i].1.0,
                    )
            };
        let mut i: usize = 0;
        while i < aliases.len()
            invariant
                i <= aliases@.len(),
                self.wf(),
                access.wf(),
                access.owners_view() == o0,
                r == self@.registry,
                lists(order, r.aliases),
                aliases@.len() == order.len(),
                forall|j: int|
                    0 <= j < order.len() ==> (#[trigger] aliases@[j]).deep_view() == (
                        order[j].0,
                        order[j].1.0,
                    ),
                aliases_added(
                    r,
                    plugin@,
                    namespace@,
                    order,
                    i as int,
                    texts(taken@),
                    a0,
                    access.allowed_view(),
                ),
            decreases aliases@.len() - i,
        {
            let (key, owner) = aliases[i];
            let ghost a1 = access.allowed_view();
            let written = local_name_of(key);
            let ghost w0 = written@;
            proof {
                assert(aliases@[i as int].deep_view() == (key@, owner@));
                lemma_alias_entries(r, plugin@, namespace@, order, w0);
            }
            if same(namespace_of(owner), namespace) && !is_known(taken, written)
                && !access.allowed.contains(&written.to_owned()) && (same(owner, plugin) || self.has_step_type_grant(plugin, written)) {
                access.allowed.insert(written.to_owned(), key.to_owned());
                proof {
                    assert(alias_entry_usable(r, plugin@, namespace@, w0, order[i as int]));
                    assert(access.allowed_view() == a1.insert(w0, key@));
                }
            }
            proof {
                let a2 = access.allowed_view();
                assert forall|w: Seq<char>| #[trigger]
                    a2.contains_key(w) <==> a0.contains_key(w) || (!texts(taken@).contains(w)
                        && exists|k: int|
                        0 <= k < i + 1 && alias_entry_usable(
                            r,
                            plugin@,
                            namespace@,
                            w,
                            #[trigger] order[k],
                        )) by {
                    if alias_entry_usable(r, plugin@, namespace@, w, order[i as int]) {
                        assert(w == w0);
                    }
                    assert(a1.contains_key(w) <==> a0.contains_key(w) || (!texts(
                        taken@,
                    ).contains(w) && exists|k: int|
                        0 <= k < i && alias_entry_usable(
                            r,
                            plugin@,
                            namespace@,
                            w,
                            #[trigger] order[k],
                        )));
                }
                assert(aliases_added(
                    r,
                    plugin@,
                    namespace@,
                    order,
                    i as int + 1,
                    texts(taken@),
                    a0,
                    a2,
                ));
            }
            i += 1;
        }
    }
}

/// An access that covers the first `n` levels of a chain.
pub open spec fn covers_levels(
    r: RegistryView,
    plugin: Seq<char>,
    links: Seq<Seq<char>>,
    n: int,
    allowed: Map<Seq<char>, Seq<char>>,
    owners: Map<Seq<char>, BodyOwnerView>,
) -> bool {
    &&& forall|w: Seq<char>| #[trigger]
        allowed.contains_key(w) <==> exists|i: int|
            0 <= i < n && #[trigger] nearest_level(r, links, w, i) && usable_at(
                r,
                plugin,
                links[i],
                w,
            )
    &&& forall|w: Seq<char>, i: int|
        0 <= i < n && #[trigger] nearest_level(r, links, w, i) && usable_at(r, plugin, links[i], w)
            ==> if some_def(r, plugin, links[i], w) {
            &&& def_usable(r, plugin, links[i], w, allowed[w])
            &&& owners.contains_key(w) <==> r.step_type_defs[allowed[w]].0 != plugin
                && r.manifests.contains_key(r.step_type_defs[allowed[w]].0)
            &&& owners.contains_key(w) ==> owners[w] == owner_of_body(
                r,
                r.step_type_defs[allowed[w]].0,
            )
        } else {
            alias_usable(r, plugin, links[i], w, allowed[w]) && !owners.contains_key(w)
        }
    &&& forall|w: Seq<char>| #[trigger] owners.contains_key(w) ==> allowed.contains_key(w)
}

/// The names that stand at the first `n` levels of a chain.
pub open spec fn takes_levels(
    r: RegistryView,
    links: Seq<Seq<char>>,
    n: int,
    taken: Seq<Seq<char>>,
) -> bool {
    forall|w: Seq<char>| #[trigger]
        taken.contains(w) <==> exists|j: int| 0 <= j < n && stands(r, #[trigger] links[j], w)
}

/// What is usable at a level stands there.
proof fn lemma_usable_stands(
    r: RegistryView,
    plugin: Seq<char>,
    namespace: Seq<char>,
    w: Seq<char>,
)
    requires
        usable_at(r, plugin, namespace, w),
    ensures
        stands(r, namespace, w),
{
    if some_def(r, plugin, namespace, w) {
        let key = choose|key: Seq<char>| def_usable(r, plugin, namespace, w, key);
        assert(def_stands(r, namespace, w, key));
    } else {
        let key = choose|key: Seq<char>| alias_usable(r, plugin, namespace, w, key);
        assert(alias_stands(r, namespace, w, key));
    }
}

proof fn lemma_one_level(
    r: RegistryView,
    plugin: Seq<char>,
    links: Seq<Seq<char>>,
    n: int,
    taken: Seq<Seq<char>>,
    defs: Seq<(Seq<char>, (Seq<char>, StepTypeDefView))>,
    aliases: Seq<(Seq<char>, (Seq<char>, Seq<char>))>,
    a0: Map<Seq<char>, Seq<char>>,
    o0: Map<Seq<char>, BodyOwnerView>,
    a1: Map<Seq<char>, Seq<char>>,
    o1: Map<Seq<char>, BodyOwnerView>,
    a2: Map<Seq<char>, Seq<char>>,
)
    requires
        0 <= n < links.len(),
        covers_levels(r, plugin, links, n, a0, o0),
        takes_levels(r, links, n, taken),
        lists(defs, r.step_type_defs),
        lists(aliases, r.aliases),
        defs_added(r, plugin, links[n], defs, defs.len() as int, taken, a0, o0, a1, o1),
        aliases_added(r, plugin, links[n], aliases, aliases.len() as int, taken, a1, a2),
    ensures
        covers_levels(r, plugin, links, n + 1, a2, o1),
{
    assert forall|w: Seq<char>| #[trigger]
        a2.contains_key(w) <==> exists|i: int|
            0 <= i < n + 1 && #[trigger] nearest_level(r, links, w, i) && usable_at(
                r,
                plugin,
                links[i],
                w,
            ) by {
        lemma_def_entries(r, plugin, links[n], defs, w);
        lemma_alias_entries(r, plugin, links[n], aliases, w);
        assert(a1.contains_key(w) <==> a0.contains_key(w) || (!taken.contains(w) && some_def(
            r,
            plugin,
            links[n],
            w,
        )));
        assert(a2.contains_key(w) <==> a1.contains_key(w) || (!taken.contains(w) && some_alias(
            r,
            plugin,
            links[n],
            w,
        )));
        if a2.contains_key(w) {
            if a0.contains_key(w) {
                let i = choose|i: int|
                    0 <= i < n && #[trigger] nearest_level(r, links, w, i) && usable_at(
                        r,
                        plugin,
                        links[i],
                        w,
                    );
                assert(nearest_level(r, links, w, i));
            } else {
                lemma_usable_stands(r, plugin, links[n], w);
                assert forall|j: int| 0 <= j < n implies !stands(r, #[trigger] links[j], w) by {}
                assert(nearest_level(r, links, w, n));
            }
        }
        if exists|i: int|
            0 <= i < n + 1 && #[trigger] nearest_level(r, links, w, i) && usable_at(
                r,
                plugin,
                links[i],
                w,
            ) {
            let i = choose|i: int|
                0 <= i < n + 1 && #[trigger] nearest_level(r, links, w, i) && usable_at(
                    r,
                    plugin,
                    links[i],
                    w,
                );
            if i < n {
                assert(a0.contains_key(w));
            } else {
                assert(!taken.contains(w));
            }
        }
    }
    assert forall|w: Seq<char>, i: int|
        0 <= i < n + 1 && #[trigger] nearest_level(r, links, w, i) && usable_at(
            r,
            plugin,
            links[i],
            w,
        ) implies if some_def(r, plugin, links[i], w) {
        &&& def_usable(r, plugin, links[i], w, a2[w])
        &&& o1.contains_key(w) <==> r.step_type_defs[a2[w]].0 != plugin && r.manifests.contains_key(
            r.step_type_defs[a2[w]].0,
        )
        &&& o1.contains_key(w) ==> o1[w] == owner_of_body(r, r.step_type_defs[a2[w]].0)
    } else {
        alias_usable(r, plugin, links[i], w, a2[w]) && !o1.contains_key(w)
    } by {
        lemma_def_entries(r, plugin, links[n], defs, w);
        lemma_alias_entries(r, plugin, links[n], aliases, w);
        if i < n {
            assert(a0.contains_key(w));
            assert(a1.contains_key(w));
            assert(at(o1, w) == at(o0, w));
        } else {
            assert(!taken.contains(w));
            if a0.contains_key(w) {
                let j = choose|j: int|
                    0 <= j < n && #[trigger] nearest_level(r, links, w, j) && usable_at(
                        r,
                        plugin,
                        links[j],
                        w,
                    );
                assert(stands(r, links[j], w));
                assert(false);
            }
            if some_def(r, plugin, links[n], w) {
                assert(a1.contains_key(w));
                assert(a2[w] == a1[w]);
            } else {
                assert(!a1.contains_key(w));
                assert(a2.contains_key(w));
            }
        }
    }
    assert forall|w: Seq<char>| #[trigger] o1.contains_key(w) implies a2.contains_key(w) by {
        assert(a1.contains_key(w));
    }
}

impl<F: Fn(&str) -> Result<(), String>> Kernel<F> {
    /// Adds the names that stand at a level.
    fn take_level(&self, namespace: &str, taken: &mut Vec<String>)
        requires
            self.wf(),
        ensures
            forall|w: Seq<char>| #[trigger]
                texts(final(taken)@).contains(w) <==> texts(old(taken)@).contains(w) || stands(
                    self@.registry,
                    namespace@,
                    w,
                ),
    {
        let ghost r = self@.registry;
        let ghost start = texts(taken@);
        let defs = self.registry.step_type_defs_iter();
        let ghost order = choose|order: Seq<(Seq<char>, (Seq<char>, StepTypeDefView))>|
            {
                &&& #[trigger] lists(order, r.step_type_defs)
                &&& defs@.len() == order.len()
                &&& forall|i: int|
                    0 <= i < order.len() ==> (#[trigger] defs@[i]).deep_view() == (
                        order[i].0,
                        order[i].1.0,
                        order[i].1.1,
                    )
            };
        proof {
            lemma_as_map(order);
        }
        let mut i: usize = 0;
        while i < defs.len()
            invariant
                i <= defs@.len(),
                r == self@.registry,
                lists(order, r.step_type_defs),
                defs@.len() == order.len(),
                forall|j: int|
                    0 <= j < order.len() ==> (#[trigger] defs@[j]).deep_view() == (
                        order[j].0,
                        order[j].1.0,
                        order[j].1.1,
                    ),
                forall|w: Seq<char>| #[trigger]
                    texts(taken@).contains(w) <==> start.contains(w) || exists|k: int|
                        0 <= k < i && namespace_part((#[trigger] order[k]).1.0) == namespace@
                            && order[k].1.1.name == w,
            decreases defs@.len() - i,
        {
            let (key, owner, def) = defs[i];
            let ghost before = texts(taken@);
            let ghost here = order[i as int];
            proof {
                assert(defs@[i as int].deep_view() == (key@, owner@, def.deep_view()));
                assert(here == (key@, (owner@, def.deep_view())));
            }
            if same(namespace_of(owner), namespace) {
                taken.push(def.name.clone());
                proof {
                    assert(texts(taken@) =~= before.push(def.name@));
                    lemma_push_contains(before, def.name@);
                }
            }
            i += 1;
            proof {
                assert forall|w: Seq<char>| #[trigger]
                    texts(taken@).contains(w) <==> start.contains(w) || exists|k: int|
                        0 <= k < i && namespace_part((#[trigger] order[k]).1.0) == namespace@
                            && order[k].1.1.name == w by {
                    assert(before.contains(w) <==> start.contains(w) || exists|k: int|
                        0 <= k < i - 1 && namespace_part((#[trigger] order[k]).1.0) == namespace@
                            && order[k].1.1.name == w);
                    if namespace_part(here.1.0) == namespace@ && here.1.1.name == w {
                        assert(order[i - 1] == here);
                    }
                }
            }
        }
        let ghost middle = texts(taken@);
        let aliases = self.registry.step_type_aliases_iter();
        let ghost named = choose|order: Seq<(Seq<char>, (Seq<char>, Seq<char>))>|
            {
                &&& #[trigger] lists(order, r.aliases)
                &&& aliases@.len() == order.len()
                &&& forall|i: int|
                    0 <= i < order.len() ==> (#[trigger] aliases@[i]).deep_view() == (
                        order[i].0,
                        order[i].1.0,
                    )
            };
        proof {
            lemma_as_map(named);
        }
        let mut i: usize = 0;
        while i < aliases.len()
            invariant
                i <= aliases@.len(),
                r == self@.registry,
                lists(named, r.aliases),
                aliases@.len() == named.len(),
                forall|j: int|
                    0 <= j < named.len() ==> (#[trigger] aliases@[j]).deep_view() == (
                        named[j].0,
                        named[j].1.0,
                    ),
                forall|w: Seq<char>| #[trigger]
                    texts(taken@).contains(w) <==> middle.contains(w) || exists|k: int|
                        0 <= k < i && namespace_part((#[trigger] named[k]).1.0) == namespace@
                            && local_part(named[k].0) == w,
            decreases aliases@.len() - i,
        {
            let (key, owner) = aliases[i];
            let ghost before = texts(taken@);
            let ghost here = named[i as int];
            proof {
                assert(aliases@[i as int].deep_view() == (key@, owner@));
            }
            if same(namespace_of(owner), namespace) {
                let written = local_name_of(key);
                taken.push(written.to_owned());
                proof {
                    assert(texts(taken@) =~= before.push(written@));
                    lemma_push_contains(before, written@);
                }
            }
            i += 1;
            proof {
                assert forall|w: Seq<char>| #[trigger]
                    texts(taken@).contains(w) <==> middle.contains(w) || exists|k: int|
                        0 <= k < i && namespace_part((#[trigger] named[k]).1.0) == namespace@
                            && local_part(named[k].0) == w by {
                    assert(before.contains(w) <==> middle.contains(w) || exists|k: int|
                        0 <= k < i - 1 && namespace_part((#[trigger] named[k]).1.0) == namespace@
                            && local_part(named[k].0) == w);
                    if namespace_part(here.1.0) == namespace@ && local_part(here.0) == w {
                        assert(named[i - 1] == here);
                    }
                }
            }
        }
        proof {
            assert forall|w: Seq<char>| #[trigger]
                texts(taken@).contains(w) <==> start.contains(w) || stands(r, namespace@, w) by {
                if stands(r, namespace@, w) {
                    if exists|key: Seq<char>| #[trigger] def_stands(r, namespace@, w, key) {
                        let key = choose|key: Seq<char>| #[trigger]
                            def_stands(r, namespace@, w, key);
                        let k = choose|k: int| 0 <= k < order.len() && (#[trigger] order[k]).0 == key;
                        assert(order[k].1.1.name == w);
                        assert(middle.contains(w));
                    } else {
                        let key = choose|key: Seq<char>| #[trigger]
                            alias_stands(r, namespace@, w, key);
                        let k = choose|k: int| 0 <= k < named.len() && (#[trigger] named[k]).0 == key;
                        assert(local_part(named[k].0) == w);
                    }
                }
                if middle.contains(w) && !start.contains(w) {
                    let k = choose|k: int|
                        0 <= k < order.len() && namespace_part((#[trigger] order[k]).1.0)
                            == namespace@ && order[k].1.1.name == w;
                    assert(def_stands(r, namespace@, w, order[k].0));
                }
                if texts(taken@).contains(w) && !middle.contains(w) {
                    let k = choose|k: int|
                        0 <= k < named.len() && namespace_part((#[trigger] named[k]).1.0)
                            == namespace@ && local_part(named[k].0) == w;
                    assert(alias_stands(r, namespace@, w, named[k].0));
                }
            }
        }
    }

    /// The keys beside its result that a step type declares, as a plugin writes it. There are none to go
    /// by where the plugin may not use it or nobody defines it.
    pub fn declared_metadata_keys(&self, access: &StepTypeAccess, written: &str) -> (r: Option<
        Vec<String>,
    >)
        requires
            self.wf(),
            access.wf(),
        ensures
            match r {
                Some(v) => Some(texts(v@)),
                None => None,
            } == declared_keys(self@.registry, access.resolved(written@)),
    {
        match access.resolve(written) {
            Some(key) => match self.registry.get_step_type_def(key.as_str()) {
                Some((_, def)) => Some(schema_keys(&def.metadata_schema)),
                None => None,
            },
            None => None,
        }
    }

    /// The step types that a plugin may use.
    pub fn step_type_access_for(&self, plugin: &str) -> (r: StepTypeAccess)
        requires
            self.wf(),
        ensures
            r.wf(),
            is_access(self@.registry, plugin@, r.allowed_view(), r.owners_view()),
    {
        let ghost r = self@.registry;
        let mut access = StepTypeAccess::none();
        let links = ancestor_namespaces(namespace_of(plugin));
        let ghost views = texts(links@);
        let mut taken: Vec<String> = Vec::new();
        let mut i: usize = 0;
        while i < links.len()
            invariant
                i <= links@.len(),
                self.wf(),
                access.wf(),
                r == self@.registry,
                views == texts(links@),
                views == chain(namespace_part(plugin@)),
                takes_levels(r, views, i as int, texts(taken@)),
                covers_levels(
                    r,
                    plugin@,
                    views,
                    i as int,
                    access.allowed_view(),
                    access.owners_view(),
                ),
            decreases links@.len() - i,
        {
            assert(views[i as int] == links@[i as int]@);
            let ghost a0 = access.allowed_view();
            let ghost o0 = access.owners_view();
            let ghost t0 = texts(taken@);
            self.allow_defs(plugin, links[i].as_str(), &taken, &mut access);
            let ghost a1 = access.allowed_view();
            let ghost o1 = access.owners_view();
            self.allow_aliases(plugin, links[i].as_str(), &taken, &mut access);
            proof {
                let a2 = access.allowed_view();
                let defs = choose|order: Seq<(Seq<char>, (Seq<char>, StepTypeDefView))>|
                    {
                        &&& #[trigger] lists(order, r.step_type_defs)
                        &&& defs_added(
                            r,
                            plugin@,
                            views[i as int],
                            order,
                            order.len() as int,
                            t0,
                            a0,
                            o0,
                            a1,
                            o1,
                        )
                    };
                let aliases = choose|order: Seq<(Seq<char>, (Seq<char>, Seq<char>))>|
                    {
                        &&& #[trigger] lists(order, r.aliases)
                        &&& aliases_added(
                            r,
                            plugin@,
                            views[i as int],
                            order,
                            order.len() as int,
                            t0,
                            a1,
                            a2,
                        )
                    };
                lemma_one_level(
                    r,
                    plugin@,
                    views,
                    i as int,
                    t0,
                    defs,
                    aliases,
                    a0,
                    o0,
                    a1,
                    o1,
                    a2,
                );
            }
            self.take_level(links[i].as_str(), &mut taken);
            proof {
                assert forall|w: Seq<char>| #[trigger]
                    texts(taken@).contains(w) <==> exists|j: int|
                        0 <= j < i + 1 && stands(r, #[trigger] views[j], w) by {
                    if t0.contains(w) {
                        let j = choose|j: int| 0 <= j < i && stands(r, #[trigger] views[j], w);
                        assert(stands(r, views[j], w));
                    }
                    if exists|j: int| 0 <= j < i + 1 && stands(r, #[trigger] views[j], w) {
                        let j = choose|j: int| 0 <= j < i + 1 && stands(r, #[trigger] views[j], w);
                        if j < i {
                            assert(t0.contains(w));
                        }
                    }
                }
            }
            i += 1;
        }
        proof {
            let a = access.allowed_view();
            let o = access.owners_view();
            assert forall|w: Seq<char>| #[trigger]
                a.contains_key(w) <==> exists|i: int|
                    #[trigger] nearest_level(r, views, w, i) && usable_at(
                        r,
                        plugin@,
                        views[i],
                        w,
                    ) by {
                if exists|i: int|
                    #[trigger] nearest_level(r, views, w, i) && usable_at(r, plugin@, views[i], w) {
                    let i = choose|i: int|
                        #[trigger] nearest_level(r, views, w, i) && usable_at(
                            r,
                            plugin@,
                            views[i],
                            w,
                        );
                    assert(0 <= i < views.len());
                }
            }
            assert(is_access(r, plugin@, a, o));
        }
        access
    }
}

proof fn lemma_push_contains(v: Seq<Seq<char>>, x: Seq<char>)
    ensures
        forall|w: Seq<char>| #[trigger] v.push(x).contains(w) <==> v.contains(w) || w == x,
{
    assert forall|w: Seq<char>| #[trigger] v.push(x).contains(w) <==> v.contains(w) || w == x by {
        if v.push(x).contains(w) && w != x {
            let i = choose|i: int| 0 <= i < v.push(x).len() && v.push(x)[i] == w;
            assert(v[i] == w);
        }
        if v.contains(w) {
            let i = choose|i: int| 0 <= i < v.len() && v[i] == w;
            assert(v.push(x)[i] == w);
        }
        if w == x {
            assert(v.push(x)[v.len() as int] == x);
        }
    }
}

/// The key that a written step type has at a level of the chain.
pub open spec fn level_key(namespace: Seq<char>, step_type: Seq<char>) -> Seq<char> {
    if step_type.contains('.') {
        qualified(namespace, step_type)
    } else {
        step_type
    }
}

/// The words for a step type that a plugin defines and the caller may not use.
pub open spec fn defined_text(caller: Seq<char>, step_type: Seq<char>, owner: Seq<char>) -> Seq<
    char,
> {
    "plugin '"@ + caller + "' may not use step type '"@ + step_type
        + "', which is defined by plugin '"@ + owner + "'. Add \"step_type:"@ + step_type
        + "\" to this manifest's `permissions`, or — if the step type is safe for anyone to call — have '"@
        + owner + "' mark its `stepTypeDefs` entry \"freelyUsable\": true"@
}

/// The words for an alias that the caller may not use.
pub open spec fn alias_text(caller: Seq<char>, step_type: Seq<char>, owner: Seq<char>) -> Seq<char> {
    "plugin '"@ + caller + "' lacks step_type:"@ + step_type
        + " permission (add it to the manifest's `permissions` list). Step type '"@ + step_type
        + "' is an alias registered by plugin '"@ + owner
        + "', so using it dispatches into that plugin's action"@
}

/// The words for a step type that nobody defines.
pub open spec fn undefined_text(caller: Seq<char>, step_type: Seq<char>) -> Seq<char> {
    "plugin '"@ + caller + "' lacks step_type:"@ + step_type
        + " permission, and no registered `stepTypeDefs` entry or alias defines '"@ + step_type
        + "'"@
}

/// Why a plugin may not use a step type, from the level `i` of its chain on: by the plugin that defines
/// it, or has an alias so written, at the first level where one does; else that there is none.
pub open spec fn explained_from(
    r: RegistryView,
    caller: Seq<char>,
    links: Seq<Seq<char>>,
    step_type: Seq<char>,
    i: int,
) -> Seq<char>
    decreases links.len() - i,
{
    if i < 0 || i >= links.len() {
        undefined_text(caller, step_type)
    } else {
        let key = level_key(links[i], step_type);
        match at(r.step_type_defs, key) {
            Some(def) => defined_text(caller, step_type, def.0),
            None => match at(r.aliases, key) {
                Some(target) => alias_text(caller, step_type, target.0),
                None => explained_from(r, caller, links, step_type, i + 1),
            },
        }
    }
}

/// Why a plugin may not use a step type: by what it would have reached, the nearest that is so written
/// up its chain.
pub open spec fn explained(r: RegistryView, caller: Seq<char>, step_type: Seq<char>) -> Seq<char> {
    explained_from(r, caller, chain(namespace_part(caller)), step_type, 0)
}

/// A language with the module that runs it.
pub open spec fn runs_script(
    r: RegistryView,
    language: Seq<char>,
    module: std::sync::Arc<wasmtime::Module>,
) -> bool {
    match at(r.step_type_impls, ("script"@, Some(language))) {
        Some(e) => at(r.wasm_modules, (e.plugin, e.wasm_module)) == Some(module),
        None => false,
    }
}

impl<F: Fn(&str) -> Result<(), String>> Kernel<F> {
    /// Why a plugin may not use a step type.
    pub fn explain_step_type_refusal(&self, caller_plugin: &str, step_type: &str) -> (m: String)
        requires
            self.wf(),
        ensures
            m@ == explained(self@.registry, caller_plugin@, step_type@),
    {
        let ghost r = self@.registry;
        let links = ancestor_namespaces(namespace_of(caller_plugin));
        let ghost views = texts(links@);
        let dotted = has_char(step_type, '.');
        let mut i: usize = 0;
        while i < links.len()
            invariant
                i <= links@.len(),
                self.wf(),
                r == self@.registry,
                dotted == step_type@.contains('.'),
                views == texts(links@),
                views == chain(namespace_part(caller_plugin@)),
                explained(r, caller_plugin@, step_type@) == explained_from(
                    r,
                    caller_plugin@,
                    views,
                    step_type@,
                    i as int,
                ),
            decreases links@.len() - i,
        {
            assert(views[i as int] == links@[i as int]@);
            let key = if dotted {
                qualify(links[i].as_str(), step_type)
            } else {
                step_type.to_owned()
            };
            if let Some((owner, _)) = self.registry.get_step_type_def(key.as_str()) {
                let mut w = cat5(
                    "plugin '",
                    caller_plugin,
                    "' may not use step type '",
                    step_type,
                    "', which is defined by plugin '",
                );
                w.append(owner);
                w.append("'. Add \"step_type:");
                w.append(step_type);
                w.append(
                    "\" to this manifest's `permissions`, or — if the step type is safe for anyone to call — have '",
                );
                w.append(owner);
                w.append("' mark its `stepTypeDefs` entry \"freelyUsable\": true");
                return w;
            }
            let found = self.registry.step_type_alias_candidates(key.as_str());
            assert(found.deep_view().len() == found@.len());
            if found.len() > 0 {
                assert(found.deep_view()[0] == found@[0].deep_view());
                let mut w = cat5(
                    "plugin '",
                    caller_plugin,
                    "' lacks step_type:",
                    step_type,
                    " permission (add it to the manifest's `permissions` list). Step type '",
                );
                w.append(step_type);
                w.append("' is an alias registered by plugin '");
                w.append(found[0].0.as_str());
                w.append("', so using it dispatches into that plugin's action");
                return w;
            }
            i += 1;
        }
        let mut w = cat5(
            "plugin '",
            caller_plugin,
            "' lacks step_type:",
            step_type,
            " permission, and no registered `stepTypeDefs` entry or alias defines '",
        );
        w.append(step_type);
        w.append("'");
        w
    }

    /// The languages that can be run, each with its module.
    pub fn script_runtimes(&self) -> (out: Vec<(String, &std::sync::Arc<wasmtime::Module>)>)
        requires
            self.wf(),
        ensures
            forall|i: int, j: int|
                0 <= i < j < out@.len() ==> (#[trigger] out@[i]).0@ != (#[trigger] out@[j]).0@,
            forall|i: int|
                0 <= i < out@.len() ==> runs_script(
                    self@.registry,
                    (#[trigger] out@[i]).0@,
                    *out@[i].1,
                ),
            forall|language: Seq<char>, module: std::sync::Arc<wasmtime::Module>| #[trigger]
                runs_script(self@.registry, language, module) ==> exists|i: int|
                    0 <= i < out@.len() && (#[trigger] out@[i]).0@ == language && *out@[i].1
                        == module,
    {
        let ghost r = self@.registry;
        let languages = self.registry.step_type_impl_matches("script");
        let ghost views = languages.deep_view();
        let mut out: Vec<(String, &std::sync::Arc<wasmtime::Module>)> = Vec::new();
        let mut i: usize = 0;
        while i < languages.len()
            invariant
                i <= languages@.len(),
                self.wf(),
                r == self@.registry,
                views == languages.deep_view(),
                views.no_duplicates(),
                forall|a: int|
                    0 <= a < out@.len() ==> views.take(i as int).contains((#[trigger] out@[a]).0@),
                forall|a: int, b: int|
                    0 <= a < b < out@.len() ==> (#[trigger] out@[a]).0@ != (#[trigger] out@[b]).0@,
                forall|a: int|
                    0 <= a < out@.len() ==> runs_script(
                        r,
                        (#[trigger] out@[a]).0@,
                        *out@[a].1,
                    ),
                forall|j: int, module: std::sync::Arc<wasmtime::Module>|
                    0 <= j < i && #[trigger] runs_script(r, views[j], module) ==> exists|a: int|
                        0 <= a < out@.len() && (#[trigger] out@[a]).0@ == views[j] && *out@[a].1
                            == module,
            decreases languages@.len() - i,
        {
            let language = languages[i];
            let ghost before = out@;
            assert(views[i as int] == language@);
            let found = self.registry.step_type_impl_candidates("script", Some(language));
            if found.len() > 0 {
                let e = found[0];
                if let Some(module) = self.registry.get_plugin_wasm_module(
                    e.plugin.as_str(),
                    e.wasm_module.as_str(),
                ) {
                    out.push((language.to_owned(), module));
                }
            }
            proof {
                let seen = views.take(i as int);
                let more = views.take(i as int + 1);
                assert forall|a: int| 0 <= a < out@.len() implies more.contains(
                    (#[trigger] out@[a]).0@,
                ) by {
                    if a < before.len() {
                        assert(out@[a] == before[a]);
                        let q = seen.index_of(before[a].0@);
                        assert(more[q] == before[a].0@);
                    } else {
                        assert(more[i as int] == language@);
                    }
                }
                assert forall|a: int, b: int| 0 <= a < b < out@.len() implies (
                #[trigger] out@[a]).0@ != (#[trigger] out@[b]).0@ by {
                    assert(out@[a] == before[a]);
                    if b < before.len() {
                        assert(out@[b] == before[b]);
                    } else {
                        let q = seen.index_of(before[a].0@);
                        assert(views[q] == before[a].0@);
                        assert(views[i as int] == language@);
                    }
                }
                assert forall|j: int, module: std::sync::Arc<wasmtime::Module>|
                    0 <= j < i + 1 && #[trigger] runs_script(
                        r,
                        views[j],
                        module,
                    ) implies exists|a: int|
                    0 <= a < out@.len() && (#[trigger] out@[a]).0@ == views[j] && *out@[a].1
                        == module by {
                    if j < i {
                        let a = choose|a: int|
                            0 <= a < before.len() && (#[trigger] before[a]).0@ == views[j]
                                && *before[a].1 == module;
                        assert(out@[a] == before[a]);
                    } else {
                        assert(out@[before.len() as int].0@ == language@);
                    }
                }
            }
            i += 1;
        }
        proof {
            assert forall|language: Seq<char>, module: std::sync::Arc<wasmtime::Module>| #[trigger]
                runs_script(r, language, module) implies exists|a: int|
                0 <= a < out@.len() && (#[trigger] out@[a]).0@ == language && *out@[a].1
                    == module by {
                assert(r.step_type_impls.contains_key(("script"@, Some(language))));
                assert(views.contains(language));
                let j = views.index_of(language);
                assert(runs_script(r, views[j], module));
            }
        }
        out
    }
}

} // verus!
