//! Who may dispatch to whom.

use vstd::prelude::*;

use crate::error::{ErrorView, KernelError};
use crate::identity::{
    ancestor_namespaces, chain, is_on_chain, local_name_of, local_part, namespace_of,
    namespace_part, on_chain, plugin_reference_candidates, qualified, qualified_reference_fault,
    qualify, reference_candidates, same_namespace, NameError,
};
use crate::kernel::Kernel;
use crate::permissions::{
    check_invoke_role, decides, grants_role, role_granted, NamePattern, NamePatternView,
    Permission, PermissionCheck, PermissionView,
};
use crate::registry::{list_at, RegistryView};
use crate::step_shapes::tells;
use crate::text::{cat2, cat3, cat5, same, texts};

verus! {

/// What a plugin asks to dispatch to.
pub enum DispatchRequest<'a> {
    ByPlugin { plugin: &'a str },
    ByRole { role: &'a str },
}

/// What a [`DispatchRequest`] stands for.
pub enum RequestView {
    ByPlugin { plugin: Seq<char> },
    ByRole { role: Seq<char> },
}

impl<'a> View for DispatchRequest<'a> {
    type V = RequestView;

    open spec fn view(&self) -> RequestView {
        match self {
            DispatchRequest::ByPlugin { plugin } => RequestView::ByPlugin { plugin: plugin@ },
            DispatchRequest::ByRole { role } => RequestView::ByRole { role: role@ },
        }
    }
}

/// The first identity, from `i` on, under which a plugin is registered.
pub open spec fn first_registered(r: RegistryView, candidates: Seq<Seq<char>>, i: int) -> Option<
    Seq<char>,
>
    decreases candidates.len() - i,
{
    if i < 0 || i >= candidates.len() {
        None
    } else if r.manifests.contains_key(candidates[i]) {
        Some(candidates[i])
    } else {
        first_registered(r, candidates, i + 1)
    }
}

/// The identity that a bare reference of `caller` denotes: the nearest registered one up its chain,
/// or the nearest of all where none is registered.
pub open spec fn denoted(r: RegistryView, caller: Seq<char>, reference: Seq<char>) -> Seq<char> {
    let candidates = reference_candidates(caller, reference);
    match first_registered(r, candidates, 0) {
        Some(id) => id,
        None => candidates[0],
    }
}

/// A grant authorises dispatch from `caller` to the plugin `target`: any plugin of the caller's own
/// namespace, or the plugin that a bare name denotes.
pub open spec fn grants_target(
    r: RegistryView,
    p: PermissionView,
    caller: Seq<char>,
    target: Seq<char>,
) -> bool {
    match p {
        PermissionView::InvokePlugin(NamePatternView::Any) => namespace_part(caller)
            == namespace_part(target),
        PermissionView::InvokePlugin(NamePatternView::Exact(name)) => !name.contains('/')
            && denoted(r, caller, name) == target,
        _ => false,
    }
}

/// Some grant of `caller` authorises dispatch to the plugin `target`.
pub open spec fn target_granted(r: RegistryView, caller: Seq<char>, target: Seq<char>) -> bool {
    exists|i: int|
        0 <= i < list_at(r.permissions, caller).len() && grants_target(
            r,
            #[trigger] list_at(r.permissions, caller)[i],
            caller,
            target,
        )
}

/// Some grant of `caller` authorises dispatch by `role`.
pub open spec fn caller_has_role(r: RegistryView, caller: Seq<char>, role: Seq<char>) -> bool {
    exists|i: int|
        0 <= i < list_at(r.permissions, caller).len() && grants_role(
            #[trigger] list_at(r.permissions, caller)[i],
            role,
        )
}

/// What is reported of a dispatch that the caller's grants do not cover, where they do not: a plugin
/// may always ask for itself.
pub open spec fn request_fault(r: RegistryView, caller: Seq<char>, request: RequestView) -> Option<
    Seq<char>,
> {
    match request {
        RequestView::ByPlugin { plugin } => if plugin == caller || target_granted(
            r,
            caller,
            plugin,
        ) {
            None
        } else {
            Some(lacks_text(caller, "invoke:plugin:"@ + local_part(plugin)))
        },
        RequestView::ByRole { role } => if caller_has_role(r, caller, role) {
            None
        } else {
            Some(lacks_text(caller, "invoke:role:"@ + role))
        },
    }
}

/// The words for a grant that is missing.
pub open spec fn lacks_text(caller: Seq<char>, requested: Seq<char>) -> Seq<char> {
    "plugin '"@ + caller + "' lacks "@ + requested
        + " permission (add it to the manifest's `permissions` list)"@
}

/// How a message speaks of what led to a target that the caller did not name.
pub open spec fn redirect_text(request: RequestView, target: Seq<char>) -> Seq<char> {
    match request {
        RequestView::ByPlugin { plugin } => if plugin != target {
            " (the dispatch orchestrator resolved the request for '"@ + plugin + "' to '"@ + target
                + "')"@
        } else {
            Seq::empty()
        },
        RequestView::ByRole { role } => " (role '"@ + role + "' resolved to '"@ + target + "')"@,
    }
}

/// What is reported of a dispatch to a resolved target that is not allowed: a target off the
/// caller's chain never is; else one is that is the caller itself, that is allowed besides, that a
/// grant names, or that was found for a granted role.
pub open spec fn resolved_fault(
    r: RegistryView,
    caller: Seq<char>,
    request: RequestView,
    target: Seq<char>,
    also_allowed: Option<Seq<char>>,
) -> Option<Seq<char>> {
    if !on_chain(target, caller) {
        Some(
            "plugin '"@ + caller + "' may not dispatch to '"@ + target
                + "': a plugin may only dispatch within its own namespace or into one enclosing it, never into a sibling or a descendant, and no permission grants passage otherwise"@,
        )
    } else if target == caller || also_allowed == Some(target) || target_granted(
        r,
        caller,
        target,
    ) || (request is ByRole && caller_has_role(r, caller, request->role)) {
        None
    } else {
        Some(
            "plugin '"@ + caller + "' lacks invoke:plugin:"@ + target + " permission"@
                + redirect_text(request, target)
                + " (add it to the manifest's `permissions` list)"@,
        )
    }
}

impl<F: Fn(&str) -> Result<(), String>> Kernel<F> {
    /// The identity that a bare reference of `caller_plugin` denotes.
    pub fn resolve_plugin_reference(&self, caller_plugin: &str, reference: &str) -> (r: Result<
        String,
        NameError,
    >)
        requires
            self.wf(),
        ensures
            match r {
                Ok(id) => !reference@.contains('/') && id@ == denoted(
                    self@.registry,
                    caller_plugin@,
                    reference@,
                ),
                Err(e) => reference@.contains('/') && e@ == qualified_reference_fault(
                    reference@,
                ),
            },
    {
        let candidates = plugin_reference_candidates(caller_plugin, reference)?;
        let ghost views = texts(candidates@);
        let mut i: usize = 0;
        while i < candidates.len()
            invariant
                i <= candidates@.len(),
                self.wf(),
                !reference@.contains('/'),
                views == texts(candidates@),
                views == reference_candidates(caller_plugin@, reference@),
                first_registered(self@.registry, views, 0) == first_registered(
                    self@.registry,
                    views,
                    i as int,
                ),
            decreases candidates@.len() - i,
        {
            assert(views[i as int] == candidates@[i as int]@);
            if self.registry.has_plugin(candidates[i].as_str()) {
                return Ok(candidates[i].clone());
            }
            i += 1;
        }
        assert(views[0] == candidates@[0]@);
        Ok(candidates[0].clone())
    }

    fn grant_covers(&self, grant: &Permission, caller_plugin: &str, target: &str) -> (r: bool)
        requires
            self.wf(),
        ensures
            r == grants_target(self@.registry, grant@, caller_plugin@, target@),
    {
        match grant {
            Permission::InvokePlugin(NamePattern::Any) => same_namespace(caller_plugin, target),
            Permission::InvokePlugin(NamePattern::Exact(name)) => {
                match self.resolve_plugin_reference(caller_plugin, name.as_str()) {
                    Ok(id) => same(id.as_str(), target),
                    Err(_) => false,
                }
            },
            _ => false,
        }
    }

    /// Whether the grants of `caller_plugin` authorise dispatch to the plugin `target`.
    pub fn check_invoke_plugin(&self, caller_plugin: &str, target: &str) -> (r: PermissionCheck)
        requires
            self.wf(),
        ensures
            decides(
                r,
                target_granted(self@.registry, caller_plugin@, target@),
                "invoke:plugin:"@ + local_part(target@),
            ),
    {
        let grants = self.registry.permissions_for(caller_plugin);
        let ghost views = list_at(self@.registry.permissions, caller_plugin@);
        let mut i: usize = 0;
        while i < grants.len()
            invariant
                i <= grants@.len(),
                self.wf(),
                views == grants.deep_view(),
                views == list_at(self@.registry.permissions, caller_plugin@),
                forall|j: int|
                    0 <= j < i ==> !grants_target(
                        self@.registry,
                        #[trigger] views[j],
                        caller_plugin@,
                        target@,
                    ),
            decreases grants@.len() - i,
        {
            assert(views[i as int] == grants@[i as int]@);
            if self.grant_covers(&grants[i], caller_plugin, target) {
                assert(grants_target(
                    self@.registry,
                    list_at(self@.registry.permissions, caller_plugin@)[i as int],
                    caller_plugin@,
                    target@,
                ));
                return PermissionCheck::Granted;
            }
            i += 1;
        }
        PermissionCheck::Denied { requested: cat2("invoke:plugin:", local_name_of(target)) }
    }

    fn check_role_of(&self, caller_plugin: &str, role: &str) -> (r: PermissionCheck)
        requires
            self.wf(),
        ensures
            decides(
                r,
                caller_has_role(self@.registry, caller_plugin@, role@),
                "invoke:role:"@ + role@,
            ),
    {
        let grants = self.registry.permissions_for(caller_plugin);
        let ghost views = list_at(self@.registry.permissions, caller_plugin@);
        proof {
            assert(views == grants.deep_view());
            assert forall|i: int| 0 <= i < grants@.len() implies views[i] == #[trigger] grants@[i]@ by {}
            if role_granted(grants@, role@) {
                let i = choose|i: int|
                    0 <= i < grants@.len() && grants_role(#[trigger] grants@[i]@, role@);
                assert(grants_role(views[i], role@));
            }
            if caller_has_role(self@.registry, caller_plugin@, role@) {
                let i = choose|i: int|
                    0 <= i < views.len() && grants_role(#[trigger] views[i], role@);
                assert(grants_role(grants@[i]@, role@));
            }
        }
        check_invoke_role(grants, role)
    }

    /// Holds what a plugin asks for against its grants, before a target is picked.
    pub fn check_invoke_grant(&self, caller_plugin: &str, request: &DispatchRequest) -> (r: Result<
        (),
        String,
    >)
        requires
            self.wf(),
        ensures
            tells(
                r,
                request_fault(self@.registry, caller_plugin@, request@),
            ),
    {
        let answer = match request {
            DispatchRequest::ByPlugin { plugin } => {
                if same(plugin, caller_plugin) {
                    return Ok(());
                }
                self.check_invoke_plugin(caller_plugin, plugin)
            },
            DispatchRequest::ByRole { role } => self.check_role_of(caller_plugin, role),
        };
        match answer {
            PermissionCheck::Granted => Ok(()),
            PermissionCheck::Denied { requested } => Err(
                cat5(
                    "plugin '",
                    caller_plugin,
                    "' lacks ",
                    requested.as_str(),
                    " permission (add it to the manifest's `permissions` list)",
                ),
            ),
        }
    }

    /// Holds the target that was picked for a plugin's request against the plugin's place and its
    /// grants.
    pub fn authorize_resolved_dispatch(
        &self,
        caller_plugin: &str,
        request: &DispatchRequest,
        target: &str,
        also_allowed: Option<&str>,
    ) -> (r: Result<(), String>)
        requires
            self.wf(),
        ensures
            tells(
                r,
                resolved_fault(
                    self@.registry,
                    caller_plugin@,
                    request@,
                    target@,
                    also_allowed.deep_view(),
                ),
            ),
    {
        // The place comes first: an alias of another namespace must not wave a target through.
        if !is_on_chain(target, caller_plugin) {
            return Err(
                cat5(
                    "plugin '",
                    caller_plugin,
                    "' may not dispatch to '",
                    target,
                    "': a plugin may only dispatch within its own namespace or into one enclosing it, never into a sibling or a descendant, and no permission grants passage otherwise",
                ),
            );
        }
        if same(target, caller_plugin) {
            return Ok(());
        }
        if let Some(allowed) = also_allowed {
            if same(allowed, target) {
                return Ok(());
            }
        }
        if self.check_invoke_plugin(caller_plugin, target).is_granted() {
            return Ok(());
        }
        if let DispatchRequest::ByRole { role } = request {
            if self.check_role_of(caller_plugin, role).is_granted() {
                return Ok(());
            }
        }
        let mut w = cat5("plugin '", caller_plugin, "' lacks invoke:plugin:", target, " permission");
        let redirect = redirect_words(request, target);
        w.append(redirect.as_str());
        w.append(" (add it to the manifest's `permissions` list)");
        Err(w)
    }
}

fn redirect_words(request: &DispatchRequest, target: &str) -> (r: String)
    ensures
        r@ == redirect_text(request@, target@),
{
    match request {
        DispatchRequest::ByPlugin { plugin } => if same(plugin, target) {
            let e = String::new();
            assert(e@ =~= Seq::empty());
            e
        } else {
            cat5(
                " (the dispatch orchestrator resolved the request for '",
                plugin,
                "' to '",
                target,
                "')",
            )
        },
        DispatchRequest::ByRole { role } => cat5(
            " (role '",
            role,
            "' resolved to '",
            target,
            "')",
        ),
    }
}

/// Plugins on the chain of `caller`.
pub open spec fn reachable_from(caller: Seq<char>) -> spec_fn(Seq<char>) -> bool {
    |c: Seq<char>| on_chain(c, caller)
}

/// Plugins outside the root namespace.
pub open spec fn is_namespaced() -> spec_fn(Seq<char>) -> bool {
    |c: Seq<char>| namespace_part(c).len() > 0
}

/// Plugins in the root namespace.
pub open spec fn is_root() -> spec_fn(Seq<char>) -> bool {
    |c: Seq<char>| namespace_part(c).len() == 0
}

/// Plugins in their order, those of a namespace before those of the root.
pub open spec fn nearest_first(v: Seq<Seq<char>>) -> Seq<Seq<char>> {
    v.filter(is_namespaced()) + v.filter(is_root())
}

/// The plugins that fulfil a role for `caller` at the first level, from `i` on, of its chain that
/// has any.
pub open spec fn fulfillers(
    r: RegistryView,
    links: Seq<Seq<char>>,
    caller: Seq<char>,
    role: Seq<char>,
    i: int,
) -> Seq<Seq<char>>
    decreases links.len() - i,
{
    if i < 0 || i >= links.len() {
        Seq::empty()
    } else {
        let here = list_at(r.roles, qualified(links[i], role)).filter(reachable_from(caller));
        if here.len() > 0 {
            nearest_first(here)
        } else {
            fulfillers(r, links, caller, role, i + 1)
        }
    }
}

/// The plugins that `caller` may be dispatched to for a role, nearest first. The embedder, who is no
/// plugin, has the view of the root namespace.
pub open spec fn candidates_for(r: RegistryView, caller: Option<Seq<char>>, role: Seq<char>) -> Seq<
    Seq<char>,
> {
    let who = match caller {
        Some(c) => c,
        None => Seq::empty(),
    };
    fulfillers(r, chain(namespace_part(who)), who, role, 0)
}

fn keep_reachable(v: Vec<String>, caller: &str) -> (r: Vec<String>)
    ensures
        r.deep_view() == v.deep_view().filter(reachable_from(caller@)),
{
    let ghost views = v.deep_view();
    let mut r: Vec<String> = Vec::new();
    proof {
        assert(views.take(0).filter(reachable_from(caller@)) =~= Seq::empty()) by {
            reveal(Seq::filter);
        }
        assert(r.deep_view() =~= Seq::empty());
    }
    let mut i: usize = 0;
    while i < v.len()
        invariant
            i <= v@.len(),
            views == v.deep_view(),
            r.deep_view() == views.take(i as int).filter(reachable_from(caller@)),
        decreases v@.len() - i,
    {
        let ghost so_far = r.deep_view();
        let ghost t = views.take(i as int + 1);
        proof {
            assert(t.drop_last() =~= views.take(i as int));
            assert(t.last() == v@[i as int]@);
            reveal(Seq::filter);
        }
        if is_on_chain(v[i].as_str(), caller) {
            r.push(v[i].clone());
            assert(r.deep_view() =~= so_far.push(t.last()));
        }
        i += 1;
    }
    assert(views.take(views.len() as int) =~= views);
    r
}

fn order_nearest(v: &Vec<String>) -> (r: Vec<String>)
    ensures
        r.deep_view() == nearest_first(v.deep_view()),
{
    let ghost views = v.deep_view();
    let mut near: Vec<String> = Vec::new();
    let mut far: Vec<String> = Vec::new();
    proof {
        assert(views.take(0).filter(is_namespaced()) =~= Seq::empty()) by {
            reveal(Seq::filter);
        }
        assert(views.take(0).filter(is_root()) =~= Seq::empty()) by {
            reveal(Seq::filter);
        }
        assert(near.deep_view() =~= Seq::empty());
        assert(far.deep_view() =~= Seq::empty());
    }
    let mut i: usize = 0;
    while i < v.len()
        invariant
            i <= v@.len(),
            views == v.deep_view(),
            near.deep_view() == views.take(i as int).filter(is_namespaced()),
            far.deep_view() == views.take(i as int).filter(is_root()),
        decreases v@.len() - i,
    {
        let ghost n = near.deep_view();
        let ghost f = far.deep_view();
        let ghost t = views.take(i as int + 1);
        proof {
            assert(t.drop_last() =~= views.take(i as int));
            assert(t.last() == v@[i as int]@);
            reveal(Seq::filter);
        }
        if namespace_of(v[i].as_str()).unicode_len() > 0 {
            near.push(v[i].clone());
            assert(near.deep_view() =~= n.push(t.last()));
        } else {
            far.push(v[i].clone());
            assert(far.deep_view() =~= f.push(t.last()));
        }
        i += 1;
    }
    assert(views.take(views.len() as int) =~= views);
    let ghost n = near.deep_view();
    let ghost f = far.deep_view();
    near.append(&mut far);
    assert(near.deep_view() =~= n + f);
    near
}

impl<F: Fn(&str) -> Result<(), String>> Kernel<F> {
    /// The plugins that `caller_plugin` may be dispatched to for a role, nearest first.
    pub fn role_candidates(&self, caller_plugin: Option<&str>, role: &str) -> (r: Vec<String>)
        requires
            self.wf(),
        ensures
            r.deep_view() == candidates_for(self@.registry, caller_plugin.deep_view(), role@),
    {
        proof {
            reveal_strlit("");
            assert(""@ =~= Seq::<char>::empty());
        }
        let caller = match caller_plugin {
            Some(c) => c,
            None => "",
        };
        let links = ancestor_namespaces(namespace_of(caller));
        let ghost views = texts(links@);
        let mut i: usize = 0;
        while i < links.len()
            invariant
                i <= links@.len(),
                self.wf(),
                views == texts(links@),
                views == chain(namespace_part(caller@)),
                candidates_for(self@.registry, caller_plugin.deep_view(), role@) == fulfillers(
                    self@.registry,
                    views,
                    caller@,
                    role@,
                    i as int,
                ),
            decreases links@.len() - i,
        {
            assert(views[i as int] == links@[i as int]@);
            let key = qualify(links[i].as_str(), role);
            let here = keep_reachable(self.registry.plugins_for_role(key.as_str()), caller);
            assert(here.deep_view().len() == here@.len());
            if here.len() > 0 {
                return order_nearest(&here);
            }
            i += 1;
        }
        let none: Vec<String> = Vec::new();
        assert(none.deep_view() =~= Seq::empty());
        none
    }

    /// The plugin that the embedder reaches by a role: the first that fulfils it in the root
    /// namespace.
    pub fn plugin_for_role(&self, role: &str) -> (r: Result<String, KernelError>)
        requires
            self.wf(),
        ensures
            match r {
                Ok(id) => candidates_for(self@.registry, None, role@).len() > 0
                    && candidates_for(self@.registry, None, role@)[0] == id@,
                Err(e) => candidates_for(self@.registry, None, role@).len() == 0 && e@
                    == ErrorView::NotFound(
                    "No plugin registered for role '"@ + role@ + "'"@,
                ),
            },
    {
        let found = self.role_candidates(None, role);
        assert(found.deep_view().len() == found@.len());
        if found.len() > 0 {
            assert(found.deep_view()[0] == found@[0]@);
            Ok(found[0].clone())
        } else {
            Err(
                KernelError::NotFound(
                    cat3("No plugin registered for role '", role, "'"),
                ),
            )
        }
    }
}

} // verus!
