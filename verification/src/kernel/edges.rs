//! What the steps of a manifest that is about to be registered refer to.

use vstd::prelude::*;

use crate::identity::{ancestor_namespaces, chain, namespace_of, namespace_part, qualified, qualify};
use crate::kernel::Kernel;
use crate::manifest::{Action, StepTypeDef, StepTypeDefView};
use crate::manifest_checks::has_key;
use crate::registry::{at, RegistryView};
use crate::text::{has_char, same, texts};

verus! {

/// The action that a manifest's own alias stands for: that of the first alias so written.
pub open spec fn own_alias(aliases: Seq<(Seq<char>, Seq<char>)>, alias: Seq<char>, i: int) -> Option<
    Seq<char>,
>
    decreases aliases.len() - i,
{
    if i < 0 || i >= aliases.len() {
        None
    } else if aliases[i].0 == alias {
        Some(aliases[i].1)
    } else {
        own_alias(aliases, alias, i + 1)
    }
}

/// What a registered alias stands for at the first level, from `i` on, that has it. A definition so
/// written hides the aliases of the levels behind it.
pub open spec fn chain_alias(
    r: RegistryView,
    links: Seq<Seq<char>>,
    alias: Seq<char>,
    i: int,
) -> Option<(Seq<char>, Seq<char>)>
    decreases links.len() - i,
{
    if i < 0 || i >= links.len() {
        None
    } else if at(r.aliases, qualified(links[i], alias)) is Some {
        at(r.aliases, qualified(links[i], alias))
    } else if r.step_type_defs.contains_key(qualified(links[i], alias)) {
        None
    } else {
        chain_alias(r, links, alias, i + 1)
    }
}

/// The action that a step type stands for where it is an alias: one of the manifest's own comes
/// before the nearest up the plugin's chain, which a definition of the manifest hides. A step type
/// without a dot is none of another plugin.
pub open spec fn alias_target(
    r: RegistryView,
    plugin: Seq<char>,
    own: Seq<(Seq<char>, Seq<char>)>,
    defs: Seq<StepTypeDefView>,
    alias: Seq<char>,
) -> Option<(Seq<char>, Seq<char>)> {
    match own_alias(own, alias, 0) {
        Some(action) => Some((plugin, action)),
        None => if alias.contains('.') && own_def(defs, alias) is None {
            chain_alias(r, chain(namespace_part(plugin)), alias, 0)
        } else {
            None
        },
    }
}

/// The definition of a step type among those of a manifest: the last so named.
pub open spec fn own_def(defs: Seq<StepTypeDefView>, step_type: Seq<char>) -> Option<StepTypeDefView>
    decreases defs.len(),
{
    if defs.len() == 0 {
        None
    } else if defs.last().name == step_type {
        Some(defs.last())
    } else {
        own_def(defs.drop_last(), step_type)
    }
}

/// The definition of a step type: one of the manifest's own comes before a registered one.
pub open spec fn def_target(r: RegistryView, own: Seq<StepTypeDefView>, step_type: Seq<char>) -> Option<
    StepTypeDefView,
> {
    match own_def(own, step_type) {
        Some(d) => Some(d),
        None => match at(r.step_type_defs, step_type) {
            Some(d) => Some(d.1),
            None => None,
        },
    }
}

fn find_own_def<'a>(own: &'a Vec<StepTypeDef>, step_type: &str) -> (r: Option<&'a StepTypeDef>)
    ensures
        r.deep_view() == own_def(own.deep_view(), step_type@),
{
    let ghost views = own.deep_view();
    assert(views.len() == own@.len());
    let mut i: usize = own.len();
    assert(views.take(i as int) =~= views);
    while i > 0
        invariant
            i <= own@.len(),
            views == own.deep_view(),
            views.len() == own@.len(),
            own_def(views, step_type@) == own_def(views.take(i as int), step_type@),
        decreases i,
    {
        i -= 1;
        proof {
            assert(views.take(i as int + 1).drop_last() =~= views.take(i as int));
            assert(views[i as int] == own@[i as int].deep_view());
        }
        if same(own[i].name.as_str(), step_type) {
            return Some(&own[i]);
        }
    }
    None
}

impl<F: Fn(&str) -> Result<(), String>> Kernel<F> {
    /// The action that a step type stands for where it is an alias, for a plugin that is about to be
    /// registered with aliases and definitions of its own.
    pub fn resolve_alias(
        &self,
        plugin: &str,
        own: &Vec<(String, String)>,
        defs: &Vec<StepTypeDef>,
        alias: &str,
    ) -> (r: Option<(String, String)>)
        requires
            self.wf(),
        ensures
            r.deep_view() == alias_target(
                self@.registry,
                plugin@,
                own.deep_view(),
                defs.deep_view(),
                alias@,
            ),
    {
        let ghost views = own.deep_view();
        assert(views.len() == own@.len());
        let mut i: usize = 0;
        while i < own.len()
            invariant
                i <= own@.len(),
                views == own.deep_view(),
                views.len() == own@.len(),
                own_alias(views, alias@, 0) == own_alias(views, alias@, i as int),
            decreases own@.len() - i,
        {
            assert(views[i as int] == own@[i as int].deep_view());
            if same(own[i].0.as_str(), alias) {
                return Some((plugin.to_owned(), own[i].1.clone()));
            }
            i += 1;
        }
        if !has_char(alias, '.') || find_own_def(defs, alias).is_some() {
            return None;
        }
        let links = ancestor_namespaces(namespace_of(plugin));
        let ghost names = texts(links@);
        let mut i: usize = 0;
        while i < links.len()
            invariant
                i <= links@.len(),
                self.wf(),
                names == texts(links@),
                names == chain(namespace_part(plugin@)),
                alias@.contains('.'),
                own_alias(own.deep_view(), alias@, 0) is None,
                own_def(defs.deep_view(), alias@) is None,
                chain_alias(self@.registry, names, alias@, 0) == chain_alias(
                    self@.registry,
                    names,
                    alias@,
                    i as int,
                ),
            decreases links@.len() - i,
        {
            assert(names[i as int] == links@[i as int]@);
            let key = qualify(links[i].as_str(), alias);
            let found = self.registry.step_type_alias_candidates(key.as_str());
            assert(found.deep_view().len() == found@.len());
            if found.len() > 0 {
                assert(found.deep_view()[0] == found@[0].deep_view());
                return Some((found[0].0.clone(), found[0].1.clone()));
            }
            if self.registry.get_step_type_def(key.as_str()).is_some() {
                return None;
            }
            i += 1;
        }
        None
    }

    /// The definition of a step type, for a plugin that is about to be registered with definitions of
    /// its own.
    pub fn resolve_step_type_def<'a>(&'a self, own: &'a Vec<StepTypeDef>, step_type: &str) -> (r:
        Option<&'a StepTypeDef>)
        requires
            self.wf(),
        ensures
            r.deep_view() == def_target(self@.registry, own.deep_view(), step_type@),
    {
        if let Some(d) = find_own_def(own, step_type) {
            return Some(d);
        }
        match self.registry.get_step_type_def(step_type) {
            Some((_, d)) => Some(d),
            None => None,
        }
    }

    /// Whether a plugin is there, or is the one that is about to be registered.
    pub fn plugin_exists(&self, plugin: &str, name: &str) -> (r: bool)
        requires
            self.wf(),
        ensures
            r == (name@ == plugin@ || self@.registry.manifests.contains_key(name@)),
    {
        same(name, plugin) || self.registry.has_plugin(name)
    }

    /// Whether a plugin has an action: the one that is about to be registered, those of its manifest.
    pub fn action_exists(
        &self,
        plugin: &str,
        own: &Vec<(String, Action)>,
        target_plugin: &str,
        target_action: &str,
    ) -> (r: bool)
        requires
            self.wf(),
        ensures
            r == if target_plugin@ == plugin@ {
                has_key(own.deep_view(), target_action@)
            } else {
                self@.registry.actions.contains_key((target_plugin@, target_action@))
            },
    {
        if !same(target_plugin, plugin) {
            return self.registry.get_action(target_plugin, target_action).is_some();
        }
        let ghost views = own.deep_view();
        assert(views.len() == own@.len());
        let mut i: usize = 0;
        while i < own.len()
            invariant
                i <= own@.len(),
                views == own.deep_view(),
                views.len() == own@.len(),
                target_plugin@ == plugin@,
                forall|j: int| 0 <= j < i ==> (#[trigger] views[j]).0 != target_action@,
            decreases own@.len() - i,
        {
            assert(views[i as int] == own@[i as int].deep_view());
            if same(own[i].0.as_str(), target_action) {
                return true;
            }
            i += 1;
        }
        false
    }
}

} // verus!
