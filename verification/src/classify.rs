//! What kind of document a manifest is.

use vstd::prelude::*;

use crate::error::{ErrorView, KernelError};
use crate::json::{entry_views, json_parsed, lemma_object_view, parse_json, Json, JsonView};
use crate::manifest::{ManifestView, PluginManifest};
use crate::text::cat2;

verus! {

/// The kind of a manifest.
#[derive(Debug, Clone, Copy, PartialEq, Eq, Structural)]
pub enum ManifestKind {
    /// A contract for a role: its actions declare what they take and give.
    SpiDef,
    /// A plugin: its actions have steps, or it has no actions and contributes step types or modules.
    Plugin,
}

/// What is made of a document from outside: whether it meets the schema of its kind, and the plugin
/// manifest that it spells.
pub struct Reading {
    pub schema: Result<(), String>,
    pub plugin: Result<PluginManifest, String>,
}

/// A manifest of a known kind.
pub enum ClassifiedManifest {
    SpiDef { role: String },
    Plugin(Box<PluginManifest>),
}

/// What a [`ClassifiedManifest`] stands for.
pub enum ClassifiedView {
    SpiDef { role: Seq<char> },
    Plugin(ManifestView),
}

impl View for ClassifiedManifest {
    type V = ClassifiedView;

    open spec fn view(&self) -> ClassifiedView {
        match self {
            ClassifiedManifest::SpiDef { role } => ClassifiedView::SpiDef { role: role@ },
            ClassifiedManifest::Plugin(m) => ClassifiedView::Plugin(m.deep_view()),
        }
    }
}

impl ClassifiedManifest {
    /// The kind of the manifest.
    pub fn kind(&self) -> (r: ManifestKind)
        ensures
            r == if self@ is SpiDef {
                ManifestKind::SpiDef
            } else {
                ManifestKind::Plugin
            },
    {
        match self {
            ClassifiedManifest::SpiDef { .. } => ManifestKind::SpiDef,
            ClassifiedManifest::Plugin(_) => ManifestKind::Plugin,
        }
    }
}

/// Some action in a map of actions has steps.
pub open spec fn any_steps(actions: Seq<(Seq<char>, JsonView)>) -> bool {
    exists|i: int| 0 <= i < actions.len() && (#[trigger] actions[i]).1.get("steps"@) is Some
}

/// The kind of a document by its shape: a plugin where an action has steps, or where there are no
/// actions but step types or modules; a contract where there are actions and none has steps.
pub open spec fn shape_of(doc: JsonView) -> Option<ManifestKind> {
    match doc.get("actions"@) {
        Some(JsonView::Object(actions)) => if any_steps(actions) {
            Some(ManifestKind::Plugin)
        } else {
            Some(ManifestKind::SpiDef)
        },
        _ => if doc.get("stepTypeDefs"@) is Some || doc.get("wasmModules"@) is Some || doc.get(
            "stepTypeImpls"@,
        ) is Some {
            Some(ManifestKind::Plugin)
        } else {
            None
        },
    }
}

/// What a document is classified as, or why it is not.
pub open spec fn classified(doc: JsonView, reading: Reading) -> Result<ClassifiedView, Seq<char>> {
    match shape_of(doc) {
        None => Err(
            "manifest is not a recognized shape: no top-level `actions`, and no `stepTypeDefs`/`wasmModules`"@,
        ),
        Some(kind) => match reading.schema {
            Err(e) => Err(e@),
            Ok(_) => match kind {
                ManifestKind::Plugin => match reading.plugin {
                    Ok(m) => Ok(ClassifiedView::Plugin(m.deep_view())),
                    Err(e) => Err("manifest fails PluginManifest parse: "@ + e@),
                },
                ManifestKind::SpiDef => match doc.get_str("name"@) {
                    Some(role) => Ok(ClassifiedView::SpiDef { role }),
                    None => Err("SPI definition manifest missing top-level `name` field"@),
                },
            },
        },
    }
}

/// What a text is classified as, or why it is not.
pub open spec fn classified_text(text: Seq<char>, reading: Reading) -> Result<
    ClassifiedView,
    Seq<char>,
> {
    match json_parsed(text) {
        Err(e) => Err("manifest is not valid JSON: "@ + e),
        Ok(doc) => classified(doc, reading),
    }
}

fn some_action_has_steps(actions: &Vec<(String, Json)>) -> (r: bool)
    ensures
        r == any_steps(entry_views(actions@)),
{
    let ghost views = entry_views(actions@);
    let mut i: usize = 0;
    while i < actions.len()
        invariant
            i <= actions@.len(),
            views == entry_views(actions@),
            forall|j: int| 0 <= j < i ==> (#[trigger] views[j]).1.get("steps"@) is None,
        decreases actions@.len() - i,
    {
        assert(views[i as int].1 == actions@[i as int].1@);
        if actions[i].1.get("steps").is_some() {
            return true;
        }
        i += 1;
    }
    false
}

/// The kind of a document by its shape.
pub fn manifest_shape(doc: &Json) -> (r: Option<ManifestKind>)
    ensures
        r == shape_of(doc@),
{
    if let Some(found) = doc.get("actions") {
        if let Json::Object(actions) = found {
            proof {
                lemma_object_view(*actions);
            }
            return if some_action_has_steps(actions) {
                Some(ManifestKind::Plugin)
            } else {
                Some(ManifestKind::SpiDef)
            };
        }
    }
    if doc.get("stepTypeDefs").is_some() || doc.get("wasmModules").is_some() || doc.get(
        "stepTypeImpls",
    ).is_some() {
        Some(ManifestKind::Plugin)
    } else {
        None
    }
}

/// Classifies a document, given what is made of it from outside.
pub fn classify_document(doc: &Json, reading: Reading) -> (r: Result<
    ClassifiedManifest,
    KernelError,
>)
    ensures
        match classified(doc@, reading) {
            Ok(c) => r is Ok && r->Ok_0@ == c,
            Err(e) => r is Err && r->Err_0@ == ErrorView::Validation(e),
        },
{
    let kind = match manifest_shape(doc) {
        Some(k) => k,
        None => {
            return Err(
                KernelError::Validation(
                    "manifest is not a recognized shape: no top-level `actions`, and no `stepTypeDefs`/`wasmModules`".to_owned(),
                ),
            );
        },
    };
    let Reading { schema, plugin } = reading;
    if let Err(e) = schema {
        return Err(KernelError::Validation(e));
    }
    match kind {
        ManifestKind::Plugin => match plugin {
            Ok(m) => Ok(ClassifiedManifest::Plugin(Box::new(m))),
            Err(e) => Err(
                KernelError::Validation(
                    cat2("manifest fails PluginManifest parse: ", e.as_str()),
                ),
            ),
        },
        ManifestKind::SpiDef => match doc.get_str("name") {
            Some(role) => Ok(ClassifiedManifest::SpiDef { role: role.to_owned() }),
            None => Err(
                KernelError::Validation(
                    "SPI definition manifest missing top-level `name` field".to_owned(),
                ),
            ),
        },
    }
}

/// Classifies a manifest by its text, given what is made of the document from outside.
pub fn classify_manifest(json: &str, reading: Reading) -> (r: Result<
    ClassifiedManifest,
    KernelError,
>)
    ensures
        match classified_text(json@, reading) {
            Ok(c) => r is Ok && r->Ok_0@ == c,
            Err(e) => r is Err && r->Err_0@ == ErrorView::Validation(e),
        },
{
    match parse_json(json) {
        Ok(doc) => classify_document(&doc, reading),
        Err(e) => Err(
            KernelError::Validation(cat2("manifest is not valid JSON: ", e.as_str())),
        ),
    }
}

} // verus!
