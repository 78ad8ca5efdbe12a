//! What a plugin declares of itself.

use vstd::prelude::*;

use crate::duplicate::Duplicate;
use crate::json::{json_kind, json_views, kind_text, lemma_get_size, size, Json, JsonView};
use crate::text::{cat2, cat3};

verus! {

/// The one format of a manifest that this kernel reads.
pub const SUPPORTED_FORMAT_VERSION: u64 = 1;

/// A step of an action.
#[derive(Debug)]
pub struct StepDef {
    pub id: String,
    pub step_type: String,
    pub params: Json,
    pub depends_on: Vec<String>,
    pub store_to_variable: Option<String>,
    pub long_running: bool,
}

/// What a [`StepDef`] stands for.
pub struct StepView {
    pub id: Seq<char>,
    pub step_type: Seq<char>,
    pub params: JsonView,
    pub depends_on: Seq<Seq<char>>,
    pub store_to_variable: Option<Seq<char>>,
    pub long_running: bool,
}

impl DeepView for StepDef {
    type V = StepView;

    open spec fn deep_view(&self) -> StepView {
        StepView {
            id: self.id@,
            step_type: self.step_type@,
            params: self.params@,
            depends_on: self.depends_on.deep_view(),
            store_to_variable: self.store_to_variable.deep_view(),
            long_running: self.long_running,
        }
    }
}

impl Duplicate for StepDef {
    fn duplicate(&self) -> (r: Self) {
        StepDef {
            id: self.id.clone(),
            step_type: self.step_type.clone(),
            params: self.params.clone(),
            depends_on: self.depends_on.duplicate(),
            store_to_variable: self.store_to_variable.duplicate(),
            long_running: self.long_running,
        }
    }
}

/// A description of an action for a caller that picks actions as tools.
#[derive(Debug)]
pub struct ToolBlock {
    pub name: String,
    pub description: String,
    pub parameters: Json,
}

/// What a [`ToolBlock`] stands for.
pub struct ToolView {
    pub name: Seq<char>,
    pub description: Seq<char>,
    pub parameters: JsonView,
}

impl DeepView for ToolBlock {
    type V = ToolView;

    open spec fn deep_view(&self) -> ToolView {
        ToolView {
            name: self.name@,
            description: self.description@,
            parameters: self.parameters@,
        }
    }
}

impl Duplicate for ToolBlock {
    fn duplicate(&self) -> (r: Self) {
        ToolBlock {
            name: self.name.clone(),
            description: self.description.clone(),
            parameters: self.parameters.clone(),
        }
    }
}

/// An action of a plugin.
#[derive(Debug)]
pub struct Action {
    pub steps: Vec<StepDef>,
    pub dataflow: bool,
    pub continuous: bool,
    pub parallel_waves: bool,
    pub wallclock_timeout_ms: Option<u64>,
    pub subscribes_to: Vec<String>,
    pub tool: Option<ToolBlock>,
}

/// What an [`Action`] stands for.
pub struct ActionView {
    pub steps: Seq<StepView>,
    pub dataflow: bool,
    pub continuous: bool,
    pub parallel_waves: bool,
    pub wallclock_timeout_ms: Option<u64>,
    pub subscribes_to: Seq<Seq<char>>,
    pub tool: Option<ToolView>,
}

impl DeepView for Action {
    type V = ActionView;

    open spec fn deep_view(&self) -> ActionView {
        ActionView {
            steps: self.steps.deep_view(),
            dataflow: self.dataflow,
            continuous: self.continuous,
            parallel_waves: self.parallel_waves,
            wallclock_timeout_ms: self.wallclock_timeout_ms,
            subscribes_to: self.subscribes_to.deep_view(),
            tool: self.tool.deep_view(),
        }
    }
}

impl Duplicate for Action {
    fn duplicate(&self) -> (r: Self) {
        Action {
            steps: self.steps.duplicate(),
            dataflow: self.dataflow,
            continuous: self.continuous,
            parallel_waves: self.parallel_waves,
            wallclock_timeout_ms: self.wallclock_timeout_ms,
            subscribes_to: self.subscribes_to.duplicate(),
            tool: self.tool.duplicate(),
        }
    }
}

/// The order in which an action's steps run. Step `i` waits for the steps `deps[i]`; the steps
/// `consumers[i]` wait for it, in the order of their declaration; the steps of a wave wait for none
/// of that wave or a later one.
#[derive(Debug)]
pub struct DagPlan {
    pub waves: Vec<Vec<usize>>,
    pub deps: Vec<Vec<usize>>,
    pub consumers: Vec<Vec<usize>>,
}

/// What a [`DagPlan`] stands for.
pub struct PlanView {
    pub waves: Seq<Seq<usize>>,
    pub deps: Seq<Seq<usize>>,
    pub consumers: Seq<Seq<usize>>,
}

impl DeepView for DagPlan {
    type V = PlanView;

    open spec fn deep_view(&self) -> PlanView {
        PlanView {
            waves: self.waves.deep_view(),
            deps: self.deps.deep_view(),
            consumers: self.consumers.deep_view(),
        }
    }
}

impl Duplicate for DagPlan {
    fn duplicate(&self) -> (r: Self) {
        DagPlan {
            waves: self.waves.duplicate(),
            deps: self.deps.duplicate(),
            consumers: self.consumers.duplicate(),
        }
    }
}

/// A secret that a plugin uses. Only the level that owns a secret may mark it overridable.
#[derive(Debug)]
pub struct SecretDecl {
    pub key: String,
    pub overridable: bool,
}

/// What a [`SecretDecl`] stands for.
pub struct SecretView {
    pub key: Seq<char>,
    pub overridable: bool,
}

impl DeepView for SecretDecl {
    type V = SecretView;

    open spec fn deep_view(&self) -> SecretView {
        SecretView { key: self.key@, overridable: self.overridable }
    }
}

impl Duplicate for SecretDecl {
    fn duplicate(&self) -> (r: Self) {
        SecretDecl { key: self.key.clone(), overridable: self.overridable }
    }
}

/// The params of a step that name another plugin's action.
#[derive(Debug)]
pub struct StepReference {
    pub plugin: String,
    pub action: String,
}

/// What a [`StepReference`] stands for.
pub struct ReferenceView {
    pub plugin: Seq<char>,
    pub action: Seq<char>,
}

impl DeepView for StepReference {
    type V = ReferenceView;

    open spec fn deep_view(&self) -> ReferenceView {
        ReferenceView { plugin: self.plugin@, action: self.action@ }
    }
}

impl Duplicate for StepReference {
    fn duplicate(&self) -> (r: Self) {
        StepReference { plugin: self.plugin.clone(), action: self.action.clone() }
    }
}

/// The contract of a step type.
#[derive(Debug)]
pub struct StepTypeDef {
    pub name: String,
    pub freely_usable: bool,
    pub input_schema: Option<Json>,
    pub output_schema: Option<Json>,
    pub metadata_schema: Option<Json>,
    pub selector: Option<String>,
    pub references: Vec<StepReference>,
}

/// What a [`StepTypeDef`] stands for.
pub struct StepTypeDefView {
    pub name: Seq<char>,
    pub freely_usable: bool,
    pub input_schema: Option<JsonView>,
    pub output_schema: Option<JsonView>,
    pub metadata_schema: Option<JsonView>,
    pub selector: Option<Seq<char>>,
    pub references: Seq<ReferenceView>,
}

impl DeepView for StepTypeDef {
    type V = StepTypeDefView;

    open spec fn deep_view(&self) -> StepTypeDefView {
        StepTypeDefView {
            name: self.name@,
            freely_usable: self.freely_usable,
            input_schema: self.input_schema.deep_view(),
            output_schema: self.output_schema.deep_view(),
            metadata_schema: self.metadata_schema.deep_view(),
            selector: self.selector.deep_view(),
            references: self.references.deep_view(),
        }
    }
}

impl Duplicate for StepTypeDef {
    fn duplicate(&self) -> (r: Self) {
        StepTypeDef {
            name: self.name.clone(),
            freely_usable: self.freely_usable,
            input_schema: self.input_schema.duplicate(),
            output_schema: self.output_schema.duplicate(),
            metadata_schema: self.metadata_schema.duplicate(),
            selector: self.selector.duplicate(),
            references: self.references.duplicate(),
        }
    }
}

/// Where the body of a step type comes from.
#[derive(Debug, Clone, Copy, PartialEq, Eq, Structural)]
pub enum StepTypeImplKind {
    Wasm,
    Native,
    Intrinsic,
}

/// The body that a plugin supplies for a step type.
#[derive(Debug)]
pub struct StepTypeImpl {
    pub step_type: String,
    pub matches: Option<String>,
    pub kind: StepTypeImplKind,
    pub wasm_module: Option<String>,
    pub impl_ref: Option<String>,
}

/// What a [`StepTypeImpl`] stands for.
pub struct StepTypeImplView {
    pub step_type: Seq<char>,
    pub matches: Option<Seq<char>>,
    pub kind: StepTypeImplKind,
    pub wasm_module: Option<Seq<char>>,
    pub impl_ref: Option<Seq<char>>,
}

impl DeepView for StepTypeImpl {
    type V = StepTypeImplView;

    open spec fn deep_view(&self) -> StepTypeImplView {
        StepTypeImplView {
            step_type: self.step_type@,
            matches: self.matches.deep_view(),
            kind: self.kind,
            wasm_module: self.wasm_module.deep_view(),
            impl_ref: self.impl_ref.deep_view(),
        }
    }
}

impl Duplicate for StepTypeImpl {
    fn duplicate(&self) -> (r: Self) {
        StepTypeImpl {
            step_type: self.step_type.clone(),
            matches: self.matches.duplicate(),
            kind: self.kind,
            wasm_module: self.wasm_module.duplicate(),
            impl_ref: self.impl_ref.duplicate(),
        }
    }
}

/// A wasm module that a plugin ships.
#[derive(Debug)]
pub enum WasmModuleSpec {
    Inline { base64: String },
    Path { path: String },
}

/// What a [`WasmModuleSpec`] stands for.
pub enum WasmModuleView {
    Inline { base64: Seq<char> },
    Path { path: Seq<char> },
}

impl DeepView for WasmModuleSpec {
    type V = WasmModuleView;

    open spec fn deep_view(&self) -> WasmModuleView {
        match self {
            WasmModuleSpec::Inline { base64 } => WasmModuleView::Inline { base64: base64@ },
            WasmModuleSpec::Path { path } => WasmModuleView::Path { path: path@ },
        }
    }
}

impl Duplicate for WasmModuleSpec {
    fn duplicate(&self) -> (r: Self) {
        match self {
            WasmModuleSpec::Inline { base64 } => WasmModuleSpec::Inline { base64: base64.clone() },
            WasmModuleSpec::Path { path } => WasmModuleSpec::Path { path: path.clone() },
        }
    }
}

/// A plugin's manifest.
#[derive(Debug)]
pub struct PluginManifest {
    pub name: String,
    pub format_version: Option<u64>,
    pub roles: Vec<String>,
    pub permissions: Vec<String>,
    pub uses_secrets: Vec<SecretDecl>,
    /// Step types that are actions of this plugin, by alias.
    pub step_types: Vec<(String, String)>,
    pub actions: Vec<(String, Action)>,
    pub step_type_defs: Vec<StepTypeDef>,
    pub step_type_impls: Vec<StepTypeImpl>,
    pub wasm_modules: Vec<(String, WasmModuleSpec)>,
}

/// What a [`PluginManifest`] stands for.
pub struct ManifestView {
    pub name: Seq<char>,
    pub format_version: Option<u64>,
    pub roles: Seq<Seq<char>>,
    pub permissions: Seq<Seq<char>>,
    pub uses_secrets: Seq<SecretView>,
    pub step_types: Seq<(Seq<char>, Seq<char>)>,
    pub actions: Seq<(Seq<char>, ActionView)>,
    pub step_type_defs: Seq<StepTypeDefView>,
    pub step_type_impls: Seq<StepTypeImplView>,
    pub wasm_modules: Seq<(Seq<char>, WasmModuleView)>,
}

impl DeepView for PluginManifest {
    type V = ManifestView;

    open spec fn deep_view(&self) -> ManifestView {
        ManifestView {
            name: self.name@,
            format_version: self.format_version,
            roles: self.roles.deep_view(),
            permissions: self.permissions.deep_view(),
            uses_secrets: self.uses_secrets.deep_view(),
            step_types: self.step_types.deep_view(),
            actions: self.actions.deep_view(),
            step_type_defs: self.step_type_defs.deep_view(),
            step_type_impls: self.step_type_impls.deep_view(),
            wasm_modules: self.wasm_modules.deep_view(),
        }
    }
}

impl Duplicate for PluginManifest {
    fn duplicate(&self) -> (r: Self) {
        PluginManifest {
            name: self.name.clone(),
            format_version: self.format_version,
            roles: self.roles.duplicate(),
            permissions: self.permissions.duplicate(),
            uses_secrets: self.uses_secrets.duplicate(),
            step_types: self.step_types.duplicate(),
            actions: self.actions.duplicate(),
            step_type_defs: self.step_type_defs.duplicate(),
            step_type_impls: self.step_type_impls.duplicate(),
            wasm_modules: self.wasm_modules.duplicate(),
        }
    }
}

impl Default for Action {
    /// An action without steps.
    fn default() -> (r: Self)
        ensures
            r.deep_view() == (ActionView {
                steps: Seq::empty(),
                dataflow: false,
                continuous: false,
                parallel_waves: false,
                wallclock_timeout_ms: None,
                subscribes_to: Seq::empty(),
                tool: None,
            }),
    {
        let r = Action {
            steps: Vec::new(),
            dataflow: false,
            continuous: false,
            parallel_waves: false,
            wallclock_timeout_ms: None,
            subscribes_to: Vec::new(),
            tool: None,
        };
        proof {
            assert(r.steps.deep_view() =~= Seq::empty());
            assert(r.subscribes_to.deep_view() =~= Seq::empty());
        }
        r
    }
}

impl Default for PluginManifest {
    /// A manifest that declares nothing.
    fn default() -> (r: Self)
        ensures
            r.deep_view() == (ManifestView {
                name: Seq::empty(),
                format_version: None,
                roles: Seq::empty(),
                permissions: Seq::empty(),
                uses_secrets: Seq::empty(),
                step_types: Seq::empty(),
                actions: Seq::empty(),
                step_type_defs: Seq::empty(),
                step_type_impls: Seq::empty(),
                wasm_modules: Seq::empty(),
            }),
    {
        let r = PluginManifest {
            name: String::new(),
            format_version: None,
            roles: Vec::new(),
            permissions: Vec::new(),
            uses_secrets: Vec::new(),
            step_types: Vec::new(),
            actions: Vec::new(),
            step_type_defs: Vec::new(),
            step_type_impls: Vec::new(),
            wasm_modules: Vec::new(),
        };
        proof {
            assert(r.name@ =~= Seq::empty());
            assert(r.roles.deep_view() =~= Seq::empty());
            assert(r.permissions.deep_view() =~= Seq::empty());
            assert(r.uses_secrets.deep_view() =~= Seq::empty());
            assert(r.step_types.deep_view() =~= Seq::empty());
            assert(r.actions.deep_view() =~= Seq::empty());
            assert(r.step_type_defs.deep_view() =~= Seq::empty());
            assert(r.step_type_impls.deep_view() =~= Seq::empty());
            assert(r.wasm_modules.deep_view() =~= Seq::empty());
        }
        r
    }
}

/// The text of a field that has to be there.
pub open spec fn needed_text(v: JsonView, key: Seq<char>) -> Result<Seq<char>, Seq<char>> {
    match v.get(key) {
        None => Err("missing field `"@ + key + "`"@),
        Some(JsonView::String(s)) => Ok(s),
        Some(other) => Err("field `"@ + key + "`: must be a string, got "@ + kind_text(other)),
    }
}

/// The text of a field that may be absent or null.
pub open spec fn optional_text(v: JsonView, key: Seq<char>) -> Result<
    Option<Seq<char>>,
    Seq<char>,
> {
    match v.get(key) {
        None => Ok(None),
        Some(JsonView::Null) => Ok(None),
        Some(JsonView::String(s)) => Ok(Some(s)),
        Some(other) => Err("field `"@ + key + "`: must be a string, got "@ + kind_text(other)),
    }
}

/// The truth of a field that may be absent.
pub open spec fn optional_truth(v: JsonView, key: Seq<char>) -> Result<bool, Seq<char>> {
    match v.get(key) {
        None => Ok(false),
        Some(JsonView::Bool(b)) => Ok(b),
        Some(other) => Err("field `"@ + key + "`: must be a boolean, got "@ + kind_text(other)),
    }
}

/// The text of an item.
pub open spec fn text_of(j: JsonView) -> Seq<char> {
    j->String_0
}

/// The texts of a field that may be absent.
pub open spec fn optional_texts(v: JsonView, key: Seq<char>) -> Result<Seq<Seq<char>>, Seq<char>> {
    match v.get(key) {
        None => Ok(Seq::empty()),
        Some(JsonView::Array(items)) => if forall|i: int|
            0 <= i < items.len() ==> (#[trigger] items[i]) is String {
            Ok(items.map_values(|j: JsonView| text_of(j)))
        } else {
            Err("field `"@ + key + "`: must be an array of strings"@)
        },
        Some(_) => Err("field `"@ + key + "`: must be an array of strings"@),
    }
}

/// The step that a nested value spells, or what is wrong with it.
pub open spec fn step_of(v: JsonView) -> Result<StepView, Seq<char>> {
    if !(v is Object) {
        Err("must be a step object, got "@ + kind_text(v))
    } else if needed_text(v, "id"@) is Err {
        Err(needed_text(v, "id"@)->Err_0)
    } else if needed_text(v, "type"@) is Err {
        Err(needed_text(v, "type"@)->Err_0)
    } else if optional_texts(v, "dependsOn"@) is Err {
        Err(optional_texts(v, "dependsOn"@)->Err_0)
    } else if optional_text(v, "storeToVariable"@) is Err {
        Err(optional_text(v, "storeToVariable"@)->Err_0)
    } else if optional_truth(v, "longRunning"@) is Err {
        Err(optional_truth(v, "longRunning"@)->Err_0)
    } else {
        Ok(
            StepView {
                id: needed_text(v, "id"@)->Ok_0,
                step_type: needed_text(v, "type"@)->Ok_0,
                params: match v.get("params"@) {
                    Some(p) => p,
                    None => JsonView::Null,
                },
                depends_on: optional_texts(v, "dependsOn"@)->Ok_0,
                store_to_variable: optional_text(v, "storeToVariable"@)->Ok_0,
                long_running: optional_truth(v, "longRunning"@)->Ok_0,
            },
        )
    }
}

fn field_error(key: &str, why: &str, kind: &str) -> (r: String)
    ensures
        r@ == "field `"@ + key@ + why@ + kind@,
{
    let mut r = cat3("field `", key, why);
    r.append(kind);
    r
}

fn read_needed_text(v: &Json, key: &str) -> (r: Result<String, String>)
    ensures
        match r {
            Ok(s) => needed_text(v@, key@) == Ok::<Seq<char>, Seq<char>>(s@),
            Err(e) => needed_text(v@, key@) == Err::<Seq<char>, Seq<char>>(e@),
        },
{
    match v.get(key) {
        None => Err(cat3("missing field `", key, "`")),
        Some(found) => match found.as_str() {
            Some(s) => Ok(s.to_owned()),
            None => Err(field_error(key, "`: must be a string, got ", json_kind(found))),
        },
    }
}

fn read_optional_text(v: &Json, key: &str) -> (r: Result<Option<String>, String>)
    ensures
        match r {
            Ok(s) => optional_text(v@, key@) == Ok::<Option<Seq<char>>, Seq<char>>(s.deep_view()),
            Err(e) => optional_text(v@, key@) == Err::<Option<Seq<char>>, Seq<char>>(e@),
        },
{
    match v.get(key) {
        None => Ok(None),
        Some(Json::Null) => Ok(None),
        Some(found) => match found.as_str() {
            Some(s) => Ok(Some(s.to_owned())),
            None => Err(field_error(key, "`: must be a string, got ", json_kind(found))),
        },
    }
}

fn read_optional_truth(v: &Json, key: &str) -> (r: Result<bool, String>)
    ensures
        match r {
            Ok(b) => optional_truth(v@, key@) == Ok::<bool, Seq<char>>(b),
            Err(e) => optional_truth(v@, key@) == Err::<bool, Seq<char>>(e@),
        },
{
    match v.get(key) {
        None => Ok(false),
        Some(Json::Bool(b)) => Ok(*b),
        Some(found) => Err(
            field_error(key, "`: must be a boolean, got ", json_kind(found)),
        ),
    }
}

fn read_optional_texts(v: &Json, key: &str) -> (r: Result<Vec<String>, String>)
    ensures
        match r {
            Ok(s) => optional_texts(v@, key@) == Ok::<Seq<Seq<char>>, Seq<char>>(s.deep_view()),
            Err(e) => optional_texts(v@, key@) == Err::<Seq<Seq<char>>, Seq<char>>(e@),
        },
{
    let mut out: Vec<String> = Vec::new();
    match v.get(key) {
        None => {
            assert(out.deep_view() =~= Seq::empty());
            Ok(out)
        },
        Some(found) => match found.as_array() {
            Some(items) => {
                let ghost views = json_views(items@);
                let mut i: usize = 0;
                while i < items.len()
                    invariant
                        i <= items@.len(),
                        views == json_views(items@),
                        v@.get(key@) == Some(JsonView::Array(views)),
                        out@.len() == i,
                        forall|j: int|
                            0 <= j < i ==> (#[trigger] views[j]) == JsonView::String(out@[j]@),
                    decreases items@.len() - i,
                {
                    match items[i].as_str() {
                        Some(s) => {
                            out.push(s.to_owned());
                        },
                        None => {
                            assert(!(views[i as int] is String));
                            return Err(cat3("field `", key, "`: must be an array of strings"));
                        },
                    }
                    i += 1;
                }
                assert(out.deep_view() =~= views.map_values(|j: JsonView| text_of(j)));
                Ok(out)
            },
            None => Err(cat3("field `", key, "`: must be an array of strings")),
        },
    }
}

impl StepDef {
    /// The step that a nested value spells.
    pub fn from_inner_value(v: &Json) -> (r: Result<StepDef, String>)
        ensures
            match r {
                Ok(s) => step_of(v@) == Ok::<StepView, Seq<char>>(s.deep_view()),
                Err(e) => step_of(v@) == Err::<StepView, Seq<char>>(e@),
            },
    {
        if !v.is_object() {
            return Err(cat2("must be a step object, got ", json_kind(v)));
        }
        let id = match read_needed_text(v, "id") {
            Ok(s) => s,
            Err(e) => {
                return Err(e);
            },
        };
        let step_type = match read_needed_text(v, "type") {
            Ok(s) => s,
            Err(e) => {
                return Err(e);
            },
        };
        let depends_on = match read_optional_texts(v, "dependsOn") {
            Ok(s) => s,
            Err(e) => {
                return Err(e);
            },
        };
        let store_to_variable = match read_optional_text(v, "storeToVariable") {
            Ok(s) => s,
            Err(e) => {
                return Err(e);
            },
        };
        let long_running = match read_optional_truth(v, "longRunning") {
            Ok(b) => b,
            Err(e) => {
                return Err(e);
            },
        };
        let params = match v.get("params") {
            Some(p) => p.clone(),
            None => Json::Null,
        };
        Ok(StepDef { id, step_type, params, depends_on, store_to_variable, long_running })
    }
}

/// The params of a step are smaller than the value that spells it.
pub proof fn lemma_params_size(v: JsonView)
    requires
        step_of(v) is Ok,
    ensures
        size(step_of(v)->Ok_0.params) < size(v),
{
    lemma_get_size(v, "params"@);
    lemma_get_size(v, "id"@);
}

} // verus!
