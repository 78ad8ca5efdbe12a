//! Who may do what in a kernel.

use gwead::classify::Reading;
use gwead::config::{settle_limits, KernelConfig};
use gwead::control::routing::route_step;
use gwead::error::KernelError;
use gwead::exec_state::ExecutionState;
use gwead::json::{Json, Number};
use gwead::kernel::access::StepTypeAccess;
use gwead::kernel::cycles::check_acyclic;
use gwead::kernel::dispatch::DispatchRequest;
use gwead::kernel::invoke::{
    require_continuous, require_dataflow, streaming_producer, DispatchError, EventDispatch,
    InvocationContext, DISPATCH_MAX_DEPTH,
};
use gwead::kernel::lifecycle::Preparation;
use gwead::kernel::{Kernel, ManifestSurvey};
use gwead::limits::RuntimeLimits;
use gwead::manifest::{
    Action, DagPlan, PluginManifest, SecretDecl, StepDef, StepTypeDef, StepTypeImpl,
    StepTypeImplKind, WasmModuleSpec,
};
use gwead::native_impls::{IntrinsicStepImplEntry, NativeStepImplEntry, NativeStepImplTable};
use gwead::registration::TrustedProvider;
use gwead::registry::{ActionRegistration, InvokeEdge};
use gwead::wasm_runtime::{BodyId, StepBody};

type Check = fn(&str) -> Result<(), String>;

const EMPTY_MODULE_BASE64: &str = "AGFzbQEAAAA=";

fn survey_of(manifest: &PluginManifest) -> ManifestSurvey {
    let mut plans = Vec::new();
    for (_, action) in &manifest.actions {
        let n = action.steps.len();
        plans.push(Ok(DagPlan {
            waves: vec![(0..n).collect()],
            deps: vec![Vec::new(); n],
            consumers: vec![Vec::new(); n],
        }));
    }
    ManifestSurvey {
        contract_errors: Vec::new(),
        plans,
        edges: Ok(Vec::new()),
    }
}

fn definition(name: &str, freely_usable: bool) -> StepTypeDef {
    StepTypeDef {
        name: name.to_string(),
        freely_usable,
        input_schema: None,
        output_schema: None,
        metadata_schema: None,
        selector: None,
        references: Vec::new(),
    }
}

fn native(step_type: &str, impl_ref: &str) -> StepTypeImpl {
    StepTypeImpl {
        step_type: step_type.to_string(),
        matches: None,
        kind: StepTypeImplKind::Native,
        wasm_module: None,
        impl_ref: Some(impl_ref.to_string()),
    }
}

fn interpreter(language: &str) -> StepTypeImpl {
    StepTypeImpl {
        step_type: "script".to_string(),
        matches: Some(language.to_string()),
        kind: StepTypeImplKind::Wasm,
        wasm_module: Some("m".to_string()),
        impl_ref: None,
    }
}

/// A kernel whose engine defines `script`.
fn boot_with(config: KernelConfig<Check>) -> Kernel<Check> {
    let natives = [NativeStepImplEntry::new("myapp.vault.sign", BodyId(7))];
    let intrinsics = [IntrinsicStepImplEntry {
        name: "gwead.intrinsics.script",
        impl_: BodyId(3),
    }];
    let mut script = native("script", "gwead.intrinsics.script");
    script.kind = StepTypeImplKind::Intrinsic;
    let own = PluginManifest {
        name: "gwead_intrinsics".to_string(),
        step_type_defs: vec![definition("script", true)],
        step_type_impls: vec![script],
        ..PluginManifest::default()
    };
    let prep = Preparation {
        survey: survey_of(&own),
        reading: Reading {
            schema: Ok(()),
            plugin: Ok(own),
        },
        contract: Ok(()),
    };
    match Kernel::boot(
        config,
        &natives,
        &intrinsics,
        r#"{"name": "gwead_intrinsics", "stepTypeDefs": []}"#,
        prep,
    ) {
        Ok(k) => k,
        Err(e) => panic!("kernel boots: {}", e.message()),
    }
}

fn boot() -> Kernel<Check> {
    boot_with(KernelConfig::default())
}

fn plugin(name: &str, permissions: &[&str]) -> PluginManifest {
    PluginManifest {
        name: name.to_string(),
        permissions: permissions.iter().map(|p| p.to_string()).collect(),
        actions: vec![("go".to_string(), Action::default())],
        ..PluginManifest::default()
    }
}

fn add(k: &mut Kernel<Check>, namespace: &str, m: PluginManifest) {
    let survey = survey_of(&m);
    if let Err(e) = k.register_plugin_in(namespace, m, survey) {
        panic!("registers: {}", e.message());
    }
}

fn refused(k: &mut Kernel<Check>, m: PluginManifest) -> String {
    let survey = survey_of(&m);
    match k.register_plugin(m, survey) {
        Ok(()) => panic!("expected a refusal"),
        Err(KernelError::Validation(text)) => text,
        Err(e) => panic!("expected Validation, got {}", e.message()),
    }
}

#[test]
fn dispatch_needs_a_grant_and_stays_on_the_chain() {
    let mut k = boot();
    add(&mut k, "", plugin("pdf", &[]));
    add(&mut k, "acme", plugin("caller", &["invoke:plugin:pdf"]));
    add(&mut k, "acme", plugin("wild", &["invoke:plugin:*"]));
    add(&mut k, "acme", plugin("bare", &[]));
    add(&mut k, "other", plugin("far", &[]));

    assert_eq!(
        k.resolve_plugin_reference("acme/caller", "pdf").unwrap(),
        "pdf"
    );
    assert!(k.check_invoke_plugin("acme/caller", "pdf").is_granted());
    assert!(!k.check_invoke_plugin("acme/bare", "pdf").is_granted());
    // A wildcard is for the caller's own namespace.
    assert!(k.check_invoke_plugin("acme/wild", "acme/bare").is_granted());
    assert!(!k.check_invoke_plugin("acme/wild", "pdf").is_granted());

    let to = |plugin| DispatchRequest::ByPlugin { plugin };
    assert!(k.check_invoke_grant("acme/bare", &to("acme/bare")).is_ok());
    assert_eq!(
        k.check_invoke_grant("acme/bare", &to("pdf")).unwrap_err(),
        "plugin 'acme/bare' lacks invoke:plugin:pdf permission (add it to the manifest's `permissions` list)"
    );
    assert!(k
        .authorize_resolved_dispatch("acme/caller", &to("pdf"), "pdf", None)
        .is_ok());
    assert!(k
        .authorize_resolved_dispatch("acme/bare", &to("pdf"), "pdf", Some("pdf"))
        .is_ok());
    assert!(k
        .authorize_resolved_dispatch("acme/caller", &to("pdf"), "other/far", Some("other/far"))
        .unwrap_err()
        .contains("may not dispatch to 'other/far'"));
    assert!(k
        .authorize_resolved_dispatch("pdf", &to("acme/bare"), "acme/bare", None)
        .is_err());

    // A plugin of the caller's own namespace comes before one of the root.
    add(&mut k, "acme", plugin("pdf", &[]));
    assert_eq!(
        k.resolve_plugin_reference("acme/caller", "pdf").unwrap(),
        "acme/pdf"
    );
    assert!(k.check_invoke_plugin("acme/caller", "acme/pdf").is_granted());
    assert!(!k.check_invoke_plugin("acme/caller", "pdf").is_granted());
}

#[test]
fn a_role_is_fulfilled_on_the_callers_chain() {
    let mut k = boot();
    let spi = r#"{"name": "LLM", "actions": {}}"#;
    k.register_spi_from_json("LLM", spi, Ok(()), Ok(())).unwrap();
    let fulfils = |name: &str| PluginManifest {
        roles: vec!["LLM".to_string()],
        ..plugin(name, &["invoke:role:LLM"])
    };
    add(&mut k, "", fulfils("global"));
    add(&mut k, "acme", fulfils("own"));
    assert_eq!(
        k.role_candidates(Some("acme/x"), "LLM"),
        vec!["acme/own".to_string(), "global".to_string()]
    );
    assert_eq!(
        k.role_candidates(Some("other/x"), "LLM"),
        vec!["global".to_string()]
    );
    assert_eq!(k.role_candidates(None, "LLM"), vec!["global".to_string()]);
    assert_eq!(k.plugin_for_role("LLM").unwrap(), "global");
    assert!(matches!(
        k.plugin_for_role("NONE"),
        Err(KernelError::NotFound(m)) if m == "No plugin registered for role 'NONE'"
    ));

    let role = DispatchRequest::ByRole { role: "LLM" };
    assert!(k.check_invoke_grant("acme/own", &role).is_ok());
    assert!(k
        .authorize_resolved_dispatch("acme/own", &role, "global", None)
        .is_ok());
    assert!(k.check_role_dispatch("acme/own", "LLM", 0, 8).is_ok());
    assert!(matches!(
        k.check_role_dispatch("acme/own", "LLM", 8, 8),
        Err(KernelError::Validation(m))
            if m == "invoke recursion cap (8) exceeded: 'acme/own' dispatching role 'LLM'"
    ));
    assert!(k.check_role_dispatch("nobody", "LLM", 0, 8).is_err());
}

#[test]
fn a_step_type_is_used_by_grant() {
    let mut k = boot();
    let vault = PluginManifest {
        step_type_defs: vec![definition("vault.sign", false), definition("vault.hash", true)],
        uses_secrets: vec![
            SecretDecl {
                key: "k1".to_string(),
                overridable: true,
            },
            SecretDecl {
                key: "k2".to_string(),
                overridable: false,
            },
        ],
        ..plugin("vault", &[])
    };
    add(&mut k, "", vault);
    add(&mut k, "acme", plugin("granted", &["step_type:vault.sign"]));
    add(&mut k, "acme", plugin("bare", &[]));

    let granted = k.step_type_access_for("acme/granted");
    assert_eq!(granted.resolve("vault.sign"), Some("vault.sign".to_string()));
    let owner = granted.body_owner("vault.sign").unwrap();
    assert_eq!(owner.identity, "vault");
    assert_eq!(owner.declared_keys, vec!["k1".to_string(), "k2".to_string()]);
    assert_eq!(owner.overridable_keys, vec!["k1".to_string()]);
    let bare = k.step_type_access_for("acme/bare");
    assert_eq!(bare.resolve("vault.sign"), None);
    assert_eq!(bare.resolve("vault.hash"), Some("vault.hash".to_string()));
    assert_eq!(bare.resolve("let"), Some("let".to_string()));
    assert_eq!(StepTypeAccess::none().resolve("vault.hash"), None);
    // A plugin needs no secrets of its own pulled.
    let own = k.step_type_access_for("vault");
    assert!(own.resolve("vault.sign").is_some());
    assert!(own.body_owner("vault.sign").is_none());

    let why = k.explain_step_type_refusal("acme/bare", "vault.sign");
    assert!(why.contains("which is defined by plugin 'vault'"), "{why}");
    assert!(k
        .explain_step_type_refusal("acme/bare", "no.such")
        .contains("no registered `stepTypeDefs` entry or alias defines 'no.such'"));

    let mut s = ExecutionState::new("acme/bare".to_string(), Vec::new(), RuntimeLimits::default(), 0);
    let step = StepDef {
        id: "s".to_string(),
        step_type: "vault.sign".to_string(),
        params: Json::Null,
        depends_on: Vec::new(),
        store_to_variable: None,
        long_running: false,
    };
    assert!(matches!(
        route_step(&mut s, &step, &bare, Some(&k)),
        Err(KernelError::Validation(m)) if m == why
    ));
    assert_eq!(k.secrets_of("vault").0.len(), 2);
    assert_eq!(k.secrets_of("nobody").0.len(), 0);
}

fn edge(from: (&str, &str), to: (&str, &str)) -> InvokeEdge {
    InvokeEdge {
        from: (from.0.to_string(), from.1.to_string()),
        to: (to.0.to_string(), to.1.to_string()),
    }
}

fn add_invoking(
    k: &mut Kernel<Check>,
    name: &str,
    edges: Vec<InvokeEdge>,
) -> Result<(), KernelError> {
    let m = plugin(name, &[]);
    let mut survey = survey_of(&m);
    survey.edges = Ok(edges);
    k.register_plugin_in("", m, survey)
}

#[test]
fn an_invoke_never_leads_back_to_where_it_started() {
    let refused = |r: Result<(), KernelError>, name: &str| {
        matches!(
            r,
            Err(KernelError::Validation(m)) if m == format!(
                "Plugin '{name}': invoke cycle: an action would lead back to itself through the actions that it invokes"
            )
        )
    };
    let mut k = boot();
    let own = vec![edge(("selfish", "go"), ("selfish", "go"))];
    assert!(refused(add_invoking(&mut k, "selfish", own), "selfish"));
    assert!(k.registry().get_manifest("selfish").is_none());

    // An edge may lead to what is not there yet, and several may lead to one action.
    let of_a = vec![
        edge(("a", "go"), ("b", "go")),
        edge(("a", "go"), ("c", "go")),
        edge(("a", "more"), ("b", "go")),
    ];
    assert!(add_invoking(&mut k, "a", of_a).is_ok());
    assert!(add_invoking(&mut k, "b", vec![edge(("b", "go"), ("c", "go"))]).is_ok());
    let back = || vec![edge(("c", "end"), ("d", "go")), edge(("c", "go"), ("a", "go"))];
    assert!(refused(add_invoking(&mut k, "c", back()), "c"));
    assert_eq!(k.registry().invoke_edges().len(), 4);
    // Another action of the same plugin closes no cycle.
    assert!(add_invoking(&mut k, "c", vec![edge(("c", "go"), ("a", "more too"))]).is_ok());
}

#[test]
fn edges_close_a_cycle_only_together() {
    let a = [edge(("a", "go"), ("b", "go"))];
    let b = [edge(("b", "go"), ("a", "go"))];
    assert!(check_acyclic(&a, &b).is_err());
    assert!(check_acyclic(&b, &a).is_err());
    assert!(check_acyclic(&a, &[]).is_ok());
    assert!(check_acyclic(&[], &b).is_ok());
    assert!(check_acyclic(&[], &[]).is_ok());
}

#[test]
fn a_config_starts_from_the_default_limits() {
    let config: KernelConfig<Check> = KernelConfig::default();
    assert_eq!(config.limits.fuel_budget, 1_000_000_000);
    assert_eq!(config.limits.max_parallel_branches, 64);
    assert_eq!(boot().limits().max_step_results_bytes, 67_108_864);
}

#[test]
fn an_alias_is_never_free_for_all() {
    let mut k = boot();
    let vault = PluginManifest {
        step_types: vec![("vault.run".to_string(), "go".to_string())],
        ..plugin("vault", &[])
    };
    add(&mut k, "", vault);
    assert_eq!(
        k.runtime().get("step_vault.run"),
        Some(StepBody::AliasDispatch)
    );
    add(&mut k, "", plugin("bare", &[]));
    assert_eq!(k.step_type_access_for("bare").resolve("vault.run"), None);
    assert!(k
        .explain_step_type_refusal("bare", "vault.run")
        .contains("is an alias registered by plugin 'vault'"));
    let mut taken = plugin("vault", &[]);
    taken.name = "vault2".to_string();
    taken.step_types = vec![("vault.run".to_string(), "go".to_string())];
    assert!(!refused(&mut k, taken).is_empty());
}

/// A body that another plugin ships takes the manifest's declaration and the embedder's consent.
#[test]
fn a_foreign_body_takes_two_keys() {
    let binder = |permissions: &[&str]| PluginManifest {
        step_type_defs: vec![definition("binder.sign", false)],
        step_type_impls: vec![native("binder.sign", "myapp.vault.sign")],
        ..plugin("binder", permissions)
    };
    let mut k = boot();
    assert!(refused(&mut k, binder(&[]))
        .contains("the manifest does not declare the matching permission"));
    assert!(refused(&mut k, binder(&["bind:native_impl:myapp.vault.sign"]))
        .contains("the embedder has not authorised that binding"));
    let mut k = boot_with(KernelConfig::default().allowing_native_impl_binding(
        "binder".to_string(),
        "myapp.vault.sign".to_string(),
    ));
    assert!(refused(&mut k, binder(&[]))
        .contains("the manifest does not declare the matching permission"));
    add(&mut k, "", binder(&["bind:native_impl:myapp.vault.sign"]));
    assert_eq!(
        k.runtime().get("step_binder.sign"),
        Some(StepBody::Plugin(BodyId(7)))
    );
    // The plugin that ships the body needs neither, in the root namespace.
    let mut k = boot();
    let vault = || PluginManifest {
        step_type_defs: vec![definition("vault.sign", false)],
        step_type_impls: vec![native("vault.sign", "myapp.vault.sign")],
        ..plugin("vault", &[])
    };
    let survey = survey_of(&vault());
    assert!(k.register_plugin_in("acme", vault(), survey).is_err());
    add(&mut k, "", vault());
}

#[test]
fn a_foreign_slot_takes_two_keys() {
    let lua = |permissions: &[&str]| PluginManifest {
        step_type_impls: vec![interpreter("lua")],
        wasm_modules: vec![(
            "m".to_string(),
            WasmModuleSpec::Inline {
                base64: EMPTY_MODULE_BASE64.to_string(),
            },
        )],
        ..plugin("lua_host", permissions)
    };
    let mut k = boot();
    assert!(refused(&mut k, lua(&[])).contains("provide:step_type:script:lua"));
    assert!(refused(&mut k, lua(&["provide:step_type:script:lua"]))
        .contains("is not in the embedder's `trusted_step_type_providers`"));
    let config = KernelConfig::default().trusting_step_type_provider("lua_host".to_string());
    let mut k = boot_with(config);
    add(&mut k, "", lua(&["provide:step_type:script:lua"]));
    let runtimes = k.script_runtimes();
    assert_eq!(runtimes.len(), 1);
    assert_eq!(runtimes[0].0, "lua");
    let mut second = lua(&["provide:step_type:script:lua"]);
    second.name = "other_host".to_string();
    let config = KernelConfig::default().with_trusted_step_type_providers(vec![
        TrustedProvider::new("lua_host".to_string()),
        TrustedProvider::new("other_host".to_string()),
    ]);
    let mut k = boot_with(config);
    add(&mut k, "", lua(&["provide:step_type:script:lua"]));
    assert!(refused(&mut k, second).contains("already registered by plugin 'lua_host'"));
    let config = KernelConfig::default().trusting_step_type_provider_in("acme", "lua_host");
    let mut k = boot_with(config);
    add(&mut k, "acme", lua(&["provide:step_type:script:lua"]));
}

#[test]
fn what_a_manifest_may_not_say() {
    let mut k = boot();
    let mut bad = plugin("p", &[]);
    bad.format_version = Some(2);
    assert!(!refused(&mut k, bad).is_empty());
    assert!(!refused(&mut k, plugin("a b", &[])).is_empty());
    assert!(refused(&mut k, plugin("p", &["nonsense:x"])).contains("permission parse error"));
    assert!(refused(&mut k, plugin("p", &["acme.x:y"])).contains("does not define"));
    let mut bad = plugin("p", &[]);
    bad.uses_secrets = vec![
        SecretDecl {
            key: "k".to_string(),
            overridable: false,
        },
        SecretDecl {
            key: "k".to_string(),
            overridable: false,
        },
    ];
    assert!(!refused(&mut k, bad).is_empty());
    let mut bad = plugin("p", &[]);
    bad.step_types = vec![("p.x".to_string(), "nothing".to_string())];
    assert!(refused(&mut k, bad).contains("which is not defined in this plugin"));
    let mut bad = plugin("p", &[]);
    bad.step_type_defs = vec![definition("p.x", false), definition("p.x", false)];
    assert!(refused(&mut k, bad).contains("declared twice"));
    let mut bad = plugin("p", &[]);
    bad.step_type_impls = vec![native("p.x", "myapp.p.x")];
    assert!(refused(&mut k, bad).contains("has no StepTypeDef"));
    let mut bad = plugin("p", &[]);
    bad.step_type_defs = vec![definition("p.x", false)];
    bad.step_type_impls = vec![native("p.x", "myapp.p.x")];
    assert!(refused(&mut k, bad).contains("which no plugin crate submitted"));
    let m = plugin("p", &[]);
    let mut survey = survey_of(&m);
    survey.contract_errors = vec!["lacks 'go'".to_string(), "lacks 'stop'".to_string()];
    assert!(matches!(
        k.register_plugin(m, survey),
        Err(KernelError::Validation(t)) if t.ends_with("lacks 'go'; lacks 'stop'")
    ));
    let m = plugin("p", &[]);
    let mut survey = survey_of(&m);
    survey.plans = vec![Err("a circle".to_string())];
    assert!(matches!(
        k.register_plugin(m, survey),
        Err(KernelError::Validation(t)) if t.ends_with(": a circle")
    ));
    let m = plugin("p", &[]);
    let mut survey = survey_of(&m);
    survey.edges = Err("no such target".to_string());
    assert!(matches!(
        k.register_plugin(m, survey),
        Err(KernelError::Validation(t)) if t == "Plugin 'p': no such target"
    ));
    // Nothing of all that was kept.
    assert!(!k.registry().has_plugin("p"));
    assert_eq!(k.registry().plugin_names(), vec!["gwead_intrinsics"]);
}

#[test]
fn an_event_reaches_its_subscribers_in_order() {
    let mut k = boot();
    let listens = |name: &str| PluginManifest {
        actions: vec![(
            "on".to_string(),
            Action {
                subscribes_to: vec!["tick".to_string()],
                ..Action::default()
            },
        )],
        ..plugin(name, &[])
    };
    add(&mut k, "", listens("a"));
    add(&mut k, "", listens("b"));
    let targets = k.event_targets("tick", 0);
    assert_eq!(
        targets,
        vec![
            ("a".to_string(), "on".to_string()),
            ("b".to_string(), "on".to_string())
        ]
    );
    assert!(k.event_targets("tick", DISPATCH_MAX_DEPTH).is_empty());
    let mut dispatch: EventDispatch<u8> = EventDispatch::new(targets);
    assert_eq!(dispatch.next_target(), Some(("a", "on")));
    dispatch.record(Err(KernelError::Execution("broke".to_string())));
    assert_eq!(dispatch.next_target(), Some(("b", "on")));
    dispatch.record(Ok(1));
    assert_eq!(dispatch.next_target(), None);
    let results = dispatch.into_results();
    assert_eq!(results.len(), 2);
    assert_eq!(results[0].plugin, "a");
    assert!(results[0].result.is_err());
    assert!(matches!(results[1].result, Ok(1)));
}

#[test]
fn an_action_is_found_or_told() {
    let mut k = boot();
    add(&mut k, "", plugin("p", &[]));
    assert!(k.find_action("p", "go").is_ok());
    assert!(matches!(
        k.find_action("p", "stop"),
        Err(KernelError::NotFound(m)) if m == "No action 'stop' on plugin 'p'"
    ));
    let found = k.find_action("p", "go").unwrap();
    assert!(matches!(
        streaming_producer("p", "go", found),
        Err(KernelError::Validation(m))
            if m.ends_with("is not declared `dataflow: true`; use io.invoke for non-streaming calls")
    ));
    assert!(matches!(
        require_dataflow("p", "go", found),
        Err(KernelError::Validation(m)) if m == "action p.go is not declared `dataflow: true`"
    ));
    assert!(matches!(
        require_continuous("p", "go", found),
        Err(KernelError::Validation(m)) if m == "action p.go is not declared `continuous: true`"
    ));
    let other = |dataflow, continuous| ActionRegistration {
        action: Action {
            dataflow,
            continuous,
            ..Action::default()
        },
        plan: DagPlan {
            waves: Vec::new(),
            deps: Vec::new(),
            consumers: Vec::new(),
        },
    };
    assert!(require_dataflow("p", "go", &other(true, false)).is_ok());
    assert!(require_continuous("p", "go", &other(false, true)).is_ok());
}

#[test]
fn an_invocation_knows_how_it_came_about() {
    let top = InvocationContext::top_level();
    assert_eq!((top.invoke_depth, top.dispatch_depth), (0, 0));
    assert!(top.drain_streams);
    let nested = InvocationContext::invoked(2);
    assert_eq!(nested.invoke_depth, 3);
    assert!(!nested.drain_streams);
    let streaming = InvocationContext::invoked_streaming(0, "s".to_string(), 9);
    assert_eq!(streaming.pre_allocated_outputs, vec![("s".to_string(), 9)]);
    let event = InvocationContext::event_dispatched(1, Json::Bool(true));
    assert_eq!(event.dispatch_depth, 2);
    assert_eq!(event.trigger, Some(Json::Bool(true)));
    assert!(matches!(
        DispatchError::RoleUnbound("r".to_string()).into_kernel_error(),
        KernelError::NotFound(_)
    ));
    assert!(matches!(
        DispatchError::SelectionFailed("r".to_string()).into_kernel_error(),
        KernelError::Execution(_)
    ));
    assert!(matches!(
        DispatchError::ConfigResolutionFailed("r".to_string()).into_kernel_error(),
        KernelError::Execution(_)
    ));
}

#[test]
fn settings_can_set_the_default_deadline() {
    let settings = |n| {
        Some(Json::Object(vec![(
            "defaultWallclockTimeoutMs".to_string(),
            Json::Number(Number::PosInt(n)),
        )]))
    };
    let ms = |s| {
        settle_limits(RuntimeLimits::default(), &s)
            .default_wallclock_timeout
            .as_millis()
    };
    assert_eq!(ms(settings(1_500)), 1_500);
    assert_eq!(ms(settings(0)), 60_000);
    assert_eq!(ms(None), 60_000);
    let k = boot_with(
        KernelConfig::default()
            .with_settings(settings(7).unwrap())
            .with_limits(RuntimeLimits::default().with_fuel_budget(5)),
    );
    assert_eq!(k.limits().fuel_budget, 5);
    assert_eq!(k.limits().default_wallclock_timeout.as_millis(), 7);
}

#[test]
fn an_embedder_can_bring_bodies_and_categories() {
    let mut table = NativeStepImplTable::empty();
    table.insert("myapp.p.x", BodyId(9)).unwrap();
    let mut k = boot_with(
        KernelConfig::default()
            .with_native_step_impls(table)
            .defining_app_permission_category("acme.events".to_string()),
    );
    let m = PluginManifest {
        step_type_defs: vec![definition("p.x", false)],
        step_type_impls: vec![native("p.x", "myapp.p.x")],
        ..plugin("p", &["acme.events:publish:x"])
    };
    add(&mut k, "", m);
    assert_eq!(k.runtime().get("step_p.x"), Some(StepBody::Plugin(BodyId(9))));

    let natives: [NativeStepImplEntry<BodyId>; 0] = [];
    let intrinsics: [IntrinsicStepImplEntry<BodyId>; 0] = [];
    let own = plugin("x", &[]);
    let prep = Preparation {
        survey: survey_of(&own),
        reading: Reading {
            schema: Ok(()),
            plugin: Ok(own),
        },
        contract: Ok(()),
    };
    let config: KernelConfig<Check> =
        KernelConfig::default().defining_app_permission_category("events".to_string());
    match Kernel::boot(config, &natives, &intrinsics, "{}", prep) {
        Err(KernelError::Boot(m)) => {
            assert!(m.starts_with("KernelConfig::app_permission_categories: "))
        }
        _ => panic!("no dot"),
    }
}

#[test]
fn a_manifest_refers_to_its_own_first() {
    let mut k = boot();
    let vault = PluginManifest {
        step_type_defs: vec![definition("vault.sign", true)],
        step_types: vec![("vault.run".to_string(), "go".to_string())],
        ..plugin("vault", &[])
    };
    add(&mut k, "", vault);
    let own = vec![("p.run".to_string(), "start".to_string())];
    let defs = vec![definition("p.x", false), definition("vault.sign", false)];
    let pair = |a: &str, b: &str| Some((a.to_string(), b.to_string()));
    assert_eq!(k.resolve_alias("acme/p", &own, &defs, "p.run"), pair("acme/p", "start"));
    assert_eq!(k.resolve_alias("acme/p", &own, &defs, "vault.run"), pair("vault", "go"));
    assert_eq!(k.resolve_alias("acme/p", &own, &defs, "run"), None);
    assert_eq!(k.resolve_alias("acme/p", &own, &defs, "no.such"), None);
    // A nearer definition hides a farther alias, also one that is about to be registered.
    let hiding = vec![definition("vault.run", false)];
    assert_eq!(k.resolve_alias("acme/p", &own, &hiding, "vault.run"), None);
    let nearer = PluginManifest {
        step_type_defs: vec![definition("vault.run", false)],
        ..plugin("vault", &[])
    };
    add(&mut k, "acme", nearer);
    assert_eq!(k.resolve_alias("acme/p", &own, &defs, "vault.run"), None);
    assert_eq!(k.resolve_alias("other/p", &own, &defs, "vault.run"), pair("vault", "go"));
    // A refusal is told by what the caller would have reached.
    assert!(k
        .explain_step_type_refusal("acme/p", "vault.run")
        .contains("which is defined by plugin 'acme/vault'"));
    assert!(k
        .explain_step_type_refusal("other/p", "vault.run")
        .contains("is an alias registered by plugin 'vault'"));
    let elsewhere = PluginManifest {
        step_types: vec![("till.open".to_string(), "go".to_string())],
        ..plugin("till", &[])
    };
    add(&mut k, "acme", elsewhere);
    assert!(k
        .explain_step_type_refusal("other/p", "till.open")
        .contains("no registered `stepTypeDefs` entry or alias defines 'till.open'"));

    assert!(k
        .resolve_step_type_def(&defs, "vault.sign")
        .is_some_and(|d| !d.freely_usable));
    let none: Vec<StepTypeDef> = Vec::new();
    assert!(k
        .resolve_step_type_def(&none, "vault.sign")
        .is_some_and(|d| d.freely_usable));
    assert!(k.resolve_step_type_def(&none, "p.x").is_none());

    assert!(k.plugin_exists("p", "p"));
    assert!(k.plugin_exists("p", "vault"));
    assert!(!k.plugin_exists("p", "q"));
    let actions = vec![("start".to_string(), Action::default())];
    assert!(k.action_exists("p", &actions, "p", "start"));
    assert!(!k.action_exists("p", &actions, "p", "go"));
    assert!(k.action_exists("p", &actions, "vault", "go"));
    assert!(!k.action_exists("p", &actions, "vault", "start"));
}

/// The nearest registration of a name wins, though the caller may not use it.
#[test]
fn a_nearer_step_type_hides_a_farther() {
    let mut k = boot();
    let vault = |freely_usable| PluginManifest {
        step_type_defs: vec![definition("vault.sign", freely_usable)],
        ..plugin("vault", &[])
    };
    add(&mut k, "", vault(true));
    add(&mut k, "t", plugin("a", &[]));
    add(&mut k, "t", plugin("g", &["step_type:vault.sign"]));
    let of = |k: &Kernel<Check>, p: &str| k.step_type_access_for(p).resolve("vault.sign");
    assert_eq!(of(&k, "t/a"), Some("vault.sign".to_string()));
    add(&mut k, "t", vault(false));
    assert_eq!(of(&k, "t/a"), None);
    assert_eq!(of(&k, "t/g"), Some("t/vault.sign".to_string()));
    assert_eq!(of(&k, "t/vault"), Some("t/vault.sign".to_string()));
    assert_eq!(of(&k, "other/x"), Some("vault.sign".to_string()));

    // An alias hides as well.
    let mut k = boot();
    add(&mut k, "", vault(true));
    let alias = PluginManifest {
        step_types: vec![("vault.sign".to_string(), "go".to_string())],
        ..plugin("vault", &[])
    };
    add(&mut k, "t", alias);
    assert_eq!(of(&k, "t/a"), None);
}
