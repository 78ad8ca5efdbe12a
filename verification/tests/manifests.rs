//! Documents that are loaded, unloaded and reloaded.

use gwead::classify::{ManifestKind, Reading};
use gwead::config::KernelConfig;
use gwead::error::KernelError;
use gwead::json::Json;
use gwead::kernel::boot::check_document;
use gwead::kernel::lifecycle::{ManifestHandle, Preparation, Rollback};
use gwead::kernel::{Kernel, ManifestSurvey};
use gwead::manifest::{
    Action, DagPlan, PluginManifest, StepDef, StepTypeDef, StepTypeImpl, StepTypeImplKind,
};
use gwead::native_impls::{IntrinsicStepImplEntry, NativeStepImplEntry};
use gwead::wasm_runtime::{BodyId, StepBody};

type Check = fn(&str) -> Result<(), String>;

const INTRINSICS: &str = r#"{"name": "gwead_intrinsics", "stepTypeDefs": []}"#;

fn definition(name: &str) -> StepTypeDef {
    StepTypeDef {
        name: name.to_string(),
        freely_usable: true,
        input_schema: None,
        output_schema: None,
        metadata_schema: None,
        selector: None,
        references: Vec::new(),
    }
}

fn body(step_type: &str, kind: StepTypeImplKind) -> StepTypeImpl {
    StepTypeImpl {
        step_type: step_type.to_string(),
        matches: None,
        kind,
        wasm_module: None,
        impl_ref: Some(format!("gwead.intrinsics.{step_type}")),
    }
}

fn intrinsics_manifest() -> PluginManifest {
    let names = ["throw_error", "let", "script", "invoke", "wasm"];
    let mut impls = Vec::new();
    for name in names {
        let kind = if name == "throw_error" || name == "let" {
            StepTypeImplKind::Native
        } else {
            StepTypeImplKind::Intrinsic
        };
        impls.push(body(name, kind));
    }
    PluginManifest {
        name: "gwead_intrinsics".to_string(),
        step_type_defs: names.iter().map(|n| definition(n)).collect(),
        step_type_impls: impls,
        permissions: vec![
            "bind:native_impl:gwead.intrinsics.throw_error".to_string(),
            "bind:native_impl:gwead.intrinsics.let".to_string(),
        ],
        ..PluginManifest::default()
    }
}

fn no_survey() -> ManifestSurvey {
    ManifestSurvey {
        contract_errors: Vec::new(),
        plans: Vec::new(),
        edges: Ok(Vec::new()),
    }
}

/// The plan of actions whose steps do not depend on each other.
fn survey_of(manifest: &PluginManifest) -> ManifestSurvey {
    let mut plans = Vec::new();
    for (_, action) in &manifest.actions {
        let n = action.steps.len();
        plans.push(Ok(DagPlan {
            waves: vec![(0..n).collect()],
            deps: vec![Vec::new(); n],
            consumers: vec![Vec::new(); n],
        }));
    }
    ManifestSurvey {
        plans,
        ..no_survey()
    }
}

fn prepared(plugin: Result<PluginManifest, String>) -> Preparation {
    let survey = match &plugin {
        Ok(m) => survey_of(m),
        Err(_) => no_survey(),
    };
    Preparation {
        reading: Reading {
            schema: Ok(()),
            plugin,
        },
        survey,
        contract: Ok(()),
    }
}

fn no_plugin() -> Result<PluginManifest, String> {
    Err("no plugin".to_string())
}

fn rollback(survey: ManifestSurvey) -> Rollback {
    Rollback {
        survey,
        contract: Ok(()),
    }
}

fn boot() -> Kernel<Check> {
    let natives = [
        NativeStepImplEntry::kernel("gwead.intrinsics.throw_error", BodyId(1)),
        NativeStepImplEntry::kernel("gwead.intrinsics.let", BodyId(2)),
    ];
    let intrinsics = [
        IntrinsicStepImplEntry {
            name: "gwead.intrinsics.script",
            impl_: BodyId(3),
        },
        IntrinsicStepImplEntry {
            name: "gwead.intrinsics.invoke",
            impl_: BodyId(4),
        },
        IntrinsicStepImplEntry {
            name: "gwead.intrinsics.wasm",
            impl_: BodyId(5),
        },
    ];
    match Kernel::boot(
        KernelConfig::default(),
        &natives,
        &intrinsics,
        INTRINSICS,
        prepared(Ok(intrinsics_manifest())),
    ) {
        Ok(k) => k,
        Err(e) => panic!("kernel boots: {}", e.message()),
    }
}

fn tiny_plugin() -> PluginManifest {
    let step = StepDef {
        id: "s".to_string(),
        step_type: "log".to_string(),
        params: Json::Object(vec![("message".to_string(), Json::String("ok".to_string()))]),
        depends_on: Vec::new(),
        store_to_variable: None,
        long_running: false,
    };
    PluginManifest {
        name: "tiny_test_plugin".to_string(),
        actions: vec![(
            "noop".to_string(),
            Action {
                steps: vec![step],
                ..Action::default()
            },
        )],
        ..PluginManifest::default()
    }
}

const TINY: &str = r#"{
    "name": "tiny_test_plugin",
    "version": "1.0",
    "actions": {
        "noop": {
            "steps": [
                {"id": "s", "type": "log", "params": {"message": "ok"}}
            ]
        }
    }
}"#;

#[test]
fn classifies_and_loads_spi_def() {
    let mut k = boot();
    let spi = r#"{
        "name": "TEST_SPI",
        "version": "1.0",
        "actions": {
            "ping": {"input": {"type": "object"}, "output": {"type": "object"}}
        }
    }"#;
    let handle = k
        .load_manifest(spi, prepared(no_plugin()))
        .expect("loads as SPI def");
    // Handles are u64 — distinct ids on successive loads.
    let spi2 = r#"{
        "name": "TEST_SPI_2",
        "version": "1.0",
        "actions": {"x": {"input": {}, "output": {}}}
    }"#;
    let handle2 = k
        .load_manifest(spi2, prepared(no_plugin()))
        .expect("loads a second SPI");
    assert_ne!(handle, handle2);
    assert!(k.spi_registry().contains("TEST_SPI"));
}

#[test]
fn classifies_and_loads_plugin() {
    let mut k = boot();
    // Plugin that claims no roles → trivially satisfies SPI
    // validation. `log` is not a registered step type here;
    // registration does not resolve bodies, so the manifest loads.
    let _handle = k
        .load_manifest(TINY, prepared(Ok(tiny_plugin())))
        .expect("loads as plugin");
    assert!(k
        .registry()
        .get_action("tiny_test_plugin", "noop")
        .is_some());
}

#[test]
fn rejects_malformed_shape() {
    let mut k = boot();
    let bad = r#"{ "name": "nothing", "version": "1.0" }"#;
    let err = k
        .load_manifest(bad, prepared(no_plugin()))
        .expect_err("no actions, no metadata");
    let msg = err.message();
    assert!(
        msg.contains("not a recognized shape") || msg.contains("recognized"),
        "expected classification error, got: {msg}"
    );
}

#[test]
fn manifest_kind_classifies_without_registering() {
    let reading = |plugin: Result<PluginManifest, String>| Reading {
        schema: Ok(()),
        plugin,
    };
    let spi = r#"{
        "name": "SOMETHING",
        "actions": { "ping": {"input": {}, "output": {}} }
    }"#;
    assert_eq!(
        Kernel::<Check>::manifest_kind(spi, reading(no_plugin())).unwrap(),
        ManifestKind::SpiDef
    );

    let plugin = r#"{
        "name": "plug",
        "actions": {
            "noop": {"steps": [{"id":"s","type":"log","params":{"message":"x"}}]}
        }
    }"#;
    assert_eq!(
        Kernel::<Check>::manifest_kind(plugin, reading(Ok(tiny_plugin()))).unwrap(),
        ManifestKind::Plugin
    );

    let bad = r#"{ "name": "no shape" }"#;
    assert!(matches!(
        Kernel::<Check>::manifest_kind(bad, reading(no_plugin())).unwrap_err(),
        KernelError::Validation(_)
    ));
}

#[test]
fn unload_unknown_handle_is_not_found() {
    let mut k = boot();
    let h = ManifestHandle(9_999);
    let unload_err = k.unload_manifest(h).expect_err("unknown handle");
    assert!(matches!(unload_err, KernelError::NotFound(_)));
    let reload_err = k
        .reload_manifest(
            h,
            r#"{"name":"x","actions":{}}"#,
            prepared(no_plugin()),
            rollback(no_survey()),
        )
        .expect_err("unknown handle");
    assert!(matches!(reload_err, KernelError::NotFound(_)));
}

#[test]
fn intrinsics_manifest_rejects_unload_and_reload() {
    let mut k = boot();
    // Boot assigns id 1 to the intrinsics manifest before any
    // embedder call (first thing `boot` loads).
    let intrinsics = ManifestHandle(1);

    let unload_err = k
        .unload_manifest(intrinsics)
        .expect_err("intrinsics manifest must not unload");
    match unload_err {
        KernelError::Validation(ref m) => assert!(
            m.contains("immutable"),
            "expected immutable-rejection message, got: {m}"
        ),
        other => panic!("expected Validation(immutable), got {other:?}"),
    }

    let reload_err = k
        .reload_manifest(
            intrinsics,
            r#"{"name":"x","stepTypeDefs":[]}"#,
            prepared(no_plugin()),
            rollback(no_survey()),
        )
        .expect_err("intrinsics manifest must not reload");
    match reload_err {
        KernelError::Validation(ref m) => assert!(
            m.contains("immutable"),
            "expected immutable-rejection message, got: {m}"
        ),
        other => panic!("expected Validation(immutable), got {other:?}"),
    }
}

/// The engine's own bodies are in the import table once a kernel is booted.
#[test]
fn a_booted_kernel_has_its_own_bodies() {
    let k = boot();
    assert_eq!(
        k.runtime().get("step_let"),
        Some(StepBody::Plugin(BodyId(2)))
    );
    assert_eq!(
        k.runtime().get("step_invoke"),
        Some(StepBody::Intrinsic(BodyId(4)))
    );
    assert_eq!(k.runtime().get("step_nothing"), None);
    assert_eq!(k.runtime().linker_imports().len(), 5);
}

#[test]
fn a_boot_without_the_engines_bodies_fails() {
    let none: [NativeStepImplEntry<BodyId>; 0] = [];
    let own: [IntrinsicStepImplEntry<BodyId>; 0] = [];
    let r: Result<Kernel<Check>, KernelError> = Kernel::boot(
        KernelConfig::default(),
        &none,
        &own,
        INTRINSICS,
        prepared(Ok(intrinsics_manifest())),
    );
    match r {
        Ok(_) => panic!("no bodies"),
        Err(e) => assert!(
            matches!(&e, KernelError::Boot(m) if m.starts_with("intrinsics manifest: ")),
            "{}",
            e.message()
        ),
    }
}

#[test]
fn text_that_is_not_json_is_refused() {
    let mut k = boot();
    let err = k
        .load_manifest("{", prepared(no_plugin()))
        .expect_err("no JSON");
    assert!(err.message().contains("manifest is not valid JSON: "));
}

/// A plugin that is unloaded leaves nothing behind, and can be loaded again under a new handle.
#[test]
fn an_unloaded_plugin_leaves_nothing() {
    let mut k = boot();
    let h = k.load_manifest(TINY, prepared(Ok(tiny_plugin()))).unwrap();
    k.unload_manifest(h).unwrap();
    assert!(k
        .registry()
        .get_action("tiny_test_plugin", "noop")
        .is_none());
    assert!(!k.registry().has_plugin("tiny_test_plugin"));
    assert!(k.registry().permissions_for("tiny_test_plugin").is_empty());
    let h2 = k.load_manifest(TINY, prepared(Ok(tiny_plugin()))).unwrap();
    assert_ne!(h, h2);
    assert!(matches!(
        k.unload_manifest(h),
        Err(KernelError::NotFound(_))
    ));
}

#[test]
fn a_plugin_is_registered_once() {
    let mut k = boot();
    k.load_manifest(TINY, prepared(Ok(tiny_plugin()))).unwrap();
    let err = k
        .load_manifest(TINY, prepared(Ok(tiny_plugin())))
        .expect_err("registered already");
    assert!(err
        .message()
        .contains("Plugin 'tiny_test_plugin' is already registered"));
    // Another namespace is another plugin.
    k.load_manifest_in("acme", TINY, prepared(Ok(tiny_plugin())))
        .unwrap();
    assert!(k.registry().has_plugin("acme/tiny_test_plugin"));
}

/// A reload that is refused leaves the plugin as it was, under its handle.
#[test]
fn a_refused_reload_rolls_back() {
    let mut k = boot();
    let h = k.load_manifest(TINY, prepared(Ok(tiny_plugin()))).unwrap();
    let err = k
        .reload_manifest(
            h,
            r#"{"name":"x"}"#,
            prepared(no_plugin()),
            rollback(survey_of(&tiny_plugin())),
        )
        .expect_err("no shape");
    assert!(err.message().contains("recognized"));
    assert!(k
        .registry()
        .get_action("tiny_test_plugin", "noop")
        .is_some());
    k.unload_manifest(h).unwrap();
}

#[test]
fn a_reload_keeps_the_handle_and_the_namespace() {
    let mut k = boot();
    let h = k
        .load_manifest_in("acme", TINY, prepared(Ok(tiny_plugin())))
        .unwrap();
    let mut renamed = tiny_plugin();
    renamed.name = "other_plugin".to_string();
    k.reload_manifest(
        h,
        TINY,
        prepared(Ok(renamed)),
        rollback(survey_of(&tiny_plugin())),
    )
    .unwrap();
    assert!(k.registry().has_plugin("acme/other_plugin"));
    assert!(!k.registry().has_plugin("acme/tiny_test_plugin"));
    k.unload_manifest(h).unwrap();
    assert!(!k.registry().has_plugin("acme/other_plugin"));
}

/// A contract stays while a plugin fulfils its role.
#[test]
fn a_contract_in_use_is_not_unloaded() {
    let mut k = boot();
    let spi = r#"{"name": "SIGNER", "actions": {"sign": {"input": {}, "output": {}}}}"#;
    let contract = k.load_manifest(spi, prepared(no_plugin())).unwrap();
    let mut signer = tiny_plugin();
    signer.roles = vec!["SIGNER".to_string()];
    let plugin = k.load_manifest(TINY, prepared(Ok(signer))).unwrap();
    assert_eq!(
        k.registry().plugins_for_role("SIGNER"),
        vec!["tiny_test_plugin".to_string()]
    );
    let err = k.unload_manifest(contract).expect_err("in use");
    assert_eq!(
        err.message(),
        KernelError::Validation(
            "Cannot unload SPI def 'SIGNER' — still claimed by plugin(s): tiny_test_plugin"
                .to_string()
        )
        .message()
    );
    k.unload_manifest(plugin).unwrap();
    k.unload_manifest(contract).unwrap();
    assert!(!k.spi_registry().contains("SIGNER"));
}

#[test]
fn a_contract_is_registered_under_its_own_name() {
    let mut k = boot();
    let spi = r#"{"name": "SIGNER", "actions": {}}"#;
    let err = k
        .register_spi_from_json("OTHER", spi, Ok(()), Ok(()))
        .expect_err("another name");
    assert!(err
        .message()
        .contains("SPI definition declares name 'SIGNER' but was registered under role 'OTHER'"));
    assert!(k
        .register_spi_from_json("SIGNER", "{", Ok(()), Ok(()))
        .is_err());
    assert!(k
        .register_spi_from_json("SIGNER", spi, Err("schema".to_string()), Ok(()))
        .is_err());
    assert!(k
        .register_spi_from_json("not a name", spi, Ok(()), Ok(()))
        .is_err());
    k.register_spi_from_json("SIGNER", spi, Ok(()), Ok(()))
        .unwrap();
    assert!(k.spi_registry().contains("SIGNER"));
}

#[test]
fn the_document_of_a_contract_answers_to_its_role() {
    let doc = |name: &str| {
        Json::Object(vec![("name".to_string(), Json::String(name.to_string()))])
    };
    assert!(check_document("SIGNER", &doc("SIGNER"), Ok(())).is_ok());
    assert!(check_document("SIGNER", &Json::Object(Vec::new()), Ok(())).is_ok());
    match check_document("OTHER", &doc("SIGNER"), Ok(())) {
        Err(KernelError::Validation(m)) => assert_eq!(
            m,
            "SPI definition declares name 'SIGNER' but was registered under role 'OTHER'. The two must agree — the role is the key that 'invoke:role:' grants name, and the document is what an operator reads."
        ),
        _ => panic!("another name"),
    }
    // The schema comes first.
    assert!(matches!(
        check_document("OTHER", &doc("SIGNER"), Err("schema".to_string())),
        Err(KernelError::Validation(m)) if m == "schema"
    ));
}

#[test]
fn a_plugin_is_registered_by_its_text() {
    let mut k = boot();
    let reading = |plugin| Reading {
        schema: Ok(()),
        plugin,
    };
    let err = k
        .register_plugin_from_json(TINY, reading(Err("bad".to_string())), no_survey())
        .expect_err("does not parse");
    assert!(err
        .message()
        .contains("Plugin manifest JSON parse failed: bad"));
    k.register_plugin_from_json(TINY, reading(Ok(tiny_plugin())), survey_of(&tiny_plugin()))
        .unwrap();
    assert!(k.registry().has_plugin("tiny_test_plugin"));
}

#[test]
fn a_document_is_held_to_its_schema() {
    let mut k = boot();
    let mut prep = prepared(Ok(tiny_plugin()));
    prep.reading.schema = Err("actions.noop: no such field".to_string());
    let err = k.load_manifest(TINY, prep).expect_err("schema");
    assert!(matches!(err, KernelError::Validation(m) if m == "actions.noop: no such field"));
    assert!(!k.registry().has_plugin("tiny_test_plugin"));
}
