//! What is registered of plugins.

use std::sync::Arc;

use gwead::error::KernelError;
use gwead::json::Json;
use gwead::manifest::{Action, DagPlan, PluginManifest, StepTypeDef, ToolBlock, WasmModuleSpec};
use gwead::permissions::{NamePattern, Permission};
use gwead::registry::{InvokeEdge, PluginRegistry};
use gwead::spi::SpiRegistry;
use gwead::wasm_modules::{compile_modules, compiled_module, decode_module};
use gwead::wasm_runtime::{BodyId, StepBody, WasmRuntime};

/// The smallest module: magic and version.
const EMPTY_MODULE: [u8; 8] = [0, 97, 115, 109, 1, 0, 0, 0];
const EMPTY_MODULE_BASE64: &str = "AGFzbQEAAAA=";

fn plan() -> DagPlan {
    DagPlan {
        waves: Vec::new(),
        deps: Vec::new(),
        consumers: Vec::new(),
    }
}

fn definition(name: &str) -> StepTypeDef {
    StepTypeDef {
        name: name.to_string(),
        freely_usable: false,
        input_schema: None,
        output_schema: None,
        metadata_schema: None,
        selector: None,
        references: Vec::new(),
    }
}

fn manifest(name: &str) -> PluginManifest {
    let tool = ToolBlock {
        name: format!("{name}_tool"),
        description: "d".to_string(),
        parameters: Json::Null,
    };
    PluginManifest {
        name: name.to_string(),
        actions: vec![(
            "go".to_string(),
            Action {
                tool: Some(tool),
                ..Action::default()
            },
        )],
        ..PluginManifest::default()
    }
}

fn edge(from: &str, to: &str) -> InvokeEdge {
    InvokeEdge {
        from: (from.to_string(), "go".to_string()),
        to: (to.to_string(), "go".to_string()),
    }
}

/// Registers something of everything under a plugin's name.
fn fill(r: &mut PluginRegistry, plugin: &str) {
    r.register_manifest(&manifest(plugin));
    r.register_action(plugin, "go", Action::default(), plan());
    r.register_role("SIGNER", plugin);
    r.register_subscription("tick", plugin, "go");
    r.set_permissions(plugin, vec![Permission::InvokePlugin(NamePattern::Any)]);
    r.commit_step_type_def(plugin, definition(&format!("{plugin}.sign")));
    r.commit_step_type_alias(&format!("{plugin}.alias"), plugin, "go");
    r.commit_step_type_impl(plugin, "script", Some(plugin), "m");
    r.extend_invoke_edges(vec![edge(plugin, "x")]);
}

#[test]
fn an_unregistered_plugin_leaves_nothing_and_takes_nothing() {
    let mut r = PluginRegistry::new();
    fill(&mut r, "a");
    fill(&mut r, "b");
    assert_eq!(
        r.plugins_for_role("SIGNER"),
        vec!["a".to_string(), "b".to_string()]
    );
    assert_eq!(r.step_type_def_count(), 2);
    assert!(r.unregister_plugin("a"));
    assert!(!r.unregister_plugin("a"));
    assert!(!r.has_plugin("a"));
    assert!(r.get_action("a", "go").is_none());
    assert!(r.permissions_for("a").is_empty());
    assert!(r.get_step_type_def("a.sign").is_none());
    assert!(r.step_type_alias_candidates("a.alias").is_empty());
    assert!(r.step_type_impl_owner("script", Some("a")).is_none());
    assert_eq!(r.plugins_for_role("SIGNER"), vec!["b".to_string()]);
    assert_eq!(
        r.subscribers_for("tick").to_vec(),
        vec![("b".to_string(), "go".to_string())]
    );
    assert_eq!(r.invoke_edges().len(), 1);
    assert_eq!(r.invoke_edges()[0].from.0, "b");
    assert!(r.get_action("b", "go").is_some());
    assert_eq!(
        r.step_type_impl_owner("script", Some("b")),
        Some(("b", "m"))
    );
    assert_eq!(r.permissions_for("b").len(), 1);
}

#[test]
fn what_is_registered_is_found() {
    let mut r = PluginRegistry::new();
    fill(&mut r, "a");
    assert_eq!(r.plugin_names(), vec!["a"]);
    assert_eq!(r.action_names("a"), vec!["go".to_string()]);
    assert_eq!(r.get_step_type_def("a.sign").map(|d| d.0), Some("a"));
    assert_eq!(
        r.step_type_alias_candidates("a.alias"),
        vec![("a".to_string(), "go".to_string())]
    );
    assert_eq!(r.step_type_impl_matches("script"), vec!["a"]);
    assert_eq!(r.step_type_impl_candidates("script", Some("a")).len(), 1);
    assert_eq!(r.get_manifest("a").map(|m| m.name.as_str()), Some("a"));
    let tools = r.get_tool_descriptors();
    assert_eq!(tools.len(), 1);
    assert_eq!(tools[0].tool_name, "a_tool");
    assert_eq!(tools[0].action_name, "go");
    assert_eq!(r.step_type_defs_iter().len(), 1);
    assert_eq!(r.step_type_aliases_iter().len(), 1);
    // Saying so again changes nothing.
    r.register_subscription("tick", "a", "go");
    assert_eq!(r.subscribers_for("tick").len(), 1);
}

#[test]
fn a_step_type_with_a_dot_is_its_namespaces() {
    assert_eq!(
        PluginRegistry::step_type_key("acme/vault", "vault.sign"),
        "acme/vault.sign"
    );
    assert_eq!(PluginRegistry::step_type_key("acme/vault", "script"), "script");
    assert_eq!(PluginRegistry::step_type_key("vault", "vault.sign"), "vault.sign");
}

#[test]
fn modules_are_decoded_and_compiled() {
    let runtime = WasmRuntime::new().unwrap();
    let inline = |base64: &str| {
        vec![(
            "m".to_string(),
            WasmModuleSpec::Inline {
                base64: base64.to_string(),
            },
        )]
    };
    let modules = match compile_modules(runtime.engine(), "p", &inline(EMPTY_MODULE_BASE64)) {
        Ok(v) => v,
        Err(e) => panic!("{e}"),
    };
    assert_eq!(modules.len(), 1);
    assert_eq!(modules[0].0, "m");
    let mut r = PluginRegistry::new();
    r.register_plugin_wasm_module("p", "m", modules[0].1.clone());
    assert!(Arc::ptr_eq(
        r.get_plugin_wasm_module("p", "m").unwrap(),
        &modules[0].1
    ));
    assert!(r.get_plugin_wasm_module("p", "n").is_none());

    let refused = |base64: &str| match compile_modules(runtime.engine(), "p", &inline(base64)) {
        Ok(_) => panic!("not a module"),
        Err(e) => e,
    };
    assert!(refused("***").starts_with("Plugin 'p' wasm_module 'm': base64 decode failed: "));
    assert!(refused("AAAA").starts_with("Plugin 'p' wasm_module 'm': compile failed: "));
    let by_path = vec![(
        "m".to_string(),
        WasmModuleSpec::Path {
            path: "m.wasm".to_string(),
        },
    )];
    match compile_modules(runtime.engine(), "p", &by_path) {
        Ok(_) => panic!("no paths"),
        Err(e) => assert!(e.contains("path-based wasm modules are not supported")),
    }
}

#[test]
fn a_runtime_loads_modules_and_keeps_bodies() {
    let mut runtime = WasmRuntime::new().unwrap();
    assert!(runtime.load_module(&EMPTY_MODULE).is_ok());
    match runtime.load_module(&[1, 2, 3]) {
        Err(KernelError::Runtime(m)) => assert!(m.starts_with("Failed to load wasm module: ")),
        _ => panic!("no module"),
    }
    runtime.register_trait_step_type("vault.sign", BodyId(1));
    runtime.register_trait_step_type("vault.sign", BodyId(2));
    runtime.register_intrinsic_step_type("invoke", BodyId(3));
    runtime.register_alias("vault.alias");
    assert_eq!(runtime.linker_imports().len(), 3);
    assert_eq!(
        runtime.get("step_vault.sign"),
        Some(StepBody::Plugin(BodyId(2)))
    );
    assert_eq!(
        runtime.get("step_vault.alias"),
        Some(StepBody::AliasDispatch)
    );
    runtime.remove_step_type("vault.sign");
    assert_eq!(runtime.get("step_vault.sign"), None);
    assert_eq!(runtime.linker_imports().len(), 2);
}

#[test]
fn a_role_binds_to_the_nearest_contract() {
    let mut spi = SpiRegistry::new();
    spi.register("LLM", "{}", Ok(())).unwrap();
    spi.register("acme/LLM", "{}", Ok(())).unwrap();
    assert!(spi
        .register("BAD", "{}", Err(KernelError::Validation("no".to_string())))
        .is_err());
    assert_eq!(spi.len(), 2);
    assert_eq!(spi.resolve("acme", "LLM"), Some("acme/LLM".to_string()));
    assert_eq!(spi.resolve("other", "LLM"), Some("LLM".to_string()));
    assert_eq!(spi.resolve("", "NONE"), None);
    assert_eq!(
        spi.role_keys_for("acme", &vec!["LLM".to_string(), "LLM".to_string()]),
        vec!["acme/LLM".to_string()]
    );
    assert!(spi.unregister("acme/LLM"));
    assert!(!spi.contains("acme/LLM"));
    assert_eq!(spi.resolve("acme", "LLM"), Some("LLM".to_string()));
}

/// A store has fuel to set and to read only where its engine meters instructions.
#[test]
fn the_engine_meters_instructions() {
    let runtime = WasmRuntime::new().unwrap();
    let mut store = wasmtime::Store::new(runtime.engine(), ());
    store.set_fuel(7).unwrap();
    assert_eq!(store.get_fuel().unwrap(), 7);
    let bare = wasmtime::Engine::default();
    assert!(wasmtime::Store::new(&bare, ()).get_fuel().is_err());
}

/// What comes of each answer of the engine, whatever the machine.
#[test]
fn an_engine_that_is_not_there_and_a_module_that_does_not_compile_are_told() {
    let runtime = WasmRuntime::new().unwrap();
    let own = WasmRuntime::on_engine(Ok(runtime.engine().clone())).unwrap();
    assert!(wasmtime::Engine::same(own.engine(), runtime.engine()));
    assert!(own.linker_imports().is_empty());
    match WasmRuntime::on_engine(Err("no memory".to_string())) {
        Err(KernelError::Runtime(m)) => {
            assert_eq!(m, "Failed to construct wasm engine: no memory")
        }
        _ => panic!("no engine"),
    }
    let module = runtime.load_module(&EMPTY_MODULE).unwrap();
    let same = WasmRuntime::loaded(Ok(module.clone())).unwrap();
    assert!(Arc::ptr_eq(&module, &same));
    match WasmRuntime::loaded(Err("bad header".to_string())) {
        Err(KernelError::Runtime(m)) => assert_eq!(m, "Failed to load wasm module: bad header"),
        _ => panic!("no module"),
    }
}

/// What is compiled is what the manifest's text spells.
#[test]
fn the_bytes_of_a_module_are_those_it_spells() {
    let inline = |base64: &str| WasmModuleSpec::Inline {
        base64: base64.to_string(),
    };
    assert_eq!(
        decode_module("p", "m", &inline(EMPTY_MODULE_BASE64)).unwrap(),
        EMPTY_MODULE.to_vec()
    );
    assert_eq!(
        decode_module("p", "m", &inline("")).unwrap(),
        Vec::<u8>::new()
    );
    assert!(decode_module("p", "m", &inline("*"))
        .unwrap_err()
        .starts_with("Plugin 'p' wasm_module 'm': base64 decode failed: "));
    let by_path = WasmModuleSpec::Path {
        path: "m.wasm".to_string(),
    };
    assert_eq!(
        decode_module("p", "m", &by_path).unwrap_err(),
        "Plugin 'p' wasm_module 'm': path-based wasm modules are not supported by this kernel; use the base64-inline form"
    );
    match compiled_module("p", "m", Err("bad".to_string())) {
        Err(e) => assert_eq!(e, "Plugin 'p' wasm_module 'm': compile failed: bad"),
        Ok(_) => panic!("no module"),
    }
    let runtime = WasmRuntime::new().unwrap();
    let module = runtime.load_module(&EMPTY_MODULE).unwrap();
    assert!(Arc::ptr_eq(
        &compiled_module("p", "m", Ok(module.clone())).unwrap(),
        &module
    ));
}
