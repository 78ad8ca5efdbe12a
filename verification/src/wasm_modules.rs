//! The wasm modules that a manifest ships, decoded and compiled.

use base64::Engine as _;
use vstd::prelude::*;

use crate::commit::module_views;
use crate::manifest::{WasmModuleSpec, WasmModuleView};
use crate::manifest_checks::of_plugin;
use crate::text::cat5;

verus! {

/// `wasmtime::Engine`, opaque to the verifier.
#[verifier::external_type_specification]
#[verifier::external_body]
pub struct ExEngine(wasmtime::Engine);

/// What base64 text with the standard alphabet and padding decodes to, or why it does not.
pub uninterp spec fn base64_decoded(text: Seq<char>) -> Result<Seq<u8>, Seq<char>>;

/// `base64::engine::general_purpose::STANDARD.decode`, with the error in words: what comes out
/// depends on the text alone.
#[verifier::external_body]
pub(crate) fn decode_base64(text: &str) -> (r: Result<Vec<u8>, String>)
    ensures
        match r {
            Ok(v) => base64_decoded(text@) == Ok::<Seq<u8>, Seq<char>>(v@),
            Err(e) => base64_decoded(text@) == Err::<Seq<u8>, Seq<char>>(e@),
        },
{
    base64::engine::general_purpose::STANDARD.decode(text).map_err(|e| format!("{e}"))
}

/// `wasmtime::Module::new`, with the error in words. Whether the bytes compile depends on the engine
/// and the machine as well, so nothing is said of the result.
#[verifier::external_body]
pub(crate) fn compile_module(engine: &wasmtime::Engine, bytes: &[u8]) -> (r: Result<
    std::sync::Arc<wasmtime::Module>,
    String,
>) {
    wasmtime::Module::new(engine, bytes).map(std::sync::Arc::new).map_err(|e| format!("{e}"))
}

/// The words that begin a message on a module.
pub open spec fn of_module(plugin: Seq<char>, module: Seq<char>) -> Seq<char> {
    of_plugin(plugin) + " wasm_module '"@ + module + "'"@
}

/// A module comes inline and decodes.
pub open spec fn decodes(spec: WasmModuleView) -> bool {
    spec is Inline && base64_decoded(spec->base64) is Ok
}

/// `e` is what a module is refused with: it comes by its path, it does not decode, or it does not
/// compile, for whatever reason.
pub open spec fn module_refused(
    plugin: Seq<char>,
    name: Seq<char>,
    spec: WasmModuleView,
    e: Seq<char>,
) -> bool {
    match spec {
        WasmModuleView::Path { path } => e == of_module(plugin, name)
            + ": path-based wasm modules are not supported by this kernel; use the base64-inline form"@,
        WasmModuleView::Inline { base64 } => match base64_decoded(base64) {
            Err(why) => e == of_module(plugin, name) + ": base64 decode failed: "@ + why,
            Ok(_) => exists|why: Seq<char>|
                e == #[trigger] (of_module(plugin, name) + ": compile failed: "@ + why),
        },
    }
}

/// `r` is what can come of compiling modules: all of them under their names, or the refusal of one
/// before which all came inline and decoded.
pub open spec fn modules_outcome(
    plugin: Seq<char>,
    specs: Seq<(Seq<char>, WasmModuleView)>,
    r: Result<Seq<(Seq<char>, std::sync::Arc<wasmtime::Module>)>, Seq<char>>,
) -> bool {
    match r {
        Ok(v) => {
            &&& v.len() == specs.len()
            &&& forall|i: int|
                0 <= i < specs.len() ==> decodes((#[trigger] specs[i]).1) && v[i].0 == specs[i].0
        },
        Err(e) => exists|i: int|
            {
                &&& 0 <= i < specs.len()
                &&& module_refused(plugin, (#[trigger] specs[i]).0, specs[i].1, e)
                &&& forall|j: int| 0 <= j < i ==> decodes((#[trigger] specs[j]).1)
            },
    }
}

fn begin_module(plugin: &str, module: &str, rest: &str) -> (r: String)
    ensures
        r@ == of_module(plugin@, module@) + rest@,
{
    let mut w = cat5("Plugin '", plugin, "'", " wasm_module '", module);
    w.append("'");
    w.append(rest);
    w
}

/// The result of compiling modules as a plain value.
pub open spec fn modules_result(
    r: Result<Vec<(String, std::sync::Arc<wasmtime::Module>)>, String>,
) -> Result<Seq<(Seq<char>, std::sync::Arc<wasmtime::Module>)>, Seq<char>> {
    match r {
        Ok(v) => Ok(module_views(v@)),
        Err(e) => Err(e@),
    }
}

/// The bytes that are handed to the compiler for a module, or what it is refused with before: a
/// module that comes by its path is refused, and so is one that does not decode.
pub open spec fn decoded_module(
    plugin: Seq<char>,
    name: Seq<char>,
    spec: WasmModuleView,
) -> Result<Seq<u8>, Seq<char>> {
    match spec {
        WasmModuleView::Path { path } => Err(
            of_module(plugin, name)
                + ": path-based wasm modules are not supported by this kernel; use the base64-inline form"@,
        ),
        WasmModuleView::Inline { base64 } => match base64_decoded(base64) {
            Err(why) => Err(of_module(plugin, name) + ": base64 decode failed: "@ + why),
            Ok(bytes) => Ok(bytes),
        },
    }
}

/// The bytes that a module is compiled from.
pub fn decode_module(plugin: &str, name: &str, spec: &WasmModuleSpec) -> (r: Result<
    Vec<u8>,
    String,
>)
    ensures
        match r {
            Ok(bytes) => decoded_module(plugin@, name@, spec.deep_view()) == Ok::<
                Seq<u8>,
                Seq<char>,
            >(bytes@),
            Err(e) => decoded_module(plugin@, name@, spec.deep_view()) == Err::<
                Seq<u8>,
                Seq<char>,
            >(e@),
        },
{
    match spec {
        WasmModuleSpec::Inline { base64 } => match decode_base64(base64.as_str()) {
            Ok(bytes) => Ok(bytes),
            Err(e) => {
                let mut w = begin_module(plugin, name, ": base64 decode failed: ");
                w.append(e.as_str());
                Err(w)
            },
        },
        WasmModuleSpec::Path { .. } => Err(
            begin_module(
                plugin,
                name,
                ": path-based wasm modules are not supported by this kernel; use the base64-inline form",
            ),
        ),
    }
}

/// The module that the compiler gave, or what it is refused with where the compiler gave none.
pub fn compiled_module(
    plugin: &str,
    name: &str,
    compiled: Result<std::sync::Arc<wasmtime::Module>, String>,
) -> (r: Result<std::sync::Arc<wasmtime::Module>, String>)
    ensures
        match compiled {
            Ok(module) => r == Ok::<std::sync::Arc<wasmtime::Module>, String>(module),
            Err(why) => r is Err && r->Err_0@ == of_module(plugin@, name@) + ": compile failed: "@
                + why@,
        },
{
    match compiled {
        Ok(module) => Ok(module),
        Err(why) => {
            let mut w = begin_module(plugin, name, ": compile failed: ");
            w.append(why.as_str());
            Err(w)
        },
    }
}

/// Decodes and compiles the modules that a plugin ships: [`decode_module`] gives the bytes that are
/// compiled, and [`compiled_module`] tells what comes of each answer.
pub fn compile_modules(
    engine: &wasmtime::Engine,
    plugin: &str,
    specs: &Vec<(String, WasmModuleSpec)>,
) -> (r: Result<Vec<(String, std::sync::Arc<wasmtime::Module>)>, String>)
    ensures
        modules_outcome(plugin@, specs.deep_view(), modules_result(r)),
{
    let ghost views = specs.deep_view();
    let mut out: Vec<(String, std::sync::Arc<wasmtime::Module>)> = Vec::new();
    let mut i: usize = 0;
    while i < specs.len()
        invariant
            i <= specs@.len(),
            views == specs.deep_view(),
            out@.len() == i,
            forall|j: int|
                0 <= j < i ==> decodes((#[trigger] views[j]).1) && out@[j].0@ == views[j].0,
        decreases specs@.len() - i,
    {
        let name = specs[i].0.as_str();
        assert(views[i as int] == (name@, specs@[i as int].1.deep_view()));
        let bytes = match decode_module(plugin, name, &specs[i].1) {
            Ok(bytes) => bytes,
            Err(e) => {
                assert(module_refused(plugin@, views[i as int].0, views[i as int].1, e@));
                return Err(e);
            },
        };
        let compiled = compile_module(engine, bytes.as_slice());
        match compiled_module(plugin, name, compiled) {
            Ok(module) => {
                out.push((specs[i].0.clone(), module));
            },
            Err(e) => {
                assert(e@ == of_module(plugin@, name@) + ": compile failed: "@
                    + compiled->Err_0@);
                assert(module_refused(plugin@, views[i as int].0, views[i as int].1, e@));
                return Err(e);
            },
        }
        i += 1;
    }
    Ok(out)
}

} // verus!
