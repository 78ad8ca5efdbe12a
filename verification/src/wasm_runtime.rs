//! The engine, and the step bodies that actions can call, by the name of the host function behind
//! each.

use vstd::prelude::*;

use crate::error::{ErrorView, KernelError};
use crate::native_impls::Held;
use crate::registry::{at, lists};
use crate::table::Table;
use crate::text::cat2;
use crate::wasm_modules::compile_module;

verus! {

/// A compiled-in body, as the host numbers them.
#[derive(Debug, Clone, Copy, PartialEq, Eq, Structural)]
pub struct BodyId(pub u64);

/// A registered step body.
#[derive(Debug, Clone, Copy, PartialEq, Eq, Structural)]
pub enum StepBody {
    /// A body that sees only what a plugin may see.
    Plugin(BodyId),
    /// A body of the engine, which sees the state of the execution.
    Intrinsic(BodyId),
    /// The engine's dispatcher, which runs the action that an alias stands for.
    AliasDispatch,
}

/// The name of the host function behind a step type.
pub open spec fn import_name(step_type: Seq<char>) -> Seq<char> {
    "step_"@ + step_type
}

/// The name of the host function behind a step type.
pub fn import_name_of(step_type: &str) -> (r: String)
    ensures
        r@ == import_name(step_type@),
{
    cat2("step_", step_type)
}

/// `wasmtime::Engine::new` on a configuration whose `consume_fuel` is `metered`, and the error in words.
/// Every engine of the library meters instructions: a budget of fuel binds on no other. Whether an
/// engine can be had depends on the machine, so nothing is said of the result.
#[verifier::external_body]
fn new_engine(metered: bool) -> (r: Result<wasmtime::Engine, String>)
    requires
        metered,
{
    wasmtime::Engine::new(wasmtime::Config::new().consume_fuel(metered)).map_err(|e| format!("{e}"))
}

/// The error where no engine can be had, for whatever reason.
pub open spec fn engine_refused(e: ErrorView) -> bool {
    exists|why: Seq<char>|
        e == ErrorView::Runtime(#[trigger] ("Failed to construct wasm engine: "@ + why))
}

/// The error where a module does not compile, for whatever reason.
pub open spec fn module_unloadable(e: ErrorView) -> bool {
    exists|why: Seq<char>|
        e == ErrorView::Runtime(#[trigger] ("Failed to load wasm module: "@ + why))
}

/// The engine and the registered step bodies. No name stands twice, so that every one of them can be
/// put under its name into one linker.
pub struct WasmRuntime {
    engine: wasmtime::Engine,
    additional_imports: Table<String, Held<StepBody>>,
}

impl View for WasmRuntime {
    type V = Map<Seq<char>, StepBody>;

    closed spec fn view(&self) -> Map<Seq<char>, StepBody> {
        self.additional_imports.map()
    }
}

impl WasmRuntime {
    /// No name stands twice.
    pub closed spec fn wf(&self) -> bool {
        self.additional_imports.wf()
    }

    /// The bodies in the order in which they were registered first.
    pub closed spec fn order(&self) -> Seq<(Seq<char>, StepBody)> {
        self.additional_imports.order()
    }

    /// The engine that modules are compiled for.
    pub closed spec fn engine_view(&self) -> wasmtime::Engine {
        self.engine
    }

    /// A runtime on the engine that was found, without bodies; or the error that tells why none was.
    pub fn on_engine(found: Result<wasmtime::Engine, String>) -> (r: Result<Self, KernelError>)
        ensures
            match found {
                Ok(engine) => {
                    &&& r is Ok
                    &&& r->Ok_0.wf()
                    &&& r->Ok_0.engine_view() == engine
                    &&& r->Ok_0@ == Map::<Seq<char>, StepBody>::empty()
                },
                Err(why) => r is Err && r->Err_0@ == ErrorView::Runtime(
                    "Failed to construct wasm engine: "@ + why@,
                ),
            },
    {
        match found {
            Ok(engine) => Ok(WasmRuntime { engine, additional_imports: Table::new() }),
            Err(why) => Err(
                KernelError::Runtime(cat2("Failed to construct wasm engine: ", why.as_str())),
            ),
        }
    }

    /// A runtime on an engine that meters instructions, without bodies; or why there is no engine.
    /// [`WasmRuntime::on_engine`] tells what comes of each answer.
    pub fn new() -> (r: Result<Self, KernelError>)
        ensures
            match r {
                Ok(w) => w.wf() && w@ == Map::<Seq<char>, StepBody>::empty(),
                Err(e) => engine_refused(e@),
            },
    {
        Self::on_engine(new_engine(true))
    }

    /// The engine that modules are compiled for.
    pub fn engine(&self) -> (r: &wasmtime::Engine)
        ensures
            *r == self.engine_view(),
    {
        &self.engine
    }

    /// The module that was compiled, or the error that tells why it was not.
    pub fn loaded(compiled: Result<std::sync::Arc<wasmtime::Module>, String>) -> (r: Result<
        std::sync::Arc<wasmtime::Module>,
        KernelError,
    >)
        ensures
            match compiled {
                Ok(module) => r == Ok::<std::sync::Arc<wasmtime::Module>, KernelError>(module),
                Err(why) => r is Err && r->Err_0@ == ErrorView::Runtime(
                    "Failed to load wasm module: "@ + why@,
                ),
            },
    {
        match compiled {
            Ok(module) => Ok(module),
            Err(why) => Err(
                KernelError::Runtime(cat2("Failed to load wasm module: ", why.as_str())),
            ),
        }
    }

    /// Compiles a module for the engine; the error tells why it does not compile.
    /// [`WasmRuntime::loaded`] tells what comes of each answer.
    pub fn load_module(&self, wasm_bytes: &[u8]) -> (r: Result<
        std::sync::Arc<wasmtime::Module>,
        KernelError,
    >)
        ensures
            r is Err ==> module_unloadable(r->Err_0@),
    {
        Self::loaded(compile_module(self.engine(), wasm_bytes))
    }

    /// Puts a body under a name, in place of the one that stands there.
    fn upsert_import(&mut self, import_name: String, body: StepBody)
        requires
            old(self).wf(),
        ensures
            final(self).wf(),
            final(self)@ == old(self)@.insert(import_name@, body),
            final(self).engine_view() == old(self).engine_view(),
    {
        self.additional_imports.insert(import_name, Held { body });
    }

    /// Registers a plugin's body for a step type.
    pub fn register_trait_step_type(&mut self, name: &str, func: BodyId)
        requires
            old(self).wf(),
        ensures
            final(self).wf(),
            final(self)@ == old(self)@.insert(import_name(name@), StepBody::Plugin(func)),
            final(self).engine_view() == old(self).engine_view(),
    {
        self.upsert_import(import_name_of(name), StepBody::Plugin(func));
    }

    /// Registers a body of the engine for a step type.
    pub fn register_intrinsic_step_type(&mut self, name: &str, func: BodyId)
        requires
            old(self).wf(),
        ensures
            final(self).wf(),
            final(self)@ == old(self)@.insert(import_name(name@), StepBody::Intrinsic(func)),
            final(self).engine_view() == old(self).engine_view(),
    {
        self.upsert_import(import_name_of(name), StepBody::Intrinsic(func));
    }

    /// Registers the dispatcher for an alias.
    pub fn register_alias(&mut self, name: &str)
        requires
            old(self).wf(),
        ensures
            final(self).wf(),
            final(self)@ == old(self)@.insert(import_name(name@), StepBody::AliasDispatch),
            final(self).engine_view() == old(self).engine_view(),
    {
        self.upsert_import(import_name_of(name), StepBody::AliasDispatch);
    }

    /// Removes the body of a step type.
    pub fn remove_step_type(&mut self, name: &str)
        requires
            old(self).wf(),
        ensures
            final(self).wf(),
            final(self)@ == old(self)@.remove(import_name(name@)),
            final(self).engine_view() == old(self).engine_view(),
    {
        self.additional_imports.remove(&import_name_of(name));
    }

    /// The body behind a host function.
    pub fn get(&self, import_name: &str) -> (r: Option<StepBody>)
        requires
            self.wf(),
        ensures
            r == at(self@, import_name@),
    {
        match self.additional_imports.get(&import_name.to_owned()) {
            Some(h) => Some(h.body),
            None => None,
        }
    }

    /// The bodies with their names, for a linker: each name once.
    pub fn linker_imports(&self) -> (r: Vec<(&str, StepBody)>)
        requires
            self.wf(),
        ensures
            r@.len() == self.order().len(),
            lists(self.order(), self@),
            forall|i: int|
                0 <= i < r@.len() ==> ((#[trigger] r@[i]).0@, r@[i].1) == self.order()[i],
    {
        let n: usize = self.additional_imports.len();
        let mut r: Vec<(&str, StepBody)> = Vec::new();
        let mut i: usize = 0;
        while i < n
            invariant
                n == self.order().len(),
                i <= n,
                r@.len() == i,
                forall|j: int| 0 <= j < i ==> ((#[trigger] r@[j]).0@, r@[j].1) == self.order()[j],
            decreases n - i,
        {
            let (name, held) = self.additional_imports.entry(i);
            r.push((name.as_str(), held.body));
            i += 1;
        }
        r
    }
}

} // verus!
