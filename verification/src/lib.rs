//! A microkernel for plugins.
//!
//! Plugins come as manifests that declare actions made of steps. The kernel registers manifests,
//! decides who may use what, and schedules steps; what runs asynchronously asks it what to do next
//! and tells it what came of that.

pub mod classify;
pub mod commit;
pub mod config;
pub mod control;
pub mod dataflow;
pub mod duplicate;
pub mod error;
pub mod exec_state;
pub mod fanout;
pub mod identity;
pub mod index_map;
pub mod json;
pub mod kernel;
pub mod laws;
pub mod limits;
pub mod manifest;
pub mod manifest_checks;
pub mod native_impls;
pub mod outcomes;
pub mod permissions;
pub mod registration;
pub mod registry;
pub mod resource_budget;
pub mod spi;
pub mod step_dispatch;
pub mod step_shapes;
pub mod table;
pub mod text;
pub mod wallclock;
pub mod wasm_modules;
pub mod wasm_runtime;
pub mod waves;
