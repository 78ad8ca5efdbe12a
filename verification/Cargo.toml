[package]
name = "gwead"
version = "0.1.0"
edition = "2021"
publish = false

[dependencies]
base64 = "=0.22.1"
futures = "=0.3.34"
indexmap = "=2.14.2"
inventory = "=0.3.25"
regex = "=1.13.1"
serde_json = "=1.0.154"
tokio = { version = "=1.54.1", features = ["macros", "rt", "rt-multi-thread", "sync", "time"] }
tokio-util = "=0.7.20"
tracing = "=0.1.44"
wasmtime = { version = "=46.0.3", default-features = false, features = ["async", "cranelift", "runtime", "std"] }
