# gwead

A microkernel for plugins, with its rules proved.

Plugins come as manifests: they declare actions made of steps, step types, the permissions they need
and the roles they fulfil. The kernel decides what may be registered, who may use what, and in which
order steps run.

- `src/` is the library. Every function states what it does, and is proved to.
- `app/` runs what the library decides: the asynchronous drivers, the deadlines, the handles and the
  `wasmtime` linker.
- `tests/` holds examples on concrete values.

Where to begin:

- `identity` and `permissions`: names, namespaces and grants; `permissions::laws` states what holds of
  all grants.
- `registry`, `registration`, `commit` and `kernel`: what is registered, and how manifests are loaded,
  unloaded and reloaded. `kernel::laws` proves that unloading undoes loading, that nothing is left of
  what is not there and that no invoke leads back to where it started; `kernel::reach` proves that
  nothing is reached off a plugin's chain.
- `waves`, `control` and `dataflow`: how steps run, one after the other, nested, or all at once.
- `exec_state`, `outcomes`, `step_dispatch`: what a step leaves behind.
- `limits`, `resource_budget`, `wallclock`: what bounds an execution.

The calls into `serde_json`, `base64`, `regex`, `indexmap` and `wasmtime` stand behind small functions
whose contracts are taken on trust; each says so where it stands.
