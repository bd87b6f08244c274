# wasm_bridge

The logic of a host bridge for WebAssembly guests, verified with Verus.

- `src/size_description.rs`: size, alignment, argument count and field layout of
  records (structs, tuples), flag-like enums and variants, derived from their
  parts; `src/layout_laws.rs` proves what every such layout keeps.
- `src/memory.rs`: a guest's linear memory with reads and writes at offsets, and
  the laws relating them.
- `src/imports.rs`, `src/linker.rs`, `src/import_laws.rs`: host functions
  registered by namespace and name, the import object built from them, and its laws.
- `src/resources.rs`: resource handles.
- `src/wasi/`: registration of the WASI environment and monotonic-clock functions.

`app/` holds the JavaScript side: the JS import object, the JS-backed memory,
the browser clock and the keep-alive handles.
