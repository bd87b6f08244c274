//! Core logic of a WebAssembly host bridge.

pub mod error;
pub mod import_laws;
pub mod imports;
pub mod layout_laws;
pub mod linker;
pub mod memory;
pub mod resources;
pub mod size_description;
pub mod size_math;
pub mod wasi;
