//! Host functions of the WASI interfaces, registered with a linker.

pub mod environment;
pub mod monotonic_clock;
