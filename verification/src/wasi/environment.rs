//! The `wasi:cli/environment` interface.
use vstd::prelude::*;
use crate::error::Error;
use crate::linker::Linker;

verus! {

/// Registers `get_environment`, the host function that hands the guest its
/// environment variables, as `get-environment` in `wasi:cli/environment@0.2.0`.
pub fn add_to_linker<F>(linker: &mut Linker<F>, get_environment: F) -> (r: Result<(), Error>)
    ensures
        r is Ok,
        final(linker)@ == old(linker)@.push(
            ("wasi:cli/environment@0.2.0"@, "get-environment"@, get_environment),
        ),
{
    match linker.func_wrap("wasi:cli/environment@0.2.0", "get-environment", get_environment) {
        Ok(_) => Ok(()),
        Err(e) => Err(e),
    }
}

} // verus!
