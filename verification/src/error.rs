use vstd::prelude::*;

verus! {

/// An error raised by the host: a message describing what failed.
#[derive(Debug)]
pub struct Error {
    pub message: String,
}

} // verus!
