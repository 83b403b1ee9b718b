//! Data the script runtime works on.

use vstd::prelude::*;

verus! {

/// One executable instruction of the runtime.
#[derive(Debug)]
pub enum Instruction {
    /// A placeholder emitted where a source construct cannot be executed;
    /// running it reports the carried message.
    InterpretationError { error: String },
}

/// A runtime error.
pub struct Error {
    pub reason: String,
}

} // verus!
