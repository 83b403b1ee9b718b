//! The scripting front end: source-to-instruction compilation for the
//! game's embedded language, and the runtime's data model.

pub mod compiler;
pub mod runtime;
