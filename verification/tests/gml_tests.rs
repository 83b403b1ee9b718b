use gm8core::gml::compiler::{Compiler, Error};

#[test]
fn new_compiler_is_empty() {
    let c = Compiler::new(64);
    assert!(c.fields.is_empty());
}

#[test]
fn compile_yields_no_instructions() {
    let mut c = Compiler::new(0);
    let instructions = c.compile("x = 1").unwrap();
    assert!(instructions.is_empty());
    assert!(c.fields.is_empty());
}

#[test]
fn compile_expression_is_unsupported() {
    let mut c = Compiler::new(0);
    match c.compile_expression("1 + 2") {
        Err(Error::GMLError(msg)) => assert!(!msg.is_empty()),
        _ => panic!("expression compilation must report an error"),
    }
}
