use doji::error::{RuntimeError, RuntimeErrorContext};
use doji::value::ValueType;

fn main_context() -> RuntimeErrorContext {
    RuntimeErrorContext {
        path: "src/main.doji".into(),
        chunk_name: "main".into(),
        bytecode_offset: 399,
    }
}

#[test]
fn display_invalid_code_offset() {
    let context = main_context();
    let error = RuntimeError::invalid_bytecode_offset(context);

    assert_eq!(
        error.to_string(),
        "runtime error: src/main.doji:main:399: invalid code offset"
    );
}

#[test]
fn display_invalid_constant_index() {
    let context = main_context();
    let error = RuntimeError::invalid_constant_index(context, 42);

    assert_eq!(
        error.to_string(),
        "runtime error: src/main.doji:main:399: invalid constant index: 42"
    );
}

#[test]
fn display_invalid_chunk_index() {
    let context = main_context();
    let error = RuntimeError::invalid_chunk_index(context, 42);

    assert_eq!(
        error.to_string(),
        "runtime error: src/main.doji:main:399: invalid chunk index: 42"
    );
}

#[test]
fn display_invalid_stack_slot() {
    let context = main_context();
    let error = RuntimeError::invalid_stack_slot(context, 42);

    assert_eq!(
        error.to_string(),
        "runtime error: src/main.doji:main:399: invalid stack slot: 42"
    );
}

#[test]
fn display_invalid_type() {
    let context = main_context();
    let error = RuntimeError::invalid_type(context, &[ValueType::Int, ValueType::Float], ValueType::Bool);

    assert_eq!(
        error.to_string(),
        "runtime error: src/main.doji:main:399: invalid type: expected int, float, received bool"
    );
}

#[test]
fn display_other_kinds() {
    let e = RuntimeError::stack_underflow(main_context());
    assert_eq!(e.to_string(), "runtime error: src/main.doji:main:399: stack underflow");
    let e = RuntimeError::operand_width_exceeded(main_context());
    assert_eq!(e.to_string(), "runtime error: src/main.doji:main:399: operand width exceeded");
    let zero = RuntimeErrorContext { path: "m".into(), chunk_name: "f".into(), bytecode_offset: 0 };
    let e = RuntimeError::invalid_stack_slot(zero, 1000);
    assert_eq!(e.to_string(), "runtime error: m:f:0: invalid stack slot: 1000");
}
