use doji::compile::compile;
use doji::container::{get, key_equal, values_equal};
use doji::error::RuntimeErrorKind;
use doji::heap::{Heap, Object};
use doji::instruction::Instruction;
use doji::opcode;
use doji::operand::{CodeOffset, ConstantIndex, IntImmediate, StackSlot, UpvalueIndex};
use doji::ops::{arith, bitwise, compare, logic, negate, not, ArithOp, BitOp, CompareOp, FloatOp};
use doji::value::{Value, ValueType};

fn floats(op: FloatOp, a: u64, b: u64) -> u64 {
    let x = f64::from_bits(a);
    let y = f64::from_bits(b);
    match op {
        FloatOp::Add => (x + y).to_bits(),
        FloatOp::Sub => (x - y).to_bits(),
        FloatOp::Mul => (x * y).to_bits(),
        FloatOp::Div => (x / y).to_bits(),
        FloatOp::Neg => (-x).to_bits(),
        FloatOp::FromInt => (a as i64 as f64).to_bits(),
        FloatOp::Eq => (x == y) as u64,
        FloatOp::Lt => (x < y) as u64,
        FloatOp::Lte => (x <= y) as u64,
        FloatOp::Gt => (x > y) as u64,
        FloatOp::Gte => (x >= y) as u64,
    }
}

fn float(x: f64) -> Value {
    Value::Float(x.to_bits())
}

fn wrong_type(r: Result<Value, RuntimeErrorKind>) -> (Vec<ValueType>, ValueType) {
    match r {
        Err(RuntimeErrorKind::InvalidType { expected, received }) => (expected, received),
        other => panic!("expected a type error, got {:?}", other),
    }
}

#[test]
fn integer_arithmetic() {
    assert_eq!(arith(ArithOp::Add, Value::Int(3), Value::Int(4), &floats).unwrap(), Value::Int(7));
    assert_eq!(arith(ArithOp::Sub, Value::Int(3), Value::Int(4), &floats).unwrap(), Value::Int(-1));
    assert_eq!(arith(ArithOp::Mul, Value::Int(-3), Value::Int(4), &floats).unwrap(), Value::Int(-12));
    assert_eq!(arith(ArithOp::Div, Value::Int(-7), Value::Int(2), &floats).unwrap(), Value::Int(-3));
    assert_eq!(arith(ArithOp::Rem, Value::Int(-7), Value::Int(2), &floats).unwrap(), Value::Int(-1));
    assert_eq!(arith(ArithOp::Add, Value::Int(i64::MAX), Value::Int(1), &floats).unwrap(), Value::Int(i64::MIN));
    assert_eq!(arith(ArithOp::Div, Value::Int(i64::MIN), Value::Int(-1), &floats).unwrap(), Value::Int(i64::MIN));
    assert_eq!(arith(ArithOp::Rem, Value::Int(i64::MIN), Value::Int(-1), &floats).unwrap(), Value::Int(0));
    assert!(matches!(arith(ArithOp::Div, Value::Int(1), Value::Int(0), &floats), Err(RuntimeErrorKind::DivisionByZero)));
    assert!(matches!(arith(ArithOp::Rem, Value::Int(1), Value::Int(0), &floats), Err(RuntimeErrorKind::DivisionByZero)));
}

#[test]
fn float_promotion() {
    assert_eq!(arith(ArithOp::Add, Value::Int(1), float(2.5), &floats).unwrap(), float(3.5));
    assert_eq!(arith(ArithOp::Sub, float(2.5), Value::Int(1), &floats).unwrap(), float(1.5));
    assert_eq!(arith(ArithOp::Mul, float(2.5), float(2.0), &floats).unwrap(), float(5.0));
    assert_eq!(arith(ArithOp::Div, Value::Int(1), float(4.0), &floats).unwrap(), float(0.25));
    assert_eq!(arith(ArithOp::Div, float(1.0), Value::Int(0), &floats).unwrap(), float(f64::INFINITY));
    let (expected, received) = wrong_type(arith(ArithOp::Rem, Value::Int(1), float(2.0), &floats));
    assert_eq!(expected, vec![ValueType::Int]);
    assert_eq!(received, ValueType::Float);
}

#[test]
fn arithmetic_type_errors() {
    let (expected, received) = wrong_type(arith(ArithOp::Add, Value::Bool(true), Value::Int(1), &floats));
    assert_eq!(expected, vec![ValueType::Int, ValueType::Float]);
    assert_eq!(received, ValueType::Bool);
    let (_, received) = wrong_type(arith(ArithOp::Add, Value::Int(1), Value::Nil, &floats));
    assert_eq!(received, ValueType::Nil);
    let (_, received) = wrong_type(compare(CompareOp::Lt, Value::Int(1), Value::Nil, &floats));
    assert_eq!(received, ValueType::Nil);
    let (expected, _) = wrong_type(not(Value::Int(1)));
    assert_eq!(expected, vec![ValueType::Bool]);
    let (expected, received) = wrong_type(bitwise(BitOp::And, Value::Int(1), float(1.0)));
    assert_eq!(expected, vec![ValueType::Int]);
    assert_eq!(received, ValueType::Float);
    let (_, received) = wrong_type(logic(true, Value::Bool(true), Value::Int(0)));
    assert_eq!(received, ValueType::Int);
}

#[test]
fn comparisons_and_logic() {
    assert_eq!(compare(CompareOp::Gt, Value::Int(3), Value::Int(2), &floats).unwrap(), Value::Bool(true));
    assert_eq!(compare(CompareOp::Lte, Value::Int(3), Value::Int(2), &floats).unwrap(), Value::Bool(false));
    assert_eq!(compare(CompareOp::Lt, Value::Int(2), float(2.5), &floats).unwrap(), Value::Bool(true));
    assert_eq!(compare(CompareOp::Gte, float(f64::NAN), Value::Int(0), &floats).unwrap(), Value::Bool(false));
    assert_eq!(negate(Value::Int(5), &floats).unwrap(), Value::Int(-5));
    assert_eq!(negate(Value::Int(i64::MIN), &floats).unwrap(), Value::Int(i64::MIN));
    assert_eq!(negate(float(1.5), &floats).unwrap(), float(-1.5));
    assert_eq!(not(Value::Bool(false)).unwrap(), Value::Bool(true));
    assert_eq!(logic(true, Value::Bool(true), Value::Bool(false)).unwrap(), Value::Bool(false));
    assert_eq!(logic(false, Value::Bool(true), Value::Bool(false)).unwrap(), Value::Bool(true));
    assert_eq!(bitwise(BitOp::Xor, Value::Int(0b1100), Value::Int(0b1010)).unwrap(), Value::Int(0b0110));
    assert_eq!(bitwise(BitOp::Shl, Value::Int(1), Value::Int(65)).unwrap(), Value::Int(2));
    assert_eq!(bitwise(BitOp::Shr, Value::Int(-8), Value::Int(1)).unwrap(), Value::Int(-4));
}

#[test]
fn equality() {
    let mut heap = Heap::new();
    let a = heap.allocate(Object::String("key".to_string()));
    let b = heap.allocate(Object::String("key".to_string()));
    let c = heap.allocate(Object::String("other".to_string()));
    let l1 = heap.allocate(Object::List(vec![]));
    let l2 = heap.allocate(Object::List(vec![]));
    assert!(values_equal(&heap, Value::String(a), Value::String(b), &floats));
    assert!(!values_equal(&heap, Value::String(a), Value::String(c), &floats));
    assert!(values_equal(&heap, Value::List(l1), Value::List(l1), &floats));
    assert!(!values_equal(&heap, Value::List(l1), Value::List(l2), &floats));
    assert!(values_equal(&heap, Value::Int(3), float(3.0), &floats));
    assert!(!values_equal(&heap, float(f64::NAN), float(f64::NAN), &floats));
    assert!(values_equal(&heap, Value::Nil, Value::Nil, &floats));
    assert!(!values_equal(&heap, Value::Nil, Value::Bool(false), &floats));
    assert!(key_equal(&heap, float(f64::NAN), float(f64::NAN)));
    assert!(!key_equal(&heap, Value::Int(3), float(3.0)));
    assert!(key_equal(&heap, Value::String(a), Value::String(b)));
}

#[test]
fn list_set_extends_with_nil() {
    let mut heap = Heap::new();
    let l = heap.allocate(Object::List(vec![Value::Int(1)]));
    doji::container::set(&mut heap, Value::List(l), Value::Int(3), Value::Int(9)).unwrap();
    match heap.get(l) {
        Some(Object::List(items)) => assert_eq!(items, &vec![Value::Int(1), Value::Nil, Value::Nil, Value::Int(9)]),
        _ => panic!("not a list"),
    }
    doji::container::set(&mut heap, Value::List(l), Value::Int(0), Value::Bool(true)).unwrap();
    assert_eq!(get(&heap, Value::List(l), Value::Int(0)).unwrap(), Value::Bool(true));
    assert_eq!(get(&heap, Value::List(l), Value::Int(2)).unwrap(), Value::Nil);
    assert_eq!(get(&heap, Value::List(l), Value::Int(4)).unwrap(), Value::Nil);
    assert_eq!(get(&heap, Value::List(l), Value::Int(-1)).unwrap(), Value::Nil);
    assert!(matches!(
        doji::container::set(&mut heap, Value::List(l), Value::Int(-1), Value::Nil),
        Err(RuntimeErrorKind::IndexOutOfRange)
    ));
    let (expected, received) = wrong_type(get(&heap, Value::List(l), Value::Bool(true)));
    assert_eq!(expected, vec![ValueType::Int]);
    assert_eq!(received, ValueType::Bool);
}

#[test]
fn map_set_then_get_and_overwrite() {
    let mut heap = Heap::new();
    let m = heap.allocate(Object::Dict(vec![]));
    let k1 = heap.allocate(Object::String("name".to_string()));
    let k2 = heap.allocate(Object::String("name".to_string()));
    assert_eq!(get(&heap, Value::Dict(m), Value::String(k1)).unwrap(), Value::Nil);
    doji::container::set(&mut heap, Value::Dict(m), Value::String(k1), Value::Int(1)).unwrap();
    assert_eq!(get(&heap, Value::Dict(m), Value::String(k2)).unwrap(), Value::Int(1));
    doji::container::set(&mut heap, Value::Dict(m), Value::String(k2), Value::Int(2)).unwrap();
    assert_eq!(get(&heap, Value::Dict(m), Value::String(k1)).unwrap(), Value::Int(2));
    doji::container::set(&mut heap, Value::Dict(m), float(f64::NAN), Value::Int(3)).unwrap();
    assert_eq!(get(&heap, Value::Dict(m), float(f64::NAN)).unwrap(), Value::Int(3));
    match heap.get(m) {
        Some(Object::Dict(pairs)) => assert_eq!(pairs.len(), 2),
        _ => panic!("not a map"),
    }
    let (expected, received) = wrong_type(get(&heap, Value::Int(1), Value::Int(0)));
    assert_eq!(expected, vec![ValueType::List, ValueType::Dict]);
    assert_eq!(received, ValueType::Int);
}

#[test]
fn instruction_words() {
    let i = Instruction::new(opcode::INT, 0xFF_FFFF);
    assert_eq!(i.opcode(), opcode::INT);
    assert_eq!(i.operand(), 0xFF_FFFF);
    assert_eq!(i.signed_operand(), -1);
    let j = Instruction::new(opcode::JUMP, 0x7F_FFFF);
    assert_eq!(j.signed_operand(), 0x7F_FFFF);
    assert_eq!(j.0, 0x7FFF_FF33);
}

#[test]
fn operands() {
    assert_eq!(StackSlot(7).as_usize(), 7);
    assert_eq!(IntImmediate(-5).as_i64(), -5);
    assert_eq!(ConstantIndex(9).as_usize(), 9);
    assert_eq!(UpvalueIndex(2).as_usize(), 2);
    assert_eq!(CodeOffset::zero().increment().increment().as_usize(), 2);
}

#[test]
fn compiled_program() {
    let p = compile("3 + 4");
    assert_eq!(p.functions.len(), 2);
    let ops: Vec<u8> = p.functions[0].code.iter().map(|i| i.opcode()).collect();
    assert_eq!(
        ops,
        vec![opcode::INT, opcode::INT, opcode::ADD, opcode::CLOSURE, opcode::SPAWN, opcode::INT, opcode::YIELD, opcode::RETURN]
    );
    assert_eq!(p.functions[1].code[0].operand(), 5000);
}

#[test]
fn instruction_text() {
    assert_eq!(Instruction::new(opcode::INT, 3).to_string(), "INT 3");
    assert_eq!(Instruction::new(opcode::CONST, 12).to_string(), "CONST 12");
    assert_eq!(Instruction::new(opcode::ADD, 0).to_string(), "ADD");
    assert_eq!(Instruction::new(opcode::BIT_AND, 0).to_string(), "BITAND");
    assert_eq!(Instruction::new(opcode::UPVAL_STORE, 1).to_string(), "UPVAL_STORE 1");
    assert_eq!(Instruction::new(0xFF, 0).to_string(), "UNKNOWN");
}

#[test]
fn rem_names_first_non_integer() {
    let (expected, received) = wrong_type(arith(ArithOp::Rem, float(1.0), Value::Bool(true), &floats));
    assert_eq!(expected, vec![ValueType::Int]);
    assert_eq!(received, ValueType::Float);
    let (_, received) = wrong_type(arith(ArithOp::Rem, Value::Int(1), Value::Nil, &floats));
    assert_eq!(received, ValueType::Nil);
    let (_, received) = wrong_type(arith(ArithOp::Rem, Value::Nil, Value::Int(1), &floats));
    assert_eq!(received, ValueType::Nil);
}
