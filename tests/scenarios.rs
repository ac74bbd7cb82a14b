use doji::engine::{Action, Engine};
use doji::error::Error;
use doji::function::{Constant, Function, FunctionBuilder, Program, UpvalueDescriptor};
use doji::heap::Object;
use doji::opcode;
use doji::ops::FloatOp;
use doji::state::Step;
use doji::value::{Value, ValueType};

fn floats(op: FloatOp, a: u64, b: u64) -> u64 {
    let x = f64::from_bits(a);
    let y = f64::from_bits(b);
    match op {
        FloatOp::Add => (x + y).to_bits(),
        FloatOp::Sub => (x - y).to_bits(),
        FloatOp::Mul => (x * y).to_bits(),
        FloatOp::Div => (x / y).to_bits(),
        FloatOp::Neg => (-x).to_bits(),
        FloatOp::FromInt => (a as i64 as f64).to_bits(),
        FloatOp::Eq => (x == y) as u64,
        FloatOp::Lt => (x < y) as u64,
        FloatOp::Lte => (x <= y) as u64,
        FloatOp::Gt => (x > y) as u64,
        FloatOp::Gte => (x >= y) as u64,
    }
}

fn function(name: &str, arity: usize, code: &[(u8, u32)]) -> FunctionBuilder {
    let mut b = FunctionBuilder::new(name.to_string(), arity);
    for &(op, operand) in code {
        b.instruction(op, operand);
    }
    b
}

fn program(functions: Vec<Function>) -> Program {
    Program { path: "src/main.doji".to_string(), functions }
}

/// Steps until something other than `Continue` comes out.
fn run(engine: &mut Engine) -> Result<Step, Error> {
    loop {
        match engine.step(&floats) {
            Ok(Step::Continue) => {}
            other => return other,
        }
    }
}

fn evaluate(p: Program) -> (Engine, Result<Step, Error>) {
    let mut engine = Engine::new(p);
    engine.start();
    let r = run(&mut engine);
    (engine, r)
}

#[test]
fn add_two_ints() {
    let main = function("main", 0, &[(opcode::INT, 3), (opcode::INT, 4), (opcode::ADD, 0), (opcode::RETURN, 0)]);
    let (_, r) = evaluate(program(vec![main.build()]));
    assert_eq!(r.unwrap(), Step::Return(Value::Int(7)));
}

#[test]
fn mixed_arith() {
    let mut main = function("main", 0, &[(opcode::INT, 1)]);
    let k = main.constant(Constant::Float(2.5f64.to_bits()));
    main.instruction(opcode::CONST, k as u32);
    main.instruction(opcode::ADD, 0);
    main.instruction(opcode::RETURN, 0);
    let (_, r) = evaluate(program(vec![main.build()]));
    assert_eq!(r.unwrap(), Step::Return(Value::Float(3.5f64.to_bits())));
}

#[test]
fn closure_count() {
    let mut main = function(
        "main",
        0,
        &[
            (opcode::CLOSURE, 0),
            (opcode::CALL, 0),
            (opcode::LOAD, 1),
            (opcode::CALL, 0),
            (opcode::LOAD, 1),
            (opcode::CALL, 0),
            (opcode::LOAD, 1),
            (opcode::CALL, 0),
            (opcode::LIST, 0),
            (opcode::LOAD, 5),
            (opcode::INT, 0),
            (opcode::LOAD, 2),
            (opcode::OBJ_SET, 0),
            (opcode::LOAD, 5),
            (opcode::INT, 1),
            (opcode::LOAD, 3),
            (opcode::OBJ_SET, 0),
            (opcode::LOAD, 5),
            (opcode::INT, 2),
            (opcode::LOAD, 4),
            (opcode::OBJ_SET, 0),
            (opcode::LOAD, 5),
            (opcode::RETURN, 0),
        ],
    );
    main.function(1);
    let mut outer = function("outer", 0, &[(opcode::INT, 0), (opcode::CLOSURE, 0), (opcode::RETURN, 0)]);
    outer.function(2);
    let mut inner = function(
        "inner",
        0,
        &[
            (opcode::UPVAL_LOAD, 0),
            (opcode::INT, 1),
            (opcode::ADD, 0),
            (opcode::DUP, 0),
            (opcode::UPVAL_STORE, 0),
            (opcode::RETURN, 0),
        ],
    );
    inner.upvalue(UpvalueDescriptor::Local(1));
    let (engine, r) = evaluate(program(vec![main.build(), outer.build(), inner.build()]));
    let list = match r.unwrap() {
        Step::Return(Value::List(h)) => h,
        other => panic!("unexpected step {:?}", other),
    };
    match engine.heap().get(list) {
        Some(Object::List(items)) => assert_eq!(items, &vec![Value::Int(1), Value::Int(2), Value::Int(3)]),
        _ => panic!("not a list"),
    }
}

#[test]
fn yield_sleep() {
    let main = function("main", 0, &[(opcode::INT, 10), (opcode::YIELD, 0), (opcode::RETURN, 0)]);
    let mut engine = Engine::new(program(vec![main.build()]));
    engine.start();
    let id = match run(&mut engine).unwrap() {
        Step::Yield(id, op) => {
            assert_eq!(op, Value::Int(10));
            id
        }
        other => panic!("unexpected step {:?}", other),
    };
    assert_eq!(run(&mut engine).unwrap(), Step::Park);
    engine.wake(id, Value::Nil).unwrap();
    assert_eq!(run(&mut engine).unwrap(), Step::Return(Value::Nil));
}

#[test]
fn two_fibers_interleave() {
    let mut main = function(
        "main",
        0,
        &[
            (opcode::CLOSURE, 0),
            (opcode::SPAWN, 0),
            (opcode::POP, 0),
            (opcode::CLOSURE, 0),
            (opcode::SPAWN, 0),
            (opcode::POP, 0),
            (opcode::INT, 0),
            (opcode::YIELD, 0),
            (opcode::RETURN, 0),
        ],
    );
    main.function(1);
    let child = function("child", 0, &[(opcode::YIELD, 0), (opcode::RETURN, 0)]);
    let mut engine = Engine::new(program(vec![main.build(), child.build()]));
    engine.start();
    let mut ids = Vec::new();
    let mut ops = Vec::new();
    for _ in 0..3 {
        match run(&mut engine).unwrap() {
            Step::Yield(id, op) => {
                ids.push(id);
                ops.push(op);
            }
            other => panic!("unexpected step {:?}", other),
        }
    }
    assert!(matches!(ops[0], Value::Closure(_)));
    assert!(matches!(ops[1], Value::Closure(_)));
    assert_eq!(ops[2], Value::Int(0));
    assert_ne!(ids[0], ids[1]);
    assert_ne!(ids[1], ids[2]);
    assert_ne!(ids[0], ids[2]);
    assert_eq!(run(&mut engine).unwrap(), Step::Park);
    engine.wake(ids[2], Value::Nil).unwrap();
    assert_eq!(run(&mut engine).unwrap(), Step::Return(Value::Nil));
}

#[test]
fn type_error_add_bool() {
    let main = function("main", 0, &[(opcode::TRUE, 0), (opcode::INT, 1), (opcode::ADD, 0), (opcode::RETURN, 0)]);
    let (_, r) = evaluate(program(vec![main.build()]));
    match r {
        Err(Error::Runtime(e)) => {
            match e.kind() {
                doji::error::RuntimeErrorKind::InvalidType { expected, received } => {
                    assert_eq!(expected, &vec![ValueType::Int, ValueType::Float]);
                    assert_eq!(*received, ValueType::Bool);
                }
                other => panic!("unexpected kind {:?}", other),
            }
            assert_eq!(
                e.to_string(),
                "runtime error: src/main.doji:main:2: invalid type: expected int, float, received bool"
            );
        }
        other => panic!("unexpected result {:?}", other),
    }
}

#[test]
fn int_immediate() {
    let main = function("main", 0, &[(opcode::INT, 0x23), (opcode::RETURN, 0)]);
    let (_, r) = evaluate(program(vec![main.build()]));
    assert_eq!(r.unwrap(), Step::Return(Value::Int(0x23)));
}

#[test]
fn ext() {
    let main = function("main", 0, &[(opcode::INT, 0x1234), (opcode::RETURN, 0)]);
    let (_, r) = evaluate(program(vec![main.build()]));
    assert_eq!(r.unwrap(), Step::Return(Value::Int(0x1234)));
}

#[test]
fn add() {
    let main = function(
        "main",
        0,
        &[(opcode::INT, 0x12), (opcode::INT, 0x34), (opcode::ADD, 0), (opcode::INT, 0x56), (opcode::ADD, 0), (opcode::RETURN, 0)],
    );
    let (_, r) = evaluate(program(vec![main.build()]));
    assert_eq!(r.unwrap(), Step::Return(Value::Int(0x9c)));
}

#[test]
fn negative_immediate_and_jump() {
    // x = -3; while x < 0 { x = x + 1 }; return x
    let main = function(
        "main",
        0,
        &[
            (opcode::INT, 0xFF_FFFD),
            (opcode::LOAD, 1),
            (opcode::INT, 0),
            (opcode::LT, 0),
            (opcode::TEST, 0),
            (opcode::JUMP, 5),
            (opcode::LOAD, 1),
            (opcode::INT, 1),
            (opcode::ADD, 0),
            (opcode::STORE, 1),
            (opcode::JUMP, 0xFF_FFF6),
            (opcode::LOAD, 1),
            (opcode::RETURN, 0),
        ],
    );
    let (_, r) = evaluate(program(vec![main.build()]));
    assert_eq!(r.unwrap(), Step::Return(Value::Int(0)));
}

#[test]
fn wrong_arity_is_reported() {
    let mut main = function("main", 0, &[(opcode::CLOSURE, 0), (opcode::INT, 1), (opcode::CALL, 1), (opcode::RETURN, 0)]);
    main.function(1);
    let callee = function("callee", 0, &[(opcode::NIL, 0), (opcode::RETURN, 0)]);
    let (_, r) = evaluate(program(vec![main.build(), callee.build()]));
    match r {
        Err(Error::Runtime(e)) => assert_eq!(
            e.to_string(),
            "runtime error: src/main.doji:main:2: wrong arity: expected 0, received 1"
        ),
        other => panic!("unexpected result {:?}", other),
    }
}

#[test]
fn wake_of_unknown_id_fails() {
    let main = function("main", 0, &[(opcode::INT, 10), (opcode::YIELD, 0), (opcode::RETURN, 0)]);
    let mut engine = Engine::new(program(vec![main.build()]));
    engine.start();
    let id = match run(&mut engine).unwrap() {
        Step::Yield(id, _) => id,
        other => panic!("unexpected step {:?}", other),
    };
    engine.wake(id, Value::Int(1)).unwrap();
    match engine.wake(id, Value::Int(1)) {
        Err(Error::Engine(e)) => assert_eq!(e.to_string(), "tried to wake a non-existent fiber"),
        other => panic!("unexpected result {:?}", other),
    }
    assert_eq!(run(&mut engine).unwrap(), Step::Return(Value::Int(1)));
}

#[test]
fn collect_keeps_parked_and_rooted_values() {
    let main = function("main", 0, &[(opcode::LIST, 0), (opcode::INT, 10), (opcode::YIELD, 0), (opcode::RETURN, 0)]);
    let mut engine = Engine::new(program(vec![main.build()]));
    let fiber = engine.start();
    let _ = run(&mut engine).unwrap();
    let loose = engine.closure(0);
    let kept = engine.closure(0);
    let token = engine.root(kept);
    engine.collect();
    assert!(engine.heap().is_live(fiber));
    assert!(engine.heap().is_live(fiber + 1));
    assert!(!engine.heap().is_live(loose.handle().unwrap()));
    assert!(engine.heap().is_live(kept.handle().unwrap()));
    assert_eq!(engine.unroot(token), Some(kept));
    engine.collect();
    assert!(!engine.heap().is_live(kept.handle().unwrap()));
}

#[test]
fn fibers_run_in_queue_order() {
    let mut main = function(
        "main",
        0,
        &[
            (opcode::CLOSURE, 0),
            (opcode::SPAWN, 0),
            (opcode::POP, 0),
            (opcode::CLOSURE, 1),
            (opcode::SPAWN, 0),
            (opcode::POP, 0),
            (opcode::CLOSURE, 2),
            (opcode::SPAWN, 0),
            (opcode::POP, 0),
            (opcode::INT, 0),
            (opcode::YIELD, 0),
            (opcode::RETURN, 0),
        ],
    );
    main.function(1);
    main.function(2);
    main.function(3);
    let child = |k: u32| {
        function(
            "child",
            0,
            &[(opcode::INT, k), (opcode::YIELD, 0), (opcode::POP, 0), (opcode::INT, k + 10), (opcode::YIELD, 0), (opcode::RETURN, 0)],
        )
        .build()
    };
    let mut engine = Engine::new(program(vec![main.build(), child(1), child(2), child(3)]));
    engine.start();
    let mut seen = Vec::new();
    let result = loop {
        match run(&mut engine).unwrap() {
            Step::Yield(id, Value::Int(k)) => {
                seen.push(k);
                engine.wake(id, Value::Nil).unwrap();
            }
            Step::Return(v) => break v,
            other => panic!("unexpected step {:?}", other),
        }
    };
    assert_eq!(result, Value::Nil);
    assert_eq!(seen, vec![1, 11, 2, 12, 3, 0]);
}

#[test]
fn host_loop_actions() {
    let main = function("main", 0, &[(opcode::INT, 10), (opcode::YIELD, 0), (opcode::RETURN, 0)]);
    let mut engine = Engine::new(program(vec![main.build()]));
    engine.start();
    let id = match engine.drive(&floats, 100, vec![]).unwrap() {
        Action::Dispatch(id, op) => {
            assert_eq!(op, Value::Int(10));
            id
        }
        other => panic!("unexpected action {:?}", other),
    };
    assert_eq!(engine.drive(&floats, 100, vec![]).unwrap(), Action::Wait);
    assert_eq!(engine.drive(&floats, 100, vec![(id, Value::Nil)]).unwrap(), Action::Finish(Value::Nil));
    assert!(engine.drive(&floats, 100, vec![(id, Value::Nil)]).is_err());
}

#[test]
fn budget_bounds_a_run() {
    let main = function("main", 0, &[(opcode::NIL, 0), (opcode::POP, 0), (opcode::INT, 5), (opcode::RETURN, 0)]);
    let mut engine = Engine::new(program(vec![main.build()]));
    engine.start();
    assert_eq!(engine.drive(&floats, 2, vec![]).unwrap(), Action::Poll);
    assert_eq!(engine.drive(&floats, 2, vec![]).unwrap(), Action::Finish(Value::Int(5)));
}

#[test]
fn return_closes_upvalue_on_returned_slot() {
    let mut main = function(
        "main",
        0,
        &[(opcode::CLOSURE, 0), (opcode::CALL, 0), (opcode::INT, 99), (opcode::LOAD, 1), (opcode::CALL, 0), (opcode::RETURN, 0)],
    );
    main.function(1);
    let mut outer = function("outer", 0, &[(opcode::INT, 5), (opcode::CLOSURE, 0), (opcode::STORE, 1), (opcode::RETURN, 0)]);
    outer.function(2);
    let mut inner = function("inner", 0, &[(opcode::UPVAL_LOAD, 0), (opcode::RETURN, 0)]);
    inner.upvalue(UpvalueDescriptor::Local(1));
    let (_, r) = evaluate(program(vec![main.build(), outer.build(), inner.build()]));
    assert!(matches!(r.unwrap(), Step::Return(Value::Closure(_))));
}
