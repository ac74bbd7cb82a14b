//! The compiler's entry point. The source language front end is not part of
//! this core; `compile` yields the program the engine runs for any source:
//! it adds 3 and 4, spawns a fiber that sleeps for 5000 ms, sleeps for
//! 2000 ms itself, and returns what its sleep resumed with.
use vstd::prelude::*;

use crate::function::{FunctionBuilder, Program};
use crate::instruction::Instruction;
use crate::opcode;

verus! {

/// The operand of an instruction that takes none.
pub const NO_OPERAND: u32 = 0;

/// `code` is the sequence of (opcode, operand) pairs `expected`.
pub open spec fn code_is(code: Seq<Instruction>, expected: Seq<(u8, u32)>) -> bool {
    &&& code.len() == expected.len()
    &&& forall|i: int| 0 <= i < code.len() ==> (#[trigger] code[i]).spec_opcode() == expected[i].0
        && code[i].spec_operand() == expected[i].1
}

pub fn compile(_source: &str) -> (r: Program)
    ensures
        r.functions@.len() == 2,
        r.functions@[0].arity == 0,
        r.functions@[0].functions@ == seq![1usize],
        code_is(
            r.functions@[0].code@,
            seq![
                (opcode::INT, 3u32),
                (opcode::INT, 4u32),
                (opcode::ADD, NO_OPERAND),
                (opcode::CLOSURE, 0u32),
                (opcode::SPAWN, NO_OPERAND),
                (opcode::INT, 2000u32),
                (opcode::YIELD, NO_OPERAND),
                (opcode::RETURN, NO_OPERAND),
            ],
        ),
        r.functions@[1].arity == 0,
        r.functions@[1].upvalues@.len() == 0,
        code_is(
            r.functions@[1].code@,
            seq![(opcode::INT, 5000u32), (opcode::YIELD, NO_OPERAND), (opcode::RETURN, NO_OPERAND)],
        ),
{
    let mut inner = FunctionBuilder::new(String::from_str("sleeper"), 0);
    inner.instruction(opcode::INT, 5000);
    inner.instruction(opcode::YIELD, NO_OPERAND);
    inner.instruction(opcode::RETURN, NO_OPERAND);
    let inner = inner.build();
    assert(code_is(
        inner.code@,
        seq![(opcode::INT, 5000u32), (opcode::YIELD, NO_OPERAND), (opcode::RETURN, NO_OPERAND)],
    )) by {
        assert(inner.code@.len() == 3);
    }

    let mut main = FunctionBuilder::new(String::from_str("main"), 0);
    main.instruction(opcode::INT, 3);
    main.instruction(opcode::INT, 4);
    main.instruction(opcode::ADD, NO_OPERAND);
    let index = main.function(1);
    main.instruction(opcode::CLOSURE, index as u32);
    main.instruction(opcode::SPAWN, NO_OPERAND);
    main.instruction(opcode::INT, 2000);
    main.instruction(opcode::YIELD, NO_OPERAND);
    main.instruction(opcode::RETURN, NO_OPERAND);
    let main = main.build();

    let mut functions: Vec<crate::function::Function> = Vec::new();
    functions.push(main);
    functions.push(inner);
    Program { path: String::from_str("<inline>"), functions }
}

} // verus!
