//! Runtime and engine errors, and their messages.
use vstd::prelude::*;

use crate::text::{decimal, push_decimal};
use crate::value::ValueType;

verus! {

/// Where a runtime error was raised: the module, the function and the
/// instruction offset.
#[derive(Clone, Debug)]
pub struct RuntimeErrorContext {
    pub path: String,
    pub chunk_name: String,
    pub bytecode_offset: usize,
}

impl RuntimeErrorContext {
    pub open spec fn spec_text(&self) -> Seq<char> {
        self.path@ + ":"@ + self.chunk_name@ + ":"@ + decimal(self.bytecode_offset as nat)
    }
}

/// What went wrong while executing an instruction.
#[derive(Clone, Debug)]
pub enum RuntimeErrorKind {
    InvalidBytecodeOffset,
    InvalidConstantIndex(usize),
    InvalidChunkIndex(usize),
    InvalidStackSlot(usize),
    InvalidUpvalueIndex(usize),
    InvalidClosure(usize),
    InvalidType { expected: Vec<ValueType>, received: ValueType },
    WrongArity { expected: usize, received: usize },
    InvalidOpcode(u8),
    OperandWidthExceeded,
    StackUnderflow,
    CallStackUnderflow,
    DivisionByZero,
    IndexOutOfRange,
}

/// The names of `types`, separated by ", ".
pub open spec fn type_list_text(types: Seq<ValueType>) -> Seq<char>
    decreases types.len(),
{
    if types.len() == 0 {
        Seq::empty()
    } else if types.len() == 1 {
        types[0].spec_name()
    } else {
        type_list_text(types.drop_last()) + ", "@ + types.last().spec_name()
    }
}

impl RuntimeErrorKind {
    pub open spec fn spec_text(&self) -> Seq<char> {
        match self {
            RuntimeErrorKind::InvalidBytecodeOffset => "invalid code offset"@,
            RuntimeErrorKind::InvalidConstantIndex(i) => "invalid constant index: "@ + decimal(
                *i as nat,
            ),
            RuntimeErrorKind::InvalidChunkIndex(i) => "invalid chunk index: "@ + decimal(*i as nat),
            RuntimeErrorKind::InvalidStackSlot(i) => "invalid stack slot: "@ + decimal(*i as nat),
            RuntimeErrorKind::InvalidUpvalueIndex(i) => "invalid upvalue index: "@ + decimal(
                *i as nat,
            ),
            RuntimeErrorKind::InvalidClosure(h) => "frame runs no closure: handle "@ + decimal(*h as nat),
            RuntimeErrorKind::InvalidType { expected, received } => "invalid type: expected "@
                + type_list_text(expected@) + ", received "@ + received.spec_name(),
            RuntimeErrorKind::WrongArity { expected, received } => "wrong arity: expected "@
                + decimal(*expected as nat) + ", received "@ + decimal(*received as nat),
            RuntimeErrorKind::InvalidOpcode(op) => "invalid opcode: "@ + decimal(*op as nat),
            RuntimeErrorKind::OperandWidthExceeded => "operand width exceeded"@,
            RuntimeErrorKind::StackUnderflow => "stack underflow"@,
            RuntimeErrorKind::CallStackUnderflow => "call stack underflow"@,
            RuntimeErrorKind::DivisionByZero => "division by zero"@,
            RuntimeErrorKind::IndexOutOfRange => "list index out of range"@,
        }
    }

    /// Appends the message of this kind.
    fn push_text(&self, s: &mut String)
        ensures
            final(s)@ == old(s)@ + self.spec_text(),
    {
        let ghost s0 = s@;
        match self {
            RuntimeErrorKind::InvalidBytecodeOffset => s.append("invalid code offset"),
            RuntimeErrorKind::InvalidConstantIndex(i) => {
                s.append("invalid constant index: ");
                push_decimal(s, *i);
            },
            RuntimeErrorKind::InvalidChunkIndex(i) => {
                s.append("invalid chunk index: ");
                push_decimal(s, *i);
            },
            RuntimeErrorKind::InvalidStackSlot(i) => {
                s.append("invalid stack slot: ");
                push_decimal(s, *i);
            },
            RuntimeErrorKind::InvalidUpvalueIndex(i) => {
                s.append("invalid upvalue index: ");
                push_decimal(s, *i);
            },
            RuntimeErrorKind::InvalidClosure(h) => {
                s.append("frame runs no closure: handle ");
                push_decimal(s, *h);
            },
            RuntimeErrorKind::InvalidType { expected, received } => {
                s.append("invalid type: expected ");
                let ghost s1 = s@;
                let mut k: usize = 0;
                while k < expected.len()
                    invariant
                        k <= expected@.len(),
                        s@ == s1 + type_list_text(expected@.subrange(0, k as int)),
                    decreases expected@.len() - k,
                {
                    let ghost before = expected@.subrange(0, k as int);
                    if k > 0 {
                        s.append(", ");
                    }
                    s.append(expected[k].name());
                    proof {
                        let after = expected@.subrange(0, k + 1);
                        assert(after.drop_last() =~= before);
                        assert(after.last() == expected@[k as int]);
                        if k == 0 {
                            assert(type_list_text(after) == expected@[0].spec_name());
                        }
                    }
                    k = k + 1;
                }
                assert(expected@.subrange(0, expected@.len() as int) =~= expected@);
                s.append(", received ");
                s.append(received.name());
            },
            RuntimeErrorKind::WrongArity { expected, received } => {
                s.append("wrong arity: expected ");
                push_decimal(s, *expected);
                s.append(", received ");
                push_decimal(s, *received);
            },
            RuntimeErrorKind::InvalidOpcode(op) => {
                s.append("invalid opcode: ");
                push_decimal(s, *op as usize);
            },
            RuntimeErrorKind::OperandWidthExceeded => s.append("operand width exceeded"),
            RuntimeErrorKind::StackUnderflow => s.append("stack underflow"),
            RuntimeErrorKind::CallStackUnderflow => s.append("call stack underflow"),
            RuntimeErrorKind::DivisionByZero => s.append("division by zero"),
            RuntimeErrorKind::IndexOutOfRange => s.append("list index out of range"),
        }
    }
}

/// An error raised by an instruction, with where it was raised.
#[derive(Clone, Debug)]
pub struct RuntimeError {
    context: RuntimeErrorContext,
    kind: RuntimeErrorKind,
}

impl RuntimeError {
    pub closed spec fn spec_context(&self) -> RuntimeErrorContext {
        self.context
    }

    pub closed spec fn spec_kind(&self) -> RuntimeErrorKind {
        self.kind
    }

    pub open spec fn spec_text(&self) -> Seq<char> {
        "runtime error: "@ + self.spec_context().spec_text() + ": "@ + self.spec_kind().spec_text()
    }

    pub fn new(context: RuntimeErrorContext, kind: RuntimeErrorKind) -> (r: RuntimeError)
        ensures
            r.spec_context() == context,
            r.spec_kind() == kind,
    {
        RuntimeError { context, kind }
    }

    /// An operand of the wrong type: `expected` lists the accepted types.
    pub fn invalid_type(context: RuntimeErrorContext, expected: &[ValueType], received: ValueType) -> (r:
        RuntimeError)
        ensures
            r.spec_context() == context,
            r.spec_kind() is InvalidType,
            r.spec_kind()->InvalidType_expected@ == expected@,
            r.spec_kind()->InvalidType_received == received,
    {
        let mut list: Vec<ValueType> = Vec::new();
        let mut k: usize = 0;
        while k < expected.len()
            invariant
                k <= expected@.len(),
                list@ == expected@.subrange(0, k as int),
            decreases expected@.len() - k,
        {
            list.push(expected[k]);
            k = k + 1;
        }
        assert(list@ =~= expected@);
        RuntimeError { context, kind: RuntimeErrorKind::InvalidType { expected: list, received } }
    }

    pub fn invalid_bytecode_offset(context: RuntimeErrorContext) -> (r: RuntimeError)
        ensures
            r.spec_context() == context,
            r.spec_kind() == RuntimeErrorKind::InvalidBytecodeOffset,
    {
        RuntimeError { context, kind: RuntimeErrorKind::InvalidBytecodeOffset }
    }

    pub fn invalid_constant_index(context: RuntimeErrorContext, index: usize) -> (r: RuntimeError)
        ensures
            r.spec_context() == context,
            r.spec_kind() == RuntimeErrorKind::InvalidConstantIndex(index),
    {
        RuntimeError { context, kind: RuntimeErrorKind::InvalidConstantIndex(index) }
    }

    pub fn invalid_chunk_index(context: RuntimeErrorContext, index: usize) -> (r: RuntimeError)
        ensures
            r.spec_context() == context,
            r.spec_kind() == RuntimeErrorKind::InvalidChunkIndex(index),
    {
        RuntimeError { context, kind: RuntimeErrorKind::InvalidChunkIndex(index) }
    }

    pub fn invalid_stack_slot(context: RuntimeErrorContext, slot: usize) -> (r: RuntimeError)
        ensures
            r.spec_context() == context,
            r.spec_kind() == RuntimeErrorKind::InvalidStackSlot(slot),
    {
        RuntimeError { context, kind: RuntimeErrorKind::InvalidStackSlot(slot) }
    }

    pub fn operand_width_exceeded(context: RuntimeErrorContext) -> (r: RuntimeError)
        ensures
            r.spec_context() == context,
            r.spec_kind() == RuntimeErrorKind::OperandWidthExceeded,
    {
        RuntimeError { context, kind: RuntimeErrorKind::OperandWidthExceeded }
    }

    pub fn stack_underflow(context: RuntimeErrorContext) -> (r: RuntimeError)
        ensures
            r.spec_context() == context,
            r.spec_kind() == RuntimeErrorKind::StackUnderflow,
    {
        RuntimeError { context, kind: RuntimeErrorKind::StackUnderflow }
    }

    pub fn context(&self) -> (r: &RuntimeErrorContext)
        ensures
            *r == self.spec_context(),
    {
        &self.context
    }

    pub fn kind(&self) -> (r: &RuntimeErrorKind)
        ensures
            *r == self.spec_kind(),
    {
        &self.kind
    }

    /// The message: "runtime error: <module>:<function>:<offset>: <what>".
    pub fn to_string(&self) -> (r: String)
        ensures
            r@ == self.spec_text(),
    {
        let mut s = String::from_str("runtime error: ");
        s.append(self.context.path.as_str());
        s.append(":");
        s.append(self.context.chunk_name.as_str());
        s.append(":");
        push_decimal(&mut s, self.context.bytecode_offset);
        s.append(": ");
        self.kind.push_text(&mut s);
        s
    }
}

/// An error of the engine as a whole, fatal for the evaluation.
#[derive(Clone, Copy, Debug, PartialEq, Eq, Structural)]
pub enum EngineError {
    WakeNonExistentFiber,
    InvalidFiber,
    IdsExhausted,
}

impl EngineError {
    pub open spec fn spec_text(&self) -> Seq<char> {
        match self {
            EngineError::WakeNonExistentFiber => "tried to wake a non-existent fiber"@,
            EngineError::InvalidFiber => "a scheduled fiber is not live on the heap"@,
            EngineError::IdsExhausted => "no more wake ids can be issued"@,
        }
    }

    pub fn to_string(&self) -> (r: String)
        ensures
            r@ == self.spec_text(),
    {
        match self {
            EngineError::WakeNonExistentFiber => String::from_str(
                "tried to wake a non-existent fiber",
            ),
            EngineError::InvalidFiber => String::from_str("a scheduled fiber is not live on the heap"),
            EngineError::IdsExhausted => String::from_str("no more wake ids can be issued"),
        }
    }
}

/// The error an evaluation ends with.
#[derive(Clone, Debug)]
pub enum Error {
    Runtime(RuntimeError),
    Engine(EngineError),
}

impl Error {
    pub open spec fn spec_text(&self) -> Seq<char> {
        match self {
            Error::Runtime(e) => e.spec_text(),
            Error::Engine(e) => e.spec_text(),
        }
    }

    pub fn to_string(&self) -> (r: String)
        ensures
            r@ == self.spec_text(),
    {
        match self {
            Error::Runtime(e) => e.to_string(),
            Error::Engine(e) => e.to_string(),
        }
    }
}

} // verus!
