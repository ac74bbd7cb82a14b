//! Compiled code: functions with constants, code and upvalue descriptors,
//! gathered in a program.
use vstd::prelude::*;

use crate::instruction::Instruction;

verus! {

/// A constant of a function. A float is held as its IEEE-754 bit pattern.
#[derive(Clone, Debug)]
pub enum Constant {
    Int(i64),
    Float(u64),
    String(String),
}

/// Where a closure's upvalue comes from when the closure is made: a slot of
/// the enclosing frame, or an upvalue of the enclosing closure.
#[derive(Clone, Copy, Debug, PartialEq, Eq, Structural)]
pub enum UpvalueDescriptor {
    Local(usize),
    Outer(usize),
}

/// An immutable function. `functions` maps the operand of `CLOSURE` to the
/// index of a function of the program.
#[derive(Clone, Debug)]
pub struct Function {
    pub name: String,
    pub arity: usize,
    pub functions: Vec<usize>,
    pub constants: Vec<Constant>,
    pub code: Vec<Instruction>,
    pub upvalues: Vec<UpvalueDescriptor>,
}

impl Function {
    pub fn arity(&self) -> (r: usize)
        ensures
            r == self.arity,
    {
        self.arity
    }

    /// The instruction at `offset`, if there is one.
    pub fn instruction(&self, offset: usize) -> (r: Option<Instruction>)
        ensures
            offset < self.code@.len() ==> r == Some(self.code@[offset as int]),
            offset >= self.code@.len() ==> r is None,
    {
        if offset < self.code.len() {
            Some(self.code[offset])
        } else {
            None
        }
    }

    /// The constant at `index`, if there is one.
    pub fn constant(&self, index: usize) -> (r: Option<&Constant>)
        ensures
            index < self.constants@.len() ==> r == Some(&self.constants@[index as int]),
            index >= self.constants@.len() ==> r is None,
    {
        if index < self.constants.len() {
            Some(&self.constants[index])
        } else {
            None
        }
    }

    /// The program index of the function `CLOSURE index` makes a closure of.
    pub fn function(&self, index: usize) -> (r: Option<usize>)
        ensures
            index < self.functions@.len() ==> r == Some(self.functions@[index as int]),
            index >= self.functions@.len() ==> r is None,
    {
        if index < self.functions.len() {
            Some(self.functions[index])
        } else {
            None
        }
    }
}

/// Builds a function one instruction and constant at a time.
pub struct FunctionBuilder {
    name: String,
    arity: usize,
    functions: Vec<usize>,
    constants: Vec<Constant>,
    code: Vec<Instruction>,
    upvalues: Vec<UpvalueDescriptor>,
}

impl FunctionBuilder {
    pub closed spec fn spec_code(&self) -> Seq<Instruction> {
        self.code@
    }

    pub closed spec fn spec_arity(&self) -> usize {
        self.arity
    }

    pub closed spec fn spec_functions(&self) -> Seq<usize> {
        self.functions@
    }

    pub closed spec fn spec_upvalues(&self) -> Seq<UpvalueDescriptor> {
        self.upvalues@
    }

    pub fn new(name: String, arity: usize) -> (r: FunctionBuilder)
        ensures
            r.spec_code().len() == 0,
            r.spec_arity() == arity,
            r.spec_functions().len() == 0,
            r.spec_upvalues().len() == 0,
    {
        FunctionBuilder {
            name,
            arity,
            functions: Vec::new(),
            constants: Vec::new(),
            code: Vec::new(),
            upvalues: Vec::new(),
        }
    }

    /// Appends an instruction and returns its offset.
    pub fn instruction(&mut self, op: u8, operand: u32) -> (r: usize)
        requires
            operand < 0x100_0000,
        ensures
            r == old(self).spec_code().len(),
            final(self).spec_code().len() == old(self).spec_code().len() + 1,
            final(self).spec_code().last().spec_opcode() == op,
            final(self).spec_code().last().spec_operand() == operand,
            final(self).spec_code().drop_last() == old(self).spec_code(),
            final(self).spec_functions() == old(self).spec_functions(),
            final(self).spec_upvalues() == old(self).spec_upvalues(),
            final(self).spec_arity() == old(self).spec_arity(),
    {
        let r = self.code.len();
        self.code.push(Instruction::new(op, operand));
        assert(self.code@.drop_last() =~= old(self).code@);
        r
    }

    /// Appends a constant and returns its index.
    pub fn constant(&mut self, constant: Constant) -> (r: usize)
        ensures
            final(self).spec_code() == old(self).spec_code(),
            final(self).spec_functions() == old(self).spec_functions(),
            final(self).spec_upvalues() == old(self).spec_upvalues(),
            final(self).spec_arity() == old(self).spec_arity(),
    {
        let r = self.constants.len();
        self.constants.push(constant);
        r
    }

    /// Appends a nested function reference and returns its `CLOSURE` operand.
    pub fn function(&mut self, index: usize) -> (r: usize)
        ensures
            r == old(self).spec_functions().len(),
            final(self).spec_functions() == old(self).spec_functions().push(index),
            final(self).spec_code() == old(self).spec_code(),
            final(self).spec_upvalues() == old(self).spec_upvalues(),
            final(self).spec_arity() == old(self).spec_arity(),
    {
        let r = self.functions.len();
        self.functions.push(index);
        r
    }

    /// Appends an upvalue descriptor.
    pub fn upvalue(&mut self, upvalue: UpvalueDescriptor)
        ensures
            final(self).spec_upvalues() == old(self).spec_upvalues().push(upvalue),
            final(self).spec_code() == old(self).spec_code(),
            final(self).spec_functions() == old(self).spec_functions(),
            final(self).spec_arity() == old(self).spec_arity(),
    {
        self.upvalues.push(upvalue);
    }

    pub fn build(self) -> (r: Function)
        ensures
            r.code@ == self.spec_code(),
            r.arity == self.spec_arity(),
            r.functions@ == self.spec_functions(),
            r.upvalues@ == self.spec_upvalues(),
    {
        Function {
            name: self.name,
            arity: self.arity,
            functions: self.functions,
            constants: self.constants,
            code: self.code,
            upvalues: self.upvalues,
        }
    }
}

/// The unit the compiler hands to the engine: a module path and its
/// functions; evaluation starts from function 0.
#[derive(Clone, Debug)]
pub struct Program {
    pub path: String,
    pub functions: Vec<Function>,
}

} // verus!
