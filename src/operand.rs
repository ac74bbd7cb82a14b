//! Typed instruction operands.
use vstd::prelude::*;

verus! {

/// The largest operand an instruction word can carry (24 bits).
pub const MAX_OPERAND: u32 = 0xFF_FFFF;

/// A frame-relative slot of a fiber's value stack.
#[derive(Clone, Copy, Debug, PartialEq, Eq, Structural)]
pub struct StackSlot(pub u16);

impl StackSlot {
    pub fn as_usize(self) -> (r: usize)
        ensures
            r == self.0 as usize,
    {
        self.0 as usize
    }
}

/// A signed immediate carried by `INT`.
#[derive(Clone, Copy, Debug, PartialEq, Eq, Structural)]
pub struct IntImmediate(pub i32);

impl IntImmediate {
    pub fn as_i64(self) -> (r: i64)
        ensures
            r == self.0 as i64,
    {
        self.0 as i64
    }
}

/// An index into a function's constants.
#[derive(Clone, Copy, Debug, PartialEq, Eq, Structural)]
pub struct ConstantIndex(pub u32);

impl ConstantIndex {
    pub fn as_usize(self) -> (r: usize)
        ensures
            r == self.0 as usize,
    {
        self.0 as usize
    }
}

/// An index into a closure's upvalues.
#[derive(Clone, Copy, Debug, PartialEq, Eq, Structural)]
pub struct UpvalueIndex(pub u16);

impl UpvalueIndex {
    pub fn as_usize(self) -> (r: usize)
        ensures
            r == self.0 as usize,
    {
        self.0 as usize
    }
}

/// An offset into a function's code.
#[derive(Clone, Copy, Debug, PartialEq, Eq, Structural)]
pub struct CodeOffset(pub u32);

impl CodeOffset {
    pub fn zero() -> (r: CodeOffset)
        ensures
            r.0 == 0,
    {
        CodeOffset(0)
    }

    /// The next offset.
    pub fn increment(self) -> (r: CodeOffset)
        requires
            self.0 < u32::MAX,
        ensures
            r.0 == self.0 + 1,
    {
        CodeOffset(self.0 + 1)
    }

    pub fn as_usize(self) -> (r: usize)
        ensures
            r == self.0 as usize,
    {
        self.0 as usize
    }
}

} // verus!
