//! The value model: immediates and handles to heap objects.
use vstd::prelude::*;

verus! {

/// The variant tag of a value, as error messages name it.
#[derive(Clone, Copy, Debug, PartialEq, Eq, Structural)]
pub enum ValueType {
    Nil,
    Bool,
    Int,
    Float,
    String,
    List,
    Dict,
    Closure,
    Fiber,
    Error,
}

impl ValueType {
    pub open spec fn spec_name(self) -> Seq<char> {
        match self {
            ValueType::Nil => "nil"@,
            ValueType::Bool => "bool"@,
            ValueType::Int => "int"@,
            ValueType::Float => "float"@,
            ValueType::String => "string"@,
            ValueType::List => "list"@,
            ValueType::Dict => "map"@,
            ValueType::Closure => "closure"@,
            ValueType::Fiber => "fiber"@,
            ValueType::Error => "error"@,
        }
    }

    /// The lower-case name of the tag.
    pub fn name(&self) -> (r: &'static str)
        ensures
            r@ == self.spec_name(),
    {
        match self {
            ValueType::Nil => "nil",
            ValueType::Bool => "bool",
            ValueType::Int => "int",
            ValueType::Float => "float",
            ValueType::String => "string",
            ValueType::List => "list",
            ValueType::Dict => "map",
            ValueType::Closure => "closure",
            ValueType::Fiber => "fiber",
            ValueType::Error => "error",
        }
    }
}

/// A value. Immediates are held inline; a float is held as its IEEE-754 bit
/// pattern; every other variant is the handle of a heap object, whose
/// identity is the handle.
#[derive(Clone, Copy, Debug, PartialEq, Eq, Structural)]
pub enum Value {
    Nil,
    Bool(bool),
    Int(i64),
    Float(u64),
    String(usize),
    List(usize),
    Dict(usize),
    Closure(usize),
    Fiber(usize),
    Error(usize),
}

impl Value {
    pub open spec fn spec_ty(self) -> ValueType {
        match self {
            Value::Nil => ValueType::Nil,
            Value::Bool(_) => ValueType::Bool,
            Value::Int(_) => ValueType::Int,
            Value::Float(_) => ValueType::Float,
            Value::String(_) => ValueType::String,
            Value::List(_) => ValueType::List,
            Value::Dict(_) => ValueType::Dict,
            Value::Closure(_) => ValueType::Closure,
            Value::Fiber(_) => ValueType::Fiber,
            Value::Error(_) => ValueType::Error,
        }
    }

    pub fn ty(&self) -> (r: ValueType)
        ensures
            r == self.spec_ty(),
    {
        match self {
            Value::Nil => ValueType::Nil,
            Value::Bool(_) => ValueType::Bool,
            Value::Int(_) => ValueType::Int,
            Value::Float(_) => ValueType::Float,
            Value::String(_) => ValueType::String,
            Value::List(_) => ValueType::List,
            Value::Dict(_) => ValueType::Dict,
            Value::Closure(_) => ValueType::Closure,
            Value::Fiber(_) => ValueType::Fiber,
            Value::Error(_) => ValueType::Error,
        }
    }

    /// The heap object the value refers to, if any.
    pub open spec fn spec_handle(self) -> Option<usize> {
        match self {
            Value::String(h) => Some(h),
            Value::List(h) => Some(h),
            Value::Dict(h) => Some(h),
            Value::Closure(h) => Some(h),
            Value::Fiber(h) => Some(h),
            Value::Error(h) => Some(h),
            _ => None,
        }
    }

    pub fn handle(&self) -> (r: Option<usize>)
        ensures
            r == self.spec_handle(),
    {
        match self {
            Value::String(h) => Some(*h),
            Value::List(h) => Some(*h),
            Value::Dict(h) => Some(*h),
            Value::Closure(h) => Some(*h),
            Value::Fiber(h) => Some(*h),
            Value::Error(h) => Some(*h),
            _ => None,
        }
    }
}

} // verus!
