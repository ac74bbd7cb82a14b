//! The opcodes held in the low byte of an instruction word.
use vstd::prelude::*;

verus! {

pub const NO_OP: u8 = 0x00;

pub const NIL: u8 = 0x10;
pub const TRUE: u8 = 0x11;
pub const FALSE: u8 = 0x12;
pub const INT: u8 = 0x13;
pub const CONST: u8 = 0x14;
pub const CLOSURE: u8 = 0x15;
pub const LIST: u8 = 0x16;
pub const MAP: u8 = 0x17;

pub const ADD: u8 = 0x20;
pub const SUB: u8 = 0x21;
pub const MUL: u8 = 0x22;
pub const DIV: u8 = 0x23;
pub const MOD: u8 = 0x24;
pub const NEG: u8 = 0x25;
pub const NOT: u8 = 0x26;
pub const AND: u8 = 0x27;
pub const OR: u8 = 0x28;
pub const BIT_AND: u8 = 0x29;
pub const BIT_OR: u8 = 0x2A;
pub const BIT_XOR: u8 = 0x2B;
pub const SHL: u8 = 0x2C;
pub const SHR: u8 = 0x2D;

pub const RETURN: u8 = 0x30;
pub const CALL: u8 = 0x31;
pub const TEST: u8 = 0x32;
pub const JUMP: u8 = 0x33;

pub const SPAWN: u8 = 0x40;
pub const YIELD: u8 = 0x41;

pub const EQ: u8 = 0x50;
pub const NEQ: u8 = 0x51;
pub const GT: u8 = 0x52;
pub const GTE: u8 = 0x53;
pub const LT: u8 = 0x54;
pub const LTE: u8 = 0x55;

pub const LOAD: u8 = 0x60;
pub const STORE: u8 = 0x61;
pub const DUP: u8 = 0x62;
pub const POP: u8 = 0x63;

pub const UPVAL_LOAD: u8 = 0x70;
pub const UPVAL_STORE: u8 = 0x71;
pub const UPVAL_CLOSE: u8 = 0x72;

pub const OBJ_GET: u8 = 0x80;
pub const OBJ_SET: u8 = 0x81;

} // verus!
