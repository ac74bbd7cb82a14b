//! Fixed-width 32-bit instruction words: the low byte is the opcode, the
//! high 24 bits the operand.
use vstd::prelude::*;

use crate::opcode;
use crate::text::{decimal, push_decimal};

verus! {

#[derive(Clone, Copy, Debug, PartialEq, Eq, Structural)]
pub struct Instruction(pub u32);

/// The operand read as a signed 24-bit two's-complement number.
pub open spec fn signed_operand(operand: u32) -> int {
    if operand < 0x80_0000 {
        operand as int
    } else {
        operand as int - 0x100_0000
    }
}

impl Instruction {
    pub open spec fn spec_opcode(self) -> u8 {
        (self.0 % 256) as u8
    }

    pub open spec fn spec_operand(self) -> u32 {
        self.0 / 256
    }

    /// Packs an opcode and a 24-bit operand into one word.
    pub fn new(op: u8, operand: u32) -> (r: Instruction)
        requires
            operand < 0x100_0000,
        ensures
            r.spec_opcode() == op,
            r.spec_operand() == operand,
    {
        let w: u32 = (op as u32) | (operand << 8u32);
        assert(w % 256 == op as u32 && w / 256 == operand) by (bit_vector)
            requires
                w == (op as u32) | (operand << 8u32),
                operand < 0x100_0000,
                op < 256,
        ;
        Instruction(w)
    }

    pub fn opcode(&self) -> (r: u8)
        ensures
            r == self.spec_opcode(),
    {
        let w = self.0;
        assert(w & 0xFF == w % 256) by (bit_vector);
        (w & 0xFF) as u8
    }

    pub fn operand(&self) -> (r: u32)
        ensures
            r == self.spec_operand(),
    {
        let w = self.0;
        assert(w >> 8u32 == w / 256) by (bit_vector);
        w >> 8u32
    }

    /// The operand sign-extended from 24 bits, as `INT` and `JUMP` read it.
    pub fn signed_operand(&self) -> (r: i64)
        ensures
            r as int == signed_operand(self.spec_operand()),
    {
        let u = self.operand();
        if u < 0x80_0000 {
            u as i64
        } else {
            u as i64 - 0x100_0000
        }
    }
}

/// The mnemonic of an opcode.
pub open spec fn mnemonic(op: u8) -> Seq<char> {
    if op == opcode::NO_OP {
        "NO_OP"@
    } else
    if op == opcode::NIL {
        "NIL"@
    } else
    if op == opcode::TRUE {
        "TRUE"@
    } else
    if op == opcode::FALSE {
        "FALSE"@
    } else
    if op == opcode::INT {
        "INT"@
    } else
    if op == opcode::CONST {
        "CONST"@
    } else
    if op == opcode::CLOSURE {
        "CLOSURE"@
    } else
    if op == opcode::LIST {
        "LIST"@
    } else
    if op == opcode::MAP {
        "MAP"@
    } else
    if op == opcode::ADD {
        "ADD"@
    } else
    if op == opcode::SUB {
        "SUB"@
    } else
    if op == opcode::MUL {
        "MUL"@
    } else
    if op == opcode::DIV {
        "DIV"@
    } else
    if op == opcode::MOD {
        "MOD"@
    } else
    if op == opcode::NEG {
        "NEG"@
    } else
    if op == opcode::NOT {
        "NOT"@
    } else
    if op == opcode::AND {
        "AND"@
    } else
    if op == opcode::OR {
        "OR"@
    } else
    if op == opcode::BIT_AND {
        "BITAND"@
    } else
    if op == opcode::BIT_OR {
        "BITOR"@
    } else
    if op == opcode::BIT_XOR {
        "BITXOR"@
    } else
    if op == opcode::SHL {
        "SHL"@
    } else
    if op == opcode::SHR {
        "SHR"@
    } else
    if op == opcode::RETURN {
        "RETURN"@
    } else
    if op == opcode::CALL {
        "CALL"@
    } else
    if op == opcode::TEST {
        "TEST"@
    } else
    if op == opcode::JUMP {
        "JUMP"@
    } else
    if op == opcode::SPAWN {
        "SPAWN"@
    } else
    if op == opcode::YIELD {
        "YIELD"@
    } else
    if op == opcode::EQ {
        "EQ"@
    } else
    if op == opcode::NEQ {
        "NEQ"@
    } else
    if op == opcode::GT {
        "GT"@
    } else
    if op == opcode::GTE {
        "GTE"@
    } else
    if op == opcode::LT {
        "LT"@
    } else
    if op == opcode::LTE {
        "LTE"@
    } else
    if op == opcode::LOAD {
        "LOAD"@
    } else
    if op == opcode::STORE {
        "STORE"@
    } else
    if op == opcode::DUP {
        "DUP"@
    } else
    if op == opcode::POP {
        "POP"@
    } else
    if op == opcode::UPVAL_LOAD {
        "UPVAL_LOAD"@
    } else
    if op == opcode::UPVAL_STORE {
        "UPVAL_STORE"@
    } else
    if op == opcode::UPVAL_CLOSE {
        "UPVAL_CLOSE"@
    } else
    if op == opcode::OBJ_GET {
        "OBJ_GET"@
    } else
    if op == opcode::OBJ_SET {
        "OBJ_SET"@
    } else {
        "UNKNOWN"@
    }
}

fn mnemonic_str(op: u8) -> (r: &'static str)
    ensures
        r@ == mnemonic(op),
{
    if op == opcode::NO_OP {
        "NO_OP"
    } else
    if op == opcode::NIL {
        "NIL"
    } else
    if op == opcode::TRUE {
        "TRUE"
    } else
    if op == opcode::FALSE {
        "FALSE"
    } else
    if op == opcode::INT {
        "INT"
    } else
    if op == opcode::CONST {
        "CONST"
    } else
    if op == opcode::CLOSURE {
        "CLOSURE"
    } else
    if op == opcode::LIST {
        "LIST"
    } else
    if op == opcode::MAP {
        "MAP"
    } else
    if op == opcode::ADD {
        "ADD"
    } else
    if op == opcode::SUB {
        "SUB"
    } else
    if op == opcode::MUL {
        "MUL"
    } else
    if op == opcode::DIV {
        "DIV"
    } else
    if op == opcode::MOD {
        "MOD"
    } else
    if op == opcode::NEG {
        "NEG"
    } else
    if op == opcode::NOT {
        "NOT"
    } else
    if op == opcode::AND {
        "AND"
    } else
    if op == opcode::OR {
        "OR"
    } else
    if op == opcode::BIT_AND {
        "BITAND"
    } else
    if op == opcode::BIT_OR {
        "BITOR"
    } else
    if op == opcode::BIT_XOR {
        "BITXOR"
    } else
    if op == opcode::SHL {
        "SHL"
    } else
    if op == opcode::SHR {
        "SHR"
    } else
    if op == opcode::RETURN {
        "RETURN"
    } else
    if op == opcode::CALL {
        "CALL"
    } else
    if op == opcode::TEST {
        "TEST"
    } else
    if op == opcode::JUMP {
        "JUMP"
    } else
    if op == opcode::SPAWN {
        "SPAWN"
    } else
    if op == opcode::YIELD {
        "YIELD"
    } else
    if op == opcode::EQ {
        "EQ"
    } else
    if op == opcode::NEQ {
        "NEQ"
    } else
    if op == opcode::GT {
        "GT"
    } else
    if op == opcode::GTE {
        "GTE"
    } else
    if op == opcode::LT {
        "LT"
    } else
    if op == opcode::LTE {
        "LTE"
    } else
    if op == opcode::LOAD {
        "LOAD"
    } else
    if op == opcode::STORE {
        "STORE"
    } else
    if op == opcode::DUP {
        "DUP"
    } else
    if op == opcode::POP {
        "POP"
    } else
    if op == opcode::UPVAL_LOAD {
        "UPVAL_LOAD"
    } else
    if op == opcode::UPVAL_STORE {
        "UPVAL_STORE"
    } else
    if op == opcode::UPVAL_CLOSE {
        "UPVAL_CLOSE"
    } else
    if op == opcode::OBJ_GET {
        "OBJ_GET"
    } else
    if op == opcode::OBJ_SET {
        "OBJ_SET"
    } else {
        "UNKNOWN"
    }
}

/// Whether the opcode's operand is printed.
pub open spec fn shows_operand(op: u8) -> bool {
    op == opcode::INT || op == opcode::CONST || op == opcode::CLOSURE || op == opcode::CALL || op == opcode::JUMP || op == opcode::LOAD || op == opcode::STORE || op == opcode::UPVAL_LOAD || op == opcode::UPVAL_STORE
}

impl Instruction {
    pub open spec fn spec_text(self) -> Seq<char> {
        if shows_operand(self.spec_opcode()) {
            mnemonic(self.spec_opcode()) + " "@ + decimal(self.spec_operand() as nat)
        } else {
            mnemonic(self.spec_opcode())
        }
    }

    /// The instruction as assembly text: its mnemonic, then its operand if
    /// it has one.
    pub fn to_string(&self) -> (r: String)
        ensures
            r@ == self.spec_text(),
    {
        let op = self.opcode();
        let mut s = String::from_str(mnemonic_str(op));
        if op == opcode::INT || op == opcode::CONST || op == opcode::CLOSURE || op == opcode::CALL
            || op == opcode::JUMP || op == opcode::LOAD || op == opcode::STORE || op == opcode::UPVAL_LOAD
            || op == opcode::UPVAL_STORE {
            s.append(" ");
            push_decimal(&mut s, self.operand() as usize);
        }
        s
    }
}

} // verus!
