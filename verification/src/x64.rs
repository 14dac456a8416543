//! The physical x86-64 form: real opcodes with operands that are
//! immediates, registers or memory references.

use vstd::prelude::*;

use crate::common::Label;
use crate::tables::AssocMap;

verus! {

/// The 64-bit general purpose registers, plus the instruction pointer.
#[derive(Debug, Copy, Clone, PartialEq, Eq, Structural)]
pub enum X64Register {
    Rax,
    Rbx,
    Rcx,
    Rdx,
    Rsp,
    Rbp,
    Rsi,
    Rdi,
    R8,
    R9,
    R10,
    R11,
    R12,
    R13,
    R14,
    R15,
    Rip,
}

#[derive(Debug, Clone, Copy, PartialEq, Eq, Structural)]
pub enum X64opCode {
    Add,
    Sub,
    Inc,
    Dec,
    Or,
    And,
    Movq,
    Movabsq,
    Cmp,
    Lea,
    IMulq,
    IDivq,
    Neg,
    Push,
    Pop,
    Call,
    Jmp,
    Je,
    Jne,
    Jg,
    Jge,
    Jl,
    Jle,
    Ret,
    Nop,
    Shl,
}

/// An immediate value: a label reference or an absolute number.
#[derive(Debug, Copy, Clone, PartialEq, Eq, Structural)]
pub enum X64Value {
    LabelRef(Label),
    Absolute(i64),
}

#[derive(Debug, Copy, Clone, PartialEq, Eq, Structural)]
pub enum Operand {
    Immediate(X64Value),
    Register(X64Register),
    MemoryImm(X64Value),
    MemoryReg(X64Register),
    MemoryOffset(X64Value, X64Register),
    MemoryScaledIndexed(X64Value, X64Register, u8, X64Register),
}

#[derive(Debug, Copy, Clone, PartialEq, Eq, Structural)]
pub enum Operands {
    Zero,
    One(Operand),
    Two(Operand, Operand),
}

#[derive(Debug, Clone, Copy, PartialEq, Eq, Structural)]
pub struct X64Instruction {
    pub op_code: X64opCode,
    pub args: Operands,
}

#[derive(Debug, Clone, Copy, PartialEq, Eq, Structural)]
pub enum X64Assembly {
    Label(Label),
    Instruction(X64Instruction),
}

pub struct X64Function {
    pub instruction_listing: Vec<X64Assembly>,
}

/// A complete physical program: the entry function, the other functions
/// keyed by label, and the interned string literals.
pub struct X64Program {
    pub main_function: X64Function,
    pub other_functions: AssocMap<Label, X64Function>,
    pub string_literals: AssocMap<Label, String>,
}

} // verus!
