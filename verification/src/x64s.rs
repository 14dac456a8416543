//! The symbolic x86-64 form: the same opcodes as the physical form, but
//! an operand may still be a `Symbol` (a value in some yet-unassigned
//! home) or `MemorySym` (a dereference of whatever a home holds).

use vstd::prelude::*;

use crate::common::{Label, Symbol};
use crate::tables::AssocMap;
use crate::x64::{Operand, X64Register, X64Value, X64opCode};

verus! {

#[derive(Debug, Copy, Clone, PartialEq, Eq, Structural)]
pub enum SOperand {
    Symbol(Symbol),
    MemorySym(Symbol),
    Immediate(X64Value),
    Register(X64Register),
    MemoryImm(X64Value),
    MemoryReg(X64Register),
    MemoryOffset(X64Value, X64Register),
    MemoryScaledIndexed(X64Value, X64Register, u8, X64Register),
}

#[derive(Debug, Copy, Clone, PartialEq, Eq, Structural)]
pub enum SOperands {
    Zero,
    One(SOperand),
    Two(SOperand, SOperand),
}

#[derive(Debug, Clone, Copy, PartialEq, Eq, Structural)]
pub struct X64SInstruction {
    pub op_code: X64opCode,
    pub args: SOperands,
}

#[derive(Debug, Clone, Copy, PartialEq, Eq, Structural)]
pub enum X64SAssembly {
    Label(Label),
    Instruction(X64SInstruction),
}

pub struct X64SFunction {
    pub body: Vec<X64SAssembly>,
}

/// A complete symbolic program: the entry function, the other functions
/// keyed by label, and the interned string literals.
pub struct X64SProgram {
    pub main_function: X64SFunction,
    pub other_functions: AssocMap<Label, X64SFunction>,
    pub string_literals: AssocMap<Label, String>,
}

impl SOperand {
    /// The physical operand this operand denotes, or `None` while it
    /// still involves a symbol.
    pub open spec fn spec_as_operand(self) -> Option<Operand> {
        match self {
            SOperand::Symbol(_) => None,
            SOperand::MemorySym(_) => None,
            SOperand::Immediate(v) => Some(Operand::Immediate(v)),
            SOperand::Register(r) => Some(Operand::Register(r)),
            SOperand::MemoryImm(v) => Some(Operand::MemoryImm(v)),
            SOperand::MemoryReg(r) => Some(Operand::MemoryReg(r)),
            SOperand::MemoryOffset(v, r) => Some(Operand::MemoryOffset(v, r)),
            SOperand::MemoryScaledIndexed(v, r1, s, r2) => Some(
                Operand::MemoryScaledIndexed(v, r1, s, r2),
            ),
        }
    }

    pub fn as_operand(self) -> (r: Option<Operand>)
        ensures
            r == self.spec_as_operand(),
    {
        match self {
            SOperand::Symbol(_) => None,
            SOperand::MemorySym(_) => None,
            SOperand::Immediate(v) => Some(Operand::Immediate(v)),
            SOperand::Register(r) => Some(Operand::Register(r)),
            SOperand::MemoryImm(v) => Some(Operand::MemoryImm(v)),
            SOperand::MemoryReg(r) => Some(Operand::MemoryReg(r)),
            SOperand::MemoryOffset(v, r) => Some(Operand::MemoryOffset(v, r)),
            SOperand::MemoryScaledIndexed(v, r1, s, r2) => Some(
                Operand::MemoryScaledIndexed(v, r1, s, r2),
            ),
        }
    }

    /// Whether the operand is a `Symbol` or `MemorySym`, which home
    /// assignment may turn into a memory reference.
    pub open spec fn is_symbolic(self) -> bool {
        self is Symbol || self is MemorySym
    }

    /// The symbol the operand mentions, if any.
    pub open spec fn symbol_of(self) -> Option<Symbol> {
        match self {
            SOperand::Symbol(s) => Some(s),
            SOperand::MemorySym(s) => Some(s),
            _ => None,
        }
    }
}

/// How many of an instruction's operands could become memory references
/// under home assignment.
pub open spec fn symbolic_operand_count(args: SOperands) -> int {
    match args {
        SOperands::Zero => 0,
        SOperands::One(a) => if a.is_symbolic() {
            1 as int
        } else {
            0 as int
        },
        SOperands::Two(a, b) => (if a.is_symbolic() {
            1 as int
        } else {
            0 as int
        }) + (if b.is_symbolic() {
            1 as int
        } else {
            0 as int
        }),
    }
}

/// Whether any operand of the instruction is a `MemorySym`.
pub open spec fn has_memory_sym(args: SOperands) -> bool {
    match args {
        SOperands::Zero => false,
        SOperands::One(a) => a is MemorySym,
        SOperands::Two(a, b) => a is MemorySym || b is MemorySym,
    }
}

/// The symbols a symbolic line mentions.
pub open spec fn sline_symbols(a: X64SAssembly) -> Set<Symbol> {
    match a {
        X64SAssembly::Label(_) => Set::empty(),
        X64SAssembly::Instruction(i) => match i.args {
            SOperands::Zero => Set::empty(),
            SOperands::One(a) => match a.symbol_of() {
                Some(s) => set![s],
                None => Set::empty(),
            },
            SOperands::Two(a, b) => {
                let sa: Set<Symbol> = match a.symbol_of() {
                    Some(s) => set![s],
                    None => Set::empty(),
                };
                match b.symbol_of() {
                    Some(s) => sa.insert(s),
                    None => sa,
                }
            },
        },
    }
}

} // verus!
