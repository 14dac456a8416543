//! The Lower Intermediate Representation: a three-address, linear,
//! symbolic form with explicit labels, jumps and calls.

use vstd::prelude::*;

use crate::common::{Comparison, InfixOp, Label, Symbol};
use crate::tables::AssocMap;

verus! {

/// A whole lowered program: the entry function plus every other
/// function, keyed by its label.
pub struct LIRProgram {
    pub main_function: LIRFunction,
    pub other_functions: AssocMap<Label, LIRFunction>,
}

pub struct LIRFunction {
    pub locals: Vec<Symbol>,
    pub arguments: Vec<Symbol>,
    pub return_symbol: Symbol,
    pub instruction_listing: Vec<LIRAssembly>,
}

/// One line of a function body: either a label or an instruction.
#[derive(Debug, Clone, PartialEq)]
pub enum LIRAssembly {
    Label(Label),
    Instruction(LIRInstruction),
}

#[derive(Debug, Clone, PartialEq)]
pub enum LIRInstruction {
    /// Do nothing and move on.
    Nop,
    /// Store the literal in `assign_to`.
    IntLit { assign_to: Symbol, value: i64 },
    /// Store the address of the immutable text in `assign_to`.
    StringLit { assign_to: Symbol, value: String },
    /// Write `value` to the heap word at `location + offset`.
    StoreToMemoryAtOffset { location: Symbol, offset: Symbol, value: Symbol },
    /// Read the heap word at `location + offset` into `assign_to`.
    LoadFromMemoryAtOffset { assign_to: Symbol, location: Symbol, offset: Symbol },
    /// Copy `id` into `assign_to`.
    Assign { assign_to: Symbol, id: Symbol },
    /// Store the arithmetic negation of `value` in `assign_to`; `value`
    /// itself is left unchanged.
    Negate { assign_to: Symbol, value: Symbol },
    /// Store `left op right` in `assign_to`; the operands are left
    /// unchanged.
    BinaryOp { assign_to: Symbol, left: Symbol, op: InfixOp, right: Symbol },
    /// Call `function_name` with the values of `args` and store the
    /// returned value in `assign_to`.
    Call { assign_to: Symbol, function_name: Label, args: Vec<Symbol> },
    /// Continue execution at the label `to`.
    Jump { to: Label },
    /// Continue execution at the label `to` when the comparison holds.
    JumpC { to: Label, condition: Comparison },
}

impl LIRFunction {
    /// Every symbol the function owns: its arguments, locals and return
    /// symbol, in that order.
    #[verifier::loop_isolation(false)]
    pub fn get_all_symbols(&self) -> (r: Vec<Symbol>)
        ensures
            r@ == self.arguments@ + self.locals@ + seq![self.return_symbol],
    {
        let mut r: Vec<Symbol> = Vec::new();
        let mut i: usize = 0;
        while i < self.arguments.len()
            invariant
                i <= self.arguments@.len(),
                r@ == self.arguments@.take(i as int),
            decreases self.arguments@.len() - i,
        {
            r.push(self.arguments[i]);
            proof {
                assert(r@ =~= self.arguments@.take(i + 1));
            }
            i = i + 1;
        }
        let mut j: usize = 0;
        while j < self.locals.len()
            invariant
                j <= self.locals@.len(),
                r@ == self.arguments@ + self.locals@.take(j as int),
            decreases self.locals@.len() - j,
        {
            r.push(self.locals[j]);
            proof {
                assert(r@ =~= self.arguments@ + self.locals@.take(j + 1));
            }
            j = j + 1;
        }
        r.push(self.return_symbol);
        proof {
            assert(self.arguments@.take(self.arguments@.len() as int) =~= self.arguments@);
            assert(self.locals@.take(self.locals@.len() as int) =~= self.locals@);
            assert(r@ =~= self.arguments@ + self.locals@ + seq![self.return_symbol]);
        }
        r
    }
}

/// The symbols an instruction mentions, whether read or written.
pub open spec fn lir_instruction_symbols(i: LIRInstruction) -> Set<Symbol> {
    match i {
        LIRInstruction::Nop => Set::empty(),
        LIRInstruction::IntLit { assign_to, .. } => set![assign_to],
        LIRInstruction::StringLit { assign_to, .. } => set![assign_to],
        LIRInstruction::StoreToMemoryAtOffset { location, offset, value } => set![
            location,
            offset,
            value,
        ],
        LIRInstruction::LoadFromMemoryAtOffset { assign_to, location, offset } => set![
            assign_to,
            location,
            offset,
        ],
        LIRInstruction::Assign { assign_to, id } => set![assign_to, id],
        LIRInstruction::Negate { assign_to, value } => set![assign_to, value],
        LIRInstruction::BinaryOp { assign_to, left, right, .. } => set![assign_to, left, right],
        LIRInstruction::Call { assign_to, args, .. } => args@.to_set().insert(assign_to),
        LIRInstruction::Jump { .. } => Set::empty(),
        LIRInstruction::JumpC { condition, .. } => set![condition.left, condition.right],
    }
}

/// The jump target of an instruction, if it has one.
pub open spec fn lir_jump_target(i: LIRInstruction) -> Option<Label> {
    match i {
        LIRInstruction::Jump { to } => Some(to),
        LIRInstruction::JumpC { to, .. } => Some(to),
        _ => None,
    }
}

/// The label a line defines, if it is a label line.
pub open spec fn lir_line_label(a: LIRAssembly) -> Option<Label> {
    match a {
        LIRAssembly::Label(l) => Some(l),
        LIRAssembly::Instruction(_) => None,
    }
}

/// Holds when label `l` is emitted somewhere in the listing.
pub open spec fn listing_defines_label(listing: Seq<LIRAssembly>, l: Label) -> bool {
    exists|i: int| 0 <= i < listing.len() && lir_line_label(#[trigger] listing[i]) == Some(l)
}

/// Holds when every jump in the listing targets a label that the listing
/// itself emits.
pub open spec fn listing_jumps_resolved(listing: Seq<LIRAssembly>) -> bool {
    forall|i: int|
        0 <= i < listing.len() ==> match #[trigger] listing[i] {
            LIRAssembly::Instruction(instr) => match lir_jump_target(instr) {
                Some(l) => listing_defines_label(listing, l),
                None => true,
            },
            LIRAssembly::Label(_) => true,
        }
}

/// The symbols a line mentions.
pub open spec fn lir_line_symbols(a: LIRAssembly) -> Set<Symbol> {
    match a {
        LIRAssembly::Label(_) => Set::empty(),
        LIRAssembly::Instruction(i) => lir_instruction_symbols(i),
    }
}

/// Every symbol some line of the listing mentions.
pub open spec fn listing_symbols(listing: Seq<LIRAssembly>) -> Set<Symbol> {
    Set::new(
        |s: Symbol|
            exists|i: int|
                0 <= i < listing.len() && lir_line_symbols(#[trigger] listing[i]).contains(s),
    )
}

/// Every symbol a function owns or mentions: its parameters, its
/// return symbol, and everything in its body.
pub open spec fn fn_symbols(f: LIRFunction) -> Set<Symbol> {
    f.arguments@.to_set().insert(f.return_symbol).union(listing_symbols(f.instruction_listing@))
}

/// The labels that jumps in the listing target.
pub open spec fn listing_jump_targets(listing: Seq<LIRAssembly>) -> Set<Label> {
    Set::new(
        |l: Label|
            exists|i: int|
                0 <= i < listing.len() && match #[trigger] listing[i] {
                    LIRAssembly::Instruction(instr) => lir_jump_target(instr) == Some(l),
                    LIRAssembly::Label(_) => false,
                },
    )
}

/// Every label line of the listing carries a generated identity in the
/// half-open range `[a, b)`: the labels a lowering step minted.
pub open spec fn lir_labels_fresh(listing: Seq<LIRAssembly>, a: u64, b: u64) -> bool {
    forall|i: int|
        0 <= i < listing.len() ==> match lir_line_label(#[trigger] listing[i]) {
            Some(l) => l matches Label::Uid(u) && a <= u < b,
            None => true,
        }
}

/// No two label lines of the listing emit the same label.
pub open spec fn lir_labels_distinct(listing: Seq<LIRAssembly>) -> bool {
    forall|i: int, j: int|
        0 <= i < j < listing.len() ==> !(lir_line_label(#[trigger] listing[i]) is Some
            && lir_line_label(listing[i]) == lir_line_label(#[trigger] listing[j]))
}

/// Every jump of the listing targets a label the listing emits, or the
/// enclosing loop's break target.
pub open spec fn lir_jumps_ok(listing: Seq<LIRAssembly>, exit: Option<Label>) -> bool {
    forall|i: int|
        0 <= i < listing.len() ==> match #[trigger] listing[i] {
            LIRAssembly::Instruction(instr) => match lir_jump_target(instr) {
                Some(t) => listing_defines_label(listing, t) || Some(t) == exit,
                None => true,
            },
            LIRAssembly::Label(_) => true,
        }
}

/// Every symbol of every line comes from the allowed set.
pub open spec fn lir_syms_ok(listing: Seq<LIRAssembly>, allowed: Set<Symbol>) -> bool {
    forall|i: int|
        0 <= i < listing.len() ==> lir_line_symbols(#[trigger] listing[i]).subset_of(allowed)
}

/// The shape every lowered code sequence keeps: labels freshly minted
/// in the given range and pairwise distinct, jumps resolved within the
/// sequence or to the break target, and symbols from the allowed set.
pub open spec fn lowered_ok(
    code: Seq<LIRAssembly>,
    a: u64,
    b: u64,
    allowed: Set<Symbol>,
    exit: Option<Label>,
) -> bool {
    &&& lir_labels_fresh(code, a, b)
    &&& lir_labels_distinct(code)
    &&& lir_jumps_ok(code, exit)
    &&& lir_syms_ok(code, allowed)
}

/// The label a call in the listing may target.
pub open spec fn listing_call_targets(listing: Seq<LIRAssembly>) -> Set<Label> {
    Set::new(
        |l: Label|
            exists|i: int|
                0 <= i < listing.len() && match #[trigger] listing[i] {
                    LIRAssembly::Instruction(LIRInstruction::Call { function_name, .. }) => l
                        == function_name,
                    _ => false,
                },
    )
}

} // verus!
