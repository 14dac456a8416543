//! Identifier facilities shared by every pass: opaque `Symbol` and `Label`
//! handles, the monotonic generators that mint them, and the operator
//! vocabulary of the source language and of the intermediate form.

use vstd::prelude::*;

verus! {

/// An instruction target or function name: either a freshly generated
/// identity or one of the well-known runtime entry points.
#[derive(Debug, Copy, Clone, Eq, PartialEq, Structural, Hash, PartialOrd, Ord)]
pub enum Label {
    Uid(u64),
    Allocate,
    AllocateAndMemset,
    PrintlnInt,
    PrintlnString,
    PrintInt,
    PrintString,
    Main,
}

impl Label {
    /// Holds of the fixed labels that the runtime provides, plus the
    /// program entry point.
    pub open spec fn is_well_known(self) -> bool {
        !(self is Uid)
    }
}

/// Mints labels with strictly increasing identities.
#[derive(Debug, Clone)]
pub struct LabelGenerator {
    next_uid: u64,
}

impl LabelGenerator {
    /// The identity the next generated label will carry.
    pub closed spec fn next(self) -> u64 {
        self.next_uid
    }

    pub fn new() -> (r: Self)
        ensures
            r.next() == 0,
    {
        LabelGenerator { next_uid: 0 }
    }

    pub fn new_label(&mut self) -> (r: Label)
        requires
            old(self).next() < u64::MAX,
        ensures
            r == Label::Uid(old(self).next()),
            final(self).next() == old(self).next() + 1,
    {
        let uid = self.next_uid;
        self.next_uid = self.next_uid + 1;
        Label::Uid(uid)
    }

    /// Whether another label can still be generated.
    pub fn has_room(&self) -> (b: bool)
        ensures
            b == (self.next() < u64::MAX),
    {
        self.next_uid < u64::MAX
    }

    /// Restarts a generator strictly past every generated identity found
    /// in the given labels, so that nothing it later mints collides with
    /// them.  An identity at the numeric limit leaves the generator full.
    #[verifier::loop_isolation(false)]
    pub fn from_vec(vec: &Vec<Label>) -> (r: LabelGenerator)
        ensures
            forall|i: int|
                0 <= i < vec@.len() ==> match #[trigger] vec@[i] {
                    Label::Uid(u) => u < r.next() || r.next() == u64::MAX,
                    _ => true,
                },
    {
        let mut next: u64 = 0;
        let mut i: usize = 0;
        while i < vec.len()
            invariant
                i <= vec@.len(),
                forall|j: int|
                    0 <= j < i ==> match #[trigger] vec@[j] {
                        Label::Uid(u) => u < next || next == u64::MAX,
                        _ => true,
                    },
            decreases vec@.len() - i,
        {
            match vec[i] {
                Label::Uid(u) => {
                    if u >= next {
                        if u < u64::MAX {
                            next = u + 1;
                        } else {
                            next = u64::MAX;
                        }
                    }
                },
                _ => {},
            }
            i = i + 1;
        }
        LabelGenerator { next_uid: next }
    }
}

/// A value-carrying name: a variable, temporary or parameter.  Its only
/// operations are generation, comparison and hashing.
#[derive(Debug, Copy, Clone, PartialEq, Eq, Structural, Hash, PartialOrd, Ord)]
pub struct Symbol {
    uid: u64,
}

impl Symbol {
    /// The identity of the symbol.  Two symbols are equal exactly when
    /// their identities are.
    pub closed spec fn uid(self) -> u64 {
        self.uid
    }
}

/// The symbol carrying the given identity; generators mint exactly
/// these, in increasing order.
pub closed spec fn spec_symbol(uid: u64) -> Symbol {
    Symbol { uid }
}

pub broadcast proof fn lemma_spec_symbol(uid: u64)
    ensures
        (#[trigger] spec_symbol(uid)).uid() == uid,
{
}

/// Mints symbols with strictly increasing identities.
#[derive(Debug, Clone)]
pub struct SymbolGenerator {
    next_uid: u64,
}

impl SymbolGenerator {
    /// The identity the next generated symbol will carry.
    pub closed spec fn next(self) -> u64 {
        self.next_uid
    }

    pub fn new() -> (r: Self)
        ensures
            r.next() == 0,
    {
        SymbolGenerator { next_uid: 0 }
    }

    pub fn new_symbol(&mut self) -> (r: Symbol)
        requires
            old(self).next() < u64::MAX,
        ensures
            r == spec_symbol(old(self).next()),
            r.uid() == old(self).next(),
            final(self).next() == old(self).next() + 1,
    {
        let uid = self.next_uid;
        self.next_uid = self.next_uid + 1;
        Symbol { uid }
    }

    /// Whether another symbol can still be generated.
    pub fn has_room(&self) -> (b: bool)
        ensures
            b == (self.next() < u64::MAX),
    {
        self.next_uid < u64::MAX
    }

    /// Restarts a generator strictly past every identity found in the
    /// given symbols, so that nothing it later mints collides with them.
    /// An identity at the numeric limit leaves the generator full.
    #[verifier::loop_isolation(false)]
    pub fn from_vec(vec: &Vec<Symbol>) -> (r: SymbolGenerator)
        ensures
            forall|i: int|
                0 <= i < vec@.len() ==> (#[trigger] vec@[i]).uid() < r.next() || r.next()
                    == u64::MAX,
    {
        let mut next: u64 = 0;
        let mut i: usize = 0;
        while i < vec.len()
            invariant
                i <= vec@.len(),
                forall|j: int|
                    0 <= j < i ==> (#[trigger] vec@[j]).uid() < next || next == u64::MAX,
            decreases vec@.len() - i,
        {
            if vec[i].uid >= next {
                if vec[i].uid < u64::MAX {
                    next = vec[i].uid + 1;
                } else {
                    next = u64::MAX;
                }
            }
            i = i + 1;
        }
        SymbolGenerator { next_uid: next }
    }
}

/// A comparison between two symbols, as carried by a conditional jump.
#[derive(Debug, PartialEq, Eq, Structural, Copy, Clone)]
pub struct Comparison {
    pub c: ComparisonType,
    pub left: Symbol,
    pub right: Symbol,
}

#[derive(Debug, PartialEq, Eq, Structural, Copy, Clone)]
pub enum ComparisonType {
    Equal,
    NotEqual,
    GreaterThan,
    LessThan,
    GreaterThanEqual,
    LessThanEqual,
}

/// The arithmetic and logical operators of the intermediate form.
#[derive(Debug, PartialEq, Eq, Structural, Copy, Clone)]
pub enum InfixOp {
    Multiply,
    Divide,
    Add,
    Subtract,
    And,
    Or,
}

/// The full operator vocabulary of the surface language, before the
/// checker distinguishes arithmetic from comparison.
#[derive(Debug, PartialEq, Eq, Structural, Copy, Clone)]
pub enum InfixSourceOp {
    Multiply,
    Divide,
    Add,
    Subtract,
    Equal,
    NotEqual,
    GreaterThan,
    LessThan,
    GreaterThanEqual,
    LessThanEqual,
    And,
    Or,
}

impl InfixSourceOp {
    /// The arithmetic or logical operator this source operator denotes,
    /// or `None` when it is a comparison.
    pub open spec fn spec_as_infix_op(self) -> Option<InfixOp> {
        match self {
            InfixSourceOp::Multiply => Some(InfixOp::Multiply),
            InfixSourceOp::Divide => Some(InfixOp::Divide),
            InfixSourceOp::Add => Some(InfixOp::Add),
            InfixSourceOp::Subtract => Some(InfixOp::Subtract),
            InfixSourceOp::And => Some(InfixOp::And),
            InfixSourceOp::Or => Some(InfixOp::Or),
            _ => None,
        }
    }

    /// The comparison this source operator denotes, or `None` when it is
    /// arithmetic or logical.
    pub open spec fn spec_as_comparison_type(self) -> Option<ComparisonType> {
        match self {
            InfixSourceOp::Equal => Some(ComparisonType::Equal),
            InfixSourceOp::NotEqual => Some(ComparisonType::NotEqual),
            InfixSourceOp::GreaterThan => Some(ComparisonType::GreaterThan),
            InfixSourceOp::LessThan => Some(ComparisonType::LessThan),
            InfixSourceOp::GreaterThanEqual => Some(ComparisonType::GreaterThanEqual),
            InfixSourceOp::LessThanEqual => Some(ComparisonType::LessThanEqual),
            _ => None,
        }
    }

    pub fn as_infix_op(self) -> (r: Option<InfixOp>)
        ensures
            r == self.spec_as_infix_op(),
    {
        match self {
            InfixSourceOp::Multiply => Some(InfixOp::Multiply),
            InfixSourceOp::Divide => Some(InfixOp::Divide),
            InfixSourceOp::Add => Some(InfixOp::Add),
            InfixSourceOp::Subtract => Some(InfixOp::Subtract),
            InfixSourceOp::And => Some(InfixOp::And),
            InfixSourceOp::Or => Some(InfixOp::Or),
            _ => None,
        }
    }

    pub fn as_comparison_type(self) -> (r: Option<ComparisonType>)
        ensures
            r == self.spec_as_comparison_type(),
    {
        match self {
            InfixSourceOp::Equal => Some(ComparisonType::Equal),
            InfixSourceOp::NotEqual => Some(ComparisonType::NotEqual),
            InfixSourceOp::GreaterThan => Some(ComparisonType::GreaterThan),
            InfixSourceOp::LessThan => Some(ComparisonType::LessThan),
            InfixSourceOp::GreaterThanEqual => Some(ComparisonType::GreaterThanEqual),
            InfixSourceOp::LessThanEqual => Some(ComparisonType::LessThanEqual),
            _ => None,
        }
    }
}

} // verus!
