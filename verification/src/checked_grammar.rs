//! The checked abstract syntax: names resolved to symbols and labels,
//! types interned behind opaque identifiers, and the environments the
//! checker populates.

use vstd::prelude::*;

use crate::common::{InfixSourceOp, Label, LabelGenerator, Symbol, SymbolGenerator};
use crate::tables::{AssocMap, MapKey};

verus! {

/// An opaque identity for an interned type descriptor.
#[derive(Debug, Clone, Copy, PartialEq, Eq, Structural, Hash)]
pub struct TypeId(pub u64);

impl MapKey for TypeId {
    type KV = TypeId;

    open spec fn kview(&self) -> TypeId {
        *self
    }

    fn keq(&self, other: &Self) -> (r: bool)
        ensures
            r == (self.kview() == other.kview()),
    {
        *self == *other
    }
}

/// A type descriptor.  Record field order is significant: it fixes the
/// heap layout.
pub enum Type {
    Void,
    Str,
    Int,
    Record(Vec<(String, TypeId)>),
    Array(TypeId),
}

/// A function signature: its return type and its parameters in order.
pub struct FunctionType {
    pub return_type: TypeId,
    pub arguments: Vec<(Symbol, TypeId)>,
}

pub struct CheckedProgram {
    pub function_symbols: AssocMap<Label, FunctionType>,
    pub symbol_table: AssocMap<Symbol, TypeId>,
    pub types: AssocMap<TypeId, Type>,
    pub gen_sym: SymbolGenerator,
    pub gen_label: LabelGenerator,
    pub dec_list: Vec<CheckedTopLevelDec>,
}

pub enum CheckedTopLevelDec {
    FunDec { name: Label, args: Vec<Symbol>, body: Box<CheckedExp> },
}

pub enum CheckedExp {
    Break,
    IntLit { value: i32 },
    StringLit { value: String },
    LValue { lvalue: CheckedLValue },
    Sequence { sequence: Vec<CheckedExp> },
    Negate { exp: Box<CheckedExp> },
    Infix { left: Box<CheckedExp>, op: InfixSourceOp, right: Box<CheckedExp> },
    ArrayCreate { length: Box<CheckedExp>, initial_value: Box<CheckedExp> },
    RecordCreate { fields: Vec<(String, CheckedExp)> },
    Assign { left: CheckedLValue, right: Box<CheckedExp> },
    IfThenElse { if_exp: Box<CheckedExp>, then_exp: Box<CheckedExp>, else_exp: Box<CheckedExp> },
    IfThen { if_exp: Box<CheckedExp>, then_exp: Box<CheckedExp> },
    While { while_exp: Box<CheckedExp>, do_exp: Box<CheckedExp> },
    For { id: Symbol, for_exp: Box<CheckedExp>, to_exp: Box<CheckedExp>, do_exp: Box<CheckedExp> },
    Let { let_exp: Vec<CheckedDec>, in_exp: Box<CheckedExp> },
    Call { function_name: Label, args: Vec<CheckedExp> },
}

pub enum CheckedLValue {
    Id { name: Symbol },
    Subscript { array: Box<CheckedLValue>, index: Box<CheckedExp> },
    FieldExp { record: Box<CheckedLValue>, field: String },
}

pub enum CheckedDec {
    VarDec { name: Symbol, value: CheckedExp },
}

/// Mints type identities in increasing order.
#[derive(Debug, Clone)]
pub struct GenerateTypeId(pub u64);

impl GenerateTypeId {
    pub fn new() -> (r: GenerateTypeId)
        ensures
            r.0 == 0,
    {
        GenerateTypeId(0)
    }

    /// Whether another type identity can still be generated.
    pub fn has_room(&self) -> (b: bool)
        ensures
            b == (self.0 < u64::MAX),
    {
        self.0 < u64::MAX
    }

    pub fn new_type_id(&mut self) -> (r: TypeId)
        requires
            old(self).0 < u64::MAX,
        ensures
            r == TypeId(old(self).0),
            final(self).0 == old(self).0 + 1,
    {
        let uid = self.0;
        self.0 = uid + 1;
        TypeId(uid)
    }
}

/// The interning tables and generators the checker populates and the
/// lowering pass consumes.
pub struct GlobalTypeInfo {
    pub function_symbols: AssocMap<Label, FunctionType>,
    pub symbol_table: AssocMap<Symbol, TypeId>,
    pub types: AssocMap<TypeId, Type>,
    pub gen_type: GenerateTypeId,
    pub gen_sym: SymbolGenerator,
    pub gen_label: LabelGenerator,
}

impl GlobalTypeInfo {
    pub open spec fn wf(self) -> bool {
        &&& self.function_symbols.wf()
        &&& self.symbol_table.wf()
        &&& self.types.wf()
        &&& forall|k: TypeId| self.types@.contains_key(k) ==> k.0 < self.gen_type.0
    }

    /// Interns a type descriptor under a fresh identity.
    pub fn new_type_id(&mut self, type_: Type) -> (r: TypeId)
        requires
            old(self).wf(),
            old(self).gen_type.0 < u64::MAX,
        ensures
            final(self).wf(),
            !old(self).types@.contains_key(r),
            final(self).types@ == old(self).types@.insert(r, type_),
            final(self).gen_type.0 == old(self).gen_type.0 + 1,
            final(self).symbol_table == old(self).symbol_table,
            final(self).function_symbols == old(self).function_symbols,
            final(self).gen_sym == old(self).gen_sym,
            final(self).gen_label == old(self).gen_label,
    {
        let new_type_id = self.gen_type.new_type_id();
        self.types.insert(new_type_id, type_);
        new_type_id
    }

    /// Binds a symbol to its type; a duplicate symbol is an internal
    /// error.
    pub fn insert_gamma(&mut self, id: Symbol, type_id: TypeId) -> (r: Result<
        (),
        crate::check_type::TypeError,
    >)
        requires
            old(self).wf(),
        ensures
            final(self).wf(),
            r is Ok <==> !old(self).symbol_table@.contains_key(id),
            r is Ok ==> final(self).symbol_table@ == old(self).symbol_table@.insert(id, type_id),
            r is Err ==> *final(self) == *old(self),
            final(self).types == old(self).types,
            final(self).function_symbols == old(self).function_symbols,
            final(self).gen_sym == old(self).gen_sym,
            final(self).gen_label == old(self).gen_label,
            final(self).gen_type == old(self).gen_type,
    {
        if self.symbol_table.contains_key(&id) {
            Err(crate::check_type::TypeError("Duplicate Symbol"))
        } else {
            self.symbol_table.insert(id, type_id);
            Ok(())
        }
    }

    /// The type bound to a symbol.
    pub fn lookup_gamma(&self, name: Symbol) -> (r: Option<TypeId>)
        requires
            self.wf(),
        ensures
            r matches Some(t) ==> self.symbol_table@.contains_key(name) && self.symbol_table@[name]
                == t,
            r is None ==> !self.symbol_table@.contains_key(name),
    {
        match self.symbol_table.get(&name) {
            Some(t) => Some(*t),
            None => None,
        }
    }

    /// The descriptor interned under a type identity.
    pub fn lookup_c(&self, name: TypeId) -> (r: Option<&Type>)
        requires
            self.wf(),
        ensures
            r matches Some(t) ==> self.types@.contains_key(name) && self.types@[name] == *t,
            r is None ==> !self.types@.contains_key(name),
    {
        self.types.get(&name)
    }

    /// The signature registered under a function label.
    pub fn lookup_f(&self, name: &Label) -> (r: Option<&FunctionType>)
        requires
            self.wf(),
        ensures
            r matches Some(t) ==> self.function_symbols@.contains_key(*name)
                && self.function_symbols@[*name] == *t,
            r is None ==> !self.function_symbols@.contains_key(*name),
    {
        self.function_symbols.get(name)
    }

    /// Registers a function signature; a duplicate label is an
    /// internal error.
    pub fn insert_f(&mut self, id: &Label, fn_type: FunctionType) -> (r: Result<
        (),
        crate::check_type::TypeError,
    >)
        requires
            old(self).wf(),
        ensures
            final(self).wf(),
            r is Ok <==> !old(self).function_symbols@.contains_key(*id),
            r is Ok ==> final(self).function_symbols@ == old(self).function_symbols@.insert(
                *id,
                fn_type,
            ),
            r is Err ==> *final(self) == *old(self),
            final(self).symbol_table == old(self).symbol_table,
            final(self).types == old(self).types,
            final(self).gen_sym == old(self).gen_sym,
            final(self).gen_label == old(self).gen_label,
            final(self).gen_type == old(self).gen_type,
    {
        if self.function_symbols.contains_key(id) {
            Err(crate::check_type::TypeError("Duplicate Label"))
        } else {
            self.function_symbols.insert(*id, fn_type);
            Ok(())
        }
    }
}

} // verus!

verus! {

/// Every symbol a checked expression binds or mentions.
pub open spec fn cexp_symbols(e: CheckedExp) -> Set<Symbol>
    decreases e,
{
    match e {
        CheckedExp::Break => Set::empty(),
        CheckedExp::IntLit { .. } => Set::empty(),
        CheckedExp::StringLit { .. } => Set::empty(),
        CheckedExp::LValue { lvalue } => clv_symbols(lvalue),
        CheckedExp::Sequence { sequence } => cexps_symbols(sequence@),
        CheckedExp::Negate { exp } => cexp_symbols(*exp),
        CheckedExp::Infix { left, right, .. } => cexp_symbols(*left).union(cexp_symbols(*right)),
        CheckedExp::ArrayCreate { length, initial_value } => cexp_symbols(*length).union(
            cexp_symbols(*initial_value),
        ),
        CheckedExp::RecordCreate { fields } => cfields_symbols(fields@),
        CheckedExp::Assign { left, right } => clv_symbols(left).union(cexp_symbols(*right)),
        CheckedExp::IfThenElse { if_exp, then_exp, else_exp } => cexp_symbols(*if_exp).union(
            cexp_symbols(*then_exp),
        ).union(cexp_symbols(*else_exp)),
        CheckedExp::IfThen { if_exp, then_exp } => cexp_symbols(*if_exp).union(
            cexp_symbols(*then_exp),
        ),
        CheckedExp::While { while_exp, do_exp } => cexp_symbols(*while_exp).union(
            cexp_symbols(*do_exp),
        ),
        CheckedExp::For { id, for_exp, to_exp, do_exp } => set![id].union(
            cexp_symbols(*for_exp),
        ).union(cexp_symbols(*to_exp)).union(cexp_symbols(*do_exp)),
        CheckedExp::Let { let_exp, in_exp } => cdecs_symbols(let_exp@).union(cexp_symbols(*in_exp)),
        CheckedExp::Call { args, .. } => cexps_symbols(args@),
    }
}

pub open spec fn cexps_symbols(s: Seq<CheckedExp>) -> Set<Symbol>
    decreases s,
{
    if s.len() == 0 {
        Set::empty()
    } else {
        cexps_symbols(s.drop_last()).union(cexp_symbols(s.last()))
    }
}

pub open spec fn cfields_symbols(s: Seq<(String, CheckedExp)>) -> Set<Symbol>
    decreases s,
{
    if s.len() == 0 {
        Set::empty()
    } else {
        cfields_symbols(s.drop_last()).union(cexp_symbols(s.last().1))
    }
}

pub open spec fn cdecs_symbols(s: Seq<CheckedDec>) -> Set<Symbol>
    decreases s,
{
    if s.len() == 0 {
        Set::empty()
    } else {
        cdecs_symbols(s.drop_last()).union(cdec_symbols(s.last()))
    }
}

pub open spec fn cdec_symbols(d: CheckedDec) -> Set<Symbol>
    decreases d,
{
    match d {
        CheckedDec::VarDec { name, value } => set![name].union(cexp_symbols(value)),
    }
}

pub open spec fn clv_symbols(lv: CheckedLValue) -> Set<Symbol>
    decreases lv,
{
    match lv {
        CheckedLValue::Id { name } => set![name],
        CheckedLValue::Subscript { array, index } => clv_symbols(*array).union(
            cexp_symbols(*index),
        ),
        CheckedLValue::FieldExp { record, .. } => clv_symbols(*record),
    }
}

/// Every label a checked expression calls.
pub open spec fn cexp_call_labels(e: CheckedExp) -> Set<Label>
    decreases e,
{
    match e {
        CheckedExp::Break => Set::empty(),
        CheckedExp::IntLit { .. } => Set::empty(),
        CheckedExp::StringLit { .. } => Set::empty(),
        CheckedExp::LValue { lvalue } => clv_call_labels(lvalue),
        CheckedExp::Sequence { sequence } => cexps_call_labels(sequence@),
        CheckedExp::Negate { exp } => cexp_call_labels(*exp),
        CheckedExp::Infix { left, right, .. } => cexp_call_labels(*left).union(
            cexp_call_labels(*right),
        ),
        CheckedExp::ArrayCreate { length, initial_value } => cexp_call_labels(*length).union(
            cexp_call_labels(*initial_value),
        ),
        CheckedExp::RecordCreate { fields } => cfields_call_labels(fields@),
        CheckedExp::Assign { left, right } => clv_call_labels(left).union(
            cexp_call_labels(*right),
        ),
        CheckedExp::IfThenElse { if_exp, then_exp, else_exp } => cexp_call_labels(*if_exp).union(
            cexp_call_labels(*then_exp),
        ).union(cexp_call_labels(*else_exp)),
        CheckedExp::IfThen { if_exp, then_exp } => cexp_call_labels(*if_exp).union(
            cexp_call_labels(*then_exp),
        ),
        CheckedExp::While { while_exp, do_exp } => cexp_call_labels(*while_exp).union(
            cexp_call_labels(*do_exp),
        ),
        CheckedExp::For { for_exp, to_exp, do_exp, .. } => cexp_call_labels(*for_exp).union(
            cexp_call_labels(*to_exp),
        ).union(cexp_call_labels(*do_exp)),
        CheckedExp::Let { let_exp, in_exp } => cdecs_call_labels(let_exp@).union(
            cexp_call_labels(*in_exp),
        ),
        CheckedExp::Call { function_name, args } => cexps_call_labels(args@).insert(function_name),
    }
}

pub open spec fn cexps_call_labels(s: Seq<CheckedExp>) -> Set<Label>
    decreases s,
{
    if s.len() == 0 {
        Set::empty()
    } else {
        cexps_call_labels(s.drop_last()).union(cexp_call_labels(s.last()))
    }
}

pub open spec fn cfields_call_labels(s: Seq<(String, CheckedExp)>) -> Set<Label>
    decreases s,
{
    if s.len() == 0 {
        Set::empty()
    } else {
        cfields_call_labels(s.drop_last()).union(cexp_call_labels(s.last().1))
    }
}

pub open spec fn cdecs_call_labels(s: Seq<CheckedDec>) -> Set<Label>
    decreases s,
{
    if s.len() == 0 {
        Set::empty()
    } else {
        cdecs_call_labels(s.drop_last()).union(
            match s.last() {
                CheckedDec::VarDec { value, .. } => cexp_call_labels(value),
            },
        )
    }
}

pub open spec fn clv_call_labels(lv: CheckedLValue) -> Set<Label>
    decreases lv,
{
    match lv {
        CheckedLValue::Id { .. } => Set::empty(),
        CheckedLValue::Subscript { array, index } => clv_call_labels(*array).union(
            cexp_call_labels(*index),
        ),
        CheckedLValue::FieldExp { record, .. } => clv_call_labels(*record),
    }
}

} // verus!
