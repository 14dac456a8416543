//! The type checker: walks the surface syntax under a lexically scoped
//! context, resolves names to symbols, labels and type identities, and
//! produces the checked program together with its populated
//! environments, or the first error found.

use vstd::prelude::*;

use crate::checked_grammar::{
    CheckedDec, CheckedExp, CheckedLValue, CheckedProgram, CheckedTopLevelDec, FunctionType,
    GenerateTypeId, GlobalTypeInfo, Type, TypeId,
};
use crate::common::{Label, LabelGenerator, SymbolGenerator};
use crate::source_grammar::{Dec, Exp, LValue, Program, TopLevelDec};
use crate::tables::AssocMap;

verus! {

/// A static, fatal checking error with a short message.
#[derive(Debug)]
pub struct TypeError(pub &'static str);

/// One lexical scope: function names, value names and type names bound
/// in it.
pub struct ContextFrame {
    pub f: AssocMap<String, Label>,
    pub s: AssocMap<String, crate::common::Symbol>,
    pub t: AssocMap<String, TypeId>,
}

/// The stack of lexical scopes, consulted inner-to-outer.
pub struct StackedContext {
    pub frames: Vec<ContextFrame>,
}

impl StackedContext {
    pub open spec fn wf(self) -> bool {
        forall|i: int|
            0 <= i < self.frames@.len() ==> (#[trigger] self.frames@[i]).f.wf()
                && self.frames@[i].s.wf() && self.frames@[i].t.wf()
    }

    /// The innermost type-name binding in a frame stack.
    pub open spec fn spec_lookup_t(frames: Seq<ContextFrame>, name: Seq<char>) -> Option<TypeId>
        decreases frames.len(),
    {
        if frames.len() == 0 {
            None
        } else if frames.last().t@.contains_key(name) {
            Some(frames.last().t@[name])
        } else {
            Self::spec_lookup_t(frames.drop_last(), name)
        }
    }

    /// The innermost value-name binding in a frame stack.
    pub open spec fn spec_lookup_s(frames: Seq<ContextFrame>, name: Seq<char>) -> Option<
        crate::common::Symbol,
    >
        decreases frames.len(),
    {
        if frames.len() == 0 {
            None
        } else if frames.last().s@.contains_key(name) {
            Some(frames.last().s@[name])
        } else {
            Self::spec_lookup_s(frames.drop_last(), name)
        }
    }

    /// The innermost function-name binding in a frame stack.
    pub open spec fn spec_lookup_f(frames: Seq<ContextFrame>, name: Seq<char>) -> Option<Label>
        decreases frames.len(),
    {
        if frames.len() == 0 {
            None
        } else if frames.last().f@.contains_key(name) {
            Some(frames.last().f@[name])
        } else {
            Self::spec_lookup_f(frames.drop_last(), name)
        }
    }

    /// The innermost binding of a type name.
    #[verifier::loop_isolation(false)]
    pub fn lookup_t(&self, name: &String) -> (r: Option<TypeId>)
        requires
            self.wf(),
        ensures
            r == Self::spec_lookup_t(self.frames@, name@),
    {
        proof {
            assert(self.frames@.take(self.frames@.len() as int) =~= self.frames@);
        }
        let mut i: usize = self.frames.len();
        while i > 0
            invariant
                i <= self.frames@.len(),
                Self::spec_lookup_t(self.frames@.take(i as int), name@) == Self::spec_lookup_t(
                    self.frames@,
                    name@,
                ),
            decreases i,
        {
            i = i - 1;
            proof {
                assert(self.frames@.take(i + 1).last() == self.frames@[i as int]);
                assert(self.frames@.take(i + 1).drop_last() =~= self.frames@.take(i as int));
            }
            match self.frames[i].t.get(name) {
                Some(v) => {
                    return Some(*v);
                },
                None => {},
            }
        }
        proof {
            assert(self.frames@.take(0) =~= Seq::<ContextFrame>::empty());
        }
        None
    }

    /// The innermost binding of a value name.
    #[verifier::loop_isolation(false)]
    pub fn lookup_s(&self, name: &String) -> (r: Option<crate::common::Symbol>)
        requires
            self.wf(),
        ensures
            r == Self::spec_lookup_s(self.frames@, name@),
    {
        proof {
            assert(self.frames@.take(self.frames@.len() as int) =~= self.frames@);
        }
        let mut i: usize = self.frames.len();
        while i > 0
            invariant
                i <= self.frames@.len(),
                Self::spec_lookup_s(self.frames@.take(i as int), name@) == Self::spec_lookup_s(
                    self.frames@,
                    name@,
                ),
            decreases i,
        {
            i = i - 1;
            proof {
                assert(self.frames@.take(i + 1).last() == self.frames@[i as int]);
                assert(self.frames@.take(i + 1).drop_last() =~= self.frames@.take(i as int));
            }
            match self.frames[i].s.get(name) {
                Some(v) => {
                    return Some(*v);
                },
                None => {},
            }
        }
        proof {
            assert(self.frames@.take(0) =~= Seq::<ContextFrame>::empty());
        }
        None
    }

    /// The innermost binding of a function name.
    #[verifier::loop_isolation(false)]
    pub fn lookup_f(&self, name: &String) -> (r: Option<Label>)
        requires
            self.wf(),
        ensures
            r == Self::spec_lookup_f(self.frames@, name@),
    {
        proof {
            assert(self.frames@.take(self.frames@.len() as int) =~= self.frames@);
        }
        let mut i: usize = self.frames.len();
        while i > 0
            invariant
                i <= self.frames@.len(),
                Self::spec_lookup_f(self.frames@.take(i as int), name@) == Self::spec_lookup_f(
                    self.frames@,
                    name@,
                ),
            decreases i,
        {
            i = i - 1;
            proof {
                assert(self.frames@.take(i + 1).last() == self.frames@[i as int]);
                assert(self.frames@.take(i + 1).drop_last() =~= self.frames@.take(i as int));
            }
            match self.frames[i].f.get(name) {
                Some(v) => {
                    return Some(*v);
                },
                None => {},
            }
        }
        proof {
            assert(self.frames@.take(0) =~= Seq::<ContextFrame>::empty());
        }
        None
    }

    /// Pushes one new scope.
    pub fn push_frame(&mut self, frame: ContextFrame)
        requires
            old(self).wf(),
            frame.f.wf(),
            frame.s.wf(),
            frame.t.wf(),
        ensures
            final(self).wf(),
            final(self).frames@ == old(self).frames@.push(frame),
    {
        let ghost pre = self.frames@;
        self.frames.push(frame);
        proof {
            assert forall|i: int| 0 <= i < self.frames@.len() implies (
            #[trigger] self.frames@[i]).f.wf() && self.frames@[i].s.wf()
                && self.frames@[i].t.wf() by {
                if i < pre.len() {
                    assert(self.frames@[i] == pre[i]);
                }
            }
        }
    }

    /// Pops the innermost scope; an empty stack is left as it is.
    pub fn pop_frame(&mut self)
        requires
            old(self).wf(),
        ensures
            final(self).wf(),
            old(self).frames@.len() > 0 ==> final(self).frames@ == old(self).frames@.drop_last(),
            old(self).frames@.len() == 0 ==> final(self).frames@ == old(self).frames@,
    {
        let ghost pre = self.frames@;
        if self.frames.len() > 0 {
            let _ = self.frames.pop();
            proof {
                assert forall|i: int| 0 <= i < self.frames@.len() implies (
                #[trigger] self.frames@[i]).f.wf() && self.frames@[i].s.wf()
                    && self.frames@[i].t.wf() by {
                    assert(self.frames@[i] == pre[i]);
                }
            }
        }
    }
}

/// Every value name a context binds resolves to a symbol the symbol
/// table knows, and every function name to a registered label.
pub open spec fn ctx_covered(
    c: StackedContext,
    st: Map<crate::common::Symbol, TypeId>,
    fs: Map<Label, FunctionType>,
) -> bool {
    &&& forall|i: int, kv: Seq<char>|
        0 <= i < c.frames@.len() && (#[trigger] c.frames@[i].s@.contains_key(kv))
            ==> st.contains_key(c.frames@[i].s@[kv])
    &&& forall|i: int, kv: Seq<char>|
        0 <= i < c.frames@.len() && (#[trigger] c.frames@[i].f@.contains_key(kv))
            ==> fs.contains_key(c.frames@[i].f@[kv])
}

/// A successful lookup returns a binding of some frame.
proof fn lemma_lookup_s_frame(frames: Seq<ContextFrame>, name: Seq<char>)
    ensures
        StackedContext::spec_lookup_s(frames, name) matches Some(s) ==> exists|i: int|
            0 <= i < frames.len() && (#[trigger] frames[i].s@.contains_key(name))
                && frames[i].s@[name] == s,
    decreases frames.len(),
{
    if frames.len() > 0 {
        if frames.last().s@.contains_key(name) {
            assert(frames[frames.len() - 1].s@.contains_key(name));
        } else {
            lemma_lookup_s_frame(frames.drop_last(), name);
            match StackedContext::spec_lookup_s(frames, name) {
                Some(s) => {
                    let i = choose|i: int|
                        0 <= i < frames.drop_last().len() && (#[trigger] frames.drop_last()[i].s@.contains_key(
                            name,
                        )) && frames.drop_last()[i].s@[name] == s;
                    assert(frames[i].s@.contains_key(name));
                },
                None => {},
            }
        }
    }
}

/// A successful function-name lookup returns a binding of some frame.
proof fn lemma_lookup_f_frame(frames: Seq<ContextFrame>, name: Seq<char>)
    ensures
        StackedContext::spec_lookup_f(frames, name) matches Some(l) ==> exists|i: int|
            0 <= i < frames.len() && (#[trigger] frames[i].f@.contains_key(name))
                && frames[i].f@[name] == l,
    decreases frames.len(),
{
    if frames.len() > 0 {
        if frames.last().f@.contains_key(name) {
            assert(frames[frames.len() - 1].f@.contains_key(name));
        } else {
            lemma_lookup_f_frame(frames.drop_last(), name);
            match StackedContext::spec_lookup_f(frames, name) {
                Some(l) => {
                    let i = choose|i: int|
                        0 <= i < frames.drop_last().len() && (#[trigger] frames.drop_last()[i].f@.contains_key(
                            name,
                        )) && frames.drop_last()[i].f@[name] == l;
                    assert(frames[i].f@.contains_key(name));
                },
                None => {},
            }
        }
    }
}

/// Subset inclusion of symbol sets is transitive; stated for the sets
/// the coverage contracts chain through growing table domains.
pub broadcast proof fn lemma_subset_trans<A>(s1: Set<A>, s2: Set<A>, s3: Set<A>)
    requires
        #[trigger] s1.subset_of(s2),
        #[trigger] s2.subset_of(s3),
    ensures
        s1.subset_of(s3),
{
    assert forall|a: A| s1.contains(a) implies s3.contains(a) by {
        assert(s2.contains(a));
    }
}

/// A map's domain only grows along the submap order.
pub broadcast proof fn lemma_submap_dom<K, V>(m1: Map<K, V>, m2: Map<K, V>)
    requires
        #[trigger] m1.submap_of(m2),
    ensures
        m1.dom().subset_of(m2.dom()),
{
    assert forall|k: K| m1.dom().contains(k) implies m2.dom().contains(k) by {}
}

/// Inserting a fresh key leaves the old map a submap of the new one.
proof fn lemma_insert_submap<K, V>(m: Map<K, V>, k: K, v: V)
    requires
        !m.dom().contains(k),
    ensures
        m.submap_of(m.insert(k, v)),
{
    assert forall|k2: K| m.dom().contains(k2) implies #[trigger] m.insert(k, v).dom().contains(k2)
        && m[k2] == m.insert(k, v)[k2] by {}
}

/// A frame whose type table does not bind a name leaves that name's
/// type lookup to the frames below it.
proof fn lemma_lookup_t_top(frames: Seq<ContextFrame>, name: Seq<char>)
    requires
        frames.len() > 0,
        !frames.last().t@.contains_key(name),
    ensures
        StackedContext::spec_lookup_t(frames, name) == StackedContext::spec_lookup_t(
            frames.drop_last(),
            name,
        ),
{
}

/// An empty scope.
fn empty_frame() -> (r: ContextFrame)
    ensures
        r.f.wf(),
        r.s.wf(),
        r.t.wf(),
        r.f@ == Map::<Seq<char>, Label>::empty(),
        r.s@ == Map::<Seq<char>, crate::common::Symbol>::empty(),
        r.t@ == Map::<Seq<char>, TypeId>::empty(),
{
    ContextFrame { f: AssocMap::new(), s: AssocMap::new(), t: AssocMap::new() }
}

/// Structural equality of two type descriptors, with field names
/// compared by their text.
pub open spec fn type_eqv(a: Type, b: Type) -> bool {
    match (a, b) {
        (Type::Void, Type::Void) => true,
        (Type::Str, Type::Str) => true,
        (Type::Int, Type::Int) => true,
        (Type::Array(x), Type::Array(y)) => x == y,
        (Type::Record(xs), Type::Record(ys)) => xs@.len() == ys@.len() && forall|i: int|
            0 <= i < xs@.len() ==> (#[trigger] xs@[i]).0@ == ys@[i].0@ && xs@[i].1 == ys@[i].1,
        _ => false,
    }
}

/// Decides structural equality of two type descriptors; record types
/// are equal when their field names and field types agree in order.
#[verifier::loop_isolation(false)]
pub fn type_equal(a: &Type, b: &Type) -> (r: bool)
    ensures
        r == type_eqv(*a, *b),
{
    match (a, b) {
        (Type::Void, Type::Void) => true,
        (Type::Str, Type::Str) => true,
        (Type::Int, Type::Int) => true,
        (Type::Array(x), Type::Array(y)) => *x == *y,
        (Type::Record(xs), Type::Record(ys)) => {
            if xs.len() != ys.len() {
                return false;
            }
            let mut i: usize = 0;
            while i < xs.len()
                invariant
                    i <= xs@.len(),
                    xs@.len() == ys@.len(),
                    forall|j: int|
                        0 <= j < i ==> (#[trigger] xs@[j]).0@ == ys@[j].0@ && xs@[j].1 == ys@[j].1,
                decreases xs@.len() - i,
            {
                if !(xs[i].0 == ys[i].0) || !(xs[i].1 == ys[i].1) {
                    return false;
                }
                i = i + 1;
            }
            true
        },
        _ => false,
    }
}

/// A copy of a type descriptor.
#[verifier::loop_isolation(false)]
pub fn clone_type(a: &Type) -> (r: Type) {
    match a {
        Type::Void => Type::Void,
        Type::Str => Type::Str,
        Type::Int => Type::Int,
        Type::Array(x) => Type::Array(*x),
        Type::Record(xs) => {
            let mut fields: Vec<(String, TypeId)> = Vec::new();
            let mut i: usize = 0;
            while i < xs.len()
                invariant
                    i <= xs@.len(),
                decreases xs@.len() - i,
            {
                fields.push((xs[i].0.clone(), xs[i].1));
                i = i + 1;
            }
            Type::Record(fields)
        },
    }
}

/// Pairwise distinctness of the names in a list of (name, type-name)
/// pairs, compared by their text.
pub open spec fn names_distinct(s: Seq<(String, String)>) -> bool {
    forall|i: int, j: int| 0 <= i < j < s.len() ==> (#[trigger] s[i]).0@ != (#[trigger] s[j]).0@
}

/// Checks that the names in a list of (name, type-name) pairs are
/// pairwise distinct.
#[verifier::loop_isolation(false)]
pub fn pairwise_different(field_decs: &Vec<(String, String)>) -> (r: Result<(), TypeError>)
    ensures
        r is Ok <==> names_distinct(field_decs@),
{
    let mut i: usize = 0;
    while i < field_decs.len()
        invariant
            i <= field_decs@.len(),
            forall|i1: int, j1: int|
                0 <= i1 < j1 < field_decs@.len() && i1 < i ==> (#[trigger] field_decs@[i1]).0@ != (
                #[trigger] field_decs@[j1]).0@,
        decreases field_decs@.len() - i,
    {
        let mut j: usize = i + 1;
        while j < field_decs.len()
            invariant
                i < j,
                i < field_decs@.len(),
                j <= field_decs@.len(),
                forall|j1: int|
                    i < j1 < j ==> (#[trigger] field_decs@[j1]).0@ != field_decs@[i as int].0@,
            decreases field_decs@.len() - j,
        {
            if field_decs[i].0 == field_decs[j].0 {
                return Err(TypeError("Record Field Names in Types Not distinct"));
            }
            j = j + 1;
        }
        i = i + 1;
    }
    Ok(())
}

/// Resolves a type name through the context and checks the identity is
/// interned.
fn resolve_type_name(
    gti: &GlobalTypeInfo,
    c: &StackedContext,
    name: &String,
    missing: &'static str,
) -> (r: Result<TypeId, TypeError>)
    requires
        gti.wf(),
        c.wf(),
    ensures
        r matches Ok(t) ==> StackedContext::spec_lookup_t(c.frames@, name@) == Some(t)
            && gti.types@.contains_key(t),
{
    match c.lookup_t(name) {
        None => Err(TypeError(missing)),
        Some(type_id) => match gti.lookup_c(type_id) {
            None => Err(TypeError("type id has no descriptor")),
            Some(_) => Ok(type_id),
        },
    }
}

/// Holds of a top-level declaration that declares a function named
/// `main`.
pub open spec fn dec_named_main(d: TopLevelDec) -> bool {
    match d {
        TopLevelDec::FunDec { name, .. } => name@ == "main"@,
        _ => false,
    }
}

/// Holds of a `main` declaration that breaks the entry-point rules:
/// parameters, or a return type other than `int` or `void`.
pub open spec fn bad_main_dec(d: TopLevelDec) -> bool {
    match d {
        TopLevelDec::FunDec { name, return_type, args, .. } => name@ == "main"@ && (args@.len() > 0
            || (return_type@ != "int"@ && return_type@ != "void"@)),
        _ => false,
    }
}

/// Holds of a function declaration whose whole body is a bare `break`,
/// which no enclosing loop can catch.
pub open spec fn break_body_dec(d: TopLevelDec) -> bool {
    match d {
        TopLevelDec::FunDec { body, .. } => *body is Break,
        _ => false,
    }
}

/// Holds of a type declaration that rebinds a primitive type name, so
/// that `int` or `void` later names a declared type instead.
pub open spec fn shadows_builtin(d: TopLevelDec) -> bool {
    match d {
        TopLevelDec::TyDecArray { new_type, .. } => new_type@ == "int"@ || new_type@ == "void"@,
        TopLevelDec::TyDecRecord { new_type, .. } => new_type@ == "int"@ || new_type@ == "void"@,
        _ => false,
    }
}

/// A checked declaration whose names the environments cover: its label
/// is registered, its parameters are bound, and every symbol and call
/// label of its body is a key of the respective table.
pub open spec fn checked_dec_covered(
    d: CheckedTopLevelDec,
    st: Map<crate::common::Symbol, TypeId>,
    fs: Map<Label, FunctionType>,
) -> bool {
    match d {
        CheckedTopLevelDec::FunDec { name, args, body } => {
            &&& fs.contains_key(name)
            &&& forall|k: int| 0 <= k < args@.len() ==> st.contains_key(#[trigger] args@[k])
            &&& crate::checked_grammar::cexp_symbols(*body).subset_of(st.dom())
            &&& crate::checked_grammar::cexp_call_labels(*body).subset_of(fs.dom())
        },
    }
}

/// Coverage of a checked declaration survives growth of the tables.
proof fn lemma_dec_covered_grow(
    d: CheckedTopLevelDec,
    st1: Map<crate::common::Symbol, TypeId>,
    fs1: Map<Label, FunctionType>,
    st2: Map<crate::common::Symbol, TypeId>,
    fs2: Map<Label, FunctionType>,
)
    requires
        checked_dec_covered(d, st1, fs1),
        st1.submap_of(st2),
        fs1.submap_of(fs2),
    ensures
        checked_dec_covered(d, st2, fs2),
{
    broadcast use lemma_subset_trans;
    broadcast use lemma_submap_dom;

    match d {
        CheckedTopLevelDec::FunDec { name, args, body } => {
            assert forall|k: int| 0 <= k < args@.len() implies st2.contains_key(
                #[trigger] args@[k],
            ) by {
                assert(st1.contains_key(args@[k]));
            }
        },
    }
}

/// Type-checks a whole program: every top-level declaration in order,
/// requiring a `main` of no arguments returning `int` or `void`.  On
/// success the returned program's environments cover it: every symbol
/// and call label of every checked declaration is bound, and `main`'s
/// registered signature has no parameters.  A program with no `main`,
/// a `main` with parameters or another return type, or a function
/// whose whole body is a bare `break`, is rejected.
#[verifier::loop_isolation(false)]
#[verifier::rlimit(100)]
#[verifier::spinoff_prover]
pub fn type_check(program: Program) -> (r: Result<CheckedProgram, TypeError>)
    ensures
        r matches Ok(cp) ==> {
            &&& cp.function_symbols.wf()
            &&& cp.symbol_table.wf()
            &&& cp.types.wf()
            &&& cp.function_symbols@.contains_key(Label::Main)
            &&& cp.function_symbols@[Label::Main].arguments@.len() == 0
            &&& forall|j: int|
                0 <= j < cp.dec_list@.len() ==> checked_dec_covered(
                    #[trigger] cp.dec_list@[j],
                    cp.symbol_table@,
                    cp.function_symbols@,
                )
        },
        (forall|j: int|
            0 <= j < program.dec_list@.len() ==> !dec_named_main(#[trigger] program.dec_list@[j]))
            ==> r is Err,
        (exists|j: int|
            0 <= j < program.dec_list@.len() && bad_main_dec(#[trigger] program.dec_list@[j]))
            ==> r is Err,
        (exists|j: int|
            0 <= j < program.dec_list@.len() && break_body_dec(#[trigger] program.dec_list@[j]))
            ==> r is Err,
        r matches Ok(cp) ==> ((forall|j: int|
            0 <= j < program.dec_list@.len() ==> !shadows_builtin(
                #[trigger] program.dec_list@[j],
            )) ==> ({
            let rt = cp.function_symbols@[Label::Main].return_type;
            &&& cp.types@.contains_key(rt)
            &&& (cp.types@[rt] == Type::Int || cp.types@[rt] == Type::Void)
        })),
{
    broadcast use vstd::map_lib::lemma_submap_of_trans;
    broadcast use lemma_subset_trans;
    broadcast use lemma_submap_dom;

    let mut type_info = GlobalTypeInfo {
        function_symbols: AssocMap::new(),
        symbol_table: AssocMap::new(),
        types: AssocMap::new(),
        gen_type: GenerateTypeId::new(),
        gen_sym: SymbolGenerator::new(),
        gen_label: LabelGenerator::new(),
    };
    let mut sc = StackedContext { frames: Vec::new() };
    let int_id = type_info.new_type_id(Type::Int);
    let str_id = type_info.new_type_id(Type::Str);
    let void_id = type_info.new_type_id(Type::Void);
    let mut base = empty_frame();
    base.t.insert(int_name(), int_id);
    base.t.insert(str_name(), str_id);
    base.t.insert(void_name(), void_id);
    let ghost base_t = base.t@;
    sc.push_frame(base);
    proof {
        reveal_strlit("int");
        reveal_strlit("string");
        reveal_strlit("void");
        assert("int"@.len() == 3 && "string"@.len() == 6 && "void"@.len() == 4);
        assert(sc.frames@.last().t@ == base_t);
        assert(StackedContext::spec_lookup_t(sc.frames@, "int"@) == Some(int_id));
        assert(StackedContext::spec_lookup_t(sc.frames@, "void"@) == Some(void_id));
    }

    let mut found_main = false;
    let mut dec_list: Vec<CheckedTopLevelDec> = Vec::new();
    let mut d: usize = 0;
    let n = program.dec_list.len();
    while d < n
        invariant
            d <= program.dec_list@.len(),
            n == program.dec_list@.len(),
            type_info.wf(),
            sc.wf(),
            ctx_covered(sc, type_info.symbol_table@, type_info.function_symbols@),
            found_main ==> type_info.function_symbols@.contains_key(Label::Main)
                && type_info.function_symbols@[Label::Main].arguments@.len() == 0,
            found_main ==> exists|j: int|
                0 <= j < d && dec_named_main(#[trigger] program.dec_list@[j]),
            type_info.types@.contains_key(int_id),
            type_info.types@[int_id] == Type::Int,
            type_info.types@.contains_key(void_id),
            type_info.types@[void_id] == Type::Void,
            (forall|j: int| 0 <= j < d ==> !shadows_builtin(#[trigger] program.dec_list@[j]))
                ==> StackedContext::spec_lookup_t(sc.frames@, "int"@) == Some(int_id)
                    && StackedContext::spec_lookup_t(sc.frames@, "void"@) == Some(void_id),
            found_main && (forall|j: int|
                0 <= j < d ==> !shadows_builtin(#[trigger] program.dec_list@[j]))
                ==> type_info.function_symbols@[Label::Main].return_type == int_id
                    || type_info.function_symbols@[Label::Main].return_type == void_id,
            forall|j: int| 0 <= j < d ==> !bad_main_dec(#[trigger] program.dec_list@[j]),
            forall|j: int| 0 <= j < d ==> !break_body_dec(#[trigger] program.dec_list@[j]),
            forall|j: int|
                0 <= j < dec_list@.len() ==> checked_dec_covered(
                    #[trigger] dec_list@[j],
                    type_info.symbol_table@,
                    type_info.function_symbols@,
                ),
        decreases n - d,
    {
        let ghost st0 = type_info.symbol_table@;
        let ghost fs0 = type_info.function_symbols@;
        let ghost ty_arm = type_info.types@;
        match &program.dec_list[d] {
            TopLevelDec::TyDecArray { new_type, element_type } => {
                let element_type_id = match resolve_type_name(
                    &type_info,
                    &sc,
                    element_type,
                    "no such type in array declaration",
                ) {
                    Ok(t) => t,
                    Err(e) => {
                        return Err(e);
                    },
                };
                if !type_info.gen_type.has_room() {
                    return Err(TypeError("too many types"));
                }
                let new_type_id = type_info.new_type_id(Type::Array(element_type_id));
                let mut frame = empty_frame();
                frame.t.insert(new_type.clone(), new_type_id);
                let ghost sc_pre_t = sc.frames@;
                let ghost frame_t = frame.t@;
                sc.push_frame(frame);
                proof {
                    assert(sc.frames@.drop_last() =~= sc_pre_t);
                    if !shadows_builtin(program.dec_list@[d as int]) {
                        assert(new_type@ != "int"@ && new_type@ != "void"@);
                        assert(!frame_t.contains_key("int"@));
                        assert(!frame_t.contains_key("void"@));
                        lemma_lookup_t_top(sc.frames@, "int"@);
                        lemma_lookup_t_top(sc.frames@, "void"@);
                    }
                }
            },
            TopLevelDec::TyDecRecord { new_type, field_decs } => {
                match pairwise_different(field_decs) {
                    Ok(()) => {},
                    Err(e) => {
                        return Err(e);
                    },
                }
                let mut fields: Vec<(String, TypeId)> = Vec::new();
                let mut k: usize = 0;
                while k < field_decs.len()
                    invariant
                        k <= field_decs@.len(),
                        type_info.wf(),
                        sc.wf(),
                        type_info.symbol_table@ == st0,
                        type_info.function_symbols@ == fs0,
                    decreases field_decs@.len() - k,
                {
                    let tid = match resolve_type_name(
                        &type_info,
                        &sc,
                        &field_decs[k].1,
                        "no such type in record declaration",
                    ) {
                        Ok(t) => t,
                        Err(e) => {
                            return Err(e);
                        },
                    };
                    fields.push((field_decs[k].0.clone(), tid));
                    k = k + 1;
                }
                if !type_info.gen_type.has_room() {
                    return Err(TypeError("too many types"));
                }
                let new_type_id = type_info.new_type_id(Type::Record(fields));
                let mut frame = empty_frame();
                frame.t.insert(new_type.clone(), new_type_id);
                let ghost sc_pre_t = sc.frames@;
                let ghost frame_t = frame.t@;
                sc.push_frame(frame);
                proof {
                    assert(sc.frames@.drop_last() =~= sc_pre_t);
                    if !shadows_builtin(program.dec_list@[d as int]) {
                        assert(new_type@ != "int"@ && new_type@ != "void"@);
                        assert(!frame_t.contains_key("int"@));
                        assert(!frame_t.contains_key("void"@));
                        lemma_lookup_t_top(sc.frames@, "int"@);
                        lemma_lookup_t_top(sc.frames@, "void"@);
                    }
                }
            },
            TopLevelDec::FunDec { name, return_type, args, body } => {
                let is_main = string_is(name, MAIN_TEXT);
                if is_main {
                    if args.len() == 0 && (string_is(return_type, INT_TEXT) || string_is(
                        return_type,
                        VOID_TEXT,
                    )) {
                        found_main = true;
                    } else {
                        return Err(
                            TypeError(
                                "Main doesn't return int/void or main takes more than 0 args",
                            ),
                        );
                    }
                }
                match pairwise_different(args) {
                    Ok(()) => {},
                    Err(e) => {
                        return Err(e);
                    },
                }
                let mut arg_syms: Vec<(String, crate::common::Symbol, TypeId)> = Vec::new();
                let mut k: usize = 0;
                while k < args.len()
                    invariant
                        k <= args@.len(),
                        arg_syms@.len() == k,
                        type_info.wf(),
                        sc.wf(),
                        type_info.symbol_table@ == st0,
                        type_info.function_symbols@ == fs0,
                        type_info.types@ == ty_arm,
                    decreases args@.len() - k,
                {
                    let tid = match resolve_type_name(
                        &type_info,
                        &sc,
                        &args[k].1,
                        "no such type in function declaration",
                    ) {
                        Ok(t) => t,
                        Err(e) => {
                            return Err(e);
                        },
                    };
                    if !type_info.gen_sym.has_room() {
                        return Err(TypeError("too many symbols"));
                    }
                    let s = type_info.gen_sym.new_symbol();
                    arg_syms.push((args[k].0.clone(), s, tid));
                    k = k + 1;
                }
                let return_type_id = match resolve_type_name(
                    &type_info,
                    &sc,
                    return_type,
                    "no such type in function declaration",
                ) {
                    Ok(t) => t,
                    Err(e) => {
                        return Err(e);
                    },
                };
                let new_name: Label = if is_main {
                    Label::Main
                } else {
                    if !type_info.gen_label.has_room() {
                        return Err(TypeError("too many labels"));
                    }
                    type_info.gen_label.new_label()
                };
                let mut k2: usize = 0;
                while k2 < arg_syms.len()
                    invariant
                        k2 <= arg_syms@.len(),
                        type_info.wf(),
                        sc.wf(),
                        st0.submap_of(type_info.symbol_table@),
                        type_info.function_symbols@ == fs0,
                        type_info.types@ == ty_arm,
                        forall|idx: int|
                            0 <= idx < k2 ==> type_info.symbol_table@.contains_key(
                                (#[trigger] arg_syms@[idx]).1,
                            ),
                    decreases arg_syms@.len() - k2,
                {
                    let ghost st_mid = type_info.symbol_table@;
                    match type_info.insert_gamma(arg_syms[k2].1, arg_syms[k2].2) {
                        Ok(()) => {},
                        Err(e) => {
                            return Err(e);
                        },
                    }
                    proof {
                        lemma_insert_submap(st_mid, arg_syms@[k2 as int].1, arg_syms@[k2 as int].2);
                    }
                    k2 = k2 + 1;
                }
                let mut sig_args: Vec<(crate::common::Symbol, TypeId)> = Vec::new();
                let mut k3: usize = 0;
                while k3 < arg_syms.len()
                    invariant
                        k3 <= arg_syms@.len(),
                        sig_args@.len() == k3,
                    decreases arg_syms@.len() - k3,
                {
                    sig_args.push((arg_syms[k3].1, arg_syms[k3].2));
                    k3 = k3 + 1;
                }
                let ghost n_sig = sig_args@.len();
                let ghost fs_mid = type_info.function_symbols@;
                match type_info.insert_f(
                    &new_name,
                    FunctionType { return_type: return_type_id, arguments: sig_args },
                ) {
                    Ok(()) => {},
                    Err(e) => {
                        return Err(e);
                    },
                }
                proof {
                    lemma_insert_submap(
                        fs_mid,
                        new_name,
                        type_info.function_symbols@[new_name],
                    );
                    assert(type_info.function_symbols@.contains_key(new_name));
                    assert(type_info.function_symbols@[new_name].arguments@.len() == n_sig);
                    if is_main && (forall|j: int|
                        0 <= j < d ==> !shadows_builtin(#[trigger] program.dec_list@[j])) {
                        assert(return_type_id == int_id || return_type_id == void_id);
                        assert(type_info.function_symbols@[Label::Main].return_type == int_id
                            || type_info.function_symbols@[Label::Main].return_type == void_id);
                    }
                }
                let mut frame = empty_frame();
                frame.f.insert(name.clone(), new_name);
                let mut k4: usize = 0;
                while k4 < arg_syms.len()
                    invariant
                        k4 <= arg_syms@.len(),
                        frame.f.wf(),
                        frame.s.wf(),
                        frame.t.wf(),
                        frame.t@ == Map::<Seq<char>, TypeId>::empty(),
                        forall|kv: Seq<char>| #[trigger]
                            frame.s@.contains_key(kv) ==> type_info.symbol_table@.contains_key(
                                frame.s@[kv],
                            ),
                        forall|kv: Seq<char>| #[trigger]
                            frame.f@.contains_key(kv) ==> type_info.function_symbols@.contains_key(
                                frame.f@[kv],
                            ),
                    decreases arg_syms@.len() - k4,
                {
                    frame.s.insert(arg_syms[k4].0.clone(), arg_syms[k4].1);
                    k4 = k4 + 1;
                }
                let ghost sc_pre = sc.frames@;
                let ghost frame_t1 = frame.t@;
                sc.push_frame(frame);
                proof {
                    assert(sc.frames@.drop_last() =~= sc_pre);
                    assert(!frame_t1.contains_key("int"@));
                    assert(!frame_t1.contains_key("void"@));
                    lemma_lookup_t_top(sc.frames@, "int"@);
                    lemma_lookup_t_top(sc.frames@, "void"@);
                    assert(ctx_covered(sc, type_info.symbol_table@, type_info.function_symbols@))
                        by {
                        assert forall|i: int, kv: Seq<char>|
                            0 <= i < sc.frames@.len() && (#[trigger] sc.frames@[i].s@.contains_key(
                                kv,
                            )) implies type_info.symbol_table@.contains_key(
                            sc.frames@[i].s@[kv],
                        ) by {
                            if i < sc.frames@.len() - 1 {
                                assert(sc.frames@[i] == sc_pre[i]);
                                assert(sc_pre[i].s@.contains_key(kv));
                                assert(st0.contains_key(sc_pre[i].s@[kv]));
                            }
                        }
                        assert forall|i: int, kv: Seq<char>|
                            0 <= i < sc.frames@.len() && (#[trigger] sc.frames@[i].f@.contains_key(
                                kv,
                            )) implies type_info.function_symbols@.contains_key(
                            sc.frames@[i].f@[kv],
                        ) by {
                            if i < sc.frames@.len() - 1 {
                                assert(sc.frames@[i] == sc_pre[i]);
                                assert(sc_pre[i].f@.contains_key(kv));
                                assert(fs0.contains_key(sc_pre[i].f@[kv]));
                            }
                        }
                    }
                }
                let ghost ty_pre = type_info.types@;
                let (body_type, checked_body) = match type_check_exp(
                    &mut type_info,
                    &sc,
                    false,
                    body,
                ) {
                    Ok(p) => p,
                    Err(e) => {
                        return Err(e);
                    },
                };
                proof {
                    assert(ty_pre.submap_of(type_info.types@));
                    assert(type_info.types@.contains_key(int_id) && type_info.types@[int_id]
                        == Type::Int);
                    assert(type_info.types@.contains_key(void_id) && type_info.types@[void_id]
                        == Type::Void);
                }
                sc.pop_frame();
                proof {
                    assert(sc.frames@ =~= sc_pre);
                }
                let declared = match type_info.lookup_c(return_type_id) {
                    Some(t) => clone_type(t),
                    None => {
                        return Err(TypeError("arg type not defined"));
                    },
                };
                if !type_equal(&declared, &body_type) {
                    return Err(TypeError("Function body does not evaluate to proper type"));
                }
                let mut frame2 = empty_frame();
                frame2.f.insert(name.clone(), new_name);
                let ghost sc_pre2 = sc.frames@;
                let ghost frame_t2 = frame2.t@;
                sc.push_frame(frame2);
                proof {
                    assert(sc.frames@.drop_last() =~= sc_pre2);
                    assert(!frame_t2.contains_key("int"@));
                    assert(!frame_t2.contains_key("void"@));
                    lemma_lookup_t_top(sc.frames@, "int"@);
                    lemma_lookup_t_top(sc.frames@, "void"@);
                    assert(ctx_covered(sc, type_info.symbol_table@, type_info.function_symbols@))
                        by {
                        assert forall|i: int, kv: Seq<char>|
                            0 <= i < sc.frames@.len() && (#[trigger] sc.frames@[i].s@.contains_key(
                                kv,
                            )) implies type_info.symbol_table@.contains_key(
                            sc.frames@[i].s@[kv],
                        ) by {
                            if i < sc.frames@.len() - 1 {
                                assert(sc.frames@[i] == sc_pre2[i]);
                            }
                        }
                        assert forall|i: int, kv: Seq<char>|
                            0 <= i < sc.frames@.len() && (#[trigger] sc.frames@[i].f@.contains_key(
                                kv,
                            )) implies type_info.function_symbols@.contains_key(
                            sc.frames@[i].f@[kv],
                        ) by {
                            if i < sc.frames@.len() - 1 {
                                assert(sc.frames@[i] == sc_pre2[i]);
                            } else {
                                assert(kv == name@);
                                assert(sc.frames@[i].f@[kv] == new_name);
                            }
                        }
                    }
                }
                let mut just_args: Vec<crate::common::Symbol> = Vec::new();
                let mut k5: usize = 0;
                while k5 < arg_syms.len()
                    invariant
                        k5 <= arg_syms@.len(),
                        just_args@.len() == k5,
                        forall|idx: int|
                            0 <= idx < k5 ==> (#[trigger] just_args@[idx]) == arg_syms@[idx].1,
                    decreases arg_syms@.len() - k5,
                {
                    just_args.push(arg_syms[k5].1);
                    k5 = k5 + 1;
                }
                let ghost pre_decs = dec_list@;
                dec_list.push(
                    CheckedTopLevelDec::FunDec {
                        name: new_name,
                        args: just_args,
                        body: Box::new(checked_body),
                    },
                );
                proof {
                    assert(checked_dec_covered(
                        dec_list@.last(),
                        type_info.symbol_table@,
                        type_info.function_symbols@,
                    )) by {
                        assert forall|k6: int| 0 <= k6 < just_args@.len() implies
                            type_info.symbol_table@.contains_key(#[trigger] just_args@[k6]) by {
                            assert(just_args@[k6] == arg_syms@[k6].1);
                            assert(st0.submap_of(type_info.symbol_table@));
                        }
                    }
                    assert forall|j: int| 0 <= j < dec_list@.len() implies checked_dec_covered(
                        #[trigger] dec_list@[j],
                        type_info.symbol_table@,
                        type_info.function_symbols@,
                    ) by {
                        if j < dec_list@.len() - 1 {
                            assert(dec_list@[j] == pre_decs[j]);
                            assert(checked_dec_covered(pre_decs[j], st0, fs0));
                            lemma_dec_covered_grow(
                                pre_decs[j],
                                st0,
                                fs0,
                                type_info.symbol_table@,
                                type_info.function_symbols@,
                            );
                        }
                    }
                }
            },
        }
        d = d + 1;
    }
    if found_main {
        Ok(
            CheckedProgram {
                dec_list,
                function_symbols: type_info.function_symbols,
                symbol_table: type_info.symbol_table,
                types: type_info.types,
                gen_sym: type_info.gen_sym,
                gen_label: type_info.gen_label,
            },
        )
    } else {
        Err(TypeError("No Main Found"))
    }
}

/// The reserved base-type and entry-point names.
pub const MAIN_TEXT: &'static str = "main";

pub const INT_TEXT: &'static str = "int";

pub const VOID_TEXT: &'static str = "void";

pub const STRING_TEXT: &'static str = "string";

fn string_is(s: &String, t: &'static str) -> (r: bool)
    ensures
        r == (s@ == t@),
{
    let owned: String = t.to_owned();
    *s == owned
}

fn int_name() -> (r: String)
    ensures
        r@ == "int"@,
{
    INT_TEXT.to_owned()
}

fn str_name() -> (r: String)
    ensures
        r@ == "string"@,
{
    STRING_TEXT.to_owned()
}

fn void_name() -> (r: String)
    ensures
        r@ == "void"@,
{
    VOID_TEXT.to_owned()
}

/// Type-checks one expression under the given context; `brk` records
/// whether a `break` is legal here.  Returns the expression's type and
/// its checked form, or the first error.
#[verifier::loop_isolation(false)]
#[verifier::rlimit(100)]
#[verifier::spinoff_prover]
pub fn type_check_exp(
    gti: &mut GlobalTypeInfo,
    c: &StackedContext,
    brk: bool,
    exp: &Exp,
) -> (r: Result<(Type, CheckedExp), TypeError>)
    requires
        old(gti).wf(),
        c.wf(),
        ctx_covered(*c, old(gti).symbol_table@, old(gti).function_symbols@),
    ensures
        final(gti).wf(),
        old(gti).symbol_table@.submap_of(final(gti).symbol_table@),
        old(gti).types@.submap_of(final(gti).types@),
        final(gti).function_symbols == old(gti).function_symbols,
        r matches Ok(p) ==> crate::checked_grammar::cexp_symbols(p.1).subset_of(
            final(gti).symbol_table@.dom(),
        ) && crate::checked_grammar::cexp_call_labels(p.1).subset_of(
            final(gti).function_symbols@.dom(),
        ),
        exp matches Exp::Break && !brk ==> r is Err,
        exp matches Exp::Break && brk ==> (r matches Ok(p) && p.0 is Void),
        exp matches Exp::IntLit { .. } ==> r matches Ok(p) && p.0 is Int,
        exp matches Exp::StringLit { .. } ==> r matches Ok(p) && p.0 is Str,
        exp matches Exp::Sequence { sequence } && sequence@.len() == 0 ==> (r matches Ok(p)
            && p.0 is Void),
        exp matches Exp::Negate { .. } ==> (r matches Ok(p) ==> p.0 is Int),
        exp matches Exp::Infix { .. } ==> (r matches Ok(p) ==> p.0 is Int),
        exp matches Exp::Assign { .. } ==> (r matches Ok(p) ==> p.0 is Void),
        exp matches Exp::IfThen { .. } ==> (r matches Ok(p) ==> p.0 is Void),
        exp matches Exp::While { .. } ==> (r matches Ok(p) ==> p.0 is Void),
        exp matches Exp::For { .. } ==> (r matches Ok(p) ==> p.0 is Void),
    decreases *exp,
{
    broadcast use vstd::map_lib::lemma_submap_of_trans;
    broadcast use lemma_subset_trans;
    broadcast use lemma_submap_dom;

    match exp {
        Exp::Break => {
            if brk {
                Ok((Type::Void, CheckedExp::Break))
            } else {
                Err(TypeError("Break appearing in place it shouldn't"))
            }
        },
        Exp::IntLit { value } => Ok((Type::Int, CheckedExp::IntLit { value: *value })),
        Exp::StringLit { value } => Ok(
            (Type::Str, CheckedExp::StringLit { value: value.clone() }),
        ),
        Exp::LValue { lvalue } => {
            match type_check_lvalue(gti, c, brk, lvalue) {
                Ok((tp, clv)) => Ok((tp, CheckedExp::LValue { lvalue: clv })),
                Err(e) => Err(e),
            }
        },
        Exp::Sequence { sequence } => {
            let mut seq_out: Vec<CheckedExp> = Vec::new();
            let mut last: Type = Type::Void;
            let mut i: usize = 0;
            while i < sequence.len()
                invariant
                    i <= sequence@.len(),
                    i == 0 ==> last is Void,
                    gti.wf(),
                    old(gti).symbol_table@.submap_of(gti.symbol_table@),
                    old(gti).types@.submap_of(gti.types@),
                    gti.function_symbols == old(gti).function_symbols,
                    crate::checked_grammar::cexps_symbols(seq_out@).subset_of(
                        gti.symbol_table@.dom(),
                    ),
                    crate::checked_grammar::cexps_call_labels(seq_out@).subset_of(
                        gti.function_symbols@.dom(),
                    ),
                decreases sequence@.len() - i,
            {
                match type_check_exp(gti, c, brk, &sequence[i]) {
                    Ok((tpe, cexp)) => {
                        last = tpe;
                        let ghost pre = seq_out@;
                        seq_out.push(cexp);
                        proof {
                            assert(seq_out@.drop_last() =~= pre);
                        }
                    },
                    Err(e) => {
                        return Err(e);
                    },
                }
                i = i + 1;
            }
            Ok((last, CheckedExp::Sequence { sequence: seq_out }))
        },
        Exp::Negate { exp } => {
            match type_check_exp(gti, c, brk, exp) {
                Ok((Type::Int, cexp)) => Ok(
                    (Type::Int, CheckedExp::Negate { exp: Box::new(cexp) }),
                ),
                Ok(_) => Err(TypeError("Negate contains non-integer")),
                Err(e) => Err(e),
            }
        },
        Exp::Infix { left, op, right } => {
            let (tl, cl) = match type_check_exp(gti, c, brk, left) {
                Ok(p) => p,
                Err(e) => {
                    return Err(e);
                },
            };
            let (tr, cr) = match type_check_exp(gti, c, brk, right) {
                Ok(p) => p,
                Err(e) => {
                    return Err(e);
                },
            };
            match (tl, tr) {
                (Type::Int, Type::Int) => Ok(
                    (
                        Type::Int,
                        CheckedExp::Infix { left: Box::new(cl), op: *op, right: Box::new(cr) },
                    ),
                ),
                _ => Err(TypeError("Not Both int on either side of infix op")),
            }
        },
        Exp::ArrayCreate { type_id, length, inital_value } => {
            let (tp_init, init_exp) = match type_check_exp(gti, c, brk, inital_value) {
                Ok(p) => p,
                Err(e) => {
                    return Err(e);
                },
            };
            let (tp_len, len_exp) = match type_check_exp(gti, c, brk, length) {
                Ok(p) => p,
                Err(e) => {
                    return Err(e);
                },
            };
            match tp_len {
                Type::Int => {},
                _ => {
                    return Err(TypeError("Array length not int"));
                },
            }
            let tau_id = match c.lookup_t(type_id) {
                Some(t) => t,
                None => {
                    return Err(TypeError("Type not found"));
                },
            };
            let element_type_id = match gti.lookup_c(tau_id) {
                Some(Type::Array(i)) => *i,
                Some(_) => {
                    return Err(TypeError("Type not array"));
                },
                None => {
                    return Err(TypeError("Type not found"));
                },
            };
            let element_type = match gti.lookup_c(element_type_id) {
                Some(t) => clone_type(t),
                None => {
                    return Err(TypeError("Type not found"));
                },
            };
            if !type_equal(&tp_init, &element_type) {
                return Err(TypeError("Array type doesn't match exp"));
            }
            Ok(
                (
                    Type::Array(element_type_id),
                    CheckedExp::ArrayCreate {
                        length: Box::new(len_exp),
                        initial_value: Box::new(init_exp),
                    },
                ),
            )
        },
        Exp::RecordCreate { type_id, fields } => {
            let tau_id = match c.lookup_t(type_id) {
                Some(t) => t,
                None => {
                    return Err(TypeError("Type not found"));
                },
            };
            let field_type_ids: Vec<(String, TypeId)> = match gti.lookup_c(tau_id) {
                Some(Type::Record(fs)) => {
                    let mut copy: Vec<(String, TypeId)> = Vec::new();
                    let mut k: usize = 0;
                    while k < fs.len()
                        invariant
                            k <= fs@.len(),
                        decreases fs@.len() - k,
                    {
                        copy.push((fs[k].0.clone(), fs[k].1));
                        k = k + 1;
                    }
                    copy
                },
                Some(_) => {
                    return Err(TypeError("Not a record type"));
                },
                None => {
                    return Err(TypeError("Type not found"));
                },
            };
            if fields.len() != field_type_ids.len() {
                return Err(TypeError("record literal has wrong number of fields"));
            }
            let mut cfields: Vec<(String, CheckedExp)> = Vec::new();
            let mut i: usize = 0;
            while i < fields.len()
                invariant
                    i <= fields@.len(),
                    fields@.len() == field_type_ids@.len(),
                    gti.wf(),
                    old(gti).symbol_table@.submap_of(gti.symbol_table@),
                    old(gti).types@.submap_of(gti.types@),
                    gti.function_symbols == old(gti).function_symbols,
                    crate::checked_grammar::cfields_symbols(cfields@).subset_of(
                        gti.symbol_table@.dom(),
                    ),
                    crate::checked_grammar::cfields_call_labels(cfields@).subset_of(
                        gti.function_symbols@.dom(),
                    ),
                decreases fields@.len() - i,
            {
                let (tp_elem, cexp) = match type_check_exp(gti, c, brk, &fields[i].1) {
                    Ok(p) => p,
                    Err(e) => {
                        return Err(e);
                    },
                };
                let expected = match gti.lookup_c(field_type_ids[i].1) {
                    Some(t) => clone_type(t),
                    None => {
                        return Err(TypeError("Type not found"));
                    },
                };
                if !type_equal(&expected, &tp_elem) {
                    return Err(TypeError("record field doesn't match exp"));
                }
                if !(fields[i].0 == field_type_ids[i].0) {
                    return Err(TypeError("Unknown Field name "));
                }
                let ghost pre = cfields@;
                cfields.push((fields[i].0.clone(), cexp));
                proof {
                    assert(cfields@.drop_last() =~= pre);
                }
                i = i + 1;
            }
            Ok((Type::Record(field_type_ids), CheckedExp::RecordCreate { fields: cfields }))
        },
        Exp::Assign { left, right } => {
            let (type_left, cleft) = match type_check_lvalue(gti, c, brk, left) {
                Ok(p) => p,
                Err(e) => {
                    return Err(e);
                },
            };
            let (type_right, cright) = match type_check_exp(gti, c, false, right) {
                Ok(p) => p,
                Err(e) => {
                    return Err(e);
                },
            };
            if !type_equal(&type_left, &type_right) {
                return Err(TypeError("Types on either side of = don't match"));
            }
            Ok((Type::Void, CheckedExp::Assign { left: cleft, right: Box::new(cright) }))
        },
        Exp::IfThenElse { if_exp, then_exp, else_exp } => {
            let (tp_if, if_c) = match type_check_exp(gti, c, false, if_exp) {
                Ok(p) => p,
                Err(e) => {
                    return Err(e);
                },
            };
            let (tp_then, then_c) = match type_check_exp(gti, c, brk, then_exp) {
                Ok(p) => p,
                Err(e) => {
                    return Err(e);
                },
            };
            let (tp_else, else_c) = match type_check_exp(gti, c, brk, else_exp) {
                Ok(p) => p,
                Err(e) => {
                    return Err(e);
                },
            };
            match tp_if {
                Type::Int => {},
                _ => {
                    return Err(TypeError("Cond not int if then else"));
                },
            }
            if !type_equal(&tp_then, &tp_else) {
                return Err(TypeError("then and else branch don't match"));
            }
            Ok(
                (
                    tp_then,
                    CheckedExp::IfThenElse {
                        if_exp: Box::new(if_c),
                        then_exp: Box::new(then_c),
                        else_exp: Box::new(else_c),
                    },
                ),
            )
        },
        Exp::IfThen { if_exp, then_exp } => {
            let (tp_if, if_c) = match type_check_exp(gti, c, false, if_exp) {
                Ok(p) => p,
                Err(e) => {
                    return Err(e);
                },
            };
            let (tp_then, then_c) = match type_check_exp(gti, c, brk, then_exp) {
                Ok(p) => p,
                Err(e) => {
                    return Err(e);
                },
            };
            match (tp_if, tp_then) {
                (Type::Int, Type::Void) => Ok(
                    (
                        Type::Void,
                        CheckedExp::IfThen {
                            if_exp: Box::new(if_c),
                            then_exp: Box::new(then_c),
                        },
                    ),
                ),
                _ => Err(TypeError("Cond not int if_then")),
            }
        },
        Exp::While { while_exp, do_exp } => {
            let (tp_while, while_c) = match type_check_exp(gti, c, false, while_exp) {
                Ok(p) => p,
                Err(e) => {
                    return Err(e);
                },
            };
            let (tp_do, do_c) = match type_check_exp(gti, c, true, do_exp) {
                Ok(p) => p,
                Err(e) => {
                    return Err(e);
                },
            };
            match (tp_while, tp_do) {
                (Type::Int, Type::Void) => Ok(
                    (
                        Type::Void,
                        CheckedExp::While {
                            while_exp: Box::new(while_c),
                            do_exp: Box::new(do_c),
                        },
                    ),
                ),
                _ => Err(TypeError("Cond not int while")),
            }
        },
        Exp::For { id, for_exp, to_exp, do_exp } => {
            let (tp_for, for_c) = match type_check_exp(gti, c, false, for_exp) {
                Ok(p) => p,
                Err(e) => {
                    return Err(e);
                },
            };
            let (tp_to, to_c) = match type_check_exp(gti, c, false, to_exp) {
                Ok(p) => p,
                Err(e) => {
                    return Err(e);
                },
            };
            if !gti.gen_sym.has_room() {
                return Err(TypeError("too many symbols"));
            }
            let i_sym = gti.gen_sym.new_symbol();
            if !gti.gen_type.has_room() {
                return Err(TypeError("too many types"));
            }
            let ghost ty_mid = gti.types@;
            let int_tid = gti.new_type_id(Type::Int);
            proof {
                lemma_insert_submap(ty_mid, int_tid, Type::Int);
            }
            let ghost st_mid = gti.symbol_table@;
            match gti.insert_gamma(i_sym, int_tid) {
                Ok(()) => {},
                Err(e) => {
                    return Err(e);
                },
            }
            proof {
                lemma_insert_submap(st_mid, i_sym, int_tid);
            }
            let mut scope = StackedContext { frames: Vec::new() };
            let mut fi: usize = 0;
            while fi < c.frames.len()
                invariant
                    fi <= c.frames@.len(),
                    c.wf(),
                    scope.wf(),
                    scope.frames@.len() == fi,
                    forall|j: int|
                        0 <= j < fi ==> (#[trigger] scope.frames@[j]).s@ == c.frames@[j].s@
                            && scope.frames@[j].f@ == c.frames@[j].f@,
                decreases c.frames@.len() - fi,
            {
                scope.push_frame(copy_frame(&c.frames[fi]));
                fi = fi + 1;
            }
            let mut frame = empty_frame();
            frame.s.insert(id.clone(), i_sym);
            let ghost base = scope.frames@;
            scope.push_frame(frame);
            proof {
                assert(ctx_covered(scope, gti.symbol_table@, gti.function_symbols@)) by {
                    assert(gti.symbol_table@.contains_key(i_sym));
                    assert forall|j: int, kv: Seq<char>|
                        0 <= j < scope.frames@.len() && (
                        #[trigger] scope.frames@[j].s@.contains_key(
                            kv,
                        )) implies gti.symbol_table@.contains_key(scope.frames@[j].s@[kv]) by {
                        if j < scope.frames@.len() - 1 {
                            assert(scope.frames@[j] == base[j]);
                            assert(base[j].s@ == c.frames@[j].s@);
                            assert(c.frames@[j].s@.contains_key(kv));
                            assert(old(gti).symbol_table@.contains_key(c.frames@[j].s@[kv]));
                        } else {
                            assert(kv == id@);
                            assert(scope.frames@[j].s@[kv] == i_sym);
                        }
                    }
                    assert forall|j: int, kv: Seq<char>|
                        0 <= j < scope.frames@.len() && (
                        #[trigger] scope.frames@[j].f@.contains_key(
                            kv,
                        )) implies gti.function_symbols@.contains_key(scope.frames@[j].f@[kv]) by {
                        if j < scope.frames@.len() - 1 {
                            assert(scope.frames@[j] == base[j]);
                            assert(base[j].f@ == c.frames@[j].f@);
                            assert(c.frames@[j].f@.contains_key(kv));
                        } else {
                            assert(false);
                        }
                    }
                }
            }
            let (tp_do, do_c) = match type_check_exp(gti, &scope, true, do_exp) {
                Ok(p) => p,
                Err(e) => {
                    return Err(e);
                },
            };
            match (tp_do, tp_for, tp_to) {
                (Type::Void, Type::Int, Type::Int) => Ok(
                    (
                        Type::Void,
                        CheckedExp::For {
                            id: i_sym,
                            for_exp: Box::new(for_c),
                            to_exp: Box::new(to_c),
                            do_exp: Box::new(do_c),
                        },
                    ),
                ),
                _ => Err(TypeError("For loop incorrect")),
            }
        },
        Exp::Let { let_exp, in_exp } => {
            let mut scope = StackedContext { frames: Vec::new() };
            let mut fi: usize = 0;
            while fi < c.frames.len()
                invariant
                    fi <= c.frames@.len(),
                    c.wf(),
                    scope.wf(),
                    scope.frames@.len() == fi,
                    forall|j: int|
                        0 <= j < fi ==> (#[trigger] scope.frames@[j]).s@ == c.frames@[j].s@
                            && scope.frames@[j].f@ == c.frames@[j].f@,
                decreases c.frames@.len() - fi,
            {
                scope.push_frame(copy_frame(&c.frames[fi]));
                fi = fi + 1;
            }
            proof {
                assert(ctx_covered(scope, gti.symbol_table@, gti.function_symbols@)) by {
                    assert forall|j: int, kv: Seq<char>|
                        0 <= j < scope.frames@.len() && (
                        #[trigger] scope.frames@[j].s@.contains_key(
                            kv,
                        )) implies gti.symbol_table@.contains_key(scope.frames@[j].s@[kv]) by {
                        assert(c.frames@[j].s@.contains_key(kv));
                    }
                    assert forall|j: int, kv: Seq<char>|
                        0 <= j < scope.frames@.len() && (
                        #[trigger] scope.frames@[j].f@.contains_key(
                            kv,
                        )) implies gti.function_symbols@.contains_key(scope.frames@[j].f@[kv]) by {
                        assert(c.frames@[j].f@.contains_key(kv));
                    }
                }
            }
            let mut decs: Vec<CheckedDec> = Vec::new();
            let mut i: usize = 0;
            while i < let_exp.len()
                invariant
                    i <= let_exp@.len(),
                    gti.wf(),
                    scope.wf(),
                    old(gti).symbol_table@.submap_of(gti.symbol_table@),
                    old(gti).types@.submap_of(gti.types@),
                    gti.function_symbols == old(gti).function_symbols,
                    ctx_covered(scope, gti.symbol_table@, gti.function_symbols@),
                    crate::checked_grammar::cdecs_symbols(decs@).subset_of(
                        gti.symbol_table@.dom(),
                    ),
                    crate::checked_grammar::cdecs_call_labels(decs@).subset_of(
                        gti.function_symbols@.dom(),
                    ),
                decreases let_exp@.len() - i,
            {
                match &let_exp[i] {
                    Dec::VarDec { name, value_type, value } => {
                        let (tp_v, cexp) = match type_check_exp(gti, &scope, false, value) {
                            Ok(p) => p,
                            Err(e) => {
                                return Err(e);
                            },
                        };
                        let dec_type = match resolve_type_name(
                            gti,
                            &scope,
                            value_type,
                            "no such type in var declaration",
                        ) {
                            Ok(t) => t,
                            Err(e) => {
                                return Err(e);
                            },
                        };
                        let declared = match gti.lookup_c(dec_type) {
                            Some(t) => clone_type(t),
                            None => {
                                return Err(
                                    TypeError(
                                        "internal error: couldn't find type associated with type id",
                                    ),
                                );
                            },
                        };
                        if !type_equal(&declared, &tp_v) {
                            return Err(TypeError("declaration doesn't match exp"));
                        }
                        if !gti.gen_sym.has_room() {
                            return Err(TypeError("too many symbols"));
                        }
                        let s = gti.gen_sym.new_symbol();
                        let ghost st_mid = gti.symbol_table@;
                        match gti.insert_gamma(s, dec_type) {
                            Ok(()) => {},
                            Err(e) => {
                                return Err(e);
                            },
                        }
                        proof {
                            lemma_insert_submap(st_mid, s, dec_type);
                        }
                        let mut frame = empty_frame();
                        frame.s.insert(name.clone(), s);
                        let ghost scope_pre = scope.frames@;
                        scope.push_frame(frame);
                        proof {
                            assert(gti.symbol_table@.contains_key(s));
                            assert forall|j: int, kv: Seq<char>|
                                0 <= j < scope.frames@.len() && (
                                #[trigger] scope.frames@[j].s@.contains_key(
                                    kv,
                                )) implies gti.symbol_table@.contains_key(
                                scope.frames@[j].s@[kv],
                            ) by {
                                if j < scope.frames@.len() - 1 {
                                    assert(scope.frames@[j] == scope_pre[j]);
                                    assert(scope_pre[j].s@.contains_key(kv));
                                } else {
                                    assert(kv == name@);
                                    assert(scope.frames@[j].s@[kv] == s);
                                }
                            }
                            assert forall|j: int, kv: Seq<char>|
                                0 <= j < scope.frames@.len() && (
                                #[trigger] scope.frames@[j].f@.contains_key(
                                    kv,
                                )) implies gti.function_symbols@.contains_key(
                                scope.frames@[j].f@[kv],
                            ) by {
                                if j < scope.frames@.len() - 1 {
                                    assert(scope.frames@[j] == scope_pre[j]);
                                    assert(scope_pre[j].f@.contains_key(kv));
                                } else {
                                    assert(false);
                                }
                            }
                        }
                        let ghost pre = decs@;
                        decs.push(CheckedDec::VarDec { name: s, value: cexp });
                        proof {
                            assert(decs@.drop_last() =~= pre);
                            assert(gti.symbol_table@.dom().contains(s));
                            assert(crate::checked_grammar::cdec_symbols(
                                decs@.last(),
                            ).subset_of(gti.symbol_table@.dom()));
                            assert(crate::checked_grammar::cdecs_symbols(decs@)
                                == crate::checked_grammar::cdecs_symbols(pre).union(
                                crate::checked_grammar::cdec_symbols(decs@.last()),
                            ));
                        }
                    },
                }
                i = i + 1;
            }
            let (tp_in, in_c) = match type_check_exp(gti, &scope, false, in_exp) {
                Ok(p) => p,
                Err(e) => {
                    return Err(e);
                },
            };
            Ok((tp_in, CheckedExp::Let { let_exp: decs, in_exp: Box::new(in_c) }))
        },
        Exp::Call { function_name, args } => {
            let function_label = match c.lookup_f(function_name) {
                Some(l) => l,
                None => {
                    return Err(TypeError("Unknown Function being called"));
                },
            };
            let (return_type, expected): (TypeId, Vec<TypeId>) = match gti.lookup_f(
                &function_label,
            ) {
                Some(ft) => {
                    let mut ts: Vec<TypeId> = Vec::new();
                    let mut k: usize = 0;
                    let n2 = ft.arguments.len();
                    while k < n2
                        invariant
                            k <= ft.arguments@.len(),
                            n2 == ft.arguments@.len(),
                        decreases n2 - k,
                    {
                        ts.push(ft.arguments[k].1);
                        k = k + 1;
                    }
                    (ft.return_type, ts)
                },
                None => {
                    return Err(TypeError("internal Error Unknown function"));
                },
            };
            let return_type_full = match gti.lookup_c(return_type) {
                Some(t) => clone_type(t),
                None => {
                    return Err(TypeError("Unknown return type"));
                },
            };
            if args.len() != expected.len() {
                return Err(TypeError("argument count doesn't match"));
            }
            proof {
                lemma_lookup_f_frame(c.frames@, function_name@);
            }
            let mut cargs: Vec<CheckedExp> = Vec::new();
            let mut i: usize = 0;
            while i < args.len()
                invariant
                    i <= args@.len(),
                    args@.len() == expected@.len(),
                    gti.wf(),
                    old(gti).symbol_table@.submap_of(gti.symbol_table@),
                    old(gti).types@.submap_of(gti.types@),
                    gti.function_symbols == old(gti).function_symbols,
                    gti.function_symbols@.contains_key(function_label),
                    crate::checked_grammar::cexps_symbols(cargs@).subset_of(
                        gti.symbol_table@.dom(),
                    ),
                    crate::checked_grammar::cexps_call_labels(cargs@).subset_of(
                        gti.function_symbols@.dom(),
                    ),
                decreases args@.len() - i,
            {
                let expected_type = match gti.lookup_c(expected[i]) {
                    Some(t) => clone_type(t),
                    None => {
                        return Err(TypeError("Unknown arg type"));
                    },
                };
                let (actual, cexp) = match type_check_exp(gti, c, false, &args[i]) {
                    Ok(p) => p,
                    Err(e) => {
                        return Err(e);
                    },
                };
                if !type_equal(&expected_type, &actual) {
                    return Err(TypeError("argument doesn't have expected type"));
                }
                let ghost pre = cargs@;
                cargs.push(cexp);
                proof {
                    assert(cargs@.drop_last() =~= pre);
                }
                i = i + 1;
            }
            Ok(
                (
                    return_type_full,
                    CheckedExp::Call { function_name: function_label, args: cargs },
                ),
            )
        },
    }
}

/// A copy of a scope with the same bindings, sharing no storage with
/// the original.
fn copy_frame(f: &ContextFrame) -> (r: ContextFrame)
    requires
        f.f.wf(),
        f.s.wf(),
        f.t.wf(),
    ensures
        r.f.wf(),
        r.s.wf(),
        r.t.wf(),
        r.f@ == f.f@,
        r.s@ == f.s@,
        r.t@ == f.t@,
{
    ContextFrame { f: f.f.copy_string_map(), s: f.s.copy_string_map(), t: f.t.copy_string_map() }
}

/// Type-checks an lvalue, returning its type and checked form.
#[verifier::loop_isolation(false)]
#[verifier::rlimit(100)]
#[verifier::spinoff_prover]
pub fn type_check_lvalue(
    gti: &mut GlobalTypeInfo,
    c: &StackedContext,
    brk: bool,
    lvalue: &LValue,
) -> (r: Result<(Type, CheckedLValue), TypeError>)
    requires
        old(gti).wf(),
        c.wf(),
        ctx_covered(*c, old(gti).symbol_table@, old(gti).function_symbols@),
    ensures
        final(gti).wf(),
        old(gti).symbol_table@.submap_of(final(gti).symbol_table@),
        old(gti).types@.submap_of(final(gti).types@),
        final(gti).function_symbols == old(gti).function_symbols,
        r matches Ok(p) ==> crate::checked_grammar::clv_symbols(p.1).subset_of(
            final(gti).symbol_table@.dom(),
        ) && crate::checked_grammar::clv_call_labels(p.1).subset_of(
            final(gti).function_symbols@.dom(),
        ),
    decreases *lvalue,
{
    broadcast use vstd::map_lib::lemma_submap_of_trans;
    broadcast use lemma_subset_trans;
    broadcast use lemma_submap_dom;

    match lvalue {
        LValue::Id { name } => {
            let name_s = match c.lookup_s(name) {
                Some(s) => s,
                None => {
                    return Err(TypeError("No Such name in LValue"));
                },
            };
            let type_id = match gti.lookup_gamma(name_s) {
                Some(t) => t,
                None => {
                    return Err(TypeError("No Such type id"));
                },
            };
            let tau = match gti.lookup_c(type_id) {
                Some(t) => clone_type(t),
                None => {
                    return Err(TypeError("No Such type"));
                },
            };
            Ok((tau, CheckedLValue::Id { name: name_s }))
        },
        LValue::Subscript { array, index } => {
            let (tau_array, carray) = match type_check_lvalue(gti, c, brk, array) {
                Ok(p) => p,
                Err(e) => {
                    return Err(e);
                },
            };
            let (tau_index, cindex) = match type_check_exp(gti, c, false, index) {
                Ok(p) => p,
                Err(e) => {
                    return Err(e);
                },
            };
            let element_type_id = match (tau_array, tau_index) {
                (Type::Array(e), Type::Int) => e,
                _ => {
                    return Err(TypeError("Array index error"));
                },
            };
            let element_type = match gti.lookup_c(element_type_id) {
                Some(t) => clone_type(t),
                None => {
                    return Err(TypeError("Unknown element Type"));
                },
            };
            Ok(
                (
                    element_type,
                    CheckedLValue::Subscript {
                        array: Box::new(carray),
                        index: Box::new(cindex),
                    },
                ),
            )
        },
        LValue::FieldExp { record, field } => {
            let (tau_rec, crec) = match type_check_lvalue(gti, c, brk, record) {
                Ok(p) => p,
                Err(e) => {
                    return Err(e);
                },
            };
            let fields: Vec<(String, TypeId)> = match tau_rec {
                Type::Record(fs) => fs,
                _ => {
                    return Err(TypeError(".field is into non-record"));
                },
            };
            let mut type_id: Option<TypeId> = None;
            let mut k: usize = 0;
            while k < fields.len()
                invariant
                    k <= fields@.len(),
                decreases fields@.len() - k,
            {
                if fields[k].0 == *field {
                    type_id = Some(fields[k].1);
                    break ;
                }
                k = k + 1;
            }
            let tid = match type_id {
                Some(t) => t,
                None => {
                    return Err(TypeError("No such field in .field"));
                },
            };
            let exp_type = match gti.lookup_c(tid) {
                Some(t) => clone_type(t),
                None => {
                    return Err(TypeError("Field Type Not found"));
                },
            };
            Ok(
                (
                    exp_type,
                    CheckedLValue::FieldExp { record: Box::new(crec), field: field.clone() },
                ),
            )
        },
    }
}

} // verus!
