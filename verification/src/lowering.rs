//! Lowering: linearises the checked syntax into the three-address
//! intermediate form.  Structured control flow becomes labelled jumps,
//! compound expressions become instructions on fresh temporaries, and
//! arrays and records become heap allocations with indexed stores.

use vstd::prelude::*;

use crate::backend::syms_in_range;
use crate::check_type::TypeError;
use crate::checked_grammar::{
    cexp_symbols, cexps_symbols, cdec_symbols, cdecs_symbols, cfields_symbols, clv_symbols,
    CheckedDec, CheckedExp, CheckedLValue, CheckedProgram, CheckedTopLevelDec, Type, TypeId,
};
use crate::common::{
    Comparison, ComparisonType, InfixOp, Label, LabelGenerator, Symbol, SymbolGenerator,
};
use crate::lir::{
    lir_instruction_symbols, lir_jump_target, lir_jumps_ok, lir_labels_distinct, lir_labels_fresh,
    lir_line_label, lir_line_symbols, lir_syms_ok, listing_defines_label, lowered_ok, LIRAssembly,
    LIRFunction, LIRInstruction, LIRProgram,
};
use crate::tables::{AssocMap, MapKey};

verus! {

/// The tables and generators threaded through lowering.
pub struct LoweringGlobal {
    pub symbol_table: AssocMap<Symbol, TypeId>,
    pub types: AssocMap<TypeId, Type>,
    pub gen_sym: SymbolGenerator,
    pub gen_label: LabelGenerator,
}

impl LoweringGlobal {
    pub open spec fn wf(self) -> bool {
        &&& self.symbol_table.wf()
        &&& self.types.wf()
    }
}

/// Lowered code still under construction: labels fresh and distinct,
/// symbols allowed, and every jump either resolved within the code,
/// aimed at the break target, or aimed at one of the labels the
/// current step has minted but not yet emitted.
pub open spec fn lowered_part(
    code: Seq<LIRAssembly>,
    a: u64,
    b: u64,
    al: Set<Symbol>,
    exit: Option<Label>,
    pending: Set<Label>,
) -> bool {
    &&& lir_labels_fresh(code, a, b)
    &&& lir_labels_distinct(code)
    &&& lir_syms_ok(code, al)
    &&& forall|i: int|
        0 <= i < code.len() ==> match #[trigger] code[i] {
            LIRAssembly::Instruction(instr) => match lir_jump_target(instr) {
                Some(t) => listing_defines_label(code, t) || Some(t) == exit
                    || pending.contains(t),
                None => true,
            },
            LIRAssembly::Label(_) => true,
        }
}

/// Fully lowered code is lowered under any set of pending targets.
proof fn lemma_ok_to_part(
    code: Seq<LIRAssembly>,
    a: u64,
    b: u64,
    al: Set<Symbol>,
    exit: Option<Label>,
    pending: Set<Label>,
)
    requires
        lowered_ok(code, a, b, al, exit),
    ensures
        lowered_part(code, a, b, al, exit, pending),
{
}

/// Once every pending target is emitted, the code is fully lowered.
proof fn lemma_part_to_ok(
    code: Seq<LIRAssembly>,
    a: u64,
    b: u64,
    al: Set<Symbol>,
    exit: Option<Label>,
    pending: Set<Label>,
)
    requires
        lowered_part(code, a, b, al, exit, pending),
        forall|t: Label| pending.contains(t) ==> listing_defines_label(code, t),
    ensures
        lowered_ok(code, a, b, al, exit),
{
}

/// A label defined in a listing is still defined after one more line.
proof fn lemma_defines_push(code: Seq<LIRAssembly>, x: LIRAssembly, t: Label)
    requires
        listing_defines_label(code, t) || lir_line_label(x) == Some(t),
    ensures
        listing_defines_label(code.push(x), t),
{
    if listing_defines_label(code, t) {
        let i = choose|i: int|
            0 <= i < code.len() && lir_line_label(#[trigger] code[i]) == Some(t);
        assert(lir_line_label(code.push(x)[i]) == Some(t));
    } else {
        assert(lir_line_label(code.push(x)[code.len() as int]) == Some(t));
    }
}

/// Two lowered sequences with adjoining fresh-label ranges concatenate
/// into one lowered sequence over the combined range.
proof fn lemma_lowered_concat(
    a: Seq<LIRAssembly>,
    b: Seq<LIRAssembly>,
    l0: u64,
    l1: u64,
    l2: u64,
    al_a: Set<Symbol>,
    al_b: Set<Symbol>,
    al: Set<Symbol>,
    exit: Option<Label>,
    pending: Set<Label>,
)
    requires
        lowered_part(a, l0, l1, al_a, exit, pending),
        lowered_part(b, l1, l2, al_b, exit, pending),
        al_a.subset_of(al),
        al_b.subset_of(al),
        l0 <= l1 <= l2,
    ensures
        lowered_part(a + b, l0, l2, al, exit, pending),
{
    let c = a + b;
    assert forall|i: int| 0 <= i < c.len() implies match lir_line_label(#[trigger] c[i]) {
        Some(l) => l matches Label::Uid(u) && l0 <= u < l2,
        None => true,
    } by {
        if i < a.len() {
            assert(c[i] == a[i]);
        } else {
            assert(c[i] == b[i - a.len()]);
        }
    }
    assert forall|i: int, j: int| 0 <= i < j < c.len() implies !(lir_line_label(
        #[trigger] c[i],
    ) is Some && lir_line_label(c[i]) == lir_line_label(#[trigger] c[j])) by {
        if i < a.len() && j < a.len() {
            assert(c[i] == a[i] && c[j] == a[j]);
        } else if i < a.len() {
            assert(c[i] == a[i] && c[j] == b[j - a.len()]);
        } else {
            assert(c[i] == b[i - a.len()] && c[j] == b[j - a.len()]);
        }
    }
    assert forall|i: int| 0 <= i < c.len() implies match #[trigger] c[i] {
        LIRAssembly::Instruction(instr) => match lir_jump_target(instr) {
            Some(t) => listing_defines_label(c, t) || Some(t) == exit || pending.contains(t),
            None => true,
        },
        LIRAssembly::Label(_) => true,
    } by {
        if i < a.len() {
            assert(c[i] == a[i]);
            match a[i] {
                LIRAssembly::Instruction(instr) => {
                    match lir_jump_target(instr) {
                        Some(t) => {
                            if listing_defines_label(a, t) {
                                let k = choose|k: int|
                                    0 <= k < a.len() && lir_line_label(#[trigger] a[k]) == Some(t);
                                assert(lir_line_label(c[k]) == Some(t));
                            }
                        },
                        None => {},
                    }
                },
                LIRAssembly::Label(_) => {},
            }
        } else {
            assert(c[i] == b[i - a.len()]);
            match b[i - a.len()] {
                LIRAssembly::Instruction(instr) => {
                    match lir_jump_target(instr) {
                        Some(t) => {
                            if listing_defines_label(b, t) {
                                let k = choose|k: int|
                                    0 <= k < b.len() && lir_line_label(#[trigger] b[k]) == Some(t);
                                assert(lir_line_label(c[a.len() + k]) == Some(t));
                            }
                        },
                        None => {},
                    }
                },
                LIRAssembly::Label(_) => {},
            }
        }
    }
    assert forall|i: int| 0 <= i < c.len() implies lir_line_symbols(#[trigger] c[i]).subset_of(
        al,
    ) by {
        if i < a.len() {
            assert(c[i] == a[i]);
            assert(lir_line_symbols(a[i]).subset_of(al_a));
        } else {
            assert(c[i] == b[i - a.len()]);
            assert(lir_line_symbols(b[i - a.len()]).subset_of(al_b));
        }
    }
}

/// Appending an instruction that is not a jump keeps the sequence
/// lowered, provided its symbols are allowed.
proof fn lemma_lowered_push_plain(
    code: Seq<LIRAssembly>,
    instr: LIRInstruction,
    l0: u64,
    l1: u64,
    al: Set<Symbol>,
    exit: Option<Label>,
    pending: Set<Label>,
)
    requires
        lowered_part(code, l0, l1, al, exit, pending),
        lir_jump_target(instr) is None,
        lir_instruction_symbols(instr).subset_of(al),
    ensures
        lowered_part(code.push(LIRAssembly::Instruction(instr)), l0, l1, al, exit, pending),
{
    let c = code.push(LIRAssembly::Instruction(instr));
    assert forall|i: int| 0 <= i < c.len() implies match #[trigger] c[i] {
        LIRAssembly::Instruction(instr2) => match lir_jump_target(instr2) {
            Some(t) => listing_defines_label(c, t) || Some(t) == exit || pending.contains(t),
            None => true,
        },
        LIRAssembly::Label(_) => true,
    } by {
        if i < code.len() {
            assert(c[i] == code[i]);
            match code[i] {
                LIRAssembly::Instruction(instr2) => {
                    match lir_jump_target(instr2) {
                        Some(t) => {
                            if listing_defines_label(code, t) {
                                lemma_defines_push(code, LIRAssembly::Instruction(instr), t);
                            }
                        },
                        None => {},
                    }
                },
                LIRAssembly::Label(_) => {},
            }
        }
    }
}

/// Appending a jump keeps the sequence lowered when its target is
/// already defined in it or is the break target.
proof fn lemma_lowered_push_jump(
    code: Seq<LIRAssembly>,
    instr: LIRInstruction,
    t: Label,
    l0: u64,
    l1: u64,
    al: Set<Symbol>,
    exit: Option<Label>,
    pending: Set<Label>,
)
    requires
        lowered_part(code, l0, l1, al, exit, pending),
        lir_jump_target(instr) == Some(t),
        listing_defines_label(code, t) || Some(t) == exit || pending.contains(t),
        lir_instruction_symbols(instr).subset_of(al),
    ensures
        lowered_part(code.push(LIRAssembly::Instruction(instr)), l0, l1, al, exit, pending),
{
    let c = code.push(LIRAssembly::Instruction(instr));
    assert forall|i: int| 0 <= i < c.len() implies match #[trigger] c[i] {
        LIRAssembly::Instruction(instr2) => match lir_jump_target(instr2) {
            Some(t2) => listing_defines_label(c, t2) || Some(t2) == exit || pending.contains(t2),
            None => true,
        },
        LIRAssembly::Label(_) => true,
    } by {
        if i < code.len() {
            assert(c[i] == code[i]);
            match code[i] {
                LIRAssembly::Instruction(instr2) => {
                    match lir_jump_target(instr2) {
                        Some(t2) => {
                            if listing_defines_label(code, t2) {
                                lemma_defines_push(code, LIRAssembly::Instruction(instr), t2);
                            }
                        },
                        None => {},
                    }
                },
                LIRAssembly::Label(_) => {},
            }
        } else {
            if listing_defines_label(code, t) {
                lemma_defines_push(code, LIRAssembly::Instruction(instr), t);
            }
        }
    }
}

/// Appending a label line with a fresh identity inside the range keeps
/// the sequence lowered, provided the label is not yet defined in it.
proof fn lemma_lowered_push_label(
    code: Seq<LIRAssembly>,
    u: u64,
    l0: u64,
    l1: u64,
    al: Set<Symbol>,
    exit: Option<Label>,
    pending: Set<Label>,
)
    requires
        lowered_part(code, l0, l1, al, exit, pending),
        l0 <= u < l1,
        !listing_defines_label(code, Label::Uid(u)),
    ensures
        lowered_part(code.push(LIRAssembly::Label(Label::Uid(u))), l0, l1, al, exit, pending),
{
    let x = LIRAssembly::Label(Label::Uid(u));
    let c = code.push(x);
    assert forall|i: int, j: int| 0 <= i < j < c.len() implies !(lir_line_label(
        #[trigger] c[i],
    ) is Some && lir_line_label(c[i]) == lir_line_label(#[trigger] c[j])) by {
        if j < code.len() {
            assert(c[i] == code[i] && c[j] == code[j]);
        } else {
            assert(c[i] == code[i]);
            if lir_line_label(code[i]) == Some(Label::Uid(u)) {
                assert(listing_defines_label(code, Label::Uid(u)));
            }
        }
    }
    assert forall|i: int| 0 <= i < c.len() implies match #[trigger] c[i] {
        LIRAssembly::Instruction(instr2) => match lir_jump_target(instr2) {
            Some(t2) => listing_defines_label(c, t2) || Some(t2) == exit || pending.contains(t2),
            None => true,
        },
        LIRAssembly::Label(_) => true,
    } by {
        if i < code.len() {
            assert(c[i] == code[i]);
            match code[i] {
                LIRAssembly::Instruction(instr2) => {
                    match lir_jump_target(instr2) {
                        Some(t2) => {
                            if listing_defines_label(code, t2) {
                                lemma_defines_push(code, x, t2);
                            }
                        },
                        None => {},
                    }
                },
                LIRAssembly::Label(_) => {},
            }
        }
    }
}

/// A lowered sequence stays lowered over a wider label range and a
/// larger allowed set.
proof fn lemma_lowered_widen(
    code: Seq<LIRAssembly>,
    l0: u64,
    l1: u64,
    w0: u64,
    w1: u64,
    al: Set<Symbol>,
    al2: Set<Symbol>,
    exit: Option<Label>,
    pending: Set<Label>,
)
    requires
        lowered_part(code, l0, l1, al, exit, pending),
        w0 <= l0,
        l1 <= w1,
        al.subset_of(al2),
    ensures
        lowered_part(code, w0, w1, al2, exit, pending),
{
    assert forall|i: int| 0 <= i < code.len() implies lir_line_symbols(
        #[trigger] code[i],
    ).subset_of(al2) by {
        assert(lir_line_symbols(code[i]).subset_of(al));
    }
}

/// A fresh label is not defined by a sequence whose labels lie in a
/// range that excludes it.
proof fn lemma_fresh_label_undefined(code: Seq<LIRAssembly>, u: u64, l0: u64, l1: u64)
    requires
        lir_labels_fresh(code, l0, l1),
        !(l0 <= u < l1),
    ensures
        !listing_defines_label(code, Label::Uid(u)),
{
    if listing_defines_label(code, Label::Uid(u)) {
        let i = choose|i: int|
            0 <= i < code.len() && lir_line_label(#[trigger] code[i]) == Some(Label::Uid(u));
        assert(false);
    }
}

/// Appends a non-jump instruction to lowered code.
fn push_plain(
    out: &mut Vec<LIRAssembly>,
    instr: LIRInstruction,
    Ghost(l0): Ghost<u64>,
    Ghost(l1): Ghost<u64>,
    Ghost(al): Ghost<Set<Symbol>>,
    Ghost(exit): Ghost<Option<Label>>,
    Ghost(pending): Ghost<Set<Label>>,
)
    requires
        lowered_part(old(out)@, l0, l1, al, exit, pending),
        lir_jump_target(instr) is None,
        lir_instruction_symbols(instr).subset_of(al),
    ensures
        lowered_part(final(out)@, l0, l1, al, exit, pending),
        final(out)@ == old(out)@ + seq![LIRAssembly::Instruction(instr)],
        forall|t: Label|
            listing_defines_label(old(out)@, t) ==> listing_defines_label(final(out)@, t),
        forall|t: Label|
            listing_defines_label(final(out)@, t) ==> listing_defines_label(old(out)@, t),
{
    proof {
        lemma_lowered_push_plain(out@, instr, l0, l1, al, exit, pending);
    }
    let ghost pre = out@;
    out.push(LIRAssembly::Instruction(instr));
    proof {
        assert forall|t: Label| listing_defines_label(pre, t) implies listing_defines_label(
            out@,
            t,
        ) by {
            lemma_defines_push(pre, out@.last(), t);
        }
        assert forall|t: Label| listing_defines_label(out@, t) implies listing_defines_label(
            pre,
            t,
        ) by {
            let i = choose|i: int|
                0 <= i < out@.len() && lir_line_label(#[trigger] out@[i]) == Some(t);
            assert(i < pre.len());
            assert(lir_line_label(pre[i]) == Some(t));
        }
    }
}

/// Appends a jump whose target is already defined or is the break
/// target.
fn push_jump(
    out: &mut Vec<LIRAssembly>,
    instr: LIRInstruction,
    Ghost(t): Ghost<Label>,
    Ghost(l0): Ghost<u64>,
    Ghost(l1): Ghost<u64>,
    Ghost(al): Ghost<Set<Symbol>>,
    Ghost(exit): Ghost<Option<Label>>,
    Ghost(pending): Ghost<Set<Label>>,
)
    requires
        lowered_part(old(out)@, l0, l1, al, exit, pending),
        lir_jump_target(instr) == Some(t),
        listing_defines_label(old(out)@, t) || Some(t) == exit || pending.contains(t),
        lir_instruction_symbols(instr).subset_of(al),
    ensures
        lowered_part(final(out)@, l0, l1, al, exit, pending),
        final(out)@ == old(out)@ + seq![LIRAssembly::Instruction(instr)],
        forall|t2: Label|
            listing_defines_label(old(out)@, t2) ==> listing_defines_label(final(out)@, t2),
        forall|t2: Label|
            listing_defines_label(final(out)@, t2) ==> listing_defines_label(old(out)@, t2),
{
    proof {
        lemma_lowered_push_jump(out@, instr, t, l0, l1, al, exit, pending);
    }
    let ghost pre = out@;
    out.push(LIRAssembly::Instruction(instr));
    proof {
        assert forall|t2: Label| listing_defines_label(pre, t2) implies listing_defines_label(
            out@,
            t2,
        ) by {
            lemma_defines_push(pre, out@.last(), t2);
        }
        assert forall|t2: Label| listing_defines_label(out@, t2) implies listing_defines_label(
            pre,
            t2,
        ) by {
            let i = choose|i: int|
                0 <= i < out@.len() && lir_line_label(#[trigger] out@[i]) == Some(t2);
            assert(i < pre.len());
            assert(lir_line_label(pre[i]) == Some(t2));
        }
    }
}

/// Appends a freshly minted label line.
fn push_label_line(
    out: &mut Vec<LIRAssembly>,
    l: Label,
    Ghost(l0): Ghost<u64>,
    Ghost(l1): Ghost<u64>,
    Ghost(al): Ghost<Set<Symbol>>,
    Ghost(exit): Ghost<Option<Label>>,
    Ghost(pending): Ghost<Set<Label>>,
)
    requires
        lowered_part(old(out)@, l0, l1, al, exit, pending),
        l matches Label::Uid(u) && l0 <= u < l1,
        !listing_defines_label(old(out)@, l),
    ensures
        lowered_part(final(out)@, l0, l1, al, exit, pending),
        final(out)@ == old(out)@ + seq![LIRAssembly::Label(l)],
        listing_defines_label(final(out)@, l),
        forall|t2: Label|
            listing_defines_label(old(out)@, t2) ==> listing_defines_label(final(out)@, t2),
        forall|t2: Label|
            listing_defines_label(final(out)@, t2) ==> listing_defines_label(old(out)@, t2) || t2
                == l,
{
    proof {
        match l {
            Label::Uid(u) => {
                lemma_lowered_push_label(out@, u, l0, l1, al, exit, pending);
            },
            _ => {
                assert(false);
            },
        }
    }
    let ghost pre = out@;
    out.push(LIRAssembly::Label(l));
    proof {
        assert(lir_line_label(out@.last()) == Some(l));
        assert(lir_line_label(out@[out@.len() - 1]) == Some(l));
        assert forall|t2: Label| listing_defines_label(pre, t2) implies listing_defines_label(
            out@,
            t2,
        ) by {
            lemma_defines_push(pre, out@.last(), t2);
        }
        assert forall|t2: Label| listing_defines_label(out@, t2) implies listing_defines_label(
            pre,
            t2,
        ) || t2 == l by {
            let i = choose|i: int|
                0 <= i < out@.len() && lir_line_label(#[trigger] out@[i]) == Some(t2);
            if i < pre.len() {
                assert(lir_line_label(pre[i]) == Some(t2));
            }
        }
    }
}

/// Appends a lowered sequence whose fresh-label range adjoins ours.
fn append_code(
    out: &mut Vec<LIRAssembly>,
    other: Vec<LIRAssembly>,
    Ghost(l0): Ghost<u64>,
    Ghost(l1): Ghost<u64>,
    Ghost(l2): Ghost<u64>,
    Ghost(al_a): Ghost<Set<Symbol>>,
    Ghost(al_b): Ghost<Set<Symbol>>,
    Ghost(al): Ghost<Set<Symbol>>,
    Ghost(exit): Ghost<Option<Label>>,
    Ghost(pending): Ghost<Set<Label>>,
)
    requires
        lowered_part(old(out)@, l0, l1, al_a, exit, pending),
        lowered_part(other@, l1, l2, al_b, exit, pending),
        al_a.subset_of(al),
        al_b.subset_of(al),
        l0 <= l1 <= l2,
    ensures
        lowered_part(final(out)@, l0, l2, al, exit, pending),
        final(out)@ == old(out)@ + other@,
        forall|t2: Label|
            listing_defines_label(old(out)@, t2) ==> listing_defines_label(final(out)@, t2),
        forall|t2: Label|
            listing_defines_label(other@, t2) ==> listing_defines_label(final(out)@, t2),
        forall|t2: Label|
            listing_defines_label(final(out)@, t2) ==> listing_defines_label(old(out)@, t2)
                || listing_defines_label(other@, t2),
{
    proof {
        lemma_lowered_concat(out@, other@, l0, l1, l2, al_a, al_b, al, exit, pending);
    }
    let ghost pre = out@;
    let ghost oth = other@;
    let mut other = other;
    out.append(&mut other);
    proof {
        assert forall|t2: Label|
            listing_defines_label(pre, t2) || listing_defines_label(
                oth,
                t2,
            ) implies listing_defines_label(out@, t2) by {
            if listing_defines_label(pre, t2) {
                let i = choose|i: int|
                    0 <= i < pre.len() && lir_line_label(#[trigger] pre[i]) == Some(t2);
                assert(lir_line_label(out@[i]) == Some(t2));
            } else {
                let i = choose|i: int|
                    0 <= i < oth.len() && lir_line_label(#[trigger] oth[i]) == Some(t2);
                assert(lir_line_label(out@[pre.len() + i]) == Some(t2));
            }
        }
        assert forall|t2: Label| listing_defines_label(out@, t2) implies listing_defines_label(
            pre,
            t2,
        ) || listing_defines_label(oth, t2) by {
            let i = choose|i: int|
                0 <= i < out@.len() && lir_line_label(#[trigger] out@[i]) == Some(t2);
            if i < pre.len() {
                assert(lir_line_label(pre[i]) == Some(t2));
            } else {
                assert(lir_line_label(oth[i - pre.len()]) == Some(t2));
            }
        }
    }
}

/// An allowed-symbol set only widens as the symbol generator advances.
proof fn lemma_al_widen(base: Set<Symbol>, s0: u64, b1: u64, b2: u64)
    requires
        b1 <= b2,
    ensures
        base.union(syms_in_range(s0, b1)).subset_of(base.union(syms_in_range(s0, b2))),
{
    assert forall|s: Symbol| base.union(syms_in_range(s0, b1)).contains(s) implies base.union(
        syms_in_range(s0, b2),
    ).contains(s) by {}
}

/// Lowers an lvalue read: computes the value of the named place into a
/// fresh symbol, returning the place's type, the code and that symbol.
#[verifier::loop_isolation(false)]
#[verifier::rlimit(100)]
#[verifier::spinoff_prover]
pub fn lower_lvalue_value(
    checked_lvalue: &CheckedLValue,
    lowering_global: &mut LoweringGlobal,
    exit_label: Option<Label>,
) -> (r: Result<(Type, Vec<LIRAssembly>, Symbol), TypeError>)
    requires
        old(lowering_global).wf(),
    ensures
        final(lowering_global).wf(),
        final(lowering_global).symbol_table == old(lowering_global).symbol_table,
        final(lowering_global).types == old(lowering_global).types,
        old(lowering_global).gen_sym.next() <= final(lowering_global).gen_sym.next(),
        old(lowering_global).gen_label.next() <= final(lowering_global).gen_label.next(),
        r matches Ok(p) ==> {
            let al = clv_symbols(*checked_lvalue).union(
                syms_in_range(
                    old(lowering_global).gen_sym.next(),
                    final(lowering_global).gen_sym.next(),
                ),
            );
            lowered_ok(
                p.1@,
                old(lowering_global).gen_label.next(),
                final(lowering_global).gen_label.next(),
                al,
                exit_label,
            ) && al.contains(p.2)
        },
    decreases *checked_lvalue, 0int,
{
    broadcast use vstd::map_lib::lemma_submap_of_trans;

    let ghost l_a = lowering_global.gen_label.next();
    let ghost s_a = lowering_global.gen_sym.next();
    let ghost exitg = exit_label;
    match checked_lvalue {
        CheckedLValue::Id { name } => {
            if !lowering_global.gen_sym.has_room() {
                return Err(TypeError("too many symbols"));
            }
            let symbol = lowering_global.gen_sym.new_symbol();
            let mut out: Vec<LIRAssembly> = Vec::new();
            let ghost al = clv_symbols(*checked_lvalue).union(
                syms_in_range(s_a, lowering_global.gen_sym.next()),
            );
            proof {
                lemma_ok_to_part(out@, l_a, l_a, al, exitg, Set::empty());
            }
            push_plain(
                &mut out,
                LIRInstruction::Assign { assign_to: symbol, id: *name },
                Ghost(l_a),
                Ghost(l_a),
                Ghost(al),
                Ghost(exitg),
                Ghost(Set::empty()),
            );
            let type_id = match lowering_global.symbol_table.get(name) {
                Some(t) => *t,
                None => {
                    return Err(TypeError("symbol has no recorded type"));
                },
            };
            let type_value = match lowering_global.types.get(&type_id) {
                Some(t) => crate::check_type::clone_type(t),
                None => {
                    return Err(TypeError("type id has no descriptor"));
                },
            };
            proof {
                lemma_part_to_ok(out@, l_a, l_a, al, exitg, Set::empty());
            }
            Ok((type_value, out, symbol))
        },
        CheckedLValue::Subscript { array, index } => {
            if !lowering_global.gen_sym.has_room() {
                return Err(TypeError("too many symbols"));
            }
            let symbol = lowering_global.gen_sym.new_symbol();
            let ghost s_c1 = lowering_global.gen_sym.next();
            let (type_value, array_code, array_symbol) = match lower_lvalue_value(
                array,
                lowering_global,
                None,
            ) {
                Ok(p) => p,
                Err(e) => {
                    return Err(e);
                },
            };
            let ghost l_m1 = lowering_global.gen_label.next();
            let ghost s_c2 = lowering_global.gen_sym.next();
            let ghost al_arr = clv_symbols(**array).union(syms_in_range(s_c1, s_c2));
            let (index_code, index_symbol) = match lower_exp(index, lowering_global, None) {
                Ok(p) => p,
                Err(e) => {
                    return Err(e);
                },
            };
            let ghost l_m2 = lowering_global.gen_label.next();
            let ghost s_c3 = lowering_global.gen_sym.next();
            let ghost al_ix = cexp_symbols(**index).union(syms_in_range(s_c2, s_c3));
            let ghost al = clv_symbols(*checked_lvalue).union(syms_in_range(s_a, s_c3));
            proof {
                assert(al_arr.subset_of(al)) by {
                    assert forall|s: Symbol| al_arr.contains(s) implies al.contains(s) by {}
                }
                assert(al_ix.subset_of(al)) by {
                    assert forall|s: Symbol| al_ix.contains(s) implies al.contains(s) by {}
                }
            }
            let mut out = array_code;
            proof {
                lemma_ok_to_part(out@, l_a, l_m1, al_arr, None, Set::empty());
                lemma_ok_to_part(index_code@, l_m1, l_m2, al_ix, None, Set::empty());
            }
            append_code(
                &mut out,
                index_code,
                Ghost(l_a),
                Ghost(l_m1),
                Ghost(l_m2),
                Ghost(al_arr),
                Ghost(al_ix),
                Ghost(al),
                Ghost(None),
                Ghost(Set::empty()),
            );
            push_plain(
                &mut out,
                LIRInstruction::LoadFromMemoryAtOffset {
                    assign_to: symbol,
                    location: array_symbol,
                    offset: index_symbol,
                },
                Ghost(l_a),
                Ghost(l_m2),
                Ghost(al),
                Ghost(None),
                Ghost(Set::empty()),
            );
            let element_type_id = match type_value {
                Type::Array(i) => i,
                _ => {
                    return Err(TypeError("subscript into non-array"));
                },
            };
            let element_type = match lowering_global.types.get(&element_type_id) {
                Some(t) => crate::check_type::clone_type(t),
                None => {
                    return Err(TypeError("type id has no descriptor"));
                },
            };
            proof {
                lemma_part_to_ok(out@, l_a, l_m2, al, None, Set::empty());
                lemma_exit_any(out@, l_a, l_m2, al, exitg);
            }
            Ok((element_type, out, symbol))
        },
        CheckedLValue::FieldExp { record, field } => {
            if !lowering_global.gen_sym.has_room() {
                return Err(TypeError("too many symbols"));
            }
            let symbol = lowering_global.gen_sym.new_symbol();
            let ghost s_c1 = lowering_global.gen_sym.next();
            let (type_value, record_code, record_symbol) = match lower_lvalue_value(
                record,
                lowering_global,
                None,
            ) {
                Ok(p) => p,
                Err(e) => {
                    return Err(e);
                },
            };
            let ghost l_m1 = lowering_global.gen_label.next();
            let ghost s_c2 = lowering_global.gen_sym.next();
            let ghost al_rec = clv_symbols(**record).union(syms_in_range(s_c1, s_c2));
            let fields = match type_value {
                Type::Record(v) => v,
                _ => {
                    return Err(TypeError("field access into non-record"));
                },
            };
            let mut index: usize = 0;
            let mut found = false;
            let mut k: usize = 0;
            while k < fields.len()
                invariant
                    k <= fields@.len(),
                    found ==> index < fields@.len(),
                decreases fields@.len() - k,
            {
                if !found && fields[k].0 == *field {
                    index = k;
                    found = true;
                }
                k = k + 1;
            }
            if !found {
                return Err(TypeError("no such field"));
            }
            let element_type_id = fields[index].1;
            let element_type = match lowering_global.types.get(&element_type_id) {
                Some(t) => crate::check_type::clone_type(t),
                None => {
                    return Err(TypeError("type id has no descriptor"));
                },
            };
            if (index as u64) >= 0x7fff_ffff_ffff_fffeu64 {
                return Err(TypeError("record too large"));
            }
            let field_index: i64 = index as i64;
            if !lowering_global.gen_sym.has_room() {
                return Err(TypeError("too many symbols"));
            }
            let index_symbol = lowering_global.gen_sym.new_symbol();
            let ghost al = clv_symbols(*checked_lvalue).union(
                syms_in_range(s_a, lowering_global.gen_sym.next()),
            );
            let mut out = record_code;
            proof {
                assert(al_rec.subset_of(al)) by {
                    assert forall|s: Symbol| al_rec.contains(s) implies al.contains(s) by {}
                }
                lemma_ok_to_part(out@, l_a, l_m1, al_rec, None, Set::empty());
                lemma_lowered_widen(out@, l_a, l_m1, l_a, l_m1, al_rec, al, None, Set::empty());
            }
            push_plain(
                &mut out,
                LIRInstruction::IntLit { assign_to: index_symbol, value: field_index },
                Ghost(l_a),
                Ghost(l_m1),
                Ghost(al),
                Ghost(None),
                Ghost(Set::empty()),
            );
            push_plain(
                &mut out,
                LIRInstruction::LoadFromMemoryAtOffset {
                    assign_to: symbol,
                    location: record_symbol,
                    offset: index_symbol,
                },
                Ghost(l_a),
                Ghost(l_m1),
                Ghost(al),
                Ghost(None),
                Ghost(Set::empty()),
            );
            proof {
                lemma_part_to_ok(out@, l_a, l_m1, al, None, Set::empty());
                lemma_exit_any(out@, l_a, l_m1, al, exitg);
            }
            Ok((element_type, out, symbol))
        },
    }
}

/// A sequence lowered against a break target stays lowered under any
/// other break target once the old target is among the labels the
/// caller has promised to emit.
proof fn lemma_retarget(
    code: Seq<LIRAssembly>,
    a: u64,
    b: u64,
    al: Set<Symbol>,
    t: Label,
    exit2: Option<Label>,
    pending: Set<Label>,
)
    requires
        lowered_ok(code, a, b, al, Some(t)),
        pending.contains(t),
    ensures
        lowered_part(code, a, b, al, exit2, pending),
{
}

/// A fully lowered sequence with no dangling jumps keeps its shape
/// under any break target.
proof fn lemma_exit_any(
    code: Seq<LIRAssembly>,
    a: u64,
    b: u64,
    al: Set<Symbol>,
    exit: Option<Label>,
)
    requires
        lowered_ok(code, a, b, al, None),
    ensures
        lowered_ok(code, a, b, al, exit),
{
}

/// Where an assignment lands: a plain symbol, or a heap word named by
/// a base pointer and an element offset.
pub enum StoreTarget {
    Direct(Symbol),
    Mem(Symbol, Symbol),
}

/// The symbols a store target reads or writes.
pub open spec fn store_target_symbols(t: StoreTarget) -> Set<Symbol> {
    match t {
        StoreTarget::Direct(s) => set![s],
        StoreTarget::Mem(b, o) => set![b, o],
    }
}

/// Lowers the left side of an assignment: a plain name needs no code;
/// a subscript or field path computes the base pointer and the element
/// offset so that the caller can emit a store through them.
#[verifier::loop_isolation(false)]
/// The code a lowered `if`-without-`else` takes: the condition's code,
/// a zero literal, a conditional jump to the end label exactly when the
/// condition equals zero, the branch's code, and the end label.
pub open spec fn if_then_shape(
    listing: Seq<LIRAssembly>,
    cond: Seq<LIRAssembly>,
    thn: Seq<LIRAssembly>,
    cond_symbol: Symbol,
    zero_symbol: Symbol,
    end_label: Label,
) -> bool {
    listing == cond + seq![
        LIRAssembly::Instruction(LIRInstruction::IntLit { assign_to: zero_symbol, value: 0 }),
        LIRAssembly::Instruction(
            LIRInstruction::JumpC {
                to: end_label,
                condition: Comparison {
                    c: ComparisonType::Equal,
                    left: cond_symbol,
                    right: zero_symbol,
                },
            },
        ),
    ] + thn + seq![LIRAssembly::Label(end_label)]
}

#[verifier::rlimit(100)]
#[verifier::spinoff_prover]
pub fn lower_lvalue_store(
    checked_lvalue: &CheckedLValue,
    lowering_global: &mut LoweringGlobal,
) -> (r: Result<(Vec<LIRAssembly>, StoreTarget), TypeError>)
    requires
        old(lowering_global).wf(),
    ensures
        final(lowering_global).wf(),
        final(lowering_global).symbol_table == old(lowering_global).symbol_table,
        final(lowering_global).types == old(lowering_global).types,
        old(lowering_global).gen_sym.next() <= final(lowering_global).gen_sym.next(),
        old(lowering_global).gen_label.next() <= final(lowering_global).gen_label.next(),
        r matches Ok(p) ==> {
            let al = clv_symbols(*checked_lvalue).union(
                syms_in_range(
                    old(lowering_global).gen_sym.next(),
                    final(lowering_global).gen_sym.next(),
                ),
            );
            lowered_ok(
                p.0@,
                old(lowering_global).gen_label.next(),
                final(lowering_global).gen_label.next(),
                al,
                None,
            ) && store_target_symbols(p.1).subset_of(al)
        },
        r matches Ok(p) ==> (p.1 is Direct <==> *checked_lvalue is Id),
    decreases *checked_lvalue, 0int,
{
    let ghost l_a = lowering_global.gen_label.next();
    let ghost s_a = lowering_global.gen_sym.next();
    match checked_lvalue {
        CheckedLValue::Id { name } => {
            let out: Vec<LIRAssembly> = Vec::new();
            Ok((out, StoreTarget::Direct(*name)))
        },
        CheckedLValue::Subscript { array, index } => {
            let (_, array_code, array_symbol) = match lower_lvalue_value(
                array,
                lowering_global,
                None,
            ) {
                Ok(p) => p,
                Err(e) => {
                    return Err(e);
                },
            };
            let ghost l_m1 = lowering_global.gen_label.next();
            let ghost s_m1 = lowering_global.gen_sym.next();
            let ghost al_arr = clv_symbols(**array).union(syms_in_range(s_a, s_m1));
            let (index_code, index_symbol) = match lower_exp(index, lowering_global, None) {
                Ok(p) => p,
                Err(e) => {
                    return Err(e);
                },
            };
            let ghost l_m2 = lowering_global.gen_label.next();
            let ghost s_m2 = lowering_global.gen_sym.next();
            let ghost al_ix = cexp_symbols(**index).union(syms_in_range(s_m1, s_m2));
            let ghost al = clv_symbols(*checked_lvalue).union(syms_in_range(s_a, s_m2));
            proof {
                assert(al_arr.subset_of(al)) by {
                    assert forall|s: Symbol| al_arr.contains(s) implies al.contains(s) by {}
                }
                assert(al_ix.subset_of(al)) by {
                    assert forall|s: Symbol| al_ix.contains(s) implies al.contains(s) by {}
                }
            }
            let mut out = array_code;
            proof {
                lemma_ok_to_part(out@, l_a, l_m1, al_arr, None, Set::empty());
                lemma_ok_to_part(index_code@, l_m1, l_m2, al_ix, None, Set::empty());
            }
            append_code(
                &mut out,
                index_code,
                Ghost(l_a),
                Ghost(l_m1),
                Ghost(l_m2),
                Ghost(al_arr),
                Ghost(al_ix),
                Ghost(al),
                Ghost(None),
                Ghost(Set::empty()),
            );
            proof {
                lemma_part_to_ok(out@, l_a, l_m2, al, None, Set::empty());
            }
            Ok((out, StoreTarget::Mem(array_symbol, index_symbol)))
        },
        CheckedLValue::FieldExp { record, field } => {
            let (type_value, record_code, record_symbol) = match lower_lvalue_value(
                record,
                lowering_global,
                None,
            ) {
                Ok(p) => p,
                Err(e) => {
                    return Err(e);
                },
            };
            let ghost l_m1 = lowering_global.gen_label.next();
            let ghost s_m1 = lowering_global.gen_sym.next();
            let ghost al_rec = clv_symbols(**record).union(syms_in_range(s_a, s_m1));
            let fields = match type_value {
                Type::Record(v) => v,
                _ => {
                    return Err(TypeError("field access into non-record"));
                },
            };
            let mut index: usize = 0;
            let mut found = false;
            let mut k: usize = 0;
            while k < fields.len()
                invariant
                    k <= fields@.len(),
                    found ==> index < fields@.len(),
                decreases fields@.len() - k,
            {
                if !found && fields[k].0 == *field {
                    index = k;
                    found = true;
                }
                k = k + 1;
            }
            if !found {
                return Err(TypeError("no such field"));
            }
            if (index as u64) >= 0x7fff_ffff_ffff_fffeu64 {
                return Err(TypeError("record too large"));
            }
            let field_index: i64 = index as i64;
            if !lowering_global.gen_sym.has_room() {
                return Err(TypeError("too many symbols"));
            }
            let index_symbol = lowering_global.gen_sym.new_symbol();
            let ghost al = clv_symbols(*checked_lvalue).union(
                syms_in_range(s_a, lowering_global.gen_sym.next()),
            );
            proof {
                assert(al_rec.subset_of(al)) by {
                    assert forall|s: Symbol| al_rec.contains(s) implies al.contains(s) by {}
                }
            }
            let mut out = record_code;
            proof {
                lemma_ok_to_part(out@, l_a, l_m1, al_rec, None, Set::empty());
                lemma_lowered_widen(out@, l_a, l_m1, l_a, l_m1, al_rec, al, None, Set::empty());
            }
            push_plain(
                &mut out,
                LIRInstruction::IntLit { assign_to: index_symbol, value: field_index },
                Ghost(l_a),
                Ghost(l_m1),
                Ghost(al),
                Ghost(None),
                Ghost(Set::empty()),
            );
            proof {
                lemma_part_to_ok(out@, l_a, l_m1, al, None, Set::empty());
            }
            Ok((out, StoreTarget::Mem(record_symbol, index_symbol)))
        },
    }
}

/// Lowers one expression to a code sequence and the symbol that holds
/// its value afterwards.  Fresh temporaries and labels come from the
/// generators; a `break` jumps to the enclosing loop's break target
/// and is an internal error without one.
#[verifier::loop_isolation(false)]
#[verifier::rlimit(100)]
#[verifier::spinoff_prover]
pub fn lower_exp(
    checked_exp: &CheckedExp,
    lowering_global: &mut LoweringGlobal,
    exit_label: Option<Label>,
) -> (r: Result<(Vec<LIRAssembly>, Symbol), TypeError>)
    requires
        old(lowering_global).wf(),
    ensures
        final(lowering_global).wf(),
        final(lowering_global).symbol_table == old(lowering_global).symbol_table,
        final(lowering_global).types == old(lowering_global).types,
        old(lowering_global).gen_sym.next() <= final(lowering_global).gen_sym.next(),
        old(lowering_global).gen_label.next() <= final(lowering_global).gen_label.next(),
        r matches Ok(p) ==> {
            let al = cexp_symbols(*checked_exp).union(
                syms_in_range(
                    old(lowering_global).gen_sym.next(),
                    final(lowering_global).gen_sym.next(),
                ),
            );
            lowered_ok(
                p.0@,
                old(lowering_global).gen_label.next(),
                final(lowering_global).gen_label.next(),
                al,
                exit_label,
            ) && al.contains(p.1)
        },
        checked_exp matches CheckedExp::Break ==> {
            &&& (exit_label is None ==> r is Err)
            &&& (r matches Ok(p) ==> p.0@.len() == 1 && p.0@[0] == LIRAssembly::Instruction(
                LIRInstruction::Jump { to: exit_label->Some_0 },
            ))
        },
        checked_exp matches CheckedExp::Assign { left, right } ==> (r matches Ok(p) ==> p.0@.len()
            > 0 && (if *left is Id {
            p.0@.last() matches LIRAssembly::Instruction(i) && i is Assign
        } else {
            p.0@.last() matches LIRAssembly::Instruction(i) && i is StoreToMemoryAtOffset
        })),
        checked_exp is IfThen ==> (r matches Ok(p) ==> exists|
            cond: Seq<LIRAssembly>,
            thn: Seq<LIRAssembly>,
            cs: Symbol,
            zs: Symbol,
            endl: Label,
        |
            if_then_shape(p.0@, cond, thn, cs, zs, endl)),
    decreases *checked_exp, 2int,
{
    let ghost l_a = lowering_global.gen_label.next();
    let ghost s_a = lowering_global.gen_sym.next();
    let ghost exitg = exit_label;
    let ghost nopend: Set<Label> = Set::empty();
    match checked_exp {
        CheckedExp::Break => {
            let target = match exit_label {
                Some(l) => l,
                None => {
                    return Err(TypeError("break outside of a loop"));
                },
            };
            if !lowering_global.gen_sym.has_room() {
                return Err(TypeError("too many symbols"));
            }
            let break_symbol = lowering_global.gen_sym.new_symbol();
            let ghost al = cexp_symbols(*checked_exp).union(
                syms_in_range(s_a, lowering_global.gen_sym.next()),
            );
            let mut out: Vec<LIRAssembly> = Vec::new();
            push_jump(
                &mut out,
                LIRInstruction::Jump { to: target },
                Ghost(target),
                Ghost(l_a),
                Ghost(l_a),
                Ghost(al),
                Ghost(exitg),
                Ghost(nopend),
            );
            proof {
                lemma_part_to_ok(out@, l_a, l_a, al, exitg, nopend);
            }
            Ok((out, break_symbol))
        },
        CheckedExp::IntLit { value } => {
            if !lowering_global.gen_sym.has_room() {
                return Err(TypeError("too many symbols"));
            }
            let sym = lowering_global.gen_sym.new_symbol();
            let ghost al = cexp_symbols(*checked_exp).union(
                syms_in_range(s_a, lowering_global.gen_sym.next()),
            );
            let mut out: Vec<LIRAssembly> = Vec::new();
            push_plain(
                &mut out,
                LIRInstruction::IntLit { assign_to: sym, value: *value as i64 },
                Ghost(l_a),
                Ghost(l_a),
                Ghost(al),
                Ghost(exitg),
                Ghost(nopend),
            );
            proof {
                lemma_part_to_ok(out@, l_a, l_a, al, exitg, nopend);
            }
            Ok((out, sym))
        },
        CheckedExp::StringLit { value } => {
            if !lowering_global.gen_sym.has_room() {
                return Err(TypeError("too many symbols"));
            }
            let sym = lowering_global.gen_sym.new_symbol();
            let ghost al = cexp_symbols(*checked_exp).union(
                syms_in_range(s_a, lowering_global.gen_sym.next()),
            );
            let mut out: Vec<LIRAssembly> = Vec::new();
            push_plain(
                &mut out,
                LIRInstruction::StringLit { assign_to: sym, value: value.clone() },
                Ghost(l_a),
                Ghost(l_a),
                Ghost(al),
                Ghost(exitg),
                Ghost(nopend),
            );
            proof {
                lemma_part_to_ok(out@, l_a, l_a, al, exitg, nopend);
            }
            Ok((out, sym))
        },
        CheckedExp::LValue { lvalue } => {
            let (_, code, sym) = match lower_lvalue_value(lvalue, lowering_global, None) {
                Ok(p) => p,
                Err(e) => {
                    return Err(e);
                },
            };
            proof {
                let al_lv = clv_symbols(*lvalue).union(
                    syms_in_range(s_a, lowering_global.gen_sym.next()),
                );
                let al = cexp_symbols(*checked_exp).union(
                    syms_in_range(s_a, lowering_global.gen_sym.next()),
                );
                assert(al_lv =~= al);
                lemma_exit_any(
                    code@,
                    l_a,
                    lowering_global.gen_label.next(),
                    al,
                    exitg,
                );
            }
            Ok((code, sym))
        },
        CheckedExp::Negate { exp } => {
            let (mut out, exp_symbol) = match lower_exp(exp, lowering_global, None) {
                Ok(p) => p,
                Err(e) => {
                    return Err(e);
                },
            };
            let ghost l_m1 = lowering_global.gen_label.next();
            let ghost s_m1 = lowering_global.gen_sym.next();
            let ghost al_c = cexp_symbols(**exp).union(syms_in_range(s_a, s_m1));
            if !lowering_global.gen_sym.has_room() {
                return Err(TypeError("too many symbols"));
            }
            let negate_symbol = lowering_global.gen_sym.new_symbol();
            let ghost al = cexp_symbols(*checked_exp).union(
                syms_in_range(s_a, lowering_global.gen_sym.next()),
            );
            proof {
                assert(al_c.subset_of(al)) by {
                    assert forall|s: Symbol| al_c.contains(s) implies al.contains(s) by {}
                }
                lemma_ok_to_part(out@, l_a, l_m1, al_c, None, nopend);
                lemma_lowered_widen(out@, l_a, l_m1, l_a, l_m1, al_c, al, None, nopend);
            }
            push_plain(
                &mut out,
                LIRInstruction::Negate { assign_to: negate_symbol, value: exp_symbol },
                Ghost(l_a),
                Ghost(l_m1),
                Ghost(al),
                Ghost(None),
                Ghost(nopend),
            );
            proof {
                lemma_part_to_ok(out@, l_a, l_m1, al, None, nopend);
                lemma_exit_any(out@, l_a, l_m1, al, exitg);
            }
            Ok((out, negate_symbol))
        },
        CheckedExp::Assign { left, right } => {
            let (mut out, target) = match lower_lvalue_store(left, lowering_global) {
                Ok(p) => p,
                Err(e) => {
                    return Err(e);
                },
            };
            let ghost l_m1 = lowering_global.gen_label.next();
            let ghost s_m1 = lowering_global.gen_sym.next();
            let ghost al_l = clv_symbols(*left).union(syms_in_range(s_a, s_m1));
            let (right_code, right_symbol) = match lower_exp(right, lowering_global, None) {
                Ok(p) => p,
                Err(e) => {
                    return Err(e);
                },
            };
            let ghost l_m2 = lowering_global.gen_label.next();
            let ghost s_m2 = lowering_global.gen_sym.next();
            let ghost al_r = cexp_symbols(**right).union(syms_in_range(s_m1, s_m2));
            let ghost al = cexp_symbols(*checked_exp).union(syms_in_range(s_a, s_m2));
            proof {
                assert(al_l.subset_of(al)) by {
                    assert forall|s: Symbol| al_l.contains(s) implies al.contains(s) by {}
                }
                assert(al_r.subset_of(al)) by {
                    assert forall|s: Symbol| al_r.contains(s) implies al.contains(s) by {}
                }
                lemma_ok_to_part(out@, l_a, l_m1, al_l, None, nopend);
                lemma_ok_to_part(right_code@, l_m1, l_m2, al_r, None, nopend);
            }
            append_code(
                &mut out,
                right_code,
                Ghost(l_a),
                Ghost(l_m1),
                Ghost(l_m2),
                Ghost(al_l),
                Ghost(al_r),
                Ghost(al),
                Ghost(None),
                Ghost(nopend),
            );
            let result_symbol: Symbol;
            match target {
                StoreTarget::Direct(s) => {
                    push_plain(
                        &mut out,
                        LIRInstruction::Assign { assign_to: s, id: right_symbol },
                        Ghost(l_a),
                        Ghost(l_m2),
                        Ghost(al),
                        Ghost(None),
                        Ghost(nopend),
                    );
                    result_symbol = s;
                },
                StoreTarget::Mem(b, o) => {
                    push_plain(
                        &mut out,
                        LIRInstruction::StoreToMemoryAtOffset {
                            location: b,
                            offset: o,
                            value: right_symbol,
                        },
                        Ghost(l_a),
                        Ghost(l_m2),
                        Ghost(al),
                        Ghost(None),
                        Ghost(nopend),
                    );
                    result_symbol = b;
                },
            }
            proof {
                lemma_part_to_ok(out@, l_a, l_m2, al, None, nopend);
                lemma_exit_any(out@, l_a, l_m2, al, exitg);
            }
            Ok((out, result_symbol))
        },
        CheckedExp::ArrayCreate { length, initial_value } => {
            if !lowering_global.gen_sym.has_room() {
                return Err(TypeError("too many symbols"));
            }
            let array_symbol = lowering_global.gen_sym.new_symbol();
            let ghost s_b = lowering_global.gen_sym.next();
            let (mut out, length_symbol) = match lower_exp(length, lowering_global, None) {
                Ok(p) => p,
                Err(e) => {
                    return Err(e);
                },
            };
            let ghost l_m1 = lowering_global.gen_label.next();
            let ghost s_m1 = lowering_global.gen_sym.next();
            let ghost al_len = cexp_symbols(**length).union(syms_in_range(s_b, s_m1));
            let (init_code, init_symbol) = match lower_exp(initial_value, lowering_global, None) {
                Ok(p) => p,
                Err(e) => {
                    return Err(e);
                },
            };
            let ghost l_m2 = lowering_global.gen_label.next();
            let ghost s_m2 = lowering_global.gen_sym.next();
            let ghost al_init = cexp_symbols(**initial_value).union(syms_in_range(s_m1, s_m2));
            let ghost al = cexp_symbols(*checked_exp).union(syms_in_range(s_a, s_m2));
            proof {
                assert(al_len.subset_of(al)) by {
                    assert forall|s: Symbol| al_len.contains(s) implies al.contains(s) by {}
                }
                assert(al_init.subset_of(al)) by {
                    assert forall|s: Symbol| al_init.contains(s) implies al.contains(s) by {}
                }
                lemma_ok_to_part(out@, l_a, l_m1, al_len, None, nopend);
                lemma_ok_to_part(init_code@, l_m1, l_m2, al_init, None, nopend);
            }
            append_code(
                &mut out,
                init_code,
                Ghost(l_a),
                Ghost(l_m1),
                Ghost(l_m2),
                Ghost(al_len),
                Ghost(al_init),
                Ghost(al),
                Ghost(None),
                Ghost(nopend),
            );
            let mut args: Vec<Symbol> = Vec::new();
            args.push(length_symbol);
            args.push(init_symbol);
            proof {
                assert(args@.to_set().insert(array_symbol).subset_of(al)) by {
                    assert forall|s: Symbol| args@.to_set().insert(array_symbol).contains(
                        s,
                    ) implies al.contains(s) by {
                        if s != array_symbol {
                            assert(args@.contains(s));
                            assert(s == length_symbol || s == init_symbol);
                        }
                    }
                }
            }
            push_plain(
                &mut out,
                LIRInstruction::Call {
                    assign_to: array_symbol,
                    function_name: Label::AllocateAndMemset,
                    args,
                },
                Ghost(l_a),
                Ghost(l_m2),
                Ghost(al),
                Ghost(None),
                Ghost(nopend),
            );
            proof {
                lemma_part_to_ok(out@, l_a, l_m2, al, None, nopend);
                lemma_exit_any(out@, l_a, l_m2, al, exitg);
            }
            Ok((out, array_symbol))
        },
        CheckedExp::Infix { left, op, right } => {
            let (mut out, left_symbol) = match lower_exp(left, lowering_global, None) {
                Ok(p) => p,
                Err(e) => {
                    return Err(e);
                },
            };
            let ghost l_m1 = lowering_global.gen_label.next();
            let ghost s_m1 = lowering_global.gen_sym.next();
            let ghost al_l = cexp_symbols(**left).union(syms_in_range(s_a, s_m1));
            let (right_code, right_symbol) = match lower_exp(right, lowering_global, None) {
                Ok(p) => p,
                Err(e) => {
                    return Err(e);
                },
            };
            let ghost l_m2 = lowering_global.gen_label.next();
            let ghost s_m2 = lowering_global.gen_sym.next();
            let ghost al_r = cexp_symbols(**right).union(syms_in_range(s_m1, s_m2));
            if !lowering_global.gen_sym.has_room() {
                return Err(TypeError("too many symbols"));
            }
            let infix_symbol = lowering_global.gen_sym.new_symbol();
            let ghost al = cexp_symbols(*checked_exp).union(
                syms_in_range(s_a, lowering_global.gen_sym.next()),
            );
            proof {
                assert(al_l.subset_of(al)) by {
                    assert forall|s: Symbol| al_l.contains(s) implies al.contains(s) by {}
                }
                assert(al_r.subset_of(al)) by {
                    assert forall|s: Symbol| al_r.contains(s) implies al.contains(s) by {}
                }
                lemma_ok_to_part(out@, l_a, l_m1, al_l, None, nopend);
                lemma_ok_to_part(right_code@, l_m1, l_m2, al_r, None, nopend);
            }
            append_code(
                &mut out,
                right_code,
                Ghost(l_a),
                Ghost(l_m1),
                Ghost(l_m2),
                Ghost(al_l),
                Ghost(al_r),
                Ghost(al),
                Ghost(None),
                Ghost(nopend),
            );
            match op.as_infix_op() {
                Some(infix_op) => {
                    push_plain(
                        &mut out,
                        LIRInstruction::BinaryOp {
                            assign_to: infix_symbol,
                            left: left_symbol,
                            op: infix_op,
                            right: right_symbol,
                        },
                        Ghost(l_a),
                        Ghost(l_m2),
                        Ghost(al),
                        Ghost(None),
                        Ghost(nopend),
                    );
                    proof {
                        lemma_part_to_ok(out@, l_a, l_m2, al, None, nopend);
                        lemma_exit_any(out@, l_a, l_m2, al, exitg);
                    }
                    Ok((out, infix_symbol))
                },
                None => {
                    let cmp = match op.as_comparison_type() {
                        Some(c) => c,
                        None => {
                            return Err(TypeError("operator is neither arithmetic nor comparison"));
                        },
                    };
                    if !lowering_global.gen_label.has_room() {
                        return Err(TypeError("too many labels"));
                    }
                    let true_label = lowering_global.gen_label.new_label();
                    if !lowering_global.gen_label.has_room() {
                        return Err(TypeError("too many labels"));
                    }
                    let false_label = lowering_global.gen_label.new_label();
                    if !lowering_global.gen_label.has_room() {
                        return Err(TypeError("too many labels"));
                    }
                    let end_label = lowering_global.gen_label.new_label();
                    let ghost l_hi = lowering_global.gen_label.next();
                    let ghost pend: Set<Label> = set![true_label, false_label, end_label];
                    proof {
                        lemma_ok_to_part(out@, l_a, l_m2, al, None, pend);
                        lemma_lowered_widen(out@, l_a, l_m2, l_a, l_hi, al, al, None, pend);
                        lemma_fresh_label_undefined(out@, l_m2 as u64, l_a, l_m2);
                    }
                    let ghost out0 = out@;
                    push_jump(
                        &mut out,
                        LIRInstruction::JumpC {
                            to: true_label,
                            condition: Comparison {
                                c: cmp,
                                left: left_symbol,
                                right: right_symbol,
                            },
                        },
                        Ghost(true_label),
                        Ghost(l_a),
                        Ghost(l_hi),
                        Ghost(al),
                        Ghost(None),
                        Ghost(pend),
                    );
                    push_jump(
                        &mut out,
                        LIRInstruction::Jump { to: false_label },
                        Ghost(false_label),
                        Ghost(l_a),
                        Ghost(l_hi),
                        Ghost(al),
                        Ghost(None),
                        Ghost(pend),
                    );
                    proof {
                        assert(!listing_defines_label(out@, true_label)) by {
                            if listing_defines_label(out@, true_label) {
                                lemma_fresh_label_undefined(out0, l_m2 as u64, l_a, l_m2);
                                assert(listing_defines_label(out0, true_label));
                                let i = choose|i: int|
                                    0 <= i < out0.len() && lir_line_label(#[trigger] out0[i])
                                        == Some(true_label);
                                assert(false);
                            }
                        }
                    }
                    push_label_line(
                        &mut out,
                        true_label,
                        Ghost(l_a),
                        Ghost(l_hi),
                        Ghost(al),
                        Ghost(None),
                        Ghost(pend),
                    );
                    push_plain(
                        &mut out,
                        LIRInstruction::IntLit { assign_to: infix_symbol, value: 1 },
                        Ghost(l_a),
                        Ghost(l_hi),
                        Ghost(al),
                        Ghost(None),
                        Ghost(pend),
                    );
                    push_jump(
                        &mut out,
                        LIRInstruction::Jump { to: end_label },
                        Ghost(end_label),
                        Ghost(l_a),
                        Ghost(l_hi),
                        Ghost(al),
                        Ghost(None),
                        Ghost(pend),
                    );
                    proof {
                        assert(!listing_defines_label(out@, false_label)) by {
                            if listing_defines_label(out@, false_label) {
                                assert(listing_defines_label(out0, false_label) || false_label
                                    == true_label);
                                assert(false_label != true_label);
                                let i = choose|i: int|
                                    0 <= i < out0.len() && lir_line_label(#[trigger] out0[i])
                                        == Some(false_label);
                                assert(false);
                            }
                        }
                    }
                    push_label_line(
                        &mut out,
                        false_label,
                        Ghost(l_a),
                        Ghost(l_hi),
                        Ghost(al),
                        Ghost(None),
                        Ghost(pend),
                    );
                    push_plain(
                        &mut out,
                        LIRInstruction::IntLit { assign_to: infix_symbol, value: 0 },
                        Ghost(l_a),
                        Ghost(l_hi),
                        Ghost(al),
                        Ghost(None),
                        Ghost(pend),
                    );
                    proof {
                        assert(!listing_defines_label(out@, end_label)) by {
                            if listing_defines_label(out@, end_label) {
                                assert(listing_defines_label(out0, end_label) || end_label
                                    == true_label || end_label == false_label);
                                assert(end_label != true_label && end_label != false_label);
                                let i = choose|i: int|
                                    0 <= i < out0.len() && lir_line_label(#[trigger] out0[i])
                                        == Some(end_label);
                                assert(false);
                            }
                        }
                    }
                    push_label_line(
                        &mut out,
                        end_label,
                        Ghost(l_a),
                        Ghost(l_hi),
                        Ghost(al),
                        Ghost(None),
                        Ghost(pend),
                    );
                    proof {
                        assert forall|t: Label| pend.contains(t) implies listing_defines_label(
                            out@,
                            t,
                        ) by {}
                        lemma_part_to_ok(out@, l_a, l_hi, al, None, pend);
                        lemma_exit_any(out@, l_a, l_hi, al, exitg);
                    }
                    Ok((out, infix_symbol))
                },
            }
        },
        _ => {
            lower_exp_rest(checked_exp, lowering_global, exit_label)
        },
    }
}

/// A sequence element's symbols are among the sequence's.
proof fn lemma_cexps_member(s: Seq<CheckedExp>, k: int)
    requires
        0 <= k < s.len(),
    ensures
        cexp_symbols(s[k]).subset_of(cexps_symbols(s)),
    decreases s.len(),
{
    if k == s.len() - 1 {
        assert forall|x: Symbol| cexp_symbols(s[k]).contains(x) implies cexps_symbols(s).contains(
            x,
        ) by {}
    } else {
        lemma_cexps_member(s.drop_last(), k);
        assert(s.drop_last()[k] == s[k]);
        assert forall|x: Symbol| cexp_symbols(s[k]).contains(x) implies cexps_symbols(s).contains(
            x,
        ) by {
            assert(cexps_symbols(s.drop_last()).contains(x));
        }
    }
}

/// A record field expression's symbols are among the field list's.
proof fn lemma_cfields_member(s: Seq<(String, CheckedExp)>, k: int)
    requires
        0 <= k < s.len(),
    ensures
        cexp_symbols(s[k].1).subset_of(cfields_symbols(s)),
    decreases s.len(),
{
    if k == s.len() - 1 {
        assert forall|x: Symbol| cexp_symbols(s[k].1).contains(x) implies cfields_symbols(
            s,
        ).contains(x) by {}
    } else {
        lemma_cfields_member(s.drop_last(), k);
        assert(s.drop_last()[k] == s[k]);
        assert forall|x: Symbol| cexp_symbols(s[k].1).contains(x) implies cfields_symbols(
            s,
        ).contains(x) by {
            assert(cfields_symbols(s.drop_last()).contains(x));
        }
    }
}

/// A declaration's symbols are among the declaration list's.
proof fn lemma_cdecs_member(s: Seq<CheckedDec>, k: int)
    requires
        0 <= k < s.len(),
    ensures
        cdec_symbols(s[k]).subset_of(cdecs_symbols(s)),
    decreases s.len(),
{
    if k == s.len() - 1 {
        assert forall|x: Symbol| cdec_symbols(s[k]).contains(x) implies cdecs_symbols(s).contains(
            x,
        ) by {}
    } else {
        lemma_cdecs_member(s.drop_last(), k);
        assert(s.drop_last()[k] == s[k]);
        assert forall|x: Symbol| cdec_symbols(s[k]).contains(x) implies cdecs_symbols(s).contains(
            x,
        ) by {
            assert(cdecs_symbols(s.drop_last()).contains(x));
        }
    }
}

/// Lowers the structured and compound expressions: sequences, records,
/// conditionals, loops, lets and calls.
#[verifier::loop_isolation(false)]
#[verifier::rlimit(100)]
#[verifier::spinoff_prover]
fn lower_exp_rest(
    checked_exp: &CheckedExp,
    lowering_global: &mut LoweringGlobal,
    exit_label: Option<Label>,
) -> (r: Result<(Vec<LIRAssembly>, Symbol), TypeError>)
    requires
        old(lowering_global).wf(),
    ensures
        final(lowering_global).wf(),
        final(lowering_global).symbol_table == old(lowering_global).symbol_table,
        final(lowering_global).types == old(lowering_global).types,
        old(lowering_global).gen_sym.next() <= final(lowering_global).gen_sym.next(),
        old(lowering_global).gen_label.next() <= final(lowering_global).gen_label.next(),
        r matches Ok(p) ==> {
            let al = cexp_symbols(*checked_exp).union(
                syms_in_range(
                    old(lowering_global).gen_sym.next(),
                    final(lowering_global).gen_sym.next(),
                ),
            );
            lowered_ok(
                p.0@,
                old(lowering_global).gen_label.next(),
                final(lowering_global).gen_label.next(),
                al,
                exit_label,
            ) && al.contains(p.1)
        },
        checked_exp is IfThen ==> (r matches Ok(p) ==> exists|
            cond: Seq<LIRAssembly>,
            thn: Seq<LIRAssembly>,
            cs: Symbol,
            zs: Symbol,
            endl: Label,
        |
            if_then_shape(p.0@, cond, thn, cs, zs, endl)),
    decreases *checked_exp, 1int,
{
    let ghost l_a = lowering_global.gen_label.next();
    let ghost s_a = lowering_global.gen_sym.next();
    let ghost exitg = exit_label;
    let ghost nopend: Set<Label> = Set::empty();
    match checked_exp {
        CheckedExp::Sequence { sequence } => {
            let mut out: Vec<LIRAssembly> = Vec::new();
            let mut last_symbol: Option<Symbol> = None;
            let mut i: usize = 0;
            while i < sequence.len()
                invariant
                    i <= sequence@.len(),
                    lowering_global.wf(),
                    lowering_global.symbol_table == old(lowering_global).symbol_table,
                    lowering_global.types == old(lowering_global).types,
                    s_a <= lowering_global.gen_sym.next(),
                    l_a <= lowering_global.gen_label.next(),
                    lowered_ok(
                        out@,
                        l_a,
                        lowering_global.gen_label.next(),
                        cexp_symbols(*checked_exp).union(
                            syms_in_range(s_a, lowering_global.gen_sym.next()),
                        ),
                        None,
                    ),
                    match last_symbol {
                        Some(s) => cexp_symbols(*checked_exp).union(
                            syms_in_range(s_a, lowering_global.gen_sym.next()),
                        ).contains(s),
                        None => true,
                    },
                decreases sequence@.len() - i,
            {
                let ghost l_c0 = lowering_global.gen_label.next();
                let ghost s_c0 = lowering_global.gen_sym.next();
                let (exp_code, exp_symbol) = match lower_exp(&sequence[i], lowering_global, None) {
                    Ok(p) => p,
                    Err(e) => {
                        return Err(e);
                    },
                };
                let ghost l_c1 = lowering_global.gen_label.next();
                let ghost s_c1 = lowering_global.gen_sym.next();
                let ghost al_c = cexp_symbols(sequence@[i as int]).union(
                    syms_in_range(s_c0, s_c1),
                );
                let ghost al = cexp_symbols(*checked_exp).union(syms_in_range(s_a, s_c1));
                proof {
                    lemma_cexps_member(sequence@, i as int);
                    assert(al_c.subset_of(al)) by {
                        assert forall|s: Symbol| al_c.contains(s) implies al.contains(s) by {
                            if cexp_symbols(sequence@[i as int]).contains(s) {
                                assert(cexps_symbols(sequence@).contains(s));
                            }
                        }
                    }
                    let al_prev = cexp_symbols(*checked_exp).union(syms_in_range(s_a, s_c0));
                    lemma_al_widen(cexp_symbols(*checked_exp), s_a, s_c0, s_c1);
                    lemma_ok_to_part(out@, l_a, l_c0, al_prev, None, nopend);
                    lemma_lowered_widen(out@, l_a, l_c0, l_a, l_c0, al_prev, al, None, nopend);
                    lemma_ok_to_part(exp_code@, l_c0, l_c1, al_c, None, nopend);
                }
                append_code(
                    &mut out,
                    exp_code,
                    Ghost(l_a),
                    Ghost(l_c0),
                    Ghost(l_c1),
                    Ghost(al),
                    Ghost(al_c),
                    Ghost(al),
                    Ghost(None),
                    Ghost(nopend),
                );
                proof {
                    lemma_part_to_ok(out@, l_a, l_c1, al, None, nopend);
                }
                last_symbol = Some(exp_symbol);
                i = i + 1;
            }
            let final_symbol: Symbol = match last_symbol {
                Some(s) => s,
                None => {
                    if !lowering_global.gen_sym.has_room() {
                        return Err(TypeError("too many symbols"));
                    }
                    lowering_global.gen_sym.new_symbol()
                },
            };
            proof {
                let al = cexp_symbols(*checked_exp).union(
                    syms_in_range(s_a, lowering_global.gen_sym.next()),
                );
                lemma_ok_to_part(
                    out@,
                    l_a,
                    lowering_global.gen_label.next(),
                    cexp_symbols(*checked_exp).union(
                        syms_in_range(s_a, lowering_global.gen_sym.next()),
                    ),
                    None,
                    nopend,
                );
                lemma_part_to_ok(out@, l_a, lowering_global.gen_label.next(), al, None, nopend);
                lemma_exit_any(out@, l_a, lowering_global.gen_label.next(), al, exitg);
            }
            Ok((out, final_symbol))
        },
        CheckedExp::RecordCreate { fields } => {
            if !lowering_global.gen_sym.has_room() {
                return Err(TypeError("too many symbols"));
            }
            let record_symbol = lowering_global.gen_sym.new_symbol();
            if !lowering_global.gen_sym.has_room() {
                return Err(TypeError("too many symbols"));
            }
            let length_symbol = lowering_global.gen_sym.new_symbol();
            if (fields.len() as u64) >= 0x7fff_ffff_ffff_fffeu64 {
                return Err(TypeError("record too large"));
            }
            let mut out: Vec<LIRAssembly> = Vec::new();
            let ghost al0 = cexp_symbols(*checked_exp).union(
                syms_in_range(s_a, lowering_global.gen_sym.next()),
            );
            push_plain(
                &mut out,
                LIRInstruction::IntLit { assign_to: length_symbol, value: fields.len() as i64 },
                Ghost(l_a),
                Ghost(l_a),
                Ghost(al0),
                Ghost(None),
                Ghost(nopend),
            );
            let mut call_args: Vec<Symbol> = Vec::new();
            call_args.push(length_symbol);
            proof {
                assert(call_args@.to_set().insert(record_symbol).subset_of(al0)) by {
                    assert forall|s: Symbol| call_args@.to_set().insert(record_symbol).contains(
                        s,
                    ) implies al0.contains(s) by {
                        if s != record_symbol {
                            assert(call_args@.contains(s));
                            assert(s == length_symbol);
                        }
                    }
                }
            }
            push_plain(
                &mut out,
                LIRInstruction::Call {
                    assign_to: record_symbol,
                    function_name: Label::AllocateAndMemset,
                    args: call_args,
                },
                Ghost(l_a),
                Ghost(l_a),
                Ghost(al0),
                Ghost(None),
                Ghost(nopend),
            );
            let mut pos: usize = 0;
            while pos < fields.len()
                invariant
                    pos <= fields@.len(),
                    fields@.len() < 0x7fff_ffff_ffff_fffe,
                    lowering_global.wf(),
                    lowering_global.symbol_table == old(lowering_global).symbol_table,
                    lowering_global.types == old(lowering_global).types,
                    s_a <= lowering_global.gen_sym.next(),
                    l_a <= lowering_global.gen_label.next(),
                    cexp_symbols(*checked_exp).union(
                        syms_in_range(s_a, lowering_global.gen_sym.next()),
                    ).contains(record_symbol),
                    lowered_ok(
                        out@,
                        l_a,
                        lowering_global.gen_label.next(),
                        cexp_symbols(*checked_exp).union(
                            syms_in_range(s_a, lowering_global.gen_sym.next()),
                        ),
                        None,
                    ),
                decreases fields@.len() - pos,
            {
                let ghost l_c0 = lowering_global.gen_label.next();
                let ghost s_c0 = lowering_global.gen_sym.next();
                let (exp_code, exp_symbol) = match lower_exp(
                    &fields[pos].1,
                    lowering_global,
                    None,
                ) {
                    Ok(p) => p,
                    Err(e) => {
                        return Err(e);
                    },
                };
                let ghost l_c1 = lowering_global.gen_label.next();
                let ghost s_c1 = lowering_global.gen_sym.next();
                let ghost al_c = cexp_symbols(fields@[pos as int].1).union(
                    syms_in_range(s_c0, s_c1),
                );
                if !lowering_global.gen_sym.has_room() {
                    return Err(TypeError("too many symbols"));
                }
                let offset_symbol = lowering_global.gen_sym.new_symbol();
                let ghost al = cexp_symbols(*checked_exp).union(
                    syms_in_range(s_a, lowering_global.gen_sym.next()),
                );
                proof {
                    lemma_cfields_member(fields@, pos as int);
                    assert(al_c.subset_of(al)) by {
                        assert forall|s: Symbol| al_c.contains(s) implies al.contains(s) by {
                            if cexp_symbols(fields@[pos as int].1).contains(s) {
                                assert(cfields_symbols(fields@).contains(s));
                            }
                        }
                    }
                    let al_prev = cexp_symbols(*checked_exp).union(syms_in_range(s_a, s_c0));
                    lemma_ok_to_part(out@, l_a, l_c0, al_prev, None, nopend);
                    lemma_lowered_widen(out@, l_a, l_c0, l_a, l_c0, al_prev, al, None, nopend);
                    lemma_ok_to_part(exp_code@, l_c0, l_c1, al_c, None, nopend);
                    lemma_lowered_widen(exp_code@, l_c0, l_c1, l_c0, l_c1, al_c, al, None, nopend);
                }
                append_code(
                    &mut out,
                    exp_code,
                    Ghost(l_a),
                    Ghost(l_c0),
                    Ghost(l_c1),
                    Ghost(al),
                    Ghost(al),
                    Ghost(al),
                    Ghost(None),
                    Ghost(nopend),
                );
                push_plain(
                    &mut out,
                    LIRInstruction::IntLit { assign_to: offset_symbol, value: pos as i64 },
                    Ghost(l_a),
                    Ghost(l_c1),
                    Ghost(al),
                    Ghost(None),
                    Ghost(nopend),
                );
                push_plain(
                    &mut out,
                    LIRInstruction::StoreToMemoryAtOffset {
                        location: record_symbol,
                        offset: offset_symbol,
                        value: exp_symbol,
                    },
                    Ghost(l_a),
                    Ghost(l_c1),
                    Ghost(al),
                    Ghost(None),
                    Ghost(nopend),
                );
                proof {
                    lemma_part_to_ok(out@, l_a, l_c1, al, None, nopend);
                }
                pos = pos + 1;
            }
            proof {
                let al = cexp_symbols(*checked_exp).union(
                    syms_in_range(s_a, lowering_global.gen_sym.next()),
                );
                lemma_exit_any(out@, l_a, lowering_global.gen_label.next(), al, exitg);
            }
            Ok((out, record_symbol))
        },
        CheckedExp::Let { let_exp, in_exp } => {
            let mut out: Vec<LIRAssembly> = Vec::new();
            let mut i: usize = 0;
            while i < let_exp.len()
                invariant
                    i <= let_exp@.len(),
                    lowering_global.wf(),
                    lowering_global.symbol_table == old(lowering_global).symbol_table,
                    lowering_global.types == old(lowering_global).types,
                    s_a <= lowering_global.gen_sym.next(),
                    l_a <= lowering_global.gen_label.next(),
                    lowered_ok(
                        out@,
                        l_a,
                        lowering_global.gen_label.next(),
                        cexp_symbols(*checked_exp).union(
                            syms_in_range(s_a, lowering_global.gen_sym.next()),
                        ),
                        None,
                    ),
                decreases let_exp@.len() - i,
            {
                let ghost l_c0 = lowering_global.gen_label.next();
                let ghost s_c0 = lowering_global.gen_sym.next();
                match &let_exp[i] {
                    CheckedDec::VarDec { name, value } => {
                        let (value_code, value_symbol) = match lower_exp(
                            value,
                            lowering_global,
                            None,
                        ) {
                            Ok(p) => p,
                            Err(e) => {
                                return Err(e);
                            },
                        };
                        let ghost l_c1 = lowering_global.gen_label.next();
                        let ghost s_c1 = lowering_global.gen_sym.next();
                        let ghost al_c = cexp_symbols(*value).union(syms_in_range(s_c0, s_c1));
                        let ghost al = cexp_symbols(*checked_exp).union(
                            syms_in_range(s_a, s_c1),
                        );
                        proof {
                            lemma_cdecs_member(let_exp@, i as int);
                            assert(al_c.subset_of(al)) by {
                                assert forall|s: Symbol| al_c.contains(s) implies al.contains(
                                    s,
                                ) by {
                                    if cexp_symbols(*value).contains(s) {
                                        assert(cdec_symbols(let_exp@[i as int]).contains(s));
                                        assert(cdecs_symbols(let_exp@).contains(s));
                                    }
                                }
                            }
                            assert(al.contains(*name)) by {
                                assert(cdec_symbols(let_exp@[i as int]).contains(*name));
                                assert(cdecs_symbols(let_exp@).contains(*name));
                            }
                            let al_prev = cexp_symbols(*checked_exp).union(
                                syms_in_range(s_a, s_c0),
                            );
                            lemma_ok_to_part(out@, l_a, l_c0, al_prev, None, nopend);
                            lemma_lowered_widen(
                                out@,
                                l_a,
                                l_c0,
                                l_a,
                                l_c0,
                                al_prev,
                                al,
                                None,
                                nopend,
                            );
                            lemma_ok_to_part(value_code@, l_c0, l_c1, al_c, None, nopend);
                            lemma_lowered_widen(
                                value_code@,
                                l_c0,
                                l_c1,
                                l_c0,
                                l_c1,
                                al_c,
                                al,
                                None,
                                nopend,
                            );
                        }
                        append_code(
                            &mut out,
                            value_code,
                            Ghost(l_a),
                            Ghost(l_c0),
                            Ghost(l_c1),
                            Ghost(al),
                            Ghost(al),
                            Ghost(al),
                            Ghost(None),
                            Ghost(nopend),
                        );
                        push_plain(
                            &mut out,
                            LIRInstruction::Assign { assign_to: *name, id: value_symbol },
                            Ghost(l_a),
                            Ghost(l_c1),
                            Ghost(al),
                            Ghost(None),
                            Ghost(nopend),
                        );
                        proof {
                            lemma_part_to_ok(out@, l_a, l_c1, al, None, nopend);
                        }
                    },
                }
                i = i + 1;
            }
            let ghost l_m = lowering_global.gen_label.next();
            let ghost s_m = lowering_global.gen_sym.next();
            let (in_code, in_symbol) = match lower_exp(in_exp, lowering_global, None) {
                Ok(p) => p,
                Err(e) => {
                    return Err(e);
                },
            };
            let ghost l_e = lowering_global.gen_label.next();
            let ghost s_e = lowering_global.gen_sym.next();
            let ghost al_in = cexp_symbols(**in_exp).union(syms_in_range(s_m, s_e));
            let ghost al = cexp_symbols(*checked_exp).union(syms_in_range(s_a, s_e));
            proof {
                assert(al_in.subset_of(al)) by {
                    assert forall|s: Symbol| al_in.contains(s) implies al.contains(s) by {}
                }
                let al_prev = cexp_symbols(*checked_exp).union(syms_in_range(s_a, s_m));
                lemma_ok_to_part(out@, l_a, l_m, al_prev, None, nopend);
                lemma_lowered_widen(out@, l_a, l_m, l_a, l_m, al_prev, al, None, nopend);
                lemma_ok_to_part(in_code@, l_m, l_e, al_in, None, nopend);
            }
            append_code(
                &mut out,
                in_code,
                Ghost(l_a),
                Ghost(l_m),
                Ghost(l_e),
                Ghost(al),
                Ghost(al_in),
                Ghost(al),
                Ghost(None),
                Ghost(nopend),
            );
            proof {
                lemma_part_to_ok(out@, l_a, l_e, al, None, nopend);
                lemma_exit_any(out@, l_a, l_e, al, exitg);
            }
            Ok((out, in_symbol))
        },
        CheckedExp::Call { function_name, args } => {
            let mut out: Vec<LIRAssembly> = Vec::new();
            let mut arg_symbols: Vec<Symbol> = Vec::new();
            let mut i: usize = 0;
            while i < args.len()
                invariant
                    i <= args@.len(),
                    lowering_global.wf(),
                    lowering_global.symbol_table == old(lowering_global).symbol_table,
                    lowering_global.types == old(lowering_global).types,
                    s_a <= lowering_global.gen_sym.next(),
                    l_a <= lowering_global.gen_label.next(),
                    lowered_ok(
                        out@,
                        l_a,
                        lowering_global.gen_label.next(),
                        cexp_symbols(*checked_exp).union(
                            syms_in_range(s_a, lowering_global.gen_sym.next()),
                        ),
                        None,
                    ),
                    forall|k: int|
                        0 <= k < arg_symbols@.len() ==> cexp_symbols(*checked_exp).union(
                            syms_in_range(s_a, lowering_global.gen_sym.next()),
                        ).contains(#[trigger] arg_symbols@[k]),
                decreases args@.len() - i,
            {
                let ghost l_c0 = lowering_global.gen_label.next();
                let ghost s_c0 = lowering_global.gen_sym.next();
                let (arg_code, arg_symbol) = match lower_exp(&args[i], lowering_global, None) {
                    Ok(p) => p,
                    Err(e) => {
                        return Err(e);
                    },
                };
                let ghost l_c1 = lowering_global.gen_label.next();
                let ghost s_c1 = lowering_global.gen_sym.next();
                let ghost al_c = cexp_symbols(args@[i as int]).union(syms_in_range(s_c0, s_c1));
                let ghost al = cexp_symbols(*checked_exp).union(syms_in_range(s_a, s_c1));
                proof {
                    lemma_cexps_member(args@, i as int);
                    assert(al_c.subset_of(al)) by {
                        assert forall|s: Symbol| al_c.contains(s) implies al.contains(s) by {
                            if cexp_symbols(args@[i as int]).contains(s) {
                                assert(cexps_symbols(args@).contains(s));
                            }
                        }
                    }
                    let al_prev = cexp_symbols(*checked_exp).union(syms_in_range(s_a, s_c0));
                    lemma_ok_to_part(out@, l_a, l_c0, al_prev, None, nopend);
                    lemma_lowered_widen(out@, l_a, l_c0, l_a, l_c0, al_prev, al, None, nopend);
                    lemma_ok_to_part(arg_code@, l_c0, l_c1, al_c, None, nopend);
                    lemma_lowered_widen(arg_code@, l_c0, l_c1, l_c0, l_c1, al_c, al, None, nopend);
                }
                append_code(
                    &mut out,
                    arg_code,
                    Ghost(l_a),
                    Ghost(l_c0),
                    Ghost(l_c1),
                    Ghost(al),
                    Ghost(al),
                    Ghost(al),
                    Ghost(None),
                    Ghost(nopend),
                );
                proof {
                    lemma_part_to_ok(out@, l_a, l_c1, al, None, nopend);
                }
                arg_symbols.push(arg_symbol);
                i = i + 1;
            }
            if !lowering_global.gen_sym.has_room() {
                return Err(TypeError("too many symbols"));
            }
            let result_symbol = lowering_global.gen_sym.new_symbol();
            let ghost al = cexp_symbols(*checked_exp).union(
                syms_in_range(s_a, lowering_global.gen_sym.next()),
            );
            proof {
                let al_prev = cexp_symbols(*checked_exp).union(
                    syms_in_range(s_a, (lowering_global.gen_sym.next() - 1) as u64),
                );
                lemma_ok_to_part(
                    out@,
                    l_a,
                    lowering_global.gen_label.next(),
                    al_prev,
                    None,
                    nopend,
                );
                lemma_lowered_widen(
                    out@,
                    l_a,
                    lowering_global.gen_label.next(),
                    l_a,
                    lowering_global.gen_label.next(),
                    al_prev,
                    al,
                    None,
                    nopend,
                );
                assert(arg_symbols@.to_set().insert(result_symbol).subset_of(al)) by {
                    assert forall|s: Symbol| arg_symbols@.to_set().insert(
                        result_symbol,
                    ).contains(s) implies al.contains(s) by {
                        if s != result_symbol {
                            assert(arg_symbols@.contains(s));
                            let k = choose|k: int|
                                0 <= k < arg_symbols@.len() && (#[trigger] arg_symbols@[k]) == s;
                        }
                    }
                }
            }
            push_plain(
                &mut out,
                LIRInstruction::Call {
                    assign_to: result_symbol,
                    function_name: *function_name,
                    args: arg_symbols,
                },
                Ghost(l_a),
                Ghost(lowering_global.gen_label.next()),
                Ghost(al),
                Ghost(None),
                Ghost(nopend),
            );
            proof {
                lemma_part_to_ok(out@, l_a, lowering_global.gen_label.next(), al, None, nopend);
                lemma_exit_any(out@, l_a, lowering_global.gen_label.next(), al, exitg);
            }
            Ok((out, result_symbol))
        },
        _ => lower_exp_flow(checked_exp, lowering_global, exit_label),
    }
}

/// Lowers the control-flow expressions: conditionals and loops.
#[verifier::loop_isolation(false)]
#[verifier::rlimit(100)]
#[verifier::spinoff_prover]
fn lower_exp_flow(
    checked_exp: &CheckedExp,
    lowering_global: &mut LoweringGlobal,
    exit_label: Option<Label>,
) -> (r: Result<(Vec<LIRAssembly>, Symbol), TypeError>)
    requires
        old(lowering_global).wf(),
    ensures
        final(lowering_global).wf(),
        final(lowering_global).symbol_table == old(lowering_global).symbol_table,
        final(lowering_global).types == old(lowering_global).types,
        old(lowering_global).gen_sym.next() <= final(lowering_global).gen_sym.next(),
        old(lowering_global).gen_label.next() <= final(lowering_global).gen_label.next(),
        r matches Ok(p) ==> {
            let al = cexp_symbols(*checked_exp).union(
                syms_in_range(
                    old(lowering_global).gen_sym.next(),
                    final(lowering_global).gen_sym.next(),
                ),
            );
            lowered_ok(
                p.0@,
                old(lowering_global).gen_label.next(),
                final(lowering_global).gen_label.next(),
                al,
                exit_label,
            ) && al.contains(p.1)
        },
        checked_exp is IfThen ==> (r matches Ok(p) ==> exists|
            cond: Seq<LIRAssembly>,
            thn: Seq<LIRAssembly>,
            cs: Symbol,
            zs: Symbol,
            endl: Label,
        |
            if_then_shape(p.0@, cond, thn, cs, zs, endl)),
    decreases *checked_exp, 0int,
{
    let ghost l_a = lowering_global.gen_label.next();
    let ghost s_a = lowering_global.gen_sym.next();
    let ghost exitg = exit_label;
    let ghost nopend: Set<Label> = Set::empty();
    match checked_exp {
        CheckedExp::IfThen { if_exp, then_exp } => {
            if !lowering_global.gen_label.has_room() {
                return Err(TypeError("too many labels"));
            }
            let end_label = lowering_global.gen_label.new_label();
            let ghost pend: Set<Label> = set![end_label];
            let ghost l_b = lowering_global.gen_label.next();
            let (mut out, if_symbol) = match lower_exp(if_exp, lowering_global, None) {
                Ok(p) => p,
                Err(e) => {
                    return Err(e);
                },
            };
            let ghost cond_g = out@;
            let ghost l_c1 = lowering_global.gen_label.next();
            let ghost s_c1 = lowering_global.gen_sym.next();
            let ghost al_if = cexp_symbols(**if_exp).union(syms_in_range(s_a, s_c1));
            if !lowering_global.gen_sym.has_room() {
                return Err(TypeError("too many symbols"));
            }
            let zero_symbol = lowering_global.gen_sym.new_symbol();
            let ghost al1 = cexp_symbols(*checked_exp).union(
                syms_in_range(s_a, lowering_global.gen_sym.next()),
            );
            proof {
                assert(al_if.subset_of(al1)) by {
                    assert forall|s: Symbol| al_if.contains(s) implies al1.contains(s) by {}
                }
                lemma_ok_to_part(out@, l_b, l_c1, al_if, None, pend);
                lemma_lowered_widen(out@, l_b, l_c1, l_a, l_c1, al_if, al1, None, pend);
            }
            push_plain(
                &mut out,
                LIRInstruction::IntLit { assign_to: zero_symbol, value: 0 },
                Ghost(l_a),
                Ghost(l_c1),
                Ghost(al1),
                Ghost(None),
                Ghost(pend),
            );
            push_jump(
                &mut out,
                LIRInstruction::JumpC {
                    to: end_label,
                    condition: Comparison {
                        c: ComparisonType::Equal,
                        left: if_symbol,
                        right: zero_symbol,
                    },
                },
                Ghost(end_label),
                Ghost(l_a),
                Ghost(l_c1),
                Ghost(al1),
                Ghost(None),
                Ghost(pend),
            );
            let ghost out1 = out@;
            let ghost l_t0 = lowering_global.gen_label.next();
            let ghost s_t0 = lowering_global.gen_sym.next();
            let (then_code, then_symbol) = match lower_exp(then_exp, lowering_global, None) {
                Ok(p) => p,
                Err(e) => {
                    return Err(e);
                },
            };
            let ghost l_t1 = lowering_global.gen_label.next();
            let ghost s_t1 = lowering_global.gen_sym.next();
            let ghost al_then = cexp_symbols(**then_exp).union(syms_in_range(s_t0, s_t1));
            let ghost al = cexp_symbols(*checked_exp).union(syms_in_range(s_a, s_t1));
            proof {
                assert(al1.subset_of(al)) by {
                    assert forall|s: Symbol| al1.contains(s) implies al.contains(s) by {}
                }
                assert(al_then.subset_of(al)) by {
                    assert forall|s: Symbol| al_then.contains(s) implies al.contains(s) by {}
                }
                lemma_lowered_widen(out@, l_a, l_c1, l_a, l_t0, al1, al, None, pend);
                lemma_ok_to_part(then_code@, l_t0, l_t1, al_then, None, pend);
                lemma_lowered_widen(then_code@, l_t0, l_t1, l_t0, l_t1, al_then, al, None, pend);
            }
            let ghost then_g = then_code@;
            append_code(
                &mut out,
                then_code,
                Ghost(l_a),
                Ghost(l_t0),
                Ghost(l_t1),
                Ghost(al),
                Ghost(al),
                Ghost(al),
                Ghost(None),
                Ghost(pend),
            );
            proof {
                assert(!listing_defines_label(out@, end_label)) by {
                    if listing_defines_label(out@, end_label) {
                        assert(listing_defines_label(out1, end_label) || listing_defines_label(
                            then_code@,
                            end_label,
                        ));
                        if listing_defines_label(out1, end_label) {
                            let i = choose|i: int|
                                0 <= i < out1.len() && lir_line_label(#[trigger] out1[i]) == Some(
                                    end_label,
                                );
                            assert(false);
                        } else {
                            let i = choose|i: int|
                                0 <= i < then_code@.len() && lir_line_label(
                                    #[trigger] then_code@[i],
                                ) == Some(end_label);
                            assert(false);
                        }
                    }
                }
            }
            push_label_line(
                &mut out,
                end_label,
                Ghost(l_a),
                Ghost(l_t1),
                Ghost(al),
                Ghost(None),
                Ghost(pend),
            );
            proof {
                assert forall|t: Label| pend.contains(t) implies listing_defines_label(
                    out@,
                    t,
                ) by {}
                lemma_part_to_ok(out@, l_a, l_t1, al, None, pend);
                lemma_exit_any(out@, l_a, l_t1, al, exitg);
                assert(out@ =~= cond_g + seq![
                    LIRAssembly::Instruction(
                        LIRInstruction::IntLit { assign_to: zero_symbol, value: 0 },
                    ),
                    LIRAssembly::Instruction(
                        LIRInstruction::JumpC {
                            to: end_label,
                            condition: Comparison {
                                c: ComparisonType::Equal,
                                left: if_symbol,
                                right: zero_symbol,
                            },
                        },
                    ),
                ] + then_g + seq![LIRAssembly::Label(end_label)]);
                assert(if_then_shape(
                    out@,
                    cond_g,
                    then_g,
                    if_symbol,
                    zero_symbol,
                    end_label,
                ));
            }
            Ok((out, then_symbol))
        },
        CheckedExp::While { while_exp, do_exp } => {
            if !lowering_global.gen_label.has_room() {
                return Err(TypeError("too many labels"));
            }
            let do_label = lowering_global.gen_label.new_label();
            if !lowering_global.gen_label.has_room() {
                return Err(TypeError("too many labels"));
            }
            let condition_label = lowering_global.gen_label.new_label();
            if !lowering_global.gen_label.has_room() {
                return Err(TypeError("too many labels"));
            }
            let end_label = lowering_global.gen_label.new_label();
            let ghost pend: Set<Label> = set![do_label, condition_label, end_label];
            let ghost l_b = lowering_global.gen_label.next();
            let mut out: Vec<LIRAssembly> = Vec::new();
            let ghost out_init = out@;
            let ghost al0 = cexp_symbols(*checked_exp).union(
                syms_in_range(s_a, lowering_global.gen_sym.next()),
            );
            push_jump(
                &mut out,
                LIRInstruction::Jump { to: condition_label },
                Ghost(condition_label),
                Ghost(l_a),
                Ghost(l_b),
                Ghost(al0),
                Ghost(None),
                Ghost(pend),
            );
            let ghost out0 = out@;
            proof {
                assert(!listing_defines_label(out0, do_label)) by {
                    if listing_defines_label(out0, do_label) {
                        assert(listing_defines_label(out_init, do_label));
                        let i = choose|i: int|
                            0 <= i < out_init.len() && lir_line_label(#[trigger] out_init[i])
                                == Some(do_label);
                        assert(false);
                    }
                }
            }
            push_label_line(
                &mut out,
                do_label,
                Ghost(l_a),
                Ghost(l_b),
                Ghost(al0),
                Ghost(None),
                Ghost(pend),
            );
            let ghost out1 = out@;
            let ghost l_d0 = lowering_global.gen_label.next();
            let ghost s_d0 = lowering_global.gen_sym.next();
            let (do_code, do_symbol) = match lower_exp(do_exp, lowering_global, Some(end_label)) {
                Ok(p) => p,
                Err(e) => {
                    return Err(e);
                },
            };
            let ghost l_d1 = lowering_global.gen_label.next();
            let ghost s_d1 = lowering_global.gen_sym.next();
            let ghost al_do = cexp_symbols(**do_exp).union(syms_in_range(s_d0, s_d1));
            let ghost al2 = cexp_symbols(*checked_exp).union(syms_in_range(s_a, s_d1));
            proof {
                assert(al0.subset_of(al2)) by {
                    assert forall|s: Symbol| al0.contains(s) implies al2.contains(s) by {}
                }
                assert(al_do.subset_of(al2)) by {
                    assert forall|s: Symbol| al_do.contains(s) implies al2.contains(s) by {}
                }
                lemma_lowered_widen(out@, l_a, l_b, l_a, l_d0, al0, al2, None, pend);
                lemma_retarget(do_code@, l_d0, l_d1, al_do, end_label, None, pend);
                lemma_lowered_widen(do_code@, l_d0, l_d1, l_d0, l_d1, al_do, al2, None, pend);
            }
            append_code(
                &mut out,
                do_code,
                Ghost(l_a),
                Ghost(l_d0),
                Ghost(l_d1),
                Ghost(al2),
                Ghost(al2),
                Ghost(al2),
                Ghost(None),
                Ghost(pend),
            );
            proof {
                assert(!listing_defines_label(out@, condition_label)) by {
                    if listing_defines_label(out@, condition_label) {
                        assert(listing_defines_label(out1, condition_label)
                            || listing_defines_label(do_code@, condition_label));
                        if listing_defines_label(out1, condition_label) {
                            assert(listing_defines_label(out0, condition_label)
                                || condition_label == do_label);
                            if listing_defines_label(out0, condition_label) {
                                assert(listing_defines_label(out_init, condition_label));
                                let i = choose|i: int|
                                    0 <= i < out_init.len() && lir_line_label(
                                        #[trigger] out_init[i],
                                    ) == Some(condition_label);
                                assert(false);
                            }
                            assert(false);
                        } else {
                            let i = choose|i: int|
                                0 <= i < do_code@.len() && lir_line_label(#[trigger] do_code@[i])
                                    == Some(condition_label);
                            assert(false);
                        }
                    }
                }
            }
            push_label_line(
                &mut out,
                condition_label,
                Ghost(l_a),
                Ghost(l_d1),
                Ghost(al2),
                Ghost(None),
                Ghost(pend),
            );
            let ghost out2 = out@;
            proof {
                assert(listing_defines_label(out2, do_label));
                assert(listing_defines_label(out2, condition_label));
            }
            let ghost l_w0 = lowering_global.gen_label.next();
            let ghost s_w0 = lowering_global.gen_sym.next();
            let (cond_code, condition_symbol) = match lower_exp(
                while_exp,
                lowering_global,
                Some(end_label),
            ) {
                Ok(p) => p,
                Err(e) => {
                    return Err(e);
                },
            };
            let ghost l_w1 = lowering_global.gen_label.next();
            let ghost s_w1 = lowering_global.gen_sym.next();
            let ghost al_w = cexp_symbols(**while_exp).union(syms_in_range(s_w0, s_w1));
            if !lowering_global.gen_sym.has_room() {
                return Err(TypeError("too many symbols"));
            }
            let zero_symbol = lowering_global.gen_sym.new_symbol();
            let ghost al = cexp_symbols(*checked_exp).union(
                syms_in_range(s_a, lowering_global.gen_sym.next()),
            );
            proof {
                assert(al2.subset_of(al)) by {
                    assert forall|s: Symbol| al2.contains(s) implies al.contains(s) by {}
                }
                assert(al_w.subset_of(al)) by {
                    assert forall|s: Symbol| al_w.contains(s) implies al.contains(s) by {}
                }
                lemma_lowered_widen(out@, l_a, l_d1, l_a, l_w0, al2, al, None, pend);
                lemma_retarget(cond_code@, l_w0, l_w1, al_w, end_label, None, pend);
                lemma_lowered_widen(cond_code@, l_w0, l_w1, l_w0, l_w1, al_w, al, None, pend);
            }
            append_code(
                &mut out,
                cond_code,
                Ghost(l_a),
                Ghost(l_w0),
                Ghost(l_w1),
                Ghost(al),
                Ghost(al),
                Ghost(al),
                Ghost(None),
                Ghost(pend),
            );
            push_plain(
                &mut out,
                LIRInstruction::IntLit { assign_to: zero_symbol, value: 0 },
                Ghost(l_a),
                Ghost(l_w1),
                Ghost(al),
                Ghost(None),
                Ghost(pend),
            );
            push_jump(
                &mut out,
                LIRInstruction::JumpC {
                    to: do_label,
                    condition: Comparison {
                        c: ComparisonType::NotEqual,
                        left: condition_symbol,
                        right: zero_symbol,
                    },
                },
                Ghost(do_label),
                Ghost(l_a),
                Ghost(l_w1),
                Ghost(al),
                Ghost(None),
                Ghost(pend),
            );
            proof {
                assert(!listing_defines_label(out@, end_label)) by {
                    if listing_defines_label(out@, end_label) {
                        assert(listing_defines_label(out2, end_label) || listing_defines_label(
                            cond_code@,
                            end_label,
                        ));
                        if listing_defines_label(out2, end_label) {
                            assert(listing_defines_label(out1, end_label)
                                || listing_defines_label(do_code@, end_label) || end_label
                                == condition_label);
                            if listing_defines_label(out1, end_label) {
                                assert(listing_defines_label(out0, end_label) || end_label
                                    == do_label);
                                if listing_defines_label(out0, end_label) {
                                    assert(listing_defines_label(out_init, end_label));
                                    let i = choose|i: int|
                                        0 <= i < out_init.len() && lir_line_label(
                                            #[trigger] out_init[i],
                                        ) == Some(end_label);
                                    assert(false);
                                }
                                assert(false);
                            } else if listing_defines_label(do_code@, end_label) {
                                let i = choose|i: int|
                                    0 <= i < do_code@.len() && lir_line_label(
                                        #[trigger] do_code@[i],
                                    ) == Some(end_label);
                                assert(false);
                            } else {
                                assert(false);
                            }
                        } else {
                            let i = choose|i: int|
                                0 <= i < cond_code@.len() && lir_line_label(
                                    #[trigger] cond_code@[i],
                                ) == Some(end_label);
                            assert(false);
                        }
                    }
                }
            }
            push_label_line(
                &mut out,
                end_label,
                Ghost(l_a),
                Ghost(l_w1),
                Ghost(al),
                Ghost(None),
                Ghost(pend),
            );
            proof {
                assert forall|t: Label| pend.contains(t) implies listing_defines_label(
                    out@,
                    t,
                ) by {
                    assert(listing_defines_label(out@, end_label));
                    assert(listing_defines_label(out@, condition_label));
                    assert(listing_defines_label(out@, do_label));
                }
                lemma_part_to_ok(out@, l_a, l_w1, al, None, pend);
                lemma_exit_any(out@, l_a, l_w1, al, exitg);
            }
            Ok((out, do_symbol))
        },
        CheckedExp::IfThenElse { if_exp, then_exp, else_exp } => {
            if !lowering_global.gen_label.has_room() {
                return Err(TypeError("too many labels"));
            }
            let true_label = lowering_global.gen_label.new_label();
            if !lowering_global.gen_label.has_room() {
                return Err(TypeError("too many labels"));
            }
            let false_label = lowering_global.gen_label.new_label();
            if !lowering_global.gen_label.has_room() {
                return Err(TypeError("too many labels"));
            }
            let end_label = lowering_global.gen_label.new_label();
            let ghost pend: Set<Label> = set![true_label, false_label, end_label];
            let ghost l_b = lowering_global.gen_label.next();
            let mut out: Vec<LIRAssembly> = Vec::new();
            let ghost out_init = out@;
            let ghost l_c0 = lowering_global.gen_label.next();
            let ghost s_c0 = lowering_global.gen_sym.next();
            let (if_code, if_symbol) = match lower_exp(if_exp, lowering_global, None) {
                Ok(p) => p,
                Err(e) => {
                    return Err(e);
                },
            };
            let ghost l_c1 = lowering_global.gen_label.next();
            let ghost s_c1 = lowering_global.gen_sym.next();
            let ghost al_if = cexp_symbols(**if_exp).union(syms_in_range(s_c0, s_c1));
            if !lowering_global.gen_sym.has_room() {
                return Err(TypeError("too many symbols"));
            }
            let result_symbol = lowering_global.gen_sym.new_symbol();
            if !lowering_global.gen_sym.has_room() {
                return Err(TypeError("too many symbols"));
            }
            let zero_symbol = lowering_global.gen_sym.new_symbol();
            let ghost al1 = cexp_symbols(*checked_exp).union(
                syms_in_range(s_a, lowering_global.gen_sym.next()),
            );
            proof {
                assert(al_if.subset_of(al1)) by {
                    assert forall|s: Symbol| al_if.contains(s) implies al1.contains(s) by {}
                }
                lemma_ok_to_part(if_code@, l_c0, l_c1, al_if, None, pend);
                lemma_lowered_widen(if_code@, l_c0, l_c1, l_a, l_c1, al_if, al1, None, pend);
                lemma_ok_to_part(out_init, l_a, l_a, al1, None, pend);
            }
            let mut out = if_code;
            push_plain(
                &mut out,
                LIRInstruction::IntLit { assign_to: zero_symbol, value: 0 },
                Ghost(l_a),
                Ghost(l_c1),
                Ghost(al1),
                Ghost(None),
                Ghost(pend),
            );
            push_jump(
                &mut out,
                LIRInstruction::JumpC {
                    to: true_label,
                    condition: Comparison {
                        c: ComparisonType::NotEqual,
                        left: if_symbol,
                        right: zero_symbol,
                    },
                },
                Ghost(true_label),
                Ghost(l_a),
                Ghost(l_c1),
                Ghost(al1),
                Ghost(None),
                Ghost(pend),
            );
            push_jump(
                &mut out,
                LIRInstruction::Jump { to: false_label },
                Ghost(false_label),
                Ghost(l_a),
                Ghost(l_c1),
                Ghost(al1),
                Ghost(None),
                Ghost(pend),
            );
            proof {
                assert(!listing_defines_label(out@, true_label)) by {
                    if listing_defines_label(out@, true_label) {
                        assert(listing_defines_label(if_code@, true_label));
                        let i = choose|i: int|
                            0 <= i < if_code@.len() && lir_line_label(#[trigger] if_code@[i])
                                == Some(true_label);
                        assert(false);
                    }
                }
            }
            push_label_line(
                &mut out,
                true_label,
                Ghost(l_a),
                Ghost(l_c1),
                Ghost(al1),
                Ghost(None),
                Ghost(pend),
            );
            let ghost out1 = out@;
            let ghost l_t0 = lowering_global.gen_label.next();
            let ghost s_t0 = lowering_global.gen_sym.next();
            let (then_code, then_symbol) = match lower_exp(then_exp, lowering_global, None) {
                Ok(p) => p,
                Err(e) => {
                    return Err(e);
                },
            };
            let ghost l_t1 = lowering_global.gen_label.next();
            let ghost s_t1 = lowering_global.gen_sym.next();
            let ghost al_then = cexp_symbols(**then_exp).union(syms_in_range(s_t0, s_t1));
            let ghost al2 = cexp_symbols(*checked_exp).union(syms_in_range(s_a, s_t1));
            proof {
                assert(al1.subset_of(al2)) by {
                    assert forall|s: Symbol| al1.contains(s) implies al2.contains(s) by {}
                }
                assert(al_then.subset_of(al2)) by {
                    assert forall|s: Symbol| al_then.contains(s) implies al2.contains(s) by {}
                }
                lemma_lowered_widen(out@, l_a, l_c1, l_a, l_t0, al1, al2, None, pend);
                lemma_ok_to_part(then_code@, l_t0, l_t1, al_then, None, pend);
                lemma_lowered_widen(then_code@, l_t0, l_t1, l_t0, l_t1, al_then, al2, None, pend);
            }
            append_code(
                &mut out,
                then_code,
                Ghost(l_a),
                Ghost(l_t0),
                Ghost(l_t1),
                Ghost(al2),
                Ghost(al2),
                Ghost(al2),
                Ghost(None),
                Ghost(pend),
            );
            push_plain(
                &mut out,
                LIRInstruction::Assign { assign_to: result_symbol, id: then_symbol },
                Ghost(l_a),
                Ghost(l_t1),
                Ghost(al2),
                Ghost(None),
                Ghost(pend),
            );
            push_jump(
                &mut out,
                LIRInstruction::Jump { to: end_label },
                Ghost(end_label),
                Ghost(l_a),
                Ghost(l_t1),
                Ghost(al2),
                Ghost(None),
                Ghost(pend),
            );
            proof {
                assert(!listing_defines_label(out@, false_label)) by {
                    if listing_defines_label(out@, false_label) {
                        assert(listing_defines_label(out1, false_label) || listing_defines_label(
                            then_code@,
                            false_label,
                        ));
                        if listing_defines_label(out1, false_label) {
                            assert(listing_defines_label(if_code@, false_label) || false_label
                                == true_label);
                            assert(listing_defines_label(if_code@, false_label));
                            let i = choose|i: int|
                                0 <= i < if_code@.len() && lir_line_label(#[trigger] if_code@[i])
                                    == Some(false_label);
                            assert(false);
                        } else {
                            let i = choose|i: int|
                                0 <= i < then_code@.len() && lir_line_label(
                                    #[trigger] then_code@[i],
                                ) == Some(false_label);
                            assert(false);
                        }
                    }
                }
            }
            push_label_line(
                &mut out,
                false_label,
                Ghost(l_a),
                Ghost(l_t1),
                Ghost(al2),
                Ghost(None),
                Ghost(pend),
            );
            let ghost out2 = out@;
            let ghost l_e0 = lowering_global.gen_label.next();
            let ghost s_e0 = lowering_global.gen_sym.next();
            let (else_code, else_symbol) = match lower_exp(else_exp, lowering_global, None) {
                Ok(p) => p,
                Err(e) => {
                    return Err(e);
                },
            };
            let ghost l_e1 = lowering_global.gen_label.next();
            let ghost s_e1 = lowering_global.gen_sym.next();
            let ghost al_else = cexp_symbols(**else_exp).union(syms_in_range(s_e0, s_e1));
            let ghost al = cexp_symbols(*checked_exp).union(syms_in_range(s_a, s_e1));
            proof {
                assert(al2.subset_of(al)) by {
                    assert forall|s: Symbol| al2.contains(s) implies al.contains(s) by {}
                }
                assert(al_else.subset_of(al)) by {
                    assert forall|s: Symbol| al_else.contains(s) implies al.contains(s) by {}
                }
                lemma_lowered_widen(out@, l_a, l_t1, l_a, l_e0, al2, al, None, pend);
                lemma_ok_to_part(else_code@, l_e0, l_e1, al_else, None, pend);
                lemma_lowered_widen(else_code@, l_e0, l_e1, l_e0, l_e1, al_else, al, None, pend);
            }
            append_code(
                &mut out,
                else_code,
                Ghost(l_a),
                Ghost(l_e0),
                Ghost(l_e1),
                Ghost(al),
                Ghost(al),
                Ghost(al),
                Ghost(None),
                Ghost(pend),
            );
            push_plain(
                &mut out,
                LIRInstruction::Assign { assign_to: result_symbol, id: else_symbol },
                Ghost(l_a),
                Ghost(l_e1),
                Ghost(al),
                Ghost(None),
                Ghost(pend),
            );
            proof {
                assert(!listing_defines_label(out@, end_label)) by {
                    if listing_defines_label(out@, end_label) {
                        assert(listing_defines_label(out2, end_label) || listing_defines_label(
                            else_code@,
                            end_label,
                        ));
                        if listing_defines_label(out2, end_label) {
                            assert(listing_defines_label(out1, end_label) || listing_defines_label(
                                then_code@,
                                end_label,
                            ) || end_label == false_label);
                            if listing_defines_label(out1, end_label) {
                                assert(listing_defines_label(if_code@, end_label) || end_label
                                    == true_label);
                                assert(listing_defines_label(if_code@, end_label));
                                let i = choose|i: int|
                                    0 <= i < if_code@.len() && lir_line_label(
                                        #[trigger] if_code@[i],
                                    ) == Some(end_label);
                                assert(false);
                            } else if listing_defines_label(then_code@, end_label) {
                                let i = choose|i: int|
                                    0 <= i < then_code@.len() && lir_line_label(
                                        #[trigger] then_code@[i],
                                    ) == Some(end_label);
                                assert(false);
                            } else {
                                assert(false);
                            }
                        } else {
                            let i = choose|i: int|
                                0 <= i < else_code@.len() && lir_line_label(
                                    #[trigger] else_code@[i],
                                ) == Some(end_label);
                            assert(false);
                        }
                    }
                }
            }
            push_label_line(
                &mut out,
                end_label,
                Ghost(l_a),
                Ghost(l_e1),
                Ghost(al),
                Ghost(None),
                Ghost(pend),
            );
            proof {
                assert forall|t: Label| pend.contains(t) implies listing_defines_label(
                    out@,
                    t,
                ) by {
                    assert(listing_defines_label(out@, end_label));
                    assert(listing_defines_label(out@, false_label));
                    assert(listing_defines_label(out@, true_label));
                }
                lemma_part_to_ok(out@, l_a, l_e1, al, None, pend);
                lemma_exit_any(out@, l_a, l_e1, al, exitg);
            }
            Ok((out, result_symbol))
        },
        CheckedExp::For { id, for_exp, to_exp, do_exp } => {
            if !lowering_global.gen_label.has_room() {
                return Err(TypeError("too many labels"));
            }
            let head_label = lowering_global.gen_label.new_label();
            if !lowering_global.gen_label.has_room() {
                return Err(TypeError("too many labels"));
            }
            let end_label = lowering_global.gen_label.new_label();
            let ghost pend: Set<Label> = set![head_label, end_label];
            let ghost l_b = lowering_global.gen_label.next();
            if !lowering_global.gen_sym.has_room() {
                return Err(TypeError("too many symbols"));
            }
            let one_symbol = lowering_global.gen_sym.new_symbol();
            let mut out: Vec<LIRAssembly> = Vec::new();
            let ghost out_init = out@;
            let ghost al0 = cexp_symbols(*checked_exp).union(
                syms_in_range(s_a, lowering_global.gen_sym.next()),
            );
            push_plain(
                &mut out,
                LIRInstruction::IntLit { assign_to: one_symbol, value: 1 },
                Ghost(l_a),
                Ghost(l_b),
                Ghost(al0),
                Ghost(None),
                Ghost(pend),
            );
            let ghost l_f0 = lowering_global.gen_label.next();
            let ghost s_f0 = lowering_global.gen_sym.next();
            let (for_code, for_symbol) = match lower_exp(
                for_exp,
                lowering_global,
                Some(end_label),
            ) {
                Ok(p) => p,
                Err(e) => {
                    return Err(e);
                },
            };
            let ghost l_f1 = lowering_global.gen_label.next();
            let ghost s_f1 = lowering_global.gen_sym.next();
            let ghost al_for = cexp_symbols(**for_exp).union(syms_in_range(s_f0, s_f1));
            let ghost al1 = cexp_symbols(*checked_exp).union(syms_in_range(s_a, s_f1));
            proof {
                assert(al0.subset_of(al1)) by {
                    assert forall|s: Symbol| al0.contains(s) implies al1.contains(s) by {}
                }
                assert(al_for.subset_of(al1)) by {
                    assert forall|s: Symbol| al_for.contains(s) implies al1.contains(s) by {}
                }
                assert(al1.contains(*id));
                lemma_lowered_widen(out@, l_a, l_b, l_a, l_f0, al0, al1, None, pend);
                lemma_retarget(for_code@, l_f0, l_f1, al_for, end_label, None, pend);
                lemma_lowered_widen(for_code@, l_f0, l_f1, l_f0, l_f1, al_for, al1, None, pend);
            }
            append_code(
                &mut out,
                for_code,
                Ghost(l_a),
                Ghost(l_f0),
                Ghost(l_f1),
                Ghost(al1),
                Ghost(al1),
                Ghost(al1),
                Ghost(None),
                Ghost(pend),
            );
            push_plain(
                &mut out,
                LIRInstruction::Assign { assign_to: *id, id: for_symbol },
                Ghost(l_a),
                Ghost(l_f1),
                Ghost(al1),
                Ghost(None),
                Ghost(pend),
            );
            let ghost out1 = out@;
            let ghost l_t0 = lowering_global.gen_label.next();
            let ghost s_t0 = lowering_global.gen_sym.next();
            let (to_code, to_symbol) = match lower_exp(to_exp, lowering_global, Some(end_label)) {
                Ok(p) => p,
                Err(e) => {
                    return Err(e);
                },
            };
            let ghost l_t1 = lowering_global.gen_label.next();
            let ghost s_t1 = lowering_global.gen_sym.next();
            let ghost al_to = cexp_symbols(**to_exp).union(syms_in_range(s_t0, s_t1));
            let ghost al2 = cexp_symbols(*checked_exp).union(syms_in_range(s_a, s_t1));
            proof {
                assert(al1.subset_of(al2)) by {
                    assert forall|s: Symbol| al1.contains(s) implies al2.contains(s) by {}
                }
                assert(al_to.subset_of(al2)) by {
                    assert forall|s: Symbol| al_to.contains(s) implies al2.contains(s) by {}
                }
                lemma_lowered_widen(out@, l_a, l_f1, l_a, l_t0, al1, al2, None, pend);
                lemma_retarget(to_code@, l_t0, l_t1, al_to, end_label, None, pend);
                lemma_lowered_widen(to_code@, l_t0, l_t1, l_t0, l_t1, al_to, al2, None, pend);
            }
            append_code(
                &mut out,
                to_code,
                Ghost(l_a),
                Ghost(l_t0),
                Ghost(l_t1),
                Ghost(al2),
                Ghost(al2),
                Ghost(al2),
                Ghost(None),
                Ghost(pend),
            );
            proof {
                assert(!listing_defines_label(out@, head_label)) by {
                    if listing_defines_label(out@, head_label) {
                        assert(listing_defines_label(out1, head_label) || listing_defines_label(
                            to_code@,
                            head_label,
                        ));
                        if listing_defines_label(out1, head_label) {
                            assert(listing_defines_label(out_init, head_label)
                                || listing_defines_label(for_code@, head_label));
                            if listing_defines_label(for_code@, head_label) {
                                let i = choose|i: int|
                                    0 <= i < for_code@.len() && lir_line_label(
                                        #[trigger] for_code@[i],
                                    ) == Some(head_label);
                                assert(false);
                            } else {
                                let i = choose|i: int|
                                    0 <= i < out_init.len() && lir_line_label(
                                        #[trigger] out_init[i],
                                    ) == Some(head_label);
                                assert(false);
                            }
                        } else {
                            let i = choose|i: int|
                                0 <= i < to_code@.len() && lir_line_label(#[trigger] to_code@[i])
                                    == Some(head_label);
                            assert(false);
                        }
                    }
                }
            }
            push_label_line(
                &mut out,
                head_label,
                Ghost(l_a),
                Ghost(l_t1),
                Ghost(al2),
                Ghost(None),
                Ghost(pend),
            );
            let ghost out2 = out@;
            push_jump(
                &mut out,
                LIRInstruction::JumpC {
                    to: end_label,
                    condition: Comparison {
                        c: ComparisonType::GreaterThan,
                        left: *id,
                        right: to_symbol,
                    },
                },
                Ghost(end_label),
                Ghost(l_a),
                Ghost(l_t1),
                Ghost(al2),
                Ghost(None),
                Ghost(pend),
            );
            let ghost out3 = out@;
            let ghost l_d0 = lowering_global.gen_label.next();
            let ghost s_d0 = lowering_global.gen_sym.next();
            let (do_code, _do_symbol) = match lower_exp(do_exp, lowering_global, Some(end_label)) {
                Ok(p) => p,
                Err(e) => {
                    return Err(e);
                },
            };
            let ghost l_d1 = lowering_global.gen_label.next();
            let ghost s_d1 = lowering_global.gen_sym.next();
            let ghost al_do = cexp_symbols(**do_exp).union(syms_in_range(s_d0, s_d1));
            let ghost al = cexp_symbols(*checked_exp).union(syms_in_range(s_a, s_d1));
            proof {
                assert(al2.subset_of(al)) by {
                    assert forall|s: Symbol| al2.contains(s) implies al.contains(s) by {}
                }
                assert(al_do.subset_of(al)) by {
                    assert forall|s: Symbol| al_do.contains(s) implies al.contains(s) by {}
                }
                lemma_lowered_widen(out@, l_a, l_t1, l_a, l_d0, al2, al, None, pend);
                lemma_retarget(do_code@, l_d0, l_d1, al_do, end_label, None, pend);
                lemma_lowered_widen(do_code@, l_d0, l_d1, l_d0, l_d1, al_do, al, None, pend);
            }
            append_code(
                &mut out,
                do_code,
                Ghost(l_a),
                Ghost(l_d0),
                Ghost(l_d1),
                Ghost(al),
                Ghost(al),
                Ghost(al),
                Ghost(None),
                Ghost(pend),
            );
            push_plain(
                &mut out,
                LIRInstruction::BinaryOp {
                    assign_to: *id,
                    left: *id,
                    op: InfixOp::Add,
                    right: one_symbol,
                },
                Ghost(l_a),
                Ghost(l_d1),
                Ghost(al),
                Ghost(None),
                Ghost(pend),
            );
            push_jump(
                &mut out,
                LIRInstruction::Jump { to: head_label },
                Ghost(head_label),
                Ghost(l_a),
                Ghost(l_d1),
                Ghost(al),
                Ghost(None),
                Ghost(pend),
            );
            proof {
                assert(!listing_defines_label(out@, end_label)) by {
                    if listing_defines_label(out@, end_label) {
                        assert(listing_defines_label(out3, end_label) || listing_defines_label(
                            do_code@,
                            end_label,
                        ));
                        if listing_defines_label(out3, end_label) {
                            assert(listing_defines_label(out2, end_label));
                            assert(listing_defines_label(out1, end_label) || listing_defines_label(
                                to_code@,
                                end_label,
                            ) || end_label == head_label);
                            if listing_defines_label(out1, end_label) {
                                assert(listing_defines_label(out_init, end_label)
                                    || listing_defines_label(for_code@, end_label));
                                if listing_defines_label(for_code@, end_label) {
                                    let i = choose|i: int|
                                        0 <= i < for_code@.len() && lir_line_label(
                                            #[trigger] for_code@[i],
                                        ) == Some(end_label);
                                    assert(false);
                                } else {
                                    let i = choose|i: int|
                                        0 <= i < out_init.len() && lir_line_label(
                                            #[trigger] out_init[i],
                                        ) == Some(end_label);
                                    assert(false);
                                }
                            } else if listing_defines_label(to_code@, end_label) {
                                let i = choose|i: int|
                                    0 <= i < to_code@.len() && lir_line_label(
                                        #[trigger] to_code@[i],
                                    ) == Some(end_label);
                                assert(false);
                            } else {
                                assert(false);
                            }
                        } else {
                            let i = choose|i: int|
                                0 <= i < do_code@.len() && lir_line_label(#[trigger] do_code@[i])
                                    == Some(end_label);
                            assert(false);
                        }
                    }
                }
            }
            push_label_line(
                &mut out,
                end_label,
                Ghost(l_a),
                Ghost(l_d1),
                Ghost(al),
                Ghost(None),
                Ghost(pend),
            );
            if !lowering_global.gen_sym.has_room() {
                return Err(TypeError("too many symbols"));
            }
            let result_symbol = lowering_global.gen_sym.new_symbol();
            let ghost al_fin = cexp_symbols(*checked_exp).union(
                syms_in_range(s_a, lowering_global.gen_sym.next()),
            );
            proof {
                assert(al.subset_of(al_fin)) by {
                    assert forall|s: Symbol| al.contains(s) implies al_fin.contains(s) by {}
                }
                lemma_lowered_widen(out@, l_a, l_d1, l_a, l_d1, al, al_fin, None, pend);
                assert forall|t: Label| pend.contains(t) implies listing_defines_label(
                    out@,
                    t,
                ) by {
                    assert(listing_defines_label(out@, end_label));
                    assert(listing_defines_label(out@, head_label));
                }
                lemma_part_to_ok(out@, l_a, l_d1, al_fin, None, pend);
                lemma_exit_any(out@, l_a, l_d1, al_fin, exitg);
            }
            Ok((out, result_symbol))
        },
        _ => Err(TypeError("expression form not handled here")),

    }
}

/// Every symbol a checked declaration binds or mentions: its
/// parameters and everything in its body.
pub open spec fn cdec_top_symbols(d: CheckedTopLevelDec) -> Set<Symbol> {
    match d {
        CheckedTopLevelDec::FunDec { args, body, .. } => args@.to_set().union(
            cexp_symbols(*body),
        ),
    }
}

/// Every symbol the checked program's declarations bind or mention.
pub open spec fn decs_symbols(decs: Seq<CheckedTopLevelDec>) -> Set<Symbol>
    decreases decs,
{
    if decs.len() == 0 {
        Set::empty()
    } else {
        decs_symbols(decs.drop_last()).union(cdec_top_symbols(decs.last()))
    }
}

/// A declaration's symbols are among the program's.
proof fn lemma_decs_member(decs: Seq<CheckedTopLevelDec>, k: int)
    requires
        0 <= k < decs.len(),
    ensures
        cdec_top_symbols(decs[k]).subset_of(decs_symbols(decs)),
    decreases decs.len(),
{
    if k == decs.len() - 1 {
        assert forall|x: Symbol| cdec_top_symbols(decs[k]).contains(x) implies decs_symbols(
            decs,
        ).contains(x) by {}
    } else {
        lemma_decs_member(decs.drop_last(), k);
        assert(decs.drop_last()[k] == decs[k]);
        assert forall|x: Symbol| cdec_top_symbols(decs[k]).contains(x) implies decs_symbols(
            decs,
        ).contains(x) by {
            assert(decs_symbols(decs.drop_last()).contains(x));
        }
    }
}

/// The shape every lowered function keeps: distinct fresh labels,
/// every jump resolved within the body, and symbols drawn from the
/// checked program or the fresh range.
pub open spec fn lowered_fn_ok(f: LIRFunction, allowed: Set<Symbol>) -> bool {
    &&& lir_labels_distinct(f.instruction_listing@)
    &&& crate::lir::listing_jumps_resolved(f.instruction_listing@)
    &&& lir_syms_ok(f.instruction_listing@, allowed)
    &&& allowed.contains(f.return_symbol)
    &&& forall|k: int| 0 <= k < f.arguments@.len() ==> allowed.contains(#[trigger] f.arguments@[k])
}

/// Lowers a type-checked program into the three-address form.  Every
/// lowered function's labels are freshly minted and pairwise distinct,
/// every jump resolves to a label emitted in the same body, and every
/// symbol is either one the checker bound or a fresh temporary minted
/// here.
#[verifier::loop_isolation(false)]
#[verifier::rlimit(100)]
#[verifier::spinoff_prover]
pub fn lower(type_checked_program: CheckedProgram) -> (r: Result<
    (LIRProgram, LabelGenerator, SymbolGenerator),
    TypeError,
>)
    requires
        type_checked_program.symbol_table.wf(),
        type_checked_program.types.wf(),
    ensures
        r matches Ok(t) ==> {
            let allowed = decs_symbols(type_checked_program.dec_list@).union(
                syms_in_range(type_checked_program.gen_sym.next(), t.2.next()),
            );
            &&& lowered_fn_ok(t.0.main_function, allowed)
            &&& t.0.other_functions.wf()
            &&& forall|l: Label|
                t.0.other_functions@.contains_key(l) ==> lowered_fn_ok(
                    #[trigger] t.0.other_functions@[l],
                    allowed,
                )
        },
{
    let mut lowering_global = LoweringGlobal {
        symbol_table: type_checked_program.symbol_table,
        types: type_checked_program.types,
        gen_sym: type_checked_program.gen_sym,
        gen_label: type_checked_program.gen_label,
    };
    let ghost s0 = lowering_global.gen_sym.next();
    if !lowering_global.gen_sym.has_room() {
        return Err(TypeError("too many symbols"));
    }
    let dummy_return = lowering_global.gen_sym.new_symbol();
    let mut main_function = LIRFunction {
        locals: Vec::new(),
        arguments: Vec::new(),
        return_symbol: dummy_return,
        instruction_listing: Vec::new(),
    };
    let ghost empty_listing: Seq<LIRAssembly> = Seq::empty();
    proof {
        assert(lir_labels_distinct(empty_listing));
        assert(crate::lir::listing_jumps_resolved(empty_listing));
    }
    let mut other_functions: AssocMap<Label, LIRFunction> = AssocMap::new();
    let dec_list = type_checked_program.dec_list;
    let mut d: usize = 0;
    let n = dec_list.len();
    while d < n
        invariant
            d <= dec_list@.len(),
            n == dec_list@.len(),
            lowering_global.wf(),
            s0 <= lowering_global.gen_sym.next(),
            lowered_fn_ok(
                main_function,
                decs_symbols(dec_list@).union(
                    syms_in_range(s0, lowering_global.gen_sym.next()),
                ),
            ),
            other_functions.wf(),
            forall|l: Label|
                other_functions@.contains_key(l) ==> lowered_fn_ok(
                    #[trigger] other_functions@[l],
                    decs_symbols(dec_list@).union(
                        syms_in_range(s0, lowering_global.gen_sym.next()),
                    ),
                ),
        decreases n - d,
    {
        let ghost s_pre = lowering_global.gen_sym.next();
        match &dec_list[d] {
            CheckedTopLevelDec::FunDec { name, args, body } => {
                let ghost l_c0 = lowering_global.gen_label.next();
                let ghost s_c0 = lowering_global.gen_sym.next();
                let (body_code, return_symbol) = match lower_exp(body, &mut lowering_global, None) {
                    Ok(p) => p,
                    Err(e) => {
                        return Err(e);
                    },
                };
                let ghost l_c1 = lowering_global.gen_label.next();
                let ghost s_c1 = lowering_global.gen_sym.next();
                let mut arguments: Vec<Symbol> = Vec::new();
                let mut k: usize = 0;
                while k < args.len()
                    invariant
                        k <= args@.len(),
                        arguments@ == args@.take(k as int),
                    decreases args@.len() - k,
                {
                    arguments.push(args[k]);
                    proof {
                        assert(arguments@ =~= args@.take(k + 1));
                    }
                    k = k + 1;
                }
                proof {
                    assert(args@.take(args@.len() as int) =~= args@);
                }
                let lir_function = LIRFunction {
                    locals: Vec::new(),
                    arguments,
                    return_symbol,
                    instruction_listing: body_code,
                };
                let ghost allowed_now = decs_symbols(dec_list@).union(
                    syms_in_range(s0, lowering_global.gen_sym.next()),
                );
                proof {
                    lemma_decs_member(dec_list@, d as int);
                    let al_body = cexp_symbols(**body).union(syms_in_range(s_c0, s_c1));
                    assert(al_body.subset_of(allowed_now)) by {
                        assert forall|s: Symbol| al_body.contains(s) implies allowed_now.contains(
                            s,
                        ) by {
                            if cexp_symbols(**body).contains(s) {
                                assert(cdec_top_symbols(dec_list@[d as int]).contains(s));
                            }
                        }
                    }
                    assert(lowered_fn_ok(lir_function, allowed_now)) by {
                        assert(lir_syms_ok(lir_function.instruction_listing@, allowed_now)) by {
                            assert forall|i: int|
                                0 <= i < lir_function.instruction_listing@.len() implies
                                lir_line_symbols(
                                #[trigger] lir_function.instruction_listing@[i],
                            ).subset_of(allowed_now) by {
                                assert(lir_line_symbols(
                                    lir_function.instruction_listing@[i],
                                ).subset_of(al_body));
                            }
                        }
                        assert(crate::lir::listing_jumps_resolved(
                            lir_function.instruction_listing@,
                        )) by {
                            assert(lir_jumps_ok(lir_function.instruction_listing@, None));
                        }
                        assert forall|k2: int|
                            0 <= k2 < lir_function.arguments@.len() implies allowed_now.contains(
                            #[trigger] lir_function.arguments@[k2],
                        ) by {
                            assert(args@.to_set().contains(args@[k2]));
                            assert(cdec_top_symbols(dec_list@[d as int]).contains(args@[k2]));
                        }
                    }
                }
                if *name == Label::Main {
                    main_function = lir_function;
                } else {
                    other_functions.insert(*name, lir_function);
                }
                proof {
                    let allowed2 = decs_symbols(dec_list@).union(
                        syms_in_range(s0, lowering_global.gen_sym.next()),
                    );
                    assert forall|l: Label| other_functions@.contains_key(
                        l,
                    ) implies lowered_fn_ok(#[trigger] other_functions@[l], allowed2) by {
                        let prev_allowed = decs_symbols(dec_list@).union(
                            syms_in_range(s0, s_pre),
                        );
                        if lowered_fn_ok(other_functions@[l], prev_allowed) {
                            lemma_fn_ok_widen(other_functions@[l], prev_allowed, allowed2);
                        }
                    }
                    if lowered_fn_ok(
                        main_function,
                        decs_symbols(dec_list@).union(syms_in_range(s0, s_pre)),
                    ) {
                        lemma_fn_ok_widen(
                            main_function,
                            decs_symbols(dec_list@).union(syms_in_range(s0, s_pre)),
                            allowed2,
                        );
                    }
                }
            },
        }
        d = d + 1;
    }
    let lir_program = LIRProgram { main_function, other_functions };
    Ok((lir_program, lowering_global.gen_label, lowering_global.gen_sym))
}

/// A lowered function keeps its shape over a larger allowed set.
proof fn lemma_fn_ok_widen(f: LIRFunction, al: Set<Symbol>, al2: Set<Symbol>)
    requires
        lowered_fn_ok(f, al),
        al.subset_of(al2),
    ensures
        lowered_fn_ok(f, al2),
{
    broadcast use crate::check_type::lemma_subset_trans;

    assert forall|i: int| 0 <= i < f.instruction_listing@.len() implies lir_line_symbols(
        #[trigger] f.instruction_listing@[i],
    ).subset_of(al2) by {
        assert(lir_line_symbols(f.instruction_listing@[i]).subset_of(al));
    }
    assert forall|k: int| 0 <= k < f.arguments@.len() implies al2.contains(
        #[trigger] f.arguments@[k],
    ) by {
        assert(al.contains(f.arguments@[k]));
    }
}

} // verus!
