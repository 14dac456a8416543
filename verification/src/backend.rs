//! The compiler back end: instruction selection from the intermediate
//! form to symbolic x86-64, legalisation to at-most-one-memory-operand
//! shapes, and home assignment onto stack slots with prologue and
//! epilogue emission.

use vstd::prelude::*;

use crate::common::{
    ComparisonType, InfixOp, Label, LabelGenerator, Symbol, SymbolGenerator, spec_symbol,
};
use crate::lir::{LIRAssembly, LIRFunction, LIRInstruction, LIRProgram};
use crate::tables::{AssocMap, MapKey};
use crate::x64::{
    Operand, Operands, X64Assembly, X64Function, X64Instruction, X64Program, X64Register, X64Value,
    X64opCode,
};
use crate::x64s::{
    SOperand, SOperands, X64SAssembly, X64SFunction, X64SInstruction, X64SProgram, has_memory_sym,
    sline_symbols, symbolic_operand_count,
};

verus! {

/// The generators and string table threaded through instruction
/// selection.
pub struct GlobalInfo {
    pub label_gen: LabelGenerator,
    pub symbol_gen: SymbolGenerator,
    pub string_literals: AssocMap<Label, String>,
}

/// The width of every value the language manipulates, in bytes.
pub const QUADWORD_SIZE: i64 = 8;

// ------------------------------------------------------------------
// Legalisation
// ------------------------------------------------------------------
/// The lines that replace one symbolic line under legalisation.  Shapes
/// with two potentially-in-memory operands are rewritten to route one
/// side through the scratch registers rax and rdx; every other line
/// passes through unchanged.
pub open spec fn spec_fix_line(a: X64SAssembly) -> Seq<X64SAssembly> {
    match a {
        X64SAssembly::Instruction(instr) => match instr.args {
            SOperands::Two(SOperand::Symbol(x), SOperand::Symbol(y)) => seq![
                X64SAssembly::Instruction(
                    X64SInstruction {
                        op_code: X64opCode::Movq,
                        args: SOperands::Two(
                            SOperand::Symbol(x),
                            SOperand::Register(X64Register::Rax),
                        ),
                    },
                ),
                X64SAssembly::Instruction(
                    X64SInstruction {
                        op_code: instr.op_code,
                        args: SOperands::Two(
                            SOperand::Register(X64Register::Rax),
                            SOperand::Symbol(y),
                        ),
                    },
                ),
            ],
            SOperands::Two(SOperand::MemorySym(p), SOperand::Register(reg)) => seq![
                X64SAssembly::Instruction(
                    X64SInstruction {
                        op_code: X64opCode::Movq,
                        args: SOperands::Two(
                            SOperand::Symbol(p),
                            SOperand::Register(X64Register::Rax),
                        ),
                    },
                ),
                X64SAssembly::Instruction(
                    X64SInstruction {
                        op_code: X64opCode::Movq,
                        args: SOperands::Two(
                            SOperand::MemoryReg(X64Register::Rax),
                            SOperand::Register(X64Register::Rax),
                        ),
                    },
                ),
                X64SAssembly::Instruction(
                    X64SInstruction {
                        op_code: instr.op_code,
                        args: SOperands::Two(
                            SOperand::Register(X64Register::Rax),
                            SOperand::Register(reg),
                        ),
                    },
                ),
            ],
            SOperands::Two(SOperand::MemorySym(p), SOperand::Symbol(y)) => seq![
                X64SAssembly::Instruction(
                    X64SInstruction {
                        op_code: X64opCode::Movq,
                        args: SOperands::Two(
                            SOperand::Symbol(p),
                            SOperand::Register(X64Register::Rax),
                        ),
                    },
                ),
                X64SAssembly::Instruction(
                    X64SInstruction {
                        op_code: X64opCode::Movq,
                        args: SOperands::Two(
                            SOperand::MemoryReg(X64Register::Rax),
                            SOperand::Register(X64Register::Rax),
                        ),
                    },
                ),
                X64SAssembly::Instruction(
                    X64SInstruction {
                        op_code: instr.op_code,
                        args: SOperands::Two(
                            SOperand::Register(X64Register::Rax),
                            SOperand::Symbol(y),
                        ),
                    },
                ),
            ],
            SOperands::Two(SOperand::MemorySym(p), SOperand::MemorySym(q)) => seq![
                X64SAssembly::Instruction(
                    X64SInstruction {
                        op_code: X64opCode::Movq,
                        args: SOperands::Two(
                            SOperand::Symbol(p),
                            SOperand::Register(X64Register::Rax),
                        ),
                    },
                ),
                X64SAssembly::Instruction(
                    X64SInstruction {
                        op_code: X64opCode::Movq,
                        args: SOperands::Two(
                            SOperand::MemoryReg(X64Register::Rax),
                            SOperand::Register(X64Register::Rax),
                        ),
                    },
                ),
                X64SAssembly::Instruction(
                    X64SInstruction {
                        op_code: X64opCode::Movq,
                        args: SOperands::Two(
                            SOperand::Symbol(q),
                            SOperand::Register(X64Register::Rdx),
                        ),
                    },
                ),
                X64SAssembly::Instruction(
                    X64SInstruction {
                        op_code: instr.op_code,
                        args: SOperands::Two(
                            SOperand::Register(X64Register::Rax),
                            SOperand::MemoryReg(X64Register::Rdx),
                        ),
                    },
                ),
            ],
            SOperands::Two(SOperand::Symbol(x), SOperand::MemorySym(q)) => seq![
                X64SAssembly::Instruction(
                    X64SInstruction {
                        op_code: X64opCode::Movq,
                        args: SOperands::Two(
                            SOperand::Symbol(x),
                            SOperand::Register(X64Register::Rax),
                        ),
                    },
                ),
                X64SAssembly::Instruction(
                    X64SInstruction {
                        op_code: X64opCode::Movq,
                        args: SOperands::Two(
                            SOperand::Symbol(q),
                            SOperand::Register(X64Register::Rdx),
                        ),
                    },
                ),
                X64SAssembly::Instruction(
                    X64SInstruction {
                        op_code: instr.op_code,
                        args: SOperands::Two(
                            SOperand::Register(X64Register::Rax),
                            SOperand::MemoryReg(X64Register::Rdx),
                        ),
                    },
                ),
            ],
            _ => seq![a],
        },
        X64SAssembly::Label(_) => seq![a],
    }
}

/// A whole body after legalisation: each line replaced by its rewrite.
pub open spec fn spec_fix_body(body: Seq<X64SAssembly>) -> Seq<X64SAssembly>
    decreases body.len(),
{
    if body.len() == 0 {
        Seq::empty()
    } else {
        spec_fix_body(body.drop_last()) + spec_fix_line(body.last())
    }
}

/// After legalisation every line has at most one operand that could
/// become a memory reference under home assignment.
pub open spec fn line_legal(a: X64SAssembly) -> bool {
    match a {
        X64SAssembly::Label(_) => true,
        X64SAssembly::Instruction(instr) => symbolic_operand_count(instr.args) <= 1,
    }
}

/// The `MemorySym` shapes that instruction selection emits: a store or
/// load through a symbol, paired with a plain symbol on the other side.
pub open spec fn line_memsym_shape_ok(a: X64SAssembly) -> bool {
    match a {
        X64SAssembly::Label(_) => true,
        X64SAssembly::Instruction(instr) => has_memory_sym(instr.args) ==> (instr.args matches
            SOperands::Two(SOperand::Symbol(_), SOperand::MemorySym(_))
            || instr.args matches SOperands::Two(SOperand::MemorySym(_), SOperand::Symbol(_))
            || instr.args matches SOperands::Two(SOperand::MemorySym(_), SOperand::MemorySym(_))
            || instr.args matches SOperands::Two(SOperand::MemorySym(_), SOperand::Register(_))),
    }
}

/// Legalisation leaves every replacement line with at most one symbolic
/// operand, and clears away every `MemorySym` whose shape selection can
/// produce.
pub proof fn lemma_fix_line_shapes(a: X64SAssembly)
    ensures
        forall|j: int| 0 <= j < spec_fix_line(a).len() ==> line_legal(#[trigger] spec_fix_line(a)[j]),
        line_memsym_shape_ok(a) ==> forall|j: int|
            0 <= j < spec_fix_line(a).len() ==> match #[trigger] spec_fix_line(a)[j] {
                X64SAssembly::Instruction(instr) => !has_memory_sym(instr.args),
                X64SAssembly::Label(_) => true,
            },
{
}

/// Every line of a legalised body satisfies the one-memory-operand
/// shape, and none mentions a `MemorySym` when the input kept to the
/// shapes selection emits.
pub proof fn lemma_fix_body_shapes(body: Seq<X64SAssembly>)
    ensures
        forall|j: int|
            0 <= j < spec_fix_body(body).len() ==> line_legal(#[trigger] spec_fix_body(body)[j]),
        (forall|i: int| 0 <= i < body.len() ==> line_memsym_shape_ok(#[trigger] body[i]))
            ==> forall|j: int|
            0 <= j < spec_fix_body(body).len() ==> match #[trigger] spec_fix_body(body)[j] {
                X64SAssembly::Instruction(instr) => !has_memory_sym(instr.args),
                X64SAssembly::Label(_) => true,
            },
    decreases body.len(),
{
    if body.len() > 0 {
        lemma_fix_body_shapes(body.drop_last());
        lemma_fix_line_shapes(body.last());
        if forall|i: int| 0 <= i < body.len() ==> line_memsym_shape_ok(#[trigger] body[i]) {
            assert(forall|i: int|
                0 <= i < body.drop_last().len() ==> line_memsym_shape_ok(
                    #[trigger] body.drop_last()[i],
                ));
        }
    }
}

/// Rewrites one function so that no line keeps two potentially-in-memory
/// operands.
#[verifier::loop_isolation(false)]
pub fn fix_up_fn(function: &X64SFunction) -> (r: X64SFunction)
    ensures
        r.body@ == spec_fix_body(function.body@),
{
    let mut fixed: Vec<X64SAssembly> = Vec::new();
    let mut i: usize = 0;
    while i < function.body.len()
        invariant
            i <= function.body@.len(),
            fixed@ == spec_fix_body(function.body@.take(i as int)),
        decreases function.body@.len() - i,
    {
        proof {
            assert(function.body@.take(i + 1).drop_last() =~= function.body@.take(i as int));
        }
        let line = function.body[i];
        match line {
            X64SAssembly::Instruction(instruction) => {
                match instruction.args {
                    SOperands::Two(SOperand::Symbol(x), SOperand::Symbol(y)) => {
                        fixed.push(
                            X64SAssembly::Instruction(
                                X64SInstruction {
                                    op_code: X64opCode::Movq,
                                    args: SOperands::Two(
                                        SOperand::Symbol(x),
                                        SOperand::Register(X64Register::Rax),
                                    ),
                                },
                            ),
                        );
                        fixed.push(
                            X64SAssembly::Instruction(
                                X64SInstruction {
                                    op_code: instruction.op_code,
                                    args: SOperands::Two(
                                        SOperand::Register(X64Register::Rax),
                                        SOperand::Symbol(y),
                                    ),
                                },
                            ),
                        );
                    },
                    SOperands::Two(SOperand::MemorySym(p), SOperand::Register(reg)) => {
                        fixed.push(
                            X64SAssembly::Instruction(
                                X64SInstruction {
                                    op_code: X64opCode::Movq,
                                    args: SOperands::Two(
                                        SOperand::Symbol(p),
                                        SOperand::Register(X64Register::Rax),
                                    ),
                                },
                            ),
                        );
                        fixed.push(
                            X64SAssembly::Instruction(
                                X64SInstruction {
                                    op_code: X64opCode::Movq,
                                    args: SOperands::Two(
                                        SOperand::MemoryReg(X64Register::Rax),
                                        SOperand::Register(X64Register::Rax),
                                    ),
                                },
                            ),
                        );
                        fixed.push(
                            X64SAssembly::Instruction(
                                X64SInstruction {
                                    op_code: instruction.op_code,
                                    args: SOperands::Two(
                                        SOperand::Register(X64Register::Rax),
                                        SOperand::Register(reg),
                                    ),
                                },
                            ),
                        );
                    },
                    SOperands::Two(SOperand::MemorySym(p), SOperand::Symbol(y)) => {
                        fixed.push(
                            X64SAssembly::Instruction(
                                X64SInstruction {
                                    op_code: X64opCode::Movq,
                                    args: SOperands::Two(
                                        SOperand::Symbol(p),
                                        SOperand::Register(X64Register::Rax),
                                    ),
                                },
                            ),
                        );
                        fixed.push(
                            X64SAssembly::Instruction(
                                X64SInstruction {
                                    op_code: X64opCode::Movq,
                                    args: SOperands::Two(
                                        SOperand::MemoryReg(X64Register::Rax),
                                        SOperand::Register(X64Register::Rax),
                                    ),
                                },
                            ),
                        );
                        fixed.push(
                            X64SAssembly::Instruction(
                                X64SInstruction {
                                    op_code: instruction.op_code,
                                    args: SOperands::Two(
                                        SOperand::Register(X64Register::Rax),
                                        SOperand::Symbol(y),
                                    ),
                                },
                            ),
                        );
                    },
                    SOperands::Two(SOperand::MemorySym(p), SOperand::MemorySym(q)) => {
                        fixed.push(
                            X64SAssembly::Instruction(
                                X64SInstruction {
                                    op_code: X64opCode::Movq,
                                    args: SOperands::Two(
                                        SOperand::Symbol(p),
                                        SOperand::Register(X64Register::Rax),
                                    ),
                                },
                            ),
                        );
                        fixed.push(
                            X64SAssembly::Instruction(
                                X64SInstruction {
                                    op_code: X64opCode::Movq,
                                    args: SOperands::Two(
                                        SOperand::MemoryReg(X64Register::Rax),
                                        SOperand::Register(X64Register::Rax),
                                    ),
                                },
                            ),
                        );
                        fixed.push(
                            X64SAssembly::Instruction(
                                X64SInstruction {
                                    op_code: X64opCode::Movq,
                                    args: SOperands::Two(
                                        SOperand::Symbol(q),
                                        SOperand::Register(X64Register::Rdx),
                                    ),
                                },
                            ),
                        );
                        fixed.push(
                            X64SAssembly::Instruction(
                                X64SInstruction {
                                    op_code: instruction.op_code,
                                    args: SOperands::Two(
                                        SOperand::Register(X64Register::Rax),
                                        SOperand::MemoryReg(X64Register::Rdx),
                                    ),
                                },
                            ),
                        );
                    },
                    SOperands::Two(SOperand::Symbol(x), SOperand::MemorySym(q)) => {
                        fixed.push(
                            X64SAssembly::Instruction(
                                X64SInstruction {
                                    op_code: X64opCode::Movq,
                                    args: SOperands::Two(
                                        SOperand::Symbol(x),
                                        SOperand::Register(X64Register::Rax),
                                    ),
                                },
                            ),
                        );
                        fixed.push(
                            X64SAssembly::Instruction(
                                X64SInstruction {
                                    op_code: X64opCode::Movq,
                                    args: SOperands::Two(
                                        SOperand::Symbol(q),
                                        SOperand::Register(X64Register::Rdx),
                                    ),
                                },
                            ),
                        );
                        fixed.push(
                            X64SAssembly::Instruction(
                                X64SInstruction {
                                    op_code: instruction.op_code,
                                    args: SOperands::Two(
                                        SOperand::Register(X64Register::Rax),
                                        SOperand::MemoryReg(X64Register::Rdx),
                                    ),
                                },
                            ),
                        );
                    },
                    _ => {
                        fixed.push(line);
                    },
                }
            },
            X64SAssembly::Label(_) => {
                fixed.push(line);
            },
        }
        proof {
            assert(fixed@ =~= spec_fix_body(function.body@.take(i as int)) + spec_fix_line(
                function.body@[i as int],
            ));
        }
        i = i + 1;
    }
    proof {
        assert(function.body@.take(function.body@.len() as int) =~= function.body@);
    }
    X64SFunction { body: fixed }
}

/// Legalises every function of the program; the string table is kept as
/// it is.
#[verifier::loop_isolation(false)]
pub fn fix_up(program: X64SProgram) -> (r: X64SProgram)
    requires
        program.other_functions.wf(),
        program.string_literals.wf(),
    ensures
        r.main_function.body@ == spec_fix_body(program.main_function.body@),
        r.other_functions.wf(),
        r.other_functions.kseq() == program.other_functions.kseq(),
        r.other_functions@.dom() == program.other_functions@.dom(),
        forall|l: Label|
            r.other_functions@.contains_key(l) ==> (#[trigger] r.other_functions@[l]).body@
                == spec_fix_body(program.other_functions@[l].body@),
        r.string_literals == program.string_literals,
        forall|j: int|
            0 <= j < r.main_function.body@.len() ==> line_legal(#[trigger] r.main_function.body@[j]),
        forall|l: Label, j: int|
            r.other_functions@.contains_key(l) && 0 <= j < r.other_functions@[l].body@.len()
                ==> line_legal(#[trigger] r.other_functions@[l].body@[j]),
{
    let main_function = fix_up_fn(&program.main_function);
    let mut other_functions: AssocMap<Label, X64SFunction> = AssocMap::new();
    let mut i: usize = 0;
    let n = program.other_functions.num_entries();
    proof {
        program.other_functions.lemma_kseq_dom();
    }
    while i < n
        invariant
            i <= n,
            other_functions.wf(),
            other_functions.kseq() == program.other_functions.kseq().take(i as int),
            forall|l: Label|
                other_functions@.contains_key(l) ==> program.other_functions@.contains_key(l) && (
                #[trigger] other_functions@[l]).body@ == spec_fix_body(
                    program.other_functions@[l].body@,
                ),
            forall|j: int|
                0 <= j < i ==> other_functions@.contains_key(
                    #[trigger] program.other_functions.kseq()[j],
                ),
        decreases n - i,
    {
        let l = *program.other_functions.key_at(i);
        let f = program.other_functions.val_at(i);
        let fixed = fix_up_fn(f);
        proof {
            other_functions.lemma_kseq_dom();
            if other_functions@.contains_key(l) {
                let j = choose|j: int|
                    0 <= j < other_functions.kseq().len() && (#[trigger] other_functions.kseq()[j])
                        == l;
                assert(program.other_functions.kseq()[j] == l);
                assert(program.other_functions.kseq()[i as int] == l);
                assert(false);
            }
        }
        other_functions.insert(l, fixed);
        proof {
            assert(other_functions.kseq() =~= program.other_functions.kseq().take(i + 1));
        }
        i = i + 1;
    }
    proof {
        assert(program.other_functions.kseq().take(n as int) =~= program.other_functions.kseq());
        assert forall|l: Label| program.other_functions@.contains_key(
            l,
        ) implies other_functions@.contains_key(l) by {
            let j = choose|j: int|
                0 <= j < program.other_functions.kseq().len() && (
                #[trigger] program.other_functions.kseq()[j]) == l;
            assert(other_functions@.contains_key(program.other_functions.kseq()[j]));
        }
        assert forall|l: Label| other_functions@.dom().contains(
            l,
        ) implies program.other_functions@.dom().contains(l) by {
            assert(other_functions@.contains_key(l));
            let v = other_functions@[l];
        }
        assert(other_functions@.dom() =~= program.other_functions@.dom());
        lemma_fix_body_shapes(program.main_function.body@);
        assert forall|l: Label, j: int|
            other_functions@.contains_key(l) && 0 <= j
                < other_functions@[l].body@.len() implies line_legal(
            #[trigger] other_functions@[l].body@[j],
        ) by {
            lemma_fix_body_shapes(program.other_functions@[l].body@);
        }
    }
    X64SProgram { main_function, other_functions, string_literals: program.string_literals }
}

// ------------------------------------------------------------------
// Home assignment
// ------------------------------------------------------------------
/// A symbol's physical residence after allocation: a stack offset from
/// rbp, or a machine register.
#[derive(Debug, Copy, Clone, PartialEq, Eq, Structural)]
pub enum StackOrReg {
    Stack(i64),
    Reg(X64Register),
}

/// A colour handed out by a graph-colouring register allocator; the
/// baseline allocator never assigns one.
#[derive(Debug, Copy, Clone, PartialEq, Eq, Structural)]
pub struct Color(pub u64);

/// The number of registers an allocator may colour with: all general
/// purpose registers except the two reserved for legalisation scratch.
pub const AVAILABLE_REGISTERS: u64 = 14;

/// The symbols one line mentions, in operand order.
pub open spec fn line_sym_seq(a: X64SAssembly) -> Seq<Symbol> {
    match a {
        X64SAssembly::Label(_) => Seq::empty(),
        X64SAssembly::Instruction(i) => match i.args {
            SOperands::Zero => Seq::empty(),
            SOperands::One(a) => opt_sym_seq(a.symbol_of()),
            SOperands::Two(a, b) => opt_sym_seq(a.symbol_of()) + opt_sym_seq(b.symbol_of()),
        },
    }
}

pub open spec fn opt_sym_seq(o: Option<Symbol>) -> Seq<Symbol> {
    match o {
        Some(s) => seq![s],
        None => Seq::empty(),
    }
}

/// Every symbol a body mentions, in first-to-last operand order, with
/// repetitions.
pub open spec fn body_sym_seq(body: Seq<X64SAssembly>) -> Seq<Symbol>
    decreases body.len(),
{
    if body.len() == 0 {
        Seq::empty()
    } else {
        body_sym_seq(body.drop_last()) + line_sym_seq(body.last())
    }
}

/// The same sequence with later repetitions removed.
pub open spec fn dedup_first(s: Seq<Symbol>) -> Seq<Symbol>
    decreases s.len(),
{
    if s.len() == 0 {
        Seq::empty()
    } else {
        let p = dedup_first(s.drop_last());
        if p.contains(s.last()) {
            p
        } else {
            p.push(s.last())
        }
    }
}

pub proof fn lemma_dedup_first(s: Seq<Symbol>)
    ensures
        dedup_first(s).no_duplicates(),
        dedup_first(s).to_set() == s.to_set(),
        dedup_first(s).len() <= s.len(),
    decreases s.len(),
{
    if s.len() > 0 {
        lemma_dedup_first(s.drop_last());
        let p = dedup_first(s.drop_last());
        assert forall|a: Symbol| dedup_first(s).to_set().contains(a) implies s.to_set().contains(
            a,
        ) by {
            if p.contains(a) {
                assert(p.to_set().contains(a));
                assert(s.drop_last().to_set().contains(a));
                assert(s.drop_last().contains(a));
                let j = choose|j: int|
                    0 <= j < s.drop_last().len() && (#[trigger] s.drop_last()[j]) == a;
                assert(0 <= j < s.len());
                assert(s[j] == a);
                assert(s.contains(a));
            } else {
                assert(dedup_first(s) == p.push(s.last()));
                assert(a == s.last());
                assert(s[s.len() - 1] == a);
                assert(s.contains(a));
            }
        }
        assert forall|a: Symbol| s.to_set().contains(a) implies dedup_first(s).to_set().contains(
            a,
        ) by {
            let j = choose|j: int| 0 <= j < s.len() && (#[trigger] s[j]) == a;
            if j < s.len() - 1 {
                assert(s.drop_last()[j] == a);
                assert(s.drop_last().contains(a));
                assert(s.drop_last().to_set().contains(a));
                assert(p.to_set().contains(a));
                assert(p.contains(a));
            } else {
                assert(a == s.last());
            }
            if p.contains(a) {
                let k = choose|k: int| 0 <= k < p.len() && (#[trigger] p[k]) == a;
                assert(dedup_first(s)[k] == a);
                assert(dedup_first(s).contains(a));
            } else {
                assert(a == s.last());
                assert(dedup_first(s) == p.push(a));
                assert(dedup_first(s)[p.len() as int] == a);
                assert(dedup_first(s).contains(a));
            }
        }
        assert(dedup_first(s).to_set() =~= s.to_set());
        if !p.contains(s.last()) {
            assert(dedup_first(s).drop_last() =~= p);
        }
    } else {
        assert(dedup_first(s).to_set() =~= s.to_set());
    }
}

/// Collects every symbol a function mentions, each once, mapping all of
/// them to "no colour": the baseline allocator spills everything.
#[verifier::loop_isolation(false)]
pub fn register_alloc(function: &X64SFunction) -> (r: AssocMap<Symbol, Option<Color>>)
    ensures
        r.wf(),
        r.kseq() == dedup_first(body_sym_seq(function.body@)),
        forall|s: Symbol| r@.contains_key(s) ==> (#[trigger] r@[s]) is None,
        r@.dom() == body_sym_seq(function.body@).to_set(),
{
    let mut map: AssocMap<Symbol, Option<Color>> = AssocMap::new();
    let mut i: usize = 0;
    while i < function.body.len()
        invariant
            i <= function.body@.len(),
            map.wf(),
            map.kseq() == dedup_first(body_sym_seq(function.body@.take(i as int))),
            forall|s: Symbol| map@.contains_key(s) ==> (#[trigger] map@[s]) is None,
        decreases function.body@.len() - i,
    {
        proof {
            assert(function.body@.take(i + 1).drop_last() =~= function.body@.take(i as int));
            map.lemma_kseq_dom();
        }
        let ghost pre = dedup_first(body_sym_seq(function.body@.take(i as int)));
        let line = function.body[i];
        match line {
            X64SAssembly::Instruction(instruction) => {
                match instruction.args {
                    SOperands::Zero => {},
                    SOperands::One(a) => {
                        insert_operand_symbol(&mut map, a);
                    },
                    SOperands::Two(a, b) => {
                        insert_operand_symbol(&mut map, a);
                        proof {
                            map.lemma_kseq_dom();
                        }
                        insert_operand_symbol(&mut map, b);
                    },
                }
            },
            X64SAssembly::Label(_) => {},
        }
        proof {
            let base = body_sym_seq(function.body@.take(i as int));
            let ls = line_sym_seq(function.body@[i as int]);
            let post = body_sym_seq(function.body@.take(i + 1));
            assert(post == base + ls);
            lemma_dedup_append2(base, ls);
            if ls.len() == 2 {
                assert(ls[0] == opt_sym_seq(
                    match function.body@[i as int] {
                        X64SAssembly::Instruction(ins) => match ins.args {
                            SOperands::Two(a, _) => a.symbol_of(),
                            _ => None,
                        },
                        _ => None,
                    },
                )[0]);
            }
            assert(map.kseq() == dedup_first(post));
        }
        i = i + 1;
    }
    proof {
        assert(function.body@.take(function.body@.len() as int) =~= function.body@);
        lemma_dedup_first(body_sym_seq(function.body@));
        map.lemma_kseq_dom();
        assert forall|s: Symbol| map@.dom().contains(s) implies body_sym_seq(
            function.body@,
        ).to_set().contains(s) by {
            let j = choose|j: int|
                0 <= j < map.kseq().len() && (#[trigger] map.kseq()[j]) == s;
            assert(dedup_first(body_sym_seq(function.body@)).contains(s));
        }
        assert forall|s: Symbol| body_sym_seq(function.body@).to_set().contains(
            s,
        ) implies map@.dom().contains(s) by {
            assert(dedup_first(body_sym_seq(function.body@)).to_set().contains(s));
            let j = choose|j: int|
                0 <= j < dedup_first(body_sym_seq(function.body@)).len() && (
                #[trigger] dedup_first(body_sym_seq(function.body@))[j]) == s;
            assert(map.kseq()[j] == s);
        }
        assert(map@.dom() =~= body_sym_seq(function.body@).to_set());
    }
    map
}

/// One step of deduplication: append the symbol unless already seen.
pub open spec fn dedup_step(p: Seq<Symbol>, x: Symbol) -> Seq<Symbol> {
    if p.contains(x) {
        p
    } else {
        p.push(x)
    }
}

/// Appending at most two symbols extends the deduplication stepwise.
proof fn lemma_dedup_append2(s: Seq<Symbol>, t: Seq<Symbol>)
    requires
        t.len() <= 2,
    ensures
        t.len() == 0 ==> dedup_first(s + t) == dedup_first(s),
        t.len() == 1 ==> dedup_first(s + t) == dedup_step(dedup_first(s), t[0]),
        t.len() == 2 ==> dedup_first(s + t) == dedup_step(
            dedup_step(dedup_first(s), t[0]),
            t[1],
        ),
    decreases t.len(),
{
    if t.len() == 0 {
        assert(s + t =~= s);
    } else if t.len() == 1 {
        assert((s + t).drop_last() =~= s);
        assert((s + t).last() == t[0]);
    } else {
        assert((s + t).drop_last() =~= s + seq![t[0]]);
        assert((s + t).last() == t[1]);
        lemma_dedup_append2(s, seq![t[0]]);
    }
}

/// Records the symbol of one operand, if it has one, as uncoloured.
fn insert_operand_symbol(map: &mut AssocMap<Symbol, Option<Color>>, a: SOperand)
    requires
        old(map).wf(),
    ensures
        final(map).wf(),
        final(map).kseq() == {
            let occ = opt_sym_seq(a.symbol_of());
            if occ.len() == 0 {
                old(map).kseq()
            } else {
                dedup_step(old(map).kseq(), occ[0])
            }
        },
        forall|s: Symbol|
            final(map)@.contains_key(s) ==> (#[trigger] final(map)@[s]) == if old(
                map,
            )@.contains_key(s) {
                old(map)@[s]
            } else {
                None::<Color>
            },
{
    proof {
        map.lemma_kseq_dom();
    }
    match a {
        SOperand::Symbol(s) => {
            insert_if_absent(map, s);
        },
        SOperand::MemorySym(s) => {
            insert_if_absent(map, s);
        },
        _ => {},
    }
}

/// Adds an uncoloured binding for `s` unless one is already present.
fn insert_if_absent(map: &mut AssocMap<Symbol, Option<Color>>, s: Symbol)
    requires
        old(map).wf(),
    ensures
        final(map).wf(),
        final(map).kseq() == dedup_step(old(map).kseq(), s),
        forall|t: Symbol|
            final(map)@.contains_key(t) ==> (#[trigger] final(map)@[t]) == if old(
                map,
            )@.contains_key(t) {
                old(map)@[t]
            } else {
                None::<Color>
            },
{
    proof {
        map.lemma_kseq_dom();
    }
    if !map.contains_key(&s) {
        map.insert(s, None);
        proof {
            if old(map).kseq().contains(s) {
                let j = choose|j: int|
                    0 <= j < old(map).kseq().len() && (#[trigger] old(map).kseq()[j]) == s;
                assert(old(map)@.contains_key(s));
                assert(false);
            }
        }
    } else {
        proof {
            let j = choose|j: int|
                0 <= j < old(map).kseq().len() && (#[trigger] old(map).kseq()[j]) == s;
            assert(old(map).kseq().contains(s));
        }
    }
}

/// Maps every collected symbol to a distinct stack slot: the baseline
/// home assignment that spills everything.
#[verifier::loop_isolation(false)]
pub fn register_assignment(allocation: &AssocMap<Symbol, Option<Color>>) -> (r: AssocMap<
    Symbol,
    StackOrReg,
>)
    requires
        allocation.wf(),
        8 * (allocation.kseq().len() + 1) < i64::MAX,
    ensures
        r.wf(),
        r.kseq() == allocation.kseq(),
        forall|i: int|
            0 <= i < r.kseq().len() ==> r@[#[trigger] r.kseq()[i]] == StackOrReg::Stack(
                (-8 * (i + 1)) as i64,
            ),
{
    let n = allocation.num_entries();
    let mut r: AssocMap<Symbol, StackOrReg> = AssocMap::new();
    let mut i: usize = 0;
    proof {
        allocation.lemma_kseq_dom();
    }
    while i < n
        invariant
            i <= n,
            n == allocation.kseq().len(),
            r.wf(),
            r.kseq() == allocation.kseq().take(i as int),
            forall|j: int|
                0 <= j < i ==> r@[#[trigger] r.kseq()[j]] == StackOrReg::Stack(
                    (-8 * (j + 1)) as i64,
                ),
        decreases n - i,
    {
        let s = *allocation.key_at(i);
        let offset: i64 = -8 * ((i as i64) + 1);
        proof {
            r.lemma_kseq_dom();
            if r@.contains_key(s) {
                let j = choose|j: int|
                    0 <= j < r.kseq().len() && (#[trigger] r.kseq()[j]) == s;
                assert(allocation.kseq()[j] == s);
                assert(allocation.kseq()[i as int] == s);
                assert(false);
            }
        }
        r.insert(s, StackOrReg::Stack(offset));
        proof {
            assert(r.kseq() =~= allocation.kseq().take(i + 1));
            assert forall|j: int| 0 <= j < i + 1 implies r@[#[trigger] r.kseq()[j]]
                == StackOrReg::Stack((-8 * (j + 1)) as i64) by {
                if j < i {
                    assert(r.kseq()[j] == allocation.kseq()[j]);
                    assert(r.kseq()[j] != s);
                }
            }
        }
        i = i + 1;
    }
    proof {
        assert(allocation.kseq().take(n as int) =~= allocation.kseq());
    }
    r
}

/// The stack space a function reserves for `n` stack homes: `n`
/// quadwords rounded up to a 16-byte multiple.  Register homes need no
/// frame space and are not counted.
pub open spec fn spec_reservation(n: int) -> int {
    if n % 2 == 0 {
        8 * n
    } else {
        8 * (n + 1)
    }
}

/// How many of the given keys the homes map sends to a stack slot.
pub open spec fn stack_count_seq(keys: Seq<Symbol>, homes: Map<Symbol, StackOrReg>) -> int
    decreases keys.len(),
{
    if keys.len() == 0 {
        0
    } else {
        stack_count_seq(keys.drop_last(), homes) + if homes[keys.last()] is Stack {
            1int
        } else {
            0int
        }
    }
}

/// When every key is stack-homed, the stack-home count is the key count.
pub proof fn lemma_stack_count_all(keys: Seq<Symbol>, homes: Map<Symbol, StackOrReg>)
    requires
        forall|i: int| 0 <= i < keys.len() ==> homes[#[trigger] keys[i]] is Stack,
    ensures
        stack_count_seq(keys, homes) == keys.len(),
    decreases keys.len(),
{
    if keys.len() > 0 {
        lemma_stack_count_all(keys.drop_last(), homes);
        assert(keys.last() == keys[keys.len() - 1]);
    }
}

/// The function prologue: save and set up the frame pointer, then
/// reserve `k` bytes of stack.
pub open spec fn spec_prologue(k: int) -> Seq<X64Assembly> {
    seq![
        X64Assembly::Instruction(
            X64Instruction {
                op_code: X64opCode::Push,
                args: Operands::One(Operand::Register(X64Register::Rbp)),
            },
        ),
        X64Assembly::Instruction(
            X64Instruction {
                op_code: X64opCode::Movq,
                args: Operands::Two(
                    Operand::Register(X64Register::Rsp),
                    Operand::Register(X64Register::Rbp),
                ),
            },
        ),
        X64Assembly::Instruction(
            X64Instruction {
                op_code: X64opCode::Sub,
                args: Operands::Two(
                    Operand::Immediate(X64Value::Absolute(k as i64)),
                    Operand::Register(X64Register::Rsp),
                ),
            },
        ),
    ]
}

/// The function epilogue: restore the stack and frame pointers and
/// return.
pub open spec fn spec_epilogue() -> Seq<X64Assembly> {
    seq![
        X64Assembly::Instruction(
            X64Instruction {
                op_code: X64opCode::Movq,
                args: Operands::Two(
                    Operand::Register(X64Register::Rbp),
                    Operand::Register(X64Register::Rsp),
                ),
            },
        ),
        X64Assembly::Instruction(
            X64Instruction {
                op_code: X64opCode::Pop,
                args: Operands::One(Operand::Register(X64Register::Rbp)),
            },
        ),
        X64Assembly::Instruction(X64Instruction { op_code: X64opCode::Ret, args: Operands::Zero }),
    ]
}

/// One operand after home assignment.  A `MemorySym` whose home is a
/// stack slot has no physical encoding; callers rule that shape out, and
/// the value given here for it is immaterial.
pub open spec fn spec_assign_op(op: SOperand, homes: Map<Symbol, StackOrReg>) -> Operand {
    match op {
        SOperand::Symbol(s) => match homes[s] {
            StackOrReg::Stack(o) => Operand::MemoryOffset(X64Value::Absolute(o), X64Register::Rbp),
            StackOrReg::Reg(r) => Operand::Register(r),
        },
        SOperand::MemorySym(s) => match homes[s] {
            StackOrReg::Reg(r) => Operand::MemoryReg(r),
            StackOrReg::Stack(_) => Operand::MemoryReg(X64Register::Rax),
        },
        SOperand::Immediate(v) => Operand::Immediate(v),
        SOperand::Register(r) => Operand::Register(r),
        SOperand::MemoryImm(v) => Operand::MemoryImm(v),
        SOperand::MemoryReg(r) => Operand::MemoryReg(r),
        SOperand::MemoryOffset(v, r) => Operand::MemoryOffset(v, r),
        SOperand::MemoryScaledIndexed(v, r1, sc, r2) => Operand::MemoryScaledIndexed(v, r1, sc, r2),
    }
}

/// One line after home assignment.
pub open spec fn spec_assign_line(a: X64SAssembly, homes: Map<Symbol, StackOrReg>) -> X64Assembly {
    match a {
        X64SAssembly::Label(l) => X64Assembly::Label(l),
        X64SAssembly::Instruction(i) => X64Assembly::Instruction(
            X64Instruction {
                op_code: i.op_code,
                args: match i.args {
                    SOperands::Zero => Operands::Zero,
                    SOperands::One(a1) => Operands::One(spec_assign_op(a1, homes)),
                    SOperands::Two(a1, a2) => Operands::Two(
                        spec_assign_op(a1, homes),
                        spec_assign_op(a2, homes),
                    ),
                },
            },
        ),
    }
}

/// A whole body after home assignment.
pub open spec fn spec_assign_body(
    body: Seq<X64SAssembly>,
    homes: Map<Symbol, StackOrReg>,
) -> Seq<X64Assembly>
    decreases body.len(),
{
    if body.len() == 0 {
        Seq::empty()
    } else {
        spec_assign_body(body.drop_last(), homes) + seq![spec_assign_line(body.last(), homes)]
    }
}

/// Holds when the homes map can place an operand: the symbol has a
/// home, and a dereferenced symbol lives in a register.
pub open spec fn op_home_ok(op: SOperand, homes: Map<Symbol, StackOrReg>) -> bool {
    match op {
        SOperand::Symbol(s) => homes.contains_key(s),
        SOperand::MemorySym(s) => homes.contains_key(s) && homes[s] is Reg,
        _ => true,
    }
}

pub open spec fn line_homes_ok(a: X64SAssembly, homes: Map<Symbol, StackOrReg>) -> bool {
    match a {
        X64SAssembly::Label(_) => true,
        X64SAssembly::Instruction(i) => match i.args {
            SOperands::Zero => true,
            SOperands::One(a1) => op_home_ok(a1, homes),
            SOperands::Two(a1, a2) => op_home_ok(a1, homes) && op_home_ok(a2, homes),
        },
    }
}

/// Replaces one operand by its physical home.
fn assign_operand(op: SOperand, homes: &AssocMap<Symbol, StackOrReg>) -> (r: Operand)
    requires
        homes.wf(),
        op_home_ok(op, homes@),
    ensures
        r == spec_assign_op(op, homes@),
{
    match op {
        SOperand::Symbol(s) => {
            match homes.get(&s) {
                Some(h) => match *h {
                    StackOrReg::Stack(o) => Operand::MemoryOffset(
                        X64Value::Absolute(o),
                        X64Register::Rbp,
                    ),
                    StackOrReg::Reg(r) => Operand::Register(r),
                },
                None => {
                    proof {
                        assert(false);
                    }
                    Operand::Register(X64Register::Rax)
                },
            }
        },
        SOperand::MemorySym(s) => {
            match homes.get(&s) {
                Some(h) => match *h {
                    StackOrReg::Reg(r) => Operand::MemoryReg(r),
                    StackOrReg::Stack(_) => {
                        proof {
                            assert(false);
                        }
                        Operand::MemoryReg(X64Register::Rax)
                    },
                },
                None => {
                    proof {
                        assert(false);
                    }
                    Operand::MemoryReg(X64Register::Rax)
                },
            }
        },
        SOperand::Immediate(v) => Operand::Immediate(v),
        SOperand::Register(r) => Operand::Register(r),
        SOperand::MemoryImm(v) => Operand::MemoryImm(v),
        SOperand::MemoryReg(r) => Operand::MemoryReg(r),
        SOperand::MemoryOffset(v, r) => Operand::MemoryOffset(v, r),
        SOperand::MemoryScaledIndexed(v, r1, sc, r2) => Operand::MemoryScaledIndexed(v, r1, sc, r2),
    }
}

/// Rewrites one function onto physical operands, wrapping it in the
/// prologue and epilogue.
#[verifier::loop_isolation(false)]
pub fn assign_homes_fn(function: &X64SFunction, homes: &AssocMap<Symbol, StackOrReg>) -> (r:
    X64Function)
    requires
        homes.wf(),
        forall|i: int|
            0 <= i < function.body@.len() ==> line_homes_ok(#[trigger] function.body@[i], homes@),
        8 * (homes.kseq().len() + 2) < i64::MAX,
        homes@.dom().finite(),
    ensures
        r.instruction_listing@ == spec_prologue(
            spec_reservation(stack_count_seq(homes.kseq(), homes@)),
        ) + spec_assign_body(function.body@, homes@) + spec_epilogue(),
{
    let mut listing: Vec<X64Assembly> = Vec::new();
    listing.push(
        X64Assembly::Instruction(
            X64Instruction {
                op_code: X64opCode::Push,
                args: Operands::One(Operand::Register(X64Register::Rbp)),
            },
        ),
    );
    listing.push(
        X64Assembly::Instruction(
            X64Instruction {
                op_code: X64opCode::Movq,
                args: Operands::Two(
                    Operand::Register(X64Register::Rsp),
                    Operand::Register(X64Register::Rbp),
                ),
            },
        ),
    );
    proof {
        homes.lemma_kseq_dom();
    }
    let n_homes = homes.num_entries();
    let mut stack_homes: usize = 0;
    let mut j: usize = 0;
    while j < n_homes
        invariant
            j <= n_homes,
            n_homes == homes.kseq().len(),
            stack_homes <= j,
            stack_homes as int == stack_count_seq(homes.kseq().take(j as int), homes@),
        decreases n_homes - j,
    {
        proof {
            assert(homes.kseq().take(j + 1).drop_last() =~= homes.kseq().take(j as int));
            assert(homes.kseq().take(j + 1).last() == homes.kseq()[j as int]);
        }
        match homes.val_at(j) {
            StackOrReg::Stack(_) => {
                stack_homes = stack_homes + 1;
            },
            StackOrReg::Reg(_) => {},
        }
        j = j + 1;
    }
    proof {
        assert(homes.kseq().take(n_homes as int) =~= homes.kseq());
    }
    let reservations: i64 = if stack_homes % 2 == 0 {
        stack_homes as i64
    } else {
        (stack_homes as i64) + 1
    };
    let stack_reservation: i64 = reservations * 8;
    listing.push(
        X64Assembly::Instruction(
            X64Instruction {
                op_code: X64opCode::Sub,
                args: Operands::Two(
                    Operand::Immediate(X64Value::Absolute(stack_reservation)),
                    Operand::Register(X64Register::Rsp),
                ),
            },
        ),
    );
    proof {
        assert(listing@ =~= spec_prologue(
            spec_reservation(stack_count_seq(homes.kseq(), homes@)),
        ));
    }
    let ghost prologue = listing@;
    let mut i: usize = 0;
    while i < function.body.len()
        invariant
            i <= function.body@.len(),
            listing@ == prologue + spec_assign_body(function.body@.take(i as int), homes@),
        decreases function.body@.len() - i,
    {
        proof {
            assert(function.body@.take(i + 1).drop_last() =~= function.body@.take(i as int));
        }
        let line = function.body[i];
        match line {
            X64SAssembly::Label(l) => {
                listing.push(X64Assembly::Label(l));
            },
            X64SAssembly::Instruction(instruction) => {
                let args = match instruction.args {
                    SOperands::Zero => Operands::Zero,
                    SOperands::One(a1) => Operands::One(assign_operand(a1, homes)),
                    SOperands::Two(a1, a2) => Operands::Two(
                        assign_operand(a1, homes),
                        assign_operand(a2, homes),
                    ),
                };
                listing.push(
                    X64Assembly::Instruction(X64Instruction { op_code: instruction.op_code, args }),
                );
            },
        }
        proof {
            assert(listing@ =~= prologue + spec_assign_body(function.body@.take(i + 1), homes@));
        }
        i = i + 1;
    }
    proof {
        assert(function.body@.take(function.body@.len() as int) =~= function.body@);
    }
    listing.push(
        X64Assembly::Instruction(
            X64Instruction {
                op_code: X64opCode::Movq,
                args: Operands::Two(
                    Operand::Register(X64Register::Rbp),
                    Operand::Register(X64Register::Rsp),
                ),
            },
        ),
    );
    listing.push(
        X64Assembly::Instruction(
            X64Instruction {
                op_code: X64opCode::Pop,
                args: Operands::One(Operand::Register(X64Register::Rbp)),
            },
        ),
    );
    listing.push(
        X64Assembly::Instruction(X64Instruction { op_code: X64opCode::Ret, args: Operands::Zero }),
    );
    proof {
        assert(listing@ =~= spec_prologue(spec_reservation(stack_count_seq(homes.kseq(), homes@)))
            + spec_assign_body(function.body@, homes@) + spec_epilogue());
    }
    X64Function { instruction_listing: listing }
}

// ------------------------------------------------------------------
// Instruction selection
// ------------------------------------------------------------------
/// The argument register of the calling convention for each of the
/// first six argument positions.
pub open spec fn arg_register(i: int) -> X64Register {
    if i == 0 {
        X64Register::Rdi
    } else if i == 1 {
        X64Register::Rsi
    } else if i == 2 {
        X64Register::Rdx
    } else if i == 3 {
        X64Register::Rcx
    } else if i == 4 {
        X64Register::R8
    } else {
        X64Register::R9
    }
}

/// The conditional-jump opcode matching a comparison.
pub open spec fn spec_cc_opcode(c: ComparisonType) -> X64opCode {
    match c {
        ComparisonType::Equal => X64opCode::Je,
        ComparisonType::NotEqual => X64opCode::Jne,
        ComparisonType::GreaterThan => X64opCode::Jg,
        ComparisonType::LessThan => X64opCode::Jl,
        ComparisonType::GreaterThanEqual => X64opCode::Jge,
        ComparisonType::LessThanEqual => X64opCode::Jle,
    }
}

/// What selecting a piece of the intermediate form produces: the
/// emitted lines, the interned string literals, and the counters the
/// generators are left at.
pub ghost struct SelOut {
    pub lines: Seq<X64SAssembly>,
    pub strs: Seq<(Label, String)>,
    pub next_label: u64,
    pub next_symbol: u64,
}

/// Shorthand for an instruction line.
pub open spec fn sinst(op: X64opCode, args: SOperands) -> X64SAssembly {
    X64SAssembly::Instruction(X64SInstruction { op_code: op, args })
}

/// A register-to-register or symbol move.
pub open spec fn smov(src: SOperand, dst: SOperand) -> X64SAssembly {
    sinst(X64opCode::Movq, SOperands::Two(src, dst))
}

/// The moves that load each argument into its convention register.
pub open spec fn spec_call_moves(args: Seq<Symbol>) -> Seq<X64SAssembly> {
    Seq::new(
        args.len(),
        |i: int| smov(SOperand::Symbol(args[i]), SOperand::Register(arg_register(i))),
    )
}

/// The moves that store each incoming convention register into its
/// parameter symbol.
pub open spec fn spec_param_moves(args: Seq<Symbol>) -> Seq<X64SAssembly> {
    Seq::new(
        args.len(),
        |i: int| smov(SOperand::Register(arg_register(i)), SOperand::Symbol(args[i])),
    )
}

/// The mirror of selection for one instruction, threading the fresh
/// label and symbol counters.
pub open spec fn spec_select_instr(instr: LIRInstruction, nl: u64, ns: u64) -> SelOut {
    match instr {
        LIRInstruction::Nop => SelOut {
            lines: seq![sinst(X64opCode::Nop, SOperands::Zero)],
            strs: seq![],
            next_label: nl,
            next_symbol: ns,
        },
        LIRInstruction::IntLit { assign_to, value } => SelOut {
            lines: seq![
                smov(
                    SOperand::Immediate(X64Value::Absolute(value)),
                    SOperand::Symbol(assign_to),
                ),
            ],
            strs: seq![],
            next_label: nl,
            next_symbol: ns,
        },
        LIRInstruction::StringLit { assign_to, value } => {
            let l = Label::Uid(nl);
            SelOut {
                lines: seq![
                    sinst(
                        X64opCode::Lea,
                        SOperands::Two(
                            SOperand::MemoryOffset(X64Value::LabelRef(l), X64Register::Rip),
                            SOperand::Register(X64Register::Rax),
                        ),
                    ),
                    smov(SOperand::Register(X64Register::Rax), SOperand::Symbol(assign_to)),
                ],
                strs: seq![(l, value)],
                next_label: (nl + 1) as u64,
                next_symbol: ns,
            }
        },
        LIRInstruction::StoreToMemoryAtOffset { location, offset, value } => {
            let m = spec_symbol(ns);
            SelOut {
                lines: seq![
                    smov(
                        SOperand::Immediate(X64Value::Absolute(8)),
                        SOperand::Register(X64Register::Rax),
                    ),
                    sinst(X64opCode::IMulq, SOperands::One(SOperand::Symbol(offset))),
                    smov(SOperand::Register(X64Register::Rax), SOperand::Symbol(m)),
                    sinst(
                        X64opCode::Add,
                        SOperands::Two(SOperand::Symbol(location), SOperand::Symbol(m)),
                    ),
                    smov(SOperand::Symbol(value), SOperand::MemorySym(m)),
                ],
                strs: seq![],
                next_label: nl,
                next_symbol: (ns + 1) as u64,
            }
        },
        LIRInstruction::LoadFromMemoryAtOffset { assign_to, location, offset } => {
            let m = spec_symbol(ns);
            SelOut {
                lines: seq![
                    smov(
                        SOperand::Immediate(X64Value::Absolute(8)),
                        SOperand::Register(X64Register::Rax),
                    ),
                    sinst(X64opCode::IMulq, SOperands::One(SOperand::Symbol(offset))),
                    smov(SOperand::Register(X64Register::Rax), SOperand::Symbol(m)),
                    sinst(
                        X64opCode::Add,
                        SOperands::Two(SOperand::Symbol(location), SOperand::Symbol(m)),
                    ),
                    smov(SOperand::MemorySym(m), SOperand::Symbol(assign_to)),
                ],
                strs: seq![],
                next_label: nl,
                next_symbol: (ns + 1) as u64,
            }
        },
        LIRInstruction::Assign { assign_to, id } => SelOut {
            lines: seq![smov(SOperand::Symbol(id), SOperand::Symbol(assign_to))],
            strs: seq![],
            next_label: nl,
            next_symbol: ns,
        },
        LIRInstruction::Negate { assign_to, value } => SelOut {
            lines: seq![
                smov(SOperand::Symbol(value), SOperand::Symbol(assign_to)),
                sinst(X64opCode::Neg, SOperands::One(SOperand::Symbol(assign_to))),
            ],
            strs: seq![],
            next_label: nl,
            next_symbol: ns,
        },
        LIRInstruction::BinaryOp { assign_to, left, op, right } => {
            let rest: Seq<X64SAssembly> = match op {
                InfixOp::Multiply => seq![
                    smov(SOperand::Symbol(left), SOperand::Register(X64Register::Rax)),
                    sinst(X64opCode::IMulq, SOperands::One(SOperand::Symbol(right))),
                    smov(SOperand::Register(X64Register::Rax), SOperand::Symbol(assign_to)),
                ],
                InfixOp::Divide => seq![
                    smov(SOperand::Symbol(left), SOperand::Register(X64Register::Rax)),
                    sinst(X64opCode::IDivq, SOperands::One(SOperand::Symbol(right))),
                    smov(SOperand::Register(X64Register::Rax), SOperand::Symbol(assign_to)),
                ],
                InfixOp::Add => seq![
                    smov(SOperand::Symbol(left), SOperand::Symbol(assign_to)),
                    sinst(
                        X64opCode::Add,
                        SOperands::Two(SOperand::Symbol(right), SOperand::Symbol(assign_to)),
                    ),
                ],
                InfixOp::Subtract => seq![
                    smov(SOperand::Symbol(left), SOperand::Symbol(assign_to)),
                    sinst(
                        X64opCode::Sub,
                        SOperands::Two(SOperand::Symbol(right), SOperand::Symbol(assign_to)),
                    ),
                ],
                InfixOp::And => seq![
                    smov(SOperand::Symbol(left), SOperand::Symbol(assign_to)),
                    sinst(
                        X64opCode::And,
                        SOperands::Two(SOperand::Symbol(right), SOperand::Symbol(assign_to)),
                    ),
                ],
                InfixOp::Or => seq![
                    smov(SOperand::Symbol(left), SOperand::Symbol(assign_to)),
                    sinst(
                        X64opCode::Or,
                        SOperands::Two(SOperand::Symbol(right), SOperand::Symbol(assign_to)),
                    ),
                ],
            };
            SelOut { lines: rest, strs: seq![], next_label: nl, next_symbol: ns }
        },
        LIRInstruction::Call { assign_to, function_name, args } => SelOut {
            lines: spec_call_moves(args@) + seq![
                sinst(
                    X64opCode::Call,
                    SOperands::One(SOperand::MemoryImm(X64Value::LabelRef(function_name))),
                ),
                smov(SOperand::Register(X64Register::Rax), SOperand::Symbol(assign_to)),
            ],
            strs: seq![],
            next_label: nl,
            next_symbol: ns,
        },
        LIRInstruction::Jump { to } => SelOut {
            lines: seq![
                sinst(
                    X64opCode::Jmp,
                    SOperands::One(SOperand::MemoryImm(X64Value::LabelRef(to))),
                ),
            ],
            strs: seq![],
            next_label: nl,
            next_symbol: ns,
        },
        LIRInstruction::JumpC { to, condition } => SelOut {
            lines: seq![
                sinst(
                    X64opCode::Cmp,
                    SOperands::Two(
                        SOperand::Symbol(condition.right),
                        SOperand::Symbol(condition.left),
                    ),
                ),
                sinst(
                    spec_cc_opcode(condition.c),
                    SOperands::One(SOperand::MemoryImm(X64Value::LabelRef(to))),
                ),
            ],
            strs: seq![],
            next_label: nl,
            next_symbol: ns,
        },
    }
}

/// The mirror of selection for one line of a function body.
pub open spec fn spec_select_line(line: LIRAssembly, nl: u64, ns: u64) -> SelOut {
    match line {
        LIRAssembly::Label(l) => SelOut {
            lines: seq![X64SAssembly::Label(l)],
            strs: seq![],
            next_label: nl,
            next_symbol: ns,
        },
        LIRAssembly::Instruction(i) => spec_select_instr(i, nl, ns),
    }
}

/// The mirror of selection for a whole listing.
pub open spec fn spec_select_listing(listing: Seq<LIRAssembly>, nl: u64, ns: u64) -> SelOut
    decreases listing.len(),
{
    if listing.len() == 0 {
        SelOut { lines: seq![], strs: seq![], next_label: nl, next_symbol: ns }
    } else {
        let pre = spec_select_listing(listing.drop_last(), nl, ns);
        let last = spec_select_line(listing.last(), pre.next_label, pre.next_symbol);
        SelOut {
            lines: pre.lines + last.lines,
            strs: pre.strs + last.strs,
            next_label: last.next_label,
            next_symbol: last.next_symbol,
        }
    }
}

/// The mirror of selection for a whole function: parameter moves, the
/// selected body, and the final move of the return symbol into rax.
pub open spec fn spec_select_fn(f: LIRFunction, nl: u64, ns: u64) -> SelOut {
    let body = spec_select_listing(f.instruction_listing@, nl, ns);
    SelOut {
        lines: spec_param_moves(f.arguments@) + body.lines + seq![
            smov(SOperand::Symbol(f.return_symbol), SOperand::Register(X64Register::Rax)),
        ],
        strs: body.strs,
        next_label: body.next_label,
        next_symbol: body.next_symbol,
    }
}

/// Every call in the listing passes at most six arguments, the limit of
/// the register calling convention this selector implements.
pub open spec fn listing_calls_ok(listing: Seq<LIRAssembly>) -> bool {
    forall|i: int|
        0 <= i < listing.len() ==> match #[trigger] listing[i] {
            LIRAssembly::Instruction(LIRInstruction::Call { args, .. }) => args@.len() <= 6,
            _ => true,
        }
}

/// The string table after recording each interned literal in turn.
pub open spec fn spec_insert_strs(m: Map<Label, String>, strs: Seq<(Label, String)>) -> Map<
    Label,
    String,
>
    decreases strs.len(),
{
    if strs.len() == 0 {
        m
    } else {
        spec_insert_strs(m, strs.drop_last()).insert(strs.last().0, strs.last().1)
    }
}

/// The convention register for one argument position.
fn arg_register_exec(i: usize) -> (r: X64Register)
    requires
        i < 6,
    ensures
        r == arg_register(i as int),
{
    if i == 0 {
        X64Register::Rdi
    } else if i == 1 {
        X64Register::Rsi
    } else if i == 2 {
        X64Register::Rdx
    } else if i == 3 {
        X64Register::Rcx
    } else if i == 4 {
        X64Register::R8
    } else {
        X64Register::R9
    }
}

/// Selects symbolic x86-64 for one function.
#[verifier::loop_isolation(false)]
#[verifier::rlimit(100)]
#[verifier::spinoff_prover]
pub fn select_fn(
    function: &LIRFunction,
    string_literals: &mut AssocMap<Label, String>,
    state: &mut GlobalInfo,
) -> (r: X64SFunction)
    requires
        old(string_literals).wf(),
        function.arguments@.len() <= 6,
        listing_calls_ok(function.instruction_listing@),
        old(state).label_gen.next() + function.instruction_listing@.len() < u64::MAX,
        old(state).symbol_gen.next() + function.instruction_listing@.len() < u64::MAX,
    ensures
        ({
            let out = spec_select_fn(
                *function,
                old(state).label_gen.next(),
                old(state).symbol_gen.next(),
            );
            &&& r.body@ == out.lines
            &&& final(state).label_gen.next() == out.next_label
            &&& final(state).symbol_gen.next() == out.next_symbol
            &&& final(string_literals).wf()
            &&& final(string_literals)@ == spec_insert_strs(old(string_literals)@, out.strs)
            &&& final(state).string_literals == old(state).string_literals
        }),
{
    let mut body: Vec<X64SAssembly> = Vec::new();
    let mut pos: usize = 0;
    while pos < function.arguments.len()
        invariant
            pos <= function.arguments@.len(),
            body@ == spec_param_moves(function.arguments@.take(pos as int)),
        decreases function.arguments@.len() - pos,
    {
        let reg = arg_register_exec(pos);
        body.push(
            X64SAssembly::Instruction(
                X64SInstruction {
                    op_code: X64opCode::Movq,
                    args: SOperands::Two(
                        SOperand::Register(reg),
                        SOperand::Symbol(function.arguments[pos]),
                    ),
                },
            ),
        );
        proof {
            assert(body@ =~= spec_param_moves(function.arguments@.take(pos + 1)));
        }
        pos = pos + 1;
    }
    proof {
        assert(function.arguments@.take(function.arguments@.len() as int)
            =~= function.arguments@);
    }
    let ghost prefix = body@;
    let ghost nl0 = state.label_gen.next();
    let ghost ns0 = state.symbol_gen.next();
    let mut i: usize = 0;
    while i < function.instruction_listing.len()
        invariant
            i <= function.instruction_listing@.len(),
            ({
                let out = spec_select_listing(
                    function.instruction_listing@.take(i as int),
                    nl0,
                    ns0,
                );
                &&& body@ == prefix + out.lines
                &&& state.label_gen.next() == out.next_label
                &&& state.symbol_gen.next() == out.next_symbol
                &&& string_literals.wf()
                &&& string_literals@ == spec_insert_strs(old(string_literals)@, out.strs)
            }),
            state.label_gen.next() <= nl0 + i,
            state.symbol_gen.next() <= ns0 + i,
            state.string_literals == old(state).string_literals,
        decreases function.instruction_listing@.len() - i,
    {
        proof {
            assert(function.instruction_listing@.take(i + 1).drop_last()
                =~= function.instruction_listing@.take(i as int));
        }
        let ghost pre = spec_select_listing(function.instruction_listing@.take(i as int), nl0, ns0);
        let line = &function.instruction_listing[i];
        match line {
            LIRAssembly::Label(label) => {
                body.push(X64SAssembly::Label(*label));
            },
            LIRAssembly::Instruction(instruction) => {
                match instruction {
                    LIRInstruction::Nop => {
                        body.push(
                            X64SAssembly::Instruction(
                                X64SInstruction { op_code: X64opCode::Nop, args: SOperands::Zero },
                            ),
                        );
                    },
                    LIRInstruction::IntLit { assign_to, value } => {
                        body.push(
                            X64SAssembly::Instruction(
                                X64SInstruction {
                                    op_code: X64opCode::Movq,
                                    args: SOperands::Two(
                                        SOperand::Immediate(X64Value::Absolute(*value)),
                                        SOperand::Symbol(*assign_to),
                                    ),
                                },
                            ),
                        );
                    },
                    LIRInstruction::StringLit { assign_to, value } => {
                        let string_label = state.label_gen.new_label();
                        string_literals.insert(string_label, value.clone());
                        body.push(
                            X64SAssembly::Instruction(
                                X64SInstruction {
                                    op_code: X64opCode::Lea,
                                    args: SOperands::Two(
                                        SOperand::MemoryOffset(
                                            X64Value::LabelRef(string_label),
                                            X64Register::Rip,
                                        ),
                                        SOperand::Register(X64Register::Rax),
                                    ),
                                },
                            ),
                        );
                        body.push(
                            X64SAssembly::Instruction(
                                X64SInstruction {
                                    op_code: X64opCode::Movq,
                                    args: SOperands::Two(
                                        SOperand::Register(X64Register::Rax),
                                        SOperand::Symbol(*assign_to),
                                    ),
                                },
                            ),
                        );
                    },
                    LIRInstruction::StoreToMemoryAtOffset { location, offset, value } => {
                        let memory_location = state.symbol_gen.new_symbol();
                        body.push(
                            X64SAssembly::Instruction(
                                X64SInstruction {
                                    op_code: X64opCode::Movq,
                                    args: SOperands::Two(
                                        SOperand::Immediate(X64Value::Absolute(8)),
                                        SOperand::Register(X64Register::Rax),
                                    ),
                                },
                            ),
                        );
                        body.push(
                            X64SAssembly::Instruction(
                                X64SInstruction {
                                    op_code: X64opCode::IMulq,
                                    args: SOperands::One(SOperand::Symbol(*offset)),
                                },
                            ),
                        );
                        body.push(
                            X64SAssembly::Instruction(
                                X64SInstruction {
                                    op_code: X64opCode::Movq,
                                    args: SOperands::Two(
                                        SOperand::Register(X64Register::Rax),
                                        SOperand::Symbol(memory_location),
                                    ),
                                },
                            ),
                        );
                        body.push(
                            X64SAssembly::Instruction(
                                X64SInstruction {
                                    op_code: X64opCode::Add,
                                    args: SOperands::Two(
                                        SOperand::Symbol(*location),
                                        SOperand::Symbol(memory_location),
                                    ),
                                },
                            ),
                        );
                        body.push(
                            X64SAssembly::Instruction(
                                X64SInstruction {
                                    op_code: X64opCode::Movq,
                                    args: SOperands::Two(
                                        SOperand::Symbol(*value),
                                        SOperand::MemorySym(memory_location),
                                    ),
                                },
                            ),
                        );
                    },
                    LIRInstruction::LoadFromMemoryAtOffset { assign_to, location, offset } => {
                        let memory_location = state.symbol_gen.new_symbol();
                        body.push(
                            X64SAssembly::Instruction(
                                X64SInstruction {
                                    op_code: X64opCode::Movq,
                                    args: SOperands::Two(
                                        SOperand::Immediate(X64Value::Absolute(8)),
                                        SOperand::Register(X64Register::Rax),
                                    ),
                                },
                            ),
                        );
                        body.push(
                            X64SAssembly::Instruction(
                                X64SInstruction {
                                    op_code: X64opCode::IMulq,
                                    args: SOperands::One(SOperand::Symbol(*offset)),
                                },
                            ),
                        );
                        body.push(
                            X64SAssembly::Instruction(
                                X64SInstruction {
                                    op_code: X64opCode::Movq,
                                    args: SOperands::Two(
                                        SOperand::Register(X64Register::Rax),
                                        SOperand::Symbol(memory_location),
                                    ),
                                },
                            ),
                        );
                        body.push(
                            X64SAssembly::Instruction(
                                X64SInstruction {
                                    op_code: X64opCode::Add,
                                    args: SOperands::Two(
                                        SOperand::Symbol(*location),
                                        SOperand::Symbol(memory_location),
                                    ),
                                },
                            ),
                        );
                        body.push(
                            X64SAssembly::Instruction(
                                X64SInstruction {
                                    op_code: X64opCode::Movq,
                                    args: SOperands::Two(
                                        SOperand::MemorySym(memory_location),
                                        SOperand::Symbol(*assign_to),
                                    ),
                                },
                            ),
                        );
                    },
                    LIRInstruction::Assign { assign_to, id } => {
                        body.push(
                            X64SAssembly::Instruction(
                                X64SInstruction {
                                    op_code: X64opCode::Movq,
                                    args: SOperands::Two(
                                        SOperand::Symbol(*id),
                                        SOperand::Symbol(*assign_to),
                                    ),
                                },
                            ),
                        );
                    },
                    LIRInstruction::Negate { assign_to, value } => {
                        body.push(
                            X64SAssembly::Instruction(
                                X64SInstruction {
                                    op_code: X64opCode::Movq,
                                    args: SOperands::Two(
                                        SOperand::Symbol(*value),
                                        SOperand::Symbol(*assign_to),
                                    ),
                                },
                            ),
                        );
                        body.push(
                            X64SAssembly::Instruction(
                                X64SInstruction {
                                    op_code: X64opCode::Neg,
                                    args: SOperands::One(SOperand::Symbol(*assign_to)),
                                },
                            ),
                        );
                    },
                    LIRInstruction::BinaryOp { assign_to, left, op, right } => {
                        match op {
                            InfixOp::Multiply => {
                                body.push(
                                    X64SAssembly::Instruction(
                                        X64SInstruction {
                                            op_code: X64opCode::Movq,
                                            args: SOperands::Two(
                                                SOperand::Symbol(*left),
                                                SOperand::Register(X64Register::Rax),
                                            ),
                                        },
                                    ),
                                );
                                body.push(
                                    X64SAssembly::Instruction(
                                        X64SInstruction {
                                            op_code: X64opCode::IMulq,
                                            args: SOperands::One(SOperand::Symbol(*right)),
                                        },
                                    ),
                                );
                                body.push(
                                    X64SAssembly::Instruction(
                                        X64SInstruction {
                                            op_code: X64opCode::Movq,
                                            args: SOperands::Two(
                                                SOperand::Register(X64Register::Rax),
                                                SOperand::Symbol(*assign_to),
                                            ),
                                        },
                                    ),
                                );
                            },
                            InfixOp::Divide => {
                                body.push(
                                    X64SAssembly::Instruction(
                                        X64SInstruction {
                                            op_code: X64opCode::Movq,
                                            args: SOperands::Two(
                                                SOperand::Symbol(*left),
                                                SOperand::Register(X64Register::Rax),
                                            ),
                                        },
                                    ),
                                );
                                body.push(
                                    X64SAssembly::Instruction(
                                        X64SInstruction {
                                            op_code: X64opCode::IDivq,
                                            args: SOperands::One(SOperand::Symbol(*right)),
                                        },
                                    ),
                                );
                                body.push(
                                    X64SAssembly::Instruction(
                                        X64SInstruction {
                                            op_code: X64opCode::Movq,
                                            args: SOperands::Two(
                                                SOperand::Register(X64Register::Rax),
                                                SOperand::Symbol(*assign_to),
                                            ),
                                        },
                                    ),
                                );
                            },
                            InfixOp::Add => {
                                body.push(
                                    X64SAssembly::Instruction(
                                        X64SInstruction {
                                            op_code: X64opCode::Movq,
                                            args: SOperands::Two(
                                                SOperand::Symbol(*left),
                                                SOperand::Symbol(*assign_to),
                                            ),
                                        },
                                    ),
                                );
                                body.push(
                                    X64SAssembly::Instruction(
                                        X64SInstruction {
                                            op_code: X64opCode::Add,
                                            args: SOperands::Two(
                                                SOperand::Symbol(*right),
                                                SOperand::Symbol(*assign_to),
                                            ),
                                        },
                                    ),
                                );
                            },
                            InfixOp::Subtract => {
                                body.push(
                                    X64SAssembly::Instruction(
                                        X64SInstruction {
                                            op_code: X64opCode::Movq,
                                            args: SOperands::Two(
                                                SOperand::Symbol(*left),
                                                SOperand::Symbol(*assign_to),
                                            ),
                                        },
                                    ),
                                );
                                body.push(
                                    X64SAssembly::Instruction(
                                        X64SInstruction {
                                            op_code: X64opCode::Sub,
                                            args: SOperands::Two(
                                                SOperand::Symbol(*right),
                                                SOperand::Symbol(*assign_to),
                                            ),
                                        },
                                    ),
                                );
                            },
                            InfixOp::And => {
                                body.push(
                                    X64SAssembly::Instruction(
                                        X64SInstruction {
                                            op_code: X64opCode::Movq,
                                            args: SOperands::Two(
                                                SOperand::Symbol(*left),
                                                SOperand::Symbol(*assign_to),
                                            ),
                                        },
                                    ),
                                );
                                body.push(
                                    X64SAssembly::Instruction(
                                        X64SInstruction {
                                            op_code: X64opCode::And,
                                            args: SOperands::Two(
                                                SOperand::Symbol(*right),
                                                SOperand::Symbol(*assign_to),
                                            ),
                                        },
                                    ),
                                );
                            },
                            InfixOp::Or => {
                                body.push(
                                    X64SAssembly::Instruction(
                                        X64SInstruction {
                                            op_code: X64opCode::Movq,
                                            args: SOperands::Two(
                                                SOperand::Symbol(*left),
                                                SOperand::Symbol(*assign_to),
                                            ),
                                        },
                                    ),
                                );
                                body.push(
                                    X64SAssembly::Instruction(
                                        X64SInstruction {
                                            op_code: X64opCode::Or,
                                            args: SOperands::Two(
                                                SOperand::Symbol(*right),
                                                SOperand::Symbol(*assign_to),
                                            ),
                                        },
                                    ),
                                );
                            },
                        }
                    },
                    LIRInstruction::Call { assign_to, function_name, args } => {
                        let mut k: usize = 0;
                        while k < args.len()
                            invariant
                                k <= args@.len(),
                                args@.len() <= 6,
                                body@ == prefix + pre.lines + spec_call_moves(args@).take(k as int),
                            decreases args@.len() - k,
                        {
                            let reg = arg_register_exec(k);
                            body.push(
                                X64SAssembly::Instruction(
                                    X64SInstruction {
                                        op_code: X64opCode::Movq,
                                        args: SOperands::Two(
                                            SOperand::Symbol(args[k]),
                                            SOperand::Register(reg),
                                        ),
                                    },
                                ),
                            );
                            proof {
                                assert(body@ =~= prefix + pre.lines + spec_call_moves(
                                    args@,
                                ).take(k + 1));
                            }
                            k = k + 1;
                        }
                        proof {
                            assert(spec_call_moves(args@).take(args@.len() as int)
                                =~= spec_call_moves(args@));
                        }
                        body.push(
                            X64SAssembly::Instruction(
                                X64SInstruction {
                                    op_code: X64opCode::Call,
                                    args: SOperands::One(
                                        SOperand::MemoryImm(X64Value::LabelRef(*function_name)),
                                    ),
                                },
                            ),
                        );
                        body.push(
                            X64SAssembly::Instruction(
                                X64SInstruction {
                                    op_code: X64opCode::Movq,
                                    args: SOperands::Two(
                                        SOperand::Register(X64Register::Rax),
                                        SOperand::Symbol(*assign_to),
                                    ),
                                },
                            ),
                        );
                    },
                    LIRInstruction::Jump { to } => {
                        body.push(
                            X64SAssembly::Instruction(
                                X64SInstruction {
                                    op_code: X64opCode::Jmp,
                                    args: SOperands::One(
                                        SOperand::MemoryImm(X64Value::LabelRef(*to)),
                                    ),
                                },
                            ),
                        );
                    },
                    LIRInstruction::JumpC { to, condition } => {
                        body.push(
                            X64SAssembly::Instruction(
                                X64SInstruction {
                                    op_code: X64opCode::Cmp,
                                    args: SOperands::Two(
                                        SOperand::Symbol(condition.right),
                                        SOperand::Symbol(condition.left),
                                    ),
                                },
                            ),
                        );
                        let cc = match condition.c {
                            ComparisonType::Equal => X64opCode::Je,
                            ComparisonType::NotEqual => X64opCode::Jne,
                            ComparisonType::GreaterThan => X64opCode::Jg,
                            ComparisonType::LessThan => X64opCode::Jl,
                            ComparisonType::GreaterThanEqual => X64opCode::Jge,
                            ComparisonType::LessThanEqual => X64opCode::Jle,
                        };
                        body.push(
                            X64SAssembly::Instruction(
                                X64SInstruction {
                                    op_code: cc,
                                    args: SOperands::One(
                                        SOperand::MemoryImm(X64Value::LabelRef(*to)),
                                    ),
                                },
                            ),
                        );
                    },
                }
            },
        }
        proof {
            let cur = spec_select_line(
                function.instruction_listing@[i as int],
                pre.next_label,
                pre.next_symbol,
            );
            let post = spec_select_listing(function.instruction_listing@.take(i + 1), nl0, ns0);
            assert(post.lines == pre.lines + cur.lines);
            assert(post.strs == pre.strs + cur.strs);
            assert(body@ =~= prefix + post.lines);
            if cur.strs.len() > 0 {
                assert(post.strs.drop_last() =~= pre.strs);
                assert(string_literals@ =~= spec_insert_strs(old(string_literals)@, post.strs));
            } else {
                assert(post.strs =~= pre.strs);
            }
        }
        i = i + 1;
    }
    proof {
        assert(function.instruction_listing@.take(function.instruction_listing@.len() as int)
            =~= function.instruction_listing@);
    }
    body.push(
        X64SAssembly::Instruction(
            X64SInstruction {
                op_code: X64opCode::Movq,
                args: SOperands::Two(
                    SOperand::Symbol(function.return_symbol),
                    SOperand::Register(X64Register::Rax),
                ),
            },
        ),
    );
    proof {
        let out = spec_select_fn(*function, nl0, ns0);
        assert(body@ =~= out.lines);
    }
    X64SFunction { body }
}

/// The homes the baseline allocator gives a function: every symbol the
/// body mentions, in first-occurrence order, mapped to consecutive
/// stack slots below the frame pointer.
pub open spec fn spec_fn_homes(body: Seq<X64SAssembly>) -> Map<Symbol, StackOrReg> {
    let keys = dedup_first(body_sym_seq(body));
    Map::new(
        |s: Symbol| keys.contains(s),
        |s: Symbol| StackOrReg::Stack((-8 * (keys.index_of(s) + 1)) as i64),
    )
}

/// Symbols a line mentions occur in the body's symbol sequence.
proof fn lemma_line_syms_in_body(body: Seq<X64SAssembly>, i: int)
    requires
        0 <= i < body.len(),
    ensures
        forall|s: Symbol|
            line_sym_seq(body[i]).contains(s) ==> body_sym_seq(body).contains(s),
    decreases body.len(),
{
    if i == body.len() - 1 {
        assert forall|s: Symbol| line_sym_seq(body[i]).contains(s) implies body_sym_seq(
            body,
        ).contains(s) by {
            let j = choose|j: int|
                0 <= j < line_sym_seq(body[i]).len() && (#[trigger] line_sym_seq(body[i])[j]) == s;
            assert(body_sym_seq(body) == body_sym_seq(body.drop_last()) + line_sym_seq(
                body.last(),
            ));
            assert(body_sym_seq(body)[body_sym_seq(body.drop_last()).len() + j] == s);
        }
    } else {
        lemma_line_syms_in_body(body.drop_last(), i);
        assert(body.drop_last()[i] == body[i]);
        assert forall|s: Symbol| line_sym_seq(body[i]).contains(s) implies body_sym_seq(
            body,
        ).contains(s) by {
            assert(body_sym_seq(body.drop_last()).contains(s));
            let j = choose|j: int|
                0 <= j < body_sym_seq(body.drop_last()).len() && (#[trigger] body_sym_seq(
                    body.drop_last(),
                )[j]) == s;
            assert(body_sym_seq(body) == body_sym_seq(body.drop_last()) + line_sym_seq(
                body.last(),
            ));
            assert(body_sym_seq(body)[j] == s);
        }
    }
}

/// A body mentions at most two symbols per line.
proof fn lemma_body_sym_len(body: Seq<X64SAssembly>)
    ensures
        body_sym_seq(body).len() <= 2 * body.len(),
    decreases body.len(),
{
    if body.len() > 0 {
        lemma_body_sym_len(body.drop_last());
    }
}

/// Computes the baseline homes of one function: collect its symbols and
/// assign each a distinct stack slot.
pub fn homes_for(function: &X64SFunction) -> (homes: AssocMap<Symbol, StackOrReg>)
    requires
        function.body@.len() < 0x1000_0000_0000,
    ensures
        homes.wf(),
        homes@ == spec_fn_homes(function.body@),
        homes@.dom() == body_sym_seq(function.body@).to_set(),
        homes@.dom().finite(),
        homes@.dom().len() == dedup_first(body_sym_seq(function.body@)).len(),
        homes.kseq() == dedup_first(body_sym_seq(function.body@)),
{
    let allocation = register_alloc(function);
    proof {
        lemma_body_sym_len(function.body@);
        lemma_dedup_first(body_sym_seq(function.body@));
        allocation.lemma_kseq_dom();
    }
    let homes = register_assignment(&allocation);
    proof {
        let keys = dedup_first(body_sym_seq(function.body@));
        keys.unique_seq_to_set();
        homes.lemma_kseq_dom();
        assert forall|s: Symbol| #[trigger] homes@.contains_key(s) implies keys.contains(s)
            && homes@[s] == spec_fn_homes(function.body@)[s] by {
            let i = choose|i: int|
                0 <= i < homes.kseq().len() && (#[trigger] homes.kseq()[i]) == s;
            assert(keys[i] == s);
            assert(keys.contains(s));
            let j = keys.index_of(s);
            assert(keys[j] == s);
            assert(j == i);
            assert(homes@[homes.kseq()[i]] == StackOrReg::Stack((-8 * (i + 1)) as i64));
        }
        assert forall|s: Symbol| keys.contains(s) implies homes@.contains_key(s) by {
            let j = choose|j: int| 0 <= j < keys.len() && (#[trigger] keys[j]) == s;
            assert(homes.kseq()[j] == s);
        }
        assert(homes@.dom() =~= spec_fn_homes(function.body@).dom());
        assert(homes@ =~= spec_fn_homes(function.body@));
        assert(homes@.dom() =~= body_sym_seq(function.body@).to_set());
        assert(homes@.dom() =~= keys.to_set());
    }
    homes
}

/// The homes the baseline allocator hands out satisfy the stack-slot
/// discipline: every symbol of the body has exactly one home; each home
/// is a stack slot at a negative offset, a multiple of eight, within
/// the 16-byte-aligned reservation; and no two symbols share a slot.
pub proof fn lemma_spec_fn_homes(body: Seq<X64SAssembly>)
    requires
        body.len() < 0x1000_0000_0000,
    ensures
        spec_fn_homes(body).dom() == body_sym_seq(body).to_set(),
        forall|s: Symbol|
            spec_fn_homes(body).dom().contains(s) ==> {
                let h = #[trigger] spec_fn_homes(body)[s];
                &&& h is Stack
                &&& h->Stack_0 < 0
                &&& h->Stack_0 % 8 == 0
                &&& h->Stack_0 >= -spec_reservation(
                    dedup_first(body_sym_seq(body)).len() as int,
                )
            },
        forall|s1: Symbol, s2: Symbol|
            spec_fn_homes(body).dom().contains(s1) && spec_fn_homes(body).dom().contains(s2) && s1
                != s2 ==> #[trigger] spec_fn_homes(body)[s1] != #[trigger] spec_fn_homes(body)[s2],
        spec_reservation(dedup_first(body_sym_seq(body)).len() as int) % 16 == 0,
{
    let keys = dedup_first(body_sym_seq(body));
    lemma_dedup_first(body_sym_seq(body));
    lemma_body_sym_len(body);
    assert(keys.len() * 8 < i64::MAX || true);
    assert(spec_fn_homes(body).dom() =~= body_sym_seq(body).to_set());
    assert forall|s: Symbol| spec_fn_homes(body).dom().contains(s) implies {
        let h = #[trigger] spec_fn_homes(body)[s];
        &&& h is Stack
        &&& h->Stack_0 < 0
        &&& h->Stack_0 % 8 == 0
        &&& h->Stack_0 >= -spec_reservation(keys.len() as int)
    } by {
        assert(keys.contains(s));
        let j = keys.index_of(s);
        assert(keys[j] == s);
        assert(0 <= j < keys.len());
        assert(keys.len() <= body_sym_seq(body).len() <= 2 * body.len());
        let v = -8 * (j + 1);
        assert(i64::MIN <= v < 0);
        assert((v as i64) == v);
        assert(v >= -8 * keys.len() >= -spec_reservation(keys.len() as int));
    }
    assert forall|s1: Symbol, s2: Symbol|
        spec_fn_homes(body).dom().contains(s1) && spec_fn_homes(body).dom().contains(s2) && s1
            != s2 implies #[trigger] spec_fn_homes(body)[s1] != #[trigger] spec_fn_homes(
        body,
    )[s2] by {
        assert(keys.contains(s1));
        assert(keys.contains(s2));
        let j1 = keys.index_of(s1);
        let j2 = keys.index_of(s2);
        assert(keys[j1] == s1);
        assert(keys[j2] == s2);
        assert(j1 != j2);
        assert(keys.len() <= body_sym_seq(body).len() <= 2 * body.len());
        let v1 = -8 * (j1 + 1);
        let v2 = -8 * (j2 + 1);
        assert(i64::MIN <= v1 < 0 && i64::MIN <= v2 < 0);
        assert((v1 as i64) == v1 && (v2 as i64) == v2);
        assert(v1 != v2);
    }
}

/// The body after legalisation mentions no dereferenced symbol, so the
/// baseline all-stack homes can place every operand.
proof fn lemma_homes_ok_no_memsym(body: Seq<X64SAssembly>, homes: Map<Symbol, StackOrReg>)
    requires
        forall|i: int|
            0 <= i < body.len() ==> match #[trigger] body[i] {
                X64SAssembly::Instruction(instr) => !has_memory_sym(instr.args),
                X64SAssembly::Label(_) => true,
            },
        homes.dom() == body_sym_seq(body).to_set(),
    ensures
        forall|i: int| 0 <= i < body.len() ==> line_homes_ok(#[trigger] body[i], homes),
{
    assert forall|i: int| 0 <= i < body.len() implies line_homes_ok(#[trigger] body[i], homes) by {
        lemma_line_syms_in_body(body, i);
        match body[i] {
            X64SAssembly::Instruction(instr) => {
                match instr.args {
                    SOperands::Zero => {},
                    SOperands::One(a1) => {
                        match a1 {
                            SOperand::Symbol(s) => {
                                assert(line_sym_seq(body[i])[0] == s);
                                assert(line_sym_seq(body[i]).contains(s));
                                assert(homes.contains_key(s));
                            },
                            _ => {},
                        }
                    },
                    SOperands::Two(a1, a2) => {
                        match a1 {
                            SOperand::Symbol(s) => {
                                assert(line_sym_seq(body[i])[0] == s);
                                assert(line_sym_seq(body[i]).contains(s));
                                assert(homes.contains_key(s));
                            },
                            _ => {},
                        }
                        match a2 {
                            SOperand::Symbol(s) => {
                                let base = opt_sym_seq(a1.symbol_of());
                                assert(line_sym_seq(body[i])[base.len() as int] == s);
                                assert(line_sym_seq(body[i]).contains(s));
                                assert(homes.contains_key(s));
                            },
                            _ => {},
                        }
                    },
                }
            },
            X64SAssembly::Label(_) => {},
        }
    }
}

/// Assigns homes across the whole program: each function gets the
/// baseline all-stack assignment, a prologue and an epilogue.
#[verifier::loop_isolation(false)]
pub fn assign_homes(program: X64SProgram) -> (r: X64Program)
    requires
        program.other_functions.wf(),
        program.string_literals.wf(),
        program.main_function.body@.len() < 0x1000_0000_0000,
        forall|l: Label|
            program.other_functions@.contains_key(l) ==> (#[trigger] program.other_functions@[l]).body@.len()
                < 0x1000_0000_0000,
        forall|i: int|
            0 <= i < program.main_function.body@.len() ==> match #[trigger] program.main_function.body@[i] {
                X64SAssembly::Instruction(instr) => !has_memory_sym(instr.args),
                X64SAssembly::Label(_) => true,
            },
        forall|l: Label, i: int|
            program.other_functions@.contains_key(l) && 0 <= i
                < program.other_functions@[l].body@.len() ==> match #[trigger] program.other_functions@[l].body@[i] {
                X64SAssembly::Instruction(instr) => !has_memory_sym(instr.args),
                X64SAssembly::Label(_) => true,
            },
    ensures
        ({
            let body = program.main_function.body@;
            r.main_function.instruction_listing@ == spec_prologue(
                spec_reservation(dedup_first(body_sym_seq(body)).len() as int),
            ) + spec_assign_body(body, spec_fn_homes(body)) + spec_epilogue()
        }),
        r.other_functions.wf(),
        r.other_functions.kseq() == program.other_functions.kseq(),
        r.other_functions@.dom() == program.other_functions@.dom(),
        forall|l: Label|
            r.other_functions@.contains_key(l) ==> ({
                let body = program.other_functions@[l].body@;
                (#[trigger] r.other_functions@[l]).instruction_listing@ == spec_prologue(
                    spec_reservation(dedup_first(body_sym_seq(body)).len() as int),
                ) + spec_assign_body(body, spec_fn_homes(body)) + spec_epilogue()
            }),
        r.string_literals == program.string_literals,
{
    let main_homes = homes_for(&program.main_function);
    proof {
        lemma_homes_ok_no_memsym(program.main_function.body@, main_homes@);
        lemma_body_sym_len(program.main_function.body@);
        lemma_dedup_first(body_sym_seq(program.main_function.body@));
        main_homes.lemma_kseq_dom();
        assert forall|i: int| 0 <= i < main_homes.kseq().len() implies main_homes@[
            #[trigger] main_homes.kseq()[i]
        ] is Stack by {
            assert(main_homes.kseq().contains(main_homes.kseq()[i]));
            assert(main_homes@.dom().contains(main_homes.kseq()[i]));
        }
        lemma_stack_count_all(main_homes.kseq(), main_homes@);
    }
    let main_function = assign_homes_fn(&program.main_function, &main_homes);
    let mut other_functions: AssocMap<Label, X64Function> = AssocMap::new();
    let n = program.other_functions.num_entries();
    let mut i: usize = 0;
    proof {
        program.other_functions.lemma_kseq_dom();
    }
    while i < n
        invariant
            i <= n,
            n == program.other_functions.kseq().len(),
            other_functions.wf(),
            other_functions.kseq() == program.other_functions.kseq().take(i as int),
            forall|l: Label|
                other_functions@.contains_key(l) ==> program.other_functions@.contains_key(l) && ({
                    let body = program.other_functions@[l].body@;
                    (#[trigger] other_functions@[l]).instruction_listing@ == spec_prologue(
                        spec_reservation(dedup_first(body_sym_seq(body)).len() as int),
                    ) + spec_assign_body(body, spec_fn_homes(body)) + spec_epilogue()
                }),
            forall|j: int|
                0 <= j < i ==> other_functions@.contains_key(
                    #[trigger] program.other_functions.kseq()[j],
                ),
        decreases n - i,
    {
        let l = *program.other_functions.key_at(i);
        let f = program.other_functions.val_at(i);
        let homes = homes_for(f);
        proof {
            lemma_homes_ok_no_memsym(f.body@, homes@);
            lemma_body_sym_len(f.body@);
            lemma_dedup_first(body_sym_seq(f.body@));
            homes.lemma_kseq_dom();
            assert forall|k: int| 0 <= k < homes.kseq().len() implies homes@[
                #[trigger] homes.kseq()[k]
            ] is Stack by {
                assert(homes.kseq().contains(homes.kseq()[k]));
                assert(homes@.dom().contains(homes.kseq()[k]));
            }
            lemma_stack_count_all(homes.kseq(), homes@);
        }
        let compiled = assign_homes_fn(f, &homes);
        proof {
            other_functions.lemma_kseq_dom();
            if other_functions@.contains_key(l) {
                let j = choose|j: int|
                    0 <= j < other_functions.kseq().len() && (#[trigger] other_functions.kseq()[j])
                        == l;
                assert(program.other_functions.kseq()[j] == l);
                assert(program.other_functions.kseq()[i as int] == l);
                assert(false);
            }
        }
        other_functions.insert(l, compiled);
        proof {
            assert(other_functions.kseq() =~= program.other_functions.kseq().take(i + 1));
        }
        i = i + 1;
    }
    proof {
        assert(program.other_functions.kseq().take(n as int) =~= program.other_functions.kseq());
        assert forall|l: Label| program.other_functions@.contains_key(
            l,
        ) implies other_functions@.contains_key(l) by {
            let j = choose|j: int|
                0 <= j < program.other_functions.kseq().len() && (
                #[trigger] program.other_functions.kseq()[j]) == l;
            assert(other_functions@.contains_key(program.other_functions.kseq()[j]));
        }
        assert forall|l: Label| other_functions@.dom().contains(
            l,
        ) implies program.other_functions@.dom().contains(l) by {
            assert(other_functions@.contains_key(l));
            let v = other_functions@[l];
        }
        assert(other_functions@.dom() =~= program.other_functions@.dom());
    }
    X64Program { main_function, other_functions, string_literals: program.string_literals }
}

/// The labels an operand can reference as a jump or call target.
pub open spec fn op_imm_label(op: SOperand) -> Option<Label> {
    match op {
        SOperand::MemoryImm(X64Value::LabelRef(l)) => Some(l),
        _ => None,
    }
}

/// The labels a line references as jump or call targets.
pub open spec fn line_imm_labels(a: X64SAssembly) -> Set<Label> {
    match a {
        X64SAssembly::Label(_) => Set::empty(),
        X64SAssembly::Instruction(i) => match i.args {
            SOperands::Zero => Set::empty(),
            SOperands::One(a1) => match op_imm_label(a1) {
                Some(l) => set![l],
                None => Set::empty(),
            },
            SOperands::Two(a1, a2) => {
                let sa: Set<Label> = match op_imm_label(a1) {
                    Some(l) => set![l],
                    None => Set::empty(),
                };
                match op_imm_label(a2) {
                    Some(l) => sa.insert(l),
                    None => sa,
                }
            },
        },
    }
}

/// Symbols with identities in the half-open range `[a, b)`: the fresh
/// scratch symbols selection may mint.
pub open spec fn syms_in_range(a: u64, b: u64) -> Set<Symbol> {
    Set::new(|s: Symbol| a <= s.uid() < b)
}

/// The selection mirror for one instruction keeps to the shapes the
/// rest of the back end expects: every symbol it mentions is one the
/// instruction mentions or the one fresh scratch symbol; every
/// immediate label it references is the instruction's jump or call
/// target; every label line is its own; every `MemorySym` appears in a
/// rewritable shape; and the counters advance by at most one.
proof fn lemma_select_instr_props(instr: LIRInstruction, nl: u64, ns: u64)
    requires
        nl < u64::MAX,
        ns < u64::MAX,
        instr matches LIRInstruction::Call { args, .. } ==> args@.len() <= 6,
    ensures
        ({
            let out = spec_select_instr(instr, nl, ns);
            &&& nl <= out.next_label <= nl + 1
            &&& ns <= out.next_symbol <= ns + 1
            &&& out.lines.len() <= 9
            &&& out.strs.len() <= 1
            &&& forall|j: int|
                0 <= j < out.lines.len() ==> line_memsym_shape_ok(#[trigger] out.lines[j])
            &&& forall|j: int|
                0 <= j < out.lines.len() ==> sline_symbols(#[trigger] out.lines[j]).subset_of(
                    crate::lir::lir_instruction_symbols(instr).union(
                        syms_in_range(ns, out.next_symbol),
                    ),
                )
            &&& forall|j: int| 0 <= j < out.lines.len() ==> !((#[trigger] out.lines[j]) is Label)
            &&& forall|j: int|
                0 <= j < out.lines.len() ==> line_imm_labels(#[trigger] out.lines[j]).subset_of(
                    match crate::lir::lir_jump_target(instr) {
                        Some(l) => set![l],
                        None => Set::empty(),
                    }.union(
                        match instr {
                            LIRInstruction::Call { function_name, .. } => set![function_name],
                            _ => Set::<Label>::empty(),
                        },
                    ),
                )
            &&& forall|j: int|
                0 <= j < out.strs.len() ==> (#[trigger] out.strs[j]).0 == Label::Uid(nl)
        }),
{
    broadcast use crate::common::lemma_spec_symbol;

    let out = spec_select_instr(instr, nl, ns);
    match instr {
        LIRInstruction::Call { assign_to, function_name, args } => {
            assert forall|j: int| 0 <= j < out.lines.len() implies sline_symbols(
                #[trigger] out.lines[j],
            ).subset_of(
                crate::lir::lir_instruction_symbols(instr).union(
                    syms_in_range(ns, out.next_symbol),
                ),
            ) by {
                if j < args@.len() {
                    assert(out.lines[j] == spec_call_moves(args@)[j]);
                    assert(args@.contains(args@[j]));
                    assert(args@.to_set().contains(args@[j]));
                }
            }
            assert forall|j: int| 0 <= j < out.lines.len() implies line_memsym_shape_ok(
                #[trigger] out.lines[j],
            ) by {
                if j < args@.len() {
                    assert(out.lines[j] == spec_call_moves(args@)[j]);
                }
            }
            assert forall|j: int| 0 <= j < out.lines.len() implies !((
            #[trigger] out.lines[j]) is Label) by {
                if j < args@.len() {
                    assert(out.lines[j] == spec_call_moves(args@)[j]);
                }
            }
            assert forall|j: int| 0 <= j < out.lines.len() implies line_imm_labels(
                #[trigger] out.lines[j],
            ).subset_of(
                match crate::lir::lir_jump_target(instr) {
                    Some(l) => set![l],
                    None => Set::empty(),
                }.union(
                    match instr {
                        LIRInstruction::Call { function_name, .. } => set![function_name],
                        _ => Set::<Label>::empty(),
                    },
                ),
            ) by {
                if j < args@.len() {
                    assert(out.lines[j] == spec_call_moves(args@)[j]);
                }
            }
        },
        _ => {},
    }
}

/// The listing-level accumulation of [`lemma_select_instr_props`].
proof fn lemma_select_listing_props(listing: Seq<LIRAssembly>, nl: u64, ns: u64)
    requires
        nl + listing.len() <= u64::MAX,
        ns + listing.len() <= u64::MAX,
        listing_calls_ok(listing),
    ensures
        ({
            let out = spec_select_listing(listing, nl, ns);
            &&& nl <= out.next_label <= nl + listing.len()
            &&& ns <= out.next_symbol <= ns + listing.len()
            &&& out.lines.len() <= 9 * listing.len()
            &&& out.strs.len() <= listing.len()
            &&& forall|j: int|
                0 <= j < out.lines.len() ==> line_memsym_shape_ok(#[trigger] out.lines[j])
            &&& forall|j: int|
                0 <= j < out.lines.len() ==> sline_symbols(#[trigger] out.lines[j]).subset_of(
                    crate::lir::listing_symbols(listing).union(syms_in_range(ns, out.next_symbol)),
                )
            &&& forall|j: int|
                0 <= j < out.lines.len() ==> match #[trigger] out.lines[j] {
                    X64SAssembly::Label(l) => crate::lir::listing_defines_label(listing, l),
                    X64SAssembly::Instruction(_) => true,
                }
            &&& forall|j: int|
                0 <= j < out.lines.len() ==> line_imm_labels(#[trigger] out.lines[j]).subset_of(
                    crate::lir::listing_jump_targets(listing).union(
                        crate::lir::listing_call_targets(listing),
                    ),
                )
        }),
    decreases listing.len(),
{
    let out = spec_select_listing(listing, nl, ns);
    if listing.len() > 0 {
        assert(listing_calls_ok(listing.drop_last())) by {
            assert forall|i: int| 0 <= i < listing.drop_last().len() implies match #[trigger] listing.drop_last()[i] {
                LIRAssembly::Instruction(LIRInstruction::Call { args, .. }) => args@.len() <= 6,
                _ => true,
            } by {
                assert(listing.drop_last()[i] == listing[i]);
            }
        }
        lemma_select_listing_props(listing.drop_last(), nl, ns);
        let pre = spec_select_listing(listing.drop_last(), nl, ns);
        let last = listing.last();
        match last {
            LIRAssembly::Instruction(instr) => {
                lemma_select_instr_props(instr, pre.next_label, pre.next_symbol);
            },
            LIRAssembly::Label(_) => {},
        }
        let cur = spec_select_line(last, pre.next_label, pre.next_symbol);
        assert forall|j: int| 0 <= j < out.lines.len() implies sline_symbols(
            #[trigger] out.lines[j],
        ).subset_of(
            crate::lir::listing_symbols(listing).union(syms_in_range(ns, out.next_symbol)),
        ) by {
            if j < pre.lines.len() {
                assert(out.lines[j] == pre.lines[j]);
                assert forall|s: Symbol| sline_symbols(pre.lines[j]).contains(s) implies
                    crate::lir::listing_symbols(listing).union(
                    syms_in_range(ns, out.next_symbol),
                ).contains(s) by {
                    if crate::lir::listing_symbols(listing.drop_last()).contains(s) {
                        let i = choose|i: int|
                            0 <= i < listing.drop_last().len()
                                && crate::lir::lir_line_symbols(
                                #[trigger] listing.drop_last()[i],
                            ).contains(s);
                        assert(crate::lir::lir_line_symbols(listing[i]).contains(s));
                    }
                }
            } else {
                let k = j - pre.lines.len();
                assert(out.lines[j] == cur.lines[k]);
                match last {
                    LIRAssembly::Instruction(instr) => {
                        assert forall|s: Symbol| sline_symbols(cur.lines[k]).contains(s) implies
                            crate::lir::listing_symbols(listing).union(
                            syms_in_range(ns, out.next_symbol),
                        ).contains(s) by {
                            if crate::lir::lir_instruction_symbols(instr).contains(s) {
                                assert(crate::lir::lir_line_symbols(
                                    listing[listing.len() - 1],
                                ).contains(s));
                            }
                        }
                    },
                    LIRAssembly::Label(_) => {
                        assert(cur.lines[k] == X64SAssembly::Label(last->Label_0));
                    },
                }
            }
        }
        assert forall|j: int| 0 <= j < out.lines.len() implies match #[trigger] out.lines[j] {
            X64SAssembly::Label(l) => crate::lir::listing_defines_label(listing, l),
            X64SAssembly::Instruction(_) => true,
        } by {
            if j < pre.lines.len() {
                assert(out.lines[j] == pre.lines[j]);
                match pre.lines[j] {
                    X64SAssembly::Label(l) => {
                        let i = choose|i: int|
                            0 <= i < listing.drop_last().len() && crate::lir::lir_line_label(
                                #[trigger] listing.drop_last()[i],
                            ) == Some(l);
                        assert(crate::lir::lir_line_label(listing[i]) == Some(l));
                    },
                    X64SAssembly::Instruction(_) => {},
                }
            } else {
                let k = j - pre.lines.len();
                assert(out.lines[j] == cur.lines[k]);
                match last {
                    LIRAssembly::Label(l) => {
                        assert(crate::lir::lir_line_label(listing[listing.len() - 1]) == Some(l));
                    },
                    LIRAssembly::Instruction(_) => {},
                }
            }
        }
        assert forall|j: int| 0 <= j < out.lines.len() implies line_imm_labels(
            #[trigger] out.lines[j],
        ).subset_of(
            crate::lir::listing_jump_targets(listing).union(
                crate::lir::listing_call_targets(listing),
            ),
        ) by {
            if j < pre.lines.len() {
                assert(out.lines[j] == pre.lines[j]);
                assert forall|l: Label| line_imm_labels(pre.lines[j]).contains(l) implies
                    crate::lir::listing_jump_targets(listing).union(
                    crate::lir::listing_call_targets(listing),
                ).contains(l) by {
                    if crate::lir::listing_jump_targets(listing.drop_last()).contains(l) {
                        let i = choose|i: int|
                            0 <= i < listing.drop_last().len() && match #[trigger] listing.drop_last()[i] {
                                LIRAssembly::Instruction(instr) => crate::lir::lir_jump_target(
                                    instr,
                                ) == Some(l),
                                LIRAssembly::Label(_) => false,
                            };
                        assert(match listing[i] {
                            LIRAssembly::Instruction(instr) => crate::lir::lir_jump_target(instr)
                                == Some(l),
                            LIRAssembly::Label(_) => false,
                        });
                    } else {
                        let i = choose|i: int|
                            0 <= i < listing.drop_last().len() && match #[trigger] listing.drop_last()[i] {
                                LIRAssembly::Instruction(
                                    LIRInstruction::Call { function_name, .. },
                                ) => l == function_name,
                                _ => false,
                            };
                        assert(match listing[i] {
                            LIRAssembly::Instruction(LIRInstruction::Call { function_name, .. }) =>
                                l == function_name,
                            _ => false,
                        });
                    }
                }
            } else {
                let k = j - pre.lines.len();
                assert(out.lines[j] == cur.lines[k]);
                match last {
                    LIRAssembly::Instruction(instr) => {
                        assert forall|l: Label| line_imm_labels(cur.lines[k]).contains(l) implies
                            crate::lir::listing_jump_targets(listing).union(
                            crate::lir::listing_call_targets(listing),
                        ).contains(l) by {
                            if crate::lir::lir_jump_target(instr) == Some(l) {
                                assert(match listing[listing.len() - 1] {
                                    LIRAssembly::Instruction(i2) => crate::lir::lir_jump_target(i2)
                                        == Some(l),
                                    LIRAssembly::Label(_) => false,
                                });
                            } else {
                                match instr {
                                    LIRInstruction::Call { function_name, .. } => {
                                        if l == function_name {
                                            assert(match listing[listing.len() - 1] {
                                                LIRAssembly::Instruction(
                                                    LIRInstruction::Call { function_name: f2, .. },
                                                ) => l == f2,
                                                _ => false,
                                            });
                                        }
                                    },
                                    _ => {},
                                }
                            }
                        }
                    },
                    LIRAssembly::Label(_) => {
                        assert(cur.lines[k] == X64SAssembly::Label(last->Label_0));
                    },
                }
            }
        }
    } else {
        assert(out.lines.len() == 0);
    }
}

/// After selection every symbol a line mentions either belongs to the
/// source function or is one of the scratch symbols minted during
/// selection, every immediate label it references is a jump target or
/// a call target of the source, every label line comes from the source
/// listing, and every dereferenced symbol stays in a shape that
/// legalisation rewrites.
pub proof fn lemma_select_fn_props(f: LIRFunction, nl: u64, ns: u64)
    requires
        nl + f.instruction_listing@.len() < u64::MAX,
        ns + f.instruction_listing@.len() < u64::MAX,
        listing_calls_ok(f.instruction_listing@),
    ensures
        ({
            let out = spec_select_fn(f, nl, ns);
            &&& out.lines.len() <= 9 * f.instruction_listing@.len() + f.arguments@.len() + 1
            &&& forall|j: int|
                0 <= j < out.lines.len() ==> line_memsym_shape_ok(#[trigger] out.lines[j])
            &&& forall|j: int|
                0 <= j < out.lines.len() ==> sline_symbols(#[trigger] out.lines[j]).subset_of(
                    crate::lir::fn_symbols(f).union(syms_in_range(ns, out.next_symbol)),
                )
            &&& forall|j: int|
                0 <= j < out.lines.len() ==> match #[trigger] out.lines[j] {
                    X64SAssembly::Label(l) => crate::lir::listing_defines_label(
                        f.instruction_listing@,
                        l,
                    ),
                    X64SAssembly::Instruction(_) => true,
                }
            &&& forall|j: int|
                0 <= j < out.lines.len() ==> line_imm_labels(#[trigger] out.lines[j]).subset_of(
                    crate::lir::listing_jump_targets(f.instruction_listing@).union(
                        crate::lir::listing_call_targets(f.instruction_listing@),
                    ),
                )
        }),
{
    let out = spec_select_fn(f, nl, ns);
    let body = spec_select_listing(f.instruction_listing@, nl, ns);
    lemma_select_listing_props(f.instruction_listing@, nl, ns);
    let params = spec_param_moves(f.arguments@);
    assert forall|j: int| 0 <= j < out.lines.len() implies sline_symbols(
        #[trigger] out.lines[j],
    ).subset_of(crate::lir::fn_symbols(f).union(syms_in_range(ns, out.next_symbol))) by {
        if j < params.len() {
            assert(out.lines[j] == params[j]);
            assert(f.arguments@.contains(f.arguments@[j]));
            assert(f.arguments@.to_set().contains(f.arguments@[j]));
        } else if j < params.len() + body.lines.len() {
            assert(out.lines[j] == body.lines[j - params.len()]);
        } else {
            assert(out.lines[j] == smov(
                SOperand::Symbol(f.return_symbol),
                SOperand::Register(X64Register::Rax),
            ));
        }
    }
    assert forall|j: int| 0 <= j < out.lines.len() implies line_memsym_shape_ok(
        #[trigger] out.lines[j],
    ) by {
        if j < params.len() {
            assert(out.lines[j] == params[j]);
        } else if j < params.len() + body.lines.len() {
            assert(out.lines[j] == body.lines[j - params.len()]);
        } else {
            assert(out.lines[j] == smov(
                SOperand::Symbol(f.return_symbol),
                SOperand::Register(X64Register::Rax),
            ));
        }
    }
    assert forall|j: int| 0 <= j < out.lines.len() implies match #[trigger] out.lines[j] {
        X64SAssembly::Label(l) => crate::lir::listing_defines_label(f.instruction_listing@, l),
        X64SAssembly::Instruction(_) => true,
    } by {
        if j < params.len() {
            assert(out.lines[j] == params[j]);
        } else if j < params.len() + body.lines.len() {
            assert(out.lines[j] == body.lines[j - params.len()]);
        } else {
            assert(out.lines[j] == smov(
                SOperand::Symbol(f.return_symbol),
                SOperand::Register(X64Register::Rax),
            ));
        }
    }
    assert forall|j: int| 0 <= j < out.lines.len() implies line_imm_labels(
        #[trigger] out.lines[j],
    ).subset_of(
        crate::lir::listing_jump_targets(f.instruction_listing@).union(
            crate::lir::listing_call_targets(f.instruction_listing@),
        ),
    ) by {
        if j < params.len() {
            assert(out.lines[j] == params[j]);
        } else if j < params.len() + body.lines.len() {
            assert(out.lines[j] == body.lines[j - params.len()]);
        } else {
            assert(out.lines[j] == smov(
                SOperand::Symbol(f.return_symbol),
                SOperand::Register(X64Register::Rax),
            ));
        }
    }
}

/// The generator and string-table state as the selection of a program
/// progresses function by function.
pub ghost struct SelProgState {
    pub next_label: u64,
    pub next_symbol: u64,
    pub strings: Map<Label, String>,
}

/// The state after selecting the first `j` non-main functions, in
/// table order.
pub open spec fn spec_select_others(
    m: &AssocMap<Label, LIRFunction>,
    j: int,
    st: SelProgState,
) -> SelProgState
    decreases j,
{
    if j <= 0 {
        st
    } else {
        let prev = spec_select_others(m, j - 1, st);
        let out = spec_select_fn(m@[m.kseq()[j - 1]], prev.next_label, prev.next_symbol);
        SelProgState {
            next_label: out.next_label,
            next_symbol: out.next_symbol,
            strings: spec_insert_strs(prev.strings, out.strs),
        }
    }
}

/// The listing lengths of the non-main functions from position `j` on.
pub open spec fn others_len_from(m: &AssocMap<Label, LIRFunction>, j: int) -> int
    decreases m.kseq().len() - j,
{
    if j < 0 || j >= m.kseq().len() {
        0
    } else {
        m@[m.kseq()[j]].instruction_listing@.len() + others_len_from(m, j + 1)
    }
}

proof fn lemma_others_len_nonneg(m: &AssocMap<Label, LIRFunction>, j: int)
    ensures
        others_len_from(m, j) >= 0,
    decreases m.kseq().len() - j,
{
    if 0 <= j < m.kseq().len() {
        lemma_others_len_nonneg(m, j + 1);
    }
}

/// The total number of intermediate-form lines in a program.
pub open spec fn program_len(p: &LIRProgram) -> int {
    p.main_function.instruction_listing@.len() + others_len_from(&p.other_functions, 0)
}

/// Every function of the program keeps to the selector's limits: at
/// most six parameters and six arguments per call.
pub open spec fn program_calls_ok(p: &LIRProgram) -> bool {
    &&& p.main_function.arguments@.len() <= 6
    &&& listing_calls_ok(p.main_function.instruction_listing@)
    &&& forall|l: Label|
        p.other_functions@.contains_key(l) ==> (#[trigger] p.other_functions@[l]).arguments@.len()
            <= 6 && listing_calls_ok(p.other_functions@[l].instruction_listing@)
}

/// Selects symbolic x86-64 for the whole program: the entry function
/// first, then every other function in table order, interning string
/// literals into a fresh string table as it goes.
#[verifier::loop_isolation(false)]
pub fn select(program: LIRProgram, state: &mut GlobalInfo) -> (r: X64SProgram)
    requires
        program.other_functions.wf(),
        program_calls_ok(&program),
        old(state).label_gen.next() + program_len(&program) < u64::MAX,
        old(state).symbol_gen.next() + program_len(&program) < u64::MAX,
    ensures
        ({
            let out_main = spec_select_fn(
                program.main_function,
                old(state).label_gen.next(),
                old(state).symbol_gen.next(),
            );
            let st_main = SelProgState {
                next_label: out_main.next_label,
                next_symbol: out_main.next_symbol,
                strings: spec_insert_strs(Map::empty(), out_main.strs),
            };
            let n = program.other_functions.kseq().len() as int;
            let st_end = spec_select_others(&program.other_functions, n, st_main);
            &&& r.main_function.body@ == out_main.lines
            &&& r.other_functions.wf()
            &&& r.other_functions.kseq() == program.other_functions.kseq()
            &&& r.other_functions@.dom() == program.other_functions@.dom()
            &&& forall|j: int|
                0 <= j < n ==> (#[trigger] r.other_functions@[program.other_functions.kseq()[j]]).body@
                    == spec_select_fn(
                    program.other_functions@[program.other_functions.kseq()[j]],
                    spec_select_others(&program.other_functions, j, st_main).next_label,
                    spec_select_others(&program.other_functions, j, st_main).next_symbol,
                ).lines
            &&& r.string_literals.wf()
            &&& r.string_literals@ == st_end.strings
            &&& final(state).label_gen.next() == st_end.next_label
            &&& final(state).symbol_gen.next() == st_end.next_symbol
            &&& final(state).string_literals == old(state).string_literals
        }),
{
    let mut string_literals: AssocMap<Label, String> = AssocMap::new();
    proof {
        lemma_others_len_nonneg(&program.other_functions, 0);
    }
    let main_function = select_fn(&program.main_function, &mut string_literals, state);
    let ghost out_main = spec_select_fn(
        program.main_function,
        old(state).label_gen.next(),
        old(state).symbol_gen.next(),
    );
    let ghost st_main = SelProgState {
        next_label: out_main.next_label,
        next_symbol: out_main.next_symbol,
        strings: spec_insert_strs(Map::empty(), out_main.strs),
    };
    proof {
        lemma_select_listing_props(
            program.main_function.instruction_listing@,
            old(state).label_gen.next(),
            old(state).symbol_gen.next(),
        );
    }
    let mut other_functions: AssocMap<Label, X64SFunction> = AssocMap::new();
    let n = program.other_functions.num_entries();
    let mut i: usize = 0;
    proof {
        program.other_functions.lemma_kseq_dom();
    }
    while i < n
        invariant
            i <= n,
            n == program.other_functions.kseq().len(),
            other_functions.wf(),
            string_literals.wf(),
            other_functions.kseq() == program.other_functions.kseq().take(i as int),
            forall|j: int|
                0 <= j < i ==> other_functions@.contains_key(
                    #[trigger] program.other_functions.kseq()[j],
                ),
            forall|j: int|
                0 <= j < i ==> (#[trigger] other_functions@[program.other_functions.kseq()[j]]).body@
                    == spec_select_fn(
                    program.other_functions@[program.other_functions.kseq()[j]],
                    spec_select_others(&program.other_functions, j, st_main).next_label,
                    spec_select_others(&program.other_functions, j, st_main).next_symbol,
                ).lines,
            state.label_gen.next() == spec_select_others(
                &program.other_functions,
                i as int,
                st_main,
            ).next_label,
            state.symbol_gen.next() == spec_select_others(
                &program.other_functions,
                i as int,
                st_main,
            ).next_symbol,
            string_literals@ == spec_select_others(
                &program.other_functions,
                i as int,
                st_main,
            ).strings,
            state.label_gen.next() + others_len_from(&program.other_functions, i as int)
                <= old(state).label_gen.next() + program_len(&program),
            state.symbol_gen.next() + others_len_from(&program.other_functions, i as int)
                <= old(state).symbol_gen.next() + program_len(&program),
            state.string_literals == old(state).string_literals,
        decreases n - i,
    {
        let l = *program.other_functions.key_at(i);
        let f = program.other_functions.val_at(i);
        proof {
            lemma_others_len_nonneg(&program.other_functions, i + 1);
        }
        let selected = select_fn(f, &mut string_literals, state);
        proof {
            lemma_select_listing_props(
                f.instruction_listing@,
                spec_select_others(&program.other_functions, i as int, st_main).next_label,
                spec_select_others(&program.other_functions, i as int, st_main).next_symbol,
            );
            other_functions.lemma_kseq_dom();
            if other_functions@.contains_key(l) {
                let j = choose|j: int|
                    0 <= j < other_functions.kseq().len() && (#[trigger] other_functions.kseq()[j])
                        == l;
                assert(program.other_functions.kseq()[j] == l);
                assert(program.other_functions.kseq()[i as int] == l);
                assert(false);
            }
        }
        other_functions.insert(l, selected);
        proof {
            assert(other_functions.kseq() =~= program.other_functions.kseq().take(i + 1));
        }
        i = i + 1;
    }
    proof {
        assert(program.other_functions.kseq().take(n as int) =~= program.other_functions.kseq());
        assert forall|l: Label| program.other_functions@.contains_key(
            l,
        ) implies other_functions@.contains_key(l) by {
            let j = choose|j: int|
                0 <= j < program.other_functions.kseq().len() && (
                #[trigger] program.other_functions.kseq()[j]) == l;
            assert(other_functions@.contains_key(program.other_functions.kseq()[j]));
        }
        assert forall|l: Label| other_functions@.dom().contains(
            l,
        ) implies program.other_functions@.dom().contains(l) by {
            other_functions.lemma_kseq_dom();
            let j = choose|j: int|
                0 <= j < other_functions.kseq().len() && (#[trigger] other_functions.kseq()[j])
                    == l;
            assert(program.other_functions.kseq()[j] == l);
            assert(program.other_functions@.contains_key(program.other_functions.kseq()[j]));
        }
        assert(other_functions@.dom() =~= program.other_functions@.dom());
    }
    X64SProgram { main_function, other_functions, string_literals }
}

/// Compiles an intermediate-form program to physical x86-64: selection,
/// then legalisation, then baseline home assignment.
pub fn compile(
    lir_program: LIRProgram,
    label_gen: LabelGenerator,
    symbol_gen: SymbolGenerator,
) -> (r: X64Program)
    requires
        lir_program.other_functions.wf(),
        program_calls_ok(&lir_program),
        lir_program.main_function.instruction_listing@.len() < 0x1_0000_0000,
        forall|l: Label|
            lir_program.other_functions@.contains_key(l) ==> (
            #[trigger] lir_program.other_functions@[l]).instruction_listing@.len() < 0x1_0000_0000,
        label_gen.next() + program_len(&lir_program) < u64::MAX,
        symbol_gen.next() + program_len(&lir_program) < u64::MAX,
    ensures
        ({
            let out_main = spec_select_fn(
                lir_program.main_function,
                label_gen.next(),
                symbol_gen.next(),
            );
            let st_main = SelProgState {
                next_label: out_main.next_label,
                next_symbol: out_main.next_symbol,
                strings: spec_insert_strs(Map::empty(), out_main.strs),
            };
            let n = lir_program.other_functions.kseq().len() as int;
            let st_end = spec_select_others(&lir_program.other_functions, n, st_main);
            let fixed_main = spec_fix_body(out_main.lines);
            &&& r.main_function.instruction_listing@ == spec_prologue(
                spec_reservation(dedup_first(body_sym_seq(fixed_main)).len() as int),
            ) + spec_assign_body(fixed_main, spec_fn_homes(fixed_main)) + spec_epilogue()
            &&& r.other_functions.wf()
            &&& r.other_functions.kseq() == lir_program.other_functions.kseq()
            &&& r.other_functions@.dom() == lir_program.other_functions@.dom()
            &&& forall|j: int|
                0 <= j < n ==> (#[trigger] r.other_functions@[lir_program.other_functions.kseq()[j]]).instruction_listing@
                    == ({
                    let st_j = spec_select_others(&lir_program.other_functions, j, st_main);
                    let fixed = spec_fix_body(
                        spec_select_fn(
                            lir_program.other_functions@[lir_program.other_functions.kseq()[j]],
                            st_j.next_label,
                            st_j.next_symbol,
                        ).lines,
                    );
                    spec_prologue(spec_reservation(dedup_first(body_sym_seq(fixed)).len() as int))
                        + spec_assign_body(fixed, spec_fn_homes(fixed)) + spec_epilogue()
                })
            &&& r.string_literals.wf()
            &&& r.string_literals@ == st_end.strings
        }),
{
    let mut state = GlobalInfo {
        label_gen,
        symbol_gen,
        string_literals: AssocMap::new(),
    };
    proof {
        lemma_others_len_nonneg(&lir_program.other_functions, 0);
    }
    let ghost nl0 = state.label_gen.next();
    let ghost ns0 = state.symbol_gen.next();
    let selected_program = select(lir_program, &mut state);
    proof {
        lemma_select_fn_props(lir_program.main_function, nl0, ns0);
        lemma_fix_body_shapes(selected_program.main_function.body@);
    }
    let single_memory_op = fix_up(selected_program);
    proof {
        let out_main = spec_select_fn(lir_program.main_function, nl0, ns0);
        let st_main = SelProgState {
            next_label: out_main.next_label,
            next_symbol: out_main.next_symbol,
            strings: spec_insert_strs(Map::empty(), out_main.strs),
        };
        lemma_select_listing_props(lir_program.main_function.instruction_listing@, nl0, ns0);
        assert(single_memory_op.main_function.body@.len() <= 4 * selected_program.main_function.body@.len())
            by {
            lemma_fix_body_len(selected_program.main_function.body@);
        }
        assert forall|i: int|
            0 <= i < single_memory_op.main_function.body@.len() implies match #[trigger] single_memory_op.main_function.body@[i] {
            X64SAssembly::Instruction(instr) => !has_memory_sym(instr.args),
            X64SAssembly::Label(_) => true,
        } by {}
        lemma_others_props(&lir_program, &selected_program, &single_memory_op, st_main);
    }
    let assigned_to_stack = assign_homes(single_memory_op);
    proof {
        let out_main = spec_select_fn(lir_program.main_function, nl0, ns0);
        let st_main = SelProgState {
            next_label: out_main.next_label,
            next_symbol: out_main.next_symbol,
            strings: spec_insert_strs(Map::empty(), out_main.strs),
        };
        let n = lir_program.other_functions.kseq().len() as int;
        lir_program.other_functions.lemma_kseq_dom();
        assert forall|j: int|
            0 <= j < n implies (#[trigger] assigned_to_stack.other_functions@[lir_program.other_functions.kseq()[j]]).instruction_listing@
                == ({
                let st_j = spec_select_others(&lir_program.other_functions, j, st_main);
                let fixed = spec_fix_body(
                    spec_select_fn(
                        lir_program.other_functions@[lir_program.other_functions.kseq()[j]],
                        st_j.next_label,
                        st_j.next_symbol,
                    ).lines,
                );
                spec_prologue(spec_reservation(dedup_first(body_sym_seq(fixed)).len() as int))
                    + spec_assign_body(fixed, spec_fn_homes(fixed)) + spec_epilogue()
            }) by {
            let l = lir_program.other_functions.kseq()[j];
            assert(lir_program.other_functions@.contains_key(l));
            assert(selected_program.other_functions@[l].body@ == spec_select_fn(
                lir_program.other_functions@[l],
                spec_select_others(&lir_program.other_functions, j, st_main).next_label,
                spec_select_others(&lir_program.other_functions, j, st_main).next_symbol,
            ).lines);
            assert(single_memory_op.other_functions@.contains_key(l));
            assert(single_memory_op.other_functions@[l].body@ == spec_fix_body(
                selected_program.other_functions@[l].body@,
            ));
            assert(assigned_to_stack.other_functions@.contains_key(l));
        }
    }
    assigned_to_stack
}

/// A legalised body is at most four times as long as its source.
proof fn lemma_fix_body_len(body: Seq<X64SAssembly>)
    ensures
        spec_fix_body(body).len() <= 4 * body.len(),
    decreases body.len(),
{
    if body.len() > 0 {
        lemma_fix_body_len(body.drop_last());
    }
}

/// Carries the per-function selection and legalisation facts that home
/// assignment needs across every non-main function.
proof fn lemma_others_props(
    p: &LIRProgram,
    sel: &X64SProgram,
    fixed: &X64SProgram,
    st_main: SelProgState,
)
    requires
        p.other_functions.wf(),
        program_calls_ok(p),
        forall|l: Label|
            p.other_functions@.contains_key(l) ==> (
            #[trigger] p.other_functions@[l]).instruction_listing@.len() < 0x1_0000_0000,
        st_main.next_label + others_len_from(&p.other_functions, 0) < u64::MAX,
        st_main.next_symbol + others_len_from(&p.other_functions, 0) < u64::MAX,
        sel.other_functions.wf(),
        sel.other_functions.kseq() == p.other_functions.kseq(),
        sel.other_functions@.dom() == p.other_functions@.dom(),
        forall|j: int|
            0 <= j < p.other_functions.kseq().len() ==> (
            #[trigger] sel.other_functions@[p.other_functions.kseq()[j]]).body@ == spec_select_fn(
                p.other_functions@[p.other_functions.kseq()[j]],
                spec_select_others(&p.other_functions, j, st_main).next_label,
                spec_select_others(&p.other_functions, j, st_main).next_symbol,
            ).lines,
        fixed.other_functions.wf(),
        fixed.other_functions.kseq() == sel.other_functions.kseq(),
        fixed.other_functions@.dom() == sel.other_functions@.dom(),
        forall|l: Label|
            fixed.other_functions@.contains_key(l) ==> (#[trigger] fixed.other_functions@[l]).body@
                == spec_fix_body(sel.other_functions@[l].body@),
    ensures
        forall|l: Label|
            fixed.other_functions@.contains_key(l) ==> (#[trigger] fixed.other_functions@[l]).body@.len()
                < 0x1000_0000_0000,
        forall|l: Label, i: int|
            fixed.other_functions@.contains_key(l) && 0 <= i
                < fixed.other_functions@[l].body@.len() ==> match #[trigger] fixed.other_functions@[l].body@[i] {
                X64SAssembly::Instruction(instr) => !has_memory_sym(instr.args),
                X64SAssembly::Label(_) => true,
            },
{
    let m = &p.other_functions;
    assert forall|l: Label| fixed.other_functions@.contains_key(l) implies ({
        &&& (#[trigger] fixed.other_functions@[l]).body@.len() < 0x1000_0000_0000
        &&& forall|i: int|
            0 <= i < fixed.other_functions@[l].body@.len() ==> match #[trigger] fixed.other_functions@[l].body@[i] {
                X64SAssembly::Instruction(instr) => !has_memory_sym(instr.args),
                X64SAssembly::Label(_) => true,
            }
    }) by {
        m.lemma_kseq_dom();
        assert(p.other_functions@.contains_key(l));
        let j = choose|j: int| 0 <= j < m.kseq().len() && (#[trigger] m.kseq()[j]) == l;
        let st_j = spec_select_others(m, j, st_main);
        lemma_select_others_counters(m, j, st_main);
        lemma_others_len_nonneg(m, j + 1);
        lemma_others_len_split(m, j);
        let f = p.other_functions@[l];
        lemma_select_fn_props(f, st_j.next_label, st_j.next_symbol);
        let out = spec_select_fn(f, st_j.next_label, st_j.next_symbol);
        assert(sel.other_functions@[l].body@ == out.lines);
        lemma_fix_body_len(out.lines);
        lemma_fix_body_shapes(out.lines);
        assert(fixed.other_functions@[l].body@ == spec_fix_body(out.lines));
    }
}

/// The counters after selecting `j` functions grow by at most the
/// total length of those functions.
proof fn lemma_select_others_counters(
    m: &AssocMap<Label, LIRFunction>,
    j: int,
    st: SelProgState,
)
    requires
        m.wf(),
        0 <= j <= m.kseq().len(),
        st.next_label + others_len_from(m, 0) < u64::MAX,
        st.next_symbol + others_len_from(m, 0) < u64::MAX,
        forall|l: Label|
            m@.contains_key(l) ==> (#[trigger] m@[l]).arguments@.len() <= 6 && listing_calls_ok(
                m@[l].instruction_listing@,
            ),
    ensures
        spec_select_others(m, j, st).next_label + others_len_from(m, j) <= st.next_label
            + others_len_from(m, 0),
        spec_select_others(m, j, st).next_symbol + others_len_from(m, j) <= st.next_symbol
            + others_len_from(m, 0),
        st.next_label <= spec_select_others(m, j, st).next_label,
        st.next_symbol <= spec_select_others(m, j, st).next_symbol,
    decreases j,
{
    if j > 0 {
        lemma_select_others_counters(m, j - 1, st);
        let prev = spec_select_others(m, j - 1, st);
        lemma_others_len_split(m, j - 1);
        lemma_others_len_nonneg(m, j);
        m.lemma_kseq_dom();
        assert(m@.contains_key(m.kseq()[j - 1]));
        let f = m@[m.kseq()[j - 1]];
        lemma_select_listing_props(
            f.instruction_listing@,
            prev.next_label,
            prev.next_symbol,
        );
    }
}

/// One step of the remaining-length sum.
proof fn lemma_others_len_split(m: &AssocMap<Label, LIRFunction>, j: int)
    requires
        0 <= j < m.kseq().len(),
    ensures
        others_len_from(m, j) == m@[m.kseq()[j]].instruction_listing@.len() + others_len_from(
            m,
            j + 1,
        ),
{
}

} // verus!
