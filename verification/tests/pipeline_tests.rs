use catc::backend::compile;
use catc::checked_grammar::{CheckedExp, CheckedProgram, CheckedTopLevelDec};
use catc::common::{Label, LabelGenerator, SymbolGenerator};
use catc::source_grammar::{Dec, LValue};
use catc::tables::AssocMap;
use catc::check_type::type_check;
use catc::common::InfixSourceOp;
use catc::control_flow_graph::{construct_control_flow_graph_lir, liveness};
use catc::lowering::lower;
use catc::source_grammar::{Exp, Program, TopLevelDec};

fn main_program(return_type: &str, body: Exp) -> Program {
    Program {
        dec_list: vec![TopLevelDec::FunDec {
            name: "main".to_string(),
            return_type: return_type.to_string(),
            args: Vec::new(),
            body: Box::new(body),
        }],
    }
}

#[test]
fn int_literal_main_compiles() {
    let program = main_program("int", Exp::IntLit { value: 2 });
    let checked = type_check(program).unwrap();
    let (lir, label_gen, symbol_gen) = lower(checked).unwrap();
    assert!(lir.main_function.instruction_listing.len() >= 1);
    let compiled = compile(lir, label_gen, symbol_gen);
    // prologue (3) + body + epilogue (3)
    assert!(compiled.main_function.instruction_listing.len() >= 7);
}

#[test]
fn arithmetic_main_lowers() {
    // -(9 + 10 * 10 - (9/10))
    let product = Exp::Infix {
        left: Box::new(Exp::IntLit { value: 10 }),
        op: InfixSourceOp::Multiply,
        right: Box::new(Exp::IntLit { value: 10 }),
    };
    let sum = Exp::Infix {
        left: Box::new(Exp::IntLit { value: 9 }),
        op: InfixSourceOp::Add,
        right: Box::new(product),
    };
    let quotient = Exp::Infix {
        left: Box::new(Exp::IntLit { value: 9 }),
        op: InfixSourceOp::Divide,
        right: Box::new(Exp::IntLit { value: 10 }),
    };
    let difference = Exp::Infix {
        left: Box::new(sum),
        op: InfixSourceOp::Subtract,
        right: Box::new(quotient),
    };
    let body = Exp::Negate { exp: Box::new(difference) };
    let checked = type_check(main_program("int", body)).unwrap();
    let (lir, label_gen, symbol_gen) = lower(checked).unwrap();
    assert!(lir.main_function.instruction_listing.len() >= 8);
    let compiled = compile(lir, label_gen, symbol_gen);
    assert!(compiled.main_function.instruction_listing.len() >= 14);
}

#[test]
fn comparison_main_lowers_with_branches() {
    // 10 <= 10, materialised through labelled branches
    let body = Exp::Infix {
        left: Box::new(Exp::IntLit { value: 10 }),
        op: InfixSourceOp::LessThanEqual,
        right: Box::new(Exp::IntLit { value: 10 }),
    };
    let checked = type_check(main_program("int", body)).unwrap();
    let (lir, _, _) = lower(checked).unwrap();
    // two literals, a conditional jump, a jump, two labelled assigns, an
    // end label
    assert!(lir.main_function.instruction_listing.len() >= 8);
    let cfg = construct_control_flow_graph_lir(&lir.main_function);
    let solved = liveness(cfg);
    assert_eq!(
        solved.instructions.len(),
        lir.main_function.instruction_listing.len()
    );
}

#[test]
fn if_then_else_main_compiles() {
    let condition = Exp::Infix {
        left: Box::new(Exp::IntLit { value: 2 }),
        op: InfixSourceOp::LessThan,
        right: Box::new(Exp::IntLit { value: 10 }),
    };
    let body = Exp::IfThenElse {
        if_exp: Box::new(condition),
        then_exp: Box::new(Exp::IntLit { value: 2 }),
        else_exp: Box::new(Exp::IntLit { value: 10 }),
    };
    let checked = type_check(main_program("int", body)).unwrap();
    let (lir, label_gen, symbol_gen) = lower(checked).unwrap();
    let cfg = construct_control_flow_graph_lir(&lir.main_function);
    liveness(cfg);
    let compiled = compile(lir, label_gen, symbol_gen);
    assert!(compiled.main_function.instruction_listing.len() >= 10);
}

#[test]
fn empty_while_loop_compiles() {
    let body = Exp::While {
        while_exp: Box::new(Exp::IntLit { value: 0 }),
        do_exp: Box::new(Exp::Sequence { sequence: Vec::new() }),
    };
    let checked = type_check(main_program("void", body)).unwrap();
    let (lir, label_gen, symbol_gen) = lower(checked).unwrap();
    let cfg = construct_control_flow_graph_lir(&lir.main_function);
    liveness(cfg);
    let compiled = compile(lir, label_gen, symbol_gen);
    assert!(compiled.main_function.instruction_listing.len() >= 10);
}

#[test]
fn break_as_while_body_lowers() {
    let body = Exp::While {
        while_exp: Box::new(Exp::IntLit { value: 1 }),
        do_exp: Box::new(Exp::Break),
    };
    let checked = type_check(main_program("void", body)).unwrap();
    let (lir, _, _) = lower(checked).unwrap();
    let cfg = construct_control_flow_graph_lir(&lir.main_function);
    liveness(cfg);
}

#[test]
fn empty_for_loop_compiles() {
    let body = Exp::For {
        id: "i".to_string(),
        for_exp: Box::new(Exp::IntLit { value: 11 }),
        to_exp: Box::new(Exp::IntLit { value: 10 }),
        do_exp: Box::new(Exp::Sequence { sequence: Vec::new() }),
    };
    let checked = type_check(main_program("void", body)).unwrap();
    let (lir, label_gen, symbol_gen) = lower(checked).unwrap();
    let cfg = construct_control_flow_graph_lir(&lir.main_function);
    liveness(cfg);
    let compiled = compile(lir, label_gen, symbol_gen);
    assert!(compiled.main_function.instruction_listing.len() >= 12);
}

#[test]
fn let_bound_variable_lowers() {
    let body = Exp::Let {
        let_exp: vec![Dec::VarDec {
            name: "a".to_string(),
            value_type: "int".to_string(),
            value: Exp::IntLit { value: 0 },
        }],
        in_exp: Box::new(Exp::LValue {
            lvalue: LValue::Id { name: "a".to_string() },
        }),
    };
    let checked = type_check(main_program("int", body)).unwrap();
    let (lir, label_gen, symbol_gen) = lower(checked).unwrap();
    let compiled = compile(lir, label_gen, symbol_gen);
    assert!(compiled.main_function.instruction_listing.len() >= 8);
}

#[test]
fn function_call_crosses_functions() {
    let program = Program {
        dec_list: vec![
            TopLevelDec::FunDec {
                name: "five".to_string(),
                return_type: "int".to_string(),
                args: Vec::new(),
                body: Box::new(Exp::IntLit { value: 5 }),
            },
            TopLevelDec::FunDec {
                name: "main".to_string(),
                return_type: "int".to_string(),
                args: Vec::new(),
                body: Box::new(Exp::Call {
                    function_name: "five".to_string(),
                    args: Vec::new(),
                }),
            },
        ],
    };
    let checked = type_check(program).unwrap();
    let (lir, label_gen, symbol_gen) = lower(checked).unwrap();
    assert_eq!(lir.other_functions.len(), 1);
    let compiled = compile(lir, label_gen, symbol_gen);
    assert_eq!(compiled.other_functions.len(), 1);
}

#[test]
fn break_outside_loop_is_an_error_in_lowering_too() {
    // A hand-built checked program whose main body is a bare break: the
    // checker would reject it, and lowering reports it as an internal
    // error rather than producing a dangling jump.
    let cp = CheckedProgram {
        function_symbols: AssocMap::new(),
        symbol_table: AssocMap::new(),
        types: AssocMap::new(),
        gen_sym: SymbolGenerator::new(),
        gen_label: LabelGenerator::new(),
        dec_list: vec![CheckedTopLevelDec::FunDec {
            name: Label::Main,
            args: Vec::new(),
            body: Box::new(CheckedExp::Break),
        }],
    };
    assert!(lower(cp).is_err());
}
