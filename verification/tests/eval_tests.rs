use catc::check_type::type_check;
use catc::common::InfixSourceOp;
use catc::eval_lir::{eval, Value};
use catc::lowering::lower;
use catc::source_grammar::{Dec, Exp, LValue, Program, TopLevelDec};

const FUEL: u64 = 1_000_000;

fn main_program(return_type: &str, body: Exp) -> Program {
    Program {
        dec_list: vec![TopLevelDec::FunDec {
            name: "main".to_string(),
            return_type: return_type.to_string(),
            args: Vec::new(),
            body: Box::new(body),
        }],
    }
}

fn run_main(program: Program) -> Value {
    let checked = type_check(program).unwrap();
    let (lir, _, _) = lower(checked).unwrap();
    let (value, _) = eval(&lir, FUEL).unwrap();
    value
}

fn lit(value: i32) -> Exp {
    Exp::IntLit { value }
}

fn infix(left: Exp, op: InfixSourceOp, right: Exp) -> Exp {
    Exp::Infix {
        left: Box::new(left),
        op,
        right: Box::new(right),
    }
}

fn var(name: &str) -> Exp {
    Exp::LValue {
        lvalue: LValue::Id { name: name.to_string() },
    }
}

#[test]
fn negated_arithmetic_evaluates_to_minus_109() {
    // -(9 + 10 * 10 - (9/10)) with integer division
    let body = Exp::Negate {
        exp: Box::new(infix(
            infix(lit(9), InfixSourceOp::Add, infix(lit(10), InfixSourceOp::Multiply, lit(10))),
            InfixSourceOp::Subtract,
            infix(lit(9), InfixSourceOp::Divide, lit(10)),
        )),
    };
    assert_eq!(run_main(main_program("int", body)), Value::Int(-109));
}

#[test]
fn if_then_else_picks_the_smaller() {
    // if 2 < 10 then 2 else 10
    let body = Exp::IfThenElse {
        if_exp: Box::new(infix(lit(2), InfixSourceOp::LessThan, lit(10))),
        then_exp: Box::new(lit(2)),
        else_exp: Box::new(lit(10)),
    };
    assert_eq!(run_main(main_program("int", body)), Value::Int(2));
}

#[test]
fn comparisons_yield_zero_or_one() {
    let le = infix(lit(10), InfixSourceOp::LessThanEqual, lit(10));
    assert_eq!(run_main(main_program("int", le)), Value::Int(1));
    let ne = infix(lit(10), InfixSourceOp::NotEqual, lit(10));
    assert_eq!(run_main(main_program("int", ne)), Value::Int(0));
}

#[test]
fn array_of_twos_accumulates_to_twenty() {
    // type intArray = array of int
    // function main () -> int {
    //     let var a : intArray := intArray [10] of 2 in
    //         (for i := 1 to 9 do (a[i] := a[i-1] + a[i]); a[9])
    //     end
    // }
    let subscript = |index: Exp| LValue::Subscript {
        array: Box::new(LValue::Id { name: "a".to_string() }),
        index: Box::new(index),
    };
    let loop_body = Exp::Sequence {
        sequence: vec![Exp::Assign {
            left: subscript(var("i")),
            right: Box::new(infix(
                Exp::LValue {
                    lvalue: subscript(infix(var("i"), InfixSourceOp::Subtract, lit(1))),
                },
                InfixSourceOp::Add,
                Exp::LValue { lvalue: subscript(var("i")) },
            )),
        }],
    };
    let body = Exp::Let {
        let_exp: vec![Dec::VarDec {
            name: "a".to_string(),
            value_type: "intArray".to_string(),
            value: Exp::ArrayCreate {
                type_id: "intArray".to_string(),
                length: Box::new(lit(10)),
                inital_value: Box::new(lit(2)),
            },
        }],
        in_exp: Box::new(Exp::Sequence {
            sequence: vec![
                Exp::For {
                    id: "i".to_string(),
                    for_exp: Box::new(lit(1)),
                    to_exp: Box::new(lit(9)),
                    do_exp: Box::new(loop_body),
                },
                Exp::LValue { lvalue: subscript(lit(9)) },
            ],
        }),
    };
    let program = Program {
        dec_list: vec![
            TopLevelDec::TyDecArray {
                new_type: "intArray".to_string(),
                element_type: "int".to_string(),
            },
            TopLevelDec::FunDec {
                name: "main".to_string(),
                return_type: "int".to_string(),
                args: Vec::new(),
                body: Box::new(body),
            },
        ],
    };
    assert_eq!(run_main(program), Value::Int(20));
}

#[test]
fn record_fields_add_to_twenty() {
    // type r = {i: int, j: int}
    // function main () -> int {
    //     let var a : r := r {i = 15, j = 5} in (a.j := a.i + a.j; a.j) end
    // }
    let field = |name: &str| LValue::FieldExp {
        record: Box::new(LValue::Id { name: "a".to_string() }),
        field: name.to_string(),
    };
    let body = Exp::Let {
        let_exp: vec![Dec::VarDec {
            name: "a".to_string(),
            value_type: "r".to_string(),
            value: Exp::RecordCreate {
                type_id: "r".to_string(),
                fields: vec![
                    ("i".to_string(), lit(15)),
                    ("j".to_string(), lit(5)),
                ],
            },
        }],
        in_exp: Box::new(Exp::Sequence {
            sequence: vec![
                Exp::Assign {
                    left: field("j"),
                    right: Box::new(infix(
                        Exp::LValue { lvalue: field("i") },
                        InfixSourceOp::Add,
                        Exp::LValue { lvalue: field("j") },
                    )),
                },
                Exp::LValue { lvalue: field("j") },
            ],
        }),
    };
    let program = Program {
        dec_list: vec![
            TopLevelDec::TyDecRecord {
                new_type: "r".to_string(),
                field_decs: vec![
                    ("i".to_string(), "int".to_string()),
                    ("j".to_string(), "int".to_string()),
                ],
            },
            TopLevelDec::FunDec {
                name: "main".to_string(),
                return_type: "int".to_string(),
                args: Vec::new(),
                body: Box::new(body),
            },
        ],
    };
    assert_eq!(run_main(program), Value::Int(20));
}

#[test]
fn recursive_fib_of_ten_is_89() {
    // function fib(n:int)->int { if n = 0 or n = 1 then 1 else fib(n-1) + fib(n-2) }
    // function main () -> int { fib(10) }
    let call_fib = |arg: Exp| Exp::Call {
        function_name: "fib".to_string(),
        args: vec![arg],
    };
    let fib_body = Exp::IfThenElse {
        if_exp: Box::new(infix(
            infix(var("n"), InfixSourceOp::Equal, lit(0)),
            InfixSourceOp::Or,
            infix(var("n"), InfixSourceOp::Equal, lit(1)),
        )),
        then_exp: Box::new(lit(1)),
        else_exp: Box::new(infix(
            call_fib(infix(var("n"), InfixSourceOp::Subtract, lit(1))),
            InfixSourceOp::Add,
            call_fib(infix(var("n"), InfixSourceOp::Subtract, lit(2))),
        )),
    };
    let program = Program {
        dec_list: vec![
            TopLevelDec::FunDec {
                name: "fib".to_string(),
                return_type: "int".to_string(),
                args: vec![("n".to_string(), "int".to_string())],
                body: Box::new(fib_body),
            },
            TopLevelDec::FunDec {
                name: "main".to_string(),
                return_type: "int".to_string(),
                args: Vec::new(),
                body: Box::new(call_fib(lit(10))),
            },
        ],
    };
    assert_eq!(run_main(program), Value::Int(89));
}

#[test]
fn skipped_loops_terminate_immediately() {
    // while 0 do ()
    let while_body = Exp::While {
        while_exp: Box::new(lit(0)),
        do_exp: Box::new(Exp::Sequence { sequence: Vec::new() }),
    };
    assert_eq!(run_main(main_program("void", while_body)), Value::Void);
    // for i := 11 to 10 do ()
    let for_body = Exp::For {
        id: "i".to_string(),
        for_exp: Box::new(lit(11)),
        to_exp: Box::new(lit(10)),
        do_exp: Box::new(Exp::Sequence { sequence: Vec::new() }),
    };
    assert_eq!(run_main(main_program("void", for_body)), Value::Void);
}
