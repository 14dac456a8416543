use catc::check_type::type_check;
use catc::source_grammar::{Exp, Program, TopLevelDec};

#[test]
fn test_int_lit() {
    let body = Box::new(Exp::IntLit { value: 2 });
    let args = Vec::new();
    let name = "main".to_string();
    let return_type = "int".to_string();

    let dec_list = vec![TopLevelDec::FunDec {
        body,
        args,
        name,
        return_type,
    }]
    .into_iter()
    .collect();

    let program = Program { dec_list };

    type_check(program).unwrap();
}

#[test]
fn test_str_lit() {
    let body = Box::new(Exp::Sequence {
        sequence: Vec::new(),
    });
    let args = Vec::new();
    let name = "main".to_string();
    let return_type = "void".to_string();

    let body_ = Box::new(Exp::StringLit {
        value: "Hello".to_string(),
    });
    let args_ = Vec::new();
    let name_ = "s".to_string();
    let return_type_ = "string".to_string();

    let dec_list = vec![
        TopLevelDec::FunDec {
            body: body_,
            args: args_,
            name: name_,
            return_type: return_type_,
        },
        TopLevelDec::FunDec {
            body,
            args,
            name,
            return_type,
        },
    ]
    .into_iter()
    .collect();

    let program = Program { dec_list };

    type_check(program).unwrap();
}

#[test]
fn break_at_top_level_is_rejected() {
    let program = Program {
        dec_list: vec![TopLevelDec::FunDec {
            name: "main".to_string(),
            return_type: "int".to_string(),
            args: Vec::new(),
            body: Box::new(Exp::Break),
        }],
    };
    assert!(type_check(program).is_err());
}

#[test]
fn wrong_body_type_is_rejected() {
    let program = Program {
        dec_list: vec![TopLevelDec::FunDec {
            name: "main".to_string(),
            return_type: "int".to_string(),
            args: Vec::new(),
            body: Box::new(Exp::Sequence { sequence: Vec::new() }),
        }],
    };
    assert!(type_check(program).is_err());
}

#[test]
fn main_with_parameters_is_rejected() {
    let program = Program {
        dec_list: vec![TopLevelDec::FunDec {
            name: "main".to_string(),
            return_type: "int".to_string(),
            args: vec![("x".to_string(), "int".to_string())],
            body: Box::new(Exp::IntLit { value: 2 }),
        }],
    };
    assert!(type_check(program).is_err());
}

#[test]
fn missing_main_is_rejected() {
    let program = Program { dec_list: Vec::new() };
    assert!(type_check(program).is_err());
}
