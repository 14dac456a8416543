use catc::backend::{assign_homes, fix_up, register_alloc, register_assignment, select, GlobalInfo};
use catc::common::{Comparison, ComparisonType, LabelGenerator, SymbolGenerator};
use catc::control_flow_graph::{
    construct_control_flow_graph_lir, construct_control_flow_graph_x64s, difference, liveness,
    union, union_all, GenKill,
};
use catc::lir::{LIRAssembly, LIRFunction, LIRInstruction, LIRProgram};
use catc::tables::{AssocMap, SymbolSet};

#[test]
fn lir_cfg_test_simple() {
    let mut sg = SymbolGenerator::new();
    let s = sg.new_symbol();
    let s1 = sg.new_symbol();

    let f = LIRFunction {
        locals: vec![],
        arguments: vec![],
        return_symbol: s,
        instruction_listing: vec![
            LIRAssembly::Instruction(LIRInstruction::IntLit {
                assign_to: s,
                value: 10,
            }),
            LIRAssembly::Instruction(LIRInstruction::Assign { assign_to: s1, id: s }),
        ],
    };
    let label_gen = LabelGenerator::new();
    let symbol_gen = SymbolGenerator::new();
    let mut state = GlobalInfo {
        label_gen,
        symbol_gen,
        string_literals: AssocMap::new(),
    };
    let selected_program = select(
        LIRProgram {
            main_function: f,
            other_functions: AssocMap::new(),
        },
        &mut state,
    );
    let single_memory_op = fix_up(selected_program);

    let inital_cfg = construct_control_flow_graph_x64s(&single_memory_op.main_function);
    let cfg = liveness(inital_cfg);
    assert!(cfg.instructions.len() > 0);
}

#[test]
fn lir_cfg_test_jump() {
    let mut sg = SymbolGenerator::new();
    let s = sg.new_symbol();

    let mut lg = LabelGenerator::new();
    let l = lg.new_label();

    let f = LIRFunction {
        locals: vec![],
        arguments: vec![],
        return_symbol: s,
        instruction_listing: vec![
            LIRAssembly::Instruction(LIRInstruction::Jump { to: l }),
            LIRAssembly::Instruction(LIRInstruction::IntLit {
                assign_to: s,
                value: 10,
            }),
            LIRAssembly::Label(l),
        ],
    };

    let cfg = liveness(construct_control_flow_graph_lir(&f));
    assert_eq!(cfg.instructions.len(), 3);
}

#[test]
fn lir_cfg_test_jumpc() {
    let mut sg = SymbolGenerator::new();
    let s = sg.new_symbol();

    let mut lg = LabelGenerator::new();
    let l = lg.new_label();

    let f = LIRFunction {
        locals: vec![],
        arguments: vec![],
        return_symbol: s,
        instruction_listing: vec![
            LIRAssembly::Instruction(LIRInstruction::JumpC {
                to: l,
                condition: Comparison {
                    c: ComparisonType::Equal,
                    left: s,
                    right: s,
                },
            }),
            LIRAssembly::Instruction(LIRInstruction::IntLit {
                assign_to: s,
                value: 10,
            }),
            LIRAssembly::Label(l),
            LIRAssembly::Instruction(LIRInstruction::IntLit {
                assign_to: s,
                value: 3,
            }),
        ],
    };

    let cfg = liveness(construct_control_flow_graph_lir(&f));
    assert_eq!(cfg.instructions.len(), 4);
}

#[test]
fn lir_cfg_test_jumpc_label() {
    let mut sg = SymbolGenerator::new();
    let s = sg.new_symbol();

    let mut lg = LabelGenerator::new();
    let l = lg.new_label();

    let f = LIRFunction {
        locals: vec![],
        arguments: vec![],
        return_symbol: s,
        instruction_listing: vec![
            LIRAssembly::Instruction(LIRInstruction::IntLit {
                assign_to: s,
                value: 10,
            }),
            LIRAssembly::Instruction(LIRInstruction::JumpC {
                to: l,
                condition: Comparison {
                    c: ComparisonType::Equal,
                    left: s,
                    right: s,
                },
            }),
            LIRAssembly::Instruction(LIRInstruction::IntLit {
                assign_to: s,
                value: 10,
            }),
            LIRAssembly::Label(l),
        ],
    };

    let cfg = liveness(construct_control_flow_graph_lir(&f));
    assert_eq!(cfg.instructions.len(), 4);

    let label_gen = LabelGenerator::new();
    let symbol_gen = SymbolGenerator::new();

    let mut state = GlobalInfo {
        label_gen,
        symbol_gen,
        string_literals: AssocMap::new(),
    };
    let selected_program = select(
        LIRProgram {
            main_function: f,
            other_functions: AssocMap::new(),
        },
        &mut state,
    );
    let single_memory_op = fix_up(selected_program);

    let inital_cfg = construct_control_flow_graph_x64s(&single_memory_op.main_function);
    let cfg = liveness(inital_cfg);
    assert!(cfg.instructions.len() > 0);
}

#[test]
fn gen_and_kill_of_assign() {
    let mut sg = SymbolGenerator::new();
    let a = sg.new_symbol();
    let b = sg.new_symbol();
    let line = LIRAssembly::Instruction(LIRInstruction::Assign { assign_to: a, id: b });
    let gen = line.gen();
    let kill = line.kill();
    assert!(gen.contains(b));
    assert!(!gen.contains(a));
    assert!(kill.contains(a));
    assert!(!kill.contains(b));
}

#[test]
fn set_operations() {
    let mut sg = SymbolGenerator::new();
    let a = sg.new_symbol();
    let b = sg.new_symbol();
    let c = sg.new_symbol();
    let mut s1 = SymbolSet::empty();
    s1.insert(a);
    s1.insert(b);
    let mut s2 = SymbolSet::empty();
    s2.insert(b);
    s2.insert(c);
    let u = union(s1.duplicate(), s2.duplicate());
    assert!(u.contains(a) && u.contains(b) && u.contains(c));
    assert_eq!(u.len(), 3);
    let d = difference(s1.duplicate(), s2.duplicate());
    assert!(d.contains(a) && !d.contains(b) && !d.contains(c));
    let all = union_all(vec![s1, s2]);
    assert_eq!(all.len(), 3);
}

#[test]
fn baseline_homes_are_distinct_stack_slots() {
    let mut sg = SymbolGenerator::new();
    let s = sg.new_symbol();
    let s1 = sg.new_symbol();
    let f = LIRFunction {
        locals: vec![],
        arguments: vec![],
        return_symbol: s,
        instruction_listing: vec![
            LIRAssembly::Instruction(LIRInstruction::IntLit {
                assign_to: s,
                value: 7,
            }),
            LIRAssembly::Instruction(LIRInstruction::Assign { assign_to: s1, id: s }),
        ],
    };
    let mut state = GlobalInfo {
        label_gen: LabelGenerator::new(),
        symbol_gen: SymbolGenerator::new(),
        string_literals: AssocMap::new(),
    };
    let selected = select(
        LIRProgram {
            main_function: f,
            other_functions: AssocMap::new(),
        },
        &mut state,
    );
    let fixed = fix_up(selected);
    let alloc = register_alloc(&fixed.main_function);
    let homes = register_assignment(&alloc);
    assert_eq!(homes.len(), alloc.len());
    let compiled = assign_homes(fixed);
    // prologue (3) + body + epilogue (3)
    assert!(compiled.main_function.instruction_listing.len() >= 6);
}
