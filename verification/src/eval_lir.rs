//! A reference evaluator for the three-address form: the semantic
//! oracle the tests compare compiled programs against.  Printing is
//! modelled as a returned event log, and a fuel bound makes every run
//! finite; a program that runs out of fuel reports so instead of
//! diverging.

use vstd::prelude::*;

use crate::common::{ComparisonType, InfixOp, Label, Symbol};
use crate::lir::{LIRAssembly, LIRFunction, LIRInstruction, LIRProgram};
use crate::tables::{AssocMap, MapKey};

verus! {

/// A runtime value: the unit of every word the language manipulates.
#[derive(Debug, Clone, PartialEq)]
pub enum Value {
    Void,
    Str(String),
    Int(i64),
}

/// What a run printed: one value per print call, with or without a
/// trailing newline.
#[derive(Debug, PartialEq)]
pub struct OutputEvent {
    pub value: Value,
    pub newline: bool,
}

/// Why a run stopped without a value.
#[derive(Debug)]
pub struct EvalError(pub &'static str);

/// The machine state of one activation: a program counter, the symbol
/// store, the heap, and the output log.
pub struct State {
    pub pc: usize,
    pub values: AssocMap<Symbol, Value>,
    pub memory: Vec<Value>,
    pub output: Vec<OutputEvent>,
}

impl State {
    pub open spec fn wf(self) -> bool {
        self.values.wf()
    }
}

/// A copy of a runtime value.
fn dup_value(v: &Value) -> (r: Value)
    ensures
        r == *v,
{
    match v {
        Value::Void => Value::Void,
        Value::Str(s) => Value::Str(s.clone()),
        Value::Int(i) => Value::Int(*i),
    }
}

/// The index of the line that emits the label, if any.
#[verifier::loop_isolation(false)]
pub fn find_label(instruction_listing: &Vec<LIRAssembly>, label: Label) -> (r: Option<usize>)
    ensures
        r matches Some(i) ==> i < instruction_listing@.len()
            && crate::lir::lir_line_label(instruction_listing@[i as int]) == Some(label),
        r is None ==> forall|i: int|
            0 <= i < instruction_listing@.len() ==> crate::lir::lir_line_label(
                #[trigger] instruction_listing@[i],
            ) != Some(label),
{
    let mut i: usize = 0;
    while i < instruction_listing.len()
        invariant
            i <= instruction_listing@.len(),
            forall|j: int|
                0 <= j < i ==> crate::lir::lir_line_label(#[trigger] instruction_listing@[j])
                    != Some(label),
        decreases instruction_listing@.len() - i,
    {
        match &instruction_listing[i] {
            LIRAssembly::Label(l) => {
                if *l == label {
                    return Some(i);
                }
            },
            _ => {},
        }
        i = i + 1;
    }
    None
}

/// Runs a whole program: its entry function on no arguments, under the
/// given fuel.  Returns the final value and everything the run
/// printed.
pub fn eval(lir: &LIRProgram, fuel: u64) -> (r: Result<(Value, Vec<OutputEvent>), EvalError>)
    requires
        lir.other_functions.wf(),
    ensures
        fuel == 0 ==> r is Err,
        lir.main_function.arguments@.len() != 0 ==> r is Err,
{
    if fuel == 0 {
        return Err(EvalError("out of fuel"));
    }
    eval_fn(lir, &lir.main_function, Vec::new(), fuel - 1)
}

/// Runs one function on the given argument values.
#[verifier::loop_isolation(false)]
pub fn eval_fn(
    lir_prog: &LIRProgram,
    lir: &LIRFunction,
    args: Vec<Value>,
    fuel: u64,
) -> (r: Result<(Value, Vec<OutputEvent>), EvalError>)
    requires
        lir_prog.other_functions.wf(),
    ensures
        args@.len() != lir.arguments@.len() ==> r is Err,
    decreases fuel, 2int,
{
    if args.len() != lir.arguments.len() {
        return Err(EvalError("argument count mismatch"));
    }
    let mut values: AssocMap<Symbol, Value> = AssocMap::new();
    let mut args = args;
    let mut k: usize = 0;
    while k < lir.arguments.len()
        invariant
            k <= lir.arguments@.len(),
            args@.len() + k == lir.arguments@.len(),
            values.wf(),
        decreases lir.arguments@.len() - k,
    {
        match args.pop() {
            Some(v) => {
                values.insert(lir.arguments[lir.arguments.len() - 1 - k], v);
            },
            None => {
                return Err(EvalError("argument count mismatch"));
            },
        }
        k = k + 1;
    }
    let state = State { pc: 0, values, memory: Vec::new(), output: Vec::new() };
    let state = match eval_listing(lir_prog, &lir.instruction_listing, state, fuel) {
        Ok(s) => s,
        Err(e) => {
            return Err(e);
        },
    };
    let result = match state.values.get(&lir.return_symbol) {
        Some(v) => dup_value(v),
        None => Value::Void,
    };
    Ok((result, state.output))
}

/// Steps through a listing from the state's program counter until it
/// runs off the end.
#[verifier::loop_isolation(false)]
fn eval_listing(
    lir: &LIRProgram,
    instruction_listing: &Vec<LIRAssembly>,
    state: State,
    fuel: u64,
) -> (r: Result<State, EvalError>)
    requires
        lir.other_functions.wf(),
        state.wf(),
    ensures
        r matches Ok(s) ==> s.wf() && s.pc >= instruction_listing@.len(),
    decreases fuel, 1int,
{
    let mut state = state;
    let mut cur: u64 = fuel;
    while state.pc < instruction_listing.len()
        invariant
            cur <= fuel,
            state.wf(),
            lir.other_functions.wf(),
        decreases cur,
    {
        if cur == 0 {
            return Err(EvalError("out of fuel"));
        }
        cur = cur - 1;
        match &instruction_listing[state.pc] {
            LIRAssembly::Label(_) => {
                state.pc = state.pc + 1;
            },
            LIRAssembly::Instruction(inst) => {
                let (next_label, state2) = match eval_inst(lir, inst, state, cur) {
                    Ok(p) => p,
                    Err(e) => {
                        return Err(e);
                    },
                };
                state = state2;
                match next_label {
                    Some(l) => {
                        match find_label(instruction_listing, l) {
                            Some(i) => {
                                state.pc = i;
                            },
                            None => {
                                return Err(EvalError("jump to a label the function never emits"));
                            },
                        }
                    },
                    None => {
                        if state.pc < usize::MAX {
                            state.pc = state.pc + 1;
                        } else {
                            return Err(EvalError("program counter overflow"));
                        }
                    },
                }
            },
        }
    }
    Ok(state)
}

/// The integer a value must hold to serve as an address or operand.
fn want_int(v: &Value, msg: &'static str) -> (r: Result<i64, EvalError>)
    ensures
        r is Ok <==> *v is Int,
        r matches Ok(i) ==> *v == Value::Int(i),
{
    match v {
        Value::Int(i) => Ok(*i),
        _ => Err(EvalError(msg)),
    }
}

/// Reads a symbol's current value.
fn read_value(state: &State, s: Symbol) -> (r: Result<Value, EvalError>)
    requires
        state.wf(),
    ensures
        r is Ok <==> state.values@.contains_key(s),
        r matches Ok(v) ==> v == state.values@[s],
{
    match state.values.get(&s) {
        Some(v) => Ok(dup_value(v)),
        None => Err(EvalError("symbol used before set")),
    }
}

/// The integer bound to a symbol, if the symbol is bound and holds one.
pub open spec fn int_at(state: State, s: Symbol) -> Option<i64> {
    if state.values@.contains_key(s) {
        match state.values@[s] {
            Value::Int(i) => Some(i),
            _ => None,
        }
    } else {
        None
    }
}

/// The successor state binds one more symbol and touches nothing else.
pub open spec fn binds(pre: State, post: State, s: Symbol, v: Value) -> bool {
    &&& post.values@ == pre.values@.insert(s, v)
    &&& post.memory == pre.memory
    &&& post.output == pre.output
    &&& post.pc == pre.pc
}

/// Whether a comparison holds of two machine integers.
pub open spec fn spec_compare(c: ComparisonType, l: i64, r: i64) -> bool {
    match c {
        ComparisonType::Equal => l == r,
        ComparisonType::NotEqual => l != r,
        ComparisonType::GreaterThan => l > r,
        ComparisonType::LessThan => l < r,
        ComparisonType::GreaterThanEqual => l >= r,
        ComparisonType::LessThanEqual => l <= r,
    }
}

/// Division truncating toward zero, as the machine divides.
pub open spec fn spec_div_trunc(x: int, d: int) -> int {
    if x == 0 {
        0
    } else if x > 0 && d > 0 {
        x / d
    } else if x < 0 && d < 0 {
        (x * -1) / (d * -1)
    } else if x < 0 {
        ((x * -1) / d) * -1
    } else {
        (x / (d * -1)) * -1
    }
}

/// The value an arithmetic operator produces, if it fits in a word;
/// `None` on overflow or division by zero.
pub open spec fn spec_binop(op: InfixOp, l: i64, r: i64) -> Option<Value> {
    match op {
        InfixOp::Multiply => if l * r < i64::MIN || l * r > i64::MAX {
            None
        } else {
            Some(Value::Int((l * r) as i64))
        },
        InfixOp::Divide => if r == 0 {
            None
        } else {
            let q = spec_div_trunc(l as int, r as int);
            if q < i64::MIN || q > i64::MAX {
                None
            } else {
                Some(Value::Int(q as i64))
            }
        },
        InfixOp::Add => if l + r < i64::MIN || l + r > i64::MAX {
            None
        } else {
            Some(Value::Int((l + r) as i64))
        },
        InfixOp::Subtract => if l - r < i64::MIN || l - r > i64::MAX {
            None
        } else {
            Some(Value::Int((l - r) as i64))
        },
        InfixOp::And => Some(Value::Int(l & r)),
        InfixOp::Or => Some(Value::Int(l | r)),
    }
}

/// Executes one instruction; returns the label to continue at, if the
/// instruction jumped, and the successor state.
#[verifier::loop_isolation(false)]
#[verifier::rlimit(60)]
fn eval_inst(
    lir: &LIRProgram,
    instruction: &LIRInstruction,
    state: State,
    fuel: u64,
) -> (r: Result<(Option<Label>, State), EvalError>)
    requires
        lir.other_functions.wf(),
        state.wf(),
    ensures
        r matches Ok(p) ==> p.1.wf(),
        instruction matches LIRInstruction::Nop ==> r matches Ok(p) && p.0 is None && p.1 == state,
        instruction matches LIRInstruction::IntLit { assign_to, value } ==> r matches Ok(p) && p.0
            is None && binds(state, p.1, *assign_to, Value::Int(*value)),
        instruction matches LIRInstruction::StringLit { assign_to, value } ==> r matches Ok(p)
            && p.0 is None && binds(state, p.1, *assign_to, Value::Str(*value)),
        instruction matches LIRInstruction::StoreToMemoryAtOffset { location, offset, value } ==> {
            let lv = int_at(state, *location);
            let ov = int_at(state, *offset);
            &&& (r is Ok <==> lv is Some && ov is Some && state.values@.contains_key(*value)
                && lv->Some_0 + ov->Some_0 <= i64::MAX && 0 <= lv->Some_0 + ov->Some_0
                < state.memory@.len())
            &&& (r matches Ok(p) ==> p.0 is None && p.1.values == state.values && p.1.output
                == state.output && p.1.pc == state.pc && p.1.memory@ == state.memory@.update(
                lv->Some_0 + ov->Some_0,
                state.values@[*value],
            ))
        },
        instruction matches LIRInstruction::LoadFromMemoryAtOffset {
            assign_to,
            location,
            offset,
        } ==> {
            let lv = int_at(state, *location);
            let ov = int_at(state, *offset);
            &&& (r is Ok <==> lv is Some && ov is Some && lv->Some_0 + ov->Some_0 <= i64::MAX
                && 0 <= lv->Some_0 + ov->Some_0 < state.memory@.len())
            &&& (r matches Ok(p) ==> p.0 is None && binds(
                state,
                p.1,
                *assign_to,
                state.memory@[lv->Some_0 + ov->Some_0],
            ))
        },
        instruction matches LIRInstruction::Assign { assign_to, id } ==> {
            &&& (r is Ok <==> state.values@.contains_key(*id))
            &&& (r matches Ok(p) ==> p.0 is None && binds(
                state,
                p.1,
                *assign_to,
                state.values@[*id],
            ))
        },
        instruction matches LIRInstruction::Negate { assign_to, value } ==> {
            let v = int_at(state, *value);
            &&& (r is Ok <==> (v matches Some(i) && i != i64::MIN))
            &&& (r matches Ok(p) ==> p.0 is None && binds(
                state,
                p.1,
                *assign_to,
                Value::Int((0 - v->Some_0) as i64),
            ))
        },
        instruction matches LIRInstruction::BinaryOp { assign_to, left, op, right } ==> {
            let lv = int_at(state, *left);
            let rv = int_at(state, *right);
            &&& (r is Ok <==> lv is Some && rv is Some && spec_binop(*op, lv->Some_0, rv->Some_0)
                is Some)
            &&& (r matches Ok(p) ==> p.0 is None && binds(
                state,
                p.1,
                *assign_to,
                spec_binop(*op, lv->Some_0, rv->Some_0)->Some_0,
            ))
        },
        instruction matches LIRInstruction::Jump { to } ==> r matches Ok(p) && p.0 == Some(*to)
            && p.1 == state,
        instruction matches LIRInstruction::JumpC { to, condition } ==> {
            let lv = int_at(state, condition.left);
            let rv = int_at(state, condition.right);
            &&& (r is Ok <==> lv is Some && rv is Some)
            &&& (r matches Ok(p) ==> p.1 == state && p.0 == (if spec_compare(
                condition.c,
                lv->Some_0,
                rv->Some_0,
            ) {
                Some(*to)
            } else {
                None::<Label>
            }))
        },
    decreases fuel, 0int,
{
    let mut state = state;
    match instruction {
        LIRInstruction::Nop => Ok((None, state)),
        LIRInstruction::IntLit { assign_to, value } => {
            state.values.insert(*assign_to, Value::Int(*value));
            Ok((None, state))
        },
        LIRInstruction::StringLit { assign_to, value } => {
            state.values.insert(*assign_to, Value::Str(value.clone()));
            Ok((None, state))
        },
        LIRInstruction::StoreToMemoryAtOffset { location, offset, value } => {
            let loc = match read_value(&state, *location) {
                Ok(v) => match want_int(&v, "store location is not an address") {
                    Ok(i) => i,
                    Err(e) => {
                        return Err(e);
                    },
                },
                Err(e) => {
                    return Err(e);
                },
            };
            let off = match read_value(&state, *offset) {
                Ok(v) => match want_int(&v, "store offset is not an integer") {
                    Ok(i) => i,
                    Err(e) => {
                        return Err(e);
                    },
                },
                Err(e) => {
                    return Err(e);
                },
            };
            let val = match read_value(&state, *value) {
                Ok(v) => v,
                Err(e) => {
                    return Err(e);
                },
            };
            let address = loc.checked_add(off);
            let mem_len = state.memory.len();
            let address = match address {
                Some(a) => {
                    if a >= 0 && (a as u64) < (mem_len as u64) {
                        a as usize
                    } else {
                        return Err(EvalError("store address out of range"));
                    }
                },
                None => {
                    return Err(EvalError("store address out of range"));
                },
            };
            state.memory.set(address, val);
            Ok((None, state))
        },
        LIRInstruction::LoadFromMemoryAtOffset { assign_to, location, offset } => {
            let loc = match read_value(&state, *location) {
                Ok(v) => match want_int(&v, "load location is not an address") {
                    Ok(i) => i,
                    Err(e) => {
                        return Err(e);
                    },
                },
                Err(e) => {
                    return Err(e);
                },
            };
            let off = match read_value(&state, *offset) {
                Ok(v) => match want_int(&v, "load offset is not an integer") {
                    Ok(i) => i,
                    Err(e) => {
                        return Err(e);
                    },
                },
                Err(e) => {
                    return Err(e);
                },
            };
            let address = loc.checked_add(off);
            let mem_len = state.memory.len();
            let address = match address {
                Some(a) => {
                    if a >= 0 && (a as u64) < (mem_len as u64) {
                        a as usize
                    } else {
                        return Err(EvalError("load address out of range"));
                    }
                },
                None => {
                    return Err(EvalError("load address out of range"));
                },
            };
            let v = dup_value(&state.memory[address]);
            state.values.insert(*assign_to, v);
            Ok((None, state))
        },
        LIRInstruction::Assign { assign_to, id } => {
            let v = match read_value(&state, *id) {
                Ok(v) => v,
                Err(e) => {
                    return Err(e);
                },
            };
            state.values.insert(*assign_to, v);
            Ok((None, state))
        },
        LIRInstruction::Negate { assign_to, value } => {
            let v = match read_value(&state, *value) {
                Ok(v) => match want_int(&v, "negating a non-integer") {
                    Ok(i) => i,
                    Err(e) => {
                        return Err(e);
                    },
                },
                Err(e) => {
                    return Err(e);
                },
            };
            if v == i64::MIN {
                return Err(EvalError("negation overflow"));
            }
            state.values.insert(*assign_to, Value::Int(-v));
            Ok((None, state))
        },
        LIRInstruction::BinaryOp { assign_to, left, op, right } => {
            let l = match read_value(&state, *left) {
                Ok(v) => match want_int(&v, "non-integer on the left of an operator") {
                    Ok(i) => i,
                    Err(e) => {
                        return Err(e);
                    },
                },
                Err(e) => {
                    return Err(e);
                },
            };
            let r2 = match read_value(&state, *right) {
                Ok(v) => match want_int(&v, "non-integer on the right of an operator") {
                    Ok(i) => i,
                    Err(e) => {
                        return Err(e);
                    },
                },
                Err(e) => {
                    return Err(e);
                },
            };
            let value = match op {
                InfixOp::Multiply => l.checked_mul(r2),
                InfixOp::Divide => l.checked_div(r2),
                InfixOp::Add => l.checked_add(r2),
                InfixOp::Subtract => l.checked_sub(r2),
                InfixOp::And => Some(l & r2),
                InfixOp::Or => Some(l | r2),
            };
            let value = match value {
                Some(v) => v,
                None => {
                    return Err(EvalError("arithmetic overflow or division by zero"));
                },
            };
            state.values.insert(*assign_to, Value::Int(value));
            Ok((None, state))
        },
        LIRInstruction::Jump { to } => Ok((Some(*to), state)),
        LIRInstruction::JumpC { to, condition } => {
            let l = match read_value(&state, condition.left) {
                Ok(v) => match want_int(&v, "non-integer in a condition") {
                    Ok(i) => i,
                    Err(e) => {
                        return Err(e);
                    },
                },
                Err(e) => {
                    return Err(e);
                },
            };
            let r2 = match read_value(&state, condition.right) {
                Ok(v) => match want_int(&v, "non-integer in a condition") {
                    Ok(i) => i,
                    Err(e) => {
                        return Err(e);
                    },
                },
                Err(e) => {
                    return Err(e);
                },
            };
            let jump = match condition.c {
                ComparisonType::Equal => l == r2,
                ComparisonType::NotEqual => l != r2,
                ComparisonType::GreaterThan => l > r2,
                ComparisonType::LessThan => l < r2,
                ComparisonType::GreaterThanEqual => l >= r2,
                ComparisonType::LessThanEqual => l <= r2,
            };
            if jump {
                Ok((Some(*to), state))
            } else {
                Ok((None, state))
            }
        },
        LIRInstruction::Call { assign_to, function_name, args } => {
            let mut arg_values: Vec<Value> = Vec::new();
            let mut k: usize = 0;
            while k < args.len()
                invariant
                    k <= args@.len(),
                    state.wf(),
                decreases args@.len() - k,
            {
                let v = match read_value(&state, args[k]) {
                    Ok(v) => v,
                    Err(e) => {
                        return Err(e);
                    },
                };
                arg_values.push(v);
                k = k + 1;
            }
            match function_name {
                Label::Allocate => {
                    if arg_values.len() != 1 {
                        return Err(EvalError("allocate takes one argument"));
                    }
                    let size = match want_int(&arg_values[0], "allocate wants a size") {
                        Ok(i) => i,
                        Err(e) => {
                            return Err(e);
                        },
                    };
                    match alloc_cells(&mut state, size, Value::Void) {
                        Ok(base) => {
                            state.values.insert(*assign_to, Value::Int(base));
                            Ok((None, state))
                        },
                        Err(e) => Err(e),
                    }
                },
                Label::AllocateAndMemset => {
                    let (size, fill) = if arg_values.len() == 2 {
                        let size = match want_int(&arg_values[0], "allocate wants a size") {
                            Ok(i) => i,
                            Err(e) => {
                                return Err(e);
                            },
                        };
                        (size, dup_value(&arg_values[1]))
                    } else if arg_values.len() == 1 {
                        let size = match want_int(&arg_values[0], "allocate wants a size") {
                            Ok(i) => i,
                            Err(e) => {
                                return Err(e);
                            },
                        };
                        (size, Value::Int(0))
                    } else {
                        return Err(EvalError("allocate_and_memset takes one or two arguments"));
                    };
                    match alloc_cells(&mut state, size, fill) {
                        Ok(base) => {
                            state.values.insert(*assign_to, Value::Int(base));
                            Ok((None, state))
                        },
                        Err(e) => Err(e),
                    }
                },
                Label::PrintlnInt | Label::PrintlnString => {
                    if arg_values.len() != 1 {
                        return Err(EvalError("print takes one argument"));
                    }
                    let v = dup_value(&arg_values[0]);
                    state.output.push(OutputEvent { value: v, newline: true });
                    state.values.insert(*assign_to, Value::Void);
                    Ok((None, state))
                },
                Label::PrintInt | Label::PrintString => {
                    if arg_values.len() != 1 {
                        return Err(EvalError("print takes one argument"));
                    }
                    let v = dup_value(&arg_values[0]);
                    state.output.push(OutputEvent { value: v, newline: false });
                    state.values.insert(*assign_to, Value::Void);
                    Ok((None, state))
                },
                Label::Main => {
                    if fuel == 0 {
                        return Err(EvalError("out of fuel"));
                    }
                    match eval_fn(lir, &lir.main_function, arg_values, fuel - 1) {
                        Ok((res, printed)) => {
                            take_events(&mut state.output, printed);
                            state.values.insert(*assign_to, res);
                            Ok((None, state))
                        },
                        Err(e) => Err(e),
                    }
                },
                Label::Uid(_) => {
                    let callee = match lir.other_functions.get(function_name) {
                        Some(f) => f,
                        None => {
                            return Err(EvalError("call to a function the program never defines"));
                        },
                    };
                    if fuel == 0 {
                        return Err(EvalError("out of fuel"));
                    }
                    match eval_fn(lir, callee, arg_values, fuel - 1) {
                        Ok((res, printed)) => {
                            take_events(&mut state.output, printed);
                            state.values.insert(*assign_to, res);
                            Ok((None, state))
                        },
                        Err(e) => Err(e),
                    }
                },
            }
        },
    }
}


/// Moves the events of `src` onto the end of `dst`, keeping their
/// order.
#[verifier::loop_isolation(false)]
fn take_events(dst: &mut Vec<OutputEvent>, src: Vec<OutputEvent>)
    ensures
        final(dst)@ == old(dst)@ + src@,
{
    let ghost src0 = src@;
    let mut src = src;
    let mut tmp: Vec<OutputEvent> = Vec::new();
    while src.len() > 0
        invariant
            src@ == src0.take(src@.len() as int),
            tmp@.len() + src@.len() == src0.len(),
            forall|i: int| 0 <= i < tmp@.len() ==> #[trigger] tmp@[i] == src0[src0.len() - 1 - i],
        decreases src@.len(),
    {
        match src.pop() {
            Some(e) => {
                tmp.push(e);
            },
            None => {
                break ;
            },
        }
    }
    let ghost n = src0.len();
    while tmp.len() > 0
        invariant
            tmp@.len() <= n,
            forall|i: int| 0 <= i < tmp@.len() ==> #[trigger] tmp@[i] == src0[n - 1 - i],
            dst@ == old(dst)@ + src0.take(n - tmp@.len()),
        decreases tmp@.len(),
    {
        match tmp.pop() {
            Some(e) => {
                let ghost pre = dst@;
                dst.push(e);
                proof {
                    assert(dst@ =~= old(dst)@ + src0.take(n - tmp@.len()));
                }
            },
            None => {
                break ;
            },
        }
    }
    proof {
        assert(src0.take(n as int) =~= src0);
    }
}

/// Appends `size` copies of `fill` to the heap and returns the base
/// address of the new block.
#[verifier::loop_isolation(false)]
fn alloc_cells(state: &mut State, size: i64, fill: Value) -> (r: Result<i64, EvalError>)
    requires
        old(state).wf(),
    ensures
        final(state).wf(),
{
    if size < 0 {
        return Err(EvalError("allocation of a negative size"));
    }
    let base = state.memory.len();
    if base as u64 > 0x7fff_ffff_ffff_0000u64 {
        return Err(EvalError("heap exhausted"));
    }
    if (size as u64) > 0x0000_0000_ffff_ffffu64 {
        return Err(EvalError("allocation too large"));
    }
    let mut k: i64 = 0;
    while k < size
        invariant
            0 <= k <= size,
            state.wf(),
        decreases size - k,
    {
        state.memory.push(dup_value(&fill));
        k = k + 1;
    }
    Ok(base as i64)
}

} // verus!
