//! The data-flow substrate: a per-function control-flow graph over
//! indexed instructions, gen/kill sets, and the backward live-variable
//! fixpoint.  The graph itself is stored in a petgraph `StableGraph`;
//! its contents are described by the `graph_nodes`, `graph_edges` and
//! `graph_edge_count` names, and every call into petgraph goes through
//! a wrapper whose contract speaks over those names.

use vstd::prelude::*;

use crate::common::{Comparison, Label, Symbol};
use crate::lir::{LIRAssembly, LIRFunction, LIRInstruction};
use crate::tables::{AssocMap, MapKey, SymbolSet};
use crate::x64::{X64Value, X64opCode};
use crate::x64s::{SOperand, SOperands, X64SAssembly, X64SFunction, X64SInstruction};

verus! {

/// A node of the control-flow graph: the distinguished entry and exit,
/// or the instruction at an index of the listing.
#[derive(Debug, Copy, Clone, PartialEq, Eq, Structural, Hash)]
pub enum Node {
    Start,
    End,
    Index(usize),
}

impl MapKey for Node {
    type KV = Node;

    open spec fn kview(&self) -> Node {
        *self
    }

    fn keq(&self, other: &Self) -> (r: bool)
        ensures
            r == (self.kview() == other.kview()),
    {
        *self == *other
    }
}

#[verifier::external_type_specification]
#[verifier::external_body]
#[verifier::reject_recursive_types(N)]
#[verifier::reject_recursive_types(E)]
#[verifier::reject_recursive_types(Ty)]
#[verifier::reject_recursive_types(Ix)]
pub struct ExStableGraph<N, E, Ty, Ix>(petgraph::stable_graph::StableGraph<N, E, Ty, Ix>);

#[verifier::external_type_specification]
#[verifier::external_body]
pub struct ExDirected(petgraph::Directed);

/// The directed graph the control-flow analysis works over.
pub type CfgGraph = petgraph::stable_graph::StableGraph<Node, (), petgraph::Directed, u32>;

/// The occupied node indices of the graph and the weight each holds.
pub uninterp spec fn graph_nodes(g: CfgGraph) -> Map<int, Node>;

/// The directed edges the graph holds, as source and target indices.
pub uninterp spec fn graph_edges(g: CfgGraph) -> Set<(int, int)>;

/// The number of live edges, counted with multiplicity.
pub uninterp spec fn graph_edge_count(g: CfgGraph) -> int;

/// Relies on `StableGraph::new`: a new graph holds no nodes and no
/// edges.
#[verifier::external_body]
fn graph_new() -> (g: CfgGraph)
    ensures
        forall|n: int| !graph_nodes(g).dom().contains(n),
        forall|e: (int, int)| !graph_edges(g).contains(e),
        graph_edge_count(g) == 0,
{
    petgraph::stable_graph::StableGraph::new()
}

/// Relies on `StableGraph::add_node`: stores the weight at a fresh
/// index, below the `u32` index limit, and returns that index.
#[verifier::external_body]
fn graph_add_node(g: &mut CfgGraph, w: Node) -> (ix: usize)
    requires
        graph_nodes(*old(g)).dom().finite(),
        graph_nodes(*old(g)).dom().len() < 0xffff_fffe,
    ensures
        !graph_nodes(*old(g)).dom().contains(ix as int),
        ix < 0x1_0000_0000,
        graph_nodes(*final(g)) == graph_nodes(*old(g)).insert(ix as int, w),
        graph_edges(*final(g)) == graph_edges(*old(g)),
        graph_edge_count(*final(g)) == graph_edge_count(*old(g)),
{
    g.add_node(w).index()
}

/// Relies on `StableGraph::add_edge`: adds one directed edge between
/// two existing nodes.
#[verifier::external_body]
fn graph_add_edge(g: &mut CfgGraph, a: usize, b: usize)
    requires
        graph_nodes(*old(g)).dom().contains(a as int),
        graph_nodes(*old(g)).dom().contains(b as int),
        a < 0x1_0000_0000,
        b < 0x1_0000_0000,
        graph_edge_count(*old(g)) < 0xffff_fffe,
    ensures
        graph_nodes(*final(g)) == graph_nodes(*old(g)),
        graph_edges(*final(g)) == graph_edges(*old(g)).insert((a as int, b as int)),
        graph_edge_count(*final(g)) == graph_edge_count(*old(g)) + 1,
{
    g.add_edge(
        petgraph::stable_graph::NodeIndex::new(a),
        petgraph::stable_graph::NodeIndex::new(b),
        (),
    );
}

/// Relies on `StableGraph::node_indices`: lists every occupied node
/// index exactly once.
#[verifier::external_body]
fn graph_node_ids(g: &CfgGraph) -> (v: Vec<usize>)
    ensures
        forall|i: int|
            0 <= i < v@.len() ==> graph_nodes(*g).dom().contains((#[trigger] v@[i]) as int)
                && v@[i] < 0x1_0000_0000,
        forall|n: int|
            graph_nodes(*g).dom().contains(n) ==> exists|i: int|
                0 <= i < v@.len() && (#[trigger] v@[i]) as int == n,
        forall|i: int, j: int| 0 <= i < j < v@.len() ==> v@[i] != v@[j],
{
    g.node_indices().map(|n| n.index()).collect()
}

/// Relies on `StableGraph::node_weight`: the weight stored at an
/// occupied index.
#[verifier::external_body]
fn graph_node_weight(g: &CfgGraph, n: usize) -> (w: Node)
    requires
        graph_nodes(*g).dom().contains(n as int),
        n < 0x1_0000_0000,
    ensures
        w == graph_nodes(*g)[n as int],
{
    *g.node_weight(petgraph::stable_graph::NodeIndex::new(n)).unwrap()
}

/// Relies on `StableGraph::neighbors_directed` with `Outgoing`: the
/// targets of the edges leaving `n`, possibly repeated, covering them
/// all.
#[verifier::external_body]
fn graph_succ_ids(g: &CfgGraph, n: usize) -> (v: Vec<usize>)
    requires
        n < 0x1_0000_0000,
    ensures
        forall|i: int|
            0 <= i < v@.len() ==> graph_edges(*g).contains((n as int, (#[trigger] v@[i]) as int))
                && v@[i] < 0x1_0000_0000 && graph_nodes(*g).dom().contains(v@[i] as int),
        forall|m: int|
            graph_edges(*g).contains((n as int, m)) ==> exists|i: int|
                0 <= i < v@.len() && (#[trigger] v@[i]) as int == m,
{
    g.neighbors_directed(petgraph::stable_graph::NodeIndex::new(n), petgraph::Direction::Outgoing)
        .map(|x| x.index())
        .collect()
}

/// Relies on `StableGraph::neighbors_directed` with `Incoming`: the
/// sources of the edges entering `n`, possibly repeated, covering them
/// all.
#[verifier::external_body]
fn graph_pred_ids(g: &CfgGraph, n: usize) -> (v: Vec<usize>)
    requires
        n < 0x1_0000_0000,
    ensures
        forall|i: int|
            0 <= i < v@.len() ==> graph_edges(*g).contains(((#[trigger] v@[i]) as int, n as int))
                && v@[i] < 0x1_0000_0000 && graph_nodes(*g).dom().contains(v@[i] as int),
        forall|m: int|
            graph_edges(*g).contains((m, n as int)) ==> exists|i: int|
                0 <= i < v@.len() && (#[trigger] v@[i]) as int == m,
{
    g.neighbors_directed(petgraph::stable_graph::NodeIndex::new(n), petgraph::Direction::Incoming)
        .map(|x| x.index())
        .collect()
}

/// Relies on `StableGraph::edge_indices` and `edge_endpoints`: every
/// live edge's endpoints, one entry per edge.
#[verifier::external_body]
pub fn graph_edge_list(g: &CfgGraph) -> (v: Vec<(usize, usize)>)
    ensures
        forall|i: int|
            0 <= i < v@.len() ==> graph_edges(*g).contains(
                ((#[trigger] v@[i]).0 as int, v@[i].1 as int),
            ),
        forall|e: (int, int)|
            graph_edges(*g).contains(e) ==> exists|i: int|
                0 <= i < v@.len() && ((#[trigger] v@[i]).0 as int, v@[i].1 as int) == e,
{
    g.edge_indices()
        .filter_map(|e| g.edge_endpoints(e))
        .map(|(a, b)| (a.index(), b.index()))
        .collect()
}

/// Access to the gen (symbols read) and kill (symbols written) sets of
/// one statement.
pub trait GenKill {
    /// The symbols the statement reads before any write.
    spec fn gen_spec(&self) -> Set<Symbol>;

    /// The symbols the statement writes.
    spec fn kill_spec(&self) -> Set<Symbol>;

    fn gen(&self) -> (r: SymbolSet)
        ensures
            r@ == self.gen_spec(),
            r.wf(),
    ;

    fn kill(&self) -> (r: SymbolSet)
        ensures
            r@ == self.kill_spec(),
            r.wf(),
    ;
}

/// The gen set of one intermediate-form line.
pub open spec fn lir_gen(a: LIRAssembly) -> Set<Symbol> {
    match a {
        LIRAssembly::Label(_) => Set::empty(),
        LIRAssembly::Instruction(i) => match i {
            LIRInstruction::Nop => Set::empty(),
            LIRInstruction::IntLit { .. } => Set::empty(),
            LIRInstruction::StringLit { .. } => Set::empty(),
            LIRInstruction::StoreToMemoryAtOffset { value, .. } => set![value],
            LIRInstruction::LoadFromMemoryAtOffset { location, offset, .. } => set![
                location,
                offset,
            ],
            LIRInstruction::Assign { id, .. } => set![id],
            LIRInstruction::Negate { value, .. } => set![value],
            LIRInstruction::BinaryOp { left, right, .. } => set![left, right],
            LIRInstruction::Call { args, .. } => args@.to_set(),
            LIRInstruction::Jump { .. } => Set::empty(),
            LIRInstruction::JumpC { condition, .. } => set![condition.left, condition.right],
        },
    }
}

/// The kill set of one intermediate-form line.  A store overwrites its
/// address-producing symbols as scratch during address materialisation,
/// so they count as written.
pub open spec fn lir_kill(a: LIRAssembly) -> Set<Symbol> {
    match a {
        LIRAssembly::Label(_) => Set::empty(),
        LIRAssembly::Instruction(i) => match i {
            LIRInstruction::Nop => Set::empty(),
            LIRInstruction::IntLit { assign_to, .. } => set![assign_to],
            LIRInstruction::StringLit { assign_to, .. } => set![assign_to],
            LIRInstruction::StoreToMemoryAtOffset { location, offset, .. } => set![
                location,
                offset,
            ],
            LIRInstruction::LoadFromMemoryAtOffset { assign_to, .. } => set![assign_to],
            LIRInstruction::Assign { assign_to, .. } => set![assign_to],
            LIRInstruction::Negate { assign_to, .. } => set![assign_to],
            LIRInstruction::BinaryOp { assign_to, .. } => set![assign_to],
            LIRInstruction::Call { assign_to, .. } => set![assign_to],
            LIRInstruction::Jump { .. } => Set::empty(),
            LIRInstruction::JumpC { .. } => Set::empty(),
        },
    }
}

impl GenKill for LIRAssembly {
    open spec fn gen_spec(&self) -> Set<Symbol> {
        lir_gen(*self)
    }

    open spec fn kill_spec(&self) -> Set<Symbol> {
        lir_kill(*self)
    }

    fn gen(&self) -> (r: SymbolSet)
        ensures
            r@ == self.gen_spec(),
            r.wf(),
    {
        let mut r = SymbolSet::empty();
        match self {
            LIRAssembly::Label(_) => {},
            LIRAssembly::Instruction(i) => match i {
                LIRInstruction::Nop => {},
                LIRInstruction::IntLit { .. } => {},
                LIRInstruction::StringLit { .. } => {},
                LIRInstruction::StoreToMemoryAtOffset { value, .. } => {
                    r.insert(*value);
                },
                LIRInstruction::LoadFromMemoryAtOffset { location, offset, .. } => {
                    r.insert(*location);
                    r.insert(*offset);
                },
                LIRInstruction::Assign { id, .. } => {
                    r.insert(*id);
                },
                LIRInstruction::Negate { value, .. } => {
                    r.insert(*value);
                },
                LIRInstruction::BinaryOp { left, right, .. } => {
                    r.insert(*left);
                    r.insert(*right);
                },
                LIRInstruction::Call { args, .. } => {
                    r = SymbolSet::from_vec(args);
                },
                LIRInstruction::Jump { .. } => {},
                LIRInstruction::JumpC { condition, .. } => {
                    r.insert(condition.left);
                    r.insert(condition.right);
                },
            },
        }
        proof {
            assert(r@ =~= self.gen_spec());
        }
        r
    }

    fn kill(&self) -> (r: SymbolSet)
        ensures
            r@ == self.kill_spec(),
            r.wf(),
    {
        let mut r = SymbolSet::empty();
        match self {
            LIRAssembly::Label(_) => {},
            LIRAssembly::Instruction(i) => match i {
                LIRInstruction::Nop => {},
                LIRInstruction::IntLit { assign_to, .. } => {
                    r.insert(*assign_to);
                },
                LIRInstruction::StringLit { assign_to, .. } => {
                    r.insert(*assign_to);
                },
                LIRInstruction::StoreToMemoryAtOffset { location, offset, .. } => {
                    r.insert(*location);
                    r.insert(*offset);
                },
                LIRInstruction::LoadFromMemoryAtOffset { assign_to, .. } => {
                    r.insert(*assign_to);
                },
                LIRInstruction::Assign { assign_to, .. } => {
                    r.insert(*assign_to);
                },
                LIRInstruction::Negate { assign_to, .. } => {
                    r.insert(*assign_to);
                },
                LIRInstruction::BinaryOp { assign_to, .. } => {
                    r.insert(*assign_to);
                },
                LIRInstruction::Call { assign_to, .. } => {
                    r.insert(*assign_to);
                },
                LIRInstruction::Jump { .. } => {},
                LIRInstruction::JumpC { .. } => {},
            },
        }
        proof {
            assert(r@ =~= self.kill_spec());
        }
        r
    }
}

/// Whether an opcode reads and writes its destination operand.
pub open spec fn is_two_op_arith(op: X64opCode) -> bool {
    op == X64opCode::Add || op == X64opCode::Sub || op == X64opCode::Or || op == X64opCode::And
        || op == X64opCode::Cmp
}

/// The symbol of an operand, when it has one.
pub open spec fn sop_sym(op: SOperand) -> Set<Symbol> {
    match op {
        SOperand::Symbol(s) => set![s],
        SOperand::MemorySym(s) => set![s],
        _ => Set::empty(),
    }
}

/// The symbol of an operand when the operand is dereferenced: such a
/// symbol is read wherever it stands.
pub open spec fn sop_memsym(op: SOperand) -> Set<Symbol> {
    match op {
        SOperand::MemorySym(s) => set![s],
        _ => Set::empty(),
    }
}

/// The symbol an operand writes: only a plain symbol destination is
/// overwritten; a write through `MemorySym` goes to the heap.
pub open spec fn sop_written(op: SOperand) -> Set<Symbol> {
    match op {
        SOperand::Symbol(s) => set![s],
        _ => Set::empty(),
    }
}

/// The gen set of one symbolic line, derived per opcode and operand
/// shape: read operands contribute, a dereferenced symbol counts as a
/// read wherever it stands, and the arithmetic opcodes read their
/// destination as well.
pub open spec fn x64s_gen(a: X64SAssembly) -> Set<Symbol> {
    match a {
        X64SAssembly::Label(_) => Set::empty(),
        X64SAssembly::Instruction(i) => match i.args {
            SOperands::Zero => Set::empty(),
            SOperands::One(a1) => match i.op_code {
                X64opCode::IMulq | X64opCode::IDivq | X64opCode::Neg | X64opCode::Push => sop_sym(
                    a1,
                ),
                _ => sop_memsym(a1),
            },
            SOperands::Two(a1, a2) => if is_two_op_arith(i.op_code) {
                sop_sym(a1).union(sop_sym(a2))
            } else if i.op_code == X64opCode::Movq || i.op_code == X64opCode::Lea {
                sop_sym(a1).union(sop_memsym(a2))
            } else if i.op_code == X64opCode::Shl {
                sop_sym(a2).union(sop_memsym(a1))
            } else {
                sop_memsym(a1).union(sop_memsym(a2))
            },
        },
    }
}

/// The kill set of one symbolic line: the destination, when it is a
/// plain symbol that the opcode writes.
pub open spec fn x64s_kill(a: X64SAssembly) -> Set<Symbol> {
    match a {
        X64SAssembly::Label(_) => Set::empty(),
        X64SAssembly::Instruction(i) => match i.args {
            SOperands::Zero => Set::empty(),
            SOperands::One(a1) => match i.op_code {
                X64opCode::Neg | X64opCode::Pop => sop_written(a1),
                _ => Set::empty(),
            },
            SOperands::Two(a1, a2) => if is_two_op_arith(i.op_code) || i.op_code == X64opCode::Movq
                || i.op_code == X64opCode::Lea || i.op_code == X64opCode::Shl {
                sop_written(a2)
            } else {
                Set::empty()
            },
        },
    }
}

impl GenKill for X64SAssembly {
    open spec fn gen_spec(&self) -> Set<Symbol> {
        x64s_gen(*self)
    }

    open spec fn kill_spec(&self) -> Set<Symbol> {
        x64s_kill(*self)
    }

    fn gen(&self) -> (r: SymbolSet)
        ensures
            r@ == self.gen_spec(),
            r.wf(),
    {
        let mut r = SymbolSet::empty();
        match self {
            X64SAssembly::Label(_) => {},
            X64SAssembly::Instruction(i) => {
                match i.args {
                    SOperands::Zero => {},
                    SOperands::One(a1) => {
                        match i.op_code {
                            X64opCode::IMulq | X64opCode::IDivq | X64opCode::Neg
                                | X64opCode::Push => {
                                match a1 {
                                    SOperand::Symbol(s) => {
                                        r.insert(s);
                                    },
                                    SOperand::MemorySym(s) => {
                                        r.insert(s);
                                    },
                                    _ => {},
                                }
                            },
                            _ => {
                                match a1 {
                                    SOperand::MemorySym(s) => {
                                        r.insert(s);
                                    },
                                    _ => {},
                                }
                            },
                        }
                    },
                    SOperands::Two(a1, a2) => {
                        let arith = match i.op_code {
                            X64opCode::Add | X64opCode::Sub | X64opCode::Or | X64opCode::And
                                | X64opCode::Cmp => true,
                            _ => false,
                        };
                        let movish = match i.op_code {
                            X64opCode::Movq | X64opCode::Lea => true,
                            _ => false,
                        };
                        let shl = match i.op_code {
                            X64opCode::Shl => true,
                            _ => false,
                        };
                        if arith {
                            match a1 {
                                SOperand::Symbol(s) => {
                                    r.insert(s);
                                },
                                SOperand::MemorySym(s) => {
                                    r.insert(s);
                                },
                                _ => {},
                            }
                            match a2 {
                                SOperand::Symbol(s) => {
                                    r.insert(s);
                                },
                                SOperand::MemorySym(s) => {
                                    r.insert(s);
                                },
                                _ => {},
                            }
                        } else if movish {
                            match a1 {
                                SOperand::Symbol(s) => {
                                    r.insert(s);
                                },
                                SOperand::MemorySym(s) => {
                                    r.insert(s);
                                },
                                _ => {},
                            }
                            match a2 {
                                SOperand::MemorySym(s) => {
                                    r.insert(s);
                                },
                                _ => {},
                            }
                        } else if shl {
                            match a2 {
                                SOperand::Symbol(s) => {
                                    r.insert(s);
                                },
                                SOperand::MemorySym(s) => {
                                    r.insert(s);
                                },
                                _ => {},
                            }
                            match a1 {
                                SOperand::MemorySym(s) => {
                                    r.insert(s);
                                },
                                _ => {},
                            }
                        } else {
                            match a1 {
                                SOperand::MemorySym(s) => {
                                    r.insert(s);
                                },
                                _ => {},
                            }
                            match a2 {
                                SOperand::MemorySym(s) => {
                                    r.insert(s);
                                },
                                _ => {},
                            }
                        }
                    },
                }
            },
        }
        proof {
            assert(r@ =~= self.gen_spec());
        }
        r
    }

    fn kill(&self) -> (r: SymbolSet)
        ensures
            r@ == self.kill_spec(),
            r.wf(),
    {
        let mut r = SymbolSet::empty();
        match self {
            X64SAssembly::Label(_) => {},
            X64SAssembly::Instruction(i) => {
                match i.args {
                    SOperands::Zero => {},
                    SOperands::One(a1) => {
                        match i.op_code {
                            X64opCode::Neg | X64opCode::Pop => {
                                match a1 {
                                    SOperand::Symbol(s) => {
                                        r.insert(s);
                                    },
                                    _ => {},
                                }
                            },
                            _ => {},
                        }
                    },
                    SOperands::Two(a1, a2) => {
                        let writes = match i.op_code {
                            X64opCode::Add | X64opCode::Sub | X64opCode::Or | X64opCode::And
                                | X64opCode::Cmp | X64opCode::Movq | X64opCode::Lea
                                | X64opCode::Shl => true,
                            _ => false,
                        };
                        if writes {
                            match a2 {
                                SOperand::Symbol(s) => {
                                    r.insert(s);
                                },
                                _ => {},
                            }
                        }
                    },
                }
            },
        }
        proof {
            assert(r@ =~= self.kill_spec());
        }
        r
    }
}

/// The shape of one line as the graph builder sees it: a label
/// definition, an unconditional jump, a conditional jump, or any other
/// instruction.
#[derive(Debug, Copy, Clone, PartialEq, Eq, Structural)]
pub enum LineKind {
    Lab(Label),
    Jump(Label),
    JumpC(Label),
    Other,
}

impl LineKind {
    /// The label this kind of line jumps to, if any.
    pub open spec fn jump_to(self) -> Option<Label> {
        match self {
            LineKind::Jump(l) => Some(l),
            LineKind::JumpC(l) => Some(l),
            _ => None,
        }
    }
}

/// A statement the graph builder can classify.
pub trait CfgLine: Sized + GenKill {
    spec fn kind_spec(&self) -> LineKind;

    fn kind(&self) -> (k: LineKind)
        ensures
            k == self.kind_spec(),
    ;

    /// A copy of the statement with the same classification and the
    /// same gen and kill sets.
    fn dup(&self) -> (r: Self)
        ensures
            r.kind_spec() == self.kind_spec(),
            r.gen_spec() == self.gen_spec(),
            r.kill_spec() == self.kill_spec(),
    ;
}

impl CfgLine for LIRAssembly {
    open spec fn kind_spec(&self) -> LineKind {
        match *self {
            LIRAssembly::Label(l) => LineKind::Lab(l),
            LIRAssembly::Instruction(LIRInstruction::Jump { to }) => LineKind::Jump(to),
            LIRAssembly::Instruction(LIRInstruction::JumpC { to, .. }) => LineKind::JumpC(to),
            _ => LineKind::Other,
        }
    }

    fn kind(&self) -> (k: LineKind)
        ensures
            k == self.kind_spec(),
    {
        match self {
            LIRAssembly::Label(l) => LineKind::Lab(*l),
            LIRAssembly::Instruction(LIRInstruction::Jump { to }) => LineKind::Jump(*to),
            LIRAssembly::Instruction(LIRInstruction::JumpC { to, .. }) => LineKind::JumpC(*to),
            _ => LineKind::Other,
        }
    }

    #[verifier::loop_isolation(false)]
    fn dup(&self) -> (r: Self)
        ensures
            r.kind_spec() == self.kind_spec(),
            r.gen_spec() == self.gen_spec(),
            r.kill_spec() == self.kill_spec(),
    {
        match self {
            LIRAssembly::Label(l) => LIRAssembly::Label(*l),
            LIRAssembly::Instruction(i) => LIRAssembly::Instruction(
                match i {
                    LIRInstruction::Nop => LIRInstruction::Nop,
                    LIRInstruction::IntLit { assign_to, value } => LIRInstruction::IntLit {
                        assign_to: *assign_to,
                        value: *value,
                    },
                    LIRInstruction::StringLit { assign_to, value } => LIRInstruction::StringLit {
                        assign_to: *assign_to,
                        value: value.clone(),
                    },
                    LIRInstruction::StoreToMemoryAtOffset { location, offset, value } =>
                        LIRInstruction::StoreToMemoryAtOffset {
                        location: *location,
                        offset: *offset,
                        value: *value,
                    },
                    LIRInstruction::LoadFromMemoryAtOffset { assign_to, location, offset } =>
                        LIRInstruction::LoadFromMemoryAtOffset {
                        assign_to: *assign_to,
                        location: *location,
                        offset: *offset,
                    },
                    LIRInstruction::Assign { assign_to, id } => LIRInstruction::Assign {
                        assign_to: *assign_to,
                        id: *id,
                    },
                    LIRInstruction::Negate { assign_to, value } => LIRInstruction::Negate {
                        assign_to: *assign_to,
                        value: *value,
                    },
                    LIRInstruction::BinaryOp { assign_to, left, op, right } =>
                        LIRInstruction::BinaryOp {
                        assign_to: *assign_to,
                        left: *left,
                        op: *op,
                        right: *right,
                    },
                    LIRInstruction::Call { assign_to, function_name, args } => {
                        let mut args2: Vec<Symbol> = Vec::new();
                        let mut ai: usize = 0;
                        while ai < args.len()
                            invariant
                                ai <= args@.len(),
                                args2@ == args@.take(ai as int),
                            decreases args@.len() - ai,
                        {
                            args2.push(args[ai]);
                            proof {
                                assert(args2@ =~= args@.take(ai + 1));
                            }
                            ai = ai + 1;
                        }
                        proof {
                            assert(args@.take(args@.len() as int) =~= args@);
                            assert(args2@ == args@);
                        }
                        LIRInstruction::Call {
                            assign_to: *assign_to,
                            function_name: *function_name,
                            args: args2,
                        }
                    },
                    LIRInstruction::Jump { to } => LIRInstruction::Jump { to: *to },
                    LIRInstruction::JumpC { to, condition } => LIRInstruction::JumpC {
                        to: *to,
                        condition: *condition,
                    },
                },
            ),
        }
    }
}

impl CfgLine for X64SAssembly {
    open spec fn kind_spec(&self) -> LineKind {
        match *self {
            X64SAssembly::Label(l) => LineKind::Lab(l),
            X64SAssembly::Instruction(i) => match (i.op_code, i.args) {
                (X64opCode::Jmp, SOperands::One(SOperand::MemoryImm(X64Value::LabelRef(to)))) =>
                    LineKind::Jump(to),
                (X64opCode::Je, SOperands::One(SOperand::MemoryImm(X64Value::LabelRef(to))))
                    | (X64opCode::Jne, SOperands::One(SOperand::MemoryImm(X64Value::LabelRef(to))))
                    | (X64opCode::Jg, SOperands::One(SOperand::MemoryImm(X64Value::LabelRef(to))))
                    | (X64opCode::Jge, SOperands::One(SOperand::MemoryImm(X64Value::LabelRef(to))))
                    | (X64opCode::Jl, SOperands::One(SOperand::MemoryImm(X64Value::LabelRef(to))))
                    | (X64opCode::Jle, SOperands::One(SOperand::MemoryImm(X64Value::LabelRef(to))))
                    => LineKind::JumpC(to),
                _ => LineKind::Other,
            },
        }
    }

    fn kind(&self) -> (k: LineKind)
        ensures
            k == self.kind_spec(),
    {
        match self {
            X64SAssembly::Label(l) => LineKind::Lab(*l),
            X64SAssembly::Instruction(i) => match (i.op_code, i.args) {
                (X64opCode::Jmp, SOperands::One(SOperand::MemoryImm(X64Value::LabelRef(to)))) =>
                    LineKind::Jump(to),
                (X64opCode::Je, SOperands::One(SOperand::MemoryImm(X64Value::LabelRef(to))))
                    | (X64opCode::Jne, SOperands::One(SOperand::MemoryImm(X64Value::LabelRef(to))))
                    | (X64opCode::Jg, SOperands::One(SOperand::MemoryImm(X64Value::LabelRef(to))))
                    | (X64opCode::Jge, SOperands::One(SOperand::MemoryImm(X64Value::LabelRef(to))))
                    | (X64opCode::Jl, SOperands::One(SOperand::MemoryImm(X64Value::LabelRef(to))))
                    | (X64opCode::Jle, SOperands::One(SOperand::MemoryImm(X64Value::LabelRef(to))))
                    => LineKind::JumpC(to),
                _ => LineKind::Other,
            },
        }
    }

    fn dup(&self) -> (r: Self)
        ensures
            r.kind_spec() == self.kind_spec(),
            r.gen_spec() == self.gen_spec(),
            r.kill_spec() == self.kill_spec(),
    {
        *self
    }
}

/// The kinds of every line of a listing.
pub open spec fn kinds_of<A: CfgLine>(listing: Seq<A>) -> Seq<LineKind> {
    listing.map(|i: int, a: A| a.kind_spec())
}

/// The last position at which the listing emits label `l`, or a
/// negative value when it never does.
#[verifier::opaque]
pub open spec fn last_label_ix(kinds: Seq<LineKind>, l: Label) -> int
    decreases kinds.len(),
{
    if kinds.len() == 0 {
        -1
    } else if kinds.last() == LineKind::Lab(l) {
        kinds.len() - 1
    } else {
        last_label_ix(kinds.drop_last(), l)
    }
}

proof fn lemma_last_label_ix(kinds: Seq<LineKind>, l: Label)
    ensures
        last_label_ix(kinds, l) == if kinds.len() == 0 {
            -1
        } else if kinds.last() == LineKind::Lab(l) {
            kinds.len() - 1
        } else {
            last_label_ix(kinds.drop_last(), l)
        },
        last_label_ix(kinds, l) >= 0 ==> 0 <= last_label_ix(kinds, l) < kinds.len() && kinds[
            last_label_ix(kinds, l)
        ] == LineKind::Lab(l) && forall|j: int|
            last_label_ix(kinds, l) < j < kinds.len() ==> kinds[j] != LineKind::Lab(l),
        last_label_ix(kinds, l) < 0 ==> forall|j: int|
            0 <= j < kinds.len() ==> kinds[j] != LineKind::Lab(l),
    decreases kinds.len(),
{
    reveal(last_label_ix);
    if kinds.len() > 0 {
        if kinds.last() == LineKind::Lab(l) {
        } else {
            lemma_last_label_ix(kinds.drop_last(), l);
            let ix = last_label_ix(kinds, l);
            assert(ix == last_label_ix(kinds.drop_last(), l));
            if ix >= 0 {
                assert(kinds.drop_last()[ix] == LineKind::Lab(l));
                assert(kinds[ix] == LineKind::Lab(l));
                assert forall|j: int| ix < j < kinds.len() implies kinds[j] != LineKind::Lab(
                    l,
                ) by {
                    if j < kinds.len() - 1 {
                        assert(kinds.drop_last()[j] == kinds[j]);
                    }
                }
            } else {
                assert forall|j: int| 0 <= j < kinds.len() implies kinds[j] != LineKind::Lab(
                    l,
                ) by {
                    if j < kinds.len() - 1 {
                        assert(kinds.drop_last()[j] == kinds[j]);
                    }
                }
            }
        }
    }
}

/// Every jump of the listing targets a label the listing emits.
pub open spec fn kinds_resolved(kinds: Seq<LineKind>) -> bool {
    forall|i: int|
        0 <= i < kinds.len() ==> match (#[trigger] kinds[i]).jump_to() {
            Some(l) => last_label_ix(kinds, l) >= 0,
            None => true,
        }
}

/// The graph holds the fall-through edge into line `j`: from the entry
/// node for the first line, from the previous line's node unless that
/// line jumps away unconditionally.
pub open spec fn cfg_fall_edge<A: CfgLine + GenKill>(
    cfg: ControlFlowGraph<A>,
    kinds: Seq<LineKind>,
    j: int,
) -> bool {
    if j == 0 {
        graph_edges(cfg.graph).contains((cfg.start_node@, cfg.line_nodes@[0]))
    } else if !(kinds[j - 1] is Jump) {
        graph_edges(cfg.graph).contains((cfg.line_nodes@[j - 1], cfg.line_nodes@[j]))
    } else {
        true
    }
}

/// The graph holds line `j`'s jump edge, if the line jumps: to the
/// node of the line that emits the target label.
pub open spec fn cfg_jump_edge<A: CfgLine + GenKill>(
    cfg: ControlFlowGraph<A>,
    kinds: Seq<LineKind>,
    j: int,
) -> bool {
    match kinds[j].jump_to() {
        Some(l) => graph_edges(cfg.graph).contains(
            (cfg.line_nodes@[j], cfg.line_nodes@[last_label_ix(kinds, l)]),
        ),
        None => true,
    }
}

/// The graph holds the edge into the exit node: from the last line
/// unless it jumps away, and straight from the entry node of an empty
/// listing.
pub open spec fn cfg_exit_edge<A: CfgLine + GenKill>(
    cfg: ControlFlowGraph<A>,
    kinds: Seq<LineKind>,
) -> bool {
    if kinds.len() == 0 {
        graph_edges(cfg.graph).contains((cfg.start_node@, cfg.end_node@))
    } else if !(kinds[kinds.len() - 1] is Jump) {
        graph_edges(cfg.graph).contains((cfg.line_nodes@[kinds.len() - 1], cfg.end_node@))
    } else {
        true
    }
}

/// The graph node standing for the instruction at index `i`.
pub open spec fn node_ix(i: int) -> Node {
    Node::Index(i as usize)
}

/// The edge leaving or entering node `n`, with `m` at the other end.
pub open spec fn dir_edge(n: usize, m: int, incoming: bool) -> (int, int) {
    if incoming {
        (m, n as int)
    } else {
        (n as int, m)
    }
}

/// A per-function control-flow graph: a distinguished entry and exit
/// node, one node per instruction index, fall-through and jump edges,
/// and a live-in symbol set per node.
pub struct ControlFlowGraph<A> {
    pub graph: CfgGraph,
    pub instructions: Vec<A>,
    pub data: AssocMap<Node, SymbolSet>,
    pub line_nodes: Ghost<Seq<int>>,
    pub start_node: Ghost<int>,
    pub end_node: Ghost<int>,
}

impl<A: CfgLine + GenKill> ControlFlowGraph<A> {
    /// Well-formed: the graph holds the entry, the exit and one node
    /// per line, nothing else; every edge connects graph nodes; and
    /// every stored live set is well-formed.
    pub open spec fn wf(self) -> bool {
        let nodes = graph_nodes(self.graph);
        &&& self.line_nodes@.len() == self.instructions@.len()
        &&& nodes.dom().finite()
        &&& forall|i: int|
            0 <= i < self.line_nodes@.len() ==> nodes.dom().contains(#[trigger] self.line_nodes@[i])
                && 0 <= self.line_nodes@[i] < 0x1_0000_0000
        &&& forall|i: int|
            0 <= i < self.line_nodes@.len() ==> nodes[#[trigger] self.line_nodes@[i]]
                == Node::Index(i as usize)
        &&& nodes.dom().contains(self.start_node@)
        &&& nodes.dom().contains(self.end_node@)
        &&& 0 <= self.start_node@ < 0x1_0000_0000
        &&& 0 <= self.end_node@ < 0x1_0000_0000
        &&& nodes[self.start_node@] == Node::Start
        &&& nodes[self.end_node@] == Node::End
        &&& forall|n: int|
            nodes.dom().contains(n) ==> 0 <= n < 0x1_0000_0000 && match #[trigger] nodes[n] {
                Node::Start => n == self.start_node@,
                Node::End => n == self.end_node@,
                Node::Index(i) => 0 <= i < self.line_nodes@.len() && self.line_nodes@[i as int]
                    == n,
            }
        &&& forall|e: (int, int)|
            #[trigger] graph_edges(self.graph).contains(e) ==> nodes.dom().contains(e.0)
                && nodes.dom().contains(e.1)
        &&& self.data.wf()
    }

    /// The indices of every node in the graph.
    pub fn node_indices(&self) -> (v: Vec<usize>)
        ensures
            forall|i: int|
                0 <= i < v@.len() ==> graph_nodes(self.graph).dom().contains(
                    (#[trigger] v@[i]) as int,
                ) && v@[i] < 0x1_0000_0000,
            forall|n: int|
                graph_nodes(self.graph).dom().contains(n) ==> exists|i: int|
                    0 <= i < v@.len() && (#[trigger] v@[i]) as int == n,
            forall|i: int, j: int| 0 <= i < j < v@.len() ==> v@[i] != v@[j],
    {
        graph_node_ids(&self.graph)
    }

    /// The weight stored at a node index.
    pub fn node_weight(&self, n: usize) -> (w: Node)
        requires
            graph_nodes(self.graph).dom().contains(n as int),
            n < 0x1_0000_0000,
        ensures
            w == graph_nodes(self.graph)[n as int],
    {
        graph_node_weight(&self.graph, n)
    }

    /// The live-in set recorded for a node.
    pub fn node_data(&self, n: usize) -> (r: SymbolSet)
        requires
            self.wf(),
            graph_nodes(self.graph).dom().contains(n as int),
            self.data@.contains_key(graph_nodes(self.graph)[n as int]),
            self.data@[graph_nodes(self.graph)[n as int]].wf(),
        ensures
            r.wf(),
            r@ == self.data@[graph_nodes(self.graph)[n as int]]@,
    {
        let w = self.node_weight(n);
        match self.data.get(&w) {
            Some(set) => set.duplicate(),
            None => {
                proof {
                    assert(false);
                }
                SymbolSet::empty()
            },
        }
    }

    /// The successors of a node.
    pub fn succ(&self, n: usize) -> (v: Vec<usize>)
        requires
            n < 0x1_0000_0000,
        ensures
            forall|i: int|
                0 <= i < v@.len() ==> graph_edges(self.graph).contains(
                    (n as int, (#[trigger] v@[i]) as int),
                ) && v@[i] < 0x1_0000_0000 && graph_nodes(self.graph).dom().contains(v@[i] as int),
            forall|m: int|
                graph_edges(self.graph).contains((n as int, m)) ==> exists|i: int|
                    0 <= i < v@.len() && (#[trigger] v@[i]) as int == m,
    {
        graph_succ_ids(&self.graph, n)
    }

    /// The predecessors of a node.
    pub fn pred(&self, n: usize) -> (v: Vec<usize>)
        requires
            n < 0x1_0000_0000,
        ensures
            forall|i: int|
                0 <= i < v@.len() ==> graph_edges(self.graph).contains(
                    ((#[trigger] v@[i]) as int, n as int),
                ) && v@[i] < 0x1_0000_0000 && graph_nodes(self.graph).dom().contains(v@[i] as int),
            forall|m: int|
                graph_edges(self.graph).contains((m, n as int)) ==> exists|i: int|
                    0 <= i < v@.len() && (#[trigger] v@[i]) as int == m,
    {
        graph_pred_ids(&self.graph, n)
    }

    /// The gen set of the statement at a node; empty at the entry and
    /// exit.
    pub open spec fn node_gen(self, n: int) -> Set<Symbol> {
        match graph_nodes(self.graph)[n] {
            Node::Index(i) => self.instructions@[i as int].gen_spec(),
            _ => Set::empty(),
        }
    }

    /// The kill set of the statement at a node; empty at the entry and
    /// exit.
    pub open spec fn node_kill(self, n: int) -> Set<Symbol> {
        match graph_nodes(self.graph)[n] {
            Node::Index(i) => self.instructions@[i as int].kill_spec(),
            _ => Set::empty(),
        }
    }

    pub fn gen_node(&self, n: usize) -> (r: SymbolSet)
        requires
            self.wf(),
            graph_nodes(self.graph).dom().contains(n as int),
        ensures
            r.wf(),
            r@ == self.node_gen(n as int),
    {
        let w = self.node_weight(n);
        match w {
            Node::Index(i) => self.instructions[i].gen(),
            _ => SymbolSet::empty(),
        }
    }

    pub fn kill_node(&self, n: usize) -> (r: SymbolSet)
        requires
            self.wf(),
            graph_nodes(self.graph).dom().contains(n as int),
        ensures
            r.wf(),
            r@ == self.node_kill(n as int),
    {
        let w = self.node_weight(n);
        match w {
            Node::Index(i) => self.instructions[i].kill(),
            _ => SymbolSet::empty(),
        }
    }

    /// Each returned set is the recorded live-in set of some successor
    /// (or predecessor, per `incoming`) of node `n`.
    pub open spec fn neighbor_data_ok(
        self,
        n: usize,
        r: Seq<SymbolSet>,
        upto: int,
        incoming: bool,
    ) -> bool {
        forall|i: int|
            #![trigger r[i]]
            0 <= i < upto ==> exists|m: int|
                #[trigger] graph_edges(self.graph).contains(dir_edge(n, m, incoming)) && r[i]@
                    == self.data@[graph_nodes(self.graph)[m]]@
    }

    /// The live-in sets of a node's successors.
    #[verifier::loop_isolation(false)]
    pub fn succ_data(&self, n: usize) -> (r: Vec<SymbolSet>)
        requires
            self.wf(),
            n < 0x1_0000_0000,
            forall|k: Node| self.data@.contains_key(k) ==> (#[trigger] self.data@[k]).wf(),
            forall|m: int|
                graph_nodes(self.graph).dom().contains(m) ==> self.data@.contains_key(
                    graph_nodes(self.graph)[m],
                ),
        ensures
            self.neighbor_data_ok(n, r@, r@.len() as int, false),
    {
        let ids = self.succ(n);
        let mut r: Vec<SymbolSet> = Vec::new();
        let mut i: usize = 0;
        while i < ids.len()
            invariant
                i <= ids@.len(),
                r@.len() == i,
                self.neighbor_data_ok(n, r@, i as int, false),
            decreases ids@.len() - i,
        {
            let d = self.node_data(ids[i]);
            r.push(d);
            proof {
                let m = ids@[i as int] as int;
                assert(graph_edges(self.graph).contains(dir_edge(n, m, false)));
                assert(r@[i as int]@ == self.data@[graph_nodes(self.graph)[m]]@);
            }
            i = i + 1;
        }
        r
    }

    /// The live-in sets of a node's predecessors.
    #[verifier::loop_isolation(false)]
    pub fn pred_data(&self, n: usize) -> (r: Vec<SymbolSet>)
        requires
            self.wf(),
            n < 0x1_0000_0000,
            forall|k: Node| self.data@.contains_key(k) ==> (#[trigger] self.data@[k]).wf(),
            forall|m: int|
                graph_nodes(self.graph).dom().contains(m) ==> self.data@.contains_key(
                    graph_nodes(self.graph)[m],
                ),
        ensures
            self.neighbor_data_ok(n, r@, r@.len() as int, true),
    {
        let ids = self.pred(n);
        let mut r: Vec<SymbolSet> = Vec::new();
        let mut i: usize = 0;
        while i < ids.len()
            invariant
                i <= ids@.len(),
                r@.len() == i,
                self.neighbor_data_ok(n, r@, i as int, true),
            decreases ids@.len() - i,
        {
            let d = self.node_data(ids[i]);
            r.push(d);
            proof {
                let m = ids@[i as int] as int;
                assert(graph_edges(self.graph).contains(dir_edge(n, m, true)));
                assert(r@[i as int]@ == self.data@[graph_nodes(self.graph)[m]]@);
            }
            i = i + 1;
        }
        r
    }
}

/// The node control falls from into line `i`, reading line nodes from
/// a partial map while the graph is being built.
pub open spec fn chain_prev_m(
    kinds: Seq<LineKind>,
    ln: Map<int, int>,
    start: int,
    i: int,
) -> Option<int> {
    if i == 0 {
        Some(start)
    } else {
        match kinds[i - 1] {
            LineKind::Jump(_) => None,
            _ => Some(ln[i - 1]),
        }
    }
}

/// No label is emitted twice.
pub open spec fn kinds_labels_distinct(kinds: Seq<LineKind>) -> bool {
    forall|i: int, j: int|
        0 <= i < j < kinds.len() ==> !((#[trigger] kinds[i]) matches LineKind::Lab(_)
            && kinds[i] == #[trigger] kinds[j])
}



/// Creates the label-definition nodes of the graph: one node per label
/// line, recorded both in the label table and in the line-node map.
#[verifier::loop_isolation(false)]
#[verifier::rlimit(80)]
#[verifier::spinoff_prover]
fn collect_label_nodes<A: CfgLine + GenKill>(
    listing: &Vec<A>,
    graph: &mut CfgGraph,
    labels: &mut AssocMap<Label, usize>,
    Ghost(start): Ghost<int>,
    Ghost(end): Ghost<int>,
) -> (lng: Ghost<Map<int, int>>)
    requires
        listing@.len() < 0x3fff_0000,
        kinds_labels_distinct(kinds_of(listing@)),
        old(labels).wf(),
        old(labels)@ == Map::<Label, usize>::empty(),
        graph_nodes(*old(graph)).dom().finite(),
        graph_nodes(*old(graph)).dom().len() <= 2,
        graph_nodes(*old(graph)).dom().contains(start),
        graph_nodes(*old(graph)).dom().contains(end),
        0 <= start < 0x1_0000_0000,
        0 <= end < 0x1_0000_0000,
        graph_nodes(*old(graph))[start] == Node::Start,
        graph_nodes(*old(graph))[end] == Node::End,
        forall|n: int|
            graph_nodes(*old(graph)).dom().contains(n) ==> n == start || n == end,
        forall|e: (int, int)| !(#[trigger] graph_edges(*old(graph)).contains(e)),
        graph_edge_count(*old(graph)) == 0,
    ensures
        final(labels).wf(),
        graph_nodes(*final(graph)).dom().finite(),
        graph_nodes(*final(graph)).dom().len() <= 2 + listing@.len(),
        graph_nodes(*final(graph)).dom().contains(start),
        graph_nodes(*final(graph)).dom().contains(end),
        graph_nodes(*final(graph))[start] == Node::Start,
        graph_nodes(*final(graph))[end] == Node::End,
        ({
            let kinds = kinds_of(listing@);
            let ln = lng@;
            &&& forall|j: int|
                #![trigger ln.dom().contains(j)]
                ln.dom().contains(j) <==> (0 <= j < listing@.len() && kinds[j] matches
                LineKind::Lab(_))
            &&& forall|j: int|
                ln.dom().contains(j) ==> graph_nodes(*final(graph)).dom().contains(
                    #[trigger] ln[j],
                ) && 0 <= ln[j] < 0x1_0000_0000 && graph_nodes(*final(graph))[ln[j]]
                    == Node::Index(j as usize)
            &&& forall|n: int|
                graph_nodes(*final(graph)).dom().contains(n) ==> match #[trigger] graph_nodes(
                    *final(graph),
                )[n] {
                    Node::Start => n == start,
                    Node::End => n == end,
                    Node::Index(j) => ln.dom().contains(j as int) && ln[j as int] == n,
                }
            &&& forall|l: Label| #[trigger]
                final(labels)@.contains_key(l) <==> last_label_ix(kinds, l) >= 0
            &&& forall|l: Label|
                final(labels)@.contains_key(l) ==> (#[trigger] final(labels)@[l]) as int == ln[
                    last_label_ix(kinds, l)
                ] && final(labels)@[l] < 0x1_0000_0000
        }),
        forall|e: (int, int)| !(#[trigger] graph_edges(*final(graph)).contains(e)),
        graph_edge_count(*final(graph)) == 0,
{
    let ghost kinds = kinds_of(listing@);
    let ghost mut ln: Map<int, int> = Map::empty();
    let mut i: usize = 0;
    while i < listing.len()
        invariant
            i <= listing@.len(),
            labels.wf(),
            graph_nodes(*graph).dom().finite(),
            graph_nodes(*graph).dom().len() <= 2 + i,
            graph_nodes(*graph).dom().contains(start),
            graph_nodes(*graph).dom().contains(end),
            graph_nodes(*graph)[start] == Node::Start,
            graph_nodes(*graph)[end] == Node::End,
            forall|j: int|
                #![trigger ln.dom().contains(j)]
                ln.dom().contains(j) <==> (0 <= j < i && kinds[j] matches LineKind::Lab(_)),
            forall|j: int|
                ln.dom().contains(j) ==> graph_nodes(*graph).dom().contains(#[trigger] ln[j]) && 0
                    <= ln[j] < 0x1_0000_0000 && graph_nodes(*graph)[ln[j]] == Node::Index(
                    j as usize,
                ),
            forall|n: int|
                graph_nodes(*graph).dom().contains(n) ==> match #[trigger] graph_nodes(*graph)[n] {
                    Node::Start => n == start,
                    Node::End => n == end,
                    Node::Index(j) => ln.dom().contains(j as int) && ln[j as int] == n,
                },
            forall|l: Label| #[trigger]
                labels@.contains_key(l) <==> (exists|j: int|
                    0 <= j < i && (#[trigger] kinds[j]) == LineKind::Lab(l)),
            forall|j: int, l: Label|
                #![trigger kinds[j], labels@.contains_key(l)]
                (0 <= j < i && kinds[j] == LineKind::Lab(l)) ==> labels@.contains_key(l)
                    && labels@[l] as int == ln[j] && labels@[l] < 0x1_0000_0000,
            forall|e: (int, int)| !(#[trigger] graph_edges(*graph).contains(e)),
            graph_edge_count(*graph) == 0,
        decreases listing@.len() - i,
    {
        let k = listing[i].kind();
        proof {
            assert(kinds[i as int] == k);
        }
        match k {
            LineKind::Lab(l) => {
                let ix = graph_add_node(graph, Node::Index(i));
                let ghost pre_labels = labels@;
                let ghost pre_ln = ln;
                proof {
                    if labels@.contains_key(l) {
                        let j = choose|j: int|
                            0 <= j < i && (#[trigger] kinds[j]) == LineKind::Lab(l);
                        assert(kinds[j] == kinds[i as int]);
                        assert(false);
                    }
                }
                labels.insert(l, ix);
                proof {
                    ln = ln.insert(i as int, ix as int);
                    assert forall|j: int, l2: Label|
                        #![trigger kinds[j], labels@.contains_key(l2)]
                        (0 <= j < i + 1 && kinds[j] == LineKind::Lab(l2)) implies labels@.contains_key(
                        l2,
                    ) && labels@[l2] as int == ln[j] && labels@[l2] < 0x1_0000_0000 by {
                        if j == i as int {
                            assert(l2 == l);
                            assert(labels@[l] == ix);
                            assert(ln[j] == ix as int);
                        } else {
                            if l2 == l {
                                assert(kinds[j] == kinds[i as int]);
                                assert(false);
                            } else {
                                assert(labels@ == pre_labels.insert(l, ix));
                                assert(pre_labels.contains_key(l2));
                                assert(pre_labels[l2] as int == pre_ln[j]);
                                assert(pre_labels[l2] < 0x1_0000_0000);
                                assert(labels@[l2] == pre_labels[l2]);
                                assert(ln[j] == pre_ln[j]);
                            }
                        }
                    }
                }
            },
            _ => {},
        }
        i = i + 1;
    }
    proof {
        assert forall|l: Label| labels@.contains_key(l) implies ({
            &&& last_label_ix(kinds, l) >= 0
            &&& labels@[l] as int == ln[last_label_ix(kinds, l)]
            &&& labels@[l] < 0x1_0000_0000
        }) by {
            let j = choose|j: int|
                0 <= j < listing@.len() && (#[trigger] kinds[j]) == LineKind::Lab(l);
            lemma_last_label_ix(kinds, l);
            if last_label_ix(kinds, l) < 0 {
                assert(kinds[j] != LineKind::Lab(l));
            }
            let lx = last_label_ix(kinds, l);
            assert(kinds[lx] == LineKind::Lab(l));
        }
        assert forall|l: Label| last_label_ix(kinds, l) >= 0 implies labels@.contains_key(l) by {
            lemma_last_label_ix(kinds, l);
            assert(kinds[last_label_ix(kinds, l)] == LineKind::Lab(l));
        }
    }
    Ghost(ln)
}

/// One empty live-in set per node of the graph.
#[verifier::loop_isolation(false)]
fn init_node_data(len: usize) -> (data: AssocMap<Node, SymbolSet>)
    ensures
        data.wf(),
        forall|k: Node| #[trigger]
            data@.contains_key(k) <==> (k == Node::Start || k == Node::End || exists|i: int|
                0 <= i < len && k == #[trigger] node_ix(i)),
        forall|k: Node|
            data@.contains_key(k) ==> (#[trigger] data@[k]).wf() && data@[k]@ == Set::<
                Symbol,
            >::empty(),
{
    let mut data: AssocMap<Node, SymbolSet> = AssocMap::new();
    data.insert(Node::Start, SymbolSet::empty());
    data.insert(Node::End, SymbolSet::empty());
    let mut j: usize = 0;
    while j < len
        invariant
            j <= len,
            data.wf(),
            forall|k: Node| #[trigger]
                data@.contains_key(k) <==> (k == Node::Start || k == Node::End || exists|i2: int|
                    0 <= i2 < j && k == #[trigger] node_ix(i2)),
            forall|k: Node|
                data@.contains_key(k) ==> (#[trigger] data@[k]).wf() && data@[k]@ == Set::<
                    Symbol,
                >::empty(),
        decreases len - j,
    {
        data.insert(Node::Index(j), SymbolSet::empty());
        proof {
            assert(Node::Index(j) == node_ix(j as int));
            assert forall|k: Node| #[trigger]
                data@.contains_key(k) implies (k == Node::Start || k == Node::End || exists|
                i2: int,
            |
                0 <= i2 < j + 1 && k == #[trigger] node_ix(i2)) by {
                if k != Node::Start && k != Node::End && k != Node::Index(j) {
                    let i2 = choose|i2: int| 0 <= i2 < j && k == #[trigger] node_ix(i2);
                    assert(0 <= i2 < j + 1 && k == node_ix(i2));
                } else if k == Node::Index(j) {
                    assert(0 <= j < j + 1 && k == node_ix(j as int));
                }
            }
        }
        j = j + 1;
    }
    data
}


/// The state of the graph while its nodes are being added: the entry
/// and exit are present, the line-node map matches the node weights,
/// and every edge connects existing nodes.
#[verifier::opaque]
pub open spec fn p2_inv<A: CfgLine + GenKill>(
    listing: Seq<A>,
    g: CfgGraph,
    labm: Map<Label, usize>,
    ln: Map<int, int>,
    start: int,
    end: int,
    i: int,
) -> bool {
    let kinds = kinds_of(listing);
    &&& graph_nodes(g).dom().finite()
    &&& graph_nodes(g).dom().len() <= 2 + listing.len() + i
    &&& graph_nodes(g).dom().contains(start)
    &&& graph_nodes(g).dom().contains(end)
    &&& graph_nodes(g)[start] == Node::Start
    &&& graph_nodes(g)[end] == Node::End
    &&& 0 <= start < 0x1_0000_0000
    &&& 0 <= end < 0x1_0000_0000
    &&& forall|j: int|
        #![trigger ln.dom().contains(j)]
        ln.dom().contains(j) <==> ((0 <= j < listing.len() && kinds[j] matches LineKind::Lab(_))
            || 0 <= j < i)
    &&& forall|j: int|
        ln.dom().contains(j) ==> graph_nodes(g).dom().contains(#[trigger] ln[j]) && 0 <= ln[j]
            < 0x1_0000_0000 && graph_nodes(g)[ln[j]] == Node::Index(j as usize)
    &&& forall|n: int|
        graph_nodes(g).dom().contains(n) ==> match #[trigger] graph_nodes(g)[n] {
            Node::Start => n == start,
            Node::End => n == end,
            Node::Index(j) => ln.dom().contains(j as int) && ln[j as int] == n,
        }
    &&& forall|l: Label| #[trigger] labm.contains_key(l) <==> last_label_ix(kinds, l) >= 0
    &&& forall|l: Label|
        labm.contains_key(l) ==> (#[trigger] labm[l]) as int == ln[last_label_ix(kinds, l)]
            && labm[l] < 0x1_0000_0000
    &&& forall|e: (int, int)| #[trigger]
        graph_edges(g).contains(e) ==> graph_nodes(g).dom().contains(e.0) && graph_nodes(
            g,
        ).dom().contains(e.1)
}

/// The edge that control follows into line `j` when the line before it
/// does not jump away: from the entry node for the first line, from
/// the previous line's node otherwise.
pub open spec fn fall_edge_at(
    kinds: Seq<LineKind>,
    ln: Map<int, int>,
    es: Set<(int, int)>,
    start: int,
    j: int,
) -> bool {
    if j == 0 {
        es.contains((start, ln[0]))
    } else if !(kinds[j - 1] is Jump) {
        es.contains((ln[j - 1], ln[j]))
    } else {
        true
    }
}

/// The edge from line `j` to the line that emits its jump target, if
/// line `j` jumps.
pub open spec fn jump_edge_at(
    kinds: Seq<LineKind>,
    ln: Map<int, int>,
    es: Set<(int, int)>,
    j: int,
) -> bool {
    match kinds[j].jump_to() {
        Some(l) => es.contains((ln[j], ln[last_label_ix(kinds, l)])),
        None => true,
    }
}

/// The fall-through and jump edges of the first `i` lines are among
/// `es`.
pub open spec fn edges_done(
    kinds: Seq<LineKind>,
    ln: Map<int, int>,
    es: Set<(int, int)>,
    start: int,
    i: int,
) -> bool
    decreases i,
{
    if i <= 0 {
        true
    } else {
        &&& edges_done(kinds, ln, es, start, i - 1)
        &&& fall_edge_at(kinds, ln, es, start, i - 1)
        &&& jump_edge_at(kinds, ln, es, i - 1)
    }
}

/// Every line of a placed prefix has its fall-through and jump edges.
pub proof fn lemma_edges_done_at(
    kinds: Seq<LineKind>,
    ln: Map<int, int>,
    es: Set<(int, int)>,
    start: int,
    i: int,
    j: int,
)
    requires
        edges_done(kinds, ln, es, start, i),
        0 <= j < i,
    ensures
        fall_edge_at(kinds, ln, es, start, j),
        jump_edge_at(kinds, ln, es, j),
    decreases i,
{
    if j < i - 1 {
        lemma_edges_done_at(kinds, ln, es, start, i - 1, j);
    }
}

/// Edges already placed stay placed as the graph gains more.
proof fn lemma_edges_done_grow(
    kinds: Seq<LineKind>,
    ln: Map<int, int>,
    es1: Set<(int, int)>,
    es2: Set<(int, int)>,
    start: int,
    i: int,
)
    requires
        edges_done(kinds, ln, es1, start, i),
        es1.subset_of(es2),
    ensures
        edges_done(kinds, ln, es2, start, i),
    decreases i,
{
    if i > 0 {
        lemma_edges_done_grow(kinds, ln, es1, es2, start, i - 1);
    }
}

/// Recording the node of a non-label line leaves the placed edges as
/// they were: no earlier line or label refers to that index.
proof fn lemma_edges_done_ln_insert(
    kinds: Seq<LineKind>,
    ln: Map<int, int>,
    es: Set<(int, int)>,
    start: int,
    i: int,
    k: int,
    v: int,
)
    requires
        edges_done(kinds, ln, es, start, i),
        i <= k < kinds.len(),
        !(kinds[k] is Lab),
    ensures
        edges_done(kinds, ln.insert(k, v), es, start, i),
    decreases i,
{
    if i > 0 {
        lemma_edges_done_ln_insert(kinds, ln, es, start, i - 1, k, v);
        let ln2 = ln.insert(k, v);
        assert(fall_edge_at(kinds, ln2, es, start, i - 1));
        match kinds[i - 1].jump_to() {
            Some(l) => {
                lemma_last_label_ix(kinds, l);
                if last_label_ix(kinds, l) == k {
                    assert(kinds[k] == LineKind::Lab(l));
                }
                assert(jump_edge_at(kinds, ln2, es, i - 1));
            },
            None => {},
        }
    }
}

/// Adds one node per non-label line and every fall-through and jump
/// edge of the listing, finishing with the edge into the exit node.
#[verifier::loop_isolation(false)]
#[verifier::rlimit(100)]
#[verifier::spinoff_prover]
fn build_cfg_edges<A: CfgLine + GenKill>(
    listing: &Vec<A>,
    graph: &mut CfgGraph,
    labels: &AssocMap<Label, usize>,
    start_ix: usize,
    end_ix: usize,
    lng: Ghost<Map<int, int>>,
) -> (out: Ghost<Map<int, int>>)
    requires
        listing@.len() < 0x3fff_0000,
        kinds_resolved(kinds_of(listing@)),
        kinds_labels_distinct(kinds_of(listing@)),
        labels.wf(),
        start_ix < 0x1_0000_0000,
        end_ix < 0x1_0000_0000,
        p2_inv(listing@, *old(graph), labels@, lng@, start_ix as int, end_ix as int, 0),
        graph_edge_count(*old(graph)) == 0,
    ensures
        p2_inv(
            listing@,
            *final(graph),
            labels@,
            out@,
            start_ix as int,
            end_ix as int,
            listing@.len() as int,
        ),
        forall|j: int|
            #![trigger out@[j]]
            0 <= j < listing@.len() ==> out@.dom().contains(j),
        edges_done(
            kinds_of(listing@),
            out@,
            graph_edges(*final(graph)),
            start_ix as int,
            listing@.len() as int,
        ),
        (listing@.len() == 0 || !(kinds_of(listing@)[listing@.len() - 1] is Jump)) ==> graph_edges(
            *final(graph),
        ).contains(
            (
                if listing@.len() == 0 {
                    start_ix as int
                } else {
                    out@[listing@.len() - 1]
                },
                end_ix as int,
            ),
        ),
{
    proof {
        reveal(p2_inv);
    }
    let ghost kinds = kinds_of(listing@);
    let ghost start = start_ix as int;
    let ghost end = end_ix as int;
    let ghost mut ln: Map<int, int> = lng@;
    let mut current: Option<usize> = Some(start_ix);
    let mut i: usize = 0;
    proof {
        assert(edges_done(kinds, ln, graph_edges(*graph), start_ix as int, 0));
    }
    while i < listing.len()
        invariant
            i <= listing@.len(),
            p2_inv(listing@, *graph, labels@, ln, start, end, i as int),
            graph_edge_count(*graph) <= 2 * i,
            match current {
                Some(c) => c < 0x1_0000_0000 && graph_nodes(*graph).dom().contains(c as int),
                None => true,
            },
            i == 0 ==> current == Some(start_ix),
            i > 0 ==> (match current {
                Some(c) => !(kinds[i - 1] is Jump) && c as int == ln[i - 1],
                None => kinds[i - 1] is Jump,
            }),
            edges_done(kinds, ln, graph_edges(*graph), start_ix as int, i as int),
        decreases listing@.len() - i,
    {
        let ghost g0 = *graph;
        let ghost ln0 = ln;
        let k = listing[i].kind();
        proof {
            assert(kinds[i as int] == k);
        }
        let ix: usize;
        match k {
            LineKind::Lab(l) => {
                proof {
                    lemma_last_label_ix(kinds, l);
                    if last_label_ix(kinds, l) < 0 {
                        assert(kinds[i as int] != LineKind::Lab(l));
                    }
                }
                let got = labels.get(&l);
                ix = match got {
                    Some(v) => *v,
                    None => {
                        proof {
                            assert(false);
                        }
                        0
                    },
                };
                proof {
                    lemma_last_label_ix(kinds, l);
                    let lix = last_label_ix(kinds, l);
                    if lix < i as int {
                        assert(kinds[i as int] == LineKind::Lab(l));
                        assert(false);
                    }
                    if lix > i as int {
                        assert(kinds[i as int] is Lab && kinds[i as int] == kinds[lix]);
                        assert(false);
                    }
                    assert(ln[i as int] == ix as int);
                }
            },
            _ => {
                let nix = graph_add_node(graph, Node::Index(i));
                proof {
                    let pre_ln = ln;
                    ln = ln.insert(i as int, nix as int);
                    assert forall|l2: Label| labels@.contains_key(l2) implies (
                    #[trigger] labels@[l2]) as int == ln[last_label_ix(kinds, l2)] by {
                        assert(last_label_ix(kinds, l2) >= 0);
                        lemma_last_label_ix(kinds, l2);
                        assert(kinds[last_label_ix(kinds, l2)] == LineKind::Lab(l2));
                        assert(last_label_ix(kinds, l2) != i as int);
                        assert(ln[last_label_ix(kinds, l2)] == pre_ln[last_label_ix(kinds, l2)]);
                    }
                }
                ix = nix;
            },
        }
        match current {
            Some(cn) => {
                graph_add_edge(graph, cn, ix);
            },
            None => {},
        }
        match k {
            LineKind::Jump(l) => {
                proof {
                    assert(kinds[i as int].jump_to() == Some(l));
                    assert(last_label_ix(kinds, l) >= 0);
                    lemma_last_label_ix(kinds, l);
                    assert(ln.dom().contains(last_label_ix(kinds, l)));
                }
                let got = labels.get(&l);
                let target: usize = match got {
                    Some(v) => *v,
                    None => {
                        proof {
                            assert(false);
                        }
                        0
                    },
                };
                proof {
                    assert((target as int) == ln[last_label_ix(kinds, l)]);
                }
                graph_add_edge(graph, ix, target);
                current = None;
            },
            LineKind::JumpC(l) => {
                proof {
                    assert(kinds[i as int].jump_to() == Some(l));
                    assert(last_label_ix(kinds, l) >= 0);
                    lemma_last_label_ix(kinds, l);
                    assert(ln.dom().contains(last_label_ix(kinds, l)));
                }
                let got = labels.get(&l);
                let target: usize = match got {
                    Some(v) => *v,
                    None => {
                        proof {
                            assert(false);
                        }
                        0
                    },
                };
                proof {
                    assert((target as int) == ln[last_label_ix(kinds, l)]);
                }
                graph_add_edge(graph, ix, target);
                current = Some(ix);
            },
            _ => {
                current = Some(ix);
            },
        }
        proof {
            if kinds[i as int] is Lab {
                assert(ln == ln0);
            } else {
                assert(ln == ln0.insert(i as int, ix as int));
                lemma_edges_done_ln_insert(
                    kinds,
                    ln0,
                    graph_edges(g0),
                    start_ix as int,
                    i as int,
                    i as int,
                    ix as int,
                );
            }
            assert(graph_edges(g0).subset_of(graph_edges(*graph)));
            lemma_edges_done_grow(
                kinds,
                ln,
                graph_edges(g0),
                graph_edges(*graph),
                start_ix as int,
                i as int,
            );
            assert(fall_edge_at(kinds, ln, graph_edges(*graph), start_ix as int, i as int));
            assert(jump_edge_at(kinds, ln, graph_edges(*graph), i as int));
            assert(edges_done(kinds, ln, graph_edges(*graph), start_ix as int, i + 1));
        }
        i = i + 1;
    }
    let ghost gfin = *graph;
    match current {
        Some(cn) => {
            graph_add_edge(graph, cn, end_ix);
        },
        None => {},
    }
    proof {
        assert(graph_edges(gfin).subset_of(graph_edges(*graph)));
        lemma_edges_done_grow(
            kinds,
            ln,
            graph_edges(gfin),
            graph_edges(*graph),
            start_ix as int,
            listing@.len() as int,
        );
    }
    Ghost(ln)
}

/// Builds the control-flow graph of one listing: a start and end
/// node, one node per line, fall-through and jump edges, and an empty
/// live-in set per node.
#[verifier::loop_isolation(false)]
#[verifier::rlimit(100)]
#[verifier::spinoff_prover]
fn construct_cfg<A: CfgLine + GenKill>(listing: &Vec<A>) -> (r: ControlFlowGraph<A>)
    requires
        listing@.len() < 0x3fff_0000,
        kinds_resolved(kinds_of(listing@)),
        kinds_labels_distinct(kinds_of(listing@)),
    ensures
        r.wf(),
        r.instructions@.len() == listing@.len(),
        forall|i: int|
            0 <= i < listing@.len() ==> (#[trigger] r.instructions@[i]).kind_spec() == listing@[i].kind_spec()
                && r.instructions@[i].gen_spec() == listing@[i].gen_spec()
                && r.instructions@[i].kill_spec() == listing@[i].kill_spec(),
        forall|k: Node| #[trigger]
            r.data@.contains_key(k) <==> (k == Node::Start || k == Node::End || exists|i: int|
                0 <= i < listing@.len() && k == #[trigger] node_ix(i)),
        forall|k: Node| r.data@.contains_key(k) ==> (#[trigger] r.data@[k]).wf() && r.data@[k]@
            == Set::<Symbol>::empty(),
        forall|j: int|
            #![trigger cfg_fall_edge(r, kinds_of(listing@), j)]
            #![trigger cfg_jump_edge(r, kinds_of(listing@), j)]
            0 <= j < listing@.len() ==> cfg_fall_edge(r, kinds_of(listing@), j) && cfg_jump_edge(
                r,
                kinds_of(listing@),
                j,
            ),
        cfg_exit_edge(r, kinds_of(listing@)),
{
    proof {
        reveal(p2_inv);
    }
    let ghost kinds = kinds_of(listing@);
    let mut graph = graph_new();
    proof {
        assert(graph_nodes(graph).dom() =~= Set::<int>::empty());
    }
    let start_ix = graph_add_node(&mut graph, Node::Start);
    let end_ix = graph_add_node(&mut graph, Node::End);
    let ghost start = start_ix as int;
    let ghost end = end_ix as int;
    let mut labels: AssocMap<Label, usize> = AssocMap::new();
    let lng = collect_label_nodes(listing, &mut graph, &mut labels, Ghost(start), Ghost(end));
    let lng2 = build_cfg_edges(listing, &mut graph, &labels, start_ix, end_ix, lng);
    let ghost ln = lng2@;
    let data = init_node_data(listing.len());
    let mut instructions: Vec<A> = Vec::new();
    let mut t: usize = 0;
    while t < listing.len()
        invariant
            t <= listing@.len(),
            instructions@.len() == t,
            forall|j: int|
                0 <= j < t ==> (#[trigger] instructions@[j]).kind_spec()
                    == listing@[j].kind_spec() && instructions@[j].gen_spec()
                    == listing@[j].gen_spec() && instructions@[j].kill_spec()
                    == listing@[j].kill_spec(),
        decreases listing@.len() - t,
    {
        instructions.push(listing[t].dup());
        t = t + 1;
    }
    let ghost line_nodes = Seq::new(listing@.len(), |j: int| ln[j]);
    let r = ControlFlowGraph {
        graph,
        instructions,
        data,
        line_nodes: Ghost(line_nodes),
        start_node: Ghost(start),
        end_node: Ghost(end),
    };
    proof {
        let n = listing@.len() as int;
        assert forall|j: int|
            #![trigger cfg_fall_edge(r, kinds, j)]
            #![trigger cfg_jump_edge(r, kinds, j)]
            0 <= j < n implies cfg_fall_edge(r, kinds, j) && cfg_jump_edge(r, kinds, j) by {
            lemma_edges_done_at(kinds, ln, graph_edges(r.graph), start, n, j);
            assert(line_nodes[j] == ln[j]);
            if j > 0 {
                assert(line_nodes[j - 1] == ln[j - 1]);
            }
            match kinds[j].jump_to() {
                Some(l) => {
                    assert(last_label_ix(kinds, l) >= 0);
                    lemma_last_label_ix(kinds, l);
                    assert(line_nodes[last_label_ix(kinds, l)] == ln[last_label_ix(kinds, l)]);
                },
                None => {},
            }
        }
        if n > 0 {
            assert(line_nodes[n - 1] == ln[n - 1]);
        }
        assert(cfg_exit_edge(r, kinds));
    }
    r
}

/// Builds the control-flow graph of an intermediate-form function.
pub fn construct_control_flow_graph_lir(function: &LIRFunction) -> (r: ControlFlowGraph<
    LIRAssembly,
>)
    requires
        function.instruction_listing@.len() < 0x3fff_0000,
        kinds_resolved(kinds_of(function.instruction_listing@)),
        kinds_labels_distinct(kinds_of(function.instruction_listing@)),
    ensures
        r.wf(),
        r.instructions@.len() == function.instruction_listing@.len(),
        forall|i: int|
            0 <= i < function.instruction_listing@.len() ==> (
            #[trigger] r.instructions@[i]).kind_spec()
                == function.instruction_listing@[i].kind_spec() && r.instructions@[i].gen_spec()
                == function.instruction_listing@[i].gen_spec() && r.instructions@[i].kill_spec()
                == function.instruction_listing@[i].kill_spec(),
        forall|j: int|
            #![trigger cfg_fall_edge(r, kinds_of(function.instruction_listing@), j)]
            #![trigger cfg_jump_edge(r, kinds_of(function.instruction_listing@), j)]
            0 <= j < function.instruction_listing@.len() ==> cfg_fall_edge(
                r,
                kinds_of(function.instruction_listing@),
                j,
            ) && cfg_jump_edge(r, kinds_of(function.instruction_listing@), j),
        cfg_exit_edge(r, kinds_of(function.instruction_listing@)),
        forall|k: Node| r.data@.contains_key(k) ==> (#[trigger] r.data@[k]).wf() && r.data@[k]@
            == Set::<Symbol>::empty(),
{
    construct_cfg(&function.instruction_listing)
}

/// Builds the control-flow graph of a symbolic x86-64 function.
pub fn construct_control_flow_graph_x64s(function: &X64SFunction) -> (r: ControlFlowGraph<
    X64SAssembly,
>)
    requires
        function.body@.len() < 0x3fff_0000,
        kinds_resolved(kinds_of(function.body@)),
        kinds_labels_distinct(kinds_of(function.body@)),
    ensures
        r.wf(),
        r.instructions@.len() == function.body@.len(),
        forall|i: int|
            0 <= i < function.body@.len() ==> (#[trigger] r.instructions@[i]).kind_spec()
                == function.body@[i].kind_spec() && r.instructions@[i].gen_spec()
                == function.body@[i].gen_spec() && r.instructions@[i].kill_spec()
                == function.body@[i].kill_spec(),
        forall|j: int|
            #![trigger cfg_fall_edge(r, kinds_of(function.body@), j)]
            #![trigger cfg_jump_edge(r, kinds_of(function.body@), j)]
            0 <= j < function.body@.len() ==> cfg_fall_edge(r, kinds_of(function.body@), j)
                && cfg_jump_edge(r, kinds_of(function.body@), j),
        cfg_exit_edge(r, kinds_of(function.body@)),
        forall|k: Node| r.data@.contains_key(k) ==> (#[trigger] r.data@[k]).wf() && r.data@[k]@
            == Set::<Symbol>::empty(),
{
    construct_cfg(&function.body)
}

/// The recorded live-in set of node `n` in the result of the analysis.
pub open spec fn live_in_of<A: CfgLine + GenKill>(cfg: ControlFlowGraph<A>, n: int) -> Set<
    Symbol,
> {
    cfg.data@[graph_nodes(cfg.graph)[n]]@
}

/// The live-out set of node `n`: everything live into some successor.
#[verifier::opaque]
pub open spec fn live_out_of<A: CfgLine + GenKill>(cfg: ControlFlowGraph<A>, n: int) -> Set<
    Symbol,
> {
    Set::new(
        |s: Symbol|
            exists|m: int|
                #[trigger] graph_edges(cfg.graph).contains((n, m)) && live_in_of(cfg, m).contains(
                    s,
                ),
    )
}

/// The live-variable fixpoint: at every node the recorded live-in set
/// equals its gen set joined with whatever flows out past its kill
/// set.
#[verifier::opaque]
pub open spec fn at_fixpoint<A: CfgLine + GenKill>(cfg: ControlFlowGraph<A>) -> bool {
    forall|n: int|
        #[trigger] graph_nodes(cfg.graph).dom().contains(n) ==> live_in_of(cfg, n) == cfg.node_gen(
            n,
        ).union(live_out_of(cfg, n).difference(cfg.node_kill(n)))
}

/// The same equation over the working map the solver iterates on,
/// keyed by node index.
#[verifier::opaque]
pub open spec fn eq_holds_at<A: CfgLine + GenKill>(
    cfg: ControlFlowGraph<A>,
    li: Map<usize, SymbolSet>,
    n: int,
) -> bool {
    li[n as usize]@ == cfg.node_gen(n).union(map_out_of(cfg, li, n).difference(cfg.node_kill(n)))
}

/// The live-out set read from the working map.
#[verifier::opaque]
pub open spec fn map_out_of<A: CfgLine + GenKill>(
    cfg: ControlFlowGraph<A>,
    li: Map<usize, SymbolSet>,
    n: int,
) -> Set<Symbol> {
    Set::new(
        |s: Symbol|
            exists|m: int|
                #[trigger] graph_edges(cfg.graph).contains((n, m)) && 0 <= m < 0x1_0000_0000
                    && li[m as usize]@.contains(s),
    )
}


/// The sum of the sizes of the live-in sets of the first `j` nodes.
pub open spec fn live_potential(li: Map<usize, SymbolSet>, ids: Seq<usize>, j: int) -> int
    decreases j,
{
    if j <= 0 {
        0
    } else {
        live_potential(li, ids, j - 1) + li[ids[j - 1]]@.len()
    }
}

/// The potential is bounded by the universe size per node.
proof fn lemma_potential_bound(li: Map<usize, SymbolSet>, ids: Seq<usize>, j: int, cap: int)
    requires
        j >= 0,
        forall|k: int| 0 <= k < j ==> li[ids[k]]@.len() <= cap,
        cap >= 0,
    ensures
        live_potential(li, ids, j) <= j * cap,
        live_potential(li, ids, j) >= 0,
    decreases j,
{
    if j > 0 {
        lemma_potential_bound(li, ids, j - 1, cap);
        assert(live_potential(li, ids, j) == live_potential(li, ids, j - 1) + li[ids[j - 1]]@.len());
        assert(li[ids[j - 1]]@.len() <= cap);
        assert((j - 1) * cap + cap == j * cap) by (nonlinear_arith);
    }
}

/// Updating one node's set shifts the potential by that set's growth.
proof fn lemma_potential_update(
    li: Map<usize, SymbolSet>,
    ids: Seq<usize>,
    j: int,
    k: int,
    v: SymbolSet,
)
    requires
        0 <= k < ids.len(),
        forall|i: int, i2: int| 0 <= i < i2 < ids.len() ==> ids[i] != ids[i2],
        j <= ids.len(),
    ensures
        live_potential(li.insert(ids[k], v), ids, j) == live_potential(li, ids, j) + if k < j {
            v@.len() - li[ids[k]]@.len()
        } else {
            0
        },
    decreases j,
{
    if j > 0 {
        lemma_potential_update(li, ids, j - 1, k, v);
        if j - 1 == k {
        } else {
            assert(ids[j - 1] != ids[k]);
        }
    }
}

/// A set that grows strictly gains at least one element.
proof fn lemma_strict_growth(a: Set<Symbol>, b: Set<Symbol>, cap: Set<Symbol>)
    requires
        a.subset_of(b),
        a != b,
        b.subset_of(cap),
        cap.finite(),
    ensures
        a.len() < b.len(),
        b.len() <= cap.len(),
{
    vstd::set_lib::lemma_len_subset(b, cap);
    assert(exists|x: Symbol| b.contains(x) && !a.contains(x)) by {
        if forall|x: Symbol| b.contains(x) ==> #[trigger] a.contains(x) {
            assert(a =~= b);
        }
    }
    let x = choose|x: Symbol| b.contains(x) && !a.contains(x);
    a.lemma_subset_not_in_lt(b, x);
}

/// Iterates the backward data-flow equations to a fixpoint: sweeps
/// over every node recomputing its live-in set until one full sweep
/// changes nothing.  The sweeping terminates because the live sets
/// only grow within the finite universe of symbols the instructions
/// mention.
#[verifier::loop_isolation(false)]
#[verifier::rlimit(100)]
#[verifier::spinoff_prover]
fn solve_live<A: CfgLine + GenKill>(cfg: &ControlFlowGraph<A>) -> (li: AssocMap<
    usize,
    SymbolSet,
>)
    requires
        cfg.wf(),
    ensures
        li.wf(),
        forall|n: usize| #[trigger]
            li@.contains_key(n) ==> graph_nodes(cfg.graph).dom().contains(n as int) && li@[n].wf(),
        forall|n: int|
            #[trigger] graph_nodes(cfg.graph).dom().contains(n) ==> li@.contains_key(n as usize)
                && 0 <= n < 0x1_0000_0000,
        forall|n: int|
            #[trigger] graph_nodes(cfg.graph).dom().contains(n) ==> eq_holds_at(*cfg, li@, n),
{
    proof {
        reveal(map_out_of);
        reveal(eq_holds_at);
    }
    let mut universe = SymbolSet::empty();
    let mut t: usize = 0;
    while t < cfg.instructions.len()
        invariant
            t <= cfg.instructions@.len(),
            universe.wf(),
            forall|i: int|
                0 <= i < t ==> cfg.instructions@[i].gen_spec().subset_of(#[trigger] universe@)
                    || cfg.instructions@[i].gen_spec().subset_of(universe@),
        decreases cfg.instructions@.len() - t,
    {
        let ghost pre = universe@;
        let g = cfg.instructions[t].gen();
        universe = universe.union_with(&g);
        proof {
            assert forall|i: int|
                0 <= i < t + 1 implies cfg.instructions@[i].gen_spec().subset_of(
                #[trigger] universe@,
            ) || cfg.instructions@[i].gen_spec().subset_of(universe@) by {
                if i < t {
                    assert(cfg.instructions@[i].gen_spec().subset_of(pre));
                }
            }
        }
        t = t + 1;
    }
    let ghost ucap = universe@;
    proof {
        universe.lemma_finite();
        assert forall|n: int| graph_nodes(cfg.graph).dom().contains(n) implies cfg.node_gen(
            n,
        ).subset_of(ucap) by {
            match graph_nodes(cfg.graph)[n] {
                Node::Index(i) => {
                    assert(cfg.instructions@[i as int].gen_spec().subset_of(ucap));
                },
                _ => {},
            }
        }
    }
    let ids = cfg.node_indices();
    let ghost idseq = ids@;
    let mut live_in: AssocMap<usize, SymbolSet> = AssocMap::new();
    let mut k: usize = 0;
    while k < ids.len()
        invariant
            k <= ids@.len(),
            live_in.wf(),
            forall|j: int| 0 <= j < k ==> live_in@.contains_key(#[trigger] ids@[j]),
            forall|n: usize| #[trigger]
                live_in@.contains_key(n) ==> graph_nodes(cfg.graph).dom().contains(n as int)
                    && live_in@[n].wf() && live_in@[n]@ == Set::<Symbol>::empty(),
        decreases ids@.len() - k,
    {
        live_in.insert(ids[k], SymbolSet::empty());
        k = k + 1;
    }
    proof {
        assert forall|n: int| graph_nodes(cfg.graph).dom().contains(
            n,
        ) implies live_in@.contains_key(n as usize) by {
            let j = choose|j: int| 0 <= j < ids@.len() && (#[trigger] ids@[j]) as int == n;
            assert(live_in@.contains_key(ids@[j]));
        }
    }
    let ghost ucapn = ucap.len() as int;
    loop
        invariant
            live_in.wf(),
            universe.wf(),
            universe@ == ucap,
            ids@ == idseq,
            forall|n: usize| #[trigger]
                live_in@.contains_key(n) ==> graph_nodes(cfg.graph).dom().contains(n as int)
                    && live_in@[n].wf() && live_in@[n]@.subset_of(ucap),
            forall|n: int|
                #[trigger] graph_nodes(cfg.graph).dom().contains(n) ==> live_in@.contains_key(
                    n as usize,
                ) && 0 <= n < 0x1_0000_0000,
            forall|n: usize| #[trigger]
                live_in@.contains_key(n) ==> live_in@[n]@.subset_of(
                    cfg.node_gen(n as int).union(
                        map_out_of(*cfg, live_in@, n as int).difference(cfg.node_kill(n as int)),
                    ),
                ),
        decreases idseq.len() * ucapn + 1 - live_potential(live_in@, idseq, idseq.len() as int),
    {
        proof {
            assert forall|j: int| 0 <= j < idseq.len() implies live_in@[idseq[j]]@.len()
                <= ucapn by {
                assert(live_in@.contains_key(idseq[j]));
                vstd::set_lib::lemma_len_subset(live_in@[idseq[j]]@, ucap);
            }
            lemma_potential_bound(live_in@, idseq, idseq.len() as int, ucapn);
        }
        let ghost pot0 = live_potential(live_in@, idseq, idseq.len() as int);
        let mut changed = false;
        let mut k2: usize = 0;
        while k2 < ids.len()
            invariant
                k2 <= ids@.len(),
                ids@ == idseq,
                universe@ == ucap,
                universe.wf(),
                live_in.wf(),
                forall|n: usize| #[trigger]
                    live_in@.contains_key(n) ==> graph_nodes(cfg.graph).dom().contains(n as int)
                        && live_in@[n].wf() && live_in@[n]@.subset_of(ucap),
                forall|n: int|
                    #[trigger] graph_nodes(cfg.graph).dom().contains(n)
                        ==> live_in@.contains_key(n as usize) && 0 <= n < 0x1_0000_0000,
                forall|n: usize| #[trigger]
                    live_in@.contains_key(n) ==> live_in@[n]@.subset_of(
                        cfg.node_gen(n as int).union(
                            map_out_of(*cfg, live_in@, n as int).difference(
                                cfg.node_kill(n as int),
                            ),
                        ),
                    ),
                !changed ==> forall|j: int|
                    0 <= j < k2 ==> eq_holds_at(*cfg, live_in@, (#[trigger] ids@[j]) as int),
                live_potential(live_in@, idseq, idseq.len() as int) >= pot0 + if changed {
                    1int
                } else {
                    0int
                },
            decreases ids@.len() - k2,
        {
            let node = ids[k2];
            let succs = cfg.succ(node);
            let mut out = SymbolSet::empty();
            let mut t2: usize = 0;
            while t2 < succs.len()
                invariant
                    t2 <= succs@.len(),
                    out.wf(),
                    forall|s: Symbol| #[trigger]
                        out@.contains(s) ==> map_out_of(*cfg, live_in@, node as int).contains(s),
                    forall|j: int, s: Symbol|
                        #![trigger live_in@[succs@[j] as usize]@.contains(s)]
                        0 <= j < t2 && live_in@[succs@[j] as usize]@.contains(s) ==> out@.contains(
                            s,
                        ),
                decreases succs@.len() - t2,
            {
                let m = succs[t2];
                proof {
                    assert(graph_nodes(cfg.graph).dom().contains(m as int));
                    assert(live_in@.contains_key(m));
                }
                let got = live_in.get(&m);
                match got {
                    Some(set) => {
                        out = out.union_with(set);
                    },
                    None => {
                        proof {
                            assert(false);
                        }
                    },
                }
                t2 = t2 + 1;
            }
            proof {
                assert forall|s: Symbol| map_out_of(*cfg, live_in@, node as int).contains(
                    s,
                ) implies out@.contains(s) by {
                    let m = choose|m: int|
                        #[trigger] graph_edges(cfg.graph).contains((node as int, m)) && 0 <= m
                            < 0x1_0000_0000 && live_in@[m as usize]@.contains(s);
                    let j = choose|j: int|
                        0 <= j < succs@.len() && (#[trigger] succs@[j]) as int == m;
                    assert(live_in@[succs@[j] as usize]@.contains(s));
                }
                assert(out@ =~= map_out_of(*cfg, live_in@, node as int));
            }
            let genn = cfg.gen_node(node);
            let killn = cfg.kill_node(node);
            let new_in = genn.union_with(&out.difference_with(&killn));
            let same = match live_in.get(&node) {
                Some(s) => new_in.same_as(s),
                None => {
                    proof {
                        assert(false);
                    }
                    false
                },
            };
            if !same {
                let ghost pre_li = live_in@;
                let ghost old_set = live_in@[node]@;
                proof {
                    // the stored set only grows: it sits below the
                    // equation's right side, which is what we computed
                    assert(old_set.subset_of(new_in@));
                    assert(new_in@.subset_of(ucap)) by {
                        assert(cfg.node_gen(node as int).subset_of(ucap));
                        assert forall|s: Symbol| new_in@.contains(s) implies ucap.contains(
                            s,
                        ) by {
                            if !cfg.node_gen(node as int).contains(s) {
                                let m = choose|m: int|
                                    #[trigger] graph_edges(cfg.graph).contains((node as int, m))
                                        && 0 <= m < 0x1_0000_0000 && pre_li[m as usize]@.contains(
                                        s,
                                    );
                                assert(pre_li[m as usize]@.subset_of(ucap));
                            }
                        }
                    }
                    universe.lemma_finite();
                    lemma_strict_growth(old_set, new_in@, ucap);
                    let kix = choose|kix: int|
                        0 <= kix < idseq.len() && (#[trigger] idseq[kix]) as int == node as int;
                    lemma_potential_update(pre_li, idseq, idseq.len() as int, kix, new_in);
                }
                live_in.insert(node, new_in);
                changed = true;
                proof {
                    assert forall|n: usize| #[trigger] live_in@.contains_key(
                        n,
                    ) implies live_in@[n]@.subset_of(
                        cfg.node_gen(n as int).union(
                            map_out_of(*cfg, live_in@, n as int).difference(
                                cfg.node_kill(n as int),
                            ),
                        ),
                    ) by {
                        assert forall|s: Symbol| map_out_of(*cfg, pre_li, n as int).contains(
                            s,
                        ) implies map_out_of(*cfg, live_in@, n as int).contains(s) by {
                            let m = choose|m: int|
                                #[trigger] graph_edges(cfg.graph).contains((n as int, m)) && 0 <= m
                                    < 0x1_0000_0000 && pre_li[m as usize]@.contains(s);
                            if m == node as int {
                                assert(live_in@[m as usize]@.contains(s));
                            } else {
                                assert(live_in@[m as usize]@.contains(s));
                            }
                        }
                        if n == node {
                            assert(live_in@[n]@ == new_in@);
                        } else {
                            assert(live_in@[n]@ == pre_li[n]@);
                            assert(pre_li[n]@.subset_of(
                                cfg.node_gen(n as int).union(
                                    map_out_of(*cfg, pre_li, n as int).difference(
                                        cfg.node_kill(n as int),
                                    ),
                                ),
                            ));
                        }
                    }
                }
            } else {
                proof {
                    assert(eq_holds_at(*cfg, live_in@, node as int));
                }
            }
            k2 = k2 + 1;
        }
        if !changed {
            proof {
                assert forall|n: int| #[trigger] graph_nodes(cfg.graph).dom().contains(
                    n,
                ) implies eq_holds_at(*cfg, live_in@, n) by {
                    let j = choose|j: int|
                        0 <= j < ids@.len() && (#[trigger] ids@[j]) as int == n;
                    assert(eq_holds_at(*cfg, live_in@, ids@[j] as int));
                }
            }
            return live_in;
        }
        proof {
            assert forall|j: int| 0 <= j < idseq.len() implies live_in@[idseq[j]]@.len()
                <= ucapn by {
                assert(live_in@.contains_key(idseq[j]));
                vstd::set_lib::lemma_len_subset(live_in@[idseq[j]]@, ucap);
            }
            lemma_potential_bound(live_in@, idseq, idseq.len() as int, ucapn);
        }
    }
}

/// Runs the backward live-variable fixpoint and stores the resulting
/// live-in set on every node of the graph.  At return, every node's
/// recorded set satisfies the data-flow equation, so in particular it
/// contains the node's gen set and everything live out of the node
/// that the node does not kill.
#[verifier::loop_isolation(false)]
#[verifier::rlimit(100)]
#[verifier::spinoff_prover]
pub fn liveness<A: CfgLine + GenKill>(cfg: ControlFlowGraph<A>) -> (r: ControlFlowGraph<A>)
    requires
        cfg.wf(),
    ensures
        r.wf(),
        r.graph == cfg.graph,
        r.instructions == cfg.instructions,
        r.line_nodes == cfg.line_nodes,
        r.start_node == cfg.start_node,
        r.end_node == cfg.end_node,
        forall|n: int|
            #[trigger] graph_nodes(r.graph).dom().contains(n) ==> r.data@.contains_key(
                graph_nodes(r.graph)[n],
            ) && r.data@[graph_nodes(r.graph)[n]].wf(),
        at_fixpoint(r),
        forall|n: int|
            #[trigger] graph_nodes(r.graph).dom().contains(n) ==> r.node_gen(n).subset_of(
                live_in_of(r, n),
            ) && live_out_of(r, n).difference(r.node_kill(n)).subset_of(live_in_of(r, n)),
{
    proof {
        reveal(map_out_of);
        reveal(eq_holds_at);
        reveal(live_out_of);
        reveal(at_fixpoint);
    }
    let live_in = solve_live(&cfg);
    let mut data: AssocMap<Node, SymbolSet> = AssocMap::new();
    let ids2 = cfg.node_indices();
    let mut k2: usize = 0;
    while k2 < ids2.len()
        invariant
            k2 <= ids2@.len(),
            data.wf(),
            forall|w: Node| #[trigger]
                data@.contains_key(w) ==> exists|n: int|
                    #[trigger] graph_nodes(cfg.graph).dom().contains(n) && graph_nodes(cfg.graph)[n]
                        == w && data@[w].wf() && data@[w]@ == live_in@[n as usize]@,
            forall|j: int|
                0 <= j < k2 ==> data@.contains_key(
                    graph_nodes(cfg.graph)[(#[trigger] ids2@[j]) as int],
                ),
        decreases ids2@.len() - k2,
    {
        let n = ids2[k2];
        let w = cfg.node_weight(n);
        let set = match live_in.get(&n) {
            Some(s) => s.duplicate(),
            None => {
                proof {
                    assert(false);
                }
                SymbolSet::empty()
            },
        };
        data.insert(w, set);
        proof {
            assert forall|w2: Node| #[trigger] data@.contains_key(w2) implies exists|n2: int|
                #[trigger] graph_nodes(cfg.graph).dom().contains(n2) && graph_nodes(cfg.graph)[n2]
                    == w2 && data@[w2].wf() && data@[w2]@ == live_in@[n2 as usize]@ by {
                if w2 == w {
                    assert(graph_nodes(cfg.graph).dom().contains(n as int));
                } else {
                }
            }
            assert forall|j: int| 0 <= j < k2 + 1 implies data@.contains_key(
                graph_nodes(cfg.graph)[(#[trigger] ids2@[j]) as int],
            ) by {
                if j < k2 {
                    if graph_nodes(cfg.graph)[ids2@[j] as int] == w {
                    }
                }
            }
        }
        k2 = k2 + 1;
    }
    let r = ControlFlowGraph {
        graph: cfg.graph,
        instructions: cfg.instructions,
        data,
        line_nodes: cfg.line_nodes,
        start_node: cfg.start_node,
        end_node: cfg.end_node,
    };
    proof {
        assert forall|n: int| #[trigger] graph_nodes(r.graph).dom().contains(
            n,
        ) implies r.data@.contains_key(graph_nodes(r.graph)[n]) && r.data@[graph_nodes(r.graph)[n]].wf()
            && live_in_of(r, n) == live_in@[n as usize]@ by {
            let j = choose|j: int| 0 <= j < ids2@.len() && (#[trigger] ids2@[j]) as int == n;
            assert(data@.contains_key(graph_nodes(cfg.graph)[ids2@[j] as int]));
            let n2 = choose|n2: int|
                #[trigger] graph_nodes(cfg.graph).dom().contains(n2) && graph_nodes(cfg.graph)[n2]
                    == graph_nodes(cfg.graph)[n] && data@[graph_nodes(cfg.graph)[n]].wf() && data@[
                graph_nodes(cfg.graph)[n]]@ == live_in@[n2 as usize]@;
            assert(n2 == n || graph_nodes(cfg.graph)[n2] == graph_nodes(cfg.graph)[n]);
            assert(live_in@[n2 as usize]@ == live_in@[n as usize]@) by {
                if n2 != n {
                    assert(r.wf());
                }
            }
        }
        assert(at_fixpoint(r)) by {
            assert forall|n: int| #[trigger] graph_nodes(r.graph).dom().contains(
                n,
            ) implies live_in_of(r, n) == r.node_gen(n).union(
                live_out_of(r, n).difference(r.node_kill(n)),
            ) by {
                reveal(eq_holds_at);
                assert(eq_holds_at(cfg, live_in@, n));
                assert(live_out_of(r, n) =~= map_out_of(cfg, live_in@, n)) by {
                    assert forall|s: Symbol| #![auto] true implies live_out_of(r, n).contains(s)
                        == map_out_of(cfg, live_in@, n).contains(s) by {
                        assert forall|m: int| #[trigger] graph_edges(r.graph).contains(
                            (n, m),
                        ) implies live_in_of(r, m) == live_in@[m as usize]@ && 0 <= m
                            < 0x1_0000_0000 by {
                            assert(graph_nodes(r.graph).dom().contains(m));
                        }
                    }
                }
            }
        }
        assert forall|n: int| #[trigger] graph_nodes(r.graph).dom().contains(
            n,
        ) implies r.node_gen(n).subset_of(live_in_of(r, n)) && live_out_of(r, n).difference(
            r.node_kill(n),
        ).subset_of(live_in_of(r, n)) by {}
    }
    r
}


/// The union of two symbol sets.
pub fn union(set1: SymbolSet, set2: SymbolSet) -> (r: SymbolSet)
    requires
        set1.wf(),
        set2.wf(),
    ensures
        r.wf(),
        r@ == set1@.union(set2@),
{
    set1.union_with(&set2)
}

/// The union of every set in the vector.
#[verifier::loop_isolation(false)]
pub fn union_all(data: Vec<SymbolSet>) -> (r: SymbolSet)
    requires
        forall|i: int| 0 <= i < data@.len() ==> (#[trigger] data@[i]).wf(),
    ensures
        r.wf(),
        forall|s: Symbol| #[trigger]
            r@.contains(s) <==> exists|i: int| 0 <= i < data@.len() && (#[trigger] data@[i])@.contains(s),
{
    let mut r = SymbolSet::empty();
    let mut i: usize = 0;
    while i < data.len()
        invariant
            i <= data@.len(),
            r.wf(),
            forall|s: Symbol| #[trigger]
                r@.contains(s) <==> exists|j: int|
                    0 <= j < i && (#[trigger] data@[j])@.contains(s),
        decreases data@.len() - i,
    {
        let ghost pre = r@;
        r = r.union_with(&data[i]);
        proof {
            assert forall|s: Symbol| #[trigger] r@.contains(s) implies exists|j: int|
                0 <= j < i + 1 && (#[trigger] data@[j])@.contains(s) by {
                if pre.contains(s) {
                    let j = choose|j: int| 0 <= j < i && (#[trigger] data@[j])@.contains(s);
                    assert(0 <= j < i + 1 && data@[j]@.contains(s));
                } else {
                    assert(data@[i as int]@.contains(s));
                }
            }
        }
        i = i + 1;
    }
    r
}

/// The set difference `set1 - set2`.
pub fn difference(set1: SymbolSet, set2: SymbolSet) -> (r: SymbolSet)
    requires
        set1.wf(),
        set2.wf(),
    ensures
        r.wf(),
        r@ == set1@.difference(set2@),
{
    set1.difference_with(&set2)
}

/// Liveness propagates backward through the graph: a use of a symbol
/// makes it live at the using node, and along any control-flow path
/// none of whose earlier nodes redefines the symbol, the symbol is
/// live at every node of the path.
#[verifier::rlimit(100)]
#[verifier::spinoff_prover]
pub proof fn lemma_live_along_path<A: CfgLine + GenKill>(
    r: &ControlFlowGraph<A>,
    path: Seq<int>,
    s: Symbol,
)
    requires
        r.wf(),
        at_fixpoint(*r),
        path.len() >= 1,
        forall|k: int|
            0 <= k < path.len() ==> graph_nodes(r.graph).dom().contains(#[trigger] path[k]),
        forall|k: int|
            0 <= k < path.len() - 1 ==> graph_edges(r.graph).contains(
                (#[trigger] path[k], path[k + 1]),
            ),
        forall|k: int| 0 <= k < path.len() - 1 ==> !r.node_kill(#[trigger] path[k]).contains(s),
        live_in_of(*r, path.last()).contains(s),
    ensures
        forall|k: int| 0 <= k < path.len() ==> live_in_of(*r, #[trigger] path[k]).contains(s),
    decreases path.len(),
{
    reveal(at_fixpoint);
    reveal(live_out_of);
    if path.len() > 1 {
        let suffix = path.subrange(1, path.len() as int);
        assert(suffix.last() == path.last());
        assert forall|k: int| 0 <= k < suffix.len() implies graph_nodes(
            r.graph,
        ).dom().contains(#[trigger] suffix[k]) by {
            assert(suffix[k] == path[k + 1]);
        }
        assert forall|k: int| 0 <= k < suffix.len() - 1 implies graph_edges(r.graph).contains(
            (#[trigger] suffix[k], suffix[k + 1]),
        ) by {
            assert(suffix[k] == path[k + 1]);
            assert(suffix[k + 1] == path[k + 2]);
        }
        assert forall|k: int| 0 <= k < suffix.len() - 1 implies !r.node_kill(
            #[trigger] suffix[k],
        ).contains(s) by {
            assert(suffix[k] == path[k + 1]);
        }
        lemma_live_along_path(r, suffix, s);
        let n0 = path[0];
        assert(live_in_of(*r, path[1]).contains(s)) by {
            assert(suffix[0] == path[1]);
        }
        assert(live_out_of(*r, n0).contains(s)) by {
            assert(graph_edges(r.graph).contains((n0, path[1])) && live_in_of(*r, path[1]).contains(
                s,
            ));
        }
        assert(graph_nodes(r.graph).dom().contains(n0));
        assert(live_in_of(*r, n0) == r.node_gen(n0).union(
            live_out_of(*r, n0).difference(r.node_kill(n0)),
        ));
        assert(!r.node_kill(n0).contains(s));
        assert(live_in_of(*r, n0).contains(s));
        assert forall|k: int| 0 <= k < path.len() implies live_in_of(
            *r,
            #[trigger] path[k],
        ).contains(s) by {
            if k > 0 {
                assert(suffix[k - 1] == path[k]);
                assert(live_in_of(*r, suffix[k - 1]).contains(s));
            }
        }
    }
}

/// A listing the lowering pass certifies — every jump resolved within
/// the body, labels pairwise distinct — satisfies the graph builder's
/// view of the same facts over line kinds, so a lowered function can
/// be handed to the builder directly.
pub proof fn lemma_lowered_kinds_ok(listing: Seq<LIRAssembly>)
    requires
        crate::lir::listing_jumps_resolved(listing),
        crate::lir::lir_labels_distinct(listing),
    ensures
        kinds_resolved(kinds_of(listing)),
        kinds_labels_distinct(kinds_of(listing)),
{
    let kinds = kinds_of(listing);
    assert(kinds.len() == listing.len());
    assert forall|i: int| 0 <= i < kinds.len() implies match (#[trigger] kinds[i]).jump_to() {
        Some(l) => last_label_ix(kinds, l) >= 0,
        None => true,
    } by {
        match kinds[i].jump_to() {
            Some(l) => {
                assert(kinds[i] == listing[i].kind_spec());
                match listing[i] {
                    LIRAssembly::Instruction(instr) => {
                        assert(crate::lir::lir_jump_target(instr) == Some(l));
                        assert(crate::lir::listing_defines_label(listing, l));
                        let j = choose|j: int|
                            0 <= j < listing.len() && crate::lir::lir_line_label(
                                #[trigger] listing[j],
                            ) == Some(l);
                        assert(kinds[j] == LineKind::Lab(l));
                        lemma_last_label_ix(kinds, l);
                        if last_label_ix(kinds, l) < 0 {
                            assert(kinds[j] != LineKind::Lab(l));
                        }
                    },
                    LIRAssembly::Label(_) => {
                        assert(false);
                    },
                }
            },
            None => {},
        }
    }
    assert forall|i: int, j: int|
        0 <= i < j < kinds.len() implies !((#[trigger] kinds[i]) matches LineKind::Lab(_)
        && kinds[i] == #[trigger] kinds[j]) by {
        match kinds[i] {
            LineKind::Lab(l) => {
                if kinds[i] == kinds[j] {
                    assert(crate::lir::lir_line_label(listing[i]) == Some(l));
                    assert(crate::lir::lir_line_label(listing[j]) == Some(l));
                    assert(false);
                }
            },
            _ => {},
        }
    }
}

} // verus!
