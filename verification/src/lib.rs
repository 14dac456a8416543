//! A whole-program compiler for the Cat language, targeting x86-64.
//!
//! The pipeline runs in stages: a type checker turns the surface syntax
//! into a symbol-addressed checked program, a lowering pass linearises it
//! into a three-address intermediate form, instruction selection produces
//! symbolic x86-64, a legalisation pass reduces memory-operand shapes, and
//! a home-assignment pass maps every symbol to a stack slot and emits the
//! prologue and epilogue.  A control-flow-graph and live-variable analysis
//! support register allocation, and a reference evaluator executes the
//! three-address form as a semantic oracle.

pub mod backend;
pub mod check_type;
pub mod checked_grammar;
pub mod common;
pub mod control_flow_graph;
pub mod eval_lir;
pub mod lir;
pub mod lowering;
pub mod source_grammar;
pub mod tables;
pub mod x64;
pub mod x64s;
