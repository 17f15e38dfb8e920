//! Lowering of node-and-wire flows to imperative source text.
//!
//! A flow is a graph of typed nodes joined by data wires and control-flow
//! wires. The compiler walks the control-flow chain from a start node,
//! resolves each node's inputs (inlining pure producers on demand), and hands
//! a [`builder::CodeBuilder`] to each node's action, which emits lines.

pub mod text;
pub mod port;
pub mod cache;
pub mod error;
pub mod flow;
pub mod project;
pub mod program;
pub mod builder;
pub mod compiler;
pub mod laws;
pub mod loader;
