//! Errors that end the compilation of a unit.
use vstd::prelude::*;
use crate::port::{PortIdentifier, port_text};
use crate::text::owned;

verus! {

/// Why a compile unit could not be compiled.
#[derive(Clone, Debug, PartialEq, Eq)]
pub enum CompilerError {
    /// A node's action failed; the message is the action's own.
    ScriptError(String),
    /// A wire joins ports that cannot be joined, or leads nowhere.
    InvalidPortIdentifier(PortIdentifier),
    /// A node type has no template and is not a special node.
    NodeNotFound(String),
    /// A special node or a command option is used where the context lacks what it needs.
    BadContext(String),
    /// The flow has no node of the start type.
    NoStartNode,
}


/// The heading of an error of each kind.
pub open spec fn error_label(e: CompilerError) -> Seq<char> {
    match e {
        CompilerError::ScriptError(_) => "Rhai error"@,
        CompilerError::InvalidPortIdentifier(_) => "Invalid port identifier"@,
        CompilerError::NodeNotFound(_) => "Node not found"@,
        CompilerError::NoStartNode => "No start node"@,
        CompilerError::BadContext(_) => "Bad context"@,
    }
}

/// What an error says after its heading.
pub open spec fn error_detail(e: CompilerError) -> Seq<char> {
    match e {
        CompilerError::ScriptError(m) => m@,
        CompilerError::InvalidPortIdentifier(p) => port_text(p@),
        CompilerError::NodeNotFound(t) => t@,
        CompilerError::NoStartNode => "No start node found"@,
        CompilerError::BadContext(m) => m@,
    }
}

impl CompilerError {
    /// The heading of this error.
    pub fn kind_label(&self) -> (r: &'static str)
        ensures
            r@ == error_label(*self),
    {
        match self {
            CompilerError::ScriptError(_) => "Rhai error",
            CompilerError::InvalidPortIdentifier(_) => "Invalid port identifier",
            CompilerError::NodeNotFound(_) => "Node not found",
            CompilerError::NoStartNode => "No start node",
            CompilerError::BadContext(_) => "Bad context",
        }
    }

    /// What this error says after its heading: the message, port or node type.
    pub fn detail(&self) -> (r: String)
        ensures
            r@ == error_detail(*self),
    {
        match self {
            CompilerError::ScriptError(m) => m.clone(),
            CompilerError::InvalidPortIdentifier(p) => p.to_text(),
            CompilerError::NodeNotFound(t) => t.clone(),
            CompilerError::NoStartNode => owned("No start node found"),
            CompilerError::BadContext(m) => m.clone(),
        }
    }
}

} // verus!
