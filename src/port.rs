//! Addresses of values in a flow: node inputs and outputs, globals and
//! compile-time data.
use vstd::prelude::*;
use crate::text::{owned, join2, same_text};

verus! {

/// Where a value lives in a flow.
#[derive(Clone, Debug, PartialEq, Eq, Hash)]
pub enum PortIdentifier {
    Input { node_uid: String, port_key: String },
    Output { node_uid: String, port_key: String },
    CompTime { node_uid: String, port_key: String, data_key: String },
    Global { key: String },
}

/// The mathematical form of a [`PortIdentifier`].
pub enum PortAddr {
    Input { node_uid: Seq<char>, port_key: Seq<char> },
    Output { node_uid: Seq<char>, port_key: Seq<char> },
    CompTime { node_uid: Seq<char>, port_key: Seq<char>, data_key: Seq<char> },
    Global { key: Seq<char> },
}

impl View for PortIdentifier {
    type V = PortAddr;

    open spec fn view(&self) -> PortAddr {
        match self {
            PortIdentifier::Input { node_uid, port_key } => PortAddr::Input {
                node_uid: node_uid@,
                port_key: port_key@,
            },
            PortIdentifier::Output { node_uid, port_key } => PortAddr::Output {
                node_uid: node_uid@,
                port_key: port_key@,
            },
            PortIdentifier::CompTime { node_uid, port_key, data_key } => PortAddr::CompTime {
                node_uid: node_uid@,
                port_key: port_key@,
                data_key: data_key@,
            },
            PortIdentifier::Global { key } => PortAddr::Global { key: key@ },
        }
    }
}

/// Text of a port, as shown in error messages.
pub open spec fn port_text(p: PortAddr) -> Seq<char> {
    match p {
        PortAddr::Input { node_uid, port_key } => "Input: "@ + node_uid + " -> "@ + port_key,
        PortAddr::Output { node_uid, port_key } => "Output: "@ + node_uid + " -> "@ + port_key,
        PortAddr::Global { key } => "Global: "@ + key,
        PortAddr::CompTime { node_uid, port_key, data_key } => "CompTime: "@ + node_uid + " -> "@
            + port_key + " ("@ + data_key + ")"@,
    }
}

impl PortIdentifier {
    /// The input `key` of node `uid`.
    pub fn input(uid: &str, key: &str) -> (r: PortIdentifier)
        ensures
            r@ == (PortAddr::Input { node_uid: uid@, port_key: key@ }),
    {
        PortIdentifier::Input { node_uid: owned(uid), port_key: owned(key) }
    }

    /// The output `key` of node `uid`.
    pub fn output(uid: &str, key: &str) -> (r: PortIdentifier)
        ensures
            r@ == (PortAddr::Output { node_uid: uid@, port_key: key@ }),
    {
        PortIdentifier::Output { node_uid: owned(uid), port_key: owned(key) }
    }

    /// The global binding `key`.
    pub fn global(key: &str) -> (r: PortIdentifier)
        ensures
            r@ == (PortAddr::Global { key: key@ }),
    {
        PortIdentifier::Global { key: owned(key) }
    }

    /// A copy of this identifier.
    pub fn duplicate(&self) -> (r: PortIdentifier)
        ensures
            r@ == self@,
    {
        match self {
            PortIdentifier::Input { node_uid, port_key } => PortIdentifier::Input {
                node_uid: node_uid.clone(),
                port_key: port_key.clone(),
            },
            PortIdentifier::Output { node_uid, port_key } => PortIdentifier::Output {
                node_uid: node_uid.clone(),
                port_key: port_key.clone(),
            },
            PortIdentifier::CompTime { node_uid, port_key, data_key } => PortIdentifier::CompTime {
                node_uid: node_uid.clone(),
                port_key: port_key.clone(),
                data_key: data_key.clone(),
            },
            PortIdentifier::Global { key } => PortIdentifier::Global { key: key.clone() },
        }
    }

    /// Whether two identifiers name the same port: same variant, same fields.
    pub fn same_as(&self, other: &PortIdentifier) -> (r: bool)
        ensures
            r == (self@ == other@),
    {
        match (self, other) {
            (
                PortIdentifier::Input { node_uid: a, port_key: b },
                PortIdentifier::Input { node_uid: c, port_key: d },
            ) => same_text(a, c) && same_text(b, d),
            (
                PortIdentifier::Output { node_uid: a, port_key: b },
                PortIdentifier::Output { node_uid: c, port_key: d },
            ) => same_text(a, c) && same_text(b, d),
            (
                PortIdentifier::CompTime { node_uid: a, port_key: b, data_key: e },
                PortIdentifier::CompTime { node_uid: c, port_key: d, data_key: f },
            ) => same_text(a, c) && same_text(b, d) && same_text(e, f),
            (PortIdentifier::Global { key: a }, PortIdentifier::Global { key: c }) => same_text(a, c),
            _ => false,
        }
    }

    /// Text of the port, e.g. `Input: n1 -> value`.
    pub fn to_text(&self) -> (r: String)
        ensures
            r@ == port_text(self@),
    {
        match self {
            PortIdentifier::Input { node_uid, port_key } => {
                let r = join2(&join2(&join2("Input: ", node_uid), " -> "), port_key);
                r
            },
            PortIdentifier::Output { node_uid, port_key } => {
                join2(&join2(&join2("Output: ", node_uid), " -> "), port_key)
            },
            PortIdentifier::Global { key } => join2("Global: ", key),
            PortIdentifier::CompTime { node_uid, port_key, data_key } => {
                let a = join2(&join2(&join2("CompTime: ", node_uid), " -> "), port_key);
                join2(&join2(&join2(&a, " ("), data_key), ")")
            },
        }
    }
}

} // verus!
