//! The flow graph: nodes, wires, and the control-flow chain through them.
use vstd::prelude::*;
use crate::error::CompilerError;
use crate::port::{PortIdentifier, PortAddr};
use crate::text::{owned, same_text};

verus! {

/// A literal given on a node for an input that no wire feeds.
#[derive(Clone, Debug, PartialEq)]
pub enum HardcodedValue {
    /// A string; rendered in double quotes.
    Text(String),
    /// A number, held as the text it renders to.
    Number(String),
    /// A boolean; rendered as `true` or `false`.
    Boolean(bool),
    /// Any other kind of value; rendered as empty text.
    Other,
}

/// One node of a flow.
#[derive(Clone, Debug)]
pub struct DisbotterFlowNode {
    pub uid: String,
    pub node_type: String,
    /// Literal inputs, by input key.
    pub input_hardcoded: Vec<(String, HardcodedValue)>,
}

/// A wire from an output of one node to an input of another.
#[derive(Clone, Debug)]
pub struct DisbotterFlowConnection {
    /// Kind tag carried along; the compiler does not read it.
    pub connection_type: i32,
    pub from: String,
    pub to: String,
    pub from_key: String,
    pub to_key: String,
}

/// Nodes and the wires between them.
#[derive(Clone, Debug)]
pub struct DisbotterFlow {
    pub nodes: Vec<DisbotterFlowNode>,
    pub connections: Vec<DisbotterFlowConnection>,
}

/// Key of the control-flow input of a node.
pub open spec fn flow_in_key() -> Seq<char> {
    "__flow_in__"@
}

/// Key of the control-flow output of a node.
pub open spec fn flow_out_key() -> Seq<char> {
    "__flow_out__"@
}

/// Node `i` is the first node whose id is `uid`.
pub open spec fn is_first_node(flow: &DisbotterFlow, uid: Seq<char>, i: int) -> bool {
    &&& 0 <= i < flow.nodes@.len()
    &&& flow.nodes@[i].uid@ == uid
    &&& forall|j: int| 0 <= j < i ==> flow.nodes@[j].uid@ != uid
}

/// Some node has id `uid`.
pub open spec fn has_node(flow: &DisbotterFlow, uid: Seq<char>) -> bool {
    exists|i: int| 0 <= i < flow.nodes@.len() && flow.nodes@[i].uid@ == uid
}

/// Wire `j` leaves output `key` of node `uid`.
pub open spec fn conn_leaves(flow: &DisbotterFlow, uid: Seq<char>, key: Seq<char>, j: int) -> bool {
    0 <= j < flow.connections@.len() && flow.connections@[j].from@ == uid
        && flow.connections@[j].from_key@ == key
}

/// Wire `j` enters input `key` of node `uid`.
pub open spec fn conn_enters(flow: &DisbotterFlow, uid: Seq<char>, key: Seq<char>, j: int) -> bool {
    0 <= j < flow.connections@.len() && flow.connections@[j].to@ == uid
        && flow.connections@[j].to_key@ == key
}

/// Wire `j` is the first that leaves output `key` of node `uid`.
pub open spec fn is_first_leaving(flow: &DisbotterFlow, uid: Seq<char>, key: Seq<char>, j: int) -> bool {
    conn_leaves(flow, uid, key, j) && forall|i: int| 0 <= i < j ==> !conn_leaves(flow, uid, key, i)
}

/// Wire `j` is the first that enters input `key` of node `uid`.
pub open spec fn is_first_entering(flow: &DisbotterFlow, uid: Seq<char>, key: Seq<char>, j: int) -> bool {
    conn_enters(flow, uid, key, j) && forall|i: int| 0 <= i < j ==> !conn_enters(flow, uid, key, i)
}

/// No wire leaves output `key` of node `uid`.
pub open spec fn is_unconnected(flow: &DisbotterFlow, uid: Seq<char>, key: Seq<char>) -> bool {
    forall|j: int| 0 <= j < flow.connections@.len() ==> !conn_leaves(flow, uid, key, j)
}

/// No wire enters input `key` of node `uid`.
pub open spec fn is_unfed(flow: &DisbotterFlow, uid: Seq<char>, key: Seq<char>) -> bool {
    forall|j: int| 0 <= j < flow.connections@.len() ==> !conn_enters(flow, uid, key, j)
}

/// Leaving node `uid` by output `key`, control passes to node `n`: the first
/// wire from that output enters the control-flow input of the first node
/// whose id it names, and that node is `n`.
pub open spec fn flows_to(flow: &DisbotterFlow, uid: Seq<char>, key: Seq<char>, n: int) -> bool {
    exists|j: int| #[trigger]
        is_first_leaving(flow, uid, key, j) && flow.connections@[j].to_key@ == flow_in_key()
            && is_first_node(flow, flow.connections@[j].to@, n)
}

/// Where control leaves before step `i` of `path`: the origin for the first
/// step, else the control-flow output of the previous node.
pub open spec fn step_source(
    flow: &DisbotterFlow,
    uid: Seq<char>,
    key: Seq<char>,
    path: Seq<usize>,
    i: int,
) -> (Seq<char>, Seq<char>) {
    if i == 0 {
        (uid, key)
    } else {
        (flow.nodes@[path[i - 1] as int].uid@, flow_out_key())
    }
}

/// `path` follows the control-flow chain from output `key` of node `uid`,
/// without visiting a node twice.
pub open spec fn is_chain(flow: &DisbotterFlow, uid: Seq<char>, key: Seq<char>, path: Seq<usize>) -> bool {
    &&& path.no_duplicates()
    &&& forall|i: int| 0 <= i < path.len() ==> (path[i] as int) < flow.nodes@.len()
    &&& forall|i: int|
        0 <= i < path.len() ==> #[trigger] flows_to(
            flow,
            step_source(flow, uid, key, path, i).0,
            step_source(flow, uid, key, path, i).1,
            path[i] as int,
        )
}

/// The control-flow chain from output `key` of node `uid` is `path` and ends
/// there: the last output reached has no wire.
pub open spec fn is_full_chain(flow: &DisbotterFlow, uid: Seq<char>, key: Seq<char>, path: Seq<usize>) -> bool {
    is_chain(flow, uid, key, path) && {
        let last = step_source(flow, uid, key, path, path.len() as int);
        is_unconnected(flow, last.0, last.1)
    }
}

/// The step after `path` goes wrong: its wire enters something other than a
/// control-flow input, names no node, or returns to a node already visited.
pub open spec fn chain_breaks_after(flow: &DisbotterFlow, uid: Seq<char>, key: Seq<char>, path: Seq<usize>) -> bool {
    let src = step_source(flow, uid, key, path, path.len() as int);
    exists|j: int| #[trigger]
        is_first_leaving(flow, src.0, src.1, j) && {
            let c = flow.connections@[j];
            ||| c.to_key@ != flow_in_key()
            ||| !has_node(flow, c.to@)
            ||| exists|n: int| is_first_node(flow, c.to@, n) && path.contains(n as usize)
        }
}

proof fn lemma_distinct_bounded(p: Seq<usize>, n: usize)
    requires
        p.no_duplicates(),
        forall|i: int| 0 <= i < p.len() ==> (p[i] as int) < n,
    ensures
        p.len() <= n,
{
    p.unique_seq_to_set();
    let bound = Set::new(|x: usize| (x as int) < n);
    let ints = vstd::set_lib::set_int_range(0, n as int);
    assert(bound =~= ints.map(|x: int| x as usize)) by {
        assert forall|x: usize| bound.contains(x) implies ints.map(|y: int| y as usize).contains(x) by {
            assert(ints.contains(x as int));
        }
    }
    vstd::set_lib::lemma_int_range(0, n as int);
    let f = |x: int| x as usize;
    assert(vstd::relations::injective_on(f, ints));
    vstd::set_lib::lemma_map_size(ints, bound, f);
    assert(p.to_set().subset_of(bound));
    vstd::set_lib::lemma_len_subset(p.to_set(), bound);
}

/// Whether `v` holds `n`.
fn contains_index(v: &Vec<usize>, n: usize) -> (r: bool)
    ensures
        r == v@.contains(n),
{
    let mut k: usize = 0;
    while k < v.len()
        invariant
            k <= v@.len(),
            forall|t: int| 0 <= t < k ==> v@[t] != n,
        decreases v@.len() - k,
    {
        if v[k] == n {
            assert(v@[k as int] == n);
            return true;
        }
        k = k + 1;
    }
    false
}

impl DisbotterFlow {
    /// Index of the first node whose id is `uid`.
    pub fn find_node(&self, uid: &str) -> (r: Option<usize>)
        ensures
            r is None <==> !has_node(self, uid@),
            r matches Some(i) ==> is_first_node(self, uid@, i as int),
    {
        let mut i: usize = 0;
        while i < self.nodes.len()
            invariant
                i <= self.nodes@.len(),
                forall|j: int| 0 <= j < i ==> self.nodes@[j].uid@ != uid@,
            decreases self.nodes@.len() - i,
        {
            if same_text(&self.nodes[i].uid, uid) {
                return Some(i);
            }
            i = i + 1;
        }
        None
    }

    /// The first node whose id is `uid`; there must be one.
    pub fn get_node(&self, uid: &str) -> (r: &DisbotterFlowNode)
        requires
            has_node(self, uid@),
        ensures
            exists|i: int| is_first_node(self, uid@, i) && *r == self.nodes@[i],
    {
        let i = self.find_node(uid).unwrap();
        &self.nodes[i]
    }

    /// Index of the first wire leaving output `key` of node `uid`.
    pub fn find_leaving(&self, uid: &str, key: &str) -> (r: Option<usize>)
        ensures
            r is None <==> is_unconnected(self, uid@, key@),
            r matches Some(j) ==> is_first_leaving(self, uid@, key@, j as int),
    {
        let mut j: usize = 0;
        while j < self.connections.len()
            invariant
                j <= self.connections@.len(),
                forall|i: int| 0 <= i < j ==> !conn_leaves(self, uid@, key@, i),
            decreases self.connections@.len() - j,
        {
            let c = &self.connections[j];
            if same_text(&c.from, uid) && same_text(&c.from_key, key) {
                assert(conn_leaves(self, uid@, key@, j as int));
                return Some(j);
            }
            j = j + 1;
        }
        None
    }

    /// Index of the first wire entering input `key` of node `uid`.
    pub fn find_entering(&self, uid: &str, key: &str) -> (r: Option<usize>)
        ensures
            r is None <==> is_unfed(self, uid@, key@),
            r matches Some(j) ==> is_first_entering(self, uid@, key@, j as int),
    {
        let mut j: usize = 0;
        while j < self.connections.len()
            invariant
                j <= self.connections@.len(),
                forall|i: int| 0 <= i < j ==> !conn_enters(self, uid@, key@, i),
            decreases self.connections@.len() - j,
        {
            let c = &self.connections[j];
            if same_text(&c.to, uid) && same_text(&c.to_key, key) {
                assert(conn_enters(self, uid@, key@, j as int));
                return Some(j);
            }
            j = j + 1;
        }
        None
    }

    /// The nodes reached by following the control-flow chain from output
    /// `key` of node `uid`, in order, up to the first output that has no wire.
    ///
    /// Fails with `InvalidPortIdentifier` when a step's wire enters anything
    /// but a control-flow input (naming `origin`), names no node (naming that
    /// input), or returns to a node already visited (naming the output left).
    pub fn flow_path(&self, uid: &str, key: &str, origin: &PortIdentifier) -> (r: Result<Vec<usize>, CompilerError>)
        ensures
            r matches Ok(p) ==> is_full_chain(self, uid@, key@, p@),
            r is Err ==> exists|p: Seq<usize>| is_chain(self, uid@, key@, p) && chain_breaks_after(self, uid@, key@, p),
            r matches Err(e) ==> e is InvalidPortIdentifier,
    {
        let flow_in = "__flow_in__";
        let flow_out = "__flow_out__";
        let mut path: Vec<usize> = Vec::new();
        let mut cur_uid = owned(uid);
        let mut cur_key = owned(key);
        assert(is_chain(self, uid@, key@, path@));
        loop
            invariant
                flow_in@ == flow_in_key(),
                flow_out@ == flow_out_key(),
                is_chain(self, uid@, key@, path@),
                (cur_uid@, cur_key@) == step_source(self, uid@, key@, path@, path@.len() as int),
            decreases self.nodes@.len() - path@.len(),
        {
            let j = match self.find_leaving(&cur_uid, &cur_key) {
                None => {
                    return Ok(path);
                },
                Some(j) => j,
            };
            let c = &self.connections[j];
            let ghost src = step_source(self, uid@, key@, path@, path@.len() as int);
            assert(is_first_leaving(self, src.0, src.1, j as int));
            if !same_text(&c.to_key, flow_in) {
                assert(chain_breaks_after(self, uid@, key@, path@));
                return Err(CompilerError::InvalidPortIdentifier(origin.duplicate()));
            }
            let n = match self.find_node(&c.to) {
                None => {
                    assert(chain_breaks_after(self, uid@, key@, path@));
                    return Err(CompilerError::InvalidPortIdentifier(PortIdentifier::input(&c.to, &c.to_key)));
                },
                Some(n) => n,
            };
            if contains_index(&path, n) {
                assert(is_first_node(self, c.to@, n as int));
                assert(chain_breaks_after(self, uid@, key@, path@));
                return Err(CompilerError::InvalidPortIdentifier(PortIdentifier::output(&cur_uid, &cur_key)));
            }
            let ghost old_path = path@;
            assert(flows_to(self, cur_uid@, cur_key@, n as int));
            path.push(n);
            proof {
                assert forall|i: int| 0 <= i < path@.len() implies #[trigger] flows_to(
                    self,
                    step_source(self, uid@, key@, path@, i).0,
                    step_source(self, uid@, key@, path@, i).1,
                    path@[i] as int,
                ) by {
                    if i < old_path.len() {
                        assert(step_source(self, uid@, key@, path@, i) == step_source(self, uid@, key@, old_path, i));
                        assert(flows_to(
                            self,
                            step_source(self, uid@, key@, old_path, i).0,
                            step_source(self, uid@, key@, old_path, i).1,
                            old_path[i] as int,
                        ));
                    }
                }
                assert(path@.no_duplicates()) by {
                    assert forall|a: int, b: int| 0 <= a < b < path@.len() implies path@[a] != path@[b] by {
                        if b == old_path.len() {
                            assert(path@[a] == old_path[a]);
                        } else {
                            assert(old_path[a] != old_path[b]);
                        }
                    }
                }
            }
            let nlen = self.nodes.len();
            proof { lemma_distinct_bounded(path@, nlen); }
            cur_uid = self.nodes[n].uid.clone();
            cur_key = owned(flow_out);
        }
    }
}

impl DisbotterFlowNode {
    /// The input `key` of this node.
    pub fn get_port_in(&self, key: &str) -> (r: PortIdentifier)
        ensures
            r@ == (PortAddr::Input { node_uid: self.uid@, port_key: key@ }),
    {
        PortIdentifier::input(&self.uid, key)
    }

    /// The output `key` of this node.
    pub fn get_port_out(&self, key: &str) -> (r: PortIdentifier)
        ensures
            r@ == (PortAddr::Output { node_uid: self.uid@, port_key: key@ }),
    {
        PortIdentifier::output(&self.uid, key)
    }
}

} // verus!
