//! Properties that hold across calls: memoised outputs, scoped blocks,
//! shadowing globals, wires that win over literals, and the uniqueness of
//! the control-flow chain.
use vstd::prelude::*;
use crate::builder::{
    BuilderView, out_var_step, after_begin_block, after_end_block, in_var, bind_wires,
    apply_hardcoded, literal_text, producers_bound,
};
use crate::flow::{
    DisbotterFlow, DisbotterFlowConnection, HardcodedValue, is_full_chain, is_chain, flows_to,
    step_source, is_first_leaving, is_first_node, is_unconnected, flow_in_key,
};
use crate::port::PortAddr;

verus! {

/// An output is bound once: asking the same node for the same output again
/// gives the same variable and changes nothing, so every consumer shares it.
pub proof fn lemma_out_var_memoized(
    v: BuilderView,
    key: Seq<char>,
    first: Seq<char>,
    mid: BuilderView,
    second: Seq<char>,
    last: BuilderView,
)
    requires
        out_var_step(v, key, first, mid),
        out_var_step(mid, key, second, last),
    ensures
        second == first,
        last == mid,
{
}

/// Outputs already bound are reused: when every data wire into node `uid`
/// leaves a bound output, binding the wires succeeds with no producer
/// compiled.
pub proof fn lemma_bound_producers_reused(
    m: Map<PortAddr, Seq<char>>,
    conns: Seq<DisbotterFlowConnection>,
    uid: Seq<char>,
)
    requires
        producers_bound(m, conns, uid),
    ensures
        bind_wires(m, conns, uid) is Some,
    decreases conns.len(),
{
    if conns.len() > 0 {
        let init = conns.drop_last();
        assert forall|j: int| 0 <= j < init.len() && init[j].to@ == uid && init[j].to_key@ != flow_in_key()
            implies m.contains_key(PortAddr::Output { node_uid: init[j].from@, port_key: #[trigger] init[j].from_key@ }) by {
            assert(init[j] == conns[j]);
        }
        lemma_bound_producers_reused(m, init, uid);
        let c = conns.last();
        let o = PortAddr::Output { node_uid: c.from@, port_key: c.from_key@ };
        lemma_bind_wires_keeps_others(m, init, uid, o);
        if c.to@ == uid && c.to_key@ != flow_in_key() {
            assert(m.contains_key(PortAddr::Output { node_uid: conns[conns.len() - 1].from@, port_key: conns[conns.len() - 1].from_key@ }));
        }
    }
}

/// A bound global of a name shadows the current node's input of that name.
pub proof fn lemma_global_shadows_input(v: BuilderView, key: Seq<char>)
    requires
        v.cache.contains_key(PortAddr::Global { key }),
    ensures
        in_var(v, key) == v.cache[PortAddr::Global { key }],
{
}

/// Bindings made inside a block are gone after its `end_block`, and those
/// made before its `begin_block` are visible inside it and after it.
pub proof fn lemma_block_scope(v: BuilderView, inside: BuilderView)
    requires
        inside.stack == after_begin_block(v).stack,
        inside.indent > 0,
    ensures
        after_begin_block(v).cache == v.cache,
        after_end_block(inside).cache == v.cache,
        after_end_block(inside).stack == v.stack,
{
}

/// Binding wires only adds or replaces inputs of node `uid`.
pub proof fn lemma_bind_wires_keeps_others(
    m: Map<PortAddr, Seq<char>>,
    conns: Seq<DisbotterFlowConnection>,
    uid: Seq<char>,
    p: PortAddr,
)
    requires
        bind_wires(m, conns, uid) is Some,
        !(p is Input && p->Input_node_uid == uid),
    ensures
        bind_wires(m, conns, uid)->Some_0.contains_key(p) == m.contains_key(p),
        m.contains_key(p) ==> bind_wires(m, conns, uid)->Some_0[p] == m[p],
    decreases conns.len(),
{
    if conns.len() > 0 {
        lemma_bind_wires_keeps_others(m, conns.drop_last(), uid, p);
    }
}

/// After wires are bound, an input that the wire `j` enters, and no later
/// wire, stands for the output that `j` leaves.
pub proof fn lemma_bind_wires_value(
    m: Map<PortAddr, Seq<char>>,
    conns: Seq<DisbotterFlowConnection>,
    uid: Seq<char>,
    j: int,
)
    requires
        bind_wires(m, conns, uid) is Some,
        0 <= j < conns.len(),
        conns[j].to@ == uid,
        conns[j].to_key@ != flow_in_key(),
        forall|l: int| j < l < conns.len() ==> !(conns[l].to@ == uid && #[trigger] conns[l].to_key@ == conns[j].to_key@),
    ensures
        ({
            let m1 = bind_wires(m, conns, uid)->Some_0;
            let i = PortAddr::Input { node_uid: uid, port_key: conns[j].to_key@ };
            let o = PortAddr::Output { node_uid: conns[j].from@, port_key: conns[j].from_key@ };
            m1.contains_key(i) && m.contains_key(o) && m1[i] == m[o]
        }),
    decreases conns.len(),
{
    let i = PortAddr::Input { node_uid: uid, port_key: conns[j].to_key@ };
    let o = PortAddr::Output { node_uid: conns[j].from@, port_key: conns[j].from_key@ };
    let init = conns.drop_last();
    if j == conns.len() - 1 {
        lemma_bind_wires_keeps_others(m, init, uid, o);
    } else {
        assert forall|l: int| j < l < init.len() implies !(init[l].to@ == uid && #[trigger] init[l].to_key@
            == init[j].to_key@) by {
            assert(init[l] == conns[l]);
        }
        lemma_bind_wires_value(m, init, uid, j);
        let c = conns.last();
        assert(!(c.to@ == uid && c.to_key@ == conns[j].to_key@));
    }
}

/// Literal inputs never replace a binding that is already there.
pub proof fn lemma_hardcoded_keeps_bound(
    m: Map<PortAddr, Seq<char>>,
    hc: Seq<(String, HardcodedValue)>,
    uid: Seq<char>,
    p: PortAddr,
)
    requires
        m.contains_key(p),
    ensures
        apply_hardcoded(m, hc, uid).contains_key(p),
        apply_hardcoded(m, hc, uid)[p] == m[p],
    decreases hc.len(),
{
    if hc.len() > 0 {
        lemma_hardcoded_keeps_bound(m, hc.drop_last(), uid, p);
    }
}

/// A literal input is bound to its first literal when nothing was bound to
/// that input before.
pub proof fn lemma_hardcoded_applies(
    m: Map<PortAddr, Seq<char>>,
    hc: Seq<(String, HardcodedValue)>,
    uid: Seq<char>,
    k: int,
)
    requires
        0 <= k < hc.len(),
        !m.contains_key(PortAddr::Input { node_uid: uid, port_key: hc[k].0@ }),
        forall|l: int| 0 <= l < k ==> #[trigger] hc[l].0@ != hc[k].0@,
    ensures
        apply_hardcoded(m, hc, uid).contains_key(PortAddr::Input { node_uid: uid, port_key: hc[k].0@ }),
        apply_hardcoded(m, hc, uid)[PortAddr::Input { node_uid: uid, port_key: hc[k].0@ }] == literal_text(hc[k].1),
    decreases hc.len(),
{
    let p = PortAddr::Input { node_uid: uid, port_key: hc[k].0@ };
    let init = hc.drop_last();
    if k == hc.len() - 1 {
        lemma_hardcoded_absent(m, init, uid, p, hc[k].0@);
    } else {
        assert forall|l: int| 0 <= l < k implies #[trigger] init[l].0@ != init[k].0@ by {
            assert(init[l] == hc[l]);
        }
        lemma_hardcoded_applies(m, init, uid, k);
        let m1 = apply_hardcoded(m, init, uid);
        assert(m1.contains_key(p));
    }
}

proof fn lemma_hardcoded_absent(
    m: Map<PortAddr, Seq<char>>,
    hc: Seq<(String, HardcodedValue)>,
    uid: Seq<char>,
    p: PortAddr,
    key: Seq<char>,
)
    requires
        p == (PortAddr::Input { node_uid: uid, port_key: key }),
        !m.contains_key(p),
        forall|l: int| 0 <= l < hc.len() ==> #[trigger] hc[l].0@ != key,
    ensures
        !apply_hardcoded(m, hc, uid).contains_key(p),
    decreases hc.len(),
{
    if hc.len() > 0 {
        let init = hc.drop_last();
        assert forall|l: int| 0 <= l < init.len() implies #[trigger] init[l].0@ != key by {
            assert(init[l] == hc[l]);
        }
        lemma_hardcoded_absent(m, init, uid, p, key);
        assert(hc.last().0@ != key);
    }
}

/// A wire wins over a literal: when the inputs of node `uid` are resolved
/// (wires bound, then literals applied), a data input that wire `j` enters, and
/// no later wire, stands for the output that `j` leaves, whatever literal
/// the node gives for it.
pub proof fn lemma_wire_wins_over_literal(
    m: Map<PortAddr, Seq<char>>,
    flow: &DisbotterFlow,
    uid: Seq<char>,
    hc: Seq<(String, HardcodedValue)>,
    j: int,
)
    requires
        bind_wires(m, flow.connections@, uid) is Some,
        0 <= j < flow.connections@.len(),
        flow.connections@[j].to@ == uid,
        flow.connections@[j].to_key@ != flow_in_key(),
        forall|l: int| j < l < flow.connections@.len() ==> !(flow.connections@[l].to@ == uid
            && #[trigger] flow.connections@[l].to_key@ == flow.connections@[j].to_key@),
    ensures
        ({
            let c = flow.connections@[j];
            let resolved = apply_hardcoded(bind_wires(m, flow.connections@, uid)->Some_0, hc, uid);
            resolved[PortAddr::Input { node_uid: uid, port_key: c.to_key@ }]
                == m[PortAddr::Output { node_uid: c.from@, port_key: c.from_key@ }]
        }),
{
    let c = flow.connections@[j];
    lemma_bind_wires_value(m, flow.connections@, uid, j);
    lemma_hardcoded_keeps_bound(
        bind_wires(m, flow.connections@, uid)->Some_0,
        hc,
        uid,
        PortAddr::Input { node_uid: uid, port_key: c.to_key@ },
    );
}

/// A literal applies where no wire does: an input of node `uid` that no
/// wire enters, and that was not bound before, is bound to the node's first
/// literal for it.
pub proof fn lemma_literal_when_unwired(
    m: Map<PortAddr, Seq<char>>,
    flow: &DisbotterFlow,
    uid: Seq<char>,
    hc: Seq<(String, HardcodedValue)>,
    k: int,
)
    requires
        bind_wires(m, flow.connections@, uid) is Some,
        0 <= k < hc.len(),
        forall|l: int| 0 <= l < k ==> #[trigger] hc[l].0@ != hc[k].0@,
        forall|j: int| 0 <= j < flow.connections@.len() ==> !(flow.connections@[j].to@ == uid
            && #[trigger] flow.connections@[j].to_key@ == hc[k].0@),
        !m.contains_key(PortAddr::Input { node_uid: uid, port_key: hc[k].0@ }),
    ensures
        apply_hardcoded(bind_wires(m, flow.connections@, uid)->Some_0, hc, uid)[PortAddr::Input {
            node_uid: uid,
            port_key: hc[k].0@,
        }] == literal_text(hc[k].1),
{
    lemma_bind_wires_unwired(m, flow.connections@, uid, hc[k].0@);
    lemma_hardcoded_applies(bind_wires(m, flow.connections@, uid)->Some_0, hc, uid, k);
}

proof fn lemma_bind_wires_unwired(
    m: Map<PortAddr, Seq<char>>,
    conns: Seq<DisbotterFlowConnection>,
    uid: Seq<char>,
    key: Seq<char>,
)
    requires
        bind_wires(m, conns, uid) is Some,
        forall|j: int| 0 <= j < conns.len() ==> !(conns[j].to@ == uid && #[trigger] conns[j].to_key@ == key),
    ensures
        bind_wires(m, conns, uid)->Some_0.contains_key(PortAddr::Input { node_uid: uid, port_key: key })
            == m.contains_key(PortAddr::Input { node_uid: uid, port_key: key }),
    decreases conns.len(),
{
    if conns.len() > 0 {
        let init = conns.drop_last();
        assert forall|j: int| 0 <= j < init.len() implies !(init[j].to@ == uid && #[trigger] init[j].to_key@ == key) by {
            assert(init[j] == conns[j]);
        }
        lemma_bind_wires_unwired(m, init, uid, key);
        assert(!(conns.last().to@ == uid && conns.last().to_key@ == key));
    }
}

proof fn lemma_flows_to_unique(flow: &DisbotterFlow, uid: Seq<char>, key: Seq<char>, a: int, b: int)
    requires
        flows_to(flow, uid, key, a),
        flows_to(flow, uid, key, b),
    ensures
        a == b,
{
    let ja = choose|j: int| #[trigger] is_first_leaving(flow, uid, key, j) && flow.connections@[j].to_key@
        == "__flow_in__"@ && is_first_node(flow, flow.connections@[j].to@, a);
    let jb = choose|j: int| #[trigger] is_first_leaving(flow, uid, key, j) && flow.connections@[j].to_key@
        == "__flow_in__"@ && is_first_node(flow, flow.connections@[j].to@, b);
    if ja < jb {
        assert(false);
    } else if jb < ja {
        assert(false);
    }
    if a < b {
        assert(flow.nodes@[a].uid@ != flow.connections@[ja].to@);
    } else if b < a {
        assert(flow.nodes@[b].uid@ != flow.connections@[ja].to@);
    }
}

/// The control-flow chain from an output is unique: two full chains from
/// the same output visit the same nodes in the same order.
pub proof fn lemma_chain_unique(flow: &DisbotterFlow, uid: Seq<char>, key: Seq<char>, p: Seq<usize>, q: Seq<usize>)
    requires
        is_full_chain(flow, uid, key, p),
        is_full_chain(flow, uid, key, q),
    ensures
        p == q,
{
    let n: int = if p.len() < q.len() { p.len() as int } else { q.len() as int };
    assert forall|i: int| 0 <= i < n implies p[i] == q[i] by {
        lemma_chain_prefix_equal(flow, uid, key, p, q, i);
    }
    if p.len() < q.len() {
        lemma_chain_prefix_equal_all(flow, uid, key, p, q, n);
        assert(step_source(flow, uid, key, p, n) == step_source(flow, uid, key, q, n));
        assert(flows_to(flow, step_source(flow, uid, key, q, n).0, step_source(flow, uid, key, q, n).1, q[n] as int));
        let j = choose|j: int| #[trigger] is_first_leaving(flow, step_source(flow, uid, key, q, n).0, step_source(flow, uid, key, q, n).1, j)
            && flow.connections@[j].to_key@ == "__flow_in__"@ && is_first_node(flow, flow.connections@[j].to@, q[n] as int);
        assert(is_unconnected(flow, step_source(flow, uid, key, p, n).0, step_source(flow, uid, key, p, n).1));
        assert(false);
    } else if q.len() < p.len() {
        lemma_chain_prefix_equal_all(flow, uid, key, q, p, n);
        assert(step_source(flow, uid, key, q, n) == step_source(flow, uid, key, p, n));
        assert(flows_to(flow, step_source(flow, uid, key, p, n).0, step_source(flow, uid, key, p, n).1, p[n] as int));
        let j = choose|j: int| #[trigger] is_first_leaving(flow, step_source(flow, uid, key, p, n).0, step_source(flow, uid, key, p, n).1, j)
            && flow.connections@[j].to_key@ == "__flow_in__"@ && is_first_node(flow, flow.connections@[j].to@, p[n] as int);
        assert(is_unconnected(flow, step_source(flow, uid, key, q, n).0, step_source(flow, uid, key, q, n).1));
        assert(false);
    }
    assert(p =~= q);
}

proof fn lemma_chain_prefix_equal(flow: &DisbotterFlow, uid: Seq<char>, key: Seq<char>, p: Seq<usize>, q: Seq<usize>, i: int)
    requires
        is_chain(flow, uid, key, p),
        is_chain(flow, uid, key, q),
        0 <= i < p.len(),
        i < q.len(),
    ensures
        p[i] == q[i],
    decreases i,
{
    if i > 0 {
        lemma_chain_prefix_equal(flow, uid, key, p, q, i - 1);
    }
    assert(step_source(flow, uid, key, p, i) == step_source(flow, uid, key, q, i));
    assert(flows_to(flow, step_source(flow, uid, key, p, i).0, step_source(flow, uid, key, p, i).1, p[i] as int));
    assert(flows_to(flow, step_source(flow, uid, key, q, i).0, step_source(flow, uid, key, q, i).1, q[i] as int));
    lemma_flows_to_unique(flow, step_source(flow, uid, key, p, i).0, step_source(flow, uid, key, p, i).1, p[i] as int, q[i] as int);
}

proof fn lemma_chain_prefix_equal_all(flow: &DisbotterFlow, uid: Seq<char>, key: Seq<char>, p: Seq<usize>, q: Seq<usize>, n: int)
    requires
        is_chain(flow, uid, key, p),
        is_chain(flow, uid, key, q),
        n == p.len(),
        n <= q.len(),
    ensures
        n > 0 ==> p[n - 1] == q[n - 1],
{
    if n > 0 {
        lemma_chain_prefix_equal(flow, uid, key, p, q, n - 1);
    }
}

} // verus!
