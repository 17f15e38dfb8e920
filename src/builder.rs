//! The code builder handed to node actions: indented lines, the variable
//! cache, and scoped snapshots of it.
use vstd::prelude::*;
use crate::cache::VarCache;
use crate::compiler::{NodeAction, NodesJSCompiler};
use crate::error::CompilerError;
use crate::port::{PortIdentifier, PortAddr};
use crate::program::ProgramFile;
use crate::flow::{DisbotterFlow, DisbotterFlowConnection, DisbotterFlowNode, HardcodedValue, flow_in_key, has_node, is_unconnected};
use crate::text::{indent_text, joined_lines, owned, join2, indentation, bool_text, bool_to_text, same_text};

verus! {

/// What a builder holds, as mathematical values.
pub struct BuilderView {
    pub lines: Seq<Seq<char>>,
    pub indent: nat,
    pub cache: Map<PortAddr, Seq<char>>,
    pub stack: Seq<Map<PortAddr, Seq<char>>>,
    pub node_id: Seq<char>,
    pub node_type: Seq<char>,
    pub path: Seq<char>,
}

/// `line` as it is stored at indentation level `n`.
pub open spec fn indented(n: nat, line: Seq<char>) -> Seq<char> {
    indent_text(n) + line
}

/// Each of `lines` at indentation level `n`.
pub open spec fn indent_all(n: nat, lines: Seq<Seq<char>>) -> Seq<Seq<char>> {
    lines.map_values(|l: Seq<char>| indented(n, l))
}

/// The state after a line is added.
pub open spec fn after_add_line(v: BuilderView, line: Seq<char>) -> BuilderView {
    BuilderView { lines: v.lines.push(indented(v.indent, line)), ..v }
}

/// The state after a block is opened: one level deeper, the cache saved.
pub open spec fn after_begin_block(v: BuilderView) -> BuilderView {
    BuilderView { indent: v.indent + 1, stack: v.stack.push(v.cache), ..v }
}

/// The state after a block is closed: one level up, the cache as it was saved.
pub open spec fn after_end_block(v: BuilderView) -> BuilderView
    recommends
        v.stack.len() > 0,
        v.indent > 0,
{
    BuilderView {
        indent: (v.indent - 1) as nat,
        cache: v.stack.last(),
        stack: v.stack.drop_last(),
        ..v
    }
}

/// The state after `k` is bound to `val`.
pub open spec fn after_bind(v: BuilderView, k: PortAddr, val: Seq<char>) -> BuilderView {
    BuilderView { cache: v.cache.insert(k, val), ..v }
}

/// What `get_in_var(key)` gives: the global `key` if bound, else the current
/// node's input `key` if bound, else `undefined`.
pub open spec fn in_var(v: BuilderView, key: Seq<char>) -> Seq<char> {
    let g = PortAddr::Global { key };
    let i = PortAddr::Input { node_uid: v.node_id, port_key: key };
    if v.cache.contains_key(g) {
        v.cache[g]
    } else if v.cache.contains_key(i) {
        v.cache[i]
    } else {
        "undefined"@
    }
}

/// The current node's output `key`.
pub open spec fn out_port(v: BuilderView, key: Seq<char>) -> PortAddr {
    PortAddr::Output { node_uid: v.node_id, port_key: key }
}

/// A lower-case hexadecimal digit.
pub open spec fn is_lower_hex(c: char) -> bool {
    ('0' <= c && c <= '9') || ('a' <= c && c <= 'f')
}

/// A generated suffix: sixteen lower-case hex digits, the first eight repeated.
pub open spec fn is_var_suffix(s: Seq<char>) -> bool {
    &&& s.len() == 16
    &&& forall|i: int| 0 <= i < 16 ==> is_lower_hex(#[trigger] s[i])
    &&& forall|i: int| 0 <= i < 8 ==> #[trigger] s[i] == s[i + 8]
}

/// A fresh variable name for output `key` of a node of type `node_type`.
pub open spec fn is_fresh_out_name(name: Seq<char>, node_type: Seq<char>, key: Seq<char>) -> bool {
    exists|suffix: Seq<char>|
        is_var_suffix(suffix) && name == "__io_N"@ + node_type + "_O"@ + key + "_"@ + suffix
}

/// `get_out_var(key)` on `v` may give `name` and leave `w`: the cached
/// variable when there is one, else a fresh name, which is then cached.
pub open spec fn out_var_step(v: BuilderView, key: Seq<char>, name: Seq<char>, w: BuilderView) -> bool {
    let p = out_port(v, key);
    if v.cache.contains_key(p) {
        name == v.cache[p] && w == v
    } else {
        is_fresh_out_name(name, v.node_type, key) && w == after_bind(v, p, name)
    }
}

/// The text a literal input renders to: strings quoted, numbers as
/// written, booleans as `true`/`false`, anything else empty.
pub open spec fn literal_text(v: HardcodedValue) -> Seq<char> {
    match v {
        HardcodedValue::Text(s) => "\""@ + s@ + "\""@,
        HardcodedValue::Number(t) => t@,
        HardcodedValue::Boolean(b) => bool_text(b),
        HardcodedValue::Other => Seq::empty(),
    }
}

/// The cache after each wire into node `uid` among `conns`, in order,
/// has made the input it enters stand for the output it leaves; `None` when
/// some such output is unbound at its turn. A control-flow wire, one into
/// `__flow_in__`, is aliased the same way when its output is bound and
/// passed over when it is not.
pub open spec fn bind_wires(
    m: Map<PortAddr, Seq<char>>,
    conns: Seq<DisbotterFlowConnection>,
    uid: Seq<char>,
) -> Option<Map<PortAddr, Seq<char>>>
    decreases conns.len(),
{
    if conns.len() == 0 {
        Some(m)
    } else {
        match bind_wires(m, conns.drop_last(), uid) {
            None => None,
            Some(m1) => {
                let c = conns.last();
                let o = PortAddr::Output { node_uid: c.from@, port_key: c.from_key@ };
                if c.to@ != uid {
                    Some(m1)
                } else if m1.contains_key(o) {
                    Some(m1.insert(PortAddr::Input { node_uid: uid, port_key: c.to_key@ }, m1[o]))
                } else if c.to_key@ == flow_in_key() {
                    Some(m1)
                } else {
                    None
                }
            },
        }
    }
}

/// Every data wire into node `uid` leaves an output already bound in `m`.
pub open spec fn producers_bound(
    m: Map<PortAddr, Seq<char>>,
    conns: Seq<DisbotterFlowConnection>,
    uid: Seq<char>,
) -> bool {
    forall|j: int|
        0 <= j < conns.len() && conns[j].to@ == uid && conns[j].to_key@ != flow_in_key() ==> m.contains_key(
            PortAddr::Output { node_uid: conns[j].from@, port_key: #[trigger] conns[j].from_key@ },
        )
}

/// The cache after each literal input of node `uid`, in order, is bound
/// where that input is not bound yet.
pub open spec fn apply_hardcoded(
    m: Map<PortAddr, Seq<char>>,
    hc: Seq<(String, HardcodedValue)>,
    uid: Seq<char>,
) -> Map<PortAddr, Seq<char>>
    decreases hc.len(),
{
    if hc.len() == 0 {
        m
    } else {
        let m1 = apply_hardcoded(m, hc.drop_last(), uid);
        let p = PortAddr::Input { node_uid: uid, port_key: hc.last().0@ };
        if m1.contains_key(p) {
            m1
        } else {
            m1.insert(p, literal_text(hc.last().1))
        }
    }
}

/// Renders a literal input as code.
pub fn get_raw_value(value: &HardcodedValue) -> (r: String)
    ensures
        r@ == literal_text(*value),
{
    match value {
        HardcodedValue::Text(s) => join2(&join2("\"", s), "\""),
        HardcodedValue::Number(t) => t.clone(),
        HardcodedValue::Boolean(b) => bool_to_text(*b),
        HardcodedValue::Other => String::new(),
    }
}

proof fn lemma_bind_wires_stays_none(
    m: Map<PortAddr, Seq<char>>,
    conns: Seq<DisbotterFlowConnection>,
    uid: Seq<char>,
    i: int,
)
    requires
        0 <= i <= conns.len(),
        bind_wires(m, conns.subrange(0, i), uid) is None,
    ensures
        bind_wires(m, conns, uid) is None,
    decreases conns.len() - i,
{
    if i < conns.len() {
        assert(conns.subrange(0, i + 1).drop_last() =~= conns.subrange(0, i));
        lemma_bind_wires_stays_none(m, conns, uid, i + 1);
    } else {
        assert(conns.subrange(0, i) =~= conns);
    }
}

/// Accumulates the lines of one generated file.
///
/// The builder also carries the compiler that node actions use to compile
/// nested control-flow branches in place.
pub struct CodeBuilder<A> {
    lines: Vec<String>,
    path: String,
    current_ident: usize,
    var_cache: VarCache,
    current_node_id: String,
    current_node_type: String,
    compiler: NodesJSCompiler<A>,
    var_cache_stack: Vec<VarCache>,
}

impl<A> View for CodeBuilder<A> {
    type V = BuilderView;

    closed spec fn view(&self) -> BuilderView {
        BuilderView {
            lines: self.lines@.map_values(|l: String| l@),
            indent: self.current_ident as nat,
            cache: self.var_cache@,
            stack: self.var_cache_stack@.map_values(|c: VarCache| c@),
            node_id: self.current_node_id@,
            node_type: self.current_node_type@,
            path: self.path@,
        }
    }
}

impl<A: NodeAction> CodeBuilder<A> {
    /// A builder for the file at `path`, with no lines, no bindings, and the
    /// given compiler for nested branches.
    pub fn new(path: String, compiler: NodesJSCompiler<A>) -> (r: CodeBuilder<A>)
        ensures
            r@.lines.len() == 0,
            r@.indent == 0,
            r@.cache == Map::<PortAddr, Seq<char>>::empty(),
            r@.stack.len() == 0,
            r@.node_id.len() == 0,
            r@.path == path@,
            r.flow_in_use() == compiler.flow_of(),
    {
        let r = CodeBuilder {
            lines: Vec::new(),
            path,
            current_ident: 0,
            var_cache: VarCache::new(),
            current_node_id: String::new(),
            current_node_type: String::new(),
            compiler,
            var_cache_stack: Vec::new(),
        };
        assert(r@.lines =~= Seq::<Seq<char>>::empty());
        r
    }

    /// Makes each input of `node` that a wire enters stand for the output
    /// that wire leaves. Fails with `InvalidPortIdentifier` when one of
    /// those outputs is unbound.
    pub fn bind_wired_inputs(&mut self, flow: &DisbotterFlow, node: &DisbotterFlowNode) -> (r: Result<(), CompilerError>)
        ensures
            bind_wires(old(self)@.cache, flow.connections@, node.uid@) matches Some(m) ==> (r is Ok
                && final(self)@ == (BuilderView { cache: m, ..old(self)@ })),
            bind_wires(old(self)@.cache, flow.connections@, node.uid@) is None ==> (r is Err
                && r->Err_0 is InvalidPortIdentifier),
    {
        let ghost start = self@;
        let mut i: usize = 0;
        while i < flow.connections.len()
            invariant
                i <= flow.connections@.len(),
                start == old(self)@,
                bind_wires(start.cache, flow.connections@.subrange(0, i as int), node.uid@) == Some(self@.cache),
                self@ == (BuilderView { cache: self@.cache, ..start }),
            decreases flow.connections@.len() - i,
        {
            let c = &flow.connections[i];
            proof {
                assert(flow.connections@.subrange(0, i + 1).drop_last() =~= flow.connections@.subrange(0, i as int));
                assert(flow.connections@.subrange(0, i + 1).last() == flow.connections@[i as int]);
            }
            if same_text(&c.to, &node.uid) {
                let o = PortIdentifier::output(&c.from, &c.from_key);
                match self.var_cache.get(&o) {
                    None if same_text(&c.to_key, "__flow_in__") => {},
                    None => {
                        proof {
                            assert(bind_wires(start.cache, flow.connections@.subrange(0, i + 1), node.uid@) is None);
                            lemma_bind_wires_stays_none(start.cache, flow.connections@, node.uid@, i as int + 1);
                        }
                        return Err(CompilerError::InvalidPortIdentifier(o));
                    },
                    Some(v) => {
                        let p = PortIdentifier::input(&node.uid, &c.to_key);
                        self.bind(p, v);
                    },
                }
            }
            i = i + 1;
        }
        assert(flow.connections@.subrange(0, flow.connections@.len() as int) =~= flow.connections@);
        Ok(())
    }

    /// Binds each literal input of `node` that is not bound yet to its rendered literal.
    pub fn map_hardcoded_inputs(&mut self, node: &DisbotterFlowNode)
        ensures
            final(self)@ == (BuilderView {
                cache: apply_hardcoded(old(self)@.cache, node.input_hardcoded@, node.uid@),
                ..old(self)@
            }),
    {
        let ghost start = self@;
        let hc = &node.input_hardcoded;
        let mut i: usize = 0;
        while i < hc.len()
            invariant
                i <= hc@.len(),
                self@ == (BuilderView {
                    cache: apply_hardcoded(start.cache, hc@.subrange(0, i as int), node.uid@),
                    ..start
                }),
            decreases hc@.len() - i,
        {
            proof {
                assert(hc@.subrange(0, i + 1).drop_last() =~= hc@.subrange(0, i as int));
            }
            let p = PortIdentifier::input(&node.uid, &hc[i].0);
            if !self.var_cache.contains_key(&p) {
                let v = get_raw_value(&hc[i].1);
                self.bind(p, v);
            }
            i = i + 1;
        }
        assert(hc@.subrange(0, hc@.len() as int) =~= hc@);
    }

    /// The flow that nested branches are compiled from, if any.
    pub closed spec fn flow_in_use(&self) -> Option<DisbotterFlow> {
        self.compiler.flow_of()
    }

    /// Compiles, in place, the branch that leaves the current node by its
    /// control-flow output `flow_port`: the branch's lines are produced
    /// apart, from indentation zero, with this cache and no open blocks,
    /// then appended here at the current indentation; its bindings stay in
    /// the cache. The current node, indentation and open blocks are as
    /// before afterwards; on failure no line is added and the branch's
    /// error is returned.
    pub fn compile_flow_output_here(&mut self, flow_port: String) -> (r: Result<(), CompilerError>)
        ensures
            final(self).flow_in_use() == old(self).flow_in_use(),
            final(self)@.stack == old(self)@.stack,
            final(self)@.node_id == old(self)@.node_id,
            final(self)@.node_type == old(self)@.node_type,
            final(self)@.indent == old(self)@.indent,
            final(self)@.path == old(self)@.path,
            old(self).flow_in_use() is None ==> (r is Err && r->Err_0 is BadContext && final(self)@ == old(self)@),
            old(self).flow_in_use() matches Some(f) ==> (!has_node(&f, old(self)@.node_id) ==> (r is Err
                && r->Err_0 is InvalidPortIdentifier && final(self)@ == old(self)@)),
            old(self).flow_in_use() matches Some(f) ==> (has_node(&f, old(self)@.node_id) && is_unconnected(
                &f,
                old(self)@.node_id,
                flow_port@,
            ) ==> (r is Ok && final(self)@ == old(self)@)),
            r is Ok ==> exists|branch: Seq<Seq<char>>| final(self)@.lines == old(self)@.lines + #[trigger] indent_all(
                old(self)@.indent,
                branch,
            ),
            r is Err ==> final(self)@.lines == old(self)@.lines,
    {
        let ghost start = self@;
        let mut compiler = self.compiler.get_cloned_compiler();
        std::mem::swap(&mut self.compiler, &mut compiler);
        let indent = self.current_ident;
        let node_id = self.current_node_id.clone();
        let node_type = self.current_node_type.clone();
        let path = self.path.clone();
        let mut saved_lines: Vec<String> = Vec::new();
        std::mem::swap(&mut self.lines, &mut saved_lines);
        let mut saved_stack: Vec<VarCache> = Vec::new();
        std::mem::swap(&mut self.var_cache_stack, &mut saved_stack);
        self.current_ident = 0;
        let ghost inner = self@;
        let res = compiler.branch_from(self, flow_port.as_str());
        let ghost after = self@;
        let mut branch = saved_lines;
        std::mem::swap(&mut self.lines, &mut branch);
        self.var_cache_stack = saved_stack;
        self.current_ident = indent;
        self.current_node_id = node_id;
        self.current_node_type = node_type;
        self.path = path;
        std::mem::swap(&mut self.compiler, &mut compiler);
        assert(self@.lines == start.lines);
        match res {
            Err(e) => Err(e),
            Ok(()) => {
                let ghost b = branch@;
                self.add_lines(branch);
                proof {
                    let mapped = b.map_values(|l: String| indented(start.indent, l@));
                    let views = b.map_values(|l: String| l@);
                    assert(mapped =~= indent_all(start.indent, views));
                    if after == inner {
                        assert(b.len() == 0);
                        assert(self@.lines =~= start.lines);
                        assert(self@ == start);
                    }
                }
                Ok(())
            },
        }
    }

    /// The lines so far.
    pub fn get_lines(&self) -> (r: &Vec<String>)
        ensures
            r@.map_values(|l: String| l@) == self@.lines,
    {
        &self.lines
    }

    /// The current indentation level.
    pub fn indentation(&self) -> (r: usize)
        ensures
            r == self@.indent,
    {
        self.current_ident
    }

    /// How many saved caches wait for a matching `end_block`.
    pub fn block_depth(&self) -> (r: usize)
        ensures
            r == self@.stack.len(),
    {
        self.var_cache_stack.len()
    }

    /// The variable cache.
    pub fn var_cache(&self) -> (r: &VarCache)
        ensures
            r@ == self@.cache,
    {
        &self.var_cache
    }

    /// Id of the node being compiled.
    pub fn current_node_id(&self) -> (r: &String)
        ensures
            r@ == self@.node_id,
    {
        &self.current_node_id
    }

    /// The compiler used for nested branches.
    pub fn compiler(&self) -> &NodesJSCompiler<A> {
        &self.compiler
    }

    /// Makes `uid`, of type `node_type`, the node that lookups resolve against.
    pub fn enter_node(&mut self, uid: &str, node_type: &str)
        ensures
            final(self)@ == (BuilderView { node_id: uid@, node_type: node_type@, ..old(self)@ }),
    {
        self.current_node_id = owned(uid);
        self.current_node_type = owned(node_type);
    }

    /// Sets the flow that nested branches are compiled from.
    pub fn set_current_flow(&mut self, flow: crate::flow::DisbotterFlow)
        ensures
            final(self)@ == old(self)@,
    {
        self.compiler.set_current_flow(flow);
    }

    /// Binds `k` to `v` in the cache.
    pub(crate) fn bind(&mut self, k: PortIdentifier, v: String)
        ensures
            final(self)@ == after_bind(old(self)@, k@, v@),
    {
        self.var_cache.insert(k, v);
    }

    /// Appends `line` at the current indentation.
    pub fn add_line(&mut self, line: String)
        ensures
            final(self)@ == after_add_line(old(self)@, line@),
            final(self).flow_in_use() == old(self).flow_in_use(),
    {
        let ind = indentation(self.current_ident);
        let full = join2(&ind, &line);
        self.lines.push(full);
        assert(self@.lines =~= old(self)@.lines.push(indented(old(self)@.indent, line@)));
    }

    /// Appends each of `lines`, in order, at the current indentation.
    pub fn add_lines(&mut self, lines: Vec<String>)
        ensures
            final(self).flow_in_use() == old(self).flow_in_use(),
            final(self)@ == (BuilderView {
                lines: old(self)@.lines + lines@.map_values(|l: String| indented(old(self)@.indent, l@)),
                ..old(self)@
            }),
    {
        let ghost start = self@;
        let ghost flow = self.flow_in_use();
        let mut i: usize = 0;
        while i < lines.len()
            invariant
                i <= lines@.len(),
                self.flow_in_use() == flow,
                self@ == (BuilderView {
                    lines: start.lines + lines@.subrange(0, i as int).map_values(|l: String| indented(start.indent, l@)),
                    ..start
                }),
            decreases lines@.len() - i,
        {
            self.add_line(lines[i].clone());
            assert(lines@.subrange(0, i + 1).map_values(|l: String| indented(start.indent, l@))
                =~= lines@.subrange(0, i as int).map_values(|l: String| indented(start.indent, l@)).push(
                indented(start.indent, lines@[i as int]@)));
            i = i + 1;
        }
        assert(lines@.subrange(0, lines@.len() as int) =~= lines@);
    }

    /// Raises the indentation by `amount` levels.
    pub(crate) fn increase_ident_by(&mut self, amount: usize)
        requires
            old(self)@.indent + amount <= usize::MAX,
        ensures
            final(self)@ == (BuilderView { indent: (old(self)@.indent + amount) as nat, ..old(self)@ }),
    {
        self.current_ident = self.current_ident + amount;
    }

    /// Lowers the indentation by `amount` levels.
    pub(crate) fn decrease_ident_by(&mut self, amount: usize)
        requires
            old(self)@.indent >= amount,
        ensures
            final(self)@ == (BuilderView { indent: (old(self)@.indent - amount) as nat, ..old(self)@ }),
    {
        self.current_ident = self.current_ident - amount;
    }

    /// Saves a snapshot of the cache.
    pub fn push_stack(&mut self)
        ensures
            final(self)@ == (BuilderView { stack: old(self)@.stack.push(old(self)@.cache), ..old(self)@ }),
    {
        let snap = self.var_cache.snapshot();
        self.var_cache_stack.push(snap);
        assert(self@.stack =~= old(self)@.stack.push(old(self)@.cache));
    }

    /// Replaces the cache with the last snapshot saved, dropping that snapshot.
    pub fn pop_stack(&mut self)
        requires
            old(self)@.stack.len() > 0,
        ensures
            final(self)@ == (BuilderView {
                cache: old(self)@.stack.last(),
                stack: old(self)@.stack.drop_last(),
                ..old(self)@
            }),
    {
        let saved = self.var_cache_stack.pop().unwrap();
        self.var_cache = saved;
        assert(self@.stack =~= old(self)@.stack.drop_last());
    }

    /// Opens a block: one level deeper, with the cache saved.
    pub fn begin_block(&mut self)
        requires
            old(self)@.indent < usize::MAX,
        ensures
            final(self)@ == after_begin_block(old(self)@),
    {
        self.current_ident = self.current_ident + 1;
        self.push_stack();
    }

    /// Closes the innermost block: one level up, and every binding made
    /// since the matching `begin_block` is dropped.
    pub fn end_block(&mut self)
        requires
            old(self)@.stack.len() > 0,
            old(self)@.indent > 0,
        ensures
            final(self)@ == after_end_block(old(self)@),
    {
        self.current_ident = self.current_ident - 1;
        self.pop_stack();
    }

    /// Puts `line` before every other line.
    pub fn add_on_top(&mut self, line: String)
        ensures
            final(self)@ == (BuilderView { lines: old(self)@.lines.insert(0, line@), ..old(self)@ }),
    {
        let ghost l = line@;
        self.lines.insert(0, line);
        assert(self@.lines =~= old(self)@.lines.insert(0, l));
    }

    /// Puts `import {imports} from "path"` before every other line.
    pub fn add_import(&mut self, imports: String, path: String)
        ensures
            final(self)@ == (BuilderView {
                lines: old(self)@.lines.insert(0, "import {"@ + imports@ + "} from \""@ + path@ + "\""@),
                ..old(self)@
            }),
    {
        let a = join2(&join2(&join2(&join2("import {", &imports), "} from \""), &path), "\"");
        self.add_on_top(a);
    }

    /// The variable for the current node's input `port_name`: a global of
    /// that name wins over the input; an unbound input reads `undefined`.
    pub fn get_in_var(&self, port_name: String) -> (r: String)
        ensures
            r@ == in_var(self@, port_name@),
    {
        let g = PortIdentifier::global(&port_name);
        match self.var_cache.get(&g) {
            Some(v) => v,
            None => {
                let p = PortIdentifier::input(&self.current_node_id, &port_name);
                match self.var_cache.get(&p) {
                    Some(v) => v,
                    None => owned("undefined"),
                }
            },
        }
    }

    /// The variable for the current node's output `port_key`, made and
    /// cached on first use.
    pub fn get_out_var(&mut self, port_key: String) -> (r: String)
        ensures
            out_var_step(old(self)@, port_key@, r@, final(self)@),
    {
        let p = PortIdentifier::output(&self.current_node_id, &port_key);
        match self.var_cache.get(&p) {
            Some(v) => v,
            None => {
                let suffix = NodesJSCompiler::<A>::random_var_name();
                let a = join2(&join2(&join2("__io_N", &self.current_node_type), "_O"), &port_key);
                let name = join2(&join2(&a, "_"), &suffix);
                assert(is_fresh_out_name(name@, self@.node_type, port_key@)) by {
                    assert(name@ == "__io_N"@ + self@.node_type + "_O"@ + port_key@ + "_"@ + suffix@);
                }
                self.bind(p, name.clone());
                name
            },
        }
    }

    /// Binds the current node's output `port` to a new variable holding `value`.
    pub fn set_output(&mut self, port: String, value: String)
        ensures
            exists|name: Seq<char>, mid: BuilderView|
                out_var_step(old(self)@, port@, name, mid) && final(self)@ == after_add_line(
                    mid,
                    "const "@ + name + " = "@ + value@,
                ),
    {
        let ovar = self.get_out_var(port);
        let line = join2(&join2(&join2("const ", &ovar), " = "), &value);
        self.add_line(line);
    }

    /// Makes the current node's output `op` stand for the same variable as its input `ip`.
    pub fn bind_io(&mut self, ip: String, op: String)
        ensures
            final(self)@ == after_bind(old(self)@, out_port(old(self)@, op@), in_var(old(self)@, ip@)),
    {
        let ivar = self.get_in_var(ip);
        let o = PortIdentifier::output(&self.current_node_id, &op);
        self.bind(o, ivar);
    }

    /// Makes the current node's output `op` stand for the expression `value`.
    pub fn map_io(&mut self, op: String, value: String)
        ensures
            final(self)@ == after_bind(old(self)@, out_port(old(self)@, op@), value@),
    {
        let o = PortIdentifier::output(&self.current_node_id, &op);
        self.bind(o, value);
    }

    /// Starts a compile unit: the cache holds exactly the interaction,
    /// guild and translations globals.
    pub fn start_unit(&mut self)
        ensures
            final(self)@ == (BuilderView { cache: crate::compiler::unit_globals(), ..old(self)@ }),
    {
        self.clear_var_cache();
        self.add_var(owned("___interaction"), owned("__INTERACTION__"));
        self.add_var(owned("___guild"), owned("__INTERACTION__.guild"));
        self.add_var(owned("___translations"), owned("__TRANSLATIONS__"));
    }

    /// Binds the global `var_key` to `var_name`.
    pub fn add_var(&mut self, var_key: String, var_name: String)
        ensures
            final(self)@ == after_bind(old(self)@, PortAddr::Global { key: var_key@ }, var_name@),
    {
        let g = PortIdentifier::global(&var_key);
        self.bind(g, var_name);
    }

    /// Removes every binding.
    pub fn clear_var_cache(&mut self)
        ensures
            final(self)@ == (BuilderView { cache: Map::empty(), ..old(self)@ }),
    {
        self.var_cache.clear();
    }

    /// The variable bound to the global `key`, if any.
    pub fn get_global_var(&self, key: String) -> (r: Option<String>)
        ensures
            r is None <==> !self@.cache.contains_key(PortAddr::Global { key: key@ }),
            r matches Some(v) ==> v@ == self@.cache[PortAddr::Global { key: key@ }],
    {
        let g = PortIdentifier::global(&key);
        self.var_cache.get(&g)
    }

    /// A fresh random name.
    pub fn get_random_var_name(&self) -> (r: String)
        ensures
            is_var_suffix(r@),
    {
        NodesJSCompiler::<A>::random_var_name()
    }

    /// The finished file: each line followed by a newline.
    pub fn finalize(self) -> (r: ProgramFile)
        ensures
            r.code@ == joined_lines(self@.lines),
            r.path@ == self@.path,
    {
        let mut code = String::new();
        let mut i: usize = 0;
        while i < self.lines.len()
            invariant
                i <= self.lines@.len(),
                code@ == joined_lines(self@.lines.subrange(0, i as int)),
            decreases self.lines@.len() - i,
        {
            code.append(self.lines[i].as_str());
            code.append("\n");
            proof {
                reveal_strlit("\n");
                let s = self@.lines.subrange(0, i + 1);
                assert(s.drop_last() =~= self@.lines.subrange(0, i as int));
            }
            i = i + 1;
        }
        assert(self@.lines.subrange(0, self.lines@.len() as int) =~= self@.lines);
        ProgramFile { code, path: self.path }
    }

    /// The lines so far, leaving none.
    pub fn finalize_vec(self) -> (r: Vec<String>)
        ensures
            r@.map_values(|l: String| l@) == self@.lines,
    {
        self.lines
    }
}

} // verus!
