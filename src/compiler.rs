//! The flow compiler: walks control-flow wires, resolves data wires
//! (inlining pure producers on demand) and drives node actions.
use vstd::prelude::*;
use crate::builder::{
    indented, CodeBuilder, BuilderView, is_lower_hex, is_var_suffix, after_add_line, after_bind, bind_wires,
    apply_hardcoded, producers_bound,
};
use crate::error::{error_label, error_detail};
use crate::laws::lemma_bound_producers_reused;
use crate::error::CompilerError;
use crate::flow::{
    DisbotterFlow, DisbotterFlowNode, is_full_chain, is_first_entering, is_first_leaving, is_unconnected, is_unfed,
    has_node, is_first_node, flow_in_key, step_source, flows_to, is_chain, chain_breaks_after, conn_leaves,
};
use crate::port::{PortIdentifier, PortAddr};
use crate::program::{Program, ProgramFile};
use crate::project::{DisbotterProjectCommand, DisbotterProjectCommandOption, DisbotterProjectData};
use crate::text::{decimal_text, joined_lines, join2, same_text, owned, starts_with, remove_all_of, remove_all, is_prefix, int_to_text, bool_to_text, bool_text};

verus! {

/// The code generation of one node type, written by whoever provides the
/// node templates.
///
/// It is called with a builder whose current node is the node being
/// compiled, and emits that node's code through the builder.
pub trait NodeAction: Sized + Clone {
    fn run(&self, builder: &mut CodeBuilder<Self>) -> Result<(), CompilerError>;
}

/// A node template: its type name, whether it is pure, and its action.
#[derive(Clone)]
pub struct AvailableNode<A> {
    pub id: String,
    pub action: A,
    pub is_pure: bool,
}

impl<A: NodeAction> AvailableNode<A> {
    /// Runs this template's action on `builder`.
    pub fn call_action(&self, builder: &mut CodeBuilder<A>) -> Result<(), CompilerError> {
        self.action.run(builder)
    }
}

/// Compiles the commands of a project with a catalog of node templates.
pub struct NodesJSCompiler<A> {
    available_nodes: Vec<AvailableNode<A>>,
    project: DisbotterProjectData,
    program: Program,
    pub current_flow: Option<DisbotterFlow>,
    current_command: Option<DisbotterProjectCommand>,
}

/// A UUID in hyphenated form: 36 characters, hyphens at 8, 13, 18 and 23,
/// lower-case hexadecimal digits elsewhere.
pub open spec fn is_hyphenated_uuid(s: Seq<char>) -> bool {
    &&& s.len() == 36
    &&& forall|i: int|
        0 <= i < 36 ==> if i == 8 || i == 13 || i == 18 || i == 23 {
            #[trigger] s[i] == '-'
        } else {
            is_lower_hex(s[i])
        }
}

/// Relies on `uuid::Uuid::new_v4` for a random UUID, and on uuid's `Display`
/// impl, which writes it in hyphenated lower-case form.
#[verifier::external_body]
fn new_uuid_text() -> (r: String)
    ensures
        is_hyphenated_uuid(r@),
{
    uuid::Uuid::new_v4().to_string()
}

/// Templates in `nodes` are listed by `ids` and `pure` position by position.
pub open spec fn catalog_of<A>(nodes: Seq<AvailableNode<A>>) -> Seq<(Seq<char>, bool)> {
    nodes.map_values(|n: AvailableNode<A>| (n.id@, n.is_pure))
}

/// Entry `i` of `catalog` is the last template named `name`.
pub open spec fn is_template_for(catalog: Seq<(Seq<char>, bool)>, name: Seq<char>, i: int) -> bool {
    &&& 0 <= i < catalog.len()
    &&& catalog[i].0 == name
    &&& forall|j: int| i < j < catalog.len() ==> catalog[j].0 != name
}

/// Some template is named `name`.
pub open spec fn has_template(catalog: Seq<(Seq<char>, bool)>, name: Seq<char>) -> bool {
    exists|i: int| 0 <= i < catalog.len() && catalog[i].0 == name
}

proof fn lemma_catalog_push<A>(s: Seq<AvailableNode<A>>, x: AvailableNode<A>)
    ensures
        catalog_of(s.push(x)) == catalog_of(s).push((x.id@, x.is_pure)),
{
    assert(catalog_of(s.push(x)) =~= catalog_of(s).push((x.id@, x.is_pure)));
}

proof fn lemma_catalog_update<A>(s: Seq<AvailableNode<A>>, i: int, x: AvailableNode<A>)
    requires
        0 <= i < s.len(),
    ensures
        catalog_of(s.update(i, x)) == catalog_of(s).update(i, (x.id@, x.is_pure)),
{
    assert(catalog_of(s.update(i, x)) =~= catalog_of(s).update(i, (x.id@, x.is_pure)));
}

impl<A: NodeAction> NodesJSCompiler<A> {
    /// The templates, as names and purity flags.
    pub closed spec fn catalog(&self) -> Seq<(Seq<char>, bool)> {
        catalog_of(self.available_nodes@)
    }

    /// The flow being compiled, if any.
    pub closed spec fn flow_of(&self) -> Option<DisbotterFlow> {
        self.current_flow
    }

    /// Compiles, into `builder`, the branch that leaves the builder's
    /// current node by its control-flow output `port_key`, in the flow
    /// being compiled. `BadContext` when no flow is being compiled;
    /// `InvalidPortIdentifier` when the current node is not in it; nothing
    /// compiled and the builder untouched when that output has no wire.
    pub fn branch_from(&self, builder: &mut CodeBuilder<A>, port_key: &str) -> (r: Result<(), CompilerError>)
        ensures
            self.flow_of() is None ==> (r is Err && r->Err_0 is BadContext && final(builder)@ == old(builder)@),
            self.flow_of() matches Some(f) ==> (!has_node(&f, old(builder)@.node_id) ==> (r is Err
                && r->Err_0 is InvalidPortIdentifier && final(builder)@ == old(builder)@)),
            self.flow_of() matches Some(f) ==> (has_node(&f, old(builder)@.node_id) && is_unconnected(
                &f,
                old(builder)@.node_id,
                port_key@,
            ) ==> (r is Ok && final(builder)@ == old(builder)@)),
            r matches Err(e) ==> !(e is NoStartNode),
    {
        match &self.current_flow {
            None => Err(CompilerError::BadContext(owned("No flow is being compiled"))),
            Some(flow) => {
                let port = PortIdentifier::output(builder.current_node_id(), port_key);
                match flow.find_node(builder.current_node_id()) {
                    None => Err(CompilerError::InvalidPortIdentifier(port)),
                    Some(n) => self.compile_flow_from_port(flow, builder, port, &flow.nodes[n]),
                }
            },
        }
    }

    /// Sets the flow being compiled.
    pub fn set_current_flow(&mut self, flow: DisbotterFlow)
        ensures
            final(self).catalog() == old(self).catalog(),
            final(self).flow_of() is Some,
    {
        self.current_flow = Some(flow);
    }

    /// A compiler for `project` with no templates yet.
    pub fn new(project: DisbotterProjectData) -> (r: NodesJSCompiler<A>)
        ensures
            r.catalog().len() == 0,
            r.files().len() == 0,
            r.commands() == project.content.commands@,
    {
        let r = NodesJSCompiler {
            available_nodes: Vec::new(),
            project,
            program: Program::new(),
            current_flow: None,
            current_command: None,
        };
        assert(r.catalog() =~= Seq::<(Seq<char>, bool)>::empty());
        r
    }

    /// A compiler with the same templates, project, flow and command, and
    /// an empty program.
    pub fn get_cloned_compiler(&self) -> (r: NodesJSCompiler<A>)
        ensures
            r.catalog() == self.catalog(),
            r.files().len() == 0,
            self.flow_of() is None ==> r.flow_of() is None,
            self.flow_of() is Some ==> r.flow_of() is Some,
    {
        let mut nodes: Vec<AvailableNode<A>> = Vec::new();
        let mut i: usize = 0;
        while i < self.available_nodes.len()
            invariant
                i <= self.available_nodes@.len(),
                catalog_of(nodes@) == catalog_of(self.available_nodes@.subrange(0, i as int)),
            decreases self.available_nodes@.len() - i,
        {
            let n = &self.available_nodes[i];
            let copy = AvailableNode { id: n.id.clone(), action: n.action.clone(), is_pure: n.is_pure };
            let ghost before = nodes@;
            assert(copy.id@ == n.id@);
            nodes.push(copy);
            proof {
                lemma_catalog_push(before, copy);
                assert(self.available_nodes@.subrange(0, i + 1) =~= self.available_nodes@.subrange(0, i as int).push(*n));
                lemma_catalog_push(self.available_nodes@.subrange(0, i as int), *n);
            }
            i = i + 1;
        }
        assert(self.available_nodes@.subrange(0, self.available_nodes@.len() as int) =~= self.available_nodes@);
        NodesJSCompiler {
            available_nodes: nodes,
            project: self.project.clone(),
            program: Program::new(),
            current_flow: self.current_flow.clone(),
            current_command: self.current_command.clone(),
        }
    }

    /// Sixteen random lower-case hex digits: the first group of a random
    /// UUID, twice.
    pub(crate) fn random_var_name() -> (r: String)
        ensures
            is_var_suffix(r@),
    {
        let id = new_uuid_text();
        let first = id.as_str().substring_char(0, 8);
        let r = join2(first, first);
        assert forall|i: int| 0 <= i < 16 implies is_lower_hex(#[trigger] r@[i]) by {
            if i < 8 {
                assert(r@[i] == id@[i]);
            } else {
                assert(r@[i] == id@[i - 8]);
            }
        }
        r
    }

    /// Adds a template; one with the same name is replaced.
    pub fn add_available_node(&mut self, node: AvailableNode<A>)
        ensures
            ({
                let c = old(self).catalog();
                let e = (node.id@, node.is_pure);
                (exists|i: int| 0 <= i < c.len() && c[i].0 == node.id@ && final(self).catalog() == c.update(i, e))
                    || (!has_template(c, node.id@) && final(self).catalog() == c.push(e))
            }),
    {
        let mut i: usize = 0;
        while i < self.available_nodes.len()
            invariant
                i <= self.available_nodes@.len(),
                self.catalog() == old(self).catalog(),
                forall|j: int| 0 <= j < i ==> self.catalog()[j].0 != node.id@,
            decreases self.available_nodes@.len() - i,
        {
            if same_text(&self.available_nodes[i].id, &node.id) {
                let ghost before = self.available_nodes@;
                let ghost x = node;
                self.available_nodes.set(i, node);
                proof {
                    lemma_catalog_update(before, i as int, x);
                    assert(old(self).catalog()[i as int].0 == x.id@);
                }
                return;
            }
            i = i + 1;
        }
        let ghost before = self.available_nodes@;
        let ghost x = node;
        self.available_nodes.push(node);
        proof {
            lemma_catalog_push(before, x);
            if has_template(old(self).catalog(), x.id@) {
                let j = choose|j: int| 0 <= j < old(self).catalog().len() && old(self).catalog()[j].0 == x.id@;
                assert(self.catalog()[j].0 != x.id@);
            }
        }
    }

    /// Adds each of `nodes` in order, later ones replacing earlier ones of
    /// the same name. Every name there was, and every name of `nodes`, has a
    /// template afterwards.
    pub fn add_available_nodes_from_vec(&mut self, nodes: Vec<AvailableNode<A>>)
        ensures
            forall|name: Seq<char>| has_template(old(self).catalog(), name) ==> has_template(final(self).catalog(), name),
            forall|i: int| 0 <= i < nodes@.len() ==> has_template(final(self).catalog(), #[trigger] nodes@[i].id@),
    {
        let ghost all = nodes@;
        let total = nodes.len();
        let mut rest = nodes;
        let mut done: usize = 0;
        while rest.len() > 0
            invariant
                all.len() == total,
                done + rest@.len() == all.len(),
                rest@ == all.subrange(done as int, all.len() as int),
                forall|name: Seq<char>| has_template(old(self).catalog(), name) ==> has_template(self.catalog(), name),
                forall|i: int| 0 <= i < done ==> has_template(self.catalog(), #[trigger] all[i].id@),
            decreases rest@.len(),
        {
            let ghost before = self.catalog();
            let n = rest.remove(0);
            let ghost id = n.id@;
            self.add_available_node(n);
            proof {
                assert forall|name: Seq<char>| has_template(before, name) implies has_template(self.catalog(), name) by {
                    let j = choose|j: int| 0 <= j < before.len() && before[j].0 == name;
                    if self.catalog() == before.push((id, self.catalog().last().1)) {
                        assert(self.catalog()[j] == before[j]);
                    } else {
                        let k = choose|k: int| 0 <= k < before.len() && before[k].0 == id && self.catalog() == before.update(k, (id, self.catalog()[k].1));
                        assert(self.catalog()[j].0 == name);
                    }
                }
                assert(has_template(self.catalog(), id)) by {
                    if exists|k: int| 0 <= k < before.len() && before[k].0 == id && self.catalog() == before.update(k, (id, self.catalog()[k].1)) {
                        let k = choose|k: int| 0 <= k < before.len() && before[k].0 == id && self.catalog() == before.update(k, (id, self.catalog()[k].1));
                        assert(self.catalog()[k].0 == id);
                    } else {
                        assert(self.catalog()[before.len() as int].0 == id);
                    }
                }
                assert(all[done as int] == n);
                assert(rest@ =~= all.subrange(done + 1, all.len() as int));
            }
            done = done + 1;
        }
    }

    /// Index of the template named `name`.
    pub fn find_template(&self, name: &str) -> (r: Option<usize>)
        ensures
            r is None <==> !has_template(self.catalog(), name@),
            r matches Some(i) ==> is_template_for(self.catalog(), name@, i as int),
    {
        let mut i: usize = self.available_nodes.len();
        while i > 0
            invariant
                i <= self.available_nodes@.len(),
                forall|j: int| i <= j < self.available_nodes@.len() ==> self.catalog()[j].0 != name@,
            decreases i,
        {
            i = i - 1;
            if same_text(&self.available_nodes[i].id, name) {
                assert(self.catalog()[i as int].0 == name@);
                return Some(i);
            }
        }
        proof {
            if has_template(self.catalog(), name@) {
                let j = choose|j: int| 0 <= j < self.catalog().len() && self.catalog()[j].0 == name@;
                assert(self.catalog()[j].0 != name@);
            }
        }
        None
    }
}


/// Kind of the first option named `name` among `opts`.
pub open spec fn option_kind(opts: Seq<DisbotterProjectCommandOption>, name: Seq<char>) -> Option<i32>
    decreases opts.len(),
{
    if opts.len() == 0 {
        None
    } else if opts[0].name@ == name {
        Some(opts[0].option_type)
    } else {
        option_kind(opts.subrange(1, opts.len() as int), name)
    }
}

/// A known option kind: 0 (string), 1 (user) or 2 (channel).
pub open spec fn is_known_kind(kind: i32) -> bool {
    0 <= kind <= 2
}

/// The word naming an option kind in generated getters.
pub open spec fn kind_word(kind: i32) -> Seq<char> {
    if kind == 0 {
        "String"@
    } else if kind == 1 {
        "User"@
    } else {
        "Channel"@
    }
}

/// Type prefix of the nodes that read a command option.
pub open spec fn option_node_prefix() -> Seq<char> {
    "___special_get_option_"@
}

/// The option that a node of type `node_type` reads.
pub open spec fn special_option_name(node_type: Seq<char>) -> Seq<char> {
    remove_all(remove_all(node_type, option_node_prefix()), "___"@)
}

/// Variable holding the option `name`.
pub open spec fn option_var(name: Seq<char>) -> Seq<char> {
    "__get_option_"@ + name
}

/// The statement reading option `name` of kind `kind` from `interaction`.
pub open spec fn option_read_line(name: Seq<char>, interaction: Seq<char>, kind: i32) -> Seq<char> {
    "let "@ + option_var(name) + " = "@ + interaction + ".options.get"@ + kind_word(kind) + "(\""@ + name
        + "\");"@
}

/// Global key of the interaction object.
pub open spec fn interaction_key() -> PortAddr {
    PortAddr::Global { key: "___interaction"@ }
}

/// What compiling a special node does to builder state `v` with command
/// options `opts` (`None` outside a command): `Ok(Some(w))` when it compiles
/// to state `w`, `Ok(None)` when the node is not special, `Err(())` on a bad context.
pub open spec fn special_outcome(
    v: BuilderView,
    opts: Option<Seq<DisbotterProjectCommandOption>>,
    uid: Seq<char>,
    node_type: Seq<char>,
) -> Result<Option<BuilderView>, ()> {
    let name = special_option_name(node_type);
    if !is_prefix(option_node_prefix(), node_type) {
        Ok(None)
    } else if !v.cache.contains_key(interaction_key()) {
        Err(())
    } else {
        match opts {
            None => Err(()),
            Some(o) => match option_kind(o, name) {
                None => Err(()),
                Some(k) => if !is_known_kind(k) {
                    Err(())
                } else {
                    Ok(
                        Some(
                            after_bind(
                                after_add_line(v, option_read_line(name, v.cache[interaction_key()], k)),
                                PortAddr::Output { node_uid: uid, port_key: "value"@ },
                                option_var(name),
                            ),
                        ),
                    )
                },
            },
        }
    }
}

/// The method that declares an option of kind `kind`.
pub open spec fn option_method(kind: i32) -> Seq<char> {
    if kind == 0 {
        "addStringOption"@
    } else if kind == 1 {
        "addUserOption"@
    } else {
        "addChannelOption"@
    }
}

/// The declaration of option `o` in a command's builder chain.
pub open spec fn option_decl(o: DisbotterProjectCommandOption) -> Seq<char> {
    "\t\t."@ + option_method(o.option_type) + "(option => option\n\t\t\t.setName(\""@ + o.name@
        + "\")\n\t\t\t.setDescription(\""@ + o.description@ + "\")\n\t\t\t.setRequired("@ + bool_text(
        o.required,
    ) + ")\n\t\t)"@
}

/// Path of the file generated for command `name`.
pub open spec fn command_path(name: Seq<char>) -> Seq<char> {
    "commands/"@ + name + ".ts"@
}

/// The header of a command's class: its name, description and options.
pub open spec fn command_header(c: DisbotterProjectCommand) -> Seq<Seq<char>> {
    seq![
        "export default class extends Command {"@,
        "   public readonly builder = new SlashCommandBuilder()"@,
        "       .setName(\""@ + c.name@ + "\")"@,
        "       .setDescription(\""@ + c.description@ + "\")"@,
    ] + c.options@.map_values(|o: DisbotterProjectCommandOption| option_decl(o))
}

/// `p` is the path of the file of one of `cmds`.
pub open spec fn is_command_path(cmds: Seq<DisbotterProjectCommand>, p: Seq<char>) -> bool {
    exists|j: int| 0 <= j < cmds.len() && p == command_path(#[trigger] cmds[j].name@)
}

/// `n` is the name of one of `cmds`.
pub open spec fn is_command_name(cmds: Seq<DisbotterProjectCommand>, n: Seq<char>) -> bool {
    exists|j: int| 0 <= j < cmds.len() && n == #[trigger] cmds[j].name@
}

/// Option `i` is the first of `opts` with an unknown kind.
pub open spec fn first_unknown_kind(opts: Seq<DisbotterProjectCommandOption>, i: int) -> bool {
    0 <= i < opts.len() && !is_known_kind(opts[i].option_type) && forall|j: int|
        0 <= j < i ==> is_known_kind(#[trigger] opts[j].option_type)
}

/// The message for an option of unknown kind `kind`.
pub open spec fn unknown_kind_message(kind: i32) -> Seq<char> {
    "Unknown option type: "@ + decimal_text(kind as int)
}

/// The lines of a command's file around the `body` that its class and flow
/// produced, the closing lines at indentation `n`.
pub open spec fn command_file_lines(body: Seq<Seq<char>>, n: nat) -> Seq<Seq<char>> {
    seq![
        "// This file is automatically generated by Disbotter"@,
        "// @ts-nocheck"@,
        "import {"@ + "Command, LocalizedTranslations"@ + "} from \""@ + "disbotter"@ + "\""@,
        "import {"@ + "CommandInteraction, SlashCommandBuilder"@ + "} from \""@ + "discord.js"@ + "\""@,
    ] + body + seq![indented(n, "   }"@), indented(n, "}"@)]
}

/// How compiling command `c` fails before any action runs: an option of
/// unknown kind, or a failure of its flow from `__start__`.
pub open spec fn command_failure(catalog: Seq<(Seq<char>, bool)>, c: DisbotterProjectCommand) -> Option<EarlyFailure> {
    if exists|i: int| 0 <= i < c.options@.len() && !is_known_kind(#[trigger] c.options@[i].option_type) {
        Some(EarlyFailure::BadOption)
    } else {
        flow_failure(catalog, &c.flow, "__start__"@)
    }
}

/// A command that could not be compiled, and why.
#[derive(Clone, Debug)]
pub struct CommandFailure {
    pub command: String,
    pub error: CompilerError,
}

/// The header lines of command `command`'s class. Fails with `BadContext`
/// when an option has an unknown kind.
pub fn command_header_lines(command: &DisbotterProjectCommand) -> (r: Result<Vec<String>, CompilerError>)
    ensures
        r matches Ok(v) ==> v@.map_values(|l: String| l@) == command_header(*command),
        r is Ok <==> forall|i: int| 0 <= i < command.options@.len() ==> is_known_kind(#[trigger] command.options@[i].option_type),
        r matches Err(e) ==> e is BadContext && exists|i: int| first_unknown_kind(command.options@, i)
            && e->BadContext_0@ == unknown_kind_message(command.options@[i].option_type),
{
    let mut v: Vec<String> = Vec::new();
    v.push(owned("export default class extends Command {"));
    v.push(owned("   public readonly builder = new SlashCommandBuilder()"));
    v.push(join2(&join2("       .setName(\"", &command.name), "\")"));
    v.push(join2(&join2("       .setDescription(\"", &command.description), "\")"));
    let ghost head = seq![
        "export default class extends Command {"@,
        "   public readonly builder = new SlashCommandBuilder()"@,
        "       .setName(\""@ + command.name@ + "\")"@,
        "       .setDescription(\""@ + command.description@ + "\")"@,
    ];
    assert(v@.map_values(|l: String| l@) =~= head);
    let mut i: usize = 0;
    while i < command.options.len()
        invariant
            i <= command.options@.len(),
            v@.map_values(|l: String| l@) == head + command.options@.subrange(0, i as int).map_values(
                |o: DisbotterProjectCommandOption| option_decl(o),
            ),
            forall|j: int| 0 <= j < i ==> is_known_kind(#[trigger] command.options@[j].option_type),
        decreases command.options@.len() - i,
    {
        let o = &command.options[i];
        let method = if o.option_type == 0 {
            "addStringOption"
        } else if o.option_type == 1 {
            "addUserOption"
        } else if o.option_type == 2 {
            "addChannelOption"
        } else {
            let msg = join2("Unknown option type: ", &int_to_text(o.option_type));
            assert(first_unknown_kind(command.options@, i as int));
            return Err(CompilerError::BadContext(msg));
        };
        assert(method@ == option_method(o.option_type));
        let a = join2(&join2(&join2("\t\t.", method), "(option => option\n\t\t\t.setName(\""), &o.name);
        let b = join2(&join2(&join2(&a, "\")\n\t\t\t.setDescription(\""), &o.description), "\")\n\t\t\t.setRequired(");
        let line = join2(&join2(&b, &bool_to_text(o.required)), ")\n\t\t)");
        assert(line@ == option_decl(*o));
        let ghost before = v@;
        v.push(line);
        proof {
            assert(command.options@.subrange(0, i + 1) =~= command.options@.subrange(0, i as int).push(*o));
            assert(v@.map_values(|l: String| l@) =~= before.map_values(|l: String| l@).push(option_decl(*o)));
            assert(command.options@.subrange(0, i + 1).map_values(|o: DisbotterProjectCommandOption| option_decl(o))
                =~= command.options@.subrange(0, i as int).map_values(|o: DisbotterProjectCommandOption| option_decl(o)).push(option_decl(*o)));
        }
        i = i + 1;
    }
    assert(command.options@.subrange(0, command.options@.len() as int) =~= command.options@);
    Ok(v)
}

impl<A: NodeAction> NodesJSCompiler<A> {
    /// Options of the command being compiled, if any.
    pub closed spec fn command_options(&self) -> Option<Seq<DisbotterProjectCommandOption>> {
        match self.current_command {
            None => None,
            Some(c) => Some(c.options@),
        }
    }

    /// Kind of the first option named `name` of the command being compiled.
    fn find_option_kind(&self, name: &str) -> (r: Option<i32>)
        ensures
            r == (match self.command_options() {
                None => None,
                Some(o) => option_kind(o, name@),
            }),
    {
        match &self.current_command {
            None => None,
            Some(c) => {
                let mut i: usize = 0;
                assert(c.options@.subrange(0, c.options@.len() as int) =~= c.options@);
                while i < c.options.len()
                    invariant
                        self.command_options() == Some(c.options@),
                        i <= c.options@.len(),
                        option_kind(c.options@, name@) == option_kind(c.options@.subrange(i as int, c.options@.len() as int), name@),
                    decreases c.options@.len() - i,
                {
                    let ghost rest = c.options@.subrange(i as int, c.options@.len() as int);
                    assert(rest[0] == c.options@[i as int]);
                    if same_text(&c.options[i].name, name) {
                        assert(rest.len() > 0);
                        assert(option_kind(rest, name@) == Some(c.options@[i as int].option_type));
                        return Some(c.options[i].option_type);
                    }
                    assert(rest.subrange(1, rest.len() as int) =~= c.options@.subrange(i + 1, c.options@.len() as int));
                    i = i + 1;
                }
                None
            },
        }
    }

    /// Compiles `node` if it is a special node, one that reads a command
    /// option (its type starts with `___special_get_option_`): emits a
    /// statement reading the option from the interaction and binds the
    /// node's `value` output to it. `Ok(false)` when the node is not special;
    /// `BadContext` when there is no interaction, no such option, or the
    /// option's kind is unknown.
    pub fn compile_special_node(&self, builder: &mut CodeBuilder<A>, node: &DisbotterFlowNode) -> (r: Result<bool, CompilerError>)
        ensures
            match special_outcome(old(builder)@, self.command_options(), node.uid@, node.node_type@) {
                Ok(None) => r == Ok::<bool, CompilerError>(false) && final(builder)@ == old(builder)@,
                Ok(Some(w)) => r == Ok::<bool, CompilerError>(true) && final(builder)@ == w,
                Err(_) => r is Err && r->Err_0 is BadContext && final(builder)@ == old(builder)@,
            },
    {
        let prefix = "___special_get_option_";
        if !starts_with(&node.node_type, prefix) {
            return Ok(false);
        }
        proof {
            reveal_strlit("___special_get_option_");
            reveal_strlit("___");
        }
        let stripped = remove_all_of(&node.node_type, prefix);
        let option_name = remove_all_of(&stripped, "___");
        let interaction = match builder.get_global_var(owned("___interaction")) {
            None => {
                return Err(CompilerError::BadContext(owned("Cannot get option outside of interaction")));
            },
            Some(i) => i,
        };
        let kind = match self.find_option_kind(&option_name) {
            None => {
                let msg = join2(&join2("Cannot get option \"", &option_name), "\" because it does not exist");
                return Err(CompilerError::BadContext(msg));
            },
            Some(k) => k,
        };
        let word = if kind == 0 {
            "String"
        } else if kind == 1 {
            "User"
        } else if kind == 2 {
            "Channel"
        } else {
            return Err(CompilerError::BadContext(join2("Unknown option type: ", &int_to_text(kind))));
        };
        let var = join2("__get_option_", &option_name);
        let a = join2(&join2(&join2(&join2("let ", &var), " = "), &interaction), ".options.get");
        let line = join2(&join2(&join2(&join2(&a, word), "(\""), &option_name), "\");");
        assert(line@ == option_read_line(option_name@, interaction@, kind));
        builder.add_line(line);
        builder.bind(PortIdentifier::output(&node.uid, "value"), var);
        Ok(true)
    }
}


/// Some node of `flow` has type `t`.
pub open spec fn has_node_of_type(flow: &DisbotterFlow, t: Seq<char>) -> bool {
    exists|i: int| 0 <= i < flow.nodes@.len() && flow.nodes@[i].node_type@ == t
}

/// Index of the first node of type `t`.
fn find_node_of_type(flow: &DisbotterFlow, t: &str) -> (r: Option<usize>)
    ensures
        r is None <==> !has_node_of_type(flow, t@),
        r matches Some(i) ==> is_first_of_type(flow, t@, i as int),
{
    let mut i: usize = 0;
    while i < flow.nodes.len()
        invariant
            i <= flow.nodes@.len(),
            forall|j: int| 0 <= j < i ==> flow.nodes@[j].node_type@ != t@,
        decreases flow.nodes@.len() - i,
    {
        if same_text(&flow.nodes[i].node_type, t) {
            return Some(i);
        }
        i = i + 1;
    }
    None
}

/// Wire `j` is a data wire into node `uid`: it enters an input other than `__flow_in__`.
pub open spec fn is_data_wire_into(flow: &DisbotterFlow, uid: Seq<char>, j: int) -> bool {
    0 <= j < flow.connections@.len() && flow.connections@[j].to@ == uid && flow.connections@[j].to_key@
        != flow_in_key()
}

/// The output that wire `j` leaves.
pub open spec fn wire_source(flow: &DisbotterFlow, j: int) -> PortAddr {
    PortAddr::Output { node_uid: flow.connections@[j].from@, port_key: flow.connections@[j].from_key@ }
}

/// Every data wire into `uid` before wire `i` leaves an output bound in `m`.
pub open spec fn bound_before(m: Map<PortAddr, Seq<char>>, flow: &DisbotterFlow, uid: Seq<char>, i: int) -> bool {
    forall|k: int| 0 <= k < i && is_data_wire_into(flow, uid, k) ==> m.contains_key(#[trigger] wire_source(flow, k))
}

/// Wire `j` is the first data wire into `uid` whose output is unbound in `m`.
pub open spec fn first_unbound_wire(m: Map<PortAddr, Seq<char>>, flow: &DisbotterFlow, uid: Seq<char>, j: int) -> bool {
    is_data_wire_into(flow, uid, j) && !m.contains_key(wire_source(flow, j)) && bound_before(m, flow, uid, j)
}

/// The template named `name` is pure.
pub open spec fn template_pure(catalog: Seq<(Seq<char>, bool)>, name: Seq<char>) -> bool {
    exists|i: int| is_template_for(catalog, name, i) && catalog[i].1
}

/// A failure that is certain before any action runs.
pub enum EarlyFailure {
    /// No node has the start type.
    NoStart,
    /// A node type, named here, has no template.
    NotFound(Seq<char>),
    /// A wire cannot be resolved.
    BadWire,
    /// A command option has an unknown kind.
    BadOption,
}

/// `e` is the failure `f`.
pub open spec fn matches_failure(e: CompilerError, f: EarlyFailure) -> bool {
    match f {
        EarlyFailure::NoStart => e is NoStartNode,
        EarlyFailure::NotFound(t) => e is NodeNotFound && e->NodeNotFound_0@ == t,
        EarlyFailure::BadWire => e is InvalidPortIdentifier,
        EarlyFailure::BadOption => e is BadContext,
    }
}

/// How resolving the producer of wire `j` fails for certain: its node is
/// missing, or its type has an impure template, or no template and is not
/// special. `None` when it may succeed.
pub open spec fn wire_failure(catalog: Seq<(Seq<char>, bool)>, flow: &DisbotterFlow, j: int) -> Option<EarlyFailure> {
    let from = flow.connections@[j].from@;
    if !has_node(flow, from) {
        Some(EarlyFailure::BadWire)
    } else {
        let p = choose|p: int| is_first_node(flow, from, p);
        let t = flow.nodes@[p].node_type@;
        if has_template(catalog, t) {
            if template_pure(catalog, t) {
                None
            } else {
                Some(EarlyFailure::BadWire)
            }
        } else if is_prefix(option_node_prefix(), t) {
            None
        } else {
            Some(EarlyFailure::NotFound(t))
        }
    }
}

/// How resolving the inputs of node `uid` on cache `m` fails before any
/// producer is compiled: by the first unbound data wire's failure.
pub open spec fn inputs_failure(
    m: Map<PortAddr, Seq<char>>,
    catalog: Seq<(Seq<char>, bool)>,
    flow: &DisbotterFlow,
    uid: Seq<char>,
) -> Option<EarlyFailure> {
    if exists|j: int| first_unbound_wire(m, flow, uid, j) {
        wire_failure(catalog, flow, choose|j: int| first_unbound_wire(m, flow, uid, j))
    } else {
        None
    }
}

/// The state after the inputs of `node` are resolved with no producer to compile.
pub open spec fn resolved_state(v: BuilderView, flow: &DisbotterFlow, node: &DisbotterFlowNode) -> BuilderView {
    BuilderView {
        cache: apply_hardcoded(
            bind_wires(v.cache, flow.connections@, node.uid@)->Some_0,
            node.input_hardcoded@,
            node.uid@,
        ),
        ..v
    }
}

/// What `prepare_node` does from `v` when no producer has to be compiled.
pub open spec fn prepared(
    v: BuilderView,
    catalog: Seq<(Seq<char>, bool)>,
    flow: &DisbotterFlow,
    node: &DisbotterFlowNode,
    r: Result<usize, CompilerError>,
    w: BuilderView,
) -> bool {
    let resolved = resolved_state(v, flow, node);
    if has_template(catalog, node.node_type@) {
        r is Ok && w == (BuilderView { node_id: node.uid@, node_type: node.node_type@, ..resolved })
    } else {
        r matches Err(CompilerError::NodeNotFound(t)) && t@ == node.node_type@ && w == resolved
    }
}

/// Node `i` is the first node of type `t`.
pub open spec fn is_first_of_type(flow: &DisbotterFlow, t: Seq<char>, i: int) -> bool {
    0 <= i < flow.nodes@.len() && flow.nodes@[i].node_type@ == t && forall|k: int|
        0 <= k < i ==> flow.nodes@[k].node_type@ != t
}

/// The cache a unit starts with: the interaction, guild and translations globals.
pub open spec fn unit_globals() -> Map<PortAddr, Seq<char>> {
    Map::empty().insert(PortAddr::Global { key: "___interaction"@ }, "__INTERACTION__"@).insert(
        PortAddr::Global { key: "___guild"@ },
        "__INTERACTION__.guild"@,
    ).insert(PortAddr::Global { key: "___translations"@ }, "__TRANSLATIONS__"@)
}

/// How compiling `flow` from its start node fails before any action runs:
/// no start node; or a start node whose inputs fail on the fresh cache; or
/// a start node with no data wire to resolve whose type has no template.
pub open spec fn flow_failure(catalog: Seq<(Seq<char>, bool)>, flow: &DisbotterFlow, start: Seq<char>) -> Option<EarlyFailure> {
    if !has_node_of_type(flow, start) {
        Some(EarlyFailure::NoStart)
    } else {
        let s = choose|s: int| is_first_of_type(flow, start, s);
        let uid = flow.nodes@[s].uid@;
        match inputs_failure(unit_globals(), catalog, flow, uid) {
            Some(f) => Some(f),
            None => if producers_bound(unit_globals(), flow.connections@, uid) && !has_template(catalog, start) {
                Some(EarlyFailure::NotFound(start))
            } else {
                None
            },
        }
    }
}

/// How an action's failure is reported: a `ScriptError` as it is, any
/// other error as a `ScriptError` that describes it.
pub open spec fn wrapped_action_error(e: CompilerError) -> Seq<char> {
    error_label(e) + ": "@ + error_detail(e)
}

/// Reports an action's failure as a `ScriptError`.
fn wrap_action_error(e: CompilerError) -> (r: CompilerError)
    ensures
        r is ScriptError,
        e is ScriptError ==> r == e,
        !(e is ScriptError) ==> r->ScriptError_0@ == wrapped_action_error(e),
{
    match e {
        CompilerError::ScriptError(m) => CompilerError::ScriptError(m),
        other => {
            let msg = join2(&join2(other.kind_label(), ": "), &other.detail());
            CompilerError::ScriptError(msg)
        },
    }
}

proof fn lemma_unconnected_chain_empty(flow: &DisbotterFlow, uid: Seq<char>, key: Seq<char>, p: Seq<usize>)
    requires
        is_unconnected(flow, uid, key),
        is_chain(flow, uid, key, p),
    ensures
        p.len() == 0,
{
    if p.len() > 0 {
        let src = step_source(flow, uid, key, p, 0);
        assert(flows_to(flow, src.0, src.1, p[0] as int));
        let j = choose|j: int| #[trigger] is_first_leaving(flow, src.0, src.1, j) && flow.connections@[j].to_key@
            == flow_in_key() && is_first_node(flow, flow.connections@[j].to@, p[0] as int);
        assert(conn_leaves(flow, uid, key, j));
    }
}

proof fn lemma_first_unbound_unique(m: Map<PortAddr, Seq<char>>, flow: &DisbotterFlow, uid: Seq<char>, i: int)
    requires
        first_unbound_wire(m, flow, uid, i),
    ensures
        forall|j: int| first_unbound_wire(m, flow, uid, j) ==> j == i,
        (choose|j: int| first_unbound_wire(m, flow, uid, j)) == i,
{
    assert forall|j: int| first_unbound_wire(m, flow, uid, j) implies j == i by {
        if j < i {
            assert(m.contains_key(wire_source(flow, j)));
        } else if i < j {
            assert(m.contains_key(wire_source(flow, i)));
        }
    }
}

proof fn lemma_first_node_unique(flow: &DisbotterFlow, uid: Seq<char>, p: int)
    requires
        is_first_node(flow, uid, p),
    ensures
        (choose|q: int| is_first_node(flow, uid, q)) == p,
{
    let q = choose|q: int| is_first_node(flow, uid, q);
    if q < p {
        assert(flow.nodes@[q].uid@ != uid);
    } else if p < q {
        assert(flow.nodes@[p].uid@ != uid);
    }
}

proof fn lemma_first_of_type_unique(flow: &DisbotterFlow, t: Seq<char>, s: int)
    requires
        is_first_of_type(flow, t, s),
    ensures
        (choose|q: int| is_first_of_type(flow, t, q)) == s,
{
    let q = choose|q: int| is_first_of_type(flow, t, q);
    if q < s {
        assert(flow.nodes@[q].node_type@ != t);
    } else if s < q {
        assert(flow.nodes@[s].node_type@ != t);
    }
}

proof fn lemma_template_unique(catalog: Seq<(Seq<char>, bool)>, name: Seq<char>, t: int)
    requires
        is_template_for(catalog, name, t),
    ensures
        template_pure(catalog, name) == catalog[t].1,
{
    if template_pure(catalog, name) {
        let i = choose|i: int| is_template_for(catalog, name, i) && catalog[i].1;
        if i < t {
            assert(catalog[t].0 == name);
        } else if t < i {
            assert(catalog[i].0 == name);
        }
    }
}

impl<A: NodeAction> NodesJSCompiler<A> {
    /// Files generated so far.
    pub closed spec fn files(&self) -> Seq<ProgramFile> {
        self.program.files@
    }

    /// The project's commands.
    pub closed spec fn commands(&self) -> Seq<DisbotterProjectCommand> {
        self.project.content.commands@
    }

    /// What the wire at `port` connects to: for an input, the output of the
    /// first wire entering it; for an output, the input of the first wire
    /// leaving it; `None` when there is no such wire or the port is neither.
    pub fn get_flow_target(&self, flow: &DisbotterFlow, port: PortIdentifier) -> (r: Option<PortIdentifier>)
        ensures
            port@ matches PortAddr::Input { node_uid, port_key } ==> (r is None <==> is_unfed(
                flow,
                node_uid,
                port_key,
            )),
            port@ matches PortAddr::Input { node_uid, port_key } ==> (r matches Some(p) ==> exists|j: int|
                #[trigger] is_first_entering(flow, node_uid, port_key, j) && p@ == (PortAddr::Output {
                    node_uid: flow.connections@[j].from@,
                    port_key: flow.connections@[j].from_key@,
                })),
            port@ matches PortAddr::Output { node_uid, port_key } ==> (r is None <==> is_unconnected(
                flow,
                node_uid,
                port_key,
            )),
            port@ matches PortAddr::Output { node_uid, port_key } ==> (r matches Some(p) ==> exists|j: int|
                #[trigger] is_first_leaving(flow, node_uid, port_key, j) && p@ == (PortAddr::Input {
                    node_uid: flow.connections@[j].to@,
                    port_key: flow.connections@[j].to_key@,
                })),
            !(port@ is Input || port@ is Output) ==> r is None,
    {
        match &port {
            PortIdentifier::Input { node_uid, port_key } => {
                assert(port@ == (PortAddr::Input { node_uid: node_uid@, port_key: port_key@ }));
                match flow.find_entering(node_uid, port_key) {
                    None => None,
                    Some(j) => {
                        let c = &flow.connections[j];
                        let source = PortIdentifier::output(&c.from, &c.from_key);
                        assert(is_first_entering(flow, node_uid@, port_key@, j as int)
                            && source@ == (PortAddr::Output {
                                node_uid: flow.connections@[j as int].from@,
                                port_key: flow.connections@[j as int].from_key@,
                            }));
                        Some(source)
                    },
                }
            },
            PortIdentifier::Output { node_uid, port_key } => {
                assert(port@ == (PortAddr::Output { node_uid: node_uid@, port_key: port_key@ }));
                match flow.find_leaving(node_uid, port_key) {
                    None => None,
                    Some(j) => {
                        let c = &flow.connections[j];
                        let target = PortIdentifier::input(&c.to, &c.to_key);
                        assert(is_first_leaving(flow, node_uid@, port_key@, j as int)
                            && target@ == (PortAddr::Input {
                                node_uid: flow.connections@[j as int].to@,
                                port_key: flow.connections@[j as int].to_key@,
                            }));
                        assert(exists|jj: int| #[trigger] is_first_leaving(flow, node_uid@, port_key@, jj)
                            && target@ == (PortAddr::Input {
                                node_uid: flow.connections@[jj].to@,
                                port_key: flow.connections@[jj].to_key@,
                            }));
                        Some(target)
                    },
                }
            },
            _ => None,
        }
    }

    /// Resolves every input of `node`: each data wire's producer is
    /// compiled first where its output is not bound yet (pure producers
    /// inline, special nodes by their own rule), then each wired input is
    /// bound to its producer's output, then each unwired literal input to
    /// its literal.
    ///
    /// Fails with `NodeNotFound` for a producer type with no template that is
    /// not special, and with `InvalidPortIdentifier` for a wire whose
    /// producer is missing, impure and not compiled yet, part of a cycle of
    /// pure nodes, or leaves its output unbound. A failure decided before any
    /// producer is compiled leaves the builder as it was.
    pub fn map_node_inputs(&self, flow: &DisbotterFlow, node: &DisbotterFlowNode, builder: &mut CodeBuilder<A>) -> (r: Result<(), CompilerError>)
        ensures
            r is Ok ==> exists|mid: Map<PortAddr, Seq<char>>|
                #[trigger] bind_wires(mid, flow.connections@, node.uid@) matches Some(m)
                    && final(builder)@.cache == apply_hardcoded(m, node.input_hardcoded@, node.uid@),
            producers_bound(old(builder)@.cache, flow.connections@, node.uid@) ==> (r is Ok
                && final(builder)@ == resolved_state(old(builder)@, flow, node)),
            inputs_failure(old(builder)@.cache, self.catalog(), flow, node.uid@) matches Some(f) ==> (r is Err
                && matches_failure(r->Err_0, f) && final(builder)@ == old(builder)@),
            r matches Err(e) ==> !(e is NoStartNode),
    {
        self.map_node_inputs_within(flow, node, builder, flow.nodes.len())
    }

    fn map_node_inputs_within(
        &self,
        flow: &DisbotterFlow,
        node: &DisbotterFlowNode,
        builder: &mut CodeBuilder<A>,
        depth: usize,
    ) -> (r: Result<(), CompilerError>)
        ensures
            r is Ok ==> exists|mid: Map<PortAddr, Seq<char>>|
                #[trigger] bind_wires(mid, flow.connections@, node.uid@) matches Some(m)
                    && final(builder)@.cache == apply_hardcoded(m, node.input_hardcoded@, node.uid@),
            producers_bound(old(builder)@.cache, flow.connections@, node.uid@) ==> (r is Ok
                && final(builder)@ == resolved_state(old(builder)@, flow, node)),
            inputs_failure(old(builder)@.cache, self.catalog(), flow, node.uid@) matches Some(f) ==> (r is Err
                && matches_failure(r->Err_0, f) && final(builder)@ == old(builder)@),
            r matches Err(e) ==> !(e is NoStartNode),
        decreases depth, 0usize,
    {
        let ghost start = builder@;
        let ghost uid = node.uid@;
        proof {
            if producers_bound(start.cache, flow.connections@, uid) {
                lemma_bound_producers_reused(start.cache, flow.connections@, uid);
                assert(bound_before(start.cache, flow, uid, flow.connections@.len() as int));
            }
        }
        let mut i: usize = 0;
        while i < flow.connections.len()
            invariant
                i <= flow.connections@.len(),
                start == old(builder)@,
                uid == node.uid@,
                bound_before(start.cache, flow, uid, i as int) ==> builder@ == start,
                forall|j: int| 0 <= j < i && first_unbound_wire(start.cache, flow, uid, j) ==> wire_failure(
                    self.catalog(),
                    flow,
                    j,
                ) is None,
            decreases flow.connections@.len() - i,
        {
            let c = &flow.connections[i];
            let ghost was_bound = bound_before(start.cache, flow, uid, i as int);
            proof {
                if was_bound && !is_data_wire_into(flow, uid, i as int) {
                    assert(bound_before(start.cache, flow, uid, i + 1));
                }
            }
            if same_text(&c.to, &node.uid) && !same_text(&c.to_key, "__flow_in__") {
                let out = PortIdentifier::output(&c.from, &c.from_key);
                if !builder.var_cache().contains_key(&out) {
                    proof {
                        if was_bound {
                            assert(first_unbound_wire(start.cache, flow, uid, i as int));
                            lemma_first_unbound_unique(start.cache, flow, uid, i as int);
                        }
                    }
                    let p = match flow.find_node(&c.from) {
                        None => {
                            return Err(CompilerError::InvalidPortIdentifier(out));
                        },
                        Some(p) => p,
                    };
                    let producer = &flow.nodes[p];
                    proof {
                        if was_bound {
                            lemma_first_node_unique(flow, c.from@, p as int);
                        }
                    }
                    match self.find_template(&producer.node_type) {
                        None => {
                            match self.compile_special_node(builder, producer) {
                                Err(e) => {
                                    return Err(e);
                                },
                                Ok(false) => {
                                    return Err(CompilerError::NodeNotFound(producer.node_type.clone()));
                                },
                                Ok(true) => {},
                            }
                        },
                        Some(t) => {
                            proof {
                                lemma_template_unique(self.catalog(), producer.node_type@, t as int);
                            }
                            if !self.available_nodes[t].is_pure || depth == 0 {
                                return Err(CompilerError::InvalidPortIdentifier(out));
                            }
                            match self.compile_node_within(producer, flow, builder, depth - 1) {
                                Err(e) => {
                                    return Err(e);
                                },
                                Ok(()) => {},
                            }
                        },
                    }
                }
            }
            i = i + 1;
        }
        proof {
            if exists|j: int| first_unbound_wire(start.cache, flow, uid, j) {
                let j = choose|j: int| first_unbound_wire(start.cache, flow, uid, j);
                assert(0 <= j < flow.connections@.len());
            }
        }
        let ghost mid = builder@.cache;
        match builder.bind_wired_inputs(flow, node) {
            Err(e) => {
                return Err(e);
            },
            Ok(()) => {},
        }
        builder.map_hardcoded_inputs(node);
        assert(bind_wires(mid, flow.connections@, node.uid@) is Some);
        Ok(())
    }

    /// Gets `node` ready for its action: resolves its inputs, finds its
    /// template, and makes it the builder's current node. Gives the
    /// template's index, or `NodeNotFound` when its type has no template.
    pub fn prepare_node(&self, node: &DisbotterFlowNode, flow: &DisbotterFlow, builder: &mut CodeBuilder<A>) -> (r: Result<usize, CompilerError>)
        ensures
            r matches Ok(t) ==> is_template_for(self.catalog(), node.node_type@, t as int)
                && final(builder)@.node_id == node.uid@ && final(builder)@.node_type == node.node_type@,
            producers_bound(old(builder)@.cache, flow.connections@, node.uid@) ==> prepared(
                old(builder)@, self.catalog(), flow, node, r, final(builder)@),
            inputs_failure(old(builder)@.cache, self.catalog(), flow, node.uid@) matches Some(f) ==> (r is Err
                && matches_failure(r->Err_0, f) && final(builder)@ == old(builder)@),
            r matches Err(e) ==> !(e is NoStartNode),
    {
        self.prepare_node_within(node, flow, builder, flow.nodes.len())
    }

    fn prepare_node_within(
        &self,
        node: &DisbotterFlowNode,
        flow: &DisbotterFlow,
        builder: &mut CodeBuilder<A>,
        depth: usize,
    ) -> (r: Result<usize, CompilerError>)
        ensures
            r matches Ok(t) ==> is_template_for(self.catalog(), node.node_type@, t as int)
                && final(builder)@.node_id == node.uid@ && final(builder)@.node_type == node.node_type@,
            producers_bound(old(builder)@.cache, flow.connections@, node.uid@) ==> prepared(
                old(builder)@, self.catalog(), flow, node, r, final(builder)@),
            inputs_failure(old(builder)@.cache, self.catalog(), flow, node.uid@) matches Some(f) ==> (r is Err
                && matches_failure(r->Err_0, f) && final(builder)@ == old(builder)@),
            r matches Err(e) ==> !(e is NoStartNode),
        decreases depth, 1usize,
    {
        match self.map_node_inputs_within(flow, node, builder, depth) {
            Err(e) => {
                return Err(e);
            },
            Ok(()) => {},
        }
        let t = match self.find_template(&node.node_type) {
            None => {
                return Err(CompilerError::NodeNotFound(node.node_type.clone()));
            },
            Some(t) => t,
        };
        builder.enter_node(&node.uid, &node.node_type);
        Ok(t)
    }

    /// Compiles `node`: resolves its inputs, then runs its template's
    /// action with `node` as the builder's current node (see
    /// `prepare_node`). A failing action gives `ScriptError`, its own
    /// message kept, any other error described in the message.
    pub fn compile_node(&self, node: &DisbotterFlowNode, flow: &DisbotterFlow, builder: &mut CodeBuilder<A>) -> (r: Result<(), CompilerError>)
        ensures
            r is Ok ==> has_template(self.catalog(), node.node_type@),
            producers_bound(old(builder)@.cache, flow.connections@, node.uid@) && !has_template(
                self.catalog(),
                node.node_type@,
            ) ==> (r matches Err(CompilerError::NodeNotFound(t)) && t@ == node.node_type@),
            producers_bound(old(builder)@.cache, flow.connections@, node.uid@) && has_template(
                self.catalog(),
                node.node_type@,
            ) ==> (r is Ok || r->Err_0 is ScriptError),
            inputs_failure(old(builder)@.cache, self.catalog(), flow, node.uid@) matches Some(f) ==> (r is Err
                && matches_failure(r->Err_0, f) && final(builder)@ == old(builder)@),
            r matches Err(e) ==> !(e is NoStartNode),
    {
        self.compile_node_within(node, flow, builder, flow.nodes.len())
    }

    fn compile_node_within(
        &self,
        node: &DisbotterFlowNode,
        flow: &DisbotterFlow,
        builder: &mut CodeBuilder<A>,
        depth: usize,
    ) -> (r: Result<(), CompilerError>)
        ensures
            r is Ok ==> has_template(self.catalog(), node.node_type@),
            producers_bound(old(builder)@.cache, flow.connections@, node.uid@) && !has_template(
                self.catalog(),
                node.node_type@,
            ) ==> (r matches Err(CompilerError::NodeNotFound(t)) && t@ == node.node_type@),
            producers_bound(old(builder)@.cache, flow.connections@, node.uid@) && has_template(
                self.catalog(),
                node.node_type@,
            ) ==> (r is Ok || r->Err_0 is ScriptError),
            inputs_failure(old(builder)@.cache, self.catalog(), flow, node.uid@) matches Some(f) ==> (r is Err
                && matches_failure(r->Err_0, f) && final(builder)@ == old(builder)@),
            r matches Err(e) ==> !(e is NoStartNode),
        decreases depth, 2usize,
    {
        let t = match self.prepare_node_within(node, flow, builder, depth) {
            Err(e) => {
                return Err(e);
            },
            Ok(t) => t,
        };
        match self.available_nodes[t].call_action(builder) {
            Ok(()) => Ok(()),
            Err(e) => Err(wrap_action_error(e)),
        }
    }

    /// Compiles, in order, the nodes on the control-flow chain that starts
    /// at output `port` of `node`, up to the first control-flow output with
    /// no wire; with no wire at `port` itself nothing is compiled. A port
    /// that is not an output, or a chain that goes wrong (see
    /// `DisbotterFlow::flow_path`), fails before anything is compiled.
    pub fn compile_flow_from_port(
        &self,
        flow: &DisbotterFlow,
        builder: &mut CodeBuilder<A>,
        port: PortIdentifier,
        node: &DisbotterFlowNode,
    ) -> (r: Result<(), CompilerError>)
        ensures
            !(port@ is Output) ==> (r matches Err(CompilerError::InvalidPortIdentifier(p)) && p@ == port@
                && final(builder)@ == old(builder)@),
            port@ matches PortAddr::Output { port_key, .. } ==> ((forall|p: Seq<usize>| !is_full_chain(flow, node.uid@, port_key, p))
                ==> (r is Err && r->Err_0 is InvalidPortIdentifier && final(builder)@ == old(builder)@)),
            port@ matches PortAddr::Output { port_key, .. } ==> (is_unconnected(flow, node.uid@, port_key)
                ==> (r is Ok && final(builder)@ == old(builder)@)),
            r is Ok ==> port@ is Output && exists|p: Seq<usize>| is_full_chain(flow, node.uid@, port@->Output_port_key, p)
                && forall|k: int| 0 <= k < p.len() ==> has_template(self.catalog(), #[trigger] flow.nodes@[p[k] as int].node_type@),
            r matches Err(e) ==> !(e is NoStartNode),
    {
        let key = match &port {
            PortIdentifier::Output { port_key, .. } => port_key.clone(),
            _ => {
                return Err(CompilerError::InvalidPortIdentifier(port.duplicate()));
            },
        };
        let path = match flow.flow_path(&node.uid, &key, &port) {
            Err(e) => {
                proof {
                    if is_unconnected(flow, node.uid@, key@) {
                        let p = choose|p: Seq<usize>| is_chain(flow, node.uid@, key@, p) && chain_breaks_after(flow, node.uid@, key@, p);
                        lemma_unconnected_chain_empty(flow, node.uid@, key@, p);
                        let src = step_source(flow, node.uid@, key@, p, p.len() as int);
                        let j = choose|j: int| #[trigger] is_first_leaving(flow, src.0, src.1, j) && {
                            let c = flow.connections@[j];
                            ||| c.to_key@ != flow_in_key()
                            ||| !has_node(flow, c.to@)
                            ||| exists|n: int| is_first_node(flow, c.to@, n) && p.contains(n as usize)
                        };
                        assert(conn_leaves(flow, node.uid@, key@, j));
                    }
                }
                return Err(e);
            },
            Ok(p) => p,
        };
        proof {
            if is_unconnected(flow, node.uid@, key@) {
                lemma_unconnected_chain_empty(flow, node.uid@, key@, path@);
            }
        }
        let mut i: usize = 0;
        while i < path.len()
            invariant
                port@ is Output,
                port@->Output_port_key == key@,
                is_full_chain(flow, node.uid@, key@, path@),
                forall|k: int| 0 <= k < path@.len() ==> (path@[k] as int) < flow.nodes@.len(),
                forall|k: int| 0 <= k < i ==> has_template(self.catalog(), #[trigger] flow.nodes@[path@[k] as int].node_type@),
                i <= path@.len(),
                is_unconnected(flow, node.uid@, key@) ==> path@.len() == 0,
                i == 0 ==> builder@ == old(builder)@,
            decreases path@.len() - i,
        {
            match self.compile_node(&flow.nodes[path[i]], flow, builder) {
                Err(e) => {
                    return Err(e);
                },
                Ok(()) => {},
            }
            i = i + 1;
        }
        Ok(())
    }

    /// Compiles `flow` from its first node of type `start_node_id`: starts
    /// a fresh unit (see `CodeBuilder::start_unit`), compiles the start
    /// node, then the chain after its control-flow output. `NoStartNode`
    /// comes exactly when no node has that type, and then the builder is
    /// untouched.
    pub fn compile_flow(&self, flow: &DisbotterFlow, builder: &mut CodeBuilder<A>, start_node_id: &str) -> (r: Result<(), CompilerError>)
        ensures
            !has_node_of_type(flow, start_node_id@) ==> (r == Err::<(), CompilerError>(CompilerError::NoStartNode)
                && final(builder)@ == old(builder)@),
            r matches Err(e) && e is NoStartNode ==> !has_node_of_type(flow, start_node_id@),
            flow_failure(self.catalog(), flow, start_node_id@) matches Some(f) ==> (r is Err && matches_failure(r->Err_0, f)),
    {
        let s = match find_node_of_type(flow, start_node_id) {
            None => {
                return Err(CompilerError::NoStartNode);
            },
            Some(s) => s,
        };
        builder.set_current_flow(flow.clone());
        let start_node = &flow.nodes[s];
        builder.start_unit();
        proof {
            lemma_first_of_type_unique(flow, start_node_id@, s as int);
        }
        match self.compile_node(start_node, flow, builder) {
            Err(e) => {
                return Err(e);
            },
            Ok(()) => {},
        }
        self.compile_flow_from_port(flow, builder, start_node.get_port_out("__flow_out__"), start_node)
    }
}


impl<A: NodeAction> NodesJSCompiler<A> {
    /// A copy of the flow being compiled, if any.
    pub fn flow_being_compiled(&self) -> Option<DisbotterFlow> {
        self.current_flow.clone()
    }

    /// Compiles `command` into `commands/<name>.ts`: the class header with
    /// its options, the handler with the command's flow inside, the closing
    /// lines, the imports and the banner. The file is added to the program
    /// only when the whole unit compiles.
    pub fn compile_command(&mut self, command: &DisbotterProjectCommand) -> (r: Result<(), CompilerError>)
        ensures
            final(self).catalog() == old(self).catalog(),
            r is Err ==> final(self).files() == old(self).files(),
            r is Ok ==> final(self).files().len() == old(self).files().len() + 1
                && final(self).files().subrange(0, old(self).files().len() as int) == old(self).files()
                && final(self).files().last().path@ == command_path(command.name@)
                && exists|body: Seq<Seq<char>>, n: nat| final(self).files().last().code@ == joined_lines(
                    command_file_lines(body, n),
                ),
            (exists|i: int| first_unknown_kind(command.options@, i)) ==> (r is Err && r->Err_0 is BadContext
                && exists|i: int| first_unknown_kind(command.options@, i) && r->Err_0->BadContext_0@
                    == unknown_kind_message(command.options@[i].option_type)),
            command_failure(old(self).catalog(), *command) matches Some(f) ==> (r is Err && matches_failure(r->Err_0, f)),
    {
        let header = match command_header_lines(command) {
            Err(e) => {
                return Err(e);
            },
            Ok(h) => h,
        };
        proof {
            if exists|i: int| first_unknown_kind(command.options@, i) {
                let i = choose|i: int| first_unknown_kind(command.options@, i);
                assert(!is_known_kind(command.options@[i].option_type));
            }
        }
        self.current_command = Some(command.clone());
        self.current_flow = Some(command.flow.clone());
        let path = join2(&join2("commands/", &command.name), ".ts");
        let mut builder = CodeBuilder::new(path.clone(), self.get_cloned_compiler());
        builder.add_lines(header);
        let mut tail: Vec<String> = Vec::new();
        tail.push(String::new());
        tail.push(owned(
            "   public async handle(__TRANSLATIONS__: LocalizedTranslations, __INTERACTION__: CommandInteraction): Promise<void> {",
        ));
        builder.add_lines(tail);
        builder.increase_ident_by(2);
        match self.compile_flow(&command.flow, &mut builder, "__start__") {
            Err(e) => {
                return Err(e);
            },
            Ok(()) => {},
        }
        let ind = builder.indentation();
        if ind >= 2 {
            builder.decrease_ident_by(2);
        } else {
            builder.decrease_ident_by(ind);
        }
        let ghost body = builder@.lines;
        let ghost n = builder@.indent;
        let mut closing: Vec<String> = Vec::new();
        closing.push(owned("   }"));
        closing.push(owned("}"));
        let ghost closing_view = closing@;
        builder.add_lines(closing);
        builder.add_import(owned("CommandInteraction, SlashCommandBuilder"), owned("discord.js"));
        builder.add_import(owned("Command, LocalizedTranslations"), owned("disbotter"));
        builder.add_on_top(owned("// @ts-nocheck"));
        builder.add_on_top(owned("// This file is automatically generated by Disbotter"));
        assert(closing_view.map_values(|l: String| indented(n, l@)) =~= seq![indented(n, "   }"@), indented(n, "}"@)]);
        assert(builder@.lines =~= command_file_lines(body, n));
        let code = builder.finalize().code;
        let ghost before = self.program.files@;
        self.program.add_file(ProgramFile { code, path });
        assert(self.files().subrange(0, before.len() as int) =~= before);
        Ok(())
    }

    /// Compiles every command of the project, in order. A command that
    /// fails adds no file and is reported with its error; the others are
    /// compiled all the same.
    pub fn compile_project(self) -> (r: (Program, Vec<CommandFailure>))
        ensures
            r.0.files@.len() + r.1@.len() == self.files().len() + self.commands().len(),
            r.0.files@.subrange(0, self.files().len() as int) == self.files(),
            forall|i: int| self.files().len() <= i < r.0.files@.len() ==> is_command_path(self.commands(), #[trigger] r.0.files@[i].path@),
            forall|i: int| 0 <= i < r.1@.len() ==> is_command_name(self.commands(), #[trigger] r.1@[i].command@),
            forall|j: int| 0 <= j < self.commands().len() ==> (command_failure(self.catalog(), #[trigger] self.commands()[j]) matches Some(f)
                ==> exists|k: int| 0 <= k < r.1@.len() && r.1@[k].command@ == self.commands()[j].name@
                    && matches_failure(r.1@[k].error, f)),
    {
        let ghost cmds = self.commands();
        let ghost start = self.files();
        let ghost cat = self.catalog();
        let mut compiler = self;
        let mut commands: Vec<DisbotterProjectCommand> = Vec::new();
        std::mem::swap(&mut compiler.project.content.commands, &mut commands);
        let mut failures: Vec<CommandFailure> = Vec::new();
        let mut i: usize = 0;
        while i < commands.len()
            invariant
                commands@ == cmds,
                i <= cmds.len(),
                compiler.files().len() + failures@.len() == start.len() + i,
                start.len() <= compiler.files().len(),
                compiler.files().subrange(0, start.len() as int) == start,
                forall|k: int| start.len() <= k < compiler.files().len() ==> is_command_path(cmds, #[trigger] compiler.files()[k].path@),
                forall|k: int| 0 <= k < failures@.len() ==> is_command_name(cmds, #[trigger] failures@[k].command@),
                compiler.catalog() == cat,
                forall|j: int| 0 <= j < i ==> (command_failure(cat, #[trigger] cmds[j]) matches Some(f)
                    ==> exists|k: int| 0 <= k < failures@.len() && failures@[k].command@ == cmds[j].name@
                        && matches_failure(failures@[k].error, f)),
            decreases cmds.len() - i,
        {
            let command = &commands[i];
            let ghost before = compiler.files();
            match compiler.compile_command(command) {
                Ok(()) => {
                    proof {
                        let after = compiler.files();
                        assert forall|k: int| start.len() <= k < after.len() implies is_command_path(cmds, #[trigger] after[k].path@) by {
                            if k < before.len() {
                                assert(after[k] == after.subrange(0, before.len() as int)[k]);
                            } else {
                                assert(after[k].path@ == command_path(cmds[i as int].name@));
                                assert(is_command_path(cmds, after[k].path@));
                            }
                        }
                        assert(after.subrange(0, start.len() as int) =~= after.subrange(0, before.len() as int).subrange(0, start.len() as int));
                        assert(after.subrange(0, before.len() as int) == before);
                    }
                },
                Err(e) => {
                    let ghost before_failures = failures@;
                    failures.push(CommandFailure { command: command.name.clone(), error: e });
                    proof {
                        assert forall|j: int| 0 <= j < i + 1 implies (command_failure(cat, #[trigger] cmds[j]) matches Some(f)
                            ==> exists|k: int| 0 <= k < failures@.len() && failures@[k].command@ == cmds[j].name@
                                && matches_failure(failures@[k].error, f)) by {
                            if j < i {
                                if let Some(f) = command_failure(cat, cmds[j]) {
                                    let k = choose|k: int| 0 <= k < before_failures.len() && before_failures[k].command@ == cmds[j].name@
                                        && matches_failure(before_failures[k].error, f);
                                    assert(failures@[k] == before_failures[k]);
                                }
                            } else {
                                if let Some(f) = command_failure(cat, cmds[j]) {
                                    assert(failures@[before_failures.len() as int].command@ == cmds[j].name@);
                                }
                            }
                        }
                        assert forall|k: int| 0 <= k < failures@.len() implies is_command_name(cmds, #[trigger] failures@[k].command@) by {
                            if k < before_failures.len() {
                                assert(failures@[k] == before_failures[k]);
                            } else {
                                assert(failures@[k].command@ == cmds[i as int].name@);
                                assert(is_command_name(cmds, failures@[k].command@));
                            }
                        }
                    }
                },
            }
            i = i + 1;
        }
        assert(compiler.program.files@ == compiler.files());
        (compiler.program, failures)
    }
}

} // verus!
