use disbotter_generator::builder::CodeBuilder;
use disbotter_generator::compiler::{AvailableNode, NodeAction, NodesJSCompiler};
use disbotter_generator::error::CompilerError;
use disbotter_generator::port::PortIdentifier;
use disbotter_generator::flow::{DisbotterFlow, DisbotterFlowConnection, DisbotterFlowNode, HardcodedValue};
use disbotter_generator::project::{
    DisbotterProjectCommand, DisbotterProjectCommandOption, DisbotterProjectContent, DisbotterProjectData,
    DisbotterProjectMetadata,
};

#[derive(Clone)]
enum Act {
    Nothing,
    Emit(String),
    SetOut(String, String),
    UseInput(String, String),
    Branch(String),
    Fail(String),
}

impl NodeAction for Act {
    fn run(&self, b: &mut CodeBuilder<Self>) -> Result<(), CompilerError> {
        match self {
            Act::Nothing => Ok(()),
            Act::Emit(l) => {
                b.add_line(l.clone());
                Ok(())
            }
            Act::SetOut(port, expr) => {
                b.set_output(port.clone(), expr.clone());
                Ok(())
            }
            Act::UseInput(input, prefix) => {
                let v = b.get_in_var(input.clone());
                b.add_line(format!("{}{});", prefix, v));
                Ok(())
            }
            Act::Branch(port) => {
                b.add_line("if (c) {".to_string());
                b.begin_block();
                let r = b.compile_flow_output_here(port.clone());
                b.end_block();
                b.add_line("}".to_string());
                r
            }
            Act::Fail(msg) => Err(CompilerError::ScriptError(msg.clone())),
        }
    }
}

fn node(uid: &str, ty: &str) -> DisbotterFlowNode {
    DisbotterFlowNode { uid: uid.to_string(), node_type: ty.to_string(), input_hardcoded: vec![] }
}

fn wire(from: &str, from_key: &str, to: &str, to_key: &str) -> DisbotterFlowConnection {
    DisbotterFlowConnection {
        connection_type: 0,
        from: from.to_string(),
        to: to.to_string(),
        from_key: from_key.to_string(),
        to_key: to_key.to_string(),
    }
}

fn command(name: &str, flow: DisbotterFlow) -> DisbotterProjectCommand {
    DisbotterProjectCommand {
        uid: format!("uid-{}", name),
        name: name.to_string(),
        description: "desc".to_string(),
        flow,
        options: vec![],
    }
}

fn project(commands: Vec<DisbotterProjectCommand>) -> DisbotterProjectData {
    DisbotterProjectData {
        metadata: DisbotterProjectMetadata { name: "p".to_string() },
        content: DisbotterProjectContent { commands },
    }
}

fn template(id: &str, pure: bool, action: Act) -> AvailableNode<Act> {
    AvailableNode { id: id.to_string(), action, is_pure: pure }
}

fn catalog() -> Vec<AvailableNode<Act>> {
    vec![
        template("__start__", false, Act::Nothing),
        template("emit_v", false, Act::Emit("const v = 1;".to_string())),
        template("sum", true, Act::SetOut("value".to_string(), "1 + 2".to_string())),
        template("log", false, Act::UseInput("x".to_string(), "console.log(".to_string())),
        template("say", false, Act::UseInput("msg".to_string(), "say(".to_string())),
        template("if", false, Act::Branch("then".to_string())),
        template("boom", false, Act::Fail("exploded".to_string())),
    ]
}

fn compiler_for(commands: Vec<DisbotterProjectCommand>) -> NodesJSCompiler<Act> {
    let mut c = NodesJSCompiler::new(project(commands));
    c.add_available_nodes_from_vec(catalog());
    c
}

fn trimmed_lines(code: &str) -> Vec<String> {
    code.lines().map(|l| l.trim().to_string()).collect()
}

#[test]
fn scenario_single_impure_node() {
    let flow = DisbotterFlow {
        nodes: vec![node("s", "__start__"), node("n", "emit_v")],
        connections: vec![wire("s", "__flow_out__", "n", "__flow_in__")],
    };
    let (program, failures) = compiler_for(vec![command("hello", flow)]).compile_project();
    assert!(failures.is_empty());
    assert_eq!(program.files.len(), 1);
    assert_eq!(program.files[0].path, "commands/hello.ts");
    let lines = trimmed_lines(&program.files[0].code);
    assert_eq!(lines.iter().filter(|l| l.as_str() == "const v = 1;").count(), 1);
    assert_eq!(lines[0], "// This file is automatically generated by Disbotter");
    assert_eq!(lines[1], "// @ts-nocheck");
    assert_eq!(lines[2], "import {Command, LocalizedTranslations} from \"disbotter\"");
    assert_eq!(lines[3], "import {CommandInteraction, SlashCommandBuilder} from \"discord.js\"");
    assert!(program.files[0].code.contains("\n        const v = 1;\n"));
}

#[test]
fn scenario_pure_producer_inlined_before_consumer() {
    let flow = DisbotterFlow {
        nodes: vec![node("s", "__start__"), node("m", "log"), node("p", "sum")],
        connections: vec![wire("s", "__flow_out__", "m", "__flow_in__"), wire("p", "value", "m", "x")],
    };
    let (program, failures) = compiler_for(vec![command("c", flow)]).compile_project();
    assert!(failures.is_empty());
    let lines = trimmed_lines(&program.files[0].code);
    let def = lines.iter().position(|l| l.starts_with("const __io_Nsum_Ovalue_")).unwrap();
    let var = lines[def].trim_start_matches("const ").split(' ').next().unwrap().to_string();
    assert_eq!(lines[def], format!("const {} = 1 + 2", var));
    assert_eq!(lines[def + 1], format!("console.log({});", var));
}

#[test]
fn scenario_literal_input_is_quoted() {
    let mut say = node("m", "say");
    say.input_hardcoded.push(("msg".to_string(), HardcodedValue::Text("hello".to_string())));
    let flow = DisbotterFlow {
        nodes: vec![node("s", "__start__"), say],
        connections: vec![wire("s", "__flow_out__", "m", "__flow_in__")],
    };
    let (program, failures) = compiler_for(vec![command("c", flow)]).compile_project();
    assert!(failures.is_empty());
    assert!(trimmed_lines(&program.files[0].code).contains(&"say(\"hello\");".to_string()));
}

#[test]
fn scenario_unregistered_producer_fails_unit() {
    let flow = DisbotterFlow {
        nodes: vec![node("s", "__start__"), node("m", "log"), node("p", "mystery")],
        connections: vec![wire("s", "__flow_out__", "m", "__flow_in__"), wire("p", "value", "m", "x")],
    };
    let (program, failures) = compiler_for(vec![command("c", flow)]).compile_project();
    assert_eq!(program.files.len(), 0);
    assert_eq!(failures.len(), 1);
    assert_eq!(failures[0].error, CompilerError::NodeNotFound("mystery".to_string()));
}

#[test]
fn scenario_missing_start_isolated() {
    let broken = DisbotterFlow { nodes: vec![node("n", "emit_v")], connections: vec![] };
    let good = DisbotterFlow {
        nodes: vec![node("s", "__start__"), node("n", "emit_v")],
        connections: vec![wire("s", "__flow_out__", "n", "__flow_in__")],
    };
    let (program, failures) = compiler_for(vec![command("bad", broken), command("good", good)]).compile_project();
    assert_eq!(failures.len(), 1);
    assert_eq!(failures[0].command, "bad");
    assert_eq!(failures[0].error, CompilerError::NoStartNode);
    assert_eq!(program.files.len(), 1);
    assert_eq!(program.files[0].path, "commands/good.ts");
}

#[test]
fn pure_output_compiled_once_for_two_consumers() {
    let flow = DisbotterFlow {
        nodes: vec![node("s", "__start__"), node("m1", "log"), node("m2", "log"), node("p", "sum")],
        connections: vec![
            wire("s", "__flow_out__", "m1", "__flow_in__"),
            wire("m1", "__flow_out__", "m2", "__flow_in__"),
            wire("p", "value", "m1", "x"),
            wire("p", "value", "m2", "x"),
        ],
    };
    let (program, _) = compiler_for(vec![command("c", flow)]).compile_project();
    let lines = trimmed_lines(&program.files[0].code);
    let defs: Vec<&String> = lines.iter().filter(|l| l.starts_with("const __io_Nsum_Ovalue_")).collect();
    assert_eq!(defs.len(), 1);
    let var = defs[0].trim_start_matches("const ").split(' ').next().unwrap().to_string();
    assert_eq!(lines.iter().filter(|l| **l == format!("console.log({});", var)).count(), 2);
}

#[test]
fn wire_wins_over_literal_default() {
    let mut m = node("m", "log");
    m.input_hardcoded.push(("x".to_string(), HardcodedValue::Number("5".to_string())));
    let flow = DisbotterFlow {
        nodes: vec![node("s", "__start__"), m, node("p", "sum")],
        connections: vec![wire("s", "__flow_out__", "m", "__flow_in__"), wire("p", "value", "m", "x")],
    };
    let (program, _) = compiler_for(vec![command("c", flow)]).compile_project();
    let lines = trimmed_lines(&program.files[0].code);
    assert!(!lines.contains(&"console.log(5);".to_string()));
    assert!(lines.iter().any(|l| l.starts_with("console.log(__io_Nsum_Ovalue_")));
}

#[test]
fn global_shadows_unwired_input() {
    let compiler = compiler_for(vec![]);
    let mut b = CodeBuilder::new("f.ts".to_string(), compiler.get_cloned_compiler());
    let mut n = node("n", "log");
    n.input_hardcoded.push(("x".to_string(), HardcodedValue::Text("local".to_string())));
    let flow = DisbotterFlow { nodes: vec![n.clone()], connections: vec![] };
    b.add_var("x".to_string(), "GLOBAL".to_string());
    compiler.map_node_inputs(&flow, &n, &mut b).unwrap();
    b.enter_node("n", "log");
    assert_eq!(b.get_in_var("x".to_string()), "GLOBAL");
    assert_eq!(b.get_in_var("y".to_string()), "undefined");
}

#[test]
fn block_scope_drops_inner_bindings() {
    let compiler = compiler_for(vec![]);
    let mut b = CodeBuilder::new("f.ts".to_string(), compiler);
    b.enter_node("n", "t");
    b.map_io("before".to_string(), "outer".to_string());
    b.begin_block();
    assert_eq!(b.indentation(), 1);
    assert_eq!(b.get_out_var("before".to_string()), "outer");
    b.map_io("inside".to_string(), "inner".to_string());
    assert_eq!(b.get_out_var("inside".to_string()), "inner");
    b.end_block();
    assert_eq!(b.indentation(), 0);
    assert_eq!(b.block_depth(), 0);
    assert_eq!(b.get_out_var("before".to_string()), "outer");
    let fresh = b.get_out_var("inside".to_string());
    assert_ne!(fresh, "inner");
    assert!(fresh.starts_with("__io_Nt_Oinside_"));
}

#[test]
fn branch_is_spliced_in_place() {
    let flow = DisbotterFlow {
        nodes: vec![node("s", "__start__"), node("i", "if"), node("n", "emit_v")],
        connections: vec![wire("s", "__flow_out__", "i", "__flow_in__"), wire("i", "then", "n", "__flow_in__")],
    };
    let (program, failures) = compiler_for(vec![command("c", flow)]).compile_project();
    assert!(failures.is_empty());
    let raw: Vec<&str> = program.files[0].code.lines().collect();
    let at = raw.iter().position(|l| *l == "        if (c) {").unwrap();
    assert_eq!(raw[at + 1], "            const v = 1;");
    assert_eq!(raw[at + 2], "        }");
}

#[test]
fn flow_chain_stops_at_unconnected_output() {
    let flow = DisbotterFlow {
        nodes: vec![node("s", "__start__"), node("a", "emit_v"), node("b", "emit_v"), node("c", "emit_v")],
        connections: vec![wire("s", "__flow_out__", "a", "__flow_in__"), wire("a", "__flow_out__", "b", "__flow_in__")],
    };
    let origin = flow.nodes[0].get_port_out("__flow_out__");
    assert_eq!(flow.flow_path("s", "__flow_out__", &origin).unwrap(), vec![1, 2]);
}

#[test]
fn flow_chain_cycle_is_an_error() {
    let flow = DisbotterFlow {
        nodes: vec![node("s", "__start__"), node("a", "emit_v"), node("b", "emit_v")],
        connections: vec![
            wire("s", "__flow_out__", "a", "__flow_in__"),
            wire("a", "__flow_out__", "b", "__flow_in__"),
            wire("b", "__flow_out__", "a", "__flow_in__"),
        ],
    };
    let origin = flow.nodes[0].get_port_out("__flow_out__");
    assert!(matches!(flow.flow_path("s", "__flow_out__", &origin), Err(CompilerError::InvalidPortIdentifier(_))));
}

#[test]
fn flow_wire_into_data_input_is_an_error() {
    let flow = DisbotterFlow {
        nodes: vec![node("s", "__start__"), node("a", "emit_v")],
        connections: vec![wire("s", "__flow_out__", "a", "x")],
    };
    let (program, failures) = compiler_for(vec![command("c", flow)]).compile_project();
    assert_eq!(program.files.len(), 0);
    assert!(matches!(failures[0].error, CompilerError::InvalidPortIdentifier(_)));
}

#[test]
fn impure_producer_on_data_wire_is_an_error() {
    let flow = DisbotterFlow {
        nodes: vec![node("s", "__start__"), node("m", "log"), node("p", "emit_v")],
        connections: vec![wire("s", "__flow_out__", "m", "__flow_in__"), wire("p", "value", "m", "x")],
    };
    let (_, failures) = compiler_for(vec![command("c", flow)]).compile_project();
    assert!(matches!(failures[0].error, CompilerError::InvalidPortIdentifier(_)));
}

#[test]
fn special_option_node_reads_option() {
    let flow = DisbotterFlow {
        nodes: vec![node("s", "__start__"), node("m", "log"), node("o", "___special_get_option_user___")],
        connections: vec![wire("s", "__flow_out__", "m", "__flow_in__"), wire("o", "value", "m", "x")],
    };
    let mut cmd = command("c", flow);
    cmd.options.push(DisbotterProjectCommandOption {
        name: "user".to_string(),
        description: "who".to_string(),
        option_type: 1,
        required: true,
        choices: vec![],
    });
    let (program, failures) = compiler_for(vec![cmd]).compile_project();
    assert!(failures.is_empty());
    let lines = trimmed_lines(&program.files[0].code);
    assert!(lines.contains(&"let __get_option_user = __INTERACTION__.options.getUser(\"user\");".to_string()));
    assert!(lines.contains(&"console.log(__get_option_user);".to_string()));
    assert!(program.files[0].code.contains(
        "\t\t.addUserOption(option => option\n\t\t\t.setName(\"user\")\n\t\t\t.setDescription(\"who\")\n\t\t\t.setRequired(true)\n\t\t)"
    ));
}

#[test]
fn special_option_node_unknown_option() {
    let flow = DisbotterFlow {
        nodes: vec![node("s", "__start__"), node("m", "log"), node("o", "___special_get_option_nope___")],
        connections: vec![wire("s", "__flow_out__", "m", "__flow_in__"), wire("o", "value", "m", "x")],
    };
    let (_, failures) = compiler_for(vec![command("c", flow)]).compile_project();
    assert_eq!(
        failures[0].error,
        CompilerError::BadContext("Cannot get option \"nope\" because it does not exist".to_string())
    );
}

#[test]
fn unknown_option_kind_is_bad_context() {
    let flow = DisbotterFlow { nodes: vec![node("s", "__start__")], connections: vec![] };
    let mut cmd = command("c", flow);
    cmd.options.push(DisbotterProjectCommandOption {
        name: "o".to_string(),
        description: "d".to_string(),
        option_type: 7,
        required: false,
        choices: vec![],
    });
    let (program, failures) = compiler_for(vec![cmd]).compile_project();
    assert_eq!(program.files.len(), 0);
    assert_eq!(failures[0].error, CompilerError::BadContext("Unknown option type: 7".to_string()));
}

#[test]
fn action_failure_is_script_error() {
    let flow = DisbotterFlow {
        nodes: vec![node("s", "__start__"), node("b", "boom")],
        connections: vec![wire("s", "__flow_out__", "b", "__flow_in__")],
    };
    let (program, failures) = compiler_for(vec![command("c", flow)]).compile_project();
    assert_eq!(program.files.len(), 0);
    assert_eq!(failures[0].error, CompilerError::ScriptError("exploded".to_string()));
}

#[test]
fn failing_branch_adds_no_lines() {
    let flow = DisbotterFlow {
        nodes: vec![node("s", "__start__"), node("i", "if"), node("b", "boom")],
        connections: vec![wire("s", "__flow_out__", "i", "__flow_in__"), wire("i", "then", "b", "__flow_in__")],
    };
    let compiler = compiler_for(vec![]);
    let mut b = CodeBuilder::new("f.ts".to_string(), compiler.get_cloned_compiler());
    b.set_current_flow(flow.clone());
    b.enter_node("i", "if");
    b.add_line("start".to_string());
    let r = b.compile_flow_output_here("then".to_string());
    assert_eq!(r, Err(CompilerError::ScriptError("exploded".to_string())));
    assert_eq!(b.get_lines(), &vec!["start".to_string()]);
    assert_eq!(b.current_node_id(), "i");
}

#[test]
fn flow_target_both_directions() {
    let flow = DisbotterFlow {
        nodes: vec![node("a", "x"), node("b", "y")],
        connections: vec![wire("a", "out", "b", "in")],
    };
    let c = compiler_for(vec![]);
    assert_eq!(c.get_flow_target(&flow, PortIdentifier::output("a", "out")), Some(PortIdentifier::input("b", "in")));
    assert_eq!(c.get_flow_target(&flow, PortIdentifier::input("b", "in")), Some(PortIdentifier::output("a", "out")));
    assert_eq!(c.get_flow_target(&flow, PortIdentifier::output("b", "out")), None);
    assert_eq!(c.get_flow_target(&flow, PortIdentifier::global("a")), None);
}

#[test]
fn duplicate_template_names_replace() {
    let mut c = compiler_for(vec![]);
    c.add_available_nodes_from_vec(vec![template("emit_v", false, Act::Emit("const w = 2;".to_string()))]);
    let flow = DisbotterFlow {
        nodes: vec![node("s", "__start__"), node("n", "emit_v")],
        connections: vec![wire("s", "__flow_out__", "n", "__flow_in__")],
    };
    let mut b = CodeBuilder::new("f.ts".to_string(), c.get_cloned_compiler());
    c.compile_flow(&flow, &mut b, "__start__").unwrap();
    assert_eq!(b.get_lines(), &vec!["const w = 2;".to_string()]);
    let file = b.finalize();
    assert_eq!(file.code, "const w = 2;\n");
    assert_eq!(file.path, "f.ts");
}

#[test]
fn compile_flow_without_start_leaves_builder() {
    let c = compiler_for(vec![]);
    let flow = DisbotterFlow { nodes: vec![node("n", "emit_v")], connections: vec![] };
    let mut b = CodeBuilder::new("f.ts".to_string(), c.get_cloned_compiler());
    b.add_var("k".to_string(), "v".to_string());
    assert_eq!(c.compile_flow(&flow, &mut b, "__start__"), Err(CompilerError::NoStartNode));
    assert_eq!(b.get_global_var("k".to_string()), Some("v".to_string()));
    assert!(b.get_lines().is_empty());
}

#[test]
fn branch_failure_comes_back_wrapped() {
    let flow = DisbotterFlow {
        nodes: vec![node("s", "__start__"), node("i", "if"), node("n", "mystery")],
        connections: vec![wire("s", "__flow_out__", "i", "__flow_in__"), wire("i", "then", "n", "__flow_in__")],
    };
    let (program, failures) = compiler_for(vec![command("c", flow)]).compile_project();
    assert_eq!(program.files.len(), 0);
    assert_eq!(failures[0].error, CompilerError::ScriptError("Node not found: mystery".to_string()));
}

#[test]
fn unwired_branch_adds_nothing() {
    let flow = DisbotterFlow { nodes: vec![node("i", "if")], connections: vec![] };
    let compiler = compiler_for(vec![]);
    let mut b = CodeBuilder::new("f.ts".to_string(), compiler.get_cloned_compiler());
    b.set_current_flow(flow.clone());
    b.enter_node("i", "if");
    b.add_line("start".to_string());
    assert_eq!(b.compile_flow_output_here("then".to_string()), Ok(()));
    assert_eq!(b.get_lines(), &vec!["start".to_string()]);
}

#[test]
fn branch_without_flow_is_bad_context() {
    let compiler = compiler_for(vec![]);
    let mut b = CodeBuilder::new("f.ts".to_string(), compiler.get_cloned_compiler());
    b.enter_node("i", "if");
    assert!(matches!(b.compile_flow_output_here("then".to_string()), Err(CompilerError::BadContext(_))));
}

#[test]
fn unconnected_port_compiles_nothing() {
    let flow = DisbotterFlow { nodes: vec![node("s", "__start__")], connections: vec![] };
    let c = compiler_for(vec![]);
    let mut b = CodeBuilder::new("f.ts".to_string(), c.get_cloned_compiler());
    let port = flow.nodes[0].get_port_out("__flow_out__");
    assert_eq!(c.compile_flow_from_port(&flow, &mut b, port, &flow.nodes[0]), Ok(()));
    assert!(b.get_lines().is_empty());
}
