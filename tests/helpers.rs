use disbotter_generator::builder::get_raw_value;
use disbotter_generator::cache::VarCache;
use disbotter_generator::compiler::command_header_lines;
use disbotter_generator::error::CompilerError;
use disbotter_generator::flow::{DisbotterFlow, HardcodedValue};
use disbotter_generator::loader::{DataType, KeyMap, NodeIO};
use disbotter_generator::port::PortIdentifier;
use disbotter_generator::project::{DisbotterProjectCommand, DisbotterProjectCommandOption};
use disbotter_generator::text::{int_to_text, remove_all_of, starts_with, indentation};

#[test]
fn raw_values_render() {
    assert_eq!(get_raw_value(&HardcodedValue::Text("hi".to_string())), "\"hi\"");
    assert_eq!(get_raw_value(&HardcodedValue::Number("2.5".to_string())), "2.5");
    assert_eq!(get_raw_value(&HardcodedValue::Boolean(true)), "true");
    assert_eq!(get_raw_value(&HardcodedValue::Boolean(false)), "false");
    assert_eq!(get_raw_value(&HardcodedValue::Other), "");
}

#[test]
fn text_helpers() {
    assert_eq!(int_to_text(-42), "-42");
    assert_eq!(int_to_text(0), "0");
    assert_eq!(int_to_text(i32::MIN), "-2147483648");
    assert_eq!(remove_all_of("___a___b", "___"), "ab");
    assert_eq!(remove_all_of("aaaa", "aa"), "");
    assert!(starts_with("___special_x", "___special_"));
    assert!(!starts_with("__s", "___"));
    assert_eq!(indentation(2), "        ");
}

#[test]
fn port_identity_and_text() {
    let a = PortIdentifier::input("n", "k");
    let b = PortIdentifier::output("n", "k");
    assert!(!a.same_as(&b));
    assert!(a.same_as(&PortIdentifier::input("n", "k")));
    assert_eq!(a.to_text(), "Input: n -> k");
    assert_eq!(PortIdentifier::global("g").to_text(), "Global: g");
    let c = PortIdentifier::CompTime { node_uid: "n".to_string(), port_key: "k".to_string(), data_key: "d".to_string() };
    assert_eq!(c.to_text(), "CompTime: n -> k (d)");
}

#[test]
fn cache_insert_replace_snapshot() {
    let mut c = VarCache::new();
    c.insert(PortIdentifier::global("x"), "a".to_string());
    c.insert(PortIdentifier::global("x"), "b".to_string());
    c.insert(PortIdentifier::input("n", "x"), "c".to_string());
    assert_eq!(c.len(), 2);
    assert_eq!(c.get(&PortIdentifier::global("x")), Some("b".to_string()));
    let snap = c.snapshot();
    c.clear();
    assert!(!c.contains_key(&PortIdentifier::global("x")));
    assert_eq!(snap.get(&PortIdentifier::input("n", "x")), Some("c".to_string()));
}

#[test]
fn keymap_orders_keys_by_index() {
    let m = KeyMap::from_map_and_keymap(
        vec![("a".to_string(), 1), ("b".to_string(), 2), ("c".to_string(), 3)],
        vec![("a".to_string(), 100), ("b".to_string(), 0), ("c".to_string(), 5)],
    );
    assert_eq!(m.keys(), &vec!["b".to_string(), "c".to_string(), "a".to_string()]);
    assert_eq!(m.get("c"), Some(&3));
    let mut m2: KeyMap<i32> = KeyMap::new();
    m2.insert("__flow_in__".to_string(), 0);
    m2.extend_from_map_and_keymap(vec![("x".to_string(), 7)], vec![("x".to_string(), 1)]);
    assert_eq!(m2.keys(), &vec!["__flow_in__".to_string(), "x".to_string()]);
    assert_eq!(m2.get("x"), Some(&7));
    assert_eq!(m2.get("y"), None);
}

#[test]
fn data_types_by_name_and_code() {
    assert_eq!(DataType::from_type_name("number"), DataType::Number);
    assert_eq!(DataType::from_type_name("struct"), DataType::Structure);
    assert_eq!(DataType::from_type_name("weird"), DataType::Any);
    assert_eq!(DataType::Boolean.code(), 3);
    assert_eq!(DataType::from_code(9), DataType::Any);
    assert_eq!(NodeIO::flow_port("flow_in".to_string()).ty.ty, DataType::Flow);
}

#[test]
fn error_texts() {
    let e = CompilerError::InvalidPortIdentifier(PortIdentifier::output("a", "b"));
    assert_eq!(e.kind_label(), "Invalid port identifier");
    assert_eq!(e.detail(), "Output: a -> b");
    assert_eq!(CompilerError::NoStartNode.detail(), "No start node found");
}

#[test]
fn header_lines_exact() {
    let cmd = DisbotterProjectCommand {
        uid: "u".to_string(),
        name: "ping".to_string(),
        description: "Ping!".to_string(),
        flow: DisbotterFlow { nodes: vec![], connections: vec![] },
        options: vec![DisbotterProjectCommandOption {
            name: "text".to_string(),
            description: "t".to_string(),
            option_type: 0,
            required: false,
            choices: vec![],
        }],
    };
    let lines = command_header_lines(&cmd).unwrap();
    assert_eq!(lines.len(), 5);
    assert_eq!(lines[2], "       .setName(\"ping\")");
    assert_eq!(lines[3], "       .setDescription(\"Ping!\")");
    assert!(lines[4].starts_with("\t\t.addStringOption(option => option"));
    assert!(lines[4].contains(".setRequired(false)"));
}

#[test]
fn random_names_are_hex_and_doubled() {
    let c: disbotter_generator::compiler::NodesJSCompiler<Unit> = disbotter_generator::compiler::NodesJSCompiler::new(
        disbotter_generator::project::DisbotterProjectData {
            metadata: disbotter_generator::project::DisbotterProjectMetadata { name: "p".to_string() },
            content: disbotter_generator::project::DisbotterProjectContent { commands: vec![] },
        },
    );
    let b = disbotter_generator::builder::CodeBuilder::new("f".to_string(), c);
    let n1 = b.get_random_var_name();
    let n2 = b.get_random_var_name();
    assert_eq!(n1.len(), 16);
    assert!(n1.chars().all(|ch| ch.is_ascii_hexdigit() && !ch.is_ascii_uppercase()));
    assert_eq!(&n1[0..8], &n1[8..16]);
    assert_ne!(n1, n2);
}

#[derive(Clone)]
struct Unit;

impl disbotter_generator::compiler::NodeAction for Unit {
    fn run(&self, _b: &mut disbotter_generator::builder::CodeBuilder<Self>) -> Result<(), CompilerError> {
        Ok(())
    }
}
