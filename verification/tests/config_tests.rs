use std::path::PathBuf;

use evo::config::{parse_constants, ConfigError, ConfigFile, NEW_CONFIGURATION};
use evo::indexer::ComponentCatalog;
use evo::loader::{RawConnection, RawRoot, RawTask, RawTaskKind};
use evo::model::{ComponentKind, ConstantDefinition};
use sha2::{Digest, Sha256};
use evo::scan::find_field_value_span;

fn chars(s: &str) -> Vec<char> {
    s.chars().collect()
}

fn empty_root() -> RawRoot {
    RawRoot { tasks: vec![], bridges: vec![], cnx: vec![], monitor: None, monitors: vec![] }
}

fn task(id: &str, type_: Option<&str>) -> RawTask {
    RawTask {
        id: id.into(),
        type_: type_.map(|t| t.to_string()),
        kind: None,
        config: vec![],
        background: None,
        run_in_sim: None,
        logging: None,
    }
}

fn loaded(source: &str, raw: RawRoot) -> ConfigFile {
    ConfigFile::from_parsed(PathBuf::from("copperconfig.ron"), source.to_string(), raw, &ComponentCatalog::new())
}

#[test]
fn finds_root_fields_without_matching_nested_config() {
    let source = r#"(
            tasks: [(id: "a", config: {"tasks": [1, 2]})],
            cnx: [],
        )"#;
    let (start, end) = find_field_value_span(source, "tasks").unwrap();
    assert!(source[start..end].starts_with("[(id:"));
    assert!(find_field_value_span(source, "cnx").is_some());
}

#[test]
fn parses_numeric_and_expression_constants() {
    let source = r#"(
            constants: [
                (id: "COUNT", storage: usize, value: 2),
                (id: "POSE", module: "geo", type: "Pose", expression: "Pose::new()"),
            ], tasks: [], cnx: [],
        )"#;
    let constants = parse_constants(&chars(source));
    assert_eq!(constants.len(), 2);
    assert_eq!(constants[1].qualified_id(), "geo::POSE");
    match &constants[0] {
        ConstantDefinition::Numeric { id, storage, value_ron, .. } => {
            assert_eq!(id, "COUNT");
            assert_eq!(storage.ron_name(), "usize");
            assert_eq!(value_ron, "2");
        }
        other => panic!("expected a numeric constant, got {other:?}"),
    }
}

#[test]
fn unchanged_render_is_lossless_and_constant_edit_preserves_other_sections() {
    let source = r#"(
    // task documentation must survive unrelated edits
    tasks: [],
    cnx: [],
    missions: [(id: "drive")], // unsupported but preserved
)
"#;
    let mut config = loaded(source, empty_root());
    let candidate = config.render_candidate().unwrap();
    assert_eq!(ConfigFile::finish_render(candidate, None).unwrap(), source);
    config.document.constants.push(ConstantDefinition::Expression {
        id: "COUNT".into(),
        module: "constants".into(),
        rust_type: "usize".into(),
        expression: "2 + 2".into(),
    });
    let rendered = ConfigFile::finish_render(config.render_candidate().unwrap(), None).unwrap();
    assert!(rendered.contains("task documentation must survive unrelated edits"));
    assert!(rendered.contains("missions: [(id: \"drive\")]"));
    assert!(rendered.contains("expression: \"2 + 2\""));
}

#[test]
fn node_edit_preserves_unknown_node_fields() {
    let source = r#"(
                tasks: [(id: "source", type: "Source", priority: 7)],
                cnx: [],
            )"#;
    let mut raw = empty_root();
    raw.tasks.push(task("source", Some("Source")));
    let mut config = loaded(source, raw);
    assert_eq!(config.document.nodes[0].extra_fields, vec![("priority".to_string(), "7".to_string())]);
    config.document.nodes[0].run_in_sim = Some(false);
    let rendered = config.render_candidate().unwrap();
    assert!(rendered.contains("priority: 7"));
    assert!(rendered.contains("run_in_sim: false"));
}

#[test]
fn detects_an_external_edit_before_save() {
    let config = loaded("(tasks: [], cnx: [])", empty_root());
    let outcome = config.check_external_change(false, Some("(tasks: [], cnx: [], /* external */)"), true);
    assert!(matches!(outcome, Err(ConfigError::ExternalChange)));
    assert!(config.check_external_change(true, Some("(tasks: [], cnx: [], /* external */)"), true).is_ok());
    assert!(config.check_external_change(false, Some("(tasks: [], cnx: [])"), true).is_ok());
    assert!(matches!(config.check_external_change(false, None, true), Err(ConfigError::ExternalChange)));
    assert!(config.check_external_change(false, None, false).is_ok());
}

#[test]
fn saving_makes_the_written_text_the_baseline() {
    let mut config = loaded("(tasks: [], cnx: [])", empty_root());
    config.document.nodes.clear();
    let written = "(tasks: [], cnx: [], constants: [])".to_string();
    assert!(config.save(Ok(written.clone())).is_ok());
    assert_eq!(config.original_source, written);
    let digest: [u8; 32] = Sha256::digest(written.as_bytes()).into();
    assert_eq!(config.original_hash, digest);
    assert!(!config.disk_changed(Some(&written), true));
    assert!(config.disk_changed(Some("(tasks: [], cnx: [])"), true));
    let failed = config.save(Err(ConfigError::Validation));
    assert!(matches!(failed, Err(ConfigError::Validation)));
    assert_eq!(config.original_source, written);
}

#[test]
fn hard_errors_block_rendering() {
    let mut raw = empty_root();
    raw.tasks.push(task("a", Some("A")));
    raw.tasks.push(task("a", Some("B")));
    let config = loaded("(tasks: [(id: \"a\", type: \"A\"), (id: \"a\", type: \"B\")], cnx: [])", raw);
    assert!(matches!(config.render_candidate(), Err(ConfigError::Validation)));
}

#[test]
fn the_lossless_parser_checks_the_rendering() {
    assert_eq!(ConfigFile::finish_render("(tasks: [])".into(), None).unwrap(), "(tasks: [])");
    match ConfigFile::finish_render("(tasks: [])".into(), Some("bad".into())) {
        Err(ConfigError::Parse(message)) => assert_eq!(message, "bad"),
        other => panic!("unexpected {other:?}"),
    }
    match ConfigFile::finish_render("(tasks: [".into(), None) {
        Err(ConfigError::Parse(message)) => {
            assert!(message.starts_with("lossless RON parser reported "));
            assert!(message.ends_with(" diagnostic(s)"));
        }
        other => panic!("unexpected {other:?}"),
    }
}

#[test]
fn loading_infers_ports_and_kinds_from_connections() {
    let source = r#"(
    tasks: [(id: "cam", type: "Camera"), (id: "log", type: "Logger", kind: sink)],
    cnx: [
        (src: "cam", dst: "log", msg: "Image", note: 1),
        (src: "cam", dst: "__nc__", msg: "Depth"),
        (src: "ghost", dst: "log", msg: "Image"),
    ],
)"#;
    let mut raw = empty_root();
    raw.tasks.push(task("cam", Some("Camera")));
    let mut log = task("log", Some("Logger"));
    log.kind = Some(RawTaskKind::Sink);
    raw.tasks.push(log);
    for (src, dst, msg) in [("cam", "log", "Image"), ("cam", "__nc__", "Depth"), ("ghost", "log", "Image")] {
        raw.cnx.push(RawConnection { src: src.into(), dst: dst.into(), msg: msg.into() });
    }
    let config = loaded(source, raw);
    let document = &config.document;
    assert_eq!(document.nodes.len(), 2);
    assert_eq!(document.nodes[0].kind, ComponentKind::Source);
    assert_eq!(document.nodes[0].outputs.len(), 2);
    assert_eq!(document.nodes[0].outputs[0].name, "Image");
    assert_eq!(document.nodes[0].outputs[1].serialized_type, "Depth");
    assert_eq!(document.nodes[1].kind, ComponentKind::Sink);
    assert_eq!(document.nodes[1].inputs.len(), 1);
    assert!(document.nodes[0].unresolved);
    assert_eq!(document.edges.len(), 1);
    assert_eq!(document.edges[0].source, 0);
    assert_eq!(document.edges[0].target, 1);
    assert_eq!(document.edges[0].extra_fields, vec![("note".to_string(), "1".to_string())]);
}

#[test]
fn missing_sections_are_added_before_the_closing_parenthesis() {
    let mut config = loaded("(tasks: [])", empty_root());
    config.document.constants.push(ConstantDefinition::Expression {
        id: "K".into(),
        module: String::new(),
        rust_type: "u8".into(),
        expression: "1".into(),
    });
    let rendered = config.render_candidate().unwrap();
    assert!(rendered.starts_with("(tasks: []    constants: ["));
    assert!(rendered.ends_with(",\n)"));
}

#[test]
fn a_new_configuration_has_tasks_and_connections() {
    assert!(NEW_CONFIGURATION.contains("tasks: []"));
    assert!(NEW_CONFIGURATION.contains("cnx: []"));
}
