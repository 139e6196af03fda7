use evo::model::{
    normalize_type, to_snake_case, is_rust_identifier, ComponentKind, ConstantDefinition,
    DiagnosticSeverity, EditableConfig, GraphDocument, GraphEdge, GraphNode, MonitorInstance,
    NumericStorage, PortDescriptor, PortDirection, ComponentDescriptor,
};

fn port(direction: PortDirection, declared: &str, canonical: &str) -> PortDescriptor {
    PortDescriptor {
        name: declared.to_string(),
        direction,
        ordinal: 0,
        declared_type: declared.to_string(),
        serialized_type: declared.to_string(),
        canonical_type: canonical.to_string(),
    }
}

fn task_node(id: &str, inputs: Vec<PortDescriptor>, outputs: Vec<PortDescriptor>) -> GraphNode {
    GraphNode {
        id: id.into(),
        component_type: "x::Task".into(),
        kind: ComponentKind::Task,
        inputs,
        outputs,
        config: EditableConfig(Vec::new()),
        channels: vec![],
        background: None,
        run_in_sim: None,
        logging_enabled: None,
        pending_workspace_dependency: None,
        unresolved: false,
        extra_fields: Vec::new(),
    }
}

#[test]
fn aliases_compare_by_canonical_type() {
    let output = port(PortDirection::Output, "LeftMotorCmd", "common::MotorCmd");
    let input = port(PortDirection::Input, "common::MotorCmd", "common::MotorCmd");
    assert!(output.compatible_with(&input));
}

#[test]
fn ids_are_stable_and_unique() {
    let mut document = GraphDocument::new();
    assert_eq!(document.unique_id_for("My Task"), "my_task");
    document.nodes.push(task_node("my_task", vec![], vec![]));
    assert_eq!(document.unique_id_for("My Task"), "my_task_2");
}

#[test]
fn invalid_free_form_values_and_expressions_are_hard_errors() {
    let mut document = GraphDocument::new();
    document.monitors.push(MonitorInstance {
        component_type: "Monitor".into(),
        config: EditableConfig(vec![("bad".into(), "[".into())]),
    });
    document.constants.push(ConstantDefinition::Expression {
        id: "POSE".into(),
        module: "constants".into(),
        rust_type: "not a type".into(),
        expression: "not valid +".into(),
    });
    assert!(document.has_hard_errors());
}

#[test]
fn incompatible_ports_do_not_match() {
    let output = port(PortDirection::Output, "LeftMotorCmd", "common::MotorCmd");
    let input = port(PortDirection::Input, "Other", "common::Other");
    assert!(!output.compatible_with(&input));
    assert!(!input.compatible_with(&output));
}

#[test]
fn normalizing_drops_whitespace_references_and_crate_prefixes() {
    assert_eq!(normalize_type("& crate::a :: B < 'm, C >"), "a::B<C>");
    assert_eq!(normalize_type("Foo<'_, Bar>"), "Foo<Bar>");
}

#[test]
fn snake_case_of_display_names() {
    assert_eq!(to_snake_case("My Task"), "my_task");
    assert_eq!(to_snake_case("HTTPServer"), "h_t_t_p_server");
    assert_eq!(to_snake_case("  Left-Motor  "), "left_motor");
    assert_eq!(to_snake_case("DiffDrive"), "diff_drive");
}

#[test]
fn rust_identifiers() {
    assert!(is_rust_identifier("POSE"));
    assert!(is_rust_identifier("_x1"));
    assert!(!is_rust_identifier("1x"));
    assert!(!is_rust_identifier(""));
    assert!(!is_rust_identifier("a-b"));
}

#[test]
fn kinds_and_storages_have_their_names() {
    assert_eq!(ComponentKind::Source.label(), "Source");
    assert_eq!(ComponentKind::Unresolved.label(), "Unresolved");
    assert_eq!(ComponentKind::Sink.ron_task_kind(), Some("sink"));
    assert_eq!(ComponentKind::Bridge.ron_task_kind(), None);
    assert_eq!(NumericStorage::Usize.ron_name(), "usize");
    assert_eq!(NumericStorage::ALL.len(), 12);
}

#[test]
fn constants_are_qualified_by_module() {
    let c = ConstantDefinition::Expression {
        id: "POSE".into(),
        module: "geo".into(),
        rust_type: "Pose".into(),
        expression: "Pose::new()".into(),
    };
    assert_eq!(c.id(), "POSE");
    assert_eq!(c.module(), "geo");
    assert_eq!(c.qualified_id(), "geo::POSE");
    let d = ConstantDefinition::Numeric {
        id: "COUNT".into(),
        module: "  ".into(),
        storage: NumericStorage::Usize,
        quantity: None,
        unit: None,
        value_ron: "2".into(),
    };
    assert_eq!(d.qualified_id(), "constants::COUNT");
}

#[test]
fn add_edge_connects_compatible_free_ports() {
    let mut document = GraphDocument::new();
    document
        .nodes
        .push(task_node("a", vec![], vec![port(PortDirection::Output, "P", "common::P")]));
    document
        .nodes
        .push(task_node("b", vec![port(PortDirection::Input, "P", "common::P")], vec![]));
    assert_eq!(document.add_edge(0, 0, 1, 0), Ok(()));
    assert_eq!(document.edges.len(), 1);
    assert_eq!(document.edges[0].message_type, "P");
    assert_eq!(
        document.add_edge(0, 0, 1, 0),
        Err("That input already has a producer".to_string())
    );
    assert_eq!(document.add_edge(0, 1, 1, 0), Err("Missing output port".to_string()));
    assert_eq!(document.add_edge(0, 0, 1, 3), Err("Missing input port".to_string()));
}

#[test]
fn add_edge_refuses_incompatible_types_and_cycles() {
    let mut document = GraphDocument::new();
    document.nodes.push(task_node(
        "a",
        vec![port(PortDirection::Input, "P", "common::P")],
        vec![port(PortDirection::Output, "P", "common::P")],
    ));
    document.nodes.push(task_node(
        "b",
        vec![port(PortDirection::Input, "P", "common::P")],
        vec![port(PortDirection::Output, "P", "common::P")],
    ));
    document.nodes.push(task_node("c", vec![port(PortDirection::Input, "Q", "common::Q")], vec![]));
    assert_eq!(
        document.add_edge(0, 0, 2, 0),
        Err("P is not compatible with Q".to_string())
    );
    assert_eq!(document.add_edge(0, 0, 1, 0), Ok(()));
    assert_eq!(
        document.add_edge(1, 0, 0, 0),
        Err("That connection would create a cycle".to_string())
    );
    assert_eq!(document.edges.len(), 1);
}

#[test]
fn unconnected_inputs_and_duplicate_ids_are_reported() {
    let mut document = GraphDocument::new();
    document
        .nodes
        .push(task_node("a", vec![port(PortDirection::Input, "P", "P")], vec![]));
    document.nodes.push(task_node("a", vec![], vec![]));
    let diagnostics = document.diagnostics();
    assert!(diagnostics
        .iter()
        .any(|d| d.severity == DiagnosticSeverity::Error && d.message.contains("a")));
    assert!(document.has_hard_errors());
}

#[test]
fn edges_to_missing_nodes_are_errors() {
    let mut document = GraphDocument::new();
    document.nodes.push(task_node("a", vec![], vec![]));
    document.edges.push(GraphEdge {
        source: 0,
        source_port: 0,
        target: 5,
        target_port: 0,
        message_type: "P".into(),
        extra_fields: Vec::new(),
    });
    assert!(document.has_hard_errors());
}

#[test]
fn nodes_start_from_their_component() {
    let component = ComponentDescriptor {
        type_path: "pkg::Source".into(),
        display_name: "Source".into(),
        package: "pkg".into(),
        kind: ComponentKind::Source,
        inputs: vec![],
        outputs: vec![port(PortDirection::Output, "P", "P")],
        channels: vec![],
        config_hints: vec![],
        workspace_only: true,
        source_path: None,
    };
    let node = GraphNode::from_component(&component, "source".into());
    assert_eq!(node.id, "source");
    assert_eq!(node.component_type, "pkg::Source");
    assert_eq!(node.outputs.len(), 1);
    assert_eq!(node.pending_workspace_dependency, Some("pkg".to_string()));
    assert!(!node.unresolved);
}
