use evo::editor::{
    component_for_node, layout_camera_kept, layout_key, layout_version, optional_text,
    visual_label, visual_nodes_for, BridgeSide, Connection, UiNode, VisualWire,
};
use evo::fieldmap::keys_in_order;
use evo::indexer::ComponentCatalog;
use evo::model::{
    MonitorInstance, ComponentDescriptor, ComponentKind, ConfigHint, EditableConfig, GraphDocument, GraphEdge,
    GraphNode, PortDescriptor, PortDirection,
};

fn port(name: &str, direction: PortDirection) -> PortDescriptor {
    PortDescriptor {
        name: name.into(),
        direction,
        ordinal: 0,
        declared_type: "Payload".into(),
        serialized_type: "Payload".into(),
        canonical_type: "Payload".into(),
    }
}

fn component(
    name: &str,
    kind: ComponentKind,
    inputs: Vec<PortDescriptor>,
    outputs: Vec<PortDescriptor>,
) -> ComponentDescriptor {
    ComponentDescriptor {
        type_path: name.into(),
        display_name: name.into(),
        package: "fixture".into(),
        kind,
        inputs,
        outputs,
        channels: Vec::new(),
        config_hints: Vec::new(),
        workspace_only: false,
        source_path: None,
    }
}

fn ui_node(side: BridgeSide, model_id: &str) -> UiNode {
    UiNode {
        component_type: "Bridge".into(),
        model_id: model_id.into(),
        kind: ComponentKind::Bridge,
        side,
        inputs: Vec::new(),
        outputs: Vec::new(),
    }
}

#[test]
fn bridge_sides_expose_only_the_ports_for_their_graph_direction() {
    let component = component(
        "Bridge",
        ComponentKind::Bridge,
        vec![port("command", PortDirection::Input)],
        vec![port("state", PortDirection::Output)],
    );
    let receive = UiNode::from_component(&component, "Bridge".into(), "bridge".into(), BridgeSide::Receive);
    let transmit = UiNode::from_component(&component, "Bridge".into(), "bridge".into(), BridgeSide::Transmit);
    assert!(receive.inputs.is_empty());
    assert_eq!(receive.outputs.len(), 1);
    assert_eq!(transmit.inputs.len(), 1);
    assert!(transmit.outputs.is_empty());
}

#[test]
fn graph_labels_are_not_truncated() {
    let id = "a_component_id_that_is_longer_than_twenty_eight_characters";
    assert_eq!(visual_label(id, BridgeSide::Regular), id);
    assert_eq!(visual_label("can", BridgeSide::Receive), "can · RX");
    assert_eq!(visual_label("can", BridgeSide::Transmit), "can · TX");
}

#[test]
fn layout_round_trips_and_distinguishes_bridge_sides() {
    let receive = ui_node(BridgeSide::Receive, "can");
    let transmit = ui_node(BridgeSide::Transmit, "can");
    assert_ne!(layout_key(&receive), layout_key(&transmit));
    assert_eq!(layout_key(&receive), "bridge-rx:can");
    assert_eq!(layout_key(&ui_node(BridgeSide::Regular, "a")), "node:a");
}

#[test]
fn version_one_layouts_load_with_default_camera() {
    assert_eq!(layout_version(), 2);
    assert_eq!(layout_camera_kept(1), Some(false));
    assert_eq!(layout_camera_kept(2), Some(true));
    assert_eq!(layout_camera_kept(3), None);
}

#[test]
fn side_captions() {
    assert_eq!(BridgeSide::Regular.label(), None);
    assert_eq!(BridgeSide::Receive.label(), Some("RX · source side"));
    assert_eq!(BridgeSide::Transmit.label(), Some("TX · sink side"));
}

fn two_node_document(target_canonical_type: &str) -> GraphDocument {
    let mut output = port("out", PortDirection::Output);
    output.declared_type = "AliasedPayload".into();
    output.canonical_type = "common::Payload".into();
    let mut input = port("in", PortDirection::Input);
    input.canonical_type = target_canonical_type.into();
    let source = component("Source", ComponentKind::Source, Vec::new(), vec![output]);
    let target = component("Target", ComponentKind::Sink, vec![input], Vec::new());
    let mut document = GraphDocument::new();
    document.nodes.push(GraphNode::from_component(&source, "source".into()));
    document.nodes.push(GraphNode::from_component(&target, "target".into()));
    document
}

#[test]
fn viewer_accepts_aliases_and_rejects_incompatible_connections() {
    let mut accepted = two_node_document("common::Payload");
    assert_eq!(accepted.connect_nodes("source", 0, "target", 0), Connection::Connected);
    assert_eq!(accepted.edges.len(), 1);

    let mut rejected = two_node_document("OtherPayload");
    match rejected.connect_nodes("source", 0, "target", 0) {
        Connection::Refused(message) => assert!(message.contains("not compatible")),
        other => panic!("unexpected {other:?}"),
    }
    assert_eq!(rejected.edges.len(), 0);
    assert_eq!(rejected.connect_nodes("nobody", 0, "target", 0), Connection::MissingNode);
}

#[test]
fn reconnecting_an_input_replaces_its_producer() {
    let mut document = two_node_document("common::Payload");
    let mut other = port("out", PortDirection::Output);
    other.canonical_type = "common::Payload".into();
    document.nodes.push(GraphNode::from_component(
        &component("Other", ComponentKind::Source, Vec::new(), vec![other]),
        "other".into(),
    ));
    assert_eq!(document.connect_nodes("source", 0, "target", 0), Connection::Connected);
    assert_eq!(document.connect_nodes("other", 0, "target", 0), Connection::Connected);
    assert_eq!(document.edges.len(), 1);
    assert_eq!(document.edges[0].source, 2);
    document.disconnect_nodes("other", 0, "target", 0);
    assert!(document.edges.is_empty());
}

#[test]
fn removing_a_node_renumbers_the_remaining_connections() {
    let mut document = GraphDocument::new();
    for id in ["a", "b", "c"] {
        document.nodes.push(GraphNode::from_component(
            &component("T", ComponentKind::Task, vec![port("in", PortDirection::Input)], vec![port("out", PortDirection::Output)]),
            id.into(),
        ));
    }
    let edge = |source: usize, target: usize| GraphEdge {
        source,
        source_port: 0,
        target,
        target_port: 0,
        message_type: "Payload".into(),
        extra_fields: Vec::new(),
    };
    document.edges.push(edge(0, 1));
    document.edges.push(edge(1, 2));
    document.edges.push(edge(0, 2));
    assert!(document.remove_node("b"));
    assert_eq!(document.nodes.len(), 2);
    assert_eq!(document.edges.len(), 1);
    assert_eq!((document.edges[0].source, document.edges[0].target), (0, 1));
    let ends = (&document.nodes[document.edges[0].source].id, &document.nodes[document.edges[0].target].id);
    assert_eq!((ends.0.as_str(), ends.1.as_str()), ("a", "c"));
    assert!(!document.remove_node("b"));
}

#[test]
fn added_components_get_fresh_ids() {
    let mut document = GraphDocument::new();
    let c = component("My Task", ComponentKind::Task, Vec::new(), Vec::new());
    assert_eq!(document.add_component(&c), "my_task");
    assert_eq!(document.add_component(&c), "my_task_2");
    assert_eq!(document.nodes.len(), 2);
}

#[test]
fn added_components_carry_their_type_channels_and_dependency() {
    let mut document = GraphDocument::new();
    let mut bridge = component("robot::Bridge", ComponentKind::Bridge, Vec::new(), Vec::new());
    bridge.display_name = "Bridge".into();
    bridge.package = "robot-tasks".into();
    bridge.workspace_only = true;
    bridge.channels.push(evo::model::BridgeChannelDescriptor {
        id: "motors".into(),
        direction: PortDirection::Output,
        payload: port("motors", PortDirection::Output),
        default_route: Some("can0".into()),
    });
    let id = document.add_component(&bridge);
    assert_eq!(id, "bridge");
    let node = &document.nodes[0];
    assert_eq!(node.component_type, "robot::Bridge");
    assert_eq!(node.kind, ComponentKind::Bridge);
    assert_eq!(node.pending_workspace_dependency, Some("robot-tasks".to_string()));
    assert_eq!(node.channels.len(), 1);
    assert_eq!(node.channels[0].id, "motors");
    assert_eq!(node.channels[0].route, Some("can0".to_string()));
    assert!(node.channels[0].enabled);
    assert!(node.config.0.is_empty());
    assert!(!node.unresolved);
}

#[test]
fn renaming_refuses_an_id_in_use() {
    let mut document = two_node_document("common::Payload");
    assert_eq!(
        document.rename_node(0, "target".into()),
        Err("Node ID 'target' is already in use".to_string())
    );
    assert_eq!(document.nodes[0].id, "source");
    assert_eq!(document.rename_node(0, "camera".into()), Ok(()));
    assert_eq!(document.nodes[0].id, "camera");
    assert_eq!(document.rename_node(0, "camera".into()), Ok(()));
}

#[test]
fn configuration_edits() {
    let mut config = EditableConfig(vec![("b".into(), "1".into())]);
    config.add_hint(&ConfigHint {
        key: "a".into(),
        rust_type: Some("u32".into()),
        default_ron: None,
        documentation: None,
    });
    config.add_hint(&ConfigHint {
        key: "b".into(),
        rust_type: None,
        default_ron: Some("9".into()),
        documentation: None,
    });
    assert_eq!(config.0, vec![("a".to_string(), "()".to_string()), ("b".to_string(), "1".to_string())]);
    assert!(config.add_key("  c  "));
    assert!(!config.add_key("   "));
    assert_eq!(config.0.len(), 3);
    assert_eq!(config.0[2], ("c".to_string(), "()".to_string()));
    config.remove_key("a");
    assert_eq!(config.0.len(), 2);
    assert_eq!(optional_text("  ".into()), None);
    assert_eq!(optional_text(" x ".into()), Some(" x ".to_string()));
}

#[test]
fn nodes_are_shown_under_their_id() {
    let node = GraphNode::from_component(
        &component("pkg::Task", ComponentKind::Task, Vec::new(), vec![port("out", PortDirection::Output)]),
        "task".into(),
    );
    let shown = component_for_node(&node);
    assert_eq!(shown.display_name, "task");
    assert_eq!(shown.type_path, "pkg::Task");
    assert_eq!(shown.outputs.len(), 1);
    assert!(shown.package.is_empty());
}

#[test]
fn configuration_keys_stay_in_order() {
    assert!(keys_in_order(&vec![]));
    assert!(keys_in_order(&vec![("a".into(), "1".into()), ("b".into(), "2".into())]));
    assert!(!keys_in_order(&vec![("b".into(), "1".into()), ("a".into(), "2".into())]));
    assert!(!keys_in_order(&vec![("a".into(), "1".into()), ("a".into(), "2".into())]));
    let mut config = EditableConfig(vec![("a".into(), "1".into()), ("c".into(), "3".into())]);
    config.add_key("b");
    config.remove_key("c");
    assert!(keys_in_order(&config.0));
    assert_eq!(config.0, vec![("a".to_string(), "1".to_string()), ("b".to_string(), "()".to_string())]);
}

#[test]
fn saving_adds_the_workspace_packages_that_nodes_and_monitors_need() {
    let mut document = GraphDocument::new();
    let mut first = GraphNode::from_component(&component("Drive", ComponentKind::Task, Vec::new(), Vec::new()), "a".into());
    first.pending_workspace_dependency = Some("robot-tasks".into());
    let mut second = GraphNode::from_component(&component("Drive", ComponentKind::Task, Vec::new(), Vec::new()), "b".into());
    second.pending_workspace_dependency = Some("robot-tasks".into());
    document.nodes.push(first);
    document.nodes.push(second);
    document.monitors.push(MonitorInstance { component_type: "mon::Console".into(), config: EditableConfig(Vec::new()) });
    document.monitors.push(MonitorInstance { component_type: "Unknown".into(), config: EditableConfig(Vec::new()) });
    let mut catalog = ComponentCatalog::new();
    let mut console = component("mon::Console", ComponentKind::Monitor, Vec::new(), Vec::new());
    console.package = "monitors".into();
    console.workspace_only = true;
    catalog.components.push(console);
    assert_eq!(
        document.workspace_dependencies_to_add(&catalog),
        vec!["robot-tasks".to_string(), "monitors".to_string()]
    );
    document.clear_pending_dependencies();
    assert!(document.nodes.iter().all(|node| node.pending_workspace_dependency.is_none()));
    assert_eq!(document.workspace_dependencies_to_add(&catalog), vec!["monitors".to_string()]);
}

#[test]
fn bridges_are_drawn_as_two_sides_and_wires_follow_them() {
    let mut document = GraphDocument::new();
    let source = component("Src", ComponentKind::Source, Vec::new(), vec![port("out", PortDirection::Output)]);
    let bridge = component(
        "Can",
        ComponentKind::Bridge,
        vec![port("command", PortDirection::Input)],
        vec![port("state", PortDirection::Output)],
    );
    let sink = component("Sink", ComponentKind::Sink, vec![port("in", PortDirection::Input)], Vec::new());
    document.nodes.push(GraphNode::from_component(&source, "src".into()));
    document.nodes.push(GraphNode::from_component(&bridge, "can".into()));
    document.nodes.push(GraphNode::from_component(&sink, "sink".into()));
    let edge = |source: usize, source_port: usize, target: usize, target_port: usize| GraphEdge {
        source,
        source_port,
        target,
        target_port,
        message_type: "Payload".into(),
        extra_fields: Vec::new(),
    };
    document.edges.push(edge(0, 0, 1, 0));
    document.edges.push(edge(1, 0, 2, 0));
    document.edges.push(edge(0, 5, 2, 0));
    let (views, wires) = document.visual_graph();
    let shown: Vec<(usize, BridgeSide, &str)> =
        views.iter().map(|view| (view.index, view.ui.side, view.ui.model_id.as_str())).collect();
    assert_eq!(
        shown,
        vec![
            (0, BridgeSide::Regular, "src"),
            (1, BridgeSide::Receive, "can"),
            (1, BridgeSide::Transmit, "can"),
            (2, BridgeSide::Regular, "sink"),
        ]
    );
    assert!(views[1].ui.inputs.is_empty());
    assert_eq!(views[2].ui.inputs.len(), 1);
    assert_eq!(
        wires,
        vec![
            VisualWire { source: 0, output: 0, target: 2, input: 0 },
            VisualWire { source: 1, output: 0, target: 3, input: 0 },
        ]
    );
    let sides: Vec<BridgeSide> = visual_nodes_for(&bridge, "Can", "can2").iter().map(|ui| ui.side).collect();
    assert_eq!(sides, vec![BridgeSide::Receive, BridgeSide::Transmit]);
    assert_eq!(visual_nodes_for(&sink, "Sink", "s").len(), 1);
}
