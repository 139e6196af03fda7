//! Turning a parsed Copper configuration into a graph document.
//!
//! The parse itself (RON into the `Raw*` records) happens before these
//! functions run; what they decide is which component each entry refers to,
//! which ports the connections use and what kind each node has.
use vstd::prelude::*;

use crate::config::{
    endpoint_parts, ensure_port, ensured_port, lemma_ensured_port_fits, inferred_port, inferred_port_model, opt_str_view,
    parse_constants, parsed_constants, section_extras, section_extras_spec, section_splittable,
    split_endpoint,
};
use crate::fieldmap::Pair;
use crate::indexer::{find_component, ComponentCatalog};
use crate::model::{
    clone_pairs, clone_ports, BridgeChannelInstance, ChannelModel, ComponentKind, ComponentModel,
    DocumentModel, EdgeModel, EditableConfig, GraphDocument, GraphEdge, GraphNode, InstanceModel,
    MonitorInstance, MonitorModel, NodeModel, PortDescriptor, PortDirection, PortModel,
    NC_ENDPOINT,
};
use crate::text::str_eq;

verus! {

// ---------------------------------------------------------------------------
// The parsed configuration
// ---------------------------------------------------------------------------

/// The `kind:` of a task entry (`regular` is read as `task`).
#[derive(Debug, Clone, Copy, PartialEq, Eq, Structural)]
pub enum RawTaskKind {
    Source,
    Task,
    Sink,
}

#[derive(Debug)]
pub struct RawLogging {
    pub enabled: Option<bool>,
}

/// A task entry; `config` holds each value as RON text, sorted by key.
#[derive(Debug)]
pub struct RawTask {
    pub id: String,
    pub type_: Option<String>,
    pub kind: Option<RawTaskKind>,
    pub config: Vec<(String, String)>,
    pub background: Option<bool>,
    pub run_in_sim: Option<bool>,
    pub logging: Option<RawLogging>,
}

/// A bridge channel: `Rx` carries data into the graph, `Tx` out of it.
#[derive(Debug)]
pub enum RawBridgeChannel {
    Rx { id: String, route: Option<String>, config: Vec<(String, String)> },
    Tx { id: String, route: Option<String>, config: Vec<(String, String)> },
}

#[derive(Debug)]
pub struct RawBridge {
    pub id: String,
    pub type_: String,
    pub config: Vec<(String, String)>,
    pub channels: Vec<RawBridgeChannel>,
    pub run_in_sim: Option<bool>,
}

#[derive(Debug)]
pub struct RawConnection {
    pub src: String,
    pub dst: String,
    pub msg: String,
}

#[derive(Debug)]
pub struct RawMonitor {
    pub type_: String,
    pub config: Vec<(String, String)>,
}

/// The sections of a configuration the editor models.
#[derive(Debug)]
pub struct RawRoot {
    pub tasks: Vec<RawTask>,
    pub bridges: Vec<RawBridge>,
    pub cnx: Vec<RawConnection>,
    pub monitor: Option<RawMonitor>,
    pub monitors: Vec<RawMonitor>,
}

// ---------------------------------------------------------------------------
// Tasks
// ---------------------------------------------------------------------------

pub open spec fn raw_kind(kind: RawTaskKind) -> ComponentKind {
    match kind {
        RawTaskKind::Source => ComponentKind::Source,
        RawTaskKind::Task => ComponentKind::Task,
        RawTaskKind::Sink => ComponentKind::Sink,
    }
}

/// The fields of a task entry the editor models.
pub open spec fn task_keys() -> Seq<Seq<char>> {
    seq!["id"@, "type"@, "kind"@, "config"@, "background"@, "run_in_sim"@, "logging"@]
}

/// The fields of a bridge entry the editor models.
pub open spec fn bridge_keys() -> Seq<Seq<char>> {
    seq!["id"@, "type"@, "config"@, "channels"@, "run_in_sim"@]
}

/// The fields of a connection entry the editor models.
pub open spec fn connection_keys() -> Seq<Seq<char>> {
    seq!["src"@, "dst"@, "msg"@]
}

/// The unmodelled fields of entry `i`, none where the section has fewer entries.
pub open spec fn extras_at(extras: Seq<Seq<Pair>>, i: int) -> Seq<Pair> {
    if 0 <= i < extras.len() {
        extras[i]
    } else {
        Seq::empty()
    }
}

/// The node a task entry becomes: the component its type names supplies the
/// ports and kind; without one the entry's own `kind:` decides, if it has one.
pub open spec fn task_node(task: RawTask, extras: Seq<Pair>, catalog: Seq<ComponentModel>) -> NodeModel {
    let type_path = match task.type_ {
        Some(t) => t@,
        None => Seq::empty(),
    };
    let found = find_component(catalog, type_path);
    NodeModel {
        id: task.id@,
        component_type: type_path,
        kind: match found {
            Some(i) => catalog[i].kind,
            None => match task.kind {
                Some(k) => raw_kind(k),
                None => ComponentKind::Unresolved,
            },
        },
        inputs: match found {
            Some(i) => catalog[i].inputs,
            None => Seq::empty(),
        },
        outputs: match found {
            Some(i) => catalog[i].outputs,
            None => Seq::empty(),
        },
        config: task.config.deep_view(),
        channels: Seq::empty(),
        background: task.background,
        run_in_sim: task.run_in_sim,
        logging_enabled: match task.logging {
            Some(l) => l.enabled,
            None => None,
        },
        pending_workspace_dependency: None,
        unresolved: found is None,
        extra_fields: extras,
    }
}

fn extras_for(extras: &Vec<Vec<(String, String)>>, i: usize) -> (r: Vec<(String, String)>)
    ensures
        r.deep_view() == extras_at(extras.deep_view(), i as int),
{
    if i < extras.len() {
        clone_pairs(&extras[i])
    } else {
        let r: Vec<(String, String)> = Vec::new();
        assert(r.deep_view() =~= Seq::<Pair>::empty());
        r
    }
}

/// The node a task entry becomes (see [`task_node`]).
pub fn task_to_node(task: RawTask, extras: Vec<(String, String)>, catalog: &ComponentCatalog) -> (r: GraphNode)
    ensures
        r.deep_view() == task_node(task, extras.deep_view(), catalog.components.deep_view()),
{
    let ghost t = task;
    let type_path = match task.type_ {
        Some(t) => t,
        None => String::new(),
    };
    let found = catalog.find_index(type_path.as_str());
    let kind = match found {
        Some(i) => catalog.components[i].kind,
        None => match task.kind {
            Some(RawTaskKind::Source) => ComponentKind::Source,
            Some(RawTaskKind::Task) => ComponentKind::Task,
            Some(RawTaskKind::Sink) => ComponentKind::Sink,
            None => ComponentKind::Unresolved,
        },
    };
    let (inputs, outputs) = match found {
        Some(i) => {
            assert(catalog.components@[i as int].deep_view() == catalog.components.deep_view()[i as int]);
            (clone_ports(&catalog.components[i].inputs), clone_ports(&catalog.components[i].outputs))
        },
        None => {
            let a: Vec<PortDescriptor> = Vec::new();
            let b: Vec<PortDescriptor> = Vec::new();
            assert(a.deep_view() =~= Seq::<PortModel>::empty());
            assert(b.deep_view() =~= Seq::<PortModel>::empty());
            (a, b)
        },
    };
    let channels: Vec<BridgeChannelInstance> = Vec::new();
    assert(channels.deep_view() =~= Seq::<InstanceModel>::empty());
    let logging_enabled = match task.logging {
        Some(l) => l.enabled,
        None => None,
    };
    let r = GraphNode {
        id: task.id,
        component_type: type_path,
        kind,
        inputs,
        outputs,
        config: EditableConfig(task.config),
        channels,
        background: task.background,
        run_in_sim: task.run_in_sim,
        logging_enabled,
        pending_workspace_dependency: None,
        unresolved: found.is_none(),
        extra_fields: extras,
    };
    assert(r.deep_view() =~= task_node(t, extras.deep_view(), catalog.components.deep_view()));
    r
}

// ---------------------------------------------------------------------------
// Bridges
// ---------------------------------------------------------------------------

/// The node a bridge entry starts as, before its channels are added.
pub open spec fn bridge_base(bridge: RawBridge, extras: Seq<Pair>, catalog: Seq<ComponentModel>) -> NodeModel {
    match find_component(catalog, bridge.type_@) {
        Some(i) => NodeModel {
            id: bridge.id@,
            component_type: catalog[i].type_path,
            kind: catalog[i].kind,
            inputs: Seq::empty(),
            outputs: Seq::empty(),
            config: bridge.config.deep_view(),
            channels: Seq::empty(),
            background: None,
            run_in_sim: bridge.run_in_sim,
            logging_enabled: None,
            pending_workspace_dependency: if catalog[i].workspace_only {
                Some(catalog[i].package)
            } else {
                None
            },
            unresolved: false,
            extra_fields: extras,
        },
        None => NodeModel {
            id: bridge.id@,
            component_type: bridge.type_@,
            kind: ComponentKind::Bridge,
            inputs: Seq::empty(),
            outputs: Seq::empty(),
            config: bridge.config.deep_view(),
            channels: Seq::empty(),
            background: None,
            run_in_sim: bridge.run_in_sim,
            logging_enabled: None,
            pending_workspace_dependency: None,
            unresolved: true,
            extra_fields: extras,
        },
    }
}

/// A channel's id, the direction of the port it gives the node (`Rx` an
/// output, `Tx` an input), its route and its configuration.
pub open spec fn channel_parts(channel: RawBridgeChannel) -> (Seq<char>, PortDirection, Option<Seq<char>>, Seq<Pair>) {
    match channel {
        RawBridgeChannel::Rx { id, route, config } => (id@, PortDirection::Output, route.deep_view(), config.deep_view()),
        RawBridgeChannel::Tx { id, route, config } => (id@, PortDirection::Input, route.deep_view(), config.deep_view()),
    }
}

/// The first discovered channel at or after `k` with this id and direction.
pub open spec fn channel_named(channels: Seq<ChannelModel>, id: Seq<char>, direction: PortDirection, k: int) -> Option<int>
    decreases channels.len() - k,
{
    if k < 0 || k >= channels.len() {
        None
    } else if channels[k].id == id && channels[k].direction == direction {
        Some(k)
    } else {
        channel_named(channels, id, direction, k + 1)
    }
}

proof fn lemma_channel_named(channels: Seq<ChannelModel>, id: Seq<char>, direction: PortDirection, k: int)
    requires
        0 <= k,
    ensures
        channel_named(channels, id, direction, k) matches Some(i) ==> k <= i < channels.len(),
    decreases channels.len() - k,
{
    if k < channels.len() && !(channels[k].id == id && channels[k].direction == direction) {
        lemma_channel_named(channels, id, direction, k + 1);
    }
}

/// The node after one more channel: the port comes from the discovered
/// channel with the same id and direction, else it is made up with an
/// unresolved type; either way the channel is listed, enabled.
pub open spec fn with_channel(node: NodeModel, channel: RawBridgeChannel, discovered: Option<Seq<ChannelModel>>) -> NodeModel {
    let (id, direction, route, config) = channel_parts(channel);
    let found = match discovered {
        Some(cs) => match channel_named(cs, id, direction, 0) {
            Some(j) => Some(cs[j].payload),
            None => None,
        },
        None => None,
    };
    let ordinal = if direction == PortDirection::Input {
        node.inputs.len()
    } else {
        node.outputs.len()
    };
    let port = match found {
        Some(p) => p,
        None => inferred_port_model(direction, ordinal as usize, id, "_unresolved"@),
    };
    NodeModel {
        inputs: if direction == PortDirection::Input {
            node.inputs.push(port)
        } else {
            node.inputs
        },
        outputs: if direction == PortDirection::Input {
            node.outputs
        } else {
            node.outputs.push(port)
        },
        channels: node.channels.push(
            InstanceModel { id, direction, route, config, enabled: true },
        ),
        ..node
    }
}

/// The node after the first `k` channels.
pub open spec fn with_channels(
    node: NodeModel,
    channels: Seq<RawBridgeChannel>,
    discovered: Option<Seq<ChannelModel>>,
    k: int,
) -> NodeModel
    decreases k,
{
    if k <= 0 || k > channels.len() {
        node
    } else {
        with_channel(with_channels(node, channels, discovered, k - 1), channels[k - 1], discovered)
    }
}

/// The node a bridge entry becomes.
pub open spec fn bridge_node(bridge: RawBridge, extras: Seq<Pair>, catalog: Seq<ComponentModel>) -> NodeModel {
    let discovered = match find_component(catalog, bridge.type_@) {
        Some(i) => Some(catalog[i].channels),
        None => None,
    };
    with_channels(bridge_base(bridge, extras, catalog), bridge.channels@, discovered, bridge.channels@.len() as int)
}

fn find_channel(
    channels: &Vec<crate::model::BridgeChannelDescriptor>,
    id: &str,
    direction: PortDirection,
) -> (r: Option<usize>)
    ensures
        r matches Some(i) ==> i < channels@.len() && channel_named(channels.deep_view(), id@, direction, 0)
            == Some(i as int),
        r is None ==> channel_named(channels.deep_view(), id@, direction, 0) is None,
{
    let ghost cs = channels.deep_view();
    let mut k: usize = 0;
    while k < channels.len()
        invariant
            k <= channels@.len(),
            cs == channels.deep_view(),
            channel_named(cs, id@, direction, k as int) == channel_named(cs, id@, direction, 0),
        decreases channels.len() - k,
    {
        assert(cs[k as int] == channels@[k as int].deep_view());
        if str_eq(channels[k].id.as_str(), id) && channels[k].direction == direction {
            return Some(k);
        }
        k = k + 1;
    }
    None
}

/// Adds one channel to a bridge node (see [`with_channel`]).
fn add_channel(node: &mut GraphNode, channel: RawBridgeChannel, catalog: &ComponentCatalog, found: Option<usize>)
    requires
        found matches Some(i) ==> i < catalog.components@.len(),
    ensures
        final(node).deep_view() == with_channel(
            old(node).deep_view(),
            channel,
            match found {
                Some(i) => Some(catalog.components.deep_view()[i as int].channels),
                None => None,
            },
        ),
{
    let ghost before = node.deep_view();
    let ghost ch = channel;
    let (id, direction, route, config) = match channel {
        RawBridgeChannel::Rx { id, route, config } => (id, PortDirection::Output, route, config),
        RawBridgeChannel::Tx { id, route, config } => (id, PortDirection::Input, route, config),
    };
    let discovered = match found {
        Some(i) => {
            assert(catalog.components@[i as int].deep_view() == catalog.components.deep_view()[i as int]);
            match find_channel(&catalog.components[i].channels, id.as_str(), direction) {
                Some(j) => {
                    assert(catalog.components[i as int].channels@[j as int].deep_view()
                        == catalog.components.deep_view()[i as int].channels[j as int]);
                    Some(catalog.components[i].channels[j].payload.clone())
                },
                None => None,
            }
        },
        None => None,
    };
    let ordinal = if direction == PortDirection::Input {
        node.inputs.len()
    } else {
        node.outputs.len()
    };
    let port = match discovered {
        Some(p) => p,
        None => inferred_port(direction, ordinal, id.as_str(), "_unresolved"),
    };
    if direction == PortDirection::Input {
        node.inputs.push(port);
    } else {
        node.outputs.push(port);
    }
    node.channels.push(
        BridgeChannelInstance { id, direction, route, config: EditableConfig(config), enabled: true },
    );
    assert(node.deep_view().inputs =~= with_channel(before, ch, match found {
        Some(i) => Some(catalog.components.deep_view()[i as int].channels),
        None => None,
    }).inputs);
    assert(node.deep_view().outputs =~= with_channel(before, ch, match found {
        Some(i) => Some(catalog.components.deep_view()[i as int].channels),
        None => None,
    }).outputs);
    assert(node.deep_view().channels =~= with_channel(before, ch, match found {
        Some(i) => Some(catalog.components.deep_view()[i as int].channels),
        None => None,
    }).channels);
}

/// The node a bridge entry becomes (see [`bridge_node`]).
pub fn bridge_to_node(bridge: RawBridge, extras: Vec<(String, String)>, catalog: &ComponentCatalog) -> (r: GraphNode)
    ensures
        r.deep_view() == bridge_node(bridge, extras.deep_view(), catalog.components.deep_view()),
{
    let ghost b = bridge;
    let ghost cat = catalog.components.deep_view();
    let found = catalog.find_index(bridge.type_.as_str());
    let mut node = match found {
        Some(i) => GraphNode::from_component(&catalog.components[i], bridge.id),
        None => {
            let inputs: Vec<PortDescriptor> = Vec::new();
            let outputs: Vec<PortDescriptor> = Vec::new();
            let channels: Vec<BridgeChannelInstance> = Vec::new();
            let extra: Vec<(String, String)> = Vec::new();
            GraphNode {
                id: bridge.id,
                component_type: bridge.type_,
                kind: ComponentKind::Bridge,
                inputs,
                outputs,
                config: EditableConfig::new(),
                channels,
                background: None,
                run_in_sim: bridge.run_in_sim,
                logging_enabled: None,
                pending_workspace_dependency: None,
                unresolved: true,
                extra_fields: extra,
            }
        },
    };
    node.config = EditableConfig(bridge.config);
    node.run_in_sim = bridge.run_in_sim;
    node.extra_fields = extras;
    node.channels = Vec::new();
    node.inputs = Vec::new();
    node.outputs = Vec::new();
    proof {
        if let Some(i) = found {
            assert(catalog.components@[i as int].deep_view() == cat[i as int]);
        }
    }
    assert(node.channels.deep_view() =~= Seq::<InstanceModel>::empty());
    assert(node.inputs.deep_view() =~= Seq::<PortModel>::empty());
    assert(node.outputs.deep_view() =~= Seq::<PortModel>::empty());
    assert(node.deep_view() =~= bridge_base(b, extras.deep_view(), cat));
    let ghost discovered = match found {
        Some(i) => Some(cat[i as int].channels),
        None => None,
    };
    let mut channels = bridge.channels;
    let ghost cv = channels@;
    let n = channels.len();
    let mut k: usize = 0;
    assert(channels@ =~= cv.subrange(0, n as int));
    while k < n
        invariant
            k <= n,
            n == cv.len(),
            channels@ =~= cv.subrange(k as int, n as int),
            node.deep_view() == with_channels(bridge_base(b, extras.deep_view(), cat), cv, discovered, k as int),
            found matches Some(i) ==> i < catalog.components@.len(),
            cat == catalog.components.deep_view(),
            discovered == (match found {
                Some(i) => Some(cat[i as int].channels),
                None => None,
            }),
        decreases n - k,
    {
        let channel = channels.remove(0);
        assert(channel == cv[k as int]);
        add_channel(&mut node, channel, catalog, found);
        k = k + 1;
        assert(channels@ =~= cv.subrange(k as int, n as int));
    }
    node
}

// ---------------------------------------------------------------------------
// Connections
// ---------------------------------------------------------------------------

/// The last node among the first `k` with this id.
pub open spec fn last_with_id(nodes: Seq<NodeModel>, id: Seq<char>, k: int) -> Option<int>
    decreases k,
{
    if k <= 0 || k > nodes.len() {
        None
    } else if nodes[k - 1].id == id {
        Some(k - 1)
    } else {
        last_with_id(nodes, id, k - 1)
    }
}

/// The node an endpoint names: the last one with that id.
pub open spec fn node_with_id(nodes: Seq<NodeModel>, id: Seq<char>) -> Option<int> {
    last_with_id(nodes, id, nodes.len() as int)
}

proof fn lemma_last_with_id(nodes: Seq<NodeModel>, id: Seq<char>, k: int)
    ensures
        last_with_id(nodes, id, k) matches Some(i) ==> 0 <= i < k && i < nodes.len(),
    decreases k,
{
    if 0 < k <= nodes.len() && nodes[k - 1].id != id {
        lemma_last_with_id(nodes, id, k - 1);
    }
}

/// The input ports of `target` that edges already use, in edge order.
pub open spec fn occupied_inputs(edges: Seq<EdgeModel>, target: int) -> Seq<usize>
    decreases edges.len(),
{
    if edges.len() == 0 {
        Seq::empty()
    } else {
        let rest = occupied_inputs(edges.drop_last(), target);
        if edges.last().target == target {
            rest.push(edges.last().target_port)
        } else {
            rest
        }
    }
}

pub open spec fn with_outputs(node: NodeModel, outputs: Seq<PortModel>) -> NodeModel {
    NodeModel { outputs, ..node }
}

pub open spec fn with_inputs(node: NodeModel, inputs: Seq<PortModel>) -> NodeModel {
    NodeModel { inputs, ..node }
}

/// The nodes and edges after one connection entry: an endpoint naming no node
/// drops the entry; the source gets (or finds) an output port; a target of
/// `__nc__` stops there; otherwise the target gets an input port that no edge
/// into it uses yet (unless the channel names one) and the edge is added.
pub open spec fn connect(
    nodes: Seq<NodeModel>,
    edges: Seq<EdgeModel>,
    c: RawConnection,
    extras: Seq<Pair>,
) -> (Seq<NodeModel>, Seq<EdgeModel>) {
    let (source_id, source_channel) = endpoint_parts(c.src@);
    match node_with_id(nodes, source_id) {
        None => (nodes, edges),
        Some(s) => {
            let (outputs, source_port) = ensured_port(
                nodes[s].outputs,
                PortDirection::Output,
                source_channel,
                c.msg@,
                Seq::empty(),
            );
            let nodes1 = nodes.update(s, with_outputs(nodes[s], outputs));
            if c.dst@ == NC_ENDPOINT@ {
                (nodes1, edges)
            } else {
                let (target_id, target_channel) = endpoint_parts(c.dst@);
                match node_with_id(nodes1, target_id) {
                    None => (nodes1, edges),
                    Some(t) => {
                        let (inputs, target_port) = ensured_port(
                            nodes1[t].inputs,
                            PortDirection::Input,
                            target_channel,
                            c.msg@,
                            occupied_inputs(edges, t),
                        );
                        (
                            nodes1.update(t, with_inputs(nodes1[t], inputs)),
                            edges.push(
                                EdgeModel {
                                    source: s as usize,
                                    source_port: source_port as usize,
                                    target: t as usize,
                                    target_port: target_port as usize,
                                    message_type: c.msg@,
                                    extra_fields: extras,
                                },
                            ),
                        )
                    },
                }
            }
        },
    }
}

/// The nodes and edges after the first `k` connection entries.
pub open spec fn connect_all(
    nodes: Seq<NodeModel>,
    cnx: Seq<RawConnection>,
    extras: Seq<Seq<Pair>>,
    k: int,
) -> (Seq<NodeModel>, Seq<EdgeModel>)
    decreases k,
{
    if k <= 0 || k > cnx.len() {
        (nodes, Seq::empty())
    } else {
        let (n, e) = connect_all(nodes, cnx, extras, k - 1);
        connect(n, e, cnx[k - 1], extras_at(extras, k - 1))
    }
}

fn node_index(nodes: &Vec<GraphNode>, id: &str) -> (r: Option<usize>)
    ensures
        r matches Some(i) ==> i < nodes@.len() && node_with_id(nodes.deep_view(), id@) == Some(i as int),
        r is None ==> node_with_id(nodes.deep_view(), id@) is None,
{
    let ghost nv = nodes.deep_view();
    let mut k: usize = nodes.len();
    while k > 0
        invariant
            k <= nodes@.len(),
            nv == nodes.deep_view(),
            last_with_id(nv, id@, k as int) == node_with_id(nv, id@),
        decreases k,
    {
        assert(nv[k - 1] == nodes@[k - 1].deep_view());
        if str_eq(nodes[k - 1].id.as_str(), id) {
            return Some(k - 1);
        }
        k = k - 1;
    }
    None
}

fn occupied_of(edges: &Vec<GraphEdge>, target: usize) -> (r: Vec<usize>)
    ensures
        r@ == occupied_inputs(edges.deep_view(), target as int),
{
    let ghost ev = edges.deep_view();
    let mut out: Vec<usize> = Vec::new();
    let mut i: usize = 0;
    assert(ev.take(0) =~= Seq::<EdgeModel>::empty());
    while i < edges.len()
        invariant
            i <= edges@.len(),
            ev == edges.deep_view(),
            out@ == occupied_inputs(ev.take(i as int), target as int),
        decreases edges.len() - i,
    {
        assert(ev.take(i + 1).drop_last() =~= ev.take(i as int));
        assert(ev[i as int] == edges@[i as int].deep_view());
        if edges[i].target == target {
            out.push(edges[i].target_port);
        }
        i = i + 1;
    }
    assert(ev.take(edges.len() as int) =~= ev);
    out
}

/// Applies one connection entry (see [`connect`]).
pub fn connect_entry(
    nodes: &mut Vec<GraphNode>,
    edges: &mut Vec<GraphEdge>,
    c: RawConnection,
    extras: Vec<(String, String)>,
)
    ensures
        (final(nodes).deep_view(), final(edges).deep_view()) == connect(
            old(nodes).deep_view(),
            old(edges).deep_view(),
            c,
            extras.deep_view(),
        ),
{
    let ghost nv = nodes.deep_view();
    let ghost ev = edges.deep_view();
    let ghost cc = c;
    let (source_id, source_channel) = split_endpoint(c.src.as_str());
    let s = match node_index(nodes, source_id.as_str()) {
        Some(s) => s,
        None => return,
    };
    let empty: Vec<usize> = Vec::new();
    let ch = match &source_channel {
        Some(x) => Some(x.as_str()),
        None => None,
    };
    assert(opt_str_view(ch) == endpoint_parts(c.src@).1);
    assert(nodes@[s as int].outputs.deep_view() == nv[s as int].outputs);
    let source_port = ensure_port(&mut nodes[s].outputs, PortDirection::Output, ch, c.msg.as_str(), &empty);
    assert(empty@ =~= Seq::<usize>::empty());
    let ghost nodes1 = nodes.deep_view();
    assert(nodes1 =~= nv.update(
        s as int,
        with_outputs(nv[s as int], ensured_port(nv[s as int].outputs, PortDirection::Output, endpoint_parts(c.src@).1, c.msg@, Seq::empty()).0),
    ));
    if str_eq(c.dst.as_str(), NC_ENDPOINT) {
        return;
    }
    let (target_id, target_channel) = split_endpoint(c.dst.as_str());
    let t = match node_index(nodes, target_id.as_str()) {
        Some(t) => t,
        None => return,
    };
    let occupied = occupied_of(edges, t);
    let tch = match &target_channel {
        Some(x) => Some(x.as_str()),
        None => None,
    };
    assert(opt_str_view(tch) == endpoint_parts(c.dst@).1);
    assert(nodes@[t as int].inputs.deep_view() == nodes1[t as int].inputs);
    let target_port = ensure_port(&mut nodes[t].inputs, PortDirection::Input, tch, c.msg.as_str(), &occupied);
    assert(nodes.deep_view() =~= nodes1.update(
        t as int,
        with_inputs(nodes1[t as int], ensured_port(nodes1[t as int].inputs, PortDirection::Input, endpoint_parts(c.dst@).1, c.msg@, occupied_inputs(ev, t as int)).0),
    ));
    edges.push(
        GraphEdge {
            source: s,
            source_port,
            target: t,
            target_port,
            message_type: c.msg,
            extra_fields: extras,
        },
    );
    assert(edges.deep_view() =~= ev.push(
        EdgeModel {
            source: s,
            source_port,
            target: t,
            target_port,
            message_type: cc.msg@,
            extra_fields: extras.deep_view(),
        },
    ));
}

// ---------------------------------------------------------------------------
// The whole document
// ---------------------------------------------------------------------------

/// A node whose kind is still unresolved takes one from its ports: only
/// outputs make a source, only inputs a sink, both a task.
pub open spec fn settled(node: NodeModel) -> NodeModel {
    if node.kind == ComponentKind::Unresolved {
        NodeModel {
            kind: if node.inputs.len() == 0 && node.outputs.len() != 0 {
                ComponentKind::Source
            } else if node.inputs.len() != 0 && node.outputs.len() == 0 {
                ComponentKind::Sink
            } else if node.inputs.len() != 0 && node.outputs.len() != 0 {
                ComponentKind::Task
            } else {
                ComponentKind::Unresolved
            },
            ..node
        }
    } else {
        node
    }
}

/// The nodes of the tasks, then of the bridges, before any connection.
pub open spec fn initial_nodes(raw: RawRoot, source: Seq<char>, catalog: Seq<ComponentModel>) -> Seq<NodeModel> {
    let te = section_extras_spec(source, "tasks"@, task_keys());
    let be = section_extras_spec(source, "bridges"@, bridge_keys());
    Seq::new(raw.tasks@.len(), |i: int| task_node(raw.tasks@[i], extras_at(te, i), catalog)) + Seq::new(
        raw.bridges@.len(),
        |i: int| bridge_node(raw.bridges@[i], extras_at(be, i), catalog),
    )
}

pub open spec fn monitor_model(m: RawMonitor) -> MonitorModel {
    MonitorModel { component_type: m.type_@, config: m.config.deep_view() }
}

/// The monitors of the `monitors` list, then the single `monitor`, if any.
pub open spec fn raw_monitors(raw: RawRoot) -> Seq<MonitorModel> {
    Seq::new(raw.monitors@.len(), |i: int| monitor_model(raw.monitors@[i])) + match raw.monitor {
        Some(m) => seq![monitor_model(m)],
        None => Seq::empty(),
    }
}

/// The document a parsed configuration describes; `source` is the text it
/// was parsed from, which supplies the fields the editor does not model and
/// the constants.
pub open spec fn built_document(raw: RawRoot, source: Seq<char>, catalog: Seq<ComponentModel>) -> DocumentModel {
    let ce = section_extras_spec(source, "cnx"@, connection_keys());
    let wired = connect_all(initial_nodes(raw, source, catalog), raw.cnx@, ce, raw.cnx@.len() as int);
    DocumentModel {
        nodes: Seq::new(wired.0.len(), |i: int| settled(wired.0[i])),
        edges: wired.1,
        monitors: raw_monitors(raw),
        constants: parsed_constants(source),
    }
}

/// Every edge joins existing nodes through ports they have.
pub open spec fn edges_fit(nodes: Seq<NodeModel>, edges: Seq<EdgeModel>) -> bool {
    forall|i: int| 0 <= i < edges.len() ==> {
        let e = #[trigger] edges[i];
        &&& e.source < nodes.len()
        &&& e.target < nodes.len()
        &&& e.source_port < nodes[e.source as int].outputs.len()
        &&& e.target_port < nodes[e.target as int].inputs.len()
    }
}

/// The ids of the nodes a configuration declares: its tasks', then its bridges'.
pub open spec fn raw_node_ids(raw: RawRoot) -> Seq<Seq<char>> {
    Seq::new(raw.tasks@.len(), |i: int| raw.tasks@[i].id@) + Seq::new(raw.bridges@.len(), |i: int| raw.bridges@[i].id@)
}

/// A connection entry that becomes an edge: both endpoints name declared
/// nodes (by the text before `/`) and the target is not `__nc__`.
pub open spec fn wires(ids: Seq<Seq<char>>, c: RawConnection) -> bool {
    &&& ids.contains(endpoint_parts(c.src@).0)
    &&& c.dst@ != NC_ENDPOINT@
    &&& ids.contains(endpoint_parts(c.dst@).0)
}

/// How many of the first `k` connection entries become edges.
pub open spec fn wired_count(ids: Seq<Seq<char>>, cnx: Seq<RawConnection>, k: int) -> nat
    decreases k,
{
    if k <= 0 || k > cnx.len() {
        0
    } else {
        wired_count(ids, cnx, k - 1) + if wires(ids, cnx[k - 1]) { 1nat } else { 0nat }
    }
}

/// Two node lists with the same ids in the same places, where the second's
/// nodes have at least the ports of the first's.
pub open spec fn grown_from(a: Seq<NodeModel>, b: Seq<NodeModel>) -> bool {
    &&& a.len() == b.len()
    &&& forall|i: int| 0 <= i < a.len() ==> (#[trigger] b[i]).id == a[i].id
        && b[i].inputs.len() >= a[i].inputs.len() && b[i].outputs.len() >= a[i].outputs.len()
}

proof fn lemma_last_with_id_exists(nodes: Seq<NodeModel>, id: Seq<char>, k: int)
    requires
        0 <= k <= nodes.len(),
    ensures
        last_with_id(nodes, id, k) is Some <==> exists|i: int| 0 <= i < k && (#[trigger] nodes[i]).id == id,
    decreases k,
{
    if k > 0 && nodes[k - 1].id != id {
        lemma_last_with_id_exists(nodes, id, k - 1);
        assert forall|i: int| 0 <= i < k && (#[trigger] nodes[i]).id == id implies i < k - 1 by {}
    }
}

proof fn lemma_named_node(nodes: Seq<NodeModel>, ids: Seq<Seq<char>>, id: Seq<char>)
    requires
        nodes.len() == ids.len(),
        forall|i: int| 0 <= i < nodes.len() ==> (#[trigger] nodes[i]).id == ids[i],
    ensures
        node_with_id(nodes, id) is Some <==> ids.contains(id),
{
    lemma_last_with_id_exists(nodes, id, nodes.len() as int);
    if ids.contains(id) {
        let j = choose|j: int| 0 <= j < ids.len() && ids[j] == id;
        assert(nodes[j].id == id);
    }
}

proof fn lemma_same_ids_same_lookup(a: Seq<NodeModel>, b: Seq<NodeModel>, id: Seq<char>, k: int)
    requires
        grown_from(a, b),
        0 <= k <= a.len(),
    ensures
        last_with_id(a, id, k) == last_with_id(b, id, k),
    decreases k,
{
    if k > 0 {
        assert(b[k - 1].id == a[k - 1].id);
        lemma_same_ids_same_lookup(a, b, id, k - 1);
    }
}

/// Every node list, and every port list of the nodes, leaves room for `more`
/// further entries within `usize`.
pub open spec fn room_for(nodes: Seq<NodeModel>, more: int) -> bool {
    &&& nodes.len() <= usize::MAX
    &&& forall|i: int| 0 <= i < nodes.len() ==> (#[trigger] nodes[i]).inputs.len() + more <= usize::MAX
        && nodes[i].outputs.len() + more <= usize::MAX
}

/// The nodes' port lists have grown by at most `k` entries each.
pub open spec fn grown_at_most(a: Seq<NodeModel>, b: Seq<NodeModel>, k: int) -> bool {
    forall|i: int| 0 <= i < a.len() ==> (#[trigger] b[i]).inputs.len() <= a[i].inputs.len() + k
        && b[i].outputs.len() <= a[i].outputs.len() + k
}

proof fn lemma_connect_shape(nodes: Seq<NodeModel>, edges: Seq<EdgeModel>, c: RawConnection, extras: Seq<Pair>)
    requires
        edges_fit(nodes, edges),
        room_for(nodes, 1),
    ensures
        grown_at_most(nodes, connect(nodes, edges, c, extras).0, 1),
        grown_from(nodes, connect(nodes, edges, c, extras).0),
        edges_fit(connect(nodes, edges, c, extras).0, connect(nodes, edges, c, extras).1),
        connect(nodes, edges, c, extras).1.len() == edges.len() + if node_with_id(nodes, endpoint_parts(c.src@).0) is Some
            && c.dst@ != NC_ENDPOINT@ && node_with_id(nodes, endpoint_parts(c.dst@).0) is Some { 1int } else { 0int },
{
    let (source_id, source_channel) = endpoint_parts(c.src@);
    lemma_last_with_id(nodes, source_id, nodes.len() as int);
    match node_with_id(nodes, source_id) {
        None => {},
        Some(s) => {
            lemma_ensured_port_fits(nodes[s].outputs, PortDirection::Output, source_channel, c.msg@, Seq::empty());
            let (outputs, source_port) = ensured_port(nodes[s].outputs, PortDirection::Output, source_channel, c.msg@, Seq::empty());
            let nodes1 = nodes.update(s, with_outputs(nodes[s], outputs));
            assert(grown_from(nodes, nodes1));
            assert(edges_fit(nodes1, edges)) by {
                assert forall|i: int| 0 <= i < edges.len() implies {
                    let e = #[trigger] edges[i];
                    &&& e.source < nodes1.len()
                    &&& e.target < nodes1.len()
                    &&& e.source_port < nodes1[e.source as int].outputs.len()
                    &&& e.target_port < nodes1[e.target as int].inputs.len()
                } by {
                    let e = edges[i];
                    assert(nodes1[e.source as int].outputs.len() >= nodes[e.source as int].outputs.len());
                    assert(nodes1[e.target as int].inputs.len() >= nodes[e.target as int].inputs.len());
                }
            }
            if c.dst@ != NC_ENDPOINT@ {
                let (target_id, target_channel) = endpoint_parts(c.dst@);
                lemma_same_ids_same_lookup(nodes, nodes1, target_id, nodes.len() as int);
                lemma_last_with_id(nodes1, target_id, nodes1.len() as int);
                match node_with_id(nodes1, target_id) {
                    None => {},
                    Some(t) => {
                        let occupied = occupied_inputs(edges, t);
                        lemma_ensured_port_fits(nodes1[t].inputs, PortDirection::Input, target_channel, c.msg@, occupied);
                        let (inputs, target_port) = ensured_port(nodes1[t].inputs, PortDirection::Input, target_channel, c.msg@, occupied);
                        let nodes2 = nodes1.update(t, with_inputs(nodes1[t], inputs));
                        let r = connect(nodes, edges, c, extras);
                        assert(r.0 == nodes2);
                        assert(grown_from(nodes, nodes2)) by {
                            assert forall|i: int| 0 <= i < nodes.len() implies (#[trigger] nodes2[i]).id == nodes[i].id
                                && nodes2[i].inputs.len() >= nodes[i].inputs.len() && nodes2[i].outputs.len() >= nodes[i].outputs.len() by {
                                assert(nodes1[i].id == nodes[i].id);
                            }
                        }
                        assert forall|i: int| 0 <= i < r.1.len() implies {
                            let e = #[trigger] r.1[i];
                            &&& e.source < nodes2.len()
                            &&& e.target < nodes2.len()
                            &&& e.source_port < nodes2[e.source as int].outputs.len()
                            &&& e.target_port < nodes2[e.target as int].inputs.len()
                        } by {
                            if i < edges.len() {
                                let e = edges[i];
                                assert(r.1[i] == e);
                                assert(nodes2[e.source as int].outputs.len() >= nodes1[e.source as int].outputs.len());
                                assert(nodes2[e.target as int].inputs.len() >= nodes1[e.target as int].inputs.len());
                            } else {
                                assert(r.1[i].source == s as usize && r.1[i].target == t as usize);
                                assert(r.1[i].source_port == source_port as usize && r.1[i].target_port == target_port as usize);
                                assert(nodes1[s].outputs == outputs);
                                assert(nodes2[s].outputs == nodes1[s].outputs);
                                assert(nodes2[t].inputs == inputs);
                            }
                        }
                    },
                }
            }
        },
    }
}

proof fn lemma_connect_all_shape(nodes: Seq<NodeModel>, ids: Seq<Seq<char>>, cnx: Seq<RawConnection>, extras: Seq<Seq<Pair>>, k: int)
    requires
        0 <= k <= cnx.len(),
        room_for(nodes, k),
        nodes.len() == ids.len(),
        forall|i: int| 0 <= i < nodes.len() ==> (#[trigger] nodes[i]).id == ids[i],
    ensures
        grown_from(nodes, connect_all(nodes, cnx, extras, k).0),
        grown_at_most(nodes, connect_all(nodes, cnx, extras, k).0, k),
        edges_fit(connect_all(nodes, cnx, extras, k).0, connect_all(nodes, cnx, extras, k).1),
        connect_all(nodes, cnx, extras, k).1.len() == wired_count(ids, cnx, k),
    decreases k,
{
    if k > 0 {
        lemma_connect_all_shape(nodes, ids, cnx, extras, k - 1);
        let (n, e) = connect_all(nodes, cnx, extras, k - 1);
        assert(room_for(n, 1)) by {
            assert forall|i: int| 0 <= i < n.len() implies (#[trigger] n[i]).inputs.len() + 1 <= usize::MAX
                && n[i].outputs.len() + 1 <= usize::MAX by {
                assert(nodes[i].inputs.len() + k <= usize::MAX);
            }
        }
        lemma_connect_shape(n, e, cnx[k - 1], extras_at(extras, k - 1));
        assert forall|i: int| 0 <= i < n.len() implies (#[trigger] n[i]).id == ids[i] by {
            assert(n[i].id == nodes[i].id);
        }
        lemma_named_node(n, ids, endpoint_parts(cnx[k - 1].src@).0);
        lemma_named_node(n, ids, endpoint_parts(cnx[k - 1].dst@).0);
        let r = connect(n, e, cnx[k - 1], extras_at(extras, k - 1));
        assert forall|i: int| 0 <= i < nodes.len() implies (#[trigger] r.0[i]).id == nodes[i].id
            && r.0[i].inputs.len() >= nodes[i].inputs.len() && r.0[i].outputs.len() >= nodes[i].outputs.len() by {
            assert(n[i].id == nodes[i].id);
            assert(r.0[i].id == n[i].id);
        }
        assert forall|i: int| 0 <= i < nodes.len() implies (#[trigger] r.0[i]).inputs.len() <= nodes[i].inputs.len() + k
            && r.0[i].outputs.len() <= nodes[i].outputs.len() + k by {
            assert(n[i].inputs.len() <= nodes[i].inputs.len() + k - 1);
            assert(n[i].outputs.len() <= nodes[i].outputs.len() + k - 1);
        }
    }
}

proof fn lemma_with_channels_id(node: NodeModel, channels: Seq<RawBridgeChannel>, discovered: Option<Seq<ChannelModel>>, k: int)
    ensures
        with_channels(node, channels, discovered, k).id == node.id,
    decreases k,
{
    if 0 < k <= channels.len() {
        lemma_with_channels_id(node, channels, discovered, k - 1);
    }
}

/// The shape of the document a configuration describes: a node for each task
/// and bridge; an edge for each connection entry whose endpoints name declared
/// nodes and whose target is not `__nc__`, joining existing nodes through
/// ports they have; and a node whose kind stays unresolved has no ports.
pub proof fn lemma_built_document_shape(raw: RawRoot, source: Seq<char>, catalog: Seq<ComponentModel>)
    requires
        room_for(initial_nodes(raw, source, catalog), raw.cnx@.len() as int),
    ensures
        built_document(raw, source, catalog).nodes.len() == raw.tasks@.len() + raw.bridges@.len(),
        built_document(raw, source, catalog).edges.len() == wired_count(raw_node_ids(raw), raw.cnx@, raw.cnx@.len() as int),
        edges_fit(built_document(raw, source, catalog).nodes, built_document(raw, source, catalog).edges),
        forall|i: int| 0 <= i < built_document(raw, source, catalog).nodes.len()
            && (#[trigger] built_document(raw, source, catalog).nodes[i]).kind == ComponentKind::Unresolved
            ==> built_document(raw, source, catalog).nodes[i].inputs.len() == 0
                && built_document(raw, source, catalog).nodes[i].outputs.len() == 0,
{
    let init = initial_nodes(raw, source, catalog);
    let ids = raw_node_ids(raw);
    let be = section_extras_spec(source, "bridges"@, bridge_keys());
    assert forall|i: int| 0 <= i < init.len() implies (#[trigger] init[i]).id == ids[i] by {
        if i >= raw.tasks@.len() {
            let j = i - raw.tasks@.len();
            let b = raw.bridges@[j];
            let discovered = match find_component(catalog, b.type_@) {
                Some(x) => Some(catalog[x].channels),
                None => None,
            };
            lemma_with_channels_id(bridge_base(b, extras_at(be, j), catalog), b.channels@, discovered, b.channels@.len() as int);
        }
    }
    let ce = section_extras_spec(source, "cnx"@, connection_keys());
    lemma_connect_all_shape(init, ids, raw.cnx@, ce, raw.cnx@.len() as int);
    let wired = connect_all(init, raw.cnx@, ce, raw.cnx@.len() as int);
    let d = built_document(raw, source, catalog);
    assert forall|i: int| 0 <= i < d.edges.len() implies {
        let e = #[trigger] d.edges[i];
        &&& e.source < d.nodes.len()
        &&& e.target < d.nodes.len()
        &&& e.source_port < d.nodes[e.source as int].outputs.len()
        &&& e.target_port < d.nodes[e.target as int].inputs.len()
    } by {
        let e = d.edges[i];
        assert(e == wired.1[i]);
        assert(d.nodes[e.source as int] == settled(wired.0[e.source as int]));
        assert(d.nodes[e.target as int] == settled(wired.0[e.target as int]));
    }
}

/// The sections whose entries are read from the text can be split.
pub open spec fn sections_splittable(source: Seq<char>) -> bool {
    &&& section_splittable(source, "tasks"@)
    &&& section_splittable(source, "bridges"@)
    &&& section_splittable(source, "cnx"@)
    &&& section_splittable(source, "constants"@)
}

fn settle_kind(node: &mut GraphNode)
    ensures
        final(node).deep_view() == settled(old(node).deep_view()),
{
    if node.kind == ComponentKind::Unresolved {
        let no_inputs = node.inputs.len() == 0;
        let no_outputs = node.outputs.len() == 0;
        node.kind = if no_inputs && !no_outputs {
            ComponentKind::Source
        } else if !no_inputs && no_outputs {
            ComponentKind::Sink
        } else if !no_inputs && !no_outputs {
            ComponentKind::Task
        } else {
            ComponentKind::Unresolved
        };
    }
}

fn monitor_to_instance(m: RawMonitor) -> (r: MonitorInstance)
    ensures
        r.deep_view() == monitor_model(m),
{
    MonitorInstance { component_type: m.type_, config: EditableConfig(m.config) }
}

/// Builds the document a parsed configuration describes (see [`built_document`]).
pub fn build_document(raw: RawRoot, source: &[char], catalog: &ComponentCatalog) -> (r: GraphDocument)
    requires
        sections_splittable(source@),
    ensures
        r.deep_view() == built_document(raw, source@, catalog.components.deep_view()),
{
    let ghost rv = raw;
    let ghost cat = catalog.components.deep_view();
    let task_known: Vec<&str> = vec!["id", "type", "kind", "config", "background", "run_in_sim", "logging"];
    assert(task_known.deep_view() =~= task_keys());
    let bridge_known: Vec<&str> = vec!["id", "type", "config", "channels", "run_in_sim"];
    assert(bridge_known.deep_view() =~= bridge_keys());
    let connection_known: Vec<&str> = vec!["src", "dst", "msg"];
    assert(connection_known.deep_view() =~= connection_keys());
    let task_extras = section_extras(source, "tasks", &task_known);
    let bridge_extras = section_extras(source, "bridges", &bridge_known);
    let connection_extras = section_extras(source, "cnx", &connection_known);
    let ghost te = task_extras.deep_view();
    let ghost be = bridge_extras.deep_view();
    let ghost ce = connection_extras.deep_view();
    let ghost init = initial_nodes(rv, source@, cat);

    let mut nodes: Vec<GraphNode> = Vec::new();
    let mut tasks = raw.tasks;
    let nt = tasks.len();
    let mut k: usize = 0;
    while k < nt
        invariant
            k <= nt,
            nt == rv.tasks@.len(),
            tasks@ =~= rv.tasks@.subrange(k as int, nt as int),
            te == task_extras.deep_view(),
            te == section_extras_spec(source@, "tasks"@, task_keys()),
            cat == catalog.components.deep_view(),
            nodes.deep_view() =~= Seq::new(k as nat, |i: int| task_node(rv.tasks@[i], extras_at(te, i), cat)),
        decreases nt - k,
    {
        let task = tasks.remove(0);
        assert(task == rv.tasks@[k as int]);
        let extras = extras_for(&task_extras, k);
        let node = task_to_node(task, extras, catalog);
        let ghost before = nodes.deep_view();
        nodes.push(node);
        assert(nodes.deep_view() =~= before.push(node.deep_view()));
        k = k + 1;
        assert(tasks@ =~= rv.tasks@.subrange(k as int, nt as int));
    }
    let mut bridges = raw.bridges;
    let nb = bridges.len();
    let mut k: usize = 0;
    while k < nb
        invariant
            k <= nb,
            nb == rv.bridges@.len(),
            nt == rv.tasks@.len(),
            bridges@ =~= rv.bridges@.subrange(k as int, nb as int),
            be == bridge_extras.deep_view(),
            be == section_extras_spec(source@, "bridges"@, bridge_keys()),
            te == section_extras_spec(source@, "tasks"@, task_keys()),
            cat == catalog.components.deep_view(),
            nodes.deep_view() =~= Seq::new(nt as nat, |i: int| task_node(rv.tasks@[i], extras_at(te, i), cat))
                + Seq::new(k as nat, |i: int| bridge_node(rv.bridges@[i], extras_at(be, i), cat)),
        decreases nb - k,
    {
        let bridge = bridges.remove(0);
        assert(bridge == rv.bridges@[k as int]);
        let extras = extras_for(&bridge_extras, k);
        let node = bridge_to_node(bridge, extras, catalog);
        let ghost before = nodes.deep_view();
        nodes.push(node);
        assert(nodes.deep_view() =~= before.push(node.deep_view()));
        k = k + 1;
        assert(bridges@ =~= rv.bridges@.subrange(k as int, nb as int));
    }
    assert(nodes.deep_view() =~= init);

    let mut edges: Vec<GraphEdge> = Vec::new();
    let mut cnx = raw.cnx;
    let nc = cnx.len();
    let mut k: usize = 0;
    assert(edges.deep_view() =~= Seq::<EdgeModel>::empty());
    while k < nc
        invariant
            k <= nc,
            nc == rv.cnx@.len(),
            cnx@ =~= rv.cnx@.subrange(k as int, nc as int),
            ce == connection_extras.deep_view(),
            (nodes.deep_view(), edges.deep_view()) == connect_all(init, rv.cnx@, ce, k as int),
        decreases nc - k,
    {
        let c = cnx.remove(0);
        assert(c == rv.cnx@[k as int]);
        let extras = extras_for(&connection_extras, k);
        connect_entry(&mut nodes, &mut edges, c, extras);
        k = k + 1;
        assert(cnx@ =~= rv.cnx@.subrange(k as int, nc as int));
    }
    let ghost wired = nodes.deep_view();
    let mut i: usize = 0;
    while i < nodes.len()
        invariant
            i <= nodes@.len(),
            nodes@.len() == wired.len(),
            forall|j: int| 0 <= j < i ==> (#[trigger] nodes.deep_view()[j]) == settled(wired[j]),
            forall|j: int| i <= j < wired.len() ==> (#[trigger] nodes.deep_view()[j]) == wired[j],
        decreases nodes.len() - i,
    {
        let ghost before = nodes.deep_view();
        settle_kind(&mut nodes[i]);
        assert(nodes.deep_view() =~= before.update(i as int, settled(before[i as int])));
        i = i + 1;
    }
    assert(nodes.deep_view() =~= Seq::new(wired.len(), |j: int| settled(wired[j])));

    let mut monitors: Vec<MonitorInstance> = Vec::new();
    let mut listed = raw.monitors;
    let nm = listed.len();
    let mut k: usize = 0;
    while k < nm
        invariant
            k <= nm,
            nm == rv.monitors@.len(),
            listed@ =~= rv.monitors@.subrange(k as int, nm as int),
            monitors.deep_view() =~= Seq::new(k as nat, |i: int| monitor_model(rv.monitors@[i])),
        decreases nm - k,
    {
        let m = listed.remove(0);
        assert(m == rv.monitors@[k as int]);
        let ghost before = monitors.deep_view();
        let mi = monitor_to_instance(m);
        monitors.push(mi);
        assert(monitors.deep_view() =~= before.push(mi.deep_view()));
        k = k + 1;
        assert(listed@ =~= rv.monitors@.subrange(k as int, nm as int));
    }
    if let Some(m) = raw.monitor {
        let ghost before = monitors.deep_view();
        let mi = monitor_to_instance(m);
        monitors.push(mi);
        assert(monitors.deep_view() =~= before.push(mi.deep_view()));
    }
    assert(monitors.deep_view() =~= raw_monitors(rv));
    let constants = parse_constants(source);
    GraphDocument { nodes, edges, monitors, constants }
}

} // verus!
