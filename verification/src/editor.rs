//! What the graph editor decides: how nodes are shown (a bridge as two
//! nodes, one per graph direction), the keys their positions are saved under,
//! and the edits the editor makes to the document.
use vstd::prelude::*;

use crate::editing::{add_edge_answer, id_used, new_edge, unique_id, with_edge};
use crate::fieldmap::{insert_field, keys_sorted, map_get, map_insert, Pair};
use crate::model::{
    clone_ports, ComponentDescriptor, ComponentKind, ComponentModel, ConfigHint, DocumentModel,
    EdgeModel, EditableConfig, GraphDocument, GraphEdge, GraphNode, NodeModel, PortDescriptor,
    MonitorModel, PortModel, component_node,
};
use crate::indexer::{find_component, ComponentCatalog};
use crate::order::{lemma_lex_order, lex_lt};
use crate::text::{chars_of, push_str, str_eq, string_of, trim, trimmed};

verus! {

// ---------------------------------------------------------------------------
// Nodes as the editor shows them
// ---------------------------------------------------------------------------

/// Which part of a node a visual node shows: all of it, or one side of a bridge.
#[derive(Debug, Clone, Copy, PartialEq, Eq, Structural)]
pub enum BridgeSide {
    Regular,
    /// Where a bridge's received data enters the graph: its outputs.
    Receive,
    /// Where the graph hands data to a bridge to send: its inputs.
    Transmit,
}

impl BridgeSide {
    /// The caption of a bridge side; none for a regular node.
    pub fn label(self) -> (r: Option<&'static str>)
        ensures
            self == BridgeSide::Regular ==> r is None,
            self == BridgeSide::Receive ==> (r matches Some(s) && s@ == "RX · source side"@),
            self == BridgeSide::Transmit ==> (r matches Some(s) && s@ == "TX · sink side"@),
    {
        match self {
            BridgeSide::Regular => None,
            BridgeSide::Receive => Some("RX · source side"),
            BridgeSide::Transmit => Some("TX · sink side"),
        }
    }
}

/// A node of the editor's graph view.
#[derive(Debug)]
pub struct UiNode {
    pub component_type: String,
    pub model_id: String,
    pub kind: ComponentKind,
    pub side: BridgeSide,
    pub inputs: Vec<PortDescriptor>,
    pub outputs: Vec<PortDescriptor>,
}

impl UiNode {
    /// The visual node for a component: the receive side of a bridge shows no
    /// inputs and the transmit side no outputs.
    pub fn from_component(
        component: &ComponentDescriptor,
        component_type: String,
        model_id: String,
        side: BridgeSide,
    ) -> (r: Self)
        ensures
            r.component_type == component_type,
            r.model_id == model_id,
            r.kind == component.kind,
            r.side == side,
            r.inputs.deep_view() == (if side == BridgeSide::Receive {
                Seq::empty()
            } else {
                component.inputs.deep_view()
            }),
            r.outputs.deep_view() == (if side == BridgeSide::Transmit {
                Seq::empty()
            } else {
                component.outputs.deep_view()
            }),
    {
        let inputs = if side == BridgeSide::Receive {
            let v: Vec<PortDescriptor> = Vec::new();
            assert(v.deep_view() =~= Seq::<PortModel>::empty());
            v
        } else {
            clone_ports(&component.inputs)
        };
        let outputs = if side == BridgeSide::Transmit {
            let v: Vec<PortDescriptor> = Vec::new();
            assert(v.deep_view() =~= Seq::<PortModel>::empty());
            v
        } else {
            clone_ports(&component.outputs)
        };
        UiNode { component_type, model_id, kind: component.kind, side, inputs, outputs }
    }
}

/// The title of a visual node: the node's ID, marked `RX` or `TX` on a bridge side.
pub open spec fn visual_label_text(id: Seq<char>, side: BridgeSide) -> Seq<char> {
    match side {
        BridgeSide::Regular => id,
        BridgeSide::Receive => id + " · RX"@,
        BridgeSide::Transmit => id + " · TX"@,
    }
}

/// The title of a visual node (see [`visual_label_text`]); the ID is never shortened.
pub fn visual_label(id: &str, side: BridgeSide) -> (r: String)
    ensures
        r@ == visual_label_text(id@, side),
{
    let mut out: Vec<char> = Vec::new();
    push_str(&mut out, id);
    match side {
        BridgeSide::Regular => {},
        BridgeSide::Receive => push_str(&mut out, " · RX"),
        BridgeSide::Transmit => push_str(&mut out, " · TX"),
    }
    string_of(out.as_slice())
}

/// The prefix that tells the kinds of visual node apart in saved layouts.
pub open spec fn layout_prefix(side: BridgeSide) -> Seq<char> {
    match side {
        BridgeSide::Regular => "node:"@,
        BridgeSide::Receive => "bridge-rx:"@,
        BridgeSide::Transmit => "bridge-tx:"@,
    }
}

/// The key a visual node's position is saved under.
pub open spec fn layout_key_text(side: BridgeSide, model_id: Seq<char>) -> Seq<char> {
    layout_prefix(side) + model_id
}

/// The key a visual node's position is saved under (see [`layout_key_text`]).
pub fn layout_key(node: &UiNode) -> (r: String)
    ensures
        r@ == layout_key_text(node.side, node.model_id@),
{
    let mut out: Vec<char> = Vec::new();
    match node.side {
        BridgeSide::Regular => push_str(&mut out, "node:"),
        BridgeSide::Receive => push_str(&mut out, "bridge-rx:"),
        BridgeSide::Transmit => push_str(&mut out, "bridge-tx:"),
    }
    push_str(&mut out, node.model_id.as_str());
    string_of(out.as_slice())
}

/// Two visual nodes share a layout key only when they show the same side of
/// the same node, so the two sides of a bridge keep their own positions.
pub proof fn lemma_layout_keys_distinguish(a: BridgeSide, id_a: Seq<char>, b: BridgeSide, id_b: Seq<char>)
    requires
        layout_key_text(a, id_a) == layout_key_text(b, id_b),
    ensures
        a == b,
        id_a == id_b,
{
    reveal_strlit("node:");
    reveal_strlit("bridge-rx:");
    reveal_strlit("bridge-tx:");
    let ka = layout_key_text(a, id_a);
    let kb = layout_key_text(b, id_b);
    assert(ka[0] == layout_prefix(a)[0]);
    assert(kb[0] == layout_prefix(b)[0]);
    if a != BridgeSide::Regular && b != BridgeSide::Regular {
        assert(ka[7] == layout_prefix(a)[7]);
        assert(kb[7] == layout_prefix(b)[7]);
    }
    assert(a == b);
    let n = layout_prefix(a).len() as int;
    assert(id_a =~= ka.subrange(n, ka.len() as int));
    assert(id_b =~= kb.subrange(n, kb.len() as int));
}

/// The version of the layout file format written.
pub fn layout_version() -> (r: u32)
    ensures
        r == 2,
{
    2
}

/// How a saved layout of a given version is taken: version 1 is read as the
/// current version without its camera, the current version as it is, and any
/// other not at all. Answers, where it is taken, whether its camera is kept.
pub fn layout_camera_kept(version: u32) -> (r: Option<bool>)
    ensures
        version == 1 ==> r == Some(false),
        version == 2 ==> r == Some(true),
        version != 1 && version != 2 ==> r is None,
{
    if version == 1 {
        Some(false)
    } else if version == layout_version() {
        Some(true)
    } else {
        None
    }
}

/// The component a document node stands for in the graph view: its type,
/// kind and ports, displayed under the node's ID.
pub fn component_for_node(node: &GraphNode) -> (r: ComponentDescriptor)
    ensures
        r.deep_view() == (ComponentModel {
            type_path: node.component_type@,
            display_name: node.id@,
            package: Seq::empty(),
            kind: node.kind,
            inputs: node.inputs.deep_view(),
            outputs: node.outputs.deep_view(),
            channels: Seq::empty(),
            config_hints: Seq::empty(),
            workspace_only: false,
            source_path: None,
        }),
{
    let channels: Vec<crate::model::BridgeChannelDescriptor> = Vec::new();
    let config_hints: Vec<ConfigHint> = Vec::new();
    let r = ComponentDescriptor {
        type_path: node.component_type.clone(),
        display_name: node.id.clone(),
        package: String::new(),
        kind: node.kind,
        inputs: clone_ports(&node.inputs),
        outputs: clone_ports(&node.outputs),
        channels,
        config_hints,
        workspace_only: false,
        source_path: None,
    };
    assert(r.channels.deep_view() =~= Seq::<crate::model::ChannelModel>::empty());
    assert(r.config_hints.deep_view() =~= Seq::<crate::model::HintModel>::empty());
    r
}


// ---------------------------------------------------------------------------
// The graph view of a document
// ---------------------------------------------------------------------------

/// What a visual node shows.
pub struct UiModel {
    pub component_type: Seq<char>,
    pub model_id: Seq<char>,
    pub kind: ComponentKind,
    pub side: BridgeSide,
    pub inputs: Seq<PortModel>,
    pub outputs: Seq<PortModel>,
}

impl DeepView for UiNode {
    type V = UiModel;

    open spec fn deep_view(&self) -> UiModel {
        UiModel {
            component_type: self.component_type@,
            model_id: self.model_id@,
            kind: self.kind,
            side: self.side,
            inputs: self.inputs.deep_view(),
            outputs: self.outputs.deep_view(),
        }
    }
}

/// One side of a component as a visual node (see [`UiNode::from_component`]).
pub open spec fn side_view(component: ComponentModel, component_type: Seq<char>, model_id: Seq<char>, side: BridgeSide) -> UiModel {
    UiModel {
        component_type,
        model_id,
        kind: component.kind,
        side,
        inputs: if side == BridgeSide::Receive {
            Seq::empty()
        } else {
            component.inputs
        },
        outputs: if side == BridgeSide::Transmit {
            Seq::empty()
        } else {
            component.outputs
        },
    }
}

/// The sides a component is shown with: a bridge as its receive side, where
/// its data enters the graph, and its transmit side; anything else whole.
pub open spec fn shown_sides(kind: ComponentKind) -> Seq<BridgeSide> {
    if kind == ComponentKind::Bridge {
        seq![BridgeSide::Receive, BridgeSide::Transmit]
    } else {
        seq![BridgeSide::Regular]
    }
}

/// The visual nodes of a component shown under `model_id`, in order of [`shown_sides`].
pub open spec fn component_views(component: ComponentModel, component_type: Seq<char>, model_id: Seq<char>) -> Seq<UiModel> {
    let sides = shown_sides(component.kind);
    Seq::new(sides.len(), |k: int| side_view(component, component_type, model_id, sides[k]))
}

/// The visual nodes of a component shown under `model_id` (see [`component_views`]).
pub fn visual_nodes_for(component: &ComponentDescriptor, component_type: &str, model_id: &str) -> (r: Vec<UiNode>)
    ensures
        r.deep_view() == component_views(component.deep_view(), component_type@, model_id@),
{
    let ghost c = component.deep_view();
    let mut out: Vec<UiNode> = Vec::new();
    if component.kind == ComponentKind::Bridge {
        out.push(UiNode::from_component(component, component_type.to_owned(), model_id.to_owned(), BridgeSide::Receive));
        out.push(UiNode::from_component(component, component_type.to_owned(), model_id.to_owned(), BridgeSide::Transmit));
    } else {
        out.push(UiNode::from_component(component, component_type.to_owned(), model_id.to_owned(), BridgeSide::Regular));
    }
    assert(out.deep_view() =~= component_views(c, component_type@, model_id@));
    out
}

/// The component a document node is shown as (see [`component_for_node`]).
pub open spec fn node_component(n: NodeModel) -> ComponentModel {
    ComponentModel {
        type_path: n.component_type,
        display_name: n.id,
        package: Seq::empty(),
        kind: n.kind,
        inputs: n.inputs,
        outputs: n.outputs,
        channels: Seq::empty(),
        config_hints: Seq::empty(),
        workspace_only: false,
        source_path: None,
    }
}

/// A visual node with the index of the document node it shows.
#[derive(Debug)]
pub struct VisualNode {
    pub index: usize,
    pub ui: UiNode,
}

impl DeepView for VisualNode {
    type V = (usize, UiModel);

    open spec fn deep_view(&self) -> (usize, UiModel) {
        (self.index, self.ui.deep_view())
    }
}

/// A connection between visual nodes: output `output` of visual node `source`
/// feeds input `input` of visual node `target`.
#[derive(Debug, Clone, Copy, PartialEq, Eq, Structural)]
pub struct VisualWire {
    pub source: usize,
    pub output: usize,
    pub target: usize,
    pub input: usize,
}

/// The visual nodes of the document's nodes, in order, each with its node's index.
pub open spec fn document_views(nodes: Seq<NodeModel>) -> Seq<(usize, UiModel)>
    decreases nodes.len(),
{
    if nodes.len() == 0 {
        Seq::empty()
    } else {
        let n = nodes.last();
        let views = component_views(node_component(n), n.component_type, n.id);
        document_views(nodes.drop_last()) + Seq::new(
            views.len(),
            |k: int| ((nodes.len() - 1) as usize, views[k]),
        )
    }
}

/// The position of the first visual node of node `i`.
pub open spec fn visual_start(nodes: Seq<NodeModel>, i: int) -> int {
    document_views(nodes.take(i)).len() as int
}

/// The wire a connection is drawn as: from the node's (receive side's) output
/// to the node's (transmit side's) input; none where an end or a port is missing.
pub open spec fn wire_of(nodes: Seq<NodeModel>, e: EdgeModel) -> Option<VisualWire> {
    if e.source < nodes.len() && e.target < nodes.len() && e.source_port < nodes[e.source as int].outputs.len()
        && e.target_port < nodes[e.target as int].inputs.len() {
        Some(
            VisualWire {
                source: visual_start(nodes, e.source as int) as usize,
                output: e.source_port,
                target: (visual_start(nodes, e.target as int) + if nodes[e.target as int].kind == ComponentKind::Bridge {
                    1int
                } else {
                    0int
                }) as usize,
                input: e.target_port,
            },
        )
    } else {
        None
    }
}

/// The wires of the connections, in order.
pub open spec fn wires_of(nodes: Seq<NodeModel>, edges: Seq<EdgeModel>) -> Seq<VisualWire>
    decreases edges.len(),
{
    if edges.len() == 0 {
        Seq::empty()
    } else {
        let rest = wires_of(nodes, edges.drop_last());
        match wire_of(nodes, edges.last()) {
            Some(w) => rest.push(w),
            None => rest,
        }
    }
}

proof fn lemma_views_len(nodes: Seq<NodeModel>)
    ensures
        document_views(nodes).len() <= 2 * nodes.len(),
    decreases nodes.len(),
{
    if nodes.len() > 0 {
        lemma_views_len(nodes.drop_last());
    }
}

impl GraphDocument {
    /// The graph view of the document: its visual nodes (see
    /// [`document_views`]) and the wires between them (see [`wires_of`]).
    pub fn visual_graph(&self) -> (r: (Vec<VisualNode>, Vec<VisualWire>))
        requires
            self.nodes@.len() <= usize::MAX / 2,
        ensures
            r.0.deep_view() == document_views(self.deep_view().nodes),
            r.1@ == wires_of(self.deep_view().nodes, self.deep_view().edges),
    {
        let ghost d = self.deep_view();
        let mut views: Vec<VisualNode> = Vec::new();
        let mut starts: Vec<usize> = Vec::new();
        let mut i: usize = 0;
        assert(d.nodes.take(0) =~= Seq::<NodeModel>::empty());
        assert(views.deep_view() =~= Seq::<(usize, UiModel)>::empty());
        while i < self.nodes.len()
            invariant
                i <= self.nodes@.len(),
                self.nodes@.len() <= usize::MAX / 2,
                d == self.deep_view(),
                views.deep_view() == document_views(d.nodes.take(i as int)),
                starts@.len() == i,
                forall|j: int| 0 <= j < i ==> starts@[j] == visual_start(d.nodes, j),
            decreases self.nodes.len() - i,
        {
            let ghost before = views.deep_view();
            proof {
                lemma_views_len(d.nodes.take(i as int));
                assert(d.nodes.take(i + 1).drop_last() =~= d.nodes.take(i as int));
                assert(d.nodes.take(i + 1).last() == self.nodes@[i as int].deep_view());
                assert(d.nodes.take(i as int).take(i as int) =~= d.nodes.take(i as int));
            }
            let node = &self.nodes[i];
            starts.push(views.len());
            assert(visual_start(d.nodes, i as int) == before.len()) by {
                assert(d.nodes.take(i as int) =~= d.nodes.take(i as int));
            }
            let component = component_for_node(node);
            let uis = visual_nodes_for(&component, node.component_type.as_str(), node.id.as_str());
            assert(component.deep_view() == node_component(node.deep_view()));
            let ghost cv = uis.deep_view();
            let mut k: usize = 0;
            let mut rest = uis;
            let n = rest.len();
            while k < n
                invariant
                    k <= n,
                    n == cv.len(),
                    cv.len() <= 2,
                    rest@.len() == n - k,
                    forall|t: int| 0 <= t < rest@.len() ==> (#[trigger] rest@[t]).deep_view() == cv[k + t],
                    views.deep_view() == before + Seq::new(k as nat, |t: int| (i, cv[t])),
                decreases n - k,
            {
                let ui = rest.remove(0);
                assert(ui.deep_view() == cv[k as int]);
                let ghost prev = views.deep_view();
                let item = VisualNode { index: i, ui };
                assert(item.deep_view() == (i, cv[k as int]));
                views.push(item);
                assert(views.deep_view() =~= prev.push((i, cv[k as int])));
                assert(views.deep_view() =~= before + Seq::new((k + 1) as nat, |t: int| (i, cv[t])));
                k = k + 1;
            }
            assert(views.deep_view() =~= document_views(d.nodes.take(i + 1)));
            assert forall|j: int| 0 <= j < i + 1 implies starts@[j] == visual_start(d.nodes, j) by {
                if j == i {
                    assert(d.nodes.take(j) =~= d.nodes.take(i as int));
                }
            }
            i = i + 1;
        }
        let mut wires: Vec<VisualWire> = Vec::new();
        let mut u: usize = 0;
        assert(d.edges.take(0) =~= Seq::<EdgeModel>::empty());
        assert(wires@ =~= Seq::<VisualWire>::empty());
        while u < self.edges.len()
            invariant
                u <= self.edges@.len(),
                d == self.deep_view(),
                starts@.len() == self.nodes@.len(),
                self.nodes@.len() <= usize::MAX / 2,
                forall|j: int| 0 <= j < starts@.len() ==> starts@[j] == visual_start(d.nodes, j),
                wires@ == wires_of(d.nodes, d.edges.take(u as int)),
            decreases self.edges.len() - u,
        {
            assert(d.edges.take(u + 1).drop_last() =~= d.edges.take(u as int));
            assert(d.edges.take(u + 1).last() == self.edges@[u as int].deep_view());
            let e = &self.edges[u];
            if e.source < self.nodes.len() && e.target < self.nodes.len() && e.source_port < self.nodes[e.source].outputs.len()
                && e.target_port < self.nodes[e.target].inputs.len() {
                proof {
                    lemma_views_len(d.nodes.take(e.target as int));
                    assert(d.nodes.take(e.target as int).len() == e.target);
                }
                let target = if self.nodes[e.target].kind == ComponentKind::Bridge {
                    starts[e.target] + 1
                } else {
                    starts[e.target]
                };
                let w = VisualWire { source: starts[e.source], output: e.source_port, target, input: e.target_port };
                let ghost prev = wires@;
                wires.push(w);
                assert(wires@ =~= prev.push(w));
            }
            u = u + 1;
        }
        assert(d.edges.take(self.edges.len() as int) =~= d.edges);
        assert(d.nodes.take(self.nodes.len() as int) =~= d.nodes);
        (views, wires)
    }
}

// ---------------------------------------------------------------------------
// Edits of the document
// ---------------------------------------------------------------------------

/// The first node at or after `k` with this ID.
pub open spec fn first_with_id(nodes: Seq<NodeModel>, id: Seq<char>, k: int) -> Option<int>
    decreases nodes.len() - k,
{
    if k < 0 || k >= nodes.len() {
        None
    } else if nodes[k].id == id {
        Some(k)
    } else {
        first_with_id(nodes, id, k + 1)
    }
}

proof fn lemma_first_with_id(nodes: Seq<NodeModel>, id: Seq<char>, k: int)
    requires
        0 <= k,
    ensures
        first_with_id(nodes, id, k) matches Some(i) ==> k <= i < nodes.len() && nodes[i].id == id,
    decreases nodes.len() - k,
{
    if k < nodes.len() && nodes[k].id != id {
        lemma_first_with_id(nodes, id, k + 1);
    }
}

/// Every connection joins nodes that exist.
pub open spec fn edges_in_range(doc: DocumentModel) -> bool {
    forall|u: int| 0 <= u < doc.edges.len() ==> (#[trigger] doc.edges[u]).source < doc.nodes.len()
        && doc.edges[u].target < doc.nodes.len()
}

/// An edge once the node at `index` is gone: later nodes move down by one.
pub open spec fn shifted(e: EdgeModel, index: int) -> EdgeModel {
    EdgeModel {
        source: if e.source > index { (e.source - 1) as usize } else { e.source },
        target: if e.target > index { (e.target - 1) as usize } else { e.target },
        ..e
    }
}

/// The edges that do not touch the node at `index`, renumbered.
pub open spec fn kept_edges(edges: Seq<EdgeModel>, index: int) -> Seq<EdgeModel>
    decreases edges.len(),
{
    if edges.len() == 0 {
        Seq::empty()
    } else {
        let rest = kept_edges(edges.drop_last(), index);
        let e = edges.last();
        if e.source == index || e.target == index {
            rest
        } else {
            rest.push(shifted(e, index))
        }
    }
}

/// The document without the node at `index` and its connections.
pub open spec fn without_node(doc: DocumentModel, index: int) -> DocumentModel {
    DocumentModel { nodes: doc.nodes.remove(index), edges: kept_edges(doc.edges, index), ..doc }
}

proof fn lemma_kept_edges_in_range(edges: Seq<EdgeModel>, index: int, n: int)
    requires
        0 <= index < n,
        forall|u: int| 0 <= u < edges.len() ==> (#[trigger] edges[u]).source < n && edges[u].target < n,
    ensures
        forall|u: int| 0 <= u < kept_edges(edges, index).len() ==> (#[trigger] kept_edges(edges, index)[u]).source
            < n - 1 && kept_edges(edges, index)[u].target < n - 1,
    decreases edges.len(),
{
    if edges.len() > 0 {
        let d = edges.drop_last();
        assert forall|u: int| 0 <= u < d.len() implies (#[trigger] d[u]).source < n && d[u].target < n by {
            assert(d[u] == edges[u]);
        }
        lemma_kept_edges_in_range(d, index, n);
        let k = kept_edges(edges, index);
        let r = kept_edges(d, index);
        let e = edges[edges.len() - 1];
        assert(edges.last() == e);
        assert forall|u: int| 0 <= u < k.len() implies (#[trigger] k[u]).source < n - 1 && k[u].target < n - 1 by {
            if u < r.len() {
                assert(k[u] == r[u]);
            }
        }
    }
}

/// Removing a node keeps every remaining connection between existing nodes.
pub proof fn lemma_removal_keeps_edges_in_range(doc: DocumentModel, index: int)
    requires
        0 <= index < doc.nodes.len(),
        edges_in_range(doc),
    ensures
        edges_in_range(without_node(doc, index)),
{
    lemma_kept_edges_in_range(doc.edges, index, doc.nodes.len() as int);
}

proof fn lemma_kept_edges_come_from(edges: Seq<EdgeModel>, index: int)
    ensures
        forall|u: int| 0 <= u < kept_edges(edges, index).len() ==> exists|v: int| 0 <= v < edges.len()
            && edges[v].source != index && edges[v].target != index
            && #[trigger] kept_edges(edges, index)[u] == shifted(edges[v], index),
    decreases edges.len(),
{
    if edges.len() > 0 {
        let d = edges.drop_last();
        lemma_kept_edges_come_from(d, index);
        let k = kept_edges(edges, index);
        let r = kept_edges(d, index);
        assert forall|u: int| 0 <= u < k.len() implies exists|v: int| 0 <= v < edges.len()
            && edges[v].source != index && edges[v].target != index
            && #[trigger] k[u] == shifted(edges[v], index) by {
            if u < r.len() {
                assert(k[u] == r[u]);
                let v = choose|v: int| 0 <= v < d.len() && d[v].source != index && d[v].target != index
                    && r[u] == shifted(d[v], index);
                assert(edges[v] == d[v]);
            } else {
                assert(edges[edges.len() - 1] == edges.last());
            }
        }
    }
}

/// Edge `e` of `after` is edge `f` of `before`: the same ports, message and
/// fields, between nodes with the same ids.
pub open spec fn same_connection(before: DocumentModel, f: EdgeModel, after: DocumentModel, e: EdgeModel) -> bool {
    &&& e.source_port == f.source_port && e.target_port == f.target_port
    &&& e.message_type == f.message_type && e.extra_fields == f.extra_fields
    &&& after.nodes[e.source as int].id == before.nodes[f.source as int].id
    &&& after.nodes[e.target as int].id == before.nodes[f.target as int].id
}

/// Removing a node keeps each remaining connection between the same nodes:
/// every edge afterwards is one that did not touch the removed node, with the
/// same ports and message, joining the nodes with the same ids as before.
pub proof fn lemma_removal_keeps_edge_ends(doc: DocumentModel, index: int)
    requires
        0 <= index < doc.nodes.len(),
        edges_in_range(doc),
    ensures
        forall|u: int| 0 <= u < without_node(doc, index).edges.len() ==> exists|v: int| 0 <= v < doc.edges.len()
            && doc.edges[v].source != index && doc.edges[v].target != index
            && same_connection(doc, doc.edges[v], without_node(doc, index), #[trigger] without_node(doc, index).edges[u]),
{
    lemma_kept_edges_come_from(doc.edges, index);
    let after = without_node(doc, index);
    assert forall|u: int| 0 <= u < after.edges.len() implies exists|v: int| 0 <= v < doc.edges.len()
        && doc.edges[v].source != index && doc.edges[v].target != index
        && same_connection(doc, doc.edges[v], after, #[trigger] after.edges[u]) by {
        let v = choose|v: int| 0 <= v < doc.edges.len() && doc.edges[v].source != index
            && doc.edges[v].target != index && kept_edges(doc.edges, index)[u] == shifted(doc.edges[v], index);
        let f = doc.edges[v];
        assert(f.source < doc.nodes.len() && f.target < doc.nodes.len());
        let e = after.edges[u];
        assert(e == shifted(f, index));
        assert(after.nodes[e.source as int] == doc.nodes[f.source as int]);
        assert(after.nodes[e.target as int] == doc.nodes[f.target as int]);
        assert(same_connection(doc, doc.edges[v], after, after.edges[u]));
    }
}

/// What connecting an output to an input in the editor comes to.
#[derive(Debug, PartialEq, Eq)]
pub enum Connection {
    /// One of the nodes is not in the document; nothing changed.
    MissingNode,
    /// The input now takes the output (replacing what fed it before).
    Connected,
    /// The connection was refused for the reason given.
    Refused(String),
}

/// The edges without those feeding input `port` of node `target`.
pub open spec fn without_input(edges: Seq<EdgeModel>, target: int, port: int) -> Seq<EdgeModel>
    decreases edges.len(),
{
    if edges.len() == 0 {
        Seq::empty()
    } else {
        let rest = without_input(edges.drop_last(), target, port);
        if edges.last().target == target && edges.last().target_port == port {
            rest
        } else {
            rest.push(edges.last())
        }
    }
}

/// The first edge at or after `k` feeding input `port` of node `target`.
pub open spec fn feeding(edges: Seq<EdgeModel>, target: int, port: int, k: int) -> Option<int>
    decreases edges.len() - k,
{
    if k < 0 || k >= edges.len() {
        None
    } else if edges[k].target == target && edges[k].target_port == port {
        Some(k)
    } else {
        feeding(edges, target, port, k + 1)
    }
}

proof fn lemma_without_input_frees(edges: Seq<EdgeModel>, target: int, port: int)
    ensures
        forall|u: int| 0 <= u < without_input(edges, target, port).len() ==> !((#[trigger] without_input(edges, target, port)[u]).target == target
            && without_input(edges, target, port)[u].target_port == port),
    decreases edges.len(),
{
    if edges.len() > 0 {
        lemma_without_input_frees(edges.drop_last(), target, port);
        let rest = without_input(edges.drop_last(), target, port);
        let r = without_input(edges, target, port);
        assert forall|u: int| 0 <= u < r.len() implies !((#[trigger] r[u]).target == target && r[u].target_port == port) by {
            if u < rest.len() {
                assert(r[u] == rest[u]);
            }
        }
    }
}

/// The document after the editor connects output `source_port` of the node
/// `source_id` to input `target_port` of `target_id`: whatever fed the input
/// is dropped and the new connection tried (see [`add_edge_answer`]); when it
/// is refused, the first connection that fed the input is put back at the end.
pub open spec fn connected(
    doc: DocumentModel,
    source_id: Seq<char>,
    source_port: usize,
    target_id: Seq<char>,
    target_port: usize,
) -> (DocumentModel, Result<(), Seq<char>>) {
    match (first_with_id(doc.nodes, source_id, 0), first_with_id(doc.nodes, target_id, 0)) {
        (Some(s), Some(t)) => {
            let cleared = DocumentModel {
                edges: without_input(doc.edges, t, target_port as int),
                ..doc
            };
            match add_edge_answer(cleared, s as usize, source_port, t as usize, target_port) {
                Ok(()) => (
                    with_edge(cleared, new_edge(cleared, s as usize, source_port, t as usize, target_port)),
                    Ok(()),
                ),
                Err(m) => (
                    match feeding(doc.edges, t, target_port as int, 0) {
                        Some(u) => with_edge(cleared, doc.edges[u]),
                        None => cleared,
                    },
                    Err(m),
                ),
            }
        },
        _ => (doc, Ok(())),
    }
}

/// The document without the connections from output `source_port` of node
/// `source` to input `target_port` of node `target`.
pub open spec fn without_connection(
    edges: Seq<EdgeModel>,
    source: int,
    source_port: int,
    target: int,
    target_port: int,
) -> Seq<EdgeModel>
    decreases edges.len(),
{
    if edges.len() == 0 {
        Seq::empty()
    } else {
        let rest = without_connection(edges.drop_last(), source, source_port, target, target_port);
        let e = edges.last();
        if e.source == source && e.source_port == source_port && e.target == target && e.target_port
            == target_port {
            rest
        } else {
            rest.push(e)
        }
    }
}

/// Some node other than the one at `index` has the ID.
pub open spec fn id_taken_by_other(doc: DocumentModel, index: int, id: Seq<char>) -> bool {
    exists|j: int| 0 <= j < doc.nodes.len() && j != index && doc.nodes[j].id == id
}

/// The message when a node is renamed to an ID another node has.
pub open spec fn id_in_use_text(id: Seq<char>) -> Seq<char> {
    "Node ID '"@ + id + "' is already in use"@
}

/// A connection the editor accepts becomes the only producer of its input:
/// the new edge, from the chosen output, is the last one and no other edge
/// feeds that input.
pub proof fn lemma_accepted_connection_is_sole_producer(
    doc: DocumentModel,
    source_id: Seq<char>,
    source_port: usize,
    target_id: Seq<char>,
    target_port: usize,
)
    requires
        doc.nodes.len() <= usize::MAX,
        first_with_id(doc.nodes, source_id, 0) is Some,
        first_with_id(doc.nodes, target_id, 0) is Some,
        connected(doc, source_id, source_port, target_id, target_port).1 is Ok,
    ensures
        ({
            let s = first_with_id(doc.nodes, source_id, 0)->Some_0;
            let t = first_with_id(doc.nodes, target_id, 0)->Some_0;
            let edges = connected(doc, source_id, source_port, target_id, target_port).0.edges;
            &&& edges.len() > 0
            &&& edges.last().source == s && edges.last().source_port == source_port
            &&& edges.last().target == t && edges.last().target_port == target_port
            &&& forall|u: int| 0 <= u < edges.len() - 1 ==> !((#[trigger] edges[u]).target == t && edges[u].target_port == target_port)
        }),
{
    let s = first_with_id(doc.nodes, source_id, 0)->Some_0;
    let t = first_with_id(doc.nodes, target_id, 0)->Some_0;
    lemma_first_with_id(doc.nodes, source_id, 0);
    lemma_first_with_id(doc.nodes, target_id, 0);
    lemma_without_input_frees(doc.edges, t, target_port as int);
    let cleared = without_input(doc.edges, t, target_port as int);
    let cleared_doc = DocumentModel { edges: cleared, ..doc };
    assert(add_edge_answer(cleared_doc, s as usize, source_port, t as usize, target_port) is Ok);
    let e = new_edge(cleared_doc, s as usize, source_port, t as usize, target_port);
    assert(connected(doc, source_id, source_port, target_id, target_port).0 == with_edge(cleared_doc, e));
    let edges = connected(doc, source_id, source_port, target_id, target_port).0.edges;
    assert(edges == cleared.push(e));
    assert forall|u: int| 0 <= u < edges.len() - 1 implies !((#[trigger] edges[u]).target == t && edges[u].target_port == target_port) by {
        assert(edges[u] == cleared[u]);
    }
}

impl GraphDocument {
    /// The index of the first node with the ID.
    pub fn node_position(&self, id: &str) -> (r: Option<usize>)
        ensures
            r matches Some(i) ==> first_with_id(self.deep_view().nodes, id@, 0) == Some(i as int),
            r is None ==> first_with_id(self.deep_view().nodes, id@, 0) is None,
    {
        let ghost nv = self.deep_view().nodes;
        let mut k: usize = 0;
        while k < self.nodes.len()
            invariant
                k <= self.nodes@.len(),
                nv == self.deep_view().nodes,
                first_with_id(nv, id@, k as int) == first_with_id(nv, id@, 0),
            decreases self.nodes.len() - k,
        {
            assert(nv[k as int].id == self.nodes@[k as int].id@);
            if str_eq(self.nodes[k].id.as_str(), id) {
                return Some(k);
            }
            k = k + 1;
        }
        None
    }

    /// Adds the node a component becomes (see [`component_node`]) under a
    /// fresh ID (see [`unique_id`]) and returns the ID.
    pub fn add_component(&mut self, component: &ComponentDescriptor) -> (r: String)
        requires
            old(self).nodes@.len() + 3 <= usize::MAX,
        ensures
            unique_id(old(self).deep_view(), component.display_name@, r@),
            final(self).nodes@.len() == old(self).nodes@.len() + 1,
            final(self).deep_view().nodes.drop_last() == old(self).deep_view().nodes,
            final(self).deep_view().nodes.last() == component_node(component.deep_view(), r@),
            final(self).nodes@.last().id@ == r@,
            final(self).nodes@.last().kind == component.kind,
            final(self).deep_view().edges == old(self).deep_view().edges,
            final(self).deep_view().monitors == old(self).deep_view().monitors,
            final(self).deep_view().constants == old(self).deep_view().constants,
    {
        let ghost before = self.deep_view();
        let id = self.unique_id_for(component.display_name.as_str());
        let node = GraphNode::from_component(component, id.clone());
        self.nodes.push(node);
        assert(self.deep_view().nodes.drop_last() =~= before.nodes);
        id
    }

    /// Removes the first node with the ID and every connection touching it;
    /// connections to later nodes are renumbered. Answers whether a node was removed.
    pub fn remove_node(&mut self, id: &str) -> (r: bool)
        ensures
            r == (first_with_id(old(self).deep_view().nodes, id@, 0) is Some),
            match first_with_id(old(self).deep_view().nodes, id@, 0) {
                Some(i) => final(self).deep_view() == without_node(old(self).deep_view(), i),
                None => final(self).deep_view() == old(self).deep_view(),
            },
    {
        let ghost d0 = self.deep_view();
        let index = match self.node_position(id) {
            Some(i) => i,
            None => return false,
        };
        proof {
            lemma_first_with_id(d0.nodes, id@, 0);
        }
        self.nodes.remove(index);
        assert(self.deep_view().nodes =~= d0.nodes.remove(index as int));
        let mut kept: Vec<GraphEdge> = Vec::new();
        let mut u: usize = 0;
        assert(d0.edges.take(0) =~= Seq::<EdgeModel>::empty());
        while u < self.edges.len()
            invariant
                u <= self.edges@.len(),
                self.deep_view().edges == d0.edges,
                kept.deep_view() == kept_edges(d0.edges.take(u as int), index as int),
            decreases self.edges.len() - u,
        {
            assert(d0.edges.take(u + 1).drop_last() =~= d0.edges.take(u as int));
            assert(d0.edges.take(u + 1).last() == d0.edges[u as int]);
            assert(d0.edges[u as int] == self.edges@[u as int].deep_view());
            let e = &self.edges[u];
            if !(e.source == index || e.target == index) {
                let mut c = e.clone();
                if c.source > index {
                    c.source = c.source - 1;
                }
                if c.target > index {
                    c.target = c.target - 1;
                }
                let ghost before = kept.deep_view();
                kept.push(c);
                assert(kept.deep_view() =~= before.push(shifted(d0.edges[u as int], index as int)));
            }
            u = u + 1;
        }
        assert(d0.edges.take(self.edges.len() as int) =~= d0.edges);
        self.edges = kept;
        assert(self.deep_view() =~= without_node(d0, index as int));
        true
    }

    /// Connects output `source_port` of node `source_id` to input
    /// `target_port` of node `target_id` the way the editor does (see [`connected`]).
    pub fn connect_nodes(&mut self, source_id: &str, source_port: usize, target_id: &str, target_port: usize) -> (r: Connection)
        requires
            old(self).nodes@.len() < u32::MAX,
            old(self).edges@.len() + 1 < u32::MAX,
        ensures
            final(self).deep_view() == connected(old(self).deep_view(), source_id@, source_port, target_id@, target_port).0,
            match (first_with_id(old(self).deep_view().nodes, source_id@, 0), first_with_id(old(self).deep_view().nodes, target_id@, 0)) {
                (Some(_), Some(_)) => match connected(old(self).deep_view(), source_id@, source_port, target_id@, target_port).1 {
                    Ok(()) => r is Connected,
                    Err(m) => r matches Connection::Refused(s) && s@ == m,
                },
                _ => r is MissingNode,
            },
    {
        let ghost d0 = self.deep_view();
        let source = match self.node_position(source_id) {
            Some(s) => s,
            None => return Connection::MissingNode,
        };
        let target = match self.node_position(target_id) {
            Some(t) => t,
            None => return Connection::MissingNode,
        };
        proof {
            lemma_first_with_id(d0.nodes, source_id@, 0);
            lemma_first_with_id(d0.nodes, target_id@, 0);
        }
        // The first connection that fed the input, kept in case the new one is refused.
        let mut previous: Option<GraphEdge> = None;
        let mut cleared: Vec<GraphEdge> = Vec::new();
        let mut u: usize = 0;
        assert(d0.edges.take(0) =~= Seq::<EdgeModel>::empty());
        while u < self.edges.len()
            invariant
                u <= self.edges@.len(),
                self.deep_view() == d0,
                cleared.deep_view() == without_input(d0.edges.take(u as int), target as int, target_port as int),
                cleared@.len() <= u,
                previous matches Some(p) ==> feeding(d0.edges, target as int, target_port as int, 0) matches Some(w)
                    && w < u && p.deep_view() == d0.edges[w],
                previous is None ==> feeding(d0.edges, target as int, target_port as int, 0) == feeding(
                    d0.edges,
                    target as int,
                    target_port as int,
                    u as int,
                ),
            decreases self.edges.len() - u,
        {
            assert(d0.edges.take(u + 1).drop_last() =~= d0.edges.take(u as int));
            assert(d0.edges.take(u + 1).last() == d0.edges[u as int]);
            assert(d0.edges[u as int] == self.edges@[u as int].deep_view());
            if self.edges[u].target == target && self.edges[u].target_port == target_port {
                if previous.is_none() {
                    previous = Some(self.edges[u].clone());
                }
            } else {
                let ghost before = cleared.deep_view();
                cleared.push(self.edges[u].clone());
                assert(cleared.deep_view() =~= before.push(d0.edges[u as int]));
            }
            u = u + 1;
        }
        assert(d0.edges.take(self.edges.len() as int) =~= d0.edges);
        self.edges = cleared;
        let ghost d1 = self.deep_view();
        assert(d1 == DocumentModel { edges: without_input(d0.edges, target as int, target_port as int), ..d0 });
        match self.add_edge(source, source_port, target, target_port) {
            Ok(()) => Connection::Connected,
            Err(message) => {
                if let Some(p) = previous {
                    self.edges.push(p);
                    assert(self.deep_view().edges =~= d1.edges.push(p.deep_view()));
                }
                Connection::Refused(message)
            },
        }
    }

    /// Removes the connections from output `source_port` of node `source_id`
    /// to input `target_port` of node `target_id`, where both nodes exist.
    pub fn disconnect_nodes(&mut self, source_id: &str, source_port: usize, target_id: &str, target_port: usize)
        ensures
            match (first_with_id(old(self).deep_view().nodes, source_id@, 0), first_with_id(old(self).deep_view().nodes, target_id@, 0)) {
                (Some(s), Some(t)) => final(self).deep_view() == (DocumentModel {
                    edges: without_connection(old(self).deep_view().edges, s, source_port as int, t, target_port as int),
                    ..old(self).deep_view()
                }),
                _ => final(self).deep_view() == old(self).deep_view(),
            },
    {
        let ghost d0 = self.deep_view();
        let source = match self.node_position(source_id) {
            Some(s) => s,
            None => return,
        };
        let target = match self.node_position(target_id) {
            Some(t) => t,
            None => return,
        };
        let mut kept: Vec<GraphEdge> = Vec::new();
        let mut u: usize = 0;
        assert(d0.edges.take(0) =~= Seq::<EdgeModel>::empty());
        while u < self.edges.len()
            invariant
                u <= self.edges@.len(),
                self.deep_view() == d0,
                kept.deep_view() == without_connection(
                    d0.edges.take(u as int),
                    source as int,
                    source_port as int,
                    target as int,
                    target_port as int,
                ),
            decreases self.edges.len() - u,
        {
            assert(d0.edges.take(u + 1).drop_last() =~= d0.edges.take(u as int));
            assert(d0.edges.take(u + 1).last() == d0.edges[u as int]);
            assert(d0.edges[u as int] == self.edges@[u as int].deep_view());
            let e = &self.edges[u];
            if !(e.source == source && e.source_port == source_port && e.target == target && e.target_port
                == target_port) {
                let ghost before = kept.deep_view();
                kept.push(e.clone());
                assert(kept.deep_view() =~= before.push(d0.edges[u as int]));
            }
            u = u + 1;
        }
        assert(d0.edges.take(self.edges.len() as int) =~= d0.edges);
        self.edges = kept;
    }

    /// Gives the node at `index` a new ID, unless another node already has it.
    pub fn rename_node(&mut self, index: usize, id: String) -> (r: Result<(), String>)
        requires
            index < old(self).nodes@.len(),
        ensures
            id_taken_by_other(old(self).deep_view(), index as int, id@) ==> (r matches Err(m) && m@
                == id_in_use_text(id@) && final(self).deep_view() == old(self).deep_view()),
            !id_taken_by_other(old(self).deep_view(), index as int, id@) ==> (r is Ok
                && final(self).deep_view() == (DocumentModel {
                nodes: old(self).deep_view().nodes.update(
                    index as int,
                    NodeModel { id: id@, ..old(self).deep_view().nodes[index as int] },
                ),
                ..old(self).deep_view()
            })),
    {
        let ghost d0 = self.deep_view();
        let mut j: usize = 0;
        while j < self.nodes.len()
            invariant
                j <= self.nodes@.len(),
                index < self.nodes@.len(),
                self.deep_view() == d0,
                forall|w: int| 0 <= w < j && w != index ==> d0.nodes[w].id != id@,
            decreases self.nodes.len() - j,
        {
            assert(d0.nodes[j as int].id == self.nodes@[j as int].id@);
            if j != index && str_eq(self.nodes[j].id.as_str(), id.as_str()) {
                let mut m: Vec<char> = Vec::new();
                push_str(&mut m, "Node ID '");
                push_str(&mut m, id.as_str());
                push_str(&mut m, "' is already in use");
                return Err(string_of(m.as_slice()));
            }
            j = j + 1;
        }
        self.nodes[index].id = id;
        assert(self.deep_view().nodes =~= d0.nodes.update(
            index as int,
            NodeModel { id: self.nodes@[index as int].id@, ..d0.nodes[index as int] },
        ));
        Ok(())
    }
}

/// No two nodes share an ID.
pub open spec fn ids_distinct(doc: DocumentModel) -> bool {
    forall|i: int, j: int| 0 <= i < j < doc.nodes.len() ==> doc.nodes[i].id != doc.nodes[j].id
}

/// The editor's node edits keep node IDs distinct: a component is added under
/// an ID no node uses (see [`GraphDocument::add_component`]), a rename to an ID
/// another node has is refused (see [`GraphDocument::rename_node`]), and a
/// removal only drops a node (see [`GraphDocument::remove_node`]).
pub proof fn lemma_edits_keep_ids_distinct(doc: DocumentModel, added: NodeModel, name: Seq<char>, index: int, id: Seq<char>)
    requires
        ids_distinct(doc),
    ensures
        unique_id(doc, name, added.id) ==> ids_distinct(DocumentModel { nodes: doc.nodes.push(added), ..doc }),
        0 <= index < doc.nodes.len() && !id_taken_by_other(doc, index, id) ==> ids_distinct(
            DocumentModel { nodes: doc.nodes.update(index, NodeModel { id, ..doc.nodes[index] }), ..doc },
        ),
        0 <= index < doc.nodes.len() ==> ids_distinct(without_node(doc, index)),
{
    if unique_id(doc, name, added.id) {
        assert(!id_used(doc, added.id));
        let n = doc.nodes.push(added);
        assert forall|i: int, j: int| 0 <= i < j < n.len() implies n[i].id != n[j].id by {
            if j == doc.nodes.len() {
                assert(n[i] == doc.nodes[i]);
            } else {
                assert(n[i] == doc.nodes[i] && n[j] == doc.nodes[j]);
            }
        }
    }
    if 0 <= index < doc.nodes.len() && !id_taken_by_other(doc, index, id) {
        let n = doc.nodes.update(index, NodeModel { id, ..doc.nodes[index] });
        assert forall|i: int, j: int| 0 <= i < j < n.len() implies n[i].id != n[j].id by {
            if i == index {
                assert(n[j] == doc.nodes[j]);
            } else if j == index {
                assert(n[i] == doc.nodes[i]);
            } else {
                assert(n[i] == doc.nodes[i] && n[j] == doc.nodes[j]);
            }
        }
    }
    if 0 <= index < doc.nodes.len() {
        let n = doc.nodes.remove(index);
        assert forall|i: int, j: int| 0 <= i < j < n.len() implies n[i].id != n[j].id by {
            if j < index {
                assert(n[i] == doc.nodes[i] && n[j] == doc.nodes[j]);
            } else if i < index {
                assert(n[i] == doc.nodes[i] && n[j] == doc.nodes[j + 1]);
            } else {
                assert(n[i] == doc.nodes[i + 1] && n[j] == doc.nodes[j + 1]);
            }
        }
    }
}

// ---------------------------------------------------------------------------
// Edits of configuration values
// ---------------------------------------------------------------------------

/// A text field that is blank (only whitespace) stands for no value.
pub open spec fn optional_value(text: Seq<char>) -> Option<Seq<char>> {
    if trim(text).len() == 0 {
        None
    } else {
        Some(text)
    }
}

/// The value of an optional text field (see [`optional_value`]).
pub fn optional_text(text: String) -> (r: Option<String>)
    ensures
        r.deep_view() == optional_value(text@),
{
    let c = chars_of(text.as_str());
    let t = trimmed(c.as_slice(), 0, c.len());
    assert(c@.subrange(0, c@.len() as int) =~= c@);
    if t.len() == 0 {
        None
    } else {
        Some(text)
    }
}

/// The map without the key.
pub open spec fn map_remove(e: Seq<Pair>, k: Seq<char>) -> Seq<Pair>
    decreases e.len(),
{
    if e.len() == 0 {
        e
    } else {
        let rest = map_remove(e.drop_last(), k);
        if e.last().0 == k {
            rest
        } else {
            rest.push(e.last())
        }
    }
}

proof fn lemma_map_remove_bounded(e: Seq<Pair>, k: Seq<char>, x: Seq<char>)
    requires
        forall|j: int| 0 <= j < e.len() ==> lex_lt(#[trigger] e[j].0, x),
    ensures
        forall|i: int| 0 <= i < map_remove(e, k).len() ==> lex_lt(#[trigger] map_remove(e, k)[i].0, x),
    decreases e.len(),
{
    if e.len() > 0 {
        let d = e.drop_last();
        assert forall|j: int| 0 <= j < d.len() implies lex_lt(#[trigger] d[j].0, x) by {
            assert(d[j] == e[j]);
        }
        lemma_map_remove_bounded(d, k, x);
        assert(lex_lt(e[e.len() - 1].0, x));
        let rest = map_remove(d, k);
        if e.last().0 != k {
            let r = rest.push(e.last());
            assert forall|i: int| 0 <= i < r.len() implies lex_lt(#[trigger] r[i].0, x) by {
                if i < rest.len() {
                    assert(r[i] == rest[i]);
                }
            }
        }
    }
}

proof fn lemma_map_remove_sorted(e: Seq<Pair>, k: Seq<char>)
    requires
        keys_sorted(e),
    ensures
        keys_sorted(map_remove(e, k)),
    decreases e.len(),
{
    if e.len() > 0 {
        let d = e.drop_last();
        lemma_map_remove_sorted(d, k);
        assert forall|j: int| 0 <= j < d.len() implies lex_lt(#[trigger] d[j].0, e.last().0) by {
            assert(lex_lt(e[j].0, e[e.len() - 1].0));
        }
        lemma_map_remove_bounded(d, k, e.last().0);
        let rest = map_remove(d, k);
        if e.last().0 != k {
            let r = rest.push(e.last());
            assert forall|i: int, j: int| 0 <= i < j < r.len() implies lex_lt(#[trigger] r[i].0, #[trigger] r[j].0) by {
                if j == r.len() - 1 {
                    assert(lex_lt(rest[i].0, e.last().0));
                } else {
                    assert(lex_lt(rest[i].0, rest[j].0));
                }
            }
        }
    }
}

impl EditableConfig {
    /// Adds the key a hint names, with the hint's default (or `()`), unless
    /// the configuration already has it.
    pub fn add_hint(&mut self, hint: &ConfigHint)
        requires
            keys_sorted(old(self).deep_view()),
        ensures
            keys_sorted(final(self).deep_view()),
            map_get(old(self).deep_view(), hint.key@) is Some ==> final(self).deep_view() == old(self).deep_view(),
            map_get(old(self).deep_view(), hint.key@) is None ==> final(self).deep_view() == map_insert(
                old(self).deep_view(),
                hint.key@,
                match hint.default_ron {
                    Some(d) => d@,
                    None => "()"@,
                },
            ),
    {
        if crate::fieldmap::get_field(&self.0, hint.key.as_str()).is_some() {
            return;
        }
        let value = match &hint.default_ron {
            Some(d) => d.clone(),
            None => "()".to_owned(),
        };
        insert_field(&mut self.0, hint.key.clone(), value);
    }

    /// Adds a key typed by the user, trimmed, with the value `()`; a blank key
    /// adds nothing. Answers whether a key was added.
    pub fn add_key(&mut self, key: &str) -> (r: bool)
        requires
            keys_sorted(old(self).deep_view()),
        ensures
            keys_sorted(final(self).deep_view()),
            r == (trim(key@).len() > 0),
            r ==> final(self).deep_view() == map_insert(old(self).deep_view(), trim(key@), "()"@),
            !r ==> final(self).deep_view() == old(self).deep_view(),
    {
        let c = chars_of(key);
        let t = trimmed(c.as_slice(), 0, c.len());
        assert(c@.subrange(0, c@.len() as int) =~= c@);
        if t.len() == 0 {
            return false;
        }
        insert_field(&mut self.0, string_of(t.as_slice()), "()".to_owned());
        true
    }

    /// Removes a key and its value.
    pub fn remove_key(&mut self, key: &str)
        requires
            keys_sorted(old(self).deep_view()),
        ensures
            keys_sorted(final(self).deep_view()),
            final(self).deep_view() == map_remove(old(self).deep_view(), key@),
    {
        proof {
            lemma_map_remove_sorted(old(self).deep_view(), key@);
        }
        let ghost e = self.deep_view();
        let mut kept: Vec<(String, String)> = Vec::new();
        let mut i: usize = 0;
        assert(e.take(0) =~= Seq::<Pair>::empty());
        while i < self.0.len()
            invariant
                i <= self.0@.len(),
                e == self.deep_view(),
                kept.deep_view() == map_remove(e.take(i as int), key@),
            decreases self.0.len() - i,
        {
            assert(e.take(i + 1).drop_last() =~= e.take(i as int));
            assert(e.take(i + 1).last() == e[i as int]);
            assert(e[i as int] == (self.0@[i as int].0@, self.0@[i as int].1@));
            if !str_eq(self.0[i].0.as_str(), key) {
                let ghost before = kept.deep_view();
                kept.push((self.0[i].0.clone(), self.0[i].1.clone()));
                assert(kept.deep_view() =~= before.push(e[i as int]));
            }
            i = i + 1;
        }
        assert(e.take(self.0.len() as int) =~= e);
        self.0 = kept;
    }
}


// ---------------------------------------------------------------------------
// Workspace dependencies added on saving
// ---------------------------------------------------------------------------

/// The packages the nodes wait to depend on, in order.
pub open spec fn pending_of(nodes: Seq<NodeModel>) -> Seq<Seq<char>>
    decreases nodes.len(),
{
    if nodes.len() == 0 {
        Seq::empty()
    } else {
        let rest = pending_of(nodes.drop_last());
        match nodes.last().pending_workspace_dependency {
            Some(p) => rest.push(p),
            None => rest,
        }
    }
}

/// The packages of the monitors' components that the application can use
/// through the workspace only, in order.
pub open spec fn monitor_packages(monitors: Seq<MonitorModel>, components: Seq<ComponentModel>) -> Seq<Seq<char>>
    decreases monitors.len(),
{
    if monitors.len() == 0 {
        Seq::empty()
    } else {
        let rest = monitor_packages(monitors.drop_last(), components);
        match find_component(components, monitors.last().component_type) {
            Some(i) => if components[i].workspace_only {
                rest.push(components[i].package)
            } else {
                rest
            },
            None => rest,
        }
    }
}

/// Each name once, where it first occurs.
pub open spec fn first_occurrences(s: Seq<Seq<char>>) -> Seq<Seq<char>>
    decreases s.len(),
{
    if s.len() == 0 {
        Seq::empty()
    } else {
        let rest = first_occurrences(s.drop_last());
        if rest.contains(s.last()) {
            rest
        } else {
            rest.push(s.last())
        }
    }
}

/// The packages saving adds to the application's manifest as workspace
/// dependencies: those the nodes wait for, then those of the monitors'
/// workspace-only components, each once.
pub open spec fn dependencies_to_add(doc: DocumentModel, components: Seq<ComponentModel>) -> Seq<Seq<char>> {
    first_occurrences(pending_of(doc.nodes) + monitor_packages(doc.monitors, components))
}

fn push_new(v: &mut Vec<String>, name: String)
    ensures
        final(v).deep_view() == (if old(v).deep_view().contains(name@) {
            old(v).deep_view()
        } else {
            old(v).deep_view().push(name@)
        }),
{
    let ghost before = v.deep_view();
    let mut i: usize = 0;
    while i < v.len()
        invariant
            i <= v@.len(),
            before == v.deep_view(),
            forall|j: int| 0 <= j < i ==> before[j] != name@,
        decreases v.len() - i,
    {
        if str_eq(v[i].as_str(), name.as_str()) {
            assert(before[i as int] == name@);
            return;
        }
        i = i + 1;
    }
    v.push(name);
    assert(v.deep_view() =~= before.push(name@));
}

impl GraphDocument {
    /// The packages to add as workspace dependencies on saving (see [`dependencies_to_add`]).
    pub fn workspace_dependencies_to_add(&self, catalog: &ComponentCatalog) -> (r: Vec<String>)
        ensures
            r.deep_view() == dependencies_to_add(self.deep_view(), catalog.components.deep_view()),
    {
        let ghost d = self.deep_view();
        let ghost cs = catalog.components.deep_view();
        let mut out: Vec<String> = Vec::new();
        let mut k: usize = 0;
        assert(d.nodes.take(0) =~= Seq::<NodeModel>::empty());
        assert(out.deep_view() =~= Seq::<Seq<char>>::empty());
        while k < self.nodes.len()
            invariant
                k <= self.nodes@.len(),
                d == self.deep_view(),
                out.deep_view() == first_occurrences(pending_of(d.nodes.take(k as int))),
            decreases self.nodes.len() - k,
        {
            assert(d.nodes.take(k + 1).drop_last() =~= d.nodes.take(k as int));
            assert(d.nodes.take(k + 1).last() == self.nodes@[k as int].deep_view());
            match &self.nodes[k].pending_workspace_dependency {
                Some(p) => {
                    let ghost pend = pending_of(d.nodes.take(k as int));
                    assert(pending_of(d.nodes.take(k + 1)).drop_last() =~= pend);
                    push_new(&mut out, p.clone());
                },
                None => {},
            }
            k = k + 1;
        }
        assert(d.nodes.take(self.nodes.len() as int) =~= d.nodes);
        let ghost pend = pending_of(d.nodes);
        let mut k: usize = 0;
        assert(d.monitors.take(0) =~= Seq::<MonitorModel>::empty());
        assert(pend + monitor_packages(d.monitors.take(0), cs) =~= pend);
        while k < self.monitors.len()
            invariant
                k <= self.monitors@.len(),
                d == self.deep_view(),
                cs == catalog.components.deep_view(),
                pend == pending_of(d.nodes),
                out.deep_view() == first_occurrences(pend + monitor_packages(d.monitors.take(k as int), cs)),
            decreases self.monitors.len() - k,
        {
            assert(d.monitors.take(k + 1).drop_last() =~= d.monitors.take(k as int));
            assert(d.monitors.take(k + 1).last() == self.monitors@[k as int].deep_view());
            let ghost prev = pend + monitor_packages(d.monitors.take(k as int), cs);
            match catalog.find(self.monitors[k].component_type.as_str()) {
                Some(c) => {
                    if c.workspace_only {
                        assert((pend + monitor_packages(d.monitors.take(k + 1), cs)).drop_last() =~= prev);
                        push_new(&mut out, c.package.clone());
                    } else {
                        assert(pend + monitor_packages(d.monitors.take(k + 1), cs) =~= prev);
                    }
                },
                None => {
                    assert(pend + monitor_packages(d.monitors.take(k + 1), cs) =~= prev);
                },
            }
            k = k + 1;
        }
        assert(d.monitors.take(self.monitors.len() as int) =~= d.monitors);
        out
    }

    /// Once saved, no node waits for a dependency any more; nothing else changes.
    pub fn clear_pending_dependencies(&mut self)
        ensures
            final(self).nodes@.len() == old(self).nodes@.len(),
            forall|i: int| 0 <= i < final(self).nodes@.len() ==> (#[trigger] final(self).deep_view().nodes[i]) == (NodeModel {
                pending_workspace_dependency: None,
                ..old(self).deep_view().nodes[i]
            }),
            final(self).deep_view().edges == old(self).deep_view().edges,
            final(self).deep_view().monitors == old(self).deep_view().monitors,
            final(self).deep_view().constants == old(self).deep_view().constants,
    {
        let ghost d = self.deep_view();
        let mut nodes: Vec<GraphNode> = Vec::new();
        std::mem::swap(&mut nodes, &mut self.nodes);
        let mut k: usize = 0;
        while k < nodes.len()
            invariant
                k <= nodes@.len(),
                nodes@.len() == d.nodes.len(),
                forall|i: int| 0 <= i < k ==> (#[trigger] nodes@[i].deep_view()) == (NodeModel {
                    pending_workspace_dependency: None,
                    ..d.nodes[i]
                }),
                forall|i: int| k <= i < nodes@.len() ==> (#[trigger] nodes@[i].deep_view()) == d.nodes[i],
            decreases nodes.len() - k,
        {
            let ghost prev = nodes@;
            assert(nodes@[k as int].deep_view() == d.nodes[k as int]);
            let mut node = nodes.remove(k);
            node.pending_workspace_dependency = None;
            let ghost changed = node;
            nodes.insert(k, node);
            assert(nodes@ =~= prev.update(k as int, changed));
            assert(nodes@[k as int].deep_view() == (NodeModel { pending_workspace_dependency: None, ..d.nodes[k as int] }));
            k = k + 1;
        }
        self.nodes = nodes;
        assert forall|i: int| 0 <= i < self.nodes@.len() implies (#[trigger] self.deep_view().nodes[i]) == (NodeModel {
            pending_workspace_dependency: None,
            ..d.nodes[i]
        }) by {
            assert(self.deep_view().nodes[i] == self.nodes@[i].deep_view());
        }
    }
}

} // verus!
