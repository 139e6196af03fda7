//! Validation of a task graph: the diagnostics the editor shows and that block saving.
use vstd::prelude::*;

use crate::model::{
    is_identifier_chars, is_rust_identifier, rust_identifier, qualified_name, constant_id, constant_module,
    ports_compatible, normalized_type, ComponentKind, ConstantDefinition, ConstantModel, Diagnostic,
    DiagnosticSeverity, DocumentModel, EditableConfig, GraphDocument, GraphNode, InstanceModel,
    NodeModel, PortDescriptor, PortDirection, PortModel, NC_ENDPOINT,
};
use crate::outside::{
    add_task_edge, add_task_node, graph_edges, graph_node_count, has_cycle, new_task_graph,
    parses_as_rust_expr, printed_rust_type, ron_parses, ron_value_parses, rust_expr_parses,
    rust_type_text, task_graph_is_cyclic,
};
use crate::text::{chars_eq, chars_of, contains_seq, first_occurrence, push_all, push_str, string_of};

verus! {

pub type Diag = (DiagnosticSeverity, Seq<char>);

pub open spec fn error(message: Seq<char>) -> Seq<Diag> {
    seq![(DiagnosticSeverity::Error, message)]
}

pub open spec fn warning(message: Seq<char>) -> Seq<Diag> {
    seq![(DiagnosticSeverity::Warning, message)]
}

pub open spec fn when(condition: bool, diags: Seq<Diag>) -> Seq<Diag> {
    if condition {
        diags
    } else {
        Seq::empty()
    }
}

// ---------------------------------------------------------------------------
// Configuration values
// ---------------------------------------------------------------------------

/// Errors for the first `k` values of a configuration that are not valid RON.
pub open spec fn config_diags(owner: Seq<char>, config: Seq<(Seq<char>, Seq<char>)>, k: int) -> Seq<Diag>
    decreases k,
{
    if k <= 0 || k > config.len() {
        Seq::empty()
    } else {
        config_diags(owner, config, k - 1) + when(
            !ron_value_parses(config[k - 1].1),
            error("Config value '"@ + config[k - 1].0 + "' on '"@ + owner + "' is not valid RON"@),
        )
    }
}

pub open spec fn all_config_diags(owner: Seq<char>, config: Seq<(Seq<char>, Seq<char>)>) -> Seq<Diag> {
    config_diags(owner, config, config.len() as int)
}

// ---------------------------------------------------------------------------
// Nodes
// ---------------------------------------------------------------------------

/// A node ID the endpoint syntax reserves: the unconnected endpoint or one with a `/`.
pub open spec fn reserved_id(id: Seq<char>) -> bool {
    id == NC_ENDPOINT@ || id.contains('/')
}

pub open spec fn id_diags(nodes: Seq<NodeModel>, j: int) -> Seq<Diag> {
    let id = nodes[j].id;
    if id.len() == 0 {
        error("Node IDs cannot be empty"@)
    } else if reserved_id(id) {
        error("Node '"@ + id + "' uses a reserved endpoint character or name"@)
    } else if exists|i: int| 0 <= i < j && nodes[i].id == id {
        error("Node ID '"@ + id + "' is duplicated"@)
    } else {
        Seq::empty()
    }
}

/// Configuration errors of the first `k` channels of a node.
pub open spec fn channel_diags(node: NodeModel, k: int) -> Seq<Diag>
    decreases k,
{
    if k <= 0 || k > node.channels.len() {
        Seq::empty()
    } else {
        channel_diags(node, k - 1) + all_config_diags(
            node.id + "/"@ + node.channels[k - 1].id,
            node.channels[k - 1].config,
        )
    }
}

pub open spec fn node_diags(nodes: Seq<NodeModel>, j: int) -> Seq<Diag> {
    let node = nodes[j];
    id_diags(nodes, j) + when(
        node.unresolved,
        warning(
            "Component type '"@ + node.component_type
                + "' could not be resolved and will be preserved"@,
        ),
    ) + all_config_diags(node.id, node.config) + channel_diags(node, node.channels.len() as int)
}

/// Diagnostics of the first `j` nodes.
pub open spec fn nodes_diags(nodes: Seq<NodeModel>, j: int) -> Seq<Diag>
    decreases j,
{
    if j <= 0 || j > nodes.len() {
        Seq::empty()
    } else {
        nodes_diags(nodes, j - 1) + node_diags(nodes, j - 1)
    }
}

// ---------------------------------------------------------------------------
// Connections
// ---------------------------------------------------------------------------

/// Both ends of the connection exist.
pub open spec fn edge_valid(doc: DocumentModel, t: int) -> bool {
    let e = doc.edges[t];
    &&& e.source < doc.nodes.len()
    &&& e.target < doc.nodes.len()
    &&& e.source_port < doc.nodes[e.source as int].outputs.len()
    &&& e.target_port < doc.nodes[e.target as int].inputs.len()
}

/// A port of a bridge is usable unless the channel of the same name and direction is disabled.
pub open spec fn bridge_port_usable(node: NodeModel, port: PortModel) -> bool {
    node.kind != ComponentKind::Bridge || match first_channel(node.channels, port, 0) {
        Some(k) => node.channels[k].enabled,
        None => true,
    }
}

/// The first channel at or after `k` with the port's name and direction.
pub open spec fn first_channel(channels: Seq<InstanceModel>, port: PortModel, k: int) -> Option<int>
    decreases channels.len() - k,
{
    if k < 0 || k >= channels.len() {
        None
    } else if channels[k].id == port.name && channels[k].direction == port.direction {
        Some(k)
    } else {
        first_channel(channels, port, k + 1)
    }
}

/// An earlier valid connection already feeds the same input.
pub open spec fn input_taken_before(doc: DocumentModel, t: int) -> bool {
    exists|u: int|
        0 <= u < t && edge_valid(doc, u) && doc.edges[u].target == doc.edges[t].target
            && doc.edges[u].target_port == doc.edges[t].target_port
}

pub open spec fn edge_diags(doc: DocumentModel, t: int) -> Seq<Diag> {
    let e = doc.edges[t];
    if e.source >= doc.nodes.len() {
        error("Connection has a missing source node"@)
    } else if e.target >= doc.nodes.len() {
        error("Connection has a missing target node"@)
    } else if e.source_port >= doc.nodes[e.source as int].outputs.len() {
        error("Connection from '"@ + doc.nodes[e.source as int].id + "' uses a missing output port"@)
    } else if e.target_port >= doc.nodes[e.target as int].inputs.len() {
        error("Connection to '"@ + doc.nodes[e.target as int].id + "' uses a missing input port"@)
    } else {
        let source = doc.nodes[e.source as int];
        let target = doc.nodes[e.target as int];
        let output = source.outputs[e.source_port as int];
        let input = target.inputs[e.target_port as int];
        when(
            !bridge_port_usable(source, output),
            error("Connection uses disabled bridge channel '"@ + source.id + "/"@ + output.name + "'"@),
        ) + when(
            !bridge_port_usable(target, input),
            error("Connection uses disabled bridge channel '"@ + target.id + "/"@ + input.name + "'"@),
        ) + when(
            input_taken_before(doc, t),
            error("Input '"@ + input.name + "' on '"@ + target.id + "' has more than one producer"@),
        ) + when(
            !ports_compatible(output, input) && !source.unresolved && !target.unresolved,
            error(
                "Type mismatch: "@ + source.id + " ("@ + output.declared_type + ") cannot connect to "@
                    + target.id + " ("@ + input.declared_type + ")"@,
            ),
        ) + when(e.source == e.target, error("Node '"@ + source.id + "' cannot connect to itself"@))
    }
}

/// Diagnostics of the first `t` connections.
pub open spec fn edges_diags(doc: DocumentModel, t: int) -> Seq<Diag>
    decreases t,
{
    if t <= 0 || t > doc.edges.len() {
        Seq::empty()
    } else {
        edges_diags(doc, t - 1) + edge_diags(doc, t - 1)
    }
}

/// The dependency edges of the first `t` connections: the valid ones between distinct nodes.
pub open spec fn dependency_edges(doc: DocumentModel, t: int) -> Seq<(int, int)>
    decreases t,
{
    if t <= 0 || t > doc.edges.len() {
        Seq::empty()
    } else {
        let e = doc.edges[t - 1];
        if edge_valid(doc, t - 1) && e.source != e.target {
            dependency_edges(doc, t - 1).push((e.source as int, e.target as int))
        } else {
            dependency_edges(doc, t - 1)
        }
    }
}

/// The task graph has a cycle.
pub open spec fn graph_cyclic(doc: DocumentModel) -> bool {
    has_cycle(dependency_edges(doc, doc.edges.len() as int))
}

/// Some valid connection feeds input `p` of node `j`.
pub open spec fn input_connected(doc: DocumentModel, j: int, p: int) -> bool {
    exists|u: int|
        0 <= u < doc.edges.len() && edge_valid(doc, u) && doc.edges[u].target == j
            && doc.edges[u].target_port == p
}

/// Warnings for the first `p` inputs of node `j` that nothing feeds.
pub open spec fn port_warnings(doc: DocumentModel, j: int, p: int) -> Seq<Diag>
    decreases p,
{
    if p <= 0 || p > doc.nodes[j].inputs.len() {
        Seq::empty()
    } else {
        port_warnings(doc, j, p - 1) + when(
            !input_connected(doc, j, p - 1),
            warning(
                "Input '"@ + doc.nodes[j].inputs[p - 1].name + "' on '"@ + doc.nodes[j].id
                    + "' is not connected"@,
            ),
        )
    }
}

/// Unconnected-input warnings of the first `j` nodes.
pub open spec fn unconnected_diags(doc: DocumentModel, j: int) -> Seq<Diag>
    decreases j,
{
    if j <= 0 || j > doc.nodes.len() {
        Seq::empty()
    } else {
        unconnected_diags(doc, j - 1) + port_warnings(
            doc,
            j - 1,
            doc.nodes[j - 1].inputs.len() as int,
        )
    }
}

// ---------------------------------------------------------------------------
// Constants
// ---------------------------------------------------------------------------

/// `str::split` on a non-empty separator, from index `from` on.
pub open spec fn split_from(s: Seq<char>, sep: Seq<char>, from: int) -> Seq<Seq<char>>
    decreases s.len() + 1 - from,
{
    if from < 0 || from > s.len() || sep.len() == 0 {
        Seq::empty()
    } else {
        match first_occurrence(s, sep, from) {
            Some(i) => if from <= i && i + sep.len() <= s.len() {
                seq![s.subrange(from, i)] + split_from(s, sep, i + sep.len())
            } else {
                Seq::empty()
            },
            None => seq![s.subrange(from, s.len() as int)],
        }
    }
}

/// Every `::`-separated segment of the module path is a Rust identifier.
pub open spec fn module_path_ok(module: Seq<char>) -> bool {
    forall|k: int| 0 <= k < split_from(module, "::"@, 0).len() ==> rust_identifier(
        #[trigger] split_from(module, "::"@, 0)[k],
    )
}

pub open spec fn model_id(c: ConstantModel) -> Seq<char> {
    match c {
        ConstantModel::Numeric { id, .. } => id,
        ConstantModel::Expression { id, .. } => id,
    }
}

pub open spec fn model_module(c: ConstantModel) -> Seq<char> {
    match c {
        ConstantModel::Numeric { module, .. } => module,
        ConstantModel::Expression { module, .. } => module,
    }
}

pub open spec fn model_qualified(c: ConstantModel) -> Seq<char> {
    let module = crate::text::trim(model_module(c));
    if module.len() == 0 {
        "constants::"@ + model_id(c)
    } else {
        module + "::"@ + model_id(c)
    }
}

pub open spec fn constant_diags(constants: Seq<ConstantModel>, k: int) -> Seq<Diag> {
    let c = constants[k];
    let q = model_qualified(c);
    when(
        !rust_identifier(model_id(c)),
        error("Constant ID '"@ + model_id(c) + "' is not a Rust identifier"@),
    ) + when(
        model_module(c).len() != 0 && !module_path_ok(model_module(c)),
        error("Constant module '"@ + model_module(c) + "' is not a Rust module path"@),
    ) + when(
        exists|i: int| 0 <= i < k && model_qualified(constants[i]) == q,
        error("Constant '"@ + q + "' is duplicated"@),
    ) + match c {
        ConstantModel::Numeric { value_ron, .. } => when(
            !ron_value_parses(value_ron),
            error("Constant '"@ + q + "' has an invalid RON value"@),
        ),
        ConstantModel::Expression { rust_type, expression, .. } => when(
            printed_rust_type(rust_type) is None,
            error("Constant '"@ + q + "' has an invalid Rust type"@),
        ) + when(
            !rust_expr_parses(expression),
            error("Constant '"@ + q + "' has an invalid Rust expression"@),
        ),
    }
}

/// Diagnostics of the first `k` constants.
pub open spec fn constants_diags(constants: Seq<ConstantModel>, k: int) -> Seq<Diag>
    decreases k,
{
    if k <= 0 || k > constants.len() {
        Seq::empty()
    } else {
        constants_diags(constants, k - 1) + constant_diags(constants, k - 1)
    }
}

/// Configuration errors of the first `k` monitors.
pub open spec fn monitors_diags(doc: DocumentModel, k: int) -> Seq<Diag>
    decreases k,
{
    if k <= 0 || k > doc.monitors.len() {
        Seq::empty()
    } else {
        monitors_diags(doc, k - 1) + all_config_diags(
            doc.monitors[k - 1].component_type,
            doc.monitors[k - 1].config,
        )
    }
}

/// Every diagnostic of a document, in the order the editor lists them: nodes,
/// connections, the cycle check, unconnected inputs, constants, monitors.
pub open spec fn document_diagnostics(doc: DocumentModel) -> Seq<Diag> {
    nodes_diags(doc.nodes, doc.nodes.len() as int) + edges_diags(doc, doc.edges.len() as int)
        + when(graph_cyclic(doc), error("The task graph contains a cycle"@))
        + unconnected_diags(doc, doc.nodes.len() as int) + constants_diags(
        doc.constants,
        doc.constants.len() as int,
    ) + monitors_diags(doc, doc.monitors.len() as int)
}

/// Some diagnostic is an error.
pub open spec fn has_error(diags: Seq<Diag>) -> bool {
    exists|i: int| 0 <= i < diags.len() && diags[i].0 == DiagnosticSeverity::Error
}


proof fn lemma_edges_diags_hold(doc: DocumentModel, t: int, k: int, d: Diag)
    requires
        0 <= k < t <= doc.edges.len(),
        edge_diags(doc, k).contains(d),
    ensures
        edges_diags(doc, t).contains(d),
    decreases t,
{
    if k < t - 1 {
        lemma_edges_diags_hold(doc, t - 1, k, d);
    }
    let before = edges_diags(doc, t - 1);
    let last = edge_diags(doc, t - 1);
    assert(edges_diags(doc, t) == before + last);
    if k < t - 1 {
        let x = choose|x: int| 0 <= x < before.len() && before[x] == d;
        assert((before + last)[x] == d);
    } else {
        let x = choose|x: int| 0 <= x < last.len() && last[x] == d;
        assert((before + last)[before.len() + x] == d);
    }
}

/// A connection between two resolved nodes whose output and input carry
/// types that do not normalize alike is a type mismatch: the document's
/// diagnostics hold that error, so the document has a hard error and is not saved.
pub proof fn lemma_type_mismatch_is_an_error(doc: DocumentModel, t: int)
    requires
        0 <= t < doc.edges.len(),
        doc.edges[t].source < doc.nodes.len(),
        doc.edges[t].target < doc.nodes.len(),
        doc.edges[t].source_port < doc.nodes[doc.edges[t].source as int].outputs.len(),
        doc.edges[t].target_port < doc.nodes[doc.edges[t].target as int].inputs.len(),
        !doc.nodes[doc.edges[t].source as int].unresolved,
        !doc.nodes[doc.edges[t].target as int].unresolved,
        normalized_type(doc.nodes[doc.edges[t].source as int].outputs[doc.edges[t].source_port as int].canonical_type)
            != normalized_type(doc.nodes[doc.edges[t].target as int].inputs[doc.edges[t].target_port as int].canonical_type),
    ensures
        document_diagnostics(doc).contains(
            (
                DiagnosticSeverity::Error,
                "Type mismatch: "@ + doc.nodes[doc.edges[t].source as int].id + " ("@
                    + doc.nodes[doc.edges[t].source as int].outputs[doc.edges[t].source_port as int].declared_type
                    + ") cannot connect to "@ + doc.nodes[doc.edges[t].target as int].id + " ("@
                    + doc.nodes[doc.edges[t].target as int].inputs[doc.edges[t].target_port as int].declared_type + ")"@,
            ),
        ),
        has_error(document_diagnostics(doc)),
{
    let e = doc.edges[t];
    let source = doc.nodes[e.source as int];
    let target = doc.nodes[e.target as int];
    let output = source.outputs[e.source_port as int];
    let input = target.inputs[e.target_port as int];
    let d = (
        DiagnosticSeverity::Error,
        "Type mismatch: "@ + source.id + " ("@ + output.declared_type + ") cannot connect to "@ + target.id + " ("@
            + input.declared_type + ")"@,
    );
    let a = when(!bridge_port_usable(source, output), error("Connection uses disabled bridge channel '"@ + source.id + "/"@ + output.name + "'"@))
        + when(!bridge_port_usable(target, input), error("Connection uses disabled bridge channel '"@ + target.id + "/"@ + input.name + "'"@))
        + when(input_taken_before(doc, t), error("Input '"@ + input.name + "' on '"@ + target.id + "' has more than one producer"@));
    let m = error(d.1);
    let z = when(e.source == e.target, error("Node '"@ + source.id + "' cannot connect to itself"@));
    assert(!ports_compatible(output, input));
    assert(edge_diags(doc, t) == a + m + z);
    assert((a + m + z)[a.len() as int] == d);
    lemma_edges_diags_hold(doc, doc.edges.len() as int, t, d);
    let n = nodes_diags(doc.nodes, doc.nodes.len() as int);
    let ed = edges_diags(doc, doc.edges.len() as int);
    let x = choose|x: int| 0 <= x < ed.len() && ed[x] == d;
    let rest = when(graph_cyclic(doc), error("The task graph contains a cycle"@))
        + unconnected_diags(doc, doc.nodes.len() as int) + constants_diags(doc.constants, doc.constants.len() as int)
        + monitors_diags(doc, doc.monitors.len() as int);
    assert(document_diagnostics(doc) =~= n + ed + rest);
    assert((n + ed + rest)[n.len() + x] == d);
    assert(document_diagnostics(doc)[n.len() + x] == d);
}

// ---------------------------------------------------------------------------
// Computing the diagnostics
// ---------------------------------------------------------------------------

fn push_error(diags: &mut Vec<Diagnostic>, message: &Vec<char>)
    ensures
        final(diags).deep_view() == old(diags).deep_view() + error(message@),
{
    diags.push(Diagnostic::error(string_of(message.as_slice())));
    assert(final(diags).deep_view() =~= old(diags).deep_view() + error(message@));
}

fn push_warning(diags: &mut Vec<Diagnostic>, message: &Vec<char>)
    ensures
        final(diags).deep_view() == old(diags).deep_view() + warning(message@),
{
    diags.push(Diagnostic::warning(string_of(message.as_slice())));
    assert(final(diags).deep_view() =~= old(diags).deep_view() + warning(message@));
}

/// Appends an error for each configuration value that is not valid RON.
pub fn validate_config_values(owner: &Vec<char>, config: &EditableConfig, diags: &mut Vec<Diagnostic>)
    ensures
        final(diags).deep_view() == old(diags).deep_view() + all_config_diags(owner@, config.deep_view()),
{
    let ghost start = diags.deep_view();
    let ghost cfg = config.deep_view();
    let mut k: usize = 0;
    while k < config.0.len()
        invariant
            k <= config.0.len(),
            cfg == config.deep_view(),
            diags.deep_view() == start + config_diags(owner@, cfg, k as int),
        decreases config.0.len() - k,
    {
        let entry = &config.0[k];
        if !ron_parses(entry.1.as_str()) {
            let mut m: Vec<char> = Vec::new();
            push_str(&mut m, "Config value '");
            push_str(&mut m, entry.0.as_str());
            push_str(&mut m, "' on '");
            push_all(&mut m, owner.as_slice());
            push_str(&mut m, "' is not valid RON");
            push_error(diags, &m);
        }
        k = k + 1;
        assert(diags.deep_view() =~= start + config_diags(owner@, cfg, k as int));
    }
}

fn node_id_diags(nodes: &Vec<GraphNode>, j: usize, diags: &mut Vec<Diagnostic>)
    requires
        j < nodes@.len(),
    ensures
        final(diags).deep_view() == old(diags).deep_view() + id_diags(nodes.deep_view(), j as int),
{
    let ghost ns = nodes.deep_view();
    let id = chars_of(nodes[j].id.as_str());
    let nc = chars_of(NC_ENDPOINT);
    if id.len() == 0 {
        let mut m: Vec<char> = Vec::new();
        push_str(&mut m, "Node IDs cannot be empty");
        push_error(diags, &m);
        return;
    }
    let has_slash = crate::text::find_char(id.as_slice(), '/').is_some();
    proof {
        if !has_slash {
            assert(!id@.contains('/'));
        }
    }
    if chars_eq(id.as_slice(), nc.as_slice()) || has_slash {
        let mut m: Vec<char> = Vec::new();
        push_str(&mut m, "Node '");
        push_all(&mut m, id.as_slice());
        push_str(&mut m, "' uses a reserved endpoint character or name");
        push_error(diags, &m);
        return;
    }
    let mut i: usize = 0;
    let mut duplicated = false;
    while i < j
        invariant
            i <= j < nodes@.len(),
            ns == nodes.deep_view(),
            id@ == ns[j as int].id,
            duplicated == exists|u: int| 0 <= u < i && ns[u].id == id@,
        decreases j - i,
    {
        assert(ns[i as int].id == nodes@[i as int].id@);
        if crate::text::str_eq(nodes[i].id.as_str(), nodes[j].id.as_str()) {
            duplicated = true;
        }
        i = i + 1;
    }
    if duplicated {
        let mut m: Vec<char> = Vec::new();
        push_str(&mut m, "Node ID '");
        push_all(&mut m, id.as_slice());
        push_str(&mut m, "' is duplicated");
        push_error(diags, &m);
    } else {
        assert(diags.deep_view() =~= old(diags).deep_view() + id_diags(ns, j as int));
    }
}

fn one_node_diags(nodes: &Vec<GraphNode>, j: usize, diags: &mut Vec<Diagnostic>)
    requires
        j < nodes@.len(),
    ensures
        final(diags).deep_view() == old(diags).deep_view() + node_diags(nodes.deep_view(), j as int),
{
    let ghost ns = nodes.deep_view();
    let ghost start = diags.deep_view();
    node_id_diags(nodes, j, diags);
    let node = &nodes[j];
    let ghost nm = ns[j as int];
    assert(node.deep_view() == nm);
    if node.unresolved {
        let mut m: Vec<char> = Vec::new();
        push_str(&mut m, "Component type '");
        push_str(&mut m, node.component_type.as_str());
        push_str(&mut m, "' could not be resolved and will be preserved");
        push_warning(diags, &m);
    }
    let ghost after_warning = diags.deep_view();
    let id = chars_of(node.id.as_str());
    validate_config_values(&id, &node.config, diags);
    let ghost before_channels = diags.deep_view();
    let mut k: usize = 0;
    while k < node.channels.len()
        invariant
            k <= node.channels@.len(),
            node.deep_view() == nm,
            id@ == nm.id,
            diags.deep_view() == before_channels + channel_diags(nm, k as int),
        decreases node.channels.len() - k,
    {
        let mut owner: Vec<char> = Vec::new();
        push_all(&mut owner, id.as_slice());
        owner.push('/');
        push_str(&mut owner, node.channels[k].id.as_str());
        assert(owner@ =~= nm.id + "/"@ + nm.channels[k as int].id) by {
            reveal_strlit("/");
        }
        validate_config_values(&owner, &node.channels[k].config, diags);
        k = k + 1;
        assert(diags.deep_view() =~= before_channels + channel_diags(nm, k as int));
    }
    assert(diags.deep_view() =~= start + node_diags(ns, j as int));
}

/// Whether the port of a node is usable (see [`bridge_port_usable`]).
pub fn bridge_port_enabled(node: &GraphNode, port: &PortDescriptor) -> (r: bool)
    ensures
        r == bridge_port_usable(node.deep_view(), port.deep_view()),
{
    if node.kind != ComponentKind::Bridge {
        return true;
    }
    let ghost nm = node.deep_view();
    let ghost pm = port.deep_view();
    let mut k: usize = 0;
    while k < node.channels.len()
        invariant
            k <= node.channels@.len(),
            nm == node.deep_view(),
            pm == port.deep_view(),
            node.kind == ComponentKind::Bridge,
            first_channel(nm.channels, pm, 0) == first_channel(nm.channels, pm, k as int),
        decreases node.channels.len() - k,
    {
        let channel = &node.channels[k];
        assert(nm.channels[k as int] == channel.deep_view());
        if crate::text::str_eq(channel.id.as_str(), port.name.as_str()) && channel.direction
            == port.direction {
            assert(first_channel(nm.channels, pm, k as int) == Some(k as int));
            assert(nm.kind == ComponentKind::Bridge);
            assert(nm.channels[k as int].enabled == channel.enabled);
            return channel.enabled;
        }
        k = k + 1;
    }
    true
}

/// Whether both ends of connection `t` exist.
pub fn edge_valid_exec(doc: &GraphDocument, t: usize) -> (r: bool)
    requires
        t < doc.edges@.len(),
    ensures
        r == edge_valid(doc.deep_view(), t as int),
{
    let e = &doc.edges[t];
    let n = doc.nodes.len();
    e.source < n && e.target < n && e.source_port < doc.nodes[e.source].outputs.len()
        && e.target_port < doc.nodes[e.target].inputs.len()
}

fn input_taken_before_exec(doc: &GraphDocument, t: usize) -> (r: bool)
    requires
        t < doc.edges@.len(),
    ensures
        r == input_taken_before(doc.deep_view(), t as int),
{
    let ghost dm = doc.deep_view();
    let mut u: usize = 0;
    while u < t
        invariant
            u <= t < doc.edges@.len(),
            dm == doc.deep_view(),
            forall|w: int|
                0 <= w < u ==> !(edge_valid(dm, w) && dm.edges[w].target == dm.edges[t as int].target
                    && dm.edges[w].target_port == dm.edges[t as int].target_port),
        decreases t - u,
    {
        if edge_valid_exec(doc, u) && doc.edges[u].target == doc.edges[t].target
            && doc.edges[u].target_port == doc.edges[t].target_port {
            return true;
        }
        u = u + 1;
    }
    false
}

/// Whether some valid connection feeds input `p` of node `j`.
pub fn input_connected_exec(doc: &GraphDocument, j: usize, p: usize) -> (r: bool)
    ensures
        r == input_connected(doc.deep_view(), j as int, p as int),
{
    let ghost dm = doc.deep_view();
    let mut u: usize = 0;
    while u < doc.edges.len()
        invariant
            u <= doc.edges@.len(),
            dm == doc.deep_view(),
            forall|w: int|
                0 <= w < u ==> !(edge_valid(dm, w) && dm.edges[w].target == j
                    && dm.edges[w].target_port == p),
        decreases doc.edges.len() - u,
    {
        if edge_valid_exec(doc, u) && doc.edges[u].target == j && doc.edges[u].target_port == p {
            return true;
        }
        u = u + 1;
    }
    false
}

proof fn lemma_all_identifiers_push(done: Seq<Seq<char>>, seg: Seq<char>)
    ensures
        (forall|k: int| 0 <= k < done.push(seg).len() ==> rust_identifier(#[trigger] done.push(seg)[k]))
            == ((forall|k: int| 0 <= k < done.len() ==> rust_identifier(#[trigger] done[k]))
            && rust_identifier(seg)),
{
    let d2 = done.push(seg);
    if (forall|k: int| 0 <= k < done.len() ==> rust_identifier(#[trigger] done[k])) && rust_identifier(seg) {
        assert forall|k: int| 0 <= k < d2.len() implies rust_identifier(#[trigger] d2[k]) by {
            if k < done.len() {
                assert(d2[k] == done[k]);
            }
        }
    }
    if forall|k: int| 0 <= k < d2.len() ==> rust_identifier(#[trigger] d2[k]) {
        assert(d2[done.len() as int] == seg);
        assert forall|k: int| 0 <= k < done.len() implies rust_identifier(#[trigger] done[k]) by {
            assert(d2[k] == done[k]);
        }
    }
}

/// Whether every `::`-separated segment of the text is a Rust identifier.
pub fn module_path_ok_exec(module: &[char]) -> (r: bool)
    ensures
        r == module_path_ok(module@),
{
    let sep = chars_of("::");
    proof {
        reveal_strlit("::");
    }
    let ghost s = module@;
    let ghost mut done: Seq<Seq<char>> = Seq::empty();
    let mut from: usize = 0;
    let mut ok = true;
    loop
        invariant
            from <= module@.len(),
            sep@ == "::"@,
            sep@.len() == 2,
            s == module@,
            done + split_from(s, sep@, from as int) == split_from(s, sep@, 0),
            ok == forall|k: int| 0 <= k < done.len() ==> rust_identifier(#[trigger] done[k]),
        decreases module@.len() + 1 - from,
    {
        proof {
            crate::text::lemma_first_occurrence(s, sep@, from as int);
        }
        match crate::text::find_from(module, sep.as_slice(), from) {
            Some(i) => {
                let mut seg: Vec<char> = Vec::new();
                crate::text::push_range(&mut seg, module, from, i);
                let good = is_identifier_chars(seg.as_slice());
                proof {
                    assert(first_occurrence(s, sep@, from as int) == Some(i as int));
                    assert(split_from(s, sep@, from as int) == seq![s.subrange(from as int, i as int)]
                        + split_from(s, sep@, i + 2));
                    assert(seg@ =~= s.subrange(from as int, i as int));
                    assert((done + seq![seg@]) + split_from(s, sep@, i + 2) =~= done + split_from(
                        s,
                        sep@,
                        from as int,
                    ));
                    let d2 = done.push(seg@);
                    lemma_all_identifiers_push(done, seg@);
                    assert(done + seq![seg@] =~= d2);
                    done = d2;
                }
                ok = ok && good;
                let len = module.len();
                assert(i + 2 <= len);
                from = i + 2;
            },
            None => {
                let mut seg: Vec<char> = Vec::new();
                crate::text::push_range(&mut seg, module, from, module.len());
                let good = is_identifier_chars(seg.as_slice());
                proof {
                    assert(first_occurrence(s, sep@, from as int) is None);
                    assert(seg@ =~= s.subrange(from as int, s.len() as int));
                    let all = done.push(seg@);
                    assert(all =~= split_from(s, sep@, 0));
                    lemma_all_identifiers_push(done, seg@);
                }
                return ok && good;
            },
        }
    }
}

fn one_constant_diags(constants: &Vec<ConstantDefinition>, k: usize, diags: &mut Vec<Diagnostic>)
    requires
        k < constants@.len(),
    ensures
        final(diags).deep_view() == old(diags).deep_view() + constant_diags(constants.deep_view(), k as int),
{
    let ghost cs = constants.deep_view();
    let ghost start = diags.deep_view();
    let c = &constants[k];
    assert(c.deep_view() == cs[k as int]);
    let q = c.qualified_id();
    assert(q@ == model_qualified(cs[k as int]));
    if !is_rust_identifier(c.id()) {
        let mut m: Vec<char> = Vec::new();
        push_str(&mut m, "Constant ID '");
        push_str(&mut m, c.id());
        push_str(&mut m, "' is not a Rust identifier");
        push_error(diags, &m);
    }
    let ghost after_id = diags.deep_view();
    let module = chars_of(c.module());
    if module.len() != 0 && !module_path_ok_exec(module.as_slice()) {
        let mut m: Vec<char> = Vec::new();
        push_str(&mut m, "Constant module '");
        push_all(&mut m, module.as_slice());
        push_str(&mut m, "' is not a Rust module path");
        push_error(diags, &m);
    }
    let ghost after_module = diags.deep_view();
    let mut i: usize = 0;
    let mut duplicated = false;
    while i < k
        invariant
            i <= k < constants@.len(),
            cs == constants.deep_view(),
            q@ == model_qualified(cs[k as int]),
            duplicated == exists|u: int| 0 <= u < i && model_qualified(cs[u]) == q@,
        decreases k - i,
    {
        let other = constants[i].qualified_id();
        assert(constants@[i as int].deep_view() == cs[i as int]);
        if crate::text::str_eq(other.as_str(), q.as_str()) {
            duplicated = true;
        }
        i = i + 1;
    }
    if duplicated {
        let mut m: Vec<char> = Vec::new();
        push_str(&mut m, "Constant '");
        push_str(&mut m, q.as_str());
        push_str(&mut m, "' is duplicated");
        push_error(diags, &m);
    }
    let ghost after_dup = diags.deep_view();
    match c {
        ConstantDefinition::Numeric { value_ron, .. } => {
            if !ron_parses(value_ron.as_str()) {
                let mut m: Vec<char> = Vec::new();
                push_str(&mut m, "Constant '");
                push_str(&mut m, q.as_str());
                push_str(&mut m, "' has an invalid RON value");
                push_error(diags, &m);
            }
        },
        ConstantDefinition::Expression { rust_type, expression, .. } => {
            if rust_type_text(rust_type.as_str()).is_none() {
                let mut m: Vec<char> = Vec::new();
                push_str(&mut m, "Constant '");
                push_str(&mut m, q.as_str());
                push_str(&mut m, "' has an invalid Rust type");
                push_error(diags, &m);
            }
            if !parses_as_rust_expr(expression.as_str()) {
                let mut m: Vec<char> = Vec::new();
                push_str(&mut m, "Constant '");
                push_str(&mut m, q.as_str());
                push_str(&mut m, "' has an invalid Rust expression");
                push_error(diags, &m);
            }
        },
    }
    assert(diags.deep_view() =~= start + constant_diags(cs, k as int));
}

fn one_edge_diags(
    doc: &GraphDocument,
    t: usize,
    graph: &mut petgraph::graph::Graph<(), (), petgraph::Directed, u32>,
    diags: &mut Vec<Diagnostic>,
)
    requires
        t < doc.edges@.len(),
        graph_node_count(*old(graph)) == doc.nodes@.len(),
        graph_edges(*old(graph)).len() < u32::MAX,
    ensures
        final(diags).deep_view() == old(diags).deep_view() + edge_diags(doc.deep_view(), t as int),
        graph_node_count(*final(graph)) == graph_node_count(*old(graph)),
        graph_edges(*final(graph)) == (if edge_valid(doc.deep_view(), t as int)
            && doc.edges@[t as int].source != doc.edges@[t as int].target {
            graph_edges(*old(graph)).push(
                (doc.edges@[t as int].source as int, doc.edges@[t as int].target as int),
            )
        } else {
            graph_edges(*old(graph))
        }),
{
    let ghost dm = doc.deep_view();
    let n = doc.nodes.len();
        let e = &doc.edges[t];
        assert(e.deep_view() == dm.edges[t as int]);
        let ghost before = diags.deep_view();
        if e.source >= n {
            let mut m: Vec<char> = Vec::new();
            push_str(&mut m, "Connection has a missing source node");
            push_error(diags, &m);
        } else if e.target >= n {
            let mut m: Vec<char> = Vec::new();
            push_str(&mut m, "Connection has a missing target node");
            push_error(diags, &m);
        } else if e.source_port >= doc.nodes[e.source].outputs.len() {
            let mut m: Vec<char> = Vec::new();
            push_str(&mut m, "Connection from '");
            push_str(&mut m, doc.nodes[e.source].id.as_str());
            push_str(&mut m, "' uses a missing output port");
            push_error(diags, &m);
        } else if e.target_port >= doc.nodes[e.target].inputs.len() {
            let mut m: Vec<char> = Vec::new();
            push_str(&mut m, "Connection to '");
            push_str(&mut m, doc.nodes[e.target].id.as_str());
            push_str(&mut m, "' uses a missing input port");
            push_error(diags, &m);
        } else {
            let source = &doc.nodes[e.source];
            let target = &doc.nodes[e.target];
            let output = &source.outputs[e.source_port];
            let input = &target.inputs[e.target_port];
            assert(source.deep_view() == dm.nodes[e.source as int]);
            assert(target.deep_view() == dm.nodes[e.target as int]);
            assert(output.deep_view() == dm.nodes[e.source as int].outputs[e.source_port as int]);
            assert(input.deep_view() == dm.nodes[e.target as int].inputs[e.target_port as int]);
            if !bridge_port_enabled(source, output) {
                let mut m: Vec<char> = Vec::new();
                push_str(&mut m, "Connection uses disabled bridge channel '");
                push_str(&mut m, source.id.as_str());
                push_str(&mut m, "/");
                push_str(&mut m, output.name.as_str());
                push_str(&mut m, "'");
                push_error(diags, &m);
            }
            if !bridge_port_enabled(target, input) {
                let mut m: Vec<char> = Vec::new();
                push_str(&mut m, "Connection uses disabled bridge channel '");
                push_str(&mut m, target.id.as_str());
                push_str(&mut m, "/");
                push_str(&mut m, input.name.as_str());
                push_str(&mut m, "'");
                push_error(diags, &m);
            }
            if input_taken_before_exec(doc, t) {
                let mut m: Vec<char> = Vec::new();
                push_str(&mut m, "Input '");
                push_str(&mut m, input.name.as_str());
                push_str(&mut m, "' on '");
                push_str(&mut m, target.id.as_str());
                push_str(&mut m, "' has more than one producer");
                push_error(diags, &m);
            }
            if !output.compatible_with(input) && !source.unresolved && !target.unresolved {
                let mut m: Vec<char> = Vec::new();
                push_str(&mut m, "Type mismatch: ");
                push_str(&mut m, source.id.as_str());
                push_str(&mut m, " (");
                push_str(&mut m, output.declared_type.as_str());
                push_str(&mut m, ") cannot connect to ");
                push_str(&mut m, target.id.as_str());
                push_str(&mut m, " (");
                push_str(&mut m, input.declared_type.as_str());
                push_str(&mut m, ")");
                push_error(diags, &m);
            }
            if e.source == e.target {
                let mut m: Vec<char> = Vec::new();
                push_str(&mut m, "Node '");
                push_str(&mut m, source.id.as_str());
                push_str(&mut m, "' cannot connect to itself");
                push_error(diags, &m);
            } else {
                add_task_edge(graph, e.source, e.target);
            }
        }
    assert(diags.deep_view() =~= old(diags).deep_view() + edge_diags(dm, t as int));
}

impl GraphDocument {
    /// Every diagnostic of the document (see [`document_diagnostics`]). The
    /// cycle check builds a petgraph graph, which holds fewer than `u32::MAX`
    /// nodes and edges.
    pub fn diagnostics(&self) -> (r: Vec<Diagnostic>)
        requires
            self.nodes@.len() < u32::MAX,
            self.edges@.len() < u32::MAX,
        ensures
            r.deep_view() == document_diagnostics(self.deep_view()),
    {
        let ghost dm = self.deep_view();
        let mut diags: Vec<Diagnostic> = Vec::new();
        let mut j: usize = 0;
        while j < self.nodes.len()
            invariant
                j <= self.nodes@.len(),
                dm == self.deep_view(),
                diags.deep_view() == nodes_diags(dm.nodes, j as int),
            decreases self.nodes.len() - j,
        {
            one_node_diags(&self.nodes, j, &mut diags);
            j = j + 1;
            assert(diags.deep_view() =~= nodes_diags(dm.nodes, j as int));
        }
        let ghost after_nodes = diags.deep_view();
        let mut graph = new_task_graph();
        let mut j: usize = 0;
        while j < self.nodes.len()
            invariant
                j <= self.nodes@.len() < u32::MAX,
                graph_node_count(graph) == j,
                graph_edges(graph) == Seq::<(int, int)>::empty(),
            decreases self.nodes.len() - j,
        {
            add_task_node(&mut graph);
            j = j + 1;
        }
        let n = self.nodes.len();
        let mut t: usize = 0;
        while t < self.edges.len()
            invariant
                t <= self.edges@.len() < u32::MAX,
                n == self.nodes@.len(),
                dm == self.deep_view(),
                graph_node_count(graph) == n,
                graph_edges(graph) == dependency_edges(dm, t as int),
                graph_edges(graph).len() <= t,
                diags.deep_view() == after_nodes + edges_diags(dm, t as int),
            decreases self.edges.len() - t,
        {
            let ghost before = diags.deep_view();
            one_edge_diags(self, t, &mut graph, &mut diags);
            assert(self.edges@[t as int].deep_view() == dm.edges[t as int]);
            t = t + 1;
            assert(diags.deep_view() =~= after_nodes + edges_diags(dm, t as int));
        }
        let ghost after_edges = diags.deep_view();
        if task_graph_is_cyclic(&graph) {
            let mut m: Vec<char> = Vec::new();
            push_str(&mut m, "The task graph contains a cycle");
            push_error(&mut diags, &m);
        }
        let ghost after_cycle = diags.deep_view();
        assert(after_cycle =~= after_edges + when(
            graph_cyclic(dm),
            error("The task graph contains a cycle"@),
        ));
        let mut j: usize = 0;
        while j < self.nodes.len()
            invariant
                j <= self.nodes@.len(),
                dm == self.deep_view(),
                diags.deep_view() == after_cycle + unconnected_diags(dm, j as int),
            decreases self.nodes.len() - j,
        {
            let node = &self.nodes[j];
            assert(node.deep_view() == dm.nodes[j as int]);
            let ghost before = diags.deep_view();
            let mut p: usize = 0;
            while p < node.inputs.len()
                invariant
                    j < self.nodes@.len(),
                    p <= node.inputs@.len(),
                    dm == self.deep_view(),
                    node.deep_view() == dm.nodes[j as int],
                    diags.deep_view() == before + port_warnings(dm, j as int, p as int),
                decreases node.inputs.len() - p,
            {
                if !input_connected_exec(self, j, p) {
                    let mut m: Vec<char> = Vec::new();
                    push_str(&mut m, "Input '");
                    push_str(&mut m, node.inputs[p].name.as_str());
                    push_str(&mut m, "' on '");
                    push_str(&mut m, node.id.as_str());
                    push_str(&mut m, "' is not connected");
                    assert(node.inputs@[p as int].deep_view() == dm.nodes[j as int].inputs[p as int]);
                    push_warning(&mut diags, &m);
                }
                p = p + 1;
                assert(diags.deep_view() =~= before + port_warnings(dm, j as int, p as int));
            }
            j = j + 1;
            assert(diags.deep_view() =~= after_cycle + unconnected_diags(dm, j as int));
        }
        let ghost after_unconnected = diags.deep_view();
        let mut k: usize = 0;
        while k < self.constants.len()
            invariant
                k <= self.constants@.len(),
                dm == self.deep_view(),
                diags.deep_view() == after_unconnected + constants_diags(dm.constants, k as int),
            decreases self.constants.len() - k,
        {
            one_constant_diags(&self.constants, k, &mut diags);
            k = k + 1;
            assert(diags.deep_view() =~= after_unconnected + constants_diags(dm.constants, k as int));
        }
        let ghost after_constants = diags.deep_view();
        let mut k: usize = 0;
        while k < self.monitors.len()
            invariant
                k <= self.monitors@.len(),
                dm == self.deep_view(),
                diags.deep_view() == after_constants + monitors_diags(dm, k as int),
            decreases self.monitors.len() - k,
        {
            let monitor = &self.monitors[k];
            assert(monitor.deep_view() == dm.monitors[k as int]);
            let owner = chars_of(monitor.component_type.as_str());
            validate_config_values(&owner, &monitor.config, &mut diags);
            k = k + 1;
            assert(diags.deep_view() =~= after_constants + monitors_diags(dm, k as int));
        }
        assert(diags.deep_view() =~= document_diagnostics(dm));
        diags
    }

    /// Whether some diagnostic of the document is an error.
    pub fn has_hard_errors(&self) -> (r: bool)
        requires
            self.nodes@.len() < u32::MAX,
            self.edges@.len() < u32::MAX,
        ensures
            r == has_error(document_diagnostics(self.deep_view())),
    {
        let diags = self.diagnostics();
        let ghost dv = diags.deep_view();
        let mut i: usize = 0;
        while i < diags.len()
            invariant
                i <= diags@.len(),
                dv == diags.deep_view(),
                dv == document_diagnostics(self.deep_view()),
                forall|u: int| 0 <= u < i ==> dv[u].0 != DiagnosticSeverity::Error,
            decreases diags.len() - i,
        {
            assert(dv[i as int].0 == diags@[i as int].severity);
            if diags[i].severity == DiagnosticSeverity::Error {
                assert(dv[i as int].0 == DiagnosticSeverity::Error);
                return true;
            }
            i = i + 1;
        }
        false
    }
}

} // verus!
