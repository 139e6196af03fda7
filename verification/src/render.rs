//! Writing the graph back as Copper RON sections, in the layout the editor uses.
use vstd::prelude::*;

use crate::model::{
    storage_name, task_kind_name, ComponentKind, ConstantDefinition, ConstantModel, DocumentModel,
    EditableConfig, EdgeModel, GraphDocument, GraphNode, InstanceModel, MonitorInstance,
    MonitorModel, NodeModel, PortDirection, NC_ENDPOINT,
};
use crate::outside::{ron_serialize_str, ron_serialized_str};
use crate::text::{chars_of, contains_seq, occurs_at, push_all, push_str, str_eq, trim};

verus! {

pub type Text = Seq<char>;

/// A string as a RON string literal: what `ron` serializes, or the text in
/// double quotes where serialization fails.
pub open spec fn ron_text(value: Text) -> Text {
    match ron_serialized_str(value) {
        Some(t) => t,
        None => "\""@ + value + "\""@,
    }
}

pub fn ron_string(value: &str) -> (r: Vec<char>)
    ensures
        r@ == ron_text(value@),
{
    match ron_serialize_str(value) {
        Some(t) => chars_of(t.as_str()),
        None => {
            let mut out: Vec<char> = Vec::new();
            push_str(&mut out, "\"");
            push_str(&mut out, value);
            push_str(&mut out, "\"");
            out
        },
    }
}

pub open spec fn bool_text(b: bool) -> Text {
    if b {
        "true"@
    } else {
        "false"@
    }
}

fn push_bool(out: &mut Vec<char>, b: bool)
    ensures
        final(out)@ == old(out)@ + bool_text(b),
{
    if b {
        push_str(out, "true");
    } else {
        push_str(out, "false");
    }
}

/// `n` copies of `s`.
pub open spec fn repeat(s: Text, n: nat) -> Text
    decreases n,
{
    if n == 0 {
        Seq::empty()
    } else {
        repeat(s, (n - 1) as nat) + s
    }
}

/// The items with `sep` between each two.
pub open spec fn join(items: Seq<Text>, sep: Text) -> Text
    decreases items.len(),
{
    if items.len() == 0 {
        Seq::empty()
    } else if items.len() == 1 {
        items[0]
    } else {
        join(items.drop_last(), sep) + sep + items.last()
    }
}

/// Four spaces per level.
pub open spec fn padding(indent: nat) -> Text {
    repeat("    "@, indent)
}

/// A parenthesized struct, one field per line at `indent`, the closing
/// parenthesis one level out.
pub open spec fn render_struct_text(fields: Seq<Text>, indent: nat) -> Text {
    let closing = if indent > 0 { (indent - 1) as nat } else { 0 };
    "(\n"@ + padding(indent) + join(fields, "\n"@ + padding(indent)) + "\n"@ + padding(closing) + ")"@
}

/// A bracketed list, one value per line one level in, each followed by a comma.
pub open spec fn render_list_text(values: Seq<Text>, indent: nat) -> Text {
    if values.len() == 0 {
        "[]"@
    } else {
        "[\n"@ + padding(indent + 1) + join(values, ",\n"@ + padding(indent + 1)) + ",\n"@
            + padding(indent) + "]"@
    }
}

fn push_padding(out: &mut Vec<char>, indent: usize)
    ensures
        final(out)@ == old(out)@ + padding(indent as nat),
{
    let mut k: usize = 0;
    while k < indent
        invariant
            k <= indent,
            out@ == old(out)@ + padding(k as nat),
        decreases indent - k,
    {
        push_str(out, "    ");
        k = k + 1;
        assert(out@ =~= old(out)@ + padding(k as nat));
    }
}

/// Appends the items joined by `sep`.
fn push_join(out: &mut Vec<char>, items: &Vec<Vec<char>>, sep: &Vec<char>)
    ensures
        final(out)@ == old(out)@ + join(items.deep_view(), sep@),
{
    let ghost iv = items.deep_view();
    let mut k: usize = 0;
    while k < items.len()
        invariant
            k <= items@.len(),
            iv == items.deep_view(),
            out@ == old(out)@ + join(iv.take(k as int), sep@),
        decreases items.len() - k,
    {
        assert(items@[k as int].deep_view() =~= items@[k as int]@);
        assert(iv[k as int] == items@[k as int]@);
        if k > 0 {
            push_all(out, sep.as_slice());
        }
        push_all(out, items[k].as_slice());
        proof {
            let t = iv.take(k + 1);
            assert(t.drop_last() =~= iv.take(k as int));
            assert(t.last() == iv[k as int]);
            if k == 0 {
                assert(iv.take(0) =~= Seq::<Text>::empty());
                assert(t.len() == 1);
            }
        }
        k = k + 1;
        assert(out@ =~= old(out)@ + join(iv.take(k as int), sep@));
    }
    assert(iv.take(items.len() as int) =~= iv);
}

/// A struct of the given fields (see [`render_struct_text`]).
pub fn render_struct(fields: &Vec<Vec<char>>, indent: usize) -> (r: Vec<char>)
    ensures
        r@ == render_struct_text(fields.deep_view(), indent as nat),
{
    let mut out: Vec<char> = Vec::new();
    push_str(&mut out, "(\n");
    push_padding(&mut out, indent);
    let mut sep: Vec<char> = Vec::new();
    push_str(&mut sep, "\n");
    push_padding(&mut sep, indent);
    push_join(&mut out, fields, &sep);
    push_str(&mut out, "\n");
    let closing = if indent > 0 { indent - 1 } else { 0 };
    push_padding(&mut out, closing);
    push_str(&mut out, ")");
    out
}

/// A list of the given values (see [`render_list_text`]).
pub fn render_list(values: &Vec<Vec<char>>, indent: usize) -> (r: Vec<char>)
    requires
        indent < usize::MAX,
    ensures
        r@ == render_list_text(values.deep_view(), indent as nat),
{
    let mut out: Vec<char> = Vec::new();
    if values.len() == 0 {
        push_str(&mut out, "[]");
        return out;
    }
    push_str(&mut out, "[\n");
    push_padding(&mut out, indent + 1);
    let mut sep: Vec<char> = Vec::new();
    push_str(&mut sep, ",\n");
    push_padding(&mut sep, indent + 1);
    push_join(&mut out, values, &sep);
    push_str(&mut out, ",\n");
    push_padding(&mut out, indent);
    push_str(&mut out, "]");
    out
}

// ---------------------------------------------------------------------------
// Configuration maps and extra fields
// ---------------------------------------------------------------------------

/// `"key": value,` for each entry.
pub open spec fn config_entries(config: Seq<(Text, Text)>, k: int) -> Seq<Text>
    decreases k,
{
    if k <= 0 || k > config.len() {
        Seq::empty()
    } else {
        config_entries(config, k - 1).push(ron_text(config[k - 1].0) + ": "@ + config[k - 1].1 + ","@)
    }
}

/// A configuration map on one line.
pub open spec fn config_text(config: Seq<(Text, Text)>) -> Text {
    if config.len() == 0 {
        "{}"@
    } else {
        "{ "@ + join(config_entries(config, config.len() as int), " "@) + " }"@
    }
}

pub fn render_config(config: &EditableConfig) -> (r: Vec<char>)
    ensures
        r@ == config_text(config.deep_view()),
{
    let mut out: Vec<char> = Vec::new();
    if config.0.len() == 0 {
        push_str(&mut out, "{}");
        return out;
    }
    let ghost cv = config.deep_view();
    let mut entries: Vec<Vec<char>> = Vec::new();
    let mut k: usize = 0;
    assert(entries.deep_view() =~= config_entries(cv, 0));
    while k < config.0.len()
        invariant
            k <= config.0@.len(),
            cv == config.deep_view(),
            entries.deep_view() == config_entries(cv, k as int),
        decreases config.0.len() - k,
    {
        let mut e = ron_string(config.0[k].0.as_str());
        push_str(&mut e, ": ");
        push_str(&mut e, config.0[k].1.as_str());
        push_str(&mut e, ",");
        assert(e.deep_view() =~= e@);
        let ghost before = entries.deep_view();
        entries.push(e);
        k = k + 1;
        assert(entries.deep_view() =~= before.push(e@));
    }
    push_str(&mut out, "{ ");
    let mut sep: Vec<char> = Vec::new();
    push_str(&mut sep, " ");
    push_join(&mut out, &entries, &sep);
    push_str(&mut out, " }");
    out
}

/// Field names the editor writes itself, which extra fields never repeat.
pub open spec fn managed_field(key: Text) -> bool {
    key == "id"@ || key == "type"@ || key == "kind"@ || key == "config"@ || key == "background"@
        || key == "run_in_sim"@ || key == "logging"@ || key == "channels"@
}

/// `key: value,` for each extra field that the editor does not manage.
pub open spec fn extra_entries(extra: Seq<(Text, Text)>, k: int) -> Seq<Text>
    decreases k,
{
    if k <= 0 || k > extra.len() {
        Seq::empty()
    } else if managed_field(extra[k - 1].0) {
        extra_entries(extra, k - 1)
    } else {
        extra_entries(extra, k - 1).push(extra[k - 1].0 + ": "@ + extra[k - 1].1 + ","@)
    }
}

fn is_managed_field(key: &str) -> (r: bool)
    ensures
        r == managed_field(key@),
{
    str_eq(key, "id") || str_eq(key, "type") || str_eq(key, "kind") || str_eq(key, "config")
        || str_eq(key, "background") || str_eq(key, "run_in_sim") || str_eq(key, "logging")
        || str_eq(key, "channels")
}

/// Appends the extra fields (see [`extra_entries`]).
pub fn append_extra(fields: &mut Vec<Vec<char>>, extra: &Vec<(String, String)>)
    ensures
        final(fields).deep_view() == old(fields).deep_view() + extra_entries(
            extra.deep_view(),
            extra@.len() as int,
        ),
{
    let ghost ev = extra.deep_view();
    let ghost start = fields.deep_view();
    let mut k: usize = 0;
    assert(start =~= start + extra_entries(ev, 0));
    while k < extra.len()
        invariant
            k <= extra@.len(),
            ev == extra.deep_view(),
            fields.deep_view() == start + extra_entries(ev, k as int),
        decreases extra.len() - k,
    {
        let entry = &extra[k];
        if !is_managed_field(entry.0.as_str()) {
            let mut f: Vec<char> = Vec::new();
            push_str(&mut f, entry.0.as_str());
            push_str(&mut f, ": ");
            push_str(&mut f, entry.1.as_str());
            push_str(&mut f, ",");
            assert(f.deep_view() =~= f@);
            let ghost before = fields.deep_view();
            fields.push(f);
            assert(fields.deep_view() =~= before.push(f@));
        }
        k = k + 1;
        assert(fields.deep_view() =~= start + extra_entries(ev, k as int));
    }
}

fn push_field(fields: &mut Vec<Vec<char>>, f: Vec<char>)
    ensures
        final(fields).deep_view() == old(fields).deep_view().push(f@),
{
    assert(f.deep_view() =~= f@);
    fields.push(f);
    assert(final(fields).deep_view() =~= old(fields).deep_view().push(f@));
}

// ---------------------------------------------------------------------------
// Tasks
// ---------------------------------------------------------------------------

pub open spec fn opt_field(cond: bool, field: Text) -> Seq<Text> {
    if cond {
        seq![field]
    } else {
        Seq::empty()
    }
}

/// The fields of a task entry.
pub open spec fn task_fields(node: NodeModel) -> Seq<Text> {
    seq!["id: "@ + ron_text(node.id) + ","@, "type: "@ + ron_text(node.component_type) + ","@]
        + match task_kind_name(node.kind) {
        Some(k) => seq!["kind: "@ + k + ","@],
        None => Seq::empty(),
    } + opt_field(node.config.len() > 0, "config: "@ + config_text(node.config) + ","@)
        + match node.background {
        Some(b) => seq!["background: "@ + bool_text(b) + ","@],
        None => Seq::empty(),
    } + match node.run_in_sim {
        Some(b) => seq!["run_in_sim: "@ + bool_text(b) + ","@],
        None => Seq::empty(),
    } + match node.logging_enabled {
        Some(b) => seq!["logging: (enabled: "@ + bool_text(b) + "),"@],
        None => Seq::empty(),
    } + extra_entries(node.extra_fields, node.extra_fields.len() as int)
}

/// The task entries of the first `j` nodes (bridges are written separately).
pub open spec fn task_entries(nodes: Seq<NodeModel>, j: int) -> Seq<Text>
    decreases j,
{
    if j <= 0 || j > nodes.len() {
        Seq::empty()
    } else if nodes[j - 1].kind == ComponentKind::Bridge {
        task_entries(nodes, j - 1)
    } else {
        task_entries(nodes, j - 1).push(render_struct_text(task_fields(nodes[j - 1]), 2))
    }
}

/// The value of the `tasks` section.
pub open spec fn tasks_text(doc: DocumentModel) -> Text {
    render_list_text(task_entries(doc.nodes, doc.nodes.len() as int), 1)
}

/// The text a task's `background` setting is written as.
pub open spec fn background_field(b: bool) -> Text {
    if b {
        "background: true,"@
    } else {
        "background: false,"@
    }
}

proof fn lemma_occurs_in_middle(a: Text, b: Text, c: Text, pat: Text, i: int)
    requires
        occurs_at(b, i, pat),
    ensures
        occurs_at(a + b + c, a.len() + i, pat),
{
    assert((a + b + c).subrange(a.len() + i, a.len() + i + pat.len()) =~= b.subrange(i, i + pat.len()));
}

proof fn lemma_contains_in_middle(a: Text, b: Text, c: Text, pat: Text)
    requires
        contains_seq(b, pat),
    ensures
        contains_seq(a + b + c, pat),
{
    let i = choose|i: int| occurs_at(b, i, pat);
    lemma_occurs_in_middle(a, b, c, pat, i);
}

proof fn lemma_contains_transitive(s: Text, mid: Text, pat: Text)
    requires
        contains_seq(s, mid),
        contains_seq(mid, pat),
    ensures
        contains_seq(s, pat),
{
    let i = choose|i: int| occurs_at(s, i, mid);
    let j = choose|j: int| occurs_at(mid, j, pat);
    assert(s.subrange(i + j, i + j + pat.len()) =~= mid.subrange(j, j + pat.len()));
    assert(occurs_at(s, i + j, pat));
}

proof fn lemma_join_contains(items: Seq<Text>, sep: Text, k: int)
    requires
        0 <= k < items.len(),
    ensures
        contains_seq(join(items, sep), items[k]),
    decreases items.len(),
{
    if items.len() == 1 {
        assert(join(items, sep).subrange(0, items[0].len() as int) =~= items[0]);
        assert(occurs_at(join(items, sep), 0, items[0]));
    } else if k == items.len() - 1 {
        let front = join(items.drop_last(), sep) + sep;
        assert(occurs_at(items.last(), 0, items.last())) by {
            assert(items.last().subrange(0, items.last().len() as int) =~= items.last());
        }
        lemma_occurs_in_middle(front, items.last(), Seq::empty(), items[k], 0);
        assert(front + items.last() + Seq::<char>::empty() =~= join(items, sep));
    } else {
        lemma_join_contains(items.drop_last(), sep, k);
        assert(items.drop_last()[k] == items[k]);
        lemma_contains_in_middle(Seq::empty(), join(items.drop_last(), sep), sep + items.last(), items[k]);
        assert(Seq::<char>::empty() + join(items.drop_last(), sep) + (sep + items.last()) =~= join(items, sep));
    }
}

proof fn lemma_task_entries_hold(nodes: Seq<NodeModel>, j: int, i: int)
    requires
        0 <= i < j <= nodes.len(),
        nodes[i].kind != ComponentKind::Bridge,
    ensures
        task_entries(nodes, j).contains(render_struct_text(task_fields(nodes[i]), 2)),
    decreases j,
{
    if i < j - 1 {
        lemma_task_entries_hold(nodes, j - 1, i);
        let k = choose|k: int| 0 <= k < task_entries(nodes, j - 1).len() && #[trigger] task_entries(nodes, j - 1)[k]
            == render_struct_text(task_fields(nodes[i]), 2);
        if nodes[j - 1].kind != ComponentKind::Bridge {
            assert(task_entries(nodes, j)[k] == task_entries(nodes, j - 1)[k]);
        }
    } else {
        let k = task_entries(nodes, j - 1).len() as int;
        assert(task_entries(nodes, j)[k] == render_struct_text(task_fields(nodes[i]), 2));
    }
}

/// Saving keeps each task's `background` setting: for every node that is not
/// a bridge and has one, the `tasks` section written holds
/// `background: true,` or `background: false,` accordingly, within that
/// task's entry.
pub proof fn lemma_tasks_keep_background(doc: DocumentModel, i: int, b: bool)
    requires
        0 <= i < doc.nodes.len(),
        doc.nodes[i].kind != ComponentKind::Bridge,
        doc.nodes[i].background == Some(b),
    ensures
        contains_seq(render_struct_text(task_fields(doc.nodes[i]), 2), background_field(b)),
        contains_seq(tasks_text(doc), background_field(b)),
{
    reveal_strlit("background: true,");
    reveal_strlit("background: false,");
    reveal_strlit("background: ");
    reveal_strlit("true");
    reveal_strlit("false");
    reveal_strlit(",");
    let node = doc.nodes[i];
    let fields = task_fields(node);
    let head = seq!["id: "@ + ron_text(node.id) + ","@, "type: "@ + ron_text(node.component_type) + ","@]
        + match task_kind_name(node.kind) {
        Some(k) => seq!["kind: "@ + k + ","@],
        None => Seq::empty(),
    } + opt_field(node.config.len() > 0, "config: "@ + config_text(node.config) + ","@);
    assert("background: "@ + bool_text(b) + ","@ =~= background_field(b));
    assert(fields[head.len() as int] == background_field(b));
    lemma_join_contains(fields, "\n"@ + padding(2), head.len() as int);
    let closing: nat = 1;
    lemma_contains_in_middle("(\n"@ + padding(2), join(fields, "\n"@ + padding(2)), "\n"@ + padding(closing) + ")"@, background_field(b));
    assert(("(\n"@ + padding(2)) + join(fields, "\n"@ + padding(2)) + ("\n"@ + padding(closing) + ")"@)
        =~= render_struct_text(fields, 2));
    let entries = task_entries(doc.nodes, doc.nodes.len() as int);
    lemma_task_entries_hold(doc.nodes, doc.nodes.len() as int, i);
    let k = choose|k: int| 0 <= k < entries.len() && #[trigger] entries[k] == render_struct_text(fields, 2);
    lemma_join_contains(entries, ",\n"@ + padding(2), k);
    lemma_contains_in_middle("[\n"@ + padding(2), join(entries, ",\n"@ + padding(2)), ",\n"@ + padding(1) + "]"@, render_struct_text(fields, 2));
    assert(("[\n"@ + padding(2)) + join(entries, ",\n"@ + padding(2)) + (",\n"@ + padding(1) + "]"@)
        =~= tasks_text(doc));
    lemma_contains_transitive(tasks_text(doc), render_struct_text(fields, 2), background_field(b));
}

#[verifier::rlimit(40)]
fn task_struct(node: &GraphNode) -> (r: Vec<char>)
    ensures
        r@ == render_struct_text(task_fields(node.deep_view()), 2),
{
    let ghost nm = node.deep_view();
    let mut fields: Vec<Vec<char>> = Vec::new();
    let mut f: Vec<char> = Vec::new();
    push_str(&mut f, "id: ");
    push_all(&mut f, ron_string(node.id.as_str()).as_slice());
    push_str(&mut f, ",");
    push_field(&mut fields, f);
    let mut f: Vec<char> = Vec::new();
    push_str(&mut f, "type: ");
    push_all(&mut f, ron_string(node.component_type.as_str()).as_slice());
    push_str(&mut f, ",");
    push_field(&mut fields, f);
    let ghost p0 = fields.deep_view();
    if let Some(kind) = node.kind.ron_task_kind() {
        let mut f: Vec<char> = Vec::new();
        push_str(&mut f, "kind: ");
        push_str(&mut f, kind);
        push_str(&mut f, ",");
        push_field(&mut fields, f);
    }
    let ghost p1 = fields.deep_view();
    if node.config.0.len() > 0 {
        let mut f: Vec<char> = Vec::new();
        push_str(&mut f, "config: ");
        push_all(&mut f, render_config(&node.config).as_slice());
        push_str(&mut f, ",");
        push_field(&mut fields, f);
    }
    let ghost p2 = fields.deep_view();
    if let Some(b) = node.background {
        let mut f: Vec<char> = Vec::new();
        push_str(&mut f, "background: ");
        push_bool(&mut f, b);
        push_str(&mut f, ",");
        push_field(&mut fields, f);
    }
    let ghost p3 = fields.deep_view();
    if let Some(b) = node.run_in_sim {
        let mut f: Vec<char> = Vec::new();
        push_str(&mut f, "run_in_sim: ");
        push_bool(&mut f, b);
        push_str(&mut f, ",");
        push_field(&mut fields, f);
    }
    let ghost p4 = fields.deep_view();
    if let Some(b) = node.logging_enabled {
        let mut f: Vec<char> = Vec::new();
        push_str(&mut f, "logging: (enabled: ");
        push_bool(&mut f, b);
        push_str(&mut f, "),");
        push_field(&mut fields, f);
    }
    append_extra(&mut fields, &node.extra_fields);
    assert(fields.deep_view() =~= task_fields(nm));
    render_struct(&fields, 2)
}

pub fn render_tasks(document: &GraphDocument) -> (r: Vec<char>)
    ensures
        r@ == tasks_text(document.deep_view()),
{
    let ghost dm = document.deep_view();
    let mut tasks: Vec<Vec<char>> = Vec::new();
    let mut j: usize = 0;
    assert(tasks.deep_view() =~= task_entries(dm.nodes, 0));
    while j < document.nodes.len()
        invariant
            j <= document.nodes@.len(),
            dm == document.deep_view(),
            tasks.deep_view() == task_entries(dm.nodes, j as int),
        decreases document.nodes.len() - j,
    {
        let node = &document.nodes[j];
        assert(node.deep_view() == dm.nodes[j as int]);
        if node.kind != ComponentKind::Bridge {
            let t = task_struct(node);
            push_field(&mut tasks, t);
        }
        j = j + 1;
    }
    render_list(&tasks, 1)
}

// ---------------------------------------------------------------------------
// Bridges
// ---------------------------------------------------------------------------

/// The fields of an enabled channel entry.
pub open spec fn channel_fields(channel: InstanceModel) -> Seq<Text> {
    seq!["id: "@ + ron_text(channel.id) + ","@] + match channel.route {
        Some(r) => seq!["route: "@ + ron_text(r) + ","@],
        None => Seq::empty(),
    } + opt_field(channel.config.len() > 0, "config: "@ + config_text(channel.config) + ","@)
}

/// `Rx(...)` for a channel that feeds the graph, `Tx(...)` for one it feeds.
pub open spec fn channel_entry(channel: InstanceModel) -> Text {
    (if channel.direction == PortDirection::Output { "Rx"@ } else { "Tx"@ }) + render_struct_text(
        channel_fields(channel),
        3,
    )
}

/// The entries of the enabled channels among the first `k`.
pub open spec fn channel_entries(channels: Seq<InstanceModel>, k: int) -> Seq<Text>
    decreases k,
{
    if k <= 0 || k > channels.len() {
        Seq::empty()
    } else if !channels[k - 1].enabled {
        channel_entries(channels, k - 1)
    } else {
        channel_entries(channels, k - 1).push(channel_entry(channels[k - 1]))
    }
}

/// The fields of a bridge entry.
pub open spec fn bridge_fields(node: NodeModel) -> Seq<Text> {
    seq!["id: "@ + ron_text(node.id) + ","@, "type: "@ + ron_text(node.component_type) + ","@]
        + opt_field(node.config.len() > 0, "config: "@ + config_text(node.config) + ","@)
        + seq![
        "channels: "@ + render_list_text(channel_entries(node.channels, node.channels.len() as int), 2)
            + ","@,
    ] + match node.run_in_sim {
        Some(b) => seq!["run_in_sim: "@ + bool_text(b) + ","@],
        None => Seq::empty(),
    } + extra_entries(node.extra_fields, node.extra_fields.len() as int)
}

/// The bridge entries of the first `j` nodes.
pub open spec fn bridge_entries(nodes: Seq<NodeModel>, j: int) -> Seq<Text>
    decreases j,
{
    if j <= 0 || j > nodes.len() {
        Seq::empty()
    } else if nodes[j - 1].kind != ComponentKind::Bridge {
        bridge_entries(nodes, j - 1)
    } else {
        bridge_entries(nodes, j - 1).push(render_struct_text(bridge_fields(nodes[j - 1]), 2))
    }
}

/// The value of the `bridges` section.
pub open spec fn bridges_text(doc: DocumentModel) -> Text {
    render_list_text(bridge_entries(doc.nodes, doc.nodes.len() as int), 1)
}

fn channel_struct(channel: &crate::model::BridgeChannelInstance) -> (r: Vec<char>)
    ensures
        r@ == channel_entry(channel.deep_view()),
{
    let mut fields: Vec<Vec<char>> = Vec::new();
    let mut f: Vec<char> = Vec::new();
    push_str(&mut f, "id: ");
    push_all(&mut f, ron_string(channel.id.as_str()).as_slice());
    push_str(&mut f, ",");
    push_field(&mut fields, f);
    if let Some(route) = &channel.route {
        let mut f: Vec<char> = Vec::new();
        push_str(&mut f, "route: ");
        push_all(&mut f, ron_string(route.as_str()).as_slice());
        push_str(&mut f, ",");
        push_field(&mut fields, f);
    }
    if channel.config.0.len() > 0 {
        let mut f: Vec<char> = Vec::new();
        push_str(&mut f, "config: ");
        push_all(&mut f, render_config(&channel.config).as_slice());
        push_str(&mut f, ",");
        push_field(&mut fields, f);
    }
    assert(fields.deep_view() =~= channel_fields(channel.deep_view()));
    let mut out: Vec<char> = Vec::new();
    if channel.direction == PortDirection::Output {
        push_str(&mut out, "Rx");
    } else {
        push_str(&mut out, "Tx");
    }
    push_all(&mut out, render_struct(&fields, 3).as_slice());
    out
}

fn bridge_struct(node: &GraphNode) -> (r: Vec<char>)
    ensures
        r@ == render_struct_text(bridge_fields(node.deep_view()), 2),
{
    let ghost nm = node.deep_view();
    let mut fields: Vec<Vec<char>> = Vec::new();
    let mut f: Vec<char> = Vec::new();
    push_str(&mut f, "id: ");
    push_all(&mut f, ron_string(node.id.as_str()).as_slice());
    push_str(&mut f, ",");
    push_field(&mut fields, f);
    let mut f: Vec<char> = Vec::new();
    push_str(&mut f, "type: ");
    push_all(&mut f, ron_string(node.component_type.as_str()).as_slice());
    push_str(&mut f, ",");
    push_field(&mut fields, f);
    if node.config.0.len() > 0 {
        let mut f: Vec<char> = Vec::new();
        push_str(&mut f, "config: ");
        push_all(&mut f, render_config(&node.config).as_slice());
        push_str(&mut f, ",");
        push_field(&mut fields, f);
    }
    let mut channels: Vec<Vec<char>> = Vec::new();
    let mut k: usize = 0;
    assert(channels.deep_view() =~= channel_entries(nm.channels, 0));
    while k < node.channels.len()
        invariant
            k <= node.channels@.len(),
            nm == node.deep_view(),
            channels.deep_view() == channel_entries(nm.channels, k as int),
        decreases node.channels.len() - k,
    {
        let channel = &node.channels[k];
        assert(channel.deep_view() == nm.channels[k as int]);
        if channel.enabled {
            let c = channel_struct(channel);
            push_field(&mut channels, c);
        }
        k = k + 1;
    }
    let mut f: Vec<char> = Vec::new();
    push_str(&mut f, "channels: ");
    push_all(&mut f, render_list(&channels, 2).as_slice());
    push_str(&mut f, ",");
    push_field(&mut fields, f);
    if let Some(b) = node.run_in_sim {
        let mut f: Vec<char> = Vec::new();
        push_str(&mut f, "run_in_sim: ");
        push_bool(&mut f, b);
        push_str(&mut f, ",");
        push_field(&mut fields, f);
    }
    append_extra(&mut fields, &node.extra_fields);
    assert(fields.deep_view() =~= bridge_fields(nm));
    render_struct(&fields, 2)
}

pub fn render_bridges(document: &GraphDocument) -> (r: Vec<char>)
    ensures
        r@ == bridges_text(document.deep_view()),
{
    let ghost dm = document.deep_view();
    let mut bridges: Vec<Vec<char>> = Vec::new();
    let mut j: usize = 0;
    assert(bridges.deep_view() =~= bridge_entries(dm.nodes, 0));
    while j < document.nodes.len()
        invariant
            j <= document.nodes@.len(),
            dm == document.deep_view(),
            bridges.deep_view() == bridge_entries(dm.nodes, j as int),
        decreases document.nodes.len() - j,
    {
        let node = &document.nodes[j];
        assert(node.deep_view() == dm.nodes[j as int]);
        if node.kind == ComponentKind::Bridge {
            let b = bridge_struct(node);
            push_field(&mut bridges, b);
        }
        j = j + 1;
    }
    render_list(&bridges, 1)
}

// ---------------------------------------------------------------------------
// Connections
// ---------------------------------------------------------------------------

/// How a connection names one end: the node ID, or for a bridge `id/channel`
/// (`unknown` where the port is missing).
pub open spec fn endpoint_text(node: NodeModel, direction: PortDirection, port: int) -> Text {
    if node.kind != ComponentKind::Bridge {
        node.id
    } else {
        let ports = if direction == PortDirection::Input { node.inputs } else { node.outputs };
        node.id + "/"@ + (if 0 <= port < ports.len() { ports[port].name } else { "unknown"@ })
    }
}

pub fn endpoint_for(node: &GraphNode, direction: PortDirection, port: usize) -> (r: Vec<char>)
    ensures
        r@ == endpoint_text(node.deep_view(), direction, port as int),
{
    let ghost nm = node.deep_view();
    if node.kind != ComponentKind::Bridge {
        return chars_of(node.id.as_str());
    }
    let ports = if direction == PortDirection::Input { &node.inputs } else { &node.outputs };
    let mut out = chars_of(node.id.as_str());
    push_str(&mut out, "/");
    if port < ports.len() {
        assert(ports@[port as int].deep_view().name == ports@[port as int].name@);
        push_str(&mut out, ports[port].name.as_str());
    } else {
        push_str(&mut out, "unknown");
    }
    out
}

/// The entry of a connection.
pub open spec fn connection_entry(doc: DocumentModel, e: EdgeModel) -> Text {
    render_struct_text(
        seq![
            "src: "@ + ron_text(endpoint_text(doc.nodes[e.source as int], PortDirection::Output, e.source_port as int)) + ","@,
            "dst: "@ + ron_text(endpoint_text(doc.nodes[e.target as int], PortDirection::Input, e.target_port as int)) + ","@,
            "msg: "@ + ron_text(e.message_type) + ","@,
        ] + extra_entries(e.extra_fields, e.extra_fields.len() as int),
        2,
    )
}

/// The entries of the first `t` connections whose nodes exist.
pub open spec fn connection_entries(doc: DocumentModel, t: int) -> Seq<Text>
    decreases t,
{
    if t <= 0 || t > doc.edges.len() {
        Seq::empty()
    } else {
        let e = doc.edges[t - 1];
        if e.source < doc.nodes.len() && e.target < doc.nodes.len() {
            connection_entries(doc, t - 1).push(connection_entry(doc, e))
        } else {
            connection_entries(doc, t - 1)
        }
    }
}

/// Some connection leaves output `p` of node `j`.
pub open spec fn output_used(doc: DocumentModel, j: int, p: int) -> bool {
    exists|u: int| 0 <= u < doc.edges.len() && doc.edges[u].source == j && doc.edges[u].source_port == p
}

/// The entry that keeps an unused output of a task: it goes to the unconnected endpoint.
pub open spec fn unconnected_entry(node: NodeModel, p: int) -> Text {
    render_struct_text(
        seq![
            "src: "@ + ron_text(node.id) + ","@,
            "dst: "@ + ron_text(NC_ENDPOINT@) + ","@,
            "msg: "@ + ron_text(node.outputs[p].serialized_type) + ","@,
        ],
        2,
    )
}

/// The unconnected-endpoint entries for the first `p` outputs of node `j`.
pub open spec fn unused_output_entries(doc: DocumentModel, j: int, p: int) -> Seq<Text>
    decreases p,
{
    if p <= 0 || p > doc.nodes[j].outputs.len() {
        Seq::empty()
    } else if output_used(doc, j, p - 1) {
        unused_output_entries(doc, j, p - 1)
    } else {
        unused_output_entries(doc, j, p - 1).push(unconnected_entry(doc.nodes[j], p - 1))
    }
}

/// Those entries for the first `j` nodes that are not bridges.
pub open spec fn unused_entries(doc: DocumentModel, j: int) -> Seq<Text>
    decreases j,
{
    if j <= 0 || j > doc.nodes.len() {
        Seq::empty()
    } else if doc.nodes[j - 1].kind == ComponentKind::Bridge {
        unused_entries(doc, j - 1)
    } else {
        unused_entries(doc, j - 1) + unused_output_entries(doc, j - 1, doc.nodes[j - 1].outputs.len() as int)
    }
}

/// The value of the `cnx` section: the connections, then the unused task outputs.
pub open spec fn connections_text(doc: DocumentModel) -> Text {
    render_list_text(
        connection_entries(doc, doc.edges.len() as int) + unused_entries(doc, doc.nodes.len() as int),
        1,
    )
}

fn struct_of_three(a: &str, x: Vec<char>, b: &str, y: Vec<char>, c: &str, z: Vec<char>) -> (r: Vec<Vec<char>>)
    ensures
        r.deep_view() == seq![a@ + x@ + ","@, b@ + y@ + ","@, c@ + z@ + ","@],
{
    let mut fields: Vec<Vec<char>> = Vec::new();
    let mut f: Vec<char> = Vec::new();
    push_str(&mut f, a);
    push_all(&mut f, x.as_slice());
    push_str(&mut f, ",");
    push_field(&mut fields, f);
    let mut f: Vec<char> = Vec::new();
    push_str(&mut f, b);
    push_all(&mut f, y.as_slice());
    push_str(&mut f, ",");
    push_field(&mut fields, f);
    let mut f: Vec<char> = Vec::new();
    push_str(&mut f, c);
    push_all(&mut f, z.as_slice());
    push_str(&mut f, ",");
    push_field(&mut fields, f);
    assert(fields.deep_view() =~= seq![a@ + x@ + ","@, b@ + y@ + ","@, c@ + z@ + ","@]);
    fields
}

fn ron_chars(v: &Vec<char>) -> (r: Vec<char>)
    ensures
        r@ == ron_text(v@),
{
    let s = crate::text::string_of(v.as_slice());
    ron_string(s.as_str())
}

fn output_used_exec(doc: &GraphDocument, j: usize, p: usize) -> (r: bool)
    ensures
        r == output_used(doc.deep_view(), j as int, p as int),
{
    let ghost dm = doc.deep_view();
    let mut u: usize = 0;
    while u < doc.edges.len()
        invariant
            u <= doc.edges@.len(),
            dm == doc.deep_view(),
            forall|w: int| 0 <= w < u ==> !(dm.edges[w].source == j && dm.edges[w].source_port == p),
        decreases doc.edges.len() - u,
    {
        assert(doc.edges@[u as int].deep_view() == dm.edges[u as int]);
        if doc.edges[u].source == j && doc.edges[u].source_port == p {
            return true;
        }
        u = u + 1;
    }
    false
}

pub fn render_connections(document: &GraphDocument) -> (r: Vec<char>)
    ensures
        r@ == connections_text(document.deep_view()),
{
    let ghost dm = document.deep_view();
    let mut connections: Vec<Vec<char>> = Vec::new();
    let mut t: usize = 0;
    assert(connections.deep_view() =~= connection_entries(dm, 0));
    while t < document.edges.len()
        invariant
            t <= document.edges@.len(),
            dm == document.deep_view(),
            connections.deep_view() == connection_entries(dm, t as int),
        decreases document.edges.len() - t,
    {
        let edge = &document.edges[t];
        assert(edge.deep_view() == dm.edges[t as int]);
        if edge.source < document.nodes.len() && edge.target < document.nodes.len() {
            let source = &document.nodes[edge.source];
            let target = &document.nodes[edge.target];
            assert(source.deep_view() == dm.nodes[edge.source as int]);
            assert(target.deep_view() == dm.nodes[edge.target as int]);
            let src = endpoint_for(source, PortDirection::Output, edge.source_port);
            let dst = endpoint_for(target, PortDirection::Input, edge.target_port);
            let mut fields = struct_of_three(
                "src: ",
                ron_chars(&src),
                "dst: ",
                ron_chars(&dst),
                "msg: ",
                ron_string(edge.message_type.as_str()),
            );
            proof {
                reveal_strlit("src: ");
                reveal_strlit("dst: ");
                reveal_strlit("msg: ");
            }
            append_extra(&mut fields, &edge.extra_fields);
            let entry = render_struct(&fields, 2);
            push_field(&mut connections, entry);
        }
        t = t + 1;
    }
    let ghost after_edges = connections.deep_view();
    let mut j: usize = 0;
    assert(connections.deep_view() =~= after_edges + unused_entries(dm, 0));
    while j < document.nodes.len()
        invariant
            j <= document.nodes@.len(),
            dm == document.deep_view(),
            connections.deep_view() == after_edges + unused_entries(dm, j as int),
        decreases document.nodes.len() - j,
    {
        let node = &document.nodes[j];
        assert(node.deep_view() == dm.nodes[j as int]);
        if node.kind != ComponentKind::Bridge {
            let ghost before = connections.deep_view();
            let mut p: usize = 0;
            assert(connections.deep_view() =~= before + unused_output_entries(dm, j as int, 0));
            while p < node.outputs.len()
                invariant
                    j < document.nodes@.len(),
                    p <= node.outputs@.len(),
                    dm == document.deep_view(),
                    node.deep_view() == dm.nodes[j as int],
                    connections.deep_view() == before + unused_output_entries(dm, j as int, p as int),
                decreases node.outputs.len() - p,
            {
                if !output_used_exec(document, j, p) {
                    let output = &node.outputs[p];
                    assert(output.deep_view() == dm.nodes[j as int].outputs[p as int]);
                    let fields = struct_of_three(
                        "src: ",
                        ron_string(node.id.as_str()),
                        "dst: ",
                        ron_string(NC_ENDPOINT),
                        "msg: ",
                        ron_string(output.serialized_type.as_str()),
                    );
                    let entry = render_struct(&fields, 2);
                    let ghost b2 = connections.deep_view();
                    push_field(&mut connections, entry);
                    assert(connections.deep_view() =~= before + unused_output_entries(dm, j as int, p + 1));
                }
                p = p + 1;
            }
        }
        j = j + 1;
        assert(connections.deep_view() =~= after_edges + unused_entries(dm, j as int));
    }
    render_list(&connections, 1)
}

// ---------------------------------------------------------------------------
// Constants and monitors
// ---------------------------------------------------------------------------

/// A present, non-blank optional value.
pub open spec fn present(v: Option<Text>) -> bool {
    v matches Some(t) && trim(t).len() > 0
}

/// The fields of a constant entry.
pub open spec fn constant_fields(c: ConstantModel) -> Seq<Text> {
    match c {
        ConstantModel::Numeric { id, module, storage, quantity, unit, value_ron } => seq![
            "id: "@ + ron_text(id) + ","@,
        ] + opt_field(module.len() > 0, "module: "@ + ron_text(module) + ","@) + seq![
            "storage: "@ + storage_name(storage) + ","@,
        ] + opt_field(present(quantity), "quantity: "@ + quantity.unwrap_or(Seq::empty()) + ","@)
            + opt_field(present(unit), "unit: "@ + unit.unwrap_or(Seq::empty()) + ","@) + seq![
            "value: "@ + value_ron + ","@,
        ],
        ConstantModel::Expression { id, module, rust_type, expression } => seq![
            "id: "@ + ron_text(id) + ","@,
        ] + opt_field(module.len() > 0, "module: "@ + ron_text(module) + ","@) + seq![
            "type: "@ + ron_text(rust_type) + ","@,
            "expression: "@ + ron_text(expression) + ","@,
        ],
    }
}

/// The entries of the first `k` constants.
pub open spec fn constant_entries(constants: Seq<ConstantModel>, k: int) -> Seq<Text>
    decreases k,
{
    if k <= 0 || k > constants.len() {
        Seq::empty()
    } else {
        constant_entries(constants, k - 1).push(render_struct_text(constant_fields(constants[k - 1]), 2))
    }
}

/// The value of the `constants` section.
pub open spec fn constants_text(doc: DocumentModel) -> Text {
    render_list_text(constant_entries(doc.constants, doc.constants.len() as int), 1)
}

fn is_present(v: &Option<String>) -> (r: bool)
    ensures
        r == present(v.deep_view()),
{
    match v {
        Some(t) => {
            let c = chars_of(t.as_str());
            let tr = crate::text::trimmed(c.as_slice(), 0, c.len());
            assert(c@.subrange(0, c@.len() as int) =~= c@);
            tr.len() > 0
        },
        None => false,
    }
}

fn constant_struct(c: &ConstantDefinition) -> (r: Vec<char>)
    ensures
        r@ == render_struct_text(constant_fields(c.deep_view()), 2),
{
    let mut fields: Vec<Vec<char>> = Vec::new();
    match c {
        ConstantDefinition::Numeric { id, module, storage, quantity, unit, value_ron } => {
            let mut f: Vec<char> = Vec::new();
            push_str(&mut f, "id: ");
            push_all(&mut f, ron_string(id.as_str()).as_slice());
            push_str(&mut f, ",");
            push_field(&mut fields, f);
            if !module.as_str().is_empty() {
                let mut f: Vec<char> = Vec::new();
                push_str(&mut f, "module: ");
                push_all(&mut f, ron_string(module.as_str()).as_slice());
                push_str(&mut f, ",");
                push_field(&mut fields, f);
            }
            let mut f: Vec<char> = Vec::new();
            push_str(&mut f, "storage: ");
            push_str(&mut f, storage.ron_name());
            push_str(&mut f, ",");
            push_field(&mut fields, f);
            if is_present(quantity) {
                let mut f: Vec<char> = Vec::new();
                push_str(&mut f, "quantity: ");
                if let Some(q) = quantity {
                    push_str(&mut f, q.as_str());
                }
                push_str(&mut f, ",");
                push_field(&mut fields, f);
            }
            if is_present(unit) {
                let mut f: Vec<char> = Vec::new();
                push_str(&mut f, "unit: ");
                if let Some(u) = unit {
                    push_str(&mut f, u.as_str());
                }
                push_str(&mut f, ",");
                push_field(&mut fields, f);
            }
            let mut f: Vec<char> = Vec::new();
            push_str(&mut f, "value: ");
            push_str(&mut f, value_ron.as_str());
            push_str(&mut f, ",");
            push_field(&mut fields, f);
        },
        ConstantDefinition::Expression { id, module, rust_type, expression } => {
            let mut f: Vec<char> = Vec::new();
            push_str(&mut f, "id: ");
            push_all(&mut f, ron_string(id.as_str()).as_slice());
            push_str(&mut f, ",");
            push_field(&mut fields, f);
            if !module.as_str().is_empty() {
                let mut f: Vec<char> = Vec::new();
                push_str(&mut f, "module: ");
                push_all(&mut f, ron_string(module.as_str()).as_slice());
                push_str(&mut f, ",");
                push_field(&mut fields, f);
            }
            let mut f: Vec<char> = Vec::new();
            push_str(&mut f, "type: ");
            push_all(&mut f, ron_string(rust_type.as_str()).as_slice());
            push_str(&mut f, ",");
            push_field(&mut fields, f);
            let mut f: Vec<char> = Vec::new();
            push_str(&mut f, "expression: ");
            push_all(&mut f, ron_string(expression.as_str()).as_slice());
            push_str(&mut f, ",");
            push_field(&mut fields, f);
        },
    }
    assert(fields.deep_view() =~= constant_fields(c.deep_view()));
    render_struct(&fields, 2)
}

pub fn render_constants(document: &GraphDocument) -> (r: Vec<char>)
    ensures
        r@ == constants_text(document.deep_view()),
{
    let ghost dm = document.deep_view();
    let mut values: Vec<Vec<char>> = Vec::new();
    let mut k: usize = 0;
    assert(values.deep_view() =~= constant_entries(dm.constants, 0));
    while k < document.constants.len()
        invariant
            k <= document.constants@.len(),
            dm == document.deep_view(),
            values.deep_view() == constant_entries(dm.constants, k as int),
        decreases document.constants.len() - k,
    {
        assert(document.constants@[k as int].deep_view() == dm.constants[k as int]);
        let v = constant_struct(&document.constants[k]);
        push_field(&mut values, v);
        k = k + 1;
    }
    render_list(&values, 1)
}

/// The entry of a monitor.
pub open spec fn monitor_text(m: MonitorModel) -> Text {
    render_struct_text(
        seq!["type: "@ + ron_text(m.component_type) + ","@] + opt_field(
            m.config.len() > 0,
            "config: "@ + config_text(m.config) + ","@,
        ),
        2,
    )
}

pub fn render_monitor(monitor: &MonitorInstance) -> (r: Vec<char>)
    ensures
        r@ == monitor_text(monitor.deep_view()),
{
    let mut fields: Vec<Vec<char>> = Vec::new();
    let mut f: Vec<char> = Vec::new();
    push_str(&mut f, "type: ");
    push_all(&mut f, ron_string(monitor.component_type.as_str()).as_slice());
    push_str(&mut f, ",");
    push_field(&mut fields, f);
    if monitor.config.0.len() > 0 {
        let mut f: Vec<char> = Vec::new();
        push_str(&mut f, "config: ");
        push_all(&mut f, render_config(&monitor.config).as_slice());
        push_str(&mut f, ",");
        push_field(&mut fields, f);
    }
    assert(fields.deep_view() =~= seq!["type: "@ + ron_text(monitor.component_type@) + ","@] + opt_field(
        monitor.config.deep_view().len() > 0,
        "config: "@ + config_text(monitor.config.deep_view()) + ","@,
    ));
    render_struct(&fields, 2)
}

/// The entries of the first `k` monitors.
pub open spec fn monitor_entries(monitors: Seq<MonitorModel>, k: int) -> Seq<Text>
    decreases k,
{
    if k <= 0 || k > monitors.len() {
        Seq::empty()
    } else {
        monitor_entries(monitors, k - 1).push(monitor_text(monitors[k - 1]))
    }
}

/// The value of the `monitors` section.
pub open spec fn monitors_text(doc: DocumentModel) -> Text {
    render_list_text(monitor_entries(doc.monitors, doc.monitors.len() as int), 1)
}

pub fn render_monitors(document: &GraphDocument) -> (r: Vec<char>)
    ensures
        r@ == monitors_text(document.deep_view()),
{
    let ghost dm = document.deep_view();
    let mut values: Vec<Vec<char>> = Vec::new();
    let mut k: usize = 0;
    assert(values.deep_view() =~= monitor_entries(dm.monitors, 0));
    while k < document.monitors.len()
        invariant
            k <= document.monitors@.len(),
            dm == document.deep_view(),
            values.deep_view() == monitor_entries(dm.monitors, k as int),
        decreases document.monitors.len() - k,
    {
        assert(document.monitors@[k as int].deep_view() == dm.monitors[k as int]);
        let v = render_monitor(&document.monitors[k]);
        push_field(&mut values, v);
        k = k + 1;
    }
    render_list(&values, 1)
}

} // verus!
