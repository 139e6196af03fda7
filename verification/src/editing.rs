//! Edits of a task graph: new connections and fresh node IDs.
use vstd::prelude::*;

use crate::diagnostics::{document_diagnostics, graph_cyclic, Diag};
use crate::model::{
    normalized_type, ports_compatible, snake_case, to_snake_case, DocumentModel, EdgeModel,
    GraphDocument, GraphEdge, DiagnosticSeverity,
};
use crate::text::{
    chars_of, contains_exec, contains_seq, decimal, decimal_exec, lemma_decimal_injective,
    occurs_at, push_all, push_str, str_eq, string_of,
};

verus! {

/// Some error diagnostic mentions a cycle.
pub open spec fn reports_cycle(diags: Seq<Diag>) -> bool {
    exists|i: int|
        0 <= i < diags.len() && diags[i].0 == DiagnosticSeverity::Error && contains_seq(
            diags[i].1,
            "cycle"@,
        )
}

/// Some connection already feeds the input.
pub open spec fn input_has_producer(doc: DocumentModel, target: int, target_port: int) -> bool {
    exists|u: int|
        0 <= u < doc.edges.len() && doc.edges[u].target == target && doc.edges[u].target_port
            == target_port
}

/// The document with one more connection.
pub open spec fn with_edge(doc: DocumentModel, e: EdgeModel) -> DocumentModel {
    DocumentModel { edges: doc.edges.push(e), ..doc }
}

/// The connection `add_edge` appends: typed by the output's serialized type, without extra fields.
pub open spec fn new_edge(
    doc: DocumentModel,
    source: usize,
    source_port: usize,
    target: usize,
    target_port: usize,
) -> EdgeModel {
    EdgeModel {
        source,
        source_port,
        target,
        target_port,
        message_type: doc.nodes[source as int].outputs[source_port as int].serialized_type,
        extra_fields: Seq::empty(),
    }
}

/// What `add_edge` answers, in the order it checks: the output port exists, the
/// input port exists, their types are compatible, the input is free, and the
/// connection does not make the diagnostics report a cycle.
pub open spec fn add_edge_answer(
    doc: DocumentModel,
    source: usize,
    source_port: usize,
    target: usize,
    target_port: usize,
) -> Result<(), Seq<char>> {
    if source >= doc.nodes.len() || source_port >= doc.nodes[source as int].outputs.len() {
        Err("Missing output port"@)
    } else if target >= doc.nodes.len() || target_port >= doc.nodes[target as int].inputs.len() {
        Err("Missing input port"@)
    } else if !ports_compatible(
        doc.nodes[source as int].outputs[source_port as int],
        doc.nodes[target as int].inputs[target_port as int],
    ) {
        Err(
            doc.nodes[source as int].outputs[source_port as int].declared_type
                + " is not compatible with "@ + doc.nodes[target as int].inputs[target_port as int].declared_type,
        )
    } else if input_has_producer(doc, target as int, target_port as int) {
        Err("That input already has a producer"@)
    } else if reports_cycle(
        document_diagnostics(
            with_edge(doc, new_edge(doc, source, source_port, target, target_port)),
        ),
    ) {
        Err("That connection would create a cycle"@)
    } else {
        Ok(())
    }
}

/// A document whose diagnostics report no cycle has an acyclic task graph.
pub proof fn lemma_no_cycle_report_means_acyclic(doc: DocumentModel)
    requires
        !reports_cycle(document_diagnostics(doc)),
    ensures
        !graph_cyclic(doc),
{
    if graph_cyclic(doc) {
        let d = document_diagnostics(doc);
        let before = crate::diagnostics::nodes_diags(doc.nodes, doc.nodes.len() as int)
            + crate::diagnostics::edges_diags(doc, doc.edges.len() as int);
        let i = before.len() as int;
        let m = "The task graph contains a cycle"@;
        assert(d[i] == (DiagnosticSeverity::Error, m));
        reveal_strlit("The task graph contains a cycle");
        reveal_strlit("cycle");
        assert(occurs_at(m, 26, "cycle"@)) by {
            assert(m.subrange(26, 31) =~= "cycle"@);
        }
        assert(reports_cycle(d));
    }
}

/// How many candidates `unique_id_for` may have to try before one is free.
pub open spec fn numbered_id(base: Seq<char>, k: nat) -> Seq<char> {
    base + "_"@ + decimal(k)
}

/// Some node already uses the ID.
pub open spec fn id_used(doc: DocumentModel, id: Seq<char>) -> bool {
    exists|j: int| 0 <= j < doc.nodes.len() && doc.nodes[j].id == id
}

/// A fresh node ID for a display name: its snake case, or the first of
/// `name_2`, `name_3`, ... that no node uses.
pub open spec fn unique_id(doc: DocumentModel, display_name: Seq<char>, id: Seq<char>) -> bool {
    let base = snake_case(display_name);
    if !id_used(doc, base) {
        id == base
    } else {
        exists|k: nat|
            k >= 2 && id == numbered_id(base, k) && !id_used(doc, id) && forall|m: nat|
                2 <= m < k ==> id_used(doc, #[trigger] numbered_id(base, m))
    }
}

/// An injective map from `[0, m)` into `[0, n)` needs `m <= n`.
proof fn lemma_pigeonhole(f: spec_fn(int) -> int, m: int, n: int)
    requires
        0 <= m,
        0 <= n,
        forall|i: int| 0 <= i < m ==> 0 <= #[trigger] f(i) < n,
        forall|i: int, j: int| 0 <= i < m && 0 <= j < m && i != j ==> #[trigger] f(i) != #[trigger] f(j),
    ensures
        m <= n,
    decreases m,
{
    if m > 0 {
        let v = f(m - 1);
        let g = |i: int| if f(i) == n - 1 { v } else { f(i) };
        assert forall|i: int| 0 <= i < m - 1 implies 0 <= #[trigger] g(i) < n - 1 by {
            assert(f(i) != v);
        }
        assert forall|i: int, j: int| 0 <= i < m - 1 && 0 <= j < m - 1 && i != j implies #[trigger] g(i) != #[trigger] g(j) by {
            assert(f(i) != v && f(j) != v);
        }
        lemma_pigeonhole(g, m - 1, n - 1);
    }
}

impl GraphDocument {
    /// Connects output `source_port` of node `source` to input `target_port` of
    /// node `target` (see [`add_edge_answer`]); on any error the document is unchanged.
    pub fn add_edge(&mut self, source: usize, source_port: usize, target: usize, target_port: usize) -> (r: Result<(), String>)
        requires
            old(self).nodes@.len() < u32::MAX,
            old(self).edges@.len() + 1 < u32::MAX,
        ensures
            match add_edge_answer(old(self).deep_view(), source, source_port, target, target_port) {
                Ok(()) => r is Ok && final(self).deep_view() == with_edge(
                    old(self).deep_view(),
                    new_edge(old(self).deep_view(), source, source_port, target, target_port),
                ),
                Err(m) => r matches Err(s) && s@ == m && final(self).deep_view() == old(self).deep_view(),
            },
            r is Ok ==> !graph_cyclic(final(self).deep_view()),
    {
        let ghost d0 = self.deep_view();
        if source >= self.nodes.len() || source_port >= self.nodes[source].outputs.len() {
            let mut m: Vec<char> = Vec::new();
            push_str(&mut m, "Missing output port");
            return Err(string_of(m.as_slice()));
        }
        if target >= self.nodes.len() || target_port >= self.nodes[target].inputs.len() {
            let mut m: Vec<char> = Vec::new();
            push_str(&mut m, "Missing input port");
            return Err(string_of(m.as_slice()));
        }
        let output = self.nodes[source].outputs[source_port].clone();
        assert(output.deep_view() == d0.nodes[source as int].outputs[source_port as int]);
        let input = &self.nodes[target].inputs[target_port];
        assert(input.deep_view() == d0.nodes[target as int].inputs[target_port as int]);
        if !output.compatible_with(input) {
            let mut m: Vec<char> = Vec::new();
            push_str(&mut m, output.declared_type.as_str());
            push_str(&mut m, " is not compatible with ");
            push_str(&mut m, input.declared_type.as_str());
            let text = string_of(m.as_slice());
            assert(text@ == d0.nodes[source as int].outputs[source_port as int].declared_type
                + " is not compatible with "@ + d0.nodes[target as int].inputs[target_port as int].declared_type);
            return Err(text);
        }
        let mut u: usize = 0;
        while u < self.edges.len()
            invariant
                u <= self.edges@.len(),
                d0 == self.deep_view(),
                source < d0.nodes.len(),
                source_port < d0.nodes[source as int].outputs.len(),
                target < d0.nodes.len(),
                target_port < d0.nodes[target as int].inputs.len(),
                ports_compatible(
                    d0.nodes[source as int].outputs[source_port as int],
                    d0.nodes[target as int].inputs[target_port as int],
                ),
                forall|w: int|
                    0 <= w < u ==> !(d0.edges[w].target == target && d0.edges[w].target_port
                        == target_port),
            decreases self.edges.len() - u,
        {
            assert(self.edges@[u as int].deep_view() == d0.edges[u as int]);
            if self.edges[u].target == target && self.edges[u].target_port == target_port {
                let mut m: Vec<char> = Vec::new();
                push_str(&mut m, "That input already has a producer");
                return Err(string_of(m.as_slice()));
            }
            u = u + 1;
        }
        let candidate = GraphEdge {
            source,
            source_port,
            target,
            target_port,
            message_type: output.serialized_type.clone(),
            extra_fields: Vec::new(),
        };
        assert(candidate.extra_fields.deep_view() =~= Seq::<(Seq<char>, Seq<char>)>::empty());
        self.edges.push(candidate);
        let ghost d1 = self.deep_view();
        assert(d1.edges =~= d0.edges.push(new_edge(d0, source, source_port, target, target_port)));
        assert(d1 == with_edge(d0, new_edge(d0, source, source_port, target, target_port)));
        let diags = self.diagnostics();
        let cycle = chars_of("cycle");
        proof {
            reveal_strlit("cycle");
        }
        let mut i: usize = 0;
        let mut found = false;
        while i < diags.len()
            invariant
                i <= diags@.len(),
                cycle@ == "cycle"@,
                cycle@.len() == 5,
                diags.deep_view() == document_diagnostics(d1),
                found == exists|w: int|
                    0 <= w < i && diags.deep_view()[w].0 == DiagnosticSeverity::Error
                        && contains_seq(diags.deep_view()[w].1, "cycle"@),
            decreases diags.len() - i,
        {
            let text = chars_of(diags[i].message.as_str());
            assert(diags.deep_view()[i as int] == (diags@[i as int].severity, text@));
            if diags[i].severity == DiagnosticSeverity::Error && contains_exec(text.as_slice(), cycle.as_slice()) {
                found = true;
            }
            i = i + 1;
        }
        if found {
            self.edges.pop();
            assert(self.deep_view().edges =~= d0.edges);
            let mut m: Vec<char> = Vec::new();
            push_str(&mut m, "That connection would create a cycle");
            return Err(string_of(m.as_slice()));
        }
        proof {
            lemma_no_cycle_report_means_acyclic(d1);
        }
        Ok(())
    }

    /// A node ID derived from a display name that no node uses yet (see [`unique_id`]).
    pub fn unique_id_for(&self, display_name: &str) -> (r: String)
        requires
            self.nodes@.len() + 3 <= usize::MAX,
        ensures
            unique_id(self.deep_view(), display_name@, r@),
    {
        let ghost dm = self.deep_view();
        let base = to_snake_case(display_name);
        if !self.uses_id(base.as_str()) {
            return base;
        }
        let n = self.nodes.len();
        let mut suffix: usize = 2;
        while suffix <= n + 2
            invariant
                2 <= suffix <= n + 3,
                n == dm.nodes.len(),
                n + 3 <= usize::MAX,
                dm == self.deep_view(),
                base@ == snake_case(display_name@),
                id_used(dm, base@),
                forall|m: nat| 2 <= m < suffix ==> id_used(dm, #[trigger] numbered_id(base@, m)),
            decreases n + 3 - suffix,
        {
            let mut candidate: Vec<char> = Vec::new();
            push_str(&mut candidate, base.as_str());
            push_str(&mut candidate, "_");
            let digits = decimal_exec(suffix);
            push_all(&mut candidate, digits.as_slice());
            let id = string_of(candidate.as_slice());
            assert(id@ == numbered_id(base@, suffix as nat));
            if !self.uses_id(id.as_str()) {
                return id;
            }
            suffix = suffix + 1;
        }
        proof {
            // n + 1 different candidates cannot all be among n node IDs.
            let f = |i: int| choose|j: int| 0 <= j < n && dm.nodes[j].id == numbered_id(base@, (i + 2) as nat);
            assert forall|i: int| 0 <= i < n + 1 implies 0 <= #[trigger] f(i) < n by {
                assert(id_used(dm, numbered_id(base@, (i + 2) as nat)));
            }
            assert forall|i: int, j: int| 0 <= i < n + 1 && 0 <= j < n + 1 && i != j implies #[trigger] f(i) != #[trigger] f(j) by {
                assert(id_used(dm, numbered_id(base@, (i + 2) as nat)));
                assert(id_used(dm, numbered_id(base@, (j + 2) as nat)));
                if f(i) == f(j) {
                    let a = numbered_id(base@, (i + 2) as nat);
                    let b = numbered_id(base@, (j + 2) as nat);
                    assert(a == b);
                    let pre = base@ + "_"@;
                    assert(decimal((i + 2) as nat) =~= a.subrange(pre.len() as int, a.len() as int));
                    assert(decimal((j + 2) as nat) =~= b.subrange(pre.len() as int, b.len() as int));
                    lemma_decimal_injective((i + 2) as nat, (j + 2) as nat);
                }
            }
            lemma_pigeonhole(f, n + 1, n as int);
        }
        base
    }

    /// Whether some node has the ID.
    pub fn uses_id(&self, id: &str) -> (r: bool)
        ensures
            r == id_used(self.deep_view(), id@),
    {
        let ghost dm = self.deep_view();
        let mut j: usize = 0;
        while j < self.nodes.len()
            invariant
                j <= self.nodes@.len(),
                dm == self.deep_view(),
                forall|w: int| 0 <= w < j ==> dm.nodes[w].id != id@,
            decreases self.nodes.len() - j,
        {
            assert(dm.nodes[j as int].id == self.nodes@[j as int].id@);
            if str_eq(self.nodes[j].id.as_str(), id) {
                return true;
            }
            j = j + 1;
        }
        false
    }
}

} // verus!
