//! The calls this library makes into outside crates, each behind a contract
//! that states what the crate's source or documentation shows.
use vstd::prelude::*;

use petgraph::graph::Graph;
use quote::ToTokens;
use petgraph::Directed;
use sha2::{Digest, Sha256};

verus! {

// ---------------------------------------------------------------------------
// RON (the `ron` crate)
// ---------------------------------------------------------------------------

/// Whether `ron::from_str::<ron::Value>` accepts the text.
pub uninterp spec fn ron_value_parses(text: Seq<char>) -> bool;

/// What `ron::ser::to_string` gives for a string value (`None` for an error).
pub uninterp spec fn ron_serialized_str(value: Seq<char>) -> Option<Seq<char>>;

/// What `ron::from_str::<String>` gives for the text (`None` for an error).
pub uninterp spec fn ron_parsed_str(text: Seq<char>) -> Option<Seq<char>>;

/// `ron::from_str::<ron::Value>(text).is_ok()`: whether the text is a RON value.
/// The contract only names the answer; it does not restate RON's grammar.
#[verifier::external_body]
pub(crate) fn ron_parses(text: &str) -> (r: bool)
    ensures
        r == ron_value_parses(text@),
{
    ron::from_str::<ron::Value>(text).is_ok()
}

/// `ron::ser::to_string` on a string value: the quoted and escaped RON string
/// literal, or `None` where serialization reports an error.
#[verifier::external_body]
pub(crate) fn ron_serialize_str(value: &str) -> (r: Option<String>)
    ensures
        r.deep_view() == ron_serialized_str(value@),
{
    ron::ser::to_string(value).ok()
}

/// `ron::from_str::<String>`: the string a RON string literal denotes, or
/// `None` where the text is not one.
#[verifier::external_body]
pub(crate) fn ron_parse_str(text: &str) -> (r: Option<String>)
    ensures
        r.deep_view() == ron_parsed_str(text@),
{
    ron::from_str::<String>(text).ok()
}

// ---------------------------------------------------------------------------
// Rust syntax (the `syn` crate)
// ---------------------------------------------------------------------------

/// Whether `syn::parse_str::<syn::Expr>` accepts the text.
pub uninterp spec fn rust_expr_parses(text: Seq<char>) -> bool;

/// `syn::parse_str::<syn::Expr>(text).is_ok()`.
#[verifier::external_body]
pub(crate) fn parses_as_rust_expr(text: &str) -> (r: bool)
    ensures
        r == rust_expr_parses(text@),
{
    syn::parse_str::<syn::Expr>(text).is_ok()
}

/// How `syn` prints the type the text parses as (`None` where `syn` does not
/// read the text as a type).
pub uninterp spec fn printed_rust_type(text: Seq<char>) -> Option<Seq<char>>;

/// The value of the string literal the text is (`None` where it is not one).
pub uninterp spec fn string_literal_value(text: Seq<char>) -> Option<Seq<char>>;

/// `syn::parse_str::<syn::Type>(text)`, printed back with
/// `to_token_stream().to_string()`: the contract names the result.
#[verifier::external_body]
pub(crate) fn rust_type_text(text: &str) -> (r: Option<String>)
    ensures
        r.deep_view() == printed_rust_type(text@),
{
    syn::parse_str::<syn::Type>(text).ok().map(|ty| ty.to_token_stream().to_string())
}

/// `syn::parse_str::<syn::LitStr>(text)` and `LitStr::value`: the unescaped
/// value of a string literal; the contract names the result.
#[verifier::external_body]
pub(crate) fn lit_str_value(text: &str) -> (r: Option<String>)
    ensures
        r.deep_view() == string_literal_value(text@),
{
    syn::parse_str::<syn::LitStr>(text).ok().map(|literal| literal.value())
}

// ---------------------------------------------------------------------------
// Directed graphs (the `petgraph` crate)
// ---------------------------------------------------------------------------

#[verifier::external_type_specification]
#[verifier::external_body]
#[verifier::reject_recursive_types(N)]
#[verifier::reject_recursive_types(E)]
#[verifier::reject_recursive_types(Ty)]
#[verifier::reject_recursive_types(Ix)]
pub struct ExGraph<N, E, Ty, Ix>(Graph<N, E, Ty, Ix>);

#[verifier::external_type_specification]
#[verifier::external_body]
pub struct ExDirected(Directed);

/// The edges of a task graph, as pairs of node indices, in insertion order.
pub uninterp spec fn graph_edges(g: Graph<(), (), Directed, u32>) -> Seq<(int, int)>;

/// The number of nodes of a task graph.
pub uninterp spec fn graph_node_count(g: Graph<(), (), Directed, u32>) -> nat;

/// A path of at least one edge through `edges`.
pub open spec fn is_edge_path(edges: Seq<(int, int)>, path: Seq<int>) -> bool {
    &&& path.len() >= 2
    &&& forall|i: int| 0 <= i < path.len() - 1 ==> edges.contains((path[i], #[trigger] path[i + 1]))
}

/// Some path through `edges` returns to where it started.
pub open spec fn has_cycle(edges: Seq<(int, int)>) -> bool {
    exists|path: Seq<int>| is_edge_path(edges, path) && path[0] == path.last()
}

/// `DiGraph::<(), ()>::new()`: an empty graph.
#[verifier::external_body]
pub(crate) fn new_task_graph() -> (g: Graph<(), (), Directed, u32>)
    ensures
        graph_edges(g) == Seq::<(int, int)>::empty(),
        graph_node_count(g) == 0,
{
    Graph::new()
}

/// `Graph::add_node`: adds a node and returns its index, which is the number of
/// nodes before the call. petgraph panics when the `u32` index is exhausted, so
/// the count must stay below `u32::MAX`.
#[verifier::external_body]
pub(crate) fn add_task_node(g: &mut Graph<(), (), Directed, u32>) -> (index: usize)
    requires
        graph_node_count(*old(g)) < u32::MAX,
    ensures
        index == graph_node_count(*old(g)),
        graph_node_count(*final(g)) == graph_node_count(*old(g)) + 1,
        graph_edges(*final(g)) == graph_edges(*old(g)),
{
    g.add_node(()).index()
}

/// `Graph::add_edge`: adds an edge between two existing nodes. petgraph panics
/// for a missing node and when the `u32` edge index is exhausted.
#[verifier::external_body]
pub(crate) fn add_task_edge(g: &mut Graph<(), (), Directed, u32>, from: usize, to: usize)
    requires
        from < graph_node_count(*old(g)),
        to < graph_node_count(*old(g)),
        graph_edges(*old(g)).len() < u32::MAX,
    ensures
        graph_node_count(*final(g)) == graph_node_count(*old(g)),
        graph_edges(*final(g)) == graph_edges(*old(g)).push((from as int, to as int)),
{
    g.add_edge(petgraph::graph::NodeIndex::new(from), petgraph::graph::NodeIndex::new(to), ());
}

/// `petgraph::algo::is_cyclic_directed`: whether the graph contains a cycle.
#[verifier::external_body]
pub(crate) fn task_graph_is_cyclic(g: &Graph<(), (), Directed, u32>) -> (r: bool)
    ensures
        r == has_cycle(graph_edges(*g)),
{
    petgraph::algo::is_cyclic_directed(g)
}

// ---------------------------------------------------------------------------
// Hashing (the `sha2` crate)
// ---------------------------------------------------------------------------

/// The SHA-256 digest of the UTF-8 encoding of a text.
pub uninterp spec fn sha256_of_text(text: Seq<char>) -> Seq<u8>;

/// `Sha256::digest(text.as_bytes())`: the 32-byte SHA-256 digest of the text.
/// The contract names the digest; it does not restate SHA-256.
#[verifier::external_body]
pub(crate) fn sha256_text(text: &str) -> (r: [u8; 32])
    ensures
        r@ == sha256_of_text(text@),
{
    Sha256::digest(text.as_bytes()).into()
}

// ---------------------------------------------------------------------------
// Lossless RON syntax trees (the `ronin-core` crate)
// ---------------------------------------------------------------------------

/// How many diagnostics `ronin_core::parse` reports for the text.
pub uninterp spec fn lossless_diagnostic_count(text: Seq<char>) -> nat;

/// `ronin_core::parse(text).diagnostics().len()`: the number of recovery points
/// of the error-tolerant parser.
#[verifier::external_body]
pub(crate) fn lossless_diagnostics(text: &str) -> (r: usize)
    ensures
        r == lossless_diagnostic_count(text@),
{
    ronin_core::parse(text).diagnostics().len()
}

/// `ronin_core::print(&ronin_core::parse(text))`: ronin-core documents that
/// printing an unmodified parse reproduces the source byte for byte.
#[verifier::external_body]
pub(crate) fn lossless_reprint(text: &str) -> (r: String)
    ensures
        r@ == text@,
{
    ronin_core::print(&ronin_core::parse(text))
}

// ---------------------------------------------------------------------------
// Values of std that the library carries without looking inside
// ---------------------------------------------------------------------------

#[verifier::external_type_specification]
#[verifier::external_body]
pub struct ExPathBuf(std::path::PathBuf);

#[verifier::external_type_specification]
#[verifier::external_body]
pub struct ExIoError(std::io::Error);

/// `PathBuf::clone`: the copy is the same path.
#[verifier::external_body]
pub(crate) fn path_copy(path: &std::path::PathBuf) -> (r: std::path::PathBuf)
    ensures
        r == *path,
{
    path.clone()
}

/// `PathBuf::from`: the path a text names. The contract says nothing of the result.
#[verifier::external_body]
pub(crate) fn path_from(text: &str) -> (r: std::path::PathBuf) {
    std::path::PathBuf::from(text)
}

/// `Path::join`: the path with `part` appended as a further component. The
/// contract says nothing of the result: the library only carries paths.
#[verifier::external_body]
pub(crate) fn path_join(base: &std::path::PathBuf, part: &str) -> (r: std::path::PathBuf) {
    base.join(part)
}

} // verus!
