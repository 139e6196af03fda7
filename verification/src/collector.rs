//! Gathering what the catalog needs from a package's source items: the
//! Copper task, bridge and monitor implementations, the type aliases that
//! name generic bridges or message types, the channel sets of bridges and
//! the re-exports.
use vstd::prelude::*;

use crate::channels::{parse_channel_set, parsed_channel_set, ChannelRecordModel, ChannelSetModel, TokenTree};
use crate::fieldmap::{insert_all_fields, insert_field, keys_sorted, map_insert, map_insert_all, Pair};
use crate::model::{
    BridgeChannelDescriptor, ChannelModel, ConfigHint, HintModel, PortDescriptor, PortDirection,
    PortModel,
};
use crate::naming::{qualified_item, qualified_type, qualify_item, qualify_type};
use crate::shapes::{
    clone_strings, deduplicate_hints, extract_message_types, message_types, shape_arguments,
    shape_base, shape_has_generics, shape_text, unique_hints, TypeShape,
};
use crate::text::{chars_of, push_str, replace_all, replace_exec, str_eq, string_of};

verus! {

// ---------------------------------------------------------------------------
// The source items a file contributes
// ---------------------------------------------------------------------------

/// The tree of a `use` item.
#[derive(Debug)]
pub enum UseTree {
    /// `segment::rest`
    Path(String, Box<UseTree>),
    /// `name`
    Name(String),
    /// `name as rename`
    Rename(String, String),
    /// `*`
    Glob,
    /// `{a, b, ...}`
    Group(Vec<UseTree>),
}

/// A path with one more segment.
pub open spec fn path_joined(prefix: Seq<char>, ident: Seq<char>) -> Seq<char> {
    if prefix.len() == 0 {
        ident
    } else {
        prefix + "::"@ + ident
    }
}

/// The names a `use` tree brings in below `prefix`, each with its full path,
/// in the order written; a glob brings in no name.
pub open spec fn use_entries_under(prefix: Seq<char>, tree: UseTree) -> Seq<Pair>
    decreases tree, 0nat, 0int,
{
    match tree {
        UseTree::Path(ident, rest) => use_entries_under(path_joined(prefix, ident@), *rest),
        UseTree::Name(ident) => seq![(ident@, path_joined(prefix, ident@))],
        UseTree::Rename(ident, rename) => seq![(rename@, path_joined(prefix, ident@))],
        UseTree::Glob => Seq::empty(),
        UseTree::Group(items) => group_entries(prefix, items@, items@.len() as int),
    }
}

/// The names the first `k` trees of a group bring in.
pub open spec fn group_entries(prefix: Seq<char>, items: Seq<UseTree>, k: int) -> Seq<Pair>
    decreases items, 1nat, k,
{
    if k <= 0 || k > items.len() {
        Seq::empty()
    } else {
        group_entries(prefix, items, k - 1) + use_entries_under(prefix, items[k - 1])
    }
}

/// The names a `use` tree brings in (see [`use_entries_under`]).
pub open spec fn use_entries(tree: UseTree) -> Seq<Pair> {
    use_entries_under(Seq::empty(), tree)
}

fn joined_path(prefix: &str, ident: &str) -> (r: String)
    ensures
        r@ == path_joined(prefix@, ident@),
{
    let p = chars_of(prefix);
    if p.len() == 0 {
        ident.to_owned()
    } else {
        let mut out: Vec<char> = Vec::new();
        push_str(&mut out, prefix);
        push_str(&mut out, "::");
        push_str(&mut out, ident);
        string_of(out.as_slice())
    }
}

fn flatten_under(prefix: &str, tree: &UseTree, out: &mut Vec<(String, String)>)
    ensures
        final(out).deep_view() == old(out).deep_view() + use_entries_under(prefix@, *tree),
    decreases *tree,
{
    let ghost start = out.deep_view();
    match tree {
        UseTree::Path(ident, rest) => {
            let next = joined_path(prefix, ident.as_str());
            flatten_under(next.as_str(), rest, out);
        },
        UseTree::Name(ident) => {
            out.push((ident.clone(), joined_path(prefix, ident.as_str())));
            assert(out.deep_view() =~= start + use_entries_under(prefix@, *tree));
        },
        UseTree::Rename(ident, rename) => {
            out.push((rename.clone(), joined_path(prefix, ident.as_str())));
            assert(out.deep_view() =~= start + use_entries_under(prefix@, *tree));
        },
        UseTree::Glob => {
            assert(out.deep_view() =~= start + use_entries_under(prefix@, *tree));
        },
        UseTree::Group(items) => {
            let mut i: usize = 0;
            assert(out.deep_view() =~= start + group_entries(prefix@, items@, 0));
            while i < items.len()
                invariant
                    i <= items@.len(),
                    *tree == UseTree::Group(*items),
                    out.deep_view() == start + group_entries(prefix@, items@, i as int),
                decreases items.len() - i,
            {
                proof {
                    assert(decreases_to!(*tree => tree->Group_0));
                    assert(decreases_to!(tree->Group_0 => tree->Group_0@));
                    assert(decreases_to!(tree->Group_0@ => tree->Group_0@[i as int]));
                }
                flatten_under(prefix, &items[i], out);
                assert(out.deep_view() =~= start + group_entries(prefix@, items@, i + 1));
                i = i + 1;
            }
        },
    }
}

/// The names a `use` tree brings in, each with its full path (see [`use_entries`]).
pub fn flatten_use_tree(tree: &UseTree) -> (r: Vec<(String, String)>)
    ensures
        r.deep_view() == use_entries(*tree),
{
    let mut out: Vec<(String, String)> = Vec::new();
    assert(out.deep_view() =~= Seq::<Pair>::empty());
    flatten_under("", tree, &mut out);
    proof {
        reveal_strlit("");
        assert(""@ =~= Seq::<char>::empty());
        assert(out.deep_view() =~= use_entries(*tree));
    }
    out
}

/// A method call in a function body, in the order a syntax walk meets them
/// (a call before the calls in its receiver and arguments): the method, the
/// value of its first argument where that is a string literal, and the first
/// type of its turbofish (`::<T>`), if any.
#[derive(Debug)]
pub struct MethodCall {
    pub method: String,
    pub first_string_argument: Option<String>,
    pub turbofish_type: Option<String>,
}

/// A member of an `impl` block that the catalog reads.
#[derive(Debug)]
pub enum ImplMember {
    /// An associated type (`Input`, `Output`, `Tx`, `Rx`, ...).
    Type { name: String, ty: TypeShape },
    /// A function, with the method calls in its body.
    Function { name: String, calls: Vec<MethodCall> },
    Other,
}

/// The configuration key a call reads: `get` or `get_value` with a string
/// literal key; its type is the turbofish type, where there is one.
pub open spec fn call_hint(call: MethodCall) -> Option<HintModel> {
    if call.method@ == "get"@ || call.method@ == "get_value"@ {
        match call.first_string_argument {
            Some(key) => Some(
                HintModel {
                    key: key@,
                    rust_type: match call.turbofish_type {
                        Some(t) => Some(t@),
                        None => None,
                    },
                    default_ron: None,
                    documentation: None,
                },
            ),
            None => None,
        }
    } else {
        None
    }
}

/// The configuration keys the calls read, in order.
pub open spec fn call_hints(calls: Seq<MethodCall>) -> Seq<HintModel>
    decreases calls.len(),
{
    if calls.len() == 0 {
        Seq::empty()
    } else {
        let rest = call_hints(calls.drop_last());
        match call_hint(calls.last()) {
            Some(h) => rest.push(h),
            None => rest,
        }
    }
}

/// The configuration hints of the calls (see [`call_hints`]).
fn hints_of_calls(calls: &Vec<MethodCall>) -> (r: Vec<ConfigHint>)
    ensures
        r.deep_view() == call_hints(calls@),
{
    let mut out: Vec<ConfigHint> = Vec::new();
    let mut i: usize = 0;
    assert(calls@.take(0) =~= Seq::<MethodCall>::empty());
    assert(out.deep_view() =~= Seq::<HintModel>::empty());
    proof {
        reveal_strlit("get");
        reveal_strlit("get_value");
    }
    while i < calls.len()
        invariant
            i <= calls@.len(),
            out.deep_view() == call_hints(calls@.take(i as int)),
        decreases calls.len() - i,
    {
        assert(calls@.take(i + 1).drop_last() =~= calls@.take(i as int));
        assert(calls@.take(i + 1).last() == calls@[i as int]);
        let call = &calls[i];
        if str_eq(call.method.as_str(), "get") || str_eq(call.method.as_str(), "get_value") {
            if let Some(key) = &call.first_string_argument {
                let hint = ConfigHint {
                    key: key.clone(),
                    rust_type: crate::model::clone_opt(&call.turbofish_type),
                    default_ron: None,
                    documentation: None,
                };
                let ghost before = out.deep_view();
                out.push(hint);
                assert(out.deep_view() =~= before.push(call_hint(calls@[i as int])->Some_0));
            }
        }
        i = i + 1;
    }
    assert(calls@.take(calls.len() as int) =~= calls@);
    out
}

/// An item of a source file, reduced to what the catalog reads.
#[derive(Debug)]
pub enum SourceItem {
    /// A `use` item.
    Use { public: bool, tree: UseTree },
    /// A `type` alias.
    Alias { name: String, target: TypeShape },
    /// An `impl` block, with the last segment of its trait's path, if any.
    Impl { trait_name: Option<String>, self_type: TypeShape, members: Vec<ImplMember> },
    /// A macro invocation: the last segment of the macro's path and its tokens.
    Macro { name: String, tokens: Vec<TokenTree> },
    /// A module, with its items where they are inline.
    Module { name: String, items: Option<Vec<SourceItem>> },
    Other,
}

/// The package a source file belongs to.
#[derive(Debug)]
pub struct PackageScope {
    pub package_name: String,
    pub crate_name: String,
    pub workspace_only: bool,
    /// The package is the application itself (its items are not qualified by crate).
    pub is_app: bool,
    /// The file the items come from.
    pub source_path: String,
}

pub struct ScopeModel {
    pub package_name: Seq<char>,
    pub crate_name: Seq<char>,
    pub workspace_only: bool,
    pub is_app: bool,
    pub source_path: Seq<char>,
}

impl DeepView for PackageScope {
    type V = ScopeModel;

    open spec fn deep_view(&self) -> ScopeModel {
        ScopeModel {
            package_name: self.package_name@,
            crate_name: self.crate_name@,
            workspace_only: self.workspace_only,
            is_app: self.is_app,
            source_path: self.source_path@,
        }
    }
}

// ---------------------------------------------------------------------------
// What is gathered
// ---------------------------------------------------------------------------

#[derive(Debug)]
pub struct ImplRecord {
    pub trait_name: String,
    pub self_generic: bool,
    pub self_base: Option<String>,
    pub qualified_self: String,
    pub inputs: Vec<String>,
    pub outputs: Vec<String>,
    pub tx_set: Option<String>,
    pub rx_set: Option<String>,
    pub hints: Vec<ConfigHint>,
    pub imports: Vec<(String, String)>,
    pub source_path: String,
    pub package: String,
    pub crate_name: String,
    pub module: String,
    pub workspace_only: bool,
    pub is_app: bool,
}

pub struct ImplModel {
    pub trait_name: Seq<char>,
    pub self_generic: bool,
    pub self_base: Option<Seq<char>>,
    pub qualified_self: Seq<char>,
    pub inputs: Seq<Seq<char>>,
    pub outputs: Seq<Seq<char>>,
    pub tx_set: Option<Seq<char>>,
    pub rx_set: Option<Seq<char>>,
    pub hints: Seq<HintModel>,
    pub imports: Seq<Pair>,
    pub source_path: Seq<char>,
    pub package: Seq<char>,
    pub crate_name: Seq<char>,
    pub module: Seq<char>,
    pub workspace_only: bool,
    pub is_app: bool,
}

impl DeepView for ImplRecord {
    type V = ImplModel;

    open spec fn deep_view(&self) -> ImplModel {
        ImplModel {
            trait_name: self.trait_name@,
            self_generic: self.self_generic,
            self_base: self.self_base.deep_view(),
            qualified_self: self.qualified_self@,
            inputs: self.inputs.deep_view(),
            outputs: self.outputs.deep_view(),
            tx_set: self.tx_set.deep_view(),
            rx_set: self.rx_set.deep_view(),
            hints: self.hints.deep_view(),
            imports: self.imports.deep_view(),
            source_path: self.source_path@,
            package: self.package@,
            crate_name: self.crate_name@,
            module: self.module@,
            workspace_only: self.workspace_only,
            is_app: self.is_app,
        }
    }
}

#[derive(Debug)]
pub struct AliasRecord {
    pub qualified: String,
    pub target_text: String,
    pub target_base: Option<String>,
    pub target_arguments: Vec<String>,
    pub imports: Vec<(String, String)>,
    pub source_path: String,
    pub package: String,
    pub crate_name: String,
    pub module: String,
    pub workspace_only: bool,
    pub is_app: bool,
}

pub struct AliasModel {
    pub qualified: Seq<char>,
    pub target_text: Seq<char>,
    pub target_base: Option<Seq<char>>,
    pub target_arguments: Seq<Seq<char>>,
    pub imports: Seq<Pair>,
    pub source_path: Seq<char>,
    pub package: Seq<char>,
    pub crate_name: Seq<char>,
    pub module: Seq<char>,
    pub workspace_only: bool,
    pub is_app: bool,
}

impl DeepView for AliasRecord {
    type V = AliasModel;

    open spec fn deep_view(&self) -> AliasModel {
        AliasModel {
            qualified: self.qualified@,
            target_text: self.target_text@,
            target_base: self.target_base.deep_view(),
            target_arguments: self.target_arguments.deep_view(),
            imports: self.imports.deep_view(),
            source_path: self.source_path@,
            package: self.package@,
            crate_name: self.crate_name@,
            module: self.module@,
            workspace_only: self.workspace_only,
            is_app: self.is_app,
        }
    }
}

#[derive(Debug)]
pub struct PublicUseRecord {
    pub exported: String,
    pub target: String,
    pub name: String,
    pub package: String,
}

pub struct UseModel {
    pub exported: Seq<char>,
    pub target: Seq<char>,
    pub name: Seq<char>,
    pub package: Seq<char>,
}

impl DeepView for PublicUseRecord {
    type V = UseModel;

    open spec fn deep_view(&self) -> UseModel {
        UseModel { exported: self.exported@, target: self.target@, name: self.name@, package: self.package@ }
    }
}

/// What has been gathered from the sources read so far. Aliases are keyed by
/// their qualified path and channel sets by name; adding one under a key
/// already present replaces it where it stands. The keyed collections are held
/// as vectors in the order their keys were first added, so where a lookup can
/// match several keys (a channel set found by the end of its name) it takes
/// the first added, a choice that a hash map would leave to its walk order.
#[derive(Debug)]
pub struct Collector {
    pub impls: Vec<ImplRecord>,
    pub aliases: Vec<AliasRecord>,
    /// For each alias name, the qualified paths of the aliases with that name.
    pub simple_aliases: Vec<(String, Vec<String>)>,
    pub channel_sets: Vec<(String, Vec<BridgeChannelDescriptor>)>,
    pub public_uses: Vec<PublicUseRecord>,
    pub diagnostics: Vec<String>,
}

pub struct CollectorModel {
    pub impls: Seq<ImplModel>,
    pub aliases: Seq<AliasModel>,
    pub simple_aliases: Seq<(Seq<char>, Seq<Seq<char>>)>,
    pub channel_sets: Seq<(Seq<char>, Seq<ChannelModel>)>,
    pub public_uses: Seq<UseModel>,
    pub diagnostics: Seq<Seq<char>>,
}

impl DeepView for Collector {
    type V = CollectorModel;

    open spec fn deep_view(&self) -> CollectorModel {
        CollectorModel {
            impls: self.impls.deep_view(),
            aliases: self.aliases.deep_view(),
            simple_aliases: self.simple_aliases.deep_view(),
            channel_sets: self.channel_sets.deep_view(),
            public_uses: self.public_uses.deep_view(),
            diagnostics: self.diagnostics.deep_view(),
        }
    }
}

// ---------------------------------------------------------------------------
// Keyed sequences
// ---------------------------------------------------------------------------

/// The first entry at or after `from` with key `k`.
pub open spec fn key_index<V>(e: Seq<(Seq<char>, V)>, k: Seq<char>, from: int) -> Option<int>
    decreases e.len() - from,
{
    if from < 0 || from >= e.len() {
        None
    } else if e[from].0 == k {
        Some(from)
    } else {
        key_index(e, k, from + 1)
    }
}

/// Sets the value of key `k`: in place where it is present, else at the end.
pub open spec fn keyed_insert<V>(e: Seq<(Seq<char>, V)>, k: Seq<char>, v: V) -> Seq<(Seq<char>, V)> {
    match key_index(e, k, 0) {
        Some(i) => e.update(i, (k, v)),
        None => e.push((k, v)),
    }
}

/// Adds `q` to the paths listed under `name`.
pub open spec fn simple_push(e: Seq<(Seq<char>, Seq<Seq<char>>)>, name: Seq<char>, q: Seq<char>) -> Seq<(Seq<char>, Seq<Seq<char>>)> {
    match key_index(e, name, 0) {
        Some(i) => e.update(i, (name, e[i].1.push(q))),
        None => e.push((name, seq![q])),
    }
}

/// The first alias at or after `from` with this qualified path.
pub open spec fn alias_index(aliases: Seq<AliasModel>, q: Seq<char>, from: int) -> Option<int>
    decreases aliases.len() - from,
{
    if from < 0 || from >= aliases.len() {
        None
    } else if aliases[from].qualified == q {
        Some(from)
    } else {
        alias_index(aliases, q, from + 1)
    }
}

/// Adds an alias, replacing one with the same qualified path where it stands.
pub open spec fn alias_insert(aliases: Seq<AliasModel>, a: AliasModel) -> Seq<AliasModel> {
    match alias_index(aliases, a.qualified, 0) {
        Some(i) => aliases.update(i, a),
        None => aliases.push(a),
    }
}

proof fn lemma_key_index<V>(e: Seq<(Seq<char>, V)>, k: Seq<char>, from: int)
    requires
        0 <= from,
    ensures
        key_index(e, k, from) matches Some(i) ==> from <= i < e.len() && e[i].0 == k,
    decreases e.len() - from,
{
    if from < e.len() && e[from].0 != k {
        lemma_key_index(e, k, from + 1);
    }
}

proof fn lemma_alias_index(a: Seq<AliasModel>, q: Seq<char>, from: int)
    requires
        0 <= from,
    ensures
        alias_index(a, q, from) matches Some(i) ==> from <= i < a.len() && a[i].qualified == q,
    decreases a.len() - from,
{
    if from < a.len() && a[from].qualified != q {
        lemma_alias_index(a, q, from + 1);
    }
}

pub(crate) fn find_alias(aliases: &Vec<AliasRecord>, q: &str) -> (r: Option<usize>)
    ensures
        r matches Some(i) ==> i < aliases@.len() && alias_index(aliases.deep_view(), q@, 0) == Some(i as int),
        r is None ==> alias_index(aliases.deep_view(), q@, 0) is None,
{
    let ghost av = aliases.deep_view();
    let mut k: usize = 0;
    while k < aliases.len()
        invariant
            k <= aliases@.len(),
            av == aliases.deep_view(),
            alias_index(av, q@, k as int) == alias_index(av, q@, 0),
        decreases aliases.len() - k,
    {
        assert(av[k as int].qualified == aliases@[k as int].qualified@);
        if str_eq(aliases[k].qualified.as_str(), q) {
            return Some(k);
        }
        k = k + 1;
    }
    None
}

pub(crate) fn find_simple(e: &Vec<(String, Vec<String>)>, name: &str) -> (r: Option<usize>)
    ensures
        r matches Some(i) ==> i < e@.len() && key_index(e.deep_view(), name@, 0) == Some(i as int),
        r is None ==> key_index(e.deep_view(), name@, 0) is None,
{
    let ghost ev = e.deep_view();
    let mut k: usize = 0;
    while k < e.len()
        invariant
            k <= e@.len(),
            ev == e.deep_view(),
            key_index(ev, name@, k as int) == key_index(ev, name@, 0),
        decreases e.len() - k,
    {
        assert(ev[k as int].0 == e@[k as int].0@);
        if str_eq(e[k].0.as_str(), name) {
            return Some(k);
        }
        k = k + 1;
    }
    None
}

fn find_set(e: &Vec<(String, Vec<BridgeChannelDescriptor>)>, name: &str) -> (r: Option<usize>)
    ensures
        r matches Some(i) ==> i < e@.len() && key_index(e.deep_view(), name@, 0) == Some(i as int),
        r is None ==> key_index(e.deep_view(), name@, 0) is None,
{
    let ghost ev = e.deep_view();
    let mut k: usize = 0;
    while k < e.len()
        invariant
            k <= e@.len(),
            ev == e.deep_view(),
            key_index(ev, name@, k as int) == key_index(ev, name@, 0),
        decreases e.len() - k,
    {
        assert(ev[k as int].0 == e@[k as int].0@);
        if str_eq(e[k].0.as_str(), name) {
            return Some(k);
        }
        k = k + 1;
    }
    None
}


// ---------------------------------------------------------------------------
// Gathering, as specified
// ---------------------------------------------------------------------------

/// The names the `use` items bring into scope, each with its full path
/// (a later `use` of a name replaces an earlier one).
pub open spec fn imports_of(items: Seq<SourceItem>) -> Seq<Pair>
    decreases items.len(),
{
    if items.len() == 0 {
        Seq::empty()
    } else {
        let rest = imports_of(items.drop_last());
        match items.last() {
            SourceItem::Use { tree, .. } => map_insert_all(rest, use_entries(tree)),
            _ => rest,
        }
    }
}

/// The re-exports of one `pub use` (its names sorted, each once).
pub open spec fn use_records(scope: ScopeModel, module: Seq<char>, names: Seq<Pair>) -> Seq<UseModel> {
    Seq::new(
        names.len(),
        |i: int|
            UseModel {
                exported: qualified_item(scope.is_app, scope.crate_name, module, names[i].0),
                target: names[i].1,
                name: names[i].0,
                package: scope.package_name,
            },
    )
}

/// The re-exports of the `pub use` items among the first `k`.
pub open spec fn exported_uses(scope: ScopeModel, module: Seq<char>, items: Seq<SourceItem>, k: int) -> Seq<UseModel>
    decreases k,
{
    if k <= 0 || k > items.len() {
        Seq::empty()
    } else {
        let rest = exported_uses(scope, module, items, k - 1);
        match items[k - 1] {
            SourceItem::Use { public: true, tree } => rest + use_records(
                scope,
                module,
                map_insert_all(Seq::empty(), use_entries(tree)),
            ),
            _ => rest,
        }
    }
}

/// The alias a `type` item declares.
pub open spec fn alias_model(scope: ScopeModel, module: Seq<char>, imports: Seq<Pair>, name: Seq<char>, target: TypeShape) -> AliasModel {
    AliasModel {
        qualified: qualified_item(scope.is_app, scope.crate_name, module, name),
        target_text: shape_text(target),
        target_base: shape_base(target),
        target_arguments: shape_arguments(target),
        imports,
        source_path: scope.source_path,
        package: scope.package_name,
        crate_name: scope.crate_name,
        module,
        workspace_only: scope.workspace_only,
        is_app: scope.is_app,
    }
}

pub open spec fn with_alias(
    c: CollectorModel,
    scope: ScopeModel,
    module: Seq<char>,
    imports: Seq<Pair>,
    name: Seq<char>,
    target: TypeShape,
) -> CollectorModel {
    let a = alias_model(scope, module, imports, name, target);
    CollectorModel {
        simple_aliases: simple_push(c.simple_aliases, name, a.qualified),
        aliases: alias_insert(c.aliases, a),
        ..c
    }
}

/// The Copper traits whose implementations are components.
pub open spec fn copper_trait(name: Seq<char>) -> bool {
    name == "CuSrcTask"@ || name == "CuTask"@ || name == "CuSinkTask"@ || name == "CuBridge"@
        || name == "CuMonitor"@
}

/// What the members of an implementation declare.
pub struct MemberParts {
    pub inputs: Seq<Seq<char>>,
    pub outputs: Seq<Seq<char>>,
    pub tx_set: Option<Seq<char>>,
    pub rx_set: Option<Seq<char>>,
    pub hints: Seq<HintModel>,
}

/// What the first `k` members declare: the message types of `Input` and
/// `Output`, the channel sets named by `Tx` and `Rx` (a later declaration
/// replacing an earlier one), and the keys `new` reads, in order.
pub open spec fn member_parts(members: Seq<ImplMember>, k: int) -> MemberParts
    decreases k,
{
    if k <= 0 || k > members.len() {
        MemberParts { inputs: Seq::empty(), outputs: Seq::empty(), tx_set: None, rx_set: None, hints: Seq::empty() }
    } else {
        let p = member_parts(members, k - 1);
        match members[k - 1] {
            ImplMember::Type { name, ty } => if name@ == "Input"@ {
                MemberParts { inputs: message_types(ty), ..p }
            } else if name@ == "Output"@ {
                MemberParts { outputs: message_types(ty), ..p }
            } else if name@ == "Tx"@ {
                MemberParts { tx_set: Some(shape_text(ty)), ..p }
            } else if name@ == "Rx"@ {
                MemberParts { rx_set: Some(shape_text(ty)), ..p }
            } else {
                p
            },
            ImplMember::Function { name, calls } => if name@ == "new"@ {
                MemberParts { hints: p.hints + call_hints(calls@), ..p }
            } else {
                p
            },
            ImplMember::Other => p,
        }
    }
}

/// Records an implementation of one of the Copper traits.
pub open spec fn with_impl(
    c: CollectorModel,
    scope: ScopeModel,
    module: Seq<char>,
    imports: Seq<Pair>,
    trait_name: Option<String>,
    self_type: TypeShape,
    members: Seq<ImplMember>,
) -> CollectorModel {
    match trait_name {
        None => c,
        Some(t) => if !copper_trait(t@) {
            c
        } else {
            let parts = member_parts(members, members.len() as int);
            CollectorModel {
                impls: c.impls.push(
                    ImplModel {
                        trait_name: t@,
                        self_generic: shape_has_generics(self_type),
                        self_base: shape_base(self_type),
                        qualified_self: qualified_type(
                            shape_text(self_type),
                            scope.is_app,
                            scope.crate_name,
                            module,
                            imports,
                        ),
                        inputs: parts.inputs,
                        outputs: parts.outputs,
                        tx_set: parts.tx_set,
                        rx_set: parts.rx_set,
                        hints: unique_hints(parts.hints),
                        imports,
                        source_path: scope.source_path,
                        package: scope.package_name,
                        crate_name: scope.crate_name,
                        module,
                        workspace_only: scope.workspace_only,
                        is_app: scope.is_app,
                    },
                ),
                ..c
            }
        },
    }
}

/// The descriptor of channel `ordinal` of a set: its payload port is named
/// after the channel and typed by the payload qualified in the crate.
pub open spec fn channel_model(
    crate_name: Seq<char>,
    module: Seq<char>,
    imports: Seq<Pair>,
    direction: PortDirection,
    ordinal: int,
    ch: ChannelRecordModel,
) -> ChannelModel {
    ChannelModel {
        id: ch.id,
        direction,
        payload: PortModel {
            name: ch.id,
            direction,
            ordinal: ordinal as usize,
            declared_type: ch.payload,
            serialized_type: qualified_type(ch.payload, false, crate_name, module, imports),
            canonical_type: qualified_type(ch.payload, false, crate_name, module, imports),
        },
        default_route: ch.route,
    }
}

/// The full key a channel set is also found under: crate, module and name.
pub open spec fn set_path(crate_name: Seq<char>, module: Seq<char>, name: Seq<char>) -> Seq<char> {
    replace_all(crate_name + "::"@ + module + "::"@ + name, "::::"@, "::"@)
}

/// Records a channel set declared by `tx_channels!` (the graph's inputs to the
/// bridge) or `rx_channels!` (its outputs), under its name and its full path.
pub open spec fn with_channel_set(
    c: CollectorModel,
    scope: ScopeModel,
    module: Seq<char>,
    imports: Seq<Pair>,
    name: Seq<char>,
    set: Option<ChannelSetModel>,
) -> CollectorModel {
    let direction = if name == "tx_channels"@ {
        Some(PortDirection::Input)
    } else if name == "rx_channels"@ {
        Some(PortDirection::Output)
    } else {
        None
    };
    match (direction, set) {
        (Some(d), Some(cs)) => {
            let chans = Seq::new(
                cs.channels.len(),
                |i: int| channel_model(scope.crate_name, module, imports, d, i, cs.channels[i]),
            );
            CollectorModel {
                channel_sets: keyed_insert(
                    keyed_insert(c.channel_sets, cs.name, chans),
                    set_path(scope.crate_name, module, cs.name),
                    chans,
                ),
                ..c
            }
        },
        _ => c,
    }
}

/// The module a nested module stands for.
pub open spec fn nested_module(module: Seq<char>, name: Seq<char>) -> Seq<char> {
    if module.len() == 0 {
        name
    } else {
        module + "::"@ + name
    }
}

/// What one item adds.
pub open spec fn with_item(
    c: CollectorModel,
    scope: ScopeModel,
    module: Seq<char>,
    imports: Seq<Pair>,
    item: SourceItem,
) -> CollectorModel
    decreases item, 0nat, 0int,
{
    match item {
        SourceItem::Alias { name, target } => with_alias(c, scope, module, imports, name@, target),
        SourceItem::Impl { trait_name, self_type, members } => with_impl(
            c,
            scope,
            module,
            imports,
            trait_name,
            self_type,
            members@,
        ),
        SourceItem::Macro { name, tokens } => with_channel_set(
            c,
            scope,
            module,
            imports,
            name@,
            parsed_channel_set(tokens@),
        ),
        SourceItem::Module { name, items } => match items {
            Some(nested) => collected(c, scope, nested_module(module, name@), nested@),
            None => c,
        },
        _ => c,
    }
}

/// What the first `k` items add.
pub open spec fn with_items(
    c: CollectorModel,
    scope: ScopeModel,
    module: Seq<char>,
    imports: Seq<Pair>,
    items: Seq<SourceItem>,
    k: int,
) -> CollectorModel
    decreases items, 1nat, k,
{
    if k <= 0 || k > items.len() {
        c
    } else {
        with_item(with_items(c, scope, module, imports, items, k - 1), scope, module, imports, items[k - 1])
    }
}

/// What the items of a module add: first the re-exports of its `pub use`
/// items, then each item in turn, nested modules included.
pub open spec fn collected(c: CollectorModel, scope: ScopeModel, module: Seq<char>, items: Seq<SourceItem>) -> CollectorModel
    decreases items, 2nat, 0int,
{
    let with_uses = CollectorModel {
        public_uses: c.public_uses + exported_uses(scope, module, items, items.len() as int),
        ..c
    };
    with_items(with_uses, scope, module, imports_of(items), items, items.len() as int)
}


// ---------------------------------------------------------------------------
// Gathering
// ---------------------------------------------------------------------------

fn copy_pairs(v: &Vec<(String, String)>) -> (r: Vec<(String, String)>)
    ensures
        r.deep_view() == v.deep_view(),
{
    crate::model::clone_pairs(v)
}

/// The names the `use` items bring into scope (see [`imports_of`]), sorted by name.
pub fn collect_imports(items: &Vec<SourceItem>) -> (r: Vec<(String, String)>)
    ensures
        r.deep_view() == imports_of(items@),
        keys_sorted(r.deep_view()),
{
    let mut imports: Vec<(String, String)> = Vec::new();
    let mut k: usize = 0;
    assert(items@.take(0) =~= Seq::<SourceItem>::empty());
    assert(imports.deep_view() =~= Seq::<Pair>::empty());
    while k < items.len()
        invariant
            k <= items@.len(),
            imports.deep_view() == imports_of(items@.take(k as int)),
            keys_sorted(imports.deep_view()),
        decreases items.len() - k,
    {
        assert(items@.take(k + 1).drop_last() =~= items@.take(k as int));
        assert(items@.take(k + 1).last() == items@[k as int]);
        match &items[k] {
            SourceItem::Use { tree, .. } => {
                let entries = flatten_use_tree(tree);
                insert_all_fields(&mut imports, &entries);
            },
            _ => {},
        }
        k = k + 1;
    }
    assert(items@.take(items.len() as int) =~= items@);
    imports
}

fn copy_channel_set(v: &Vec<BridgeChannelDescriptor>) -> (r: Vec<BridgeChannelDescriptor>)
    ensures
        r.deep_view() == v.deep_view(),
{
    crate::model::clone_channel_descriptors(v)
}

impl Collector {
    pub fn new() -> (r: Self)
        ensures
            r.deep_view() == (CollectorModel {
                impls: Seq::empty(),
                aliases: Seq::empty(),
                simple_aliases: Seq::empty(),
                channel_sets: Seq::empty(),
                public_uses: Seq::empty(),
                diagnostics: Seq::empty(),
            }),
    {
        let r = Collector {
            impls: Vec::new(),
            aliases: Vec::new(),
            simple_aliases: Vec::new(),
            channel_sets: Vec::new(),
            public_uses: Vec::new(),
            diagnostics: Vec::new(),
        };
        assert(r.deep_view().impls =~= Seq::<ImplModel>::empty());
        assert(r.deep_view().aliases =~= Seq::<AliasModel>::empty());
        assert(r.deep_view().simple_aliases =~= Seq::<(Seq<char>, Seq<Seq<char>>)>::empty());
        assert(r.deep_view().channel_sets =~= Seq::<(Seq<char>, Seq<ChannelModel>)>::empty());
        assert(r.deep_view().public_uses =~= Seq::<UseModel>::empty());
        assert(r.deep_view().diagnostics =~= Seq::<Seq<char>>::empty());
        r
    }

    /// Records a problem met while reading the sources.
    pub fn add_diagnostic(&mut self, message: String)
        ensures
            final(self).deep_view() == (CollectorModel {
                diagnostics: old(self).deep_view().diagnostics.push(message@),
                ..old(self).deep_view()
            }),
    {
        let ghost before = self.deep_view();
        self.diagnostics.push(message);
        assert(self.deep_view().diagnostics =~= before.diagnostics.push(message@));
    }

    fn add_public_uses(&mut self, scope: &PackageScope, module: &str, items: &Vec<SourceItem>)
        ensures
            final(self).deep_view() == (CollectorModel {
                public_uses: old(self).deep_view().public_uses + exported_uses(scope.deep_view(), module@, items@, items@.len() as int),
                ..old(self).deep_view()
            }),
    {
        let ghost c0 = self.deep_view();
        let mut k: usize = 0;
        assert(c0.public_uses + exported_uses(scope.deep_view(), module@, items@, 0) =~= c0.public_uses);
        while k < items.len()
            invariant
                k <= items@.len(),
                self.deep_view() == (CollectorModel {
                    public_uses: c0.public_uses + exported_uses(scope.deep_view(), module@, items@, k as int),
                    ..c0
                }),
            decreases items.len() - k,
        {
            match &items[k] {
                SourceItem::Use { public, tree } => {
                    if *public {
                        let entries = flatten_use_tree(tree);
                        let mut names: Vec<(String, String)> = Vec::new();
                        assert(names.deep_view() =~= Seq::<Pair>::empty());
                        insert_all_fields(&mut names, &entries);
                        let ghost added = use_records(scope.deep_view(), module@, names.deep_view());
                        let ghost before = self.deep_view().public_uses;
                        let mut j: usize = 0;
                        while j < names.len()
                            invariant
                                j <= names@.len(),
                                added == use_records(scope.deep_view(), module@, names.deep_view()),
                                self.deep_view() == (CollectorModel { public_uses: before + added.take(j as int), ..c0 }),
                            decreases names.len() - j,
                        {
                            let exported = qualify_item(scope.is_app, scope.crate_name.as_str(), module, names[j].0.as_str());
                            let ghost mid = self.deep_view().public_uses;
                            self.public_uses.push(
                                PublicUseRecord {
                                    exported,
                                    target: names[j].1.clone(),
                                    name: names[j].0.clone(),
                                    package: scope.package_name.clone(),
                                },
                            );
                            assert(self.deep_view().public_uses =~= mid.push(added[j as int]));
                            assert(added.take(j + 1) =~= added.take(j as int).push(added[j as int]));
                            assert(before + added.take(j + 1) =~= (before + added.take(j as int)).push(added[j as int]));
                            j = j + 1;
                        }
                        assert(added.take(names.len() as int) =~= added);
                        assert(c0.public_uses + exported_uses(scope.deep_view(), module@, items@, k + 1) =~= before + added);
                    }
                },
                _ => {},
            }
            k = k + 1;
        }
    }

    fn collect_alias(&mut self, scope: &PackageScope, module: &str, imports: &Vec<(String, String)>, name: &String, target: &TypeShape)
        ensures
            final(self).deep_view() == with_alias(old(self).deep_view(), scope.deep_view(), module@, imports.deep_view(), name@, *target),
    {
        let ghost c0 = self.deep_view();
        let qualified = qualify_item(scope.is_app, scope.crate_name.as_str(), module, name.as_str());
        let record = AliasRecord {
            qualified: qualified.clone(),
            target_text: target.text().clone(),
            target_base: target.base_name(),
            target_arguments: target.arguments(),
            imports: copy_pairs(imports),
            source_path: scope.source_path.clone(),
            package: scope.package_name.clone(),
            crate_name: scope.crate_name.clone(),
            module: module.to_owned(),
            workspace_only: scope.workspace_only,
            is_app: scope.is_app,
        };
        assert(record.deep_view() == alias_model(scope.deep_view(), module@, imports.deep_view(), name@, *target));
        match find_simple(&self.simple_aliases, name.as_str()) {
            Some(i) => {
                let ghost e = self.deep_view().simple_aliases;
                let mut list = clone_strings(&self.simple_aliases[i].1);
                let ghost l0 = list.deep_view();
                list.push(qualified.clone());
                assert(list.deep_view() =~= l0.push(qualified@));
                assert(e[i as int].1 == l0);
                self.simple_aliases.set(i, (name.clone(), list));
                assert(self.deep_view().simple_aliases =~= e.update(i as int, (name@, e[i as int].1.push(qualified@))));
            },
            None => {
                let ghost e = self.deep_view().simple_aliases;
                let mut list: Vec<String> = Vec::new();
                list.push(qualified.clone());
                assert(list.deep_view() =~= seq![qualified@]);
                self.simple_aliases.push((name.clone(), list));
                assert(self.deep_view().simple_aliases =~= e.push((name@, seq![qualified@])));
            },
        }
        let ghost av = self.deep_view().aliases;
        match find_alias(&self.aliases, qualified.as_str()) {
            Some(i) => {
                self.aliases.set(i, record);
                assert(self.deep_view().aliases =~= av.update(i as int, record.deep_view()));
            },
            None => {
                self.aliases.push(record);
                assert(self.deep_view().aliases =~= av.push(record.deep_view()));
            },
        }
    }

    fn collect_impl(
        &mut self,
        scope: &PackageScope,
        module: &str,
        imports: &Vec<(String, String)>,
        trait_name: &Option<String>,
        self_type: &TypeShape,
        members: &Vec<ImplMember>,
    )
        ensures
            final(self).deep_view() == with_impl(
                old(self).deep_view(),
                scope.deep_view(),
                module@,
                imports.deep_view(),
                *trait_name,
                *self_type,
                members@,
            ),
    {
        let t = match trait_name {
            Some(t) => t,
            None => return,
        };
        proof {
            reveal_strlit("CuSrcTask");
            reveal_strlit("CuTask");
            reveal_strlit("CuSinkTask");
            reveal_strlit("CuBridge");
            reveal_strlit("CuMonitor");
            reveal_strlit("Input");
            reveal_strlit("Output");
            reveal_strlit("Tx");
            reveal_strlit("Rx");
        }
        if !(str_eq(t.as_str(), "CuSrcTask") || str_eq(t.as_str(), "CuTask") || str_eq(t.as_str(), "CuSinkTask")
            || str_eq(t.as_str(), "CuBridge") || str_eq(t.as_str(), "CuMonitor")) {
            return;
        }
        let mut inputs: Vec<String> = Vec::new();
        let mut outputs: Vec<String> = Vec::new();
        let mut tx_set: Option<String> = None;
        let mut rx_set: Option<String> = None;
        let mut hints: Vec<ConfigHint> = Vec::new();
        let mut k: usize = 0;
        assert(inputs.deep_view() =~= Seq::<Seq<char>>::empty());
        assert(outputs.deep_view() =~= Seq::<Seq<char>>::empty());
        assert(hints.deep_view() =~= Seq::<HintModel>::empty());
        while k < members.len()
            invariant
                k <= members@.len(),
                member_parts(members@, k as int) == (MemberParts {
                    inputs: inputs.deep_view(),
                    outputs: outputs.deep_view(),
                    tx_set: tx_set.deep_view(),
                    rx_set: rx_set.deep_view(),
                    hints: hints.deep_view(),
                }),
            decreases members.len() - k,
        {
            match &members[k] {
                ImplMember::Type { name, ty } => {
                    if str_eq(name.as_str(), "Input") {
                        inputs = extract_message_types(ty);
                    } else if str_eq(name.as_str(), "Output") {
                        outputs = extract_message_types(ty);
                    } else if str_eq(name.as_str(), "Tx") {
                        tx_set = Some(ty.text().clone());
                    } else if str_eq(name.as_str(), "Rx") {
                        rx_set = Some(ty.text().clone());
                    }
                },
                ImplMember::Function { name, calls } => {
                    proof {
                        reveal_strlit("new");
                    }
                    if str_eq(name.as_str(), "new") {
                        let found = hints_of_calls(calls);
                        let ghost before = hints.deep_view();
                        let mut j: usize = 0;
                        while j < found.len()
                            invariant
                                j <= found@.len(),
                                hints.deep_view() == before + found.deep_view().take(j as int),
                            decreases found.len() - j,
                        {
                            let ghost mid = hints.deep_view();
                            hints.push(found[j].clone());
                            assert(hints.deep_view() =~= mid.push(found.deep_view()[j as int]));
                            assert(found.deep_view().take(j + 1) =~= found.deep_view().take(j as int).push(found.deep_view()[j as int]));
                            j = j + 1;
                        }
                        assert(found.deep_view().take(found.len() as int) =~= found.deep_view());
                    }
                },
                ImplMember::Other => {},
            }
            k = k + 1;
        }
        deduplicate_hints(&mut hints);
        let qualified_self = qualify_type(self_type.text().as_str(), scope.is_app, scope.crate_name.as_str(), module, imports);
        let ghost iv = self.deep_view().impls;
        let record = ImplRecord {
            trait_name: t.clone(),
            self_generic: self_type.has_generics(),
            self_base: self_type.base_name(),
            qualified_self,
            inputs,
            outputs,
            tx_set,
            rx_set,
            hints,
            imports: copy_pairs(imports),
            source_path: scope.source_path.clone(),
            package: scope.package_name.clone(),
            crate_name: scope.crate_name.clone(),
            module: module.to_owned(),
            workspace_only: scope.workspace_only,
            is_app: scope.is_app,
        };
        self.impls.push(record);
        assert(self.deep_view().impls =~= iv.push(record.deep_view()));
    }

    fn collect_channel_macro(
        &mut self,
        scope: &PackageScope,
        module: &str,
        imports: &Vec<(String, String)>,
        name: &String,
        tokens: &Vec<TokenTree>,
    )
        ensures
            final(self).deep_view() == with_channel_set(
                old(self).deep_view(),
                scope.deep_view(),
                module@,
                imports.deep_view(),
                name@,
                parsed_channel_set(tokens@),
            ),
    {
        proof {
            reveal_strlit("tx_channels");
            reveal_strlit("rx_channels");
        }
        let direction = if str_eq(name.as_str(), "tx_channels") {
            PortDirection::Input
        } else if str_eq(name.as_str(), "rx_channels") {
            PortDirection::Output
        } else {
            return;
        };
        let set = parse_channel_set(tokens);
        let cs = match &set {
            Some(cs) => cs,
            None => return,
        };
        let ghost d = direction;
        let mut channels: Vec<BridgeChannelDescriptor> = Vec::new();
        let mut i: usize = 0;
        while i < cs.channels.len()
            invariant
                i <= cs.channels@.len(),
                d == direction,
                channels.deep_view() =~= Seq::new(
                    i as nat,
                    |j: int| channel_model(scope.crate_name@, module@, imports.deep_view(), d, j, cs.channels.deep_view()[j]),
                ),
            decreases cs.channels.len() - i,
        {
            let ch = &cs.channels[i];
            assert(cs.channels.deep_view()[i as int] == ch.deep_view());
            let serialized = qualify_type(ch.payload.as_str(), false, scope.crate_name.as_str(), module, imports);
            let ghost before = channels.deep_view();
            let descriptor = BridgeChannelDescriptor {
                id: ch.id.clone(),
                direction,
                payload: PortDescriptor {
                    name: ch.id.clone(),
                    direction,
                    ordinal: i,
                    declared_type: ch.payload.clone(),
                    serialized_type: serialized.clone(),
                    canonical_type: serialized,
                },
                default_route: crate::model::clone_opt(&ch.route),
            };
            channels.push(descriptor);
            assert(channels.deep_view() =~= before.push(descriptor.deep_view()));
            i = i + 1;
        }
        let ghost chans = channels.deep_view();
        // The long key: crate, module and set name, with empty parts squeezed out.
        let mut long: Vec<char> = Vec::new();
        push_str(&mut long, scope.crate_name.as_str());
        push_str(&mut long, "::");
        push_str(&mut long, module);
        push_str(&mut long, "::");
        push_str(&mut long, cs.name.as_str());
        let quad = chars_of("::::");
        let pair = chars_of("::");
        proof {
            reveal_strlit("::::");
        }
        let long_key = string_of(replace_exec(long.as_slice(), quad.as_slice(), pair.as_slice()).as_slice());
        assert(long_key@ == set_path(scope.crate_name@, module@, cs.name@));
        let copy = copy_channel_set(&channels);
        self.insert_channel_set(cs.name.clone(), copy);
        self.insert_channel_set(long_key, channels);
    }

    fn insert_channel_set(&mut self, key: String, channels: Vec<BridgeChannelDescriptor>)
        ensures
            final(self).deep_view() == (CollectorModel {
                channel_sets: keyed_insert(old(self).deep_view().channel_sets, key@, channels.deep_view()),
                ..old(self).deep_view()
            }),
    {
        let ghost e = self.deep_view().channel_sets;
        let ghost cv = channels.deep_view();
        let ghost k = key@;
        match find_set(&self.channel_sets, key.as_str()) {
            Some(i) => {
                self.channel_sets.set(i, (key, channels));
                assert(self.deep_view().channel_sets =~= e.update(i as int, (k, cv)));
            },
            None => {
                self.channel_sets.push((key, channels));
                assert(self.deep_view().channel_sets =~= e.push((k, cv)));
            },
        }
    }

    /// Gathers what the items of a module contribute (see [`collected`]).
    pub fn collect_items(&mut self, scope: &PackageScope, module: &str, items: &Vec<SourceItem>)
        ensures
            final(self).deep_view() == collected(old(self).deep_view(), scope.deep_view(), module@, items@),
        decreases items@, 2nat,
    {
        let imports = collect_imports(items);
        self.add_public_uses(scope, module, items);
        let ghost c1 = self.deep_view();
        let mut k: usize = 0;
        while k < items.len()
            invariant
                k <= items@.len(),
                keys_sorted(imports.deep_view()),
                imports.deep_view() == imports_of(items@),
                self.deep_view() == with_items(c1, scope.deep_view(), module@, imports.deep_view(), items@, k as int),
            decreases items.len() - k,
        {
            proof {
                assert(decreases_to!(items@ => items@[k as int]));
            }
            self.collect_item(scope, module, &imports, &items[k]);
            k = k + 1;
        }
    }

    fn collect_item(&mut self, scope: &PackageScope, module: &str, imports: &Vec<(String, String)>, item: &SourceItem)
        ensures
            final(self).deep_view() == with_item(old(self).deep_view(), scope.deep_view(), module@, imports.deep_view(), *item),
        decreases *item, 0nat,
    {
        match item {
            SourceItem::Alias { name, target } => {
                self.collect_alias(scope, module, imports, name, target);
            },
            SourceItem::Impl { trait_name, self_type, members } => self.collect_impl(
                scope,
                module,
                imports,
                trait_name,
                self_type,
                members,
            ),
            SourceItem::Macro { name, tokens } => self.collect_channel_macro(scope, module, imports, name, tokens),
            SourceItem::Module { name, items } => match items {
                Some(nested) => {
                    let module_chars = chars_of(module);
                    let nested_name = if module_chars.len() == 0 {
                        name.clone()
                    } else {
                        let mut m: Vec<char> = Vec::new();
                        push_str(&mut m, module);
                        push_str(&mut m, "::");
                        push_str(&mut m, name.as_str());
                        string_of(m.as_slice())
                    };
                    proof {
                        assert(decreases_to!(*item => item->Module_items));
                        assert(decreases_to!(item->Module_items => item->Module_items->Some_0));
                        assert(decreases_to!(item->Module_items->Some_0 => item->Module_items->Some_0@));
                    }
                    self.collect_items(scope, nested_name.as_str(), nested);
                },
                None => {},
            },
            _ => {},
        }
    }
}

} // verus!
