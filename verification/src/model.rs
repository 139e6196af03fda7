//! The task graph that the editor shows and writes back to a Copper configuration.
use vstd::prelude::*;

use crate::text::{
    ascii_alnum, ascii_alpha, ascii_upper, chars_of, is_ascii_alnum, is_ascii_alpha,
    is_ascii_upper, is_space, push_all, push_str, replace_all, replace_exec, space, string_of,
    to_ascii_lower, ascii_lower, occurs_at, replaced_from,
};

verus! {

/// The endpoint name a connection uses when its output is left unconnected.
pub const NC_ENDPOINT: &'static str = "__nc__";

#[derive(Debug, Clone, Copy, PartialEq, Eq, Hash, Structural)]
pub enum ComponentKind {
    Source,
    Task,
    Sink,
    Bridge,
    Monitor,
    Unresolved,
}

pub open spec fn kind_label(kind: ComponentKind) -> Seq<char> {
    match kind {
        ComponentKind::Source => "Source"@,
        ComponentKind::Task => "Task"@,
        ComponentKind::Sink => "Sink"@,
        ComponentKind::Bridge => "Bridge"@,
        ComponentKind::Monitor => "Monitor"@,
        ComponentKind::Unresolved => "Unresolved"@,
    }
}

/// The `kind:` a task entry of the configuration carries, for the kinds that have one.
pub open spec fn task_kind_name(kind: ComponentKind) -> Option<Seq<char>> {
    match kind {
        ComponentKind::Source => Some("source"@),
        ComponentKind::Task => Some("task"@),
        ComponentKind::Sink => Some("sink"@),
        _ => None,
    }
}

impl ComponentKind {
    pub fn label(self) -> (r: &'static str)
        ensures
            r@ == kind_label(self),
    {
        match self {
            ComponentKind::Source => "Source",
            ComponentKind::Task => "Task",
            ComponentKind::Sink => "Sink",
            ComponentKind::Bridge => "Bridge",
            ComponentKind::Monitor => "Monitor",
            ComponentKind::Unresolved => "Unresolved",
        }
    }

    pub fn ron_task_kind(self) -> (r: Option<&'static str>)
        ensures
            r matches Some(s) ==> task_kind_name(self) == Some(s@),
            r is None ==> task_kind_name(self) is None,
    {
        match self {
            ComponentKind::Source => Some("source"),
            ComponentKind::Task => Some("task"),
            ComponentKind::Sink => Some("sink"),
            _ => None,
        }
    }
}

impl DeepView for ComponentKind {
    type V = ComponentKind;

    open spec fn deep_view(&self) -> ComponentKind {
        *self
    }
}

#[derive(Debug, Clone, Copy, PartialEq, Eq, Hash, Structural)]
pub enum PortDirection {
    Input,
    Output,
}

impl DeepView for PortDirection {
    type V = PortDirection;

    open spec fn deep_view(&self) -> PortDirection {
        *self
    }
}

#[derive(Debug)]
pub struct PortDescriptor {
    pub name: String,
    pub direction: PortDirection,
    pub ordinal: usize,
    pub declared_type: String,
    pub serialized_type: String,
    pub canonical_type: String,
}

/// `value` without whitespace and `&`.
pub open spec fn without_space_and_refs(value: Seq<char>) -> Seq<char>
    decreases value.len(),
{
    if value.len() == 0 {
        value
    } else {
        let rest = without_space_and_refs(value.drop_last());
        let c = value.last();
        if !is_space(c) && c != '&' {
            rest.push(c)
        } else {
            rest
        }
    }
}

/// A character that survives [`without_space_and_refs`].
pub open spec fn kept_in_types(c: char) -> bool {
    !is_space(c) && c != '&'
}

proof fn lemma_filter_append(a: Seq<char>, b: Seq<char>)
    ensures
        without_space_and_refs(a + b) == without_space_and_refs(a) + without_space_and_refs(b),
    decreases b.len(),
{
    if b.len() == 0 {
        assert(a + b =~= a);
        assert(without_space_and_refs(a) + without_space_and_refs(b) =~= without_space_and_refs(a));
    } else {
        lemma_filter_append(a, b.drop_last());
        assert((a + b).drop_last() =~= a + b.drop_last());
        assert((a + b).last() == b.last());
        let fa = without_space_and_refs(a);
        let fb = without_space_and_refs(b.drop_last());
        assert((fa + fb).push(b.last()) =~= fa + fb.push(b.last()));
    }
}

proof fn lemma_filter_drops_all(w: Seq<char>)
    requires
        forall|i: int| 0 <= i < w.len() ==> !kept_in_types(#[trigger] w[i]),
    ensures
        without_space_and_refs(w) == Seq::<char>::empty(),
    decreases w.len(),
{
    if w.len() > 0 {
        assert(!kept_in_types(w[w.len() - 1]));
        lemma_filter_drops_all(w.drop_last());
    }
}

proof fn lemma_filter_keeps_only_kept(v: Seq<char>)
    ensures
        forall|i: int| 0 <= i < without_space_and_refs(v).len() ==> kept_in_types(#[trigger] without_space_and_refs(v)[i]),
    decreases v.len(),
{
    if v.len() > 0 {
        lemma_filter_keeps_only_kept(v.drop_last());
        let rest = without_space_and_refs(v.drop_last());
        let r = without_space_and_refs(v);
        assert forall|i: int| 0 <= i < r.len() implies kept_in_types(#[trigger] r[i]) by {
            if i < rest.len() {
                assert(r[i] == rest[i]);
            }
        }
    }
}

proof fn lemma_removal_keeps_only_kept(s: Seq<char>, pat: Seq<char>, i: int)
    requires
        forall|k: int| 0 <= k < s.len() ==> kept_in_types(#[trigger] s[k]),
    ensures
        forall|k: int| 0 <= k < replaced_from(s, pat, Seq::empty(), i).len()
            ==> kept_in_types(#[trigger] replaced_from(s, pat, Seq::empty(), i)[k]),
    decreases s.len() - i,
{
    if i < 0 || i >= s.len() {
    } else if pat.len() > 0 && occurs_at(s, i, pat) {
        lemma_removal_keeps_only_kept(s, pat, i + pat.len());
        assert(Seq::<char>::empty() + replaced_from(s, pat, Seq::empty(), i + pat.len())
            =~= replaced_from(s, pat, Seq::empty(), i + pat.len()));
    } else {
        lemma_removal_keeps_only_kept(s, pat, i + 1);
        let rest = replaced_from(s, pat, Seq::empty(), i + 1);
        assert forall|k: int| 0 <= k < (seq![s[i]] + rest).len() implies kept_in_types(#[trigger] (seq![s[i]] + rest)[k]) by {
            if k > 0 {
                assert((seq![s[i]] + rest)[k] == rest[k - 1]);
            }
        }
    }
}

/// Whitespace and `&` inserted anywhere into a type name leave the form in
/// which it is compared unchanged, and that form holds neither.
pub proof fn lemma_normalized_ignores_spaces_and_refs(p: Seq<char>, w: Seq<char>, q: Seq<char>)
    requires
        forall|i: int| 0 <= i < w.len() ==> !kept_in_types(#[trigger] w[i]),
    ensures
        normalized_type(p + w + q) == normalized_type(p + q),
        forall|i: int| 0 <= i < normalized_type(p + q).len() ==> kept_in_types(#[trigger] normalized_type(p + q)[i]),
{
    lemma_filter_append(p + w, q);
    lemma_filter_append(p, w);
    lemma_filter_append(p, q);
    lemma_filter_drops_all(w);
    assert(without_space_and_refs(p) + Seq::<char>::empty() =~= without_space_and_refs(p));
    assert(without_space_and_refs(p + w + q) == without_space_and_refs(p + q));
    let f = without_space_and_refs(p + q);
    lemma_filter_keeps_only_kept(p + q);
    lemma_removal_keeps_only_kept(f, "'m,"@, 0);
    let a = replace_all(f, "'m,"@, Seq::empty());
    lemma_removal_keeps_only_kept(a, "'_,"@, 0);
    let b = replace_all(a, "'_,"@, Seq::empty());
    lemma_removal_keeps_only_kept(b, "crate::"@, 0);
}

/// The form in which two type names are compared: whitespace and `&` dropped,
/// then the lifetime parameters `'m,` and `'_,` and the prefix `crate::` removed.
pub open spec fn normalized_type(value: Seq<char>) -> Seq<char> {
    replace_all(
        replace_all(
            replace_all(without_space_and_refs(value), "'m,"@, Seq::empty()),
            "'_,"@,
            Seq::empty(),
        ),
        "crate::"@,
        Seq::empty(),
    )
}

/// Two ports can be connected: opposite directions and the same normalized canonical type.
pub open spec fn ports_compatible(a: PortModel, b: PortModel) -> bool {
    a.direction != b.direction && normalized_type(a.canonical_type) == normalized_type(
        b.canonical_type,
    )
}

impl PortDescriptor {
    pub fn compatible_with(&self, other: &Self) -> (r: bool)
        ensures
            r == ports_compatible(self.deep_view(), other.deep_view()),
    {
        if self.direction == other.direction {
            return false;
        }
        let a = normalize_chars(self.canonical_type.as_str());
        let b = normalize_chars(other.canonical_type.as_str());
        crate::text::chars_eq(a.as_slice(), b.as_slice())
    }
}

/// Whether two ports are compatible does not depend on their order.
pub proof fn lemma_compatibility_symmetric(a: PortModel, b: PortModel)
    ensures
        ports_compatible(a, b) == ports_compatible(b, a),
{
}

fn normalize_chars(value: &str) -> (r: Vec<char>)
    ensures
        r@ == normalized_type(value@),
{
    let chars = chars_of(value);
    let mut kept: Vec<char> = Vec::new();
    let mut i: usize = 0;
    while i < chars.len()
        invariant
            i <= chars.len(),
            kept@ == without_space_and_refs(chars@.take(i as int)),
        decreases chars.len() - i,
    {
        let c = chars[i];
        let ghost before = chars@.take(i as int);
        let ghost after = chars@.take(i + 1);
        proof {
            assert(after.drop_last() =~= before);
            assert(after.last() == c);
            assert(without_space_and_refs(after) == if !is_space(c) && c != '&' {
                without_space_and_refs(before).push(c)
            } else {
                without_space_and_refs(before)
            });
        }
        if !space(c) && c != '&' {
            kept.push(c);
        }
        i = i + 1;
    }
    assert(chars@.take(chars.len() as int) =~= chars@);
    let p1 = chars_of("'m,");
    let p2 = chars_of("'_,");
    let p3 = chars_of("crate::");
    proof {
        reveal_strlit("'m,");
        reveal_strlit("'_,");
        reveal_strlit("crate::");
    }
    let empty: Vec<char> = Vec::new();
    let a = replace_exec(kept.as_slice(), p1.as_slice(), empty.as_slice());
    let b = replace_exec(a.as_slice(), p2.as_slice(), empty.as_slice());
    let c = replace_exec(b.as_slice(), p3.as_slice(), empty.as_slice());
    assert(empty@ =~= Seq::<char>::empty());
    c
}

/// The form in which type names are compared (see [`normalized_type`]).
/// The result holds no whitespace and no `&`; inserting either anywhere into
/// `value` leaves it unchanged (see [`lemma_normalized_ignores_spaces_and_refs`]).
pub fn normalize_type(value: &str) -> (r: String)
    ensures
        r@ == normalized_type(value@),
        forall|i: int| 0 <= i < r@.len() ==> kept_in_types(#[trigger] r@[i]),
{
    let v = normalize_chars(value);
    proof {
        lemma_normalized_ignores_spaces_and_refs(value@, Seq::empty(), Seq::empty());
        assert(value@ + Seq::<char>::empty() =~= value@);
    }
    string_of(v.as_slice())
}

/// A Rust identifier: a letter or `_`, then letters, digits and `_`.
pub open spec fn rust_identifier(value: Seq<char>) -> bool {
    &&& value.len() > 0
    &&& (value[0] == '_' || is_ascii_alpha(value[0]))
    &&& forall|i: int| 1 <= i < value.len() ==> value[i] == '_' || is_ascii_alnum(#[trigger] value[i])
}

pub fn is_rust_identifier(value: &str) -> (r: bool)
    ensures
        r == rust_identifier(value@),
{
    let chars = chars_of(value);
    is_identifier_chars(chars.as_slice())
}

pub fn is_identifier_chars(chars: &[char]) -> (r: bool)
    ensures
        r == rust_identifier(chars@),
{
    if chars.len() == 0 {
        return false;
    }
    if !(chars[0] == '_' || ascii_alpha(chars[0])) {
        return false;
    }
    let mut i: usize = 1;
    while i < chars.len()
        invariant
            1 <= i <= chars.len(),
            forall|j: int| 1 <= j < i ==> chars@[j] == '_' || is_ascii_alnum(#[trigger] chars@[j]),
        decreases chars.len() - i,
    {
        if !(chars[i] == '_' || ascii_alnum(chars[i])) {
            return false;
        }
        i = i + 1;
    }
    true
}

// ---------------------------------------------------------------------------
// Snake case
// ---------------------------------------------------------------------------

/// One step of turning a display name into snake case: `out` so far, the
/// index of the character and the character.
pub open spec fn snake_step(out: Seq<char>, index: int, c: char) -> Seq<char> {
    let ends_in_underscore = out.len() > 0 && out.last() == '_';
    if is_ascii_upper(c) {
        if index > 0 && !ends_in_underscore {
            out.push('_').push(ascii_lower(c))
        } else {
            out.push(ascii_lower(c))
        }
    } else if is_ascii_alnum(c) || c == '_' {
        out.push(ascii_lower(c))
    } else if !ends_in_underscore {
        out.push('_')
    } else {
        out
    }
}

/// The result of the steps over the first `n` characters.
pub open spec fn snake_prefix(value: Seq<char>, n: int) -> Seq<char>
    decreases n,
{
    if n <= 0 {
        Seq::empty()
    } else {
        snake_step(snake_prefix(value, n - 1), n - 1, value[n - 1])
    }
}

/// The number of leading `_` in `s` from index `i` on.
pub open spec fn lead_underscores(s: Seq<char>, i: int) -> int
    decreases s.len() - i,
{
    if i < 0 || i >= s.len() || s[i] != '_' {
        i
    } else {
        lead_underscores(s, i + 1)
    }
}

/// The end of `s[..j]` once trailing `_` are removed.
pub open spec fn back_underscores(s: Seq<char>, j: int) -> int
    decreases j,
{
    if j <= 0 || j > s.len() || s[j - 1] != '_' {
        j
    } else {
        back_underscores(s, j - 1)
    }
}

/// `str::trim_matches('_')`.
pub open spec fn trim_underscores(s: Seq<char>) -> Seq<char> {
    let a = lead_underscores(s, 0);
    let b = back_underscores(s, s.len() as int);
    if a < b {
        s.subrange(a, b)
    } else {
        Seq::empty()
    }
}

/// Snake case of a display name: upper-case letters start a new word, other
/// characters that are neither alphanumeric nor `_` become a single `_`, and
/// leading and trailing `_` are dropped.
pub open spec fn snake_case(value: Seq<char>) -> Seq<char> {
    trim_underscores(snake_prefix(value, value.len() as int))
}

proof fn lemma_lead_underscores(s: Seq<char>, i: int)
    requires
        0 <= i <= s.len(),
    ensures
        i <= lead_underscores(s, i) <= s.len(),
        forall|k: int| i <= k < lead_underscores(s, i) ==> s[k] == '_',
        lead_underscores(s, i) < s.len() ==> s[lead_underscores(s, i)] != '_',
    decreases s.len() - i,
{
    if i < s.len() && s[i] == '_' {
        lemma_lead_underscores(s, i + 1);
    }
}

proof fn lemma_back_underscores(s: Seq<char>, j: int)
    requires
        0 <= j <= s.len(),
    ensures
        0 <= back_underscores(s, j) <= j,
        forall|k: int| back_underscores(s, j) <= k < j ==> s[k] == '_',
        back_underscores(s, j) > 0 ==> s[back_underscores(s, j) - 1] != '_',
    decreases j,
{
    if j > 0 && s[j - 1] == '_' {
        lemma_back_underscores(s, j - 1);
    }
}

fn trim_underscores_exec(s: &[char]) -> (r: Vec<char>)
    ensures
        r@ == trim_underscores(s@),
{
    let mut a: usize = 0;
    while a < s.len() && s[a] == '_'
        invariant
            a <= s.len(),
            lead_underscores(s@, a as int) == lead_underscores(s@, 0),
        decreases s.len() - a,
    {
        a = a + 1;
    }
    let mut b: usize = s.len();
    while b > a && s[b - 1] == '_'
        invariant
            a <= b <= s.len(),
            back_underscores(s@, b as int) == back_underscores(s@, s.len() as int),
        decreases b,
    {
        b = b - 1;
    }
    proof {
        lemma_lead_underscores(s@, 0);
        lemma_back_underscores(s@, b as int);
        lemma_back_underscores(s@, s.len() as int);
    }
    let mut out: Vec<char> = Vec::new();
    crate::text::push_range(&mut out, s, a, b);
    proof {
        if a < b {
            assert(out@ =~= s@.subrange(a as int, b as int));
        } else {
            assert(out@ =~= Seq::<char>::empty());
        }
    }
    out
}

pub fn to_snake_case(value: &str) -> (r: String)
    ensures
        r@ == snake_case(value@),
{
    let chars = chars_of(value);
    let mut out: Vec<char> = Vec::new();
    let mut index: usize = 0;
    while index < chars.len()
        invariant
            index <= chars.len(),
            out@ == snake_prefix(chars@, index as int),
        decreases chars.len() - index,
    {
        let c = chars[index];
        let ends = out.len() > 0 && out[out.len() - 1] == '_';
        if ascii_upper(c) {
            if index > 0 && !ends {
                out.push('_');
            }
            out.push(to_ascii_lower(c));
        } else if ascii_alnum(c) || c == '_' {
            out.push(to_ascii_lower(c));
        } else if !ends {
            out.push('_');
        }
        index = index + 1;
    }
    let trimmed = trim_underscores_exec(out.as_slice());
    string_of(trimmed.as_slice())
}


// ---------------------------------------------------------------------------
// Mathematical models of the graph types: every string by its characters.
// ---------------------------------------------------------------------------

pub struct PortModel {
    pub name: Seq<char>,
    pub direction: PortDirection,
    pub ordinal: usize,
    pub declared_type: Seq<char>,
    pub serialized_type: Seq<char>,
    pub canonical_type: Seq<char>,
}

impl DeepView for PortDescriptor {
    type V = PortModel;

    open spec fn deep_view(&self) -> PortModel {
        PortModel {
            name: self.name@,
            direction: self.direction,
            ordinal: self.ordinal,
            declared_type: self.declared_type@,
            serialized_type: self.serialized_type@,
            canonical_type: self.canonical_type@,
        }
    }
}

impl Clone for PortDescriptor {
    fn clone(&self) -> (r: Self)
        ensures
            r.deep_view() == self.deep_view(),
    {
        PortDescriptor {
            name: self.name.clone(),
            direction: self.direction,
            ordinal: self.ordinal,
            declared_type: self.declared_type.clone(),
            serialized_type: self.serialized_type.clone(),
            canonical_type: self.canonical_type.clone(),
        }
    }
}

/// A copy of an optional string.
pub fn clone_opt(s: &Option<String>) -> (r: Option<String>)
    ensures
        r == *s,
        r.deep_view() == s.deep_view(),
{
    match s {
        Some(v) => Some(v.clone()),
        None => None,
    }
}

/// A copy of a vector of ports.
pub fn clone_ports(v: &Vec<PortDescriptor>) -> (r: Vec<PortDescriptor>)
    ensures
        r.deep_view() == v.deep_view(),
{
    let mut out: Vec<PortDescriptor> = Vec::new();
    let mut i: usize = 0;
    while i < v.len()
        invariant
            i <= v.len(),
            out@.len() == i,
            forall|j: int| 0 <= j < i ==> (#[trigger] out@[j]).deep_view() == v@[j].deep_view(),
        decreases v.len() - i,
    {
        let item = v[i].clone();
        out.push(item);
        i = i + 1;
    }
    assert(out.deep_view() =~= v.deep_view());
    out
}

/// A copy of a vector of key/value pairs.
pub fn clone_pairs(v: &Vec<(String, String)>) -> (r: Vec<(String, String)>)
    ensures
        r.deep_view() == v.deep_view(),
{
    let mut out: Vec<(String, String)> = Vec::new();
    let mut i: usize = 0;
    while i < v.len()
        invariant
            i <= v.len(),
            out@.len() == i,
            forall|j: int| 0 <= j < i ==> (#[trigger] out@[j]).deep_view() == v@[j].deep_view(),
        decreases v.len() - i,
    {
        out.push((v[i].0.clone(), v[i].1.clone()));
        i = i + 1;
    }
    assert(out.deep_view() =~= v.deep_view());
    out
}

#[derive(Debug)]
pub struct BridgeChannelDescriptor {
    pub id: String,
    pub direction: PortDirection,
    pub payload: PortDescriptor,
    pub default_route: Option<String>,
}

pub struct ChannelModel {
    pub id: Seq<char>,
    pub direction: PortDirection,
    pub payload: PortModel,
    pub default_route: Option<Seq<char>>,
}

impl DeepView for BridgeChannelDescriptor {
    type V = ChannelModel;

    open spec fn deep_view(&self) -> ChannelModel {
        ChannelModel {
            id: self.id@,
            direction: self.direction,
            payload: self.payload.deep_view(),
            default_route: self.default_route.deep_view(),
        }
    }
}

impl Clone for BridgeChannelDescriptor {
    fn clone(&self) -> (r: Self)
        ensures
            r.deep_view() == self.deep_view(),
    {
        BridgeChannelDescriptor {
            id: self.id.clone(),
            direction: self.direction,
            payload: self.payload.clone(),
            default_route: clone_opt(&self.default_route),
        }
    }
}

#[derive(Debug)]
pub struct ConfigHint {
    pub key: String,
    pub rust_type: Option<String>,
    pub default_ron: Option<String>,
    pub documentation: Option<String>,
}

pub struct HintModel {
    pub key: Seq<char>,
    pub rust_type: Option<Seq<char>>,
    pub default_ron: Option<Seq<char>>,
    pub documentation: Option<Seq<char>>,
}

impl DeepView for ConfigHint {
    type V = HintModel;

    open spec fn deep_view(&self) -> HintModel {
        HintModel {
            key: self.key@,
            rust_type: self.rust_type.deep_view(),
            default_ron: self.default_ron.deep_view(),
            documentation: self.documentation.deep_view(),
        }
    }
}

impl Clone for ConfigHint {
    fn clone(&self) -> (r: Self)
        ensures
            r.deep_view() == self.deep_view(),
    {
        ConfigHint {
            key: self.key.clone(),
            rust_type: clone_opt(&self.rust_type),
            default_ron: clone_opt(&self.default_ron),
            documentation: clone_opt(&self.documentation),
        }
    }
}

#[derive(Debug)]
pub struct ComponentDescriptor {
    pub type_path: String,
    pub display_name: String,
    pub package: String,
    pub kind: ComponentKind,
    pub inputs: Vec<PortDescriptor>,
    pub outputs: Vec<PortDescriptor>,
    pub channels: Vec<BridgeChannelDescriptor>,
    pub config_hints: Vec<ConfigHint>,
    pub workspace_only: bool,
    pub source_path: Option<String>,
}

pub struct ComponentModel {
    pub type_path: Seq<char>,
    pub display_name: Seq<char>,
    pub package: Seq<char>,
    pub kind: ComponentKind,
    pub inputs: Seq<PortModel>,
    pub outputs: Seq<PortModel>,
    pub channels: Seq<ChannelModel>,
    pub config_hints: Seq<HintModel>,
    pub workspace_only: bool,
    pub source_path: Option<Seq<char>>,
}

impl DeepView for ComponentDescriptor {
    type V = ComponentModel;

    open spec fn deep_view(&self) -> ComponentModel {
        ComponentModel {
            type_path: self.type_path@,
            display_name: self.display_name@,
            package: self.package@,
            kind: self.kind,
            inputs: self.inputs.deep_view(),
            outputs: self.outputs.deep_view(),
            channels: self.channels.deep_view(),
            config_hints: self.config_hints.deep_view(),
            workspace_only: self.workspace_only,
            source_path: self.source_path.deep_view(),
        }
    }
}

/// A copy of a vector of channel descriptors.
pub fn clone_channel_descriptors(v: &Vec<BridgeChannelDescriptor>) -> (r: Vec<BridgeChannelDescriptor>)
    ensures
        r.deep_view() == v.deep_view(),
{
    let mut out: Vec<BridgeChannelDescriptor> = Vec::new();
    let mut i: usize = 0;
    while i < v.len()
        invariant
            i <= v.len(),
            out@.len() == i,
            forall|j: int| 0 <= j < i ==> (#[trigger] out@[j]).deep_view() == v@[j].deep_view(),
        decreases v.len() - i,
    {
        let item = v[i].clone();
        out.push(item);
        i = i + 1;
    }
    assert(out.deep_view() =~= v.deep_view());
    out
}

/// A copy of a vector of configuration hints.
pub fn clone_hints(v: &Vec<ConfigHint>) -> (r: Vec<ConfigHint>)
    ensures
        r.deep_view() == v.deep_view(),
{
    let mut out: Vec<ConfigHint> = Vec::new();
    let mut i: usize = 0;
    while i < v.len()
        invariant
            i <= v.len(),
            out@.len() == i,
            forall|j: int| 0 <= j < i ==> (#[trigger] out@[j]).deep_view() == v@[j].deep_view(),
        decreases v.len() - i,
    {
        let item = v[i].clone();
        out.push(item);
        i = i + 1;
    }
    assert(out.deep_view() =~= v.deep_view());
    out
}

impl Clone for ComponentDescriptor {
    fn clone(&self) -> (r: Self)
        ensures
            r.deep_view() == self.deep_view(),
    {
        ComponentDescriptor {
            type_path: self.type_path.clone(),
            display_name: self.display_name.clone(),
            package: self.package.clone(),
            kind: self.kind,
            inputs: clone_ports(&self.inputs),
            outputs: clone_ports(&self.outputs),
            channels: clone_channel_descriptors(&self.channels),
            config_hints: clone_hints(&self.config_hints),
            workspace_only: self.workspace_only,
            source_path: clone_opt(&self.source_path),
        }
    }
}

/// Free-form configuration values, each held as RON text, sorted by key: a
/// vector of pairs kept in the order a `BTreeMap` would walk them.
#[derive(Debug)]
pub struct EditableConfig(pub Vec<(String, String)>);

impl DeepView for EditableConfig {
    type V = Seq<(Seq<char>, Seq<char>)>;

    open spec fn deep_view(&self) -> Seq<(Seq<char>, Seq<char>)> {
        self.0.deep_view()
    }
}

impl EditableConfig {
    pub fn new() -> (r: Self)
        ensures
            r.0@.len() == 0,
            r.deep_view().len() == 0,
    {
        EditableConfig(Vec::new())
    }
}

impl Clone for EditableConfig {
    fn clone(&self) -> (r: Self)
        ensures
            r.deep_view() == self.deep_view(),
    {
        EditableConfig(clone_pairs(&self.0))
    }
}

#[derive(Debug)]
pub struct BridgeChannelInstance {
    pub id: String,
    pub direction: PortDirection,
    pub route: Option<String>,
    pub config: EditableConfig,
    pub enabled: bool,
}

pub struct InstanceModel {
    pub id: Seq<char>,
    pub direction: PortDirection,
    pub route: Option<Seq<char>>,
    pub config: Seq<(Seq<char>, Seq<char>)>,
    pub enabled: bool,
}

impl DeepView for BridgeChannelInstance {
    type V = InstanceModel;

    open spec fn deep_view(&self) -> InstanceModel {
        InstanceModel {
            id: self.id@,
            direction: self.direction,
            route: self.route.deep_view(),
            config: self.config.deep_view(),
            enabled: self.enabled,
        }
    }
}

impl Clone for BridgeChannelInstance {
    fn clone(&self) -> (r: Self)
        ensures
            r.deep_view() == self.deep_view(),
    {
        BridgeChannelInstance {
            id: self.id.clone(),
            direction: self.direction,
            route: clone_opt(&self.route),
            config: self.config.clone(),
            enabled: self.enabled,
        }
    }
}

/// A copy of a vector of channel instances.
pub fn clone_channel_instances(v: &Vec<BridgeChannelInstance>) -> (r: Vec<BridgeChannelInstance>)
    ensures
        r.deep_view() == v.deep_view(),
{
    let mut out: Vec<BridgeChannelInstance> = Vec::new();
    let mut i: usize = 0;
    while i < v.len()
        invariant
            i <= v.len(),
            out@.len() == i,
            forall|j: int| 0 <= j < i ==> (#[trigger] out@[j]).deep_view() == v@[j].deep_view(),
        decreases v.len() - i,
    {
        let item = v[i].clone();
        out.push(item);
        i = i + 1;
    }
    assert(out.deep_view() =~= v.deep_view());
    out
}

#[derive(Debug)]
pub struct GraphNode {
    pub id: String,
    pub component_type: String,
    pub kind: ComponentKind,
    pub inputs: Vec<PortDescriptor>,
    pub outputs: Vec<PortDescriptor>,
    pub config: EditableConfig,
    pub channels: Vec<BridgeChannelInstance>,
    pub background: Option<bool>,
    pub run_in_sim: Option<bool>,
    pub logging_enabled: Option<bool>,
    pub pending_workspace_dependency: Option<String>,
    pub unresolved: bool,
    pub extra_fields: Vec<(String, String)>,
}

pub struct NodeModel {
    pub id: Seq<char>,
    pub component_type: Seq<char>,
    pub kind: ComponentKind,
    pub inputs: Seq<PortModel>,
    pub outputs: Seq<PortModel>,
    pub config: Seq<(Seq<char>, Seq<char>)>,
    pub channels: Seq<InstanceModel>,
    pub background: Option<bool>,
    pub run_in_sim: Option<bool>,
    pub logging_enabled: Option<bool>,
    pub pending_workspace_dependency: Option<Seq<char>>,
    pub unresolved: bool,
    pub extra_fields: Seq<(Seq<char>, Seq<char>)>,
}

impl DeepView for GraphNode {
    type V = NodeModel;

    open spec fn deep_view(&self) -> NodeModel {
        NodeModel {
            id: self.id@,
            component_type: self.component_type@,
            kind: self.kind,
            inputs: self.inputs.deep_view(),
            outputs: self.outputs.deep_view(),
            config: self.config.deep_view(),
            channels: self.channels.deep_view(),
            background: self.background,
            run_in_sim: self.run_in_sim,
            logging_enabled: self.logging_enabled,
            pending_workspace_dependency: self.pending_workspace_dependency.deep_view(),
            unresolved: self.unresolved,
            extra_fields: self.extra_fields.deep_view(),
        }
    }
}

impl Clone for GraphNode {
    fn clone(&self) -> (r: Self)
        ensures
            r.deep_view() == self.deep_view(),
    {
        GraphNode {
            id: self.id.clone(),
            component_type: self.component_type.clone(),
            kind: self.kind,
            inputs: clone_ports(&self.inputs),
            outputs: clone_ports(&self.outputs),
            config: self.config.clone(),
            channels: clone_channel_instances(&self.channels),
            background: self.background,
            run_in_sim: self.run_in_sim,
            logging_enabled: self.logging_enabled,
            pending_workspace_dependency: clone_opt(&self.pending_workspace_dependency),
            unresolved: self.unresolved,
            extra_fields: clone_pairs(&self.extra_fields),
        }
    }
}

/// The channel instances a node starts with: one per discovered channel, on its
/// default route, enabled and without configuration.
pub open spec fn default_instances(channels: Seq<ChannelModel>, instances: Seq<InstanceModel>) -> bool {
    &&& instances.len() == channels.len()
    &&& forall|i: int| 0 <= i < channels.len() ==> {
        let c = #[trigger] channels[i];
        let n = instances[i];
        &&& n.id == c.id
        &&& n.direction == c.direction
        &&& n.route == c.default_route
        &&& n.config.len() == 0
        &&& n.enabled
    }
}

/// The instance a discovered channel starts as: on its default route,
/// enabled and without configuration.
pub open spec fn default_instance(c: ChannelModel) -> InstanceModel {
    InstanceModel { id: c.id, direction: c.direction, route: c.default_route, config: Seq::empty(), enabled: true }
}

/// The node a component becomes under `id`: its type, kind and ports, an
/// instance per discovered channel (see [`default_instance`]), no
/// configuration, flags or extra fields, and the package it needs from the
/// workspace where it is available only there.
pub open spec fn component_node(c: ComponentModel, id: Seq<char>) -> NodeModel {
    NodeModel {
        id,
        component_type: c.type_path,
        kind: c.kind,
        inputs: c.inputs,
        outputs: c.outputs,
        config: Seq::empty(),
        channels: c.channels.map_values(|ch: ChannelModel| default_instance(ch)),
        background: None,
        run_in_sim: None,
        logging_enabled: None,
        pending_workspace_dependency: if c.workspace_only { Some(c.package) } else { None },
        unresolved: false,
        extra_fields: Seq::empty(),
    }
}

impl GraphNode {
    pub fn from_component(component: &ComponentDescriptor, id: String) -> (r: Self)
        ensures
            r.deep_view() == component_node(component.deep_view(), id@),
            r.id == id,
            r.component_type@ == component.type_path@,
            r.kind == component.kind,
            r.inputs.deep_view() == component.inputs.deep_view(),
            r.outputs.deep_view() == component.outputs.deep_view(),
            r.config.deep_view().len() == 0,
            default_instances(component.channels.deep_view(), r.channels.deep_view()),
            r.background is None,
            r.run_in_sim is None,
            r.logging_enabled is None,
            r.pending_workspace_dependency.deep_view() == (if component.workspace_only {
                Some(component.package@)
            } else {
                None
            }),
            !r.unresolved,
            r.extra_fields.deep_view().len() == 0,
    {
        let mut channels: Vec<BridgeChannelInstance> = Vec::new();
        let mut i: usize = 0;
        while i < component.channels.len()
            invariant
                i <= component.channels.len(),
                default_instances(component.channels.deep_view().take(i as int), channels.deep_view()),
            decreases component.channels.len() - i,
        {
            let channel = &component.channels[i];
            channels.push(
                BridgeChannelInstance {
                    id: channel.id.clone(),
                    direction: channel.direction,
                    route: clone_opt(&channel.default_route),
                    config: EditableConfig::new(),
                    enabled: true,
                },
            );
            i = i + 1;
            assert forall|j: int| 0 <= j < i implies #[trigger] component.channels.deep_view().take(
                i as int,
            )[j] == component.channels.deep_view()[j] by {}
        }
        assert(component.channels.deep_view().take(component.channels.len() as int)
            =~= component.channels.deep_view());
        let extra_fields: Vec<(String, String)> = Vec::new();
        assert(extra_fields.deep_view().len() == 0);
        let r = GraphNode {
            id,
            component_type: component.type_path.clone(),
            kind: component.kind,
            inputs: clone_ports(&component.inputs),
            outputs: clone_ports(&component.outputs),
            config: EditableConfig::new(),
            channels,
            background: None,
            run_in_sim: None,
            logging_enabled: None,
            pending_workspace_dependency: if component.workspace_only {
                Some(component.package.clone())
            } else {
                None
            },
            unresolved: false,
            extra_fields,
        };
        proof {
            let cv = component.deep_view();
            assert(r.channels.deep_view() =~= cv.channels.map_values(|ch: ChannelModel| default_instance(ch))) by {
                assert forall|j: int| 0 <= j < cv.channels.len() implies r.channels.deep_view()[j]
                    == default_instance(cv.channels[j]) by {
                    let c = cv.channels[j];
                    let n = r.channels.deep_view()[j];
                    assert(n.config =~= Seq::<(Seq<char>, Seq<char>)>::empty());
                }
            }
            assert(r.config.deep_view() =~= Seq::<(Seq<char>, Seq<char>)>::empty());
            assert(r.extra_fields.deep_view() =~= Seq::<(Seq<char>, Seq<char>)>::empty());
        }
        r
    }
}

#[derive(Debug)]
pub struct GraphEdge {
    pub source: usize,
    pub source_port: usize,
    pub target: usize,
    pub target_port: usize,
    pub message_type: String,
    pub extra_fields: Vec<(String, String)>,
}

pub struct EdgeModel {
    pub source: usize,
    pub source_port: usize,
    pub target: usize,
    pub target_port: usize,
    pub message_type: Seq<char>,
    pub extra_fields: Seq<(Seq<char>, Seq<char>)>,
}

impl DeepView for GraphEdge {
    type V = EdgeModel;

    open spec fn deep_view(&self) -> EdgeModel {
        EdgeModel {
            source: self.source,
            source_port: self.source_port,
            target: self.target,
            target_port: self.target_port,
            message_type: self.message_type@,
            extra_fields: self.extra_fields.deep_view(),
        }
    }
}

impl Clone for GraphEdge {
    fn clone(&self) -> (r: Self)
        ensures
            r.deep_view() == self.deep_view(),
    {
        GraphEdge {
            source: self.source,
            source_port: self.source_port,
            target: self.target,
            target_port: self.target_port,
            message_type: self.message_type.clone(),
            extra_fields: clone_pairs(&self.extra_fields),
        }
    }
}

#[derive(Debug)]
pub struct MonitorInstance {
    pub component_type: String,
    pub config: EditableConfig,
}

pub struct MonitorModel {
    pub component_type: Seq<char>,
    pub config: Seq<(Seq<char>, Seq<char>)>,
}

impl DeepView for MonitorInstance {
    type V = MonitorModel;

    open spec fn deep_view(&self) -> MonitorModel {
        MonitorModel { component_type: self.component_type@, config: self.config.deep_view() }
    }
}

impl Clone for MonitorInstance {
    fn clone(&self) -> (r: Self)
        ensures
            r.deep_view() == self.deep_view(),
    {
        MonitorInstance { component_type: self.component_type.clone(), config: self.config.clone() }
    }
}

#[derive(Debug, Clone, Copy, PartialEq, Eq, Structural)]
pub enum NumericStorage {
    I8,
    I16,
    I32,
    I64,
    Isize,
    U8,
    U16,
    U32,
    U64,
    Usize,
    F32,
    F64,
}

pub open spec fn storage_name(storage: NumericStorage) -> Seq<char> {
    match storage {
        NumericStorage::I8 => "i8"@,
        NumericStorage::I16 => "i16"@,
        NumericStorage::I32 => "i32"@,
        NumericStorage::I64 => "i64"@,
        NumericStorage::Isize => "isize"@,
        NumericStorage::U8 => "u8"@,
        NumericStorage::U16 => "u16"@,
        NumericStorage::U32 => "u32"@,
        NumericStorage::U64 => "u64"@,
        NumericStorage::Usize => "usize"@,
        NumericStorage::F32 => "f32"@,
        NumericStorage::F64 => "f64"@,
    }
}

/// Every storage, in declaration order.
pub open spec fn all_storages() -> Seq<NumericStorage> {
    seq![
        NumericStorage::I8,
        NumericStorage::I16,
        NumericStorage::I32,
        NumericStorage::I64,
        NumericStorage::Isize,
        NumericStorage::U8,
        NumericStorage::U16,
        NumericStorage::U32,
        NumericStorage::U64,
        NumericStorage::Usize,
        NumericStorage::F32,
        NumericStorage::F64,
    ]
}

impl NumericStorage {
    pub const ALL: [NumericStorage; 12] = [
        NumericStorage::I8,
        NumericStorage::I16,
        NumericStorage::I32,
        NumericStorage::I64,
        NumericStorage::Isize,
        NumericStorage::U8,
        NumericStorage::U16,
        NumericStorage::U32,
        NumericStorage::U64,
        NumericStorage::Usize,
        NumericStorage::F32,
        NumericStorage::F64,
    ];

    pub fn ron_name(self) -> (r: &'static str)
        ensures
            r@ == storage_name(self),
    {
        match self {
            NumericStorage::I8 => "i8",
            NumericStorage::I16 => "i16",
            NumericStorage::I32 => "i32",
            NumericStorage::I64 => "i64",
            NumericStorage::Isize => "isize",
            NumericStorage::U8 => "u8",
            NumericStorage::U16 => "u16",
            NumericStorage::U32 => "u32",
            NumericStorage::U64 => "u64",
            NumericStorage::Usize => "usize",
            NumericStorage::F32 => "f32",
            NumericStorage::F64 => "f64",
        }
    }
}

#[derive(Debug)]
pub enum ConstantDefinition {
    Numeric {
        id: String,
        module: String,
        storage: NumericStorage,
        quantity: Option<String>,
        unit: Option<String>,
        value_ron: String,
    },
    Expression { id: String, module: String, rust_type: String, expression: String },
}

pub enum ConstantModel {
    Numeric {
        id: Seq<char>,
        module: Seq<char>,
        storage: NumericStorage,
        quantity: Option<Seq<char>>,
        unit: Option<Seq<char>>,
        value_ron: Seq<char>,
    },
    Expression { id: Seq<char>, module: Seq<char>, rust_type: Seq<char>, expression: Seq<char> },
}

impl DeepView for ConstantDefinition {
    type V = ConstantModel;

    open spec fn deep_view(&self) -> ConstantModel {
        match self {
            ConstantDefinition::Numeric { id, module, storage, quantity, unit, value_ron } => {
                ConstantModel::Numeric {
                    id: id@,
                    module: module@,
                    storage: *storage,
                    quantity: quantity.deep_view(),
                    unit: unit.deep_view(),
                    value_ron: value_ron@,
                }
            },
            ConstantDefinition::Expression { id, module, rust_type, expression } => {
                ConstantModel::Expression {
                    id: id@,
                    module: module@,
                    rust_type: rust_type@,
                    expression: expression@,
                }
            },
        }
    }
}

impl Clone for ConstantDefinition {
    fn clone(&self) -> (r: Self)
        ensures
            r.deep_view() == self.deep_view(),
    {
        match self {
            ConstantDefinition::Numeric { id, module, storage, quantity, unit, value_ron } => {
                ConstantDefinition::Numeric {
                    id: id.clone(),
                    module: module.clone(),
                    storage: *storage,
                    quantity: clone_opt(quantity),
                    unit: clone_opt(unit),
                    value_ron: value_ron.clone(),
                }
            },
            ConstantDefinition::Expression { id, module, rust_type, expression } => {
                ConstantDefinition::Expression {
                    id: id.clone(),
                    module: module.clone(),
                    rust_type: rust_type.clone(),
                    expression: expression.clone(),
                }
            },
        }
    }
}

pub open spec fn constant_id(c: ConstantDefinition) -> Seq<char> {
    match c {
        ConstantDefinition::Numeric { id, .. } => id@,
        ConstantDefinition::Expression { id, .. } => id@,
    }
}

pub open spec fn constant_module(c: ConstantDefinition) -> Seq<char> {
    match c {
        ConstantDefinition::Numeric { module, .. } => module@,
        ConstantDefinition::Expression { module, .. } => module@,
    }
}

/// `module::id`, with `constants` standing for an empty (or all-whitespace) module.
pub open spec fn qualified_name(c: ConstantDefinition) -> Seq<char> {
    let module = crate::text::trim(constant_module(c));
    if module.len() == 0 {
        "constants::"@ + constant_id(c)
    } else {
        module + "::"@ + constant_id(c)
    }
}

impl ConstantDefinition {
    pub fn id(&self) -> (r: &str)
        ensures
            r@ == constant_id(*self),
    {
        match self {
            ConstantDefinition::Numeric { id, .. } => id.as_str(),
            ConstantDefinition::Expression { id, .. } => id.as_str(),
        }
    }

    pub fn module(&self) -> (r: &str)
        ensures
            r@ == constant_module(*self),
    {
        match self {
            ConstantDefinition::Numeric { module, .. } => module.as_str(),
            ConstantDefinition::Expression { module, .. } => module.as_str(),
        }
    }

    pub fn qualified_id(&self) -> (r: String)
        ensures
            r@ == qualified_name(*self),
    {
        let module = chars_of(self.module());
        let trimmed = crate::text::trimmed(module.as_slice(), 0, module.len());
        assert(module@.subrange(0, module@.len() as int) =~= module@);
        let mut out: Vec<char> = Vec::new();
        if trimmed.len() == 0 {
            push_str(&mut out, "constants::");
        } else {
            push_all(&mut out, trimmed.as_slice());
            push_str(&mut out, "::");
        }
        push_str(&mut out, self.id());
        string_of(out.as_slice())
    }
}

#[derive(Debug, Clone, Copy, PartialEq, Eq, Structural)]
pub enum DiagnosticSeverity {
    Error,
    Warning,
    Info,
}

#[derive(Debug)]
pub struct Diagnostic {
    pub severity: DiagnosticSeverity,
    pub message: String,
}

impl DeepView for Diagnostic {
    type V = (DiagnosticSeverity, Seq<char>);

    open spec fn deep_view(&self) -> (DiagnosticSeverity, Seq<char>) {
        (self.severity, self.message@)
    }
}

impl Diagnostic {
    pub fn error(message: String) -> (r: Self)
        ensures
            r.severity == DiagnosticSeverity::Error,
            r.message == message,
    {
        Diagnostic { severity: DiagnosticSeverity::Error, message }
    }

    pub fn warning(message: String) -> (r: Self)
        ensures
            r.severity == DiagnosticSeverity::Warning,
            r.message == message,
    {
        Diagnostic { severity: DiagnosticSeverity::Warning, message }
    }
}

#[derive(Debug)]
pub struct GraphDocument {
    pub nodes: Vec<GraphNode>,
    pub edges: Vec<GraphEdge>,
    pub monitors: Vec<MonitorInstance>,
    pub constants: Vec<ConstantDefinition>,
}

pub struct DocumentModel {
    pub nodes: Seq<NodeModel>,
    pub edges: Seq<EdgeModel>,
    pub monitors: Seq<MonitorModel>,
    pub constants: Seq<ConstantModel>,
}

impl DeepView for GraphDocument {
    type V = DocumentModel;

    open spec fn deep_view(&self) -> DocumentModel {
        DocumentModel {
            nodes: self.nodes.deep_view(),
            edges: self.edges.deep_view(),
            monitors: self.monitors.deep_view(),
            constants: self.constants.deep_view(),
        }
    }
}

impl GraphDocument {
    pub fn new() -> (r: Self)
        ensures
            r.nodes@.len() == 0,
            r.edges@.len() == 0,
            r.monitors@.len() == 0,
            r.constants@.len() == 0,
    {
        GraphDocument { nodes: Vec::new(), edges: Vec::new(), monitors: Vec::new(), constants: Vec::new() }
    }
}

/// A copy of a vector of nodes.
pub fn clone_nodes(v: &Vec<GraphNode>) -> (r: Vec<GraphNode>)
    ensures
        r.deep_view() == v.deep_view(),
{
    let mut out: Vec<GraphNode> = Vec::new();
    let mut i: usize = 0;
    while i < v.len()
        invariant
            i <= v.len(),
            out@.len() == i,
            forall|j: int| 0 <= j < i ==> (#[trigger] out@[j]).deep_view() == v@[j].deep_view(),
        decreases v.len() - i,
    {
        let item = v[i].clone();
        out.push(item);
        i = i + 1;
    }
    assert(out.deep_view() =~= v.deep_view());
    out
}

/// A copy of a vector of edges.
pub fn clone_edges(v: &Vec<GraphEdge>) -> (r: Vec<GraphEdge>)
    ensures
        r.deep_view() == v.deep_view(),
{
    let mut out: Vec<GraphEdge> = Vec::new();
    let mut i: usize = 0;
    while i < v.len()
        invariant
            i <= v.len(),
            out@.len() == i,
            forall|j: int| 0 <= j < i ==> (#[trigger] out@[j]).deep_view() == v@[j].deep_view(),
        decreases v.len() - i,
    {
        let item = v[i].clone();
        out.push(item);
        i = i + 1;
    }
    assert(out.deep_view() =~= v.deep_view());
    out
}

/// A copy of a vector of monitors.
pub fn clone_monitors(v: &Vec<MonitorInstance>) -> (r: Vec<MonitorInstance>)
    ensures
        r.deep_view() == v.deep_view(),
{
    let mut out: Vec<MonitorInstance> = Vec::new();
    let mut i: usize = 0;
    while i < v.len()
        invariant
            i <= v.len(),
            out@.len() == i,
            forall|j: int| 0 <= j < i ==> (#[trigger] out@[j]).deep_view() == v@[j].deep_view(),
        decreases v.len() - i,
    {
        let item = v[i].clone();
        out.push(item);
        i = i + 1;
    }
    assert(out.deep_view() =~= v.deep_view());
    out
}

/// A copy of a vector of constants.
pub fn clone_constants(v: &Vec<ConstantDefinition>) -> (r: Vec<ConstantDefinition>)
    ensures
        r.deep_view() == v.deep_view(),
{
    let mut out: Vec<ConstantDefinition> = Vec::new();
    let mut i: usize = 0;
    while i < v.len()
        invariant
            i <= v.len(),
            out@.len() == i,
            forall|j: int| 0 <= j < i ==> (#[trigger] out@[j]).deep_view() == v@[j].deep_view(),
        decreases v.len() - i,
    {
        let item = v[i].clone();
        out.push(item);
        i = i + 1;
    }
    assert(out.deep_view() =~= v.deep_view());
    out
}

impl Clone for GraphDocument {
    fn clone(&self) -> (r: Self)
        ensures
            r.deep_view() == self.deep_view(),
    {
        GraphDocument {
            nodes: clone_nodes(&self.nodes),
            edges: clone_edges(&self.edges),
            monitors: clone_monitors(&self.monitors),
            constants: clone_constants(&self.constants),
        }
    }
}

} // verus!
