//! Turning what was gathered from the sources into the component catalog:
//! one component per Copper implementation (generic bridges through their
//! concrete aliases), message types resolved through aliases, re-exports
//! listed under their exported path, sorted by kind and path without repeats.
use vstd::prelude::*;

use crate::collector::{
    alias_index, collected, find_alias, find_simple, key_index, PackageScope, ScopeModel, SourceItem, AliasModel, AliasRecord, Collector, CollectorModel, ImplModel,
    ImplRecord, UseModel,
};
use crate::fieldmap::Pair;
use crate::indexer::ComponentCatalog;
use crate::model::{
    kind_label, normalized_type, ChannelModel, ComponentKind, ComponentModel, PortDirection,
    PortModel,
};
use crate::naming::qualified_type;
use crate::order::lex_lt;
use crate::shapes::ports_of;
use crate::text::{chars_of, ends_with, is_suffix, last_occurrence, occurs_at, occurs_at_exec, push_range, push_str, str_eq, string_of};
use crate::model::{clone_hints, normalize_type, BridgeChannelDescriptor, ComponentDescriptor, PortDescriptor};
use crate::order::{lemma_lex_order, str_compare};
use crate::naming::qualify_type;
use crate::shapes::make_ports;

verus! {

/// The kind of component a Copper trait makes.
pub open spec fn kind_of_trait(t: Seq<char>) -> ComponentKind {
    if t == "CuSrcTask"@ {
        ComponentKind::Source
    } else if t == "CuTask"@ {
        ComponentKind::Task
    } else if t == "CuSinkTask"@ {
        ComponentKind::Sink
    } else if t == "CuBridge"@ {
        ComponentKind::Bridge
    } else if t == "CuMonitor"@ {
        ComponentKind::Monitor
    } else {
        ComponentKind::Unresolved
    }
}

/// What follows the last `::` of a path (the path itself without one).
pub open spec fn last_segment(path: Seq<char>) -> Seq<char> {
    match last_occurrence(path, "::"@) {
        Some(i) => path.subrange(i + 2, path.len() as int),
        None => path,
    }
}

/// The first channel set at or after `from` whose key ends with `suffix`
/// (the sets stand in the order they were first added).
pub open spec fn suffix_key_index(sets: Seq<(Seq<char>, Seq<ChannelModel>)>, suffix: Seq<char>, from: int) -> Option<int>
    decreases sets.len() - from,
{
    if from < 0 || from >= sets.len() {
        None
    } else if is_suffix(suffix, sets[from].0) {
        Some(from)
    } else {
        suffix_key_index(sets, suffix, from + 1)
    }
}

/// The channel set a name refers to: the one with that key, else the first
/// whose key ends with `::name`.
pub open spec fn lookup_channels(sets: Seq<(Seq<char>, Seq<ChannelModel>)>, name: Seq<char>) -> Option<Seq<ChannelModel>> {
    match key_index(sets, name, 0) {
        Some(i) => Some(sets[i].1),
        None => match suffix_key_index(sets, "::"@ + name, 0) {
            Some(i) => Some(sets[i].1),
            None => None,
        },
    }
}

pub open spec fn found_channels(o: Option<Seq<ChannelModel>>) -> Seq<ChannelModel> {
    match o {
        Some(c) => c,
        None => Seq::empty(),
    }
}

pub open spec fn lookup_named(sets: Seq<(Seq<char>, Seq<ChannelModel>)>, name: Option<Seq<char>>) -> Seq<ChannelModel> {
    match name {
        Some(n) => found_channels(lookup_channels(sets, n)),
        None => Seq::empty(),
    }
}

/// The channels of a bridge: its transmit set, then its receive set, named by
/// the alias's first two type arguments or by the implementation's `Tx`/`Rx`.
pub open spec fn bridge_channels(c: CollectorModel, r: ImplModel, alias: Option<AliasModel>) -> Seq<ChannelModel> {
    match alias {
        Some(a) => lookup_named(
            c.channel_sets,
            if a.target_arguments.len() > 0 {
                Some(a.target_arguments[0])
            } else {
                None
            },
        ) + lookup_named(
            c.channel_sets,
            if a.target_arguments.len() > 1 {
                Some(a.target_arguments[1])
            } else {
                None
            },
        ),
        None => lookup_named(c.channel_sets, r.tx_set) + lookup_named(c.channel_sets, r.rx_set),
    }
}

/// The payload ports of the channels in one direction, numbered in order.
pub open spec fn directed_ports(chans: Seq<ChannelModel>, direction: PortDirection) -> Seq<PortModel>
    decreases chans.len(),
{
    if chans.len() == 0 {
        Seq::empty()
    } else {
        let rest = directed_ports(chans.drop_last(), direction);
        if chans.last().direction == direction {
            rest.push(PortModel { ordinal: rest.len() as usize, ..chans.last().payload })
        } else {
            rest
        }
    }
}

/// The component an implementation makes, named by the concrete alias where
/// one is given (for a generic bridge).
pub open spec fn component_of(c: CollectorModel, r: ImplModel, alias: Option<AliasModel>) -> ComponentModel {
    let kind = kind_of_trait(r.trait_name);
    let type_path = match alias {
        Some(a) => a.qualified,
        None => r.qualified_self,
    };
    let package = match alias {
        Some(a) => a.package,
        None => r.package,
    };
    let workspace_only = match alias {
        Some(a) => a.workspace_only,
        None => r.workspace_only,
    };
    let source_path = match alias {
        Some(a) => a.source_path,
        None => r.source_path,
    };
    let is_app = match alias {
        Some(a) => a.is_app,
        None => r.is_app,
    };
    let crate_name = match alias {
        Some(a) => a.crate_name,
        None => r.crate_name,
    };
    let imports = match alias {
        Some(a) => a.imports,
        None => r.imports,
    };
    let channels = if kind == ComponentKind::Bridge {
        bridge_channels(c, r, alias)
    } else {
        Seq::empty()
    };
    ComponentModel {
        type_path,
        display_name: last_segment(type_path),
        package,
        kind,
        inputs: if kind == ComponentKind::Bridge {
            directed_ports(channels, PortDirection::Input)
        } else {
            ports_of(r.inputs, PortDirection::Input, is_app, crate_name, r.module, imports)
        },
        outputs: if kind == ComponentKind::Bridge {
            directed_ports(channels, PortDirection::Output)
        } else {
            ports_of(r.outputs, PortDirection::Output, is_app, crate_name, r.module, imports)
        },
        channels,
        config_hints: r.hints,
        workspace_only,
        source_path: Some(source_path),
    }
}

/// The component an implementation makes has the kind of its Copper trait:
/// `CuSrcTask` a source, `CuTask` a task, `CuSinkTask` a sink, `CuBridge` a
/// bridge, `CuMonitor` a monitor; any other trait leaves it unresolved.
pub proof fn lemma_component_kind_follows_trait(c: CollectorModel, r: ImplModel, alias: Option<AliasModel>)
    ensures
        r.trait_name == "CuSrcTask"@ ==> component_of(c, r, alias).kind == ComponentKind::Source,
        r.trait_name == "CuTask"@ ==> component_of(c, r, alias).kind == ComponentKind::Task,
        r.trait_name == "CuSinkTask"@ ==> component_of(c, r, alias).kind == ComponentKind::Sink,
        r.trait_name == "CuBridge"@ ==> component_of(c, r, alias).kind == ComponentKind::Bridge,
        r.trait_name == "CuMonitor"@ ==> component_of(c, r, alias).kind == ComponentKind::Monitor,
        r.trait_name != "CuSrcTask"@ && r.trait_name != "CuTask"@ && r.trait_name != "CuSinkTask"@
            && r.trait_name != "CuBridge"@ && r.trait_name != "CuMonitor"@
            ==> component_of(c, r, alias).kind == ComponentKind::Unresolved,
{
    reveal_strlit("CuSrcTask");
    reveal_strlit("CuTask");
    reveal_strlit("CuSinkTask");
    reveal_strlit("CuBridge");
    reveal_strlit("CuMonitor");
    assert("CuTask"@.len() != "CuSrcTask"@.len());
    assert("CuSinkTask"@.len() != "CuSrcTask"@.len());
    assert("CuSinkTask"@.len() != "CuTask"@.len());
    assert("CuBridge"@.len() != "CuSrcTask"@.len() && "CuBridge"@.len() != "CuTask"@.len()
        && "CuBridge"@.len() != "CuSinkTask"@.len());
    assert("CuMonitor"@[2] != "CuSrcTask"@[2] && "CuMonitor"@.len() != "CuTask"@.len()
        && "CuMonitor"@.len() != "CuSinkTask"@.len() && "CuMonitor"@.len() != "CuBridge"@.len());
}

/// Each implementation that is not a generic bridge makes one component of
/// the kind of its trait, in the order of the implementations.
pub proof fn lemma_base_components_follow_impls(c: CollectorModel, k: int, i: int)
    requires
        0 <= i < k <= c.impls.len(),
        !generic_bridge(c.impls[i]),
    ensures
        exists|j: int| 0 <= j < base_components(c, k).len() && #[trigger] base_components(c, k)[j] == component_of(c, c.impls[i], None),
    decreases k,
{
    if i < k - 1 {
        lemma_base_components_follow_impls(c, k - 1, i);
        let j = choose|j: int| 0 <= j < base_components(c, k - 1).len() && #[trigger] base_components(c, k - 1)[j] == component_of(c, c.impls[i], None);
        assert(base_components(c, k)[j] == base_components(c, k - 1)[j]);
    } else {
        let j = base_components(c, k - 1).len() as int;
        assert(base_components(c, k)[j] == component_of(c, c.impls[i], None));
    }
}

/// A generic bridge implementation: one that a concrete alias has to name.
pub open spec fn generic_bridge(r: ImplModel) -> bool {
    r.trait_name == "CuBridge"@ && r.self_generic
}

/// The components of the first `k` implementations that are not generic bridges.
pub open spec fn base_components(c: CollectorModel, k: int) -> Seq<ComponentModel>
    decreases k,
{
    if k <= 0 || k > c.impls.len() {
        Seq::empty()
    } else {
        let rest = base_components(c, k - 1);
        if generic_bridge(c.impls[k - 1]) {
            rest
        } else {
            rest.push(component_of(c, c.impls[k - 1], None))
        }
    }
}

/// The first generic bridge at or after `from` whose type is named `base`.
pub open spec fn bridge_named(impls: Seq<ImplModel>, base: Seq<char>, from: int) -> Option<int>
    decreases impls.len() - from,
{
    if from < 0 || from >= impls.len() {
        None
    } else if generic_bridge(impls[from]) && impls[from].self_base == Some(base) {
        Some(from)
    } else {
        bridge_named(impls, base, from + 1)
    }
}

/// The components that the first `k` aliases make of generic bridges.
pub open spec fn alias_components(c: CollectorModel, k: int) -> Seq<ComponentModel>
    decreases k,
{
    if k <= 0 || k > c.aliases.len() {
        Seq::empty()
    } else {
        let rest = alias_components(c, k - 1);
        let a = c.aliases[k - 1];
        match a.target_base {
            None => rest,
            Some(base) => match bridge_named(c.impls, base, 0) {
                Some(j) => rest.push(component_of(c, c.impls[j], Some(a))),
                None => rest,
            },
        }
    }
}

/// The alias a name refers to when exactly one alias has that name.
pub open spec fn simple_alias(c: CollectorModel, name: Seq<char>) -> Option<int> {
    match key_index(c.simple_aliases, name, 0) {
        Some(j) => if c.simple_aliases[j].1.len() == 1 {
            alias_index(c.aliases, c.simple_aliases[j].1[0], 0)
        } else {
            None
        },
        None => None,
    }
}

/// A type followed through the aliases it names (by full path, or by its
/// last segment where only one alias has that name), at most 17 deep.
pub open spec fn resolved(c: CollectorModel, ty: Seq<char>, depth: nat) -> Seq<char>
    decreases 17 - depth,
{
    let n = normalized_type(ty);
    if depth > 16 {
        n
    } else {
        let found = match alias_index(c.aliases, n, 0) {
            Some(i) => Some(i),
            None => simple_alias(c, last_segment(n)),
        };
        match found {
            Some(i) => if 0 <= i < c.aliases.len() {
                let a = c.aliases[i];
                resolved(c, qualified_type(a.target_text, a.is_app, a.crate_name, a.module, a.imports), depth + 1)
            } else {
                n
            },
            None => n,
        }
    }
}

pub open spec fn resolved_port(c: CollectorModel, p: PortModel) -> PortModel {
    PortModel { canonical_type: resolved(c, p.serialized_type, 0), ..p }
}

/// A component with the canonical type of every port resolved.
pub open spec fn resolved_component(c: CollectorModel, m: ComponentModel) -> ComponentModel {
    ComponentModel {
        inputs: Seq::new(m.inputs.len(), |i: int| resolved_port(c, m.inputs[i])),
        outputs: Seq::new(m.outputs.len(), |i: int| resolved_port(c, m.outputs[i])),
        channels: Seq::new(
            m.channels.len(),
            |i: int| ChannelModel { payload: resolved_port(c, m.channels[i].payload), ..m.channels[i] },
        ),
        ..m
    }
}

/// A component that a `pub use` re-exports.
pub open spec fn matches_use(m: ComponentModel, u: UseModel) -> bool {
    m.package == u.package && m.display_name == u.name && is_suffix(
        normalized_type(u.target),
        normalized_type(m.type_path),
    )
}

/// The first component at or after `from` that the re-export names.
pub open spec fn use_match(comps: Seq<ComponentModel>, u: UseModel, from: int) -> Option<int>
    decreases comps.len() - from,
{
    if from < 0 || from >= comps.len() {
        None
    } else if matches_use(comps[from], u) {
        Some(from)
    } else {
        use_match(comps, u, from + 1)
    }
}

/// The copies listed under their exported path, for the re-exports among the
/// first `k` that name exactly one component.
pub open spec fn reexports(comps: Seq<ComponentModel>, uses: Seq<UseModel>, k: int) -> Seq<ComponentModel>
    decreases k,
{
    if k <= 0 || k > uses.len() {
        Seq::empty()
    } else {
        let rest = reexports(comps, uses, k - 1);
        let u = uses[k - 1];
        match use_match(comps, u, 0) {
            Some(i) => if use_match(comps, u, i + 1) is None {
                rest.push(ComponentModel { type_path: u.exported, ..comps[i] })
            } else {
                rest
            },
            None => rest,
        }
    }
}

/// Components are listed by kind label, then by path.
pub open spec fn listed_before(a: ComponentModel, b: ComponentModel) -> bool {
    lex_lt(kind_label(a.kind), kind_label(b.kind)) || (kind_label(a.kind) == kind_label(b.kind) && lex_lt(
        a.type_path,
        b.type_path,
    ))
}

/// Inserts a component after those not listed after it (a stable insertion).
pub open spec fn insert_listed(sorted: Seq<ComponentModel>, x: ComponentModel) -> Seq<ComponentModel>
    decreases sorted.len(),
{
    if sorted.len() == 0 {
        seq![x]
    } else if !listed_before(x, sorted.last()) {
        sorted.push(x)
    } else {
        insert_listed(sorted.drop_last(), x).push(sorted.last())
    }
}

/// The components in listing order, equal ones in the order given.
pub open spec fn sort_listed(items: Seq<ComponentModel>) -> Seq<ComponentModel>
    decreases items.len(),
{
    if items.len() == 0 {
        Seq::empty()
    } else {
        insert_listed(sort_listed(items.drop_last()), items.last())
    }
}

/// The components without one whose path equals the one kept before it.
pub open spec fn without_repeats(items: Seq<ComponentModel>) -> Seq<ComponentModel>
    decreases items.len(),
{
    if items.len() == 0 {
        Seq::empty()
    } else {
        let rest = without_repeats(items.drop_last());
        if rest.len() > 0 && rest.last().type_path == items.last().type_path {
            rest
        } else {
            rest.push(items.last())
        }
    }
}

/// The catalog's components: those of the implementations and of the
/// aliases of generic bridges, resolved, then the re-exports, sorted and
/// without repeated paths.
pub open spec fn catalog_components(c: CollectorModel) -> Seq<ComponentModel> {
    let made = base_components(c, c.impls.len() as int) + alias_components(c, c.aliases.len() as int);
    let resolved_made = Seq::new(made.len(), |i: int| resolved_component(c, made[i]));
    let all = resolved_made + reexports(resolved_made, c.public_uses, c.public_uses.len() as int);
    without_repeats(sort_listed(all))
}


/// Each component is listed strictly before the next, and no two neighbours
/// share a path.
#[verifier::opaque]
pub open spec fn catalog_in_order(items: Seq<ComponentModel>) -> bool {
    forall|i: int| 0 <= i < items.len() - 1 ==> listed_before(#[trigger] items[i], items[i + 1])
        && items[i].type_path != items[i + 1].type_path
}

/// No component is listed before the one in front of it.
spec fn never_backwards(items: Seq<ComponentModel>) -> bool {
    forall|i: int| 0 <= i < items.len() - 1 ==> !listed_before(#[trigger] items[i + 1], items[i])
}

proof fn lemma_listing_asymmetric(a: ComponentModel, b: ComponentModel)
    ensures
        !listed_before(a, a),
        listed_before(a, b) ==> !listed_before(b, a),
{
    lemma_lex_order(kind_label(a.kind), kind_label(b.kind), kind_label(a.kind));
    lemma_lex_order(kind_label(b.kind), kind_label(a.kind), kind_label(a.kind));
    lemma_lex_order(a.type_path, b.type_path, a.type_path);
    lemma_lex_order(b.type_path, a.type_path, a.type_path);
}

proof fn lemma_not_before_transitive(a: ComponentModel, b: ComponentModel, c: ComponentModel)
    requires
        !listed_before(c, b),
        !listed_before(b, a),
    ensures
        !listed_before(c, a),
{
    let (ka, kb, kc) = (kind_label(a.kind), kind_label(b.kind), kind_label(c.kind));
    lemma_lex_order(kc, ka, kb);
    lemma_lex_order(ka, kb, kc);
    lemma_lex_order(kb, kc, ka);
    lemma_lex_order(kc, kb, ka);
    lemma_lex_order(kb, ka, kc);
    lemma_lex_order(ka, kc, kb);
    if ka == kb && kb == kc {
        lemma_lex_order(c.type_path, a.type_path, b.type_path);
        lemma_lex_order(a.type_path, b.type_path, c.type_path);
        lemma_lex_order(b.type_path, c.type_path, a.type_path);
    }
}

proof fn lemma_listing_total(a: ComponentModel, b: ComponentModel)
    requires
        !listed_before(b, a),
        a.type_path != b.type_path,
    ensures
        listed_before(a, b),
{
    lemma_lex_order(kind_label(a.kind), kind_label(b.kind), kind_label(a.kind));
    lemma_lex_order(a.type_path, b.type_path, a.type_path);
}

proof fn lemma_insert_keeps_order(sorted: Seq<ComponentModel>, x: ComponentModel)
    requires
        never_backwards(sorted),
    ensures
        never_backwards(insert_listed(sorted, x)),
        insert_listed(sorted, x).len() == sorted.len() + 1,
        insert_listed(sorted, x).last() == x || (sorted.len() > 0 && insert_listed(sorted, x).last() == sorted.last()),
    decreases sorted.len(),
{
    let r = insert_listed(sorted, x);
    if sorted.len() == 0 {
    } else if !listed_before(x, sorted.last()) {
        assert forall|i: int| 0 <= i < r.len() - 1 implies !listed_before(#[trigger] r[i + 1], r[i]) by {
            if i < sorted.len() - 1 {
                assert(r[i] == sorted[i] && r[i + 1] == sorted[i + 1]);
            }
        }
    } else {
        let d = sorted.drop_last();
        assert forall|i: int| 0 <= i < d.len() - 1 implies !listed_before(#[trigger] d[i + 1], d[i]) by {
            assert(d[i] == sorted[i] && d[i + 1] == sorted[i + 1]);
        }
        lemma_insert_keeps_order(d, x);
        let inner = insert_listed(d, x);
        lemma_listing_asymmetric(x, sorted.last());
        if d.len() > 0 {
            let k = sorted.len() - 2;
            assert(!listed_before(sorted[k + 1], sorted[k]));
            assert(d.last() == sorted[k]);
        }
        assert forall|i: int| 0 <= i < r.len() - 1 implies !listed_before(#[trigger] r[i + 1], r[i]) by {
            if i < inner.len() - 1 {
                assert(r[i] == inner[i] && r[i + 1] == inner[i + 1]);
            } else {
                assert(r[i] == inner.last() && r[i + 1] == sorted.last());
            }
        }
    }
}

proof fn lemma_sort_listed_in_order(items: Seq<ComponentModel>)
    ensures
        never_backwards(sort_listed(items)),
        sort_listed(items).len() == items.len(),
    decreases items.len(),
{
    if items.len() > 0 {
        lemma_sort_listed_in_order(items.drop_last());
        lemma_insert_keeps_order(sort_listed(items.drop_last()), items.last());
    }
}

proof fn lemma_without_repeats_in_order(items: Seq<ComponentModel>)
    requires
        never_backwards(items),
    ensures
        catalog_in_order(without_repeats(items)),
        items.len() > 0 ==> without_repeats(items).len() > 0 && !listed_before(items.last(), without_repeats(items).last()),
    decreases items.len(),
{
    reveal(catalog_in_order);
    if items.len() > 0 {
        let d = items.drop_last();
        assert forall|i: int| 0 <= i < d.len() - 1 implies !listed_before(#[trigger] d[i + 1], d[i]) by {
            assert(d[i] == items[i] && d[i + 1] == items[i + 1]);
        }
        lemma_without_repeats_in_order(d);
        let rest = without_repeats(d);
        let y = items.last();
        lemma_listing_asymmetric(y, y);
        if d.len() > 0 {
            let k = items.len() - 2;
            assert(!listed_before(items[k + 1], items[k]));
            assert(d.last() == items[k]);
            lemma_not_before_transitive(rest.last(), d.last(), y);
            if rest.last().type_path != y.type_path {
                lemma_listing_total(rest.last(), y);
            }
        }
        let r = without_repeats(items);
        if !(rest.len() > 0 && rest.last().type_path == y.type_path) {
            assert forall|i: int| 0 <= i < r.len() - 1 implies listed_before(#[trigger] r[i], r[i + 1])
                && r[i].type_path != r[i + 1].type_path by {
                if i < rest.len() - 1 {
                    assert(r[i] == rest[i] && r[i + 1] == rest[i + 1]);
                } else {
                    assert(r[i] == rest.last() && r[i + 1] == y);
                }
            }
        }
    }
}

/// The catalog lists its components strictly in order of kind label, then
/// path: sorted, and with no path twice in a row.
pub proof fn lemma_catalog_in_order(c: CollectorModel)
    ensures
        catalog_in_order(catalog_components(c)),
{
    let made = base_components(c, c.impls.len() as int) + alias_components(c, c.aliases.len() as int);
    let resolved_made = Seq::new(made.len(), |i: int| resolved_component(c, made[i]));
    let all = resolved_made + reexports(resolved_made, c.public_uses, c.public_uses.len() as int);
    lemma_sort_listed_in_order(all);
    lemma_without_repeats_in_order(sort_listed(all));
}

// ---------------------------------------------------------------------------
// Computing the catalog
// ---------------------------------------------------------------------------

proof fn lemma_last_occurrence(s: Seq<char>, pat: Seq<char>, i: int)
    requires
        occurs_at(s, i, pat),
        forall|j: int| i < j ==> !occurs_at(s, j, pat),
    ensures
        last_occurrence(s, pat) == Some(i),
{
    let k = choose|k: int| occurs_at(s, k, pat) && forall|j: int| occurs_at(s, j, pat) ==> j <= k;
    assert(occurs_at(s, k, pat) && forall|j: int| occurs_at(s, j, pat) ==> j <= k);
    assert(k <= i) by {
        if k > i {
            assert(!occurs_at(s, k, pat));
        }
    }
}

/// What follows the last `::` of a path (see [`last_segment`]).
pub fn last_segment_of(path: &str) -> (r: String)
    ensures
        r@ == last_segment(path@),
{
    let s = chars_of(path);
    let sep = chars_of("::");
    proof {
        reveal_strlit("::");
    }
    let n = s.len();
    let mut k: usize = n;
    while k > 0
        invariant
            k <= s@.len(),
            n == s@.len(),
            s@ == path@,
            sep@ == "::"@,
            sep@.len() == 2,
            forall|j: int| k <= j ==> !occurs_at(s@, j, sep@),
        decreases k,
    {
        if occurs_at_exec(s.as_slice(), k - 1, sep.as_slice()) {
            proof {
                lemma_last_occurrence(s@, sep@, k - 1);
            }
            assert(occurs_at(s@, k - 1, sep@));
            let mut v: Vec<char> = Vec::new();
            push_range(&mut v, s.as_slice(), k + 1, n);
            return string_of(v.as_slice());
        }
        k = k - 1;
    }
    assert(forall|j: int| !occurs_at(s@, j, sep@));
    path.to_owned()
}

fn key_ends_with(key: &str, suffix: &Vec<char>) -> (r: bool)
    ensures
        r == is_suffix(suffix@, key@),
{
    let k = chars_of(key);
    ends_with(k.as_slice(), suffix.as_slice())
}

/// The channel set a name refers to (see [`lookup_channels`]), copied.
fn lookup_channel_set(sets: &Vec<(String, Vec<BridgeChannelDescriptor>)>, name: &str) -> (r: Vec<BridgeChannelDescriptor>)
    ensures
        r.deep_view() == found_channels(lookup_channels(sets.deep_view(), name@)),
{
    let ghost sv = sets.deep_view();
    let mut k: usize = 0;
    while k < sets.len()
        invariant
            k <= sets@.len(),
            sv == sets.deep_view(),
            key_index(sv, name@, k as int) == key_index(sv, name@, 0),
        decreases sets.len() - k,
    {
        assert(sv[k as int].0 == sets@[k as int].0@);
        if str_eq(sets[k].0.as_str(), name) {
            assert(sv[k as int].1 == sets@[k as int].1.deep_view());
            return crate::model::clone_channel_descriptors(&sets[k].1);
        }
        k = k + 1;
    }
    let mut suffix: Vec<char> = Vec::new();
    push_str(&mut suffix, "::");
    push_str(&mut suffix, name);
    let mut k: usize = 0;
    while k < sets.len()
        invariant
            k <= sets@.len(),
            sv == sets.deep_view(),
            key_index(sv, name@, 0) is None,
            suffix@ == "::"@ + name@,
            suffix_key_index(sv, "::"@ + name@, k as int) == suffix_key_index(sv, "::"@ + name@, 0),
        decreases sets.len() - k,
    {
        assert(sv[k as int].0 == sets@[k as int].0@);
        if key_ends_with(sets[k].0.as_str(), &suffix) {
            assert(sv[k as int].1 == sets@[k as int].1.deep_view());
            return crate::model::clone_channel_descriptors(&sets[k].1);
        }
        k = k + 1;
    }
    let r: Vec<BridgeChannelDescriptor> = Vec::new();
    assert(r.deep_view() =~= Seq::<ChannelModel>::empty());
    r
}

fn lookup_optional(sets: &Vec<(String, Vec<BridgeChannelDescriptor>)>, name: Option<&String>) -> (r: Vec<BridgeChannelDescriptor>)
    ensures
        r.deep_view() == lookup_named(sets.deep_view(), match name {
            Some(n) => Some(n@),
            None => None,
        }),
{
    match name {
        Some(n) => lookup_channel_set(sets, n.as_str()),
        None => {
            let r: Vec<BridgeChannelDescriptor> = Vec::new();
            assert(r.deep_view() =~= Seq::<ChannelModel>::empty());
            r
        },
    }
}

fn append_channels(out: &mut Vec<BridgeChannelDescriptor>, more: Vec<BridgeChannelDescriptor>)
    ensures
        final(out).deep_view() == old(out).deep_view() + more.deep_view(),
{
    let ghost before = out.deep_view();
    let mut more = more;
    let ghost mv = more.deep_view();
    let n = more.len();
    let mut i: usize = 0;
    let ghost orig = more@;
    while i < n
        invariant
            i <= n,
            n == orig.len(),
            mv.len() == n,
            forall|j: int| 0 <= j < n ==> mv[j] == (#[trigger] orig[j]).deep_view(),
            more@ =~= orig.subrange(i as int, n as int),
            out.deep_view() =~= before + mv.take(i as int),
        decreases n - i,
    {
        let c = more.remove(0);
        assert(c == orig[i as int]);
        let ghost mid = out.deep_view();
        out.push(c);
        assert(out.deep_view() =~= mid.push(mv[i as int]));
        assert(mv.take(i + 1) =~= mv.take(i as int).push(mv[i as int]));
        i = i + 1;
        assert(more@ =~= orig.subrange(i as int, n as int));
    }
    assert(mv.take(n as int) =~= mv);
}

/// The payload ports of the channels in one direction (see [`directed_ports`]).
fn directed_ports_of(chans: &Vec<BridgeChannelDescriptor>, direction: PortDirection) -> (r: Vec<PortDescriptor>)
    ensures
        r.deep_view() == directed_ports(chans.deep_view(), direction),
{
    let ghost cv = chans.deep_view();
    let mut out: Vec<PortDescriptor> = Vec::new();
    let mut i: usize = 0;
    assert(cv.take(0) =~= Seq::<ChannelModel>::empty());
    assert(out.deep_view() =~= Seq::<PortModel>::empty());
    while i < chans.len()
        invariant
            i <= chans@.len(),
            cv == chans.deep_view(),
            out.deep_view() == directed_ports(cv.take(i as int), direction),
            out@.len() <= i,
        decreases chans.len() - i,
    {
        assert(cv.take(i + 1).drop_last() =~= cv.take(i as int));
        assert(cv.take(i + 1).last() == cv[i as int]);
        assert(cv[i as int] == chans@[i as int].deep_view());
        if chans[i].direction == direction {
            let mut port = chans[i].payload.clone();
            port.ordinal = out.len();
            let ghost before = out.deep_view();
            out.push(port);
            assert(out.deep_view() =~= before.push(PortModel { ordinal: before.len() as usize, ..cv[i as int].payload }));
        }
        i = i + 1;
    }
    assert(cv.take(chans.len() as int) =~= cv);
    out
}

impl Collector {
    /// The component an implementation makes (see [`component_of`]).
    pub fn component_from_impl(&self, record: &ImplRecord, concrete_alias: Option<&AliasRecord>) -> (r: ComponentDescriptor)
        ensures
            r.deep_view() == component_of(self.deep_view(), record.deep_view(), match concrete_alias {
                Some(a) => Some(a.deep_view()),
                None => None,
            }),
    {
        let ghost c = self.deep_view();
        let ghost am = match concrete_alias {
            Some(a) => Some(a.deep_view()),
            None => None::<AliasModel>,
        };
        proof {
            reveal_strlit("CuSrcTask");
            reveal_strlit("CuTask");
            reveal_strlit("CuSinkTask");
            reveal_strlit("CuBridge");
            reveal_strlit("CuMonitor");
        }
        let (type_path, package, workspace_only, source_path, is_app, crate_name, imports) = match concrete_alias {
            Some(alias) => (
                alias.qualified.clone(),
                alias.package.clone(),
                alias.workspace_only,
                alias.source_path.clone(),
                alias.is_app,
                alias.crate_name.clone(),
                crate::model::clone_pairs(&alias.imports),
            ),
            None => (
                record.qualified_self.clone(),
                record.package.clone(),
                record.workspace_only,
                record.source_path.clone(),
                record.is_app,
                record.crate_name.clone(),
                crate::model::clone_pairs(&record.imports),
            ),
        };
        let t = record.trait_name.as_str();
        let kind = if str_eq(t, "CuSrcTask") {
            ComponentKind::Source
        } else if str_eq(t, "CuTask") {
            ComponentKind::Task
        } else if str_eq(t, "CuSinkTask") {
            ComponentKind::Sink
        } else if str_eq(t, "CuBridge") {
            ComponentKind::Bridge
        } else if str_eq(t, "CuMonitor") {
            ComponentKind::Monitor
        } else {
            ComponentKind::Unresolved
        };
        assert(kind == kind_of_trait(record.trait_name@));
        let mut channels: Vec<BridgeChannelDescriptor> = Vec::new();
        assert(channels.deep_view() =~= Seq::<ChannelModel>::empty());
        if kind == ComponentKind::Bridge {
            match concrete_alias {
                Some(alias) => {
                    let first = if alias.target_arguments.len() > 0 {
                        Some(&alias.target_arguments[0])
                    } else {
                        None
                    };
                    let tx = lookup_optional(&self.channel_sets, first);
                    let second = if alias.target_arguments.len() > 1 {
                        Some(&alias.target_arguments[1])
                    } else {
                        None
                    };
                    let rx = lookup_optional(&self.channel_sets, second);
                    append_channels(&mut channels, tx);
                    append_channels(&mut channels, rx);
                    assert(channels.deep_view() =~= bridge_channels(c, record.deep_view(), am));
                },
                None => {
                    let tx = lookup_optional(&self.channel_sets, record.tx_set.as_ref());
                    let rx = lookup_optional(&self.channel_sets, record.rx_set.as_ref());
                    append_channels(&mut channels, tx);
                    append_channels(&mut channels, rx);
                    assert(channels.deep_view() =~= bridge_channels(c, record.deep_view(), am));
                },
            }
        }
        let inputs = if kind == ComponentKind::Bridge {
            directed_ports_of(&channels, PortDirection::Input)
        } else {
            make_ports(&record.inputs, PortDirection::Input, is_app, crate_name.as_str(), record.module.as_str(), &imports)
        };
        let outputs = if kind == ComponentKind::Bridge {
            directed_ports_of(&channels, PortDirection::Output)
        } else {
            make_ports(&record.outputs, PortDirection::Output, is_app, crate_name.as_str(), record.module.as_str(), &imports)
        };
        let display_name = last_segment_of(type_path.as_str());
        ComponentDescriptor {
            type_path,
            display_name,
            package,
            kind,
            inputs,
            outputs,
            channels,
            config_hints: clone_hints(&record.hints),
            workspace_only,
            source_path: Some(source_path),
        }
    }
}


proof fn lemma_insert_listed(sorted: Seq<ComponentModel>, x: ComponentModel, j: int)
    requires
        0 <= j <= sorted.len(),
        j == 0 || !listed_before(x, sorted[j - 1]),
        forall|i: int| j <= i < sorted.len() ==> listed_before(x, sorted[i]),
    ensures
        insert_listed(sorted, x) == sorted.subrange(0, j).push(x) + sorted.subrange(j, sorted.len() as int),
    decreases sorted.len(),
{
    if sorted.len() == 0 {
        assert(sorted.subrange(0, j).push(x) + sorted.subrange(j, sorted.len() as int) =~= seq![x]);
    } else if j == sorted.len() {
        assert(sorted.subrange(0, j) =~= sorted);
        assert(sorted.subrange(0, j).push(x) + sorted.subrange(j, sorted.len() as int) =~= sorted.push(x));
    } else {
        let d = sorted.drop_last();
        lemma_insert_listed(d, x, j);
        assert(d.subrange(0, j) =~= sorted.subrange(0, j));
        assert(sorted.subrange(0, j).push(x) + sorted.subrange(j, sorted.len() as int) =~= (
        d.subrange(0, j).push(x) + d.subrange(j, d.len() as int)).push(sorted.last()));
    }
}

/// Whether `a` is listed before `b` (see [`listed_before`]).
fn is_listed_before(a: &ComponentDescriptor, b: &ComponentDescriptor) -> (r: bool)
    ensures
        r == listed_before(a.deep_view(), b.deep_view()),
{
    let c = str_compare(a.kind.label(), b.kind.label());
    if c < 0 {
        true
    } else if c > 0 {
        false
    } else {
        str_compare(a.type_path.as_str(), b.type_path.as_str()) < 0
    }
}

/// Orders components by kind label, then path, keeping the order of equal ones.
fn sort_components(items: Vec<ComponentDescriptor>) -> (r: Vec<ComponentDescriptor>)
    ensures
        r.deep_view() == sort_listed(items.deep_view()),
{
    let ghost iv = items.deep_view();
    let ghost orig = items@;
    assert(forall|i: int| 0 <= i < orig.len() ==> iv[i] == (#[trigger] orig[i]).deep_view());
    let mut rest = items;
    let n = rest.len();
    let mut sorted: Vec<ComponentDescriptor> = Vec::new();
    let mut k: usize = 0;
    assert(iv.take(0) =~= Seq::<ComponentModel>::empty());
    assert(sorted.deep_view() =~= Seq::<ComponentModel>::empty());
    while k < n
        invariant
            k <= n,
            n == iv.len(),
            n == orig.len(),
            rest@ =~= orig.subrange(k as int, n as int),
            forall|i: int| 0 <= i < n ==> iv[i] == (#[trigger] orig[i]).deep_view(),
            sorted.deep_view() == sort_listed(iv.take(k as int)),
        decreases n - k,
    {
        let x = rest.remove(0);
        assert(x == orig[k as int]);
        let ghost sv = sorted.deep_view();
        let mut j: usize = sorted.len();
        while j > 0 && is_listed_before(&x, &sorted[j - 1])
            invariant
                j <= sorted@.len(),
                sv == sorted.deep_view(),
                forall|i: int| j <= i < sv.len() ==> listed_before(x.deep_view(), sv[i]),
            decreases j,
        {
            j = j - 1;
        }
        proof {
            lemma_insert_listed(sv, x.deep_view(), j as int);
        }
        let ghost xs = x;
        sorted.insert(j, x);
        assert(sorted.deep_view() =~= sv.subrange(0, j as int).push(xs.deep_view()) + sv.subrange(j as int, sv.len() as int));
        assert(iv.take(k + 1).drop_last() =~= iv.take(k as int));
        assert(iv.take(k + 1).last() == xs.deep_view());
        k = k + 1;
        assert(rest@ =~= orig.subrange(k as int, n as int));
    }
    assert(iv.take(n as int) =~= iv);
    sorted
}

/// Drops each component whose path equals the one kept before it.
fn drop_repeats(items: Vec<ComponentDescriptor>) -> (r: Vec<ComponentDescriptor>)
    ensures
        r.deep_view() == without_repeats(items.deep_view()),
{
    let ghost iv = items.deep_view();
    let ghost orig = items@;
    assert(forall|i: int| 0 <= i < orig.len() ==> iv[i] == (#[trigger] orig[i]).deep_view());
    let mut rest = items;
    let n = rest.len();
    let mut kept: Vec<ComponentDescriptor> = Vec::new();
    let mut k: usize = 0;
    assert(iv.take(0) =~= Seq::<ComponentModel>::empty());
    assert(kept.deep_view() =~= Seq::<ComponentModel>::empty());
    while k < n
        invariant
            k <= n,
            n == iv.len(),
            n == orig.len(),
            rest@ =~= orig.subrange(k as int, n as int),
            forall|i: int| 0 <= i < n ==> iv[i] == (#[trigger] orig[i]).deep_view(),
            kept.deep_view() == without_repeats(iv.take(k as int)),
        decreases n - k,
    {
        let x = rest.remove(0);
        assert(x == orig[k as int]);
        assert(iv.take(k + 1).drop_last() =~= iv.take(k as int));
        assert(iv.take(k + 1).last() == x.deep_view());
        let repeat = kept.len() > 0 && str_eq(kept[kept.len() - 1].type_path.as_str(), x.type_path.as_str());
        proof {
            if kept@.len() > 0 {
                assert(kept.deep_view().last() == kept@[kept@.len() - 1].deep_view());
            }
        }
        if !repeat {
            let ghost before = kept.deep_view();
            let ghost xs = x;
            kept.push(x);
            assert(kept.deep_view() =~= before.push(xs.deep_view()));
        }
        k = k + 1;
        assert(rest@ =~= orig.subrange(k as int, n as int));
    }
    assert(iv.take(n as int) =~= iv);
    kept
}

/// Whether a re-export names the component (see [`matches_use`]).
fn use_names(m: &ComponentDescriptor, u: &crate::collector::PublicUseRecord) -> (r: bool)
    ensures
        r == matches_use(m.deep_view(), u.deep_view()),
{
    if !str_eq(m.package.as_str(), u.package.as_str()) || !str_eq(m.display_name.as_str(), u.name.as_str()) {
        return false;
    }
    let target = normalize_type(u.target.as_str());
    let path = normalize_type(m.type_path.as_str());
    let t = chars_of(target.as_str());
    let p = chars_of(path.as_str());
    ends_with(p.as_slice(), t.as_slice())
}

fn find_use_match(comps: &Vec<ComponentDescriptor>, u: &crate::collector::PublicUseRecord, from: usize) -> (r: Option<usize>)
    ensures
        r matches Some(i) ==> i < comps@.len() && use_match(comps.deep_view(), u.deep_view(), from as int) == Some(i as int),
        r is None ==> use_match(comps.deep_view(), u.deep_view(), from as int) is None,
{
    let ghost cv = comps.deep_view();
    let mut k: usize = from;
    if k >= comps.len() {
        return None;
    }
    while k < comps.len()
        invariant
            from <= k <= comps@.len(),
            cv == comps.deep_view(),
            use_match(cv, u.deep_view(), k as int) == use_match(cv, u.deep_view(), from as int),
        decreases comps.len() - k,
    {
        assert(cv[k as int] == comps@[k as int].deep_view());
        if use_names(&comps[k], u) {
            return Some(k);
        }
        k = k + 1;
    }
    None
}

impl Collector {
    /// A type followed through aliases (see [`resolved`]).
    pub fn resolve_alias(&self, ty: &str, depth: usize) -> (r: String)
        requires
            depth <= 17,
        ensures
            r@ == resolved(self.deep_view(), ty@, depth as nat),
        decreases 17 - depth,
    {
        let ghost c = self.deep_view();
        let n = normalize_type(ty);
        if depth > 16 {
            return n;
        }
        let found = match find_alias(&self.aliases, n.as_str()) {
            Some(i) => Some(i),
            None => {
                let name = last_segment_of(n.as_str());
                match find_simple(&self.simple_aliases, name.as_str()) {
                    Some(j) => {
                        assert(c.simple_aliases[j as int].1 == self.simple_aliases@[j as int].1.deep_view());
                        if self.simple_aliases[j].1.len() == 1 {
                            find_alias(&self.aliases, self.simple_aliases[j].1[0].as_str())
                        } else {
                            None
                        }
                    },
                    None => None,
                }
            },
        };
        match found {
            Some(i) => {
                let a = &self.aliases[i];
                assert(a.deep_view() == c.aliases[i as int]);
                let target = qualify_type(a.target_text.as_str(), a.is_app, a.crate_name.as_str(), a.module.as_str(), &a.imports);
                self.resolve_alias(target.as_str(), depth + 1)
            },
            None => n,
        }
    }

    fn resolve_ports(&self, ports: &mut Vec<PortDescriptor>)
        ensures
            final(ports).deep_view() == Seq::new(
                old(ports).deep_view().len(),
                |i: int| resolved_port(self.deep_view(), old(ports).deep_view()[i]),
            ),
    {
        let ghost pv = ports.deep_view();
        let mut i: usize = 0;
        while i < ports.len()
            invariant
                i <= ports@.len(),
                ports@.len() == pv.len(),
                forall|j: int| 0 <= j < i ==> (#[trigger] ports.deep_view()[j]) == resolved_port(self.deep_view(), pv[j]),
                forall|j: int| i <= j < pv.len() ==> (#[trigger] ports.deep_view()[j]) == pv[j],
            decreases ports.len() - i,
        {
            let canonical = self.resolve_alias(ports[i].serialized_type.as_str(), 0);
            let ghost before = ports.deep_view();
            assert(ports.deep_view()[i as int] == pv[i as int]);
            assert(before[i as int] == ports@[i as int].deep_view());
            ports[i].canonical_type = canonical;
            assert(ports@[i as int].deep_view() == resolved_port(self.deep_view(), pv[i as int]));
            assert(ports.deep_view() =~= before.update(i as int, resolved_port(self.deep_view(), pv[i as int])));
            i = i + 1;
        }
        assert(ports.deep_view() =~= Seq::new(pv.len(), |i: int| resolved_port(self.deep_view(), pv[i])));
    }

    fn resolve_component(&self, m: &mut ComponentDescriptor)
        ensures
            final(m).deep_view() == resolved_component(self.deep_view(), old(m).deep_view()),
    {
        let ghost m0 = m.deep_view();
        self.resolve_ports(&mut m.inputs);
        self.resolve_ports(&mut m.outputs);
        let ghost cv = m.channels.deep_view();
        let ghost m1 = m.deep_view();
        let mut i: usize = 0;
        while i < m.channels.len()
            invariant
                i <= m.channels@.len(),
                m.deep_view() == (ComponentModel { channels: m.channels.deep_view(), ..m1 }),
                m.channels@.len() == cv.len(),
                cv == m0.channels,
                forall|j: int| 0 <= j < i ==> (#[trigger] m.channels.deep_view()[j]) == (ChannelModel {
                    payload: resolved_port(self.deep_view(), cv[j].payload),
                    ..cv[j]
                }),
                forall|j: int| i <= j < cv.len() ==> (#[trigger] m.channels.deep_view()[j]) == cv[j],
            decreases m.channels.len() - i,
        {
            let canonical = self.resolve_alias(m.channels[i].payload.serialized_type.as_str(), 0);
            let ghost before = m.channels.deep_view();
            assert(m.channels.deep_view()[i as int] == cv[i as int]);
            assert(before[i as int] == m.channels@[i as int].deep_view());
            m.channels[i].payload.canonical_type = canonical;
            assert(m.channels.deep_view() =~= before.update(
                i as int,
                ChannelModel { payload: resolved_port(self.deep_view(), cv[i as int].payload), ..cv[i as int] },
            ));
            i = i + 1;
        }
        let ghost target = resolved_component(self.deep_view(), m0);
        assert(m.deep_view().inputs =~= target.inputs);
        assert(m.deep_view().outputs =~= target.outputs);
        assert(m.deep_view().channels =~= target.channels);
        assert(m.deep_view() =~= target);
    }

    /// The catalog of what was gathered (see [`catalog_components`]).
    pub fn finish(self) -> (r: ComponentCatalog)
        ensures
            r.components.deep_view() == catalog_components(self.deep_view()),
            r.diagnostics.deep_view() == self.deep_view().diagnostics,
    {
        let ghost c = self.deep_view();
        let mut made: Vec<ComponentDescriptor> = Vec::new();
        let mut k: usize = 0;
        assert(made.deep_view() =~= Seq::<ComponentModel>::empty());
        while k < self.impls.len()
            invariant
                k <= self.impls@.len(),
                c == self.deep_view(),
                made.deep_view() == base_components(c, k as int),
            decreases self.impls.len() - k,
        {
            let record = &self.impls[k];
            assert(record.deep_view() == c.impls[k as int]);
            proof {
                reveal_strlit("CuBridge");
            }
            if !(str_eq(record.trait_name.as_str(), "CuBridge") && record.self_generic) {
                let m = self.component_from_impl(record, None);
                let ghost before = made.deep_view();
                made.push(m);
                assert(made.deep_view() =~= before.push(m.deep_view()));
            }
            k = k + 1;
        }
        let ghost base = made.deep_view();
        let mut k: usize = 0;
        while k < self.aliases.len()
            invariant
                k <= self.aliases@.len(),
                c == self.deep_view(),
                made.deep_view() == base + alias_components(c, k as int),
            decreases self.aliases.len() - k,
        {
            let alias = &self.aliases[k];
            assert(alias.deep_view() == c.aliases[k as int]);
            match &alias.target_base {
                Some(b) => {
                    let mut j: usize = 0;
                    let mut found: Option<usize> = None;
                    while j < self.impls.len()
                        invariant_except_break
                            j <= self.impls@.len(),
                            c == self.deep_view(),
                            found is None,
                            bridge_named(c.impls, b@, j as int) == bridge_named(c.impls, b@, 0),
                        ensures
                            c == self.deep_view(),
                            found matches Some(f) ==> f < self.impls@.len() && bridge_named(c.impls, b@, 0) == Some(f as int),
                            found is None ==> bridge_named(c.impls, b@, 0) is None,
                        decreases self.impls.len() - j,
                    {
                        let r = &self.impls[j];
                        assert(r.deep_view() == c.impls[j as int]);
                        proof {
                            reveal_strlit("CuBridge");
                        }
                        let base_matches = match &r.self_base {
                            Some(sb) => str_eq(sb.as_str(), b.as_str()),
                            None => false,
                        };
                        if str_eq(r.trait_name.as_str(), "CuBridge") && r.self_generic && base_matches {
                            found = Some(j);
                            break;
                        }
                        j = j + 1;
                    }
                    match found {
                        Some(f) => {
                            assert(self.impls@[f as int].deep_view() == c.impls[f as int]);
                            let m = self.component_from_impl(&self.impls[f], Some(alias));
                            let ghost before = made.deep_view();
                            made.push(m);
                            assert(made.deep_view() =~= before.push(m.deep_view()));
                        },
                        None => {},
                    }
                },
                None => {},
            }
            k = k + 1;
        }
        let ghost all_made = made.deep_view();
        let mut i: usize = 0;
        while i < made.len()
            invariant
                i <= made@.len(),
                made@.len() == all_made.len(),
                c == self.deep_view(),
                forall|j: int| 0 <= j < i ==> (#[trigger] made.deep_view()[j]) == resolved_component(c, all_made[j]),
                forall|j: int| i <= j < all_made.len() ==> (#[trigger] made.deep_view()[j]) == all_made[j],
            decreases made.len() - i,
        {
            let ghost before = made.deep_view();
            assert(made.deep_view()[i as int] == all_made[i as int]);
            assert(before[i as int] == made@[i as int].deep_view());
            self.resolve_component(&mut made[i]);
            assert(made.deep_view() =~= before.update(i as int, resolved_component(c, all_made[i as int])));
            i = i + 1;
        }
        let ghost resolved_made = made.deep_view();
        assert(resolved_made =~= Seq::new(all_made.len(), |j: int| resolved_component(c, all_made[j])));
        let mut extra: Vec<ComponentDescriptor> = Vec::new();
        let mut u: usize = 0;
        assert(extra.deep_view() =~= Seq::<ComponentModel>::empty());
        while u < self.public_uses.len()
            invariant
                u <= self.public_uses@.len(),
                c == self.deep_view(),
                made.deep_view() == resolved_made,
                extra.deep_view() == reexports(resolved_made, c.public_uses, u as int),
            decreases self.public_uses.len() - u,
        {
            let pu = &self.public_uses[u];
            assert(pu.deep_view() == c.public_uses[u as int]);
            let ml = made.len();
            match find_use_match(&made, pu, 0) {
                Some(i) => {
                    assert(i < ml);
                    if find_use_match(&made, pu, i + 1).is_none() {
                        let mut copy = made[i].clone();
                        copy.type_path = pu.exported.clone();
                        let ghost before = extra.deep_view();
                        extra.push(copy);
                        assert(made@[i as int].deep_view() == resolved_made[i as int]);
                        assert(extra.deep_view() =~= before.push(ComponentModel { type_path: pu.exported@, ..resolved_made[i as int] }));
                    }
                },
                None => {},
            }
            u = u + 1;
        }
        let mut components = made;
        append_components(&mut components, extra);
        let sorted = sort_components(components);
        let components = drop_repeats(sorted);
        ComponentCatalog { components, diagnostics: self.diagnostics }
    }
}

fn append_components(out: &mut Vec<ComponentDescriptor>, more: Vec<ComponentDescriptor>)
    ensures
        final(out).deep_view() == old(out).deep_view() + more.deep_view(),
{
    let ghost before = out.deep_view();
    let mut more = more;
    let ghost mv = more.deep_view();
    let ghost orig = more@;
    assert(forall|j: int| 0 <= j < orig.len() ==> mv[j] == (#[trigger] orig[j]).deep_view());
    let n = more.len();
    let mut i: usize = 0;
    while i < n
        invariant
            i <= n,
            n == orig.len(),
            mv.len() == n,
            forall|j: int| 0 <= j < n ==> mv[j] == (#[trigger] orig[j]).deep_view(),
            more@ =~= orig.subrange(i as int, n as int),
            out.deep_view() =~= before + mv.take(i as int),
        decreases n - i,
    {
        let x = more.remove(0);
        assert(x == orig[i as int]);
        let ghost mid = out.deep_view();
        out.push(x);
        assert(out.deep_view() =~= mid.push(mv[i as int]));
        assert(mv.take(i + 1) =~= mv.take(i as int).push(mv[i as int]));
        i = i + 1;
        assert(more@ =~= orig.subrange(i as int, n as int));
    }
    assert(mv.take(n as int) =~= mv);
}


// ---------------------------------------------------------------------------
// Indexing packages
// ---------------------------------------------------------------------------

/// A Rust source file of a package: its path as shown to the user, the
/// components of its path below the source root, and its items (or why it
/// could not be parsed).
#[derive(Debug)]
pub struct SourceFile {
    pub path: String,
    pub relative_parts: Vec<String>,
    pub items: Result<Vec<SourceItem>, String>,
}

/// The sources of a package: its files, or none where its source root does
/// not exist (`root` is that root as shown to the user).
#[derive(Debug)]
pub struct PackageSources {
    pub package_name: String,
    pub crate_name: String,
    pub workspace_only: bool,
    pub root: String,
    pub files: Option<Vec<SourceFile>>,
}

pub open spec fn file_scope(p: PackageSources, f: SourceFile, is_app: bool) -> ScopeModel {
    ScopeModel {
        package_name: p.package_name@,
        crate_name: p.crate_name@,
        workspace_only: p.workspace_only,
        is_app,
        source_path: f.path@,
    }
}

/// What one file adds: its items, or a diagnostic where it could not be parsed.
pub open spec fn indexed_file(c: CollectorModel, p: PackageSources, f: SourceFile, is_app: bool) -> CollectorModel {
    match f.items {
        Ok(items) => collected(c, file_scope(p, f, is_app), crate::naming::module_of(f.relative_parts.deep_view()), items@),
        Err(e) => CollectorModel { diagnostics: c.diagnostics.push("Could not parse "@ + f.path@ + ": "@ + e@), ..c },
    }
}

pub open spec fn indexed_files(c: CollectorModel, p: PackageSources, files: Seq<SourceFile>, is_app: bool, k: int) -> CollectorModel
    decreases k,
{
    if k <= 0 || k > files.len() {
        c
    } else {
        indexed_file(indexed_files(c, p, files, is_app, k - 1), p, files[k - 1], is_app)
    }
}

/// What a package adds: its files in turn (those of the application are not
/// qualified by crate), or a diagnostic where its sources are missing.
pub open spec fn indexed_package(c: CollectorModel, p: PackageSources, app_package: Seq<char>) -> CollectorModel {
    match p.files {
        None => CollectorModel {
            diagnostics: c.diagnostics.push(
                "Source for package '"@ + p.package_name@ + "' is not available at "@ + p.root@,
            ),
            ..c
        },
        Some(files) => indexed_files(c, p, files@, p.package_name@ == app_package, files@.len() as int),
    }
}

pub open spec fn indexed_packages_all(c: CollectorModel, packages: Seq<PackageSources>, app_package: Seq<char>, k: int) -> CollectorModel
    decreases k,
{
    if k <= 0 || k > packages.len() {
        c
    } else {
        indexed_package(indexed_packages_all(c, packages, app_package, k - 1), packages[k - 1], app_package)
    }
}

pub open spec fn empty_collector() -> CollectorModel {
    CollectorModel {
        impls: Seq::empty(),
        aliases: Seq::empty(),
        simple_aliases: Seq::empty(),
        channel_sets: Seq::empty(),
        public_uses: Seq::empty(),
        diagnostics: Seq::empty(),
    }
}

impl Collector {
    fn index_file(&mut self, p: &PackageSources, f: &SourceFile, is_app: bool)
        ensures
            final(self).deep_view() == indexed_file(old(self).deep_view(), *p, *f, is_app),
    {
        match &f.items {
            Ok(items) => {
                let scope = PackageScope {
                    package_name: p.package_name.clone(),
                    crate_name: p.crate_name.clone(),
                    workspace_only: p.workspace_only,
                    is_app,
                    source_path: f.path.clone(),
                };
                let module = crate::naming::module_for_path(&f.relative_parts);
                assert(scope.deep_view() == file_scope(*p, *f, is_app));
                self.collect_items(&scope, module.as_str(), items);
            },
            Err(e) => {
                let mut m: Vec<char> = Vec::new();
                push_str(&mut m, "Could not parse ");
                push_str(&mut m, f.path.as_str());
                push_str(&mut m, ": ");
                push_str(&mut m, e.as_str());
                self.add_diagnostic(string_of(m.as_slice()));
            },
        }
    }

    /// Gathers what a package's sources contribute (see [`indexed_package`]).
    pub fn index_package(&mut self, p: &PackageSources, is_app: bool)
        ensures
            p.files is None ==> final(self).deep_view() == (CollectorModel {
                diagnostics: old(self).deep_view().diagnostics.push(
                    "Source for package '"@ + p.package_name@ + "' is not available at "@ + p.root@,
                ),
                ..old(self).deep_view()
            }),
            p.files matches Some(files) ==> final(self).deep_view() == indexed_files(
                old(self).deep_view(),
                *p,
                files@,
                is_app,
                files@.len() as int,
            ),
    {
        match &p.files {
            None => {
                let mut m: Vec<char> = Vec::new();
                push_str(&mut m, "Source for package '");
                push_str(&mut m, p.package_name.as_str());
                push_str(&mut m, "' is not available at ");
                push_str(&mut m, p.root.as_str());
                self.add_diagnostic(string_of(m.as_slice()));
            },
            Some(files) => {
                let ghost c0 = self.deep_view();
                let mut k: usize = 0;
                while k < files.len()
                    invariant
                        k <= files@.len(),
                        p.files == Some(*files),
                        self.deep_view() == indexed_files(c0, *p, files@, is_app, k as int),
                    decreases files.len() - k,
                {
                    self.index_file(p, &files[k], is_app);
                    k = k + 1;
                }
            },
        }
    }
}

impl ComponentCatalog {
    /// The catalog of the components in the packages' sources (see
    /// [`catalog_components`]); `app_package` names the application.
    pub fn index(app_package: &str, packages: &Vec<PackageSources>) -> (r: ComponentCatalog)
        ensures
            r.components.deep_view() == catalog_components(
                indexed_packages_all(empty_collector(), packages@, app_package@, packages@.len() as int),
            ),
            catalog_in_order(r.components.deep_view()),
            r.diagnostics.deep_view() == indexed_packages_all(
                empty_collector(),
                packages@,
                app_package@,
                packages@.len() as int,
            ).diagnostics,
    {
        let mut collector = Collector::new();
        let mut k: usize = 0;
        while k < packages.len()
            invariant
                k <= packages@.len(),
                collector.deep_view() == indexed_packages_all(empty_collector(), packages@, app_package@, k as int),
            decreases packages.len() - k,
        {
            let p = &packages[k];
            let is_app = str_eq(p.package_name.as_str(), app_package);
            collector.index_package(p, is_app);
            k = k + 1;
        }
        proof {
            lemma_catalog_in_order(collector.deep_view());
        }
        collector.finish()
    }
}

} // verus!
