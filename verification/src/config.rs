//! Loading a Copper configuration into a graph document and writing edits back
//! into the text it was loaded from, leaving untouched sections as they were.
use vstd::prelude::*;

use crate::fieldmap::{get_field, map_get, Pair};
use crate::model::{
    normalized_type, normalize_type, storage_name, ConstantDefinition, ConstantModel,
    NumericStorage, PortDescriptor, PortDirection, PortModel,
};
use crate::outside::{ron_parse_str, ron_parsed_str};
use crate::scan::{
    collection_bounds_ok, collection_bounds_ok_exec, collection_items, field_value_span,
    find_field_value_span_chars, parse_struct_fields, split_collection_items, struct_fields,
};
use crate::text::{chars_eq, chars_of, push_range, push_str, push_all, str_eq, string_of, trim, trimmed, decimal, decimal_exec};
use crate::outside::{sha256_of_text, sha256_text, lossless_diagnostic_count, lossless_diagnostics, lossless_reprint};
use crate::model::{DocumentModel, GraphDocument};
use crate::indexer::ComponentCatalog;
use crate::loader::{build_document, built_document, sections_splittable, RawRoot};
use crate::saving::{edited_text, insert_fields, replace_sections, replaced_text};
use crate::diagnostics::{document_diagnostics, has_error};
use std::path::PathBuf;

verus! {

// ---------------------------------------------------------------------------
// Endpoints and ports
// ---------------------------------------------------------------------------

/// `node/channel` splits at the first `/`; an endpoint without one names a node.
pub open spec fn endpoint_parts(endpoint: Seq<char>) -> (Seq<char>, Option<Seq<char>>) {
    match crate::scan::first_index_of(endpoint, '/') {
        Some(i) => (endpoint.subrange(0, i), Some(endpoint.subrange(i + 1, endpoint.len() as int))),
        None => (endpoint, None),
    }
}

pub fn split_endpoint(endpoint: &str) -> (r: (String, Option<String>))
    ensures
        r.0@ == endpoint_parts(endpoint@).0,
        r.1.deep_view() == endpoint_parts(endpoint@).1,
{
    let c = chars_of(endpoint);
    match crate::text::find_char(c.as_slice(), '/') {
        Some(i) => {
            proof {
                crate::scan::lemma_first_index_pub(c@, '/', i as int);
            }
            let mut a: Vec<char> = Vec::new();
            push_range(&mut a, c.as_slice(), 0, i);
            let mut b: Vec<char> = Vec::new();
            push_range(&mut b, c.as_slice(), i + 1, c.len());
            (string_of(a.as_slice()), Some(string_of(b.as_slice())))
        },
        None => {
            proof {
                crate::scan::lemma_no_index(c@, '/');
            }
            (endpoint.to_owned(), None)
        },
    }
}

/// A port made up from a connection: every type is the message type.
pub open spec fn inferred_port_model(direction: PortDirection, ordinal: usize, name: Seq<char>, message: Seq<char>) -> PortModel {
    PortModel {
        name,
        direction,
        ordinal,
        declared_type: message,
        serialized_type: message,
        canonical_type: message,
    }
}

pub fn inferred_port(direction: PortDirection, ordinal: usize, name: &str, message: &str) -> (r: PortDescriptor)
    ensures
        r.deep_view() == inferred_port_model(direction, ordinal, name@, message@),
{
    PortDescriptor {
        name: name.to_owned(),
        direction,
        ordinal,
        declared_type: message.to_owned(),
        serialized_type: message.to_owned(),
        canonical_type: message.to_owned(),
    }
}

/// The first port at or after `k` with the given name.
pub open spec fn port_named(ports: Seq<PortModel>, name: Seq<char>, k: int) -> Option<int>
    decreases ports.len() - k,
{
    if k < 0 || k >= ports.len() {
        None
    } else if ports[k].name == name {
        Some(k)
    } else {
        port_named(ports, name, k + 1)
    }
}

/// The first available port at or after `k` whose serialized (or, with
/// `canonical`, canonical) type normalizes to `normalized`.
pub open spec fn port_typed(
    ports: Seq<PortModel>,
    normalized: Seq<char>,
    unavailable: Seq<usize>,
    canonical: bool,
    k: int,
) -> Option<int>
    decreases ports.len() - k,
{
    if k < 0 || k >= ports.len() {
        None
    } else if !unavailable.contains(k as usize) && normalized_type(
        if canonical { ports[k].canonical_type } else { ports[k].serialized_type },
    ) == normalized {
        Some(k)
    } else {
        port_typed(ports, normalized, unavailable, canonical, k + 1)
    }
}

/// The ports after a connection asks for one, and the index it gets: the port
/// named by the channel (taking the message type if its type was unresolved),
/// else the first free port whose serialized, then canonical, type matches the
/// message, else a new port named after the channel or the message.
pub open spec fn ensured_port(
    ports: Seq<PortModel>,
    direction: PortDirection,
    channel: Option<Seq<char>>,
    message: Seq<char>,
    unavailable: Seq<usize>,
) -> (Seq<PortModel>, int) {
    let named = match channel {
        Some(ch) => port_named(ports, ch, 0),
        None => None,
    };
    match named {
        Some(i) => (
            if ports[i].canonical_type == "_unresolved"@ {
                ports.update(
                    i,
                    PortModel {
                        declared_type: message,
                        serialized_type: message,
                        canonical_type: message,
                        ..ports[i]
                    },
                )
            } else {
                ports
            },
            i,
        ),
        None => {
            let n = normalized_type(message);
            match port_typed(ports, n, unavailable, false, 0) {
                Some(i) => (ports, i),
                None => match port_typed(ports, n, unavailable, true, 0) {
                    Some(i) => (ports, i),
                    None => (
                        ports.push(
                            inferred_port_model(
                                direction,
                                ports.len() as usize,
                                match channel {
                                    Some(ch) => ch,
                                    None => message,
                                },
                                message,
                            ),
                        ),
                        ports.len() as int,
                    ),
                },
            }
        },
    }
}

/// The port a connection gets lies among the ports afterwards, which keep
/// every port there was.
pub proof fn lemma_ensured_port_fits(
    ports: Seq<PortModel>,
    direction: PortDirection,
    channel: Option<Seq<char>>,
    message: Seq<char>,
    unavailable: Seq<usize>,
)
    ensures
        0 <= ensured_port(ports, direction, channel, message, unavailable).1
            < ensured_port(ports, direction, channel, message, unavailable).0.len(),
        ensured_port(ports, direction, channel, message, unavailable).0.len() >= ports.len(),
        ensured_port(ports, direction, channel, message, unavailable).0.len() <= ports.len() + 1,
{
    if let Some(ch) = channel {
        lemma_port_named(ports, ch, 0);
    }
    let n = normalized_type(message);
    lemma_port_typed(ports, n, unavailable, false, 0);
    lemma_port_typed(ports, n, unavailable, true, 0);
}

proof fn lemma_port_named(ports: Seq<PortModel>, name: Seq<char>, k: int)
    requires
        0 <= k,
    ensures
        port_named(ports, name, k) matches Some(i) ==> k <= i < ports.len(),
    decreases ports.len() - k,
{
    if k < ports.len() && ports[k].name != name {
        lemma_port_named(ports, name, k + 1);
    }
}

proof fn lemma_port_typed(ports: Seq<PortModel>, n: Seq<char>, u: Seq<usize>, c: bool, k: int)
    requires
        0 <= k,
    ensures
        port_typed(ports, n, u, c, k) matches Some(i) ==> k <= i < ports.len(),
    decreases ports.len() - k,
{
    if k < ports.len() && !(!u.contains(k as usize) && normalized_type(
        if c { ports[k].canonical_type } else { ports[k].serialized_type },
    ) == n) {
        lemma_port_typed(ports, n, u, c, k + 1);
    }
}

fn contains_index(v: &Vec<usize>, x: usize) -> (r: bool)
    ensures
        r == v@.contains(x),
{
    let mut i: usize = 0;
    while i < v.len()
        invariant
            i <= v@.len(),
            forall|j: int| 0 <= j < i ==> v@[j] != x,
        decreases v.len() - i,
    {
        if v[i] == x {
            return true;
        }
        i = i + 1;
    }
    false
}

fn find_port_typed(
    ports: &Vec<PortDescriptor>,
    normalized: &Vec<char>,
    unavailable: &Vec<usize>,
    canonical: bool,
) -> (r: Option<usize>)
    ensures
        r matches Some(i) ==> port_typed(ports.deep_view(), normalized@, unavailable@, canonical, 0)
            == Some(i as int),
        r is None ==> port_typed(ports.deep_view(), normalized@, unavailable@, canonical, 0) is None,
{
    let ghost pv = ports.deep_view();
    let mut k: usize = 0;
    while k < ports.len()
        invariant
            k <= ports@.len(),
            pv == ports.deep_view(),
            port_typed(pv, normalized@, unavailable@, canonical, k as int) == port_typed(
                pv,
                normalized@,
                unavailable@,
                canonical,
                0,
            ),
        decreases ports.len() - k,
    {
        assert(pv[k as int] == ports@[k as int].deep_view());
        if !contains_index(unavailable, k) {
            let t = if canonical {
                normalize_type(ports[k].canonical_type.as_str())
            } else {
                normalize_type(ports[k].serialized_type.as_str())
            };
            let tc = chars_of(t.as_str());
            if chars_eq(tc.as_slice(), normalized.as_slice()) {
                return Some(k);
            }
        }
        k = k + 1;
    }
    None
}

/// The view of an optional string slice.
pub open spec fn opt_str_view(v: Option<&str>) -> Option<Seq<char>> {
    match v {
        Some(c) => Some(c@),
        None => None,
    }
}

/// Finds or adds the port a connection uses (see [`ensured_port`]).
pub fn ensure_port(
    ports: &mut Vec<PortDescriptor>,
    direction: PortDirection,
    channel: Option<&str>,
    message: &str,
    unavailable: &Vec<usize>,
) -> (r: usize)
    ensures
        final(ports).deep_view() == ensured_port(
            old(ports).deep_view(),
            direction,
            opt_str_view(channel),
            message@,
            unavailable@,
        ).0,
        r == ensured_port(
            old(ports).deep_view(),
            direction,
            opt_str_view(channel),
            message@,
            unavailable@,
        ).1,
{
    let ghost pv = ports.deep_view();
    if let Some(ch) = channel {
        let mut k: usize = 0;
        while k < ports.len()
            invariant
                k <= ports@.len(),
                pv == ports.deep_view(),
                pv == old(ports).deep_view(),
                channel == Some(ch),
                port_named(pv, ch@, k as int) == port_named(pv, ch@, 0),
            decreases ports.len() - k,
        {
            assert(pv[k as int] == ports@[k as int].deep_view());
            if str_eq(ports[k].name.as_str(), ch) {
                assert(port_named(pv, ch@, k as int) == Some(k as int));
                if str_eq(ports[k].canonical_type.as_str(), "_unresolved") {
                    let old_port = ports[k].clone();
                    let updated = PortDescriptor {
                        name: old_port.name,
                        direction: old_port.direction,
                        ordinal: old_port.ordinal,
                        declared_type: message.to_owned(),
                        serialized_type: message.to_owned(),
                        canonical_type: message.to_owned(),
                    };
                    ports.set(k, updated);
                    assert(ports.deep_view() =~= pv.update(
                        k as int,
                        PortModel {
                            declared_type: message@,
                            serialized_type: message@,
                            canonical_type: message@,
                            ..pv[k as int]
                        },
                    ));
                }
                return k;
            }
            k = k + 1;
        }
    }
    let n = normalize_type(message);
    let nc = chars_of(n.as_str());
    if let Some(i) = find_port_typed(ports, &nc, unavailable, false) {
        return i;
    }
    if let Some(i) = find_port_typed(ports, &nc, unavailable, true) {
        return i;
    }
    let ordinal = ports.len();
    let name = match channel {
        Some(c) => c,
        None => message,
    };
    ports.push(inferred_port(direction, ordinal, name, message));
    assert(ports.deep_view() =~= pv.push(
        inferred_port_model(direction, ordinal, name@, message@),
    ));
    ordinal
}

// ---------------------------------------------------------------------------
// Fields the editor does not model
// ---------------------------------------------------------------------------

/// The pairs whose key is not among `known`.
pub open spec fn without_known(e: Seq<Pair>, known: Seq<Seq<char>>) -> Seq<Pair>
    decreases e.len(),
{
    if e.len() == 0 {
        e
    } else {
        let rest = without_known(e.drop_last(), known);
        if known.contains(e.last().0) {
            rest
        } else {
            rest.push(e.last())
        }
    }
}

/// Each collection entry of a root section can be split (see [`collection_bounds_ok`]).
pub open spec fn section_splittable(s: Seq<char>, section: Seq<char>) -> bool {
    match field_value_span(s, section) {
        Some((a, b)) => collection_bounds_ok(s.subrange(a, b), '[', ']'),
        None => true,
    }
}

/// The entries of a root section that is a list, split at the top level.
pub open spec fn section_items(s: Seq<char>, section: Seq<char>) -> Seq<Seq<char>> {
    match field_value_span(s, section) {
        Some((a, b)) => collection_items(s.subrange(a, b), '[', ']'),
        None => Seq::empty(),
    }
}

/// For each entry of a section, its fields other than `known`.
pub open spec fn section_extras_spec(s: Seq<char>, section: Seq<char>, known: Seq<Seq<char>>) -> Seq<Seq<Pair>> {
    let items = section_items(s, section);
    Seq::new(items.len(), |i: int| without_known(struct_fields(items[i]), known))
}

/// Whether a section's entries can be split, computed as [`section_splittable`] says.
pub fn section_splittable_exec(s: &[char], section: &str) -> (r: bool)
    ensures
        r == section_splittable(s@, section@),
{
    let f = chars_of(section);
    match find_field_value_span_chars(s, f.as_slice()) {
        Some((a, b)) => {
            let mut v: Vec<char> = Vec::new();
            push_range(&mut v, s, a, b);
            collection_bounds_ok_exec(v.as_slice(), '[', ']')
        },
        None => true,
    }
}

fn section_item_list(s: &[char], section: &str) -> (r: Vec<Vec<char>>)
    requires
        section_splittable(s@, section@),
    ensures
        r.deep_view() == section_items(s@, section@),
{
    let f = chars_of(section);
    match find_field_value_span_chars(s, f.as_slice()) {
        Some((a, b)) => {
            let mut v: Vec<char> = Vec::new();
            push_range(&mut v, s, a, b);
            split_collection_items(v.as_slice(), '[', ']')
        },
        None => {
            let r: Vec<Vec<char>> = Vec::new();
            assert(r.deep_view() =~= Seq::<Seq<char>>::empty());
            r
        },
    }
}

fn is_known(known: &Vec<&str>, key: &str) -> (r: bool)
    ensures
        r == known.deep_view().contains(key@),
{
    let mut i: usize = 0;
    while i < known.len()
        invariant
            i <= known@.len(),
            forall|j: int| 0 <= j < i ==> known.deep_view()[j] != key@,
        decreases known.len() - i,
    {
        if str_eq(known[i], key) {
            assert(known.deep_view()[i as int] == key@);
            return true;
        }
        i = i + 1;
    }
    false
}

fn filter_known(e: Vec<(String, String)>, known: &Vec<&str>) -> (r: Vec<(String, String)>)
    ensures
        r.deep_view() == without_known(e.deep_view(), known.deep_view()),
{
    let ghost ev = e.deep_view();
    let mut out: Vec<(String, String)> = Vec::new();
    let mut i: usize = 0;
    assert(out.deep_view() =~= without_known(ev.take(0), known.deep_view()));
    while i < e.len()
        invariant
            i <= e@.len(),
            ev == e.deep_view(),
            out.deep_view() == without_known(ev.take(i as int), known.deep_view()),
        decreases e.len() - i,
    {
        let ghost t = ev.take(i + 1);
        assert(t.drop_last() =~= ev.take(i as int));
        assert(t.last() == ev[i as int]);
        assert(ev[i as int] == (e@[i as int].0@, e@[i as int].1@));
        if !is_known(known, e[i].0.as_str()) {
            let ghost before = out.deep_view();
            out.push((e[i].0.clone(), e[i].1.clone()));
            assert(out.deep_view() =~= before.push(ev[i as int]));
        }
        i = i + 1;
    }
    assert(ev.take(e.len() as int) =~= ev);
    out
}

/// For each entry of a root list section, its fields other than the known ones.
pub fn section_extras(s: &[char], section: &str, known: &Vec<&str>) -> (r: Vec<Vec<(String, String)>>)
    requires
        section_splittable(s@, section@),
    ensures
        r.deep_view() == section_extras_spec(s@, section@, known.deep_view()),
{
    let items = section_item_list(s, section);
    let ghost iv = items.deep_view();
    let mut out: Vec<Vec<(String, String)>> = Vec::new();
    let mut i: usize = 0;
    while i < items.len()
        invariant
            i <= items@.len(),
            iv == items.deep_view(),
            iv == section_items(s@, section@),
            out@.len() == i,
            forall|j: int| 0 <= j < i ==> (#[trigger] out@[j]).deep_view() == without_known(
                struct_fields(iv[j]),
                known.deep_view(),
            ),
        decreases items.len() - i,
    {
        assert(items@[i as int]@ == iv[i as int]);
        let fields = parse_struct_fields(items[i].as_slice());
        out.push(filter_known(fields, known));
        i = i + 1;
    }
    assert(out.deep_view() =~= section_extras_spec(s@, section@, known.deep_view()));
    out
}

// ---------------------------------------------------------------------------
// Constants
// ---------------------------------------------------------------------------

/// The first storage named `name`.
pub open spec fn storage_named(name: Seq<char>) -> Option<NumericStorage> {
    if name == storage_name(NumericStorage::I8) {
        Some(NumericStorage::I8)
    } else if name == storage_name(NumericStorage::I16) {
        Some(NumericStorage::I16)
    } else if name == storage_name(NumericStorage::I32) {
        Some(NumericStorage::I32)
    } else if name == storage_name(NumericStorage::I64) {
        Some(NumericStorage::I64)
    } else if name == storage_name(NumericStorage::Isize) {
        Some(NumericStorage::Isize)
    } else if name == storage_name(NumericStorage::U8) {
        Some(NumericStorage::U8)
    } else if name == storage_name(NumericStorage::U16) {
        Some(NumericStorage::U16)
    } else if name == storage_name(NumericStorage::U32) {
        Some(NumericStorage::U32)
    } else if name == storage_name(NumericStorage::U64) {
        Some(NumericStorage::U64)
    } else if name == storage_name(NumericStorage::Usize) {
        Some(NumericStorage::Usize)
    } else if name == storage_name(NumericStorage::F32) {
        Some(NumericStorage::F32)
    } else if name == storage_name(NumericStorage::F64) {
        Some(NumericStorage::F64)
    } else {
        None
    }
}

pub fn parse_storage(value: &str) -> (r: Option<NumericStorage>)
    ensures
        r == storage_named(value@),
{
    let all = NumericStorage::ALL;
    let mut i: usize = 0;
    while i < 12
        invariant
            i <= 12,
            all@ == crate::model::all_storages(),
            forall|j: int| 0 <= j < i ==> storage_name(#[trigger] all@[j]) != value@,
        decreases 12 - i,
    {
        if str_eq(all[i].ron_name(), value) {
            return Some(all[i]);
        }
        i = i + 1;
    }
    None
}

pub open spec fn opt_trim(v: Option<Seq<char>>) -> Option<Seq<char>> {
    match v {
        Some(t) => Some(trim(t)),
        None => None,
    }
}

/// The string a field holds once its RON text is decoded, where the field is
/// present and decodes.
pub open spec fn decoded_field(f: Seq<Pair>, key: Seq<char>) -> Option<Seq<char>> {
    match map_get(f, key) {
        Some(t) => ron_parsed_str(t),
        None => None,
    }
}

/// The constant an entry describes, given its fields `f` and the decoded
/// strings of its `id`, `module`, `type` and `expression` fields: it needs an
/// `id`; where both `type` and `expression` are present it is an expression
/// (and needs both decoded), otherwise a number stored as `storage` (`f32` by
/// default) with its trimmed `quantity` and `unit` and its `value` text
/// (`0.0` by default). A `module` that is missing or does not decode is empty.
pub open spec fn constant_from_decoded(
    f: Seq<Pair>,
    id: Option<Seq<char>>,
    module: Option<Seq<char>>,
    rust_type: Option<Seq<char>>,
    expression: Option<Seq<char>>,
) -> Option<ConstantModel> {
    match id {
        None => None,
        Some(id) => {
            let module = match module {
                Some(m) => m,
                None => Seq::empty(),
            };
            match (map_get(f, "type"@), map_get(f, "expression"@)) {
                (Some(_), Some(_)) => match (rust_type, expression) {
                    (Some(rust_type), Some(expression)) => Some(
                        ConstantModel::Expression { id, module, rust_type, expression },
                    ),
                    _ => None,
                },
                _ => Some(
                    ConstantModel::Numeric {
                        id,
                        module,
                        storage: match map_get(f, "storage"@) {
                            Some(t) => match storage_named(trim(t)) {
                                Some(s) => s,
                                None => NumericStorage::F32,
                            },
                            None => NumericStorage::F32,
                        },
                        quantity: opt_trim(map_get(f, "quantity"@)),
                        unit: opt_trim(map_get(f, "unit"@)),
                        value_ron: match map_get(f, "value"@) {
                            Some(v) => v,
                            None => "0.0"@,
                        },
                    },
                ),
            }
        },
    }
}

/// The constant an entry of the `constants` section describes (see
/// [`constant_from_decoded`]), its string fields decoded as RON strings.
pub open spec fn constant_from_item(item: Seq<char>) -> Option<ConstantModel> {
    let f = struct_fields(item);
    constant_from_decoded(
        f,
        decoded_field(f, "id"@),
        decoded_field(f, "module"@),
        decoded_field(f, "type"@),
        decoded_field(f, "expression"@),
    )
}

/// The constants of the first `k` entries.
pub open spec fn constants_from_items(items: Seq<Seq<char>>, k: int) -> Seq<ConstantModel>
    decreases k,
{
    if k <= 0 || k > items.len() {
        Seq::empty()
    } else {
        match constant_from_item(items[k - 1]) {
            Some(c) => constants_from_items(items, k - 1).push(c),
            None => constants_from_items(items, k - 1),
        }
    }
}

/// The constants the `constants` section of a configuration defines.
pub open spec fn parsed_constants(s: Seq<char>) -> Seq<ConstantModel> {
    let items = section_items(s, "constants"@);
    constants_from_items(items, items.len() as int)
}

fn trimmed_string(s: &String) -> (r: String)
    ensures
        r@ == trim(s@),
{
    let c = chars_of(s.as_str());
    let t = trimmed(c.as_slice(), 0, c.len());
    assert(c@.subrange(0, c@.len() as int) =~= c@);
    string_of(t.as_slice())
}

fn opt_trimmed(v: Option<&String>) -> (r: Option<String>)
    ensures
        r.deep_view() == opt_trim(match v {
            Some(s) => Some(s@),
            None => None,
        }),
{
    match v {
        Some(s) => Some(trimmed_string(s)),
        None => None,
    }
}

/// The constant an entry describes, given its fields and the decoded strings
/// of its `id`, `module`, `type` and `expression` fields (see [`constant_from_decoded`]).
pub fn constant_from_fields(
    fields: &Vec<(String, String)>,
    id: Option<String>,
    module: Option<String>,
    rust_type: Option<String>,
    expression: Option<String>,
) -> (r: Option<ConstantDefinition>)
    ensures
        r.deep_view() == constant_from_decoded(
            fields.deep_view(),
            id.deep_view(),
            module.deep_view(),
            rust_type.deep_view(),
            expression.deep_view(),
        ),
{
    proof {
        reveal_strlit("type");
        reveal_strlit("expression");
        reveal_strlit("storage");
        reveal_strlit("quantity");
        reveal_strlit("unit");
        reveal_strlit("value");
    }
    let id = match id {
        Some(id) => id,
        None => return None,
    };
    let module = match module {
        Some(m) => m,
        None => String::new(),
    };
    if get_field(fields, "type").is_some() && get_field(fields, "expression").is_some() {
        return match (rust_type, expression) {
            (Some(rust_type), Some(expression)) => Some(ConstantDefinition::Expression { id, module, rust_type, expression }),
            _ => None,
        };
    }
    let storage = match get_field(fields, "storage") {
        Some(t) => match parse_storage(trimmed_string(t).as_str()) {
            Some(s) => s,
            None => NumericStorage::F32,
        },
        None => NumericStorage::F32,
    };
    let quantity = opt_trimmed(get_field(fields, "quantity"));
    let unit = opt_trimmed(get_field(fields, "unit"));
    let value_ron = match get_field(fields, "value") {
        Some(v) => v.clone(),
        None => "0.0".to_owned(),
    };
    Some(ConstantDefinition::Numeric { id, module, storage, quantity, unit, value_ron })
}

/// The RON string a field holds, where the field is present and decodes.
fn decode_field(fields: &Vec<(String, String)>, key: &str) -> (r: Option<String>)
    ensures
        r.deep_view() == decoded_field(fields.deep_view(), key@),
{
    match get_field(fields, key) {
        Some(t) => ron_parse_str(t.as_str()),
        None => None,
    }
}

/// The constant an entry describes (see [`constant_from_item`]).
pub fn constant_from_chars(item: &[char]) -> (r: Option<ConstantDefinition>)
    ensures
        r.deep_view() == constant_from_item(item@),
{
    let fields = parse_struct_fields(item);
    let id = decode_field(&fields, "id");
    let module = decode_field(&fields, "module");
    let rust_type = decode_field(&fields, "type");
    let expression = decode_field(&fields, "expression");
    constant_from_fields(&fields, id, module, rust_type, expression)
}

/// The constants of a configuration's `constants` section (see [`parsed_constants`]).
pub fn parse_constants(s: &[char]) -> (r: Vec<ConstantDefinition>)
    requires
        section_splittable(s@, "constants"@),
    ensures
        r.deep_view() == parsed_constants(s@),
{
    let items = section_item_list(s, "constants");
    let ghost iv = items.deep_view();
    let mut out: Vec<ConstantDefinition> = Vec::new();
    let mut k: usize = 0;
    assert(out.deep_view() =~= constants_from_items(iv, 0));
    while k < items.len()
        invariant
            k <= items@.len(),
            iv == items.deep_view(),
            out.deep_view() == constants_from_items(iv, k as int),
        decreases items.len() - k,
    {
        assert(items@[k as int]@ == iv[k as int]);
        match constant_from_chars(items[k].as_slice()) {
            Some(c) => {
                let ghost before = out.deep_view();
                out.push(c);
                assert(out.deep_view() =~= before.push(c.deep_view()));
            },
            None => {},
        }
        k = k + 1;
    }
    out
}


// ---------------------------------------------------------------------------
// A configuration file being edited
// ---------------------------------------------------------------------------

/// Why a configuration could not be loaded or saved.
#[derive(Debug)]
pub enum ConfigError {
    /// The file could not be read.
    Read { path: PathBuf, source: std::io::Error },
    /// The text is not a Copper configuration (or a rendering of it is not).
    Parse(String),
    /// The file changed on disk since it was loaded or last saved.
    ExternalChange,
    /// The document still has errors that would make the file invalid.
    Validation,
    /// The file could not be written.
    Write { path: PathBuf, source: std::io::Error },
}

/// The text a configuration starts from when its file does not exist yet.
pub const NEW_CONFIGURATION: &'static str = "(\n    tasks: [],\n    cnx: [],\n)\n";

/// A configuration file: the text it was loaded (or last saved) with, its
/// digest, the document as loaded and the document as edited since.
#[derive(Debug)]
pub struct ConfigFile {
    pub path: PathBuf,
    pub original_source: String,
    pub original_hash: [u8; 32],
    pub document: GraphDocument,
    pub original_document: GraphDocument,
}

/// The message of the error for a rendering the lossless parser finds fault with.
pub open spec fn lossless_error_text(count: nat) -> Seq<char> {
    "lossless RON parser reported "@ + decimal(count) + " diagnostic(s)"@
}

/// The message of the error for a missing section that cannot be added.
pub open spec fn not_a_tuple_text() -> Seq<char> {
    "configuration root is not a tuple"@
}

/// Whether the file differs from the text whose digest is `hash`, given what
/// reading it gave (`None` where it could not be read) and whether it exists.
pub open spec fn changed_on_disk(hash: Seq<u8>, on_disk: Option<Seq<char>>, path_exists: bool) -> bool {
    match on_disk {
        Some(text) => sha256_of_text(text) != hash,
        None => path_exists,
    }
}

/// A file that still holds the text last loaded or saved is no external
/// change: loading and saving both record that text's digest as the one
/// changes are detected by.
pub proof fn lemma_own_text_is_no_change(text: Seq<char>, path_exists: bool)
    ensures
        !changed_on_disk(sha256_of_text(text), Some(text), path_exists),
{
}

fn same_digest(a: &[u8; 32], b: &[u8; 32]) -> (r: bool)
    ensures
        r == (a@ == b@),
{
    let mut i: usize = 0;
    while i < 32
        invariant
            i <= 32,
            a@.len() == 32,
            b@.len() == 32,
            forall|j: int| 0 <= j < i ==> a@[j] == b@[j],
        decreases 32 - i,
    {
        if a[i] != b[i] {
            return false;
        }
        i = i + 1;
    }
    assert(a@ =~= b@);
    true
}

impl ConfigFile {
    /// The document as it was loaded or last saved.
    pub open spec fn saved_document(&self) -> DocumentModel {
        self.original_document.deep_view()
    }

    /// A configuration whose text `source`, read from `path`, parsed as `raw`.
    pub fn from_parsed(path: PathBuf, source: String, raw: RawRoot, catalog: &ComponentCatalog) -> (r: Self)
        requires
            sections_splittable(source@),
        ensures
            r.path == path,
            r.original_source@ == source@,
            r.original_hash@ == sha256_of_text(source@),
            r.document.deep_view() == built_document(raw, source@, catalog.components.deep_view()),
            r.saved_document() == r.document.deep_view(),
    {
        let chars = chars_of(source.as_str());
        let document = build_document(raw, chars.as_slice(), catalog);
        let original_document = document.clone();
        let original_hash = sha256_text(source.as_str());
        ConfigFile { path, original_source: source, original_hash, document, original_document }
    }

    /// Whether the file differs from the text last loaded or saved, given what
    /// reading it gave (`None` where it could not be read) and whether it exists.
    pub fn disk_changed(&self, on_disk: Option<&str>, path_exists: bool) -> (r: bool)
        ensures
            r == changed_on_disk(self.original_hash@, match on_disk {
                Some(text) => Some(text@),
                None => None,
            }, path_exists),
    {
        match on_disk {
            Some(text) => {
                let digest = sha256_text(text);
                !same_digest(&digest, &self.original_hash)
            },
            None => path_exists,
        }
    }

    /// Saving is refused when the file changed outside the editor, unless
    /// overwriting was asked for.
    pub fn check_external_change(&self, overwrite_external: bool, on_disk: Option<&str>, path_exists: bool) -> (r: Result<(), ConfigError>)
        ensures
            r is Err <==> (!overwrite_external && changed_on_disk(self.original_hash@, match on_disk {
                Some(text) => Some(text@),
                None => None,
            }, path_exists)),
            r matches Err(e) ==> e is ExternalChange,
    {
        if !overwrite_external && self.disk_changed(on_disk, path_exists) {
            Err(ConfigError::ExternalChange)
        } else {
            Ok(())
        }
    }

    /// Whether the changed sections can be replaced in the text (see [`replaced_text`]).
    pub fn edits_fit(&self) -> (r: bool)
        ensures
            r == (replaced_text(self.document.deep_view(), self.saved_document(), self.original_source@) is Some),
    {
        let chars = chars_of(self.original_source.as_str());
        let (replaced, _) = replace_sections(&self.document, &self.original_document, chars.as_slice());
        replaced.is_some()
    }

    /// The text the edited document gives before the final checks: refused
    /// while the document has errors, otherwise the loaded text with the
    /// changed sections rewritten (see [`edited_text`]).
    pub fn render_candidate(&self) -> (r: Result<String, ConfigError>)
        requires
            self.document.nodes@.len() < u32::MAX,
            self.document.edges@.len() < u32::MAX,
            has_error(document_diagnostics(self.document.deep_view()))
                || replaced_text(self.document.deep_view(), self.saved_document(), self.original_source@) is Some,
        ensures
            has_error(document_diagnostics(self.document.deep_view())) ==> (r matches Err(e) && e is Validation),
            !has_error(document_diagnostics(self.document.deep_view())) ==> match edited_text(
                self.document.deep_view(),
                self.saved_document(),
                self.original_source@,
            ) {
                Some(t) => r matches Ok(s) && s@ == t,
                None => r matches Err(ConfigError::Parse(m)) && m@ == not_a_tuple_text(),
            },
    {
        if self.document.has_hard_errors() {
            return Err(ConfigError::Validation);
        }
        let chars = chars_of(self.original_source.as_str());
        let (replaced, absent) = replace_sections(&self.document, &self.original_document, chars.as_slice());
        let text = match replaced {
            Some(t) => t,
            None => return Err(ConfigError::Validation),
        };
        assert(text.deep_view() =~= text@);
        match insert_fields(text, &absent) {
            Some(t) => {
                assert(t.deep_view() =~= t@);
                Ok(string_of(t.as_slice()))
            },
            None => {
                proof {
                    reveal_strlit("configuration root is not a tuple");
                }
                Err(ConfigError::Parse("configuration root is not a tuple".to_owned()))
            },
        }
    }

    /// The final checks on a rendering: the RON reading of the configuration
    /// (done by the caller; `ron_error` is its error, if any) and the lossless
    /// parser, which must report nothing; the text is then what that parser prints.
    pub fn finish_render(candidate: String, ron_error: Option<String>) -> (r: Result<String, ConfigError>)
        ensures
            ron_error matches Some(e) ==> (r matches Err(ConfigError::Parse(m)) && m@ == e@),
            ron_error is None && lossless_diagnostic_count(candidate@) > 0 ==> (r matches Err(
                ConfigError::Parse(m),
            ) && m@ == lossless_error_text(lossless_diagnostic_count(candidate@))),
            ron_error is None && lossless_diagnostic_count(candidate@) == 0 ==> (r matches Ok(s) && s@
                == candidate@),
    {
        if let Some(e) = ron_error {
            return Err(ConfigError::Parse(e));
        }
        let count = lossless_diagnostics(candidate.as_str());
        if count > 0 {
            let mut m: Vec<char> = Vec::new();
            push_str(&mut m, "lossless RON parser reported ");
            let digits = decimal_exec(count);
            push_all(&mut m, digits.as_slice());
            push_str(&mut m, " diagnostic(s)");
            return Err(ConfigError::Parse(string_of(m.as_slice())));
        }
        Ok(lossless_reprint(candidate.as_str()))
    }

    /// Concludes a save, given how writing the rendered text went (the
    /// caller checks for external changes, renders and writes): once
    /// written, the text becomes the one edits are applied to, its digest the
    /// one external changes are detected by, and the current document the
    /// saved one; a failure is passed on with nothing changed.
    pub fn save(&mut self, written: Result<String, ConfigError>) -> (r: Result<(), ConfigError>)
        ensures
            final(self).path == old(self).path,
            final(self).document.deep_view() == old(self).document.deep_view(),
            match written {
                Ok(text) => r is Ok && final(self).original_source@ == text@ && final(self).original_hash@
                    == sha256_of_text(text@) && final(self).saved_document() == old(self).document.deep_view(),
                Err(e) => r == Err::<(), ConfigError>(e) && final(self).original_source == old(self).original_source
                    && final(self).original_hash == old(self).original_hash && final(self).saved_document()
                    == old(self).saved_document(),
            },
    {
        match written {
            Ok(text) => {
                self.original_hash = sha256_text(text.as_str());
                self.original_source = text;
                self.original_document = self.document.clone();
                Ok(())
            },
            Err(e) => Err(e),
        }
    }
}

} // verus!
