//! Cargo manifests, read and edited with `toml_edit`: what the tables of a
//! manifest hold, the workspace's path dependencies, what an application's
//! manifest says, and adding `name = { workspace = true }` dependencies while
//! the rest of the text stays as it was written.
use vstd::prelude::*;

use toml_edit::{DocumentMut, Item};

use crate::fieldmap::{insert_all_fields, keys_sorted, map_insert_all, Pair};
use crate::project::ManifestInfo;

verus! {

#[verifier::external_type_specification]
#[verifier::external_body]
pub struct ExDocumentMut(DocumentMut);

/// One entry of a table as the library reads it: its key, its value where that
/// is a string, the string under the entry's own `path` key and the boolean
/// under its own `workspace` key.
pub type EntryView = (Seq<char>, Option<Seq<char>>, Option<Seq<char>>, Option<bool>);

/// The tables of a document: for each table or inline table that can be
/// reached from the root through tables, its key path (the root's is empty)
/// and its entries in order. Entries without a value are not listed.
pub uninterp spec fn manifest_tables(doc: DocumentMut) -> Map<Seq<Seq<char>>, Seq<(Seq<char>, Option<Seq<char>>, Option<Seq<char>>, Option<bool>)>>;

/// The text a document prints as.
pub uninterp spec fn manifest_text(doc: DocumentMut) -> Seq<char>;

/// What parsing a text as a TOML document gives: the document's tables (as
/// [`manifest_tables`] reads them), or the parser's message.
pub uninterp spec fn parsed_manifest(text: Seq<char>) -> Result<Map<Seq<Seq<char>>, Seq<(Seq<char>, Option<Seq<char>>, Option<Seq<char>>, Option<bool>)>>, Seq<char>>;

/// An entry of a table, as handed out by the reading functions below.
#[derive(Debug)]
pub struct ManifestEntry {
    pub key: String,
    pub text: Option<String>,
    pub path: Option<String>,
    pub workspace: Option<bool>,
}

impl DeepView for ManifestEntry {
    type V = EntryView;

    open spec fn deep_view(&self) -> EntryView {
        (self.key@, self.text.deep_view(), self.path.deep_view(), self.workspace)
    }
}

/// `text.parse::<DocumentMut>()`: the document, or the parser's message.
#[verifier::external_body]
pub(crate) fn parse_document(text: &str) -> (r: Result<DocumentMut, String>)
    ensures
        match r {
            Ok(doc) => parsed_manifest(text@) == Ok::<_, Seq<char>>(manifest_tables(doc))
                && manifest_tables(doc).contains_key(Seq::empty()),
            Err(message) => parsed_manifest(text@) == Err::<Map<Seq<Seq<char>>, Seq<EntryView>>, _>(message@),
        },
{
    text.parse::<DocumentMut>().map_err(|error| error.to_string())
}

/// `document.get(key)` read as a table or inline table: its entries.
#[verifier::external_body]
pub(crate) fn root_table_entries(doc: &DocumentMut, key: &str) -> (r: Option<Vec<ManifestEntry>>)
    ensures
        r is Some <==> manifest_tables(*doc).contains_key(seq![key@]),
        r matches Some(v) ==> v.deep_view() == manifest_tables(*doc)[seq![key@]],
{
    doc.get(key).and_then(Item::as_table_like).map(|table| {
        table.iter().map(|(name, item)| ManifestEntry {
            key: name.to_string(),
            text: item.as_str().map(String::from),
            path: item.get("path").and_then(Item::as_str).map(String::from),
            workspace: item.get("workspace").and_then(Item::as_bool),
        }).collect()
    })
}

/// `document.get(first)` then `.get(second)` read as a table or inline table: its entries.
#[verifier::external_body]
pub(crate) fn nested_table_entries(doc: &DocumentMut, first: &str, second: &str) -> (r: Option<Vec<ManifestEntry>>)
    ensures
        r is Some <==> manifest_tables(*doc).contains_key(seq![first@, second@]),
        r matches Some(v) ==> v.deep_view() == manifest_tables(*doc)[seq![first@, second@]],
{
    doc.get(first).and_then(|outer| outer.get(second)).and_then(Item::as_table_like).map(|table| {
        table.iter().map(|(name, item)| ManifestEntry {
            key: name.to_string(),
            text: item.as_str().map(String::from),
            path: item.get("path").and_then(Item::as_str).map(String::from),
            workspace: item.get("workspace").and_then(Item::as_bool),
        }).collect()
    })
}

/// Whether the table at `path` has an entry under `key`.
pub open spec fn table_has_key(t: Map<Seq<Seq<char>>, Seq<EntryView>>, path: Seq<Seq<char>>, key: Seq<char>) -> bool {
    t.contains_key(path) && exists|i: int| 0 <= i < t[path].len() && (#[trigger] t[path][i]).0 == key
}

/// The entries of the table at `path`, none where there is no such table.
pub open spec fn table_at(t: Map<Seq<Seq<char>>, Seq<EntryView>>, path: Seq<Seq<char>>) -> Seq<EntryView> {
    if t.contains_key(path) { t[path] } else { Seq::empty() }
}

/// `document.contains_key(key)`: whether the root has an entry under `key`.
#[verifier::external_body]
pub(crate) fn has_root_key(doc: &DocumentMut, key: &str) -> (r: bool)
    ensures
        r == table_has_key(manifest_tables(*doc), Seq::empty(), key@),
{
    doc.contains_key(key)
}

/// `document.get(table)` then `.get(key)`: whether that table has an entry under `key`.
#[verifier::external_body]
pub(crate) fn has_table_key(doc: &DocumentMut, table: &str, key: &str) -> (r: bool)
    ensures
        r == table_has_key(manifest_tables(*doc), seq![table@], key@),
{
    doc.get(table).and_then(|item| item.get(key)).is_some()
}

/// `document[key] = Item::Table(Default::default())` for a key the root does
/// not have: an empty table, listed among the root's entries. Where the new
/// entry stands among them is left open.
#[verifier::external_body]
pub(crate) fn insert_root_table(doc: &mut DocumentMut, key: &str)
    requires
        manifest_tables(*old(doc)).contains_key(Seq::empty()),
        !table_has_key(manifest_tables(*old(doc)), Seq::empty(), key@),
    ensures
        table_added(manifest_tables(*old(doc)), manifest_tables(*final(doc)), key@),
{
    doc[key] = Item::Table(Default::default());
}

/// `document[table][name]["workspace"] = toml_edit::value(true)` for a name
/// that the table does not have: the entry `name = { workspace = true }`.
/// Where the new entry stands among the table's entries is left open.
#[verifier::external_body]
pub(crate) fn insert_workspace_entry(doc: &mut DocumentMut, table: &str, name: &str)
    requires
        manifest_tables(*old(doc)).contains_key(seq![table@]),
        !table_has_key(manifest_tables(*old(doc)), seq![table@], name@),
    ensures
        workspace_entry_added(manifest_tables(*old(doc)), manifest_tables(*final(doc)), table@, name@),
{
    doc[table][name]["workspace"] = toml_edit::value(true);
}

/// `document.to_string()`: the text the document prints as.
#[verifier::external_body]
pub(crate) fn document_text(doc: &DocumentMut) -> (r: String)
    ensures
        r@ == manifest_text(*doc),
{
    doc.to_string()
}

/// `after` is `before` with an empty table under the root key `key`.
pub open spec fn table_added(before: Map<Seq<Seq<char>>, Seq<EntryView>>, after: Map<Seq<Seq<char>>, Seq<EntryView>>, key: Seq<char>) -> bool {
    let root = before[Seq::empty()];
    exists|i: int| 0 <= i <= root.len() && after == before.insert(seq![key], Seq::empty()).insert(
        Seq::empty(), root.insert(i, (key, None, None, None)))
}

/// `after` is `before` with `name = { workspace = true }` in the table `table`.
pub open spec fn workspace_entry_added(
    before: Map<Seq<Seq<char>>, Seq<EntryView>>,
    after: Map<Seq<Seq<char>>, Seq<EntryView>>,
    table: Seq<char>,
    name: Seq<char>,
) -> bool {
    let entries = before[seq![table]];
    exists|i: int| 0 <= i <= entries.len() && after == before.insert(
        seq![table], entries.insert(i, (name, None, None, Some(true)))).insert(
        seq![table, name], seq![("workspace"@, None, None, None)])
}

/// The key of the application's dependency table.
pub open spec fn dependencies_key() -> Seq<char> {
    "dependencies"@
}

/// The tables once the manifest has a dependency table: unchanged where it has
/// one, with an empty one added where the root has no such entry.
pub open spec fn with_dependency_table(before: Map<Seq<Seq<char>>, Seq<EntryView>>, after: Map<Seq<Seq<char>>, Seq<EntryView>>) -> bool {
    if table_has_key(before, Seq::empty(), dependencies_key()) {
        after == before
    } else {
        table_added(before, after, dependencies_key())
    }
}

/// One step of [`workspace_entries_added`]: `name = { workspace = true }`
/// added to the dependency table unless it holds `name` already.
pub open spec fn workspace_step(
    before: Map<Seq<Seq<char>>, Seq<EntryView>>,
    after: Map<Seq<Seq<char>>, Seq<EntryView>>,
    name: Seq<char>,
) -> bool {
    if table_has_key(before, seq![dependencies_key()], name) {
        after == before
    } else {
        workspace_entry_added(before, after, dependencies_key(), name)
    }
}

/// The tables after `name = { workspace = true }` is added for each of
/// `names` that the dependency table does not hold yet, in turn: the tables
/// pass through one state per name.
pub open spec fn workspace_entries_added(
    before: Map<Seq<Seq<char>>, Seq<EntryView>>,
    after: Map<Seq<Seq<char>>, Seq<EntryView>>,
    names: Seq<Seq<char>>,
) -> bool {
    exists|states: Seq<Map<Seq<Seq<char>>, Seq<EntryView>>>| #[trigger] states.len() == names.len() + 1
        && states[0] == before && states.last() == after
        && forall|j: int| 0 <= j < names.len() ==> workspace_step(#[trigger] states[j], states[j + 1], names[j])
}

/// Whether the manifest's root has a `dependencies` entry that is no table.
pub open spec fn dependencies_not_a_table(t: Map<Seq<Seq<char>>, Seq<EntryView>>) -> bool {
    table_has_key(t, Seq::empty(), dependencies_key()) && !t.contains_key(seq![dependencies_key()])
}

/// The message for a manifest whose `dependencies` entry is no table.
pub open spec fn not_a_table_text() -> Seq<char> {
    "`dependencies` in the manifest is not a table"@
}

/// The manifest text with `name = { workspace = true }` added to its
/// `[dependencies]` for each of `dependencies` that it does not hold yet, in
/// the order given (an empty table is added first where there is none). With
/// no dependencies the text is returned as it is; a text that does not parse
/// gives the parser's message; a `dependencies` entry that is no table is refused.
pub fn with_workspace_dependencies(manifest: &str, dependencies: &Vec<String>) -> (r: Result<String, String>)
    ensures
        dependencies@.len() == 0 ==> (r matches Ok(text) && text@ == manifest@),
        dependencies@.len() > 0 ==> match parsed_manifest(manifest@) {
            Err(message) => r matches Err(e) && e@ == message,
            Ok(t) => if dependencies_not_a_table(t) {
                r matches Err(e) && e@ == not_a_table_text()
            } else {
                r matches Ok(text) && exists|doc: DocumentMut, with_table: Map<Seq<Seq<char>>, Seq<EntryView>>|
                    #![trigger manifest_text(doc), with_dependency_table(t, with_table)]
                    text@ == manifest_text(doc) && with_dependency_table(t, with_table)
                    && workspace_entries_added(with_table, manifest_tables(doc), dependencies.deep_view())
            },
        },
{
    if dependencies.len() == 0 {
        return Ok(manifest.to_string());
    }
    let mut doc = match parse_document(manifest) {
        Ok(d) => d,
        Err(e) => return Err(e),
    };
    let ghost t = manifest_tables(doc);
    if !has_root_key(&doc, "dependencies") {
        insert_root_table(&mut doc, "dependencies");
    } else if root_table_entries(&doc, "dependencies").is_none() {
        return Err("`dependencies` in the manifest is not a table".to_string());
    }
    let ghost with_table = manifest_tables(doc);
    assert(with_dependency_table(t, with_table));
    assert(with_table.contains_key(seq![dependencies_key()])) by {
        if !table_has_key(t, Seq::empty(), dependencies_key()) {
            let i = choose|i: int| 0 <= i <= t[Seq::empty()].len() && with_table == t.insert(
                seq![dependencies_key()], Seq::empty()).insert(Seq::empty(), t[Seq::empty()].insert(i, (dependencies_key(), None, None, None)));
            assert(seq![dependencies_key()].len() == 1);
        }
    }
    let ghost names = dependencies.deep_view();
    let ghost mut states: Seq<Map<Seq<Seq<char>>, Seq<EntryView>>> = seq![with_table];
    let mut k: usize = 0;
    while k < dependencies.len()
        invariant
            k <= dependencies@.len(),
            names == dependencies.deep_view(),
            manifest_tables(doc).contains_key(seq![dependencies_key()]),
            states.len() == k + 1,
            states[0] == with_table,
            states.last() == manifest_tables(doc),
            forall|j: int| 0 <= j < k ==> workspace_step(#[trigger] states[j], states[j + 1], names[j]),
        decreases dependencies.len() - k,
    {
        let ghost before = manifest_tables(doc);
        assert(names[k as int] == dependencies@[k as int]@);
        if !has_table_key(&doc, "dependencies", dependencies[k].as_str()) {
            insert_workspace_entry(&mut doc, "dependencies", dependencies[k].as_str());
            let ghost after = manifest_tables(doc);
            assert(after.contains_key(seq![dependencies_key()])) by {
                let entries = before[seq![dependencies_key()]];
                let i = choose|i: int| 0 <= i <= entries.len() && after == before.insert(
                    seq![dependencies_key()], entries.insert(i, (dependencies@[k as int]@, None, None, Some(true)))).insert(
                    seq![dependencies_key(), dependencies@[k as int]@], seq![("workspace"@, None, None, None)]);
            }
        }
        proof {
            assert(workspace_step(before, manifest_tables(doc), names[k as int]));
            states = states.push(manifest_tables(doc));
        }
        k = k + 1;
    }
    assert(workspace_entries_added(with_table, manifest_tables(doc), names));
    Ok(document_text(&doc))
}

/// The pairs of a table's entries that have a `path`: the key and that path.
pub open spec fn path_pairs(entries: Seq<EntryView>) -> Seq<Pair>
    decreases entries.len(),
{
    if entries.len() == 0 {
        Seq::empty()
    } else {
        let rest = path_pairs(entries.drop_last());
        match entries.last().2 {
            Some(p) => rest.push((entries.last().0, p)),
            None => rest,
        }
    }
}

/// The keys of a table's entries, in order.
pub open spec fn entry_keys(entries: Seq<EntryView>) -> Seq<Seq<char>> {
    Seq::new(entries.len(), |i: int| entries[i].0)
}

/// The string value of the first entry under `key`, if any.
pub open spec fn entry_text(entries: Seq<EntryView>, key: Seq<char>) -> Option<Seq<char>>
    decreases entries.len(),
{
    if entries.len() == 0 {
        None
    } else if entries[0].0 == key {
        entries[0].1
    } else {
        entry_text(entries.drop_first(), key)
    }
}

/// The key and path of each entry that has a `path`, in order.
fn collect_path_pairs(entries: &Vec<ManifestEntry>) -> (r: Vec<(String, String)>)
    ensures
        r.deep_view() == path_pairs(entries.deep_view()),
{
    let ghost ev = entries.deep_view();
    let mut r: Vec<(String, String)> = Vec::new();
    let mut i: usize = 0;
    while i < entries.len()
        invariant
            i <= entries@.len(),
            ev == entries.deep_view(),
            r.deep_view() == path_pairs(ev.take(i as int)),
        decreases entries.len() - i,
    {
        assert(ev.take(i + 1).drop_last() =~= ev.take(i as int));
        match &entries[i].path {
            Some(p) => {
                r.push((entries[i].key.clone(), p.clone()));
            },
            None => {},
        }
        proof {
            assert(ev.take(i + 1).last() == ev[i as int]);
            assert(r.deep_view() =~= path_pairs(ev.take(i + 1)));
        }
        i = i + 1;
    }
    assert(ev.take(i as int) =~= ev);
    r
}

/// The `workspace.dependencies` entries of a workspace manifest that have a
/// `path`: name and path as written, sorted by name.
pub fn workspace_path_dependencies(manifest: &str) -> (r: Result<Vec<(String, String)>, String>)
    ensures
        match parsed_manifest(manifest@) {
            Err(message) => r matches Err(e) && e@ == message,
            Ok(t) => r matches Ok(v) && v.deep_view() == map_insert_all(
                Seq::empty(), path_pairs(table_at(t, seq!["workspace"@, dependencies_key()]))),
        },
        r matches Ok(v) ==> keys_sorted(v.deep_view()),
{
    let doc = match parse_document(manifest) {
        Ok(d) => d,
        Err(e) => return Err(e),
    };
    let pairs = match nested_table_entries(&doc, "workspace", "dependencies") {
        Some(entries) => collect_path_pairs(&entries),
        None => Vec::new(),
    };
    proof {
        let t = manifest_tables(doc);
        if !t.contains_key(seq!["workspace"@, dependencies_key()]) {
            assert(pairs.deep_view() =~= path_pairs(Seq::empty()));
        }
    }
    let mut sorted: Vec<(String, String)> = Vec::new();
    assert(keys_sorted(sorted.deep_view()));
    insert_all_fields(&mut sorted, &pairs);
    Ok(sorted)
}

/// The keys of the entries, in order.
fn collect_keys(entries: &Vec<ManifestEntry>) -> (r: Vec<String>)
    ensures
        r.deep_view() == entry_keys(entries.deep_view()),
{
    let ghost ev = entries.deep_view();
    let mut r: Vec<String> = Vec::new();
    let mut i: usize = 0;
    while i < entries.len()
        invariant
            i <= entries@.len(),
            ev == entries.deep_view(),
            r.deep_view() =~= entry_keys(ev.take(i as int)),
        decreases entries.len() - i,
    {
        assert(ev[i as int] == entries@[i as int].deep_view());
        let ghost r0 = r.deep_view();
        r.push(entries[i].key.clone());
        assert(r.deep_view() =~= r0.push(ev[i as int].0));
        assert(entry_keys(ev.take(i + 1)) =~= entry_keys(ev.take(i as int)).push(ev[i as int].0));
        i = i + 1;
    }
    assert(ev.take(i as int) =~= ev);
    r
}

/// The string value of the first entry under `key`.
fn find_entry_text(entries: &Vec<ManifestEntry>, key: &str) -> (r: Option<String>)
    ensures
        r.deep_view() == entry_text(entries.deep_view(), key@),
{
    let ghost ev = entries.deep_view();
    let mut i: usize = 0;
    assert(ev.skip(0) =~= ev);
    while i < entries.len()
        invariant
            i <= entries@.len(),
            ev == entries.deep_view(),
            entry_text(ev, key@) == entry_text(ev.skip(i as int), key@),
        decreases entries.len() - i,
    {
        assert(ev.skip(i as int)[0] == ev[i as int]);
        assert(ev.skip(i as int).drop_first() =~= ev.skip(i + 1));
        if crate::text::str_eq(entries[i].key.as_str(), key) {
            return entries[i].text.clone();
        }
        i = i + 1;
    }
    None
}

/// What an application's manifest says: `package.name` where it is a string,
/// the keys of `[dependencies]` in order, and those of its entries that have a
/// `path`, with the path. A text that does not parse gives the parser's message.
pub fn read_manifest_info(manifest: &str) -> (r: Result<ManifestInfo, String>)
    ensures
        match parsed_manifest(manifest@) {
            Err(message) => r matches Err(e) && e@ == message,
            Ok(t) => r matches Ok(info)
                && info.package_name.deep_view() == entry_text(table_at(t, seq!["package"@]), "name"@)
                && info.dependencies.deep_view() == entry_keys(table_at(t, seq![dependencies_key()]))
                && info.path_dependencies.deep_view() == path_pairs(table_at(t, seq![dependencies_key()])),
        },
{
    let doc = match parse_document(manifest) {
        Ok(d) => d,
        Err(e) => return Err(e),
    };
    let ghost t = manifest_tables(doc);
    let package_name = match root_table_entries(&doc, "package") {
        Some(entries) => find_entry_text(&entries, "name"),
        None => None,
    };
    let (dependencies, path_dependencies) = match root_table_entries(&doc, "dependencies") {
        Some(entries) => (collect_keys(&entries), collect_path_pairs(&entries)),
        None => (Vec::new(), Vec::new()),
    };
    proof {
        if !t.contains_key(seq![dependencies_key()]) {
            assert(dependencies.deep_view() =~= entry_keys(Seq::empty()));
            assert(path_dependencies.deep_view() =~= path_pairs(Seq::empty()));
        }
    }
    Ok(ManifestInfo { package_name, dependencies, path_dependencies })
}

} // verus!
