//! Writing an edited document back into the configuration text it came from.
//!
//! Only the sections whose content changed are rewritten; each is replaced in
//! place (right to left, so earlier spans stay valid) or, where the text has no
//! such field, inserted before the closing parenthesis of the root.
use vstd::prelude::*;

use crate::model::{ComponentKind, DocumentModel, GraphDocument};
use crate::render::{
    bridges_text, connections_text, constants_text, monitor_text, monitors_text, render_bridges,
    render_connections, render_constants, render_monitor, render_monitors, render_tasks, tasks_text,
};
use crate::scan::{
    field_value_span, find_field_value_span_chars, insert_root_field, lemma_field_span, with_root_field,
    ScanState,
};
use crate::equality::{constants_eq, edges_eq, monitors_eq, nodes_eq};
use crate::text::{chars_of, push_all, push_range};

verus! {

/// A replacement of the text between two indices.
pub type Splice = (usize, usize, Seq<char>);

/// The root field the monitors go to: `monitors` where the text has it, else
/// `monitor` where the text has that and at most one monitor is left.
pub open spec fn monitor_field(source: Seq<char>, doc: DocumentModel) -> Seq<char> {
    if field_value_span(source, "monitors"@) is Some {
        "monitors"@
    } else if field_value_span(source, "monitor"@) is Some && doc.monitors.len() <= 1 {
        "monitor"@
    } else {
        "monitors"@
    }
}

/// The value a single `monitor` field takes when no monitor is left.
pub open spec fn no_monitor_text() -> Seq<char> {
    "(type: \"cu29::monitoring::NoMonitor\")"@
}

/// The sections to write, each with its new text: tasks and bridges when a
/// node changed, connections when a node or an edge changed, constants and
/// monitors when they changed.
pub open spec fn replacements(doc: DocumentModel, saved: DocumentModel, source: Seq<char>) -> Seq<(Seq<char>, Seq<char>)> {
    let nodes_changed = doc.nodes != saved.nodes;
    let a = if nodes_changed {
        seq![("tasks"@, tasks_text(doc)), ("bridges"@, bridges_text(doc))]
    } else {
        Seq::empty()
    };
    let b = if nodes_changed || doc.edges != saved.edges {
        a.push(("cnx"@, connections_text(doc)))
    } else {
        a
    };
    let c = if doc.constants != saved.constants {
        b.push(("constants"@, constants_text(doc)))
    } else {
        b
    };
    if doc.monitors != saved.monitors {
        if monitor_field(source, doc) == "monitor"@ {
            c.push(
                (
                    "monitor"@,
                    if doc.monitors.len() > 0 {
                        monitor_text(doc.monitors[0])
                    } else {
                        no_monitor_text()
                    },
                ),
            )
        } else {
            c.push(("monitors"@, monitors_text(doc)))
        }
    } else {
        c
    }
}

/// Whether a section the text lacks is added: tasks and connections always,
/// the others only when the document has something to put there.
pub open spec fn insertion_wanted(name: Seq<char>, doc: DocumentModel) -> bool {
    if name == "tasks"@ || name == "cnx"@ {
        true
    } else if name == "bridges"@ {
        exists|i: int| 0 <= i < doc.nodes.len() && doc.nodes[i].kind == ComponentKind::Bridge
    } else if name == "constants"@ {
        doc.constants.len() > 0
    } else if name == "monitor"@ || name == "monitors"@ {
        doc.monitors.len() > 0
    } else {
        false
    }
}

/// The replacements whose field the text has, with the span of its value.
pub open spec fn present_fields(source: Seq<char>, reps: Seq<(Seq<char>, Seq<char>)>) -> Seq<Splice>
    decreases reps.len(),
{
    if reps.len() == 0 {
        Seq::empty()
    } else {
        let rest = present_fields(source, reps.drop_last());
        match field_value_span(source, reps.last().0) {
            Some((a, b)) => rest.push((a as usize, b as usize, reps.last().1)),
            None => rest,
        }
    }
}

/// The replacements whose field the text lacks and that are to be added.
pub open spec fn absent_fields(
    source: Seq<char>,
    reps: Seq<(Seq<char>, Seq<char>)>,
    doc: DocumentModel,
) -> Seq<(Seq<char>, Seq<char>)>
    decreases reps.len(),
{
    if reps.len() == 0 {
        Seq::empty()
    } else {
        let rest = absent_fields(source, reps.drop_last(), doc);
        if field_value_span(source, reps.last().0) is None && insertion_wanted(reps.last().0, doc) {
            rest.push(reps.last())
        } else {
            rest
        }
    }
}

/// Inserts a splice into a list ordered by decreasing start, after those that
/// start at the same place or later (so equal starts keep their order).
pub open spec fn insert_desc(sorted: Seq<Splice>, x: Splice) -> Seq<Splice>
    decreases sorted.len(),
{
    if sorted.len() == 0 {
        seq![x]
    } else if sorted.last().0 >= x.0 {
        sorted.push(x)
    } else {
        insert_desc(sorted.drop_last(), x).push(sorted.last())
    }
}

/// The splices ordered by decreasing start, a stable sort.
pub open spec fn sort_desc(items: Seq<Splice>) -> Seq<Splice>
    decreases items.len(),
{
    if items.len() == 0 {
        Seq::empty()
    } else {
        insert_desc(sort_desc(items.drop_last()), items.last())
    }
}

/// The text after applying the splices in order, or `None` where a span does
/// not lie within the text it is applied to.
pub open spec fn splice_all(s: Seq<char>, splices: Seq<Splice>) -> Option<Seq<char>>
    decreases splices.len(),
{
    if splices.len() == 0 {
        Some(s)
    } else {
        match splice_all(s, splices.drop_last()) {
            None => None,
            Some(t) => {
                let (a, b, v) = splices.last();
                if a <= b && b <= t.len() {
                    Some(t.subrange(0, a as int) + v + t.subrange(b as int, t.len() as int))
                } else {
                    None
                }
            },
        }
    }
}

/// The text after inserting each field in order (see [`with_root_field`]).
pub open spec fn insert_all(s: Seq<char>, fields: Seq<(Seq<char>, Seq<char>)>) -> Option<Seq<char>>
    decreases fields.len(),
{
    if fields.len() == 0 {
        Some(s)
    } else {
        match insert_all(s, fields.drop_last()) {
            None => None,
            Some(t) => with_root_field(t, fields.last().0, fields.last().1),
        }
    }
}

/// The text with the changed sections that it has replaced in place.
pub open spec fn replaced_text(doc: DocumentModel, saved: DocumentModel, source: Seq<char>) -> Option<Seq<char>> {
    splice_all(source, sort_desc(present_fields(source, replacements(doc, saved, source))))
}

/// The text the edits give: replaced in place, then the missing sections
/// added; `None` where a section is to be added and the text has no `)`.
pub open spec fn edited_text(doc: DocumentModel, saved: DocumentModel, source: Seq<char>) -> Option<Seq<char>> {
    match replaced_text(doc, saved, source) {
        Some(t) => insert_all(t, absent_fields(source, replacements(doc, saved, source), doc)),
        None => None,
    }
}

// ---------------------------------------------------------------------------
// Proofs about the plan
// ---------------------------------------------------------------------------

proof fn lemma_insert_desc(sorted: Seq<Splice>, x: Splice, j: int)
    requires
        0 <= j <= sorted.len(),
        j == 0 || sorted[j - 1].0 >= x.0,
        forall|i: int| j <= i < sorted.len() ==> sorted[i].0 < x.0,
    ensures
        insert_desc(sorted, x) == sorted.subrange(0, j).push(x) + sorted.subrange(j, sorted.len() as int),
    decreases sorted.len(),
{
    if sorted.len() == 0 {
        assert(sorted.subrange(0, j).push(x) + sorted.subrange(j, sorted.len() as int) =~= seq![x]);
    } else if j == sorted.len() {
        assert(sorted.subrange(0, j) =~= sorted);
        assert(sorted.subrange(0, j).push(x) + sorted.subrange(j, sorted.len() as int) =~= sorted.push(x));
    } else {
        let d = sorted.drop_last();
        lemma_insert_desc(d, x, j);
        assert(d.subrange(0, j) =~= sorted.subrange(0, j));
        assert(sorted.subrange(0, j).push(x) + sorted.subrange(j, sorted.len() as int) =~= (
        d.subrange(0, j).push(x) + d.subrange(j, d.len() as int)).push(sorted.last()));
    }
}

proof fn lemma_splice_prefix(s: Seq<char>, sp: Seq<Splice>, k: int)
    requires
        splice_all(s, sp) is Some,
        0 <= k <= sp.len(),
    ensures
        splice_all(s, sp.take(k)) is Some,
    decreases sp.len(),
{
    if k == sp.len() {
        assert(sp.take(k) =~= sp);
    } else {
        lemma_splice_prefix(s, sp.drop_last(), k);
        assert(sp.drop_last().take(k) =~= sp.take(k));
    }
}

/// Rendering a document that equals the saved one leaves the text exactly as
/// it was: no section is rewritten and none is added.
pub proof fn lemma_unchanged_render_keeps_text(doc: DocumentModel, source: Seq<char>)
    ensures
        edited_text(doc, doc, source) == Some(source),
{
    let reps = replacements(doc, doc, source);
    assert(reps =~= Seq::<(Seq<char>, Seq<char>)>::empty());
    assert(present_fields(source, reps) =~= Seq::<Splice>::empty());
    assert(sort_desc(Seq::<Splice>::empty()) =~= Seq::<Splice>::empty());
    assert(absent_fields(source, reps, doc) =~= Seq::<(Seq<char>, Seq<char>)>::empty());
}

/// Editing only the constants rewrites only the value of the `constants`
/// field where the text has one: the text before and after that value is
/// kept as it was, and no section is added.
pub proof fn lemma_constant_edit_keeps_other_sections(doc: DocumentModel, saved: DocumentModel, source: Seq<char>)
    requires
        doc.nodes == saved.nodes,
        doc.edges == saved.edges,
        doc.monitors == saved.monitors,
        doc.constants != saved.constants,
        field_value_span(source, "constants"@) is Some,
        source.len() <= usize::MAX,
    ensures
        ({
            let (a, b) = field_value_span(source, "constants"@)->Some_0;
            &&& 0 <= a <= b <= source.len()
            &&& edited_text(doc, saved, source) == Some(
                source.subrange(0, a) + constants_text(doc) + source.subrange(b, source.len() as int),
            )
        }),
{
    lemma_field_span(source, "constants"@, 0, 0, ScanState::Normal);
    let (a, b) = field_value_span(source, "constants"@)->Some_0;
    let reps = replacements(doc, saved, source);
    assert(reps =~= seq![("constants"@, constants_text(doc))]);
    let x: Splice = (a as usize, b as usize, constants_text(doc));
    assert(reps.drop_last() =~= Seq::<(Seq<char>, Seq<char>)>::empty());
    assert(present_fields(source, reps.drop_last()) =~= Seq::<Splice>::empty());
    assert(reps.last() == ("constants"@, constants_text(doc)));
    assert(present_fields(source, reps) =~= seq![x]);
    assert(seq![x].drop_last() =~= Seq::<Splice>::empty());
    assert(sort_desc(Seq::<Splice>::empty()) =~= Seq::<Splice>::empty());
    assert(insert_desc(Seq::<Splice>::empty(), x) =~= seq![x]);
    assert(sort_desc(seq![x]) =~= seq![x]);
    assert(splice_all(source, Seq::<Splice>::empty()) == Some(source));
    assert(splice_all(source, seq![x]) == Some(
        source.subrange(0, a) + constants_text(doc) + source.subrange(b, source.len() as int),
    ));
    assert(absent_fields(source, reps.drop_last(), doc) =~= Seq::<(Seq<char>, Seq<char>)>::empty());
    assert(absent_fields(source, reps.drop_last(), doc) =~= Seq::<(Seq<char>, Seq<char>)>::empty());
    assert(absent_fields(source, reps, doc) =~= Seq::<(Seq<char>, Seq<char>)>::empty());
}

// ---------------------------------------------------------------------------
// Computing the plan
// ---------------------------------------------------------------------------

/// The sections to write (see [`replacements`]).
fn replacement_list(doc: &GraphDocument, saved: &GraphDocument, source: &[char]) -> (r: Vec<(&'static str, Vec<char>)>)
    ensures
        r.deep_view() == replacements(doc.deep_view(), saved.deep_view(), source@),
{
    let ghost d = doc.deep_view();
    let ghost sv = saved.deep_view();
    let mut reps: Vec<(&'static str, Vec<char>)> = Vec::new();
    let nodes_changed = !nodes_eq(&doc.nodes, &saved.nodes);
    if nodes_changed {
        let t = render_tasks(doc);
        let b = render_bridges(doc);
        assert(t.deep_view() =~= t@);
        assert(b.deep_view() =~= b@);
        reps.push(("tasks", t));
        reps.push(("bridges", b));
        assert(reps.deep_view() =~= seq![("tasks"@, tasks_text(d)), ("bridges"@, bridges_text(d))]);
    } else {
        assert(reps.deep_view() =~= Seq::<(Seq<char>, Seq<char>)>::empty());
    }
    let ghost a = reps.deep_view();
    if nodes_changed || !edges_eq(&doc.edges, &saved.edges) {
        let c = render_connections(doc);
        assert(c.deep_view() =~= c@);
        reps.push(("cnx", c));
        assert(reps.deep_view() =~= a.push(("cnx"@, connections_text(d))));
    }
    let ghost b = reps.deep_view();
    if !constants_eq(&doc.constants, &saved.constants) {
        let c = render_constants(doc);
        assert(c.deep_view() =~= c@);
        reps.push(("constants", c));
        assert(reps.deep_view() =~= b.push(("constants"@, constants_text(d))));
    }
    let ghost c = reps.deep_view();
    if !monitors_eq(&doc.monitors, &saved.monitors) {
        let plural = chars_of("monitors");
        let single = chars_of("monitor");
        let use_single = if find_field_value_span_chars(source, plural.as_slice()).is_some() {
            false
        } else {
            find_field_value_span_chars(source, single.as_slice()).is_some() && doc.monitors.len() <= 1
        };
        assert(d.monitors.len() == doc.monitors@.len());
        assert(use_single == (monitor_field(source@, d) == "monitor"@)) by {
            reveal_strlit("monitor");
            reveal_strlit("monitors");
            assert("monitor"@.len() != "monitors"@.len());
        }
        if use_single {
            let value = if doc.monitors.len() > 0 {
                assert(doc.monitors@[0].deep_view() == d.monitors[0]);
                render_monitor(&doc.monitors[0])
            } else {
                chars_of("(type: \"cu29::monitoring::NoMonitor\")")
            };
            assert(value.deep_view() =~= value@);
            reps.push(("monitor", value));
            assert(reps.deep_view() =~= c.push(("monitor"@, value@)));
        } else {
            let m = render_monitors(doc);
            assert(m.deep_view() =~= m@);
            reps.push(("monitors", m));
            assert(reps.deep_view() =~= c.push(("monitors"@, monitors_text(d))));
        }
    }
    reps
}

/// Whether a missing section is added (see [`insertion_wanted`]).
pub fn should_insert(name: &str, doc: &GraphDocument) -> (r: bool)
    ensures
        r == insertion_wanted(name@, doc.deep_view()),
{
    let n = chars_of(name);
    proof {
        reveal_strlit("tasks");
        reveal_strlit("cnx");
        reveal_strlit("bridges");
        reveal_strlit("constants");
        reveal_strlit("monitor");
        reveal_strlit("monitors");
    }
    if crate::text::str_eq(name, "tasks") || crate::text::str_eq(name, "cnx") {
        true
    } else if crate::text::str_eq(name, "bridges") {
        has_bridge(doc)
    } else if crate::text::str_eq(name, "constants") {
        doc.constants.len() > 0
    } else if crate::text::str_eq(name, "monitor") || crate::text::str_eq(name, "monitors") {
        doc.monitors.len() > 0
    } else {
        false
    }
}

fn has_bridge(doc: &GraphDocument) -> (r: bool)
    ensures
        r == exists|i: int| 0 <= i < doc.deep_view().nodes.len() && doc.deep_view().nodes[i].kind == ComponentKind::Bridge,
{
    let mut i: usize = 0;
    while i < doc.nodes.len()
        invariant
            i <= doc.nodes@.len(),
            forall|j: int| 0 <= j < i ==> doc.deep_view().nodes[j].kind != ComponentKind::Bridge,
        decreases doc.nodes.len() - i,
    {
        assert(doc.deep_view().nodes[i as int].kind == doc.nodes@[i as int].kind);
        if doc.nodes[i].kind == ComponentKind::Bridge {
            assert(doc.deep_view().nodes[i as int].kind == ComponentKind::Bridge);
            return true;
        }
        i = i + 1;
    }
    false
}

/// Splits the replacements into those the text has (with their spans) and
/// those to be added.
fn split_fields(
    source: &[char],
    reps: &Vec<(&'static str, Vec<char>)>,
    doc: &GraphDocument,
) -> (r: (Vec<(usize, usize, Vec<char>)>, Vec<(&'static str, Vec<char>)>))
    ensures
        r.0.deep_view() == present_fields(source@, reps.deep_view()),
        r.1.deep_view() == absent_fields(source@, reps.deep_view(), doc.deep_view()),
{
    let ghost rv = reps.deep_view();
    let mut present: Vec<(usize, usize, Vec<char>)> = Vec::new();
    let mut absent: Vec<(&'static str, Vec<char>)> = Vec::new();
    let mut i: usize = 0;
    assert(rv.take(0) =~= Seq::<(Seq<char>, Seq<char>)>::empty());
    while i < reps.len()
        invariant
            i <= reps@.len(),
            rv == reps.deep_view(),
            present.deep_view() == present_fields(source@, rv.take(i as int)),
            absent.deep_view() == absent_fields(source@, rv.take(i as int), doc.deep_view()),
        decreases reps.len() - i,
    {
        assert(rv.take(i + 1).drop_last() =~= rv.take(i as int));
        assert(rv.take(i + 1).last() == rv[i as int]);
        assert(rv[i as int] == (reps@[i as int].0@, reps@[i as int].1@));
        let name = chars_of(reps[i].0);
        match find_field_value_span_chars(source, name.as_slice()) {
            Some((a, b)) => {
                let ghost before = present.deep_view();
                let mut v: Vec<char> = Vec::new();
                push_all(&mut v, reps[i].1.as_slice());
                present.push((a, b, v));
                assert(present.deep_view() =~= before.push((a, b, rv[i as int].1)));
            },
            None => {
                if should_insert(reps[i].0, doc) {
                    let ghost before = absent.deep_view();
                    let mut v: Vec<char> = Vec::new();
                    push_all(&mut v, reps[i].1.as_slice());
                    absent.push((reps[i].0, v));
                    assert(absent.deep_view() =~= before.push(rv[i as int]));
                }
            },
        }
        i = i + 1;
    }
    assert(rv.take(reps.len() as int) =~= rv);
    (present, absent)
}

/// Orders the splices by decreasing start, keeping the order of equal starts.
fn sort_splices(items: Vec<(usize, usize, Vec<char>)>) -> (r: Vec<(usize, usize, Vec<char>)>)
    ensures
        r.deep_view() == sort_desc(items.deep_view()),
{
    let ghost iv = items.deep_view();
    let ghost orig = items@;
    assert(forall|i: int| 0 <= i < orig.len() ==> iv[i] == (#[trigger] orig[i]).deep_view());
    let mut rest = items;
    let n = rest.len();
    let mut sorted: Vec<(usize, usize, Vec<char>)> = Vec::new();
    let mut k: usize = 0;
    assert(iv.take(0) =~= Seq::<Splice>::empty());
    while k < n
        invariant
            k <= n,
            n == iv.len(),
            n == orig.len(),
            rest@ =~= orig.subrange(k as int, n as int),
            forall|i: int| 0 <= i < n ==> iv[i] == (#[trigger] orig[i]).deep_view(),
            sorted.deep_view() == sort_desc(iv.take(k as int)),
        decreases n - k,
    {
        let x = rest.remove(0);
        assert(x == orig[k as int]);
        assert(iv[k as int] == x.deep_view());
        let ghost sv = sorted.deep_view();
        let mut j: usize = sorted.len();
        while j > 0 && sorted[j - 1].0 < x.0
            invariant
                j <= sorted@.len(),
                sv == sorted.deep_view(),
                forall|i: int| j <= i < sv.len() ==> sv[i].0 < x.0,
            decreases j,
        {
            assert(sv[j - 1].0 == sorted@[j - 1].0);
            j = j - 1;
        }
        proof {
            if j > 0 {
                assert(sv[j - 1].0 == sorted@[j - 1].0);
            }
            lemma_insert_desc(sv, x.deep_view(), j as int);
        }
        let ghost xs = x;
        sorted.insert(j, x);
        assert(sorted.deep_view() =~= sv.subrange(0, j as int).push(xs.deep_view()) + sv.subrange(j as int, sv.len() as int));
        assert(iv.take(k + 1).drop_last() =~= iv.take(k as int));
        assert(iv.take(k + 1).last() == xs.deep_view());
        k = k + 1;
        assert(rest@ =~= orig.subrange(k as int, n as int));
    }
    assert(iv.take(n as int) =~= iv);
    sorted
}

/// Applies the splices in order, or `None` where one does not fit (see [`splice_all`]).
fn apply_splices(source: &[char], splices: &Vec<(usize, usize, Vec<char>)>) -> (r: Option<Vec<char>>)
    ensures
        r.deep_view() == splice_all(source@, splices.deep_view()),
{
    let ghost sv = splices.deep_view();
    let mut text: Vec<char> = Vec::new();
    push_all(&mut text, source);
    assert(text@ =~= source@);
    let mut i: usize = 0;
    assert(sv.take(0) =~= Seq::<Splice>::empty());
    while i < splices.len()
        invariant
            i <= splices@.len(),
            sv == splices.deep_view(),
            splice_all(source@, sv.take(i as int)) == Some(text@),
        decreases splices.len() - i,
    {
        assert(sv.take(i + 1).drop_last() =~= sv.take(i as int));
        assert(sv.take(i + 1).last() == sv[i as int]);
        assert(sv[i as int] == splices@[i as int].deep_view());
        let a = splices[i].0;
        let b = splices[i].1;
        if !(a <= b && b <= text.len()) {
            proof {
                lemma_splice_none_stays(source@, sv, i as int + 1);
            }
            return None;
        }
        let mut next: Vec<char> = Vec::new();
        push_range(&mut next, text.as_slice(), 0, a);
        push_all(&mut next, splices[i].2.as_slice());
        push_range(&mut next, text.as_slice(), b, text.len());
        text = next;
        i = i + 1;
    }
    assert(sv.take(splices.len() as int) =~= sv);
    Some(text)
}

proof fn lemma_splice_none_stays(s: Seq<char>, sp: Seq<Splice>, k: int)
    requires
        0 <= k <= sp.len(),
        splice_all(s, sp.take(k)) is None,
    ensures
        splice_all(s, sp) is None,
{
    if splice_all(s, sp) is Some {
        lemma_splice_prefix(s, sp, k);
    }
}

/// Inserts the fields in order, or `None` where the text has no `)` (see [`insert_all`]).
pub fn insert_fields(start: Vec<char>, fields: &Vec<(&'static str, Vec<char>)>) -> (r: Option<Vec<char>>)
    ensures
        r.deep_view() == insert_all(start@, fields.deep_view()),
{
    let ghost fv = fields.deep_view();
    let ghost t0 = start@;
    let mut text = start;
    let mut i: usize = 0;
    assert(fv.take(0) =~= Seq::<(Seq<char>, Seq<char>)>::empty());
    while i < fields.len()
        invariant
            i <= fields@.len(),
            fv == fields.deep_view(),
            t0 == start@,
            insert_all(t0, fv.take(i as int)) == Some(text@),
        decreases fields.len() - i,
    {
        assert(fv.take(i + 1).drop_last() =~= fv.take(i as int));
        assert(fv.take(i + 1).last() == fv[i as int]);
        assert(fv[i as int] == (fields@[i as int].0@, fields@[i as int].1@));
        let name = chars_of(fields[i].0);
        match insert_root_field(text.as_slice(), name.as_slice(), fields[i].1.as_slice()) {
            Some(t) => {
                text = t;
            },
            None => {
                assert(name@ == fv[i as int].0);
                assert(insert_all(t0, fv.take(i + 1)) is None);
                proof {
                    lemma_insert_none_stays(t0, fv, i as int + 1);
                }
                assert(insert_all(t0, fv) is None);
                return None;
            },
        }
        i = i + 1;
    }
    assert(fv.take(fields.len() as int) =~= fv);
    Some(text)
}

proof fn lemma_insert_none_stays(s: Seq<char>, f: Seq<(Seq<char>, Seq<char>)>, k: int)
    requires
        0 <= k <= f.len(),
        insert_all(s, f.take(k)) is None,
    ensures
        insert_all(s, f) is None,
    decreases f.len() - k,
{
    if k < f.len() {
        assert(f.take(k + 1).drop_last() =~= f.take(k));
        lemma_insert_none_stays(s, f, k + 1);
    } else {
        assert(f.take(k) =~= f);
    }
}

/// The text with the changed sections replaced in place (see [`replaced_text`]).
pub fn replace_sections(doc: &GraphDocument, saved: &GraphDocument, source: &[char]) -> (r: (Option<Vec<char>>, Vec<(&'static str, Vec<char>)>))
    ensures
        r.0.deep_view() == replaced_text(doc.deep_view(), saved.deep_view(), source@),
        r.1.deep_view() == absent_fields(source@, replacements(doc.deep_view(), saved.deep_view(), source@), doc.deep_view()),
{
    let reps = replacement_list(doc, saved, source);
    let (present, absent) = split_fields(source, &reps, doc);
    let sorted = sort_splices(present);
    (apply_splices(source, &sorted), absent)
}

} // verus!
