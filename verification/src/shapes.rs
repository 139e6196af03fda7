//! What the catalog reads of the Rust source it indexes: the shape of types,
//! the message types of task ports and the configuration keys a task reads.
use vstd::prelude::*;

use crate::fieldmap::Pair;
use crate::model::{ConfigHint, HintModel, PortDescriptor, PortDirection, PortModel};
use crate::naming::{extract_macro_types, macro_types, qualified_type, qualify_type};
use crate::order::{lemma_lex_order, lex_lt, str_compare};
use crate::text::str_eq;

verus! {

/// The last segment of a type path.
#[derive(Debug)]
pub struct PathEnd {
    pub ident: String,
    /// Whether the segment has generic arguments (`<..>` or `(..)`).
    pub has_arguments: bool,
    /// The type arguments written in angle brackets, where there are angle brackets.
    pub type_arguments: Option<Vec<String>>,
}

/// The shape of a Rust type, each with its tokens as text.
#[derive(Debug)]
pub enum TypeShape {
    Tuple { text: String, elems: Vec<TypeShape> },
    Reference { text: String, elem: Box<TypeShape> },
    Macro { text: String, name: String, tokens: String },
    Path { text: String, last: Option<PathEnd> },
    Other { text: String },
}

/// The tokens of a type as text.
pub open spec fn shape_text(t: TypeShape) -> Seq<char> {
    match t {
        TypeShape::Tuple { text, .. } => text@,
        TypeShape::Reference { text, .. } => text@,
        TypeShape::Macro { text, .. } => text@,
        TypeShape::Path { text, .. } => text@,
        TypeShape::Other { text } => text@,
    }
}

/// The name of a path type's last segment.
pub open spec fn shape_base(t: TypeShape) -> Option<Seq<char>> {
    match t {
        TypeShape::Path { last: Some(end), .. } => Some(end.ident@),
        _ => None,
    }
}

/// A path type whose last segment has generic arguments.
pub open spec fn shape_has_generics(t: TypeShape) -> bool {
    match t {
        TypeShape::Path { last: Some(end), .. } => end.has_arguments,
        _ => false,
    }
}

/// The type arguments of a path type's last segment, none for other types.
pub open spec fn shape_arguments(t: TypeShape) -> Seq<Seq<char>> {
    match t {
        TypeShape::Path { last: Some(end), .. } => match end.type_arguments {
            Some(args) => args.deep_view(),
            None => Seq::empty(),
        },
        _ => Seq::empty(),
    }
}

impl TypeShape {
    pub fn text(&self) -> (r: &String)
        ensures
            r@ == shape_text(*self),
    {
        match self {
            TypeShape::Tuple { text, .. } => text,
            TypeShape::Reference { text, .. } => text,
            TypeShape::Macro { text, .. } => text,
            TypeShape::Path { text, .. } => text,
            TypeShape::Other { text } => text,
        }
    }

    pub fn base_name(&self) -> (r: Option<String>)
        ensures
            r.deep_view() == shape_base(*self),
    {
        match self {
            TypeShape::Path { last: Some(end), .. } => Some(end.ident.clone()),
            _ => None,
        }
    }

    pub fn has_generics(&self) -> (r: bool)
        ensures
            r == shape_has_generics(*self),
    {
        match self {
            TypeShape::Path { last: Some(end), .. } => end.has_arguments,
            _ => false,
        }
    }

    pub fn arguments(&self) -> (r: Vec<String>)
        ensures
            r.deep_view() == shape_arguments(*self),
    {
        match self {
            TypeShape::Path { last: Some(end), .. } => match &end.type_arguments {
                Some(args) => clone_strings(args),
                None => {
                    let v: Vec<String> = Vec::new();
                    assert(v.deep_view() =~= Seq::<Seq<char>>::empty());
                    v
                },
            },
            _ => {
                let v: Vec<String> = Vec::new();
                assert(v.deep_view() =~= Seq::<Seq<char>>::empty());
                v
            },
        }
    }
}

/// A copy of a vector of strings.
pub fn clone_strings(v: &Vec<String>) -> (r: Vec<String>)
    ensures
        r.deep_view() == v.deep_view(),
{
    let mut out: Vec<String> = Vec::new();
    let mut i: usize = 0;
    while i < v.len()
        invariant
            i <= v@.len(),
            out@.len() == i,
            forall|j: int| 0 <= j < i ==> (#[trigger] out@[j])@ == v@[j]@,
        decreases v.len() - i,
    {
        out.push(v[i].clone());
        i = i + 1;
    }
    assert(out.deep_view() =~= v.deep_view());
    out
}

// ---------------------------------------------------------------------------
// Message types
// ---------------------------------------------------------------------------

/// The message types a port type carries: the elements of a tuple in turn,
/// what a reference refers to, the arguments of a message macro, the argument
/// of `CuMsg<..>`, and otherwise the type itself.
pub open spec fn message_types(t: TypeShape) -> Seq<Seq<char>>
    decreases t, 0nat,
{
    match t {
        TypeShape::Tuple { elems, .. } => element_types(elems@, elems@.len() as int),
        TypeShape::Reference { elem, .. } => message_types(*elem),
        TypeShape::Macro { name, tokens, .. } => macro_types(name@, tokens@),
        TypeShape::Path { text, last } => match last {
            None => Seq::empty(),
            Some(end) => if end.ident@ == "CuMsg"@ && end.type_arguments is Some {
                end.type_arguments->Some_0.deep_view()
            } else {
                seq![text@]
            },
        },
        TypeShape::Other { text } => seq![text@],
    }
}

/// The message types of the first `k` tuple elements, concatenated.
pub open spec fn element_types(elems: Seq<TypeShape>, k: int) -> Seq<Seq<char>>
    decreases elems, k,
{
    if k <= 0 || k > elems.len() {
        Seq::empty()
    } else {
        element_types(elems, k - 1) + message_types(elems[k - 1])
    }
}

/// The message types a port type carries (see [`message_types`]).
pub fn extract_message_types(ty: &TypeShape) -> (r: Vec<String>)
    ensures
        r.deep_view() == message_types(*ty),
    decreases ty,
{
    match ty {
        TypeShape::Tuple { text, elems } => {
            let mut out: Vec<String> = Vec::new();
            let mut k: usize = 0;
            while k < elems.len()
                invariant
                    k <= elems@.len(),
                    *ty == (TypeShape::Tuple { text: *text, elems: *elems }),
                    out.deep_view() == element_types(elems@, k as int),
                decreases elems.len() - k,
            {
                proof {
                    assert(decreases_to!(*ty => ty->Tuple_elems));
                    assert(decreases_to!(ty->Tuple_elems => ty->Tuple_elems@));
                    assert(decreases_to!(ty->Tuple_elems@ => ty->Tuple_elems@[k as int]));
                    assert(decreases_to!(*ty => elems@[k as int]));
                }
                let part = extract_message_types(&elems[k]);
                let ghost before = out.deep_view();
                let mut j: usize = 0;
                while j < part.len()
                    invariant
                        j <= part@.len(),
                        out.deep_view() == before + part.deep_view().take(j as int),
                    decreases part.len() - j,
                {
                    let ghost mid = out.deep_view();
                    out.push(part[j].clone());
                    assert(out.deep_view() =~= mid.push(part@[j as int]@));
                    assert(part.deep_view().take(j + 1) =~= part.deep_view().take(j as int).push(part@[j as int]@));
                    j = j + 1;
                }
                assert(part.deep_view().take(part.len() as int) =~= part.deep_view());
                k = k + 1;
            }
            out
        },
        TypeShape::Reference { elem, .. } => extract_message_types(elem),
        TypeShape::Macro { name, tokens, .. } => extract_macro_types(name.as_str(), tokens.as_str()),
        TypeShape::Path { text, last } => match last {
            None => {
                let v: Vec<String> = Vec::new();
                assert(v.deep_view() =~= Seq::<Seq<char>>::empty());
                v
            },
            Some(end) => {
                let is_msg = str_eq(end.ident.as_str(), "CuMsg");
                match &end.type_arguments {
                    Some(args) => {
                        if is_msg {
                            return clone_strings(args);
                        }
                    },
                    None => {},
                }
                let mut v: Vec<String> = Vec::new();
                v.push(text.clone());
                assert(v.deep_view() =~= seq![text@]);
                v
            },
        },
        TypeShape::Other { text } => {
            let mut v: Vec<String> = Vec::new();
            v.push(text.clone());
            assert(v.deep_view() =~= seq![text@]);
            v
        },
    }
}

// ---------------------------------------------------------------------------
// Ports of a task
// ---------------------------------------------------------------------------

/// The ports a list of message types gives: named and declared by the type as
/// written, serialized (and, until aliases are resolved, canonically) by its
/// qualified name, numbered in order.
pub open spec fn ports_of(
    types: Seq<Seq<char>>,
    direction: PortDirection,
    is_app: bool,
    crate_name: Seq<char>,
    module: Seq<char>,
    imports: Seq<Pair>,
) -> Seq<PortModel> {
    Seq::new(
        types.len(),
        |i: int|
            PortModel {
                name: types[i],
                direction,
                ordinal: i as usize,
                declared_type: types[i],
                serialized_type: qualified_type(types[i], is_app, crate_name, module, imports),
                canonical_type: qualified_type(types[i], is_app, crate_name, module, imports),
            },
    )
}

/// The ports a list of message types gives (see [`ports_of`]).
pub fn make_ports(
    types: &Vec<String>,
    direction: PortDirection,
    is_app: bool,
    crate_name: &str,
    module: &str,
    imports: &Vec<(String, String)>,
) -> (r: Vec<PortDescriptor>)
    ensures
        r.deep_view() == ports_of(types.deep_view(), direction, is_app, crate_name@, module@, imports.deep_view()),
{
    let mut out: Vec<PortDescriptor> = Vec::new();
    let mut i: usize = 0;
    while i < types.len()
        invariant
            i <= types@.len(),
            out.deep_view() =~= ports_of(types.deep_view(), direction, is_app, crate_name@, module@, imports.deep_view()).take(
                i as int,
            ),
        decreases types.len() - i,
    {
        let declared = &types[i];
        let serialized = qualify_type(declared.as_str(), is_app, crate_name, module, imports);
        let ghost before = out.deep_view();
        out.push(
            PortDescriptor {
                name: declared.clone(),
                direction,
                ordinal: i,
                declared_type: declared.clone(),
                serialized_type: serialized.clone(),
                canonical_type: serialized,
            },
        );
        assert(out.deep_view() =~= before.push(
            ports_of(types.deep_view(), direction, is_app, crate_name@, module@, imports.deep_view())[i as int],
        ));
        i = i + 1;
    }
    out
}

// ---------------------------------------------------------------------------
// Configuration hints
// ---------------------------------------------------------------------------

/// Keys strictly increase.
pub open spec fn hint_keys_sorted(e: Seq<HintModel>) -> bool {
    forall|i: int, j: int| 0 <= i < j < e.len() ==> lex_lt(#[trigger] e[i].key, #[trigger] e[j].key)
}

/// Sorted insertion that keeps an existing hint with the same key.
pub open spec fn hint_insert(e: Seq<HintModel>, h: HintModel) -> Seq<HintModel>
    decreases e.len(),
{
    if e.len() == 0 {
        seq![h]
    } else if e[0].key == h.key {
        e
    } else if lex_lt(h.key, e[0].key) {
        seq![h] + e
    } else {
        seq![e[0]] + hint_insert(e.drop_first(), h)
    }
}

/// One hint per key, the first one given, sorted by key.
pub open spec fn unique_hints(hints: Seq<HintModel>) -> Seq<HintModel>
    decreases hints.len(),
{
    if hints.len() == 0 {
        Seq::empty()
    } else {
        hint_insert(unique_hints(hints.drop_last()), hints.last())
    }
}

proof fn lemma_hint_insert_shape(e: Seq<HintModel>, h: HintModel, p: int)
    requires
        hint_keys_sorted(e),
        0 <= p <= e.len(),
        forall|i: int| 0 <= i < p ==> lex_lt(e[i].key, h.key),
        p < e.len() ==> !lex_lt(e[p].key, h.key),
    ensures
        p < e.len() && e[p].key == h.key ==> hint_insert(e, h) == e,
        !(p < e.len() && e[p].key == h.key) ==> hint_insert(e, h) == e.take(p).push(h) + e.skip(p),
    decreases p,
{
    if e.len() == 0 {
        assert(e.take(p).push(h) + e.skip(p) =~= seq![h]);
    } else if p == 0 {
        if e[0].key != h.key {
            lemma_lex_order(e[0].key, h.key, h.key);
            assert(seq![h] + e =~= e.take(0).push(h) + e.skip(0));
        }
    } else {
        lemma_lex_order(e[0].key, h.key, h.key);
        let rest = e.drop_first();
        assert forall|i: int, j: int| 0 <= i < j < rest.len() implies lex_lt(
            #[trigger] rest[i].key,
            #[trigger] rest[j].key,
        ) by {
            assert(rest[i] == e[i + 1]);
            assert(rest[j] == e[j + 1]);
        }
        assert forall|i: int| 0 <= i < p - 1 implies lex_lt(rest[i].key, h.key) by {
            assert(rest[i] == e[i + 1]);
        }
        lemma_hint_insert_shape(rest, h, p - 1);
        if p < e.len() && e[p].key == h.key {
            assert(seq![e[0]] + rest =~= e);
        } else {
            assert(seq![e[0]] + (rest.take(p - 1).push(h) + rest.skip(p - 1)) =~= e.take(p).push(h)
                + e.skip(p));
        }
    }
}

/// Keeps one hint per key, the first given, sorted by key (see [`unique_hints`]).
pub fn deduplicate_hints(hints: &mut Vec<ConfigHint>)
    ensures
        final(hints).deep_view() == unique_hints(old(hints).deep_view()),
        hint_keys_sorted(final(hints).deep_view()),
{
    let ghost hv = hints.deep_view();
    let mut unique: Vec<ConfigHint> = Vec::new();
    let mut k: usize = 0;
    assert(hv.take(0) =~= Seq::<HintModel>::empty());
    while k < hints.len()
        invariant
            k <= hints@.len(),
            hv == hints.deep_view(),
            unique.deep_view() == unique_hints(hv.take(k as int)),
            hint_keys_sorted(unique.deep_view()),
        decreases hints.len() - k,
    {
        assert(hv.take(k + 1).drop_last() =~= hv.take(k as int));
        assert(hv.take(k + 1).last() == hv[k as int]);
        assert(hv[k as int] == hints@[k as int].deep_view());
        let ghost e = unique.deep_view();
        let mut p: usize = 0;
        let mut found = false;
        while p < unique.len()
            invariant_except_break
                p <= unique@.len(),
                k < hints@.len(),
                hv == hints.deep_view(),
                e == unique.deep_view(),
                forall|i: int| 0 <= i < p ==> lex_lt(e[i].key, hv[k as int].key),
                !found,
            ensures
                p <= unique@.len(),
                k < hints@.len(),
                hv == hints.deep_view(),
                e == unique.deep_view(),
                forall|i: int| 0 <= i < p ==> lex_lt(e[i].key, hv[k as int].key),
                p < unique@.len() ==> !lex_lt(e[p as int].key, hv[k as int].key),
                found == (p < unique@.len() && e[p as int].key == hv[k as int].key),
            decreases unique.len() - p,
        {
            let c = str_compare(unique[p].key.as_str(), hints[k].key.as_str());
            assert(e[p as int].key == unique@[p as int].key@);
            assert(hv[k as int].key == hints@[k as int].key@);
            if c >= 0 {
                found = c == 0;
                break;
            }
            p = p + 1;
        }
        proof {
            if p < unique.len() {
                lemma_lex_order(e[p as int].key, hv[k as int].key, hv[k as int].key);
            }
            lemma_hint_insert_shape(e, hv[k as int], p as int);
        }
        if !found {
            let h = hints[k].clone();
            unique.insert(p, h);
            assert(unique.deep_view() =~= e.take(p as int).push(hv[k as int]) + e.skip(p as int));
            proof {
                let f = unique.deep_view();
                assert forall|i: int, j: int| 0 <= i < j < f.len() implies lex_lt(
                    #[trigger] f[i].key,
                    #[trigger] f[j].key,
                ) by {
                    if j < p {
                        assert(f[i] == e[i] && f[j] == e[j]);
                    } else if j == p {
                        assert(f[i] == e[i]);
                    } else if i == p {
                        assert(f[j] == e[j - 1]);
                        if j - 1 > p {
                            lemma_lex_order(hv[k as int].key, e[p as int].key, e[j - 1].key);
                        }
                        lemma_lex_order(e[p as int].key, hv[k as int].key, hv[k as int].key);
                    } else if i < p {
                        assert(f[i] == e[i] && f[j] == e[j - 1]);
                        if j - 1 == i {
                            lemma_lex_order(e[i].key, e[i].key, e[i].key);
                        }
                    } else {
                        assert(f[i] == e[i - 1] && f[j] == e[j - 1]);
                    }
                }
            }
        }
        k = k + 1;
    }
    assert(hv.take(hints.len() as int) =~= hv);
    *hints = unique;
}

} // verus!
