//! How the catalog names things: qualifying the Rust types that ports carry,
//! reading the message types out of `input_msg!`/`output_msg!` and the module
//! a source file stands for.
use vstd::prelude::*;

use crate::fieldmap::{map_get, Pair};
use crate::text::{
    ascii_alnum, chars_of, occurs_at, contains_exec, first_occurrence, is_ascii_alnum, is_prefix,
    is_suffix, contains_seq, push_all, push_range, push_str, starts_with, ends_with, str_eq,
    string_of, trim, trim_start, trimmed, skip_spaces, lemma_skip_spaces,
};

verus! {

// ---------------------------------------------------------------------------
// Splitting at top-level commas
// ---------------------------------------------------------------------------

pub open spec fn opens_group(c: char) -> bool {
    c == '(' || c == '[' || c == '<' || c == '{'
}

pub open spec fn closes_group(c: char) -> bool {
    c == ')' || c == ']' || c == '>' || c == '}'
}

/// The pieces of `s[start..]` between commas outside any bracket, scanning
/// from `i` at bracket depth `depth` (a closing bracket never takes it below 0).
pub open spec fn comma_pieces(s: Seq<char>, i: int, depth: nat, start: int) -> Seq<Seq<char>>
    decreases s.len() - i,
{
    if i < 0 || i >= s.len() {
        seq![s.subrange(start, s.len() as int)]
    } else if opens_group(s[i]) {
        comma_pieces(s, i + 1, depth + 1, start)
    } else if closes_group(s[i]) {
        comma_pieces(s, i + 1, if depth > 0 { (depth - 1) as nat } else { 0 }, start)
    } else if s[i] == ',' && depth == 0 {
        seq![s.subrange(start, i)] + comma_pieces(s, i + 1, 0, i + 1)
    } else {
        comma_pieces(s, i + 1, depth, start)
    }
}

/// The pieces of a text between its top-level commas (there is always at least one).
pub open spec fn top_level_pieces(s: Seq<char>) -> Seq<Seq<char>> {
    comma_pieces(s, 0, 0, 0)
}

/// Splits a text at commas outside brackets (see [`top_level_pieces`]).
pub fn split_top_level_commas(source: &str) -> (r: Vec<String>)
    ensures
        r.deep_view() == top_level_pieces(source@),
{
    let s = chars_of(source);
    let mut values: Vec<String> = Vec::new();
    let mut depth: usize = 0;
    let mut start: usize = 0;
    let mut i: usize = 0;
    while i < s.len()
        invariant
            i <= s@.len(),
            s@ == source@,
            start <= i,
            depth <= i,
            values.deep_view() + comma_pieces(s@, i as int, depth as nat, start as int) == top_level_pieces(
                s@,
            ),
        decreases s.len() - i,
    {
        let c = s[i];
        if c == '(' || c == '[' || c == '<' || c == '{' {
            depth = depth + 1;
        } else if c == ')' || c == ']' || c == '>' || c == '}' {
            if depth > 0 {
                depth = depth - 1;
            }
        } else if c == ',' && depth == 0 {
            let mut piece: Vec<char> = Vec::new();
            push_range(&mut piece, s.as_slice(), start, i);
            let ghost before = values.deep_view();
            let p = string_of(piece.as_slice());
            values.push(p);
            assert(values.deep_view() =~= before.push(s@.subrange(start as int, i as int)));
            assert(values.deep_view() + comma_pieces(s@, i + 1, 0, i + 1) =~= before + (seq![
                s@.subrange(start as int, i as int),
            ] + comma_pieces(s@, i + 1, 0, i + 1)));
            start = i + 1;
        }
        i = i + 1;
    }
    let mut piece: Vec<char> = Vec::new();
    push_range(&mut piece, s.as_slice(), start, s.len());
    let ghost before = values.deep_view();
    let p = string_of(piece.as_slice());
    values.push(p);
    assert(values.deep_view() =~= before + seq![s@.subrange(start as int, s@.len() as int)]);
    values
}

// ---------------------------------------------------------------------------
// Message types written with `input_msg!` / `output_msg!`
// ---------------------------------------------------------------------------

/// The message types among the pieces: lifetimes (`'m`) are skipped, the
/// others trimmed, and empty ones dropped.
pub open spec fn message_pieces(pieces: Seq<Seq<char>>) -> Seq<Seq<char>>
    decreases pieces.len(),
{
    if pieces.len() == 0 {
        Seq::empty()
    } else {
        let rest = message_pieces(pieces.drop_last());
        let p = pieces.last();
        let ts = trim_start(p);
        if ts.len() > 0 && ts[0] == '\'' {
            rest
        } else if trim(p).len() == 0 {
            rest
        } else {
            rest.push(trim(p))
        }
    }
}

/// The types a message macro names: for `input_msg!`/`output_msg!` the
/// arguments that are not lifetimes; for any other macro its tokens as written.
pub open spec fn macro_types(name: Seq<char>, tokens: Seq<char>) -> Seq<Seq<char>> {
    if name == "input_msg"@ || name == "output_msg"@ {
        message_pieces(top_level_pieces(tokens))
    } else {
        seq![tokens]
    }
}

/// The message types of a macro type (see [`macro_types`]).
pub fn extract_macro_types(name: &str, tokens: &str) -> (r: Vec<String>)
    ensures
        r.deep_view() == macro_types(name@, tokens@),
{
    if !(str_eq(name, "input_msg") || str_eq(name, "output_msg")) {
        let mut v: Vec<String> = Vec::new();
        v.push(tokens.to_owned());
        assert(v.deep_view() =~= seq![tokens@]);
        return v;
    }
    let pieces = split_top_level_commas(tokens);
    let ghost pv = pieces.deep_view();
    let mut out: Vec<String> = Vec::new();
    let mut k: usize = 0;
    assert(pv.take(0) =~= Seq::<Seq<char>>::empty());
    while k < pieces.len()
        invariant
            k <= pieces@.len(),
            pv == pieces.deep_view(),
            out.deep_view() == message_pieces(pv.take(k as int)),
        decreases pieces.len() - k,
    {
        assert(pv.take(k + 1).drop_last() =~= pv.take(k as int));
        assert(pv.take(k + 1).last() == pv[k as int]);
        let c = chars_of(pieces[k].as_str());
        let (a, b) = crate::text::trim_bounds(c.as_slice(), 0, c.len());
        let st = skip_start(c.as_slice());
        let lifetime = st < c.len() && c[st] == '\'';
        if !lifetime && a < b {
            let mut t: Vec<char> = Vec::new();
            push_range(&mut t, c.as_slice(), a, b);
            let ghost before = out.deep_view();
            out.push(string_of(t.as_slice()));
            assert(c@.subrange(0, c@.len() as int) =~= c@);
            assert(out.deep_view() =~= before.push(trim(pv[k as int])));
        } else {
            assert(c@.subrange(0, c@.len() as int) =~= c@);
        }
        k = k + 1;
    }
    assert(pv.take(pieces.len() as int) =~= pv);
    out
}

/// The index of the first character that is not whitespace (see [`skip_spaces`]).
fn skip_start(c: &[char]) -> (r: usize)
    ensures
        r == skip_spaces(c@, 0),
        r <= c@.len(),
        trim_start(c@) == c@.subrange(r as int, c@.len() as int),
{
    proof {
        lemma_skip_spaces(c@, 0);
    }
    let mut i: usize = 0;
    while i < c.len() && crate::text::space(c[i])
        invariant
            i <= c@.len(),
            skip_spaces(c@, i as int) == skip_spaces(c@, 0),
        decreases c.len() - i,
    {
        i = i + 1;
    }
    i
}

// ---------------------------------------------------------------------------
// Qualifying type names
// ---------------------------------------------------------------------------

/// The names that stand for themselves: Rust's scalar types, `String` and the
/// unit type, and any tuple or array type.
pub open spec fn primitive_or_composite(value: Seq<char>) -> bool {
    ||| value == "()"@
    ||| value == "bool"@
    ||| value == "u8"@
    ||| value == "u16"@
    ||| value == "u32"@
    ||| value == "u64"@
    ||| value == "u128"@
    ||| value == "usize"@
    ||| value == "i8"@
    ||| value == "i16"@
    ||| value == "i32"@
    ||| value == "i64"@
    ||| value == "i128"@
    ||| value == "isize"@
    ||| value == "f32"@
    ||| value == "f64"@
    ||| value == "String"@
    ||| (value.len() > 0 && value[0] == '(')
    ||| (value.len() > 0 && value[0] == '[')
}

/// Whether a type name stands for itself (see [`primitive_or_composite`]).
pub fn is_primitive_or_composite(value: &str) -> (r: bool)
    ensures
        r == primitive_or_composite(value@),
{
    let c = chars_of(value);
    str_eq(value, "()") || str_eq(value, "bool") || str_eq(value, "u8") || str_eq(value, "u16")
        || str_eq(value, "u32") || str_eq(value, "u64") || str_eq(value, "u128") || str_eq(value, "usize")
        || str_eq(value, "i8") || str_eq(value, "i16") || str_eq(value, "i32") || str_eq(value, "i64")
        || str_eq(value, "i128") || str_eq(value, "isize") || str_eq(value, "f32") || str_eq(value, "f64")
        || str_eq(value, "String") || (c.len() > 0 && (c[0] == '(' || c[0] == '['))
}

/// `[prefix, module, item]` without the empty parts, joined with `::`.
pub open spec fn joined_path(parts: Seq<Seq<char>>) -> Seq<char>
    decreases parts.len(),
{
    if parts.len() == 0 {
        Seq::empty()
    } else {
        let rest = joined_path(parts.drop_last());
        if parts.last().len() == 0 {
            rest
        } else if rest.len() == 0 {
            parts.last()
        } else {
            rest + "::"@ + parts.last()
        }
    }
}

/// The path of an item: the crate (left out for the application itself), the
/// module and the item's name, the empty ones skipped, joined with `::`.
pub open spec fn qualified_item(is_app: bool, crate_name: Seq<char>, module: Seq<char>, item: Seq<char>) -> Seq<char> {
    joined_path(seq![if is_app { Seq::empty() } else { crate_name }, module, item])
}

/// Joins the non-empty parts with `::` (see [`joined_path`]).
pub fn join_path(parts: &Vec<&str>) -> (r: String)
    ensures
        r@ == joined_path(parts.deep_view()),
{
    let ghost pv = parts.deep_view();
    let mut out: Vec<char> = Vec::new();
    let mut i: usize = 0;
    assert(pv.take(0) =~= Seq::<Seq<char>>::empty());
    while i < parts.len()
        invariant
            i <= parts@.len(),
            pv == parts.deep_view(),
            out@ == joined_path(pv.take(i as int)),
        decreases parts.len() - i,
    {
        assert(pv.take(i + 1).drop_last() =~= pv.take(i as int));
        assert(pv.take(i + 1).last() == pv[i as int]);
        let part = chars_of(parts[i]);
        if part.len() > 0 {
            if out.len() > 0 {
                push_str(&mut out, "::");
            }
            push_all(&mut out, part.as_slice());
        }
        i = i + 1;
    }
    assert(pv.take(parts.len() as int) =~= pv);
    string_of(out.as_slice())
}

/// The path of an item (see [`qualified_item`]).
pub fn qualify_item(is_app: bool, crate_name: &str, module: &str, item: &str) -> (r: String)
    ensures
        r@ == qualified_item(is_app, crate_name@, module@, item@),
{
    let prefix = if is_app {
        ""
    } else {
        crate_name
    };
    proof {
        reveal_strlit("");
    }
    assert(prefix@ == (if is_app { Seq::<char>::empty() } else { crate_name@ }));
    let mut parts: Vec<&str> = Vec::new();
    parts.push(prefix);
    parts.push(module);
    parts.push(item);
    assert(parts.deep_view() =~= seq![if is_app { Seq::empty() } else { crate_name@ }, module@, item@]);
    join_path(&parts)
}

pub open spec fn word_char(c: char) -> bool {
    is_ascii_alnum(c) || c == '_'
}

/// The first index at or after `i` whose character is (with `word`) or is not
/// a word character, or the length.
pub open spec fn next_where(s: Seq<char>, i: int, word: bool) -> int
    decreases s.len() - i,
{
    if i < 0 || i >= s.len() {
        s.len() as int
    } else if word_char(s[i]) == word {
        i
    } else {
        next_where(s, i + 1, word)
    }
}

/// The first run of word characters (ASCII letters, digits, `_`), if any.
pub open spec fn first_word(s: Seq<char>) -> Option<Seq<char>> {
    let a = next_where(s, 0, true);
    if a < s.len() {
        Some(s.subrange(a, next_where(s, a, false)))
    } else {
        None
    }
}

/// `str::replacen(pat, rep, 1)`: the first occurrence replaced.
pub open spec fn replace_first(s: Seq<char>, pat: Seq<char>, rep: Seq<char>) -> Seq<char> {
    match first_occurrence(s, pat, 0) {
        Some(i) => s.subrange(0, i) + rep + s.subrange(i + pat.len(), s.len() as int),
        None => s,
    }
}

/// `str::trim_start_matches`: every leading copy of `p` removed.
pub open spec fn strip_all_prefix(s: Seq<char>, p: Seq<char>) -> Seq<char>
    decreases s.len(),
{
    if p.len() > 0 && is_prefix(p, s) {
        strip_all_prefix(s.subrange(p.len() as int, s.len() as int), p)
    } else {
        s
    }
}

/// The fully qualified name of a type as written in a module: names that
/// stand for themselves and paths with `::` stay; a name brought in by a `use`
/// takes the imported path; `crate::` becomes the crate's name (nothing for
/// the application); a bare name is qualified by crate and module.
pub open spec fn qualified_type(
    source: Seq<char>,
    is_app: bool,
    crate_name: Seq<char>,
    module: Seq<char>,
    imports: Seq<Pair>,
) -> Seq<char> {
    let compact = trim(source);
    if compact.len() == 0 || primitive_or_composite(compact) {
        compact
    } else {
        let first = match first_word(compact) {
            Some(w) => w,
            None => compact,
        };
        match map_get(imports, first) {
            Some(imported) => replace_first(compact, first, imported),
            None => if is_prefix("crate::"@, compact) {
                if is_app {
                    strip_all_prefix(compact, "crate::"@)
                } else {
                    replace_first(compact, "crate"@, crate_name)
                }
            } else if contains_seq(compact, "::"@) {
                compact
            } else {
                qualified_item(is_app, crate_name, module, compact)
            },
        }
    }
}

fn next_where_exec(s: &[char], i: usize, word: bool) -> (r: usize)
    requires
        i <= s@.len(),
    ensures
        r == next_where(s@, i as int, word),
        i <= r <= s@.len(),
{
    let mut k: usize = i;
    while k < s.len() && ((ascii_alnum(s[k]) || s[k] == '_') != word)
        invariant
            i <= k <= s@.len(),
            next_where(s@, k as int, word) == next_where(s@, i as int, word),
        decreases s.len() - k,
    {
        k = k + 1;
    }
    k
}

fn replace_first_exec(s: &[char], pat: &[char], rep: &[char]) -> (r: Vec<char>)
    ensures
        r@ == replace_first(s@, pat@, rep@),
{
    let mut out: Vec<char> = Vec::new();
    if pat.len() == 0 {
        assert(s@.subrange(0, 0) =~= pat@);
        push_all(&mut out, rep);
        push_all(&mut out, s);
        assert(s@.subrange(0, s@.len() as int) =~= s@);
        assert(out@ =~= s@.subrange(0, 0) + rep@ + s@.subrange(0, s@.len() as int));
        return out;
    }
    proof {
        crate::text::lemma_first_occurrence(s@, pat@, 0);
    }
    match crate::text::find_from(s, pat, 0) {
        Some(i) => {
            assert(occurs_at(s@, i as int, pat@));
            let sl = s.len();
            assert(i + pat@.len() <= sl);
            let e = i + pat.len();
            push_range(&mut out, s, 0, i);
            push_all(&mut out, rep);
            push_range(&mut out, s, e, s.len());
        },
        None => {
            push_all(&mut out, s);
        },
    }
    out
}

fn strip_all_prefix_exec(s: &[char], p: &[char]) -> (r: Vec<char>)
    requires
        p@.len() > 0,
    ensures
        r@ == strip_all_prefix(s@, p@),
{
    let mut k: usize = 0;
    assert(s@.subrange(0, s@.len() as int) =~= s@);
    while p.len() <= s.len() - k && crate::text::occurs_at_exec(s, k, p)
        invariant
            k <= s@.len(),
            p@.len() > 0,
            strip_all_prefix(s@.subrange(k as int, s@.len() as int), p@) == strip_all_prefix(s@, p@),
        decreases s.len() - k,
    {
        assert(s@.subrange(k as int, s@.len() as int).subrange(0, p@.len() as int) =~= s@.subrange(k as int, k + p@.len()));
        assert(s@.subrange(k as int, s@.len() as int).subrange(p@.len() as int, s@.len() - k) =~= s@.subrange(
            k + p@.len(),
            s@.len() as int,
        ));
        assert(is_prefix(p@, s@.subrange(k as int, s@.len() as int)));
        k = k + p.len();
    }
    proof {
        if p@.len() <= s@.len() - k {
            assert(s@.subrange(k as int, s@.len() as int).subrange(0, p@.len() as int) =~= s@.subrange(k as int, k + p@.len()));
        }
    }
    assert(!is_prefix(p@, s@.subrange(k as int, s@.len() as int)));
    let mut out: Vec<char> = Vec::new();
    push_range(&mut out, s, k, s.len());
    out
}

/// The fully qualified name of a type (see [`qualified_type`]); `imports` is
/// the module's `use` map, sorted by name.
pub fn qualify_type(
    source: &str,
    is_app: bool,
    crate_name: &str,
    module: &str,
    imports: &Vec<(String, String)>,
) -> (r: String)
    ensures
        r@ == qualified_type(source@, is_app, crate_name@, module@, imports.deep_view()),
{
    let s = chars_of(source);
    let compact = trimmed(s.as_slice(), 0, s.len());
    assert(s@.subrange(0, s@.len() as int) =~= s@);
    let compact_text = string_of(compact.as_slice());
    if compact.len() == 0 || is_primitive_or_composite(compact_text.as_str()) {
        return compact_text;
    }
    let a = next_where_exec(compact.as_slice(), 0, true);
    let first: Vec<char> = if a < compact.len() {
        let b = next_where_exec(compact.as_slice(), a, false);
        let mut w: Vec<char> = Vec::new();
        push_range(&mut w, compact.as_slice(), a, b);
        w
    } else {
        let mut w: Vec<char> = Vec::new();
        push_all(&mut w, compact.as_slice());
        w
    };
    let first_text = string_of(first.as_slice());
    match crate::fieldmap::get_field(imports, first_text.as_str()) {
        Some(imported) => {
            let ic = chars_of(imported.as_str());
            let r = replace_first_exec(compact.as_slice(), first.as_slice(), ic.as_slice());
            return string_of(r.as_slice());
        },
        None => {},
    }
    let crate_prefix = chars_of("crate::");
    proof {
        reveal_strlit("crate::");
        reveal_strlit("crate");
        reveal_strlit("::");
    }
    if starts_with(compact.as_slice(), crate_prefix.as_slice()) {
        if is_app {
            let r = strip_all_prefix_exec(compact.as_slice(), crate_prefix.as_slice());
            return string_of(r.as_slice());
        } else {
            let word = chars_of("crate");
            let name = chars_of(crate_name);
            let r = replace_first_exec(compact.as_slice(), word.as_slice(), name.as_slice());
            return string_of(r.as_slice());
        }
    }
    let sep = chars_of("::");
    if contains_exec(compact.as_slice(), sep.as_slice()) {
        return compact_text;
    }
    qualify_item(is_app, crate_name, module, compact_text.as_str())
}

// ---------------------------------------------------------------------------
// Modules of source files
// ---------------------------------------------------------------------------

/// `str::trim_end_matches`: every trailing copy of `p` removed.
pub open spec fn strip_all_suffix(s: Seq<char>, p: Seq<char>) -> Seq<char>
    decreases s.len(),
{
    if p.len() > 0 && is_suffix(p, s) {
        strip_all_suffix(s.subrange(0, s.len() - p.len()), p)
    } else {
        s
    }
}

/// The module a source file defines, from the components of its path below
/// the source root: the directories, then the file's stem unless it is
/// `lib`, `main` or `mod`, joined with `::`.
pub open spec fn module_of(parts: Seq<Seq<char>>) -> Seq<char> {
    if parts.len() == 0 {
        Seq::empty()
    } else {
        let stem = strip_all_suffix(parts.last(), ".rs"@);
        let dirs = parts.drop_last();
        let all = if stem == "lib"@ || stem == "main"@ || stem == "mod"@ {
            dirs
        } else {
            dirs.push(stem)
        };
        plain_join(all)
    }
}

/// The parts joined with `::`, empty ones included.
pub open spec fn plain_join(parts: Seq<Seq<char>>) -> Seq<char>
    decreases parts.len(),
{
    if parts.len() == 0 {
        Seq::empty()
    } else if parts.len() == 1 {
        parts[0]
    } else {
        plain_join(parts.drop_last()) + "::"@ + parts.last()
    }
}

fn strip_all_suffix_exec(s: &[char], p: &[char]) -> (r: Vec<char>)
    requires
        p@.len() > 0,
    ensures
        r@ == strip_all_suffix(s@, p@),
{
    let mut k: usize = s.len();
    assert(s@.subrange(0, s@.len() as int) =~= s@);
    while k >= p.len() && crate::text::occurs_at_exec(s, k - p.len(), p)
        invariant
            k <= s@.len(),
            p@.len() > 0,
            strip_all_suffix(s@.subrange(0, k as int), p@) == strip_all_suffix(s@, p@),
        decreases k,
    {
        assert(s@.subrange(0, k as int).subrange(0, k - p@.len()) =~= s@.subrange(0, k - p@.len()));
        assert(s@.subrange(0, k as int).subrange(k - p@.len(), k as int) =~= s@.subrange(k - p@.len(), k - p@.len() + p@.len()));
        assert(is_suffix(p@, s@.subrange(0, k as int)));
        k = k - p.len();
    }
    proof {
        assert(s@.subrange(0, k as int) =~= s@.subrange(0, k as int));
        if k >= p@.len() {
            assert(s@.subrange(0, k as int).subrange(k - p@.len(), k as int) =~= s@.subrange(k - p@.len(), k - p@.len() + p@.len()));
        }
    }
    assert(!is_suffix(p@, s@.subrange(0, k as int)));
    let mut out: Vec<char> = Vec::new();
    push_range(&mut out, s, 0, k);
    out
}

/// The module a source file defines (see [`module_of`]); `parts` are the
/// components of the file's path relative to the source root.
pub fn module_for_path(parts: &Vec<String>) -> (r: String)
    ensures
        r@ == module_of(parts.deep_view()),
{
    let ghost pv = parts.deep_view();
    if parts.len() == 0 {
        return String::new();
    }
    let last = chars_of(parts[parts.len() - 1].as_str());
    let ext = chars_of(".rs");
    proof {
        reveal_strlit(".rs");
        reveal_strlit("lib");
        reveal_strlit("main");
        reveal_strlit("mod");
        reveal_strlit("::");
    }
    let stem = strip_all_suffix_exec(last.as_slice(), ext.as_slice());
    let stem_text = string_of(stem.as_slice());
    let keep_stem = !(str_eq(stem_text.as_str(), "lib") || str_eq(stem_text.as_str(), "main") || str_eq(
        stem_text.as_str(),
        "mod",
    ));
    let ghost all = if keep_stem {
        pv.drop_last().push(stem@)
    } else {
        pv.drop_last()
    };
    let n: usize = if keep_stem {
        parts.len()
    } else {
        parts.len() - 1
    };
    let mut out: Vec<char> = Vec::new();
    let mut i: usize = 0;
    assert(all.len() == n);
    while i < n
        invariant
            i <= n,
            n == all.len(),
            n <= parts@.len(),
            pv == parts.deep_view(),
            all == (if keep_stem { pv.drop_last().push(stem@) } else { pv.drop_last() }),
            out@ == plain_join(all.take(i as int)),
        decreases n - i,
    {
        assert(all.take(i + 1).drop_last() =~= all.take(i as int));
        let part: Vec<char> = if keep_stem && i == n - 1 {
            let mut v: Vec<char> = Vec::new();
            push_all(&mut v, stem.as_slice());
            v
        } else {
            assert(all[i as int] == pv[i as int]);
            chars_of(parts[i].as_str())
        };
        assert(part@ == all[i as int]);
        if i > 0 {
            push_str(&mut out, "::");
        } else {
            assert(all.take(1) =~= seq![all[0]]);
        }
        push_all(&mut out, part.as_slice());
        i = i + 1;
    }
    assert(all.take(n as int) =~= all);
    string_of(out.as_slice())
}

} // verus!
