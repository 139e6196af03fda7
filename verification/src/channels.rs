//! The channel sets that `tx_channels!` and `rx_channels!` declare, read from
//! the tokens of the macro:
//!
//! ```text
//! [pub[(crate | self | super | in path)]] struct Name : IdType {
//!     [[..]] id => PayloadType [= "route"], ...
//! }
//! ```
//!
//! The payload type is the shortest run of tokens after `=>` that Rust reads
//! as a type and that ends the channel (before `,`, `=` or the end).
use vstd::prelude::*;

use crate::outside::{lit_str_value, printed_rust_type, rust_type_text, string_literal_value};
use crate::text::{push_str, str_eq, string_of};

verus! {

/// The delimiter of a group of tokens (`None` for an invisible group).
#[derive(Debug, Clone, Copy, PartialEq, Eq, Structural)]
pub enum Delimiter {
    Parenthesis,
    Brace,
    Bracket,
    Invisible,
}

/// A token tree of a macro's input, as the Rust lexer gives it. The tokens
/// of a source file hold no invisible groups.
#[derive(Debug)]
pub enum TokenTree {
    Ident(String),
    /// A punctuation character, and whether it is joined to the next one
    /// (as the `=` of `=>`).
    Punct(char, bool),
    /// A literal as written.
    Literal(String),
    Group(Delimiter, Vec<TokenTree>),
}

// ---------------------------------------------------------------------------
// Tokens as text
// ---------------------------------------------------------------------------

pub open spec fn open_text(d: Delimiter) -> Seq<char> {
    match d {
        Delimiter::Parenthesis => "("@,
        Delimiter::Brace => "{"@,
        Delimiter::Bracket => "["@,
        Delimiter::Invisible => Seq::empty(),
    }
}

pub open spec fn close_text(d: Delimiter) -> Seq<char> {
    match d {
        Delimiter::Parenthesis => ")"@,
        Delimiter::Brace => "}"@,
        Delimiter::Bracket => "]"@,
        Delimiter::Invisible => Seq::empty(),
    }
}

/// What separates a token from the next: nothing after a joined punctuation
/// character, a space otherwise.
pub open spec fn separator(t: TokenTree) -> Seq<char> {
    if t matches TokenTree::Punct(_, true) {
        Seq::empty()
    } else {
        " "@
    }
}

/// A token written out so that the lexer reads it back as the same token.
pub open spec fn token_text(t: TokenTree) -> Seq<char>
    decreases t, 0nat, 0int,
{
    match t {
        TokenTree::Ident(s) => s@,
        TokenTree::Punct(c, _) => seq![c],
        TokenTree::Literal(s) => s@,
        TokenTree::Group(d, inner) => open_text(d) + range_text(inner@, 0, inner@.len() as int) + close_text(d),
    }
}

/// The tokens from index `a` up to `k` written out (see [`token_text`], [`separator`]).
pub open spec fn range_text(ts: Seq<TokenTree>, a: int, k: int) -> Seq<char>
    decreases ts, 1nat, k - a,
{
    if a < 0 || k <= a || k > ts.len() {
        Seq::empty()
    } else if k == a + 1 {
        token_text(ts[a])
    } else {
        range_text(ts, a, k - 1) + separator(ts[k - 2]) + token_text(ts[k - 1])
    }
}

fn token_chars(t: &TokenTree, out: &mut Vec<char>)
    ensures
        final(out)@ == old(out)@ + token_text(*t),
    decreases *t, 0nat, 0int,
{
    match t {
        TokenTree::Ident(s) => push_str(out, s.as_str()),
        TokenTree::Punct(c, _) => out.push(*c),
        TokenTree::Literal(s) => push_str(out, s.as_str()),
        TokenTree::Group(d, inner) => {
            proof {
                reveal_strlit("(");
                reveal_strlit(")");
                reveal_strlit("{");
                reveal_strlit("}");
                reveal_strlit("[");
                reveal_strlit("]");
            }
            let ghost start = out@;
            match d {
                Delimiter::Parenthesis => out.push('('),
                Delimiter::Brace => out.push('{'),
                Delimiter::Bracket => out.push('['),
                Delimiter::Invisible => {},
            }
            assert(out@ =~= start + open_text(*d));
            let ghost opened = out@;
            proof {
                assert(decreases_to!(*t => inner));
                assert(decreases_to!(inner => inner@));
            }
            range_chars(inner, 0, inner.len(), out);
            let ghost middle = out@;
            match d {
                Delimiter::Parenthesis => out.push(')'),
                Delimiter::Brace => out.push('}'),
                Delimiter::Bracket => out.push(']'),
                Delimiter::Invisible => {},
            }
            assert(out@ =~= middle + close_text(*d));
            assert(out@ =~= start + token_text(*t));
        },
    }
}

fn range_chars(ts: &Vec<TokenTree>, a: usize, k: usize, out: &mut Vec<char>)
    requires
        a <= k <= ts@.len(),
    ensures
        final(out)@ == old(out)@ + range_text(ts@, a as int, k as int),
    decreases ts@, 1nat, 0int,
{
    let ghost start = out@;
    if a == k {
        assert(out@ =~= start + range_text(ts@, a as int, k as int));
        return;
    }
    proof {
        assert(decreases_to!(ts@ => ts@[a as int]));
    }
    token_chars(&ts[a], out);
    let mut i: usize = a + 1;
    while i < k
        invariant
            a < i <= k <= ts@.len(),
            out@ == start + range_text(ts@, a as int, i as int),
        decreases k - i,
    {
        let ghost before = out@;
        match &ts[i - 1] {
            TokenTree::Punct(_, true) => {},
            _ => out.push(' '),
        }
        proof {
            reveal_strlit(" ");
            assert(out@ =~= before + separator(ts@[i - 1]));
            assert(decreases_to!(ts@ => ts@[i as int]));
        }
        token_chars(&ts[i], out);
        assert(out@ =~= start + range_text(ts@, a as int, i + 1));
        i = i + 1;
    }
}

/// The tokens from index `a` up to `k` written out (see [`range_text`]).
pub fn tokens_text(ts: &Vec<TokenTree>, a: usize, k: usize) -> (r: String)
    requires
        a <= k <= ts@.len(),
    ensures
        r@ == range_text(ts@, a as int, k as int),
{
    let mut out: Vec<char> = Vec::new();
    range_chars(ts, a, k, &mut out);
    assert(out@ =~= range_text(ts@, a as int, k as int));
    string_of(out.as_slice())
}

// ---------------------------------------------------------------------------
// Single tokens
// ---------------------------------------------------------------------------

/// The words Rust reserves, which are no identifiers (nor is `_`).
pub open spec fn reserved_words() -> Seq<Seq<char>> {
    seq![
        "_"@, "abstract"@, "as"@, "async"@, "await"@, "become"@, "box"@, "break"@, "const"@, "continue"@,
        "crate"@, "do"@, "dyn"@, "else"@, "enum"@, "extern"@, "false"@, "final"@, "fn"@, "for"@, "if"@,
        "impl"@, "in"@, "let"@, "loop"@, "macro"@, "match"@, "mod"@, "move"@, "mut"@, "override"@,
        "priv"@, "pub"@, "ref"@, "return"@, "Self"@, "self"@, "static"@, "struct"@, "super"@,
        "trait"@, "true"@, "try"@, "type"@, "typeof"@, "unsafe"@, "unsized"@, "use"@, "virtual"@,
        "where"@, "while"@, "yield"@,
    ]
}

/// Whether an identifier token is a reserved word (see [`reserved_words`]).
pub fn is_reserved(word: &str) -> (r: bool)
    ensures
        r == reserved_words().contains(word@),
{
    let words: Vec<&str> = vec![
        "_", "abstract", "as", "async", "await", "become", "box", "break", "const", "continue",
        "crate", "do", "dyn", "else", "enum", "extern", "false", "final", "fn", "for", "if",
        "impl", "in", "let", "loop", "macro", "match", "mod", "move", "mut", "override",
        "priv", "pub", "ref", "return", "Self", "self", "static", "struct", "super",
        "trait", "true", "try", "type", "typeof", "unsafe", "unsized", "use", "virtual",
        "where", "while", "yield",
    ];
    assert(words.deep_view() =~= reserved_words());
    let mut i: usize = 0;
    while i < words.len()
        invariant
            i <= words@.len(),
            words.deep_view() == reserved_words(),
            forall|j: int| 0 <= j < i ==> reserved_words()[j] != word@,
        decreases words.len() - i,
    {
        assert(words.deep_view()[i as int] == words@[i as int]@);
        if str_eq(words[i], word) {
            assert(reserved_words()[i as int] == word@);
            return true;
        }
        i = i + 1;
    }
    false
}

/// The identifier token `w`.
pub open spec fn is_word(t: TokenTree, w: Seq<char>) -> bool {
    t matches TokenTree::Ident(s) && s@ == w
}

/// An identifier token that is no reserved word.
pub open spec fn plain_ident(t: TokenTree) -> bool {
    t matches TokenTree::Ident(s) && !reserved_words().contains(s@)
}

pub open spec fn ident_text(t: TokenTree) -> Seq<char> {
    match t {
        TokenTree::Ident(s) => s@,
        _ => Seq::empty(),
    }
}

/// The punctuation character `c`, joined to the next or not.
pub open spec fn is_punct(t: TokenTree, c: char) -> bool {
    t matches TokenTree::Punct(x, _) && x == c
}

/// The punctuation character `c` joined to the next one.
pub open spec fn is_joined(t: TokenTree, c: char) -> bool {
    t matches TokenTree::Punct(x, j) && x == c && j
}

/// `::` at index `i`.
pub open spec fn path_separator_at(ts: Seq<TokenTree>, i: int) -> bool {
    0 <= i && i + 1 < ts.len() && is_joined(ts[i], ':') && is_punct(ts[i + 1], ':')
}

/// A segment of a module path: an identifier or `super`, `self`, `Self`, `crate`.
pub open spec fn path_segment(t: TokenTree) -> bool {
    plain_ident(t) || is_word(t, "super"@) || is_word(t, "self"@) || is_word(t, "Self"@) || is_word(t, "crate"@)
}

fn word_is(t: &TokenTree, w: &str) -> (r: bool)
    ensures
        r == is_word(*t, w@),
{
    match t {
        TokenTree::Ident(s) => str_eq(s.as_str(), w),
        _ => false,
    }
}

fn is_plain_ident(t: &TokenTree) -> (r: bool)
    ensures
        r == plain_ident(*t),
{
    match t {
        TokenTree::Ident(s) => !is_reserved(s.as_str()),
        _ => false,
    }
}

fn punct_is(t: &TokenTree, c: char) -> (r: bool)
    ensures
        r == is_punct(*t, c),
{
    match t {
        TokenTree::Punct(x, _) => *x == c,
        _ => false,
    }
}

fn joined_is(t: &TokenTree, c: char) -> (r: bool)
    ensures
        r == is_joined(*t, c),
{
    match t {
        TokenTree::Punct(x, j) => *x == c && *j,
        _ => false,
    }
}

fn separator_at(ts: &Vec<TokenTree>, i: usize) -> (r: bool)
    ensures
        r == path_separator_at(ts@, i as int),
{
    i < ts.len() && i + 1 < ts.len() && joined_is(&ts[i], ':') && punct_is(&ts[i + 1], ':')
}

fn is_path_segment(t: &TokenTree) -> (r: bool)
    ensures
        r == path_segment(*t),
{
    is_plain_ident(t) || word_is(t, "super") || word_is(t, "self") || word_is(t, "Self") || word_is(t, "crate")
}

// ---------------------------------------------------------------------------
// Visibility
// ---------------------------------------------------------------------------

/// The tokens from index `i` to the end are a module path: segments joined by `::`.
pub open spec fn mod_path_from(ts: Seq<TokenTree>, i: int) -> bool
    decreases ts.len() - i,
{
    if i < 0 || i >= ts.len() || !path_segment(ts[i]) {
        false
    } else if i + 1 == ts.len() {
        true
    } else if path_separator_at(ts, i + 1) {
        mod_path_from(ts, i + 3)
    } else {
        false
    }
}

/// What may stand in the parentheses of `pub(..)`: `crate`, `self`, `super`,
/// or `in` and a module path (which may start with `::`).
pub open spec fn restriction_ok(c: Seq<TokenTree>) -> bool {
    ||| c.len() == 1 && (is_word(c[0], "crate"@) || is_word(c[0], "self"@) || is_word(c[0], "super"@))
    ||| c.len() >= 2 && is_word(c[0], "in"@) && if path_separator_at(c, 1) {
        mod_path_from(c, 3)
    } else {
        mod_path_from(c, 1)
    }
}

/// Where the tokens after a visibility start: none before, one after `pub`,
/// two after `pub(..)`; `None` where the parentheses hold no restriction.
pub open spec fn visibility_end(ts: Seq<TokenTree>) -> Option<int> {
    if ts.len() > 0 && is_word(ts[0], "pub"@) {
        if ts.len() > 1 && (ts[1] matches TokenTree::Group(Delimiter::Parenthesis, _)) {
            match ts[1] {
                TokenTree::Group(_, inner) => if restriction_ok(inner@) {
                    Some(2)
                } else {
                    None
                },
                _ => None,
            }
        } else {
            Some(1)
        }
    } else {
        Some(0)
    }
}

fn is_mod_path(ts: &Vec<TokenTree>, start: usize) -> (r: bool)
    ensures
        r == mod_path_from(ts@, start as int),
{
    let mut i = start;
    while i < ts.len()
        invariant
            mod_path_from(ts@, i as int) == mod_path_from(ts@, start as int),
        decreases ts.len() - i,
    {
        if !is_path_segment(&ts[i]) {
            return false;
        }
        if i + 1 == ts.len() {
            return true;
        }
        if !separator_at(ts, i + 1) {
            return false;
        }
        if i + 3 > ts.len() {
            return false;
        }
        i = i + 3;
    }
    false
}

fn restriction_is_ok(c: &Vec<TokenTree>) -> (r: bool)
    ensures
        r == restriction_ok(c@),
{
    if c.len() == 1 && (word_is(&c[0], "crate") || word_is(&c[0], "self") || word_is(&c[0], "super")) {
        return true;
    }
    if c.len() >= 2 && word_is(&c[0], "in") {
        if separator_at(c, 1) {
            is_mod_path(c, 3)
        } else {
            is_mod_path(c, 1)
        }
    } else {
        false
    }
}

fn visibility_length(ts: &Vec<TokenTree>) -> (r: Option<usize>)
    ensures
        r matches Some(v) ==> visibility_end(ts@) == Some(v as int) && v <= 2,
        r is None ==> visibility_end(ts@) is None,
{
    if ts.len() > 0 && word_is(&ts[0], "pub") {
        if ts.len() > 1 {
            match &ts[1] {
                TokenTree::Group(Delimiter::Parenthesis, inner) => {
                    return if restriction_is_ok(inner) {
                        Some(2)
                    } else {
                        None
                    };
                },
                _ => {},
            }
        }
        Some(1)
    } else {
        Some(0)
    }
}

// ---------------------------------------------------------------------------
// Channels
// ---------------------------------------------------------------------------

/// A channel of a `tx_channels!`/`rx_channels!` set: its id, its payload
/// type (as Rust prints it) and its default route.
#[derive(Debug)]
pub struct ChannelRecord {
    pub id: String,
    pub payload: String,
    pub route: Option<String>,
}

/// A channel set declared by `tx_channels!` or `rx_channels!`.
#[derive(Debug)]
pub struct ChannelSetRecord {
    pub name: String,
    pub channels: Vec<ChannelRecord>,
}

pub struct ChannelRecordModel {
    pub id: Seq<char>,
    pub payload: Seq<char>,
    pub route: Option<Seq<char>>,
}

pub struct ChannelSetModel {
    pub name: Seq<char>,
    pub channels: Seq<ChannelRecordModel>,
}

impl DeepView for ChannelRecord {
    type V = ChannelRecordModel;

    open spec fn deep_view(&self) -> ChannelRecordModel {
        ChannelRecordModel { id: self.id@, payload: self.payload@, route: self.route.deep_view() }
    }
}

impl DeepView for ChannelSetRecord {
    type V = ChannelSetModel;

    open spec fn deep_view(&self) -> ChannelSetModel {
        ChannelSetModel { name: self.name@, channels: self.channels.deep_view() }
    }
}

/// Where the payload type starting at `t` ends: the first index from `e` on
/// that ends a channel (the end, `,` or `=`) and before which the tokens read
/// as a type.
pub open spec fn type_end(b: Seq<TokenTree>, t: int, e: int) -> Option<int>
    decreases b.len() + 1 - e,
{
    if e <= t || e > b.len() {
        None
    } else if (e == b.len() || is_punct(b[e], ',') || is_punct(b[e], '=')) && printed_rust_type(
        range_text(b, t, e),
    ) is Some {
        Some(e)
    } else {
        type_end(b, t, e + 1)
    }
}

/// The channel starting at index `i` of the set's body and the index after
/// it: `[..]` (ignored), an identifier, `=>`, the payload type (see
/// [`type_end`]) and, after `=`, a string literal with the route.
pub open spec fn channel_at(b: Seq<TokenTree>, i: int) -> Option<(ChannelRecordModel, int)> {
    let s = if 0 <= i < b.len() && (b[i] matches TokenTree::Group(Delimiter::Bracket, _)) {
        i + 1
    } else {
        i
    };
    if 0 <= s && s + 2 < b.len() && plain_ident(b[s]) && is_joined(b[s + 1], '=') && is_punct(b[s + 2], '>') {
        match type_end(b, s + 3, s + 4) {
            None => None,
            Some(e) => {
                let payload = printed_rust_type(range_text(b, s + 3, e))->Some_0;
                if e < b.len() && is_punct(b[e], '=') {
                    if e + 1 < b.len() && (b[e + 1] matches TokenTree::Literal(l)) && string_literal_value(
                        ident_or_literal(b[e + 1]),
                    ) is Some {
                        Some(
                            (
                                ChannelRecordModel {
                                    id: ident_text(b[s]),
                                    payload,
                                    route: string_literal_value(ident_or_literal(b[e + 1])),
                                },
                                e + 2,
                            ),
                        )
                    } else {
                        None
                    }
                } else {
                    Some((ChannelRecordModel { id: ident_text(b[s]), payload, route: None }, e))
                }
            },
        }
    } else {
        None
    }
}

pub open spec fn ident_or_literal(t: TokenTree) -> Seq<char> {
    match t {
        TokenTree::Ident(s) => s@,
        TokenTree::Literal(s) => s@,
        _ => Seq::empty(),
    }
}

/// The channels of the body from index `i` on, after those already read:
/// channels separated by `,`, with a `,` allowed at the end.
pub open spec fn channels_from(b: Seq<TokenTree>, i: int, read: Seq<ChannelRecordModel>) -> Option<Seq<ChannelRecordModel>>
    decreases b.len() - i,
{
    if i < 0 {
        None
    } else if i >= b.len() {
        Some(read)
    } else {
        match channel_at(b, i) {
            None => None,
            Some((ch, j)) => if j <= i {
                None
            } else if j >= b.len() {
                Some(read.push(ch))
            } else if is_punct(b[j], ',') {
                channels_from(b, j + 1, read.push(ch))
            } else {
                None
            },
        }
    }
}

/// The channel set the tokens of a `tx_channels!`/`rx_channels!` declare:
/// a visibility, `struct`, the set's name, `:`, the id type and the channels
/// in braces, and nothing after.
pub open spec fn parsed_channel_set(ts: Seq<TokenTree>) -> Option<ChannelSetModel> {
    match visibility_end(ts) {
        None => None,
        Some(v) => if v + 5 == ts.len() && is_word(ts[v], "struct"@) && plain_ident(ts[v + 1]) && is_punct(
            ts[v + 2],
            ':',
        ) && plain_ident(ts[v + 3]) && (ts[v + 4] matches TokenTree::Group(Delimiter::Brace, _)) {
            match ts[v + 4] {
                TokenTree::Group(_, body) => match channels_from(body@, 0, Seq::empty()) {
                    Some(chs) => Some(ChannelSetModel { name: ident_text(ts[v + 1]), channels: chs }),
                    None => None,
                },
                _ => None,
            }
        } else {
            None
        },
    }
}

fn payload_end(b: &Vec<TokenTree>, t: usize) -> (r: Option<(usize, String)>)
    requires
        t < b@.len(),
    ensures
        r matches Some((e, text)) ==> type_end(b@, t as int, t + 1) == Some(e as int) && e <= b@.len()
            && printed_rust_type(range_text(b@, t as int, e as int)) == Some(text@),
        r is None ==> type_end(b@, t as int, t + 1) is None,
{
    let n = b.len();
    let mut e: usize = t + 1;
    loop
        invariant
            t < e <= n,
            n == b@.len(),
            type_end(b@, t as int, e as int) == type_end(b@, t as int, t + 1),
        decreases n - e,
    {
        if e == n || punct_is(&b[e], ',') || punct_is(&b[e], '=') {
            let text = tokens_text(b, t, e);
            match rust_type_text(text.as_str()) {
                Some(printed) => return Some((e, printed)),
                None => {},
            }
        }
        if e == n {
            return None;
        }
        e = e + 1;
    }
}

fn channel_at_exec(b: &Vec<TokenTree>, i: usize) -> (r: Option<(ChannelRecord, usize)>)
    requires
        i < b@.len(),
    ensures
        r matches Some((ch, j)) ==> channel_at(b@, i as int) == Some((ch.deep_view(), j as int)),
        r is None ==> channel_at(b@, i as int) is None,
{
    let n = b.len();
    let s = match &b[i] {
        TokenTree::Group(Delimiter::Bracket, _) => i + 1,
        _ => i,
    };
    if !(s < n && n - s > 2 && is_plain_ident(&b[s]) && joined_is(&b[s + 1], '=') && punct_is(&b[s + 2], '>')) {
        return None;
    }
    if n - s == 3 {
        return None;
    }
    let id = match &b[s] {
        TokenTree::Ident(name) => name.clone(),
        _ => return None,
    };
    let (e, payload) = match payload_end(b, s + 3) {
        Some(found) => found,
        None => return None,
    };
    if e < b.len() && punct_is(&b[e], '=') {
        if e + 1 < b.len() {
            match &b[e + 1] {
                TokenTree::Literal(l) => match lit_str_value(l.as_str()) {
                    Some(value) => {
                        return Some((ChannelRecord { id, payload, route: Some(value) }, e + 2));
                    },
                    None => {},
                },
                _ => {},
            }
        }
        None
    } else {
        Some((ChannelRecord { id, payload, route: None }, e))
    }
}

/// The channel set the tokens declare (see [`parsed_channel_set`]).
pub fn parse_channel_set(ts: &Vec<TokenTree>) -> (r: Option<ChannelSetRecord>)
    ensures
        r.deep_view() == parsed_channel_set(ts@),
{
    let v = match visibility_length(ts) {
        Some(v) => v,
        None => return None,
    };
    if !(v + 5 == ts.len() && word_is(&ts[v], "struct") && is_plain_ident(&ts[v + 1]) && punct_is(&ts[v + 2], ':')
        && is_plain_ident(&ts[v + 3])) {
        return None;
    }
    let body = match &ts[v + 4] {
        TokenTree::Group(Delimiter::Brace, body) => body,
        _ => return None,
    };
    let name = match &ts[v + 1] {
        TokenTree::Ident(n) => n.clone(),
        _ => return None,
    };
    let mut channels: Vec<ChannelRecord> = Vec::new();
    let mut i: usize = 0;
    assert(channels.deep_view() =~= Seq::<ChannelRecordModel>::empty());
    assert(ts@[v + 4] == TokenTree::Group(Delimiter::Brace, *body));
    assert(parsed_channel_set(ts@) == match channels_from(body@, 0, Seq::empty()) {
        Some(chs) => Some(ChannelSetModel { name: name@, channels: chs }),
        None => None,
    });
    while i < body.len()
        invariant
            i <= body@.len(),
            channels_from(body@, i as int, channels.deep_view()) == channels_from(body@, 0, Seq::empty()),
            parsed_channel_set(ts@) == match channels_from(body@, 0, Seq::empty()) {
                Some(chs) => Some(ChannelSetModel { name: name@, channels: chs }),
                None => None,
            },
        decreases body.len() - i,
    {
        let ghost before = channels.deep_view();
        let (ch, j) = match channel_at_exec(body, i) {
            Some(found) => found,
            None => return None,
        };
        if j <= i {
            return None;
        }
        let ghost model = ch.deep_view();
        channels.push(ch);
        assert(channels.deep_view() =~= before.push(model));
        if j >= body.len() {
            return Some(ChannelSetRecord { name, channels });
        }
        if !punct_is(&body[j], ',') {
            return None;
        }
        i = j + 1;
    }
    Some(ChannelSetRecord { name, channels })
}

} // verus!
