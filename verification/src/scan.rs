//! A scanner over Copper RON text that finds root fields and splits lists and
//! structs at their top level, skipping strings, characters and comments.
//! Positions are character indices.
use vstd::prelude::*;

use crate::fieldmap::{insert_field, keys_sorted, map_insert, map_insert_all, Pair};
use crate::text::{
    ascii_alnum, ascii_alpha, ascii_space, chars_eq, find_char, is_ascii_alnum, is_ascii_alpha,
    is_ascii_space, push_range, rfind_char, string_of, trim, trimmed,
};

verus! {

/// Where the scanner is: in plain text, in a string or character literal
/// (and whether the last character was a backslash), or in a comment (block
/// comments nest, with their depth).
#[derive(Clone, Copy, PartialEq, Eq, Structural)]
pub enum ScanState {
    Normal,
    Str(bool),
    Chr(bool),
    LineComment,
    BlockComment(usize),
}

pub open spec fn pair_at(s: Seq<char>, i: int, a: char, b: char) -> bool {
    0 <= i && i + 1 < s.len() && s[i] == a && s[i + 1] == b
}

/// One step of the literal/comment state machine at index `i`: the next index
/// and state, or `None` where the character is plain text for the caller.
pub open spec fn advance(s: Seq<char>, i: int, st: ScanState) -> Option<(int, ScanState)> {
    match st {
        ScanState::Normal => if pair_at(s, i, '/', '/') {
            Some((i + 2, ScanState::LineComment))
        } else if pair_at(s, i, '/', '*') {
            Some((i + 2, ScanState::BlockComment(1)))
        } else if s[i] == '"' {
            Some((i + 1, ScanState::Str(false)))
        } else if s[i] == '\'' {
            Some((i + 1, ScanState::Chr(false)))
        } else {
            None
        },
        ScanState::Str(escaped) => Some(
            (
                i + 1,
                if escaped {
                    ScanState::Str(false)
                } else if s[i] == '\\' {
                    ScanState::Str(true)
                } else if s[i] == '"' {
                    ScanState::Normal
                } else {
                    ScanState::Str(false)
                },
            ),
        ),
        ScanState::Chr(escaped) => Some(
            (
                i + 1,
                if escaped {
                    ScanState::Chr(false)
                } else if s[i] == '\\' {
                    ScanState::Chr(true)
                } else if s[i] == '\'' {
                    ScanState::Normal
                } else {
                    ScanState::Chr(false)
                },
            ),
        ),
        ScanState::LineComment => Some(
            (i + 1, if s[i] == '\n' { ScanState::Normal } else { ScanState::LineComment }),
        ),
        ScanState::BlockComment(depth) => if pair_at(s, i, '/', '*') {
            Some((i + 2, ScanState::BlockComment((depth + 1) as usize)))
        } else if pair_at(s, i, '*', '/') {
            Some((i + 2, if depth == 1 { ScanState::Normal } else { ScanState::BlockComment((depth - 1) as usize) }))
        } else {
            Some((i + 1, ScanState::BlockComment(depth)))
        },
    }
}

/// A block comment's depth never exceeds the index.
pub open spec fn depth_ok(st: ScanState, i: int) -> bool {
    match st {
        ScanState::BlockComment(d) => 1 <= d <= i,
        _ => true,
    }
}

pub proof fn lemma_advance(s: Seq<char>, i: int, st: ScanState)
    requires
        0 <= i < s.len(),
        s.len() <= usize::MAX,
        depth_ok(st, i),
    ensures
        advance(s, i, st) matches Some((j, st2)) ==> i < j <= s.len() && depth_ok(st2, j),
        advance(s, i, st) is None ==> st == ScanState::Normal,
{
}

fn pair_at_exec(s: &[char], i: usize, a: char, b: char) -> (r: bool)
    ensures
        r == pair_at(s@, i as int, a, b),
{
    i < s.len() && s.len() - i >= 2 && s[i] == a && s[i + 1] == b
}

/// A step from `st` at `i` that keeps the block-comment depth within `usize`:
/// no comment opens at the greatest depth, and none closes at depth zero.
pub open spec fn depth_step_fits(s: Seq<char>, i: int, st: ScanState) -> bool {
    match st {
        ScanState::BlockComment(d) => (pair_at(s, i, '/', '*') ==> d < usize::MAX) && (!pair_at(s, i, '/', '*')
            && pair_at(s, i, '*', '/') ==> d != 0),
        _ => true,
    }
}

/// Advances the state machine by one step (see [`advance`]); returns whether
/// it consumed text, which is always one or two characters.
pub fn advance_state(s: &[char], index: &mut usize, state: &mut ScanState) -> (r: bool)
    requires
        *old(index) < s@.len(),
        depth_step_fits(s@, *old(index) as int, *old(state)),
    ensures
        r == advance(s@, *old(index) as int, *old(state)) is Some,
        r ==> advance(s@, *old(index) as int, *old(state)) == Some(
            (*final(index) as int, *final(state)),
        ),
        !r ==> *final(index) == *old(index) && *final(state) == *old(state),
        r ==> *old(index) < *final(index) <= *old(index) + 2 && *final(index) <= s@.len(),
        !r ==> *old(state) == ScanState::Normal,
{
    let i = *index;
    let len = s.len();
    assert(s@.len() == len);
    match *state {
        ScanState::Normal => {
            if pair_at_exec(s, i, '/', '/') {
                *state = ScanState::LineComment;
                *index = i + 2;
                true
            } else if pair_at_exec(s, i, '/', '*') {
                *state = ScanState::BlockComment(1);
                *index = i + 2;
                true
            } else if s[i] == '"' {
                *state = ScanState::Str(false);
                *index = i + 1;
                true
            } else if s[i] == '\'' {
                *state = ScanState::Chr(false);
                *index = i + 1;
                true
            } else {
                false
            }
        },
        ScanState::Str(escaped) => {
            let c = s[i];
            *index = i + 1;
            *state = if escaped {
                ScanState::Str(false)
            } else if c == '\\' {
                ScanState::Str(true)
            } else if c == '"' {
                ScanState::Normal
            } else {
                ScanState::Str(false)
            };
            true
        },
        ScanState::Chr(escaped) => {
            let c = s[i];
            *index = i + 1;
            *state = if escaped {
                ScanState::Chr(false)
            } else if c == '\\' {
                ScanState::Chr(true)
            } else if c == '\'' {
                ScanState::Normal
            } else {
                ScanState::Chr(false)
            };
            true
        },
        ScanState::LineComment => {
            if s[i] == '\n' {
                *state = ScanState::Normal;
            }
            *index = i + 1;
            true
        },
        ScanState::BlockComment(depth) => {
            if pair_at_exec(s, i, '/', '*') {
                *state = ScanState::BlockComment(depth + 1);
                *index = i + 2;
            } else if pair_at_exec(s, i, '*', '/') {
                *state = if depth == 1 {
                    ScanState::Normal
                } else {
                    ScanState::BlockComment(depth - 1)
                };
                *index = i + 2;
            } else {
                *index = i + 1;
            }
            true
        },
    }
}

// ---------------------------------------------------------------------------
// Whitespace and comments between tokens
// ---------------------------------------------------------------------------

/// The first index at or after `i` that is not ASCII whitespace.
pub open spec fn skip_ws(s: Seq<char>, i: int) -> int
    decreases s.len() - i,
{
    if 0 <= i < s.len() && is_ascii_space(s[i]) {
        skip_ws(s, i + 1)
    } else {
        i
    }
}

/// The first index at or after `i` holding a line feed, or the length.
pub open spec fn line_end(s: Seq<char>, i: int) -> int
    decreases s.len() - i,
{
    if 0 <= i < s.len() && s[i] != '\n' {
        line_end(s, i + 1)
    } else {
        i
    }
}

/// Just past the first `*/` at or after `i`, or the length where there is none.
pub open spec fn block_end(s: Seq<char>, i: int) -> int
    decreases s.len() - i,
{
    if i < 0 || i + 1 >= s.len() {
        s.len() as int
    } else if s[i] == '*' && s[i + 1] == '/' {
        i + 2
    } else {
        block_end(s, i + 1)
    }
}

/// The first index at or after `i` past whitespace and comments (block comments do not nest here).
pub open spec fn trivia_end(s: Seq<char>, i: int) -> int
    decreases s.len() - i,
{
    let a = skip_ws(s, i);
    if i < 0 || i > s.len() || a < i || a > s.len() {
        i
    } else if pair_at(s, a, '/', '/') {
        let e = line_end(s, a + 2);
        if i < e <= s.len() {
            trivia_end(s, e)
        } else {
            e
        }
    } else if pair_at(s, a, '/', '*') {
        let e = block_end(s, a + 2);
        if i < e <= s.len() {
            trivia_end(s, e)
        } else {
            e
        }
    } else {
        a
    }
}

proof fn lemma_skip_ws(s: Seq<char>, i: int)
    requires
        0 <= i <= s.len(),
    ensures
        i <= skip_ws(s, i) <= s.len(),
    decreases s.len() - i,
{
    if i < s.len() && is_ascii_space(s[i]) {
        lemma_skip_ws(s, i + 1);
    }
}

proof fn lemma_line_end(s: Seq<char>, i: int)
    requires
        0 <= i <= s.len(),
    ensures
        i <= line_end(s, i) <= s.len(),
    decreases s.len() - i,
{
    if i < s.len() && s[i] != '\n' {
        lemma_line_end(s, i + 1);
    }
}

proof fn lemma_block_end(s: Seq<char>, i: int)
    requires
        0 <= i <= s.len(),
    ensures
        i <= block_end(s, i) <= s.len(),
    decreases s.len() - i,
{
    if i + 1 < s.len() && !(s[i] == '*' && s[i + 1] == '/') {
        lemma_block_end(s, i + 1);
    }
}

pub proof fn lemma_skip_trivia(s: Seq<char>, i: int)
    requires
        0 <= i <= s.len(),
    ensures
        i <= trivia_end(s, i) <= s.len(),
    decreases s.len() - i,
{
    lemma_skip_ws(s, i);
    let a = skip_ws(s, i);
    if pair_at(s, a, '/', '/') {
        lemma_line_end(s, a + 2);
        lemma_skip_trivia(s, line_end(s, a + 2));
    } else if pair_at(s, a, '/', '*') {
        lemma_block_end(s, a + 2);
        lemma_skip_trivia(s, block_end(s, a + 2));
    }
}

/// Skips whitespace and comments from `index` on (see [`trivia_end`]).
pub fn skip_trivia(s: &[char], index: usize) -> (r: usize)
    requires
        index <= s@.len(),
    ensures
        r == trivia_end(s@, index as int),
        index <= r <= s@.len(),
{
    proof {
        lemma_skip_trivia(s@, index as int);
    }
    let mut i = index;
    loop
        invariant
            index <= i <= s@.len(),
            trivia_end(s@, i as int) == trivia_end(s@, index as int),
        decreases s@.len() - i,
    {
        let start = i;
        proof {
            lemma_skip_ws(s@, start as int);
            let a = skip_ws(s@, start as int);
            if a + 2 <= s@.len() {
                lemma_line_end(s@, a + 2);
                lemma_block_end(s@, a + 2);
            }
        }
        while i < s.len() && ascii_space(s[i])
            invariant
                start <= i <= s@.len(),
                skip_ws(s@, i as int) == skip_ws(s@, start as int),
            decreases s@.len() - i,
        {
            i = i + 1;
        }
        if pair_at_exec(s, i, '/', '/') {
            i = i + 2;
            while i < s.len() && s[i] != '\n'
                invariant
                    start <= i <= s@.len(),
                    line_end(s@, i as int) == line_end(s@, skip_ws(s@, start as int) + 2),
                decreases s@.len() - i,
            {
                i = i + 1;
            }
        } else if pair_at_exec(s, i, '/', '*') {
            i = i + 2;
            while s.len() > 0 && i < s.len() - 1 && !(s[i] == '*' && s[i + 1] == '/')
                invariant
                    start <= i <= s@.len(),
                    block_end(s@, i as int) == block_end(s@, skip_ws(s@, start as int) + 2),
                decreases s@.len() - i,
            {
                i = i + 1;
            }
            i = if s.len() >= 2 && i <= s.len() - 2 { i + 2 } else { s.len() };
        } else {
            return i;
        }
    }
}

// ---------------------------------------------------------------------------
// The end of a value
// ---------------------------------------------------------------------------

pub open spec fn is_open(c: char) -> bool {
    c == '(' || c == '[' || c == '{'
}

pub open spec fn is_close(c: char) -> bool {
    c == ')' || c == ']' || c == '}'
}

/// Scans from `i` with `nested` open brackets: the index of the first `,` or
/// `)` outside any bracket, literal or comment, or the length.
pub open spec fn value_end_from(s: Seq<char>, i: int, nested: nat, st: ScanState) -> int
    decreases s.len() - i,
{
    if i < 0 || i >= s.len() {
        if i < 0 { i } else { s.len() as int }
    } else {
        match advance(s, i, st) {
            Some((j, st2)) => if j > i {
                value_end_from(s, j, nested, st2)
            } else {
                i
            },
            None => {
                let c = s[i];
                if is_open(c) {
                    value_end_from(s, i + 1, nested + 1, st)
                } else if is_close(c) && nested > 0 {
                    value_end_from(s, i + 1, (nested - 1) as nat, st)
                } else if (c == ',' || c == ')') && nested == 0 {
                    i
                } else {
                    value_end_from(s, i + 1, nested, st)
                }
            },
        }
    }
}

/// Where the value that starts at `start` ends.
pub open spec fn value_end(s: Seq<char>, start: int) -> int {
    value_end_from(s, start, 0, ScanState::Normal)
}

pub proof fn lemma_value_end(s: Seq<char>, i: int, nested: nat, st: ScanState)
    requires
        0 <= i <= s.len(),
        s.len() <= usize::MAX,
        depth_ok(st, i),
    ensures
        i <= value_end_from(s, i, nested, st) <= s.len(),
    decreases s.len() - i,
{
    if i < s.len() {
        lemma_advance(s, i, st);
        match advance(s, i, st) {
            Some((j, st2)) => {
                lemma_value_end(s, j, nested, st2);
            },
            None => {
                let c = s[i];
                if is_open(c) {
                    lemma_value_end(s, i + 1, nested + 1, st);
                } else if is_close(c) && nested > 0 {
                    lemma_value_end(s, i + 1, (nested - 1) as nat, st);
                } else if (c == ',' || c == ')') && nested == 0 {
                } else {
                    lemma_value_end(s, i + 1, nested, st);
                }
            },
        }
    }
}

/// The end of the value that starts at `start` (see [`value_end`]).
pub fn scan_value_end(s: &[char], start: usize) -> (r: usize)
    requires
        start <= s@.len(),
    ensures
        r == value_end(s@, start as int),
        start <= r <= s@.len(),
{
    let len = s.len();
    proof {
        lemma_value_end(s@, start as int, 0, ScanState::Normal);
    }
    let mut index = start;
    let mut nested: usize = 0;
    let mut state = ScanState::Normal;
    while index < s.len()
        invariant
            start <= index <= s@.len(),
            nested <= index,
            depth_ok(state, index as int),
            value_end_from(s@, index as int, nested as nat, state) == value_end(s@, start as int),
        decreases s@.len() - index,
    {
        proof {
            lemma_advance(s@, index as int, state);
        }
        if advance_state(s, &mut index, &mut state) {
            continue;
        }
        let c = s[index];
        if c == '(' || c == '[' || c == '{' {
            nested = nested + 1;
            index = index + 1;
        } else if (c == ')' || c == ']' || c == '}') && nested > 0 {
            nested = nested - 1;
            index = index + 1;
        } else if (c == ',' || c == ')') && nested == 0 {
            return index;
        } else {
            index = index + 1;
        }
    }
    index
}

// ---------------------------------------------------------------------------
// Root fields
// ---------------------------------------------------------------------------

/// The end of the identifier characters from `i` on.
pub open spec fn ident_end(s: Seq<char>, i: int) -> int
    decreases s.len() - i,
{
    if 0 <= i < s.len() && (s[i] == '_' || is_ascii_alnum(s[i])) {
        ident_end(s, i + 1)
    } else {
        i
    }
}

proof fn lemma_ident_end(s: Seq<char>, i: int)
    requires
        0 <= i <= s.len(),
    ensures
        i <= ident_end(s, i) <= s.len(),
    decreases s.len() - i,
{
    if i < s.len() && (s[i] == '_' || is_ascii_alnum(s[i])) {
        lemma_ident_end(s, i + 1);
    }
}

/// Scans from `i` at bracket depth `depth` for an identifier equal to `field`
/// at depth one, followed (past trivia) by `:`; gives the span of its value.
pub open spec fn field_span_from(s: Seq<char>, field: Seq<char>, i: int, depth: nat, st: ScanState) -> Option<(int, int)>
    decreases s.len() - i,
{
    if i < 0 || i >= s.len() {
        None
    } else {
        match advance(s, i, st) {
            Some((j, st2)) => if j > i {
                field_span_from(s, field, j, depth, st2)
            } else {
                None
            },
            None => {
                let c = s[i];
                if is_open(c) {
                    field_span_from(s, field, i + 1, depth + 1, st)
                } else if is_close(c) {
                    field_span_from(s, field, i + 1, if depth > 0 { (depth - 1) as nat } else { 0 }, st)
                } else if depth == 1 && (c == '_' || is_ascii_alpha(c)) {
                    let end = ident_end(s, i + 1);
                    let cursor = trivia_end(s, end);
                    if i < end <= s.len() && s.subrange(i, end) == field && 0 <= cursor < s.len()
                        && s[cursor] == ':' {
                        let vs = trivia_end(s, cursor + 1);
                        Some((vs, value_end(s, vs)))
                    } else if i < end <= s.len() {
                        field_span_from(s, field, end, depth, st)
                    } else {
                        None
                    }
                } else {
                    field_span_from(s, field, i + 1, depth, st)
                }
            },
        }
    }
}

/// The span of the value of the root field `field`, if the root has one.
pub open spec fn field_value_span(s: Seq<char>, field: Seq<char>) -> Option<(int, int)> {
    field_span_from(s, field, 0, 0, ScanState::Normal)
}

pub proof fn lemma_field_span(s: Seq<char>, field: Seq<char>, i: int, depth: nat, st: ScanState)
    requires
        0 <= i <= s.len(),
        s.len() <= usize::MAX,
        depth_ok(st, i),
    ensures
        field_span_from(s, field, i, depth, st) matches Some((a, b)) ==> 0 <= a <= b <= s.len(),
    decreases s.len() - i,
{
    if i < s.len() {
        lemma_advance(s, i, st);
        match advance(s, i, st) {
            Some((j, st2)) => {
                lemma_field_span(s, field, j, depth, st2);
            },
            None => {
                let c = s[i];
                if is_open(c) {
                    lemma_field_span(s, field, i + 1, depth + 1, st);
                } else if is_close(c) {
                    lemma_field_span(s, field, i + 1, if depth > 0 { (depth - 1) as nat } else { 0 }, st);
                } else if depth == 1 && (c == '_' || is_ascii_alpha(c)) {
                    lemma_ident_end(s, i + 1);
                    let end = ident_end(s, i + 1);
                    lemma_skip_trivia(s, end);
                    let cursor = trivia_end(s, end);
                    if s.subrange(i, end) == field && 0 <= cursor < s.len() && s[cursor] == ':' {
                        lemma_skip_trivia(s, cursor + 1);
                        let vs = trivia_end(s, cursor + 1);
                        lemma_value_end(s, vs, 0, ScanState::Normal);
                    } else {
                        lemma_field_span(s, field, end, depth, st);
                    }
                } else {
                    lemma_field_span(s, field, i + 1, depth, st);
                }
            },
        }
    }
}

/// The span `(start, end)` of the value of the root field `field` (see [`field_value_span`]).
pub fn find_field_value_span_chars(s: &[char], field: &[char]) -> (r: Option<(usize, usize)>)
    ensures
        r matches Some((a, b)) ==> field_value_span(s@, field@) == Some((a as int, b as int))
            && a <= b <= s@.len(),
        r is None ==> field_value_span(s@, field@) is None,
{
    let len = s.len();
    let mut index: usize = 0;
    let mut depth: usize = 0;
    let mut state = ScanState::Normal;
    while index < s.len()
        invariant
            index <= s@.len(),
            len == s@.len(),
            depth <= index,
            depth_ok(state, index as int),
            field_span_from(s@, field@, index as int, depth as nat, state) == field_value_span(s@, field@),
        decreases s@.len() - index,
    {
        proof {
            lemma_advance(s@, index as int, state);
        }
        if advance_state(s, &mut index, &mut state) {
            continue;
        }
        let c = s[index];
        if c == '(' || c == '[' || c == '{' {
            depth = depth + 1;
            index = index + 1;
        } else if c == ')' || c == ']' || c == '}' {
            depth = if depth > 0 { depth - 1 } else { 0 };
            index = index + 1;
        } else if depth == 1 && (c == '_' || ascii_alpha(c)) {
            let start = index;
            index = index + 1;
            while index < s.len() && (s[index] == '_' || ascii_alnum(s[index]))
                invariant
                    start < index <= s@.len(),
                    ident_end(s@, index as int) == ident_end(s@, start + 1),
                decreases s@.len() - index,
            {
                index = index + 1;
            }
            let mut name: Vec<char> = Vec::new();
            push_range(&mut name, s, start, index);
            let cursor = skip_trivia(s, index);
            if chars_eq(name.as_slice(), field) && cursor < s.len() && s[cursor] == ':' {
                let value_start = skip_trivia(s, cursor + 1);
                let value_end = scan_value_end(s, value_start);
                return Some((value_start, value_end));
            }
        } else {
            index = index + 1;
        }
    }
    None
}

/// The number of bytes a character takes in UTF-8.
pub open spec fn utf8_width(c: char) -> nat {
    if (c as u32) < 0x80 {
        1
    } else if (c as u32) < 0x800 {
        2
    } else if (c as u32) < 0x10000 {
        3
    } else {
        4
    }
}

/// The number of bytes a text takes in UTF-8.
pub open spec fn utf8_len(s: Seq<char>) -> nat
    decreases s.len(),
{
    if s.len() == 0 {
        0
    } else {
        utf8_len(s.drop_last()) + utf8_width(s.last())
    }
}

proof fn lemma_utf8_len_prefix(s: Seq<char>, k: int)
    requires
        0 <= k <= s.len(),
    ensures
        utf8_len(s.take(k)) <= utf8_len(s),
    decreases s.len() - k,
{
    if k < s.len() {
        lemma_utf8_len_prefix(s, k + 1);
        assert(s.take(k + 1).drop_last() =~= s.take(k));
    } else {
        assert(s.take(k) =~= s);
    }
}

/// The byte offset in `s`'s UTF-8 text of its character `i`.
fn byte_offset(s: &[char], i: usize) -> (r: usize)
    requires
        i <= s@.len(),
        utf8_len(s@) <= usize::MAX,
    ensures
        r == utf8_len(s@.take(i as int)),
{
    let mut bytes: usize = 0;
    let mut k: usize = 0;
    assert(s@.take(0) =~= Seq::<char>::empty());
    while k < i
        invariant
            k <= i <= s@.len(),
            utf8_len(s@) <= usize::MAX,
            bytes == utf8_len(s@.take(k as int)),
        decreases i - k,
    {
        proof {
            lemma_utf8_len_prefix(s@, k + 1);
            assert(s@.take(k + 1).drop_last() =~= s@.take(k as int));
        }
        let code = s[k] as u32;
        let width: usize = if code < 0x80 {
            1
        } else if code < 0x800 {
            2
        } else if code < 0x10000 {
            3
        } else {
            4
        };
        bytes = bytes + width;
        k = k + 1;
    }
    bytes
}

/// The span `(start, end)`, in bytes of the UTF-8 text, of the value of the
/// root field `field` (see [`field_value_span`], which counts characters).
pub fn find_field_value_span(source: &str, field: &str) -> (r: Option<(usize, usize)>)
    requires
        utf8_len(source@) <= usize::MAX,
    ensures
        match field_value_span(source@, field@) {
            Some((a, b)) => r == Some((utf8_len(source@.take(a)) as usize, utf8_len(source@.take(b)) as usize)),
            None => r is None,
        },
{
    let s = crate::text::chars_of(source);
    let f = crate::text::chars_of(field);
    match find_field_value_span_chars(s.as_slice(), f.as_slice()) {
        Some((a, b)) => {
            assert(a <= b <= s@.len());
            Some((byte_offset(s.as_slice(), a), byte_offset(s.as_slice(), b)))
        },
        None => None,
    }
}

// ---------------------------------------------------------------------------
// Top-level items
// ---------------------------------------------------------------------------

/// `items` with the trimmed text added, unless it is empty.
pub open spec fn add_item(items: Seq<Seq<char>>, text: Seq<char>) -> Seq<Seq<char>> {
    if trim(text).len() > 0 {
        items.push(trim(text))
    } else {
        items
    }
}

/// Scans from `i`, the current item starting at `start`, splitting at commas
/// outside brackets, literals and comments; empty items are dropped.
pub open spec fn items_from(
    s: Seq<char>,
    i: int,
    start: int,
    depth: nat,
    st: ScanState,
    items: Seq<Seq<char>>,
) -> Seq<Seq<char>>
    decreases s.len() - i,
{
    if i < 0 || i >= s.len() || start < 0 || start > i {
        add_item(items, s.subrange(start, s.len() as int))
    } else {
        match advance(s, i, st) {
            Some((j, st2)) => if j > i {
                items_from(s, j, start, depth, st2, items)
            } else {
                items
            },
            None => {
                let c = s[i];
                if is_open(c) {
                    items_from(s, i + 1, start, depth + 1, st, items)
                } else if is_close(c) {
                    items_from(s, i + 1, start, if depth > 0 { (depth - 1) as nat } else { 0 }, st, items)
                } else if c == ',' && depth == 0 {
                    items_from(s, i + 1, i + 1, depth, st, add_item(items, s.subrange(start, i)))
                } else {
                    items_from(s, i + 1, start, depth, st, items)
                }
            },
        }
    }
}

/// The trimmed, non-empty top-level items of a comma-separated text.
pub open spec fn top_level_items(s: Seq<char>) -> Seq<Seq<char>> {
    items_from(s, 0, 0, 0, ScanState::Normal, Seq::empty())
}

/// Splits a text at its top-level commas (see [`top_level_items`]).
pub fn split_top_level(s: &[char]) -> (r: Vec<Vec<char>>)
    ensures
        r.deep_view() == top_level_items(s@),
{
    let len = s.len();
    let mut items: Vec<Vec<char>> = Vec::new();
    assert(items.deep_view() =~= Seq::<Seq<char>>::empty());
    let mut index: usize = 0;
    let mut start: usize = 0;
    let mut depth: usize = 0;
    let mut state = ScanState::Normal;
    assert(items.deep_view() =~= Seq::<Seq<char>>::empty());
    while index < s.len()
        invariant
            start <= index <= s@.len(),
            len == s@.len(),
            depth <= index,
            depth_ok(state, index as int),
            items_from(s@, index as int, start as int, depth as nat, state, items.deep_view())
                == top_level_items(s@),
        decreases s@.len() - index,
    {
        proof {
            lemma_advance(s@, index as int, state);
        }
        if advance_state(s, &mut index, &mut state) {
            continue;
        }
        let c = s[index];
        if c == '(' || c == '[' || c == '{' {
            depth = depth + 1;
            index = index + 1;
        } else if c == ')' || c == ']' || c == '}' {
            depth = if depth > 0 { depth - 1 } else { 0 };
            index = index + 1;
        } else if c == ',' && depth == 0 {
            let value = trimmed(s, start, index);
            let ghost before = items.deep_view();
            if value.len() > 0 {
                assert(value.deep_view() =~= value@);
                items.push(value);
                assert(items.deep_view() =~= before.push(value@));
            }
            assert(items.deep_view() == add_item(before, s@.subrange(start as int, index as int)));
            start = index + 1;
            index = index + 1;
        } else {
            index = index + 1;
        }
    }
    let value = trimmed(s, start, s.len());
    let ghost before = items.deep_view();
    if value.len() > 0 {
        assert(value.deep_view() =~= value@);
        items.push(value);
        assert(items.deep_view() =~= before.push(value@));
    }
    items
}

/// The first index of `c`, if any.
pub open spec fn first_index_of(s: Seq<char>, c: char) -> Option<int> {
    if exists|i: int| 0 <= i < s.len() && s[i] == c {
        Some(choose|i: int| 0 <= i < s.len() && s[i] == c && forall|j: int| 0 <= j < i ==> s[j] != c)
    } else {
        None
    }
}

/// The last index of `c`, if any.
pub open spec fn last_index_of(s: Seq<char>, c: char) -> Option<int> {
    if exists|i: int| 0 <= i < s.len() && s[i] == c {
        Some(choose|i: int| 0 <= i < s.len() && s[i] == c && forall|j: int| i < j < s.len() ==> s[j] != c)
    } else {
        None
    }
}

/// The text strictly between the first `open` and the last `close` can be
/// taken: it is where both are missing or the first `open` comes before the last `close`.
pub open spec fn collection_bounds_ok(s: Seq<char>, open: char, close: char) -> bool {
    match (first_index_of(s, open), last_index_of(s, close)) {
        (Some(a), Some(b)) => a + 1 <= b,
        _ => true,
    }
}

/// The top-level items between the first `open` and the last `close`.
pub open spec fn collection_items(s: Seq<char>, open: char, close: char) -> Seq<Seq<char>> {
    match (first_index_of(s, open), last_index_of(s, close)) {
        (Some(a), Some(b)) => top_level_items(s.subrange(a + 1, b)),
        _ => Seq::empty(),
    }
}

proof fn lemma_first_index(s: Seq<char>, c: char, i: int)
    requires
        0 <= i < s.len(),
        s[i] == c,
        forall|j: int| 0 <= j < i ==> s[j] != c,
    ensures
        first_index_of(s, c) == Some(i),
{
    let k = choose|k: int| 0 <= k < s.len() && s[k] == c && forall|j: int| 0 <= j < k ==> s[j] != c;
    if k < i {
        assert(s[k] != c);
    }
    if k > i {
        assert(s[i] != c);
    }
}

proof fn lemma_last_index(s: Seq<char>, c: char, i: int)
    requires
        0 <= i < s.len(),
        s[i] == c,
        forall|j: int| i < j < s.len() ==> s[j] != c,
    ensures
        last_index_of(s, c) == Some(i),
{
    let k = choose|k: int| 0 <= k < s.len() && s[k] == c && forall|j: int| k < j < s.len() ==> s[j] != c;
    if k < i {
        assert(s[i] != c);
    }
    if k > i {
        assert(s[k] != c);
    }
}

pub proof fn lemma_first_index_pub(s: Seq<char>, c: char, i: int)
    requires
        0 <= i < s.len(),
        s[i] == c,
        forall|j: int| 0 <= j < i ==> s[j] != c,
    ensures
        first_index_of(s, c) == Some(i),
{
    lemma_first_index(s, c, i);
}

pub proof fn lemma_no_index(s: Seq<char>, c: char)
    requires
        forall|j: int| 0 <= j < s.len() ==> s[j] != c,
    ensures
        first_index_of(s, c) is None,
        last_index_of(s, c) is None,
{
}

/// Whether [`collection_bounds_ok`] holds.
pub fn collection_bounds_ok_exec(s: &[char], open: char, close: char) -> (r: bool)
    ensures
        r == collection_bounds_ok(s@, open, close),
{
    match (find_char(s, open), rfind_char(s, close)) {
        (Some(a), Some(b)) => {
            proof {
                lemma_first_index(s@, open, a as int);
                lemma_last_index(s@, close, b as int);
            }
            a < b
        },
        (a, b) => {
            proof {
                if let Some(x) = a {
                    lemma_first_index(s@, open, x as int);
                }
                if let Some(y) = b {
                    lemma_last_index(s@, close, y as int);
                }
            }
            true
        },
    }
}

/// The items of a bracketed collection (see [`collection_items`]).
pub fn split_collection_items(s: &[char], open: char, close: char) -> (r: Vec<Vec<char>>)
    requires
        collection_bounds_ok(s@, open, close),
    ensures
        r.deep_view() == collection_items(s@, open, close),
{
    let a = find_char(s, open);
    let b = rfind_char(s, close);
    match (a, b) {
        (Some(a), Some(b)) => {
            proof {
                lemma_first_index(s@, open, a as int);
                lemma_last_index(s@, close, b as int);
            }
            let mut body: Vec<char> = Vec::new();
            push_range(&mut body, s, a + 1, b);
            split_top_level(body.as_slice())
        },
        (a, b) => {
            proof {
                if let Some(x) = a {
                    lemma_first_index(s@, open, x as int);
                }
                if let Some(y) = b {
                    lemma_last_index(s@, close, y as int);
                }
            }
            let r: Vec<Vec<char>> = Vec::new();
            assert(r.deep_view() =~= Seq::<Seq<char>>::empty());
            r
        },
    }
}

// ---------------------------------------------------------------------------
// Struct fields
// ---------------------------------------------------------------------------

/// The text inside the parentheses of a struct (the text itself where it is not one).
pub open spec fn struct_body(s: Seq<char>) -> Seq<char> {
    let t = trim(s);
    if t.len() >= 2 && t[0] == '(' && t.last() == ')' {
        t.subrange(1, t.len() - 1)
    } else {
        s
    }
}

/// The `key: value` pairs of items, both sides trimmed, skipping items without a colon.
pub open spec fn field_pairs(items: Seq<Seq<char>>) -> Seq<Pair>
    decreases items.len(),
{
    if items.len() == 0 {
        Seq::empty()
    } else {
        let item = items[0];
        let rest = field_pairs(items.drop_first());
        match first_index_of(item, ':') {
            Some(c) => seq![(trim(item.subrange(0, c)), trim(item.subrange(c + 1, item.len() as int)))] + rest,
            None => rest,
        }
    }
}

/// The fields of a struct, keyed by name (a later field replaces an earlier one of the same name).
pub open spec fn struct_fields(s: Seq<char>) -> Seq<Pair> {
    map_insert_all(Seq::empty(), field_pairs(top_level_items(struct_body(s))))
}

proof fn lemma_field_pairs_step(items: Seq<Seq<char>>, k: int)
    requires
        0 <= k < items.len(),
    ensures
        field_pairs(items.skip(k)) == (match first_index_of(items[k], ':') {
            Some(c) => seq![(trim(items[k].subrange(0, c)), trim(items[k].subrange(c + 1, items[k].len() as int)))],
            None => Seq::<Pair>::empty(),
        }) + field_pairs(items.skip(k + 1)),
{
    assert(items.skip(k).drop_first() =~= items.skip(k + 1));
    assert(items.skip(k)[0] == items[k]);
    match first_index_of(items[k], ':') {
        Some(c) => {},
        None => {
            assert(Seq::<Pair>::empty() + field_pairs(items.skip(k + 1)) =~= field_pairs(items.skip(k + 1)));
        },
    }
}

proof fn lemma_insert_all_one(e: Seq<Pair>, p: Pair, rest: Seq<Pair>)
    ensures
        map_insert_all(e, seq![p] + rest) == map_insert_all(map_insert(e, p.0, p.1), rest),
{
    let all = seq![p] + rest;
    assert(all[0] == p);
    assert(all.drop_first() =~= rest);
}

/// The fields of a struct (see [`struct_fields`]), as a key-sorted vector.
pub fn parse_struct_fields(s: &[char]) -> (r: Vec<(String, String)>)
    ensures
        r.deep_view() == struct_fields(s@),
        keys_sorted(r.deep_view()),
{
    let t = trim_bounds_of(s);
    let (a, b) = t;
    let body: Vec<char> = if b - a >= 2 && s[a] == '(' && s[b - 1] == ')' {
        let mut v: Vec<char> = Vec::new();
        push_range(&mut v, s, a + 1, b - 1);
        assert(v@ =~= trim(s@).subrange(1, trim(s@).len() - 1));
        v
    } else {
        let mut v: Vec<char> = Vec::new();
        push_range(&mut v, s, 0, s.len());
        assert(v@ =~= s@);
        v
    };
    assert(body@ == struct_body(s@));
    let items = split_top_level(body.as_slice());
    let ghost iv = items.deep_view();
    let mut fields: Vec<(String, String)> = Vec::new();
    let mut k: usize = 0;
    assert(iv.skip(0) =~= iv);
    while k < items.len()
        invariant
            k <= items@.len(),
            iv == items.deep_view(),
            keys_sorted(fields.deep_view()),
            map_insert_all(fields.deep_view(), field_pairs(iv.skip(k as int))) == map_insert_all(
                Seq::empty(),
                field_pairs(iv),
            ),
        decreases items.len() - k,
    {
        let item = &items[k];
        assert(item@ == iv[k as int]);
        proof {
            lemma_field_pairs_step(iv, k as int);
        }
        match find_char(item.as_slice(), ':') {
            Some(c) => {
                proof {
                    lemma_first_index(item@, ':', c as int);
                }
                let key = trimmed(item.as_slice(), 0, c);
                let value = trimmed(item.as_slice(), c + 1, item.len());
                assert(item@.subrange(0, c as int) =~= item@.subrange(0, c as int));
                let ghost f0 = fields.deep_view();
                let ks = string_of(key.as_slice());
                let vs = string_of(value.as_slice());
                proof {
                    lemma_insert_all_one(f0, (key@, value@), field_pairs(iv.skip(k + 1)));
                }
                insert_field(&mut fields, ks, vs);
            },
            None => {
                proof {
                    if exists|i: int| 0 <= i < item@.len() && item@[i] == ':' {
                        let i = choose|i: int| 0 <= i < item@.len() && item@[i] == ':';
                        assert(item@[i] != ':');
                    }
                    assert(Seq::<Pair>::empty() + field_pairs(iv.skip(k + 1)) =~= field_pairs(iv.skip(k + 1)));
                }
            },
        }
        k = k + 1;
    }
    assert(iv.skip(iv.len() as int) =~= Seq::<Seq<char>>::empty());
    fields
}

/// The bounds of `trim(s)` inside `s`.
fn trim_bounds_of(s: &[char]) -> (r: (usize, usize))
    ensures
        r.0 <= r.1 <= s@.len(),
        s@.subrange(r.0 as int, r.1 as int) == trim(s@),
{
    let r = crate::text::trim_bounds(s, 0, s.len());
    assert(s@.subrange(0, s@.len() as int) =~= s@);
    r
}

// ---------------------------------------------------------------------------
// Inserting a root field
// ---------------------------------------------------------------------------

/// The text with `    name: value,` and a line feed inserted before the last `)`,
/// or `None` where the text has no `)`.
pub open spec fn with_root_field(s: Seq<char>, name: Seq<char>, value: Seq<char>) -> Option<Seq<char>> {
    match last_index_of(s, ')') {
        Some(close) => Some(
            s.subrange(0, close) + "    "@ + name + ": "@ + value + ",\n"@ + s.subrange(close, s.len() as int),
        ),
        None => None,
    }
}

/// The index of the last `)`.
pub fn find_root_close(s: &[char]) -> (r: Option<usize>)
    ensures
        r matches Some(i) ==> last_index_of(s@, ')') == Some(i as int) && i < s@.len(),
        r is None ==> last_index_of(s@, ')') is None,
{
    let r = rfind_char(s, ')');
    proof {
        if let Some(i) = r {
            lemma_last_index(s@, ')', i as int);
        }
    }
    r
}

/// Inserts a root field before the closing parenthesis (see [`with_root_field`]).
pub fn insert_root_field(s: &[char], name: &[char], value: &[char]) -> (r: Option<Vec<char>>)
    ensures
        r.deep_view() == with_root_field(s@, name@, value@),
{
    match find_root_close(s) {
        Some(close) => {
            let mut out: Vec<char> = Vec::new();
            push_range(&mut out, s, 0, close);
            crate::text::push_str(&mut out, "    ");
            crate::text::push_all(&mut out, name);
            crate::text::push_str(&mut out, ": ");
            crate::text::push_all(&mut out, value);
            crate::text::push_str(&mut out, ",\n");
            push_range(&mut out, s, close, s.len());
            Some(out)
        },
        None => None,
    }
}

} // verus!
