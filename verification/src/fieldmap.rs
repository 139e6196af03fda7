//! Maps from text keys to text values, held as vectors of pairs sorted by key
//! (the iteration order of a `BTreeMap<String, String>`).
use vstd::prelude::*;

use crate::order::{lemma_lex_order, lex_lt, str_compare};

verus! {

pub type Pair = (Seq<char>, Seq<char>);


/// Keys strictly increase.
pub open spec fn keys_sorted(e: Seq<Pair>) -> bool {
    forall|i: int, j: int| 0 <= i < j < e.len() ==> lex_lt(#[trigger] e[i].0, #[trigger] e[j].0)
}

/// Whether the keys of the pairs strictly increase (see [`keys_sorted`]).
pub fn keys_in_order(v: &Vec<(String, String)>) -> (r: bool)
    ensures
        r == keys_sorted(v.deep_view()),
{
    let ghost e = v.deep_view();
    if v.len() == 0 {
        return true;
    }
    let mut i: usize = 1;
    while i < v.len()
        invariant
            1 <= i <= v@.len(),
            e == v.deep_view(),
            forall|a: int, b: int| 0 <= a < b < i ==> lex_lt(#[trigger] e[a].0, #[trigger] e[b].0),
        decreases v.len() - i,
    {
        assert(e[i - 1].0 == v@[i - 1].0@);
        assert(e[i as int].0 == v@[i as int].0@);
        if str_compare(v[i - 1].0.as_str(), v[i].0.as_str()) >= 0 {
            assert(!lex_lt(e[i - 1].0, e[i as int].0));
            return false;
        }
        assert forall|a: int, b: int| 0 <= a < b < i + 1 implies lex_lt(#[trigger] e[a].0, #[trigger] e[b].0) by {
            if b == i && a < i - 1 {
                lemma_lex_order(e[a].0, e[i - 1].0, e[b].0);
            }
        }
        i = i + 1;
    }
    true
}

/// Sorted insertion that replaces the value of an equal key.
pub open spec fn map_insert(e: Seq<Pair>, k: Seq<char>, v: Seq<char>) -> Seq<Pair>
    decreases e.len(),
{
    if e.len() == 0 {
        seq![(k, v)]
    } else if e[0].0 == k {
        seq![(k, v)] + e.drop_first()
    } else if lex_lt(k, e[0].0) {
        seq![(k, v)] + e
    } else {
        seq![e[0]] + map_insert(e.drop_first(), k, v)
    }
}

/// The value stored under `k`, if any.
pub open spec fn map_get(e: Seq<Pair>, k: Seq<char>) -> Option<Seq<char>>
    decreases e.len(),
{
    if e.len() == 0 {
        None
    } else if e[0].0 == k {
        Some(e[0].1)
    } else {
        map_get(e.drop_first(), k)
    }
}

/// The map built by inserting `pairs` one after another into `e`.
pub open spec fn map_insert_all(e: Seq<Pair>, pairs: Seq<Pair>) -> Seq<Pair>
    decreases pairs.len(),
{
    if pairs.len() == 0 {
        e
    } else {
        map_insert_all(map_insert(e, pairs[0].0, pairs[0].1), pairs.drop_first())
    }
}

proof fn lemma_insert_shape(e: Seq<Pair>, k: Seq<char>, v: Seq<char>, p: int)
    requires
        keys_sorted(e),
        0 <= p <= e.len(),
        forall|i: int| 0 <= i < p ==> lex_lt(e[i].0, k),
        p < e.len() ==> !lex_lt(e[p].0, k),
    ensures
        p < e.len() && e[p].0 == k ==> map_insert(e, k, v) == e.update(p, (k, v)),
        !(p < e.len() && e[p].0 == k) ==> map_insert(e, k, v) == e.take(p).push((k, v)) + e.skip(
            p,
        ),
    decreases p,
{
    if e.len() == 0 {
        assert(e.take(p).push((k, v)) + e.skip(p) =~= seq![(k, v)]);
    } else if p == 0 {
        if e[0].0 == k {
            assert(seq![(k, v)] + e.drop_first() =~= e.update(0, (k, v)));
        } else {
            lemma_lex_order(e[0].0, k, k);
            assert(seq![(k, v)] + e =~= e.take(0).push((k, v)) + e.skip(0));
        }
    } else {
        lemma_lex_order(e[0].0, k, k);
        let rest = e.drop_first();
        assert forall|i: int, j: int| 0 <= i < j < rest.len() implies lex_lt(
            #[trigger] rest[i].0,
            #[trigger] rest[j].0,
        ) by {
            assert(rest[i] == e[i + 1]);
            assert(rest[j] == e[j + 1]);
        }
        assert forall|i: int| 0 <= i < p - 1 implies lex_lt(rest[i].0, k) by {
            assert(rest[i] == e[i + 1]);
        }
        lemma_insert_shape(rest, k, v, p - 1);
        if p < e.len() && e[p].0 == k {
            assert(seq![e[0]] + rest.update(p - 1, (k, v)) =~= e.update(p, (k, v)));
        } else {
            assert(seq![e[0]] + (rest.take(p - 1).push((k, v)) + rest.skip(p - 1)) =~= e.take(
                p,
            ).push((k, v)) + e.skip(p));
        }
    }
}

/// Inserts `key` with `value`, keeping the keys sorted; an equal key gets the new value.
pub fn insert_field(v: &mut Vec<(String, String)>, key: String, value: String)
    requires
        keys_sorted(old(v).deep_view()),
    ensures
        final(v).deep_view() == map_insert(old(v).deep_view(), key@, value@),
        keys_sorted(final(v).deep_view()),
{
    let ghost e = v.deep_view();
    let mut p: usize = 0;
    let mut found = false;
    while p < v.len()
        invariant_except_break
            p <= v.len(),
            e == v.deep_view(),
            keys_sorted(e),
            forall|i: int| 0 <= i < p ==> lex_lt(e[i].0, key@),
            !found,
        ensures
            p <= v.len(),
            e == v.deep_view(),
            keys_sorted(e),
            forall|i: int| 0 <= i < p ==> lex_lt(e[i].0, key@),
            p < v.len() ==> !lex_lt(e[p as int].0, key@),
            found == (p < v.len() && e[p as int].0 == key@),
        decreases v.len() - p,
    {
        let c = str_compare(v[p].0.as_str(), key.as_str());
        if c >= 0 {
            found = c == 0;
            break;
        }
        p = p + 1;
    }
    proof {
        if p < v.len() {
            lemma_lex_order(e[p as int].0, key@, key@);
        }
        lemma_insert_shape(e, key@, value@, p as int);
    }
    if found {
        v.set(p, (key, value));
        assert(v.deep_view() =~= e.update(p as int, (key@, value@)));
    } else {
        v.insert(p, (key, value));
        assert(v.deep_view() =~= e.take(p as int).push((key@, value@)) + e.skip(p as int));
    }
    proof {
        let f = v.deep_view();
        assert forall|i: int, j: int| 0 <= i < j < f.len() implies lex_lt(
            #[trigger] f[i].0,
            #[trigger] f[j].0,
        ) by {
            if found {
                if i == p {
                    assert(f[i].0 == e[i].0);
                }
                if j == p {
                    assert(f[j].0 == e[j].0);
                }
                assert(f[i].0 == e[i].0);
                assert(f[j].0 == e[j].0);
            } else {
                if j < p {
                    assert(f[i] == e[i] && f[j] == e[j]);
                } else if j == p {
                    assert(f[i] == e[i]);
                } else if i == p {
                    assert(f[j] == e[j - 1]);
                    if j - 1 > p {
                        lemma_lex_order(key@, e[p as int].0, e[j - 1].0);
                    }
                    lemma_lex_order(e[p as int].0, key@, key@);
                } else if i < p {
                    assert(f[i] == e[i] && f[j] == e[j - 1]);
                    if j - 1 > i {
                    }
                    if j - 1 == i {
                        lemma_lex_order(e[i].0, e[i].0, e[i].0);
                    }
                    assert(i < j - 1);
                } else {
                    assert(f[i] == e[i - 1] && f[j] == e[j - 1]);
                }
            }
        }
    }
}

/// The value stored under `key`, if any.
pub fn get_field<'a>(v: &'a Vec<(String, String)>, key: &str) -> (r: Option<&'a String>)
    ensures
        r matches Some(s) ==> map_get(v.deep_view(), key@) == Some(s@),
        r is None ==> map_get(v.deep_view(), key@) is None,
{
    let mut i: usize = 0;
    let ghost e = v.deep_view();
    assert(e.skip(0) =~= e);
    while i < v.len()
        invariant
            i <= v.len(),
            e == v.deep_view(),
            map_get(e, key@) == map_get(e.skip(i as int), key@),
        decreases v.len() - i,
    {
        if str_compare(v[i].0.as_str(), key) == 0 {
            return Some(&v[i].1);
        }
        proof {
            assert(e.skip(i as int).drop_first() =~= e.skip(i + 1));
        }
        i = i + 1;
    }
    None
}


/// Inserts the pairs one after another (see [`map_insert_all`]).
pub fn insert_all_fields(v: &mut Vec<(String, String)>, pairs: &Vec<(String, String)>)
    requires
        keys_sorted(old(v).deep_view()),
    ensures
        final(v).deep_view() == map_insert_all(old(v).deep_view(), pairs.deep_view()),
        keys_sorted(final(v).deep_view()),
{
    let ghost pv = pairs.deep_view();
    let ghost target = map_insert_all(v.deep_view(), pv);
    let mut i: usize = 0;
    assert(pv.skip(0) =~= pv);
    while i < pairs.len()
        invariant
            i <= pairs@.len(),
            pv == pairs.deep_view(),
            keys_sorted(v.deep_view()),
            map_insert_all(v.deep_view(), pv.skip(i as int)) == target,
        decreases pairs.len() - i,
    {
        assert(pv.skip(i as int)[0] == pv[i as int]);
        assert(pv.skip(i as int).drop_first() =~= pv.skip(i + 1));
        assert(pv[i as int] == (pairs@[i as int].0@, pairs@[i as int].1@));
        insert_field(v, pairs[i].0.clone(), pairs[i].1.clone());
        i = i + 1;
    }
    assert(pv.skip(pairs.len() as int) =~= Seq::<Pair>::empty());
}

} // verus!
