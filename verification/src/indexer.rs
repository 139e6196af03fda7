//! The catalog of components found in a project's sources, and how names in a
//! configuration are matched against it.
use vstd::prelude::*;

use crate::model::{normalized_type, normalize_type, ComponentDescriptor, ComponentModel};
use crate::text::{chars_eq, chars_of, ends_with, is_suffix};

verus! {

#[derive(Debug)]
pub struct ComponentCatalog {
    pub components: Vec<ComponentDescriptor>,
    pub diagnostics: Vec<String>,
}

impl ComponentCatalog {
    pub fn new() -> (r: Self)
        ensures
            r.components@.len() == 0,
            r.diagnostics@.len() == 0,
    {
        ComponentCatalog { components: Vec::new(), diagnostics: Vec::new() }
    }
}

/// A component answers to a type path when both normalize to the same text or
/// either path ends with the other.
pub open spec fn answers_to(component_path: Seq<char>, query: Seq<char>) -> bool {
    normalized_type(component_path) == normalized_type(query) || is_suffix(query, component_path)
        || is_suffix(component_path, query)
}

/// The first component at or after `k` that answers to the query.
pub open spec fn find_from(components: Seq<ComponentModel>, query: Seq<char>, k: int) -> Option<int>
    decreases components.len() - k,
{
    if k < 0 || k >= components.len() {
        None
    } else if answers_to(components[k].type_path, query) {
        Some(k)
    } else {
        find_from(components, query, k + 1)
    }
}

/// The index of the first component that answers to the query.
pub open spec fn find_component(components: Seq<ComponentModel>, query: Seq<char>) -> Option<int> {
    find_from(components, query, 0)
}

pub proof fn lemma_find_from(components: Seq<ComponentModel>, query: Seq<char>, k: int)
    requires
        0 <= k,
    ensures
        find_from(components, query, k) matches Some(i) ==> k <= i < components.len(),
    decreases components.len() - k,
{
    if k < components.len() && !answers_to(components[k].type_path, query) {
        lemma_find_from(components, query, k + 1);
    }
}

/// Whether a component path answers to the query (see [`answers_to`]).
pub fn answers_to_exec(component_path: &str, query: &str) -> (r: bool)
    ensures
        r == answers_to(component_path@, query@),
{
    let a = normalize_type(component_path);
    let b = normalize_type(query);
    let c = chars_of(component_path);
    let q = chars_of(query);
    let na = chars_of(a.as_str());
    let nb = chars_of(b.as_str());
    chars_eq(na.as_slice(), nb.as_slice()) || ends_with(c.as_slice(), q.as_slice()) || ends_with(
        q.as_slice(),
        c.as_slice(),
    )
}

impl ComponentCatalog {
    /// The index of the first component that answers to `type_path`.
    pub fn find_index(&self, type_path: &str) -> (r: Option<usize>)
        ensures
            r matches Some(i) ==> find_component(self.components.deep_view(), type_path@) == Some(i as int)
                && i < self.components@.len(),
            r is None ==> find_component(self.components.deep_view(), type_path@) is None,
    {
        let ghost cs = self.components.deep_view();
        let mut k: usize = 0;
        while k < self.components.len()
            invariant
                k <= self.components@.len(),
                cs == self.components.deep_view(),
                find_from(cs, type_path@, k as int) == find_component(cs, type_path@),
            decreases self.components.len() - k,
        {
            assert(cs[k as int].type_path == self.components@[k as int].type_path@);
            if answers_to_exec(self.components[k].type_path.as_str(), type_path) {
                return Some(k);
            }
            k = k + 1;
        }
        None
    }

    /// The first component that answers to `type_path` (see [`answers_to`]).
    pub fn find(&self, type_path: &str) -> (r: Option<&ComponentDescriptor>)
        ensures
            r matches Some(c) ==> exists|i: int|
                find_component(self.components.deep_view(), type_path@) == Some(i) && c.deep_view()
                    == self.components.deep_view()[i],
            r is None ==> find_component(self.components.deep_view(), type_path@) is None,
    {
        match self.find_index(type_path) {
            Some(i) => {
                assert(self.components@[i as int].deep_view() == self.components.deep_view()[i as int]);
                Some(&self.components[i])
            },
            None => None,
        }
    }
}

} // verus!
