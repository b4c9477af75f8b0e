//! Map from manager name to its list of items, held in a `hashbrown` map.

use vstd::prelude::*;

verus! {

/// A map from manager name to that manager's item identifiers.
#[verifier::external_body]
pub struct ManagerMap {
    inner: hashbrown::HashMap<String, Vec<String>>,
}

/// What a manager map holds: each manager name with its item identifiers.
pub uninterp spec fn map_contents(m: ManagerMap) -> Map<Seq<char>, Seq<Seq<char>>>;

/// Whether the views of a list of strings are pairwise distinct.
pub open spec fn distinct_views(s: Seq<Seq<char>>) -> bool {
    forall|i: int, j: int| 0 <= i < s.len() && 0 <= j < s.len() && i != j ==> s[i] != s[j]
}

/// The contents of a map without managers.
pub open spec fn no_managers() -> Map<Seq<char>, Seq<Seq<char>>> {
    Map::empty()
}

impl ManagerMap {
    /// Relies on hashbrown's `HashMap::new`: the new map is empty.
    #[verifier::external_body]
    pub fn new() -> (r: ManagerMap)
        ensures
            map_contents(r) == no_managers(),
    {
        ManagerMap { inner: hashbrown::HashMap::new() }
    }

    /// Relies on hashbrown's `HashMap::insert`: the key now maps to the
    /// given items, every other key is unchanged.
    #[verifier::external_body]
    pub fn insert(&mut self, name: String, items: Vec<String>)
        ensures
            map_contents(*final(self)) == map_contents(*old(self)).insert(name@, items.deep_view()),
    {
        self.inner.insert(name, items);
    }

    /// Relies on hashbrown's `HashMap::get`: the items under the key, if
    /// the key is present.
    #[verifier::external_body]
    pub fn get(&self, name: &String) -> (r: Option<&Vec<String>>)
        ensures
            match r {
                Some(v) => map_contents(*self).contains_key(name@) && v.deep_view()
                    == map_contents(*self)[name@],
                None => !map_contents(*self).contains_key(name@),
            },
    {
        self.inner.get(name)
    }

    /// Relies on hashbrown's `HashMap::contains_key`.
    #[verifier::external_body]
    pub fn contains_key(&self, name: &String) -> (r: bool)
        ensures
            r == map_contents(*self).contains_key(name@),
    {
        self.inner.contains_key(name)
    }

    /// Relies on hashbrown's `HashMap::keys`: every key once, in an order
    /// that the map does not fix.
    #[verifier::external_body]
    pub fn keys(&self) -> (r: Vec<String>)
        ensures
            distinct_views(r.deep_view()),
            forall|k: Seq<char>|
                map_contents(*self).contains_key(k) <==> r.deep_view().contains(k),
    {
        self.inner.keys().cloned().collect()
    }
}

} // verus!
