//! The entries of JSON objects, in the order in which their keys first came.

use vstd::prelude::*;
use indexmap::IndexMap;
use crate::json::put;
use crate::value::{field_at, value_view, Value, ValueView};

verus! {

/// An `indexmap::IndexMap` from keys to values. It stands in a type of its own
/// because values hold such maps in turn.
#[verifier::external_body]
#[derive(Debug)]
pub struct Entries {
    map: IndexMap<String, Value>,
}

/// The entries that a map holds, in its order.
pub uninterp spec fn entries_of(e: Entries) -> Seq<(Seq<char>, ValueView)>;

impl Entries {
    /// `IndexMap::new`: a map without entries.
    #[verifier::external_body]
    pub(crate) fn new() -> (r: Entries)
        ensures
            entries_of(r) == Seq::<(Seq<char>, ValueView)>::empty(),
    {
        Entries { map: IndexMap::new() }
    }

    /// `IndexMap::insert`: a key that is there keeps its place and gets the new value;
    /// another key comes last.
    #[verifier::external_body]
    pub(crate) fn insert(&mut self, key: String, value: Value)
        ensures
            entries_of(*final(self)) == put(entries_of(*old(self)), key@, value_view(value)),
    {
        self.map.insert(key, value);
    }

    /// `IndexMap::len`: the number of entries.
    #[verifier::external_body]
    pub(crate) fn len(&self) -> (r: usize)
        ensures
            r == entries_of(*self).len(),
    {
        self.map.len()
    }

    /// `IndexMap::get_index`: the entry at a place of the order, which is the only one
    /// with its key.
    #[verifier::external_body]
    pub(crate) fn at(&self, i: usize) -> (r: Option<(&String, &Value)>)
        ensures
            match r {
                Some(p) => i < entries_of(*self).len()
                    && entries_of(*self)[i as int] == (p.0@, value_view(*p.1))
                    && field_at(entries_of(*self), p.0@, 0) == Some(i as int),
                None => i >= entries_of(*self).len(),
            },
    {
        self.map.get_index(i)
    }

    /// `IndexMap::get`: the value under a key.
    #[verifier::external_body]
    pub(crate) fn get(&self, key: &str) -> (r: Option<&Value>)
        ensures
            match field_at(entries_of(*self), key@, 0) {
                Some(k) => r matches Some(v) && value_view(*v) == entries_of(*self)[k].1,
                None => r is None,
            },
    {
        self.map.get(key)
    }
}

} // verus!
