//! Small extensions over std containers that the merge flow leans
//! on: mapping an optional value across a conversion, and filling a hash-map
//! slot on first use.

use vstd::prelude::*;

verus! {

broadcast use vstd::std_specs::hash::group_hash_axioms;

/// Mapping an optional value across a conversion.
pub trait MapInto<T>: Sized {
    /// Whether a value is there to convert.
    spec fn holds_value(&self) -> bool;

    /// The value converted, when one is there.
    fn map_into(self) -> (r: Option<T>)
        ensures
            r is Some <==> self.holds_value(),
    ;
}

impl<T, U: From<T>> MapInto<U> for Option<T> {
    open spec fn holds_value(&self) -> bool {
        self is Some
    }

    fn map_into(self) -> (r: Option<U>) {
        match self {
            Some(t) => Some(U::from(t)),
            None => None,
        }
    }
}

/// A hash map from record form ids to values, with slot-filling helpers.
/// Form ids are plain integers, so the map's view enjoys the std hashing
/// axioms.
pub struct HashMap<V> {
    pub inner: std::collections::HashMap<u64, V>,
}

impl<V> HashMap<V> {
    /// An empty map.
    pub fn new() -> (r: Self)
        ensures
            r.inner@ == Map::<u64, V>::empty(),
    {
        HashMap { inner: std::collections::HashMap::new() }
    }

    /// Installs `make`'s value under `key` when the key is absent; an
    /// occupied slot is left alone.
    pub fn get_or_insert_with<F: FnOnce() -> V>(&mut self, key: u64, make: F)
        requires
            call_requires(make, ()),
        ensures
            final (self).inner@.dom().contains(key),
            old(self).inner@.dom().contains(key) ==> final (self).inner@ == old(self).inner@,
            !old(self).inner@.dom().contains(key) ==> exists|v: V|
                #[trigger] call_ensures(make, (), v) && final (self).inner@ == old(
                    self,
                ).inner@.insert(key, v),
    {
        if !self.inner.contains_key(&key) {
            let v = make();
            self.inner.insert(key, v);
        }
    }

    /// Installs the default value under `key` when the key is absent; an
    /// occupied slot is left alone.
    pub fn get_or_insert_default(&mut self, key: u64) -> (r: ()) where V: Default
        ensures
            final (self).inner@.dom().contains(key),
            old(self).inner@.dom().contains(key) ==> final (self).inner@ == old(self).inner@,
            !old(self).inner@.dom().contains(key) ==> exists|v: V| final (self).inner@ == old(
                self,
            ).inner@.insert(key, v),
    {
        if !self.inner.contains_key(&key) {
            let v = V::default();
            self.inner.insert(key, v);
        }
    }
}

} // verus!
