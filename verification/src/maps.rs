//! The hash maps of `hashbrown`, as far as this library uses them.
//!
//! Verus does not look inside a `hashbrown::HashMap`. Each map is therefore
//! held in a struct whose contents have a name, and the few methods that the
//! library calls are stated over that name.

use vstd::prelude::*;

use crate::nucc::views;

verus! {

/// From the place of an entry, as clump and slot, to a position in a list.
#[verifier::external_body]
pub struct CoordIndex {
    map: hashbrown::HashMap<(i16, u16), usize>,
}

/// What a `CoordIndex` holds.
pub uninterp spec fn coord_index_contents(index: &CoordIndex) -> Map<(i16, u16), usize>;

impl CoordIndex {
    /// `HashMap::new`: a map that holds nothing.
    #[verifier::external_body]
    pub(crate) fn new() -> (r: CoordIndex)
        ensures
            forall|key: (i16, u16)| !coord_index_contents(&r).contains_key(key),
    {
        CoordIndex { map: hashbrown::HashMap::new() }
    }

    /// `HashMap::try_insert`: enters `value` under `key` unless the key is
    /// taken, in which case the map stays as it is. Tells whether the value
    /// was entered.
    #[verifier::external_body]
    pub(crate) fn try_insert(&mut self, key: (i16, u16), value: usize) -> (r: bool)
        ensures
            r == !coord_index_contents(old(self)).contains_key(key),
            r ==> coord_index_contents(final(self)) == coord_index_contents(old(self)).insert(
                key,
                value,
            ),
            !r ==> coord_index_contents(final(self)) == coord_index_contents(old(self)),
    {
        self.map.try_insert(key, value).is_ok()
    }

    /// `HashMap::get`: the value under `key`, if there is one.
    #[verifier::external_body]
    pub(crate) fn get(&self, key: (i16, u16)) -> (r: Option<usize>)
        ensures
            r == (if coord_index_contents(self).contains_key(key) {
                Some(coord_index_contents(self)[key])
            } else {
                None
            }),
    {
        self.map.get(&key).copied()
    }
}

/// From a key made of texts to a number.
#[verifier::external_body]
pub struct TextIndex {
    map: hashbrown::HashMap<Vec<String>, u32>,
}

/// What a `TextIndex` holds, each key as the texts it is made of.
pub uninterp spec fn text_index_contents(index: &TextIndex) -> Map<Seq<Seq<char>>, u32>;

impl TextIndex {
    /// `HashMap::new`: a map that holds nothing.
    #[verifier::external_body]
    pub(crate) fn new() -> (r: TextIndex)
        ensures
            forall|key: Seq<Seq<char>>| !text_index_contents(&r).contains_key(key),
    {
        TextIndex { map: hashbrown::HashMap::new() }
    }

    /// `HashMap::get`: the value under `key`, if there is one. Two keys are
    /// the same key when they are made of the same texts in the same order.
    #[verifier::external_body]
    pub(crate) fn get(&self, key: &Vec<String>) -> (r: Option<u32>)
        ensures
            r == (if text_index_contents(self).contains_key(views(key@)) {
                Some(text_index_contents(self)[views(key@)])
            } else {
                None
            }),
    {
        self.map.get(key).copied()
    }

    /// `HashMap::insert`: enters `value` under `key`, in place of what was
    /// there under that key, and gives what was there.
    #[verifier::external_body]
    pub(crate) fn insert(&mut self, key: Vec<String>, value: u32) -> (r: Option<u32>)
        ensures
            text_index_contents(final(self)) == text_index_contents(old(self)).insert(
                views(key@),
                value,
            ),
            r == (if text_index_contents(old(self)).contains_key(views(key@)) {
                Some(text_index_contents(old(self))[views(key@)])
            } else {
                None
            }),
    {
        self.map.insert(key, value)
    }
}

} // verus!
