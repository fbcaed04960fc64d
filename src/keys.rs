//! The set of distinct share byte forms seen in one call, kept in a hashbrown set.
use vstd::prelude::*;

verus! {

/// A set of byte strings.
#[verifier::external_body]
pub struct KeySet {
    set: hashbrown::HashSet<Vec<u8>>,
}

/// The byte strings that a key set holds.
pub uninterp spec fn key_set_contents(s: KeySet) -> Set<Seq<u8>>;

impl KeySet {
    /// Relies on hashbrown::HashSet::new: a new set is empty.
    #[verifier::external_body]
    pub fn new() -> (r: KeySet)
        ensures
            key_set_contents(r) == Set::<Seq<u8>>::empty(),
    {
        KeySet { set: hashbrown::HashSet::new() }
    }

    /// Relies on hashbrown::HashSet::insert: afterwards the set also holds `key`,
    /// compared by `Vec<u8>` equality, that is by contents; the result says
    /// whether it was not held before.
    #[verifier::external_body]
    pub fn insert(&mut self, key: Vec<u8>) -> (r: bool)
        ensures
            key_set_contents(*final(self)) == key_set_contents(*old(self)).insert(key@),
            r == !key_set_contents(*old(self)).contains(key@),
    {
        self.set.insert(key)
    }

    /// Relies on hashbrown::HashSet::len: the number of distinct elements held.
    #[verifier::external_body]
    pub fn len(&self) -> (r: usize)
        ensures
            r == key_set_contents(*self).len(),
    {
        self.set.len()
    }
}

} // verus!
