use vstd::prelude::*;

verus! {

/// The set of occupied path indices, backed by a `bit_set::BitSet`.
///
/// The backing collection is opaque to the verifier; its contents are
/// tracked through `occupied_set` and the method contracts below.
#[verifier::external_body]
pub struct OccupiedTiles {
    bits: bit_set::BitSet,
}

/// The set of integers an `OccupiedTiles` currently holds.
pub uninterp spec fn occupied_set(s: OccupiedTiles) -> Set<usize>;

impl OccupiedTiles {
    /// Relies on bit_set::BitSet::new: it creates an empty set.
    #[verifier::external_body]
    pub fn new() -> (r: Self)
        ensures
            occupied_set(r) == Set::<usize>::empty(),
    {
        Self { bits: bit_set::BitSet::new() }
    }

    /// Relies on bit_set::BitSet::with_capacity: it creates a set with no
    /// contents, sized to hold `nbits` elements without resizing.
    #[verifier::external_body]
    pub fn with_capacity(nbits: usize) -> (r: Self)
        ensures
            occupied_set(r) == Set::<usize>::empty(),
    {
        Self { bits: bit_set::BitSet::with_capacity(nbits) }
    }

    /// Relies on bit_set::BitSet::contains: it reports whether `value` is
    /// in the set.
    #[verifier::external_body]
    pub fn contains(&self, value: usize) -> (r: bool)
        ensures
            r == occupied_set(*self).contains(value),
    {
        self.bits.contains(value)
    }

    /// Relies on bit_set::BitSet::insert: it adds `value` to the set,
    /// growing the backing storage as needed, and reports whether the
    /// value was newly inserted.
    #[verifier::external_body]
    pub fn insert(&mut self, value: usize) -> (r: bool)
        ensures
            occupied_set(*final(self)) == occupied_set(*old(self)).insert(value),
            r == !occupied_set(*old(self)).contains(value),
    {
        self.bits.insert(value)
    }

    /// Relies on bit_set::BitSet::remove: it takes `value` out of the set
    /// and reports whether the value was present.
    #[verifier::external_body]
    pub fn remove(&mut self, value: usize) -> (r: bool)
        ensures
            occupied_set(*final(self)) == occupied_set(*old(self)).remove(value),
            r == occupied_set(*old(self)).contains(value),
    {
        self.bits.remove(value)
    }
}

} // verus!
