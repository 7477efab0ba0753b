use vstd::prelude::*;

verus! {

/// The per-maker source of offer identifiers.
///
/// Created on a maker's first offer, never deleted, and incremented by
/// exactly one inside the same atomic request that creates an offer, so a
/// maker's identifiers are strictly increasing and never reused — even
/// across fulfill and cancel cycles.
#[derive(Clone, Copy, Debug, PartialEq, Eq, Structural)]
pub struct MakerCounter {
    /// The maker this counter belongs to.
    pub maker: u64,
    /// The identifier the maker's next offer will receive; starts at zero.
    pub id: u64,
}

/// The key under which a counter record is stored.
pub open spec fn counter_keyf() -> spec_fn(MakerCounter) -> u64 {
    |c: MakerCounter| c.maker
}

/// The value a counter record carries.
pub open spec fn counter_valf() -> spec_fn(MakerCounter) -> u64 {
    |c: MakerCounter| c.id
}

} // verus!
