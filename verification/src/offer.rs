use vstd::prelude::*;

verus! {

/// One live trade offer.
///
/// A stored record *is* an active offer: both terminal outcomes (fulfilled,
/// canceled) delete the record and close its vault, so the record's
/// existence is the mutual-exclusion token that makes settlement at most
/// once.  No status tag is stored, and no identifier is ever reused, so a
/// missing record answers every later request uniformly.
///
/// All fields are immutable from creation to deletion.
#[derive(Clone, Copy, Debug, PartialEq, Eq, Structural)]
pub struct Offer {
    /// This maker's sequence number for the offer; unique per `(maker, id)`.
    pub id: u64,
    /// The identity that created the offer and locked the offered funds.
    pub maker: u64,
    /// The asset locked in the vault.
    pub offered_mint: u64,
    /// The asset the maker demands in return.
    pub requested_mint: u64,
    /// How many units of `offered_mint` the vault holds; positive.
    pub offered_amount: u64,
    /// How many units of `requested_mint` fulfillment costs; positive.
    pub requested_amount: u64,
}

/// The key under which an offer record is stored.
pub open spec fn offer_keyf() -> spec_fn(Offer) -> (u64, u64) {
    |o: Offer| (o.maker, o.id)
}

/// The value an offer record carries: the whole record.
pub open spec fn offer_valf() -> spec_fn(Offer) -> Offer {
    |o: Offer| o
}

} // verus!
