use vstd::prelude::*;

verus! {

/// Every way an escrow request can be rejected.  All checks run before any
/// fund movement, so a request that returns one of these leaves every
/// balance and record exactly as it was.
///
/// A few variants are reserved for conditions that the current operations
/// never produce (for example `OfferExpired`: expiry is recorded nowhere and
/// never enforced); they are kept so that the taxonomy is stable for
/// callers.
#[derive(Clone, Copy, Debug, PartialEq, Eq, Structural)]
pub enum DealForgeError {
    /// A payer cannot cover the stated amount.
    InsufficientBalance,
    /// The token ledger refused a movement: the presented authority does not
    /// control the source account, or an account with a remaining balance
    /// was asked to close.
    TransferFailed,
    /// Reserved: an asset identifier did not name a live asset.
    InvalidSaleToken,
    /// Counter or balance arithmetic would overflow a 64-bit amount.
    CalculationOverflow,
    /// No live offer exists under the given `(maker, id)` pair: it was never
    /// opened, or it has already been fulfilled or canceled.
    OfferNotActive,
    /// Reserved: a request asked for more than the asset's total quantity.
    ExceedsAvailableQuantity,
    /// Reserved: a fulfillment raced an earlier fulfillment.  The live
    /// operations report this situation as `OfferNotActive`.
    OfferAlreadyFulfilled,
    /// Reserved: the offer's expiry has passed.
    OfferExpired,
    /// An offer was opened with a zero offered amount.
    InvalidOfferedMintAmount,
    /// An offer was opened with a zero requested amount.
    InvalidRequestedMintAmount,
    /// A cancel was attempted by an identity other than the recorded maker.
    UnauthorizedMaker,
}

} // verus!
