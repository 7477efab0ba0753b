//! A verified model of a bilateral token-swap escrow.
//!
//! A maker locks a quantity of one asset in a protocol-controlled custody
//! vault and advertises the quantity of a second asset wanted in return.
//! Any taker may atomically fulfill the trade, or the maker may reclaim the
//! locked funds before fulfillment.  Offers are identified by a per-maker
//! monotonic counter, and the vault for an offer is addressed by an authority
//! derived from the pair `(maker, id)`, so that no single private key can
//! move the locked funds.
//!
//! The crate is organised leaves first:
//! - [`table`]: generic reasoning about flat record lists with unique keys,
//!   viewed as maps;
//! - [`errors`]: the error taxonomy shared by every operation;
//! - [`bank`]: the fungible-token ledger (accounts, transfer, close);
//! - [`offer`] and [`maker_counter`]: the two persisted record kinds;
//! - [`lifecycle`]: the offer state machine as pure transition functions on
//!   an abstract view of the whole system, with its invariant;
//! - [`escrow`]: the executable state with `make_offer`, `take_offer` and
//!   `refund_offer`, each proved to implement its transition exactly;
//! - [`laws`]: proved consequences of the transitions, such as at-most-once
//!   settlement and maker-only cancellation.

pub mod bank;
pub mod errors;
pub mod escrow;
pub mod laws;
pub mod lifecycle;
pub mod maker_counter;
pub mod offer;
pub mod table;
