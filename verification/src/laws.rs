use vstd::prelude::*;

use crate::bank::{bal, Holder};
use crate::errors::DealForgeError;
use crate::lifecycle::{
    counter_of, inv, lemma_fresh_offer_slot, make_id, make_ok, make_post, offer_ok, refund_err,
    refund_ok, refund_post, take_err, take_ok, take_post, vault_backed, EscrowView,
};
use crate::offer::Offer;

verus! {

// The protocol's laws, proved once and for all over the transition
// functions of `lifecycle`.  The executable operations are proved to follow
// those transitions exactly, and to leave the state untouched whenever they
// return an error, so each law below carries over to every run.

/// After any successful `open`: the fresh vault holds exactly the offered
/// amount, the maker's holding has decreased by exactly that amount, the
/// maker's counter has grown by exactly one, and the offer record exists
/// with the given terms.
pub proof fn lemma_open_effects(
    v: EscrowView,
    maker: u64,
    offered_mint: u64,
    requested_mint: u64,
    offered_amount: u64,
    requested_amount: u64,
)
    requires
        inv(v),
        make_ok(v, maker, offered_mint, requested_mint, offered_amount, requested_amount),
    ensures
        ({
            let id = make_id(v, maker);
            let vault = Holder::Vault { maker, id };
            let p = make_post(
                v,
                maker,
                offered_mint,
                requested_mint,
                offered_amount,
                requested_amount,
            );
            &&& p.balances.dom().contains((vault, offered_mint))
            &&& bal(p.balances, vault, offered_mint) == offered_amount
            &&& bal(p.balances, Holder::User(maker), offered_mint) == bal(
                v.balances,
                Holder::User(maker),
                offered_mint,
            ) - offered_amount
            &&& counter_of(p, maker) == counter_of(v, maker) + 1
            &&& p.offers.dom().contains((maker, id))
            &&& p.offers[(maker, id)] == (Offer {
                id,
                maker,
                offered_mint,
                requested_mint,
                offered_amount,
                requested_amount,
            })
        }),
{
    lemma_fresh_offer_slot(v, maker);
}

/// After any successful `fulfill` of an offer between distinct parties and
/// distinct assets: offer record and vault account are gone, the taker
/// gained exactly the offered amount of the offered asset, paid exactly the
/// requested amount of the requested asset, and the maker received exactly
/// that payment.
pub proof fn lemma_fulfill_effects(v: EscrowView, taker: u64, maker: u64, id: u64)
    requires
        inv(v),
        take_ok(v, taker, maker, id),
        taker != maker,
        v.offers[(maker, id)].offered_mint != v.offers[(maker, id)].requested_mint,
    ensures
        ({
            let o = v.offers[(maker, id)];
            let vault = Holder::Vault { maker, id };
            let p = take_post(v, taker, maker, id);
            &&& !p.offers.dom().contains((maker, id))
            &&& forall|m: u64| !p.balances.dom().contains(((Holder::Vault { maker, id }), m))
            &&& bal(p.balances, Holder::User(taker), o.offered_mint) == bal(
                v.balances,
                Holder::User(taker),
                o.offered_mint,
            ) + o.offered_amount
            &&& bal(p.balances, Holder::User(taker), o.requested_mint) == bal(
                v.balances,
                Holder::User(taker),
                o.requested_mint,
            ) - o.requested_amount
            &&& bal(p.balances, Holder::User(maker), o.requested_mint) == bal(
                v.balances,
                Holder::User(maker),
                o.requested_mint,
            ) + o.requested_amount
        }),
{
    let o = v.offers[(maker, id)];
    let vault = Holder::Vault { maker, id };
    let p = take_post(v, taker, maker, id);
    assert(offer_ok(v, (maker, id)));
    assert forall|m: u64| !p.balances.dom().contains(((Holder::Vault { maker, id }), m)) by {
        if m != o.offered_mint && v.balances.dom().contains(((Holder::Vault { maker, id }), m)) {
            assert(vault_backed(v, Holder::Vault { maker, id }, m));
        }
    }
}

/// After any successful `cancel`: offer record and vault account are gone,
/// and the maker's holding in the offered asset is restored by exactly the
/// offered amount — net zero against the state before the `open`.
pub proof fn lemma_cancel_effects(v: EscrowView, caller: u64, maker: u64, id: u64)
    requires
        inv(v),
        refund_ok(v, caller, maker, id),
    ensures
        ({
            let o = v.offers[(maker, id)];
            let p = refund_post(v, caller, maker, id);
            &&& !p.offers.dom().contains((maker, id))
            &&& forall|m: u64| !p.balances.dom().contains(((Holder::Vault { maker, id }), m))
            &&& bal(p.balances, Holder::User(o.maker), o.offered_mint) == bal(
                v.balances,
                Holder::User(o.maker),
                o.offered_mint,
            ) + o.offered_amount
        }),
{
    let o = v.offers[(maker, id)];
    let vault = Holder::Vault { maker, id };
    let p = refund_post(v, caller, maker, id);
    assert(offer_ok(v, (maker, id)));
    assert forall|m: u64| !p.balances.dom().contains(((Holder::Vault { maker, id }), m)) by {
        if m != o.offered_mint && v.balances.dom().contains(((Holder::Vault { maker, id }), m)) {
            assert(vault_backed(v, Holder::Vault { maker, id }, m));
        }
    }
}

/// Settlement is at most once: after a successful `fulfill`, every further
/// `fulfill` or `cancel` of the same `(maker, id)` is refused with
/// `OfferNotActive` — and a refused operation moves no funds, by the
/// operations' own contracts.
pub proof fn lemma_fulfill_is_terminal(v: EscrowView, taker: u64, maker: u64, id: u64)
    requires
        inv(v),
        take_ok(v, taker, maker, id),
    ensures
        forall|taker2: u64| !take_ok(take_post(v, taker, maker, id), taker2, maker, id),
        forall|taker2: u64|
            take_err(take_post(v, taker, maker, id), taker2, maker, id)
                == DealForgeError::OfferNotActive,
        forall|caller: u64| !refund_ok(take_post(v, taker, maker, id), caller, maker, id),
        forall|caller: u64|
            refund_err(take_post(v, taker, maker, id), caller, maker, id)
                == DealForgeError::OfferNotActive,
{
}

/// Settlement is at most once: after a successful `cancel`, every further
/// `fulfill` or `cancel` of the same `(maker, id)` is refused with
/// `OfferNotActive` — and a refused operation moves no funds, by the
/// operations' own contracts.
pub proof fn lemma_cancel_is_terminal(v: EscrowView, caller: u64, maker: u64, id: u64)
    requires
        inv(v),
        refund_ok(v, caller, maker, id),
    ensures
        forall|taker2: u64| !take_ok(refund_post(v, caller, maker, id), taker2, maker, id),
        forall|taker2: u64|
            take_err(refund_post(v, caller, maker, id), taker2, maker, id)
                == DealForgeError::OfferNotActive,
        forall|caller2: u64| !refund_ok(refund_post(v, caller, maker, id), caller2, maker, id),
        forall|caller2: u64|
            refund_err(refund_post(v, caller, maker, id), caller2, maker, id)
                == DealForgeError::OfferNotActive,
{
}

/// Only the recorded maker can cancel: any other identity is refused with
/// `UnauthorizedMaker` — and a refused operation leaves every balance
/// unchanged, by the operations' own contracts.
pub proof fn lemma_cancel_requires_recorded_maker(v: EscrowView, caller: u64, maker: u64, id: u64)
    requires
        inv(v),
        v.offers.dom().contains((maker, id)),
        caller != v.offers[(maker, id)].maker,
    ensures
        !refund_ok(v, caller, maker, id),
        refund_err(v, caller, maker, id) == DealForgeError::UnauthorizedMaker,
{
}

} // verus!
