use vstd::prelude::*;

use crate::bank::{apply_transfer, bal, Balances, Holder};
use crate::errors::DealForgeError;
use crate::offer::Offer;

verus! {

// The offer state machine, as pure functions on an abstract view of the
// durable state.  Each of the three operations has a success predicate
// (`*_ok`), the error a refused request reports (`*_err`), and the state a
// successful request leaves behind (`*_post`).  The executable operations
// are proved to follow these functions exactly, and every property of the
// protocol is a consequence of them together with the invariant `inv`.

/// Everything durable, as contracts see it: token balances, live offers
/// keyed by `(maker, id)`, and each maker's next identifier.
#[verifier::ext_equal]
pub ghost struct EscrowView {
    pub balances: Balances,
    pub offers: Map<(u64, u64), Offer>,
    pub counters: Map<u64, u64>,
}

/// The identifier the maker's next offer will receive; zero before the
/// maker's counter exists.
pub open spec fn counter_of(v: EscrowView, maker: u64) -> u64 {
    if v.counters.dom().contains(maker) {
        v.counters[maker]
    } else {
        0
    }
}

/// What holds of every live offer: its key fields agree with its storage
/// key, both amounts are positive, its vault holds exactly the offered
/// amount of the offered asset, and its identifier lies strictly below the
/// maker's counter (so it can never be handed out again).
pub open spec fn offer_ok(v: EscrowView, k: (u64, u64)) -> bool {
    let o = v.offers[k];
    let vault = Holder::Vault { maker: k.0, id: k.1 };
    &&& o.maker == k.0
    &&& o.id == k.1
    &&& o.offered_amount > 0
    &&& o.requested_amount > 0
    &&& v.balances.dom().contains((vault, o.offered_mint))
    &&& v.balances[(vault, o.offered_mint)] == o.offered_amount
    &&& v.counters.dom().contains(k.0)
    &&& k.1 < v.counters[k.0]
}

/// A vault account exists only while its offer lives, and only in that
/// offer's offered asset; user accounts are unconstrained.
pub open spec fn vault_backed(v: EscrowView, h: Holder, m: u64) -> bool {
    match h {
        Holder::Vault { maker, id } => v.offers.dom().contains((maker, id)) && v.offers[
            (maker, id)
        ].offered_mint == m,
        Holder::User(_) => true,
    }
}

/// The system invariant, established by the empty state and preserved by
/// every operation.
pub open spec fn inv(v: EscrowView) -> bool {
    &&& forall|k: (u64, u64)| #[trigger] v.offers.dom().contains(k) ==> offer_ok(v, k)
    &&& forall|hm: (Holder, u64)| #[trigger]
        v.balances.dom().contains(hm) ==> vault_backed(v, hm.0, hm.1)
}

// ---------------------------------------------------------------------
// open

/// When an `open` request succeeds: positive amounts, the maker covers the
/// offered amount, and the maker's counter can still be incremented.
pub open spec fn make_ok(
    v: EscrowView,
    maker: u64,
    offered_mint: u64,
    requested_mint: u64,
    offered_amount: u64,
    requested_amount: u64,
) -> bool {
    &&& offered_amount > 0
    &&& requested_amount > 0
    &&& bal(v.balances, Holder::User(maker), offered_mint) >= offered_amount
    &&& counter_of(v, maker) < u64::MAX
}

/// The error a refused `open` reports, in the order the checks run.
pub open spec fn make_err(
    v: EscrowView,
    maker: u64,
    offered_mint: u64,
    requested_mint: u64,
    offered_amount: u64,
    requested_amount: u64,
) -> DealForgeError {
    if offered_amount == 0 {
        DealForgeError::InvalidOfferedMintAmount
    } else if requested_amount == 0 {
        DealForgeError::InvalidRequestedMintAmount
    } else if bal(v.balances, Holder::User(maker), offered_mint) < offered_amount {
        DealForgeError::InsufficientBalance
    } else {
        DealForgeError::CalculationOverflow
    }
}

/// The identifier a successful `open` assigns.
pub open spec fn make_id(v: EscrowView, maker: u64) -> u64 {
    counter_of(v, maker)
}

/// The state after a successful `open`: the offered amount has moved from
/// the maker into a fresh vault, the offer record exists, and the maker's
/// counter has grown by exactly one.
pub open spec fn make_post(
    v: EscrowView,
    maker: u64,
    offered_mint: u64,
    requested_mint: u64,
    offered_amount: u64,
    requested_amount: u64,
) -> EscrowView {
    let id = counter_of(v, maker);
    let vault = Holder::Vault { maker, id };
    EscrowView {
        balances: apply_transfer(
            v.balances,
            Holder::User(maker),
            vault,
            offered_mint,
            offered_amount,
        ),
        offers: v.offers.insert(
            (maker, id),
            Offer { id, maker, offered_mint, requested_mint, offered_amount, requested_amount },
        ),
        counters: v.counters.insert(maker, (counter_of(v, maker) + 1) as u64),
    }
}

// ---------------------------------------------------------------------
// fulfill

/// When a `fulfill` request succeeds: the offer lives, the taker covers the
/// requested amount, and neither credit (maker's payment, taker's delivery)
/// overflows its destination account.
pub open spec fn take_ok(v: EscrowView, taker: u64, maker: u64, id: u64) -> bool {
    &&& v.offers.dom().contains((maker, id))
    &&& {
        let o = v.offers[(maker, id)];
        let vault = Holder::Vault { maker, id };
        let b1 = apply_transfer(
            v.balances,
            Holder::User(taker),
            Holder::User(maker),
            o.requested_mint,
            o.requested_amount,
        );
        &&& bal(v.balances, Holder::User(taker), o.requested_mint) >= o.requested_amount
        &&& (taker == maker || bal(v.balances, Holder::User(maker), o.requested_mint)
            + o.requested_amount <= u64::MAX)
        &&& bal(b1, Holder::User(taker), o.offered_mint) + bal(b1, vault, o.offered_mint)
            <= u64::MAX
    }
}

/// The error a refused `fulfill` reports, in the order the checks run.
pub open spec fn take_err(v: EscrowView, taker: u64, maker: u64, id: u64) -> DealForgeError {
    if !v.offers.dom().contains((maker, id)) {
        DealForgeError::OfferNotActive
    } else if bal(v.balances, Holder::User(taker), v.offers[(maker, id)].requested_mint)
        < v.offers[(maker, id)].requested_amount {
        DealForgeError::InsufficientBalance
    } else {
        DealForgeError::CalculationOverflow
    }
}

/// The state after a successful `fulfill`: payment moved from taker to
/// maker, the vault's entire holding moved to the taker, the vault account
/// is closed and the offer record deleted.
pub open spec fn take_post(v: EscrowView, taker: u64, maker: u64, id: u64) -> EscrowView {
    let o = v.offers[(maker, id)];
    let vault = Holder::Vault { maker, id };
    let b1 = apply_transfer(
        v.balances,
        Holder::User(taker),
        Holder::User(maker),
        o.requested_mint,
        o.requested_amount,
    );
    let vb = bal(b1, vault, o.offered_mint);
    let b2 = apply_transfer(b1, vault, Holder::User(taker), o.offered_mint, vb);
    EscrowView {
        balances: b2.remove((vault, o.offered_mint)),
        offers: v.offers.remove((maker, id)),
        counters: v.counters,
    }
}

// ---------------------------------------------------------------------
// cancel

/// When a `cancel` request succeeds: the offer lives, the caller is the
/// recorded maker, and restoring the locked funds does not overflow the
/// maker's account.
pub open spec fn refund_ok(v: EscrowView, caller: u64, maker: u64, id: u64) -> bool {
    &&& v.offers.dom().contains((maker, id))
    &&& {
        let o = v.offers[(maker, id)];
        let vault = Holder::Vault { maker, id };
        &&& caller == o.maker
        &&& bal(v.balances, Holder::User(o.maker), o.offered_mint) + bal(
            v.balances,
            vault,
            o.offered_mint,
        ) <= u64::MAX
    }
}

/// The error a refused `cancel` reports, in the order the checks run.
pub open spec fn refund_err(v: EscrowView, caller: u64, maker: u64, id: u64) -> DealForgeError {
    if !v.offers.dom().contains((maker, id)) {
        DealForgeError::OfferNotActive
    } else if caller != v.offers[(maker, id)].maker {
        DealForgeError::UnauthorizedMaker
    } else {
        DealForgeError::CalculationOverflow
    }
}

/// The state after a successful `cancel`: the vault's entire holding is
/// back with the maker, the vault account is closed and the offer record
/// deleted.  The maker's counter stays where it is, so the identifier is
/// spent for good.
pub open spec fn refund_post(v: EscrowView, caller: u64, maker: u64, id: u64) -> EscrowView {
    let o = v.offers[(maker, id)];
    let vault = Holder::Vault { maker, id };
    let vb = bal(v.balances, vault, o.offered_mint);
    let b1 = apply_transfer(v.balances, vault, Holder::User(o.maker), o.offered_mint, vb);
    EscrowView {
        balances: b1.remove((vault, o.offered_mint)),
        offers: v.offers.remove((maker, id)),
        counters: v.counters,
    }
}

// ---------------------------------------------------------------------
// invariant preservation

/// Under the invariant, the slot the maker's counter points at is free: no
/// offer record and no vault account in any mint.
pub proof fn lemma_fresh_offer_slot(v: EscrowView, maker: u64)
    requires
        inv(v),
    ensures
        !v.offers.dom().contains((maker, counter_of(v, maker))),
        forall|m: u64|
            !v.balances.dom().contains(((Holder::Vault { maker, id: counter_of(v, maker) }), m)),
{
    let id = counter_of(v, maker);
    if v.offers.dom().contains((maker, id)) {
        assert(offer_ok(v, (maker, id)));
        assert(false);
    }
    assert forall|m: u64| !v.balances.dom().contains(
        ((Holder::Vault { maker, id }), m),
    ) by {
        if v.balances.dom().contains(((Holder::Vault { maker, id }), m)) {
            assert(vault_backed(v, Holder::Vault { maker, id }, m));
            assert(false);
        }
    }
}

/// A successful `open` preserves the invariant.
pub proof fn lemma_make_preserves_inv(
    v: EscrowView,
    maker: u64,
    offered_mint: u64,
    requested_mint: u64,
    offered_amount: u64,
    requested_amount: u64,
)
    requires
        inv(v),
        make_ok(v, maker, offered_mint, requested_mint, offered_amount, requested_amount),
    ensures
        inv(make_post(v, maker, offered_mint, requested_mint, offered_amount, requested_amount)),
{
    let id = counter_of(v, maker);
    let vault = Holder::Vault { maker, id };
    let p = make_post(v, maker, offered_mint, requested_mint, offered_amount, requested_amount);
    lemma_fresh_offer_slot(v, maker);
    assert(bal(v.balances, vault, offered_mint) == 0);
    assert forall|k: (u64, u64)| #[trigger] p.offers.dom().contains(k) implies offer_ok(p, k) by {
        if k == (maker, id) {
            assert(p.balances[(vault, offered_mint)] == offered_amount);
        } else {
            assert(v.offers.dom().contains(k));
            assert(offer_ok(v, k));
            let kvault = Holder::Vault { maker: k.0, id: k.1 };
            let o = v.offers[k];
            assert(kvault != vault);
            assert(p.balances.dom().contains((kvault, o.offered_mint)));
            assert(p.balances[(kvault, o.offered_mint)] == o.offered_amount);
            if k.0 == maker {
                assert(v.counters.dom().contains(maker));
                assert(k.1 < v.counters[maker]);
            }
        }
    }
    assert forall|hm: (Holder, u64)| #[trigger] p.balances.dom().contains(hm) implies vault_backed(
        p,
        hm.0,
        hm.1,
    ) by {
        if hm == ((vault, offered_mint)) {
        } else if hm == ((Holder::User(maker), offered_mint)) {
        } else {
            assert(v.balances.dom().contains(hm));
            assert(vault_backed(v, hm.0, hm.1));
            match hm.0 {
                Holder::Vault { maker: a, id: b } => {
                    assert((a, b) != (maker, id));
                },
                Holder::User(_) => {},
            }
        }
    }
}

/// A successful `fulfill` preserves the invariant.
pub proof fn lemma_take_preserves_inv(v: EscrowView, taker: u64, maker: u64, id: u64)
    requires
        inv(v),
        take_ok(v, taker, maker, id),
    ensures
        inv(take_post(v, taker, maker, id)),
{
    let o = v.offers[(maker, id)];
    let vault = Holder::Vault { maker, id };
    let p = take_post(v, taker, maker, id);
    assert(offer_ok(v, (maker, id)));
    assert forall|k: (u64, u64)| #[trigger] p.offers.dom().contains(k) implies offer_ok(p, k) by {
        assert(v.offers.dom().contains(k));
        assert(offer_ok(v, k));
        assert(k != (maker, id));
        let kvault = Holder::Vault { maker: k.0, id: k.1 };
        let ko = v.offers[k];
        assert(kvault != vault);
        assert(p.balances.dom().contains((kvault, ko.offered_mint)));
        assert(p.balances[(kvault, ko.offered_mint)] == ko.offered_amount);
    }
    assert forall|hm: (Holder, u64)| #[trigger] p.balances.dom().contains(hm) implies vault_backed(
        p,
        hm.0,
        hm.1,
    ) by {
        match hm.0 {
            Holder::Vault { maker: a, id: b } => {
                assert(hm != ((vault, o.offered_mint)));
                assert(v.balances.dom().contains(hm));
                assert(vault_backed(v, hm.0, hm.1));
                if (a, b) == (maker, id) {
                    // the only vault account of this offer was removed
                    assert(hm.1 == o.offered_mint);
                    assert(false);
                }
            },
            Holder::User(_) => {},
        }
    }
}

/// A successful `cancel` preserves the invariant.
pub proof fn lemma_refund_preserves_inv(v: EscrowView, caller: u64, maker: u64, id: u64)
    requires
        inv(v),
        refund_ok(v, caller, maker, id),
    ensures
        inv(refund_post(v, caller, maker, id)),
{
    let o = v.offers[(maker, id)];
    let vault = Holder::Vault { maker, id };
    let p = refund_post(v, caller, maker, id);
    assert(offer_ok(v, (maker, id)));
    assert forall|k: (u64, u64)| #[trigger] p.offers.dom().contains(k) implies offer_ok(p, k) by {
        assert(v.offers.dom().contains(k));
        assert(offer_ok(v, k));
        assert(k != (maker, id));
        let kvault = Holder::Vault { maker: k.0, id: k.1 };
        let ko = v.offers[k];
        assert(kvault != vault);
        assert(p.balances.dom().contains((kvault, ko.offered_mint)));
        assert(p.balances[(kvault, ko.offered_mint)] == ko.offered_amount);
    }
    assert forall|hm: (Holder, u64)| #[trigger] p.balances.dom().contains(hm) implies vault_backed(
        p,
        hm.0,
        hm.1,
    ) by {
        match hm.0 {
            Holder::Vault { maker: a, id: b } => {
                assert(hm != ((vault, o.offered_mint)));
                assert(v.balances.dom().contains(hm));
                assert(vault_backed(v, hm.0, hm.1));
                if (a, b) == (maker, id) {
                    assert(hm.1 == o.offered_mint);
                    assert(false);
                }
            },
            Holder::User(_) => {},
        }
    }
}

} // verus!
