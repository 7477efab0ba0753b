use vstd::prelude::*;

use crate::bank::{
    apply_transfer, bal, can_close, can_transfer, derive_vault, Authority, Bank, Holder,
};
use crate::errors::DealForgeError;
use crate::lifecycle::{
    counter_of, inv, lemma_fresh_offer_slot, lemma_make_preserves_inv, lemma_refund_preserves_inv,
    lemma_take_preserves_inv, make_err, make_id, make_ok, make_post, offer_ok, refund_err,
    refund_ok, refund_post, take_err, take_ok, take_post, vault_backed, EscrowView,
};
use crate::maker_counter::{counter_keyf, counter_valf, MakerCounter};
use crate::offer::{offer_keyf, offer_valf, Offer};
use crate::table::{
    has_key, lemma_map_of_at, lemma_map_of_dom, lemma_map_of_empty, lemma_map_of_push,
    lemma_map_of_remove, lemma_map_of_update, map_of, uniq_keys,
};

verus! {

/// The whole escrow: the token ledger, the live offer records, and the
/// per-maker counters.  Every operation checks its preconditions before it
/// moves anything, so a refused request leaves the state untouched — record
/// existence alone serves as the mutual-exclusion token between a fulfill
/// and a cancel racing for the same offer.
pub struct Escrow {
    bank: Bank,
    offers: Vec<Offer>,
    counters: Vec<MakerCounter>,
}

impl View for Escrow {
    type V = EscrowView;

    closed spec fn view(&self) -> EscrowView {
        EscrowView {
            balances: self.bank@,
            offers: map_of(self.offers@, offer_keyf(), offer_valf()),
            counters: map_of(self.counters@, counter_keyf(), counter_valf()),
        }
    }
}

impl Escrow {
    /// Well-formed storage (one record per key) satisfying the system
    /// invariant [`inv`].
    pub closed spec fn wf(&self) -> bool {
        &&& self.bank.wf()
        &&& uniq_keys(self.offers@, offer_keyf())
        &&& uniq_keys(self.counters@, counter_keyf())
        &&& inv(self@)
    }

    /// A fresh escrow: no accounts, no offers, no counters.
    pub fn new() -> (e: Escrow)
        ensures
            e.wf(),
            e@.balances == Map::<(Holder, u64), u64>::empty(),
            e@.offers == Map::<(u64, u64), Offer>::empty(),
            e@.counters == Map::<u64, u64>::empty(),
    {
        let e = Escrow { bank: Bank::new(), offers: Vec::new(), counters: Vec::new() };
        proof {
            lemma_map_of_empty(e.offers@, offer_keyf(), offer_valf());
            lemma_map_of_empty(e.counters@, counter_keyf(), counter_valf());
        }
        e
    }

    /// The balance `h` holds in `mint`; zero when no account exists.
    pub fn balance_of(&self, h: Holder, mint: u64) -> (r: u64)
        requires
            self.wf(),
        ensures
            r == bal(self@.balances, h, mint),
    {
        self.bank.balance_of(h, mint)
    }

    /// Whether an account of `h` in `mint` exists, even with balance zero.
    pub fn account_exists(&self, h: Holder, mint: u64) -> (r: bool)
        requires
            self.wf(),
        ensures
            r == self@.balances.dom().contains((h, mint)),
    {
        self.bank.account_exists(h, mint)
    }

    /// Credits `amount` fresh units of `mint` to the user `user`.  Stands
    /// for the asset issuer's emission, which provisions the holdings that
    /// offers are later opened and fulfilled against.
    pub fn mint_to(&mut self, user: u64, mint: u64, amount: u64) -> (r: Result<
        (),
        DealForgeError,
    >)
        requires
            old(self).wf(),
        ensures
            final(self).wf(),
            final(self)@.offers == old(self)@.offers,
            final(self)@.counters == old(self)@.counters,
            (match r {
                Ok(_) => bal(old(self)@.balances, Holder::User(user), mint) + amount <= u64::MAX
                    && final(self)@.balances == old(self)@.balances.insert(
                    (Holder::User(user), mint),
                    (bal(old(self)@.balances, Holder::User(user), mint) + amount) as u64,
                ),
                Err(e) => bal(old(self)@.balances, Holder::User(user), mint) + amount > u64::MAX
                    && e == DealForgeError::CalculationOverflow && final(self)@.balances == old(
                    self,
                )@.balances,
            }),
    {
        let ghost v0 = self@;
        let r = self.bank.mint_to(Holder::User(user), mint, amount);
        proof {
            let p = self@;
            assert forall|k: (u64, u64)| #[trigger] p.offers.dom().contains(k) implies offer_ok(
                p,
                k,
            ) by {
                assert(offer_ok(v0, k));
            }
            assert forall|hm: (Holder, u64)| #[trigger]
                p.balances.dom().contains(hm) implies vault_backed(p, hm.0, hm.1) by {
                if hm != ((Holder::User(user), mint)) {
                    assert(v0.balances.dom().contains(hm));
                    assert(vault_backed(v0, hm.0, hm.1));
                }
            }
        }
        r
    }

    /// The position of the offer record under `(maker, id)`, if present.
    fn find_offer(&self, maker: u64, id: u64) -> (r: Option<usize>)
        ensures
            (match r {
                Some(i) => i < self.offers@.len() && self.offers@[i as int].maker == maker
                    && self.offers@[i as int].id == id,
                None => !has_key(self.offers@, offer_keyf(), (maker, id)),
            }),
    {
        let n = self.offers.len();
        let mut i: usize = 0;
        while i < n
            invariant
                n == self.offers@.len(),
                i <= n,
                forall|j: int|
                    0 <= j < i ==> !(self.offers@[j].maker == maker && self.offers@[j].id == id),
            decreases n - i,
        {
            let o = self.offers[i];
            if o.maker == maker && o.id == id {
                return Some(i);
            }
            i = i + 1;
        }
        proof {
            assert forall|j: int| 0 <= j < self.offers@.len() implies offer_keyf()(
                self.offers@[j],
            ) != (maker, id) by {
                assert(offer_keyf()(self.offers@[j]) == (self.offers@[j].maker, self.offers@[j].id));
            }
        }
        None
    }

    /// The position of the counter record of `maker`, if present.
    fn find_counter(&self, maker: u64) -> (r: Option<usize>)
        ensures
            (match r {
                Some(i) => i < self.counters@.len() && self.counters@[i as int].maker == maker,
                None => !has_key(self.counters@, counter_keyf(), maker),
            }),
    {
        let n = self.counters.len();
        let mut i: usize = 0;
        while i < n
            invariant
                n == self.counters@.len(),
                i <= n,
                forall|j: int| 0 <= j < i ==> self.counters@[j].maker != maker,
            decreases n - i,
        {
            let c = self.counters[i];
            if c.maker == maker {
                return Some(i);
            }
            i = i + 1;
        }
        proof {
            assert forall|j: int| 0 <= j < self.counters@.len() implies counter_keyf()(
                self.counters@[j],
            ) != maker by {
                assert(counter_keyf()(self.counters@[j]) == self.counters@[j].maker);
            }
        }
        None
    }

    /// The identifier the maker's next offer will receive.
    pub fn next_offer_id(&self, maker: u64) -> (r: u64)
        requires
            self.wf(),
        ensures
            r == counter_of(self@, maker),
    {
        match self.find_counter(maker) {
            Some(i) => {
                proof {
                    assert(counter_keyf()(self.counters@[i as int]) == maker);
                    assert(counter_valf()(self.counters@[i as int])
                        == self.counters@[i as int].id);
                    lemma_map_of_at(self.counters@, counter_keyf(), counter_valf(), i as int);
                }
                self.counters[i].id
            },
            None => {
                proof {
                    lemma_map_of_dom(self.counters@, counter_keyf(), counter_valf(), maker);
                }
                0
            },
        }
    }

    /// The live offer stored under `(maker, id)`, if any.
    pub fn get_offer(&self, maker: u64, id: u64) -> (r: Option<Offer>)
        requires
            self.wf(),
        ensures
            (match r {
                Some(o) => self@.offers.dom().contains((maker, id)) && o == self@.offers[
                    (maker, id)
                ],
                None => !self@.offers.dom().contains((maker, id)),
            }),
    {
        match self.find_offer(maker, id) {
            Some(i) => {
                proof {
                    assert(offer_keyf()(self.offers@[i as int]) == (maker, id));
                    assert(offer_valf()(self.offers@[i as int]) == self.offers@[i as int]);
                    lemma_map_of_at(self.offers@, offer_keyf(), offer_valf(), i as int);
                }
                Some(self.offers[i])
            },
            None => {
                proof {
                    lemma_map_of_dom(self.offers@, offer_keyf(), offer_valf(), (maker, id));
                }
                None
            },
        }
    }

    /// Opens an offer: captures the maker's next identifier, increments the
    /// counter, locks `offered_amount` of `offered_mint` in the offer's
    /// fresh vault under the maker's own signature, and records the offer.
    /// Returns the new identifier.
    pub fn make_offer(
        &mut self,
        maker: u64,
        offered_mint: u64,
        requested_mint: u64,
        offered_amount: u64,
        requested_amount: u64,
    ) -> (r: Result<u64, DealForgeError>)
        requires
            old(self).wf(),
        ensures
            final(self).wf(),
            (match r {
                Ok(id) => make_ok(
                    old(self)@,
                    maker,
                    offered_mint,
                    requested_mint,
                    offered_amount,
                    requested_amount,
                ) && id == make_id(old(self)@, maker) && final(self)@ == make_post(
                    old(self)@,
                    maker,
                    offered_mint,
                    requested_mint,
                    offered_amount,
                    requested_amount,
                ),
                Err(e) => !make_ok(
                    old(self)@,
                    maker,
                    offered_mint,
                    requested_mint,
                    offered_amount,
                    requested_amount,
                ) && e == make_err(
                    old(self)@,
                    maker,
                    offered_mint,
                    requested_mint,
                    offered_amount,
                    requested_amount,
                ) && final(self)@ == old(self)@,
            }),
    {
        if offered_amount == 0 {
            return Err(DealForgeError::InvalidOfferedMintAmount);
        }
        if requested_amount == 0 {
            return Err(DealForgeError::InvalidRequestedMintAmount);
        }
        let mb = self.bank.balance_of(Holder::User(maker), offered_mint);
        if mb < offered_amount {
            return Err(DealForgeError::InsufficientBalance);
        }
        let id = self.next_offer_id(maker);
        if id == u64::MAX {
            return Err(DealForgeError::CalculationOverflow);
        }
        let ghost v0 = self@;
        match self.find_counter(maker) {
            Some(i) => {
                let t = MakerCounter { maker, id: id + 1 };
                proof {
                    assert(counter_keyf()(t) == maker);
                    assert(counter_keyf()(self.counters@[i as int]) == maker);
                    assert(counter_valf()(t) == id + 1);
                    lemma_map_of_update(self.counters@, counter_keyf(), counter_valf(), i as int, t);
                }
                self.counters[i] = t;
            },
            None => {
                let t = MakerCounter { maker, id: id + 1 };
                proof {
                    assert(counter_keyf()(t) == maker);
                    assert(counter_valf()(t) == id + 1);
                    lemma_map_of_push(self.counters@, counter_keyf(), counter_valf(), t);
                }
                self.counters.push(t);
            },
        }
        let vp = derive_vault(maker, id);
        let vault = vp.0;
        proof {
            lemma_fresh_offer_slot(v0, maker);
            assert(bal(v0.balances, vault, offered_mint) == 0);
            assert(can_transfer(
                self.bank@,
                Holder::User(maker),
                vault,
                offered_mint,
                offered_amount,
                Authority::Signer(maker),
            ));
        }
        let tr = self.bank.transfer_tokens(
            Holder::User(maker),
            vault,
            offered_amount,
            offered_mint,
            Authority::Signer(maker),
        );
        match tr {
            Ok(_) => {},
            Err(e) => {
                return Err(e);
            },
        }
        let o = Offer { id, maker, offered_mint, requested_mint, offered_amount, requested_amount };
        proof {
            assert(offer_keyf()(o) == (maker, id));
            assert(offer_valf()(o) == o);
            lemma_map_of_dom(self.offers@, offer_keyf(), offer_valf(), (maker, id));
            lemma_map_of_push(self.offers@, offer_keyf(), offer_valf(), o);
        }
        self.offers.push(o);
        proof {
            lemma_make_preserves_inv(
                v0,
                maker,
                offered_mint,
                requested_mint,
                offered_amount,
                requested_amount,
            );
            assert(self@ =~= make_post(
                v0,
                maker,
                offered_mint,
                requested_mint,
                offered_amount,
                requested_amount,
            ));
        }
        Ok(id)
    }

    /// Fulfills a live offer: moves the requested payment from the taker to
    /// the maker under the taker's signature, then the vault's entire
    /// holding to the taker under the protocol's derived authority, closes
    /// the vault and deletes the offer.
    pub fn take_offer(&mut self, taker: u64, maker: u64, id: u64) -> (r: Result<
        (),
        DealForgeError,
    >)
        requires
            old(self).wf(),
        ensures
            final(self).wf(),
            (match r {
                Ok(_) => take_ok(old(self)@, taker, maker, id) && final(self)@ == take_post(
                    old(self)@,
                    taker,
                    maker,
                    id,
                ),
                Err(e) => !take_ok(old(self)@, taker, maker, id) && e == take_err(
                    old(self)@,
                    taker,
                    maker,
                    id,
                ) && final(self)@ == old(self)@,
            }),
    {
        let ghost v0 = self@;
        let oi = match self.find_offer(maker, id) {
            Some(i) => i,
            None => {
                proof {
                    lemma_map_of_dom(self.offers@, offer_keyf(), offer_valf(), (maker, id));
                }
                return Err(DealForgeError::OfferNotActive);
            },
        };
        proof {
            assert(offer_keyf()(self.offers@[oi as int]) == (maker, id));
            assert(offer_valf()(self.offers@[oi as int]) == self.offers@[oi as int]);
            lemma_map_of_at(self.offers@, offer_keyf(), offer_valf(), oi as int);
        }
        let o = self.offers[oi];
        let trb = self.bank.balance_of(Holder::User(taker), o.requested_mint);
        if trb < o.requested_amount {
            return Err(DealForgeError::InsufficientBalance);
        }
        if taker != maker {
            let mrb = self.bank.balance_of(Holder::User(maker), o.requested_mint);
            if mrb > u64::MAX - o.requested_amount {
                return Err(DealForgeError::CalculationOverflow);
            }
        }
        let vp = derive_vault(maker, id);
        let vault = vp.0;
        let vauth = vp.1;
        let vb0 = self.bank.balance_of(vault, o.offered_mint);
        let tob0 = self.bank.balance_of(Holder::User(taker), o.offered_mint);
        let tob1 = if o.offered_mint == o.requested_mint && taker != maker {
            tob0 - o.requested_amount
        } else {
            tob0
        };
        proof {
            let b1 = apply_transfer(
                v0.balances,
                Holder::User(taker),
                Holder::User(maker),
                o.requested_mint,
                o.requested_amount,
            );
            assert(bal(b1, vault, o.offered_mint) == vb0);
            assert(bal(b1, Holder::User(taker), o.offered_mint) == tob1);
        }
        if tob1 > u64::MAX - vb0 {
            return Err(DealForgeError::CalculationOverflow);
        }
        proof {
            assert(can_transfer(
                self.bank@,
                Holder::User(taker),
                Holder::User(maker),
                o.requested_mint,
                o.requested_amount,
                Authority::Signer(taker),
            ));
        }
        let tr1 = self.bank.transfer_tokens(
            Holder::User(taker),
            Holder::User(maker),
            o.requested_amount,
            o.requested_mint,
            Authority::Signer(taker),
        );
        match tr1 {
            Ok(_) => {},
            Err(e) => {
                return Err(e);
            },
        }
        let vb = self.bank.balance_of(vault, o.offered_mint);
        proof {
            assert(can_transfer(
                self.bank@,
                vault,
                Holder::User(taker),
                o.offered_mint,
                vb,
                vauth,
            ));
        }
        let tr2 = self.bank.transfer_tokens(
            vault,
            Holder::User(taker),
            vb,
            o.offered_mint,
            vauth,
        );
        match tr2 {
            Ok(_) => {},
            Err(e) => {
                return Err(e);
            },
        }
        proof {
            assert(can_close(self.bank@, vault, o.offered_mint, vauth));
        }
        let tr3 = self.bank.close_token_account(vault, o.offered_mint, vauth);
        match tr3 {
            Ok(_) => {},
            Err(e) => {
                return Err(e);
            },
        }
        proof {
            lemma_map_of_remove(self.offers@, offer_keyf(), offer_valf(), oi as int);
        }
        self.offers.remove(oi);
        proof {
            lemma_take_preserves_inv(v0, taker, maker, id);
            assert(self@ =~= take_post(v0, taker, maker, id));
        }
        Ok(())
    }

    /// Cancels a live offer on behalf of its recorded maker: moves the
    /// vault's entire holding back to the maker under the protocol's
    /// derived authority, closes the vault and deletes the offer.  The
    /// maker's counter is not rewound, so the identifier is never reused.
    pub fn refund_offer(&mut self, caller: u64, maker: u64, id: u64) -> (r: Result<
        (),
        DealForgeError,
    >)
        requires
            old(self).wf(),
        ensures
            final(self).wf(),
            (match r {
                Ok(_) => refund_ok(old(self)@, caller, maker, id) && final(self)@ == refund_post(
                    old(self)@,
                    caller,
                    maker,
                    id,
                ),
                Err(e) => !refund_ok(old(self)@, caller, maker, id) && e == refund_err(
                    old(self)@,
                    caller,
                    maker,
                    id,
                ) && final(self)@ == old(self)@,
            }),
    {
        let ghost v0 = self@;
        let oi = match self.find_offer(maker, id) {
            Some(i) => i,
            None => {
                proof {
                    lemma_map_of_dom(self.offers@, offer_keyf(), offer_valf(), (maker, id));
                }
                return Err(DealForgeError::OfferNotActive);
            },
        };
        proof {
            assert(offer_keyf()(self.offers@[oi as int]) == (maker, id));
            assert(offer_valf()(self.offers@[oi as int]) == self.offers@[oi as int]);
            lemma_map_of_at(self.offers@, offer_keyf(), offer_valf(), oi as int);
        }
        let o = self.offers[oi];
        if caller != o.maker {
            return Err(DealForgeError::UnauthorizedMaker);
        }
        let vp = derive_vault(maker, id);
        let vault = vp.0;
        let vauth = vp.1;
        let vb = self.bank.balance_of(vault, o.offered_mint);
        let mob = self.bank.balance_of(Holder::User(o.maker), o.offered_mint);
        if mob > u64::MAX - vb {
            return Err(DealForgeError::CalculationOverflow);
        }
        proof {
            assert(can_transfer(
                self.bank@,
                vault,
                Holder::User(o.maker),
                o.offered_mint,
                vb,
                vauth,
            ));
        }
        let tr1 = self.bank.transfer_tokens(
            vault,
            Holder::User(o.maker),
            vb,
            o.offered_mint,
            vauth,
        );
        match tr1 {
            Ok(_) => {},
            Err(e) => {
                return Err(e);
            },
        }
        proof {
            assert(can_close(self.bank@, vault, o.offered_mint, vauth));
        }
        let tr2 = self.bank.close_token_account(vault, o.offered_mint, vauth);
        match tr2 {
            Ok(_) => {},
            Err(e) => {
                return Err(e);
            },
        }
        proof {
            lemma_map_of_remove(self.offers@, offer_keyf(), offer_valf(), oi as int);
        }
        self.offers.remove(oi);
        proof {
            lemma_refund_preserves_inv(v0, caller, maker, id);
            assert(self@ =~= refund_post(v0, caller, maker, id));
        }
        Ok(())
    }
}

} // verus!
